//! Voice styles: nested lists of numbers turned into flat arrays.

use vstd::prelude::*;

use crate::strings::same_text;

verus! {

/// The type of number that a style holds.
pub const STYLE_TYPE: &'static str = "float32";

/// One component of a voice file: nested lists, with the lengths they should have
/// and the name of the type of their numbers.
#[derive(Debug)]
pub struct RawComponent<T> {
    pub data: Vec<Vec<Vec<T>>>,
    pub dims: Vec<usize>,
    pub dtype: String,
}

/// A three-dimensional array in row-major order.
#[derive(Debug)]
pub struct StyleArray<T> {
    pub dims: (usize, usize, usize),
    pub values: Vec<T>,
}

/// What is wrong with a component of a voice file.
#[derive(Debug, Clone, Copy, PartialEq, Eq, Structural)]
pub enum VoiceError {
    /// The numbers are not of the type of a style.
    Type,
    /// There are not three dimensions.
    Rank,
    /// There are `have` batches, not `want`.
    Batch { have: usize, want: usize },
    /// Batch `batch` has `have` rows, not `want`.
    Time { batch: usize, have: usize, want: usize },
    /// Row `time` of batch `batch` has `have` numbers, not `want`.
    Width { batch: usize, time: usize, have: usize, want: usize },
}

/// Where an element of a three-dimensional array stands in row-major order.
pub open spec fn row_major(b: int, t: int, d: int, times: int, width: int) -> int {
    (b * times + t) * width + d
}

impl<T> RawComponent<T> {
    /// Whether the first `n` rows of batch `b` have the right width.
    pub open spec fn rows_fit(self, b: int, n: int) -> bool {
        forall|t: int| 0 <= t < n ==> (#[trigger] self.data@[b]@[t])@.len() == self.dims@[2]
    }

    /// Whether the first `n` batches have the right lengths.
    pub open spec fn batches_fit(self, n: int) -> bool {
        forall|b: int|
            0 <= b < n ==> {
                &&& (#[trigger] self.data@[b])@.len() == self.dims@[1]
                &&& self.rows_fit(b, self.dims@[1] as int)
            }
    }

    /// Whether the type and the number of dimensions are those of a style.
    pub open spec fn is_style(self) -> bool {
        self.dtype@ == STYLE_TYPE@ && self.dims@.len() == 3
    }

    /// Whether `e` is the first thing wrong with the component, in the order: type,
    /// number of dimensions, number of batches, and then batch by batch the number
    /// of rows and their widths.
    pub open spec fn flawed_by(self, e: VoiceError) -> bool {
        match e {
            VoiceError::Type => self.dtype@ != STYLE_TYPE@,
            VoiceError::Rank => self.dtype@ == STYLE_TYPE@ && self.dims@.len() != 3,
            VoiceError::Batch { have, want } => {
                &&& self.is_style()
                &&& have == self.data@.len()
                &&& want == self.dims@[0]
                &&& have != want
            },
            VoiceError::Time { batch, have, want } => {
                &&& self.is_style()
                &&& self.data@.len() == self.dims@[0]
                &&& batch < self.data@.len()
                &&& self.batches_fit(batch as int)
                &&& have == self.data@[batch as int]@.len()
                &&& want == self.dims@[1]
                &&& have != want
            },
            VoiceError::Width { batch, time, have, want } => {
                &&& self.is_style()
                &&& self.data@.len() == self.dims@[0]
                &&& batch < self.data@.len()
                &&& self.batches_fit(batch as int)
                &&& self.data@[batch as int]@.len() == self.dims@[1]
                &&& time < self.dims@[1]
                &&& self.rows_fit(batch as int, time as int)
                &&& have == self.data@[batch as int]@[time as int]@.len()
                &&& want == self.dims@[2]
                &&& have != want
            },
        }
    }

    /// Whether `a` holds the numbers of the component in row-major order.
    pub open spec fn laid_out_as(self, a: StyleArray<T>) -> bool {
        &&& self.is_style()
        &&& self.data@.len() == self.dims@[0]
        &&& self.batches_fit(self.data@.len() as int)
        &&& a.dims == (self.dims@[0], self.dims@[1], self.dims@[2])
        &&& a.values@.len() == self.dims@[0] * self.dims@[1] * self.dims@[2]
        &&& self.laid_out(
            a.values@,
            self.data@.len() as int,
            0,
        )
    }

    /// Whether `values` holds the first `batches` batches and the first `rows` rows
    /// of the next one.
    pub open spec fn laid_out(self, values: Seq<T>, batches: int, rows: int) -> bool {
        forall|b: int, t: int, d: int|
            #![trigger self.data@[b]@[t]@[d]]
            0 <= b && 0 <= t < self.dims@[1] && 0 <= d < self.dims@[2] && (b < batches || (b
                == batches && t < rows)) ==> values[row_major(
                b,
                t,
                d,
                self.dims@[1] as int,
                self.dims@[2] as int,
            )] == self.data@[b]@[t]@[d]
    }
}

/// An element of an earlier row stands before the rows that follow.
proof fn lemma_row_major(b: int, t: int, d: int, times: int, width: int, batches: int, rows: int)
    requires
        0 <= b,
        0 <= t < times,
        0 <= d < width,
        0 <= rows <= times,
        b < batches || (b == batches && t < rows),
    ensures
        0 <= row_major(b, t, d, times, width) < (batches * times + rows) * width,
{
    assert(b * times + t + 1 <= batches * times + rows) by (nonlinear_arith)
        requires
            0 <= b,
            0 <= t < times,
            0 <= rows <= times,
            b < batches || (b == batches && t < rows),
    ;
    assert(0 <= b * times) by (nonlinear_arith)
        requires
            0 <= b,
            0 < times,
    ;
    let k = b * times + t;
    let n = batches * times + rows;
    assert(0 <= k * width && k * width + width <= n * width) by (nonlinear_arith)
        requires
            0 <= k,
            k + 1 <= n,
            0 < width,
    ;
}

/// Turns a component of a voice file into a flat array, or says what is wrong with
/// it first.
pub fn component_to_array<T: Copy>(c: &RawComponent<T>) -> (r: Result<StyleArray<T>, VoiceError>)
    ensures
        match r {
            Ok(a) => c.laid_out_as(a),
            Err(e) => c.flawed_by(e),
        },
{
    if !same_text(c.dtype.as_str(), STYLE_TYPE) {
        return Err(VoiceError::Type);
    }
    if c.dims.len() != 3 {
        return Err(VoiceError::Rank);
    }
    let batches: usize = c.dims[0];
    let times: usize = c.dims[1];
    let width: usize = c.dims[2];
    if c.data.len() != batches {
        return Err(VoiceError::Batch { have: c.data.len(), want: batches });
    }
    let mut values: Vec<T> = Vec::new();
    assert(0 * times * width == 0) by (nonlinear_arith);
    for bi in 0..batches
        invariant
            c.is_style(),
            c.dims@[0] == batches,
            c.dims@[1] == times,
            c.dims@[2] == width,
            c.data@.len() == batches,
            c.batches_fit(bi as int),
            values@.len() == bi * times * width,
            c.laid_out(values@, bi as int, 0),
    {
        let batch = &c.data[bi];
        if batch.len() != times {
            return Err(VoiceError::Time { batch: bi, have: batch.len(), want: times });
        }
        assert((bi * times + 0) * width == bi * times * width);
        for ti in 0..times
            invariant
                c.is_style(),
                c.dims@[0] == batches,
                c.dims@[1] == times,
                c.dims@[2] == width,
                c.data@.len() == batches,
                c.batches_fit(bi as int),
                bi < batches,
                *batch == c.data@[bi as int],
                batch@.len() == times,
                c.rows_fit(bi as int, ti as int),
                values@.len() == (bi * times + ti) * width,
                c.laid_out(values@, bi as int, ti as int),
        {
            let row = &batch[ti];
            if row.len() != width {
                return Err(
                    VoiceError::Width { batch: bi, time: ti, have: row.len(), want: width },
                );
            }
            let ghost before = values@;
            for di in 0..width
                invariant
                    row@.len() == width,
                    values@ == before + row@.take(di as int),
            {
                values.push(row[di]);
                assert(values@ == before + row@.take(di + 1));
            }
            assert(row@.take(width as int) == row@);
            proof {
                assert((bi * times + (ti + 1)) * width == (bi * times + ti) * width + width)
                    by (nonlinear_arith);
                assert forall|b: int, t: int, d: int|
                    #![trigger c.data@[b]@[t]@[d]]
                    0 <= b && 0 <= t < times && 0 <= d < width && (b < bi || (b == bi && t < ti
                        + 1)) implies values@[row_major(b, t, d, times as int, width as int)]
                    == c.data@[b]@[t]@[d] by {
                    if b < bi || t < ti {
                        lemma_row_major(
                            b,
                            t,
                            d,
                            times as int,
                            width as int,
                            bi as int,
                            ti as int,
                        );
                        assert(before[row_major(b, t, d, times as int, width as int)]
                            == c.data@[b]@[t]@[d]);
                    } else {
                        assert(c.data@[b]@[t] == *row);
                    }
                }
            }
        }
        assert((bi * times + times) * width == (bi + 1) * times * width) by (nonlinear_arith);
    }
    Ok(StyleArray { dims: (batches, times, width), values })
}

/// The two components of a voice.
#[derive(Debug, Clone, Copy, PartialEq, Eq, Structural)]
pub enum Component {
    /// What the text encoder and the vector estimator go by.
    Ttl,
    /// What the duration predictor goes by.
    Dp,
}

/// A voice: the styles that the networks go by.
#[derive(Debug)]
pub struct VoiceStyle<T> {
    pub ttl: StyleArray<T>,
    pub dp: StyleArray<T>,
}

impl<T: Copy> VoiceStyle<T> {
    /// Assembles a voice from its components, or says which is wrong first, and how.
    pub fn load(style_ttl: &RawComponent<T>, style_dp: &RawComponent<T>) -> (r: Result<
        Self,
        (Component, VoiceError),
    >)
        ensures
            match r {
                Ok(v) => style_ttl.laid_out_as(v.ttl) && style_dp.laid_out_as(v.dp),
                Err((Component::Ttl, e)) => style_ttl.flawed_by(e),
                Err((Component::Dp, e)) => style_dp.flawed_by(e) && exists|a: StyleArray<T>|
                    style_ttl.laid_out_as(a),
            },
    {
        let ttl = match component_to_array(style_ttl) {
            Ok(a) => a,
            Err(e) => {
                return Err((Component::Ttl, e));
            },
        };
        match component_to_array(style_dp) {
            Ok(dp) => Ok(VoiceStyle { ttl, dp }),
            Err(e) => Err((Component::Dp, e)),
        }
    }
}

/// A component with nothing wrong with it is accepted: no error fits it.
pub proof fn law_sound_component_accepted<T>(c: RawComponent<T>, e: VoiceError)
    requires
        c.is_style(),
        c.data@.len() == c.dims@[0],
        c.batches_fit(c.data@.len() as int),
    ensures
        !c.flawed_by(e),
{
    match e {
        VoiceError::Time { batch, .. } => {
            if batch < c.data@.len() {
                assert(c.data@[batch as int]@.len() == c.dims@[1]);
            }
        },
        VoiceError::Width { batch, time, .. } => {
            if batch < c.data@.len() {
                assert(c.data@[batch as int]@.len() == c.dims@[1]);
                if time < c.dims@[1] {
                    assert(c.data@[batch as int]@[time as int]@.len() == c.dims@[2]);
                }
            }
        },
        _ => {},
    }
}

/// An array stands batch after batch, in a batch row after row, in a row number after
/// number, with no place left out.
pub proof fn law_row_major_order(b: int, t: int, d: int, times: int, width: int)
    ensures
        row_major(0, 0, 0, times, width) == 0,
        row_major(b, t, d + 1, times, width) == row_major(b, t, d, times, width) + 1,
        row_major(b, t + 1, 0, times, width) == row_major(b, t, width - 1, times, width) + 1,
        row_major(b + 1, 0, 0, times, width) == row_major(
            b,
            times - 1,
            width - 1,
            times,
            width,
        ) + 1,
{
    assert((b * times + t + 1) * width == (b * times + t) * width + width) by (nonlinear_arith);
    assert(((b + 1) * times) * width == (b * times + times - 1) * width + width)
        by (nonlinear_arith);
    assert((0 * times + 0) * width == 0) by (nonlinear_arith);
    assert(b * times + (t + 1) == b * times + t + 1);
}

/// A component is flawed where its type is another, where it has not three dimensions, or
/// where its lists are not as long as these say; an array that it is laid out as has its
/// numbers in order.
pub proof fn law_flaws<T>(c: RawComponent<T>, a: StyleArray<T>, b: int, t: int, d: int)
    requires
        c.laid_out_as(a),
        0 <= b < c.dims@[0],
        0 <= t < c.dims@[1],
        0 <= d < c.dims@[2],
    ensures
        c.dtype@ == "float32"@,
        c.dims@.len() == 3,
        c.data@.len() == c.dims@[0],
        c.data@[b]@.len() == c.dims@[1],
        c.data@[b]@[t]@.len() == c.dims@[2],
        a.values@[(b * c.dims@[1] + t) * c.dims@[2] + d] == c.data@[b]@[t]@[d],
{
    assert(c.rows_fit(b, c.dims@[1] as int));
    assert(c.data@[b]@[t]@[d] == c.data@[b]@[t]@[d]);
}

} // verus!
