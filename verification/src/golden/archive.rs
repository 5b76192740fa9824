//! Archives of named tensors.

use vstd::prelude::*;

verus! {

/// An archive that `safetensors` has read.
#[verifier::external_type_specification]
#[verifier::external_body]
pub struct ExSafeTensors<'data>(safetensors::SafeTensors<'data>);

/// The error that `safetensors` reports.
#[verifier::external_type_specification]
#[verifier::external_body]
pub struct ExSafeTensorError(safetensors::SafeTensorError);

/// A tensor of an archive: whether its elements are single-precision numbers, its
/// dimensions and its bytes.
#[derive(Debug)]
pub struct StoredTensor {
    pub single: bool,
    pub dims: Vec<usize>,
    pub data: Vec<u8>,
}

/// A tensor of single-precision numbers, each by its bits.
#[derive(Debug)]
pub struct SingleTensor {
    pub dims: Vec<usize>,
    pub bits: Vec<u32>,
}

/// A tensor of 64-bit integers.
#[derive(Debug)]
pub struct IntegerTensor {
    pub dims: Vec<usize>,
    pub values: Vec<i64>,
}

/// What is wrong with an archive, or with a tensor of it.
#[derive(Debug, Clone, Copy, PartialEq, Eq, Structural)]
pub enum ArchiveError {
    /// The bytes are no archive.
    Malformed,
    /// There is no tensor of that name.
    Missing,
    /// The tensor has another number of dimensions.
    Rank,
    /// The elements are not single-precision numbers.
    Type,
    /// There are not as many elements as the dimensions say.
    Length,
}

// ---------------------------------------------------------------------------
// Numbers in bytes
// ---------------------------------------------------------------------------

/// The number that `n` bytes from position `i` hold, the least significant first.
pub open spec fn little_endian(s: Seq<u8>, i: int, n: nat) -> int
    decreases n,
{
    if n == 0 {
        0
    } else {
        s[i] + 256 * little_endian(s, i + 1, (n - 1) as nat)
    }
}

/// The signed number with the same 64 bits.
pub open spec fn signed(u: int) -> int {
    if u < 0x8000_0000_0000_0000 {
        u
    } else {
        u - 0x1_0000_0000_0000_0000
    }
}

/// Reads four bytes.
fn read4(s: &[u8], i: usize) -> (r: u32)
    requires
        i + 4 <= s@.len(),
    ensures
        r == little_endian(s@, i as int, 4),
{
    reveal_with_fuel(little_endian, 5);
    assert(i + 4 <= s.len());
    let v: u32 = s[i + 3] as u32;
    let v: u32 = v * 256 + s[i + 2] as u32;
    let v: u32 = v * 256 + s[i + 1] as u32;
    v * 256 + s[i] as u32
}

/// Reads eight bytes.
fn read8(s: &[u8], i: usize) -> (r: u64)
    requires
        i + 8 <= s@.len(),
    ensures
        r == little_endian(s@, i as int, 8),
{
    reveal_with_fuel(little_endian, 9);
    assert(i + 8 <= s.len());
    let v: u64 = s[i + 7] as u64;
    let v: u64 = v * 256 + s[i + 6] as u64;
    let v: u64 = v * 256 + s[i + 5] as u64;
    let v: u64 = v * 256 + s[i + 4] as u64;
    let v: u64 = v * 256 + s[i + 3] as u64;
    let v: u64 = v * 256 + s[i + 2] as u64;
    let v: u64 = v * 256 + s[i + 1] as u64;
    v * 256 + s[i] as u64
}

/// The signed number with the same bits.
fn to_signed(u: u64) -> (r: i64)
    ensures
        r == signed(u as int),
{
    if u < 0x8000_0000_0000_0000 {
        u as i64
    } else {
        let below: u64 = u64::MAX - u;
        -(below as i64) - 1
    }
}

/// The product of dimensions.
pub open spec fn product(dims: Seq<usize>) -> int
    decreases dims.len(),
{
    if dims.len() == 0 {
        1
    } else {
        product(dims.drop_last()) * dims.last()
    }
}

/// Whether the product of the dimensions is `n`.
fn product_is(dims: &Vec<usize>, n: usize) -> (r: bool)
    ensures
        r == (product(dims@) == n),
{
    let mut zero = false;
    let mut k: usize = 0;
    assert(dims@.take(0) == Seq::<usize>::empty());
    while k < dims.len()
        invariant
            k <= dims@.len(),
            product(dims@.take(k as int)) >= 0,
            zero <==> product(dims@.take(k as int)) == 0,
        decreases dims@.len() - k,
    {
        proof {
            lemma_product_step(dims@, k as int);
        }
        if dims[k] == 0 {
            zero = true;
        }
        k = k + 1;
    }
    assert(dims@.take(dims@.len() as int) == dims@);
    if zero {
        return n == 0;
    }
    let mut so_far: usize = 1;
    k = 0;
    while k < dims.len()
        invariant
            k <= dims@.len(),
            product(dims@) > 0,
            so_far == product(dims@.take(k as int)),
        decreases dims@.len() - k,
    {
        proof {
            lemma_product_step(dims@, k as int);
            lemma_product_grows(dims@, k + 1);
        }
        match so_far.checked_mul(dims[k]) {
            Some(v) => {
                so_far = v;
            },
            None => {
                return false;
            },
        }
        k = k + 1;
    }
    so_far == n
}

/// One dimension more.
proof fn lemma_product_step(dims: Seq<usize>, k: int)
    requires
        0 <= k < dims.len(),
    ensures
        product(dims.take(k + 1)) == product(dims.take(k)) * dims[k],
        product(dims.take(k)) >= 0 ==> product(dims.take(k + 1)) >= 0,
        product(dims.take(k)) >= 0 ==> (product(dims.take(k + 1)) == 0 <==> product(dims.take(k))
            == 0 || dims[k] == 0),
{
    assert(dims.take(k + 1).drop_last() == dims.take(k));
    let p = product(dims.take(k));
    let d = dims[k] as int;
    assert(p >= 0 && d >= 0 ==> p * d >= 0 && (p * d == 0 <==> p == 0 || d == 0))
        by (nonlinear_arith);
}

/// Where no dimension is zero, the product of the first is no larger than that of
/// all.
proof fn lemma_product_grows(dims: Seq<usize>, k: int)
    requires
        0 <= k <= dims.len(),
        product(dims) > 0,
    ensures
        0 < product(dims.take(k)) <= product(dims),
    decreases dims.len() - k,
{
    if k < dims.len() {
        lemma_product_grows(dims, k + 1);
        lemma_product_nonnegative(dims.take(k));
        lemma_product_step(dims, k);
        let p = product(dims.take(k));
        let d = dims[k] as int;
        assert(0 < p && p <= p * d) by (nonlinear_arith)
            requires
                p >= 0,
                d >= 0,
                p * d > 0,
        ;
    } else {
        assert(dims.take(k) == dims);
    }
}

proof fn lemma_product_nonnegative(dims: Seq<usize>)
    ensures
        product(dims) >= 0,
    decreases dims.len(),
{
    if dims.len() > 0 {
        lemma_product_nonnegative(dims.drop_last());
        assert(product(dims.drop_last()) * dims.last() >= 0) by (nonlinear_arith)
            requires
                product(dims.drop_last()) >= 0,
        ;
    }
}

// ---------------------------------------------------------------------------
// The header
// ---------------------------------------------------------------------------

/// The header of an archive: its length stands in the first eight bytes.
pub open spec fn header(bytes: Seq<u8>) -> Seq<u8> {
    if bytes.len() < 8 || little_endian(bytes, 0, 8) > bytes.len() - 8 {
        seq![]
    } else {
        bytes.subrange(8, 8 + little_endian(bytes, 0, 8))
    }
}

/// Where the data of the tensors end that `serde_json::from_slice` finds in a header, read
/// as the `Metadata` of `safetensors`.
pub uninterp spec fn tensor_ends(header: Seq<u8>) -> Option<Set<usize>>;

/// Calls `serde_json::from_slice` for the `Metadata` of `safetensors`, and takes the end of
/// the data of each tensor that it lists. Which ends there are depends on the header
/// alone; their order is left open.
#[verifier::external_body]
fn header_ends(header: &[u8]) -> (r: Option<Vec<usize>>)
    ensures
        match r {
            Some(list) => tensor_ends(header@) == Some(list@.to_set()),
            None => tensor_ends(header@) is None,
        },
{
    let metadata: safetensors::tensor::Metadata = serde_json::from_slice(header).ok()?;
    Some(metadata.tensors().values().map(|info| info.data_offsets.1).collect())
}

/// Whether one of the ends, behind a header of `n` bytes and its length, is no machine
/// word.
pub open spec fn past(ends: Set<usize>, n: int) -> bool {
    exists|e: usize| #[trigger] ends.contains(e) && e + 8 + n > usize::MAX
}

/// Whether the header of an archive has a tensor end where no archive can.
pub open spec fn oversized(bytes: Seq<u8>) -> bool {
    match tensor_ends(header(bytes)) {
        None => false,
        Some(ends) => past(ends, header(bytes).len() as int),
    }
}

/// Takes the header of an archive.
fn header_of(bytes: &[u8]) -> (r: &[u8])
    ensures
        r@ == header(bytes@),
        8 + r@.len() <= usize::MAX,
{
    if bytes.len() >= 8 {
        let n: u64 = read8(bytes, 0);
        let room: u64 = (bytes.len() - 8) as u64;
        if n <= room {
            return vstd::slice::slice_subrange(bytes, 8, 8 + n as usize);
        }
    }
    vstd::slice::slice_subrange(bytes, 0, 0)
}

/// Tells whether the header of an archive has a tensor end where no archive can.
fn is_oversized(bytes: &[u8]) -> (r: bool)
    ensures
        r == oversized(bytes@),
{
    let head = header_of(bytes);
    let most: usize = usize::MAX - 8 - head.len();
    match header_ends(head) {
        None => false,
        Some(ends) => {
            let ghost all = ends@.to_set();
            for i in 0..ends.len()
                invariant
                    head@ == header(bytes@),
                    most == usize::MAX - 8 - head@.len(),
                    tensor_ends(head@) == Some(all),
                    all == ends@.to_set(),
                    forall|k: int| 0 <= k < i ==> #[trigger] ends@[k] <= most,
            {
                if ends[i] > most {
                    assert(all.contains(ends@[i as int]));
                    assert(past(all, head@.len() as int));
                    return true;
                }
            }
            false
        },
    }
}

// ---------------------------------------------------------------------------
// Archives
// ---------------------------------------------------------------------------

/// The tensors that `SafeTensors::deserialize` finds in an archive, by name: whether
/// the elements are of type `F32`, the shape, and the bytes.
pub uninterp spec fn archived(bytes: Seq<u8>) -> Option<
    Map<Seq<char>, (bool, Seq<usize>, Seq<u8>)>,
>;

/// The tensors of an archive that was read.
pub uninterp spec fn entries(archive: safetensors::SafeTensors<'_>) -> Map<
    Seq<char>,
    (bool, Seq<usize>, Seq<u8>),
>;

/// Calls `SafeTensors::deserialize`, which reads the header and checks it against the
/// length of the archive. The result depends on the bytes alone. The end of the data is
/// added to the length of the header without a test for overflow, so a header is left
/// out where that sum is no machine word.
#[verifier::external_body]
fn deserialize(bytes: &[u8]) -> (r: Result<
    safetensors::SafeTensors<'_>,
    safetensors::SafeTensorError,
>)
    requires
        !oversized(bytes@),
    ensures
        match r {
            Ok(archive) => archived(bytes@) == Some(entries(archive)),
            Err(_) => archived(bytes@) is None,
        },
{
    safetensors::SafeTensors::deserialize(bytes)
}

/// Calls `SafeTensors::tensor`, which looks a tensor up by its name, and copies what
/// the view holds. The bytes are as many as the shape and the type ask for: four for
/// each element of type `F32`.
#[verifier::external_body]
fn find(archive: &safetensors::SafeTensors<'_>, name: &str) -> (r: Option<StoredTensor>)
    ensures
        match r {
            Some(t) => {
                &&& entries(*archive).contains_pair(name@, (t.single, t.dims@, t.data@))
                &&& t.single ==> t.data@.len() == 4 * product(t.dims@)
            },
            None => !entries(*archive).contains_key(name@),
        },
{
    let view = archive.tensor(name).ok()?;
    let single = match view.dtype() {
        safetensors::Dtype::F32 => true,
        _ => false,
    };
    Some(StoredTensor { single, dims: view.shape().to_vec(), data: view.data().to_vec() })
}

/// What a name stands for in an archive. No bytes are an archive whose header has a tensor
/// end past them.
pub open spec fn stored(bytes: Seq<u8>, name: Seq<char>) -> Result<
    (bool, Seq<usize>, Seq<u8>),
    ArchiveError,
> {
    if oversized(bytes) {
        Err(ArchiveError::Malformed)
    } else {
        match archived(bytes) {
            None => Err(ArchiveError::Malformed),
            Some(map) => if map.contains_key(name) {
                Ok(map[name])
            } else {
                Err(ArchiveError::Missing)
            },
        }
    }
}

/// Reads a tensor of an archive.
pub fn read_tensor(bytes: &[u8], name: &str) -> (r: Result<StoredTensor, ArchiveError>)
    ensures
        match r {
            Ok(t) => {
                &&& stored(bytes@, name@) == Ok::<(bool, Seq<usize>, Seq<u8>), ArchiveError>(
                    (t.single, t.dims@, t.data@),
                )
                &&& t.single ==> t.data@.len() == 4 * product(t.dims@)
            },
            Err(e) => stored(bytes@, name@) == Err::<(bool, Seq<usize>, Seq<u8>), ArchiveError>(e),
        },
{
    if is_oversized(bytes) {
        return Err(ArchiveError::Malformed);
    }
    match deserialize(bytes) {
        Err(_) => Err(ArchiveError::Malformed),
        Ok(archive) => match find(&archive, name) {
            Some(t) => Ok(t),
            None => Err(ArchiveError::Missing),
        },
    }
}

// ---------------------------------------------------------------------------
// Elements
// ---------------------------------------------------------------------------

/// The elements of four bytes each, as far as the bytes go.
pub open spec fn words4(data: Seq<u8>) -> Seq<int> {
    Seq::new((data.len() / 4) as nat, |i: int| little_endian(data, 4 * i, 4))
}

/// The signed elements of eight bytes each, as far as the bytes go.
pub open spec fn words8(data: Seq<u8>) -> Seq<int> {
    Seq::new((data.len() / 8) as nat, |i: int| signed(little_endian(data, 8 * i, 8)))
}

/// Machine words as numbers.
pub open spec fn numbers4(list: Seq<u32>) -> Seq<int> {
    list.map_values(|v: u32| v as int)
}

/// Machine words as numbers.
pub open spec fn numbers8(list: Seq<i64>) -> Seq<int> {
    list.map_values(|v: i64| v as int)
}

/// What decoding a tensor of single-precision numbers reports, if anything.
pub open spec fn single_flaw(single: bool, dims: Seq<usize>, data: Seq<u8>, rank: Option<usize>) ->
    Option<ArchiveError> {
    if rank is Some && dims.len() != rank->0 {
        Some(ArchiveError::Rank)
    } else if !single {
        Some(ArchiveError::Type)
    } else if data.len() / 4 != product(dims) {
        Some(ArchiveError::Length)
    } else {
        None
    }
}

/// Decodes a tensor of single-precision numbers, with a given number of dimensions
/// where one is asked for.
pub fn decode_single(t: StoredTensor, rank: Option<usize>) -> (r: Result<SingleTensor, ArchiveError>)
    ensures
        match r {
            Ok(s) => {
                &&& single_flaw(t.single, t.dims@, t.data@, rank) is None
                &&& s.dims@ == t.dims@
                &&& numbers4(s.bits@) == words4(t.data@)
                &&& s.bits@.len() == product(t.dims@)
            },
            Err(e) => single_flaw(t.single, t.dims@, t.data@, rank) == Some(e),
        },
{
    if let Some(n) = rank {
        if t.dims.len() != n {
            return Err(ArchiveError::Rank);
        }
    }
    if !t.single {
        return Err(ArchiveError::Type);
    }
    let total: usize = t.data.len();
    let n: usize = total / 4;
    if !product_is(&t.dims, n) {
        return Err(ArchiveError::Length);
    }
    let mut bits: Vec<u32> = Vec::new();
    for i in 0..n
        invariant
            total == t.data@.len(),
            n == total / 4,
            numbers4(bits@) == words4(t.data@).take(i as int),
    {
        let ghost before = bits@;
        let v: u32 = read4(t.data.as_slice(), 4 * i);
        bits.push(v);
        assert(numbers4(bits@) == numbers4(before).push(v as int));
        assert(words4(t.data@).take(i + 1) == words4(t.data@).take(i as int).push(v as int));
    }
    assert(words4(t.data@).take(n as int) == words4(t.data@));
    assert(numbers4(bits@).len() == bits@.len());
    Ok(SingleTensor { dims: t.dims, bits })
}

/// Decodes a tensor of 64-bit integers.
pub fn decode_integers(t: StoredTensor) -> (r: IntegerTensor)
    ensures
        r.dims@ == t.dims@,
        numbers8(r.values@) == words8(t.data@),
{
    let total: usize = t.data.len();
    let n: usize = total / 8;
    let mut values: Vec<i64> = Vec::new();
    for i in 0..n
        invariant
            total == t.data@.len(),
            n == total / 8,
            numbers8(values@) == words8(t.data@).take(i as int),
    {
        let ghost before = values@;
        let v: i64 = to_signed(read8(t.data.as_slice(), 8 * i));
        values.push(v);
        assert(numbers8(values@) == numbers8(before).push(v as int));
        assert(words8(t.data@).take(i + 1) == words8(t.data@).take(i as int).push(v as int));
    }
    assert(words8(t.data@).take(n as int) == words8(t.data@));
    IntegerTensor { dims: t.dims, values }
}

/// Reads a tensor of single-precision numbers from an archive, with a given number of
/// dimensions where one is asked for.
pub fn load_single(bytes: &[u8], name: &str, rank: Option<usize>) -> (r: Result<
    SingleTensor,
    ArchiveError,
>)
    ensures
        match stored(bytes@, name@) {
            Err(e) => r == Err::<SingleTensor, ArchiveError>(e),
            Ok((single, dims, data)) => match single_flaw(single, dims, data, rank) {
                Some(e) => r == Err::<SingleTensor, ArchiveError>(e) && e != ArchiveError::Length,
                None => r matches Ok(s) && s.dims@ == dims && numbers4(s.bits@) == words4(data),
            },
        },
{
    match read_tensor(bytes, name) {
        Err(e) => Err(e),
        Ok(t) => decode_single(t, rank),
    }
}

/// Reads a tensor of 64-bit integers from an archive.
pub fn load_integers(bytes: &[u8], name: &str) -> (r: Result<IntegerTensor, ArchiveError>)
    ensures
        match stored(bytes@, name@) {
            Err(e) => r == Err::<IntegerTensor, ArchiveError>(e),
            Ok((_, dims, data)) => r matches Ok(t) && t.dims@ == dims && numbers8(t.values@)
                == words8(data),
        },
{
    match read_tensor(bytes, name) {
        Err(e) => Err(e),
        Ok(t) => Ok(decode_integers(t)),
    }
}

// ---------------------------------------------------------------------------
// Laws
// ---------------------------------------------------------------------------

/// The elements of four bytes stand one after the other, each with its least significant
/// byte first.
pub proof fn law_four_bytes(data: Seq<u8>, i: int)
    requires
        0 <= i,
        4 * i + 4 <= data.len(),
    ensures
        words4(data).len() == data.len() / 4,
        words4(data)[i] == data[4 * i] + 0x100 * data[4 * i + 1] + 0x1_0000 * data[4 * i + 2]
            + 0x100_0000 * data[4 * i + 3],
{
    reveal_with_fuel(little_endian, 5);
}

/// The elements of eight bytes stand one after the other, each with its least significant
/// byte first; the last byte counts as negative from 128 on.
pub proof fn law_eight_bytes(data: Seq<u8>, i: int)
    requires
        0 <= i,
        8 * i + 8 <= data.len(),
    ensures
        words8(data).len() == data.len() / 8,
        words8(data)[i] == data[8 * i] + 0x100 * data[8 * i + 1] + 0x1_0000 * data[8 * i + 2]
            + 0x100_0000 * data[8 * i + 3] + 0x1_0000_0000 * data[8 * i + 4] + 0x100_0000_0000
            * data[8 * i + 5] + 0x1_0000_0000_0000 * data[8 * i + 6] + 0x100_0000_0000_0000 * if data[8
            * i + 7] < 128 {
            data[8 * i + 7] as int
        } else {
            data[8 * i + 7] - 256
        },
{
    reveal_with_fuel(little_endian, 9);
}

/// The number of elements is the product of the dimensions; none of them is left out.
pub proof fn law_element_count(dims: Seq<usize>, n: usize)
    ensures
        product(Seq::<usize>::empty()) == 1,
        product(dims.push(n)) == product(dims) * n,
{
    assert(dims.push(n).drop_last() == dims);
}

/// A tensor of single-precision numbers is refused where it has not the dimensions that are
/// asked for, else where its elements are of another type, else where there are not as many
/// as its dimensions say, and only then.
pub proof fn law_single_refused(
    single: bool,
    dims: Seq<usize>,
    data: Seq<u8>,
    rank: Option<usize>,
)
    ensures
        ({
            let ranked = rank is None || rank == Some(dims.len() as usize) && dims.len()
                <= usize::MAX;
            let flaw = single_flaw(single, dims, data, rank);
            &&& flaw == Some(ArchiveError::Rank) <==> !ranked
            &&& flaw == Some(ArchiveError::Type) <==> ranked && !single
            &&& flaw == Some(ArchiveError::Length) <==> ranked && single && data.len() / 4
                != product(dims)
            &&& flaw is None <==> ranked && single && data.len() / 4 == product(dims)
        }),
{
}

} // verus!
