//! The recorded results of the duration predictor.

use vstd::prelude::*;

use crate::golden::names::{
    attn_names, behind, computed, convnext_names, ffn_names, given, lemma_computed_behind,
    lemma_stack_names, norm_name, pairs, push_attn, push_behind, push_ffn, push_stack, stack_names,
    sum_name,
};
use crate::model::candle::attention::{
    attn_seen, encoder_layer_seen, encoder_parts, encoder_seen, encoder_value, ffn_seen,
    EncoderParts,
};
use crate::model::candle::duration_predictor::{
    attention, convnext, duration_parts, duration_seen, predicted_seen, DurationParts, ATTN_ROOT,
    CONVNEXT_ROOT, DILATIONS, DWCONV_NAME,
};
use crate::model::candle::graph::Expr;
use crate::model::candle::layers::{stack_seen, NamingView};
use crate::strings::{decimal, join_number, owned};

verus! {

/// What the names of recorded results begin with: those of the network, of its
/// blocks, and of its encoder.
pub const PREFIX: &'static str = "duration_predictor/";

pub const BLOCK_PREFIX: &'static str = "duration_predictor/convnext/";

pub const LAYER_PREFIX: &'static str = "duration_predictor/attn_encoder/";

/// The names of encoder layer `i`.
pub open spec fn layer_names(i: int) -> Seq<Seq<char>> {
    attn_names(i) + seq![sum_name(2 * i), norm_name("norm_layers_1.", i)] + ffn_names(i) + seq![
        sum_name(2 * i + 1),
        norm_name("norm_layers_2.", i),
    ]
}

/// The results of encoder layer `i`.
pub open spec fn layer_map(i: int) -> Seq<(Seq<char>, Seq<char>)> {
    behind(LAYER_PREFIX@, attn_names(i)) + behind(PREFIX@, seq![sum_name(2 * i)]) + behind(
        LAYER_PREFIX@,
        seq![norm_name("norm_layers_1.", i)],
    ) + behind(LAYER_PREFIX@, ffn_names(i)) + behind(PREFIX@, seq![sum_name(2 * i + 1)]) + behind(
        LAYER_PREFIX@,
        seq![norm_name("norm_layers_2.", i)],
    )
}

/// The names after the encoder.
pub open spec fn last_names() -> Seq<Seq<char>> {
    seq![
        "Add_output_0"@,
        "proj_out/net/Conv_output_0"@,
        "layers.0/Gemm_output_0"@,
        "activation/PRelu_output_0"@,
        "layers.1/Gemm_output_0"@,
    ]
}

/// The recorded results and the computed ones, in the order in which they are computed.
pub open spec fn duration_map() -> Seq<(Seq<char>, Seq<char>)> {
    behind(BLOCK_PREFIX@, stack_names(DWCONV_NAME@, 6)) + layer_map(0) + layer_map(1) + behind(
        PREFIX@,
        last_names(),
    )
}

/// Appends the results of encoder layer `i`.
fn push_layer(out: &mut Vec<(String, String)>, i: usize)
    requires
        i < 2,
    ensures
        pairs(final(out)@) == pairs(old(out)@) + layer_map(i as int),
{
    let ghost s0 = pairs(out@);
    let norm = "/norm/LayerNormalization_output_0";
    push_attn(out, LAYER_PREFIX, i);
    let ghost s1 = pairs(out@);
    push_behind(out, PREFIX, join_number("attn_encoder/Add_", 2 * i, "_output_0"));
    let ghost s2 = pairs(out@);
    push_behind(out, LAYER_PREFIX, join_number("norm_layers_1.", i, norm));
    let ghost s3 = pairs(out@);
    push_ffn(out, LAYER_PREFIX, i);
    let ghost s4 = pairs(out@);
    push_behind(out, PREFIX, join_number("attn_encoder/Add_", 2 * i + 1, "_output_0"));
    let ghost s5 = pairs(out@);
    push_behind(out, LAYER_PREFIX, join_number("norm_layers_2.", i, norm));
    proof {
        let s6 = pairs(out@);
        let n = i as int;
        assert(s2 == s1 + behind(PREFIX@, seq![sum_name(2 * n)]));
        assert(s3 == s2 + behind(LAYER_PREFIX@, seq![norm_name("norm_layers_1.", n)]));
        assert(s5 == s4 + behind(PREFIX@, seq![sum_name(2 * n + 1)]));
        assert(s6 == s5 + behind(LAYER_PREFIX@, seq![norm_name("norm_layers_2.", n)]));
        assert(s6 == s0 + layer_map(n));
    }
}

/// The recorded results and the computed ones, in the order in which they are computed.
pub fn hook_map() -> (r: Vec<(String, String)>)
    ensures
        pairs(r@) == duration_map(),
{
    let mut out: Vec<(String, String)> = Vec::new();
    let ghost s0 = pairs(out@);
    assert(s0 == Seq::<(Seq<char>, Seq<char>)>::empty());
    push_stack(&mut out, BLOCK_PREFIX, 6, DWCONV_NAME);
    let ghost s1 = pairs(out@);
    assert(s1 == behind(BLOCK_PREFIX@, stack_names(DWCONV_NAME@, 6)));
    push_layer(&mut out, 0);
    push_layer(&mut out, 1);
    let ghost s2 = pairs(out@);
    push_behind(&mut out, PREFIX, owned("Add_output_0"));
    push_behind(&mut out, PREFIX, owned("proj_out/net/Conv_output_0"));
    push_behind(&mut out, PREFIX, owned("layers.0/Gemm_output_0"));
    push_behind(&mut out, PREFIX, owned("activation/PRelu_output_0"));
    push_behind(&mut out, PREFIX, owned("layers.1/Gemm_output_0"));
    proof {
        let s3 = pairs(out@);
        let l = behind(PREFIX@, last_names());
        assert(s3 == s2.push(l[0]).push(l[1]).push(l[2]).push(l[3]).push(l[4]));
        assert(s3 == s2 + l);
    }
    out
}

/// Encoder layer `i` gives its results their names.
proof fn lemma_layer_seen(i: int, e: EncoderParts)
    requires
        0 <= i < 2,
    ensures
        given(encoder_layer_seen(attention(), i, e)) == layer_names(i),
{
    let attn = attn_seen(i, e.attn);
    let ffn = ffn_seen(i, e.ffn);
    let all = encoder_layer_seen(attention(), i, e);
    assert(given(attn) == attn_names(i));
    assert(given(ffn) == ffn_names(i));
    let one = all.subrange(11, 13);
    let two = all.subrange(15, 17);
    assert(given(one) == seq![sum_name(2 * i), norm_name("norm_layers_1.", i)]);
    assert(given(two) == seq![sum_name(2 * i + 1), norm_name("norm_layers_2.", i)]);
    assert(all == attn + one + ffn + two);
    assert(given(all) == given(attn) + given(one) + given(ffn) + given(two));
}

/// The computed results of encoder layer `i` are its names.
proof fn lemma_layer_map(i: int)
    ensures
        computed(layer_map(i)) == layer_names(i),
{
    let a = attn_names(i);
    let b = seq![sum_name(2 * i)];
    let c = seq![norm_name("norm_layers_1.", i)];
    let d = ffn_names(i);
    let e = seq![sum_name(2 * i + 1)];
    let f = seq![norm_name("norm_layers_2.", i)];
    lemma_computed_behind(LAYER_PREFIX@, a);
    lemma_computed_behind(PREFIX@, b);
    lemma_computed_behind(LAYER_PREFIX@, c);
    lemma_computed_behind(LAYER_PREFIX@, d);
    lemma_computed_behind(PREFIX@, e);
    lemma_computed_behind(LAYER_PREFIX@, f);
    assert(computed(layer_map(i)) == a + b + c + d + e + f);
    assert(a + b + c + d + e + f == layer_names(i));
}

/// The encoder's two layers give their results their names, one after the other.
proof fn lemma_encoder_seen(p: DurationParts, b: usize, n: usize)
    ensures
        given(encoder_seen(attention(), ATTN_ROOT@, p.convnext, p.mask, b, n, 2)) == layer_names(0)
            + layer_names(1),
{
    let x = p.convnext;
    let m = p.mask;
    reveal_with_fuel(encoder_seen, 3);
    let none = encoder_seen(attention(), ATTN_ROOT@, x, m, b, n, 0);
    let v0 = encoder_value(attention(), ATTN_ROOT@, x, m, b, n, 0);
    let v1 = encoder_value(attention(), ATTN_ROOT@, x, m, b, n, 1);
    let e0 = encoder_parts(attention(), ATTN_ROOT@, v0, m, b, n, 0);
    let e1 = encoder_parts(attention(), ATTN_ROOT@, v1, m, b, n, 1);
    let l0 = encoder_layer_seen(attention(), 0, e0);
    let l1 = encoder_layer_seen(attention(), 1, e1);
    lemma_layer_seen(0, e0);
    lemma_layer_seen(1, e1);
    let all = encoder_seen(attention(), ATTN_ROOT@, x, m, b, n, 2);
    assert(none == Seq::<(Seq<char>, Expr)>::empty());
    assert(all == none + l0 + l1);
    assert(all == l0 + l1);
    assert(given(all) == given(l0) + given(l1));
}

/// The duration predictor computes every result that is compared, in the order in which
/// they are compared, and after them only the duration.
pub proof fn law_duration_names(ids: Expr, style: Expr, mask: Expr, b: usize, t: usize)
    ensures
        given(duration_seen(duration_parts(ids, style, mask, b, t), b, t)) == computed(
            duration_map(),
        ).push("duration"@),
{
    let p = duration_parts(ids, style, mask, b, t);
    let n = (t + 1) as usize;
    let blocks = stack_seen(
        convnext(),
        CONVNEXT_ROOT@,
        DILATIONS@,
        p.start,
        Some(p.mask),
        NamingView::Inner(DWCONV_NAME@),
        6,
    );
    let layers = encoder_seen(attention(), ATTN_ROOT@, p.convnext, p.mask, b, n, 2);
    lemma_stack_names(
        convnext(),
        CONVNEXT_ROOT@,
        DILATIONS@,
        p.start,
        Some(p.mask),
        DWCONV_NAME@,
        6,
    );
    lemma_encoder_seen(p, b, n);
    let stack = stack_names(DWCONV_NAME@, 6);
    lemma_computed_behind(BLOCK_PREFIX@, stack);
    lemma_layer_map(0);
    lemma_layer_map(1);
    lemma_computed_behind(PREFIX@, last_names());
    assert(computed(duration_map()) == stack + layer_names(0) + layer_names(1) + last_names());
    let sum = seq![("Add_output_0"@, p.sum)];
    let after = sum + predicted_seen(p.predicted);
    assert(given(after) == last_names().push("duration"@));
    assert(duration_seen(p, b, t) == blocks + layers + sum + predicted_seen(p.predicted));
    assert(duration_seen(p, b, t) == blocks + layers + after);
    assert(given(blocks + layers + after) == given(blocks) + given(layers) + given(after));
}

// ---------------------------------------------------------------------------
// Positions by name
// ---------------------------------------------------------------------------

/// The value of a digit.
spec fn digit(c: char) -> int {
    c as u32 - 48
}

/// The position of a name among those of an attention layer.
spec fn attn_rank(s: Seq<char>) -> int {
    if s[14] == 'c' {
        if s[19] == 'q' {
            0
        } else if s[19] == 'k' {
            1
        } else if s[19] == 'v' {
            2
        } else {
            10
        }
    } else if s[14] == 'M' {
        if s[21] == 'o' {
            3
        } else if s[21] == '1' {
            4
        } else {
            5 + digit(s[21])
        }
    } else if s[14] == 'A' {
        if s[18] == '2' {
            5
        } else {
            9
        }
    } else {
        6
    }
}

/// The position of a name in the list of compared results.
spec fn rank(s: Seq<char>) -> int {
    if s[0] == 'c' {
        5 * digit(s[9]) + if s[11] == 'd' {
            0
        } else if s[11] == 'n' {
            1
        } else if s[11] == 'p' {
            1 + digit(s[17])
        } else {
            4
        }
    } else if s[0] == 'a' && s[1] == 't' && s[5] == 'l' {
        30 + 17 * digit(s[12]) + attn_rank(s)
    } else if s[0] == 'a' && s[1] == 't' {
        30 + 17 * (digit(s[17]) / 2) + 11 + 4 * (digit(s[17]) % 2)
    } else if s[0] == 'n' {
        30 + 17 * digit(s[14]) + 8 + 4 * digit(s[12])
    } else if s[0] == 'f' {
        30 + 17 * digit(s[11]) + 12 + digit(s[18])
    } else if s[0] == 'A' {
        64
    } else if s[0] == 'p' {
        65
    } else if s[0] == 'l' {
        66 + 2 * digit(s[7])
    } else {
        67
    }
}

proof fn lemma_rank_block(i: int, j: int)
    requires
        0 <= i < 6,
        0 <= j < 5,
    ensures
        rank(convnext_names(i, DWCONV_NAME@)[j]) == 5 * i + j,
{
    reveal_strlit("convnext.");
    reveal_strlit("/dwconv/Conv_output_0");
    reveal_strlit("/norm/norm/LayerNormalization_output_0");
    reveal_strlit("/pwconv1/Conv_output_0");
    reveal_strlit("/pwconv2/Conv_output_0");
    reveal_strlit("/Add_output_0");
    assert(digit(decimal(i)[0]) == i);
}

proof fn lemma_rank_stack(n: int)
    requires
        0 <= n <= 6,
    ensures
        stack_names(DWCONV_NAME@, n).len() == 5 * n,
        forall|k: int|
            0 <= k < 5 * n ==> rank(#[trigger] stack_names(DWCONV_NAME@, n)[k]) == k,
    decreases n,
{
    if n > 0 {
        lemma_rank_stack(n - 1);
        let all = stack_names(DWCONV_NAME@, n);
        let had = stack_names(DWCONV_NAME@, n - 1);
        assert forall|k: int| 0 <= k < 5 * n implies rank(#[trigger] all[k]) == k by {
            if k < 5 * (n - 1) {
                assert(all[k] == had[k]);
            } else {
                let j = k - 5 * (n - 1);
                lemma_rank_block(n - 1, j);
                assert(all[k] == convnext_names(n - 1, DWCONV_NAME@)[j]);
            }
        }
    }
}

proof fn lemma_rank_attn(i: int, j: int)
    requires
        0 <= i < 2,
        0 <= j < 11,
    ensures
        rank(attn_names(i)[j]) == 30 + 17 * i + j,
{
    reveal_strlit("attn_layers.");
    reveal_strlit("/conv_q/Conv_output_0");
    reveal_strlit("/conv_k/Conv_output_0");
    reveal_strlit("/conv_v/Conv_output_0");
    reveal_strlit("/MatMul_output_0");
    reveal_strlit("/MatMul_1_output_0");
    reveal_strlit("/Add_2_output_0");
    reveal_strlit("/Softmax_output_0");
    reveal_strlit("/MatMul_2_output_0");
    reveal_strlit("/MatMul_3_output_0");
    reveal_strlit("/Add_4_output_0");
    reveal_strlit("/conv_o/Conv_output_0");
    assert(digit(decimal(i)[0]) == i);
}

proof fn lemma_rank_layer(i: int, k: int)
    requires
        0 <= i < 2,
        0 <= k < 17,
    ensures
        layer_names(i).len() == 17,
        rank(layer_names(i)[k]) == 30 + 17 * i + k,
{
    let all = layer_names(i);
    if k < 11 {
        lemma_rank_attn(i, k);
        assert(all[k] == attn_names(i)[k]);
    } else {
        reveal_strlit("attn_encoder/Add_");
        reveal_strlit("norm_layers_1.");
        reveal_strlit("norm_layers_2.");
        reveal_strlit("ffn_layers.");
        reveal_strlit("/conv_1/Conv_output_0");
        reveal_strlit("/conv_2/Conv_output_0");
        assert(digit(decimal(i)[0]) == i);
        assert(digit(decimal(2 * i)[0]) == 2 * i);
        assert(digit(decimal(2 * i + 1)[0]) == 2 * i + 1);
        assert(all[11] == sum_name(2 * i));
        assert(all[12] == norm_name("norm_layers_1.", i));
        assert(all[13] == ffn_names(i)[0]);
        assert(all[14] == ffn_names(i)[1]);
        assert(all[15] == sum_name(2 * i + 1));
        assert(all[16] == norm_name("norm_layers_2.", i));
    }
}

/// No two of the results that are compared have the same name.
pub proof fn law_duration_names_differ()
    ensures
        computed(duration_map()).len() == 69,
        computed(duration_map()).no_duplicates(),
{
    let stack = stack_names(DWCONV_NAME@, 6);
    lemma_computed_behind(BLOCK_PREFIX@, stack);
    lemma_layer_map(0);
    lemma_layer_map(1);
    lemma_computed_behind(PREFIX@, last_names());
    let all = computed(duration_map());
    assert(all == stack + layer_names(0) + layer_names(1) + last_names());
    lemma_rank_stack(6);
    lemma_rank_layer(0, 0);
    lemma_rank_layer(1, 0);
    reveal_strlit("Add_output_0");
    reveal_strlit("proj_out/net/Conv_output_0");
    reveal_strlit("layers.0/Gemm_output_0");
    reveal_strlit("activation/PRelu_output_0");
    reveal_strlit("layers.1/Gemm_output_0");
    assert forall|k: int| 0 <= k < all.len() implies rank(#[trigger] all[k]) == k by {
        if k < 30 {
            assert(all[k] == stack[k]);
        } else if k < 47 {
            lemma_rank_layer(0, k - 30);
            assert(all[k] == layer_names(0)[k - 30]);
        } else if k < 64 {
            lemma_rank_layer(1, k - 47);
            assert(all[k] == layer_names(1)[k - 47]);
        } else {
            assert(all[k] == last_names()[k - 64]);
        }
    }
    assert forall|i: int, j: int| 0 <= i < all.len() && 0 <= j < all.len() && i != j implies all[i]
        != all[j] by {
        assert(rank(all[i]) == i);
        assert(rank(all[j]) == j);
    }
}

/// A result of the duration predictor is recorded under the name that it is computed under:
/// those of the blocks and of the encoder behind their own names, and the sums and what
/// follows the encoder behind that of the network.
pub proof fn law_duration_pairs(k: int)
    requires
        0 <= k < 69,
    ensures
        duration_map().len() == 69,
        duration_map()[k].0 == (if k < 30 {
            "duration_predictor/convnext/"@
        } else if k < 64 && (k - 30) % 17 != 11 && (k - 30) % 17 != 15 {
            "duration_predictor/attn_encoder/"@
        } else {
            "duration_predictor/"@
        }) + duration_map()[k].1,
{
    lemma_rank_stack(6);
    let a = behind(BLOCK_PREFIX@, stack_names(DWCONV_NAME@, 6));
    let all = duration_map();
    assert(layer_map(0).len() == 17 && layer_map(1).len() == 17);
    assert(all.len() == 69);
    if k < 30 {
        assert(all[k] == a[k]);
    } else if k < 47 {
        assert(all[k] == layer_map(0)[k - 30]);
        lemma_layer_pairs(0, k - 30);
    } else if k < 64 {
        assert(all[k] == layer_map(1)[k - 47]);
        lemma_layer_pairs(1, k - 47);
        assert((k - 30) % 17 == k - 47);
    } else {
        assert(all[k] == behind(PREFIX@, last_names())[k - 64]);
    }
}

proof fn lemma_layer_pairs(i: int, j: int)
    requires
        0 <= j < 17,
    ensures
        layer_map(i)[j].0 == (if j != 11 && j != 15 {
            "duration_predictor/attn_encoder/"@
        } else {
            "duration_predictor/"@
        }) + layer_map(i)[j].1,
{
    let m = layer_map(i);
    if j < 11 {
        assert(m[j] == behind(LAYER_PREFIX@, attn_names(i))[j]);
    } else if j == 11 {
        assert(m[j] == behind(PREFIX@, seq![sum_name(2 * i)])[0]);
    } else if j == 12 {
        assert(m[j] == behind(LAYER_PREFIX@, seq![norm_name("norm_layers_1.", i)])[0]);
    } else if j < 15 {
        assert(m[j] == behind(LAYER_PREFIX@, ffn_names(i))[j - 13]);
    } else if j == 15 {
        assert(m[j] == behind(PREFIX@, seq![sum_name(2 * i + 1)])[0]);
    } else {
        assert(m[j] == behind(LAYER_PREFIX@, seq![norm_name("norm_layers_2.", i)])[0]);
    }
}

} // verus!
