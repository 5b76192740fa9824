//! The recorded results of the text encoder.

use vstd::prelude::*;

use crate::golden::names::{
    all_in, attn_names, behind, computed, ffn_names, given, lemma_all_in_both,
    lemma_computed_behind, lemma_contains_left, lemma_contains_right, lemma_encoder_names,
    lemma_stack_names, norm_name, pairs, push_attn, push_behind, push_ffn, push_pair, push_stack,
    stack_names,
};
use crate::model::candle::attention::encoder_seen;
use crate::model::candle::graph::Expr;
use crate::model::candle::layers::{stack_seen, NamingView};
use crate::model::candle::text_encoder::{
    attention, convnext, spte_seen, text_parts, text_seen, ATTN_ROOT, CONVNEXT_ROOT, DILATIONS,
    DWCONV_NAME, N_ATTN_LAYERS,
};
use crate::strings::{decimal, join_number};

verus! {

/// What the names of recorded results begin with: those of the blocks, and of the
/// encoder.
pub const BLOCK_PREFIX: &'static str = "text_encoder/convnext/";

pub const LAYER_PREFIX: &'static str = "text_encoder/attn_encoder/";

/// The names of encoder layer `i`.
pub open spec fn layer_names(i: int) -> Seq<Seq<char>> {
    attn_names(i) + seq![norm_name("norm_layers_1.", i), norm_name("norm_layers_2.", i)]
        + ffn_names(i)
}

/// The names of the first `n` encoder layers.
pub open spec fn layers_names(n: int) -> Seq<Seq<char>>
    decreases n,
{
    if n <= 0 {
        seq![]
    } else {
        layers_names(n - 1) + layer_names(n - 1)
    }
}

/// The results after the encoder.
pub open spec fn style_map() -> Seq<(Seq<char>, Seq<char>)> {
    seq![
        ("text_encoder/Add_output_0"@, "spte/Add_output_0"@),
        ("text_encoder/Add_1_output_0"@, "spte/Add_1_output_0"@),
        ("text_encoder/norm/norm/LayerNormalization_output_0"@, "spte/norm/output"@),
        ("text_encoder/text_emb"@, "spte/final_text_emb"@),
    ]
}

/// The results of the layer `i` that attends to the style.
pub open spec fn attention_map(i: int) -> Seq<(Seq<char>, Seq<char>)> {
    let there = "text_encoder/attention"@ + decimal(i);
    let here = "spte/attention"@ + decimal(i);
    seq![
        (there + "/W_query/linear/Add_output_0"@, here + "/W_query"@),
        (there + "/W_key/linear/Add_output_0"@, here + "/W_key"@),
        (there + "/W_value/linear/Add_output_0"@, here + "/W_value"@),
        (there + "/out_fc/linear/Add_output_0"@, here + "/out_fc"@),
    ]
}

/// The recorded results and the computed ones.
pub open spec fn text_map() -> Seq<(Seq<char>, Seq<char>)> {
    behind(BLOCK_PREFIX@, stack_names(DWCONV_NAME@, 6)) + behind(LAYER_PREFIX@, layers_names(4))
        + style_map() + attention_map(1) + attention_map(2)
}

/// Appends the results of encoder layer `i`.
fn push_layer(out: &mut Vec<(String, String)>, i: usize)
    ensures
        pairs(final(out)@) == pairs(old(out)@) + behind(LAYER_PREFIX@, layer_names(i as int)),
{
    let ghost s0 = pairs(out@);
    let norm = "/norm/LayerNormalization_output_0";
    push_attn(out, LAYER_PREFIX, i);
    let ghost s1 = pairs(out@);
    push_behind(out, LAYER_PREFIX, join_number("norm_layers_1.", i, norm));
    push_behind(out, LAYER_PREFIX, join_number("norm_layers_2.", i, norm));
    let ghost s2 = pairs(out@);
    push_ffn(out, LAYER_PREFIX, i);
    proof {
        let s3 = pairs(out@);
        let n = i as int;
        let norms = seq![norm_name("norm_layers_1.", n), norm_name("norm_layers_2.", n)];
        let l = behind(LAYER_PREFIX@, norms);
        assert(s2 == s1.push(l[0]).push(l[1]));
        assert(s2 == s1 + l);
        assert(behind(LAYER_PREFIX@, layer_names(n)) == behind(LAYER_PREFIX@, attn_names(n)) + l
            + behind(LAYER_PREFIX@, ffn_names(n)));
        assert(s3 == s0 + behind(LAYER_PREFIX@, layer_names(n)));
    }
}

/// Appends the results of layer `i` that attends to the style.
fn push_attention(out: &mut Vec<(String, String)>, i: usize)
    ensures
        pairs(final(out)@) == pairs(old(out)@) + attention_map(i as int),
{
    let ghost s0 = pairs(out@);
    let there = join_number("text_encoder/attention", i, "/W_query/linear/Add_output_0");
    let here = join_number("spte/attention", i, "/W_query");
    push_pair(out, there.as_str(), here.as_str());
    let there = join_number("text_encoder/attention", i, "/W_key/linear/Add_output_0");
    let here = join_number("spte/attention", i, "/W_key");
    push_pair(out, there.as_str(), here.as_str());
    let there = join_number("text_encoder/attention", i, "/W_value/linear/Add_output_0");
    let here = join_number("spte/attention", i, "/W_value");
    push_pair(out, there.as_str(), here.as_str());
    let there = join_number("text_encoder/attention", i, "/out_fc/linear/Add_output_0");
    let here = join_number("spte/attention", i, "/out_fc");
    push_pair(out, there.as_str(), here.as_str());
    proof {
        let s1 = pairs(out@);
        let l = attention_map(i as int);
        assert(s1 == s0.push(l[0]).push(l[1]).push(l[2]).push(l[3]));
        assert(s1 == s0 + l);
    }
}

/// The recorded results and the computed ones.
pub fn hook_map() -> (r: Vec<(String, String)>)
    ensures
        pairs(r@) == text_map(),
{
    let mut out: Vec<(String, String)> = Vec::new();
    let ghost s0 = pairs(out@);
    assert(s0 == Seq::<(Seq<char>, Seq<char>)>::empty());
    push_stack(&mut out, BLOCK_PREFIX, 6, DWCONV_NAME);
    let ghost s1 = pairs(out@);
    assert(s1 == behind(BLOCK_PREFIX@, stack_names(DWCONV_NAME@, 6)));
    assert(behind(LAYER_PREFIX@, seq![]) == Seq::<(Seq<char>, Seq<char>)>::empty());
    assert(s1 + behind(LAYER_PREFIX@, layers_names(0)) == s1);
    for i in 0..4
        invariant
            pairs(out@) == s1 + behind(LAYER_PREFIX@, layers_names(i as int)),
    {
        push_layer(&mut out, i);
        proof {
            let had = layers_names(i as int);
            let more = layer_names(i as int);
            assert(behind(LAYER_PREFIX@, had + more) == behind(LAYER_PREFIX@, had) + behind(
                LAYER_PREFIX@,
                more,
            ));
            assert(s1 + behind(LAYER_PREFIX@, had) + behind(LAYER_PREFIX@, more) == s1 + (behind(
                LAYER_PREFIX@,
                had,
            ) + behind(LAYER_PREFIX@, more)));
        }
    }
    let ghost s2 = pairs(out@);
    push_pair(&mut out, "text_encoder/Add_output_0", "spte/Add_output_0");
    push_pair(&mut out, "text_encoder/Add_1_output_0", "spte/Add_1_output_0");
    push_pair(
        &mut out,
        "text_encoder/norm/norm/LayerNormalization_output_0",
        "spte/norm/output",
    );
    push_pair(&mut out, "text_encoder/text_emb", "spte/final_text_emb");
    proof {
        let s3 = pairs(out@);
        let l = style_map();
        assert(s3 == s2.push(l[0]).push(l[1]).push(l[2]).push(l[3]));
        assert(s3 == s2 + l);
    }
    push_attention(&mut out, 1);
    push_attention(&mut out, 2);
    out
}

/// The names of encoder layers are among the names of the encoder.
proof fn lemma_layers(n: int, m: int, names: Seq<Seq<char>>)
    requires
        0 <= n <= m,
        forall|i: int| 0 <= i < m ==> all_in(#[trigger] layer_names(i), names),
    ensures
        all_in(layers_names(n), names),
    decreases n,
{
    if n > 0 {
        lemma_layers(n - 1, m, names);
        lemma_all_in_both(layers_names(n - 1), layer_names(n - 1), names);
    }
}

/// The text encoder computes every result that is compared.
#[verifier::rlimit(40)]
pub proof fn law_text_names(ids: Expr, style: Expr, mask: Expr, b: usize, t: usize)
    ensures
        all_in(
            computed(text_map()),
            given(text_seen(text_parts(ids, style, mask, b, t), mask, b, t)),
        ),
{
    let p = text_parts(ids, style, mask, b, t);
    let blocks = given(
        stack_seen(
            convnext(),
            CONVNEXT_ROOT@,
            DILATIONS@,
            p.start,
            Some(mask),
            NamingView::Inner(DWCONV_NAME@),
            6,
        ),
    );
    let layers = given(
        encoder_seen(
            attention(),
            ATTN_ROOT@,
            p.convnext,
            mask,
            b,
            t,
            N_ATTN_LAYERS as int,
        ),
    );
    let first = given(spte_seen(1, p.prompted.attention1));
    let second = given(spte_seen(2, p.prompted.attention2));
    let before = seq!["Add_output_0"@, "proj_out/Mul_output_0"@];
    let after = seq![
        "spte/Add_1_output_0"@,
        "spte/norm/output"@,
        "spte/final_text_emb"@,
        "text_emb"@,
    ];
    let sum = seq!["spte/Add_output_0"@];
    let names = given(text_seen(p, mask, b, t));
    let h1 = blocks + layers;
    let h2 = h1 + before;
    let h3 = h2 + first;
    let h4 = h3 + sum;
    let h5 = h4 + second;
    assert(names == h5 + after);
    lemma_contains_left(blocks, layers);
    lemma_contains_right(blocks, layers);
    lemma_contains_left(h1, before);
    lemma_contains_left(h2, first);
    lemma_contains_right(h2, first);
    lemma_contains_left(h3, sum);
    lemma_contains_right(h3, sum);
    lemma_contains_left(h4, second);
    lemma_contains_right(h4, second);
    lemma_contains_left(h5, after);
    lemma_contains_right(h5, after);
    assert forall|x: Seq<char>| #[trigger] h1.contains(x) implies names.contains(x) by {
        assert(h2.contains(x));
        assert(h3.contains(x));
        assert(h4.contains(x));
        assert(h5.contains(x));
    }
    lemma_stack_names(
        convnext(),
        CONVNEXT_ROOT@,
        DILATIONS@,
        p.start,
        Some(mask),
        DWCONV_NAME@,
        6,
    );
    let stack = stack_names(DWCONV_NAME@, 6);
    assert forall|k: int| 0 <= k < stack.len() implies names.contains(#[trigger] stack[k]) by {
        assert(blocks.contains(stack[k]));
        assert(h1.contains(stack[k]));
    }
    assert forall|i: int| 0 <= i < 4 implies all_in(#[trigger] layer_names(i), names) by {
        lemma_encoder_names(
            attention(),
            ATTN_ROOT@,
            p.convnext,
            mask,
            b,
            t,
            N_ATTN_LAYERS as int,
            i,
        );
        let norms = seq![norm_name("norm_layers_1.", i), norm_name("norm_layers_2.", i)];
        lemma_all_in_both(attn_names(i), norms, layers);
        lemma_all_in_both(attn_names(i) + norms, ffn_names(i), layers);
        let l = layer_names(i);
        assert forall|k: int| 0 <= k < l.len() implies names.contains(#[trigger] l[k]) by {
            assert(layers.contains(l[k]));
            assert(h1.contains(l[k]));
        }
    }
    lemma_layers(4, 4, names);
    let s = computed(style_map());
    assert(all_in(s, names)) by {
        assert(sum[0] == s[0]);
        assert(sum.contains(s[0]));
        assert(h4.contains(s[0]));
        assert(h5.contains(s[0]));
        assert(after[0] == s[1]);
        assert(after.contains(s[1]));
        assert(after[1] == s[2]);
        assert(after.contains(s[2]));
        assert(after[2] == s[3]);
        assert(after.contains(s[3]));
        assert(s.len() == 4);
    }
    let a1 = computed(attention_map(1));
    let a2 = computed(attention_map(2));
    assert(a1 == first);
    assert(a2 == second);
    assert forall|k: int| 0 <= k < a1.len() implies names.contains(#[trigger] a1[k]) by {
        assert(first.contains(a1[k]));
        assert(h3.contains(a1[k]));
        assert(h4.contains(a1[k]));
        assert(h5.contains(a1[k]));
    }
    assert forall|k: int| 0 <= k < a2.len() implies names.contains(#[trigger] a2[k]) by {
        assert(second.contains(a2[k]));
        assert(h5.contains(a2[k]));
    }
    lemma_computed_behind(BLOCK_PREFIX@, stack);
    lemma_computed_behind(LAYER_PREFIX@, layers_names(4));
    lemma_all_in_both(stack, layers_names(4), names);
    lemma_all_in_both(stack + layers_names(4), s, names);
    lemma_all_in_both(stack + layers_names(4) + s, a1, names);
    lemma_all_in_both(stack + layers_names(4) + s + a1, a2, names);
    assert(computed(text_map()) == stack + layers_names(4) + s + a1 + a2);
}

/// A result of the text encoder is recorded under the name that it is computed under, behind
/// that of the blocks or of the encoder; those of the layers that attend to the style have
/// names of their own.
pub proof fn law_text_pairs(k: int)
    requires
        0 <= k < text_map().len(),
    ensures
        ({
            let m = text_map();
            let blocks = stack_names(DWCONV_NAME@, 6).len() as int;
            let layers = layers_names(4).len() as int;
            let after = blocks + layers;
            &&& m.len() == after + 12
            &&& k < blocks ==> m[k].0 == "text_encoder/convnext/"@ + m[k].1
            &&& blocks <= k < after ==> m[k].0 == "text_encoder/attn_encoder/"@ + m[k].1
            &&& m[after] == ("text_encoder/Add_output_0"@, "spte/Add_output_0"@)
            &&& m[after + 1] == ("text_encoder/Add_1_output_0"@, "spte/Add_1_output_0"@)
            &&& m[after + 2] == (
                "text_encoder/norm/norm/LayerNormalization_output_0"@,
                "spte/norm/output"@,
            )
            &&& m[after + 3] == ("text_encoder/text_emb"@, "spte/final_text_emb"@)
            &&& forall|i: int|
                i == 1 || i == 2 ==> {
                    let there = "text_encoder/attention"@ + #[trigger] decimal(i);
                    let here = "spte/attention"@ + decimal(i);
                    let at = after + 4 * i;
                    &&& m[at] == (there + "/W_query/linear/Add_output_0"@, here + "/W_query"@)
                    &&& m[at + 1] == (there + "/W_key/linear/Add_output_0"@, here + "/W_key"@)
                    &&& m[at + 2] == (there + "/W_value/linear/Add_output_0"@, here + "/W_value"@)
                    &&& m[at + 3] == (there + "/out_fc/linear/Add_output_0"@, here + "/out_fc"@)
                }
        }),
{
    let m = text_map();
    let a = behind(BLOCK_PREFIX@, stack_names(DWCONV_NAME@, 6));
    let b = behind(LAYER_PREFIX@, layers_names(4));
    let n = a.len() as int;
    let l = b.len() as int;
    if k < n {
        assert(m[k] == a[k]);
    } else if k < n + l {
        assert(m[k] == b[k - n]);
    }
    assert(m[n + l] == style_map()[0] && m[n + l + 1] == style_map()[1] && m[n + l + 2]
        == style_map()[2] && m[n + l + 3] == style_map()[3]);
    assert(m[n + l + 4] == attention_map(1)[0] && m[n + l + 5] == attention_map(1)[1] && m[n + l + 6]
        == attention_map(1)[2] && m[n + l + 7] == attention_map(1)[3]);
    assert(m[n + l + 8] == attention_map(2)[0] && m[n + l + 9] == attention_map(2)[1] && m[n + l
        + 10] == attention_map(2)[2] && m[n + l + 11] == attention_map(2)[3]);
}

} // verus!
