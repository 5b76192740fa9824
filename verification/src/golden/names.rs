//! Pairs of names: that of a recorded result, and that of the computed one.

use vstd::prelude::*;

use crate::model::candle::attention::{
    attn_seen, encoder_layer_seen, encoder_parts, encoder_seen, encoder_value, ffn_seen, AttnSpec,
};
use crate::model::candle::graph::Expr;
use crate::model::candle::layers::{block_seen, stack_parts, stack_seen, ConvNextSpec, NamingView};
use crate::strings::{decimal, join, join_number, owned};

verus! {

/// Pairs of strings by their characters.
pub open spec fn pairs(list: Seq<(String, String)>) -> Seq<(Seq<char>, Seq<char>)> {
    list.map_values(|p: (String, String)| (p.0@, p.1@))
}

/// The names of computed results in a list of pairs.
pub open spec fn computed(list: Seq<(Seq<char>, Seq<char>)>) -> Seq<Seq<char>> {
    list.map_values(|p: (Seq<char>, Seq<char>)| p.1)
}

/// The names that a network gives its results.
pub open spec fn given(list: Seq<(Seq<char>, Expr)>) -> Seq<Seq<char>> {
    list.map_values(|p: (Seq<char>, Expr)| p.0)
}

/// Names paired with the same names behind a prefix.
pub open spec fn behind(prefix: Seq<char>, names: Seq<Seq<char>>) -> Seq<(Seq<char>, Seq<char>)> {
    names.map_values(|n: Seq<char>| (prefix + n, n))
}

/// Whether every name of `few` is one of `many`.
pub open spec fn all_in(few: Seq<Seq<char>>, many: Seq<Seq<char>>) -> bool {
    forall|k: int| 0 <= k < few.len() ==> many.contains(#[trigger] few[k])
}

/// The names of ConvNeXt block `i`.
pub open spec fn convnext_names(i: int, dwconv: Seq<char>) -> Seq<Seq<char>> {
    let at = "convnext."@ + decimal(i);
    seq![
        at + dwconv,
        at + "/norm/norm/LayerNormalization_output_0"@,
        at + "/pwconv1/Conv_output_0"@,
        at + "/pwconv2/Conv_output_0"@,
        at + "/Add_output_0"@,
    ]
}

/// The names of the first `n` ConvNeXt blocks.
pub open spec fn stack_names(dwconv: Seq<char>, n: int) -> Seq<Seq<char>>
    decreases n,
{
    if n <= 0 {
        seq![]
    } else {
        stack_names(dwconv, n - 1) + convnext_names(n - 1, dwconv)
    }
}

/// The names of attention layer `i`.
pub open spec fn attn_names(i: int) -> Seq<Seq<char>> {
    let at = "attn_layers."@ + decimal(i);
    seq![
        at + "/conv_q/Conv_output_0"@,
        at + "/conv_k/Conv_output_0"@,
        at + "/conv_v/Conv_output_0"@,
        at + "/MatMul_output_0"@,
        at + "/MatMul_1_output_0"@,
        at + "/Add_2_output_0"@,
        at + "/Softmax_output_0"@,
        at + "/MatMul_2_output_0"@,
        at + "/MatMul_3_output_0"@,
        at + "/Add_4_output_0"@,
        at + "/conv_o/Conv_output_0"@,
    ]
}

/// The name of norm `which` of layer `i`.
pub open spec fn norm_name(which: &'static str, i: int) -> Seq<char> {
    which@ + decimal(i) + "/norm/LayerNormalization_output_0"@
}

/// The names of feed-forward layer `i`.
pub open spec fn ffn_names(i: int) -> Seq<Seq<char>> {
    let at = "ffn_layers."@ + decimal(i);
    seq![at + "/conv_1/Conv_output_0"@, at + "/conv_2/Conv_output_0"@]
}

/// The name of a sum of the encoder.
pub open spec fn sum_name(number: int) -> Seq<char> {
    "attn_encoder/Add_"@ + decimal(number) + "_output_0"@
}

// ---------------------------------------------------------------------------
// Building lists
// ---------------------------------------------------------------------------

/// Appends a name, paired with the same name behind a prefix.
pub(crate) fn push_behind(out: &mut Vec<(String, String)>, prefix: &str, name: String)
    ensures
        pairs(final(out)@) == pairs(old(out)@).push((prefix@ + name@, name@)),
{
    let long = join(prefix, name.as_str());
    let ghost before = out@;
    let ghost pair = (prefix@ + name@, name@);
    out.push((long, name));
    let ghost after = out@;
    assert(pairs(after) == pairs(before).push(pair));
}

/// Appends a pair of names.
pub(crate) fn push_pair(out: &mut Vec<(String, String)>, recorded: &str, name: &str)
    ensures
        pairs(final(out)@) == pairs(old(out)@).push((recorded@, name@)),
{
    let ghost before = out@;
    let ghost pair = (recorded@, name@);
    out.push((owned(recorded), owned(name)));
    let ghost after = out@;
    assert(pairs(after) == pairs(before).push(pair));
}

/// Appends the names of ConvNeXt block `i`.
pub(crate) fn push_convnext(
    out: &mut Vec<(String, String)>,
    prefix: &str,
    i: usize,
    dwconv: &'static str,
)
    ensures
        pairs(final(out)@) == pairs(old(out)@) + behind(
            prefix@,
            convnext_names(i as int, dwconv@),
        ),
{
    let ghost before = pairs(out@);
    let ghost list = behind(prefix@, convnext_names(i as int, dwconv@));
    push_behind(out, prefix, join_number("convnext.", i, dwconv));
    push_behind(
        out,
        prefix,
        join_number("convnext.", i, "/norm/norm/LayerNormalization_output_0"),
    );
    push_behind(out, prefix, join_number("convnext.", i, "/pwconv1/Conv_output_0"));
    push_behind(out, prefix, join_number("convnext.", i, "/pwconv2/Conv_output_0"));
    push_behind(out, prefix, join_number("convnext.", i, "/Add_output_0"));
    let ghost after = pairs(out@);
    assert(after == before.push(list[0]).push(list[1]).push(list[2]).push(list[3]).push(list[4]));
    assert(after == before + list);
}

/// Appends the names of `n` ConvNeXt blocks.
pub(crate) fn push_stack(
    out: &mut Vec<(String, String)>,
    prefix: &str,
    n: usize,
    dwconv: &'static str,
)
    ensures
        pairs(final(out)@) == pairs(old(out)@) + behind(prefix@, stack_names(dwconv@, n as int)),
{
    let ghost before = pairs(out@);
    assert(behind(prefix@, seq![]) == Seq::<(Seq<char>, Seq<char>)>::empty());
    assert(before + behind(prefix@, stack_names(dwconv@, 0)) == before);
    for i in 0..n
        invariant
            pairs(out@) == before + behind(prefix@, stack_names(dwconv@, i as int)),
    {
        push_convnext(out, prefix, i, dwconv);
        proof {
            let had = stack_names(dwconv@, i as int);
            let more = convnext_names(i as int, dwconv@);
            assert(behind(prefix@, had + more) == behind(prefix@, had) + behind(prefix@, more));
            assert(before + behind(prefix@, had) + behind(prefix@, more) == before + (behind(
                prefix@,
                had,
            ) + behind(prefix@, more)));
        }
    }
}

/// Appends the names of attention layer `i`.
pub(crate) fn push_attn(out: &mut Vec<(String, String)>, prefix: &str, i: usize)
    ensures
        pairs(final(out)@) == pairs(old(out)@) + behind(prefix@, attn_names(i as int)),
{
    let ghost before = pairs(out@);
    let ghost l = behind(prefix@, attn_names(i as int));
    push_behind(out, prefix, join_number("attn_layers.", i, "/conv_q/Conv_output_0"));
    push_behind(out, prefix, join_number("attn_layers.", i, "/conv_k/Conv_output_0"));
    push_behind(out, prefix, join_number("attn_layers.", i, "/conv_v/Conv_output_0"));
    push_behind(out, prefix, join_number("attn_layers.", i, "/MatMul_output_0"));
    push_behind(out, prefix, join_number("attn_layers.", i, "/MatMul_1_output_0"));
    push_behind(out, prefix, join_number("attn_layers.", i, "/Add_2_output_0"));
    push_behind(out, prefix, join_number("attn_layers.", i, "/Softmax_output_0"));
    push_behind(out, prefix, join_number("attn_layers.", i, "/MatMul_2_output_0"));
    push_behind(out, prefix, join_number("attn_layers.", i, "/MatMul_3_output_0"));
    push_behind(out, prefix, join_number("attn_layers.", i, "/Add_4_output_0"));
    push_behind(out, prefix, join_number("attn_layers.", i, "/conv_o/Conv_output_0"));
    let ghost after = pairs(out@);
    assert(after == before.push(l[0]).push(l[1]).push(l[2]).push(l[3]).push(l[4]).push(l[5]).push(
        l[6],
    ).push(l[7]).push(l[8]).push(l[9]).push(l[10]));
    assert(after == before + l);
}

/// Appends the names of feed-forward layer `i`.
pub(crate) fn push_ffn(out: &mut Vec<(String, String)>, prefix: &str, i: usize)
    ensures
        pairs(final(out)@) == pairs(old(out)@) + behind(prefix@, ffn_names(i as int)),
{
    let ghost before = pairs(out@);
    let ghost l = behind(prefix@, ffn_names(i as int));
    push_behind(out, prefix, join_number("ffn_layers.", i, "/conv_1/Conv_output_0"));
    push_behind(out, prefix, join_number("ffn_layers.", i, "/conv_2/Conv_output_0"));
    let ghost after = pairs(out@);
    assert(after == before.push(l[0]).push(l[1]));
    assert(after == before + l);
}

// ---------------------------------------------------------------------------
// What the networks name
// ---------------------------------------------------------------------------

/// A stack of ConvNeXt blocks gives its results their names.
pub proof fn lemma_stack_names(
    p: ConvNextSpec,
    root: Seq<char>,
    dilations: Seq<usize>,
    x: Expr,
    mask: Option<Expr>,
    dwconv: Seq<char>,
    n: int,
)
    ensures
        given(stack_seen(p, root, dilations, x, mask, NamingView::Inner(dwconv), n))
            == stack_names(dwconv, n),
    decreases n,
{
    let names = NamingView::Inner(dwconv);
    if n > 0 {
        lemma_stack_names(p, root, dilations, x, mask, dwconv, n - 1);
        let had = stack_seen(p, root, dilations, x, mask, names, n - 1);
        let more = block_seen(names, n - 1, stack_parts(p, root, dilations, x, mask, n - 1));
        assert(given(more) == convnext_names(n - 1, dwconv));
        assert(given(had + more) == given(had) + given(more));
    } else {
        assert(given(seq![]) == Seq::<Seq<char>>::empty());
    }
}

/// An encoder of `n` layers gives the results of layer `i` their names.
pub proof fn lemma_encoder_names(
    p: AttnSpec,
    prefix: Seq<char>,
    x: Expr,
    mask: Expr,
    b: usize,
    t: usize,
    n: int,
    i: int,
)
    requires
        0 <= i < n,
    ensures
        ({
            let all = given(encoder_seen(p, prefix, x, mask, b, t, n));
            &&& all_in(attn_names(i), all)
            &&& all_in(ffn_names(i), all)
            &&& all.contains(norm_name("norm_layers_1.", i))
            &&& all.contains(norm_name("norm_layers_2.", i))
        }),
    decreases n,
{
    let had = encoder_seen(p, prefix, x, mask, b, t, n - 1);
    let e = encoder_parts(
        p,
        prefix,
        encoder_value(p, prefix, x, mask, b, t, n - 1),
        mask,
        b,
        t,
        n - 1,
    );
    let more = encoder_layer_seen(p, n - 1, e);
    let all = given(had + more);
    assert(all == given(had) + given(more));
    assert(encoder_seen(p, prefix, x, mask, b, t, n) == had + more);
    if i < n - 1 {
        lemma_encoder_names(p, prefix, x, mask, b, t, n - 1, i);
        lemma_contains_left(given(had), given(more));
        assert forall|j: int| 0 <= j < 11 implies all.contains(#[trigger] attn_names(i)[j]) by {
            assert(given(had).contains(attn_names(i)[j]));
        }
        assert forall|j: int| 0 <= j < 2 implies all.contains(#[trigger] ffn_names(i)[j]) by {
            assert(given(had).contains(ffn_names(i)[j]));
        }
    } else {
        lemma_contains_right(given(had), given(more));
        let attn = attn_seen(i, e.attn);
        let ffn = ffn_seen(i, e.ffn);
        let k: int = if p.sums {
            2
        } else {
            1
        };
        assert(attn.len() == 11);
        assert(ffn.len() == 2);
        assert forall|j: int| 0 <= j < 11 implies given(more).contains(
            #[trigger] attn_names(i)[j],
        ) by {
            assert(more[j] == attn[j]);
            assert(given(more)[j] == attn_names(i)[j]);
        }
        assert forall|j: int| 0 <= j < 2 implies given(more).contains(
            #[trigger] ffn_names(i)[j],
        ) by {
            assert(more[11 + k + j] == ffn[j]);
            assert(given(more)[11 + k + j] == ffn_names(i)[j]);
        }
        if p.sums {
            assert(given(more)[12] == norm_name("norm_layers_1.", i));
            assert(given(more)[16] == norm_name("norm_layers_2.", i));
        } else {
            assert(given(more)[11] == norm_name("norm_layers_1.", i));
            assert(given(more)[14] == norm_name("norm_layers_2.", i));
        }
        assert(given(more).contains(norm_name("norm_layers_1.", i)));
        assert(given(more).contains(norm_name("norm_layers_2.", i)));
        assert forall|j: int| 0 <= j < 11 implies all.contains(#[trigger] attn_names(i)[j]) by {
            assert(given(more).contains(attn_names(i)[j]));
        }
        assert forall|j: int| 0 <= j < 2 implies all.contains(#[trigger] ffn_names(i)[j]) by {
            assert(given(more).contains(ffn_names(i)[j]));
        }
    }
}

/// What is in the first of two lists is in both together.
pub proof fn lemma_contains_left(a: Seq<Seq<char>>, b: Seq<Seq<char>>)
    ensures
        forall|x: Seq<char>| #[trigger] a.contains(x) ==> (a + b).contains(x),
{
    assert forall|x: Seq<char>| #[trigger] a.contains(x) implies (a + b).contains(x) by {
        let i = choose|i: int| 0 <= i < a.len() && a[i] == x;
        assert((a + b)[i] == x);
    }
}

/// What is in the second of two lists is in both together.
pub proof fn lemma_contains_right(a: Seq<Seq<char>>, b: Seq<Seq<char>>)
    ensures
        forall|x: Seq<char>| #[trigger] b.contains(x) ==> (a + b).contains(x),
{
    assert forall|x: Seq<char>| #[trigger] b.contains(x) implies (a + b).contains(x) by {
        let i = choose|i: int| 0 <= i < b.len() && b[i] == x;
        assert((a + b)[a.len() + i] == x);
    }
}

/// Two lists are in another where each is.
pub proof fn lemma_all_in_both(a: Seq<Seq<char>>, b: Seq<Seq<char>>, many: Seq<Seq<char>>)
    requires
        all_in(a, many),
        all_in(b, many),
    ensures
        all_in(a + b, many),
{
    assert forall|k: int| 0 <= k < (a + b).len() implies many.contains(#[trigger] (a + b)[k]) by {
        if k < a.len() {
            assert((a + b)[k] == a[k]);
        } else {
            assert((a + b)[k] == b[k - a.len()]);
        }
    }
}

/// The computed names of names behind a prefix are the names.
pub proof fn lemma_computed_behind(prefix: Seq<char>, names: Seq<Seq<char>>)
    ensures
        computed(behind(prefix, names)) == names,
{
    assert(computed(behind(prefix, names)) == names);
}

} // verus!
