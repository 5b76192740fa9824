//! The recorded results of the vocoder.

use vstd::prelude::*;

use crate::golden::names::{
    behind, computed, given, lemma_computed_behind, lemma_stack_names, pairs, push_behind,
    push_pair, push_stack, stack_names,
};
use crate::model::candle::layers::{stack_seen, NamingView};
use crate::model::candle::vocoder::{
    convnext, vocoder_parts, vocoder_seen, CONVNEXT_ROOT, DILATIONS,
};
use crate::model::candle::graph::Expr;
use crate::strings::owned;

verus! {

/// What the names of recorded results begin with.
pub const PREFIX: &'static str = "vocoder/";

/// The name of what a block's depthwise convolution gives.
pub const DWCONV_NAME: &'static str = "/dwconv/net/Conv_output_0";

/// The names after the blocks.
pub open spec fn last_names() -> Seq<Seq<char>> {
    seq![
        "final_norm/BatchNormalization_output_0"@,
        "head/layer1/net/Conv_output_0"@,
        "head/act/PRelu_output_0"@,
        "head/layer2/Conv_output_0"@,
    ]
}

/// The recorded results and the computed ones, in the order in which they are
/// computed.
pub open spec fn vocoder_map() -> Seq<(Seq<char>, Seq<char>)> {
    seq![
        ("vocoder/Add_output_0"@, "pre_embed/after_unfold"@),
        (PREFIX@ + "embed/net/Conv_output_0"@, "embed/net/Conv_output_0"@),
    ] + behind(PREFIX@, stack_names(DWCONV_NAME@, 10)) + behind(PREFIX@, last_names())
}

/// The recorded results and the computed ones.
pub fn hook_map() -> (r: Vec<(String, String)>)
    ensures
        pairs(r@) == vocoder_map(),
{
    let mut out: Vec<(String, String)> = Vec::new();
    let ghost s0 = pairs(out@);
    assert(s0 == Seq::<(Seq<char>, Seq<char>)>::empty());
    push_pair(&mut out, "vocoder/Add_output_0", "pre_embed/after_unfold");
    push_behind(&mut out, PREFIX, owned("embed/net/Conv_output_0"));
    let ghost s1 = pairs(out@);
    push_stack(&mut out, PREFIX, 10, DWCONV_NAME);
    let ghost s2 = pairs(out@);
    push_behind(&mut out, PREFIX, owned("final_norm/BatchNormalization_output_0"));
    push_behind(&mut out, PREFIX, owned("head/layer1/net/Conv_output_0"));
    push_behind(&mut out, PREFIX, owned("head/act/PRelu_output_0"));
    push_behind(&mut out, PREFIX, owned("head/layer2/Conv_output_0"));
    proof {
        let s3 = pairs(out@);
        let l = behind(PREFIX@, last_names());
        assert(s3 == s2.push(l[0]).push(l[1]).push(l[2]).push(l[3]));
        assert(s3 == s2 + l);
        assert(s1 == seq![
            ("vocoder/Add_output_0"@, "pre_embed/after_unfold"@),
            (PREFIX@ + "embed/net/Conv_output_0"@, "embed/net/Conv_output_0"@),
        ]);
    }
    out
}

/// The vocoder computes every result that is compared, and no other, in the order in
/// which they are compared.
pub proof fn law_vocoder_names(latent: Expr, b: usize, t: usize)
    ensures
        computed(vocoder_map()) == given(vocoder_seen(vocoder_parts(latent, b, t))),
{
    let p = vocoder_parts(latent, b, t);
    let blocks = stack_seen(
        convnext(),
        CONVNEXT_ROOT@,
        DILATIONS@,
        p.embed,
        None,
        NamingView::Inner(DWCONV_NAME@),
        DILATIONS@.len() as int,
    );
    lemma_stack_names(
        convnext(),
        CONVNEXT_ROOT@,
        DILATIONS@,
        p.embed,
        None,
        DWCONV_NAME@,
        10,
    );
    lemma_computed_behind(PREFIX@, stack_names(DWCONV_NAME@, 10));
    lemma_computed_behind(PREFIX@, last_names());
    let before = seq!["pre_embed/after_unfold"@, "embed/net/Conv_output_0"@];
    let all = before + stack_names(DWCONV_NAME@, 10) + last_names();
    assert(computed(vocoder_map()) == all);
    assert(given(vocoder_seen(p)) == before + given(blocks) + last_names());
}

/// A result of the vocoder is recorded under the name that it is computed under, behind that
/// of the network; but the unfolded latent is recorded as the sum that it is.
pub proof fn law_vocoder_pairs(k: int)
    requires
        0 < k < vocoder_map().len(),
    ensures
        vocoder_map()[k].0 == "vocoder/"@ + vocoder_map()[k].1,
        vocoder_map()[0] == ("vocoder/Add_output_0"@, "pre_embed/after_unfold"@),
{
    let a = stack_names(DWCONV_NAME@, 10);
    let b = last_names();
    let n = a.len() as int;
    if k >= 2 && k - 2 < n {
        assert(vocoder_map()[k] == behind(PREFIX@, a)[k - 2]);
    } else if k >= 2 {
        assert(vocoder_map()[k] == behind(PREFIX@, b)[k - 2 - n]);
    }
}

} // verus!
