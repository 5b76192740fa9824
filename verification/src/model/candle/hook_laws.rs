//! What the networks record, and under which names.

use vstd::prelude::*;

use crate::model::candle::attention::{attn_seen, ffn_seen, AttnParts, FfnParts};
use crate::model::candle::conditioning::{
    part_name, style_cond_seen, text_cond_seen, CondParts,
};
use crate::model::candle::duration_predictor::{predicted_seen, DurationParts};
use crate::model::candle::graph::Expr;
use crate::model::candle::layers::{block_seen, ConvNextParts, NamingView};
use crate::model::candle::text_encoder::{prompted_seen, spte_seen, PromptedParts, SpteParts};
use crate::model::candle::vector_estimator::{
    field_start, setting, step_seen, vector_field, StepInputs,
};
use crate::model::candle::vocoder::{vocoder_seen, VocoderParts};
use crate::strings::decimal;

verus! {

/// Whether a value is recorded under a name.
pub open spec fn recorded(seen: Seq<(Seq<char>, Expr)>, name: Seq<char>, e: Expr) -> bool {
    seen.contains((name, e))
}

/// What stands in a list is recorded.
proof fn lemma_at(seen: Seq<(Seq<char>, Expr)>, k: int)
    requires
        0 <= k < seen.len(),
    ensures
        recorded(seen, seen[k].0, seen[k].1),
{
    assert(seen[k] == (seen[k].0, seen[k].1));
}

/// The parts of a block are recorded under their names; of a block of the flow, its result.
pub proof fn law_block_records(dwconv: Seq<char>, before: Seq<char>, i: int, p: ConvNextParts)
    ensures
        ({
            let at = "convnext."@ + decimal(i);
            let s = block_seen(NamingView::Inner(dwconv), i, p);
            &&& s.len() == 5
            &&& recorded(s, at + dwconv, p.dwconv)
            &&& recorded(s, at + "/norm/norm/LayerNormalization_output_0"@, p.norm)
            &&& recorded(s, at + "/pwconv1/Conv_output_0"@, p.pwconv1)
            &&& recorded(s, at + "/pwconv2/Conv_output_0"@, p.pwconv2)
            &&& recorded(s, at + "/Add_output_0"@, p.sum)
            &&& recorded(
                block_seen(NamingView::Outer(before), i, p),
                before + (at + "/Add_output_0"@),
                p.out,
            )
        }),
{
    let s = block_seen(NamingView::Inner(dwconv), i, p);
    lemma_at(s, 0);
    lemma_at(s, 1);
    lemma_at(s, 2);
    lemma_at(s, 3);
    lemma_at(s, 4);
    lemma_at(block_seen(NamingView::Outer(before), i, p), 0);
}

/// The parts of a layer of attention and of a feed-forward layer are recorded under their
/// names.
pub proof fn law_layer_records(i: int, a: AttnParts, f: FfnParts)
    ensures
        ({
            let at = "attn_layers."@ + decimal(i);
            let s = attn_seen(i, a);
            let ffn = "ffn_layers."@ + decimal(i);
            &&& s.len() == 11
            &&& recorded(s, at + "/conv_q/Conv_output_0"@, a.q)
            &&& recorded(s, at + "/conv_k/Conv_output_0"@, a.k)
            &&& recorded(s, at + "/conv_v/Conv_output_0"@, a.v)
            &&& recorded(s, at + "/MatMul_output_0"@, a.scores)
            &&& recorded(s, at + "/MatMul_1_output_0"@, a.rel_logits)
            &&& recorded(s, at + "/Add_2_output_0"@, a.sum)
            &&& recorded(s, at + "/Softmax_output_0"@, a.attn)
            &&& recorded(s, at + "/MatMul_2_output_0"@, a.by_value)
            &&& recorded(s, at + "/MatMul_3_output_0"@, a.by_position)
            &&& recorded(s, at + "/Add_4_output_0"@, a.mixed)
            &&& recorded(s, at + "/conv_o/Conv_output_0"@, a.out)
            &&& recorded(ffn_seen(i, f), ffn + "/conv_1/Conv_output_0"@, f.conv_1)
            &&& recorded(ffn_seen(i, f), ffn + "/conv_2/Conv_output_0"@, f.conv_2)
        }),
{
    let s = attn_seen(i, a);
    lemma_at(s, 0);
    lemma_at(s, 1);
    lemma_at(s, 2);
    lemma_at(s, 3);
    lemma_at(s, 4);
    lemma_at(s, 5);
    lemma_at(s, 6);
    lemma_at(s, 7);
    lemma_at(s, 8);
    lemma_at(s, 9);
    lemma_at(s, 10);
    lemma_at(ffn_seen(i, f), 0);
    lemma_at(ffn_seen(i, f), 1);
}

/// The parts of a layer that attends to the style are recorded under their names.
pub proof fn law_style_layer_records(idx: int, p: SpteParts)
    ensures
        ({
            let at = "spte/attention"@ + decimal(idx);
            let s = spte_seen(idx, p);
            &&& s.len() == 4
            &&& recorded(s, at + "/W_query"@, p.q)
            &&& recorded(s, at + "/W_key"@, p.k)
            &&& recorded(s, at + "/W_value"@, p.v)
            &&& recorded(s, at + "/out_fc"@, p.out)
        }),
{
    let s = spte_seen(idx, p);
    lemma_at(s, 0);
    lemma_at(s, 1);
    lemma_at(s, 2);
    lemma_at(s, 3);
}

/// The sums, the norm and the embedding behind these layers are recorded under their names,
/// in this order.
pub proof fn law_style_sums_recorded(p: PromptedParts)
    ensures
        ({
            let s = prompted_seen(p);
            &&& s.len() == 12
            &&& s.take(4) == spte_seen(1, p.attention1)
            &&& s[4] == ("spte/Add_output_0"@, p.sum_1)
            &&& s.subrange(5, 9) == spte_seen(2, p.attention2)
            &&& s[9] == ("spte/Add_1_output_0"@, p.sum_2)
            &&& s[10] == ("spte/norm/output"@, p.norm)
            &&& s[11] == ("spte/final_text_emb"@, p.text_emb)
        }),
{
    let s = prompted_seen(p);
    assert(s.take(4) == spte_seen(1, p.attention1));
    assert(s.subrange(5, 9) == spte_seen(2, p.attention2));
}

/// The parts of the prediction of a duration are recorded under their names.
pub proof fn law_prediction_records(p: DurationParts)
    ensures
        ({
            let s = predicted_seen(p.predicted);
            let q = p.predicted;
            &&& s.len() == 5
            &&& recorded(s, "proj_out/net/Conv_output_0"@, q.proj_out)
            &&& recorded(s, "layers.0/Gemm_output_0"@, q.layer0)
            &&& recorded(s, "activation/PRelu_output_0"@, q.act)
            &&& recorded(s, "layers.1/Gemm_output_0"@, q.layer1)
            &&& recorded(s, "duration"@, q.duration)
        }),
{
    let s = predicted_seen(p.predicted);
    lemma_at(s, 0);
    lemma_at(s, 1);
    lemma_at(s, 2);
    lemma_at(s, 3);
    lemma_at(s, 4);
}

/// The parts of the vocoder around its blocks are recorded under their names, the first two
/// first and the last four last.
pub proof fn law_vocoder_records(p: VocoderParts)
    ensures
        ({
            let s = vocoder_seen(p);
            let n = s.len() as int;
            &&& n >= 6
            &&& s[0] == ("pre_embed/after_unfold"@, p.unfolded)
            &&& s[1] == ("embed/net/Conv_output_0"@, p.embed)
            &&& s[n - 4] == ("final_norm/BatchNormalization_output_0"@, p.norm)
            &&& s[n - 3] == ("head/layer1/net/Conv_output_0"@, p.head1)
            &&& s[n - 2] == ("head/act/PRelu_output_0"@, p.act)
            &&& s[n - 1] == ("head/layer2/Conv_output_0"@, p.head2)
        }),
{
}

/// The parts of the layers by which text and style act are recorded under their names.
pub proof fn law_conditioning_records(block: int, p: CondParts)
    ensures
        ({
            let s = text_cond_seen(block, p);
            let at = "main_blocks."@ + decimal(6 * block + 3) + "/"@;
            &&& s.len() == 7
            &&& recorded(s, at + "text_cond/W_query/Add_output_0"@, p.q)
            &&& recorded(s, at + "text_cond/W_key/Add_output_0"@, p.k)
            &&& recorded(s, at + "text_cond/W_value/Add_output_0"@, p.v)
            &&& recorded(s, at + "text_cond/Add_output_0"@, p.sum)
            &&& recorded(s, at + "text_cond/out_fc/Add_output_0"@, p.out_fc)
            &&& recorded(s, at + "text_cond/norm/output"@, p.norm)
            &&& recorded(s, at + "Mul_1_output_0"@, p.out)
        }),
        ({
            let s = style_cond_seen(block, p);
            let at = "main_blocks."@ + decimal(6 * block + 5) + "/"@;
            &&& s.len() == 7
            &&& recorded(s, at + "style_cond/W_query/Add_output_0"@, p.q)
            &&& recorded(s, at + "style_cond/W_key/Add_output_0"@, p.k)
            &&& recorded(s, at + "style_cond/W_value/Add_output_0"@, p.v)
            &&& recorded(s, at + "style_cond/out_fc/Add_output_0"@, p.out_fc)
            &&& recorded(s, at + "style_cond/Add_output_0"@, p.sum)
            &&& recorded(s, at + "style_cond/norm/output"@, p.norm)
            &&& recorded(s, at + "Mul_1_output_0"@, p.out)
        }),
{
    assert(part_name(block, 3) == "main_blocks."@ + decimal(6 * block + 3) + "/"@);
    assert(part_name(block, 5) == "main_blocks."@ + decimal(6 * block + 5) + "/"@);
    let s = text_cond_seen(block, p);
    lemma_at(s, 0);
    lemma_at(s, 1);
    lemma_at(s, 2);
    lemma_at(s, 3);
    lemma_at(s, 4);
    lemma_at(s, 5);
    lemma_at(s, 6);
    let u = style_cond_seen(block, p);
    lemma_at(u, 0);
    lemma_at(u, 1);
    lemma_at(u, 2);
    lemma_at(u, 3);
    lemma_at(u, 4);
    lemma_at(u, 5);
    lemma_at(u, 6);
}

/// A step records the embedding of the time and the start of the field first, and the field
/// last.
pub proof fn law_step_records(i: StepInputs, t: usize, s: usize)
    ensures
        ({
            let e = setting(i, t, s);
            let all = step_seen(i, t, s);
            &&& all.len() >= 3
            &&& all[0] == ("time_encoder/output"@, e.time)
            &&& all[1] == ("proj_in/Mul_output_0"@, field_start(i, e))
            &&& all.last() == ("proj_out/Mul_output_0"@, vector_field(i, t, s))
        }),
{
}

} // verus!
