//! The recorded results of the first step of the flow.

use vstd::prelude::*;

use crate::strings::{chars_of, ends_with, has_suffix, push_text, string_of};

verus! {

/// What the names of recorded results begin with.
pub const PREFIX: &'static str = "vector_estimator/step_00/";

/// Endings of names of computed results.
pub const ENDINGS: [&'static str; 12] = [
    "/text_cond/W_query/Add_output_0",
    "/text_cond/W_key/Add_output_0",
    "/text_cond/W_value/Add_output_0",
    "/text_cond/out_fc/Add_output_0",
    "/text_cond/Add_output_0",
    "/text_cond/norm/output",
    "/style_cond/W_query/Add_output_0",
    "/style_cond/W_key/Add_output_0",
    "/style_cond/W_value/Add_output_0",
    "/style_cond/out_fc/Add_output_0",
    "/style_cond/Add_output_0",
    "/style_cond/norm/output",
];

/// What stands in their places in the names of recorded results.
pub const RECORDED: [&'static str; 12] = [
    "/attn/W_query/linear/Add_output_0",
    "/attn/W_key/linear/Add_output_0",
    "/attn/W_value/linear/Add_output_0",
    "/attn/out_fc/linear/Add_output_0",
    "/Add_output_0",
    "/norm/norm/LayerNormalization_output_0",
    "/attention/W_query/linear/Add_output_0",
    "/attention/W_key/linear/Add_output_0",
    "/attention/W_value/linear/Add_output_0",
    "/attention/out_fc/linear/Add_output_0",
    "/Add_output_0",
    "/norm/norm/LayerNormalization_output_0",
];

/// The first ending, at or after `k`, that a name has, or the number of endings.
pub open spec fn ending_of(hook: Seq<char>, k: int) -> int
    decreases 12 - k,
{
    if 0 <= k < 12 && !ends_with(hook, ENDINGS@[k]@) {
        ending_of(hook, k + 1)
    } else {
        k
    }
}

/// The name of a recorded result, from that of the computed one.
pub open spec fn recorded_name(hook: Seq<char>) -> Seq<char> {
    let k = ending_of(hook, 0);
    if k < 12 {
        PREFIX@ + hook.take(hook.len() - ENDINGS@[k]@.len()) + RECORDED@[k]@
    } else {
        PREFIX@ + hook
    }
}

/// The name of a recorded result, from that of the computed one.
pub fn golden_key(hook: &str) -> (r: String)
    ensures
        r@ == recorded_name(hook@),
{
    let chars = chars_of(hook);
    let mut out = chars_of(PREFIX);
    let mut k: usize = 0;
    while k < ENDINGS.len()
        invariant
            chars@ == hook@,
            out@ == PREFIX@,
            k <= 12,
            ending_of(hook@, k as int) == ending_of(hook@, 0),
        decreases 12 - k,
    {
        let ending = chars_of(ENDINGS[k]);
        if has_suffix(chars.as_slice(), ending.as_slice()) {
            let n: usize = chars.len() - ending.len();
            let rest = vstd::slice::slice_subrange(chars.as_slice(), 0, n);
            assert(rest@ == hook@.take(hook@.len() - ENDINGS@[k as int]@.len()));
            crate::strings::push_all(&mut out, rest);
            push_text(&mut out, RECORDED[k]);
            return string_of(out.as_slice());
        }
        k = k + 1;
    }
    crate::strings::push_all(&mut out, chars.as_slice());
    string_of(out.as_slice())
}

// ---------------------------------------------------------------------------
// Laws
// ---------------------------------------------------------------------------

/// A text that differs from another counted from the end does not end with it.
proof fn lemma_other_ending(x: Seq<char>, e: Seq<char>, t: Seq<char>, q: int)
    requires
        1 <= q <= e.len(),
        q <= t.len(),
        e[e.len() - q] != t[t.len() - q],
    ensures
        !ends_with(x + e, t),
{
    let s = x + e;
    if ends_with(s, t) {
        let tail = s.skip(s.len() - t.len());
        assert(tail[t.len() - q] == s[s.len() - q]);
        assert(s[s.len() - q] == e[e.len() - q]);
    }
}

proof fn lemma_own_ending(x: Seq<char>, e: Seq<char>)
    ensures
        ends_with(x + e, e),
        (x + e).take((x + e).len() - e.len()) == x,
{
    assert((x + e).skip((x + e).len() - e.len()) == e);
}

proof fn lemma_ending_0(x: Seq<char>)
    ensures
        recorded_name(x + "/text_cond/W_query/Add_output_0"@) == "vector_estimator/step_00/"@ + x
            + "/attn/W_query/linear/Add_output_0"@,
{
    let e = "/text_cond/W_query/Add_output_0"@;
    reveal_with_fuel(ending_of, 2);
    reveal_strlit("/text_cond/W_query/Add_output_0");
    lemma_own_ending(x, e);
    assert(ENDINGS@[0] == "/text_cond/W_query/Add_output_0");
    assert(RECORDED@[0] == "/attn/W_query/linear/Add_output_0");
}

proof fn lemma_ending_1(x: Seq<char>)
    ensures
        recorded_name(x + "/text_cond/W_key/Add_output_0"@) == "vector_estimator/step_00/"@ + x
            + "/attn/W_key/linear/Add_output_0"@,
{
    let e = "/text_cond/W_key/Add_output_0"@;
    reveal_with_fuel(ending_of, 3);
    reveal_strlit("/text_cond/W_query/Add_output_0");
    reveal_strlit("/text_cond/W_key/Add_output_0");
    assert(e[14] == 'e' && "/text_cond/W_query/Add_output_0"@[16] == 'r');
    lemma_other_ending(x, e, "/text_cond/W_query/Add_output_0"@, 15);
    assert(ENDINGS@[0] == "/text_cond/W_query/Add_output_0");
    lemma_own_ending(x, e);
    assert(ENDINGS@[1] == "/text_cond/W_key/Add_output_0");
    assert(RECORDED@[1] == "/attn/W_key/linear/Add_output_0");
}

proof fn lemma_ending_2(x: Seq<char>)
    ensures
        recorded_name(x + "/text_cond/W_value/Add_output_0"@) == "vector_estimator/step_00/"@ + x
            + "/attn/W_value/linear/Add_output_0"@,
{
    let e = "/text_cond/W_value/Add_output_0"@;
    reveal_with_fuel(ending_of, 4);
    reveal_strlit("/text_cond/W_query/Add_output_0");
    reveal_strlit("/text_cond/W_key/Add_output_0");
    reveal_strlit("/text_cond/W_value/Add_output_0");
    assert(e[17] == 'e' && "/text_cond/W_query/Add_output_0"@[17] == 'y');
    lemma_other_ending(x, e, "/text_cond/W_query/Add_output_0"@, 14);
    assert(ENDINGS@[0] == "/text_cond/W_query/Add_output_0");
    assert(e[17] == 'e' && "/text_cond/W_key/Add_output_0"@[15] == 'y');
    lemma_other_ending(x, e, "/text_cond/W_key/Add_output_0"@, 14);
    assert(ENDINGS@[1] == "/text_cond/W_key/Add_output_0");
    lemma_own_ending(x, e);
    assert(ENDINGS@[2] == "/text_cond/W_value/Add_output_0");
    assert(RECORDED@[2] == "/attn/W_value/linear/Add_output_0");
}

proof fn lemma_ending_3(x: Seq<char>)
    ensures
        recorded_name(x + "/text_cond/out_fc/Add_output_0"@) == "vector_estimator/step_00/"@ + x
            + "/attn/out_fc/linear/Add_output_0"@,
{
    let e = "/text_cond/out_fc/Add_output_0"@;
    reveal_with_fuel(ending_of, 5);
    reveal_strlit("/text_cond/W_query/Add_output_0");
    reveal_strlit("/text_cond/W_key/Add_output_0");
    reveal_strlit("/text_cond/W_value/Add_output_0");
    reveal_strlit("/text_cond/out_fc/Add_output_0");
    assert(e[16] == 'c' && "/text_cond/W_query/Add_output_0"@[17] == 'y');
    lemma_other_ending(x, e, "/text_cond/W_query/Add_output_0"@, 14);
    assert(ENDINGS@[0] == "/text_cond/W_query/Add_output_0");
    assert(e[16] == 'c' && "/text_cond/W_key/Add_output_0"@[15] == 'y');
    lemma_other_ending(x, e, "/text_cond/W_key/Add_output_0"@, 14);
    assert(ENDINGS@[1] == "/text_cond/W_key/Add_output_0");
    assert(e[16] == 'c' && "/text_cond/W_value/Add_output_0"@[17] == 'e');
    lemma_other_ending(x, e, "/text_cond/W_value/Add_output_0"@, 14);
    assert(ENDINGS@[2] == "/text_cond/W_value/Add_output_0");
    lemma_own_ending(x, e);
    assert(ENDINGS@[3] == "/text_cond/out_fc/Add_output_0");
    assert(RECORDED@[3] == "/attn/out_fc/linear/Add_output_0");
}

proof fn lemma_ending_4(x: Seq<char>)
    ensures
        recorded_name(x + "/text_cond/Add_output_0"@) == "vector_estimator/step_00/"@ + x
            + "/Add_output_0"@,
{
    let e = "/text_cond/Add_output_0"@;
    reveal_with_fuel(ending_of, 6);
    reveal_strlit("/text_cond/W_query/Add_output_0");
    reveal_strlit("/text_cond/W_key/Add_output_0");
    reveal_strlit("/text_cond/W_value/Add_output_0");
    reveal_strlit("/text_cond/out_fc/Add_output_0");
    reveal_strlit("/text_cond/Add_output_0");
    assert(e[9] == 'd' && "/text_cond/W_query/Add_output_0"@[17] == 'y');
    lemma_other_ending(x, e, "/text_cond/W_query/Add_output_0"@, 14);
    assert(ENDINGS@[0] == "/text_cond/W_query/Add_output_0");
    assert(e[9] == 'd' && "/text_cond/W_key/Add_output_0"@[15] == 'y');
    lemma_other_ending(x, e, "/text_cond/W_key/Add_output_0"@, 14);
    assert(ENDINGS@[1] == "/text_cond/W_key/Add_output_0");
    assert(e[9] == 'd' && "/text_cond/W_value/Add_output_0"@[17] == 'e');
    lemma_other_ending(x, e, "/text_cond/W_value/Add_output_0"@, 14);
    assert(ENDINGS@[2] == "/text_cond/W_value/Add_output_0");
    assert(e[9] == 'd' && "/text_cond/out_fc/Add_output_0"@[16] == 'c');
    lemma_other_ending(x, e, "/text_cond/out_fc/Add_output_0"@, 14);
    assert(ENDINGS@[3] == "/text_cond/out_fc/Add_output_0");
    lemma_own_ending(x, e);
    assert(ENDINGS@[4] == "/text_cond/Add_output_0");
    assert(RECORDED@[4] == "/Add_output_0");
}

proof fn lemma_ending_5(x: Seq<char>)
    ensures
        recorded_name(x + "/text_cond/norm/output"@) == "vector_estimator/step_00/"@ + x
            + "/norm/norm/LayerNormalization_output_0"@,
{
    let e = "/text_cond/norm/output"@;
    reveal_with_fuel(ending_of, 7);
    reveal_strlit("/text_cond/W_query/Add_output_0");
    reveal_strlit("/text_cond/W_key/Add_output_0");
    reveal_strlit("/text_cond/W_value/Add_output_0");
    reveal_strlit("/text_cond/out_fc/Add_output_0");
    reveal_strlit("/text_cond/Add_output_0");
    reveal_strlit("/text_cond/norm/output");
    assert(e[21] == 't' && "/text_cond/W_query/Add_output_0"@[30] == '0');
    lemma_other_ending(x, e, "/text_cond/W_query/Add_output_0"@, 1);
    assert(ENDINGS@[0] == "/text_cond/W_query/Add_output_0");
    assert(e[21] == 't' && "/text_cond/W_key/Add_output_0"@[28] == '0');
    lemma_other_ending(x, e, "/text_cond/W_key/Add_output_0"@, 1);
    assert(ENDINGS@[1] == "/text_cond/W_key/Add_output_0");
    assert(e[21] == 't' && "/text_cond/W_value/Add_output_0"@[30] == '0');
    lemma_other_ending(x, e, "/text_cond/W_value/Add_output_0"@, 1);
    assert(ENDINGS@[2] == "/text_cond/W_value/Add_output_0");
    assert(e[21] == 't' && "/text_cond/out_fc/Add_output_0"@[29] == '0');
    lemma_other_ending(x, e, "/text_cond/out_fc/Add_output_0"@, 1);
    assert(ENDINGS@[3] == "/text_cond/out_fc/Add_output_0");
    assert(e[21] == 't' && "/text_cond/Add_output_0"@[22] == '0');
    lemma_other_ending(x, e, "/text_cond/Add_output_0"@, 1);
    assert(ENDINGS@[4] == "/text_cond/Add_output_0");
    lemma_own_ending(x, e);
    assert(ENDINGS@[5] == "/text_cond/norm/output");
    assert(RECORDED@[5] == "/norm/norm/LayerNormalization_output_0");
}

proof fn lemma_ending_6(x: Seq<char>)
    ensures
        recorded_name(x + "/style_cond/W_query/Add_output_0"@) == "vector_estimator/step_00/"@ + x
            + "/attention/W_query/linear/Add_output_0"@,
{
    let e = "/style_cond/W_query/Add_output_0"@;
    reveal_with_fuel(ending_of, 8);
    reveal_strlit("/text_cond/W_query/Add_output_0");
    reveal_strlit("/text_cond/W_key/Add_output_0");
    reveal_strlit("/text_cond/W_value/Add_output_0");
    reveal_strlit("/text_cond/out_fc/Add_output_0");
    reveal_strlit("/text_cond/Add_output_0");
    reveal_strlit("/text_cond/norm/output");
    reveal_strlit("/style_cond/W_query/Add_output_0");
    assert(e[5] == 'e' && "/text_cond/W_query/Add_output_0"@[4] == 't');
    lemma_other_ending(x, e, "/text_cond/W_query/Add_output_0"@, 27);
    assert(ENDINGS@[0] == "/text_cond/W_query/Add_output_0");
    assert(e[17] == 'r' && "/text_cond/W_key/Add_output_0"@[14] == 'e');
    lemma_other_ending(x, e, "/text_cond/W_key/Add_output_0"@, 15);
    assert(ENDINGS@[1] == "/text_cond/W_key/Add_output_0");
    assert(e[18] == 'y' && "/text_cond/W_value/Add_output_0"@[17] == 'e');
    lemma_other_ending(x, e, "/text_cond/W_value/Add_output_0"@, 14);
    assert(ENDINGS@[2] == "/text_cond/W_value/Add_output_0");
    assert(e[18] == 'y' && "/text_cond/out_fc/Add_output_0"@[16] == 'c');
    lemma_other_ending(x, e, "/text_cond/out_fc/Add_output_0"@, 14);
    assert(ENDINGS@[3] == "/text_cond/out_fc/Add_output_0");
    assert(e[18] == 'y' && "/text_cond/Add_output_0"@[9] == 'd');
    lemma_other_ending(x, e, "/text_cond/Add_output_0"@, 14);
    assert(ENDINGS@[4] == "/text_cond/Add_output_0");
    assert(e[31] == '0' && "/text_cond/norm/output"@[21] == 't');
    lemma_other_ending(x, e, "/text_cond/norm/output"@, 1);
    assert(ENDINGS@[5] == "/text_cond/norm/output");
    lemma_own_ending(x, e);
    assert(ENDINGS@[6] == "/style_cond/W_query/Add_output_0");
    assert(RECORDED@[6] == "/attention/W_query/linear/Add_output_0");
}

proof fn lemma_ending_7(x: Seq<char>)
    ensures
        recorded_name(x + "/style_cond/W_key/Add_output_0"@) == "vector_estimator/step_00/"@ + x
            + "/attention/W_key/linear/Add_output_0"@,
{
    let e = "/style_cond/W_key/Add_output_0"@;
    reveal_with_fuel(ending_of, 9);
    reveal_strlit("/text_cond/W_query/Add_output_0");
    reveal_strlit("/text_cond/W_key/Add_output_0");
    reveal_strlit("/text_cond/W_value/Add_output_0");
    reveal_strlit("/text_cond/out_fc/Add_output_0");
    reveal_strlit("/text_cond/Add_output_0");
    reveal_strlit("/text_cond/norm/output");
    reveal_strlit("/style_cond/W_query/Add_output_0");
    reveal_strlit("/style_cond/W_key/Add_output_0");
    assert(e[15] == 'e' && "/text_cond/W_query/Add_output_0"@[16] == 'r');
    lemma_other_ending(x, e, "/text_cond/W_query/Add_output_0"@, 15);
    assert(ENDINGS@[0] == "/text_cond/W_query/Add_output_0");
    assert(e[5] == 'e' && "/text_cond/W_key/Add_output_0"@[4] == 't');
    lemma_other_ending(x, e, "/text_cond/W_key/Add_output_0"@, 25);
    assert(ENDINGS@[1] == "/text_cond/W_key/Add_output_0");
    assert(e[16] == 'y' && "/text_cond/W_value/Add_output_0"@[17] == 'e');
    lemma_other_ending(x, e, "/text_cond/W_value/Add_output_0"@, 14);
    assert(ENDINGS@[2] == "/text_cond/W_value/Add_output_0");
    assert(e[16] == 'y' && "/text_cond/out_fc/Add_output_0"@[16] == 'c');
    lemma_other_ending(x, e, "/text_cond/out_fc/Add_output_0"@, 14);
    assert(ENDINGS@[3] == "/text_cond/out_fc/Add_output_0");
    assert(e[16] == 'y' && "/text_cond/Add_output_0"@[9] == 'd');
    lemma_other_ending(x, e, "/text_cond/Add_output_0"@, 14);
    assert(ENDINGS@[4] == "/text_cond/Add_output_0");
    assert(e[29] == '0' && "/text_cond/norm/output"@[21] == 't');
    lemma_other_ending(x, e, "/text_cond/norm/output"@, 1);
    assert(ENDINGS@[5] == "/text_cond/norm/output");
    assert(e[15] == 'e' && "/style_cond/W_query/Add_output_0"@[17] == 'r');
    lemma_other_ending(x, e, "/style_cond/W_query/Add_output_0"@, 15);
    assert(ENDINGS@[6] == "/style_cond/W_query/Add_output_0");
    lemma_own_ending(x, e);
    assert(ENDINGS@[7] == "/style_cond/W_key/Add_output_0");
    assert(RECORDED@[7] == "/attention/W_key/linear/Add_output_0");
}

proof fn lemma_ending_8(x: Seq<char>)
    ensures
        recorded_name(x + "/style_cond/W_value/Add_output_0"@) == "vector_estimator/step_00/"@ + x
            + "/attention/W_value/linear/Add_output_0"@,
{
    let e = "/style_cond/W_value/Add_output_0"@;
    reveal_with_fuel(ending_of, 10);
    reveal_strlit("/text_cond/W_query/Add_output_0");
    reveal_strlit("/text_cond/W_key/Add_output_0");
    reveal_strlit("/text_cond/W_value/Add_output_0");
    reveal_strlit("/text_cond/out_fc/Add_output_0");
    reveal_strlit("/text_cond/Add_output_0");
    reveal_strlit("/text_cond/norm/output");
    reveal_strlit("/style_cond/W_query/Add_output_0");
    reveal_strlit("/style_cond/W_key/Add_output_0");
    reveal_strlit("/style_cond/W_value/Add_output_0");
    assert(e[18] == 'e' && "/text_cond/W_query/Add_output_0"@[17] == 'y');
    lemma_other_ending(x, e, "/text_cond/W_query/Add_output_0"@, 14);
    assert(ENDINGS@[0] == "/text_cond/W_query/Add_output_0");
    assert(e[18] == 'e' && "/text_cond/W_key/Add_output_0"@[15] == 'y');
    lemma_other_ending(x, e, "/text_cond/W_key/Add_output_0"@, 14);
    assert(ENDINGS@[1] == "/text_cond/W_key/Add_output_0");
    assert(e[5] == 'e' && "/text_cond/W_value/Add_output_0"@[4] == 't');
    lemma_other_ending(x, e, "/text_cond/W_value/Add_output_0"@, 27);
    assert(ENDINGS@[2] == "/text_cond/W_value/Add_output_0");
    assert(e[18] == 'e' && "/text_cond/out_fc/Add_output_0"@[16] == 'c');
    lemma_other_ending(x, e, "/text_cond/out_fc/Add_output_0"@, 14);
    assert(ENDINGS@[3] == "/text_cond/out_fc/Add_output_0");
    assert(e[18] == 'e' && "/text_cond/Add_output_0"@[9] == 'd');
    lemma_other_ending(x, e, "/text_cond/Add_output_0"@, 14);
    assert(ENDINGS@[4] == "/text_cond/Add_output_0");
    assert(e[31] == '0' && "/text_cond/norm/output"@[21] == 't');
    lemma_other_ending(x, e, "/text_cond/norm/output"@, 1);
    assert(ENDINGS@[5] == "/text_cond/norm/output");
    assert(e[18] == 'e' && "/style_cond/W_query/Add_output_0"@[18] == 'y');
    lemma_other_ending(x, e, "/style_cond/W_query/Add_output_0"@, 14);
    assert(ENDINGS@[6] == "/style_cond/W_query/Add_output_0");
    assert(e[18] == 'e' && "/style_cond/W_key/Add_output_0"@[16] == 'y');
    lemma_other_ending(x, e, "/style_cond/W_key/Add_output_0"@, 14);
    assert(ENDINGS@[7] == "/style_cond/W_key/Add_output_0");
    lemma_own_ending(x, e);
    assert(ENDINGS@[8] == "/style_cond/W_value/Add_output_0");
    assert(RECORDED@[8] == "/attention/W_value/linear/Add_output_0");
}

proof fn lemma_ending_9(x: Seq<char>)
    ensures
        recorded_name(x + "/style_cond/out_fc/Add_output_0"@) == "vector_estimator/step_00/"@ + x
            + "/attention/out_fc/linear/Add_output_0"@,
{
    let e = "/style_cond/out_fc/Add_output_0"@;
    reveal_with_fuel(ending_of, 11);
    reveal_strlit("/text_cond/W_query/Add_output_0");
    reveal_strlit("/text_cond/W_key/Add_output_0");
    reveal_strlit("/text_cond/W_value/Add_output_0");
    reveal_strlit("/text_cond/out_fc/Add_output_0");
    reveal_strlit("/text_cond/Add_output_0");
    reveal_strlit("/text_cond/norm/output");
    reveal_strlit("/style_cond/W_query/Add_output_0");
    reveal_strlit("/style_cond/W_key/Add_output_0");
    reveal_strlit("/style_cond/W_value/Add_output_0");
    reveal_strlit("/style_cond/out_fc/Add_output_0");
    assert(e[17] == 'c' && "/text_cond/W_query/Add_output_0"@[17] == 'y');
    lemma_other_ending(x, e, "/text_cond/W_query/Add_output_0"@, 14);
    assert(ENDINGS@[0] == "/text_cond/W_query/Add_output_0");
    assert(e[17] == 'c' && "/text_cond/W_key/Add_output_0"@[15] == 'y');
    lemma_other_ending(x, e, "/text_cond/W_key/Add_output_0"@, 14);
    assert(ENDINGS@[1] == "/text_cond/W_key/Add_output_0");
    assert(e[17] == 'c' && "/text_cond/W_value/Add_output_0"@[17] == 'e');
    lemma_other_ending(x, e, "/text_cond/W_value/Add_output_0"@, 14);
    assert(ENDINGS@[2] == "/text_cond/W_value/Add_output_0");
    assert(e[5] == 'e' && "/text_cond/out_fc/Add_output_0"@[4] == 't');
    lemma_other_ending(x, e, "/text_cond/out_fc/Add_output_0"@, 26);
    assert(ENDINGS@[3] == "/text_cond/out_fc/Add_output_0");
    assert(e[17] == 'c' && "/text_cond/Add_output_0"@[9] == 'd');
    lemma_other_ending(x, e, "/text_cond/Add_output_0"@, 14);
    assert(ENDINGS@[4] == "/text_cond/Add_output_0");
    assert(e[30] == '0' && "/text_cond/norm/output"@[21] == 't');
    lemma_other_ending(x, e, "/text_cond/norm/output"@, 1);
    assert(ENDINGS@[5] == "/text_cond/norm/output");
    assert(e[17] == 'c' && "/style_cond/W_query/Add_output_0"@[18] == 'y');
    lemma_other_ending(x, e, "/style_cond/W_query/Add_output_0"@, 14);
    assert(ENDINGS@[6] == "/style_cond/W_query/Add_output_0");
    assert(e[17] == 'c' && "/style_cond/W_key/Add_output_0"@[16] == 'y');
    lemma_other_ending(x, e, "/style_cond/W_key/Add_output_0"@, 14);
    assert(ENDINGS@[7] == "/style_cond/W_key/Add_output_0");
    assert(e[17] == 'c' && "/style_cond/W_value/Add_output_0"@[18] == 'e');
    lemma_other_ending(x, e, "/style_cond/W_value/Add_output_0"@, 14);
    assert(ENDINGS@[8] == "/style_cond/W_value/Add_output_0");
    lemma_own_ending(x, e);
    assert(ENDINGS@[9] == "/style_cond/out_fc/Add_output_0");
    assert(RECORDED@[9] == "/attention/out_fc/linear/Add_output_0");
}

proof fn lemma_ending_10(x: Seq<char>)
    ensures
        recorded_name(x + "/style_cond/Add_output_0"@) == "vector_estimator/step_00/"@ + x
            + "/Add_output_0"@,
{
    let e = "/style_cond/Add_output_0"@;
    reveal_with_fuel(ending_of, 12);
    reveal_strlit("/text_cond/W_query/Add_output_0");
    reveal_strlit("/text_cond/W_key/Add_output_0");
    reveal_strlit("/text_cond/W_value/Add_output_0");
    reveal_strlit("/text_cond/out_fc/Add_output_0");
    reveal_strlit("/text_cond/Add_output_0");
    reveal_strlit("/text_cond/norm/output");
    reveal_strlit("/style_cond/W_query/Add_output_0");
    reveal_strlit("/style_cond/W_key/Add_output_0");
    reveal_strlit("/style_cond/W_value/Add_output_0");
    reveal_strlit("/style_cond/out_fc/Add_output_0");
    reveal_strlit("/style_cond/Add_output_0");
    assert(e[10] == 'd' && "/text_cond/W_query/Add_output_0"@[17] == 'y');
    lemma_other_ending(x, e, "/text_cond/W_query/Add_output_0"@, 14);
    assert(ENDINGS@[0] == "/text_cond/W_query/Add_output_0");
    assert(e[10] == 'd' && "/text_cond/W_key/Add_output_0"@[15] == 'y');
    lemma_other_ending(x, e, "/text_cond/W_key/Add_output_0"@, 14);
    assert(ENDINGS@[1] == "/text_cond/W_key/Add_output_0");
    assert(e[10] == 'd' && "/text_cond/W_value/Add_output_0"@[17] == 'e');
    lemma_other_ending(x, e, "/text_cond/W_value/Add_output_0"@, 14);
    assert(ENDINGS@[2] == "/text_cond/W_value/Add_output_0");
    assert(e[10] == 'd' && "/text_cond/out_fc/Add_output_0"@[16] == 'c');
    lemma_other_ending(x, e, "/text_cond/out_fc/Add_output_0"@, 14);
    assert(ENDINGS@[3] == "/text_cond/out_fc/Add_output_0");
    assert(e[5] == 'e' && "/text_cond/Add_output_0"@[4] == 't');
    lemma_other_ending(x, e, "/text_cond/Add_output_0"@, 19);
    assert(ENDINGS@[4] == "/text_cond/Add_output_0");
    assert(e[23] == '0' && "/text_cond/norm/output"@[21] == 't');
    lemma_other_ending(x, e, "/text_cond/norm/output"@, 1);
    assert(ENDINGS@[5] == "/text_cond/norm/output");
    assert(e[10] == 'd' && "/style_cond/W_query/Add_output_0"@[18] == 'y');
    lemma_other_ending(x, e, "/style_cond/W_query/Add_output_0"@, 14);
    assert(ENDINGS@[6] == "/style_cond/W_query/Add_output_0");
    assert(e[10] == 'd' && "/style_cond/W_key/Add_output_0"@[16] == 'y');
    lemma_other_ending(x, e, "/style_cond/W_key/Add_output_0"@, 14);
    assert(ENDINGS@[7] == "/style_cond/W_key/Add_output_0");
    assert(e[10] == 'd' && "/style_cond/W_value/Add_output_0"@[18] == 'e');
    lemma_other_ending(x, e, "/style_cond/W_value/Add_output_0"@, 14);
    assert(ENDINGS@[8] == "/style_cond/W_value/Add_output_0");
    assert(e[10] == 'd' && "/style_cond/out_fc/Add_output_0"@[17] == 'c');
    lemma_other_ending(x, e, "/style_cond/out_fc/Add_output_0"@, 14);
    assert(ENDINGS@[9] == "/style_cond/out_fc/Add_output_0");
    lemma_own_ending(x, e);
    assert(ENDINGS@[10] == "/style_cond/Add_output_0");
    assert(RECORDED@[10] == "/Add_output_0");
}

proof fn lemma_ending_11(x: Seq<char>)
    ensures
        recorded_name(x + "/style_cond/norm/output"@) == "vector_estimator/step_00/"@ + x
            + "/norm/norm/LayerNormalization_output_0"@,
{
    let e = "/style_cond/norm/output"@;
    reveal_with_fuel(ending_of, 13);
    reveal_strlit("/text_cond/W_query/Add_output_0");
    reveal_strlit("/text_cond/W_key/Add_output_0");
    reveal_strlit("/text_cond/W_value/Add_output_0");
    reveal_strlit("/text_cond/out_fc/Add_output_0");
    reveal_strlit("/text_cond/Add_output_0");
    reveal_strlit("/text_cond/norm/output");
    reveal_strlit("/style_cond/W_query/Add_output_0");
    reveal_strlit("/style_cond/W_key/Add_output_0");
    reveal_strlit("/style_cond/W_value/Add_output_0");
    reveal_strlit("/style_cond/out_fc/Add_output_0");
    reveal_strlit("/style_cond/Add_output_0");
    reveal_strlit("/style_cond/norm/output");
    assert(e[22] == 't' && "/text_cond/W_query/Add_output_0"@[30] == '0');
    lemma_other_ending(x, e, "/text_cond/W_query/Add_output_0"@, 1);
    assert(ENDINGS@[0] == "/text_cond/W_query/Add_output_0");
    assert(e[22] == 't' && "/text_cond/W_key/Add_output_0"@[28] == '0');
    lemma_other_ending(x, e, "/text_cond/W_key/Add_output_0"@, 1);
    assert(ENDINGS@[1] == "/text_cond/W_key/Add_output_0");
    assert(e[22] == 't' && "/text_cond/W_value/Add_output_0"@[30] == '0');
    lemma_other_ending(x, e, "/text_cond/W_value/Add_output_0"@, 1);
    assert(ENDINGS@[2] == "/text_cond/W_value/Add_output_0");
    assert(e[22] == 't' && "/text_cond/out_fc/Add_output_0"@[29] == '0');
    lemma_other_ending(x, e, "/text_cond/out_fc/Add_output_0"@, 1);
    assert(ENDINGS@[3] == "/text_cond/out_fc/Add_output_0");
    assert(e[22] == 't' && "/text_cond/Add_output_0"@[22] == '0');
    lemma_other_ending(x, e, "/text_cond/Add_output_0"@, 1);
    assert(ENDINGS@[4] == "/text_cond/Add_output_0");
    assert(e[5] == 'e' && "/text_cond/norm/output"@[4] == 't');
    lemma_other_ending(x, e, "/text_cond/norm/output"@, 18);
    assert(ENDINGS@[5] == "/text_cond/norm/output");
    assert(e[22] == 't' && "/style_cond/W_query/Add_output_0"@[31] == '0');
    lemma_other_ending(x, e, "/style_cond/W_query/Add_output_0"@, 1);
    assert(ENDINGS@[6] == "/style_cond/W_query/Add_output_0");
    assert(e[22] == 't' && "/style_cond/W_key/Add_output_0"@[29] == '0');
    lemma_other_ending(x, e, "/style_cond/W_key/Add_output_0"@, 1);
    assert(ENDINGS@[7] == "/style_cond/W_key/Add_output_0");
    assert(e[22] == 't' && "/style_cond/W_value/Add_output_0"@[31] == '0');
    lemma_other_ending(x, e, "/style_cond/W_value/Add_output_0"@, 1);
    assert(ENDINGS@[8] == "/style_cond/W_value/Add_output_0");
    assert(e[22] == 't' && "/style_cond/out_fc/Add_output_0"@[30] == '0');
    lemma_other_ending(x, e, "/style_cond/out_fc/Add_output_0"@, 1);
    assert(ENDINGS@[9] == "/style_cond/out_fc/Add_output_0");
    assert(e[22] == 't' && "/style_cond/Add_output_0"@[23] == '0');
    lemma_other_ending(x, e, "/style_cond/Add_output_0"@, 1);
    assert(ENDINGS@[10] == "/style_cond/Add_output_0");
    lemma_own_ending(x, e);
    assert(ENDINGS@[11] == "/style_cond/norm/output");
    assert(RECORDED@[11] == "/norm/norm/LayerNormalization_output_0");
}

/// The results of attention to the text and to the style are recorded under other names
/// than they are computed under: these are they.
pub proof fn law_recorded_names(x: Seq<char>)
    ensures
        recorded_name(x + "/text_cond/W_query/Add_output_0"@) == "vector_estimator/step_00/"@ + x
            + "/attn/W_query/linear/Add_output_0"@,
        recorded_name(x + "/text_cond/W_key/Add_output_0"@) == "vector_estimator/step_00/"@ + x
            + "/attn/W_key/linear/Add_output_0"@,
        recorded_name(x + "/text_cond/W_value/Add_output_0"@) == "vector_estimator/step_00/"@ + x
            + "/attn/W_value/linear/Add_output_0"@,
        recorded_name(x + "/text_cond/out_fc/Add_output_0"@) == "vector_estimator/step_00/"@ + x
            + "/attn/out_fc/linear/Add_output_0"@,
        recorded_name(x + "/text_cond/Add_output_0"@) == "vector_estimator/step_00/"@ + x
            + "/Add_output_0"@,
        recorded_name(x + "/text_cond/norm/output"@) == "vector_estimator/step_00/"@ + x
            + "/norm/norm/LayerNormalization_output_0"@,
        recorded_name(x + "/style_cond/W_query/Add_output_0"@) == "vector_estimator/step_00/"@ + x
            + "/attention/W_query/linear/Add_output_0"@,
        recorded_name(x + "/style_cond/W_key/Add_output_0"@) == "vector_estimator/step_00/"@ + x
            + "/attention/W_key/linear/Add_output_0"@,
        recorded_name(x + "/style_cond/W_value/Add_output_0"@) == "vector_estimator/step_00/"@ + x
            + "/attention/W_value/linear/Add_output_0"@,
        recorded_name(x + "/style_cond/out_fc/Add_output_0"@) == "vector_estimator/step_00/"@ + x
            + "/attention/out_fc/linear/Add_output_0"@,
        recorded_name(x + "/style_cond/Add_output_0"@) == "vector_estimator/step_00/"@ + x
            + "/Add_output_0"@,
        recorded_name(x + "/style_cond/norm/output"@) == "vector_estimator/step_00/"@ + x
            + "/norm/norm/LayerNormalization_output_0"@,
{
    lemma_ending_0(x);
    lemma_ending_1(x);
    lemma_ending_2(x);
    lemma_ending_3(x);
    lemma_ending_4(x);
    lemma_ending_5(x);
    lemma_ending_6(x);
    lemma_ending_7(x);
    lemma_ending_8(x);
    lemma_ending_9(x);
    lemma_ending_10(x);
    lemma_ending_11(x);
}

/// Every other result is recorded under the name that it is computed under, behind that of
/// the step.
pub proof fn law_other_names_stay(hook: Seq<char>)
    requires
        forall|k: int| 0 <= k < 12 ==> !ends_with(hook, #[trigger] ENDINGS@[k]@),
    ensures
        recorded_name(hook) == "vector_estimator/step_00/"@ + hook,
{
    reveal_with_fuel(ending_of, 13);
    assert(forall|k: int| 0 <= k < 12 ==> !ends_with(hook, #[trigger] ENDINGS@[k]@));
}

} // verus!
