//! Cleaning an utterance and tagging it with its language.

use vstd::prelude::*;

use crate::strings::{
    chars_of, push_text, replace_all, replaced, same_text, string_of, trim, trim_of,
};
use crate::text::patterns::{
    closing, collapse, decompose, emoji, is_match, nfkd, rewrite, spaced, CLOSING_END, EMOJI_RUN, WHITE_RUN,
};

verus! {

/// The codes of the languages that the model speaks.
pub const AVAILABLE_LANGS: [&'static str; 31] = [
    "en", "ko", "ja", "ar", "bg", "cs", "da", "de", "el", "es", "et", "fi", "fr", "hi", "hr", "hu",
    "id", "it", "lt", "lv", "nl", "pl", "pt", "ro", "ru", "sk", "sl", "sv", "tr", "uk", "vi",
];

/// The most characters in a chunk.
pub const DEFAULT_MAX_CHUNK_LEN: usize = 300;

/// The most characters in a chunk of Korean or Japanese, which pack more into
/// the model's context.
pub const CJK_MAX_CHUNK_LEN: usize = 120;

/// Why a text was not processed.
#[derive(Debug)]
pub enum TextError {
    /// The language is not one of `AVAILABLE_LANGS`.
    InvalidLang(String),
}

/// Whether `lang` is the code of a language that the model speaks.
pub open spec fn valid_lang(lang: Seq<char>) -> bool {
    exists|k: int| 0 <= k < 31 && lang == #[trigger] AVAILABLE_LANGS@[k]@
}

/// Whether `lang` is one of `AVAILABLE_LANGS`.
pub fn is_valid_lang(lang: &str) -> (r: bool)
    ensures
        r == valid_lang(lang@),
{
    let mut k: usize = 0;
    while k < 31
        invariant
            k <= 31,
            forall|j: int| 0 <= j < k ==> lang@ != #[trigger] AVAILABLE_LANGS@[j]@,
        decreases 31 - k,
    {
        if same_text(lang, AVAILABLE_LANGS[k]) {
            assert(lang@ == AVAILABLE_LANGS@[k as int]@);
            return true;
        }
        k = k + 1;
    }
    false
}

/// The most characters in a chunk of a language: fewer in Korean and Japanese.
pub open spec fn chunk_limit(lang: Seq<char>) -> int {
    if lang == "ko"@ || lang == "ja"@ {
        CJK_MAX_CHUNK_LEN as int
    } else {
        DEFAULT_MAX_CHUNK_LEN as int
    }
}

/// The most characters in a chunk of the given language.
pub fn chunk_max_for(lang: &str) -> (r: usize)
    ensures
        r == chunk_limit(lang@),
{
    if same_text(lang, "ko") || same_text(lang, "ja") {
        CJK_MAX_CHUNK_LEN
    } else {
        DEFAULT_MAX_CHUNK_LEN
    }
}

// ---------------------------------------------------------------------------
// The steps of the cleaning
// ---------------------------------------------------------------------------

/// The plain form of a character: dashes become a hyphen, typographic quotes
/// straight ones, and brackets, bars, arrows and the like a space.
pub open spec fn fold(c: char) -> char {
    if c == '\u{2013}' || c == '\u{2011}' || c == '\u{2014}' {
        '-'
    } else if c == '\u{201C}' || c == '\u{201D}' {
        '"'
    } else if c == '\u{2018}' || c == '\u{2019}' || c == '\u{b4}' || c == '`' {
        '\''
    } else if c == '_' || c == '[' || c == ']' || c == '|' || c == '/' || c == '#' || c
        == '\u{2192}' || c == '\u{2190}' {
        ' '
    } else {
        c
    }
}

/// Symbols that are dropped.
pub open spec fn mute(c: char) -> bool {
    c == '\u{2665}' || c == '\u{2606}' || c == '\u{2661}' || c == '\u{a9}' || c == '\\'
}

/// A text without emoji and mute symbols, its other characters in plain form.
pub open spec fn plain(t: Seq<char>) -> Seq<char> {
    t.filter(|c: char| !emoji(c)).map_values(|c: char| fold(c)).filter(|c: char| !mute(c))
}

/// A text with symbols and Latin abbreviations spelled out.
pub open spec fn spelled(t: Seq<char>) -> Seq<char> {
    replace_all(
        replace_all(replace_all(t, "@"@, " at "@), "e.g.,"@, "for example, "@),
        "i.e.,"@,
        "that is, "@,
    )
}

/// A text without the space before each `mark`.
pub open spec fn tighten(t: Seq<char>, mark: char) -> Seq<char> {
    replace_all(t, seq![' ', mark], seq![mark])
}

/// A text without the space before punctuation marks.
pub open spec fn tightened(t: Seq<char>) -> Seq<char> {
    tighten(
        tighten(
            tighten(
                tighten(tighten(tighten(tighten(t, ','), '.'), '!'), '?'),
                ';',
            ),
            ':',
        ),
        '\'',
    )
}

/// A text with each run of the character `c` become one `c`.
pub open spec fn squeeze(t: Seq<char>, c: char) -> Seq<char>
    decreases t.len(),
{
    if t.len() == 0 {
        seq![]
    } else if t.last() == c && t.len() > 1 && t[t.len() - 2] == c {
        squeeze(t.drop_last(), c)
    } else {
        squeeze(t.drop_last(), c).push(t.last())
    }
}

/// A text with repeated quotes become one.
pub open spec fn unquoted(t: Seq<char>) -> Seq<char> {
    squeeze(squeeze(squeeze(t, '"'), '\''), '`')
}

/// A text closed by a full stop unless it is empty or a mark closes it.
pub open spec fn closed(t: Seq<char>) -> Seq<char> {
    if t.len() > 0 && !closing(t.last()) {
        t.push('.')
    } else {
        t
    }
}

/// The clean form of a decomposed text.
pub open spec fn clean(t: Seq<char>) -> Seq<char> {
    closed(trim(collapse(unquoted(tightened(spelled(plain(t)))))))
}

/// A text between the tags of its language.
pub open spec fn tagged(t: Seq<char>, lang: Seq<char>) -> Seq<char> {
    "<"@ + lang + ">"@ + t + "</"@ + lang + ">"@
}

/// Gives the plain form of a character.
fn fold_char(c: char) -> (r: char)
    ensures
        r == fold(c),
{
    if c == '\u{2013}' || c == '\u{2011}' || c == '\u{2014}' {
        '-'
    } else if c == '\u{201C}' || c == '\u{201D}' {
        '"'
    } else if c == '\u{2018}' || c == '\u{2019}' || c == '\u{b4}' || c == '`' {
        '\''
    } else if c == '_' || c == '[' || c == ']' || c == '|' || c == '/' || c == '#' || c
        == '\u{2192}' || c == '\u{2190}' {
        ' '
    } else {
        c
    }
}

/// Whether a symbol is dropped.
fn is_mute(c: char) -> (r: bool)
    ensures
        r == mute(c),
{
    c == '\u{2665}' || c == '\u{2606}' || c == '\u{2661}' || c == '\u{a9}' || c == '\\'
}

/// Removes emoji and mute symbols, and puts the rest in plain form.
fn make_plain(text: &str) -> (r: Vec<char>)
    ensures
        r@ == plain(text@),
{
    let bare = chars_of(rewrite(EMOJI_RUN, text, "").as_str());
    let ghost folded = bare@.map_values(|c: char| fold(c));
    let ghost keep = |c: char| !mute(c);
    let mut out: Vec<char> = Vec::new();
    proof {
        reveal(Seq::filter);
        assert(folded.take(0) == Seq::<char>::empty());
    }
    for i in 0..bare.len()
        invariant
            folded == bare@.map_values(|c: char| fold(c)),
            keep == (|c: char| !mute(c)),
            out@ == folded.take(i as int).filter(keep),
    {
        proof {
            reveal(Seq::filter);
            assert(folded.take(i + 1).drop_last() == folded.take(i as int));
            assert(folded.take(i + 1).last() == folded[i as int]);
        }
        let c = fold_char(bare[i]);
        if !is_mute(c) {
            out.push(c);
        }
    }
    assert(folded.take(bare@.len() as int) == folded);
    out
}

/// Replaces one text by another.
fn substitute(s: &Vec<char>, from: &str, to: &str) -> (r: Vec<char>)
    requires
        from@.len() > 0,
    ensures
        r@ == replace_all(s@, from@, to@),
{
    replaced(s.as_slice(), chars_of(from).as_slice(), chars_of(to).as_slice())
}

/// Spells out symbols and Latin abbreviations.
fn spell_out(s: &Vec<char>) -> (r: Vec<char>)
    ensures
        r@ == spelled(s@),
{
    proof {
        reveal_strlit("@");
        reveal_strlit("e.g.,");
        reveal_strlit("i.e.,");
    }
    let a = substitute(s, "@", " at ");
    let b = substitute(&a, "e.g.,", "for example, ");
    substitute(&b, "i.e.,", "that is, ")
}

/// Removes the space before punctuation marks.
fn tighten_all(s: &Vec<char>) -> (r: String)
    ensures
        r@ == tightened(s@),
{
    proof {
        reveal_strlit(",");
        reveal_strlit(".");
        reveal_strlit("!");
        reveal_strlit("?");
        reveal_strlit(";");
        reveal_strlit(":");
        reveal_strlit("'");
        assert(","@ == seq![',']);
        assert("."@ == seq!['.']);
        assert("!"@ == seq!['!']);
        assert("?"@ == seq!['?']);
        assert(";"@ == seq![';']);
        assert(":"@ == seq![':']);
        assert("'"@ == seq!['\'']);
        assert(spaced(" ,"@, ','));
        assert(spaced(" \\."@, '.'));
        assert(spaced(" !"@, '!'));
        assert(spaced(" \\?"@, '?'));
        assert(spaced(" ;"@, ';'));
        assert(spaced(" :"@, ':'));
        assert(spaced(" '"@, '\''));
    }
    let t = string_of(s.as_slice());
    let t = rewrite(" ,", t.as_str(), ",");
    let t = rewrite(" \\.", t.as_str(), ".");
    let t = rewrite(" !", t.as_str(), "!");
    let t = rewrite(" \\?", t.as_str(), "?");
    let t = rewrite(" ;", t.as_str(), ";");
    let t = rewrite(" :", t.as_str(), ":");
    rewrite(" '", t.as_str(), "'")
}

/// Reduces each run of a character to one.
fn squeeze_char(s: &Vec<char>, c: char) -> (r: Vec<char>)
    ensures
        r@ == squeeze(s@, c),
{
    let mut out: Vec<char> = Vec::new();
    assert(s@.take(0) == Seq::<char>::empty());
    for i in 0..s.len()
        invariant
            out@ == squeeze(s@.take(i as int), c),
    {
        let ghost part = s@.take(i + 1);
        assert(part.drop_last() == s@.take(i as int));
        assert(part.last() == s@[i as int]);
        if !(s[i] == c && i > 0 && s[i - 1] == c) {
            out.push(s[i]);
        }
    }
    assert(s@.take(s@.len() as int) == s@);
    out
}

/// Cleans a decomposed text: strips emoji, folds dashes and quotes, spells out
/// symbols, tidies punctuation and white space, and closes the text with a full
/// stop where no mark does.
pub fn clean_text(text: &str) -> (r: String)
    ensures
        r@ == clean(text@),
{
    let t = tighten_all(&spell_out(&make_plain(text)));
    let t = squeeze_char(&chars_of(t.as_str()), '"');
    let t = squeeze_char(&t, '\'');
    let t = squeeze_char(&t, '`');
    let t = rewrite(WHITE_RUN, string_of(t.as_slice()).as_str(), " ");
    let t = chars_of(t.as_str());
    let mut t = string_of(trim_of(t.as_slice()));
    if !t.as_str().is_empty() && !is_match(CLOSING_END, t.as_str()) {
        t.push('.');
    }
    t
}

/// Puts a text between the tags of its language.
pub fn tag_text(text: &str, lang: &str) -> (r: String)
    ensures
        r@ == tagged(text@, lang@),
{
    let mut out: Vec<char> = Vec::new();
    push_text(&mut out, "<");
    push_text(&mut out, lang);
    push_text(&mut out, ">");
    push_text(&mut out, text);
    push_text(&mut out, "</");
    push_text(&mut out, lang);
    push_text(&mut out, ">");
    let r = string_of(out.as_slice());
    assert(r@ == tagged(text@, lang@));
    r
}

/// Cleans an utterance and tags it with its language. The result is what the
/// code point table encodes.
pub fn preprocess(text: &str, lang: &str) -> (r: Result<String, TextError>)
    ensures
        match r {
            Ok(out) => valid_lang(lang@) && out@ == tagged(clean(nfkd(text@)), lang@),
            Err(TextError::InvalidLang(l)) => !valid_lang(lang@) && l@ == lang@,
        },
{
    if !is_valid_lang(lang) {
        let given = string_of(chars_of(lang).as_slice());
        return Err(TextError::InvalidLang(given));
    }
    let decomposed = decompose(text);
    let body = clean_text(decomposed.as_str());
    Ok(tag_text(body.as_str(), lang))
}

} // verus!
