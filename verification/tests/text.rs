//! Cleaning, chunking and encoding text.

use soda_tts::text::chunk::{split_by_words, split_long_paragraph, split_long_sentence, split_sentences};
use soda_tts::text::indexer::TableError;
use soda_tts::text::preprocess::{clean_text, tag_text, TextError, AVAILABLE_LANGS};
use soda_tts::text::{chunk_max_for, chunk_text, is_valid_lang, preprocess, UnicodeIndexer};

fn chars(s: &str) -> Vec<char> {
    s.chars().collect()
}

fn spoken(text: &str) -> String {
    match preprocess(text, "en") {
        Ok(s) => s,
        Err(e) => panic!("{:?}", e),
    }
}

#[test]
fn preprocess_wraps_with_lang() {
    let out = preprocess("Hello world", "en").unwrap();
    assert_eq!(out, "<en>Hello world.</en>");
}

#[test]
fn preprocess_keeps_existing_terminator() {
    let out = preprocess("Hello world!", "en").unwrap();
    assert_eq!(out, "<en>Hello world!</en>");
}

#[test]
fn preprocess_collapses_smart_quotes_and_dashes() {
    let out = preprocess("\u{201C}hello\u{2014}world\u{201D}", "en").unwrap();
    assert!(out.contains("\"hello-world\""), "got: {out}");
}

#[test]
fn invalid_lang_errors() {
    assert!(preprocess("hi", "zz").is_err());
}

#[test]
fn chunk_short_passthrough() {
    let chunks = chunk_text("hello world", 300);
    assert_eq!(chunks, vec!["hello world".to_string()]);
}

#[test]
fn chunk_long_paragraph_splits() {
    let text = "Short one. ".to_string() + &"long ".repeat(100);
    let chunks = chunk_text(&text, 80);
    assert!(chunks.len() > 1);
    for c in &chunks {
        assert!(c.chars().count() <= 80, "chunk too long: {} chars", c.chars().count());
    }
}

#[test]
fn invalid_lang_is_reported() {
    match preprocess("hi", "zz") {
        Err(TextError::InvalidLang(l)) => assert_eq!(l, "zz"),
        Ok(s) => panic!("accepted as {}", s),
    }
}

#[test]
fn languages_are_known() {
    assert_eq!(AVAILABLE_LANGS.len(), 31);
    for lang in AVAILABLE_LANGS {
        assert!(is_valid_lang(lang));
    }
    assert!(!is_valid_lang("EN"));
    assert!(!is_valid_lang("na"));
    assert!(!is_valid_lang(""));
}

#[test]
fn compatibility_forms_are_decomposed() {
    assert_eq!(spoken("\u{FB01}ve \u{2460}"), "<en>five 1.</en>");
    assert_eq!(spoken("caf\u{e9}!"), "<en>cafe\u{301}!</en>");
}

#[test]
fn emoji_and_symbols_are_dropped() {
    assert_eq!(spoken("hi \u{1F600}\u{2600}there\u{2661}\\\u{a9}"), "<en>hi there.</en>");
}

#[test]
fn brackets_and_bars_become_spaces() {
    assert_eq!(spoken("a_b[c]d|e/f#g\u{2192}h"), "<en>a b c d e f g h.</en>");
}

#[test]
fn symbols_are_spelled_out() {
    assert_eq!(spoken("me@home"), "<en>me at home.</en>");
    assert_eq!(spoken("e.g.,this i.e.,that"), "<en>for example, this that is, that.</en>");
}

#[test]
fn space_before_punctuation_is_removed() {
    assert_eq!(spoken("a , b . c ! d ? e ; f : g 's"), "<en>a, b. c! d? e; f: g's.</en>");
    assert_eq!(spoken("a  ,b"), "<en>a ,b.</en>");
}

#[test]
fn doubled_quotes_are_reduced() {
    assert_eq!(spoken("\"\"\"a\"\" '''b''"), "<en>\"a\"'b'</en>");
}

#[test]
fn white_space_is_collapsed_and_trimmed() {
    assert_eq!(spoken("  a \t\n b\u{a0}c  "), "<en>a b c.</en>");
}

#[test]
fn nothing_stays_nothing() {
    assert_eq!(spoken("   "), "<en></en>");
    assert_eq!(spoken("\u{1F600}"), "<en></en>");
}

#[test]
fn closing_marks_are_kept() {
    for mark in ["!", "?", ";", ":", ",", "'", "\"", ")", "}", "\u{3002}", "\u{bb}"] {
        let text = format!("a{}", mark);
        assert_eq!(clean_text(&text), text);
    }
    assert_eq!(clean_text("a-"), "a-.");
}

#[test]
fn clean_text_holds_what_it_promises() {
    let dirty = " \u{201c}\u{201d}x @ y ``z'' [\u{2665}]  # \u{1F680} ~ ";
    let clean = clean_text(dirty);
    assert!(!clean.contains("  "));
    assert!(!clean.contains("\"\""));
    assert!(!clean.contains("''"));
    assert!(!clean.contains('@'));
    assert!(!clean.contains('`'));
    assert_eq!(clean.trim(), clean);
    assert!(clean.ends_with('.'));
}

#[test]
fn tags_surround_the_text() {
    assert_eq!(tag_text("x", "ko"), "<ko>x</ko>");
}

#[test]
fn chunk_limits_depend_on_language() {
    assert_eq!(chunk_max_for("ko"), 120);
    assert_eq!(chunk_max_for("ja"), 120);
    assert_eq!(chunk_max_for("en"), 300);
    assert_eq!(chunk_max_for("zz"), 300);
}

#[test]
fn blank_text_gives_one_empty_chunk() {
    assert_eq!(chunk_text("", 10), vec![String::new()]);
    assert_eq!(chunk_text(" \n\n \t", 10), vec![String::new()]);
}

#[test]
fn paragraphs_are_chunks() {
    assert_eq!(chunk_text("one\n \ntwo\nthree\n\n\nfour", 300), vec!["one", "two\nthree", "four"]);
}

#[test]
fn sentences_are_packed() {
    assert_eq!(
        chunk_text("One two. Three four! Five? Six.", 16),
        vec!["One two.", "Three four!", "Five? Six."],
    );
}

#[test]
fn abbreviations_end_no_sentence() {
    let s = chars("See Dr. Who at St. Ives. Then go.");
    let parts: Vec<String> =
        split_sentences(&s).iter().map(|p| p.iter().collect::<String>()).collect();
    assert_eq!(parts, vec!["See Dr. Who at St. Ives. ", "Then go."]);
}

#[test]
fn long_sentences_break_at_commas() {
    assert_eq!(
        split_long_sentence(&chars("aa, bb,, cc dd ee, ff"), 6),
        vec!["aa, bb", "cc dd", "ee", "ff"],
    );
}

#[test]
fn long_paragraphs_break_at_sentences() {
    assert_eq!(
        split_long_paragraph(&chars("Ab cd. Ef gh, ij kl mn. Op."), 8),
        vec!["Ab cd.", "Ef gh", "ij kl", "mn.", "Op."],
    );
}

#[test]
fn words_longer_than_the_limit_are_cut() {
    assert_eq!(split_by_words(&chars("a bcdefgh i j"), 3), vec!["a", "bcd", "efg", "h", "i j"]);
    assert_eq!(chunk_text("abcdefgh", 3), vec!["abc", "def", "gh"]);
    assert_eq!(chunk_text("ab", 1), vec!["a", "b"]);
    assert_eq!(chunk_text("\u{e9}\u{fc}\u{df}", 2), vec!["\u{e9}\u{fc}", "\u{df}"]);
    assert_eq!(chunk_text("ab cd", 0), vec!["ab", "cd"]);
}

#[test]
fn chunks_are_no_longer_than_the_limit() {
    let text = "Supercalifragilistic, is it? Yes: it is.\n\nDonaudampfschiff\u{fc}berfahrt, ab und zu.";
    for max in 1..60 {
        for c in chunk_text(text, max) {
            assert!(c.chars().count() <= max, "{} {}", max, c);
        }
    }
}

#[test]
fn sentences_are_packed_whole_and_tightly() {
    let text = "Aa. Bb bb. Cc cc cc. Dd. Ee ee. Ff.";
    let list = ["Aa.", "Bb bb.", "Cc cc cc.", "Dd.", "Ee ee.", "Ff."];
    for max in 9..40 {
        let chunks = split_long_paragraph(&chars(text), max);
        assert_eq!(chunks.join(" "), list.join(" "));
        // The fewest groups of the first k sentences.
        let mut least = vec![0usize; list.len() + 1];
        for k in 1..=list.len() {
            least[k] = (0..k)
                .filter(|j| list[*j..k].join(" ").len() <= max)
                .map(|j| least[j] + 1)
                .min()
                .unwrap();
        }
        assert_eq!(chunks.len(), least[list.len()]);
    }
}

#[test]
fn chunks_keep_the_text() {
    let text = "Ein Satz, noch ein Satz. Und \u{fc}ber, allem: Ruh!\n\nIn allen Wipfeln, sp\u{fc}rest du.";
    let strip = |s: &str| -> String {
        s.chars().filter(|c| !c.is_whitespace() && *c != ',').collect()
    };
    for max in [1, 5, 12, 40, 200] {
        let all: String = chunk_text(text, max).concat();
        assert_eq!(strip(&all), strip(text));
    }
}

#[test]
fn ids_come_from_the_table() {
    let indexer = UnicodeIndexer::from_table(vec![7; 100]);
    assert_eq!(indexer.len(), 100);
    assert_eq!(indexer.encode("Az\u{e9}"), vec![7, -1, -1]);
    let table: Vec<i64> = (0..128).map(|i| i * 2).collect();
    let indexer = UnicodeIndexer::from_table(table);
    assert_eq!(indexer.encode("AB"), vec![130, 132]);
    assert_eq!(indexer.encode(""), Vec::<i64>::new());
}

#[test]
fn ids_of_parts_are_parts_of_ids() {
    let indexer = UnicodeIndexer::from_table((0..256).collect());
    let mut ids = indexer.encode("abc");
    ids.extend(indexer.encode("\u{e9}x"));
    assert_eq!(indexer.encode("abc\u{e9}x"), ids);
}

#[test]
fn batches_are_padded() {
    let indexer = UnicodeIndexer::from_table((0..256).collect());
    let batch = indexer.encode_batch(&["ab".to_string(), "c".to_string(), String::new()]);
    assert_eq!(batch.ids, vec![vec![97, 98], vec![99, 0], vec![0, 0]]);
    assert_eq!(batch.lengths, vec![2, 1, 0]);
    assert_eq!(batch.mask, vec![vec![true, true], vec![true, false], vec![false, false]]);
    let none = indexer.encode_batch(&[]);
    assert!(none.ids.is_empty() && none.lengths.is_empty() && none.mask.is_empty());
}

#[test]
fn tables_are_read_load() {
    let indexer = match UnicodeIndexer::load(b"[5, -1, 9000000000]") {
        Ok(i) => i,
        Err(e) => panic!("{:?}", e),
    };
    assert_eq!(indexer.len(), 3);
    assert_eq!(indexer.encode("\u{0}\u{1}\u{2}\u{3}"), vec![5, -1, 9000000000, -1]);
    for bad in ["", "[1.5]", "{\"a\": 1}", "[1", "[\"1\"]"] {
        match UnicodeIndexer::load(bad.as_bytes()) {
            Err(TableError::Malformed) => {}
            Ok(_) => panic!("accepted {}", bad),
        }
    }
}

#[test]
fn tidy_text_stays() {
    for text in ["Hello, world!", "\"Quoted,\" she said.", "Na\u{ef}ve caf\u{e9}?", ""] {
        assert_eq!(clean_text(text), text);
    }
    assert_eq!(spoken("Is it? It is."), "<en>Is it? It is.</en>");
}
