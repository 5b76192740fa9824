//! Word errors, line lists and transcripts.

use soda_tts::digits::{read_number, NumberError};
use soda_tts::roundtrip::lines::{parse_line_spec, selected_indices};
use soda_tts::roundtrip::tally::{counted, is_spoken, outcome_of, Outcome, Reply, Tally};
use soda_tts::roundtrip::transcript::pluck_transcript;
use soda_tts::roundtrip::wer::{
    count_errors, marked_words, normalize_for_wer, wer, word_edit_distance, WordErrors,
};
use soda_tts::strings::decimal_of;

fn list(s: &str) -> Vec<String> {
    s.split_whitespace().map(|w| w.to_string()).collect()
}

fn distance(a: &str, b: &str) -> usize {
    word_edit_distance(&list(a), &list(b))
}

fn number(s: &str, max: u64) -> Result<u64, NumberError> {
    let chars: Vec<char> = s.chars().collect();
    read_number(&chars, max)
}

#[test]
fn distances_count_edits() {
    assert_eq!(distance("", ""), 0);
    assert_eq!(distance("a b c", ""), 3);
    assert_eq!(distance("", "a b"), 2);
    assert_eq!(distance("a b c", "a b c"), 0);
    assert_eq!(distance("a b c", "a x c"), 1);
    assert_eq!(distance("a b c", "b c"), 1);
    assert_eq!(distance("a b c", "x a b c"), 1);
    assert_eq!(distance("k i t t e n", "s i t t i n g"), 3);
}

#[test]
fn distances_are_a_metric() {
    let texts = ["", "a", "b", "a b", "b a", "a b c a", "c a b", "b b b"];
    for a in texts {
        for b in texts {
            assert_eq!(distance(a, b), distance(b, a));
            assert_eq!(distance(a, b) == 0, a == b);
            let (m, n) = (list(a).len(), list(b).len());
            assert!(distance(a, b) <= m.max(n));
            assert!(distance(a, b) >= m.abs_diff(n));
            for c in texts {
                assert!(distance(a, c) <= distance(a, b) + distance(b, c));
            }
        }
    }
}

#[test]
fn words_are_compared_in_lower_case_without_punctuation() {
    assert_eq!(normalize_for_wer("Hello, WORLD! It's  2-day."), list("hello world it s 2 day"));
    assert_eq!(normalize_for_wer("\u{c9}T\u{c9}\u{a0}\u{df}"), list("\u{e9}t\u{e9} \u{df}"));
    assert_eq!(normalize_for_wer(" ... "), Vec::<String>::new());
}

#[test]
fn only_marked_characters_count() {
    let text: Vec<char> = "ab-c d".chars().collect();
    let marks = [true, true, false, true, false, true];
    assert_eq!(marked_words(&text, &marks), list("ab c d"));
    assert_eq!(marked_words(&text, &[false; 6]), Vec::<String>::new());
}

#[test]
fn errors_are_out_of_the_longer_text() {
    let e = wer("The quick brown fox.", "the quick, brown dog jumps");
    assert_eq!((e.edits, e.words), (2, 5));
    let none = wer("", " .");
    assert_eq!((none.edits, none.words), (0, 0));
    let all = count_errors(&list("a b"), &[]);
    assert_eq!((all.edits, all.words), (2, 2));
}

#[test]
fn numbers_are_read() {
    assert_eq!(number("0", 10), Ok(0));
    assert_eq!(number("+42", 100), Ok(42));
    assert_eq!(number("007", 100), Ok(7));
    assert_eq!(number("18446744073709551615", u64::MAX), Ok(u64::MAX));
    assert_eq!(number("18446744073709551616", u64::MAX), Err(NumberError::Overflow));
    assert_eq!(number("256", 255), Err(NumberError::Overflow));
    assert_eq!(number("", 10), Err(NumberError::Empty));
    assert_eq!(number("+", 10), Err(NumberError::InvalidDigit));
    assert_eq!(number("-1", 10), Err(NumberError::InvalidDigit));
    assert_eq!(number("1x", 10), Err(NumberError::InvalidDigit));
    assert_eq!(number("99x", 10), Err(NumberError::Overflow));
}

#[test]
fn numbers_read_back() {
    for n in [0usize, 1, 9, 10, 11, 99, 100, 123456789, usize::MAX] {
        let s = decimal_of(n);
        assert_eq!(s, n.to_string());
        assert_eq!(number(&s, u64::MAX), Ok(n as u64));
    }
}

#[test]
fn line_lists_are_read() {
    assert_eq!(parse_line_spec("5,10-20,42"), Ok(vec![(5, 5), (10, 20), (42, 42)]));
    assert_eq!(parse_line_spec(" 3 ,, 7-7 ,"), Ok(vec![(3, 3), (7, 7)]));
    assert_eq!(parse_line_spec(""), Ok(vec![]));
    assert_eq!(parse_line_spec("1-2-3"), Err(NumberError::InvalidDigit));
    assert_eq!(parse_line_spec("-3"), Err(NumberError::Empty));
    assert_eq!(parse_line_spec("3 - 5"), Err(NumberError::InvalidDigit));
    assert_eq!(parse_line_spec("1,x,99999999999999999999"), Err(NumberError::InvalidDigit));
    assert_eq!(parse_line_spec("99999999999999999999"), Err(NumberError::Overflow));
}

#[test]
fn samples_are_selected() {
    assert_eq!(selected_indices(&None, 0, None, 3), vec![0, 1, 2]);
    assert_eq!(selected_indices(&None, 1, Some(9), 3), vec![1, 2]);
    assert_eq!(selected_indices(&None, 2, Some(2), 3), Vec::<usize>::new());
    let lines = Some(vec![(5, 7), (1, 1), (6, 9), (4, 3)]);
    assert_eq!(selected_indices(&lines, 0, Some(1), 9), vec![1, 5, 6, 7, 8]);
}

#[test]
fn transcripts_are_the_last_line() {
    assert_eq!(pluck_transcript("loading\r\n hello there \n\n"), "hello there");
    assert_eq!(pluck_transcript("x\ntranscript:  hello "), "hello");
    assert_eq!(pluck_transcript("transcript:"), "");
    assert_eq!(pluck_transcript("a transcript: b"), "a transcript: b");
    assert_eq!(pluck_transcript(" \n\t\n"), "");
    assert_eq!(pluck_transcript(""), "");
}

fn heard(s: &str) -> Reply {
    Reply::Heard(s.to_string())
}

#[test]
fn blank_samples_are_skipped() {
    for blank in ["", " ", "\t\u{3000} "] {
        assert!(!is_spoken(blank));
        assert_eq!(outcome_of(blank, &Reply::Unspoken), Outcome::Skipped);
        assert_eq!(outcome_of(blank, &heard("a")), Outcome::Skipped);
    }
    assert!(is_spoken(" . "));
}

#[test]
fn samples_without_a_transcript_fail() {
    for reply in [Reply::Unspoken, Reply::Silent, Reply::Unsaved, Reply::Unheard] {
        assert_eq!(outcome_of("One.", &reply), Outcome::Failed);
    }
    let e = WordErrors { edits: 1, words: 1 };
    assert_eq!(outcome_of("One.", &heard("")), Outcome::Compared(e));
    let e = WordErrors { edits: 2, words: 3 };
    assert_eq!(outcome_of("One two.", &heard("one to go")), Outcome::Compared(e));
}

#[test]
fn samples_are_tallied() {
    let trials = [
        ("One two three.", heard("one two three")),
        ("", Reply::Unspoken),
        ("Four five.", heard("for five six")),
        ("Six.", Reply::Unheard),
        ("...", heard(" ")),
        ("Seven.", Reply::Silent),
        ("\u{a0}", Reply::Unspoken),
        ("Eight.", Reply::Unspoken),
    ];
    let mut tally = Tally::new();
    for (text, reply) in &trials {
        let o = outcome_of(text, reply);
        assert!(tally.has_room(&o));
        tally = counted(tally, o);
    }
    assert_eq!(tally, Tally { edits: 2, words: 6, done: 3, skipped: 2, errors: 3 });
    assert_eq!(tally.done + tally.skipped + tally.errors, trials.len());
    assert!(tally.edits <= tally.words);
}

#[test]
fn full_tallies_have_no_room() {
    let full = Tally { edits: 0, words: usize::MAX - 1, done: 0, skipped: usize::MAX, errors: 0 };
    assert!(!full.has_room(&Outcome::Skipped));
    assert!(full.has_room(&Outcome::Failed));
    assert!(full.has_room(&Outcome::Compared(WordErrors { edits: 1, words: 1 })));
    assert!(!full.has_room(&Outcome::Compared(WordErrors { edits: 1, words: 2 })));
}
