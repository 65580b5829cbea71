use heartline::budget::{available_context_tokens, estimate_tokens, fit_suffix_start};
use heartline::text::{chars_of, contains, find, lines_of, str_eq, string_of, trim_chars};

fn s(v: &[char]) -> String {
    string_of(v)
}

#[test]
fn trim_removes_unicode_white_space_on_both_ends() {
    let v = chars_of("\u{3000} \t hello world \n\u{a0}");
    assert_eq!(s(&trim_chars(&v)), "hello world");
    assert_eq!(s(&trim_chars(&chars_of("   "))), "");
    assert_eq!(s(&trim_chars(&chars_of("x"))), "x");
}

#[test]
fn find_gives_first_occurrence_in_characters() {
    let hay = chars_of("é</think>a</think>");
    assert_eq!(find(&hay, &chars_of("</think>")), Some(1));
    assert_eq!(find(&hay, &chars_of("<nope>")), None);
    assert_eq!(find(&hay, &chars_of("")), Some(0));
    assert!(contains(&chars_of("http://localhost:11434/v1"), &chars_of("localhost:11434")));
}

#[test]
fn lines_follow_str_lines() {
    for text in ["a\nb\r\nc", "a\n", "", "\n\n", "x\r", "one\r\n\r\ntwo\n"] {
        let got: Vec<String> = lines_of(&chars_of(text)).iter().map(|l| string_of(l)).collect();
        let want: Vec<String> = text.lines().map(|l| l.to_string()).collect();
        assert_eq!(got, want, "input {:?}", text);
    }
}

#[test]
fn str_eq_compares_text() {
    assert!(str_eq("user", "user"));
    assert!(!str_eq("user", "users"));
}

#[test]
fn token_estimate_is_a_quarter_of_the_byte_length() {
    assert_eq!(estimate_tokens(""), 0);
    assert_eq!(estimate_tokens("abc"), 0);
    assert_eq!(estimate_tokens("abcdefgh"), 2);
    // "héllo" is six bytes in UTF-8.
    assert_eq!(estimate_tokens("héllo"), 1);
}

#[test]
fn available_tokens_saturate() {
    assert_eq!(available_context_tokens(4096, 1024), 2472);
    assert_eq!(available_context_tokens(1500, 1024), 0);
    assert_eq!(available_context_tokens(1000, 2000), 0);
}

#[test]
fn fit_start_keeps_the_newest_entries_that_fit() {
    let ts = vec![5u32, 4, 3, 2, 1];
    assert_eq!(fit_suffix_start(&ts, 0, 6), 2);
    assert_eq!(fit_suffix_start(&ts, 0, 15), 0);
    assert_eq!(fit_suffix_start(&ts, 0, 0), 5);
    assert_eq!(fit_suffix_start(&ts, 3, 100), 3);
    assert_eq!(fit_suffix_start(&ts, 0, 3), 3);
}
