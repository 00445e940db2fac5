use std::collections::HashMap;
use wordcount::{count, tally, CountOption, Frequencies};

fn as_map(f: &Frequencies) -> HashMap<String, usize> {
    f.entries().into_iter().collect()
}

fn total(f: &Frequencies) -> usize {
    f.entries().iter().map(|e| e.1).sum()
}

#[test]
fn read_testfile() {
    let fregs = count("aa\nbb\nbb\ncc\ncc\ndd\n", CountOption::default());

    assert_eq!(Some(1), fregs.get("aa"));
    assert_eq!(Some(2), fregs.get("bb"));
    assert_eq!(Some(2), fregs.get("cc"));
    assert_eq!(Some(1), fregs.get("dd"));
}

#[test]
fn word_count_works() {
    let mut exp = HashMap::new();
    exp.insert("aa".to_string(), 1);
    exp.insert("bb".to_string(), 2);
    exp.insert("cc".to_string(), 1);

    assert_eq!(as_map(&count("aa bb cc bb", CountOption::Word)), exp);
}

#[test]
fn return_result() -> std::io::Result<()> {
    Ok(())
}

#[test]
#[should_panic]
fn is_panic() {
    panic!("panic!");
}

#[test]
fn word_count_works3() {
    let freqs = count("aa bb cc", CountOption::Word);

    assert_eq!(freqs.get("aa"), Some(1));
    assert_eq!(freqs.get("cc"), Some(1));
    assert_eq!(freqs.get("bb"), Some(1));
}

#[test]
fn line_count_works() {
    let input = r#"Tokyo, Japan
Kyoto, Japan
Tokyo, Japan
"#;

    let freq = count(input, CountOption::Line);

    assert_eq!(freq.get("Tokyo, Japan"), Some(2));
    assert_eq!(freq.get("Kyoto, Japan"), Some(1));
}

#[test]
fn line_count_has_exactly_two_keys() {
    let freq = count("Tokyo, Japan\nKyoto, Japan\nTokyo, Japan\n", CountOption::Line);
    assert_eq!(freq.len(), 2);
    assert_eq!(total(&freq), 3);
}

#[test]
fn char_count_counts_spaces() {
    let freq = count("aa bb cc", CountOption::Char);
    assert_eq!(freq.get("a"), Some(2));
    assert_eq!(freq.get("b"), Some(2));
    assert_eq!(freq.get("c"), Some(2));
    assert_eq!(freq.get(" "), Some(2));
    assert_eq!(freq.len(), 4);
}

#[test]
fn empty_input_gives_empty_mapping() {
    for option in [CountOption::Char, CountOption::Word, CountOption::Line] {
        let freq = count("", option);
        assert_eq!(freq.len(), 0);
        assert!(freq.entries().is_empty());
    }
}

#[test]
fn default_option_is_word() {
    assert_eq!(CountOption::default(), CountOption::Word);
}

#[test]
fn word_count_spans_lines() {
    let freq = count("aa\nbb\nbb\ncc\ncc\ndd", CountOption::Word);
    let mut exp = HashMap::new();
    exp.insert("aa".to_string(), 1);
    exp.insert("bb".to_string(), 2);
    exp.insert("cc".to_string(), 2);
    exp.insert("dd".to_string(), 1);
    assert_eq!(as_map(&freq), exp);
}

#[test]
fn words_are_runs_of_word_characters() {
    let freq = count("foo_bar, x1 x1! Foo-foo", CountOption::Word);
    let mut exp = HashMap::new();
    exp.insert("foo_bar".to_string(), 1);
    exp.insert("x1".to_string(), 2);
    exp.insert("Foo".to_string(), 1);
    exp.insert("foo".to_string(), 1);
    assert_eq!(as_map(&freq), exp);
}

#[test]
fn words_include_unicode_letters() {
    let freq = count("東京 東京 été", CountOption::Word);
    assert_eq!(freq.get("東京"), Some(2));
    assert_eq!(freq.get("été"), Some(1));
    assert_eq!(freq.len(), 2);
}

#[test]
fn char_count_uses_scalar_values() {
    let freq = count("日本日", CountOption::Char);
    assert_eq!(freq.get("日"), Some(2));
    assert_eq!(freq.get("本"), Some(1));
    assert_eq!(freq.len(), 2);
}

#[test]
fn line_endings_are_never_counted() {
    let freq = count("ab\r\nab\n", CountOption::Char);
    assert_eq!(freq.get("a"), Some(2));
    assert_eq!(freq.get("b"), Some(2));
    assert_eq!(freq.get("\r"), None);
    assert_eq!(freq.get("\n"), None);
    assert_eq!(freq.len(), 2);
}

#[test]
fn crlf_lines_match_lf_lines() {
    let freq = count("x y\r\nx y\n", CountOption::Line);
    assert_eq!(freq.get("x y"), Some(2));
    assert_eq!(freq.len(), 1);
}

#[test]
fn last_line_without_newline_counts() {
    let freq = count("a\nb", CountOption::Line);
    assert_eq!(freq.get("a"), Some(1));
    assert_eq!(freq.get("b"), Some(1));
    assert_eq!(freq.len(), 2);
}

#[test]
fn empty_lines_are_lines() {
    let freq = count("\n\na\n", CountOption::Line);
    assert_eq!(freq.get(""), Some(2));
    assert_eq!(freq.get("a"), Some(1));
    assert_eq!(freq.len(), 2);
}

#[test]
fn sum_of_counts_is_number_of_tokens() {
    let text = "aa bb cc bb\nthe cat, the hat\n\nzz";
    assert_eq!(total(&count(text, CountOption::Char)), 11 + 16 + 0 + 2);
    assert_eq!(total(&count(text, CountOption::Word)), 4 + 4 + 0 + 1);
    assert_eq!(total(&count(text, CountOption::Line)), 4);
}

#[test]
fn recounting_gives_the_same_mapping() {
    let text = "one two\ntwo three three\n";
    for option in [CountOption::Char, CountOption::Word, CountOption::Line] {
        assert_eq!(as_map(&count(text, option)), as_map(&count(text, option)));
    }
}

#[test]
fn modes_keep_their_own_keys() {
    let text = "ab cd\nab\n";
    let chars = count(text, CountOption::Char);
    for (k, _) in chars.entries() {
        assert_eq!(k.chars().count(), 1);
    }
    let words = count(text, CountOption::Word);
    assert_eq!(words.get("ab cd"), None);
    assert_eq!(words.get("a"), None);
    assert_eq!(words.get("ab"), Some(2));
    let lines = count(text, CountOption::Line);
    assert_eq!(lines.get("ab cd"), Some(1));
    assert_eq!(lines.get("ab"), Some(1));
    assert_eq!(lines.get("cd"), None);
    assert_eq!(lines.len(), 2);
}

#[test]
fn tally_counts_given_tokens() {
    let toks: Vec<String> = vec!["x".to_string(), "y".to_string(), "x".to_string(), "".to_string()];
    let freq = tally(&toks);
    assert_eq!(freq.get("x"), Some(2));
    assert_eq!(freq.get("y"), Some(1));
    assert_eq!(freq.get(""), Some(1));
    assert_eq!(freq.len(), 3);
    assert_eq!(total(&freq), 4);
}

#[test]
fn entries_follow_first_appearance() {
    let freq = count("b a b c", CountOption::Word);
    let keys: Vec<String> = freq.entries().into_iter().map(|e| e.0).collect();
    assert_eq!(keys, vec!["b".to_string(), "a".to_string(), "c".to_string()]);
}
