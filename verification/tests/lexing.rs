use shell_core::arg_parse;
use shell_core::lex;

fn texts(line: &str) -> Vec<String> {
    arg_parse(line)
}

#[test]
fn plain_words_split_on_spaces() {
    assert_eq!(texts("echo hello world"), vec!["echo", "hello", "world"]);
}

#[test]
fn runs_of_whitespace_collapse() {
    assert_eq!(texts("  echo   hello\tworld  "), vec!["echo", "hello", "world"]);
}

#[test]
fn whitespace_only_yields_no_words() {
    assert_eq!(texts("   \t  "), Vec::<String>::new());
    assert_eq!(texts(""), Vec::<String>::new());
}

#[test]
fn single_quotes_preserve_spaces() {
    assert_eq!(texts("echo 'a   b'"), vec!["echo", "a   b"]);
}

#[test]
fn double_quote_escaped_quote() {
    assert_eq!(texts("echo \"a\\\"b\""), vec!["echo", "a\"b"]);
}

#[test]
fn backslash_escapes_space_outside_quotes() {
    assert_eq!(texts("a\\ b"), vec!["a b"]);
}

#[test]
fn backslash_literal_inside_single_quotes() {
    assert_eq!(texts("'a\\nb'"), vec!["a\\nb"]);
}

#[test]
fn backslash_kept_inside_double_quotes_when_not_escaping() {
    assert_eq!(texts("\"a\\nb\""), vec!["a\\nb"]);
}

#[test]
fn backslash_escapes_backslash_inside_double_quotes() {
    assert_eq!(texts("\"a\\\\b\""), vec!["a\\b"]);
}

#[test]
fn double_quote_keeps_single_quote() {
    assert_eq!(texts("\"it's\""), vec!["it's"]);
}

#[test]
fn single_quote_keeps_double_quote() {
    assert_eq!(texts("'say \"hi\"'"), vec!["say \"hi\""]);
}

#[test]
fn adjacent_fragments_concatenate() {
    assert_eq!(texts("ab'cd'ef"), vec!["abcdef"]);
    assert_eq!(texts("a\"b\"'c'"), vec!["abc"]);
}

#[test]
fn empty_quoted_word_is_kept() {
    assert_eq!(texts("''"), vec![""]);
    assert_eq!(texts("a '' b"), vec!["a", "", "b"]);
}

#[test]
fn unterminated_quote_closes_at_end() {
    assert_eq!(texts("'abc"), vec!["abc"]);
    assert_eq!(texts("\"abc"), vec!["abc"]);
}

#[test]
fn trailing_backslash_is_dropped() {
    assert_eq!(texts("ab\\"), vec!["ab"]);
}

#[test]
fn quoted_flag_marks_quoted_words() {
    let ws = lex("a '>' \">\" >");
    assert_eq!(ws.len(), 4);
    assert!(!ws[0].quoted);
    assert!(ws[1].quoted);
    assert!(ws[2].quoted);
    assert!(!ws[3].quoted);
    assert_eq!(ws[1].text, ">");
    assert_eq!(ws[3].text, ">");
}

#[test]
fn round_trip_of_plain_words() {
    let line = "one two three";
    assert_eq!(texts(line).join(" "), line);
}
