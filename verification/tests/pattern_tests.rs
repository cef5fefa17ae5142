use mal::reader::{read_tokens, TOKEN_PATTERN};
use mal::types::{MalErr, MalType};
use regex::Regex;

fn groups(text: &str) -> Vec<String> {
    Regex::new(TOKEN_PATTERN)
        .unwrap()
        .captures_iter(text)
        .map(|c| c.get(1).map(|m| m.as_str().to_string()).unwrap_or_default())
        .collect()
}

fn one(token: &str) -> Result<MalType, MalErr> {
    read_tokens(vec![token.to_string()])
}

#[test]
fn a_plain_word_is_one_match_of_the_token_pattern() {
    for word in ["nil", "true", "false", "0", "-123", "2147483647", "abc-def", "-", "a1"] {
        assert_eq!(vec![word.to_string()], groups(word));
    }
}

#[test]
fn separators_after_the_last_token_give_an_empty_match() {
    assert_eq!(vec!["1".to_string(), "".to_string()], groups("1 "));
    assert_eq!(vec!["".to_string()], groups(""));
    assert_eq!(vec!["(".to_string(), ")".to_string(), "; c".to_string()], groups("() ; c"));
}

#[test]
fn an_integer_literal_is_an_optional_minus_and_digits() {
    assert!(matches!(one("12"), Ok(MalType::Int(12))));
    assert!(matches!(one("-12"), Ok(MalType::Int(-12))));
    assert!(matches!(one("-"), Ok(MalType::Sym(_))));
    assert!(matches!(one("+12"), Ok(MalType::Sym(_))));
    assert!(matches!(one("--12"), Ok(MalType::Sym(_))));
    assert!(matches!(one("12a"), Ok(MalType::Sym(_))));
    assert!(matches!(one("1-2"), Ok(MalType::Sym(_))));
    assert!(matches!(one("12\n"), Ok(MalType::Sym(_))));
    assert!(matches!(one("\u{0661}\u{0662}"), Ok(MalType::Sym(_))));
}

#[test]
fn a_string_literal_is_closed() {
    assert!(matches!(one("\"\""), Ok(MalType::Str(s)) if s == "\"\""));
    assert!(matches!(one("\"a\rb\""), Ok(MalType::Str(_))));
    assert!(matches!(one("\"a\"b\""), Ok(MalType::Str(_))));
    assert!(matches!(one("\"a\nb\""), Ok(MalType::Str(s)) if s == "\"a\nb\""));
    assert!(matches!(one("\"a\\\"b\""), Ok(MalType::Str(_))));
    assert!(matches!(one("\"abc\\\\\""), Ok(MalType::Str(_))));
    assert!(matches!(one("\"\\\\\""), Ok(MalType::Str(_))));
    assert!(matches!(one("\"ab\"\n"), Err(MalErr::ParseError)));
    assert!(matches!(one("\"ab"), Err(MalErr::ParseError)));
    assert!(matches!(one("\""), Err(MalErr::ParseError)));
    assert!(matches!(one("ab\""), Ok(MalType::Sym(_))));
}

#[test]
fn an_escaped_quote_does_not_close_a_string() {
    assert!(matches!(one("\"abc\\\""), Err(MalErr::ParseError)));
    assert!(matches!(one("\"\\\""), Err(MalErr::ParseError)));
    assert!(matches!(one("\"abc\\\\\\\""), Err(MalErr::ParseError)));
    assert!(matches!(one("\"a\n\\\""), Err(MalErr::ParseError)));
}

#[test]
fn a_keyword_is_a_colon_and_the_rest_of_a_line() {
    assert!(matches!(one(":"), Ok(MalType::Keyword(_))));
    assert!(matches!(one(":a b"), Ok(MalType::Keyword(_))));
    assert!(matches!(one(":a\nb"), Ok(MalType::Sym(_))));
    assert!(matches!(one("a:"), Ok(MalType::Sym(_))));
}
