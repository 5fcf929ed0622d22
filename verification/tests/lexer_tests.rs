use rtf_parser::lexer::scan;
use rtf_parser::tokens::{RtfError, Token};

fn chars(s: &str) -> Vec<char> {
    s.chars().collect()
}

#[test]
fn scan_plain_text_coalesces() {
    let toks = scan("Hello").unwrap();
    assert_eq!(toks, vec![Token::PlainText("Hello".to_string())]);
}

#[test]
fn scan_control_word_trailing_space() {
    let toks = scan("\\b Bold").unwrap();
    assert_eq!(
        toks,
        vec![
            Token::ControlWord(chars("b"), None, true),
            Token::PlainText("Bold".to_string()),
        ]
    );
}

#[test]
fn scan_control_word_other_delimiter_not_consumed() {
    let toks = scan("\\b!x").unwrap();
    assert_eq!(
        toks,
        vec![
            Token::ControlWord(chars("b"), None, false),
            Token::PlainText("!x".to_string()),
        ]
    );
}

#[test]
fn scan_numeric_parameter() {
    let toks = scan("\\fs24x").unwrap();
    assert_eq!(
        toks,
        vec![
            Token::ControlWord(chars("fs"), Some(24), false),
            Token::PlainText("x".to_string()),
        ]
    );
}

#[test]
fn scan_negative_parameter() {
    let toks = scan("\\li-200 ").unwrap();
    assert_eq!(toks, vec![Token::ControlWord(chars("li"), Some(-200), true)]);
}

#[test]
fn scan_parameter_boundaries() {
    let toks = scan("\\f32767 ").unwrap();
    assert_eq!(toks, vec![Token::ControlWord(chars("f"), Some(32767), true)]);
    let toks = scan("\\li-32768 ").unwrap();
    assert_eq!(toks, vec![Token::ControlWord(chars("li"), Some(-32768), true)]);
}

#[test]
fn scan_parameter_out_of_range_positive() {
    assert_eq!(scan("\\f32768 "), Err(RtfError::ParamOutOfRange(7)));
}

#[test]
fn scan_parameter_overflow_while_reading_digits() {
    assert_eq!(scan("\\f99999"), Err(RtfError::ParamOutOfRange(6)));
}

#[test]
fn scan_escapes_resolve_into_plain_text() {
    let toks = scan("a\\{b\\}c\\\\d").unwrap();
    assert_eq!(toks, vec![Token::PlainText("a{b}c\\d".to_string())]);
}

#[test]
fn scan_control_symbol() {
    let toks = scan("\\~x").unwrap();
    assert_eq!(
        toks,
        vec![Token::ControlSymbol('~'), Token::PlainText("x".to_string())]
    );
}

#[test]
fn scan_braces_are_structural() {
    let toks = scan("{}").unwrap();
    assert_eq!(toks, vec![Token::OpeningGroup, Token::ClosingGroup]);
}

#[test]
fn scan_word_terminated_by_brace() {
    let toks = scan("\\b{x}").unwrap();
    assert_eq!(
        toks,
        vec![
            Token::ControlWord(chars("b"), None, false),
            Token::OpeningGroup,
            Token::PlainText("x".to_string()),
            Token::ClosingGroup,
        ]
    );
}

#[test]
fn scan_word_at_end_of_input() {
    let toks = scan("\\par").unwrap();
    assert_eq!(toks, vec![Token::ControlWord(chars("par"), None, false)]);
    let toks = scan("\\fs24").unwrap();
    assert_eq!(toks, vec![Token::ControlWord(chars("fs"), Some(24), false)]);
}

#[test]
fn scan_dangling_escape_fails() {
    assert_eq!(scan("abc\\"), Err(RtfError::DanglingEscape(4)));
}

#[test]
fn scan_empty_input() {
    assert_eq!(scan("").unwrap(), Vec::<Token>::new());
}

#[test]
fn round_trip_visible_text() {
    // The concatenated plain text of a scan is the input stripped of
    // its control constructs, escapes resolved.
    let toks = scan("{\\rtf1\\ansi \\b Hello\\b0 World}").unwrap();
    let mut joined = String::new();
    for t in &toks {
        if let Token::PlainText(s) = t {
            joined.push_str(s);
        }
    }
    assert_eq!(joined, "HelloWorld");

    let toks = scan("x\\{y\\}z w").unwrap();
    let mut joined = String::new();
    for t in &toks {
        if let Token::PlainText(s) = t {
            joined.push_str(s);
        }
    }
    assert_eq!(joined, "x{y}z w");
}
