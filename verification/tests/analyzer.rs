use json_array_splitter::JsonDepthAnalyzer;
use json_array_splitter::ParserError;
use json_array_splitter::ParserState;

#[test]
fn array_of_single_object() {
    let mut parser = JsonDepthAnalyzer::new();
    let json = "[{\"a\": \"hello\"}]";
    assert!(json.bytes().all(|c| parser.process(c).is_ok()));
    assert_eq!(parser.depth(), 0);
}

#[test]
fn empty_array() {
    let mut parser = JsonDepthAnalyzer::new();
    let json = "[]";
    assert!(json.bytes().all(|c| parser.process(c).is_ok()));
    assert_eq!(parser.depth(), 0);
}

#[test]
fn empty_object() {
    let mut parser = JsonDepthAnalyzer::new();
    let json = "{}";
    assert!(json.bytes().all(|c| parser.process(c).is_ok()));
    assert_eq!(parser.depth(), 0);
}

#[test]
fn wrong_nesting() {
    let mut parser = JsonDepthAnalyzer::new();
    let json = "[{]}";
    assert_eq!(json.bytes().all(|c| parser.process(c).is_ok()), false);
}

#[test]
fn recover_wrong_nesting() {
    let mut parser = JsonDepthAnalyzer::new();
    let json = "[{]";
    for c in json.bytes() {
        let _ = parser.process(c);
    }

    let json = "}]";
    assert!(json.bytes().all(|c| parser.process(c).is_ok()));
    assert_eq!(parser.depth(), 0);
}

#[test]
fn open_string() {
    let mut parser = JsonDepthAnalyzer::new();
    let json = "[{\"}]";
    assert!(json.bytes().all(|c| parser.process(c).is_ok()));
    assert_eq!(parser.depth(), 3);
}

#[test]
fn open_escape() {
    let mut parser = JsonDepthAnalyzer::new();
    let json = "[{\"\\";
    assert!(json.bytes().all(|c| parser.process(c).is_ok()));
    assert_eq!(parser.depth(), 3);
}

#[test]
fn open_unicode() {
    let mut parser = JsonDepthAnalyzer::new();
    let json = "[{\"\\ueF4";
    assert!(json.bytes().all(|c| parser.process(c).is_ok()));
    assert_eq!(parser.depth(), 3);
}

#[test]
fn escaped() {
    let mut parser = JsonDepthAnalyzer::new();
    let json = "[\"\\n\\u1234\"]";
    assert!(json.bytes().all(|c| parser.process(c).is_ok()));
    assert_eq!(parser.depth(), 0);
}

#[test]
fn invalid_escape() {
    let mut parser = JsonDepthAnalyzer::new();
    let json = "\"\\x";
    assert_eq!(json.bytes().all(|c| parser.process(c).is_ok()), false);
    assert_eq!(parser.depth(), 1);
}

#[test]
fn invalid_unicode() {
    let mut parser = JsonDepthAnalyzer::new();
    let json = "\"\\u123x";
    assert_eq!(json.bytes().all(|c| parser.process(c).is_ok()), false);
    assert_eq!(parser.depth(), 1);
}

#[test]
fn invalid_escape_reported_once() {
    let mut parser = JsonDepthAnalyzer::new();
    let json = "\"\\x";
    let errors: Vec<ParserError> = json
        .bytes()
        .filter_map(|c| parser.process(c).err())
        .collect();
    assert_eq!(errors.len(), 1);
    assert!(matches!(
        errors[0],
        ParserError::WrongEscapeCharacter { got: b'x' }
    ));
    assert_eq!(parser.depth(), 1);
}

#[test]
fn invalid_unicode_reported_once() {
    let mut parser = JsonDepthAnalyzer::new();
    let json = "\"\\u123x";
    let errors: Vec<ParserError> = json
        .bytes()
        .filter_map(|c| parser.process(c).err())
        .collect();
    assert_eq!(errors.len(), 1);
    assert!(matches!(
        errors[0],
        ParserError::WrongHexCharacter { got: b'x' }
    ));
    assert_eq!(parser.depth(), 1);
}

#[test]
fn wrong_state_records_expectation() {
    let mut parser = JsonDepthAnalyzer::new();
    let json = "[{]";
    let errors: Vec<ParserError> = json
        .bytes()
        .filter_map(|c| parser.process(c).err())
        .collect();
    assert_eq!(errors.len(), 1);
    assert!(matches!(
        errors[0],
        ParserError::WrongState {
            got: Some(ParserState::Object),
            expected: ParserState::Array,
        }
    ));
    assert_eq!(parser.depth(), 2);
}

#[test]
fn stray_closing_bracket_with_nothing_open() {
    let mut parser = JsonDepthAnalyzer::new();
    let errors: Vec<ParserError> = "]"
        .bytes()
        .filter_map(|c| parser.process(c).err())
        .collect();
    assert_eq!(errors.len(), 1);
    assert!(matches!(
        errors[0],
        ParserError::WrongState {
            got: None,
            expected: ParserState::Array,
        }
    ));
    assert_eq!(parser.depth(), 0);
}

#[test]
fn depth_moves_by_at_most_one_per_byte() {
    let mut parser = JsonDepthAnalyzer::new();
    let json = "[{\"a\": [1, \"\\u0041\"]}, {}]";
    let mut previous = parser.depth();
    for c in json.bytes() {
        let _ = parser.process(c);
        let now = parser.depth();
        assert!(now <= previous + 1);
        assert!(previous <= now + 1);
        previous = now;
    }
    assert_eq!(parser.depth(), 0);
}
