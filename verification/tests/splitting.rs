use json_array_splitter::JsonArraySplitter;
use json_array_splitter::JsonStreamError;
use json_array_splitter::ParserError;
use json_array_splitter::ParserState;
use json_array_splitter::split_json_array;

fn spans_as_strings(results: Vec<Result<Vec<u8>, JsonStreamError>>) -> Vec<String> {
    results
        .into_iter()
        .map(|r| String::from_utf8(r.expect("expected an element span")).expect("expected UTF-8"))
        .collect()
}

fn split_in_chunks(chunks: &[&str]) -> Vec<Result<Vec<u8>, JsonStreamError>> {
    let mut splitter = JsonArraySplitter::new();
    let mut results: Vec<Result<Vec<u8>, JsonStreamError>> = Vec::new();
    for chunk in chunks {
        for c in chunk.bytes() {
            match splitter.process_byte(c) {
                None => {}
                Some(Ok(span)) => results.push(Ok(span)),
                Some(Err(e)) => results.push(Err(JsonStreamError::Parsing(e))),
            }
        }
    }
    if let Some(e) = splitter.end_of_input() {
        results.push(Err(e));
    }
    results
}

#[test]
fn split_empty_array() {
    let results = split_json_array(b"[]");
    assert_eq!(results.len(), 0);
}

#[test]
fn split_single_number() {
    assert_eq!(spans_as_strings(split_json_array(b"[12]")), vec!["12"]);
}

#[test]
fn split_mixed_elements() {
    let json = "[\"blubb\", 42,{\"xxx\":false , \"yyy\":\"abc\"} ] ";
    assert_eq!(
        spans_as_strings(split_json_array(json.as_bytes())),
        vec!["\"blubb\"", "42", "{\"xxx\":false , \"yyy\":\"abc\"}"]
    );
}

#[test]
fn split_lone_comma() {
    assert_eq!(spans_as_strings(split_json_array(b"[,]")), vec!["", ""]);
}

#[test]
fn split_trailing_comma() {
    assert_eq!(
        spans_as_strings(split_json_array(b"[42 , ]")),
        vec!["42", ""]
    );
}

#[test]
fn split_multi_comma() {
    assert_eq!(
        spans_as_strings(split_json_array(b"[,,]")),
        vec!["", "", ""]
    );
}

#[test]
fn split_premature_end() {
    let results = split_json_array(b"[");
    assert_eq!(results.len(), 1);
    assert!(matches!(
        results[0],
        Err(JsonStreamError::PrematureEndOfInput)
    ));
}

#[test]
fn split_empty_input_is_premature() {
    let results = split_json_array(b"");
    assert_eq!(results.len(), 1);
    assert!(matches!(
        results[0],
        Err(JsonStreamError::PrematureEndOfInput)
    ));
}

#[test]
fn split_nested_arrays() {
    assert_eq!(
        spans_as_strings(split_json_array(b"[[1,2],[3]]")),
        vec!["[1,2]", "[3]"]
    );
}

#[test]
fn split_comma_inside_string() {
    assert_eq!(
        spans_as_strings(split_json_array(b"[\"a,b\",1]")),
        vec!["\"a,b\"", "1"]
    );
}

#[test]
fn split_number_array() {
    assert_eq!(
        spans_as_strings(split_json_array(b"[-12,11.1,0]")),
        vec!["-12", "11.1", "0"]
    );
}

#[test]
fn split_reports_structural_error_and_recovers() {
    let results = split_json_array(b"[}]");
    assert_eq!(results.len(), 1);
    assert!(matches!(
        results[0],
        Err(JsonStreamError::Parsing(ParserError::WrongState {
            got: Some(ParserState::Array),
            expected: ParserState::Object,
        }))
    ));
}

#[test]
fn split_chunking_does_not_matter() {
    let json = "[\"blubb\", 42,{\"xxx\":false , \"yyy\":\"abc\"} ] ";
    let whole = split_json_array(json.as_bytes());
    let by_one: Vec<&str> = json.split("").filter(|s| !s.is_empty()).collect();
    let halves = [&json[..11], &json[11..]];
    let thirds = [&json[..7], &json[7..29], &json[29..]];
    for chunking in [&by_one[..], &halves[..], &thirds[..]] {
        let chunked = split_in_chunks(chunking);
        assert_eq!(chunked.len(), whole.len());
        for (a, b) in chunked.iter().zip(whole.iter()) {
            match (a, b) {
                (Ok(x), Ok(y)) => assert_eq!(x, y),
                (Err(JsonStreamError::PrematureEndOfInput), Err(JsonStreamError::PrematureEndOfInput)) => {}
                _ => panic!("chunked and whole runs disagree"),
            }
        }
    }
}

#[test]
fn split_chunked_mid_escape() {
    let json = "[\"a\\u0041b\",2]";
    let whole = spans_as_strings(split_json_array(json.as_bytes()));
    let cut_mid_escape = [&json[..6], &json[6..]];
    let chunked = spans_as_strings(split_in_chunks(&cut_mid_escape));
    assert_eq!(whole, chunked);
    assert_eq!(whole, vec!["\"a\\u0041b\"", "2"]);
}

#[test]
fn splitter_is_terminal_after_close() {
    let mut splitter = JsonArraySplitter::new();
    for c in "[1]".bytes() {
        let _ = splitter.process_byte(c);
    }
    assert!(splitter.is_terminal());
    assert!(splitter.end_of_input().is_none());
    assert!(splitter.process_byte(b'x').is_none());
}
