use regex::Regex;
use yamlsplit::markers::classify;
use yamlsplit::markers::regex_doc_end;
use yamlsplit::markers::regex_doc_start;
use yamlsplit::markers::LineKind;
use yamlsplit::markers::MarkerError;
use yamlsplit::markers::Markers;
use yamlsplit::markers::DOC_END_PATTERN;
use yamlsplit::markers::DOC_START_PATTERN;

#[test]
fn patterns_are_those_of_the_convention() {
    assert_eq!(DOC_START_PATTERN, "^--- *$");
    assert_eq!(DOC_END_PATTERN, "^\\.\\.\\. *$");
}

#[test]
fn both_patterns_compile() {
    assert!(regex_doc_start().is_ok());
    assert!(regex_doc_end().is_ok());
    assert!(Markers::new().is_ok());
}

#[test]
fn compiled_patterns_keep_their_source() {
    assert_eq!(regex_doc_start().unwrap().as_str(), "^--- *$");
    assert_eq!(regex_doc_end().unwrap().as_str(), "^\\.\\.\\. *$");
    let markers = Markers::new().unwrap();
    assert_eq!(markers.start.as_str(), DOC_START_PATTERN);
    assert_eq!(markers.end.as_str(), DOC_END_PATTERN);
}

#[test]
fn start_marker_is_three_dashes_and_spaces() {
    let markers = Markers::new().unwrap();
    assert!(markers.is_doc_start("---"));
    assert!(markers.is_doc_start("--- "));
    assert!(markers.is_doc_start("---     "));
    assert!(!markers.is_doc_start(""));
    assert!(!markers.is_doc_start("--"));
    assert!(!markers.is_doc_start("----"));
    assert!(!markers.is_doc_start(" ---"));
    assert!(!markers.is_doc_start("--- a"));
    assert!(!markers.is_doc_start("--- # comment"));
    assert!(!markers.is_doc_start("---\t"));
    assert!(!markers.is_doc_start("a: 1"));
    assert!(!markers.is_doc_start("..."));
}

#[test]
fn end_marker_is_three_dots_and_spaces() {
    let markers = Markers::new().unwrap();
    assert!(markers.is_doc_end("..."));
    assert!(markers.is_doc_end("... "));
    assert!(markers.is_doc_end("...   "));
    assert!(!markers.is_doc_end(""));
    assert!(!markers.is_doc_end(".."));
    assert!(!markers.is_doc_end("...."));
    assert!(!markers.is_doc_end(" ..."));
    assert!(!markers.is_doc_end("... x"));
    assert!(!markers.is_doc_end("abc"));
    assert!(!markers.is_doc_end("---"));
}

#[test]
fn carriage_return_makes_a_marker_content() {
    let markers = Markers::new().unwrap();
    assert!(!markers.is_doc_start("---\r"));
    assert!(!markers.is_doc_end("...\r"));
    assert_eq!(markers.classify_line("---\r"), LineKind::Content);
    assert_eq!(markers.classify_line("...\r"), LineKind::Content);
}

#[test]
fn classify_asks_the_start_pattern_first() {
    assert_eq!(classify(true, false), LineKind::DocStart);
    assert_eq!(classify(true, true), LineKind::DocStart);
    assert_eq!(classify(false, true), LineKind::DocEnd);
    assert_eq!(classify(false, false), LineKind::Content);
}

#[test]
fn classify_line_tells_the_three_kinds_apart() {
    let markers = Markers::new().unwrap();
    assert_eq!(markers.classify_line("---"), LineKind::DocStart);
    assert_eq!(markers.classify_line("---  "), LineKind::DocStart);
    assert_eq!(markers.classify_line("..."), LineKind::DocEnd);
    assert_eq!(markers.classify_line("... "), LineKind::DocEnd);
    assert_eq!(markers.classify_line("a: 1"), LineKind::Content);
    assert_eq!(markers.classify_line(""), LineKind::Content);
    assert_eq!(markers.classify_line("- --"), LineKind::Content);
    assert_eq!(markers.classify_line("  ---"), LineKind::Content);
}

#[test]
fn classify_line_uses_the_markers_it_is_given() {
    let markers = Markers {
        start: Regex::new("^BEGIN$").unwrap(),
        end: Regex::new("^END$").unwrap(),
    };
    assert_eq!(markers.classify_line("BEGIN"), LineKind::DocStart);
    assert_eq!(markers.classify_line("END"), LineKind::DocEnd);
    assert_eq!(markers.classify_line("---"), LineKind::Content);
    let both = Markers {
        start: Regex::new("^x").unwrap(),
        end: Regex::new("x$").unwrap(),
    };
    assert_eq!(both.classify_line("x"), LineKind::DocStart);
    assert_eq!(both.classify_line("ax"), LineKind::DocEnd);
}

#[test]
fn from_compiled_takes_two_good_patterns() {
    let markers = Markers::from_compiled(Regex::new("^a$"), Regex::new("^b$")).unwrap();
    assert_eq!(markers.start.as_str(), "^a$");
    assert_eq!(markers.end.as_str(), "^b$");
}

#[test]
fn from_compiled_reports_the_refused_start_pattern() {
    let cause = Regex::new("(").unwrap_err();
    match Markers::from_compiled(Regex::new("("), Regex::new("^b$")) {
        Err(MarkerError::DocStart(e)) => assert_eq!(e, cause),
        other => panic!("unexpected: {:?}", other),
    }
}

#[test]
fn from_compiled_reports_the_refused_end_pattern() {
    let cause = Regex::new("[").unwrap_err();
    match Markers::from_compiled(Regex::new("^a$"), Regex::new("[")) {
        Err(MarkerError::DocEnd(e)) => assert_eq!(e, cause),
        other => panic!("unexpected: {:?}", other),
    }
}

#[test]
fn from_compiled_reports_the_start_pattern_where_both_are_refused() {
    let cause = Regex::new("(").unwrap_err();
    match Markers::from_compiled(Regex::new("("), Regex::new("[")) {
        Err(MarkerError::DocStart(e)) => assert_eq!(e, cause),
        other => panic!("unexpected: {:?}", other),
    }
}
