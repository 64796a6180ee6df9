use session_links::parser::{parse, ParseError};

fn doc(s: &str) -> Vec<u8> {
    s.as_bytes().to_vec()
}

#[test]
fn parse_basic_session() {
    let t = parse(&doc(
        r#"{"windows":[{"title":"Work","tabs":[{"url":"https://example.com","title":"Example"}]}],"_closedWindows":[]}"#,
    ))
    .unwrap();
    assert_eq!(t.windows.len(), 1);
    assert!(t.windows[0].open);
    assert_eq!(t.windows[0].title, b"Work".to_vec());
    assert_eq!(t.windows[0].tabs.len(), 1);
    assert_eq!(t.windows[0].tabs[0].url, b"https://example.com".to_vec());
    assert_eq!(t.windows[0].tabs[0].title, b"Example".to_vec());
}

#[test]
fn parse_open_and_closed_windows() {
    let t = parse(&doc(
        r#"{ "windows": [ {"tabs":[]}, {"tabs":[]} ],
            "_closedWindows": [ {"tabs":[{"url":"u"}]} ] }"#,
    ))
    .unwrap();
    assert_eq!(t.windows.len(), 3);
    assert!(t.windows[0].open);
    assert!(t.windows[1].open);
    assert!(!t.windows[2].open);
    assert_eq!(t.windows[2].tabs[0].url, b"u".to_vec());
}

#[test]
fn parse_title_falls_back_to_url() {
    let t = parse(&doc(r#"{"windows":[{"tabs":[{"url":"https://a"}]}]}"#)).unwrap();
    assert_eq!(t.windows[0].tabs[0].title, b"https://a".to_vec());
}

#[test]
fn parse_missing_url_is_missing_required_field() {
    let r = parse(&doc(r#"{"windows":[{"tabs":[{"title":"t"}]}]}"#));
    assert_eq!(r.err(), Some(ParseError::MissingRequiredField));
}

#[test]
fn parse_missing_tabs_is_missing_required_field() {
    let r = parse(&doc(r#"{"windows":[{"title":"w"}]}"#));
    assert_eq!(r.err(), Some(ParseError::MissingRequiredField));
}

#[test]
fn parse_tolerates_unknown_fields() {
    let t = parse(&doc(
        r#"{"version":["sessionrestore",1],"selectedWindow":1,
            "windows":[{"zIndex":2,"tabs":[{"url":"u","entries":[{"x":null,"ok":true}],"n":-1.5e3}],"extra":{"a":[1,2,{}]}}],
            "session":{"state":"stopped"}}"#,
    ))
    .unwrap();
    assert_eq!(t.windows.len(), 1);
    assert_eq!(t.windows[0].tabs[0].url, b"u".to_vec());
}

#[test]
fn parse_missing_window_arrays_gives_empty_tree() {
    let t = parse(&doc(r#"{"something":"else"}"#)).unwrap();
    assert_eq!(t.windows.len(), 0);
}

#[test]
fn parse_type_mismatch_on_known_field_is_malformed() {
    assert_eq!(parse(&doc(r#"{"windows":[{"tabs":5}]}"#)).err(), Some(ParseError::Malformed));
    assert_eq!(
        parse(&doc(r#"{"windows":[{"tabs":[{"url":7}]}]}"#)).err(),
        Some(ParseError::Malformed)
    );
    assert_eq!(parse(&doc(r#"{"windows":{}}"#)).err(), Some(ParseError::Malformed));
    assert_eq!(
        parse(&doc(r#"{"windows":[{"title":3,"tabs":[]}]}"#)).err(),
        Some(ParseError::Malformed)
    );
}

#[test]
fn parse_structural_violations_are_malformed() {
    assert_eq!(parse(&doc("")).err(), Some(ParseError::Malformed));
    assert_eq!(parse(&doc("[]")).err(), Some(ParseError::Malformed));
    assert_eq!(parse(&doc("{")).err(), Some(ParseError::Malformed));
    assert_eq!(parse(&doc(r#"{"windows":[}"#)).err(), Some(ParseError::Malformed));
    assert_eq!(parse(&doc(r#"{"a":"unterminated}"#)).err(), Some(ParseError::Malformed));
    assert_eq!(parse(&doc(r#"{} trailing"#)).err(), Some(ParseError::Malformed));
    assert_eq!(parse(&doc(r#"{"a":nul}"#)).err(), Some(ParseError::Malformed));
}

#[test]
fn parse_decodes_string_escapes() {
    let t = parse(&doc(r#"{"windows":[{"title":"a\"b\\c\/d\ne","tabs":[]}]}"#)).unwrap();
    assert_eq!(t.windows[0].title, b"a\"b\\c/d\ne".to_vec());
}

#[test]
fn parse_rejects_unknown_escape() {
    assert_eq!(
        parse(&doc(r#"{"windows":[{"title":"a\qb","tabs":[]}]}"#)).err(),
        Some(ParseError::Malformed)
    );
}

#[test]
fn parse_accepts_whitespace_everywhere() {
    let t = parse(&doc(
        "  {\n\t\"windows\" : [ { \"tabs\" : [ ] } ] ,\r\n \"_closedWindows\" : [ ] }  \n",
    ))
    .unwrap();
    assert_eq!(t.windows.len(), 1);
}

#[test]
fn parse_last_occurrence_of_windows_wins() {
    let t = parse(&doc(r#"{"windows":[{"tabs":[]},{"tabs":[]}],"windows":[{"tabs":[]}]}"#))
        .unwrap();
    assert_eq!(t.windows.len(), 1);
}
