use session_links::codec::{encode, DecodeError};
use session_links::groups::extract;
use session_links::output::{plan_write, IoError, OutputOptions};
use session_links::parser::ParseError;
use session_links::pipeline::{FileRecord, PipelineError, Stage};
use session_links::render::{render, FormatInfo};
use session_links::selection::GenerateOptions;

fn opts(overwrite: bool, create_folder: bool) -> OutputOptions {
    OutputOptions { format: FormatInfo::PlainText, overwrite, create_folder }
}

#[test]
fn bad_magic_leaves_record_at_raw() {
    let mut rec = FileRecord::new("store.bin".to_string(), b"not a container".to_vec());
    let r = rec.advance();
    assert_eq!(r, Err(PipelineError::Decode(DecodeError::BadMagic)));
    match &rec.stage {
        Stage::Raw(b) => assert_eq!(b, &b"not a container".to_vec()),
        _ => panic!("stage must remain Raw"),
    }
    // The same transition can be retried and fails the same way.
    assert_eq!(rec.advance(), Err(PipelineError::Decode(DecodeError::BadMagic)));
}

#[test]
fn parse_failure_leaves_record_at_decompressed() {
    let payload = b"this is not a session document".to_vec();
    let mut rec = FileRecord::new("p".to_string(), encode(&payload));
    assert_eq!(rec.advance(), Ok(()));
    assert!(matches!(rec.stage, Stage::Decompressed(_)));
    assert_eq!(rec.advance(), Err(PipelineError::Parse(ParseError::Malformed)));
    match &rec.stage {
        Stage::Decompressed(b) => assert_eq!(b, &payload),
        _ => panic!("stage must remain Decompressed"),
    }
}

#[test]
fn pipeline_drives_to_parsed_and_reports_each_stage() {
    let doc = br#"{"windows":[{"title":"Work","tabs":[{"url":"https://example.com","title":"Example"}]}],"_closedWindows":[{"tabs":[{"url":"https://old"}]}]}"#;
    let mut rec = FileRecord::new("session.jsonlz4".to_string(), encode(&doc.to_vec()));

    assert_eq!(rec.pending_status(), "Decompressing data");
    assert!(rec.parsed_tree().is_none());
    assert_eq!(rec.advance(), Ok(()));
    assert_eq!(rec.pending_status(), "Parsing session data");
    assert_eq!(rec.advance(), Ok(()));
    assert_eq!(rec.pending_status(), "Successfully loaded session data");
    assert_eq!(rec.advance(), Ok(()));

    let tree = rec.parsed_tree().unwrap();
    let groups = extract(tree);
    assert_eq!(groups.open.len(), 1);
    assert_eq!(groups.closed.len(), 1);

    let sel = GenerateOptions::default();
    assert_eq!(sel.selected_groups(&groups), 2);
    let out = render(tree, &groups, &sel, FormatInfo::Markdown).unwrap();
    assert_eq!(
        out,
        b"# Work\n\n- [Example](https://example.com)\n\n# Window 1\n\n- [https://old](https://old)\n\n"
            .to_vec()
    );
}

#[test]
fn existing_target_without_overwrite_is_refused() {
    assert_eq!(plan_write(true, true, &opts(false, false)), Err(IoError::AlreadyExists));
    assert_eq!(plan_write(true, true, &opts(false, true)), Err(IoError::AlreadyExists));
}

#[test]
fn existing_target_with_overwrite_is_allowed() {
    assert_eq!(plan_write(true, true, &opts(true, false)), Ok(()));
}

#[test]
fn missing_parent_needs_create_folder() {
    assert_eq!(plan_write(false, false, &opts(false, false)), Err(IoError::MissingParent));
    assert_eq!(plan_write(false, false, &opts(false, true)), Ok(()));
    assert_eq!(plan_write(false, true, &opts(false, false)), Ok(()));
}
