use session_links::groups::extract;
use session_links::render::{render, FormatInfo};
use session_links::selection::GenerateOptions;
use session_links::session::{SessionTree, Tab, Window};

fn tab(url: &str, title: &str) -> Tab {
    Tab { url: url.as_bytes().to_vec(), title: title.as_bytes().to_vec() }
}

fn one_group_tree() -> SessionTree {
    SessionTree {
        windows: vec![Window {
            title: b"Work".to_vec(),
            open: true,
            tabs: vec![tab("https://example.com", "Example")],
        }],
    }
}

fn all_selected() -> GenerateOptions {
    GenerateOptions::default()
}

fn nothing_selected() -> GenerateOptions {
    GenerateOptions {
        open_group_indexes: Some(Vec::new()),
        closed_group_indexes: Some(Vec::new()),
    }
}

fn find(haystack: &[u8], needle: &[u8]) -> Option<usize> {
    if needle.len() > haystack.len() {
        return None;
    }
    (0..=haystack.len() - needle.len()).find(|&i| &haystack[i..i + needle.len()] == needle)
}

#[test]
fn markdown_one_group_one_tab() {
    let tree = one_group_tree();
    let groups = extract(&tree);
    let out = render(&tree, &groups, &all_selected(), FormatInfo::Markdown).unwrap();
    assert_eq!(out, b"# Work\n\n- [Example](https://example.com)\n\n".to_vec());
    assert!(find(&out, b"Work").is_some());
    assert!(find(&out, b"[Example](https://example.com)").is_some());
}

#[test]
fn plain_text_one_group_one_tab() {
    let tree = one_group_tree();
    let groups = extract(&tree);
    let out = render(&tree, &groups, &all_selected(), FormatInfo::PlainText).unwrap();
    assert_eq!(out, b"Work\n  Example - https://example.com\n\n".to_vec());
}

#[test]
fn html_one_group_one_tab() {
    let tree = one_group_tree();
    let groups = extract(&tree);
    let out = render(&tree, &groups, &all_selected(), FormatInfo::Html).unwrap();
    let expected = b"<!DOCTYPE html>\n<html>\n<head><meta charset=\"utf-8\"><title>Links</title></head>\n<body>\n<h2>Work</h2>\n<ul>\n<li><a href=\"https://example.com\">Example</a></li>\n</ul>\n</body>\n</html>\n".to_vec();
    assert_eq!(out, expected);
}

#[test]
fn empty_selection_gives_valid_empty_documents() {
    let tree = one_group_tree();
    let groups = extract(&tree);
    let sel = nothing_selected();
    assert_eq!(render(&tree, &groups, &sel, FormatInfo::PlainText).unwrap(), Vec::<u8>::new());
    assert_eq!(render(&tree, &groups, &sel, FormatInfo::Markdown).unwrap(), Vec::<u8>::new());
    let html = render(&tree, &groups, &sel, FormatInfo::Html).unwrap();
    assert!(html.starts_with(b"<!DOCTYPE html>"));
    assert!(html.ends_with(b"</html>\n"));
    let pdf = render(&tree, &groups, &sel, FormatInfo::Pdf).unwrap();
    assert!(pdf.starts_with(b"%PDF-1.4\n"));
    assert!(pdf.ends_with(b"%%EOF\n"));
}

#[test]
fn pdf_cross_references_point_at_the_objects() {
    let tree = one_group_tree();
    let groups = extract(&tree);
    let pdf = render(&tree, &groups, &all_selected(), FormatInfo::Pdf).unwrap();

    // startxref gives the byte offset of the xref table.
    let sx = find(&pdf, b"startxref\n").unwrap();
    let after = &pdf[sx + b"startxref\n".len()..];
    let digits: Vec<u8> = after.iter().copied().take_while(|b| b.is_ascii_digit()).collect();
    let xref_off: usize = String::from_utf8(digits).unwrap().parse().unwrap();
    assert!(pdf[xref_off..].starts_with(b"xref\n"));

    // Each in-use entry's offset points at the numbered object.
    let table = find(&pdf, b"0000000000 65535 f \n").unwrap() + b"0000000000 65535 f \n".len();
    for obj in 1..=5usize {
        let entry = &pdf[table + (obj - 1) * 20..table + (obj - 1) * 20 + 20];
        let off: usize = String::from_utf8(entry[..10].to_vec()).unwrap().parse().unwrap();
        let head = format!("{} 0 obj\n", obj);
        assert!(pdf[off..].starts_with(head.as_bytes()));
    }

    // The content stream length is what /Length declares.
    let ls = find(&pdf, b"<< /Length ").unwrap() + b"<< /Length ".len();
    let digits: Vec<u8> = pdf[ls..].iter().copied().take_while(|b| b.is_ascii_digit()).collect();
    let declared: usize = String::from_utf8(digits).unwrap().parse().unwrap();
    let start = find(&pdf, b"stream\n").unwrap() + b"stream\n".len();
    let end = find(&pdf, b"endstream").unwrap();
    assert_eq!(end - start, declared);
    assert!(find(&pdf, b"(Work) Tj").is_some());
    assert!(find(&pdf, b"(  Example - https://example.com) Tj").is_some());
}

#[test]
fn render_keeps_open_before_closed_and_partition_order() {
    let tree = SessionTree {
        windows: vec![
            Window { title: b"C1".to_vec(), open: false, tabs: vec![] },
            Window { title: b"O1".to_vec(), open: true, tabs: vec![] },
            Window { title: b"O2".to_vec(), open: true, tabs: vec![] },
        ],
    };
    let groups = extract(&tree);
    let out = render(&tree, &groups, &all_selected(), FormatInfo::PlainText).unwrap();
    assert_eq!(out, b"O1\n\nO2\n\nC1\n\n".to_vec());
}

#[test]
fn render_honors_explicit_selection() {
    let tree = SessionTree {
        windows: vec![
            Window { title: b"O1".to_vec(), open: true, tabs: vec![] },
            Window { title: b"O2".to_vec(), open: true, tabs: vec![] },
            Window { title: b"C1".to_vec(), open: false, tabs: vec![] },
        ],
    };
    let groups = extract(&tree);
    let sel = GenerateOptions {
        open_group_indexes: Some(vec![1]),
        closed_group_indexes: Some(vec![0]),
    };
    let out = render(&tree, &groups, &sel, FormatInfo::PlainText).unwrap();
    assert_eq!(out, b"O2\n\nC1\n\n".to_vec());
}

#[test]
fn markdown_and_html_escape_special_bytes() {
    let tree = SessionTree {
        windows: vec![Window {
            title: b"A<b>&\"c\"".to_vec(),
            open: true,
            tabs: vec![tab("https://e.com/a(1) b", "x[y]\\z")],
        }],
    };
    let groups = extract(&tree);
    let md = render(&tree, &groups, &all_selected(), FormatInfo::Markdown).unwrap();
    assert!(find(&md, b"- [x\\[y\\]\\\\z](https://e.com/a%281%29%20b)\n").is_some());
    let html = render(&tree, &groups, &all_selected(), FormatInfo::Html).unwrap();
    assert!(find(&html, b"<h2>A&lt;b&gt;&amp;&quot;c&quot;</h2>").is_some());
}

#[test]
fn pdf_escapes_parentheses_and_backslashes() {
    let tree = SessionTree {
        windows: vec![Window {
            title: b"P(a)\\b".to_vec(),
            open: true,
            tabs: vec![],
        }],
    };
    let groups = extract(&tree);
    let pdf = render(&tree, &groups, &all_selected(), FormatInfo::Pdf).unwrap();
    assert!(find(&pdf, b"(P\\(a\\)\\\\b) Tj").is_some());
}

#[test]
fn format_info_names_and_descriptions() {
    let all = FormatInfo::all();
    assert_eq!(all.len(), 4);
    assert_eq!(all[0].as_str(), "txt");
    assert_eq!(all[1].as_str(), "md");
    assert_eq!(all[2].as_str(), "html");
    assert_eq!(all[3].as_str(), "pdf");
    for f in &all {
        assert!(!f.description().is_empty());
    }
    assert!(all.contains(&FormatInfo::Pdf));
}
