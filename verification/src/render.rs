//! The link renderer: resolves a selection against the extracted groups and
//! writes the included groups' tabs as links in one of the supported output
//! formats.
//!
//! Open groups come before closed groups; within a partition the document
//! order is kept. Every format renders a group's name as a heading or label
//! and each tab as one line with its title and URL, escaped as the format
//! asks. A selection that resolves to no groups yields a valid, empty
//! document, never an error.

use vstd::prelude::*;
use vstd::string::StringSliceAdditionalSpecFns;

use crate::bytes_util::{dec_digits, push_bytes, push_decimal};
use crate::groups::{group_name, groups_of, open_windows, closed_windows, AllTabGroups};
use crate::selection::GenerateOptions;
use crate::session::{SessionTree, Tab, TabV, WindowV};

verus! {

/// One supported output format.
#[derive(Clone, Copy, Debug, PartialEq, Eq, Structural)]
pub enum FormatInfo {
    PlainText,
    Markdown,
    Html,
    Pdf,
}

/// The machine name of a format.
pub open spec fn format_name(f: FormatInfo) -> Seq<char> {
    match f {
        FormatInfo::PlainText => "txt"@,
        FormatInfo::Markdown => "md"@,
        FormatInfo::Html => "html"@,
        FormatInfo::Pdf => "pdf"@,
    }
}

/// The human description of a format.
pub open spec fn format_description(f: FormatInfo) -> Seq<char> {
    match f {
        FormatInfo::PlainText => "Plain text: a heading line per group, then one line per tab with its title and URL."@,
        FormatInfo::Markdown => "Markdown: a heading per group and a bulleted link per tab."@,
        FormatInfo::Html => "HTML: a heading per group and a list of anchors per tab."@,
        FormatInfo::Pdf => "PDF: a single page listing each group and its tabs."@,
    }
}

impl FormatInfo {
    /// Every supported format, in presentation order.
    pub fn all() -> (r: Vec<FormatInfo>)
        ensures
            r@.len() == 4,
            r@[0] == FormatInfo::PlainText,
            r@[1] == FormatInfo::Markdown,
            r@[2] == FormatInfo::Html,
            r@[3] == FormatInfo::Pdf,
    {
        let mut v: Vec<FormatInfo> = Vec::new();
        v.push(FormatInfo::PlainText);
        v.push(FormatInfo::Markdown);
        v.push(FormatInfo::Html);
        v.push(FormatInfo::Pdf);
        v
    }

    /// The machine name of the format.
    pub fn as_str(&self) -> (r: &'static str)
        ensures
            r@ == format_name(*self),
    {
        match self {
            FormatInfo::PlainText => "txt",
            FormatInfo::Markdown => "md",
            FormatInfo::Html => "html",
            FormatInfo::Pdf => "pdf",
        }
    }

    /// The long-form description of the format, for help text.
    pub fn description(&self) -> (r: &'static str)
        ensures
            r@ == format_description(*self),
    {
        match self {
            FormatInfo::PlainText => "Plain text: a heading line per group, then one line per tab with its title and URL.",
            FormatInfo::Markdown => "Markdown: a heading per group and a bulleted link per tab.",
            FormatInfo::Html => "HTML: a heading per group and a list of anchors per tab.",
            FormatInfo::Pdf => "PDF: a single page listing each group and its tabs.",
        }
    }
}

/// How rendering can fail. No supported format currently fails: `render`
/// promises a document for every input it accepts.
#[derive(Clone, Copy, Debug, PartialEq, Eq, Structural)]
pub enum RenderError {
    /// A format the renderer does not support.
    UnsupportedFormat,
    /// A conversion into a non-text target went wrong.
    ConversionFailed,
}

/// What one Markdown-escaped byte expands to: backslash, bracket and
/// parenthesis get a backslash in front.
pub open spec fn esc_md_byte(b: u8) -> Seq<u8> {
    if b == 92 || b == 91 || b == 93 || b == 40 || b == 41 {
        seq![92u8, b]
    } else {
        seq![b]
    }
}

/// What one URL byte expands to inside a Markdown link target: parentheses
/// and spaces are percent-encoded.
pub open spec fn esc_url_byte(b: u8) -> Seq<u8> {
    if b == 40 {
        "%28".spec_bytes()
    } else if b == 41 {
        "%29".spec_bytes()
    } else if b == 32 {
        "%20".spec_bytes()
    } else {
        seq![b]
    }
}

/// What one HTML-escaped byte expands to, for text and attribute values.
pub open spec fn esc_html_byte(b: u8) -> Seq<u8> {
    if b == 38 {
        "&amp;".spec_bytes()
    } else if b == 60 {
        "&lt;".spec_bytes()
    } else if b == 62 {
        "&gt;".spec_bytes()
    } else if b == 34 {
        "&quot;".spec_bytes()
    } else {
        seq![b]
    }
}

/// What one byte of a PDF string literal expands to: backslash and
/// parentheses get a backslash, line breaks become escape sequences.
pub open spec fn esc_pdf_byte(b: u8) -> Seq<u8> {
    if b == 92 || b == 40 || b == 41 {
        seq![92u8, b]
    } else if b == 10 {
        seq![92u8, 110u8]
    } else if b == 13 {
        seq![92u8, 114u8]
    } else {
        seq![b]
    }
}

pub open spec fn esc_md(s: Seq<u8>) -> Seq<u8>
    decreases s.len(),
{
    if s.len() == 0 {
        Seq::<u8>::empty()
    } else {
        esc_md(s.drop_last()) + esc_md_byte(s.last())
    }
}

pub open spec fn esc_url(s: Seq<u8>) -> Seq<u8>
    decreases s.len(),
{
    if s.len() == 0 {
        Seq::<u8>::empty()
    } else {
        esc_url(s.drop_last()) + esc_url_byte(s.last())
    }
}

pub open spec fn esc_html(s: Seq<u8>) -> Seq<u8>
    decreases s.len(),
{
    if s.len() == 0 {
        Seq::<u8>::empty()
    } else {
        esc_html(s.drop_last()) + esc_html_byte(s.last())
    }
}

pub open spec fn esc_pdf(s: Seq<u8>) -> Seq<u8>
    decreases s.len(),
{
    if s.len() == 0 {
        Seq::<u8>::empty()
    } else {
        esc_pdf(s.drop_last()) + esc_pdf_byte(s.last())
    }
}

/// One group as the renderer sees it: a name and the member tabs.
pub ghost struct GroupV {
    pub name: Seq<u8>,
    pub tabs: Seq<TabV>,
}

/// Whether a selection includes the group at position `i` of its partition:
/// `None` selects all, an explicit set selects its members.
pub open spec fn sel_includes(sel: Option<Seq<u32>>, i: int) -> bool {
    match sel {
        None => true,
        Some(s) => s.contains(i as u32),
    }
}

/// The groups of one partition's windows that a selection includes, in
/// order, each carrying its derived name and its tabs.
pub open spec fn included_groups(ws: Seq<WindowV>, sel: Option<Seq<u32>>) -> Seq<GroupV>
    decreases ws.len(),
{
    if ws.len() == 0 {
        Seq::<GroupV>::empty()
    } else {
        let prefix = included_groups(ws.drop_last(), sel);
        let i = ws.len() - 1;
        if sel_includes(sel, i) {
            prefix.push(GroupV { name: group_name(ws[i], i), tabs: ws[i].tabs })
        } else {
            prefix
        }
    }
}

/// One tab line, plain text.
pub open spec fn text_tab_line(t: TabV) -> Seq<u8> {
    "  ".spec_bytes() + t.title + " - ".spec_bytes() + t.url + "\n".spec_bytes()
}

/// One tab line, Markdown.
pub open spec fn md_tab_line(t: TabV) -> Seq<u8> {
    "- [".spec_bytes() + esc_md(t.title) + "](".spec_bytes() + esc_url(t.url)
        + ")\n".spec_bytes()
}

/// One tab line, HTML.
pub open spec fn html_tab_line(t: TabV) -> Seq<u8> {
    "<li><a href=\"".spec_bytes() + esc_html(t.url) + "\">".spec_bytes() + esc_html(t.title)
        + "</a></li>\n".spec_bytes()
}

/// One line of the PDF page's content stream, showing `s` and moving to the
/// next line.
pub open spec fn pdf_line(s: Seq<u8>) -> Seq<u8> {
    "(".spec_bytes() + esc_pdf(s) + ") Tj\nT*\n".spec_bytes()
}

/// One tab line, PDF: the plain-text form of the tab inside one shown line.
pub open spec fn pdf_tab_line(t: TabV) -> Seq<u8> {
    pdf_line("  ".spec_bytes() + t.title + " - ".spec_bytes() + t.url)
}

/// All tab lines of a group, for `fmt`.
pub open spec fn tab_lines(fmt: FormatInfo, ts: Seq<TabV>) -> Seq<u8>
    decreases ts.len(),
{
    if ts.len() == 0 {
        Seq::<u8>::empty()
    } else {
        tab_lines(fmt, ts.drop_last()) + match fmt {
            FormatInfo::PlainText => text_tab_line(ts.last()),
            FormatInfo::Markdown => md_tab_line(ts.last()),
            FormatInfo::Html => html_tab_line(ts.last()),
            FormatInfo::Pdf => pdf_tab_line(ts.last()),
        }
    }
}

/// One group's block: its name as heading or label, then its tab lines.
pub open spec fn group_block(fmt: FormatInfo, g: GroupV) -> Seq<u8> {
    match fmt {
        FormatInfo::PlainText => g.name + "\n".spec_bytes() + tab_lines(fmt, g.tabs)
            + "\n".spec_bytes(),
        FormatInfo::Markdown => "# ".spec_bytes() + esc_md(g.name) + "\n\n".spec_bytes()
            + tab_lines(fmt, g.tabs) + "\n".spec_bytes(),
        FormatInfo::Html => "<h2>".spec_bytes() + esc_html(g.name) + "</h2>\n<ul>\n".spec_bytes()
            + tab_lines(fmt, g.tabs) + "</ul>\n".spec_bytes(),
        FormatInfo::Pdf => pdf_line(g.name) + tab_lines(fmt, g.tabs),
    }
}

/// The blocks of all included groups, in order.
pub open spec fn blocks(fmt: FormatInfo, gs: Seq<GroupV>) -> Seq<u8>
    decreases gs.len(),
{
    if gs.len() == 0 {
        Seq::<u8>::empty()
    } else {
        blocks(fmt, gs.drop_last()) + group_block(fmt, gs.last())
    }
}

/// The fixed HTML document head.
pub open spec fn html_head() -> Seq<u8> {
    "<!DOCTYPE html>\n<html>\n<head><meta charset=\"utf-8\"><title>Links</title></head>\n<body>\n".spec_bytes()
}

/// The fixed HTML document foot.
pub open spec fn html_foot() -> Seq<u8> {
    "</body>\n</html>\n".spec_bytes()
}

/// `k` ASCII zeros.
pub open spec fn zeros(k: nat) -> Seq<u8>
    decreases k,
{
    if k == 0 {
        Seq::<u8>::empty()
    } else {
        zeros((k - 1) as nat).push(48u8)
    }
}

/// `n` in decimal, left-padded with zeros to ten digits as a cross-reference
/// entry asks.
pub open spec fn pad10(n: nat) -> Seq<u8> {
    let d = dec_digits(n);
    if d.len() >= 10 {
        d
    } else {
        zeros((10 - d.len()) as nat) + d
    }
}

pub open spec fn pdf_obj1() -> Seq<u8> {
    "1 0 obj\n<< /Type /Catalog /Pages 2 0 R >>\nendobj\n".spec_bytes()
}

pub open spec fn pdf_obj2() -> Seq<u8> {
    "2 0 obj\n<< /Type /Pages /Kids [3 0 R] /Count 1 >>\nendobj\n".spec_bytes()
}

pub open spec fn pdf_obj3() -> Seq<u8> {
    "3 0 obj\n<< /Type /Page /Parent 2 0 R /MediaBox [0 0 612 792] /Resources << /Font << /F1 5 0 R >> >> /Contents 4 0 R >>\nendobj\n".spec_bytes()
}

pub open spec fn pdf_obj5() -> Seq<u8> {
    "5 0 obj\n<< /Type /Font /Subtype /Type1 /BaseFont /Helvetica >>\nendobj\n".spec_bytes()
}

/// The whole single-page PDF document around the shown lines in `body`.
pub open spec fn pdf_doc(body: Seq<u8>) -> Seq<u8> {
    let content = "BT\n/F1 11 Tf\n72 760 Td\n14 TL\n".spec_bytes() + body + "ET\n".spec_bytes();
    let obj4 = "4 0 obj\n<< /Length ".spec_bytes() + dec_digits(content.len())
        + " >>\nstream\n".spec_bytes() + content + "endstream\nendobj\n".spec_bytes();
    let h = "%PDF-1.4\n".spec_bytes();
    let off1 = h.len();
    let off2 = off1 + pdf_obj1().len();
    let off3 = off2 + pdf_obj2().len();
    let off4 = off3 + pdf_obj3().len();
    let off5 = off4 + obj4.len();
    let xref_off = off5 + pdf_obj5().len();
    let xref = "xref\n0 6\n0000000000 65535 f \n".spec_bytes() + pad10(off1)
        + " 00000 n \n".spec_bytes() + pad10(off2) + " 00000 n \n".spec_bytes() + pad10(off3)
        + " 00000 n \n".spec_bytes() + pad10(off4) + " 00000 n \n".spec_bytes() + pad10(off5)
        + " 00000 n \n".spec_bytes();
    let trailer = "trailer\n<< /Size 6 /Root 1 0 R >>\nstartxref\n".spec_bytes() + dec_digits(
        xref_off,
    ) + "\n%%EOF\n".spec_bytes();
    h + pdf_obj1() + pdf_obj2() + pdf_obj3() + obj4 + pdf_obj5() + xref + trailer
}

/// The finished document for `fmt` holding the blocks of `gs`.
pub open spec fn doc_of(fmt: FormatInfo, gs: Seq<GroupV>) -> Seq<u8> {
    match fmt {
        FormatInfo::PlainText => blocks(fmt, gs),
        FormatInfo::Markdown => blocks(fmt, gs),
        FormatInfo::Html => html_head() + blocks(fmt, gs) + html_foot(),
        FormatInfo::Pdf => pdf_doc(blocks(fmt, gs)),
    }
}

/// What `render` returns: the document over the groups the selection
/// includes, open partition first, both partitions in document order.
pub open spec fn spec_render(
    ws: Seq<WindowV>,
    sel: crate::selection::GenerateOptionsV,
    fmt: FormatInfo,
) -> Seq<u8> {
    doc_of(
        fmt,
        included_groups(open_windows(ws), sel.open_sel) + included_groups(
            closed_windows(ws),
            sel.closed_sel,
        ),
    )
}

/// The valid empty document of each format: what a selection resolving to
/// zero groups renders to.
pub open spec fn spec_empty_document(fmt: FormatInfo) -> Seq<u8> {
    doc_of(fmt, Seq::<GroupV>::empty())
}

fn push_esc_md(out: &mut Vec<u8>, s: &Vec<u8>)
    ensures
        final(out)@ == old(out)@ + esc_md(s@),
{
    let mut i: usize = 0;
    proof {
        assert(out@ =~= old(out)@ + esc_md(s@.subrange(0, 0)));
    }
    while i < s.len()
        invariant
            0 <= i <= s@.len(),
            out@ == old(out)@ + esc_md(s@.subrange(0, i as int)),
        decreases s@.len() - i,
    {
        let b = s[i];
        proof {
            assert(s@.subrange(0, i + 1).drop_last() =~= s@.subrange(0, i as int));
        }
        if b == 92 || b == 91 || b == 93 || b == 40 || b == 41 {
            out.push(92);
            out.push(b);
        } else {
            out.push(b);
        }
        i = i + 1;
        proof {
            assert(out@ =~= old(out)@ + esc_md(s@.subrange(0, i as int)));
        }
    }
    proof {
        assert(s@.subrange(0, s@.len() as int) =~= s@);
    }
}

fn push_esc_url(out: &mut Vec<u8>, s: &Vec<u8>)
    ensures
        final(out)@ == old(out)@ + esc_url(s@),
{
    let mut i: usize = 0;
    proof {
        assert(out@ =~= old(out)@ + esc_url(s@.subrange(0, 0)));
    }
    while i < s.len()
        invariant
            0 <= i <= s@.len(),
            out@ == old(out)@ + esc_url(s@.subrange(0, i as int)),
        decreases s@.len() - i,
    {
        let b = s[i];
        proof {
            assert(s@.subrange(0, i + 1).drop_last() =~= s@.subrange(0, i as int));
        }
        if b == 40 {
            push_bytes(out, "%28".as_bytes());
        } else if b == 41 {
            push_bytes(out, "%29".as_bytes());
        } else if b == 32 {
            push_bytes(out, "%20".as_bytes());
        } else {
            out.push(b);
        }
        i = i + 1;
        proof {
            assert(out@ =~= old(out)@ + esc_url(s@.subrange(0, i as int)));
        }
    }
    proof {
        assert(s@.subrange(0, s@.len() as int) =~= s@);
    }
}

fn push_esc_html(out: &mut Vec<u8>, s: &Vec<u8>)
    ensures
        final(out)@ == old(out)@ + esc_html(s@),
{
    let mut i: usize = 0;
    proof {
        assert(out@ =~= old(out)@ + esc_html(s@.subrange(0, 0)));
    }
    while i < s.len()
        invariant
            0 <= i <= s@.len(),
            out@ == old(out)@ + esc_html(s@.subrange(0, i as int)),
        decreases s@.len() - i,
    {
        let b = s[i];
        proof {
            assert(s@.subrange(0, i + 1).drop_last() =~= s@.subrange(0, i as int));
        }
        if b == 38 {
            push_bytes(out, "&amp;".as_bytes());
        } else if b == 60 {
            push_bytes(out, "&lt;".as_bytes());
        } else if b == 62 {
            push_bytes(out, "&gt;".as_bytes());
        } else if b == 34 {
            push_bytes(out, "&quot;".as_bytes());
        } else {
            out.push(b);
        }
        i = i + 1;
        proof {
            assert(out@ =~= old(out)@ + esc_html(s@.subrange(0, i as int)));
        }
    }
    proof {
        assert(s@.subrange(0, s@.len() as int) =~= s@);
    }
}

fn push_esc_pdf(out: &mut Vec<u8>, s: &Vec<u8>)
    ensures
        final(out)@ == old(out)@ + esc_pdf(s@),
{
    let mut i: usize = 0;
    proof {
        assert(out@ =~= old(out)@ + esc_pdf(s@.subrange(0, 0)));
    }
    while i < s.len()
        invariant
            0 <= i <= s@.len(),
            out@ == old(out)@ + esc_pdf(s@.subrange(0, i as int)),
        decreases s@.len() - i,
    {
        let b = s[i];
        proof {
            assert(s@.subrange(0, i + 1).drop_last() =~= s@.subrange(0, i as int));
        }
        if b == 92 || b == 40 || b == 41 {
            out.push(92);
            out.push(b);
        } else if b == 10 {
            out.push(92);
            out.push(110);
        } else if b == 13 {
            out.push(92);
            out.push(114);
        } else {
            out.push(b);
        }
        i = i + 1;
        proof {
            assert(out@ =~= old(out)@ + esc_pdf(s@.subrange(0, i as int)));
        }
    }
    proof {
        assert(s@.subrange(0, s@.len() as int) =~= s@);
    }
}

/// Writes one shown line of the PDF content stream.
fn push_pdf_line(out: &mut Vec<u8>, s: &Vec<u8>)
    ensures
        final(out)@ == old(out)@ + pdf_line(s@),
{
    push_bytes(out, "(".as_bytes());
    push_esc_pdf(out, s);
    push_bytes(out, ") Tj\nT*\n".as_bytes());
    proof {
        assert(out@ =~= old(out)@ + pdf_line(s@));
    }
}

/// Writes one group's block for `fmt`: heading or label, then the tab lines.
#[verifier::rlimit(100)]
fn push_group_block(out: &mut Vec<u8>, fmt: FormatInfo, name: &Vec<u8>, tabs: &Vec<Tab>)
    ensures
        final(out)@ == old(out)@ + group_block(
            fmt,
            GroupV { name: name@, tabs: tabs@.map_values(|t: Tab| t@) },
        ),
{
    let ghost tabs_v = tabs@.map_values(|t: Tab| t@);
    match fmt {
        FormatInfo::PlainText => {
            push_bytes(out, name.as_slice());
            push_bytes(out, "\n".as_bytes());
        },
        FormatInfo::Markdown => {
            push_bytes(out, "# ".as_bytes());
            push_esc_md(out, name);
            push_bytes(out, "\n\n".as_bytes());
        },
        FormatInfo::Html => {
            push_bytes(out, "<h2>".as_bytes());
            push_esc_html(out, name);
            push_bytes(out, "</h2>\n<ul>\n".as_bytes());
        },
        FormatInfo::Pdf => {
            push_pdf_line(out, name);
        },
    }
    let ghost mid = out@;
    let mut k: usize = 0;
    proof {
        assert(out@ =~= mid + tab_lines(fmt, tabs_v.subrange(0, 0)));
    }
    while k < tabs.len()
        invariant
            0 <= k <= tabs_v.len(),
            tabs_v.len() == tabs@.len(),
            tabs_v == tabs@.map_values(|t: Tab| t@),
            out@ == mid + tab_lines(fmt, tabs_v.subrange(0, k as int)),
        decreases tabs_v.len() - k,
    {
        let t = &tabs[k];
        proof {
            assert(tabs_v.subrange(0, k + 1).drop_last() =~= tabs_v.subrange(0, k as int));
            assert(tabs_v.subrange(0, k + 1).last() == tabs@[k as int]@);
        }
        match fmt {
            FormatInfo::PlainText => {
                push_bytes(out, "  ".as_bytes());
                push_bytes(out, t.title.as_slice());
                push_bytes(out, " - ".as_bytes());
                push_bytes(out, t.url.as_slice());
                push_bytes(out, "\n".as_bytes());
            },
            FormatInfo::Markdown => {
                push_bytes(out, "- [".as_bytes());
                push_esc_md(out, &t.title);
                push_bytes(out, "](".as_bytes());
                push_esc_url(out, &t.url);
                push_bytes(out, ")\n".as_bytes());
            },
            FormatInfo::Html => {
                push_bytes(out, "<li><a href=\"".as_bytes());
                push_esc_html(out, &t.url);
                push_bytes(out, "\">".as_bytes());
                push_esc_html(out, &t.title);
                push_bytes(out, "</a></li>\n".as_bytes());
            },
            FormatInfo::Pdf => {
                let mut raw: Vec<u8> = Vec::new();
                push_bytes(&mut raw, "  ".as_bytes());
                push_bytes(&mut raw, t.title.as_slice());
                push_bytes(&mut raw, " - ".as_bytes());
                push_bytes(&mut raw, t.url.as_slice());
                push_pdf_line(out, &raw);
            },
        }
        k = k + 1;
        proof {
            assert(out@ =~= mid + tab_lines(fmt, tabs_v.subrange(0, k as int)));
        }
    }
    proof {
        assert(tabs_v.subrange(0, tabs_v.len() as int) =~= tabs_v);
    }
    match fmt {
        FormatInfo::PlainText => {
            push_bytes(out, "\n".as_bytes());
        },
        FormatInfo::Markdown => {
            push_bytes(out, "\n".as_bytes());
        },
        FormatInfo::Html => {
            push_bytes(out, "</ul>\n".as_bytes());
        },
        FormatInfo::Pdf => {},
    }
    proof {
        assert(out@ =~= old(out)@ + group_block(fmt, GroupV { name: name@, tabs: tabs_v }));
    }
}

/// Writes `n` as a ten-digit zero-padded decimal.
fn push_pad10(out: &mut Vec<u8>, n: u64)
    ensures
        final(out)@ == old(out)@ + pad10(n as nat),
{
    let mut d: Vec<u8> = Vec::new();
    push_decimal(&mut d, n);
    if d.len() >= 10 {
        push_bytes(out, d.as_slice());
    } else {
        let kmax = 10 - d.len();
        let mut k: usize = 0;
        let ghost base = out@;
        while k < kmax
            invariant
                0 <= k <= kmax,
                out@ == base + zeros(k as nat),
            decreases kmax - k,
        {
            out.push(48);
            k = k + 1;
            proof {
                assert(out@ =~= base + zeros(k as nat));
            }
        }
        push_bytes(out, d.as_slice());
    }
}

/// Assembles the single-page PDF document around the shown lines in `body`.
#[verifier::rlimit(100)]
fn render_pdf_doc(body: &Vec<u8>) -> (r: Vec<u8>)
    ensures
        r@ == pdf_doc(body@),
{
    let mut content: Vec<u8> = Vec::new();
    push_bytes(&mut content, "BT\n/F1 11 Tf\n72 760 Td\n14 TL\n".as_bytes());
    push_bytes(&mut content, body.as_slice());
    push_bytes(&mut content, "ET\n".as_bytes());

    let mut obj4: Vec<u8> = Vec::new();
    push_bytes(&mut obj4, "4 0 obj\n<< /Length ".as_bytes());
    push_decimal(&mut obj4, content.len() as u64);
    push_bytes(&mut obj4, " >>\nstream\n".as_bytes());
    push_bytes(&mut obj4, content.as_slice());
    push_bytes(&mut obj4, "endstream\nendobj\n".as_bytes());

    let mut out: Vec<u8> = Vec::new();
    push_bytes(&mut out, "%PDF-1.4\n".as_bytes());
    let off1 = out.len();
    push_bytes(&mut out, "1 0 obj\n<< /Type /Catalog /Pages 2 0 R >>\nendobj\n".as_bytes());
    let off2 = out.len();
    push_bytes(&mut out, "2 0 obj\n<< /Type /Pages /Kids [3 0 R] /Count 1 >>\nendobj\n".as_bytes());
    let off3 = out.len();
    push_bytes(
        &mut out,
        "3 0 obj\n<< /Type /Page /Parent 2 0 R /MediaBox [0 0 612 792] /Resources << /Font << /F1 5 0 R >> >> /Contents 4 0 R >>\nendobj\n".as_bytes(),
    );
    let off4 = out.len();
    push_bytes(&mut out, obj4.as_slice());
    let off5 = out.len();
    push_bytes(&mut out, "5 0 obj\n<< /Type /Font /Subtype /Type1 /BaseFont /Helvetica >>\nendobj\n".as_bytes());
    let xref_off = out.len();
    push_bytes(&mut out, "xref\n0 6\n0000000000 65535 f \n".as_bytes());
    push_pad10(&mut out, off1 as u64);
    push_bytes(&mut out, " 00000 n \n".as_bytes());
    push_pad10(&mut out, off2 as u64);
    push_bytes(&mut out, " 00000 n \n".as_bytes());
    push_pad10(&mut out, off3 as u64);
    push_bytes(&mut out, " 00000 n \n".as_bytes());
    push_pad10(&mut out, off4 as u64);
    push_bytes(&mut out, " 00000 n \n".as_bytes());
    push_pad10(&mut out, off5 as u64);
    push_bytes(&mut out, " 00000 n \n".as_bytes());
    push_bytes(&mut out, "trailer\n<< /Size 6 /Root 1 0 R >>\nstartxref\n".as_bytes());
    push_decimal(&mut out, xref_off as u64);
    push_bytes(&mut out, "\n%%EOF\n".as_bytes());
    proof {
        assert(out@ =~= pdf_doc(body@));
    }
    out
}

proof fn lemma_blocks_add(fmt: FormatInfo, a: Seq<GroupV>, b: Seq<GroupV>)
    ensures
        blocks(fmt, a + b) == blocks(fmt, a) + blocks(fmt, b),
    decreases b.len(),
{
    if b.len() == 0 {
        assert(a + b =~= a);
        assert(blocks(fmt, a) + blocks(fmt, b) =~= blocks(fmt, a));
    } else {
        lemma_blocks_add(fmt, a, b.drop_last());
        assert((a + b).drop_last() =~= a + b.drop_last());
        assert((a + b).last() == b.last());
        assert(blocks(fmt, a) + blocks(fmt, b.drop_last()) + group_block(fmt, b.last()) =~= blocks(
            fmt,
            a,
        ) + blocks(fmt, b));
    }
}

/// Renders the blocks of every included group, open partition first.
fn render_body(tree: &SessionTree, selection: &GenerateOptions, fmt: FormatInfo) -> (r: Vec<u8>)
    requires
        tree@.len() < 0xFFFFFFFFu32,
    ensures
        r@ == blocks(
            fmt,
            included_groups(open_windows(tree@), selection@.open_sel) + included_groups(
                closed_windows(tree@),
                selection@.closed_sel,
            ),
        ),
{
    let mut out: Vec<u8> = Vec::new();
    let ghost a_full = included_groups(open_windows(tree@), selection@.open_sel);
    let ghost b_full = included_groups(closed_windows(tree@), selection@.closed_sel);

    let mut j: usize = 0;
    let mut cnt: usize = 0;
    proof {
        assert(tree@.subrange(0, 0) =~= Seq::<WindowV>::empty());
    }
    while j < tree.windows.len()
        invariant
            0 <= j <= tree@.len(),
            tree@.len() < 0xFFFFFFFFu32,
            tree@.len() == tree.windows@.len(),
            cnt == open_windows(tree@.subrange(0, j as int)).len(),
            cnt <= j,
            out@ == blocks(
                fmt,
                included_groups(open_windows(tree@.subrange(0, j as int)), selection@.open_sel),
            ),
        decreases tree@.len() - j,
    {
        let w = &tree.windows[j];
        proof {
            assert(tree@.subrange(0, j + 1).drop_last() =~= tree@.subrange(0, j as int));
            assert(tree@.subrange(0, j + 1).last() == tree@[j as int]);
            assert(tree@[j as int] == tree.windows@[j as int]@);
        }
        let ghost ow = open_windows(tree@.subrange(0, j as int));
        if w.open {
            proof {
                assert(open_windows(tree@.subrange(0, j + 1)) == ow.push(tree@[j as int]));
                assert(ow.push(tree@[j as int]).drop_last() =~= ow);
                assert(ow.push(tree@[j as int]).last() == tree@[j as int]);
            }
            let selected = match &selection.open_group_indexes {
                None => true,
                Some(v) => crate::selection::contains_u32(v, cnt as u32),
            };
            proof {
                assert(selected == sel_includes(selection@.open_sel, cnt as int));
            }
            if selected {
                let name = crate::groups::make_group_name(&w.title, cnt as u32);
                let ghost gs_before = included_groups(ow, selection@.open_sel);
                let ghost g = GroupV { name: name@, tabs: tree@[j as int].tabs };
                push_group_block(&mut out, fmt, &name, &w.tabs);
                proof {
                    assert(name@ == group_name(tree@[j as int], cnt as int));
                    assert(ow.push(tree@[j as int]).drop_last() =~= ow);
                    assert(ow.push(tree@[j as int]).last() == tree@[j as int]);
                    assert(included_groups(ow.push(tree@[j as int]), selection@.open_sel)
                        == gs_before.push(g));
                    assert(gs_before.push(g).drop_last() =~= gs_before);
                    assert(gs_before.push(g).last() == g);
                    assert(blocks(fmt, gs_before.push(g)) == blocks(fmt, gs_before) + group_block(
                        fmt,
                        g,
                    ));
                }
            }
            cnt = cnt + 1;
        } else {
            proof {
                assert(open_windows(tree@.subrange(0, j + 1)) == ow);
            }
        }
        j = j + 1;
    }
    proof {
        assert(tree@.subrange(0, tree@.len() as int) =~= tree@);
        assert(out@ == blocks(fmt, a_full));
    }

    let mut j2: usize = 0;
    let mut cnt2: usize = 0;
    proof {
        assert(tree@.subrange(0, 0) =~= Seq::<WindowV>::empty());
    }
    while j2 < tree.windows.len()
        invariant
            0 <= j2 <= tree@.len(),
            tree@.len() < 0xFFFFFFFFu32,
            tree@.len() == tree.windows@.len(),
            cnt2 == closed_windows(tree@.subrange(0, j2 as int)).len(),
            cnt2 <= j2,
            out@ == blocks(fmt, a_full) + blocks(
                fmt,
                included_groups(
                    closed_windows(tree@.subrange(0, j2 as int)),
                    selection@.closed_sel,
                ),
            ),
        decreases tree@.len() - j2,
    {
        let w = &tree.windows[j2];
        proof {
            assert(tree@.subrange(0, j2 + 1).drop_last() =~= tree@.subrange(0, j2 as int));
            assert(tree@.subrange(0, j2 + 1).last() == tree@[j2 as int]);
            assert(tree@[j2 as int] == tree.windows@[j2 as int]@);
        }
        let ghost cw = closed_windows(tree@.subrange(0, j2 as int));
        if !w.open {
            proof {
                assert(closed_windows(tree@.subrange(0, j2 + 1)) == cw.push(tree@[j2 as int]));
                assert(cw.push(tree@[j2 as int]).drop_last() =~= cw);
                assert(cw.push(tree@[j2 as int]).last() == tree@[j2 as int]);
            }
            let selected = match &selection.closed_group_indexes {
                None => true,
                Some(v) => crate::selection::contains_u32(v, cnt2 as u32),
            };
            proof {
                assert(selected == sel_includes(selection@.closed_sel, cnt2 as int));
            }
            if selected {
                let name = crate::groups::make_group_name(&w.title, cnt2 as u32);
                let ghost gs_before = included_groups(cw, selection@.closed_sel);
                let ghost g = GroupV { name: name@, tabs: tree@[j2 as int].tabs };
                push_group_block(&mut out, fmt, &name, &w.tabs);
                proof {
                    assert(name@ == group_name(tree@[j2 as int], cnt2 as int));
                    assert(cw.push(tree@[j2 as int]).drop_last() =~= cw);
                    assert(cw.push(tree@[j2 as int]).last() == tree@[j2 as int]);
                    assert(included_groups(cw.push(tree@[j2 as int]), selection@.closed_sel)
                        == gs_before.push(g));
                    assert(gs_before.push(g).drop_last() =~= gs_before);
                    assert(gs_before.push(g).last() == g);
                    assert(blocks(fmt, gs_before.push(g)) == blocks(fmt, gs_before) + group_block(
                        fmt,
                        g,
                    ));
                    assert(out@ =~= blocks(fmt, a_full) + (blocks(fmt, gs_before) + group_block(
                        fmt,
                        g,
                    )));
                }
            }
            cnt2 = cnt2 + 1;
        } else {
            proof {
                assert(closed_windows(tree@.subrange(0, j2 + 1)) == cw);
            }
        }
        j2 = j2 + 1;
    }
    proof {
        assert(tree@.subrange(0, tree@.len() as int) =~= tree@);
        lemma_blocks_add(fmt, a_full, b_full);
    }
    out
}

/// Renders the groups the selection includes as a document in `format`.
///
/// `groups` must be the extraction of `tree`, which pins the group names and
/// indexes the selection addresses. Open groups come first, both partitions
/// in document order; a selection resolving to zero groups gives the
/// format's valid empty document. Rendering never fails for a supported
/// format.
pub fn render(
    tree: &SessionTree,
    groups: &AllTabGroups,
    selection: &GenerateOptions,
    format: FormatInfo,
) -> (r: Result<Vec<u8>, RenderError>)
    requires
        tree@.len() < 0xFFFFFFFFu32,
        groups@.open == groups_of(open_windows(tree@)),
        groups@.closed == groups_of(closed_windows(tree@)),
    ensures
        r is Ok,
        r->Ok_0@ == spec_render(tree@, selection@, format),
{
    let body = render_body(tree, selection, format);
    match format {
        FormatInfo::Html => {
            let mut out: Vec<u8> = Vec::new();
            push_bytes(
                &mut out,
                "<!DOCTYPE html>\n<html>\n<head><meta charset=\"utf-8\"><title>Links</title></head>\n<body>\n".as_bytes(),
            );
            push_bytes(&mut out, body.as_slice());
            push_bytes(&mut out, "</body>\n</html>\n".as_bytes());
            Ok(out)
        },
        FormatInfo::Pdf => Ok(render_pdf_doc(&body)),
        FormatInfo::PlainText => Ok(body),
        FormatInfo::Markdown => Ok(body),
    }
}

/// A selection that resolves to zero groups still renders a syntactically
/// valid, empty document — never an error and never junk.
pub proof fn lemma_render_empty_selection(
    ws: Seq<WindowV>,
    sel: crate::selection::GenerateOptionsV,
    fmt: FormatInfo,
)
    requires
        included_groups(open_windows(ws), sel.open_sel).len() == 0,
        included_groups(closed_windows(ws), sel.closed_sel).len() == 0,
    ensures
        spec_render(ws, sel, fmt) == spec_empty_document(fmt),
{
    assert(included_groups(open_windows(ws), sel.open_sel) + included_groups(
        closed_windows(ws),
        sel.closed_sel,
    ) =~= Seq::<GroupV>::empty());
}

} // verus!
