//! Parser for the decompressed session document.
//!
//! The document is UTF-8 text with objects, arrays, strings and numbers. The
//! parser reads the top-level object's `windows` and `_closedWindows` arrays
//! into the session tree and skips every other field, so unknown or extra
//! fields are tolerated. A window needs a `tabs` array and a tab needs a
//! `url` string; a missing one is `MissingRequiredField`. Any structural
//! violation — a type mismatch on a known field, an unterminated string, an
//! invalid escape, trailing content — is `Malformed`.
//!
//! String escapes accepted: `\"` `\\` `\/` `\n` `\t` `\r` `\b` `\f`.

use vstd::prelude::*;
use vstd::string::StringSliceAdditionalSpecFns;

use crate::bytes_util::{bytes_eq, copy_bytes};
use crate::session::{SessionTree, Tab, TabV, Window, WindowV};

verus! {

/// How the session document can fail to parse.
#[derive(Clone, Copy, Debug, PartialEq, Eq, Structural)]
pub enum ParseError {
    /// A structural violation: bad syntax, a type mismatch on a known field,
    /// or trailing content after the document.
    Malformed,
    /// A window without a `tabs` array, or a tab without a `url` string.
    MissingRequiredField,
}

pub const B_QUOTE: u8 = 34;
pub const B_BACKSLASH: u8 = 92;
pub const B_SLASH: u8 = 47;
pub const B_LBRACE: u8 = 123;
pub const B_RBRACE: u8 = 125;
pub const B_LBRACKET: u8 = 91;
pub const B_RBRACKET: u8 = 93;
pub const B_COLON: u8 = 58;
pub const B_COMMA: u8 = 44;
pub const B_MINUS: u8 = 45;
pub const B_PLUS: u8 = 43;
pub const B_DOT: u8 = 46;

/// Whitespace accepted between syntactic elements.
pub open spec fn is_ws(b: u8) -> bool {
    b == 32 || b == 9 || b == 10 || b == 13
}

pub open spec fn is_digit(b: u8) -> bool {
    48 <= b <= 57
}

/// Number of consecutive whitespace bytes at `pos`.
pub open spec fn ws_count(s: Seq<u8>, pos: int) -> nat
    decreases s.len() - pos,
{
    if pos < 0 || pos >= s.len() {
        0
    } else if is_ws(s[pos]) {
        1 + ws_count(s, pos + 1)
    } else {
        0
    }
}

/// Number of consecutive decimal digits at `pos`.
pub open spec fn digit_count(s: Seq<u8>, pos: int) -> nat
    decreases s.len() - pos,
{
    if pos < 0 || pos >= s.len() {
        0
    } else if is_digit(s[pos]) {
        1 + digit_count(s, pos + 1)
    } else {
        0
    }
}

/// The byte an escape sequence `\c` stands for, or `None` when `c` is not an
/// accepted escape.
pub open spec fn esc_byte(c: u8) -> Option<u8> {
    if c == B_QUOTE {
        Some(B_QUOTE)
    } else if c == B_BACKSLASH {
        Some(B_BACKSLASH)
    } else if c == B_SLASH {
        Some(B_SLASH)
    } else if c == 110 {  // n
        Some(10u8)
    } else if c == 116 {  // t
        Some(9u8)
    } else if c == 114 {  // r
        Some(13u8)
    } else if c == 98 {  // b
        Some(8u8)
    } else if c == 102 {  // f
        Some(12u8)
    } else {
        None
    }
}

/// The rest of a string after its opening quote: the decoded bytes and the
/// position after the closing quote.
pub open spec fn spec_str_body(s: Seq<u8>, pos: int, acc: Seq<u8>) -> Result<
    (Seq<u8>, int),
    ParseError,
>
    decreases s.len() - pos,
{
    if pos < 0 || pos >= s.len() {
        Err(ParseError::Malformed)
    } else if s[pos] == B_QUOTE {
        Ok((acc, pos + 1))
    } else if s[pos] == B_BACKSLASH {
        if pos + 1 >= s.len() {
            Err(ParseError::Malformed)
        } else {
            match esc_byte(s[pos + 1]) {
                Some(m) => spec_str_body(s, pos + 2, acc.push(m)),
                None => Err(ParseError::Malformed),
            }
        }
    } else {
        spec_str_body(s, pos + 1, acc.push(s[pos]))
    }
}

/// A number starting at `pos`: optional minus, digits, optional fraction,
/// optional exponent. Returns the position after it.
pub open spec fn spec_skip_number(s: Seq<u8>, pos: int) -> Result<int, ParseError> {
    let p0: int = if 0 <= pos < s.len() && s[pos] == B_MINUS {
        pos + 1
    } else {
        pos
    };
    let d1 = digit_count(s, p0);
    if d1 == 0 {
        Err(ParseError::Malformed)
    } else {
        let p1 = p0 + d1;
        let frac_ok: bool = !(p1 < s.len() && s[p1] == B_DOT) || digit_count(s, p1 + 1) > 0;
        let p2: int = if p1 < s.len() && s[p1] == B_DOT {
            p1 + 1 + digit_count(s, p1 + 1)
        } else {
            p1
        };
        if !frac_ok {
            Err(ParseError::Malformed)
        } else if p2 < s.len() && (s[p2] == 101 || s[p2] == 69) {  // e E
            let ps: int = if p2 + 1 < s.len() && (s[p2 + 1] == B_PLUS || s[p2 + 1] == B_MINUS) {
                p2 + 2
            } else {
                p2 + 1
            };
            let d3 = digit_count(s, ps);
            if d3 == 0 {
                Err(ParseError::Malformed)
            } else {
                Ok(ps + d3)
            }
        } else {
            Ok(p2)
        }
    }
}

/// Any value starting at `pos`, skipped: returns the position after it.
pub open spec fn spec_skip_value(s: Seq<u8>, pos: int) -> Result<int, ParseError>
    decreases s.len() - pos, 0int,
{
    if pos < 0 || pos >= s.len() {
        Err(ParseError::Malformed)
    } else if is_ws(s[pos]) {
        spec_skip_value(s, pos + 1)
    } else if s[pos] == B_LBRACE {
        spec_skip_obj(s, pos + 1, false)
    } else if s[pos] == B_LBRACKET {
        spec_skip_arr(s, pos + 1, false)
    } else if s[pos] == B_QUOTE {
        match spec_str_body(s, pos + 1, Seq::<u8>::empty()) {
            Ok((v, p)) => Ok(p),
            Err(e) => Err(e),
        }
    } else if s[pos] == B_MINUS || is_digit(s[pos]) {
        spec_skip_number(s, pos)
    } else if s[pos] == 116 {  // true
        if pos + 4 <= s.len() && s[pos + 1] == 114 && s[pos + 2] == 117 && s[pos + 3] == 101 {
            Ok(pos + 4)
        } else {
            Err(ParseError::Malformed)
        }
    } else if s[pos] == 102 {  // false
        if pos + 5 <= s.len() && s[pos + 1] == 97 && s[pos + 2] == 108 && s[pos + 3] == 115 && s[
            pos + 4
        ] == 101 {
            Ok(pos + 5)
        } else {
            Err(ParseError::Malformed)
        }
    } else if s[pos] == 110 {  // null
        if pos + 4 <= s.len() && s[pos + 1] == 117 && s[pos + 2] == 108 && s[pos + 3] == 108 {
            Ok(pos + 4)
        } else {
            Err(ParseError::Malformed)
        }
    } else {
        Err(ParseError::Malformed)
    }
}

/// The rest of an array after its opening bracket, skipped. `after_item` is
/// true when the next element must be preceded by a comma.
pub open spec fn spec_skip_arr(s: Seq<u8>, pos: int, after_item: bool) -> Result<int, ParseError>
    decreases s.len() - pos, 1int,
{
    if pos < 0 || pos >= s.len() {
        Err(ParseError::Malformed)
    } else if is_ws(s[pos]) {
        spec_skip_arr(s, pos + 1, after_item)
    } else if s[pos] == B_RBRACKET {
        Ok(pos + 1)
    } else if after_item {
        if s[pos] == B_COMMA {
            spec_skip_arr(s, pos + 1, false)
        } else {
            Err(ParseError::Malformed)
        }
    } else {
        match spec_skip_value(s, pos) {
            Ok(p) => if pos < p <= s.len() {
                spec_skip_arr(s, p, true)
            } else {
                Err(ParseError::Malformed)
            },
            Err(e) => Err(e),
        }
    }
}

/// The rest of an object after its opening brace, skipped.
pub open spec fn spec_skip_obj(s: Seq<u8>, pos: int, after_item: bool) -> Result<int, ParseError>
    decreases s.len() - pos, 1int,
{
    if pos < 0 || pos >= s.len() {
        Err(ParseError::Malformed)
    } else if is_ws(s[pos]) {
        spec_skip_obj(s, pos + 1, after_item)
    } else if s[pos] == B_RBRACE {
        Ok(pos + 1)
    } else if after_item {
        if s[pos] == B_COMMA {
            spec_skip_obj(s, pos + 1, false)
        } else {
            Err(ParseError::Malformed)
        }
    } else if s[pos] != B_QUOTE {
        Err(ParseError::Malformed)
    } else {
        match spec_str_body(s, pos + 1, Seq::<u8>::empty()) {
            Err(e) => Err(e),
            Ok((k, p1)) => if pos < p1 <= s.len() {
                let pc = p1 + ws_count(s, p1);
                if pc >= s.len() || s[pc] != B_COLON {
                    Err(ParseError::Malformed)
                } else {
                    match spec_skip_value(s, pc + 1) {
                        Ok(p2) => if pos < p2 <= s.len() {
                            spec_skip_obj(s, p2, true)
                        } else {
                            Err(ParseError::Malformed)
                        },
                        Err(e) => Err(e),
                    }
                }
            } else {
                Err(ParseError::Malformed)
            },
        }
    }
}

/// Position of the value of an object member, after the key at `key_end` and
/// its colon, or `Malformed` when the colon is missing.
pub open spec fn spec_member_value_pos(s: Seq<u8>, key_end: int) -> Result<int, ParseError> {
    let pc = key_end + ws_count(s, key_end);
    if pc >= s.len() || s[pc] != B_COLON {
        Err(ParseError::Malformed)
    } else {
        Ok(pc + 1)
    }
}

/// The fields of one tab object after its opening brace. Unknown fields are
/// skipped; `url` and `title` must be strings; the title falls back to the
/// URL; a missing `url` is `MissingRequiredField`.
pub open spec fn spec_tab_fields(
    s: Seq<u8>,
    pos: int,
    url: Option<Seq<u8>>,
    title: Option<Seq<u8>>,
    after_item: bool,
) -> Result<(TabV, int), ParseError>
    decreases s.len() - pos, 2int,
{
    if pos < 0 || pos >= s.len() {
        Err(ParseError::Malformed)
    } else if is_ws(s[pos]) {
        spec_tab_fields(s, pos + 1, url, title, after_item)
    } else if s[pos] == B_RBRACE {
        match url {
            None => Err(ParseError::MissingRequiredField),
            Some(u) => Ok(
                (
                    TabV {
                        url: u,
                        title: match title {
                            Some(t) => t,
                            None => u,
                        },
                    },
                    pos + 1,
                ),
            ),
        }
    } else if after_item {
        if s[pos] == B_COMMA {
            spec_tab_fields(s, pos + 1, url, title, false)
        } else {
            Err(ParseError::Malformed)
        }
    } else if s[pos] != B_QUOTE {
        Err(ParseError::Malformed)
    } else {
        match spec_str_body(s, pos + 1, Seq::<u8>::empty()) {
            Err(e) => Err(e),
            Ok((k, p1)) => if pos < p1 <= s.len() {
                match spec_member_value_pos(s, p1) {
                    Err(e) => Err(e),
                    Ok(pv) => if k == "url".spec_bytes() || k == "title".spec_bytes() {
                        let pv2 = pv + ws_count(s, pv);
                        if pv2 >= s.len() || s[pv2] != B_QUOTE {
                            Err(ParseError::Malformed)
                        } else {
                            match spec_str_body(s, pv2 + 1, Seq::<u8>::empty()) {
                                Err(e) => Err(e),
                                Ok((v, p2)) => if pos < p2 <= s.len() {
                                    if k == "url".spec_bytes() {
                                        spec_tab_fields(s, p2, Some(v), title, true)
                                    } else {
                                        spec_tab_fields(s, p2, url, Some(v), true)
                                    }
                                } else {
                                    Err(ParseError::Malformed)
                                },
                            }
                        }
                    } else {
                        match spec_skip_value(s, pv) {
                            Err(e) => Err(e),
                            Ok(p2) => if pos < p2 <= s.len() {
                                spec_tab_fields(s, p2, url, title, true)
                            } else {
                                Err(ParseError::Malformed)
                            },
                        }
                    },
                }
            } else {
                Err(ParseError::Malformed)
            },
        }
    }
}

/// The rest of a `tabs` array after its opening bracket: every element must
/// be a tab object.
pub open spec fn spec_tabs_list(s: Seq<u8>, pos: int, acc: Seq<TabV>, after_item: bool) -> Result<
    (Seq<TabV>, int),
    ParseError,
>
    decreases s.len() - pos, 3int,
{
    if pos < 0 || pos >= s.len() {
        Err(ParseError::Malformed)
    } else if is_ws(s[pos]) {
        spec_tabs_list(s, pos + 1, acc, after_item)
    } else if s[pos] == B_RBRACKET {
        Ok((acc, pos + 1))
    } else if after_item {
        if s[pos] == B_COMMA {
            spec_tabs_list(s, pos + 1, acc, false)
        } else {
            Err(ParseError::Malformed)
        }
    } else if s[pos] != B_LBRACE {
        Err(ParseError::Malformed)
    } else {
        match spec_tab_fields(s, pos + 1, None, None, false) {
            Err(e) => Err(e),
            Ok((tab, p)) => if pos < p <= s.len() {
                spec_tabs_list(s, p, acc.push(tab), true)
            } else {
                Err(ParseError::Malformed)
            },
        }
    }
}

/// The fields of one window object after its opening brace. `title` must be
/// a string when present and defaults to empty; `tabs` must be an array and
/// is required; unknown fields are skipped.
pub open spec fn spec_window_fields(
    s: Seq<u8>,
    pos: int,
    open_w: bool,
    title: Seq<u8>,
    tabs: Option<Seq<TabV>>,
    after_item: bool,
) -> Result<(WindowV, int), ParseError>
    decreases s.len() - pos, 4int,
{
    if pos < 0 || pos >= s.len() {
        Err(ParseError::Malformed)
    } else if is_ws(s[pos]) {
        spec_window_fields(s, pos + 1, open_w, title, tabs, after_item)
    } else if s[pos] == B_RBRACE {
        match tabs {
            None => Err(ParseError::MissingRequiredField),
            Some(t) => Ok((WindowV { title, open: open_w, tabs: t }, pos + 1)),
        }
    } else if after_item {
        if s[pos] == B_COMMA {
            spec_window_fields(s, pos + 1, open_w, title, tabs, false)
        } else {
            Err(ParseError::Malformed)
        }
    } else if s[pos] != B_QUOTE {
        Err(ParseError::Malformed)
    } else {
        match spec_str_body(s, pos + 1, Seq::<u8>::empty()) {
            Err(e) => Err(e),
            Ok((k, p1)) => if pos < p1 <= s.len() {
                match spec_member_value_pos(s, p1) {
                    Err(e) => Err(e),
                    Ok(pv) => if k == "title".spec_bytes() {
                        let pv2 = pv + ws_count(s, pv);
                        if pv2 >= s.len() || s[pv2] != B_QUOTE {
                            Err(ParseError::Malformed)
                        } else {
                            match spec_str_body(s, pv2 + 1, Seq::<u8>::empty()) {
                                Err(e) => Err(e),
                                Ok((v, p2)) => if pos < p2 <= s.len() {
                                    spec_window_fields(s, p2, open_w, v, tabs, true)
                                } else {
                                    Err(ParseError::Malformed)
                                },
                            }
                        }
                    } else if k == "tabs".spec_bytes() {
                        let pv2 = pv + ws_count(s, pv);
                        if pv2 >= s.len() || s[pv2] != B_LBRACKET {
                            Err(ParseError::Malformed)
                        } else {
                            match spec_tabs_list(s, pv2 + 1, Seq::<TabV>::empty(), false) {
                                Err(e) => Err(e),
                                Ok((ts, p2)) => if pos < p2 <= s.len() {
                                    spec_window_fields(s, p2, open_w, title, Some(ts), true)
                                } else {
                                    Err(ParseError::Malformed)
                                },
                            }
                        }
                    } else {
                        match spec_skip_value(s, pv) {
                            Err(e) => Err(e),
                            Ok(p2) => if pos < p2 <= s.len() {
                                spec_window_fields(s, p2, open_w, title, tabs, true)
                            } else {
                                Err(ParseError::Malformed)
                            },
                        }
                    },
                }
            } else {
                Err(ParseError::Malformed)
            },
        }
    }
}

/// The rest of a windows array after its opening bracket: every element must
/// be a window object, tagged open or closed after `open_w`.
pub open spec fn spec_windows_list(
    s: Seq<u8>,
    pos: int,
    open_w: bool,
    acc: Seq<WindowV>,
    after_item: bool,
) -> Result<(Seq<WindowV>, int), ParseError>
    decreases s.len() - pos, 5int,
{
    if pos < 0 || pos >= s.len() {
        Err(ParseError::Malformed)
    } else if is_ws(s[pos]) {
        spec_windows_list(s, pos + 1, open_w, acc, after_item)
    } else if s[pos] == B_RBRACKET {
        Ok((acc, pos + 1))
    } else if after_item {
        if s[pos] == B_COMMA {
            spec_windows_list(s, pos + 1, open_w, acc, false)
        } else {
            Err(ParseError::Malformed)
        }
    } else if s[pos] != B_LBRACE {
        Err(ParseError::Malformed)
    } else {
        match spec_window_fields(s, pos + 1, open_w, Seq::<u8>::empty(), None, false) {
            Err(e) => Err(e),
            Ok((w, p)) => if pos < p <= s.len() {
                spec_windows_list(s, p, open_w, acc.push(w), true)
            } else {
                Err(ParseError::Malformed)
            },
        }
    }
}

/// The fields of the top-level object after its opening brace: `windows` and
/// `_closedWindows` are arrays of window objects, everything else is skipped.
pub open spec fn spec_session_fields(
    s: Seq<u8>,
    pos: int,
    open_ws: Seq<WindowV>,
    closed_ws: Seq<WindowV>,
    after_item: bool,
) -> Result<((Seq<WindowV>, Seq<WindowV>), int), ParseError>
    decreases s.len() - pos, 6int,
{
    if pos < 0 || pos >= s.len() {
        Err(ParseError::Malformed)
    } else if is_ws(s[pos]) {
        spec_session_fields(s, pos + 1, open_ws, closed_ws, after_item)
    } else if s[pos] == B_RBRACE {
        Ok(((open_ws, closed_ws), pos + 1))
    } else if after_item {
        if s[pos] == B_COMMA {
            spec_session_fields(s, pos + 1, open_ws, closed_ws, false)
        } else {
            Err(ParseError::Malformed)
        }
    } else if s[pos] != B_QUOTE {
        Err(ParseError::Malformed)
    } else {
        match spec_str_body(s, pos + 1, Seq::<u8>::empty()) {
            Err(e) => Err(e),
            Ok((k, p1)) => if pos < p1 <= s.len() {
                match spec_member_value_pos(s, p1) {
                    Err(e) => Err(e),
                    Ok(pv) => if k == "windows".spec_bytes() || k == "_closedWindows".spec_bytes() {
                        let pv2 = pv + ws_count(s, pv);
                        if pv2 >= s.len() || s[pv2] != B_LBRACKET {
                            Err(ParseError::Malformed)
                        } else {
                            let open_arr = k == "windows".spec_bytes();
                            match spec_windows_list(
                                s,
                                pv2 + 1,
                                open_arr,
                                Seq::<WindowV>::empty(),
                                false,
                            ) {
                                Err(e) => Err(e),
                                Ok((ws, p2)) => if pos < p2 <= s.len() {
                                    if open_arr {
                                        spec_session_fields(s, p2, ws, closed_ws, true)
                                    } else {
                                        spec_session_fields(s, p2, open_ws, ws, true)
                                    }
                                } else {
                                    Err(ParseError::Malformed)
                                },
                            }
                        }
                    } else {
                        match spec_skip_value(s, pv) {
                            Err(e) => Err(e),
                            Ok(p2) => if pos < p2 <= s.len() {
                                spec_session_fields(s, p2, open_ws, closed_ws, true)
                            } else {
                                Err(ParseError::Malformed)
                            },
                        }
                    },
                }
            } else {
                Err(ParseError::Malformed)
            },
        }
    }
}

/// What `parse` returns on `s`: the windows of the session, the open ones
/// first, each tagged with its origin.
pub open spec fn spec_parse(s: Seq<u8>) -> Result<Seq<WindowV>, ParseError> {
    let p0: int = ws_count(s, 0) as int;
    if p0 >= s.len() || s[p0] != B_LBRACE {
        Err(ParseError::Malformed)
    } else {
        match spec_session_fields(s, p0 + 1, Seq::<WindowV>::empty(), Seq::<WindowV>::empty(), false) {
            Err(e) => Err(e),
            Ok(((open_ws, closed_ws), p)) => if p + ws_count(s, p) == s.len() {
                Ok(open_ws + closed_ws)
            } else {
                Err(ParseError::Malformed)
            },
        }
    }
}

/// View of an optional byte buffer.
pub open spec fn opt_bytes_view(o: Option<Vec<u8>>) -> Option<Seq<u8>> {
    match o {
        Some(v) => Some(v@),
        None => None,
    }
}

/// Skips whitespace: the first position at or after `pos` holding none.
fn ws_run(s: &Vec<u8>, pos: usize) -> (p: usize)
    requires
        pos <= s@.len(),
    ensures
        p == pos + ws_count(s@, pos as int),
        pos <= p <= s@.len(),
        p == s@.len() || !is_ws(s@[p as int]),
{
    let mut p = pos;
    while p < s.len() && (s[p] == 32 || s[p] == 9 || s[p] == 10 || s[p] == 13)
        invariant
            pos <= p <= s@.len(),
            ws_count(s@, pos as int) == (p - pos) + ws_count(s@, p as int),
        decreases s@.len() - p,
    {
        p = p + 1;
    }
    p
}

/// Skips decimal digits: the first position at or after `pos` holding none.
fn digit_run(s: &Vec<u8>, pos: usize) -> (p: usize)
    requires
        pos <= s@.len(),
    ensures
        p == pos + digit_count(s@, pos as int),
        pos <= p <= s@.len(),
        p == s@.len() || !is_digit(s@[p as int]),
{
    let mut p = pos;
    while p < s.len() && 48 <= s[p] && s[p] <= 57
        invariant
            pos <= p <= s@.len(),
            digit_count(s@, pos as int) == (p - pos) + digit_count(s@, p as int),
        decreases s@.len() - p,
    {
        p = p + 1;
    }
    p
}

/// Decodes the string body whose opening quote sits just before `pos0`.
fn parse_str_body(s: &Vec<u8>, pos0: usize) -> (r: Result<(Vec<u8>, usize), ParseError>)
    requires
        pos0 <= s@.len(),
    ensures
        match r {
            Ok((v, p)) => {
                &&& spec_str_body(s@, pos0 as int, Seq::<u8>::empty()) == Ok::<
                    (Seq<u8>, int),
                    ParseError,
                >((v@, p as int))
                &&& pos0 < p <= s@.len()
            },
            Err(e) => spec_str_body(s@, pos0 as int, Seq::<u8>::empty()) == Err::<
                (Seq<u8>, int),
                ParseError,
            >(e),
        },
{
    let mut acc: Vec<u8> = Vec::new();
    let mut p = pos0;
    loop
        invariant
            pos0 <= p <= s@.len(),
            spec_str_body(s@, pos0 as int, Seq::<u8>::empty()) == spec_str_body(
                s@,
                p as int,
                acc@,
            ),
        decreases s@.len() - p,
    {
        if p >= s.len() {
            return Err(ParseError::Malformed);
        }
        let b = s[p];
        if b == B_QUOTE {
            return Ok((acc, p + 1));
        }
        if b == B_BACKSLASH {
            if p + 1 >= s.len() {
                return Err(ParseError::Malformed);
            }
            let c = s[p + 1];
            let m: u8;
            if c == B_QUOTE {
                m = B_QUOTE;
            } else if c == B_BACKSLASH {
                m = B_BACKSLASH;
            } else if c == B_SLASH {
                m = B_SLASH;
            } else if c == 110 {
                m = 10;
            } else if c == 116 {
                m = 9;
            } else if c == 114 {
                m = 13;
            } else if c == 98 {
                m = 8;
            } else if c == 102 {
                m = 12;
            } else {
                proof {
                    assert(esc_byte(c) is None);
                }
                return Err(ParseError::Malformed);
            }
            proof {
                assert(esc_byte(c) == Some(m));
            }
            acc.push(m);
            p = p + 2;
        } else {
            acc.push(b);
            p = p + 1;
        }
    }
}

/// Skips a number starting at `pos`.
fn skip_number_x(s: &Vec<u8>, pos: usize) -> (r: Result<usize, ParseError>)
    requires
        pos <= s@.len(),
    ensures
        match r {
            Ok(p) => spec_skip_number(s@, pos as int) == Ok::<int, ParseError>(p as int) && pos < p
                <= s@.len(),
            Err(e) => spec_skip_number(s@, pos as int) == Err::<int, ParseError>(e),
        },
{
    let p0 = if pos < s.len() && s[pos] == B_MINUS {
        pos + 1
    } else {
        pos
    };
    let p1 = digit_run(s, p0);
    if p1 == p0 {
        return Err(ParseError::Malformed);
    }
    let mut p2 = p1;
    if p1 < s.len() && s[p1] == B_DOT {
        let pf = digit_run(s, p1 + 1);
        if pf == p1 + 1 {
            return Err(ParseError::Malformed);
        }
        p2 = pf;
    }
    if p2 < s.len() && (s[p2] == 101 || s[p2] == 69) {
        let ps = if p2 + 1 < s.len() && (s[p2 + 1] == B_PLUS || s[p2 + 1] == B_MINUS) {
            p2 + 2
        } else {
            p2 + 1
        };
        let pe = digit_run(s, ps);
        if pe == ps {
            return Err(ParseError::Malformed);
        }
        Ok(pe)
    } else {
        Ok(p2)
    }
}

/// Skips one value starting at `pos`.
fn skip_value_x(s: &Vec<u8>, pos: usize) -> (r: Result<usize, ParseError>)
    requires
        pos <= s@.len(),
    ensures
        match r {
            Ok(p) => spec_skip_value(s@, pos as int) == Ok::<int, ParseError>(p as int) && pos < p
                <= s@.len(),
            Err(e) => spec_skip_value(s@, pos as int) == Err::<int, ParseError>(e),
        },
    decreases s@.len() - pos, 0int,
{
    let p = ws_run(s, pos);
    proof {
        assert(spec_skip_value(s@, pos as int) == spec_skip_value(s@, p as int)) by {
            lemma_skip_value_ws(s@, pos as int);
        }
    }
    if p >= s.len() {
        return Err(ParseError::Malformed);
    }
    let b = s[p];
    if b == B_LBRACE {
        skip_obj_x(s, p + 1, false)
    } else if b == B_LBRACKET {
        skip_arr_x(s, p + 1, false)
    } else if b == B_QUOTE {
        match parse_str_body(s, p + 1) {
            Ok((_v, p2)) => Ok(p2),
            Err(e) => Err(e),
        }
    } else if b == B_MINUS || (48 <= b && b <= 57) {
        skip_number_x(s, p)
    } else if b == 116 {
        if s.len() - p >= 4 && s[p + 1] == 114 && s[p + 2] == 117 && s[p + 3] == 101 {
            Ok(p + 4)
        } else {
            Err(ParseError::Malformed)
        }
    } else if b == 102 {
        if s.len() - p >= 5 && s[p + 1] == 97 && s[p + 2] == 108 && s[p + 3] == 115 && s[p + 4]
            == 101 {
            Ok(p + 5)
        } else {
            Err(ParseError::Malformed)
        }
    } else if b == 110 {
        if s.len() - p >= 4 && s[p + 1] == 117 && s[p + 2] == 108 && s[p + 3] == 108 {
            Ok(p + 4)
        } else {
            Err(ParseError::Malformed)
        }
    } else {
        Err(ParseError::Malformed)
    }
}

/// Whitespace in front of a value does not change what `spec_skip_value`
/// returns.
proof fn lemma_skip_value_ws(s: Seq<u8>, pos: int)
    requires
        0 <= pos <= s.len(),
    ensures
        spec_skip_value(s, pos) == spec_skip_value(s, pos + ws_count(s, pos)),
    decreases s.len() - pos,
{
    if pos < s.len() && is_ws(s[pos]) {
        lemma_skip_value_ws(s, pos + 1);
    }
}

/// Skips the rest of an array, after its opening bracket.
fn skip_arr_x(s: &Vec<u8>, pos: usize, after_item: bool) -> (r: Result<usize, ParseError>)
    requires
        pos <= s@.len(),
    ensures
        match r {
            Ok(p) => spec_skip_arr(s@, pos as int, after_item) == Ok::<int, ParseError>(p as int)
                && pos <= p <= s@.len(),
            Err(e) => spec_skip_arr(s@, pos as int, after_item) == Err::<int, ParseError>(e),
        },
    decreases s@.len() - pos, 1int,
{
    let mut p = pos;
    let mut after = after_item;
    loop
        invariant
            pos <= p <= s@.len(),
            spec_skip_arr(s@, pos as int, after_item) == spec_skip_arr(s@, p as int, after),
        decreases s@.len() - p, 1int,
    {
        if p >= s.len() {
            return Err(ParseError::Malformed);
        }
        let b = s[p];
        if b == 32 || b == 9 || b == 10 || b == 13 {
            p = p + 1;
        } else if b == B_RBRACKET {
            return Ok(p + 1);
        } else if after {
            if b == B_COMMA {
                p = p + 1;
                after = false;
            } else {
                return Err(ParseError::Malformed);
            }
        } else {
            match skip_value_x(s, p) {
                Ok(p2) => {
                    p = p2;
                    after = true;
                },
                Err(e) => {
                    return Err(e);
                },
            }
        }
    }
}

/// Skips the rest of an object, after its opening brace.
fn skip_obj_x(s: &Vec<u8>, pos: usize, after_item: bool) -> (r: Result<usize, ParseError>)
    requires
        pos <= s@.len(),
    ensures
        match r {
            Ok(p) => spec_skip_obj(s@, pos as int, after_item) == Ok::<int, ParseError>(p as int)
                && pos <= p <= s@.len(),
            Err(e) => spec_skip_obj(s@, pos as int, after_item) == Err::<int, ParseError>(e),
        },
    decreases s@.len() - pos, 1int,
{
    let mut p = pos;
    let mut after = after_item;
    loop
        invariant
            pos <= p <= s@.len(),
            spec_skip_obj(s@, pos as int, after_item) == spec_skip_obj(s@, p as int, after),
        decreases s@.len() - p, 1int,
    {
        if p >= s.len() {
            return Err(ParseError::Malformed);
        }
        let b = s[p];
        if b == 32 || b == 9 || b == 10 || b == 13 {
            p = p + 1;
        } else if b == B_RBRACE {
            return Ok(p + 1);
        } else if after {
            if b == B_COMMA {
                p = p + 1;
                after = false;
            } else {
                return Err(ParseError::Malformed);
            }
        } else if b != B_QUOTE {
            return Err(ParseError::Malformed);
        } else {
            let ghost p_before = p as int;
            match parse_str_body(s, p + 1) {
                Err(e) => {
                    return Err(e);
                },
                Ok((_k, p1)) => {
                    let pc = ws_run(s, p1);
                    if pc >= s.len() || s[pc] != B_COLON {
                        return Err(ParseError::Malformed);
                    }
                    match skip_value_x(s, pc + 1) {
                        Err(e) => {
                            return Err(e);
                        },
                        Ok(p2) => {
                            p = p2;
                            after = true;
                        },
                    }
                },
            }
        }
    }
}

/// Parses the fields of one tab object, after its opening brace.
fn parse_tab_obj(s: &Vec<u8>, pos0: usize) -> (r: Result<(Tab, usize), ParseError>)
    requires
        pos0 <= s@.len(),
    ensures
        match r {
            Ok((t, p)) => spec_tab_fields(s@, pos0 as int, None, None, false) == Ok::<
                (TabV, int),
                ParseError,
            >((t@, p as int)) && pos0 <= p <= s@.len(),
            Err(e) => spec_tab_fields(s@, pos0 as int, None, None, false) == Err::<
                (TabV, int),
                ParseError,
            >(e),
        },
{
    let mut url: Option<Vec<u8>> = None;
    let mut title: Option<Vec<u8>> = None;
    let mut p = pos0;
    let mut after = false;
    loop
        invariant
            pos0 <= p <= s@.len(),
            spec_tab_fields(s@, pos0 as int, None, None, false) == spec_tab_fields(
                s@,
                p as int,
                opt_bytes_view(url),
                opt_bytes_view(title),
                after,
            ),
        decreases s@.len() - p,
    {
        if p >= s.len() {
            return Err(ParseError::Malformed);
        }
        let b = s[p];
        if b == 32 || b == 9 || b == 10 || b == 13 {
            p = p + 1;
        } else if b == B_RBRACE {
            match url {
                None => {
                    return Err(ParseError::MissingRequiredField);
                },
                Some(u) => {
                    let t: Vec<u8> = match title {
                        Some(tt) => tt,
                        None => copy_bytes(&u),
                    };
                    return Ok((Tab { url: u, title: t }, p + 1));
                },
            }
        } else if after {
            if b == B_COMMA {
                p = p + 1;
                after = false;
            } else {
                return Err(ParseError::Malformed);
            }
        } else if b != B_QUOTE {
            return Err(ParseError::Malformed);
        } else {
            match parse_str_body(s, p + 1) {
                Err(e) => {
                    return Err(e);
                },
                Ok((k, p1)) => {
                    let pc = ws_run(s, p1);
                    if pc >= s.len() || s[pc] != B_COLON {
                        return Err(ParseError::Malformed);
                    }
                    let pv = pc + 1;
                    let is_url = bytes_eq(k.as_slice(), "url".as_bytes());
                    let is_title = bytes_eq(k.as_slice(), "title".as_bytes());
                    if is_url || is_title {
                        let pv2 = ws_run(s, pv);
                        if pv2 >= s.len() || s[pv2] != B_QUOTE {
                            return Err(ParseError::Malformed);
                        }
                        match parse_str_body(s, pv2 + 1) {
                            Err(e) => {
                                return Err(e);
                            },
                            Ok((v, p2)) => {
                                if is_url {
                                    url = Some(v);
                                } else {
                                    title = Some(v);
                                }
                                after = true;
                                p = p2;
                            },
                        }
                    } else {
                        match skip_value_x(s, pv) {
                            Err(e) => {
                                return Err(e);
                            },
                            Ok(p2) => {
                                after = true;
                                p = p2;
                            },
                        }
                    }
                },
            }
        }
    }
}

/// Parses the rest of a `tabs` array, after its opening bracket.
fn parse_tabs_arr(s: &Vec<u8>, pos0: usize) -> (r: Result<(Vec<Tab>, usize), ParseError>)
    requires
        pos0 <= s@.len(),
    ensures
        match r {
            Ok((ts, p)) => spec_tabs_list(s@, pos0 as int, Seq::<TabV>::empty(), false) == Ok::<
                (Seq<TabV>, int),
                ParseError,
            >((ts@.map_values(|t: Tab| t@), p as int)) && pos0 <= p <= s@.len(),
            Err(e) => spec_tabs_list(s@, pos0 as int, Seq::<TabV>::empty(), false) == Err::<
                (Seq<TabV>, int),
                ParseError,
            >(e),
        },
{
    let mut acc: Vec<Tab> = Vec::new();
    let mut p = pos0;
    let mut after = false;
    proof {
        assert(acc@.map_values(|t: Tab| t@) =~= Seq::<TabV>::empty());
    }
    loop
        invariant
            pos0 <= p <= s@.len(),
            spec_tabs_list(s@, pos0 as int, Seq::<TabV>::empty(), false) == spec_tabs_list(
                s@,
                p as int,
                acc@.map_values(|t: Tab| t@),
                after,
            ),
        decreases s@.len() - p,
    {
        if p >= s.len() {
            return Err(ParseError::Malformed);
        }
        let b = s[p];
        if b == 32 || b == 9 || b == 10 || b == 13 {
            p = p + 1;
        } else if b == B_RBRACKET {
            return Ok((acc, p + 1));
        } else if after {
            if b == B_COMMA {
                p = p + 1;
                after = false;
            } else {
                return Err(ParseError::Malformed);
            }
        } else if b != B_LBRACE {
            return Err(ParseError::Malformed);
        } else {
            match parse_tab_obj(s, p + 1) {
                Err(e) => {
                    return Err(e);
                },
                Ok((tab, p2)) => {
                    let ghost old_acc = acc@;
                    acc.push(tab);
                    proof {
                        assert(acc@.map_values(|t: Tab| t@) =~= old_acc.map_values(
                            |t: Tab| t@,
                        ).push(acc@[old_acc.len() as int]@));
                    }
                    after = true;
                    p = p2;
                },
            }
        }
    }
}

/// Parses the fields of one window object, after its opening brace.
fn parse_window_obj(s: &Vec<u8>, pos0: usize, open_w: bool) -> (r: Result<
    (Window, usize),
    ParseError,
>)
    requires
        pos0 <= s@.len(),
    ensures
        match r {
            Ok((w, p)) => spec_window_fields(
                s@,
                pos0 as int,
                open_w,
                Seq::<u8>::empty(),
                None,
                false,
            ) == Ok::<(WindowV, int), ParseError>((w@, p as int)) && pos0 <= p <= s@.len(),
            Err(e) => spec_window_fields(
                s@,
                pos0 as int,
                open_w,
                Seq::<u8>::empty(),
                None,
                false,
            ) == Err::<(WindowV, int), ParseError>(e),
        },
{
    let mut title: Vec<u8> = Vec::new();
    let mut tabs: Option<Vec<Tab>> = None;
    let mut p = pos0;
    let mut after = false;
    loop
        invariant
            pos0 <= p <= s@.len(),
            spec_window_fields(s@, pos0 as int, open_w, Seq::<u8>::empty(), None, false)
                == spec_window_fields(
                s@,
                p as int,
                open_w,
                title@,
                match tabs {
                    Some(ts) => Some(ts@.map_values(|t: Tab| t@)),
                    None => None,
                },
                after,
            ),
        decreases s@.len() - p,
    {
        if p >= s.len() {
            return Err(ParseError::Malformed);
        }
        let b = s[p];
        if b == 32 || b == 9 || b == 10 || b == 13 {
            p = p + 1;
        } else if b == B_RBRACE {
            match tabs {
                None => {
                    return Err(ParseError::MissingRequiredField);
                },
                Some(ts) => {
                    return Ok((Window { title, open: open_w, tabs: ts }, p + 1));
                },
            }
        } else if after {
            if b == B_COMMA {
                p = p + 1;
                after = false;
            } else {
                return Err(ParseError::Malformed);
            }
        } else if b != B_QUOTE {
            return Err(ParseError::Malformed);
        } else {
            match parse_str_body(s, p + 1) {
                Err(e) => {
                    return Err(e);
                },
                Ok((k, p1)) => {
                    let pc = ws_run(s, p1);
                    if pc >= s.len() || s[pc] != B_COLON {
                        return Err(ParseError::Malformed);
                    }
                    let pv = pc + 1;
                    if bytes_eq(k.as_slice(), "title".as_bytes()) {
                        let pv2 = ws_run(s, pv);
                        if pv2 >= s.len() || s[pv2] != B_QUOTE {
                            return Err(ParseError::Malformed);
                        }
                        match parse_str_body(s, pv2 + 1) {
                            Err(e) => {
                                return Err(e);
                            },
                            Ok((v, p2)) => {
                                title = v;
                                after = true;
                                p = p2;
                            },
                        }
                    } else if bytes_eq(k.as_slice(), "tabs".as_bytes()) {
                        let pv2 = ws_run(s, pv);
                        if pv2 >= s.len() || s[pv2] != B_LBRACKET {
                            return Err(ParseError::Malformed);
                        }
                        match parse_tabs_arr(s, pv2 + 1) {
                            Err(e) => {
                                return Err(e);
                            },
                            Ok((ts, p2)) => {
                                tabs = Some(ts);
                                after = true;
                                p = p2;
                            },
                        }
                    } else {
                        match skip_value_x(s, pv) {
                            Err(e) => {
                                return Err(e);
                            },
                            Ok(p2) => {
                                after = true;
                                p = p2;
                            },
                        }
                    }
                },
            }
        }
    }
}

/// Parses the rest of a windows array, after its opening bracket.
fn parse_windows_arr(s: &Vec<u8>, pos0: usize, open_w: bool) -> (r: Result<
    (Vec<Window>, usize),
    ParseError,
>)
    requires
        pos0 <= s@.len(),
    ensures
        match r {
            Ok((ws, p)) => spec_windows_list(
                s@,
                pos0 as int,
                open_w,
                Seq::<WindowV>::empty(),
                false,
            ) == Ok::<(Seq<WindowV>, int), ParseError>((ws@.map_values(|w: Window| w@), p as int))
                && pos0 <= p <= s@.len(),
            Err(e) => spec_windows_list(s@, pos0 as int, open_w, Seq::<WindowV>::empty(), false)
                == Err::<(Seq<WindowV>, int), ParseError>(e),
        },
{
    let mut acc: Vec<Window> = Vec::new();
    let mut p = pos0;
    let mut after = false;
    proof {
        assert(acc@.map_values(|w: Window| w@) =~= Seq::<WindowV>::empty());
    }
    loop
        invariant
            pos0 <= p <= s@.len(),
            spec_windows_list(s@, pos0 as int, open_w, Seq::<WindowV>::empty(), false)
                == spec_windows_list(s@, p as int, open_w, acc@.map_values(|w: Window| w@), after),
        decreases s@.len() - p,
    {
        if p >= s.len() {
            return Err(ParseError::Malformed);
        }
        let b = s[p];
        if b == 32 || b == 9 || b == 10 || b == 13 {
            p = p + 1;
        } else if b == B_RBRACKET {
            return Ok((acc, p + 1));
        } else if after {
            if b == B_COMMA {
                p = p + 1;
                after = false;
            } else {
                return Err(ParseError::Malformed);
            }
        } else if b != B_LBRACE {
            return Err(ParseError::Malformed);
        } else {
            match parse_window_obj(s, p + 1, open_w) {
                Err(e) => {
                    return Err(e);
                },
                Ok((w, p2)) => {
                    let ghost old_acc = acc@;
                    acc.push(w);
                    proof {
                        assert(acc@.map_values(|w: Window| w@) =~= old_acc.map_values(
                            |w: Window| w@,
                        ).push(acc@[old_acc.len() as int]@));
                    }
                    after = true;
                    p = p2;
                },
            }
        }
    }
}

/// Parses the fields of the top-level object, after its opening brace.
fn parse_session_obj(s: &Vec<u8>, pos0: usize) -> (r: Result<
    ((Vec<Window>, Vec<Window>), usize),
    ParseError,
>)
    requires
        pos0 <= s@.len(),
    ensures
        match r {
            Ok(((o, c), p)) => spec_session_fields(
                s@,
                pos0 as int,
                Seq::<WindowV>::empty(),
                Seq::<WindowV>::empty(),
                false,
            ) == Ok::<((Seq<WindowV>, Seq<WindowV>), int), ParseError>(
                ((o@.map_values(|w: Window| w@), c@.map_values(|w: Window| w@)), p as int),
            ) && pos0 <= p <= s@.len(),
            Err(e) => spec_session_fields(
                s@,
                pos0 as int,
                Seq::<WindowV>::empty(),
                Seq::<WindowV>::empty(),
                false,
            ) == Err::<((Seq<WindowV>, Seq<WindowV>), int), ParseError>(e),
        },
{
    let mut open_ws: Vec<Window> = Vec::new();
    let mut closed_ws: Vec<Window> = Vec::new();
    let mut p = pos0;
    let mut after = false;
    proof {
        assert(open_ws@.map_values(|w: Window| w@) =~= Seq::<WindowV>::empty());
        assert(closed_ws@.map_values(|w: Window| w@) =~= Seq::<WindowV>::empty());
    }
    loop
        invariant
            pos0 <= p <= s@.len(),
            spec_session_fields(
                s@,
                pos0 as int,
                Seq::<WindowV>::empty(),
                Seq::<WindowV>::empty(),
                false,
            ) == spec_session_fields(
                s@,
                p as int,
                open_ws@.map_values(|w: Window| w@),
                closed_ws@.map_values(|w: Window| w@),
                after,
            ),
        decreases s@.len() - p,
    {
        if p >= s.len() {
            return Err(ParseError::Malformed);
        }
        let b = s[p];
        if b == 32 || b == 9 || b == 10 || b == 13 {
            p = p + 1;
        } else if b == B_RBRACE {
            return Ok(((open_ws, closed_ws), p + 1));
        } else if after {
            if b == B_COMMA {
                p = p + 1;
                after = false;
            } else {
                return Err(ParseError::Malformed);
            }
        } else if b != B_QUOTE {
            return Err(ParseError::Malformed);
        } else {
            match parse_str_body(s, p + 1) {
                Err(e) => {
                    return Err(e);
                },
                Ok((k, p1)) => {
                    let pc = ws_run(s, p1);
                    if pc >= s.len() || s[pc] != B_COLON {
                        return Err(ParseError::Malformed);
                    }
                    let pv = pc + 1;
                    let is_open = bytes_eq(k.as_slice(), "windows".as_bytes());
                    let is_closed = bytes_eq(k.as_slice(), "_closedWindows".as_bytes());
                    if is_open || is_closed {
                        let pv2 = ws_run(s, pv);
                        if pv2 >= s.len() || s[pv2] != B_LBRACKET {
                            return Err(ParseError::Malformed);
                        }
                        match parse_windows_arr(s, pv2 + 1, is_open) {
                            Err(e) => {
                                return Err(e);
                            },
                            Ok((ws, p2)) => {
                                if is_open {
                                    open_ws = ws;
                                } else {
                                    closed_ws = ws;
                                }
                                after = true;
                                p = p2;
                            },
                        }
                    } else {
                        match skip_value_x(s, pv) {
                            Err(e) => {
                                return Err(e);
                            },
                            Ok(p2) => {
                                after = true;
                                p = p2;
                            },
                        }
                    }
                },
            }
        }
    }
}

/// Interprets the decompressed bytes as a session document and builds the
/// session tree.
///
/// Returns exactly what `spec_parse` says: the windows of the `windows`
/// array, tagged open, followed by those of `_closedWindows`, tagged closed;
/// `MissingRequiredField` when a window has no `tabs` array or a tab no
/// `url`; `Malformed` on any structural violation.
pub fn parse(bytes: &Vec<u8>) -> (r: Result<SessionTree, ParseError>)
    ensures
        match r {
            Ok(t) => spec_parse(bytes@) == Ok::<Seq<WindowV>, ParseError>(t@),
            Err(e) => spec_parse(bytes@) == Err::<Seq<WindowV>, ParseError>(e),
        },
{
    let p0 = ws_run(bytes, 0);
    if p0 >= bytes.len() || bytes[p0] != B_LBRACE {
        return Err(ParseError::Malformed);
    }
    match parse_session_obj(bytes, p0 + 1) {
        Err(e) => Err(e),
        Ok(((mut open_ws, mut closed_ws), p)) => {
            let pe = ws_run(bytes, p);
            if pe != bytes.len() {
                return Err(ParseError::Malformed);
            }
            let ghost o_v = open_ws@.map_values(|w: Window| w@);
            let ghost c_v = closed_ws@.map_values(|w: Window| w@);
            open_ws.append(&mut closed_ws);
            let tree = SessionTree { windows: open_ws };
            proof {
                assert(tree@ =~= o_v + c_v);
            }
            Ok(tree)
        },
    }
}

} // verus!
