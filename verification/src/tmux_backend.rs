//! The decisions of the tmux backend: reading `tmux list-*` output,
//! classifying tmux error messages, detecting an `exit` typed into a pane,
//! and turning terminal input into `send-keys` commands.
use vstd::prelude::*;
use vstd::utf8::encode_utf8;
use crate::text::{
    ascii_lower_seq, chars_eq_str, chars_to_string, contains_str, eq_ignore_ascii_case,
    eq_ignore_ascii_case_str, has_char, has_substring, is_control, is_control_char, lines,
    lines_chars, parse_u16_chars, parse_u64_chars, parse_unsigned, push_char, splitn,
    splitn_chars, str_chars, sub_chars, to_ascii_lowercase_chars, trim, trim_chars,
    contains_char, append_chars, decimal, u64_to_decimal,
};

verus! {

// ---------------------------------------------------------------------------
// Sessions, windows and panes as reported by tmux
// ---------------------------------------------------------------------------

/// A tmux session as tmux lists it.
#[derive(Debug, Clone)]
pub struct TmuxSession {
    pub id: u64,
    pub name: String,
    pub window_count: usize,
    pub attached: bool,
    pub created: Option<u64>,
}

/// The session description handed to the frontend.
#[derive(Debug, Clone)]
pub struct TmuxSessionInfo {
    pub id: u64,
    pub name: String,
    pub window_count: usize,
    pub attached: bool,
    pub created: Option<u64>,
}

impl TmuxSessionInfo {
    /// The description of `s`: every field copied.
    pub fn from(s: &TmuxSession) -> (r: Self)
        ensures
            r.id == s.id,
            r.name@ == s.name@,
            r.window_count == s.window_count,
            r.attached == s.attached,
            r.created == s.created,
    {
        TmuxSessionInfo {
            id: s.id,
            name: s.name.clone(),
            window_count: s.window_count,
            attached: s.attached,
            created: s.created,
        }
    }
}

/// A pane of a tmux window.
#[derive(Debug, Clone)]
pub struct TmuxPaneInfo {
    pub id: u64,
    pub active: bool,
    pub width: u16,
    pub height: u16,
    pub left: u16,
    pub top: u16,
    pub alternate_on: bool,
    pub current_command: Option<String>,
    pub content: String,
}

/// The mathematical value of a [`TmuxPaneInfo`].
pub struct PaneView {
    pub id: u64,
    pub active: bool,
    pub width: u16,
    pub height: u16,
    pub left: u16,
    pub top: u16,
    pub alternate_on: bool,
    pub current_command: Option<Seq<char>>,
    pub content: Seq<char>,
}

impl View for TmuxPaneInfo {
    type V = PaneView;

    open spec fn view(&self) -> PaneView {
        PaneView {
            id: self.id,
            active: self.active,
            width: self.width,
            height: self.height,
            left: self.left,
            top: self.top,
            alternate_on: self.alternate_on,
            current_command: match self.current_command {
                Some(c) => Some(c@),
                None => None,
            },
            content: self.content@,
        }
    }
}

/// A tmux window with its panes.
#[derive(Debug, Clone)]
pub struct TmuxWindowInfo {
    pub id: u64,
    pub name: String,
    pub active: bool,
    pub panes: Vec<TmuxPaneInfo>,
}

// ---------------------------------------------------------------------------
// tmux error messages
// ---------------------------------------------------------------------------

/// `message`, trimmed and in ASCII lower case, as the classifiers read it.
pub open spec fn normalized(message: Seq<char>) -> Seq<char> {
    ascii_lower_seq(trim(message))
}

fn normalize(message: &str) -> (r: Vec<char>)
    ensures
        r@ == normalized(message@),
{
    let v = str_chars(message);
    let t = trim_chars(v.as_slice());
    to_ascii_lowercase_chars(t.as_slice())
}

/// Whether tmux reports that no server is running.
pub open spec fn no_server_message(m: Seq<char>) -> bool {
    let n = normalized(m);
    has_substring(n, "no server running on"@) || has_substring(n, "failed to connect to server"@)
        || has_substring(n, "no sessions"@)
}

/// Whether a tmux error message says that no server is running.
pub fn is_no_tmux_server_error(message: &str) -> (r: bool)
    ensures
        r == no_server_message(message@),
{
    let n = normalize(message);
    contains_str(n.as_slice(), "no server running on") || contains_str(
        n.as_slice(),
        "failed to connect to server",
    ) || contains_str(n.as_slice(), "no sessions")
}

/// Whether a tmux error message says that a window does not exist.
pub fn is_missing_window_error(message: &str) -> (r: bool)
    ensures
        r == (has_substring(normalized(message@), "can't find window"@) || has_substring(
            normalized(message@),
            "no such window"@,
        )),
{
    let n = normalize(message);
    contains_str(n.as_slice(), "can't find window") || contains_str(n.as_slice(), "no such window")
}

/// Whether a tmux error message says that a session does not exist.
pub fn is_missing_session_error(message: &str) -> (r: bool)
    ensures
        r == (has_substring(normalized(message@), "can't find session"@) || has_substring(
            normalized(message@),
            "no such session"@,
        )),
{
    let n = normalize(message);
    contains_str(n.as_slice(), "can't find session") || contains_str(
        n.as_slice(),
        "no such session",
    )
}

/// Whether a tmux error message says that a pane does not exist.
pub fn is_missing_pane_error(message: &str) -> (r: bool)
    ensures
        r == (has_substring(normalized(message@), "can't find pane"@) || has_substring(
            normalized(message@),
            "no such pane"@,
        )),
{
    let n = normalize(message);
    contains_str(n.as_slice(), "can't find pane") || contains_str(n.as_slice(), "no such pane")
}

// ---------------------------------------------------------------------------
// Detecting `exit` typed into a pane
// ---------------------------------------------------------------------------

/// Whether one input chunk ends the shell: it holds Ctrl-D, or it is the
/// word `exit` (in any ASCII case, with surrounding whitespace) followed by
/// Enter.
pub open spec fn forces_kill(data: Seq<char>) -> bool {
    has_char(data, '\u{4}') || ((has_char(data, '\r') || has_char(data, '\n')) && ascii_lower_seq(
        trim(data),
    ) == "exit"@)
}

/// Whether one input chunk, taken on its own, ends the shell.
pub fn should_force_kill_session_on_input(data: &str) -> (r: bool)
    ensures
        r == forces_kill(data@),
{
    let v = str_chars(data);
    if contains_char(v.as_slice(), '\u{4}') {
        return true;
    }
    if !(contains_char(v.as_slice(), '\r') || contains_char(v.as_slice(), '\n')) {
        return false;
    }
    let t = trim_chars(v.as_slice());
    let l = to_ascii_lowercase_chars(t.as_slice());
    chars_eq_str(l.as_slice(), "exit")
}

/// The line typed so far after one more character, and whether that
/// character ends the shell.
pub open spec fn exit_step(buf: Seq<char>, ch: char) -> (Seq<char>, bool) {
    if ch == '\u{4}' {
        (Seq::empty(), true)
    } else if ch == '\r' || ch == '\n' {
        (Seq::empty(), eq_ignore_ascii_case(trim(buf), "exit"@))
    } else if ch == '\u{7f}' {
        (
            if buf.len() > 0 {
                buf.drop_last()
            } else {
                buf
            },
            false,
        )
    } else if ch == '\u{3}' || ch == '\u{1a}' {
        (Seq::empty(), false)
    } else if ch == '\t' || is_control(ch) {
        (buf, false)
    } else {
        (buf.push(ch), false)
    }
}

/// The line typed so far after the characters of `data`, and whether one of
/// them ended the shell.
pub open spec fn exit_scan(buf: Seq<char>, data: Seq<char>) -> (Seq<char>, bool)
    decreases data.len(),
{
    if data.len() == 0 {
        (buf, false)
    } else {
        let (b1, k1) = exit_step(buf, data[0]);
        let (b2, k2) = exit_scan(b1, data.drop_first());
        (b2, k1 || k2)
    }
}

/// `update_exit_input_line` on the line `buf` typed so far: the line kept
/// afterwards (cleared once it exceeds 1024 bytes) and the verdict.
pub open spec fn exit_update(buf: Seq<char>, data: Seq<char>) -> (Seq<char>, bool) {
    let (b, k) = exit_scan(buf, data);
    (
        if encode_utf8(b).len() > 1024 {
            Seq::empty()
        } else {
            b
        },
        k,
    )
}

/// Removes the last character of a string (std `String::pop`).
#[verifier::external_body]
fn pop_char(s: &mut String) -> (r: Option<char>)
    ensures
        old(s)@.len() > 0 ==> r == Some(old(s)@.last()) && final(s)@ == old(s)@.drop_last(),
        old(s)@.len() == 0 ==> r is None && final(s)@ == old(s)@,
{
    s.pop()
}

/// Tracks the line typed into a pane across input chunks; returns whether
/// this chunk completes an `exit` line or holds Ctrl-D.
pub fn update_exit_input_line(buffer: &mut String, data: &str) -> (r: bool)
    ensures
        (final(buffer)@, r) == exit_update(old(buffer)@, data@),
{
    let chars = str_chars(data);
    let mut should_force_kill = false;
    let mut i: usize = 0;
    assert(chars@.skip(0) =~= chars@);
    while i < chars.len()
        invariant
            i <= chars@.len(),
            chars@ == data@,
            ({
                let (b, k) = exit_scan(old(buffer)@, data@);
                let (b2, k2) = exit_scan(buffer@, chars@.skip(i as int));
                b == b2 && k == (should_force_kill || k2)
            }),
        decreases chars.len() - i,
    {
        let ch = chars[i];
        assert(chars@.skip(i as int).drop_first() =~= chars@.skip(i + 1));
        if ch == '\u{4}' {
            should_force_kill = true;
            *buffer = String::new();
        } else if ch == '\r' || ch == '\n' {
            let cur = str_chars(buffer.as_str());
            let t = trim_chars(cur.as_slice());
            if eq_ignore_ascii_case_str(t.as_slice(), "exit") {
                should_force_kill = true;
            }
            *buffer = String::new();
        } else if ch == '\u{7f}' {
            let _ = pop_char(buffer);
        } else if ch == '\u{3}' || ch == '\u{1a}' {
            *buffer = String::new();
        } else if ch == '\t' || is_control_char(ch) {
        } else {
            push_char(buffer, ch);
        }
        i += 1;
    }
    assert(exit_scan(buffer@, chars@.skip(i as int)) == (buffer@, false));
    assert(exit_scan(old(buffer)@, data@) == (buffer@, should_force_kill));
    let byte_len = buffer.as_str().as_bytes().len();
    assert(byte_len == encode_utf8(buffer@).len());
    if byte_len > 1024 {
        *buffer = String::new();
    }
    should_force_kill
}

// ---------------------------------------------------------------------------
// Reading `tmux list-windows` and `tmux list-panes` output
// ---------------------------------------------------------------------------

/// A `list-windows` line `@id<TAB>name<TAB>active` read as
/// `(id, name, active)`.
pub open spec fn window_line(line: Seq<char>) -> Option<(u64, Seq<char>, bool)> {
    let parts = splitn(line, '\t', 3);
    if parts.len() >= 3 && parts[0].len() > 0 && parts[0][0] == '@' {
        match parse_unsigned(parts[0].drop_first(), u64::MAX as nat) {
            Some(id) => Some((id as u64, parts[1], parts[2] == "1"@)),
            None => None,
        }
    } else {
        None
    }
}

/// Reads one line of `tmux list-windows -F '#{window_id}\t#{window_name}\t#{window_active}'`.
pub fn parse_window_line(line: &str) -> (r: Option<(u64, String, bool)>)
    ensures
        match r {
            Some((id, name, active)) => window_line(line@) == Some((id, name@, active)),
            None => window_line(line@) is None,
        },
{
    let v = str_chars(line);
    window_line_chars(v.as_slice())
}

fn window_line_chars(v: &[char]) -> (r: Option<(u64, String, bool)>)
    ensures
        match r {
            Some((id, name, active)) => window_line(v@) == Some((id, name@, active)),
            None => window_line(v@) is None,
        },
{
    let parts = splitn_chars(v, '\t', 3);
    let ghost pv = parts@.map_values(|p: Vec<char>| p@);
    if parts.len() < 3 {
        return None;
    }
    assert(pv[0] == parts@[0]@ && pv[1] == parts@[1]@ && pv[2] == parts@[2]@);
    let first = &parts[0];
    if !(first.len() > 0 && first[0] == '@') {
        return None;
    }
    let digits = sub_chars(first.as_slice(), 1, first.len());
    assert(digits@ =~= first@.drop_first());
    let id = match parse_u64_chars(digits.as_slice()) {
        Some(n) => n,
        None => {
            return None;
        },
    };
    let name = chars_to_string(parts[1].as_slice());
    let active = chars_eq_str(parts[2].as_slice(), "1");
    Some((id, name, active))
}

/// The `list-panes` fields at index `i`, read as a `u16`.
pub open spec fn u16_field(parts: Seq<Seq<char>>, i: int) -> Option<u16> {
    match parse_unsigned(parts[i], u16::MAX as nat) {
        Some(n) => Some(n as u16),
        None => None,
    }
}

/// A `list-panes` line read as a pane (with no content yet).
pub open spec fn pane_line(line: Seq<char>) -> Option<PaneView> {
    let parts = splitn(line, '\t', 8);
    if parts.len() >= 6 && parts[0].len() > 0 && parts[0][0] == '%' {
        match (
            parse_unsigned(parts[0].drop_first(), u64::MAX as nat),
            u16_field(parts, 2),
            u16_field(parts, 3),
            u16_field(parts, 4),
            u16_field(parts, 5),
        ) {
            (Some(id), Some(width), Some(height), Some(left), Some(top)) => Some(
                PaneView {
                    id: id as u64,
                    active: parts[1] == "1"@,
                    width,
                    height,
                    left,
                    top,
                    alternate_on: parts.len() >= 7 && parts[6] == "1"@,
                    current_command: if parts.len() >= 8 && trim(parts[7]).len() > 0 {
                        Some(trim(parts[7]))
                    } else {
                        None
                    },
                    content: Seq::empty(),
                },
            ),
            _ => None,
        }
    } else {
        None
    }
}

/// Reads one line of `tmux list-panes` output (pane id, active flag, size,
/// position, alternate screen flag, current command).
pub fn parse_pane_line(line: &str) -> (r: Option<TmuxPaneInfo>)
    ensures
        match r {
            Some(p) => pane_line(line@) == Some(p@),
            None => pane_line(line@) is None,
        },
{
    let v = str_chars(line);
    pane_line_chars(v.as_slice())
}

fn pane_line_chars(v: &[char]) -> (r: Option<TmuxPaneInfo>)
    ensures
        match r {
            Some(p) => pane_line(v@) == Some(p@),
            None => pane_line(v@) is None,
        },
{
    let parts = splitn_chars(v, '\t', 8);
    let ghost pv = parts@.map_values(|p: Vec<char>| p@);
    if parts.len() < 6 {
        return None;
    }
    assert(forall|i: int| 0 <= i < parts@.len() ==> pv[i] == #[trigger] parts@[i]@);
    let first = &parts[0];
    if !(first.len() > 0 && first[0] == '%') {
        return None;
    }
    let digits = sub_chars(first.as_slice(), 1, first.len());
    assert(digits@ =~= first@.drop_first());
    let id = match parse_u64_chars(digits.as_slice()) {
        Some(n) => n,
        None => {
            return None;
        },
    };
    let active = chars_eq_str(parts[1].as_slice(), "1");
    let width = match parse_u16_chars(parts[2].as_slice()) {
        Some(n) => n,
        None => {
            return None;
        },
    };
    let height = match parse_u16_chars(parts[3].as_slice()) {
        Some(n) => n,
        None => {
            return None;
        },
    };
    let left = match parse_u16_chars(parts[4].as_slice()) {
        Some(n) => n,
        None => {
            return None;
        },
    };
    let top = match parse_u16_chars(parts[5].as_slice()) {
        Some(n) => n,
        None => {
            return None;
        },
    };
    let alternate_on = if parts.len() >= 7 {
        chars_eq_str(parts[6].as_slice(), "1")
    } else {
        false
    };
    let current_command = if parts.len() >= 8 {
        let t = trim_chars(parts[7].as_slice());
        if t.len() > 0 {
            Some(chars_to_string(t.as_slice()))
        } else {
            None
        }
    } else {
        None
    };
    Some(
        TmuxPaneInfo {
            id,
            active,
            width,
            height,
            left,
            top,
            alternate_on,
            current_command,
            content: String::new(),
        },
    )
}

/// The windows that `list-windows` output describes: each non-blank line,
/// trimmed, that reads as a window.
pub open spec fn window_list(ls: Seq<Seq<char>>) -> Seq<(u64, Seq<char>, bool)>
    decreases ls.len(),
{
    if ls.len() == 0 {
        Seq::empty()
    } else {
        let rest = window_list(ls.drop_first());
        let t = trim(ls[0]);
        if t.len() == 0 {
            rest
        } else {
            match window_line(t) {
                Some(w) => seq![w] + rest,
                None => rest,
            }
        }
    }
}

/// The windows of two listings one after the other are those of the first
/// followed by those of the second: no line's window moves past another's.
pub proof fn window_list_keeps_line_order(a: Seq<Seq<char>>, b: Seq<Seq<char>>)
    ensures
        window_list(a + b) == window_list(a) + window_list(b),
    decreases a.len(),
{
    if a.len() == 0 {
        assert(a + b =~= b);
        assert(Seq::<(u64, Seq<char>, bool)>::empty() + window_list(b) =~= window_list(b));
    } else {
        assert((a + b).drop_first() =~= a.drop_first() + b);
        assert((a + b)[0] == a[0]);
        window_list_keeps_line_order(a.drop_first(), b);
        let t = trim(a[0]);
        if t.len() > 0 {
            match window_line(t) {
                Some(w) => {
                    assert(seq![w] + (window_list(a.drop_first()) + window_list(b)) =~= (seq![w]
                        + window_list(a.drop_first())) + window_list(b));
                },
                None => {},
            }
        }
    }
}

/// When every line reads as a window, the windows come back one per line,
/// in the order of the lines.
pub proof fn windows_come_back_in_line_order(
    ls: Seq<Seq<char>>,
    ws: Seq<(u64, Seq<char>, bool)>,
)
    requires
        ls.len() == ws.len(),
        forall|i: int|
            0 <= i < ls.len() ==> trim(#[trigger] ls[i]).len() > 0 && window_line(trim(ls[i]))
                == Some(ws[i]),
    ensures
        window_list(ls) == ws,
    decreases ls.len(),
{
    if ls.len() > 0 {
        assert(trim(ls[0]).len() > 0 && window_line(trim(ls[0])) == Some(ws[0]));
        assert forall|i: int|
            0 <= i < ls.drop_first().len() implies trim(#[trigger] ls.drop_first()[i]).len() > 0
            && window_line(trim(ls.drop_first()[i])) == Some(ws.drop_first()[i]) by {
            assert(ls.drop_first()[i] == ls[i + 1]);
        }
        windows_come_back_in_line_order(ls.drop_first(), ws.drop_first());
        assert(seq![ws[0]] + ws.drop_first() =~= ws);
    } else {
        assert(ws =~= Seq::<(u64, Seq<char>, bool)>::empty());
    }
}

/// The panes of two listings one after the other are those of the first
/// followed by those of the second.
pub proof fn pane_list_keeps_line_order(a: Seq<Seq<char>>, b: Seq<Seq<char>>)
    ensures
        pane_list(a + b) == pane_list(a) + pane_list(b),
    decreases a.len(),
{
    if a.len() == 0 {
        assert(a + b =~= b);
        assert(Seq::<PaneView>::empty() + pane_list(b) =~= pane_list(b));
    } else {
        assert((a + b).drop_first() =~= a.drop_first() + b);
        assert((a + b)[0] == a[0]);
        pane_list_keeps_line_order(a.drop_first(), b);
        match pane_line(a[0]) {
            Some(p) => {
                assert(seq![p] + (pane_list(a.drop_first()) + pane_list(b)) =~= (seq![p]
                    + pane_list(a.drop_first())) + pane_list(b));
            },
            None => {},
        }
    }
}

/// Reads the windows listed in `tmux list-windows` output, in order.
pub fn parse_window_list(raw: &str) -> (r: Vec<(u64, String, bool)>)
    ensures
        r@.map_values(|w: (u64, String, bool)| (w.0, w.1@, w.2)) == window_list(lines(raw@)),
{
    let v = str_chars(raw);
    let ls = lines_chars(v.as_slice());
    let ghost lv = ls@.map_values(|p: Vec<char>| p@);
    let mut out: Vec<(u64, String, bool)> = Vec::new();
    let mut i = ls.len();
    while i > 0
        invariant
            i <= ls@.len(),
            lv == ls@.map_values(|p: Vec<char>| p@),
            lv.skip(i as int).len() == ls@.len() - i,
            out@.map_values(|w: (u64, String, bool)| (w.0, w.1@, w.2)).reverse() == window_list(
                lv.skip(i as int),
            ),
        decreases i,
    {
        i -= 1;
        let ghost before = out@.map_values(|w: (u64, String, bool)| (w.0, w.1@, w.2));
        assert(lv.skip(i as int).drop_first() =~= lv.skip(i + 1));
        assert(lv.skip(i as int)[0] == ls@[i as int]@);
        let t = trim_chars(ls[i].as_slice());
        if t.len() > 0 {
            match window_line_chars(t.as_slice()) {
                Some(w) => {
                    let ghost wv = (w.0, w.1@, w.2);
                    out.push(w);
                    assert(out@.map_values(|w: (u64, String, bool)| (w.0, w.1@, w.2)) =~= before.push(wv));
                    assert(before.push(wv).reverse() =~= seq![wv] + before.reverse());
                },
                None => {},
            }
        }
    }
    assert(lv.skip(0) =~= lv);
    let r = reverse_windows(out);
    r
}

fn reverse_windows(v: Vec<(u64, String, bool)>) -> (r: Vec<(u64, String, bool)>)
    ensures
        r@.map_values(|w: (u64, String, bool)| (w.0, w.1@, w.2)) == v@.map_values(
            |w: (u64, String, bool)| (w.0, w.1@, w.2),
        ).reverse(),
{
    let mut v = v;
    let ghost orig = v@;
    let mut r: Vec<(u64, String, bool)> = Vec::new();
    while v.len() > 0
        invariant
            orig.len() == v@.len() + r@.len(),
            v@ == orig.take(v@.len() as int),
            r@ == orig.skip(v@.len() as int).reverse(),
        decreases v@.len(),
    {
        let ghost n = v@.len();
        let x = v.pop().unwrap();
        r.push(x);
        assert(v@ =~= orig.take(n - 1));
        assert(r@ =~= orig.skip(n - 1).reverse());
    }
    assert(orig.skip(0) =~= orig);
    assert(r@.map_values(|w: (u64, String, bool)| (w.0, w.1@, w.2)) =~= orig.map_values(
        |w: (u64, String, bool)| (w.0, w.1@, w.2),
    ).reverse());
    r
}

/// The panes that `list-panes` output describes: each line that reads as a
/// pane.
pub open spec fn pane_list(ls: Seq<Seq<char>>) -> Seq<PaneView>
    decreases ls.len(),
{
    if ls.len() == 0 {
        Seq::empty()
    } else {
        let rest = pane_list(ls.drop_first());
        match pane_line(ls[0]) {
            Some(p) => seq![p] + rest,
            None => rest,
        }
    }
}

/// Reads the panes listed in `tmux list-panes` output, in order, each with
/// no content yet.
pub fn parse_pane_list(raw: &str) -> (r: Vec<TmuxPaneInfo>)
    ensures
        r@.map_values(|p: TmuxPaneInfo| p@) == pane_list(lines(raw@)),
{
    let v = str_chars(raw);
    let ls = lines_chars(v.as_slice());
    let ghost lv = ls@.map_values(|p: Vec<char>| p@);
    let mut out: Vec<TmuxPaneInfo> = Vec::new();
    let mut i: usize = 0;
    assert(lv.skip(0) =~= lv);
    assert(out@.map_values(|p: TmuxPaneInfo| p@) + pane_list(lv) =~= pane_list(lv));
    while i < ls.len()
        invariant
            i <= ls@.len(),
            lv == ls@.map_values(|p: Vec<char>| p@),
            pane_list(lv) == out@.map_values(|p: TmuxPaneInfo| p@) + pane_list(lv.skip(i as int)),
        decreases ls.len() - i,
    {
        let ghost before = out@.map_values(|p: TmuxPaneInfo| p@);
        assert(lv.skip(i as int).drop_first() =~= lv.skip(i + 1));
        assert(lv.skip(i as int)[0] == ls@[i as int]@);
        match pane_line_chars(ls[i].as_slice()) {
            Some(p) => {
                let ghost pv = p@;
                out.push(p);
                assert(out@.map_values(|p: TmuxPaneInfo| p@) =~= before.push(pv));
                assert(before + (seq![pv] + pane_list(lv.skip(i + 1))) =~= before.push(pv)
                    + pane_list(lv.skip(i + 1)));
            },
            None => {},
        }
        i += 1;
    }
    assert(lv.skip(i as int) =~= Seq::<Seq<char>>::empty());
    assert(out@.map_values(|p: TmuxPaneInfo| p@) + Seq::<PaneView>::empty() =~= out@.map_values(
        |p: TmuxPaneInfo| p@,
    ));
    out
}

/// Whether the session shown by `windows` has a single window with a single
/// pane, and that pane is `pane_id`: the case in which an `exit` typed into
/// the pane ends the whole session.
pub open spec fn sole_pane(windows: Seq<TmuxWindowInfo>, pane_id: u64) -> bool {
    windows.len() == 1 && windows[0].panes@.len() == 1 && windows[0].panes@[0].id == pane_id
}

/// Decides whether `pane_id` is the only pane of the only window.
pub fn is_sole_pane(windows: &Vec<TmuxWindowInfo>, pane_id: u64) -> (r: bool)
    ensures
        r == sole_pane(windows@, pane_id),
{
    if windows.len() != 1 {
        return false;
    }
    let only_window = &windows[0];
    if only_window.panes.len() != 1 {
        return false;
    }
    only_window.panes[0].id == pane_id
}

// ---------------------------------------------------------------------------
// Terminal input as tmux `send-keys` commands
// ---------------------------------------------------------------------------

/// A run of input sent literally, or one named key.
#[derive(Debug, Clone, PartialEq, Eq)]
pub enum InputSegment {
    Literal(String),
    Key(String),
}

/// The mathematical value of an [`InputSegment`].
pub enum SegmentView {
    Literal(Seq<char>),
    Key(Seq<char>),
}

impl View for InputSegment {
    type V = SegmentView;

    open spec fn view(&self) -> SegmentView {
        match self {
            InputSegment::Literal(s) => SegmentView::Literal(s@),
            InputSegment::Key(k) => SegmentView::Key(k@),
        }
    }
}

/// The tmux key name for a control character, if it has one.
pub open spec fn control_key(c: char) -> Option<Seq<char>> {
    if c == '\r' || c == '\n' {
        Some("Enter"@)
    } else if c == '\t' {
        Some("Tab"@)
    } else if c == '\u{7f}' {
        Some("BSpace"@)
    } else if c == '\u{3}' {
        Some("C-c"@)
    } else if c == '\u{4}' {
        Some("C-d"@)
    } else if c == '\u{1a}' {
        Some("C-z"@)
    } else {
        None
    }
}

/// The tmux key name for the final character of an `ESC [` sequence.
pub open spec fn arrow_key(c: char) -> Option<Seq<char>> {
    if c == 'A' {
        Some("Up"@)
    } else if c == 'B' {
        Some("Down"@)
    } else if c == 'C' {
        Some("Right"@)
    } else if c == 'D' {
        Some("Left"@)
    } else if c == 'H' {
        Some("Home"@)
    } else if c == 'F' {
        Some("End"@)
    } else {
        None
    }
}

/// Typing `ESC [ A`, `B`, `C`, `D`, `H` or `F` at the start of any input
/// sends the key the terminal sequence denotes (Up, Down, Right, Left, Home,
/// End), and then the rest of the input as it would be sent on its own.
pub proof fn escape_sequences_send_the_keys_they_denote(rest: Seq<char>)
    ensures
        input_segments(seq!['\u{1b}', '[', 'A'] + rest, Seq::empty()) == seq![
            SegmentView::Key("Up"@),
        ] + input_segments(rest, Seq::empty()),
        input_segments(seq!['\u{1b}', '[', 'B'] + rest, Seq::empty()) == seq![
            SegmentView::Key("Down"@),
        ] + input_segments(rest, Seq::empty()),
        input_segments(seq!['\u{1b}', '[', 'C'] + rest, Seq::empty()) == seq![
            SegmentView::Key("Right"@),
        ] + input_segments(rest, Seq::empty()),
        input_segments(seq!['\u{1b}', '[', 'D'] + rest, Seq::empty()) == seq![
            SegmentView::Key("Left"@),
        ] + input_segments(rest, Seq::empty()),
        input_segments(seq!['\u{1b}', '[', 'H'] + rest, Seq::empty()) == seq![
            SegmentView::Key("Home"@),
        ] + input_segments(rest, Seq::empty()),
        input_segments(seq!['\u{1b}', '[', 'F'] + rest, Seq::empty()) == seq![
            SegmentView::Key("End"@),
        ] + input_segments(rest, Seq::empty()),
{
    lemma_escape_sequence('A', rest);
    lemma_escape_sequence('B', rest);
    lemma_escape_sequence('C', rest);
    lemma_escape_sequence('D', rest);
    lemma_escape_sequence('H', rest);
    lemma_escape_sequence('F', rest);
}

proof fn lemma_escape_sequence(x: char, rest: Seq<char>)
    requires
        arrow_key(x) is Some,
    ensures
        input_segments(seq!['\u{1b}', '[', x] + rest, Seq::empty()) == seq![
            SegmentView::Key(arrow_key(x)->0),
        ] + input_segments(rest, Seq::empty()),
{
    let s = seq!['\u{1b}', '[', x] + rest;
    assert(s[0] == '\u{1b}' && s[1] == '[' && s[2] == x);
    assert(s.skip(3) =~= rest);
    assert(flush(Seq::empty()) =~= Seq::<SegmentView>::empty());
    assert(Seq::<SegmentView>::empty() + seq![SegmentView::Key(arrow_key(x)->0)] =~= seq![
        SegmentView::Key(arrow_key(x)->0),
    ]);
}

/// The pending literal text as a segment list (empty when there is none).
pub open spec fn flush(lit: Seq<char>) -> Seq<SegmentView> {
    if lit.len() == 0 {
        Seq::empty()
    } else {
        seq![SegmentView::Literal(lit)]
    }
}

/// The segments for input `s` when `lit` is the literal text gathered so
/// far: control characters and `ESC [ A`..`ESC [ F` become keys, an `ESC`
/// starting no such sequence is dropped, and all other characters are sent
/// literally.
pub open spec fn input_segments(s: Seq<char>, lit: Seq<char>) -> Seq<SegmentView>
    decreases s.len(),
{
    if s.len() == 0 {
        flush(lit)
    } else {
        let c = s[0];
        match control_key(c) {
            Some(k) => flush(lit) + seq![SegmentView::Key(k)] + input_segments(
                s.drop_first(),
                Seq::empty(),
            ),
            None => if c == '\u{1b}' {
                if s.len() > 2 && s[1] == '[' && arrow_key(s[2]) is Some {
                    flush(lit) + seq![SegmentView::Key(arrow_key(s[2])->0)] + input_segments(
                        s.skip(3),
                        Seq::empty(),
                    )
                } else {
                    flush(lit) + input_segments(s.drop_first(), Seq::empty())
                }
            } else {
                input_segments(s.drop_first(), lit.push(c))
            },
        }
    }
}

fn string_of(s: &str) -> (r: String)
    ensures
        r@ == s@,
{
    s.to_owned()
}

fn control_key_exec(c: char) -> (r: Option<String>)
    ensures
        match r {
            Some(k) => control_key(c) == Some(k@),
            None => control_key(c) is None,
        },
{
    if c == '\r' || c == '\n' {
        Some(string_of("Enter"))
    } else if c == '\t' {
        Some(string_of("Tab"))
    } else if c == '\u{7f}' {
        Some(string_of("BSpace"))
    } else if c == '\u{3}' {
        Some(string_of("C-c"))
    } else if c == '\u{4}' {
        Some(string_of("C-d"))
    } else if c == '\u{1a}' {
        Some(string_of("C-z"))
    } else {
        None
    }
}

fn arrow_key_exec(c: char) -> (r: Option<String>)
    ensures
        match r {
            Some(k) => arrow_key(c) == Some(k@),
            None => arrow_key(c) is None,
        },
{
    if c == 'A' {
        Some(string_of("Up"))
    } else if c == 'B' {
        Some(string_of("Down"))
    } else if c == 'C' {
        Some(string_of("Right"))
    } else if c == 'D' {
        Some(string_of("Left"))
    } else if c == 'H' {
        Some(string_of("Home"))
    } else if c == 'F' {
        Some(string_of("End"))
    } else {
        None
    }
}

fn flush_literal(literal: &mut Vec<char>, out: &mut Vec<InputSegment>)
    ensures
        final(literal)@ == Seq::<char>::empty(),
        final(out)@.map_values(|x: InputSegment| x@) == old(out)@.map_values(|x: InputSegment| x@)
            + flush(old(literal)@),
{
    if literal.len() > 0 {
        let ghost before = out@.map_values(|x: InputSegment| x@);
        let seg = InputSegment::Literal(chars_to_string(literal.as_slice()));
        let ghost sv = seg@;
        out.push(seg);
        assert(out@.map_values(|x: InputSegment| x@) =~= before + seq![sv]);
        *literal = Vec::new();
    } else {
        assert(out@.map_values(|x: InputSegment| x@) + flush(literal@) =~= out@.map_values(
            |x: InputSegment| x@,
        ));
    }
}

/// Splits terminal input into the literal runs and named keys that tmux's
/// `send-keys` is given.
pub fn tmux_input_segments(data: &str) -> (r: Vec<InputSegment>)
    ensures
        r@.map_values(|x: InputSegment| x@) == input_segments(data@, Seq::empty()),
{
    let chars = str_chars(data);
    let mut index: usize = 0;
    let mut literal: Vec<char> = Vec::new();
    let mut out: Vec<InputSegment> = Vec::new();
    assert(chars@.skip(0) =~= chars@);
    assert(out@.map_values(|x: InputSegment| x@) + input_segments(chars@, Seq::empty())
        =~= input_segments(chars@, Seq::empty()));
    while index < chars.len()
        invariant
            index <= chars@.len(),
            chars@ == data@,
            input_segments(data@, Seq::empty()) == out@.map_values(|x: InputSegment| x@)
                + input_segments(chars@.skip(index as int), literal@),
        decreases chars.len() - index,
    {
        let ghost s = chars@.skip(index as int);
        let ghost before = out@.map_values(|x: InputSegment| x@);
        let ghost lit = literal@;
        let ch = chars[index];
        assert(s[0] == ch);
        assert(s.drop_first() =~= chars@.skip(index + 1));
        match control_key_exec(ch) {
            Some(k) => {
                flush_literal(&mut literal, &mut out);
                let ghost mid = out@.map_values(|x: InputSegment| x@);
                let seg = InputSegment::Key(k);
                let ghost sv = seg@;
                out.push(seg);
                assert(out@.map_values(|x: InputSegment| x@) =~= mid.push(sv));
                assert(before + (flush(lit) + seq![sv] + input_segments(
                    chars@.skip(index + 1),
                    Seq::empty(),
                )) =~= mid.push(sv) + input_segments(chars@.skip(index + 1), Seq::empty()));
                index += 1;
            },
            None => {
                if ch == '\u{1b}' {
                    flush_literal(&mut literal, &mut out);
                    let ghost mid = out@.map_values(|x: InputSegment| x@);
                    let mut consumed = false;
                    if chars.len() - index > 2 && chars[index + 1] == '[' {
                        assert(s[1] == chars@[index + 1] && s[2] == chars@[index + 2]);
                        match arrow_key_exec(chars[index + 2]) {
                            Some(k) => {
                                let seg = InputSegment::Key(k);
                                let ghost sv = seg@;
                                out.push(seg);
                                assert(out@.map_values(|x: InputSegment| x@) =~= mid.push(sv));
                                assert(s.skip(3) =~= chars@.skip(index + 3));
                                assert(before + (flush(lit) + seq![sv] + input_segments(
                                    s.skip(3),
                                    Seq::empty(),
                                )) =~= mid.push(sv) + input_segments(
                                    chars@.skip(index + 3),
                                    Seq::empty(),
                                ));
                                index += 3;
                                consumed = true;
                            },
                            None => {},
                        }
                    } else {
                        assert(!(s.len() > 2 && s[1] == '['));
                    }
                    if !consumed {
                        assert(before + (flush(lit) + input_segments(
                            chars@.skip(index + 1),
                            Seq::empty(),
                        )) =~= mid + input_segments(chars@.skip(index + 1), Seq::empty()));
                        index += 1;
                    }
                } else {
                    literal.push(ch);
                    index += 1;
                }
            },
        }
    }
    flush_literal(&mut literal, &mut out);
    out
}

/// The control-mode command that sends the named key `token` to `target`:
/// `send-keys -t <target> <token>` and a newline.
pub open spec fn key_command(target: Seq<char>, token: Seq<char>) -> Seq<char> {
    "send-keys -t "@ + target + seq![' '] + token + seq!['\n']
}

/// Builds the control-mode command that sends one named key to a pane.
pub fn send_key_command(target: &str, token: &str) -> (r: String)
    ensures
        r@ == key_command(target@, token@),
{
    let mut s = string_of("send-keys -t ");
    let t = str_chars(target);
    let mut i: usize = 0;
    let ghost base = s@;
    while i < t.len()
        invariant
            i <= t@.len(),
            t@ == target@,
            s@ == base + t@.take(i as int),
        decreases t.len() - i,
    {
        push_char(&mut s, t[i]);
        i += 1;
        assert(s@ =~= base + t@.take(i as int));
    }
    assert(t@.take(t@.len() as int) =~= t@);
    push_char(&mut s, ' ');
    let k = str_chars(token);
    let ghost base2 = s@;
    let mut j: usize = 0;
    while j < k.len()
        invariant
            j <= k@.len(),
            k@ == token@,
            s@ == base2 + k@.take(j as int),
        decreases k.len() - j,
    {
        push_char(&mut s, k[j]);
        j += 1;
        assert(s@ =~= base2 + k@.take(j as int));
    }
    assert(k@.take(k@.len() as int) =~= k@);
    push_char(&mut s, '\n');
    assert(s@ =~= key_command(target@, token@));
    s
}

// ---------------------------------------------------------------------------
// Attaching a window to a session
// ---------------------------------------------------------------------------

/// The arguments tmux is started with in control mode for `session`:
/// attach to it when it exists, else create it.
pub open spec fn control_mode_args_text(session: Seq<char>, exists: bool) -> Seq<Seq<char>> {
    if exists {
        seq!["-u"@, "-CC"@, "attach-session"@, "-t"@, session]
    } else {
        seq!["-u"@, "-CC"@, "new-session"@, "-s"@, session]
    }
}

/// The arguments for starting tmux in control mode on `session`.
pub fn control_mode_args(session: &str, exists: bool) -> (r: Vec<String>)
    ensures
        r@.map_values(|a: String| a@) == control_mode_args_text(session@, exists),
{
    let mut r: Vec<String> = Vec::new();
    r.push("-u".to_owned());
    r.push("-CC".to_owned());
    if exists {
        r.push("attach-session".to_owned());
        r.push("-t".to_owned());
    } else {
        r.push("new-session".to_owned());
        r.push("-s".to_owned());
    }
    r.push(session.to_owned());
    assert(r@.map_values(|a: String| a@) =~= control_mode_args_text(session@, exists));
    r
}

/// The size a control-mode client starts with: the requested columns and
/// rows, 80 by 24 by default.
pub fn initial_client_size(cols: Option<u16>, rows: Option<u16>) -> (r: (u16, u16))
    ensures
        r.0 == (match cols {
            Some(c) => c,
            None => 80,
        }),
        r.1 == (match rows {
            Some(n) => n,
            None => 24,
        }),
{
    let c = match cols {
        Some(c) => c,
        None => 80,
    };
    let n = match rows {
        Some(n) => n,
        None => 24,
    };
    (c, n)
}

/// The command that fixes the client size, `refresh-client -C <cols>,<rows>`
/// and a newline; none for a size of one column or row or less.
pub open spec fn refresh_client_text(cols: u16, rows: u16) -> Option<Seq<char>> {
    if cols > 1 && rows > 1 {
        Some("refresh-client -C "@ + decimal(cols as nat) + seq![','] + decimal(rows as nat) + seq!['\n'])
    } else {
        None
    }
}

/// Builds the command that sets the control-mode client size.
pub fn refresh_client_command(cols: u16, rows: u16) -> (r: Option<String>)
    ensures
        match r {
            Some(s) => refresh_client_text(cols, rows) == Some(s@),
            None => refresh_client_text(cols, rows) is None,
        },
{
    if cols > 1 && rows > 1 {
        let mut s = "refresh-client -C ".to_owned();
        let c = u64_to_decimal(cols as u64);
        append_chars(&mut s, c.as_slice());
        push_char(&mut s, ',');
        let n = u64_to_decimal(rows as u64);
        append_chars(&mut s, n.as_slice());
        push_char(&mut s, '\n');
        Some(s)
    } else {
        None
    }
}


} // verus!
