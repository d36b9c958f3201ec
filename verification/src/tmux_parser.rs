//! Control mode output parser.
//!
//! Tmux control mode emits lines prefixed with `%`. This parser accumulates
//! bytes, splits on newlines, and converts each `%`-line into a typed
//! [`Notification`]. Lines that are not notifications are the output of a
//! command: they are collected for every command response in progress, and a
//! response stays available to [`ControlModeParser::take_response`] once its
//! `%end` or `%error` line has arrived.
use vstd::prelude::*;
use vstd::utf8::*;
use crate::text::{
    chars_eq_str, chars_to_string, parse_u32_chars, parse_u64_chars, parse_u8_chars,
    parse_unsigned, split_once, split_once_chars, str_chars, sub_chars, trim, trim_chars,
    trim_end, trim_end_chars, word_at, word_at_chars, has_char, lemma_split_once_at,
};
use crate::tmux_protocol::{Notification, NotificationView};
use crate::utf8_stream::{lossy_text, decode_utf8_lossy, append_bytes};

verus! {

// ---------------------------------------------------------------------------
// Specification of one line
// ---------------------------------------------------------------------------

/// The number after `prefix` in a tmux id such as `$1`, `@2` or `%3`.
pub open spec fn prefixed_id(s: Seq<char>, prefix: char) -> Option<u64> {
    if s.len() > 0 && s[0] == prefix {
        match parse_unsigned(s.drop_first(), u64::MAX as nat) {
            Some(n) => Some(n as u64),
            None => None,
        }
    } else {
        None
    }
}

/// `"$1 session-name"` or `"@2 window-name"` read as `(id, name)`.
pub open spec fn id_and_name(s: Seq<char>, prefix: char) -> Option<(u64, Seq<char>)> {
    match split_once(s, ' ') {
        Some((id_part, name_part)) => match prefixed_id(id_part, prefix) {
            Some(id) => Some((id, name_part)),
            None => None,
        },
        None => None,
    }
}

/// The name after a tmux id is the whole rest of the text after the first
/// space, spaces and all: `"<id> <name>"` reads as the id and `name`.
pub proof fn id_and_name_keeps_the_whole_name(id_text: Seq<char>, prefix: char, name: Seq<char>)
    requires
        !has_char(id_text, ' '),
    ensures
        id_and_name(id_text + seq![' '] + name, prefix) == match prefixed_id(id_text, prefix) {
            Some(id) => Some((id, name)),
            None => None::<(u64, Seq<char>)>,
        },
{
    lemma_split_once_at(id_text, ' ', name);
}

/// A tmux id `<prefix><digits>` (digits holding no space) carries no space.
proof fn lemma_id_text_has_no_space(prefix: char, digits: Seq<char>)
    requires
        prefix != ' ',
        !has_char(digits, ' '),
    ensures
        !has_char(seq![prefix] + digits, ' '),
        (seq![prefix] + digits).drop_first() == digits,
{
    let t = seq![prefix] + digits;
    assert(t.drop_first() =~= digits);
    if has_char(t, ' ') {
        let i = choose|i: int| 0 <= i < t.len() && t[i] == ' ';
        assert(digits[i - 1] == ' ');
    }
}

/// `%session-renamed $<n> <name>` carries the number `n` and exactly
/// `name`, for any name (spaces allowed) and any decimal `n` that fits a
/// `u64`.
pub proof fn session_renamed_carries_the_whole_name(digits: Seq<char>, name: Seq<char>)
    requires
        !has_char(digits, ' '),
        parse_unsigned(digits, u64::MAX as nat) is Some,
    ensures
        notification_of(seq!['%'] + "session-renamed"@ + seq![' ', '$'] + digits + seq![' '] + name)
            == Some(
            NotificationView::SessionRenamed {
                session_id: parse_unsigned(digits, u64::MAX as nat)->0 as u64,
                name,
            },
        ),
{
    reveal_strlit("sessions-changed");
    reveal_strlit("session-changed");
    reveal_strlit("session-renamed");
    let id = seq!['$'] + digits;
    let args = id + seq![' '] + name;
    let l = seq!['%'] + "session-renamed"@ + seq![' ', '$'] + digits + seq![' '] + name;
    assert(l.drop_first() =~= "session-renamed"@ + seq![' '] + args);
    assert(!has_char("session-renamed"@, ' '));
    lemma_split_once_at("session-renamed"@, ' ', args);
    lemma_id_text_has_no_space('$', digits);
    id_and_name_keeps_the_whole_name(id, '$', name);
    assert(name_and_args(l) == ("session-renamed"@, args));
    assert("session-renamed"@.len() != "sessions-changed"@.len());
    assert("session-renamed"@[8] != "session-changed"@[8]);
}

/// `%window-renamed @<n> <name>` carries the number `n` and exactly `name`,
/// for any name (spaces allowed) and any decimal `n` that fits a `u64`.
pub proof fn window_renamed_carries_the_whole_name(digits: Seq<char>, name: Seq<char>)
    requires
        !has_char(digits, ' '),
        parse_unsigned(digits, u64::MAX as nat) is Some,
    ensures
        notification_of(seq!['%'] + "window-renamed"@ + seq![' ', '@'] + digits + seq![' '] + name)
            == Some(
            NotificationView::WindowRenamed {
                window_id: parse_unsigned(digits, u64::MAX as nat)->0 as u64,
                name,
            },
        ),
{
    reveal_strlit("sessions-changed");
    reveal_strlit("session-changed");
    reveal_strlit("session-renamed");
    reveal_strlit("session-window-changed");
    reveal_strlit("window-add");
    reveal_strlit("window-close");
    reveal_strlit("window-renamed");
    let id = seq!['@'] + digits;
    let args = id + seq![' '] + name;
    let l = seq!['%'] + "window-renamed"@ + seq![' ', '@'] + digits + seq![' '] + name;
    assert(l.drop_first() =~= "window-renamed"@ + seq![' '] + args);
    assert(!has_char("window-renamed"@, ' '));
    lemma_split_once_at("window-renamed"@, ' ', args);
    lemma_id_text_has_no_space('@', digits);
    id_and_name_keeps_the_whole_name(id, '@', name);
    assert(name_and_args(l) == ("window-renamed"@, args));
}

/// Whether `b` is an octal digit '0'..='7'.
pub open spec fn is_octal_digit_byte(b: u8) -> bool {
    0x30 <= b <= 0x37
}

/// The value of the three-digit octal escape `\d1d2d3`.
pub open spec fn octal_value(d1: u8, d2: u8, d3: u8) -> int {
    (d1 - 0x30) * 64 + (d2 - 0x30) * 8 + (d3 - 0x30)
}

/// Whether `b` starts with a backslash and three octal digits whose value
/// fits in a byte.
pub open spec fn starts_with_octal_escape(b: Seq<u8>) -> bool {
    &&& b.len() > 3
    &&& b[0] == 0x5c
    &&& is_octal_digit_byte(b[1])
    &&& is_octal_digit_byte(b[2])
    &&& is_octal_digit_byte(b[3])
    &&& octal_value(b[1], b[2], b[3]) <= 255
}

/// tmux's `%output` data with each `\OOO` octal escape (three digits in
/// `0..=7`, value at most 255) replaced by the byte it stands for; any other
/// text passes through byte for byte.
pub open spec fn octal_decode(b: Seq<u8>) -> Seq<u8>
    decreases b.len(),
{
    if b.len() == 0 {
        Seq::empty()
    } else if starts_with_octal_escape(b) {
        seq![octal_value(b[1], b[2], b[3]) as u8] + octal_decode(b.skip(4))
    } else {
        seq![b[0]] + octal_decode(b.drop_first())
    }
}

/// The three octal digit bytes of `v`.
pub open spec fn octal_digits(v: u8) -> Seq<u8> {
    seq![(0x30 + v / 64) as u8, (0x30 + (v / 8) % 8) as u8, (0x30 + v % 8) as u8]
}

/// How tmux writes pane output in `%output` lines: every byte below 32
/// and every backslash as a backslash and three octal digits, any other
/// byte as itself.
pub open spec fn tmux_escape(b: Seq<u8>) -> Seq<u8>
    decreases b.len(),
{
    if b.len() == 0 {
        Seq::empty()
    } else if b[0] < 0x20 || b[0] == 0x5c {
        seq![0x5cu8] + octal_digits(b[0]) + tmux_escape(b.drop_first())
    } else {
        seq![b[0]] + tmux_escape(b.drop_first())
    }
}

/// Decoding `%output` data gives back exactly the bytes tmux escaped.
pub proof fn octal_decode_undoes_tmux_escape(b: Seq<u8>)
    ensures
        octal_decode(tmux_escape(b)) == b,
    decreases b.len(),
{
    if b.len() > 0 {
        let e = tmux_escape(b);
        octal_decode_undoes_tmux_escape(b.drop_first());
        if b[0] < 0x20 || b[0] == 0x5c {
            let v = b[0];
            assert(e[0] == 0x5c);
            assert(e[1] == (0x30 + v / 64) as u8 && e[2] == (0x30 + (v / 8) % 8) as u8 && e[3] == (
            0x30 + v % 8) as u8);
            assert(octal_value(e[1], e[2], e[3]) == v) by (nonlinear_arith)
                requires
                    e[1] == (0x30 + v / 64) as u8,
                    e[2] == (0x30 + (v / 8) % 8) as u8,
                    e[3] == (0x30 + v % 8) as u8,
                    v < 256,
            ;
            assert(e.skip(4) =~= tmux_escape(b.drop_first()));
            assert(b =~= seq![v] + b.drop_first());
        } else {
            assert(e.drop_first() =~= tmux_escape(b.drop_first()));
            assert(b =~= seq![b[0]] + b.drop_first());
        }
    }
}

/// The notification name and its arguments: the text of the line after the
/// leading `%`, split at its first space.
pub open spec fn name_and_args(line: Seq<char>) -> (Seq<char>, Seq<char>) {
    let body = line.drop_first();
    match split_once(body, ' ') {
        Some((n, r)) => (n, r),
        None => (body, Seq::empty()),
    }
}

/// The first word of `rest`, read as a command number, and the second word
/// read as flags (0 when absent or unreadable).
pub open spec fn number_and_flags(rest: Seq<char>) -> Option<(u64, u32)> {
    match word_at(rest, 0) {
        Some(w) => match parse_unsigned(w, u64::MAX as nat) {
            Some(n) => Some(
                (
                    n as u64,
                    match word_at(rest, 1) {
                        Some(f) => match parse_unsigned(f, u32::MAX as nat) {
                            Some(v) => v as u32,
                            None => 0,
                        },
                        None => 0,
                    },
                ),
            ),
            None => None,
        },
        None => None,
    }
}

/// The notification a `%`-line stands for, or `None` when its arguments
/// cannot be read.
pub open spec fn notification_of(line: Seq<char>) -> Option<NotificationView> {
    let (name, rest) = name_and_args(line);
    if name == "sessions-changed"@ {
        Some(NotificationView::SessionsChanged)
    } else if name == "session-changed"@ {
        match id_and_name(rest, '$') {
            Some((id, n)) => Some(NotificationView::SessionChanged { session_id: id, name: n }),
            None => None,
        }
    } else if name == "session-renamed"@ {
        match id_and_name(rest, '$') {
            Some((id, n)) => Some(NotificationView::SessionRenamed { session_id: id, name: n }),
            None => None,
        }
    } else if name == "session-window-changed"@ {
        match id_and_name(rest, '$') {
            Some((sid, w)) => match prefixed_id(w, '@') {
                Some(wid) => Some(
                    NotificationView::SessionWindowChanged { session_id: sid, window_id: wid },
                ),
                None => None,
            },
            None => None,
        }
    } else if name == "window-add"@ {
        match prefixed_id(trim(rest), '@') {
            Some(id) => Some(NotificationView::WindowAdd { window_id: id }),
            None => None,
        }
    } else if name == "window-close"@ {
        match prefixed_id(trim(rest), '@') {
            Some(id) => Some(NotificationView::WindowClose { window_id: id }),
            None => None,
        }
    } else if name == "window-renamed"@ {
        match id_and_name(rest, '@') {
            Some((id, n)) => Some(NotificationView::WindowRenamed { window_id: id, name: n }),
            None => None,
        }
    } else if name == "window-pane-changed"@ {
        match id_and_name(rest, '@') {
            Some((wid, p)) => match prefixed_id(p, '%') {
                Some(pid) => Some(
                    NotificationView::WindowPaneChanged { window_id: wid, pane_id: pid },
                ),
                None => None,
            },
            None => None,
        }
    } else if name == "pane-mode-changed"@ {
        match word_at(rest, 0) {
            Some(w) => match prefixed_id(w, '%') {
                Some(pid) => Some(
                    NotificationView::PaneModeChanged {
                        pane_id: pid,
                        mode: match word_at(rest, 1) {
                            Some(m) => match parse_unsigned(m, u8::MAX as nat) {
                                Some(v) => v as u8,
                                None => 0,
                            },
                            None => 0,
                        },
                    },
                ),
                None => None,
            },
            None => None,
        }
    } else if name == "output"@ {
        match split_once(rest, ' ') {
            Some((id_part, data_part)) => match prefixed_id(id_part, '%') {
                Some(pid) => Some(
                    NotificationView::Output {
                        pane_id: pid,
                        data: octal_decode(encode_utf8(data_part)),
                    },
                ),
                None => None,
            },
            None => match prefixed_id(trim(rest), '%') {
                Some(pid) => Some(NotificationView::Output { pane_id: pid, data: Seq::empty() }),
                None => None,
            },
        }
    } else if name == "layout-change"@ {
        match id_and_name(rest, '@') {
            Some((id, l)) => Some(NotificationView::LayoutChange { window_id: id, layout: l }),
            None => None,
        }
    } else if name == "begin"@ {
        match number_and_flags(rest) {
            Some((n, f)) => Some(NotificationView::Begin { command_number: n, flags: f }),
            None => None,
        }
    } else if name == "end"@ {
        match number_and_flags(rest) {
            Some((n, f)) => Some(NotificationView::End { command_number: n, flags: f }),
            None => None,
        }
    } else if name == "error"@ {
        let (num, msg) = match split_once(rest, ' ') {
            Some((a, b)) => (a, b),
            None => (rest, Seq::empty()),
        };
        match parse_unsigned(num, u64::MAX as nat) {
            Some(n) => Some(NotificationView::Error { command_number: n as u64, message: msg }),
            None => None,
        }
    } else if name == "exit"@ {
        Some(
            NotificationView::Exit {
                reason: if rest.len() == 0 {
                    None
                } else {
                    Some(rest)
                },
            },
        )
    } else {
        Some(NotificationView::Unknown { name, args: rest })
    }
}

/// Command responses by command number: the output lines collected so far.
pub type Responses = Map<u64, Seq<Seq<char>>>;

/// The responses still in progress and those completed but not yet taken.
pub struct ResponseState {
    pub open: Responses,
    pub done: Responses,
}

/// Ends the response `n` in progress, keeping its lines for `take_response`.
pub open spec fn close_response(st: ResponseState, n: u64) -> ResponseState {
    if st.open.contains_key(n) {
        ResponseState { open: st.open.remove(n), done: st.done.insert(n, st.open[n]) }
    } else {
        st
    }
}

/// How a notification changes the responses: `%begin` starts one (unless
/// one of that number is already in progress), dropping a finished one of
/// that number not taken yet; `%end` and `%error` complete one.
pub open spec fn track_response(st: ResponseState, n: Option<NotificationView>) -> ResponseState {
    match n {
        Some(NotificationView::Begin { command_number, .. }) => if st.open.contains_key(
            command_number,
        ) {
            st
        } else {
            ResponseState {
                open: st.open.insert(command_number, Seq::empty()),
                done: st.done.remove(command_number),
            }
        },
        Some(NotificationView::End { command_number, .. }) => close_response(st, command_number),
        Some(NotificationView::Error { command_number, .. }) => close_response(
            st,
            command_number,
        ),
        _ => st,
    }
}

/// The effect of one non-empty line: a line that is no notification is
/// output of every response in progress; a `%`-line is read as a
/// notification.
pub open spec fn apply_line(st: ResponseState, line: Seq<char>) -> (
    ResponseState,
    Option<NotificationView>,
) {
    if !(line.len() > 0 && line[0] == '%') {
        (
            ResponseState {
                open: st.open.map_values(|lines: Seq<Seq<char>>| lines.push(line)),
                done: st.done,
            },
            None,
        )
    } else {
        let n = notification_of(line);
        (track_response(st, n), n)
    }
}

/// No command number is both in progress and completed.
pub open spec fn responses_disjoint(st: ResponseState) -> bool {
    forall|n: u64| !(#[trigger] st.open.contains_key(n) && st.done.contains_key(n))
}

/// Ending a response keeps the numbers in progress apart from the completed ones.
proof fn lemma_close_keeps_disjoint(st: ResponseState, n: u64)
    requires
        responses_disjoint(st),
    ensures
        responses_disjoint(close_response(st, n)),
{
    let r = close_response(st, n);
    assert forall|m: u64| !(#[trigger] r.open.contains_key(m) && r.done.contains_key(m)) by {
        if st.open.contains_key(n) && m != n {
            assert(r.open.contains_key(m) == st.open.contains_key(m));
            assert(r.done.contains_key(m) == st.done.contains_key(m));
        }
    }
}

/// Dropping a number from both tables keeps them apart.
proof fn lemma_remove_keeps_disjoint(st: ResponseState, n: u64)
    requires
        responses_disjoint(st),
    ensures
        responses_disjoint(ResponseState { open: st.open.remove(n), done: st.done.remove(n) }),
{
}

/// A notification keeps the numbers in progress apart from the completed ones.
proof fn lemma_track_keeps_disjoint(st: ResponseState, n: Option<NotificationView>)
    requires
        responses_disjoint(st),
    ensures
        responses_disjoint(track_response(st, n)),
{
    match n {
        Some(NotificationView::Begin { command_number, .. }) => {
            let r = track_response(st, n);
            assert forall|m: u64| !(#[trigger] r.open.contains_key(m) && r.done.contains_key(m)) by {
                if !st.open.contains_key(command_number) && m != command_number {
                    assert(r.open.contains_key(m) == st.open.contains_key(m));
                    assert(r.done.contains_key(m) == st.done.contains_key(m));
                }
            }
        },
        Some(NotificationView::End { command_number, .. }) => {
            lemma_close_keeps_disjoint(st, command_number);
        },
        Some(NotificationView::Error { command_number, .. }) => {
            lemma_close_keeps_disjoint(st, command_number);
        },
        _ => {},
    }
}

/// One line keeps the numbers in progress apart from the completed ones.
proof fn lemma_apply_line_keeps_disjoint(st: ResponseState, line: Seq<char>)
    requires
        responses_disjoint(st),
    ensures
        responses_disjoint(apply_line(st, line).0),
{
    if line.len() > 0 && line[0] == '%' {
        lemma_track_keeps_disjoint(st, notification_of(line));
    }
}

/// Whatever bytes arrive, processing them never leaves one command number
/// both in progress and completed when none was before.
pub proof fn processing_keeps_responses_apart(st: ResponseState, buf: Seq<u8>)
    requires
        responses_disjoint(st),
    ensures
        responses_disjoint(process_lines(st, buf).0),
    decreases buf.len(),
{
    match newline_index(buf) {
        None => {},
        Some(p) => {
            if 0 <= p < buf.len() {
                let line = line_text(buf.take(p + 1));
                let rest = buf.skip(p + 1);
                if line.len() == 0 {
                    processing_keeps_responses_apart(st, rest);
                } else {
                    lemma_apply_line_keeps_disjoint(st, line);
                    processing_keeps_responses_apart(apply_line(st, line).0, rest);
                }
            }
        },
    }
}

/// The index of the first newline byte in `b`, if any.
pub open spec fn newline_index(b: Seq<u8>) -> Option<int>
    decreases b.len(),
{
    if b.len() == 0 {
        None
    } else if b[0] == 10 {
        Some(0)
    } else {
        match newline_index(b.drop_first()) {
            Some(i) => Some(i + 1),
            None => None,
        }
    }
}

/// The text of a line as the parser reads it: the bytes up to and including
/// the newline, decoded as std's `from_utf8_lossy` does (valid UTF-8 as
/// itself), without trailing whitespace.
pub open spec fn line_text(b: Seq<u8>) -> Seq<char> {
    trim_end(lossy_text(b))
}

/// Processes every complete line of `buf`: the responses afterwards, the
/// notifications in order, and the bytes of the incomplete last line.
pub open spec fn process_lines(st: ResponseState, buf: Seq<u8>) -> (
    ResponseState,
    Seq<NotificationView>,
    Seq<u8>,
)
    decreases buf.len(),
{
    match newline_index(buf) {
        None => (st, Seq::empty(), buf),
        Some(p) => {
            if 0 <= p < buf.len() {
                let line = line_text(buf.take(p + 1));
                let rest = buf.skip(p + 1);
                if line.len() == 0 {
                    process_lines(st, rest)
                } else {
                    let (st2, n) = apply_line(st, line);
                    let (st3, ns, rem) = process_lines(st2, rest);
                    (
                        st3,
                        match n {
                            Some(x) => seq![x] + ns,
                            None => ns,
                        },
                        rem,
                    )
                }
            } else {
                (st, Seq::empty(), buf)
            }
        },
    }
}

// ---------------------------------------------------------------------------
// Response tables
// ---------------------------------------------------------------------------

/// The lines of a response as character sequences.
pub open spec fn lines_view(v: Vec<String>) -> Seq<Seq<char>> {
    v@.map_values(|s: String| s@)
}

/// Whether `k` is the command number of some entry of `s`.
pub open spec fn has_key(s: Seq<(u64, Vec<String>)>, k: u64) -> bool {
    exists|i: int| 0 <= i < s.len() && #[trigger] s[i].0 == k
}

/// The table held by a list of (command number, lines) entries.
pub open spec fn table(s: Seq<(u64, Vec<String>)>) -> Responses {
    Map::new(
        |k: u64| has_key(s, k),
        |k: u64| lines_view(s[choose|i: int| 0 <= i < s.len() && #[trigger] s[i].0 == k].1),
    )
}

/// No command number occurs twice.
pub open spec fn keys_distinct(s: Seq<(u64, Vec<String>)>) -> bool {
    forall|i: int, j: int| 0 <= i < s.len() && 0 <= j < s.len() && i != j ==> s[i].0 != s[j].0
}

proof fn lemma_table_at(s: Seq<(u64, Vec<String>)>, i: int)
    requires
        keys_distinct(s),
        0 <= i < s.len(),
    ensures
        table(s).contains_key(s[i].0),
        table(s)[s[i].0] == lines_view(s[i].1),
{
    let k = s[i].0;
    assert(has_key(s, k));
    let j = choose|j: int| 0 <= j < s.len() && #[trigger] s[j].0 == k;
    assert(j == i);
}

proof fn lemma_table_push(s: Seq<(u64, Vec<String>)>, k: u64, v: Vec<String>)
    requires
        keys_distinct(s),
        !has_key(s, k),
    ensures
        keys_distinct(s.push((k, v))),
        table(s.push((k, v))) =~= table(s).insert(k, lines_view(v)),
{
    let t = s.push((k, v));
    assert forall|i: int, j: int| 0 <= i < t.len() && 0 <= j < t.len() && i != j implies t[i].0
        != t[j].0 by {
        if i < s.len() && j < s.len() {
        } else if i < s.len() {
            assert(s[i].0 == t[i].0);
        } else {
            assert(s[j].0 == t[j].0);
        }
    }
    assert forall|q: u64| #[trigger] table(t).contains_key(q) <==> table(s).insert(
        k,
        lines_view(v),
    ).contains_key(q) by {
        if has_key(t, q) {
            let i = choose|i: int| 0 <= i < t.len() && #[trigger] t[i].0 == q;
            if i < s.len() {
                assert(s[i].0 == q);
            }
        }
        if has_key(s, q) {
            let i = choose|i: int| 0 <= i < s.len() && #[trigger] s[i].0 == q;
            assert(t[i].0 == q);
        }
        if q == k {
            assert(t[s.len() as int].0 == q);
        }
    }
    assert forall|q: u64| #[trigger] table(t).contains_key(q) implies table(t)[q] == table(
        s,
    ).insert(k, lines_view(v))[q] by {
        let i = choose|i: int| 0 <= i < t.len() && #[trigger] t[i].0 == q;
        lemma_table_at(t, i);
        if i < s.len() {
            assert(t[i] == s[i]);
            lemma_table_at(s, i);
        }
    }
}

proof fn lemma_table_remove(s: Seq<(u64, Vec<String>)>, i: int)
    requires
        keys_distinct(s),
        0 <= i < s.len(),
    ensures
        keys_distinct(s.remove(i)),
        table(s.remove(i)) =~= table(s).remove(s[i].0),
{
    let t = s.remove(i);
    let k = s[i].0;
    assert forall|a: int, b: int| 0 <= a < t.len() && 0 <= b < t.len() && a != b implies t[a].0
        != t[b].0 by {
        let a2 = if a < i {
            a
        } else {
            a + 1
        };
        let b2 = if b < i {
            b
        } else {
            b + 1
        };
        assert(t[a] == s[a2]);
        assert(t[b] == s[b2]);
    }
    assert forall|q: u64| #[trigger] table(t).contains_key(q) <==> table(s).remove(k).contains_key(
        q,
    ) by {
        if has_key(t, q) {
            let a = choose|a: int| 0 <= a < t.len() && #[trigger] t[a].0 == q;
            let a2 = if a < i {
                a
            } else {
                a + 1
            };
            assert(t[a] == s[a2]);
            assert(s[a2].0 == q);
        }
        if has_key(s, q) && q != k {
            let a = choose|a: int| 0 <= a < s.len() && #[trigger] s[a].0 == q;
            if a < i {
                assert(t[a] == s[a]);
            } else {
                assert(t[a - 1] == s[a]);
            }
        }
    }
    assert forall|q: u64| #[trigger] table(t).contains_key(q) implies table(t)[q] == table(
        s,
    ).remove(k)[q] by {
        let a = choose|a: int| 0 <= a < t.len() && #[trigger] t[a].0 == q;
        lemma_table_at(t, a);
        let a2 = if a < i {
            a
        } else {
            a + 1
        };
        assert(t[a] == s[a2]);
        lemma_table_at(s, a2);
    }
}

/// Finds the entry for command number `k`.
fn find_entry(v: &Vec<(u64, Vec<String>)>, k: u64) -> (r: Option<usize>)
    ensures
        match r {
            Some(i) => i < v@.len() && v@[i as int].0 == k,
            None => !has_key(v@, k),
        },
{
    let mut i: usize = 0;
    while i < v.len()
        invariant
            i <= v@.len(),
            forall|j: int| 0 <= j < i ==> v@[j].0 != k,
        decreases v.len() - i,
    {
        if v[i].0 == k {
            return Some(i);
        }
        i += 1;
    }
    None
}

/// Appends a copy of `line` to the lines of every entry.
fn push_line_to_all(v: &mut Vec<(u64, Vec<String>)>, line: &String)
    requires
        keys_distinct(old(v)@),
    ensures
        keys_distinct(final(v)@),
        table(final(v)@) =~= table(old(v)@).map_values(|l: Seq<Seq<char>>| l.push(line@)),
{
    let ghost orig = v@;
    let mut i: usize = 0;
    while i < v.len()
        invariant
            i <= v@.len(),
            v@.len() == orig.len(),
            keys_distinct(orig),
            forall|j: int| 0 <= j < v@.len() ==> #[trigger] v@[j].0 == orig[j].0,
            forall|j: int|
                0 <= j < i ==> #[trigger] lines_view(v@[j].1) == lines_view(orig[j].1).push(
                    line@,
                ),
            forall|j: int| i <= j < v@.len() ==> #[trigger] v@[j] == orig[j],
        decreases v.len() - i,
    {
        let (k, mut lines) = v.remove(i);
        let copy = line.clone();
        lines.push(copy);
        assert(lines_view(lines) =~= lines_view(orig[i as int].1).push(line@));
        v.insert(i, (k, lines));
        i += 1;
    }
    assert(keys_distinct(v@));
    let ghost expect = table(orig).map_values(|l: Seq<Seq<char>>| l.push(line@));
    assert forall|q: u64| #[trigger] table(v@).contains_key(q) <==> expect.contains_key(q) by {
        if has_key(v@, q) {
            let a = choose|a: int| 0 <= a < v@.len() && #[trigger] v@[a].0 == q;
            assert(orig[a].0 == q);
        }
        if has_key(orig, q) {
            let a = choose|a: int| 0 <= a < orig.len() && #[trigger] orig[a].0 == q;
            assert(v@[a].0 == q);
        }
    }
    assert forall|q: u64| #[trigger] table(v@).contains_key(q) implies table(v@)[q] == expect[q] by {
        let a = choose|a: int| 0 <= a < v@.len() && #[trigger] v@[a].0 == q;
        lemma_table_at(v@, a);
        lemma_table_at(orig, a);
    }
}

// ---------------------------------------------------------------------------
// The parser
// ---------------------------------------------------------------------------

/// Parses raw bytes from a `tmux -CC` process into typed notifications.
pub struct ControlModeParser {
    /// Accumulates bytes until a complete line (ending in `\n`) is available.
    buffer: Vec<u8>,
    /// Command responses between %begin and %end, by command number.
    pending_responses: Vec<(u64, Vec<String>)>,
    /// Command responses whose %end or %error arrived, not yet taken.
    completed_responses: Vec<(u64, Vec<String>)>,
}

impl ControlModeParser {
    /// The bytes of the incomplete line not yet processed.
    pub closed spec fn buffered(&self) -> Seq<u8> {
        self.buffer@
    }

    /// The responses in progress and the completed responses not yet taken.
    pub closed spec fn responses(&self) -> ResponseState {
        ResponseState {
            open: table(self.pending_responses@),
            done: table(self.completed_responses@),
        }
    }

    /// The parser's tables are well formed, and no command number is both
    /// in progress and completed.
    pub closed spec fn wf(&self) -> bool {
        &&& keys_distinct(self.pending_responses@)
        &&& keys_distinct(self.completed_responses@)
        &&& responses_disjoint(self.responses())
    }

    /// A parser with no buffered bytes and no command responses.
    pub fn new() -> (p: Self)
        ensures
            p.wf(),
            p.buffered() == Seq::<u8>::empty(),
            p.responses().open == Responses::empty(),
            p.responses().done == Responses::empty(),
    {
        let p = Self {
            buffer: Vec::new(),
            pending_responses: Vec::new(),
            completed_responses: Vec::new(),
        };
        assert(table(p.pending_responses@) =~= Responses::empty());
        assert(table(p.completed_responses@) =~= Responses::empty());
        p
    }

    /// Feed raw bytes from the control mode stream. Returns any complete
    /// notifications that were parsed from complete lines in the input.
    pub fn feed(&mut self, data: &[u8]) -> (notifications: Vec<Notification>)
        requires
            old(self).wf(),
        ensures
            final(self).wf(),
            ({
                let (st, ns, rem) = process_lines(
                    old(self).responses(),
                    old(self).buffered() + data@,
                );
                &&& final(self).responses() == st
                &&& notifications@.map_values(|n: Notification| n@) == ns
                &&& final(self).buffered() == rem
            }),
    {
        append_bytes(&mut self.buffer, data);
        let ghost all = self.buffer@;
        let ghost st0 = self.responses();
        let mut notifications: Vec<Notification> = Vec::new();
        let mut start: usize = 0;
        let len = self.buffer.len();
        assert(all.skip(0) =~= all);
        assert(notifications@.map_values(|n: Notification| n@) =~= Seq::<NotificationView>::empty());
        proof {
            let (st, ns, rem) = process_lines(st0, all);
            assert(Seq::<NotificationView>::empty() + ns =~= ns);
        }
        loop
            invariant
                self.wf(),
                len == self.buffer@.len(),
                self.buffer@ == all,
                start <= len,
                ({
                    let (st, ns, rem) = process_lines(st0, all);
                    let (st2, ns2, rem2) = process_lines(self.responses(), all.skip(start as int));
                    &&& st == st2
                    &&& ns == notifications@.map_values(|n: Notification| n@) + ns2
                    &&& rem == rem2
                }),
            ensures
                self.wf(),
                len == self.buffer@.len(),
                self.buffer@ == all,
                start <= len,
                process_lines(st0, all) == (
                    self.responses(),
                    notifications@.map_values(|n: Notification| n@),
                    all.skip(start as int),
                ),
            decreases len - start,
        {
            let ghost cur = all.skip(start as int);
            let pos = match find_newline(self.buffer.as_slice(), start) {
                Some(p) => p,
                None => {
                    proof {
                        let (st2, ns2, rem2) = process_lines(self.responses(), cur);
                        assert(ns2 =~= Seq::<NotificationView>::empty());
                        assert(rem2 == cur);
                        assert(st2 == self.responses());
                        assert(notifications@.map_values(|n: Notification| n@) + ns2
                            =~= notifications@.map_values(|n: Notification| n@));
                    }
                    break;
                },
            };
            let ghost p = pos - start;
            proof {
                lemma_newline_index(cur);
                assert(newline_index(cur) == Some(p));
            }
            let line_bytes = copy_range(self.buffer.as_slice(), start, pos + 1);
            assert(line_bytes@ =~= cur.take(p + 1));
            assert(all.skip(pos + 1) =~= cur.skip(p + 1));
            let decoded = decode_utf8_lossy(line_bytes.as_slice());
            let dchars = str_chars(decoded.as_str());
            let line = trim_end_chars(dchars.as_slice());
            start = pos + 1;
            if line.len() == 0 {
                continue;
            }
            let ghost before = notifications@.map_values(|n: Notification| n@);
            let r = self.apply_line_chars(&line);
            if let Some(n) = r {
                notifications.push(n);
                assert(notifications@.map_values(|n: Notification| n@) =~= before.push(
                    notifications@[notifications@.len() - 1]@,
                ));
            }
        }
        let rest = copy_range(self.buffer.as_slice(), start, len);
        proof {
            assert(rest@ =~= all.skip(start as int));
        }
        self.buffer = rest;
        notifications
    }

    /// Applies one non-empty line to the response tables.
    fn apply_line_chars(&mut self, line: &Vec<char>) -> (r: Option<Notification>)
        requires
            old(self).wf(),
            line@.len() > 0,
        ensures
            final(self).wf(),
            final(self).buffered() == old(self).buffered(),
            ({
                let (st, n) = apply_line(old(self).responses(), line@);
                &&& final(self).responses() == st
                &&& match r {
                    Some(x) => n == Some(x@),
                    None => n is None,
                }
            }),
    {
        let s = chars_to_string(line.as_slice());
        self.parse_line(s.as_str())
    }

    /// Reads one non-empty line: a `%`-line becomes a notification (and
    /// starts or completes a command response); any other line is output of
    /// the command responses in progress.
    pub fn parse_line(&mut self, line: &str) -> (r: Option<Notification>)
        requires
            old(self).wf(),
        ensures
            final(self).wf(),
            final(self).buffered() == old(self).buffered(),
            ({
                let (st, n) = apply_line(old(self).responses(), line@);
                &&& final(self).responses() == st
                &&& match r {
                    Some(x) => n == Some(x@),
                    None => n is None,
                }
            }),
    {
        proof {
            lemma_apply_line_keeps_disjoint(self.responses(), line@);
        }
        let chars = str_chars(line);
        if !(chars.len() > 0 && chars[0] == '%') {
            let owned = chars_to_string(chars.as_slice());
            push_line_to_all(&mut self.pending_responses, &owned);
            return None;
        }
        let n = notification_from_chars(chars.as_slice());
        match &n {
            Some(Notification::Begin { command_number, .. }) => {
                self.begin_response(*command_number);
            },
            Some(Notification::End { command_number, .. }) => {
                self.close_response(*command_number);
            },
            Some(Notification::Error { command_number, .. }) => {
                self.close_response(*command_number);
            },
            _ => {},
        }
        n
    }

    /// Starts collecting the response `n` unless it is already in progress.
    fn begin_response(&mut self, n: u64)
        requires
            old(self).wf(),
        ensures
            final(self).wf(),
            final(self).buffered() == old(self).buffered(),
            final(self).responses() == (if old(self).responses().open.contains_key(n) {
                old(self).responses()
            } else {
                ResponseState {
                    open: old(self).responses().open.insert(n, Seq::empty()),
                    done: old(self).responses().done.remove(n),
                }
            }),
    {
        proof {
            lemma_track_keeps_disjoint(
                self.responses(),
                Some(NotificationView::Begin { command_number: n, flags: 0 }),
            );
        }
        match find_entry(&self.pending_responses, n) {
            Some(i) => {
                proof {
                    lemma_table_at(self.pending_responses@, i as int);
                }
            },
            None => {
                let fresh: Vec<String> = Vec::new();
                proof {
                    lemma_table_push(self.pending_responses@, n, fresh);
                    assert(lines_view(fresh) =~= Seq::<Seq<char>>::empty());
                }
                self.pending_responses.push((n, fresh));
                match find_entry(&self.completed_responses, n) {
                    Some(j) => {
                        proof {
                            lemma_table_remove(self.completed_responses@, j as int);
                        }
                        self.completed_responses.remove(j);
                    },
                    None => {
                        assert(table(self.completed_responses@) =~= table(
                            self.completed_responses@,
                        ).remove(n));
                    },
                }
            },
        }
    }

    /// Moves the response `n` in progress, if any, to the completed ones.
    fn close_response(&mut self, n: u64)
        requires
            old(self).wf(),
        ensures
            final(self).wf(),
            final(self).buffered() == old(self).buffered(),
            final(self).responses() == close_response(old(self).responses(), n),
    {
        proof {
            lemma_close_keeps_disjoint(self.responses(), n);
        }
        match find_entry(&self.pending_responses, n) {
            Some(i) => {
                proof {
                    lemma_table_at(self.pending_responses@, i as int);
                    lemma_table_remove(self.pending_responses@, i as int);
                }
                let (k, lines) = self.pending_responses.remove(i);
                match find_entry(&self.completed_responses, n) {
                    Some(j) => {
                        proof {
                            lemma_table_remove(self.completed_responses@, j as int);
                            lemma_table_push(
                                self.completed_responses@.remove(j as int),
                                k,
                                lines,
                            );
                            assert(!has_key(self.completed_responses@.remove(j as int), k)) by {
                                if has_key(self.completed_responses@.remove(j as int), k) {
                                    let a = choose|a: int|
                                        0 <= a < self.completed_responses@.len() - 1
                                            && #[trigger] self.completed_responses@.remove(
                                            j as int,
                                        )[a].0 == k;
                                    if a < j {
                                        assert(self.completed_responses@.remove(j as int)[a]
                                            == self.completed_responses@[a]);
                                    } else {
                                        assert(self.completed_responses@.remove(j as int)[a]
                                            == self.completed_responses@[a + 1]);
                                    }
                                }
                            }
                        }
                        self.completed_responses.remove(j);
                        self.completed_responses.push((k, lines));
                        assert(table(self.completed_responses@) =~= close_response(
                            old(self).responses(),
                            n,
                        ).done);
                    },
                    None => {
                        proof {
                            lemma_table_push(self.completed_responses@, k, lines);
                        }
                        self.completed_responses.push((k, lines));
                    },
                }
            },
            None => {},
        }
    }

    /// Collect a completed command response. Call after receiving an `End`
    /// or `Error` notification to retrieve the accumulated output lines; a
    /// response still in progress is handed out as it stands. Either way
    /// nothing of that command number is kept afterwards.
    pub fn take_response(&mut self, command_number: u64) -> (r: Option<Vec<String>>)
        requires
            old(self).wf(),
        ensures
            final(self).wf(),
            final(self).buffered() == old(self).buffered(),
            final(self).responses() == (ResponseState {
                open: old(self).responses().open.remove(command_number),
                done: old(self).responses().done.remove(command_number),
            }),
            ({
                let st = old(self).responses();
                if st.done.contains_key(command_number) {
                    r is Some && lines_view(r->0) == st.done[command_number]
                } else if st.open.contains_key(command_number) {
                    r is Some && lines_view(r->0) == st.open[command_number]
                } else {
                    r is None
                }
            }),
    {
        proof {
            lemma_remove_keeps_disjoint(self.responses(), command_number);
        }
        let done = match find_entry(&self.completed_responses, command_number) {
            Some(i) => {
                proof {
                    lemma_table_at(self.completed_responses@, i as int);
                    lemma_table_remove(self.completed_responses@, i as int);
                }
                let (_, lines) = self.completed_responses.remove(i);
                Some(lines)
            },
            None => {
                assert(table(self.completed_responses@) =~= table(self.completed_responses@).remove(
                    command_number,
                ));
                None
            },
        };
        let open = match find_entry(&self.pending_responses, command_number) {
            Some(i) => {
                proof {
                    lemma_table_at(self.pending_responses@, i as int);
                    lemma_table_remove(self.pending_responses@, i as int);
                }
                let (_, lines) = self.pending_responses.remove(i);
                Some(lines)
            },
            None => {
                assert(table(self.pending_responses@) =~= table(self.pending_responses@).remove(
                    command_number,
                ));
                None
            },
        };
        match done {
            Some(lines) => Some(lines),
            None => open,
        }
    }
}

impl Default for ControlModeParser {
    fn default() -> (p: Self)
        ensures
            p.wf(),
            p.buffered() == Seq::<u8>::empty(),
            p.responses().open == Responses::empty(),
            p.responses().done == Responses::empty(),
    {
        Self::new()
    }
}

// ---------------------------------------------------------------------------
// Laws of the stream
// ---------------------------------------------------------------------------

/// A parser never holds one command number both as a response in progress
/// and as a completed one: `%begin` drops a finished response of its
/// number, `%end` and `%error` move it from one table to the other, and
/// `take_response` removes it from both.
pub proof fn parser_never_holds_a_number_twice(p: &ControlModeParser, n: u64)
    requires
        p.wf(),
    ensures
        !(p.responses().open.contains_key(n) && p.responses().done.contains_key(n)),
{
}

/// Feeding `a` and then `b` gives the notifications, responses and
/// buffered bytes that feeding `a + b` at once gives: a line split across
/// chunks is read as if it had arrived whole.
pub proof fn feeding_in_pieces_equals_feeding_at_once(st: ResponseState, a: Seq<u8>, b: Seq<u8>)
    ensures
        ({
            let (st1, ns1, rem1) = process_lines(st, a);
            let (st2, ns2, rem2) = process_lines(st1, rem1 + b);
            process_lines(st, a + b) == (st2, ns1 + ns2, rem2)
        }),
    decreases a.len(),
{
    lemma_newline_index(a);
    match newline_index(a) {
        None => {
            assert(Seq::<NotificationView>::empty() + process_lines(st, a + b).1 =~= process_lines(
                st,
                a + b,
            ).1);
        },
        Some(p) => {
            let ab = a + b;
            lemma_newline_index_unique(ab, p);
            assert(ab.take(p + 1) =~= a.take(p + 1));
            assert(ab.skip(p + 1) =~= a.skip(p + 1) + b);
            let rest = a.skip(p + 1);
            let line = line_text(a.take(p + 1));
            if line.len() == 0 {
                feeding_in_pieces_equals_feeding_at_once(st, rest, b);
            } else {
                let (st_l, n) = apply_line(st, line);
                feeding_in_pieces_equals_feeding_at_once(st_l, rest, b);
                let (st1, ns1, rem1) = process_lines(st_l, rest);
                let (st2, ns2, rem2) = process_lines(st1, rem1 + b);
                match n {
                    Some(x) => {
                        assert(seq![x] + ns1 + ns2 =~= seq![x] + (ns1 + ns2));
                    },
                    None => {},
                }
            }
        },
    }
}

/// The responses after reading the non-empty lines `lines` one by one.
pub open spec fn apply_lines(st: ResponseState, lines: Seq<Seq<char>>) -> ResponseState
    decreases lines.len(),
{
    if lines.len() == 0 {
        st
    } else {
        apply_lines(apply_line(st, lines[0]).0, lines.drop_first())
    }
}

/// Whether `line` is command output: non-empty and not a `%`-line.
pub open spec fn is_output_line(line: Seq<char>) -> bool {
    line.len() > 0 && line[0] != '%'
}

proof fn lemma_output_lines_collected(st: ResponseState, n: u64, outs: Seq<Seq<char>>, end: Seq<char>)
    requires
        st.open.contains_key(n),
        forall|i: int| 0 <= i < outs.len() ==> is_output_line(#[trigger] outs[i]),
        end.len() > 0 && end[0] == '%',
        notification_of(end) matches Some(v) && ((v matches NotificationView::End {
            command_number,
            ..
        } && command_number == n) || (v matches NotificationView::Error { command_number, .. }
            && command_number == n)),
    ensures
        ({
            let fin = apply_lines(st, outs.push(end));
            &&& fin.done.contains_key(n)
            &&& fin.done[n] == st.open[n] + outs
            &&& !fin.open.contains_key(n)
            &&& forall|k: u64| k != n ==> #[trigger] fin.done.contains_key(k) == st.done.contains_key(k)
            &&& forall|k: u64| k != n && st.done.contains_key(k) ==> #[trigger] fin.done[k] == st.done[k]
        }),
    decreases outs.len(),
{
    if outs.len() == 0 {
        assert(outs.push(end) =~= seq![end]);
        assert(seq![end].drop_first() =~= Seq::<Seq<char>>::empty());
        assert(st.open[n] + outs =~= st.open[n]);
        let fin = apply_line(st, end).0;
        assert(fin == close_response(st, n));
        assert(apply_lines(fin, Seq::<Seq<char>>::empty()) == fin);
        assert(apply_lines(st, seq![end]) == fin);
    } else {
        let l = outs[0];
        assert(is_output_line(outs[0]));
        let st1 = apply_line(st, l).0;
        assert(st1.open[n] == st.open[n].push(l));
        assert(st1.done == st.done);
        assert(st1.open.contains_key(n));
        assert(outs.push(end).drop_first() =~= outs.drop_first().push(end));
        assert forall|i: int| 0 <= i < outs.drop_first().len() implies is_output_line(
            #[trigger] outs.drop_first()[i],
        ) by {
            assert(outs.drop_first()[i] == outs[i + 1]);
        }
        lemma_output_lines_collected(st1, n, outs.drop_first(), end);
        assert(st.open[n].push(l) + outs.drop_first() =~= st.open[n] + outs);
    }
}

/// A command response holds exactly the output lines read between its
/// `%begin` and its `%end` (or `%error`), and is complete afterwards; the
/// other completed responses are left as they were.
pub proof fn response_holds_lines_between_begin_and_end(
    st: ResponseState,
    n: u64,
    begin: Seq<char>,
    outs: Seq<Seq<char>>,
    end: Seq<char>,
)
    requires
        !st.open.contains_key(n),
        begin.len() > 0 && begin[0] == '%',
        notification_of(begin) matches Some(NotificationView::Begin { command_number, .. })
            && command_number == n,
        forall|i: int| 0 <= i < outs.len() ==> is_output_line(#[trigger] outs[i]),
        end.len() > 0 && end[0] == '%',
        notification_of(end) matches Some(v) && ((v matches NotificationView::End {
            command_number,
            ..
        } && command_number == n) || (v matches NotificationView::Error { command_number, .. }
            && command_number == n)),
    ensures
        ({
            let fin = apply_lines(st, seq![begin] + outs.push(end));
            &&& fin.done.contains_key(n)
            &&& fin.done[n] == outs
            &&& !fin.open.contains_key(n)
            &&& forall|k: u64| k != n ==> #[trigger] fin.done.contains_key(k) == st.done.contains_key(k)
            &&& forall|k: u64| k != n && st.done.contains_key(k) ==> #[trigger] fin.done[k] == st.done[k]
        }),
{
    let all = seq![begin] + outs.push(end);
    assert(all[0] == begin);
    assert(all.drop_first() =~= outs.push(end));
    let st1 = apply_line(st, begin).0;
    assert(st1.open.contains_key(n) && st1.open[n] == Seq::<Seq<char>>::empty());
    lemma_output_lines_collected(st1, n, outs, end);
    assert(Seq::<Seq<char>>::empty() + outs =~= outs);
}

// ---------------------------------------------------------------------------
// Helpers
// ---------------------------------------------------------------------------

proof fn lemma_newline_index(b: Seq<u8>)
    ensures
        match newline_index(b) {
            Some(i) => 0 <= i < b.len() && b[i] == 10 && forall|j: int| 0 <= j < i ==> b[j] != 10,
            None => forall|j: int| 0 <= j < b.len() ==> b[j] != 10,
        },
    decreases b.len(),
{
    if b.len() > 0 && b[0] != 10 {
        lemma_newline_index(b.drop_first());
        assert forall|j: int| 0 < j < b.len() implies b[j] == b.drop_first()[j - 1] by {}
    }
}

proof fn lemma_newline_index_unique(b: Seq<u8>, i: int)
    requires
        0 <= i <= b.len(),
        forall|j: int| 0 <= j < i ==> b[j] != 10,
    ensures
        i < b.len() && b[i] == 10 ==> newline_index(b) == Some(i),
        i == b.len() ==> newline_index(b) is None,
{
    lemma_newline_index(b);
}

/// The position of the first newline in `v[from..]`, counted from the start
/// of `v`.
fn find_newline(v: &[u8], from: usize) -> (r: Option<usize>)
    requires
        from <= v@.len(),
    ensures
        match r {
            Some(p) => from <= p < v@.len() && newline_index(v@.skip(from as int)) == Some(p - from),
            None => newline_index(v@.skip(from as int)) is None,
        },
{
    let mut i = from;
    while i < v.len()
        invariant
            from <= i <= v@.len(),
            forall|j: int| from <= j < i ==> v@[j] != 10,
        decreases v.len() - i,
    {
        if v[i] == 10 {
            proof {
                lemma_newline_index_unique(v@.skip(from as int), i - from);
            }
            return Some(i);
        }
        i += 1;
    }
    proof {
        lemma_newline_index_unique(v@.skip(from as int), i - from);
    }
    None
}

/// Copies `v[from..to]`.
fn copy_range(v: &[u8], from: usize, to: usize) -> (r: Vec<u8>)
    requires
        from <= to <= v@.len(),
    ensures
        r@ == v@.subrange(from as int, to as int),
{
    let mut r: Vec<u8> = Vec::new();
    let mut i = from;
    while i < to
        invariant
            from <= i <= to <= v@.len(),
            r@ == v@.subrange(from as int, i as int),
        decreases to - i,
    {
        r.push(v[i]);
        i += 1;
        assert(r@ =~= v@.subrange(from as int, i as int));
    }
    r
}

/// Parse a tmux ID like `$1`, `@2`, or `%3` — returns the numeric part.
pub fn parse_prefixed_id(s: &str, prefix: char) -> (r: Option<u64>)
    ensures
        r == prefixed_id(s@, prefix),
{
    let v = str_chars(s);
    prefixed_id_chars(v.as_slice(), prefix)
}

fn prefixed_id_chars(v: &[char], prefix: char) -> (r: Option<u64>)
    ensures
        r == prefixed_id(v@, prefix),
{
    if v.len() > 0 && v[0] == prefix {
        let tail = sub_chars(v, 1, v.len());
        assert(tail@ =~= v@.drop_first());
        match parse_u64_chars(tail.as_slice()) {
            Some(n) => Some(n),
            None => None,
        }
    } else {
        None
    }
}

/// Parse `"$1 session-name"` or `"@2 window-name"` into `(id, name)`.
pub fn parse_id_and_name(s: &str, prefix: char) -> (r: Option<(u64, String)>)
    ensures
        match r {
            Some((id, name)) => id_and_name(s@, prefix) == Some((id, name@)),
            None => id_and_name(s@, prefix) is None,
        },
{
    let v = str_chars(s);
    match id_and_name_chars(v.as_slice(), prefix) {
        Some((id, name)) => Some((id, chars_to_string(name.as_slice()))),
        None => None,
    }
}

fn id_and_name_chars(v: &[char], prefix: char) -> (r: Option<(u64, Vec<char>)>)
    ensures
        match r {
            Some((id, name)) => id_and_name(v@, prefix) == Some((id, name@)),
            None => id_and_name(v@, prefix) is None,
        },
{
    match split_once_chars(v, ' ') {
        Some((id_part, name_part)) => match prefixed_id_chars(id_part.as_slice(), prefix) {
            Some(id) => Some((id, name_part)),
            None => None,
        },
        None => None,
    }
}

/// Decode tmux octal escapes in `%output` data.
///
/// Tmux escapes non-printable bytes as `\OOO` (three-digit octal).
pub fn decode_octal_escapes(s: &str) -> (out: Vec<u8>)
    ensures
        out@ == octal_decode(encode_utf8(s@)),
{
    let bytes = s.as_bytes();
    let mut out: Vec<u8> = Vec::new();
    let mut i: usize = 0;
    assert(bytes@.skip(0) =~= bytes@);
    assert(out@ + octal_decode(bytes@) =~= octal_decode(bytes@));
    while i < bytes.len()
        invariant
            i <= bytes@.len(),
            octal_decode(bytes@) == out@ + octal_decode(bytes@.skip(i as int)),
        decreases bytes.len() - i,
    {
        let ghost cur = bytes@.skip(i as int);
        if bytes[i] == 0x5c && bytes.len() - i > 3 {
            let d1 = bytes[i + 1];
            let d2 = bytes[i + 2];
            let d3 = bytes[i + 3];
            if 0x30 <= d1 && d1 <= 0x37 && 0x30 <= d2 && d2 <= 0x37 && 0x30 <= d3 && d3 <= 0x37 {
                let val: u16 = (d1 - 0x30) as u16 * 64 + (d2 - 0x30) as u16 * 8 + (d3 - 0x30) as u16;
                if val <= 255 {
                    assert(starts_with_octal_escape(cur));
                    assert(cur.skip(4) =~= bytes@.skip(i + 4));
                    out.push(val as u8);
                    i += 4;
                    continue;
                }
            }
        }
        assert(!starts_with_octal_escape(cur));
        assert(cur.drop_first() =~= bytes@.skip(i + 1));
        out.push(bytes[i]);
        i += 1;
    }
    assert(octal_decode(bytes@.skip(i as int)) =~= Seq::<u8>::empty());
    assert(out@ + Seq::<u8>::empty() =~= out@);
    out
}

/// Reads a `%`-line as a notification without touching any response table.
fn notification_from_chars(line: &[char]) -> (r: Option<Notification>)
    requires
        line@.len() > 0,
    ensures
        match r {
            Some(x) => notification_of(line@) == Some(x@),
            None => notification_of(line@) is None,
        },
{
    let body = sub_chars(line, 1, line.len());
    assert(body@ =~= line@.drop_first());
    let (name, rest) = match split_once_chars(body.as_slice(), ' ') {
        Some((n, r)) => (n, r),
        None => (body, Vec::new()),
    };
    assert(name_and_args(line@) == (name@, rest@));
    let nm = name.as_slice();
    if chars_eq_str(nm, "sessions-changed") {
        Some(Notification::SessionsChanged)
    } else if chars_eq_str(nm, "session-changed") {
        match id_and_name_chars(rest.as_slice(), '$') {
            Some((id, n)) => Some(
                Notification::SessionChanged {
                    session_id: id,
                    name: chars_to_string(n.as_slice()),
                },
            ),
            None => None,
        }
    } else if chars_eq_str(nm, "session-renamed") {
        match id_and_name_chars(rest.as_slice(), '$') {
            Some((id, n)) => Some(
                Notification::SessionRenamed {
                    session_id: id,
                    name: chars_to_string(n.as_slice()),
                },
            ),
            None => None,
        }
    } else if chars_eq_str(nm, "session-window-changed") {
        match id_and_name_chars(rest.as_slice(), '$') {
            Some((sid, w)) => match prefixed_id_chars(w.as_slice(), '@') {
                Some(wid) => Some(
                    Notification::SessionWindowChanged { session_id: sid, window_id: wid },
                ),
                None => None,
            },
            None => None,
        }
    } else if chars_eq_str(nm, "window-add") {
        let t = trim_chars(rest.as_slice());
        match prefixed_id_chars(t.as_slice(), '@') {
            Some(id) => Some(Notification::WindowAdd { window_id: id }),
            None => None,
        }
    } else if chars_eq_str(nm, "window-close") {
        let t = trim_chars(rest.as_slice());
        match prefixed_id_chars(t.as_slice(), '@') {
            Some(id) => Some(Notification::WindowClose { window_id: id }),
            None => None,
        }
    } else if chars_eq_str(nm, "window-renamed") {
        match id_and_name_chars(rest.as_slice(), '@') {
            Some((id, n)) => Some(
                Notification::WindowRenamed { window_id: id, name: chars_to_string(n.as_slice()) },
            ),
            None => None,
        }
    } else if chars_eq_str(nm, "window-pane-changed") {
        match id_and_name_chars(rest.as_slice(), '@') {
            Some((wid, p)) => match prefixed_id_chars(p.as_slice(), '%') {
                Some(pid) => Some(Notification::WindowPaneChanged { window_id: wid, pane_id: pid }),
                None => None,
            },
            None => None,
        }
    } else if chars_eq_str(nm, "pane-mode-changed") {
        match word_at_chars(rest.as_slice(), 0) {
            Some(w) => match prefixed_id_chars(w.as_slice(), '%') {
                Some(pid) => {
                    let mode: u8 = match word_at_chars(rest.as_slice(), 1) {
                        Some(m) => match parse_u8_chars(m.as_slice()) {
                            Some(v) => v,
                            None => 0,
                        },
                        None => 0,
                    };
                    Some(Notification::PaneModeChanged { pane_id: pid, mode })
                },
                None => None,
            },
            None => None,
        }
    } else if chars_eq_str(nm, "output") {
        match split_once_chars(rest.as_slice(), ' ') {
            Some((id_part, data_part)) => match prefixed_id_chars(id_part.as_slice(), '%') {
                Some(pid) => {
                    let encoded = chars_to_string(data_part.as_slice());
                    let data = decode_octal_escapes(encoded.as_str());
                    Some(Notification::Output { pane_id: pid, data })
                },
                None => None,
            },
            None => {
                let t = trim_chars(rest.as_slice());
                match prefixed_id_chars(t.as_slice(), '%') {
                    Some(pid) => Some(Notification::Output { pane_id: pid, data: Vec::new() }),
                    None => None,
                }
            },
        }
    } else if chars_eq_str(nm, "layout-change") {
        match id_and_name_chars(rest.as_slice(), '@') {
            Some((id, l)) => Some(
                Notification::LayoutChange { window_id: id, layout: chars_to_string(l.as_slice()) },
            ),
            None => None,
        }
    } else if chars_eq_str(nm, "begin") {
        match number_and_flags_chars(rest.as_slice()) {
            Some((n, f)) => Some(Notification::Begin { command_number: n, flags: f }),
            None => None,
        }
    } else if chars_eq_str(nm, "end") {
        match number_and_flags_chars(rest.as_slice()) {
            Some((n, f)) => Some(Notification::End { command_number: n, flags: f }),
            None => None,
        }
    } else if chars_eq_str(nm, "error") {
        let (num, msg) = match split_once_chars(rest.as_slice(), ' ') {
            Some((a, b)) => (a, b),
            None => (sub_chars(rest.as_slice(), 0, rest.len()), Vec::new()),
        };
        assert(rest@.subrange(0, rest@.len() as int) =~= rest@);
        match parse_u64_chars(num.as_slice()) {
            Some(n) => Some(
                Notification::Error { command_number: n, message: chars_to_string(msg.as_slice()) },
            ),
            None => None,
        }
    } else if chars_eq_str(nm, "exit") {
        let reason = if rest.len() == 0 {
            None
        } else {
            Some(chars_to_string(rest.as_slice()))
        };
        Some(Notification::Exit { reason })
    } else {
        Some(
            Notification::Unknown {
                name: chars_to_string(nm),
                args: chars_to_string(rest.as_slice()),
            },
        )
    }
}

fn number_and_flags_chars(rest: &[char]) -> (r: Option<(u64, u32)>)
    ensures
        r == number_and_flags(rest@),
{
    match word_at_chars(rest, 0) {
        Some(w) => match parse_u64_chars(w.as_slice()) {
            Some(n) => {
                let flags: u32 = match word_at_chars(rest, 1) {
                    Some(f) => match parse_u32_chars(f.as_slice()) {
                        Some(v) => v,
                        None => 0,
                    },
                    None => 0,
                };
                Some((n, flags))
            },
            None => None,
        },
        None => None,
    }
}

} // verus!
