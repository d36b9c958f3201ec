//! Identifiers and key names: terminal session keys, keyboard shortcut
//! accelerators, and hex dumps of raw bytes for diagnostics.
use vstd::prelude::*;
use crate::text::{
    append_chars, chars_eq_str, chars_to_string, decimal, push_char, split_once, split_once_chars, str_chars,
    trim, trim_chars, u64_to_decimal,
};

verus! {

// ---------------------------------------------------------------------------
// Unicode case mapping (std)
// ---------------------------------------------------------------------------

/// The characters of std's `str::to_lowercase` of `s` (Unicode lower case).
pub uninterp spec fn unicode_lowercase(s: Seq<char>) -> Seq<char>;

/// The characters of std's `str::to_uppercase` of `s` (Unicode upper case).
pub uninterp spec fn unicode_uppercase(s: Seq<char>) -> Seq<char>;

/// std `str::to_lowercase`; the contract names the result.
#[verifier::external_body]
pub(crate) fn to_lowercase(s: &str) -> (r: String)
    ensures
        r@ == unicode_lowercase(s@),
{
    s.to_lowercase()
}

/// std `str::to_uppercase`; the contract names the result.
#[verifier::external_body]
pub(crate) fn to_uppercase(s: &str) -> (r: String)
    ensures
        r@ == unicode_uppercase(s@),
{
    s.to_uppercase()
}

// ---------------------------------------------------------------------------
// Session keys
// ---------------------------------------------------------------------------

/// `<window_label>:<pane_id>`.
pub open spec fn session_key_text(window_label: Seq<char>, pane_id: u32) -> Seq<char> {
    window_label + seq![':'] + decimal(pane_id as nat)
}

/// `conn:<window_label>:<pane_id>`.
pub open spec fn connection_key_text(window_label: Seq<char>, pane_id: u32) -> Seq<char> {
    "conn:"@ + window_label + seq![':'] + decimal(pane_id as nat)
}

/// The key under which the terminal session of a pane is registered.
pub fn session_key(window_label: &str, pane_id: u32) -> (r: String)
    ensures
        r@ == session_key_text(window_label@, pane_id),
{
    let mut s = window_label.to_owned();
    push_char(&mut s, ':');
    let d = u64_to_decimal(pane_id as u64);
    append_chars(&mut s, d.as_slice());
    s
}

/// The key under which the SSH connection of a pane is registered.
pub fn connection_key(window_label: &str, pane_id: u32) -> (r: String)
    ensures
        r@ == connection_key_text(window_label@, pane_id),
{
    let mut s = "conn:".to_owned();
    let w = str_chars(window_label);
    append_chars(&mut s, w.as_slice());
    push_char(&mut s, ':');
    let d = u64_to_decimal(pane_id as u64);
    append_chars(&mut s, d.as_slice());
    s
}

/// A pane's connection key never equals its session key, and always starts
/// with `conn:`.
pub proof fn connection_key_differs_from_session_key(window_label: Seq<char>, pane_id: u32)
    ensures
        connection_key_text(window_label, pane_id) != session_key_text(window_label, pane_id),
        connection_key_text(window_label, pane_id).take(5) == "conn:"@,
{
    reveal_strlit("conn:");
    assert(connection_key_text(window_label, pane_id).len() == session_key_text(
        window_label,
        pane_id,
    ).len() + 5);
    assert(connection_key_text(window_label, pane_id).take(5) =~= "conn:"@);
}

// ---------------------------------------------------------------------------
// Hex dumps
// ---------------------------------------------------------------------------

/// The lower-case hex digit for `v < 16`.
pub open spec fn hex_digit(v: int) -> char {
    if v < 10 {
        (v + 48) as char
    } else {
        (v - 10 + 97) as char
    }
}

/// `b` as two lower-case hex digits (`{:02x}`).
pub open spec fn hex_byte(b: u8) -> Seq<char> {
    seq![hex_digit((b / 16) as int), hex_digit((b % 16) as int)]
}

/// The bytes as two-digit lower-case hex numbers separated by single spaces.
pub open spec fn hex_dump(bytes: Seq<u8>) -> Seq<char>
    decreases bytes.len(),
{
    if bytes.len() == 0 {
        Seq::empty()
    } else if bytes.len() == 1 {
        hex_byte(bytes[0])
    } else {
        hex_dump(bytes.drop_last()) + seq![' '] + hex_byte(bytes.last())
    }
}

fn hex_digit_exec(v: u8) -> (c: char)
    requires
        v < 16,
    ensures
        c == hex_digit(v as int),
{
    if v < 10 {
        (v + 48) as char
    } else {
        (v - 10 + 97) as char
    }
}

/// Renders bytes as space-separated two-digit hex numbers.
pub fn debug_bytes_hex(bytes: &[u8]) -> (r: String)
    ensures
        r@ == hex_dump(bytes@),
{
    let mut s = String::new();
    let mut i: usize = 0;
    while i < bytes.len()
        invariant
            i <= bytes@.len(),
            s@ == hex_dump(bytes@.take(i as int)),
        decreases bytes.len() - i,
    {
        let b = bytes[i];
        if i > 0 {
            push_char(&mut s, ' ');
        }
        push_char(&mut s, hex_digit_exec(b / 16));
        push_char(&mut s, hex_digit_exec(b % 16));
        assert(bytes@.take(i + 1).drop_last() =~= bytes@.take(i as int));
        i += 1;
        assert(s@ =~= hex_dump(bytes@.take(i as int)));
    }
    assert(bytes@.take(bytes@.len() as int) =~= bytes@);
    s
}

// ---------------------------------------------------------------------------
// Keyboard shortcuts
// ---------------------------------------------------------------------------

/// std `str::split(c)`: all the pieces of `s` between occurrences of `c`.
pub open spec fn split_all(s: Seq<char>, c: char) -> Seq<Seq<char>>
    decreases s.len(),
{
    match split_once(s, c) {
        None => seq![s],
        Some((a, b)) => if b.len() < s.len() {
            seq![a] + split_all(b, c)
        } else {
            seq![a]
        },
    }
}

/// The pieces joined with `+` between them.
pub open spec fn join_plus(parts: Seq<Seq<char>>) -> Seq<char>
    decreases parts.len(),
{
    if parts.len() == 0 {
        Seq::empty()
    } else if parts.len() == 1 {
        parts[0]
    } else {
        join_plus(parts.drop_last()) + seq!['+'] + parts.last()
    }
}

/// The accelerator name of one part of a keybinding, given the part in
/// lower case: modifier names are mapped, any other key is upper-cased.
pub open spec fn accelerator_part(lower: Seq<char>) -> Seq<char> {
    if lower == "cmd"@ {
        "CmdOrCtrl"@
    } else if lower == "ctrl"@ {
        "Ctrl"@
    } else if lower == "shift"@ {
        "Shift"@
    } else if lower == "alt"@ || lower == "opt"@ || lower == "option"@ {
        "Alt"@
    } else {
        unicode_uppercase(lower)
    }
}

/// The Tauri accelerator for a conch keybinding: each `+`-separated part
/// trimmed, lower-cased and mapped.
pub open spec fn accelerator(key: Seq<char>) -> Seq<char> {
    join_plus(
        split_all(key, '+').map_values(
            |p: Seq<char>| accelerator_part(unicode_lowercase(trim(p))),
        ),
    )
}

fn accelerator_part_exec(part: &[char]) -> (r: String)
    ensures
        r@ == accelerator_part(unicode_lowercase(trim(part@))),
{
    let t = trim_chars(part);
    let ts = chars_to_string(t.as_slice());
    let lower = to_lowercase(ts.as_str());
    let lc = str_chars(lower.as_str());
    let l = lc.as_slice();
    if chars_eq_str(l, "cmd") {
        "CmdOrCtrl".to_owned()
    } else if chars_eq_str(l, "ctrl") {
        "Ctrl".to_owned()
    } else if chars_eq_str(l, "shift") {
        "Shift".to_owned()
    } else if chars_eq_str(l, "alt") || chars_eq_str(l, "opt") || chars_eq_str(l, "option") {
        "Alt".to_owned()
    } else {
        to_uppercase(lower.as_str())
    }
}

/// Convert a conch config keybinding (e.g. "cmd+shift+r") to a Tauri
/// accelerator string (e.g. "CmdOrCtrl+Shift+R").
pub fn config_key_to_accelerator(key: &str) -> (r: String)
    ensures
        r@ == accelerator(key@),
{
    let mut rest = str_chars(key);
    let mut out = String::new();
    let mut started = false;
    let ghost f = |p: Seq<char>| accelerator_part(unicode_lowercase(trim(p)));
    let ghost done: Seq<Seq<char>> = Seq::empty();
    loop
        invariant
            split_all(key@, '+') == done + split_all(rest@, '+'),
            started == (done.len() > 0),
            started ==> out@ == join_plus(done.map_values(f)),
            !started ==> out@ == Seq::<char>::empty(),
            f == (|p: Seq<char>| accelerator_part(unicode_lowercase(trim(p)))),
        ensures
            out@ == accelerator(key@),
        decreases rest@.len(),
    {
        let ghost old_done = done;
        match split_once_chars(rest.as_slice(), '+') {
            None => {
                let part = accelerator_part_exec(rest.as_slice());
                if started {
                    push_char(&mut out, '+');
                }
                let pc = str_chars(part.as_str());
                append_chars(&mut out, pc.as_slice());
                proof {
                    done = done.push(rest@);
                    assert(split_all(rest@, '+') == seq![rest@]);
                    assert(split_all(key@, '+') =~= done);
                    assert(done.map_values(f).drop_last() =~= old_done.map_values(f));
                }
                return out;
            },
            Some((a, b)) => {
                proof {
                    crate::text::lemma_index_of(rest@, '+');
                }
                let part = accelerator_part_exec(a.as_slice());
                if started {
                    push_char(&mut out, '+');
                }
                let pc = str_chars(part.as_str());
                append_chars(&mut out, pc.as_slice());
                proof {
                    done = done.push(a@);
                    assert(done.map_values(f).drop_last() =~= old_done.map_values(f));
                    assert(split_all(rest@, '+') == seq![a@] + split_all(b@, '+'));
                    assert(old_done + (seq![a@] + split_all(b@, '+')) =~= done + split_all(
                        b@,
                        '+',
                    ));
                }
                rest = b;
                started = true;
            },
        }
    }
}

// ---------------------------------------------------------------------------
// Plugin menu shortcuts
// ---------------------------------------------------------------------------

/// The key under which a plugin menu item's shortcut can be overridden:
/// `<plugin>:<action>`.
pub open spec fn shortcut_key_text(plugin: Seq<char>, action: Seq<char>) -> Seq<char> {
    plugin + seq![':'] + action
}

/// Builds the override key of a plugin menu item's shortcut.
pub fn plugin_shortcut_key(plugin: &str, action: &str) -> (r: String)
    ensures
        r@ == shortcut_key_text(plugin@, action@),
{
    let mut s = plugin.to_owned();
    push_char(&mut s, ':');
    let a = str_chars(action);
    append_chars(&mut s, a.as_slice());
    s
}

/// The keybinding a plugin menu item gets: the configured override,
/// trimmed, when it is not empty; else the plugin's own keybinding.
pub open spec fn chosen_keybind_text(override_value: Option<Seq<char>>, default: Option<Seq<char>>) -> Option<Seq<char>> {
    match override_value {
        Some(o) if trim(o).len() > 0 => Some(trim(o)),
        _ => default,
    }
}

/// Chooses the keybinding of a plugin menu item (see `chosen_keybind_text`).
pub fn chosen_keybind(override_value: Option<&str>, default: Option<&str>) -> (r: Option<String>)
    ensures
        match r {
            Some(k) => chosen_keybind_text(
                match override_value {
                    Some(o) => Some(o@),
                    None => None,
                },
                match default {
                    Some(d) => Some(d@),
                    None => None,
                },
            ) == Some(k@),
            None => chosen_keybind_text(
                match override_value {
                    Some(o) => Some(o@),
                    None => None,
                },
                match default {
                    Some(d) => Some(d@),
                    None => None,
                },
            ) is None,
        },
{
    if let Some(o) = override_value {
        let v = str_chars(o);
        let t = trim_chars(v.as_slice());
        if t.len() > 0 {
            return Some(chars_to_string(t.as_slice()));
        }
    }
    match default {
        Some(d) => Some(d.to_owned()),
        None => None,
    }
}

} // verus!
