//! Color arithmetic on `#rrggbb` theme colors.
use vstd::prelude::*;
use vstd::utf8::encode_utf8;
use crate::keys::hex_byte;
use crate::text::{chars_to_string, push_char, str_chars, sub_chars};

verus! {

/// `s` without any of its leading `#` characters.
pub open spec fn trim_hashes(s: Seq<char>) -> Seq<char>
    decreases s.len(),
{
    if s.len() > 0 && s[0] == '#' {
        trim_hashes(s.drop_first())
    } else {
        s
    }
}

/// The six-character form of a color: a 3-byte shorthand has each byte
/// doubled (each byte taken as the character with that code); a color of
/// 6 or more bytes is kept as is; anything shorter has no such form.
pub open spec fn expand_color(h: Seq<char>) -> Option<Seq<char>> {
    let b = encode_utf8(h);
    if b.len() == 3 {
        Some(
            seq![
                b[0] as char,
                b[0] as char,
                b[1] as char,
                b[1] as char,
                b[2] as char,
                b[2] as char,
            ],
        )
    } else if b.len() < 6 {
        None
    } else {
        Some(h)
    }
}

/// The value of a hex digit byte, in either case.
pub open spec fn hex_value(b: u8) -> Option<int> {
    if 0x30 <= b <= 0x39 {
        Some(b - 0x30)
    } else if 0x61 <= b <= 0x66 {
        Some(b - 0x61 + 10)
    } else if 0x41 <= b <= 0x46 {
        Some(b - 0x41 + 10)
    } else {
        None
    }
}

/// std's `i32::from_str_radix(s, 16).unwrap_or(0)` for the two-byte text
/// `b0 b1`: an optional sign followed by hex digits.
pub open spec fn radix16_or_zero(b0: u8, b1: u8) -> int {
    if b0 == 0x2b {
        match hex_value(b1) {
            Some(v) => v,
            None => 0,
        }
    } else if b0 == 0x2d {
        match hex_value(b1) {
            Some(v) => -v,
            None => 0,
        }
    } else {
        match (hex_value(b0), hex_value(b1)) {
            (Some(x), Some(y)) => 16 * x + y,
            _ => 0,
        }
    }
}

/// The red, green and blue values read from bytes 0..2, 2..4 and 4..6 of
/// the six-character form.
pub open spec fn channels(e: Seq<char>) -> (int, int, int) {
    let b = encode_utf8(e);
    (radix16_or_zero(b[0], b[1]), radix16_or_zero(b[2], b[3]), radix16_or_zero(b[4], b[5]))
}

/// Whether the bytes 0..2, 2..4 and 4..6 of `e` each start and end on a
/// character boundary, so that slicing the string there does not panic.
pub open spec fn slices_on_boundaries(e: Seq<char>) -> bool {
    let b = encode_utf8(e);
    forall|k: int|
        (k == 2 || k == 4 || k == 6) ==> (k == b.len() || !(0x80 <= #[trigger] b[k] <= 0xbf))
}

/// `v` limited to 0..=255.
pub open spec fn clamp_byte(v: int) -> u8 {
    if v < 0 {
        0
    } else if v > 255 {
        255
    } else {
        v as u8
    }
}

/// The inputs on which `darken` completes: the channel slicing does not
/// panic and no channel minus `amount` overflows an `i32`.
pub open spec fn darken_ok(hex: Seq<char>, amount: int) -> bool {
    let h = trim_hashes(hex);
    match expand_color(h) {
        None => true,
        Some(e) => {
            let (r, g, b) = channels(e);
            &&& (encode_utf8(h).len() == 3 || slices_on_boundaries(e))
            &&& i32::MIN <= r - amount <= i32::MAX
            &&& i32::MIN <= g - amount <= i32::MAX
            &&& i32::MIN <= b - amount <= i32::MAX
        },
    }
}

/// The color `hex` with `amount` subtracted from each channel (each kept in
/// 0..=255), written `#rrggbb`; a color shorter than 6 bytes (other than a
/// 3-byte shorthand) comes back as `#` and its digits.
pub open spec fn darkened(hex: Seq<char>, amount: int) -> Seq<char> {
    let h = trim_hashes(hex);
    match expand_color(h) {
        None => seq!['#'] + h,
        Some(e) => {
            let (r, g, b) = channels(e);
            seq!['#'] + hex_byte(clamp_byte(r - amount)) + hex_byte(clamp_byte(g - amount))
                + hex_byte(clamp_byte(b - amount))
        },
    }
}

proof fn lemma_encode_len(s: Seq<char>)
    ensures
        encode_utf8(s).len() >= s.len(),
    decreases s.len(),
{
    if s.len() > 0 {
        lemma_encode_len(s.drop_first());
    }
}

fn hex_value_exec(b: u8) -> (r: Option<i32>)
    ensures
        match r {
            Some(v) => hex_value(b) == Some(v as int),
            None => hex_value(b) is None,
        },
{
    if 0x30 <= b && b <= 0x39 {
        Some((b - 0x30) as i32)
    } else if 0x61 <= b && b <= 0x66 {
        Some((b - 0x61 + 10) as i32)
    } else if 0x41 <= b && b <= 0x46 {
        Some((b - 0x41 + 10) as i32)
    } else {
        None
    }
}

fn radix16_exec(b0: u8, b1: u8) -> (r: i32)
    ensures
        r == radix16_or_zero(b0, b1),
{
    if b0 == 0x2b {
        match hex_value_exec(b1) {
            Some(v) => v,
            None => 0,
        }
    } else if b0 == 0x2d {
        match hex_value_exec(b1) {
            Some(v) => -v,
            None => 0,
        }
    } else {
        match (hex_value_exec(b0), hex_value_exec(b1)) {
            (Some(x), Some(y)) => 16 * x + y,
            _ => 0,
        }
    }
}

fn clamp_exec(v: i32) -> (r: u8)
    ensures
        r == clamp_byte(v as int),
{
    if v < 0 {
        0
    } else if v > 255 {
        255
    } else {
        v as u8
    }
}

fn hex_digit_char(v: u8) -> (c: char)
    requires
        v < 16,
    ensures
        c == crate::keys::hex_digit(v as int),
{
    if v < 10 {
        (v + 48) as char
    } else {
        (v - 10 + 97) as char
    }
}

fn push_hex_byte(s: &mut String, b: u8)
    ensures
        final(s)@ == old(s)@ + hex_byte(b),
{
    push_char(s, hex_digit_char(b / 16));
    push_char(s, hex_digit_char(b % 16));
    assert(final(s)@ =~= old(s)@ + hex_byte(b));
}

/// Darken a `#rrggbb` (or `#rgb`) color by `amount` on each channel.
pub fn darken(hex: &str, amount: i32) -> (r: String)
    requires
        darken_ok(hex@, amount as int),
    ensures
        r@ == darkened(hex@, amount as int),
{
    let v = str_chars(hex);
    let mut n: usize = 0;
    assert(v@.skip(0) =~= v@);
    while n < v.len() && v[n] == '#'
        invariant
            n <= v@.len(),
            trim_hashes(v@) == trim_hashes(v@.skip(n as int)),
        decreases v.len() - n,
    {
        assert(v@.skip(n as int).drop_first() =~= v@.skip(n + 1));
        n += 1;
    }
    let hc = sub_chars(v.as_slice(), n, v.len());
    assert(hc@ =~= v@.skip(n as int));
    let hs = chars_to_string(hc.as_slice());
    let hb = hs.as_str().as_bytes();
    let blen = hb.len();
    let expanded: String;
    if blen == 3 {
        let mut e = String::new();
        push_char(&mut e, hb[0] as char);
        push_char(&mut e, hb[0] as char);
        push_char(&mut e, hb[1] as char);
        push_char(&mut e, hb[1] as char);
        push_char(&mut e, hb[2] as char);
        push_char(&mut e, hb[2] as char);
        assert(e@ =~= expand_color(hc@)->0);
        expanded = e;
    } else if blen < 6 {
        let mut s = String::new();
        push_char(&mut s, '#');
        let mut i: usize = 0;
        while i < hc.len()
            invariant
                i <= hc@.len(),
                s@ == seq!['#'] + hc@.take(i as int),
            decreases hc.len() - i,
        {
            push_char(&mut s, hc[i]);
            i += 1;
            assert(s@ =~= seq!['#'] + hc@.take(i as int));
        }
        assert(hc@.take(hc@.len() as int) =~= hc@);
        return s;
    } else {
        expanded = hs;
    }
    proof {
        lemma_encode_len(expanded@);
    }
    let eb = expanded.as_str().as_bytes();
    let r = radix16_exec(eb[0], eb[1]);
    let g = radix16_exec(eb[2], eb[3]);
    let b = radix16_exec(eb[4], eb[5]);
    let mut out = String::new();
    push_char(&mut out, '#');
    push_hex_byte(&mut out, clamp_exec(r - amount));
    push_hex_byte(&mut out, clamp_exec(g - amount));
    push_hex_byte(&mut out, clamp_exec(b - amount));
    out
}

/// Lighten a color by `amount` on each channel (darken by `-amount`).
pub fn lighten(hex: &str, amount: i32) -> (r: String)
    requires
        amount != i32::MIN,
        darken_ok(hex@, -amount),
    ensures
        r@ == darkened(hex@, -amount),
{
    darken(hex, -amount)
}

/// The colors on which `darken` and `lighten` complete for any amount of a
/// few hundred: the channel slicing does not panic.
pub open spec fn shadeable(hex: Seq<char>) -> bool {
    let h = trim_hashes(hex);
    match expand_color(h) {
        None => true,
        Some(e) => encode_utf8(h).len() == 3 || slices_on_boundaries(e),
    }
}

proof fn lemma_shadeable(hex: Seq<char>, amount: int)
    requires
        shadeable(hex),
        -300 <= amount <= 300,
    ensures
        darken_ok(hex, amount),
{
}

/// The panel colors derived from a theme's background: on a dark
/// background panels are darker and borders and highlights lighter, on a
/// light one the other way round.
pub struct ThemeShades {
    pub panel_bg: String,
    pub tab_bar_bg: String,
    pub tab_border: String,
    pub input_bg: String,
    pub active_highlight: String,
    /// The selection color used when the scheme names none.
    pub default_selection_bg: String,
}

/// Derives the panel colors from the background `bg`; `is_dark` tells
/// whether the background's luminance is below one half.
pub fn background_shades(bg: &str, is_dark: bool) -> (r: ThemeShades)
    requires
        shadeable(bg@),
    ensures
        r.panel_bg@ == darkened(bg@, if is_dark { 8 } else { -8 }),
        r.tab_bar_bg@ == darkened(bg@, if is_dark { 14 } else { -14 }),
        r.tab_border@ == darkened(bg@, if is_dark { -18 } else { 18 }),
        r.input_bg@ == darkened(bg@, if is_dark { -10 } else { 10 }),
        r.active_highlight@ == darkened(bg@, if is_dark { -28 } else { 28 }),
        r.default_selection_bg@ == darkened(bg@, -30),
{
    proof {
        lemma_shadeable(bg@, 8);
        lemma_shadeable(bg@, -8);
        lemma_shadeable(bg@, 14);
        lemma_shadeable(bg@, -14);
        lemma_shadeable(bg@, 18);
        lemma_shadeable(bg@, -18);
        lemma_shadeable(bg@, 10);
        lemma_shadeable(bg@, -10);
        lemma_shadeable(bg@, 28);
        lemma_shadeable(bg@, -28);
        lemma_shadeable(bg@, -30);
    }
    if is_dark {
        ThemeShades {
            panel_bg: darken(bg, 8),
            tab_bar_bg: darken(bg, 14),
            tab_border: lighten(bg, 18),
            input_bg: lighten(bg, 10),
            active_highlight: lighten(bg, 28),
            default_selection_bg: lighten(bg, 30),
        }
    } else {
        ThemeShades {
            panel_bg: lighten(bg, 8),
            tab_bar_bg: lighten(bg, 14),
            tab_border: darken(bg, 18),
            input_bg: darken(bg, 10),
            active_highlight: darken(bg, 28),
            default_selection_bg: lighten(bg, 30),
        }
    }
}

} // verus!
