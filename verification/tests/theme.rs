use conch::theme::{darken, lighten};

#[test]
fn darken_expands_three_char_hex() {
    // #fff should expand to #ffffff then darken by 10
    let result = darken("#fff", 10);
    assert_eq!(result, "#f5f5f5");
}

#[test]
fn lighten_expands_three_char_hex() {
    let result = lighten("#000", 10);
    assert_eq!(result, "#0a0a0a");
}

#[test]
fn darken_clamps_at_black_and_white() {
    assert_eq!(darken("#102030", 100), "#000000");
    assert_eq!(lighten("#f0e0d0", 100), "#ffffff");
}

#[test]
fn darken_six_digit_color() {
    assert_eq!(darken("#1e1f29", 5), "#191a24");
    assert_eq!(darken("abcdef", 0), "#abcdef");
}

#[test]
fn darken_short_color_is_returned_with_hash() {
    assert_eq!(darken("#ab", 10), "#ab");
    assert_eq!(darken("", 10), "#");
}

#[test]
fn darken_invalid_digits_read_as_zero() {
    assert_eq!(lighten("#zz0000", 1), "#010101");
}

#[test]
fn darken_then_lighten_restores_inner_colors() {
    let c = "#405060";
    assert_eq!(lighten(&darken(c, 16), 16), c);
}

#[test]
fn dark_background_shades() {
    let s = conch::theme::background_shades("#282a36", true);
    assert_eq!(s.panel_bg, "#20222e");
    assert_eq!(s.tab_bar_bg, "#1a1c28");
    assert_eq!(s.tab_border, "#3a3c48");
    assert_eq!(s.input_bg, "#323440");
    assert_eq!(s.active_highlight, "#444652");
    assert_eq!(s.default_selection_bg, "#464854");
    assert_ne!(s.panel_bg, "#282a36");
    assert_ne!(s.tab_bar_bg, s.panel_bg);
}

#[test]
fn light_background_shades() {
    let s = conch::theme::background_shades("#ffffff", false);
    assert_eq!(s.panel_bg, "#ffffff");
    assert_eq!(s.tab_border, "#ededed");
    assert_eq!(s.input_bg, "#f5f5f5");
    assert_eq!(s.active_highlight, "#e3e3e3");
}
