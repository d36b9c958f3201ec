use conch::utf8_stream::Utf8Accumulator;

#[test]
fn all_ascii() {
    let mut acc = Utf8Accumulator::new();
    assert_eq!(acc.push(b"hello world"), "hello world");
}

#[test]
fn complete_multibyte() {
    let mut acc = Utf8Accumulator::new();
    // U+2500 BOX DRAWINGS LIGHT HORIZONTAL = E2 94 80
    let input = "─── line ───";
    assert_eq!(acc.push(input.as_bytes()), input);
}

#[test]
fn split_three_byte_char() {
    let mut acc = Utf8Accumulator::new();
    // U+2500 = E2 94 80
    // Split after first 2 bytes
    let text1 = acc.push(&[0xE2, 0x94]);
    assert_eq!(text1, "", "Incomplete sequence should be held back");

    let text2 = acc.push(&[0x80, b'x']);
    assert_eq!(text2, "\u{2500}x", "Completed sequence should be emitted");
}

#[test]
fn split_two_byte_char() {
    let mut acc = Utf8Accumulator::new();
    // U+00E9 (é) = C3 A9
    let text1 = acc.push(&[b'a', 0xC3]);
    assert_eq!(text1, "a");

    let text2 = acc.push(&[0xA9, b'b']);
    assert_eq!(text2, "\u{00E9}b");
}

#[test]
fn split_four_byte_char() {
    let mut acc = Utf8Accumulator::new();
    // U+1F600 (😀) = F0 9F 98 80
    let text1 = acc.push(&[b'a', 0xF0, 0x9F]);
    assert_eq!(text1, "a");

    let text2 = acc.push(&[0x98, 0x80, b'b']);
    assert_eq!(text2, "\u{1F600}b");
}

#[test]
fn multiple_splits_in_sequence() {
    let mut acc = Utf8Accumulator::new();
    // First chunk: ASCII + start of U+2500
    assert_eq!(acc.push(&[b'a', 0xE2]), "a");
    // Second chunk: middle byte only
    assert_eq!(acc.push(&[0x94]), "");
    // Third chunk: final byte + ASCII
    assert_eq!(acc.push(&[0x80, b'z']), "\u{2500}z");
}

#[test]
fn invalid_bytes_in_middle_still_replaced() {
    let mut acc = Utf8Accumulator::new();
    // 0xFF is never valid UTF-8
    let text = acc.push(&[b'a', 0xFF, b'b']);
    assert_eq!(text, "a\u{FFFD}b");
}

#[test]
fn empty_input() {
    let mut acc = Utf8Accumulator::new();
    assert_eq!(acc.push(&[]), "");
}

#[test]
fn only_partial_sequence() {
    let mut acc = Utf8Accumulator::new();
    assert_eq!(acc.push(&[0xE2, 0x94]), "");
    // Complete it
    assert_eq!(acc.push(&[0x80]), "\u{2500}");
}

#[test]
fn realistic_pty_output_with_box_drawing() {
    let mut acc = Utf8Accumulator::new();

    // Simulate: "──" split across a buffer boundary
    // U+2500 U+2500 = E2 94 80 E2 94 80
    // Buffer boundary falls after the 4th byte (mid-second char)
    let chunk1 = &[0xE2, 0x94, 0x80, 0xE2];
    let chunk2 = &[0x94, 0x80];

    let text1 = acc.push(chunk1);
    assert_eq!(text1, "\u{2500}", "First complete char emitted");

    let text2 = acc.push(chunk2);
    assert_eq!(text2, "\u{2500}", "Second char completed and emitted");
}

#[test]
fn every_split_of_valid_text_decodes_whole() {
    let text = "a─é😀z";
    let bytes = text.as_bytes();
    for cut1 in 0..=bytes.len() {
        for cut2 in cut1..=bytes.len() {
            let mut acc = Utf8Accumulator::new();
            let mut out = String::new();
            out.push_str(&acc.push(&bytes[..cut1]));
            out.push_str(&acc.push(&bytes[cut1..cut2]));
            out.push_str(&acc.push(&bytes[cut2..]));
            assert_eq!(out, text);
            assert_eq!(acc.push(&[]), "");
        }
    }
}

#[test]
fn lead_byte_before_ascii_is_replaced_not_held() {
    let mut acc = Utf8Accumulator::new();
    assert_eq!(acc.push(&[0xE2, b'a']), "\u{FFFD}a");
    assert_eq!(acc.push(&[0xE2, 0x94]), "");
    assert_eq!(acc.push(&[0x80]), "─");
}

#[test]
fn byte_by_byte_pushes_give_the_whole_text() {
    let text = "héllo wörld € 😀 ─";
    let mut acc = Utf8Accumulator::new();
    let mut out = String::new();
    for b in text.as_bytes() {
        out.push_str(&acc.push(&[*b]));
    }
    assert_eq!(out, text);
    assert_eq!(acc.push(&[]), "");
}
