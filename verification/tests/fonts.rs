use conch::fonts::finalize;

fn s(v: &[&str]) -> Vec<String> {
    v.iter().map(|x| x.to_string()).collect()
}

#[test]
fn fonts_are_sorted_case_insensitive_and_deduplicated() {
    let fonts = finalize(s(&["menlo", "Arial", "arial", "Arial", "Zapfino"]), s(&["Monaco", "Menlo", "Menlo"]), None);
    assert_eq!(fonts.all, s(&["Arial", "arial", "menlo", "Zapfino"]));
    assert_eq!(fonts.monospace, s(&["Menlo", "Monaco"]));
}

#[test]
fn duplicates_after_sorting_are_dropped() {
    let fonts = finalize(s(&["B", "a", "B", "a"]), s(&[]), None);
    assert_eq!(fonts.all, s(&["a", "B"]));
}

#[test]
fn current_terminal_font_always_in_monospace_list() {
    let fake_font = "ZZZ-Nonexistent-Mono-Test";
    let fonts = finalize(s(&["Menlo"]), s(&["Menlo", "Courier New"]), Some(fake_font));
    assert!(fonts.monospace.iter().any(|f| f == fake_font));
    assert_eq!(fonts.monospace, s(&["Courier New", "Menlo", "ZZZ-Nonexistent-Mono-Test"]));
    // The full list is left alone.
    assert_eq!(fonts.all, s(&["Menlo"]));
}

#[test]
fn current_font_sorted_into_place_and_not_duplicated() {
    let fonts = finalize(s(&[]), s(&["Menlo", "Courier New"]), Some("fira code"));
    assert_eq!(fonts.monospace, s(&["Courier New", "fira code", "Menlo"]));
    let fonts = finalize(s(&[]), s(&["Menlo"]), Some("Menlo"));
    assert_eq!(fonts.monospace, s(&["Menlo"]));
}

#[test]
fn empty_current_font_not_injected() {
    let fonts = finalize(s(&["A"]), s(&["A"]), Some(""));
    assert!(!fonts.monospace.iter().any(|f| f.is_empty()));
    assert_eq!(fonts.monospace, s(&["A"]));
}
