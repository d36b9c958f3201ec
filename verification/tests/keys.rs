use conch::keys::{chosen_keybind, plugin_shortcut_key};
use conch::keys::{config_key_to_accelerator, connection_key, debug_bytes_hex, session_key};

#[test]
fn config_key_to_accelerator_basic() {
    assert_eq!(config_key_to_accelerator("cmd+shift+r"), "CmdOrCtrl+Shift+R");
}

#[test]
fn config_key_to_accelerator_ctrl() {
    assert_eq!(config_key_to_accelerator("ctrl+t"), "Ctrl+T");
}

#[test]
fn config_key_to_accelerator_alt() {
    assert_eq!(config_key_to_accelerator("alt+f"), "Alt+F");
}

#[test]
fn config_key_to_accelerator_option() {
    assert_eq!(config_key_to_accelerator("option+g"), "Alt+G");
}

#[test]
fn config_key_to_accelerator_single_key() {
    assert_eq!(config_key_to_accelerator("f2"), "F2");
}

#[test]
fn session_key_uses_pane_id() {
    assert_eq!(session_key("main", 42), "main:42");
}

#[test]
fn session_key_format() {
    assert_eq!(session_key("main", 3), "main:3");
}

#[test]
fn connection_key_format() {
    let key = connection_key("main", 1);
    assert_eq!(key, "conn:main:1");
}

#[test]
fn connection_key_differs_from_session_key() {
    let ck = connection_key("main", 1);
    let sk = session_key("main", 1);
    assert_ne!(ck, sk);
    assert!(ck.starts_with("conn:"));
}

#[test]
fn connection_key_never_equals_session_key_for_other_labels() {
    for (label, pane) in [("", 0u32), ("conn", 7), ("a:b", 4294967295)] {
        let ck = connection_key(label, pane);
        let sk = session_key(label, pane);
        assert_ne!(ck, sk);
        assert!(ck.starts_with("conn:"));
    }
}

#[test]
fn session_key_of_zero_and_max_pane() {
    assert_eq!(session_key("w", 0), "w:0");
    assert_eq!(session_key("w", u32::MAX), "w:4294967295");
}

#[test]
fn accelerator_modifier_words() {
    assert_eq!(config_key_to_accelerator("Cmd+Alt+Delete"), "CmdOrCtrl+Alt+DELETE");
    assert_eq!(config_key_to_accelerator(" ctrl + opt +x"), "Ctrl+Alt+X");
    assert_eq!(config_key_to_accelerator("meta+k"), "META+K");
}

#[test]
fn accelerator_lowercase_differs_from_input_case() {
    // The wrapper around `to_uppercase` must not hand the key back unchanged.
    assert_ne!(config_key_to_accelerator("x"), "x");
}

#[test]
fn hex_dump_of_bytes() {
    assert_eq!(debug_bytes_hex(&[0x00, 0x1b, 0xff]), "00 1b ff");
    assert_eq!(debug_bytes_hex(&[]), "");
}

#[test]
fn plugin_shortcut_override_and_default() {
    assert_eq!(plugin_shortcut_key("git", "pull"), "git:pull");
    assert_eq!(chosen_keybind(Some("  cmd+p "), Some("cmd+g")).as_deref(), Some("cmd+p"));
    assert_eq!(chosen_keybind(Some("   "), Some("cmd+g")).as_deref(), Some("cmd+g"));
    assert_eq!(chosen_keybind(None, None), None);
}
