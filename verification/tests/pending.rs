use conch::pending::{PendingDialogs, PendingPrompts, IdTable};
use conch::plugin_dialogs::prompt_id;

#[test]
fn pending_prompts_new_is_empty() {
    let prompts: PendingPrompts<(), ()> = PendingPrompts::new();
    assert!(prompts.host_key.is_empty());
    assert!(prompts.password.is_empty());
}

#[test]
fn insert_replaces_and_take_removes() {
    let mut t: IdTable<u32> = IdTable::new();
    assert_eq!(t.insert("a".into(), 1), None);
    assert_eq!(t.insert("b".into(), 2), None);
    assert_eq!(t.insert("a".into(), 3), Some(1));
    assert_eq!(t.take("a"), Some(3));
    assert_eq!(t.take("a"), None);
    assert_eq!(t.take("b"), Some(2));
    assert!(t.is_empty());
}

#[test]
fn draining_a_plugin_keeps_prefix_named_plugins() {
    let mut d: PendingDialogs<u8, u8, bool> = PendingDialogs::new();
    d.forms.insert(prompt_id("git", "1"), 1);
    d.forms.insert(prompt_id("git-extras", "2"), 2);
    d.prompts.insert(prompt_id("git", "3"), 3);
    d.confirms.insert(prompt_id("gitx", "4"), true);
    d.drain_for_plugin("git");
    assert_eq!(d.forms.take(&prompt_id("git", "1")), None);
    assert_eq!(d.forms.take(&prompt_id("git-extras", "2")), Some(2));
    assert!(d.prompts.is_empty());
    assert_eq!(d.confirms.take(&prompt_id("gitx", "4")), Some(true));
}

#[test]
fn cleanup_drains_pending_dialogs_for_plugin() {
    let mut dialogs: PendingDialogs<u8, u8, u8> = PendingDialogs::new();
    dialogs.forms.insert("my-plugin\0uuid-1".into(), 1);
    dialogs.prompts.insert("my-plugin\0uuid-2".into(), 2);
    dialogs.confirms.insert("other-plugin\0uuid-3".into(), 3);
    dialogs.forms.insert("other-plugin\0uuid-4".into(), 4);
    dialogs.drain_for_plugin("my-plugin");
    assert!(dialogs.forms.get("my-plugin\0uuid-1").is_none(), "form dialog for my-plugin should be removed");
    assert!(dialogs.prompts.get("my-plugin\0uuid-2").is_none(), "prompt dialog for my-plugin should be removed");
    assert!(dialogs.confirms.contains_key("other-plugin\0uuid-3"), "confirm dialog for other-plugin should remain");
    assert!(dialogs.forms.contains_key("other-plugin\0uuid-4"), "form dialog for other-plugin should remain");
}

#[test]
fn drain_for_plugin_is_noop_when_no_matching_dialogs() {
    let mut dialogs: PendingDialogs<u8, u8, u8> = PendingDialogs::new();
    dialogs.forms.insert("other\0uuid-1".into(), 1);
    dialogs.drain_for_plugin("nonexistent");
    assert_eq!(dialogs.forms.len(), 1, "should not remove unrelated dialogs");
}

#[test]
fn drain_for_plugin_does_not_collide_with_prefix_names() {
    let mut dialogs: PendingDialogs<u8, u8, u8> = PendingDialogs::new();
    dialogs.forms.insert("a\0uuid-1".into(), 1);
    dialogs.forms.insert("a:b\0uuid-2".into(), 2);
    dialogs.drain_for_plugin("a");
    assert_eq!(dialogs.forms.len(), 1, "should only remove plugin 'a'");
    assert!(dialogs.forms.contains_key("a:b\0uuid-2"), "plugin 'a:b' dialog should remain");
}
