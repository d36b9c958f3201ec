use conch::plugin_dialogs::{dialog_belongs_to, prompt_id, resolve_plugin_menu_id};

#[test]
fn dialogs_of_prefix_named_plugins_stay_apart() {
    let a = prompt_id("a", "uuid-1");
    let ab = prompt_id("a:b", "uuid-2");
    assert_eq!(a, "a\0uuid-1");
    assert!(dialog_belongs_to(&a, "a"));
    assert!(!dialog_belongs_to(&ab, "a"));
    assert!(dialog_belongs_to(&ab, "a:b"));
    assert!(!dialog_belongs_to("my-plugin\0x", "my"));
    assert!(!dialog_belongs_to("other\0uuid-1", "nonexistent"));
}

#[test]
fn plugin_menu_ids_resolve_by_exact_match_then_by_pieces() {
    let items = vec![("my.plugin".to_string(), "do.it".to_string()), ("git".to_string(), "pull".to_string())];
    assert_eq!(
        resolve_plugin_menu_id("plugin.my.plugin.do.it", &items),
        Some(("my.plugin".to_string(), "do.it".to_string()))
    );
    assert_eq!(
        resolve_plugin_menu_id("plugin.legacy.run.now", &items),
        Some(("legacy".to_string(), "run.now".to_string()))
    );
    assert_eq!(resolve_plugin_menu_id("plugin.only", &items), None);
    assert_eq!(resolve_plugin_menu_id("file.open", &items), None);
}
