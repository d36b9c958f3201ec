use conch::migration::{link_legacy_entries, link_tunnels_to_servers};
use conch::ssh_config::{SavedTunnel, ServerEntry, SshConfig};

fn entry(id: &str, host: &str, user: Option<&str>, key: Option<&str>) -> ServerEntry {
    ServerEntry {
        id: id.to_string(),
        label: id.to_string(),
        host: host.to_string(),
        port: 22,
        user: user.map(|u| u.to_string()),
        auth_method: Some(if key.is_some() { "key" } else { "password" }.to_string()),
        key_path: key.map(|k| k.to_string()),
        vault_account_id: None,
        proxy_command: None,
        proxy_jump: None,
    }
}

fn tunnel(id: u128, key: &str, server: Option<&str>) -> SavedTunnel {
    SavedTunnel {
        id,
        label: "t".into(),
        session_key: key.into(),
        server_entry_id: server.map(|s| s.to_string()),
        local_port: 8080,
        remote_host: "localhost".into(),
        remote_port: 80,
        auto_start: false,
    }
}

fn legacy_config() -> SshConfig {
    let mut cfg = SshConfig::default();
    cfg.add_server(entry("a", "10.0.0.1", Some("deploy"), Some("/k1")));
    cfg.add_server(entry("b", "10.0.0.2", Some("root"), None));
    let mut linked = entry("c", "10.0.0.3", Some("ops"), None);
    linked.vault_account_id = Some(77);
    cfg.add_server(linked);
    cfg.add_folder("Prod");
    cfg.folders[0].entries.push(entry("d", "10.0.0.4", Some("deploy"), Some("/k1")));
    cfg
}

#[test]
fn linking_moves_credentials_to_accounts() {
    let mut cfg = legacy_config();
    let creds = cfg.collect_unique_credentials();
    assert_eq!(creds.len(), 3);
    let links: Vec<(String, Option<String>, u128)> = vec![
        ("deploy".into(), Some("/k1".into()), 1),
        ("root".into(), None, 2),
    ];
    link_legacy_entries(&mut cfg, &links);
    let a = &cfg.ungrouped[0];
    assert_eq!(a.vault_account_id, Some(1));
    assert!(a.user.is_none() && a.auth_method.is_none() && a.key_path.is_none());
    assert_eq!(a.host, "10.0.0.1");
    assert_eq!(cfg.ungrouped[1].vault_account_id, Some(2));
    assert_eq!(cfg.ungrouped[2].vault_account_id, Some(77));
    assert_eq!(cfg.ungrouped[2].user.as_deref(), Some("ops"));
    assert_eq!(cfg.folders[0].entries[0].vault_account_id, Some(1));
    assert_eq!(cfg.folders[0].name, "Prod");
}

#[test]
fn later_link_for_a_credential_wins_and_unlinked_entries_stay() {
    let mut cfg = legacy_config();
    let links: Vec<(String, Option<String>, u128)> = vec![
        ("deploy".into(), Some("/k1".into()), 1),
        ("deploy".into(), Some("/k1".into()), 5),
    ];
    link_legacy_entries(&mut cfg, &links);
    assert_eq!(cfg.ungrouped[0].vault_account_id, Some(5));
    assert_eq!(cfg.ungrouped[1].vault_account_id, None);
    assert_eq!(cfg.ungrouped[1].user.as_deref(), Some("root"));
    assert!(cfg.has_legacy_entries());
}

#[test]
fn linking_every_collected_credential_leaves_no_legacy_entry() {
    let mut cfg = legacy_config();
    assert!(cfg.has_legacy_entries());
    let links: Vec<(String, Option<String>, u128)> = cfg
        .collect_unique_credentials()
        .into_iter()
        .enumerate()
        .map(|(i, (u, k, _))| (u, k, 100 + i as u128))
        .collect();
    link_legacy_entries(&mut cfg, &links);
    assert!(!cfg.has_legacy_entries());
}

#[test]
fn tunnels_are_linked_to_the_first_server_on_their_host_and_port() {
    let mut cfg = legacy_config();
    cfg.add_server(entry("dup", "10.0.0.1", Some("x"), None));
    cfg.add_tunnel(tunnel(1, "someone@10.0.0.1:22", None));
    cfg.add_tunnel(tunnel(2, "someone@10.0.0.4:22", None));
    cfg.add_tunnel(tunnel(3, "someone@10.0.0.1:22", Some("b")));
    cfg.add_tunnel(tunnel(4, "someone@10.9.9.9:22", None));
    cfg.add_tunnel(tunnel(5, "", None));
    cfg.add_tunnel(tunnel(6, "garbage", None));
    link_tunnels_to_servers(&mut cfg);
    let ids: Vec<Option<&str>> = cfg.tunnels.iter().map(|t| t.server_entry_id.as_deref()).collect();
    assert_eq!(ids, vec![Some("a"), Some("d"), Some("b"), None, None, None]);
    assert_eq!(cfg.tunnels[0].session_key, "someone@10.0.0.1:22");
    assert_eq!(cfg.ungrouped.len(), 4);
}
