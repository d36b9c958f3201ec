use conch::ssh_config::{parse_ssh_config_str, ExportPayload, SavedTunnel, ServerEntry, ServerFolder, SshConfig};

fn make_entry(id: &str, host: &str) -> ServerEntry {
    ServerEntry {
        id: id.to_string(),
        label: id.to_string(),
        host: host.to_string(),
        port: 22,
        user: Some("root".to_string()),
        auth_method: Some("key".to_string()),
        key_path: None,
        vault_account_id: None,
        proxy_command: None,
        proxy_jump: None,
    }
}

fn make_config() -> SshConfig {
    let mut cfg = SshConfig::default();
    cfg.add_server(make_entry("srv1", "10.0.0.1"));
    cfg.add_server(make_entry("srv2", "10.0.0.2"));
    cfg.add_folder("Production");
    cfg.folders[0].entries.push(make_entry("srv3", "prod.example.com"));
    cfg
}

fn tunnel(id: u128, key: &str) -> SavedTunnel {
    SavedTunnel {
        id,
        label: "t".into(),
        session_key: key.into(),
        server_entry_id: None,
        local_port: 8080,
        remote_host: "localhost".into(),
        remote_port: 80,
        auto_start: false,
    }
}

#[test]
fn default_config_is_empty() {
    let cfg = SshConfig::default();
    assert!(cfg.folders.is_empty());
    assert!(cfg.ungrouped.is_empty());
}

#[test]
fn add_server_appends_to_ungrouped() {
    let mut cfg = SshConfig::default();
    cfg.add_server(make_entry("a", "host-a"));
    assert_eq!(cfg.ungrouped.len(), 1);
    assert_eq!(cfg.ungrouped[0].id, "a");
}

#[test]
fn find_server_in_ungrouped() {
    let cfg = make_config();
    let srv = cfg.find_server("srv1").unwrap();
    assert_eq!(srv.host, "10.0.0.1");
}

#[test]
fn find_server_in_folder() {
    let cfg = make_config();
    let srv = cfg.find_server("srv3").unwrap();
    assert_eq!(srv.host, "prod.example.com");
}

#[test]
fn find_server_missing_returns_none() {
    let cfg = make_config();
    assert!(cfg.find_server("nonexistent").is_none());
}

#[test]
fn remove_server_from_ungrouped() {
    let mut cfg = make_config();
    cfg.remove_server("srv1");
    assert!(cfg.find_server("srv1").is_none());
    assert_eq!(cfg.ungrouped.len(), 1);
}

#[test]
fn remove_server_from_folder() {
    let mut cfg = make_config();
    cfg.remove_server("srv3");
    assert!(cfg.find_server("srv3").is_none());
    assert!(cfg.folders[0].entries.is_empty());
}

#[test]
fn all_servers_iterates_everything() {
    let cfg = make_config();
    let all: Vec<_> = cfg.all_servers();
    assert_eq!(all.len(), 3);
}

#[test]
fn saved_tunnel_session_key() {
    assert_eq!(SavedTunnel::make_session_key("root", "example.com", 22), "root@example.com:22");
}

#[test]
fn saved_tunnel_parse_session_key() {
    let (user, host, port) = SavedTunnel::parse_session_key("deploy@10.0.0.1:2222").unwrap();
    assert_eq!(user, "deploy");
    assert_eq!(host, "10.0.0.1");
    assert_eq!(port, 2222);
}

#[test]
fn session_key_round_trips_with_ipv6_host() {
    let key = SavedTunnel::make_session_key("me", "fe80::1", 65535);
    assert_eq!(key, "me@fe80::1:65535");
    let (u, h, p) = SavedTunnel::parse_session_key(&key).unwrap();
    assert_eq!((u.as_str(), h.as_str(), p), ("me", "fe80::1", 65535));
}

#[test]
fn parse_session_key_rejects_malformed() {
    assert!(SavedTunnel::parse_session_key("no-at-sign:22").is_none());
    assert!(SavedTunnel::parse_session_key("a@no-port").is_none());
    assert!(SavedTunnel::parse_session_key("a@h:99999").is_none());
    assert!(SavedTunnel::parse_session_key("a@h:").is_none());
    assert_eq!(SavedTunnel::parse_session_key("a@b@c:+7"), Some(("a".into(), "b@c".into(), 7)));
}

#[test]
fn parse_ssh_config_basic() {
    let config = "\
Host server1
    HostName 10.0.0.1
    User deploy
    Port 2222

Host server2
    HostName example.com
    IdentityFile ~/.ssh/id_ed25519
";
    let entries = parse_ssh_config_str(config, None);
    assert_eq!(entries.len(), 2);
    assert_eq!(entries[0].label, "server1");
    assert_eq!(entries[0].host, "10.0.0.1");
    assert_eq!(entries[0].user.as_deref(), Some("deploy"));
    assert_eq!(entries[0].port, 2222);
    assert_eq!(entries[1].host, "example.com");
}

#[test]
fn parse_ssh_config_skip_wildcard() {
    let config = "\
Host *
    ServerAliveInterval 60

Host myserver
    HostName 10.0.0.5
";
    let entries = parse_ssh_config_str(config, None);
    assert_eq!(entries.len(), 1);
    assert_eq!(entries[0].label, "myserver");
}

#[test]
fn parse_ssh_config_proxy_jump() {
    let config = "\
Host bastion-target
    HostName 10.0.0.99
    ProxyJump bastion.example.com
";
    let entries = parse_ssh_config_str(config, None);
    assert_eq!(entries.len(), 1);
    assert_eq!(entries[0].proxy_jump.as_deref(), Some("bastion.example.com"));
}

#[test]
fn parse_ssh_config_defaults_and_match_blocks() {
    let config = "# comment\r\nhost plain\r\n\tPORT nope\r\nMatch host x\r\n  User ignored\r\nHost q?x\r\nHOST other\r\n  proxycommand ssh -W %h:%p jump\r\n  HostName\r\n";
    let entries = parse_ssh_config_str(config, Some("alice"));
    assert_eq!(entries.len(), 2);
    let e = &entries[0];
    assert_eq!(e.id, "sshconfig_plain");
    assert_eq!(e.label, "plain");
    assert_eq!(e.host, "plain");
    assert_eq!(e.port, 22);
    assert_eq!(e.user.as_deref(), Some("alice"));
    assert_eq!(e.auth_method.as_deref(), Some("key"));
    assert!(e.vault_account_id.is_none());
    assert_eq!(entries[1].label, "other");
    assert_eq!(entries[1].proxy_command.as_deref(), Some("ssh -W %h:%p jump"));
    assert_eq!(entries[1].host, "other");
}

#[test]
fn export_strips_vault_account_id() {
    let mut cfg = SshConfig::default();
    let mut entry = make_entry("s1", "host1");
    entry.vault_account_id = Some(uuid::Uuid::new_v4().as_u128());
    cfg.add_server(entry);

    let payload = cfg.to_export_filtered(None, None);
    for server in &payload.ungrouped {
        assert!(server.vault_account_id.is_none());
    }
}

#[test]
fn export_filters_servers_folders_and_tunnels() {
    let mut cfg = make_config();
    cfg.folders.push(ServerFolder { id: "f2".into(), name: "Empty".into(), expanded: false, entries: vec![] });
    let id = 0x67e5504410b1426f9247bb680e5fe0c8u128;
    cfg.add_tunnel(tunnel(id, "root@10.0.0.1:22"));
    cfg.add_tunnel(tunnel(7, "root@10.0.0.2:22"));
    let servers = vec!["srv3".to_string()];
    let tunnels = vec!["67e55044-10b1-426f-9247-bb680e5fe0c8".to_string()];
    let p = cfg.to_export_filtered(Some(&servers), Some(&tunnels));
    assert_eq!(p.version, 1);
    assert!(p.ungrouped.is_empty());
    assert_eq!(p.folders.len(), 1);
    assert_eq!(p.folders[0].name, "Production");
    assert_eq!(p.folders[0].entries[0].id, "srv3");
    assert_eq!(p.tunnels.len(), 1);
    assert_eq!(p.tunnels[0].id, id);
    let all = cfg.to_export_filtered(None, None);
    assert_eq!(all.folders.len(), 2);
    assert_eq!(all.ungrouped.len(), 2);
    assert_eq!(all.tunnels.len(), 2);
}

#[test]
fn detect_legacy_entries() {
    let mut cfg = SshConfig::default();
    let mut e = make_entry("s1", "example.com");
    e.label = "Old Server".into();
    e.key_path = Some("/home/user/.ssh/id_ed25519".into());
    cfg.add_server(e);
    assert!(cfg.has_legacy_entries());
}

#[test]
fn collect_unique_credentials_deduplicates() {
    let mut cfg = SshConfig::default();
    let mut a = make_entry("s1", "a.com");
    a.user = Some("deploy".into());
    a.key_path = Some("/k1".into());
    let mut b = make_entry("s2", "b.com");
    b.user = Some("deploy".into());
    b.key_path = Some("/k1".into());
    let mut c = make_entry("s3", "c.com");
    c.auth_method = Some("password".into());
    cfg.add_server(a);
    cfg.add_server(b);
    cfg.add_server(c);
    let creds = cfg.collect_unique_credentials();
    assert_eq!(creds.len(), 2, "deploy+/k1 and root+password should be 2 unique credentials");
    assert_eq!(creds[0], ("deploy".to_string(), Some("/k1".to_string()), "deploy@a.com".to_string()));
    assert_eq!(creds[1], ("root".to_string(), None, "root@c.com".to_string()));
}

#[test]
fn has_legacy_entries_false_when_vault_account_set() {
    let mut cfg = SshConfig::default();
    let mut entry = make_entry("s1", "host1");
    entry.vault_account_id = Some(uuid::Uuid::new_v4().as_u128());
    // Entry has vault_account_id so it is NOT legacy.
    cfg.add_server(entry);
    assert!(!cfg.has_legacy_entries());
}

#[test]
fn folders_add_expand_find_and_remove() {
    let mut cfg = make_config();
    let fid = cfg.folders[0].id.clone();
    assert_eq!(fid.len(), 36);
    assert_eq!(fid.as_bytes()[8], b'-');
    assert!(cfg.folders[0].expanded);
    assert_eq!(cfg.find_server_folder("srv3"), Some(fid.as_str()));
    assert_eq!(cfg.find_server_folder("srv1"), None);
    cfg.set_folder_expanded(&fid, false);
    assert!(!cfg.folders[0].expanded);
    cfg.add_server_to_folder(make_entry("srv4", "h4"), &fid);
    assert_eq!(cfg.folders[0].entries.len(), 2);
    cfg.add_server_to_folder(make_entry("srv5", "h5"), "missing");
    assert_eq!(cfg.ungrouped.len(), 3);
    assert_eq!(cfg.find_server_by_label("srv4").unwrap().host, "h4");
    cfg.remove_folder(&fid);
    assert!(cfg.folders.is_empty());
    assert!(cfg.find_server("srv3").is_none());
}

#[test]
fn tunnel_operations() {
    let mut cfg = SshConfig::default();
    cfg.add_tunnel(tunnel(1, "a@h:22"));
    cfg.add_tunnel(tunnel(2, "b@h:22"));
    assert_eq!(cfg.find_tunnel(2).unwrap().session_key, "b@h:22");
    let mut t = tunnel(2, "c@h:22");
    t.auto_start = true;
    cfg.update_tunnel(t);
    assert!(cfg.find_tunnel(2).unwrap().auto_start);
    cfg.update_tunnel(tunnel(9, "x@y:1"));
    assert_eq!(cfg.tunnels.len(), 2);
    cfg.remove_tunnel(1);
    assert!(cfg.find_tunnel(1).is_none());
    assert_eq!(cfg.tunnels.len(), 1);
}

#[test]
fn merge_import_assigns_fresh_ids_and_counts() {
    let mut src = make_config();
    src.add_tunnel(tunnel(5, "root@10.0.0.1:22"));
    let payload = src.to_export_filtered(None, None);
    let mut dst = SshConfig::default();
    dst.add_server(make_entry("keep", "k"));
    let counts = dst.merge_import(payload);
    assert_eq!(counts, (3, 1, 1));
    assert_eq!(dst.ungrouped.len(), 3);
    assert_eq!(dst.ungrouped[0].id, "keep");
    assert_ne!(dst.ungrouped[1].id, "srv1");
    assert_eq!(dst.ungrouped[1].host, "10.0.0.1");
    assert_eq!(dst.ungrouped[1].id.len(), 36);
    assert_ne!(dst.folders[0].entries[0].id, "srv3");
    assert_eq!(dst.folders[0].name, "Production");
    assert_ne!(dst.tunnels[0].id, 5);
    assert_eq!(dst.tunnels[0].session_key, "root@10.0.0.1:22");
}

#[test]
fn session_key_round_trip_on_plain_user() {
    let t = SavedTunnel::parse_session_key("deploy@db.example.com:2222").unwrap();
    assert_eq!(t, ("deploy".to_string(), "db.example.com".to_string(), 2222));
    assert_eq!(SavedTunnel::make_session_key("deploy", "db.example.com", 2222), "deploy@db.example.com:2222");
}

#[test]
fn export_drops_absolute_key_paths() {
    let mut cfg = make_config();
    cfg.ungrouped[0].key_path = Some("/home/user/.ssh/id_ed25519".into());
    cfg.ungrouped[1].key_path = Some("~/.ssh/id_rsa".into());
    cfg.folders[0].entries[0].key_path = Some("C:\\keys\\id".into());
    let p = cfg.to_export_filtered(None, None);
    assert!(p.ungrouped[0].key_path.is_none());
    assert_eq!(p.ungrouped[1].key_path.as_deref(), Some("~/.ssh/id_rsa"));
    assert!(p.folders[0].entries[0].key_path.is_none());
}

#[test]
fn import_under_ids_uses_the_given_ids() {
    let mut cfg = make_config();
    let payload = ExportPayload {
        version: 1,
        folders: vec![ServerFolder { id: "old-f".into(), name: "F".into(), expanded: false, entries: vec![make_entry("a", "h1"), make_entry("b", "h2")] }],
        ungrouped: vec![make_entry("c", "h3")],
        tunnels: vec![tunnel(5, "root@h1:22")],
    };
    let r = cfg.import_under_ids(payload, vec!["F1".into()], vec!["E1".into(), "E2".into(), "E3".into()], vec![99]);
    assert_eq!(r, (3, 1, 1));
    let f = cfg.folders.last().unwrap();
    assert_eq!(f.id, "F1");
    assert_eq!(f.name, "F");
    assert_eq!(f.entries[0].id, "E1");
    assert_eq!(f.entries[1].id, "E2");
    assert_eq!(f.entries[1].host, "h2");
    assert_eq!(cfg.ungrouped.last().unwrap().id, "E3");
    assert_eq!(cfg.tunnels.last().unwrap().id, 99);
    assert_eq!(cfg.tunnels.last().unwrap().session_key, "root@h1:22");
}

fn is_v4_text(id: &str) -> bool {
    let b = id.as_bytes();
    b.len() == 36 && b[14] == b'4' && matches!(b[19], b'8' | b'9' | b'a' | b'b')
}

#[test]
fn drawn_ids_are_version_four_uuids() {
    let mut src = make_config();
    src.add_tunnel(tunnel(5, "root@10.0.0.1:22"));
    assert!(is_v4_text(&src.folders[0].id));
    let payload = src.to_export_filtered(None, None);
    let mut dst = SshConfig::default();
    dst.merge_import(payload);
    assert!(is_v4_text(&dst.ungrouped[0].id));
    assert!(is_v4_text(&dst.folders[0].id));
    assert!(is_v4_text(&dst.folders[0].entries[0].id));
    let t = dst.tunnels[0].id;
    assert_eq!((t >> 76) & 0xf, 4);
    assert_eq!((t >> 62) & 0x3, 2);
}
