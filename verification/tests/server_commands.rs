use conch::server_commands::{
    credentials_from_server, duplicate_server, export_selection, find_server_by_entry_id,
    find_server_for_tunnel, import_payload, move_server, parse_quick_connect, rename_folder,
    resolve_imported_tunnel_keys, save_server, save_tunnel, status_label, tunnel_server,
};
use conch::remote::TunnelStatus;
use conch::ssh_config::{ExportPayload, SavedTunnel, ServerEntry, ServerFolder, SshConfig};

fn make_server(label: &str, host: &str, user: &str, port: u16) -> ServerEntry {
    ServerEntry {
        id: format!("id-{label}"),
        label: label.to_string(),
        host: host.to_string(),
        port,
        user: Some(user.to_string()),
        auth_method: Some("key".to_string()),
        key_path: None,
        vault_account_id: None,
        proxy_command: None,
        proxy_jump: None,
    }
}

fn tunnel(id: u128, key: &str) -> SavedTunnel {
    SavedTunnel {
        id,
        label: "t".into(),
        session_key: key.into(),
        server_entry_id: None,
        local_port: 1,
        remote_host: "r".into(),
        remote_port: 2,
        auto_start: false,
    }
}

#[test]
fn parse_quick_connect_full() {
    let (user, host, port) = parse_quick_connect("deploy@10.0.0.1:2222", "me");
    assert_eq!(user, "deploy");
    assert_eq!(host, "10.0.0.1");
    assert_eq!(port, 2222);
}

#[test]
fn parse_quick_connect_no_port() {
    let (user, host, port) = parse_quick_connect("root@example.com", "me");
    assert_eq!(user, "root");
    assert_eq!(host, "example.com");
    assert_eq!(port, 22);
}

#[test]
fn parse_quick_connect_host_only() {
    let (user, host, port) = parse_quick_connect("example.com", "root");
    assert!(!user.is_empty());
    assert_eq!(host, "example.com");
    assert_eq!(port, 22);
}

#[test]
fn parse_quick_connect_bad_port_defaults() {
    assert_eq!(parse_quick_connect("a@h:xyz", "me"), ("a".into(), "h".into(), 22));
    assert_eq!(parse_quick_connect("h:70000", "me"), ("me".into(), "h".into(), 22));
}

fn ssh_entry(label: &str, host: &str, user: &str, port: u16) -> ServerEntry {
    let mut e = make_server(label, host, user, port);
    e.id = format!("sshconfig_{label}");
    e
}

fn pushed_tunnel(id: u128, label: &str, key: &str, local_port: u16, remote_host: &str, remote_port: u16) -> SavedTunnel {
    SavedTunnel {
        id,
        label: label.to_string(),
        session_key: key.to_string(),
        server_entry_id: None,
        local_port,
        remote_host: remote_host.to_string(),
        remote_port,
        auto_start: false,
    }
}

#[test]
fn find_server_exact_match() {
    let ssh = vec![ssh_entry("bastion", "bastion.example.com", "admin", 22)];
    let cfg = SshConfig::default();
    let result = find_server_for_tunnel(&cfg, &ssh, "admin@bastion.example.com:22");
    assert!(result.is_some());
    assert_eq!(result.unwrap().host, "bastion.example.com");
}

#[test]
fn find_server_user_mismatch_matches_by_host_port() {
    let mut e = ssh_entry("candice-pve", "bastion.nexxuscraft.com", "root", 22);
    e.proxy_command = Some("cloudflared access ssh --hostname %h".to_string());
    let cfg = SshConfig::default();
    let result = find_server_for_tunnel(&cfg, &vec![e], "dustin@bastion.nexxuscraft.com:22");
    assert!(result.is_some(), "should match by host+port despite user mismatch");
    let server = result.unwrap();
    assert_eq!(server.host, "bastion.nexxuscraft.com");
    assert_eq!(
        server.proxy_command.as_deref(),
        Some("cloudflared access ssh --hostname %h"),
        "should inherit proxy from SSH config entry"
    );
}

#[test]
fn find_server_alias_no_false_positive() {
    let ssh = vec![ssh_entry("prod-db", "db.example.com", "admin", 22)];
    let cfg = SshConfig::default();
    let result = find_server_for_tunnel(&cfg, &ssh, "admin@bastion:22");
    assert!(result.is_some(), "fallback should still return something");
    assert_eq!(result.unwrap().host, "bastion");
}

#[test]
fn find_server_by_ssh_alias() {
    let mut e = ssh_entry("bastion", "bastion.example.com", "admin", 22);
    e.proxy_command = Some("ssh -W %h:%p jump".to_string());
    let cfg = SshConfig::default();
    let result = find_server_for_tunnel(&cfg, &vec![e], "admin@bastion:22");
    assert!(result.is_some(), "should match via SSH config alias");
    let server = result.unwrap();
    assert_eq!(server.host, "bastion.example.com");
    assert_eq!(server.proxy_command.as_deref(), Some("ssh -W %h:%p jump"),);
}

#[test]
fn find_server_fallback_builds_bare_entry() {
    let cfg = SshConfig::default();
    let ssh = vec![ssh_entry("bastion", "10.9.9.9", "ops", 22)];
    let bare = find_server_for_tunnel(&cfg, &ssh, "u@other:2200").unwrap();
    assert_eq!(bare.id, "");
    assert_eq!(bare.label, "u@other:2200");
    assert_eq!(bare.host, "other");
    assert_eq!(bare.port, 2200);
    assert_eq!(bare.user.as_deref(), Some("u"));
    assert!(find_server_for_tunnel(&cfg, &ssh, "garbage").is_none());
}

#[test]
fn find_server_by_entry_id_exact() {
    let mut server_a = ssh_entry("prod-a", "host.example.com", "alice", 22);
    server_a.id = "aaaaaaaa-1111-2222-3333-444444444444".to_string();
    let mut server_b = ssh_entry("prod-b", "host.example.com", "bob", 22);
    server_b.id = "bbbbbbbb-1111-2222-3333-444444444444".to_string();
    let cfg = SshConfig::default();
    let ssh = vec![server_a, server_b];
    let result = find_server_by_entry_id(&cfg, &ssh, Some("bbbbbbbb-1111-2222-3333-444444444444"));
    assert!(result.is_some(), "should find server by entry ID");
    let server = result.unwrap();
    assert_eq!(server.user.as_deref(), Some("bob"));
    assert_eq!(server.label, "prod-b");
}

#[test]
fn find_server_by_entry_id_none_returns_none() {
    let ssh = vec![ssh_entry("prod", "host.example.com", "admin", 22)];
    let cfg = SshConfig::default();
    assert!(find_server_by_entry_id(&cfg, &ssh, None).is_none(), "None entry_id should return None");
}

#[test]
fn find_server_by_entry_id_missing_id_returns_none() {
    let ssh = vec![ssh_entry("prod", "host.example.com", "admin", 22)];
    let cfg = SshConfig::default();
    assert!(
        find_server_by_entry_id(&cfg, &ssh, Some("nonexistent-id")).is_none(),
        "unknown entry_id should return None"
    );
}

#[test]
fn find_server_by_entry_id_prefers_config_servers() {
    let mut server = ssh_entry("vault-host", "secure.example.com", "deploy", 22);
    server.id = "cccccccc-1111-2222-3333-444444444444".to_string();
    let mut cfg = SshConfig::default();
    cfg.add_server(server);
    let result = find_server_by_entry_id(&cfg, &vec![], Some("cccccccc-1111-2222-3333-444444444444"));
    assert!(result.is_some());
    assert_eq!(result.unwrap().host, "secure.example.com");
}

#[test]
fn find_server_by_entry_id_config_before_ssh_entries() {
    let mut cfg = SshConfig::default();
    cfg.add_server(make_server("a", "h", "u", 22));
    let ssh = vec![make_server("a", "other", "u", 22)];
    assert_eq!(find_server_by_entry_id(&cfg, &ssh, Some("id-a")).unwrap().host, "h");
}

#[test]
fn resolve_imported_tunnel_keys_rewrites_user_mismatch() {
    let mut e = ssh_entry("candice-pve", "bastion.nexxuscraft.com", "root", 22);
    e.proxy_command = Some("cloudflared access ssh --hostname %h".to_string());
    let mut cfg = SshConfig::default();
    cfg.tunnels.push(pushed_tunnel(
        uuid::Uuid::new_v4().as_u128(),
        "minecraft-local",
        "dustin@bastion.nexxuscraft.com:22",
        25565,
        "10.0.1.31",
        25580,
    ));
    resolve_imported_tunnel_keys(&mut cfg, &vec![e], &[]);
    assert_eq!(cfg.tunnels[0].session_key, "root@bastion.nexxuscraft.com:22",);
}

#[test]
fn resolve_imported_tunnel_keys_rewrites_alias() {
    let ssh = vec![ssh_entry("bastion", "bastion.example.com", "admin", 22)];
    let mut cfg = SshConfig::default();
    cfg.tunnels.push(pushed_tunnel(uuid::Uuid::new_v4().as_u128(), "test tunnel", "admin@bastion:22", 8080, "localhost", 80));
    resolve_imported_tunnel_keys(&mut cfg, &ssh, &[]);
    assert_eq!(cfg.tunnels[0].session_key, "admin@bastion.example.com:22",);
}

#[test]
fn resolve_imported_tunnel_keys_skips_existing() {
    let ssh = vec![ssh_entry("bastion", "bastion.example.com", "admin", 22)];
    let tunnel_id = uuid::Uuid::new_v4().as_u128();
    let mut cfg = SshConfig::default();
    cfg.tunnels.push(pushed_tunnel(tunnel_id, "existing tunnel", "admin@bastion:22", 8080, "localhost", 80));
    resolve_imported_tunnel_keys(&mut cfg, &ssh, &[tunnel_id]);
    assert_eq!(cfg.tunnels[0].session_key, "admin@bastion:22",);
}

#[test]
fn resolve_imported_tunnel_keys_preserves_already_matching() {
    let ssh = vec![ssh_entry("bastion", "bastion.example.com", "admin", 22)];
    let mut cfg = SshConfig::default();
    cfg.tunnels.push(pushed_tunnel(
        uuid::Uuid::new_v4().as_u128(),
        "good tunnel",
        "admin@bastion.example.com:22",
        9090,
        "localhost",
        443,
    ));
    resolve_imported_tunnel_keys(&mut cfg, &ssh, &[]);
    assert_eq!(cfg.tunnels[0].session_key, "admin@bastion.example.com:22",);
}

#[test]
fn resolve_imported_tunnel_keys_mixed_batch() {
    let mut cfg = SshConfig::default();
    cfg.add_server(make_server("a", "10.0.0.1", "deploy", 22));
    let ssh = vec![make_server("alias", "10.0.0.7", "ops", 2222)];
    cfg.add_tunnel(tunnel(1, "root@10.0.0.1:22"));
    cfg.add_tunnel(tunnel(2, "x@alias:22"));
    cfg.add_tunnel(tunnel(3, "root@10.0.0.1:22"));
    cfg.add_tunnel(tunnel(4, "deploy@10.0.0.1:22"));
    cfg.add_tunnel(tunnel(5, "nothing@nowhere:1"));
    resolve_imported_tunnel_keys(&mut cfg, &ssh, &[3]);
    let keys: Vec<&str> = cfg.tunnels.iter().map(|t| t.session_key.as_str()).collect();
    assert_eq!(keys, vec!["deploy@10.0.0.1:22", "ops@10.0.0.7:2222", "root@10.0.0.1:22", "deploy@10.0.0.1:22", "nothing@nowhere:1"]);
}

#[test]
fn credentials_defaults() {
    let mut s = make_server("a", "h", "u", 22);
    s.user = None;
    s.auth_method = None;
    s.key_path = Some("/k".into());
    let c = credentials_from_server(&s, Some("pw".into()));
    assert_eq!(c.username, "root");
    assert_eq!(c.auth_method, "key");
    assert_eq!(c.password.as_deref(), Some("pw"));
    assert_eq!(c.key_path.as_deref(), Some("/k"));
    assert!(c.key_passphrase.is_none());
}

#[test]
fn duplicate_server_copies_with_new_id() {
    let mut cfg = SshConfig::default();
    cfg.add_server(make_server("web", "h", "u", 22));
    let d = duplicate_server(&mut cfg, "id-web").unwrap();
    assert_eq!(d.label, "web (copy)");
    assert_ne!(d.id, "id-web");
    assert_eq!(cfg.ungrouped.len(), 2);
    assert_eq!(cfg.ungrouped[1].label, "web (copy)");
    assert!(duplicate_server(&mut cfg, "nope").is_none());
    assert_eq!(cfg.ungrouped.len(), 2);
}

#[test]
fn export_selection_adds_selected_ssh_config_servers() {
    let mut cfg = SshConfig::default();
    cfg.add_server(make_server("a", "10.0.0.1", "deploy", 22));
    cfg.add_server(make_server("b", "10.0.0.2", "deploy", 22));
    cfg.add_tunnel(tunnel(1, "deploy@10.0.0.1:22"));
    let ssh = vec![make_server("alias", "10.0.0.7", "ops", 22), make_server("other", "10.0.0.8", "ops", 22)];
    let all = export_selection(&cfg, &ssh, None, None);
    assert_eq!(all.version, 1);
    assert_eq!(all.ungrouped.len(), 2);
    assert_eq!(all.tunnels.len(), 1);
    let ids = vec!["id-b".to_string(), "id-alias".to_string()];
    let picked = export_selection(&cfg, &ssh, Some(&ids), Some(&[]));
    let labels: Vec<&str> = picked.ungrouped.iter().map(|e| e.label.as_str()).collect();
    assert_eq!(labels, vec!["b", "alias"]);
    assert!(picked.tunnels.is_empty());
}

#[test]
fn import_payload_reports_counts_and_rejects_other_versions() {
    let mut cfg = SshConfig::default();
    let payload = ExportPayload {
        version: 1,
        folders: vec![ServerFolder {
            id: "f".into(),
            name: "Prod".into(),
            expanded: true,
            entries: vec![make_server("p1", "10.1.0.1", "ops", 22), make_server("p2", "10.1.0.2", "ops", 22)],
        }],
        ungrouped: vec![make_server("u", "10.2.0.1", "me", 22)],
        tunnels: vec![tunnel(9, "x@10.1.0.1:22")],
    };
    let msg = import_payload(&mut cfg, &vec![], payload).unwrap();
    assert_eq!(msg, "Imported 3 server(s), 1 folder(s), 1 tunnel(s)");
    assert_eq!(cfg.folders.len(), 1);
    assert_eq!(cfg.folders[0].entries.len(), 2);
    assert_eq!(cfg.ungrouped.len(), 1);
    assert_eq!(cfg.tunnels.len(), 1);
    assert_ne!(cfg.tunnels[0].id, 9);
    assert_eq!(cfg.tunnels[0].session_key, "ops@10.1.0.1:22");

    let before = cfg.clone();
    let bad = ExportPayload { version: 2, folders: vec![], ungrouped: vec![], tunnels: vec![] };
    assert_eq!(import_payload(&mut cfg, &vec![], bad), Err("Unsupported export version: 2".to_string()));
    assert_eq!(cfg.ungrouped.len(), before.ungrouped.len());
    assert_eq!(cfg.tunnels.len(), before.tunnels.len());
}

#[test]
fn tunnel_server_by_entry_id_then_key_then_error() {
    let mut cfg = SshConfig::default();
    cfg.add_server(make_server("a", "10.0.0.1", "deploy", 22));
    let mut t = tunnel(1, "nobody@nowhere:22");
    t.server_entry_id = Some("id-a".into());
    assert_eq!(tunnel_server(&cfg, &vec![], &t).unwrap().label, "a");
    let by_key = tunnel(2, "root@10.0.0.1:22");
    assert_eq!(tunnel_server(&cfg, &vec![], &by_key).unwrap().label, "a");
    let bad = tunnel(3, "garbage");
    assert_eq!(tunnel_server(&cfg, &vec![], &bad).unwrap_err(), "No server configured for garbage");
}

#[test]
fn save_server_replaces_and_places() {
    let mut cfg = SshConfig::default();
    cfg.add_folder("Prod");
    let fid = cfg.folders[0].id.clone();
    cfg.add_server(make_server("a", "h1", "u", 22));
    let mut edited = make_server("a", "h2", "u", 2222);
    edited.label = "a2".into();
    save_server(&mut cfg, edited.clone(), Some(&fid));
    assert!(cfg.ungrouped.is_empty());
    assert_eq!(cfg.folders[0].entries.len(), 1);
    assert_eq!(cfg.folders[0].entries[0].host, "h2");
    save_server(&mut cfg, edited, Some("no-such-folder"));
    assert!(cfg.folders[0].entries.is_empty());
    assert_eq!(cfg.ungrouped.len(), 1);
    assert_eq!(cfg.ungrouped[0].label, "a2");
}

#[test]
fn move_server_between_folder_and_ungrouped() {
    let mut cfg = SshConfig::default();
    cfg.add_folder("Prod");
    let fid = cfg.folders[0].id.clone();
    cfg.add_server(make_server("a", "h1", "u", 22));
    cfg.add_server(make_server("b", "h2", "u", 22));
    move_server(&mut cfg, "id-a", Some(&fid));
    assert_eq!(cfg.ungrouped.len(), 1);
    assert_eq!(cfg.ungrouped[0].label, "b");
    assert_eq!(cfg.folders[0].entries[0].label, "a");
    move_server(&mut cfg, "id-a", None);
    assert!(cfg.folders[0].entries.is_empty());
    assert_eq!(cfg.ungrouped[1].label, "a");
    move_server(&mut cfg, "missing", None);
    assert_eq!(cfg.ungrouped.len(), 2);
}

#[test]
fn rename_folder_renames_first_match_only() {
    let mut cfg = SshConfig::default();
    cfg.add_folder("Prod");
    let fid = cfg.folders[0].id.clone();
    rename_folder(&mut cfg, &fid, "Production".into());
    assert_eq!(cfg.folders[0].name, "Production");
    rename_folder(&mut cfg, "nope", "X".into());
    assert_eq!(cfg.folders[0].name, "Production");
}

#[test]
fn save_tunnel_updates_or_adds() {
    let mut cfg = SshConfig::default();
    save_tunnel(&mut cfg, tunnel(1, "a@h:22"));
    save_tunnel(&mut cfg, tunnel(2, "b@h:22"));
    let mut t = tunnel(1, "c@h:22");
    t.auto_start = true;
    save_tunnel(&mut cfg, t);
    assert_eq!(cfg.tunnels.len(), 2);
    assert_eq!(cfg.tunnels[0].session_key, "c@h:22");
    assert!(cfg.tunnels[0].auto_start);
}

#[test]
fn tunnel_status_labels() {
    assert_eq!(status_label(&TunnelStatus::Connecting), "connecting");
    assert_eq!(status_label(&TunnelStatus::Active), "active");
    assert_eq!(status_label(&TunnelStatus::Error("refused".into())), "error: refused");
}

#[test]
fn duplicate_server_draws_a_version_four_id() {
    let mut cfg = SshConfig::default();
    cfg.add_server(make_server("web", "h", "u", 22));
    let d = duplicate_server(&mut cfg, "id-web").unwrap();
    let b = d.id.as_bytes();
    assert_eq!(b.len(), 36);
    assert_eq!(b[14], b'4');
    assert!(matches!(b[19], b'8' | b'9' | b'a' | b'b'));
}
