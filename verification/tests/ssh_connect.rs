use conch::ssh_connect::{parse_auth_method, VaultAuthMethod};
use conch::ssh_connect::{tilde_path, TildePath};
use conch::ssh_connect::{
    auth_plan, effective_proxy, expand_proxy_command, next_auth_attempt, password_prompt, tunnel_password_prompt, usable_password,
    AuthAttempt, AuthPlan, ConnectParams,
};

#[test]
fn proxy_command_wins_over_jump() {
    assert_eq!(effective_proxy(&Some("nc %h %p".into()), &Some("bastion".into())), Some("nc %h %p".into()));
    assert_eq!(effective_proxy(&None, &Some("bastion".into())), Some("ssh -W %h:%p bastion".into()));
    assert_eq!(effective_proxy(&None, &None), None);
}

#[test]
fn proxy_markers_expanded() {
    assert_eq!(expand_proxy_command("ssh -W %h:%p bastion", "10.0.0.5", 2222), "ssh -W 10.0.0.5:2222 bastion");
    assert_eq!(expand_proxy_command("%%h %x %", "h", 1), "%h %x %");
    // The host is substituted first, so a `%p` inside it becomes the port.
    assert_eq!(expand_proxy_command("%h", "a%p", 7), "a7");
}

#[test]
fn auth_plans() {
    assert_eq!(auth_plan("password"), AuthPlan::Password);
    assert_eq!(auth_plan("key_and_password"), AuthPlan::KeyThenPassword);
    assert_eq!(auth_plan("key"), AuthPlan::Key);
    assert_eq!(auth_plan("anything"), AuthPlan::Key);
}

#[test]
fn empty_stored_password_means_ask() {
    assert_eq!(usable_password(&Some(String::new())), None);
    assert_eq!(usable_password(&Some("pw".into())), Some("pw".into()));
    assert_eq!(usable_password(&None), None);
    assert_eq!(password_prompt("root", "example.com"), "Password for root@example.com");
}

fn params(proxy_command: Option<&str>, proxy_jump: Option<&str>) -> ConnectParams {
    ConnectParams {
        host: "db.internal".into(),
        port: 2200,
        user: "ops".into(),
        identity_file: Some(std::path::PathBuf::from("/home/ops/.ssh/id_ed25519")),
        password: None,
        proxy_command: proxy_command.map(|s| s.to_string()),
        proxy_jump: proxy_jump.map(|s| s.to_string()),
    }
}

#[test]
fn connect_params_effective_proxy() {
    assert_eq!(params(Some("nc %h %p"), Some("bastion")).effective_proxy().as_deref(), Some("nc %h %p"));
    assert_eq!(
        params(None, Some("bastion")).effective_proxy().as_deref(),
        Some("ssh -o BatchMode=yes -W %h:%p bastion")
    );
    assert!(params(None, None).effective_proxy().is_none());
    let p = params(None, Some("jump"));
    let cmd = p.effective_proxy().unwrap();
    assert_eq!(expand_proxy_command(&cmd, &p.host, p.port), "ssh -o BatchMode=yes -W db.internal:2200 jump");
}

#[test]
fn auth_attempt_sequences() {
    assert_eq!(next_auth_attempt(AuthPlan::Password, false, None), Some(AuthAttempt::Password));
    assert_eq!(next_auth_attempt(AuthPlan::Password, false, Some((AuthAttempt::Password, false))), None);
    assert_eq!(next_auth_attempt(AuthPlan::Key, true, None), Some(AuthAttempt::Key));
    assert_eq!(next_auth_attempt(AuthPlan::Key, true, Some((AuthAttempt::Key, false))), None);
    // Interactive sessions ask for the password after an accepted key.
    assert_eq!(next_auth_attempt(AuthPlan::KeyThenPassword, false, Some((AuthAttempt::Key, true))), Some(AuthAttempt::Password));
    assert_eq!(next_auth_attempt(AuthPlan::KeyThenPassword, false, Some((AuthAttempt::Key, false))), None);
    // Tunnels fall back to the password after a refused key.
    assert_eq!(next_auth_attempt(AuthPlan::KeyThenPassword, true, Some((AuthAttempt::Key, false))), Some(AuthAttempt::Password));
    assert_eq!(next_auth_attempt(AuthPlan::KeyThenPassword, true, Some((AuthAttempt::Key, true))), None);
    assert_eq!(tunnel_password_prompt("ops", "db.internal", 2200), "Password for ops@db.internal:2200");
}

#[test]
fn vault_auth_methods_from_forms() {
    match parse_auth_method("password", None, None, None) {
        Ok(VaultAuthMethod::Password(p)) => assert_eq!(p, ""),
        _ => panic!("expected a password method"),
    }
    match parse_auth_method("key", None, Some("/k"), Some("pp")) {
        Ok(VaultAuthMethod::Key { path, passphrase }) => {
            assert_eq!(path, "/k");
            assert_eq!(passphrase.as_deref(), Some("pp"));
        }
        _ => panic!("expected a key method"),
    }
    match parse_auth_method("key_and_password", Some("pw"), Some("/k"), None) {
        Ok(VaultAuthMethod::KeyAndPassword { key_path, passphrase, password }) => {
            assert_eq!(key_path, "/k");
            assert!(passphrase.is_none());
            assert_eq!(password, "pw");
        }
        _ => panic!("expected a key-and-password method"),
    }
    assert!(matches!(parse_auth_method("key", None, None, None), Err(e) if e == "key_path required for key auth"));
    assert!(matches!(parse_auth_method("key_and_password", None, None, None), Err(e) if e == "key_path required"));
    assert!(matches!(parse_auth_method("otp", None, None, None), Err(e) if e == "unknown auth type: otp"));
}

#[test]
fn tilde_paths() {
    assert!(matches!(tilde_path("~"), TildePath::Home));
    assert!(matches!(tilde_path("~/foo/bar"), TildePath::UnderHome(r) if r == "foo/bar"));
    assert!(matches!(tilde_path("/usr/bin/ssh"), TildePath::AsIs));
    assert!(matches!(tilde_path("~user/x"), TildePath::AsIs));
}
