use conch::tunnel_manager::{bind_error_message, channel_error_ends_tunnel};
use conch::remote::TunnelStatus;
use conch::remote::SshCredentials;
use conch::ssh_connect::usable_password;
use conch::tunnel_manager::TunnelManager;

#[test]
fn tunnel_manager_new_is_empty() {
    let mgr: TunnelManager<u32> = TunnelManager::new();
    assert!(mgr.all_statuses().is_empty());
    assert!(!mgr.is_active(1));
    assert!(mgr.status(1).is_none());
}

#[test]
fn tunnel_lifecycle() {
    let mut mgr: TunnelManager<&'static str> = TunnelManager::new();
    mgr.set_connecting(1);
    assert!(matches!(mgr.status(1), Some(TunnelStatus::Connecting)));
    mgr.set_error(1, "refused".into());
    assert!(matches!(mgr.status(1), Some(TunnelStatus::Error(ref m)) if m == "refused"));
    mgr.set_error(9, "ignored".into());
    assert!(mgr.status(9).is_none());
    mgr.clear_error(1);
    assert!(mgr.status(1).is_none());
    mgr.set_active(2, "h2");
    mgr.clear_error(2);
    assert!(mgr.is_active(2));
    assert_eq!(mgr.stop(2), Some("h2"));
    assert!(!mgr.is_active(2));
    assert_eq!(mgr.stop(2), None);
}

#[test]
fn stop_all_returns_each_handle_once() {
    let mut mgr: TunnelManager<u32> = TunnelManager::new();
    mgr.set_active(10, 100);
    mgr.set_active(11, 110);
    mgr.set_connecting(12);
    let mut st = mgr.all_statuses();
    st.sort_by_key(|(id, _)| *id);
    assert_eq!(st.len(), 3);
    assert!(matches!(st[2], (12, TunnelStatus::Connecting)));
    let mut handles = mgr.stop_all();
    handles.sort();
    assert_eq!(handles, vec![(10, 100), (11, 110)]);
    assert!(mgr.all_statuses().is_empty());
}

#[test]
fn tunnel_tunnel_manager_lifecycle() {
    let mgr: TunnelManager<()> = TunnelManager::new();
    let id = uuid::Uuid::new_v4().as_u128();
    assert!(!mgr.is_active(id));
    assert!(mgr.all_statuses().is_empty());
}

#[test]
fn tunnel_tunnel_manager_stop_nonexistent() {
    let mut mgr: TunnelManager<()> = TunnelManager::new();
    assert!(mgr.stop(uuid::Uuid::new_v4().as_u128()).is_none());
}

#[test]
fn tunnel_tunnel_manager_stop_all_empty() {
    let mut mgr: TunnelManager<()> = TunnelManager::new();
    mgr.stop_all();
    assert!(mgr.all_statuses().is_empty());
}

#[test]
fn tunnel_tunnel_status_transitions() {
    let mut mgr: TunnelManager<()> = TunnelManager::new();
    let id = uuid::Uuid::new_v4().as_u128();
    assert!(mgr.status(id).is_none());
    mgr.set_connecting(id);
    assert!(matches!(mgr.status(id), Some(TunnelStatus::Connecting)));
    assert!(!mgr.is_active(id));
    mgr.set_error(id, "test error".into());
    assert!(matches!(mgr.status(id), Some(TunnelStatus::Error(_))));
}

#[test]
fn clear_error_removes_error_state() {
    let mut mgr: TunnelManager<()> = TunnelManager::new();
    let id = uuid::Uuid::new_v4().as_u128();
    mgr.set_connecting(id);
    mgr.set_error(id, "oops".into());
    assert!(matches!(mgr.status(id), Some(TunnelStatus::Error(_))));
    mgr.clear_error(id);
    assert!(mgr.status(id).is_none(), "error state should be removed");
}

#[test]
fn clear_error_does_not_remove_active() {
    let mut mgr: TunnelManager<()> = TunnelManager::new();
    let id = uuid::Uuid::new_v4().as_u128();
    mgr.set_active(id, ());
    mgr.clear_error(id);
    assert!(mgr.is_active(id), "active tunnel should not be cleared");
}

#[test]
fn password_resolution_prefers_stored_credential() {
    let creds_with_pw = SshCredentials {
        username: "user".into(),
        auth_method: "password".into(),
        password: Some("stored_secret".into()),
        key_path: None,
        key_passphrase: None,
    };
    let resolved: Option<String> = match &creds_with_pw.password {
        Some(pw) => Some(pw.clone()),
        None => None,
    };
    assert_eq!(resolved.as_deref(), Some("stored_secret"));
    assert_eq!(usable_password(&creds_with_pw.password).as_deref(), Some("stored_secret"));

    let creds_no_pw = SshCredentials {
        username: "user".into(),
        auth_method: "password".into(),
        password: None,
        key_path: None,
        key_passphrase: None,
    };
    let resolved: Option<String> = match &creds_no_pw.password {
        Some(pw) => Some(pw.clone()),
        None => None,
    };
    assert_eq!(resolved, None);
    assert_eq!(usable_password(&creds_no_pw.password), None);
}

#[test]
fn tunnel_error_texts_and_decisions() {
    assert_eq!(bind_error_message(8080, "address in use"), "Failed to bind local port 8080: address in use");
    assert!(channel_error_ends_tunnel("channel closed"));
    assert!(channel_error_ends_tunnel("peer disconnected"));
    assert!(!channel_error_ends_tunnel("connect refused"));
}
