use std::path::PathBuf;
use std::sync::Arc;

use conch::remote::{
    host_display, host_key_verdict, ChannelInput, ConchSshHandler, HostKeyVerdict, RemoteCallbacks,
    TransferKind, TransferProgress, TransferStatus, TunnelInfo, TunnelStatus, SSH_DEFAULT_PORT,
};

struct AcceptAllCallbacks;

impl RemoteCallbacks for AcceptAllCallbacks {
    fn verify_host_key(&self, _message: &str, _fingerprint: &str) -> bool {
        true
    }
    fn prompt_password(&self, _message: &str) -> Option<String> {
        None
    }
    fn on_transfer_progress(&self, _transfer_id: &str, _bytes: u64, _total: Option<u64>) {}
}

struct RejectAllCallbacks;

impl RemoteCallbacks for RejectAllCallbacks {
    fn verify_host_key(&self, _message: &str, _fingerprint: &str) -> bool {
        false
    }
    fn prompt_password(&self, _message: &str) -> Option<String> {
        None
    }
    fn on_transfer_progress(&self, _transfer_id: &str, _bytes: u64, _total: Option<u64>) {}
}

#[test]
fn handler_fields_accessible() {
    let handler = ConchSshHandler {
        host: "example.com".to_string(),
        port: 22,
        known_hosts_file: PathBuf::from("/tmp/known_hosts"),
        callbacks: Arc::new(AcceptAllCallbacks),
    };
    assert_eq!(handler.host, "example.com");
    assert_eq!(handler.port, 22);
    assert_eq!(handler.known_hosts_file, PathBuf::from("/tmp/known_hosts"));
}

#[test]
fn handler_non_standard_port() {
    let handler = ConchSshHandler {
        host: "192.168.1.1".to_string(),
        port: 2222,
        known_hosts_file: PathBuf::from("/tmp/known_hosts"),
        callbacks: Arc::new(AcceptAllCallbacks),
    };
    assert_eq!(handler.port, 2222);
    // Verify host_display formatting would use bracket notation for non-default port
    let host_display = if handler.port != SSH_DEFAULT_PORT {
        format!("[{}]:{}", handler.host, handler.port)
    } else {
        handler.host.clone()
    };
    assert_eq!(host_display, "[192.168.1.1]:2222");
}

#[test]
fn handler_standard_port_display() {
    let handler = ConchSshHandler {
        host: "myserver.io".to_string(),
        port: 22,
        known_hosts_file: PathBuf::from("/tmp/known_hosts"),
        callbacks: Arc::new(RejectAllCallbacks),
    };
    let host_display = if handler.port != SSH_DEFAULT_PORT {
        format!("[{}]:{}", handler.host, handler.port)
    } else {
        handler.host.clone()
    };
    assert_eq!(host_display, "myserver.io");
}

#[test]
fn accept_callbacks_returns_true() {
    let cb = AcceptAllCallbacks;
    // Verify the trait impl is accessible and the struct is Send + Sync
    let _arc: Arc<dyn RemoteCallbacks> = Arc::new(cb);
}

#[test]
fn reject_callbacks_returns_false() {
    let _arc: Arc<dyn RemoteCallbacks> = Arc::new(RejectAllCallbacks);
}

#[test]
fn channel_input_variants() {
    // Verify ChannelInput enum can be constructed
    let _write = ChannelInput::Write(vec![1, 2, 3]);
    let _resize = ChannelInput::Resize { cols: 80, rows: 24 };
    let _shutdown = ChannelInput::Shutdown;
}

#[test]
fn host_display_brackets_non_default_port() {
    assert_eq!(host_display("192.168.1.1", 2222), "[192.168.1.1]:2222");
    assert_eq!(host_display("myserver.io", 22), "myserver.io");
    assert_eq!(host_display("h", 0), "[h]:0");
}

#[test]
fn known_matching_key_is_trusted() {
    assert!(matches!(host_key_verdict("h", 22, Some(true), "ssh-ed25519", "SHA256:x"), HostKeyVerdict::Trusted));
}

#[test]
fn changed_key_asks_with_warning_and_is_not_remembered() {
    match host_key_verdict("example.com", 2200, Some(false), "ssh-rsa", "SHA256:abc") {
        HostKeyVerdict::Ask { message, fingerprint, remember } => {
            assert_eq!(
                message,
                "WARNING: HOST KEY HAS CHANGED for example.com:2200\n\n\
                 This could indicate a man-in-the-middle attack.\n\
                 It is also possible that the host key has just been changed."
            );
            assert_eq!(fingerprint, "ssh-rsa\nSHA256:abc");
            assert!(!remember);
        }
        HostKeyVerdict::Trusted => panic!("a changed key must not be trusted"),
    }
}

#[test]
fn unknown_host_asks_and_is_remembered() {
    match host_key_verdict("10.0.0.5", 2222, None, "ssh-ed25519", "SHA256:zz") {
        HostKeyVerdict::Ask { message, fingerprint, remember } => {
            assert_eq!(message, "The authenticity of host '[10.0.0.5]:2222' can't be established.");
            assert_eq!(fingerprint, "ssh-ed25519 key fingerprint is:\nSHA256:zz");
            assert!(remember);
        }
        HostKeyVerdict::Trusted => panic!("an unknown key must not be trusted"),
    }
    match host_key_verdict("box", 22, None, "a", "f") {
        HostKeyVerdict::Ask { message, .. } => {
            assert_eq!(message, "The authenticity of host 'box' can't be established.")
        }
        HostKeyVerdict::Trusted => panic!("an unknown key must not be trusted"),
    }
}

#[test]
fn transfer_and_tunnel_types() {
    let p = TransferProgress {
        transfer_id: "t1".into(),
        kind: TransferKind::Upload,
        status: TransferStatus::InProgress,
        bytes_transferred: 10,
        total_bytes: 100,
        file_name: "a.bin".into(),
        error: None,
    };
    let q = p.clone();
    assert_eq!(q.kind, TransferKind::Upload);
    assert_eq!(q.status, TransferStatus::InProgress);
    let info = TunnelInfo { id: "x".into(), status: TunnelStatus::Error("refused".into()) };
    assert!(matches!(info.status, TunnelStatus::Error(ref m) if m == "refused"));
}
