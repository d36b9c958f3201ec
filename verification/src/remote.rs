//! Shared SSH connectivity types: the host-key handler, credentials, channel
//! messages, transfer progress and tunnel status, and the decisions the
//! host-key check makes.
use std::path::PathBuf;
use std::sync::Arc;
use vstd::prelude::*;
use crate::text::{append_chars, append_str, decimal, push_char, u64_to_decimal};

verus! {

/// Default SSH port.
pub const SSH_DEFAULT_PORT: u16 = 22;

/// Default PTY width in columns.
pub const DEFAULT_PTY_COLS: u16 = 80;

/// Default PTY height in rows.
pub const DEFAULT_PTY_ROWS: u16 = 24;

/// What the application provides to the SSH layer: asking the user about
/// host keys and passwords, and receiving transfer progress.
pub trait RemoteCallbacks: Send + Sync {
    /// Shows `message` and `fingerprint` and answers whether the user
    /// accepts the host key.
    fn verify_host_key(&self, message: &str, fingerprint: &str) -> bool;

    /// Asks the user for a password; `None` when the prompt was cancelled.
    fn prompt_password(&self, message: &str) -> Option<String>;

    /// Reports that `bytes` of a transfer (of `total`, when known) are done.
    fn on_transfer_progress(&self, transfer_id: &str, bytes: u64, total: Option<u64>);
}

/// SSH client handler for both interactive sessions and tunnels; host key
/// verification is delegated to the callbacks.
pub struct ConchSshHandler {
    pub host: String,
    pub port: u16,
    pub known_hosts_file: PathBuf,
    pub callbacks: Arc<dyn RemoteCallbacks>,
}

/// Credentials resolved before connecting.
pub struct SshCredentials {
    pub username: String,
    /// "key", "password", or "key_and_password".
    pub auth_method: String,
    pub password: Option<String>,
    pub key_path: Option<String>,
    /// Passphrase for decrypting the private key (if any).
    pub key_passphrase: Option<String>,
}

/// Messages sent to the SSH channel loop.
pub enum ChannelInput {
    Write(Vec<u8>),
    Resize { cols: u16, rows: u16 },
    Shutdown,
}

/// Direction of a file transfer.
#[derive(Debug, Clone, Copy, PartialEq, Eq, Structural)]
pub enum TransferKind {
    Download,
    Upload,
}

/// State of a file transfer.
#[derive(Debug, Clone, Copy, PartialEq, Eq, Structural)]
pub enum TransferStatus {
    Pending,
    InProgress,
    Completed,
    Failed,
    Cancelled,
}

/// A progress report of one transfer.
#[derive(Clone)]
pub struct TransferProgress {
    pub transfer_id: String,
    pub kind: TransferKind,
    pub status: TransferStatus,
    pub bytes_transferred: u64,
    pub total_bytes: u64,
    pub file_name: String,
    pub error: Option<String>,
}

/// State of a port-forwarding tunnel.
#[derive(Debug, Clone)]
pub enum TunnelStatus {
    Connecting,
    Active,
    Error(String),
}

/// A tunnel state as plain values.
pub enum TunnelStatusView {
    Connecting,
    Active,
    Error(Seq<char>),
}

impl View for TunnelStatus {
    type V = TunnelStatusView;

    open spec fn view(&self) -> TunnelStatusView {
        match self {
            TunnelStatus::Connecting => TunnelStatusView::Connecting,
            TunnelStatus::Active => TunnelStatusView::Active,
            TunnelStatus::Error(m) => TunnelStatusView::Error(m@),
        }
    }
}

/// A copy of a tunnel state.
pub fn copy_status(s: &TunnelStatus) -> (r: TunnelStatus)
    ensures
        r@ == s@,
{
    match s {
        TunnelStatus::Connecting => TunnelStatus::Connecting,
        TunnelStatus::Active => TunnelStatus::Active,
        TunnelStatus::Error(m) => TunnelStatus::Error(m.clone()),
    }
}

/// A tunnel's id with its state.
pub struct TunnelInfo {
    pub id: String,
    pub status: TunnelStatus,
}

// ---------------------------------------------------------------------------
// Host key verification
// ---------------------------------------------------------------------------

/// How a host is named to the user: `host` on the default port, else
/// `[host]:port`.
pub open spec fn host_display_text(host: Seq<char>, port: u16) -> Seq<char> {
    if port != SSH_DEFAULT_PORT {
        seq!['['] + host + seq![']', ':'] + decimal(port as nat)
    } else {
        host
    }
}

/// Names a host for the user: `host` on the default port, else `[host]:port`.
pub fn host_display(host: &str, port: u16) -> (r: String)
    ensures
        r@ == host_display_text(host@, port),
{
    if port != SSH_DEFAULT_PORT {
        let mut s = String::new();
        push_char(&mut s, '[');
        append_str(&mut s, host);
        push_char(&mut s, ']');
        push_char(&mut s, ':');
        let d = u64_to_decimal(port as u64);
        append_chars(&mut s, d.as_slice());
        s
    } else {
        host.to_owned()
    }
}

/// The warning shown when a host presents a key other than the recorded one.
pub open spec fn changed_key_message(host: Seq<char>, port: u16) -> Seq<char> {
    "WARNING: HOST KEY HAS CHANGED for "@ + host + seq![':'] + decimal(port as nat)
        + "\n\nThis could indicate a man-in-the-middle attack.\nIt is also possible that the host key has just been changed."@
}

/// The question asked when a host is not yet known.
pub open spec fn unknown_host_message(host: Seq<char>, port: u16) -> Seq<char> {
    "The authenticity of host '"@ + host_display_text(host, port) + "' can't be established."@
}

/// What the host-key check does with a server key.
pub enum HostKeyVerdict {
    /// The key matches the known-hosts record: accept without asking.
    Trusted,
    /// Ask the user; when `remember` holds and the user accepts, the key is
    /// added to the known-hosts file.
    Ask { message: String, fingerprint: String, remember: bool },
}

/// Decides the host-key check from the known-hosts lookup (`Some(true)`:
/// the recorded key matches, `Some(false)`: a different key is recorded,
/// `None`: the host is unknown), the key's algorithm name and its SHA-256
/// fingerprint text.
pub fn host_key_verdict(
    host: &str,
    port: u16,
    known: Option<bool>,
    algorithm: &str,
    fingerprint: &str,
) -> (v: HostKeyVerdict)
    ensures
        known == Some(true) ==> v is Trusted,
        known == Some(false) ==> (v matches HostKeyVerdict::Ask { message, fingerprint: fp, remember }
            && message@ == changed_key_message(host@, port) && fp@ == algorithm@ + seq!['\n']
            + fingerprint@ && !remember),
        known is None ==> (v matches HostKeyVerdict::Ask { message, fingerprint: fp, remember }
            && message@ == unknown_host_message(host@, port) && fp@ == algorithm@
            + " key fingerprint is:\n"@ + fingerprint@ && remember),
{
    match known {
        Some(true) => HostKeyVerdict::Trusted,
        Some(false) => {
            let mut message = String::new();
            append_str(&mut message, "WARNING: HOST KEY HAS CHANGED for ");
            append_str(&mut message, host);
            push_char(&mut message, ':');
            let d = u64_to_decimal(port as u64);
            append_chars(&mut message, d.as_slice());
            append_str(
                &mut message,
                "\n\nThis could indicate a man-in-the-middle attack.\nIt is also possible that the host key has just been changed.",
            );
            let mut fp = algorithm.to_owned();
            push_char(&mut fp, '\n');
            append_str(&mut fp, fingerprint);
            HostKeyVerdict::Ask { message, fingerprint: fp, remember: false }
        },
        None => {
            let mut message = String::new();
            append_str(&mut message, "The authenticity of host '");
            let shown = host_display(host, port);
            append_str(&mut message, shown.as_str());
            append_str(&mut message, "' can't be established.");
            let mut fp = algorithm.to_owned();
            append_str(&mut fp, " key fingerprint is:\n");
            append_str(&mut fp, fingerprint);
            HostKeyVerdict::Ask { message, fingerprint: fp, remember: true }
        },
    }
}

} // verus!
