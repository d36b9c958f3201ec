use conch::sftp::{next_transfer_method, TransferMethod, TransferPlan};
use std::path::PathBuf;
use std::sync::atomic::AtomicBool;
use std::sync::Arc;

use conch::rsync::RsyncCheck;
use conch::sftp::{
    completion_event, progress_event, sort_entries, transfer_plan, FileEntry, SftpCmd, SftpEvent, SftpListing,
    TransferProgress,
};

fn entry(name: &str, is_dir: bool) -> FileEntry {
    FileEntry { name: name.into(), path: PathBuf::from(format!("/tmp/{name}")), is_dir, size: 0, modified: None }
}

#[test]
fn session_listing_sorts_dirs_first_then_names() {
    let mut entries = vec![entry("notes.md", false), entry("Bin", true), entry("apps", true), entry("Alpha.md", false)];
    sort_entries(&mut entries);
    let names: Vec<&str> = entries.iter().map(|e| e.name.as_str()).collect();
    assert_eq!(names, vec!["apps", "Bin", "Alpha.md", "notes.md"]);
    assert_eq!(entries[1].path, PathBuf::from("/tmp/Bin"));
}

#[test]
fn worker_messages_carry_their_data() {
    let cancel = Arc::new(AtomicBool::new(false));
    let cmd = SftpCmd::Upload { local_path: PathBuf::from("/a"), remote_dir: PathBuf::from("/b"), cancel };
    assert!(matches!(cmd, SftpCmd::Upload { .. }));
    let listing = SftpListing { path: PathBuf::from("/"), entries: vec![entry("x", false)], home: PathBuf::from("/root") };
    let ev = SftpEvent::Listing(listing);
    match ev {
        SftpEvent::Listing(l) => assert_eq!(l.entries.len(), 1),
        _ => panic!("wrong event"),
    }
    let p = TransferProgress { bytes_transferred: 5, total_bytes: 10 };
    assert_eq!(p.clone().total_bytes, 10);
}

#[test]
fn transfer_plan_and_events() {
    let yes = RsyncCheck { available: true, has_zstd: true };
    let old = RsyncCheck { available: true, has_zstd: false };
    let no = RsyncCheck { available: false, has_zstd: false };
    let p = transfer_plan(true, yes, yes);
    assert!(p.use_rsync && p.use_zstd);
    let p = transfer_plan(true, yes, old);
    assert!(p.use_rsync && !p.use_zstd);
    let p = transfer_plan(true, yes, no);
    assert!(!p.use_rsync && !p.use_zstd);
    let p = transfer_plan(false, yes, yes);
    assert!(!p.use_rsync && !p.use_zstd);
    match progress_event("f".into(), &TransferProgress { bytes_transferred: 3, total_bytes: 9 }) {
        SftpEvent::TransferProgress { filename, bytes_transferred, total_bytes } => {
            assert_eq!((filename.as_str(), bytes_transferred, total_bytes), ("f", 3, 9))
        }
        _ => panic!("wrong event"),
    }
    match completion_event("f".into(), Some("boom".into())) {
        SftpEvent::TransferComplete { success, error, .. } => {
            assert!(!success);
            assert_eq!(error.as_deref(), Some("boom"));
        }
        _ => panic!("wrong event"),
    }
    assert!(matches!(completion_event("f".into(), None), SftpEvent::TransferComplete { success: true, error: None, .. }));
}

#[test]
fn rsync_first_then_sftp_fallback() {
    let rsync = TransferPlan { use_rsync: true, use_zstd: false };
    let sftp = TransferPlan { use_rsync: false, use_zstd: false };
    assert_eq!(next_transfer_method(rsync, None), Some(TransferMethod::Rsync));
    assert_eq!(next_transfer_method(rsync, Some((TransferMethod::Rsync, true))), None);
    assert_eq!(next_transfer_method(rsync, Some((TransferMethod::Rsync, false))), Some(TransferMethod::Sftp));
    assert_eq!(next_transfer_method(rsync, Some((TransferMethod::Sftp, false))), None);
    assert_eq!(next_transfer_method(sftp, None), Some(TransferMethod::Sftp));
}
