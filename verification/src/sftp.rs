//! File entries of the session file browser, the messages of its SFTP
//! worker, and the order in which listings are shown.
use std::path::PathBuf;
use std::sync::Arc;
use std::sync::atomic::AtomicBool;
use vstd::prelude::*;
use crate::keys::{to_lowercase, unicode_lowercase};
use crate::sorting::{
    SortKey, is_stable_sort_by, key_lt, lemma_sort_ascending, lemma_sort_keeps_items, item_key, lemma_sort_unkeyed, reversed, stable_sort_by_key,
};
use crate::rsync::RsyncCheck;
use crate::text::str_chars;

verus! {

/// A file entry returned by listing a directory.
#[derive(Debug, Clone)]
pub struct FileEntry {
    pub name: String,
    pub path: PathBuf,
    pub is_dir: bool,
    pub size: u64,
    pub modified: Option<u64>,
}

/// Progress update for file transfers.
#[derive(Debug, Clone)]
pub struct TransferProgress {
    pub bytes_transferred: u64,
    pub total_bytes: u64,
}

/// The listing order of an entry: directories first, then by the name in
/// lower case.
pub open spec fn entry_key(e: FileEntry) -> SortKey {
    (if e.is_dir { 0u8 } else { 1u8 }, unicode_lowercase(e.name@))
}

/// Sorts entries stably: directories first, then by name, ignoring case.
pub fn sort_entries(entries: &mut Vec<FileEntry>)
    ensures
        is_stable_sort_by(old(entries)@, final(entries)@, |e: FileEntry| entry_key(e)),
        final(entries)@.len() == old(entries)@.len(),
        forall|i: int, j: int|
            0 <= i < j < final(entries)@.len() ==> !key_lt(
                entry_key(#[trigger] final(entries)@[j]),
                entry_key(#[trigger] final(entries)@[i]),
            ),
        forall|i: int, j: int|
            0 <= i < j < final(entries)@.len() && (#[trigger] final(entries)@[j]).is_dir ==> (
            #[trigger] final(entries)@[i]).is_dir,
{
    let mut taken: Vec<FileEntry> = Vec::new();
    std::mem::swap(&mut taken, entries);
    let ghost ins = taken@;
    let mut rev = reversed(taken);
    let mut keyed: Vec<(u8, Vec<char>, FileEntry)> = Vec::new();
    while rev.len() > 0
        invariant
            rev@.len() + keyed@.len() == ins.len(),
            forall|k: int| 0 <= k < rev@.len() ==> rev@[k] == ins[ins.len() - 1 - k],
            forall|k: int|
                0 <= k < keyed@.len() ==> (#[trigger] keyed@[k]).2 == ins[k] && item_key(keyed@[k])
                    == entry_key(ins[k]),
        decreases rev@.len(),
    {
        let e = rev.pop().unwrap();
        let rank: u8 = if e.is_dir {
            0
        } else {
            1
        };
        let lower = to_lowercase(e.name.as_str());
        let chars = str_chars(lower.as_str());
        keyed.push((rank, chars, e));
    }
    let ghost keyed_in = keyed@;
    let sorted = stable_sort_by_key(keyed);
    let ghost keyed_out = sorted@;
    let mut rs = reversed(sorted);
    while rs.len() > 0
        invariant
            rs@.len() + entries@.len() == keyed_out.len(),
            forall|k: int| 0 <= k < rs@.len() ==> rs@[k] == keyed_out[keyed_out.len() - 1 - k],
            forall|k: int| 0 <= k < entries@.len() ==> keyed_out[k].2 == #[trigger] entries@[k],
        decreases rs@.len(),
    {
        let x = rs.pop().unwrap();
        let (_, _, e) = x;
        entries.push(e);
    }
    proof {
        lemma_sort_unkeyed(
            keyed_in,
            keyed_out,
            ins,
            entries@,
            |e: FileEntry| e,
            |e: FileEntry| entry_key(e),
        );
        lemma_sort_ascending(ins, entries@, |e: FileEntry| entry_key(e));
        lemma_sort_keeps_items(ins, entries@, |e: FileEntry| entry_key(e));
        assert forall|i: int, j: int|
            0 <= i < j < entries@.len() && (#[trigger] entries@[j]).is_dir implies (
            #[trigger] entries@[i]).is_dir by {
            assert(!key_lt(entry_key(entries@[j]), entry_key(entries@[i])));
        }
    }
}

/// Local filesystem file provider.
pub struct LocalFileProvider;

/// Commands sent from the UI thread to the SFTP worker.
pub enum SftpCmd {
    /// List the given remote directory.
    List(PathBuf),
    /// Upload a local file to a remote directory.
    Upload { local_path: PathBuf, remote_dir: PathBuf, cancel: Arc<AtomicBool> },
    /// Download a remote file to a local directory.
    Download { remote_path: PathBuf, local_dir: PathBuf, cancel: Arc<AtomicBool> },
    /// Shut down the SFTP worker.
    Shutdown,
}

/// A directory listing result sent back from the SFTP worker.
pub struct SftpListing {
    pub path: PathBuf,
    pub entries: Vec<FileEntry>,
    pub home: PathBuf,
}

/// Events sent from the SFTP worker back to the UI.
pub enum SftpEvent {
    /// A directory listing completed.
    Listing(SftpListing),
    /// Incremental transfer progress update.
    TransferProgress { filename: String, bytes_transferred: u64, total_bytes: u64 },
    /// A file transfer completed (upload or download).
    TransferComplete { filename: String, success: bool, error: Option<String> },
    /// Indicates whether rsync is being used for transfers.
    RsyncAvailable(bool),
}

/// How the worker transfers files.
#[derive(Debug, Clone, Copy)]
pub struct TransferPlan {
    /// Transfers go through rsync (falling back to SFTP when it fails).
    pub use_rsync: bool,
    /// rsync compresses with zstd rather than zlib.
    pub use_zstd: bool,
}

/// Decides the transfer method once the rsync probes are in: rsync when
/// the connection details are known and both sides have it, with zstd when
/// both support it.
pub fn transfer_plan(has_connect_info: bool, local: RsyncCheck, remote: RsyncCheck) -> (r: TransferPlan)
    ensures
        r.use_rsync == (has_connect_info && local.available && remote.available),
        r.use_zstd == (r.use_rsync && local.has_zstd && remote.has_zstd),
{
    if has_connect_info && local.available && remote.available {
        TransferPlan { use_rsync: true, use_zstd: local.has_zstd && remote.has_zstd }
    } else {
        TransferPlan { use_rsync: false, use_zstd: false }
    }
}

/// The event reporting progress of the transfer of `filename`.
pub fn progress_event(filename: String, p: &TransferProgress) -> (r: SftpEvent)
    ensures
        r matches SftpEvent::TransferProgress { filename: f, bytes_transferred, total_bytes }
            && f@ == filename@ && bytes_transferred == p.bytes_transferred && total_bytes
            == p.total_bytes,
{
    SftpEvent::TransferProgress {
        filename,
        bytes_transferred: p.bytes_transferred,
        total_bytes: p.total_bytes,
    }
}

/// The event reporting the end of the transfer of `filename`: a success
/// without error, or a failure with its message.
pub fn completion_event(filename: String, error: Option<String>) -> (r: SftpEvent)
    ensures
        r matches SftpEvent::TransferComplete { filename: f, success, error: e } && f@ == filename@
            && success == (error is None) && crate::ssh_config::opt_text(e)
            == crate::ssh_config::opt_text(error),
{
    let success = error.is_none();
    SftpEvent::TransferComplete { filename, success, error }
}

/// How one transfer attempt moves a file.
#[derive(Debug, Clone, Copy, PartialEq, Eq, Structural)]
pub enum TransferMethod {
    Rsync,
    Sftp,
}

/// The next attempt at a transfer after `last` (the previous attempt and
/// whether it succeeded), or none when the transfer is over; the outcome of
/// the last attempt is the transfer's outcome. With rsync in the plan,
/// rsync goes first and SFTP follows only when rsync failed; otherwise SFTP
/// alone.
pub open spec fn next_method(plan: TransferPlan, last: Option<(TransferMethod, bool)>) -> Option<TransferMethod> {
    match last {
        None => if plan.use_rsync {
            Some(TransferMethod::Rsync)
        } else {
            Some(TransferMethod::Sftp)
        },
        Some((TransferMethod::Rsync, ok)) => if ok {
            None
        } else {
            Some(TransferMethod::Sftp)
        },
        Some((TransferMethod::Sftp, _)) => None,
    }
}

/// Decides the next attempt at a transfer (see `next_method`).
pub fn next_transfer_method(plan: TransferPlan, last: Option<(TransferMethod, bool)>) -> (r: Option<TransferMethod>)
    ensures
        r == next_method(plan, last),
{
    match last {
        None => {
            if plan.use_rsync {
                Some(TransferMethod::Rsync)
            } else {
                Some(TransferMethod::Sftp)
            }
        },
        Some((TransferMethod::Rsync, ok)) => {
            if ok {
                None
            } else {
                Some(TransferMethod::Sftp)
            }
        },
        Some((TransferMethod::Sftp, _)) => None,
    }
}

} // verus!
