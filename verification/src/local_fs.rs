//! Entries of the local file browser, shaped like those of the remote one
//! so that both panes list files alike.
use vstd::prelude::*;
use crate::keys::{to_lowercase, unicode_lowercase};
use crate::sorting::{
    SortKey, is_stable_sort_by, key_lt, lemma_sort_ascending, lemma_sort_keeps_items, item_key, lemma_sort_unkeyed, reversed, stable_sort_by_key,
};
use crate::text::str_chars;

verus! {

/// One entry of a directory listing.
#[derive(Debug, Clone)]
pub struct FileEntry {
    pub name: String,
    pub is_dir: bool,
    pub size: u64,
    /// Modification time in seconds since the Unix epoch.
    pub modified: Option<u64>,
    /// Unix permission bits, when known.
    pub permissions: Option<u32>,
}

/// The listing order of an entry: directories first, then by the name in
/// lower case.
pub open spec fn entry_key(e: FileEntry) -> SortKey {
    (if e.is_dir { 0u8 } else { 1u8 }, unicode_lowercase(e.name@))
}

/// Sorts entries stably: directories first, then by name, ignoring case.
pub fn sort_entries(entries: &mut Vec<FileEntry>)
    ensures
        is_stable_sort_by(old(entries)@, final(entries)@, |e: FileEntry| entry_key(e)),
        final(entries)@.len() == old(entries)@.len(),
        forall|i: int, j: int|
            0 <= i < j < final(entries)@.len() ==> !key_lt(
                entry_key(#[trigger] final(entries)@[j]),
                entry_key(#[trigger] final(entries)@[i]),
            ),
        forall|i: int, j: int|
            0 <= i < j < final(entries)@.len() && (#[trigger] final(entries)@[j]).is_dir ==> (
            #[trigger] final(entries)@[i]).is_dir,
{
    let mut taken: Vec<FileEntry> = Vec::new();
    std::mem::swap(&mut taken, entries);
    let ghost ins = taken@;
    let mut rev = reversed(taken);
    let mut keyed: Vec<(u8, Vec<char>, FileEntry)> = Vec::new();
    while rev.len() > 0
        invariant
            rev@.len() + keyed@.len() == ins.len(),
            forall|k: int| 0 <= k < rev@.len() ==> rev@[k] == ins[ins.len() - 1 - k],
            forall|k: int|
                0 <= k < keyed@.len() ==> (#[trigger] keyed@[k]).2 == ins[k] && item_key(keyed@[k])
                    == entry_key(ins[k]),
        decreases rev@.len(),
    {
        let e = rev.pop().unwrap();
        let rank: u8 = if e.is_dir {
            0
        } else {
            1
        };
        let lower = to_lowercase(e.name.as_str());
        let chars = str_chars(lower.as_str());
        keyed.push((rank, chars, e));
    }
    let ghost keyed_in = keyed@;
    let sorted = stable_sort_by_key(keyed);
    let ghost keyed_out = sorted@;
    let mut rs = reversed(sorted);
    while rs.len() > 0
        invariant
            rs@.len() + entries@.len() == keyed_out.len(),
            forall|k: int| 0 <= k < rs@.len() ==> rs@[k] == keyed_out[keyed_out.len() - 1 - k],
            forall|k: int| 0 <= k < entries@.len() ==> keyed_out[k].2 == #[trigger] entries@[k],
        decreases rs@.len(),
    {
        let x = rs.pop().unwrap();
        let (_, _, e) = x;
        entries.push(e);
    }
    proof {
        lemma_sort_unkeyed(
            keyed_in,
            keyed_out,
            ins,
            entries@,
            |e: FileEntry| e,
            |e: FileEntry| entry_key(e),
        );
        lemma_sort_ascending(ins, entries@, |e: FileEntry| entry_key(e));
        lemma_sort_keeps_items(ins, entries@, |e: FileEntry| entry_key(e));
        assert forall|i: int, j: int|
            0 <= i < j < entries@.len() && (#[trigger] entries@[j]).is_dir implies (
            #[trigger] entries@[i]).is_dir by {
            assert(!key_lt(entry_key(entries@[j]), entry_key(entries@[i])));
        }
    }
}

} // verus!
