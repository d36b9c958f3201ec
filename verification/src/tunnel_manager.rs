//! The table of running port-forwarding tunnels: which tunnels are
//! connecting, active or failed, and the handles that stop them.
use std::collections::HashMap;
use vstd::prelude::*;
use crate::remote::{TunnelStatus, TunnelStatusView, copy_status};
use vstd::std_specs::iter::IteratorSpec;
use crate::text::{append_chars, append_str, contains_str, decimal, has_substring, str_chars, u64_to_decimal};

verus! {

broadcast use vstd::std_specs::hash::group_hash_axioms;

/// A tunnel's state, with the handle that aborts its forwarding task once
/// it runs.
pub struct TunnelState<H> {
    pub status: TunnelStatus,
    pub abort_handle: Option<H>,
}

/// A tunnel's state as plain values.
pub struct TunnelEntry<H> {
    pub status: TunnelStatusView,
    pub abort_handle: Option<H>,
}

/// The tunnels by id (a UUID, as its 128-bit value).
pub struct TunnelManager<H> {
    tunnels: HashMap<u128, TunnelState<H>>,
}

/// The plain view of one tunnel state.
pub open spec fn entry_of<H>(s: TunnelState<H>) -> TunnelEntry<H> {
    TunnelEntry { status: s.status@, abort_handle: s.abort_handle }
}

impl<H> View for TunnelManager<H> {
    type V = Map<u128, TunnelEntry<H>>;

    closed spec fn view(&self) -> Map<u128, TunnelEntry<H>> {
        self.tunnels@.map_values(|s: TunnelState<H>| entry_of(s))
    }
}

impl<H> TunnelManager<H> {
    /// No tunnels.
    pub fn new() -> (r: Self)
        ensures
            r@ == Map::<u128, TunnelEntry<H>>::empty(),
    {
        let r = TunnelManager { tunnels: HashMap::new() };
        assert(r@ =~= Map::<u128, TunnelEntry<H>>::empty());
        r
    }

    /// Records that the tunnel `id` is connecting (forgetting any earlier
    /// state of it).
    pub fn set_connecting(&mut self, id: u128)
        ensures
            final(self)@ == old(self)@.insert(
                id,
                TunnelEntry { status: TunnelStatusView::Connecting, abort_handle: None },
            ),
    {
        self.tunnels.insert(id, TunnelState { status: TunnelStatus::Connecting, abort_handle: None });
        assert(self@ =~= old(self)@.insert(
            id,
            TunnelEntry { status: TunnelStatusView::Connecting, abort_handle: None },
        ));
    }

    /// Records that the tunnel `id` failed with `msg`, when it is known.
    pub fn set_error(&mut self, id: u128, msg: String)
        ensures
            old(self)@.contains_key(id) ==> final(self)@ == old(self)@.insert(
                id,
                TunnelEntry { status: TunnelStatusView::Error(msg@), ..old(self)@[id] },
            ),
            !old(self)@.contains_key(id) ==> final(self)@ == old(self)@,
    {
        match self.tunnels.remove(&id) {
            Some(state) => {
                let TunnelState { status: _, abort_handle } = state;
                let ghost m = msg@;
                self.tunnels.insert(id, TunnelState { status: TunnelStatus::Error(msg), abort_handle });
                assert(self@ =~= old(self)@.insert(
                    id,
                    TunnelEntry { status: TunnelStatusView::Error(m), ..old(self)@[id] },
                ));
            },
            None => {
                assert(self.tunnels@ =~= old(self).tunnels@);
            },
        }
    }

    /// Forgets the tunnel `id` when it failed, so that it can be retried.
    pub fn clear_error(&mut self, id: u128)
        ensures
            (old(self)@.contains_key(id) && old(self)@[id].status is Error) ==> final(self)@ == old(
                self,
            )@.remove(id),
            !(old(self)@.contains_key(id) && old(self)@[id].status is Error) ==> final(self)@ == old(
                self,
            )@,
    {
        let failed = match self.tunnels.get(&id) {
            Some(state) => match state.status {
                TunnelStatus::Error(_) => true,
                _ => false,
            },
            None => false,
        };
        if failed {
            let _ = self.tunnels.remove(&id);
            assert(self@ =~= old(self)@.remove(id));
        }
    }

    /// Records that the tunnel `id` is forwarding, stoppable through
    /// `handle`.
    pub fn set_active(&mut self, id: u128, handle: H)
        ensures
            final(self)@ == old(self)@.insert(
                id,
                TunnelEntry { status: TunnelStatusView::Active, abort_handle: Some(handle) },
            ),
    {
        let ghost h = handle;
        self.tunnels.insert(id, TunnelState { status: TunnelStatus::Active, abort_handle: Some(handle) });
        assert(self@ =~= old(self)@.insert(
            id,
            TunnelEntry { status: TunnelStatusView::Active, abort_handle: Some(h) },
        ));
    }

    /// Forgets the tunnel `id`; returns the handle that aborts its task,
    /// if it had one.
    pub fn stop(&mut self, id: u128) -> (r: Option<H>)
        ensures
            final(self)@ == old(self)@.remove(id),
            r == if old(self)@.contains_key(id) {
                old(self)@[id].abort_handle
            } else {
                None
            },
    {
        let removed = self.tunnels.remove(&id);
        assert(self@ =~= old(self)@.remove(id));
        match removed {
            Some(state) => state.abort_handle,
            None => None,
        }
    }

    /// The state of the tunnel `id`, if known.
    pub fn status(&self, id: u128) -> (r: Option<TunnelStatus>)
        ensures
            match r {
                Some(s) => self@.contains_key(id) && s@ == self@[id].status,
                None => !self@.contains_key(id),
            },
    {
        match self.tunnels.get(&id) {
            Some(state) => Some(copy_status(&state.status)),
            None => None,
        }
    }

    /// Whether the tunnel `id` is forwarding.
    pub fn is_active(&self, id: u128) -> (r: bool)
        ensures
            r == (self@.contains_key(id) && self@[id].status is Active),
    {
        match self.tunnels.get(&id) {
            Some(state) => match state.status {
                TunnelStatus::Active => true,
                _ => false,
            },
            None => false,
        }
    }

    /// The ids of all tunnels, each once, in no particular order.
    fn ids(&self) -> (r: Vec<u128>)
        ensures
            r@.len() == self.tunnels@.dom().len(),
            r@.to_set() == self.tunnels@.dom(),
            r@.no_duplicates(),
    {
        let mut r: Vec<u128> = Vec::new();
        let ghost ks = vstd::std_specs::hash::spec_keys_iter(&self.tunnels).remaining();
        for k in it: self.tunnels.keys()
            invariant
                it.seq() == ks,
                r@.len() == it.index(),
                forall|i: int| 0 <= i < it.index() ==> r@[i] == *ks[i],
                ks.unref().to_set() == self.tunnels@.dom(),
                ks.no_duplicates(),
                ks.len() == self.tunnels@.dom().len(),
        {
            r.push(*k);
        }
        assert(r@ =~= ks.unref());
        assert forall|i: int, j: int| 0 <= i < r@.len() && 0 <= j < r@.len() && i != j implies r@[i]
            != r@[j] by {
            assert(ks[i] != ks[j]);
        }
        r
    }

    /// The state of every tunnel, each once, in no particular order.
    pub fn all_statuses(&self) -> (r: Vec<(u128, TunnelStatus)>)
        ensures
            r@.len() == self@.dom().len(),
            forall|i: int|
                0 <= i < r@.len() ==> self@.contains_key(#[trigger] r@[i].0) && r@[i].1@
                    == self@[r@[i].0].status,
            forall|id: u128| self@.contains_key(id) ==> exists|i: int| 0 <= i < r@.len() && #[trigger] r@[i].0 == id,
            forall|i: int, j: int| 0 <= i < j < r@.len() ==> r@[i].0 != r@[j].0,
    {
        let ids = self.ids();
        let mut r: Vec<(u128, TunnelStatus)> = Vec::new();
        let mut i: usize = 0;
        while i < ids.len()
            invariant
                i <= ids@.len(),
                ids@.len() == self.tunnels@.dom().len(),
                ids@.to_set() == self.tunnels@.dom(),
                ids@.no_duplicates(),
                r@.len() == i,
                forall|k: int|
                    0 <= k < i ==> r@[k].0 == ids@[k] && self@.contains_key(ids@[k]) && (
                    #[trigger] r@[k]).1@ == self@[ids@[k]].status,
            decreases ids.len() - i,
        {
            let id = ids[i];
            assert(ids@.to_set().contains(id));
            match self.tunnels.get(&id) {
                Some(state) => {
                    r.push((id, copy_status(&state.status)));
                },
                None => {},
            }
            i += 1;
        }
        assert(self@.dom() =~= self.tunnels@.dom());
        assert forall|id: u128| self@.contains_key(id) implies exists|i: int|
            0 <= i < r@.len() && #[trigger] r@[i].0 == id by {
            assert(ids@.to_set().contains(id));
            let k = choose|k: int| 0 <= k < ids@.len() && ids@[k] == id;
            assert(r@[k].0 == id);
        }
        r
    }

    /// Forgets every tunnel; returns the id and abort handle of each tunnel
    /// that had one, each once, in no particular order.
    pub fn stop_all(&mut self) -> (r: Vec<(u128, H)>)
        ensures
            final(self)@ == Map::<u128, TunnelEntry<H>>::empty(),
            forall|i: int|
                0 <= i < r@.len() ==> old(self)@.contains_key(#[trigger] r@[i].0)
                    && old(self)@[r@[i].0].abort_handle == Some(r@[i].1),
            forall|id: u128|
                old(self)@.contains_key(id) && old(self)@[id].abort_handle is Some ==> exists|i: int|
                    0 <= i < r@.len() && #[trigger] r@[i].0 == id,
            forall|i: int, j: int| 0 <= i < j < r@.len() ==> r@[i].0 != r@[j].0,
    {
        let ids = self.ids();
        let mut taken: HashMap<u128, TunnelState<H>> = HashMap::new();
        std::mem::swap(&mut taken, &mut self.tunnels);
        let ghost orig = taken@;
        assert(self@ =~= Map::<u128, TunnelEntry<H>>::empty());
        let mut r: Vec<(u128, H)> = Vec::new();
        let mut i: usize = 0;
        while i < ids.len()
            invariant
                i <= ids@.len(),
                ids@.to_set() == orig.dom(),
                ids@.no_duplicates(),
                forall|id: u128| #[trigger] taken@.contains_key(id) <==> (orig.contains_key(id) && !ids@.take(i as int).contains(id)),
                forall|id: u128| #[trigger] taken@.contains_key(id) ==> taken@[id] == orig[id],
                forall|k: int|
                    0 <= k < r@.len() ==> ids@.take(i as int).contains(#[trigger] r@[k].0)
                        && orig[r@[k].0].abort_handle == Some(r@[k].1) && orig.contains_key(r@[k].0),
                forall|k: int|
                    0 <= k < i && (#[trigger] orig[ids@[k]]).abort_handle is Some ==> exists|m: int|
                        0 <= m < r@.len() && #[trigger] r@[m].0 == ids@[k],
                forall|a: int, b: int| 0 <= a < b < r@.len() ==> r@[a].0 != r@[b].0,
                self@ == Map::<u128, TunnelEntry<H>>::empty(),
            decreases ids.len() - i,
        {
            let id = ids[i];
            assert(ids@.to_set().contains(id));
            assert(!ids@.take(i as int).contains(id)) by {
                if ids@.take(i as int).contains(id) {
                    let k = choose|k: int| 0 <= k < i && ids@.take(i as int)[k] == id;
                    assert(ids@[k] == ids@[i as int]);
                }
            }
            let ghost before = r@;
            assert(ids@.take(i + 1) =~= ids@.take(i as int).push(id));
            assert(taken@.contains_key(id));
            let ghost had = orig[id].abort_handle is Some;
            match taken.remove(&id) {
                Some(state) => {
                    assert(state.abort_handle == orig[id].abort_handle);
                    match state.abort_handle {
                        Some(h) => {
                            r.push((id, h));
                            assert(r@ == before.push((id, h)));
                        },
                        None => {
                            assert(r@ == before);
                        },
                    }
                },
                None => {
                    assert(false);
                },
            }
            assert(had ==> r@.len() == before.len() + 1 && r@[r@.len() - 1].0 == id);
            assert(!had ==> r@ == before);
            assert(forall|m: int| 0 <= m < before.len() ==> r@[m] == before[m]);
            let ghost prev_take = ids@.take(i as int);
            i += 1;
            proof {
                let now = ids@.take(i as int);
                assert(now =~= prev_take.push(id));
                assert forall|x: u128| #[trigger] now.contains(x) <==> (prev_take.contains(x) || x == id) by {
                    if x == id {
                        assert(now[now.len() - 1] == id);
                    }
                    if prev_take.contains(x) {
                        let k = choose|k: int| 0 <= k < prev_take.len() && prev_take[k] == x;
                        assert(now[k] == x);
                    }
                    if now.contains(x) && x != id {
                        let k = choose|k: int| 0 <= k < now.len() && now[k] == x;
                        assert(prev_take[k] == x);
                    }
                }
                assert forall|k: int|
                    0 <= k < i && (#[trigger] orig[ids@[k]]).abort_handle is Some implies exists|m: int|
                        0 <= m < r@.len() && #[trigger] r@[m].0 == ids@[k] by {
                    if k < i - 1 {
                        let m = choose|m: int| 0 <= m < before.len() && #[trigger] before[m].0 == ids@[k];
                        assert(r@[m] == before[m]);
                    } else {
                        assert(ids@[k] == id);
                        assert(r@[r@.len() - 1].0 == id);
                    }
                }
            }
        }
        assert forall|id: u128|
            orig.contains_key(id) && orig[id].abort_handle is Some implies exists|m: int|
                0 <= m < r@.len() && #[trigger] r@[m].0 == id by {
            assert(ids@.to_set().contains(id));
            let k = choose|k: int| 0 <= k < ids@.len() && ids@[k] == id;
            assert(orig[ids@[k]].abort_handle is Some);
        }
        assert forall|id: u128| orig.contains_key(id) implies #[trigger] old(self)@.contains_key(id) by {}
        r
    }
}

/// The error for a local port a tunnel cannot listen on:
/// `Failed to bind local port <port>: <reason>`.
pub open spec fn bind_error_text(port: u16, reason: Seq<char>) -> Seq<char> {
    "Failed to bind local port "@ + decimal(port as nat) + ": "@ + reason
}

/// Builds the error for a local port a tunnel cannot listen on.
pub fn bind_error_message(port: u16, reason: &str) -> (r: String)
    ensures
        r@ == bind_error_text(port, reason@),
{
    let mut s = "Failed to bind local port ".to_owned();
    let d = u64_to_decimal(port as u64);
    append_chars(&mut s, d.as_slice());
    append_str(&mut s, ": ");
    append_str(&mut s, reason);
    s
}

/// Whether a failure to open a forwarding channel ends the tunnel: its
/// message mentions `disconnect` or `closed` (the SSH connection is gone);
/// any other failure only drops that one client connection.
pub fn channel_error_ends_tunnel(message: &str) -> (r: bool)
    ensures
        r == (has_substring(message@, "disconnect"@) || has_substring(message@, "closed"@)),
{
    let v = str_chars(message);
    contains_str(v.as_slice(), "disconnect") || contains_str(v.as_slice(), "closed")
}

} // verus!
