//! Requests waiting for the user's answer: plugin dialogs (forms, prompts,
//! confirmations) and SSH prompts (host keys, passwords), each keyed by a
//! prompt id and holding whatever delivers the answer.
use vstd::prelude::*;
use crate::plugin_dialogs::{dialog_belongs_to, owned_by, prompt_id_text};
use crate::text::has_char;

verus! {

/// Values by text id, at most one per id: the requests waiting for an
/// answer by prompt id, the SSH sessions and connections by key.
pub struct IdTable<S> {
    entries: Vec<(String, S)>,
}

/// The prompt ids of `s`, in order.
pub open spec fn ids_of<S>(s: Seq<(String, S)>) -> Seq<Seq<char>> {
    s.map_values(|e: (String, S)| e.0@)
}

/// Whether no prompt id occurs twice in `s`.
pub open spec fn distinct_ids<S>(s: Seq<(String, S)>) -> bool {
    forall|i: int, j: int| 0 <= i < j < s.len() ==> (#[trigger] s[i]).0@ != (#[trigger] s[j]).0@
}

/// Whether some request of `s` has the prompt id `k`.
pub open spec fn holds_id<S>(s: Seq<(String, S)>, k: Seq<char>) -> bool {
    exists|i: int| 0 <= i < s.len() && (#[trigger] s[i]).0@ == k
}

/// The requests of `s` as a map from prompt id to request.
pub open spec fn table_of<S>(s: Seq<(String, S)>) -> Map<Seq<char>, S> {
    Map::new(
        |k: Seq<char>| holds_id(s, k),
        |k: Seq<char>| s[choose|i: int| 0 <= i < s.len() && (#[trigger] s[i]).0@ == k].1,
    )
}

proof fn lemma_table_at<S>(s: Seq<(String, S)>, i: int)
    requires
        distinct_ids(s),
        0 <= i < s.len(),
    ensures
        table_of(s).contains_key(s[i].0@),
        table_of(s)[s[i].0@] == s[i].1,
{
    let k = s[i].0@;
    assert(holds_id(s, k));
    let j = choose|j: int| 0 <= j < s.len() && (#[trigger] s[j]).0@ == k;
    if j != i {
        if j < i {
            assert(s[j].0@ != s[i].0@);
        } else {
            assert(s[i].0@ != s[j].0@);
        }
    }
}

proof fn lemma_table_push<S>(s: Seq<(String, S)>, id: String, v: S)
    requires
        distinct_ids(s),
        !holds_id(s, id@),
    ensures
        distinct_ids(s.push((id, v))),
        table_of(s.push((id, v))) == table_of(s).insert(id@, v),
{
    let t = s.push((id, v));
    assert forall|i: int, j: int| 0 <= i < j < t.len() implies (#[trigger] t[i]).0@ != (#[trigger] t[j]).0@ by {
        if j == s.len() {
            assert(t[i] == s[i]);
        } else {
            assert(t[i] == s[i] && t[j] == s[j]);
        }
    }
    assert forall|k: Seq<char>| #[trigger] holds_id(t, k) == (holds_id(s, k) || k == id@) by {
        if holds_id(s, k) {
            let i = choose|i: int| 0 <= i < s.len() && (#[trigger] s[i]).0@ == k;
            assert(t[i] == s[i]);
        }
        if holds_id(t, k) && k != id@ {
            let i = choose|i: int| 0 <= i < t.len() && (#[trigger] t[i]).0@ == k;
            assert(t[i] == s[i]);
        }
        if k == id@ {
            assert(t[s.len() as int].0@ == k);
        }
    }
    assert forall|k: Seq<char>| #[trigger] table_of(t).contains_key(k) implies table_of(t)[k]
        == table_of(s).insert(id@, v)[k] by {
        if k == id@ {
            lemma_table_at(t, s.len() as int);
        } else {
            let i = choose|i: int| 0 <= i < s.len() && (#[trigger] s[i]).0@ == k;
            lemma_table_at(s, i);
            assert(t[i] == s[i]);
            lemma_table_at(t, i);
        }
    }
    assert(table_of(t) =~= table_of(s).insert(id@, v));
}

proof fn lemma_table_remove<S>(s: Seq<(String, S)>, i: int)
    requires
        distinct_ids(s),
        0 <= i < s.len(),
    ensures
        distinct_ids(s.remove(i)),
        table_of(s.remove(i)) == table_of(s).remove(s[i].0@),
{
    let t = s.remove(i);
    let gone = s[i].0@;
    assert forall|a: int, b: int| 0 <= a < b < t.len() implies (#[trigger] t[a]).0@ != (#[trigger] t[b]).0@ by {
        let a2 = if a < i { a } else { a + 1 };
        let b2 = if b < i { b } else { b + 1 };
        assert(t[a] == s[a2] && t[b] == s[b2]);
    }
    assert forall|k: Seq<char>| #[trigger] holds_id(t, k) == (holds_id(s, k) && k != gone) by {
        if holds_id(t, k) {
            let a = choose|a: int| 0 <= a < t.len() && (#[trigger] t[a]).0@ == k;
            let a2 = if a < i { a } else { a + 1 };
            assert(t[a] == s[a2]);
            if a2 < i {
                assert(s[a2].0@ != s[i].0@);
            } else {
                assert(s[i].0@ != s[a2].0@);
            }
        }
        if holds_id(s, k) && k != gone {
            let a = choose|a: int| 0 <= a < s.len() && (#[trigger] s[a]).0@ == k;
            if a < i {
                assert(t[a] == s[a]);
            } else {
                assert(a != i);
                assert(t[a - 1] == s[a]);
            }
        }
    }
    assert forall|k: Seq<char>| #[trigger] table_of(t).contains_key(k) implies table_of(t)[k]
        == table_of(s).remove(gone)[k] by {
        let a = choose|a: int| 0 <= a < t.len() && (#[trigger] t[a]).0@ == k;
        let a2 = if a < i { a } else { a + 1 };
        assert(t[a] == s[a2]);
        lemma_table_at(t, a);
        lemma_table_at(s, a2);
    }
    assert(table_of(t) =~= table_of(s).remove(gone));
}

impl<S> View for IdTable<S> {
    type V = Map<Seq<char>, S>;

    closed spec fn view(&self) -> Map<Seq<char>, S> {
        table_of(self.entries@)
    }
}

impl<S> IdTable<S> {
    /// The table's invariant: one request per prompt id.
    pub closed spec fn wf(self) -> bool {
        distinct_ids(self.entries@)
    }

    /// No requests.
    pub fn new() -> (r: Self)
        ensures
            r.wf(),
            r@ == Map::<Seq<char>, S>::empty(),
    {
        let r = IdTable { entries: Vec::new() };
        assert(r@ =~= Map::<Seq<char>, S>::empty());
        r
    }

    /// Whether no request waits.
    pub fn is_empty(&self) -> (r: bool)
        requires
            self.wf(),
        ensures
            r == (self@ == Map::<Seq<char>, S>::empty()),
    {
        if self.entries.len() == 0 {
            assert(self@ =~= Map::<Seq<char>, S>::empty());
            true
        } else {
            proof {
                lemma_table_at(self.entries@, 0);
            }
            assert(self@.contains_key(self.entries@[0].0@));
            false
        }
    }

    fn position(&self, id: &str) -> (r: Option<usize>)
        requires
            self.wf(),
        ensures
            match r {
                Some(i) => i < self.entries@.len() && self.entries@[i as int].0@ == id@,
                None => !holds_id(self.entries@, id@),
            },
    {
        let target = id.to_owned();
        let mut i: usize = 0;
        while i < self.entries.len()
            invariant
                i <= self.entries@.len(),
                target@ == id@,
                forall|j: int| 0 <= j < i ==> (#[trigger] self.entries@[j]).0@ != id@,
            decreases self.entries.len() - i,
        {
            if self.entries[i].0 == target {
                return Some(i);
            }
            i += 1;
        }
        None
    }

    /// Records a request under `id`, replacing (and returning) the one
    /// waiting there before, if any.
    pub fn insert(&mut self, id: String, request: S) -> (r: Option<S>)
        requires
            old(self).wf(),
        ensures
            final(self).wf(),
            final(self)@ == old(self)@.insert(id@, request),
            r == (if old(self)@.contains_key(id@) {
                Some(old(self)@[id@])
            } else {
                None
            }),
    {
        let previous = match self.position(id.as_str()) {
            Some(i) => {
                proof {
                    lemma_table_at(self.entries@, i as int);
                    lemma_table_remove(self.entries@, i as int);
                }
                let (_, old_request) = self.entries.remove(i);
                Some(old_request)
            },
            None => None,
        };
        assert(!holds_id(self.entries@, id@));
        proof {
            lemma_table_push(self.entries@, id, request);
        }
        self.entries.push((id, request));
        assert(self@ =~= old(self)@.insert(id@, request));
        previous
    }

    /// The number of waiting requests.
    pub fn len(&self) -> (r: usize)
        requires
            self.wf(),
        ensures
            r == self@.len(),
    {
        proof {
            let ids = ids_of(self.entries@);
            assert(ids.no_duplicates()) by {
                assert forall|i: int, j: int| 0 <= i < ids.len() && 0 <= j < ids.len() && i != j implies ids[i] != ids[j] by {
                    if i < j {
                        assert(self.entries@[i].0@ != self.entries@[j].0@);
                    } else {
                        assert(self.entries@[j].0@ != self.entries@[i].0@);
                    }
                }
            }
            ids.unique_seq_to_set();
            assert forall|k: Seq<char>| #[trigger] self@.dom().contains(k) == ids.to_set().contains(k) by {
                if self@.dom().contains(k) {
                    let i = choose|i: int| 0 <= i < self.entries@.len() && (#[trigger] self.entries@[i]).0@ == k;
                    assert(ids[i] == k);
                }
                if ids.to_set().contains(k) {
                    let i = choose|i: int| 0 <= i < ids.len() && ids[i] == k;
                    assert(self.entries@[i].0@ == k);
                }
            }
            assert(self@.dom() =~= ids.to_set());
        }
        self.entries.len()
    }

    /// Whether a request waits under `id`.
    pub fn contains_key(&self, id: &str) -> (r: bool)
        requires
            self.wf(),
        ensures
            r == self@.contains_key(id@),
    {
        self.position(id).is_some()
    }

    /// The request waiting under `id`, if any.
    pub fn get(&self, id: &str) -> (r: Option<&S>)
        requires
            self.wf(),
        ensures
            match r {
                Some(v) => self@.contains_key(id@) && *v == self@[id@],
                None => !self@.contains_key(id@),
            },
    {
        match self.position(id) {
            Some(i) => {
                proof {
                    lemma_table_at(self.entries@, i as int);
                }
                Some(&self.entries[i].1)
            },
            None => None,
        }
    }

    /// Takes the request waiting under `id`, if any.
    pub fn take(&mut self, id: &str) -> (r: Option<S>)
        requires
            old(self).wf(),
        ensures
            final(self).wf(),
            final(self)@ == old(self)@.remove(id@),
            r == (if old(self)@.contains_key(id@) {
                Some(old(self)@[id@])
            } else {
                None
            }),
    {
        match self.position(id) {
            Some(i) => {
                proof {
                    lemma_table_at(self.entries@, i as int);
                    lemma_table_remove(self.entries@, i as int);
                }
                let (_, request) = self.entries.remove(i);
                Some(request)
            },
            None => {
                assert(self@ =~= old(self)@.remove(id@));
                None
            },
        }
    }

    /// Drops every request of the plugin `plugin`: those whose prompt id
    /// starts with its name and NUL. The others stay as they were.
    pub fn drain_for_plugin(&mut self, plugin: &str)
        requires
            old(self).wf(),
        ensures
            final(self).wf(),
            forall|k: Seq<char>|
                #[trigger] final(self)@.contains_key(k) == (old(self)@.contains_key(k) && !owned_by(
                    k,
                    plugin@,
                )),
            forall|k: Seq<char>| #[trigger] final(self)@.contains_key(k) ==> final(self)@[k] == old(self)@[k],
    {
        let mut i: usize = 0;
        while i < self.entries.len()
            invariant
                i <= self.entries@.len(),
                distinct_ids(self.entries@),
                forall|j: int| 0 <= j < i ==> !owned_by((#[trigger] self.entries@[j]).0@, plugin@),
                forall|k: Seq<char>|
                    #[trigger] table_of(self.entries@).contains_key(k) ==> old(self)@.contains_key(k)
                        && table_of(self.entries@)[k] == old(self)@[k],
                forall|k: Seq<char>|
                    old(self)@.contains_key(k) && !owned_by(k, plugin@) ==> #[trigger] table_of(
                        self.entries@,
                    ).contains_key(k),
            decreases self.entries.len() - i,
        {
            if dialog_belongs_to(self.entries[i].0.as_str(), plugin) {
                let ghost before = self.entries@;
                proof {
                    lemma_table_remove(before, i as int);
                }
                let _ = self.entries.remove(i);
                assert forall|j: int| 0 <= j < i implies !owned_by((#[trigger] self.entries@[j]).0@, plugin@) by {
                    assert(self.entries@[j] == before[j]);
                }
            } else {
                i += 1;
            }
        }
        assert forall|k: Seq<char>| #[trigger] self@.contains_key(k) implies !owned_by(k, plugin@) by {
            let j = choose|j: int| 0 <= j < self.entries@.len() && (#[trigger] self.entries@[j]).0@ == k;
        }
    }
}

/// Plugin dialogs waiting for the user: forms, prompts and confirmations.
pub struct PendingDialogs<F, P, C> {
    pub forms: IdTable<F>,
    pub prompts: IdTable<P>,
    pub confirms: IdTable<C>,
}

impl<F, P, C> PendingDialogs<F, P, C> {
    /// Whether each table keeps its invariant.
    pub open spec fn wf(self) -> bool {
        self.forms.wf() && self.prompts.wf() && self.confirms.wf()
    }

    /// No dialogs.
    pub fn new() -> (r: Self)
        ensures
            r.wf(),
            r.forms@ == Map::<Seq<char>, F>::empty(),
            r.prompts@ == Map::<Seq<char>, P>::empty(),
            r.confirms@ == Map::<Seq<char>, C>::empty(),
    {
        PendingDialogs { forms: IdTable::new(), prompts: IdTable::new(), confirms: IdTable::new() }
    }

    /// Drops every dialog of the plugin `plugin`, of each kind; dropping
    /// what delivers an answer cancels the dialog.
    pub fn drain_for_plugin(&mut self, plugin: &str)
        requires
            old(self).wf(),
        ensures
            final(self).wf(),
            forall|k: Seq<char>|
                #[trigger] final(self).forms@.contains_key(k) == (old(self).forms@.contains_key(k)
                    && !owned_by(k, plugin@)),
            forall|k: Seq<char>|
                #[trigger] final(self).forms@.contains_key(k) ==> final(self).forms@[k] == old(
                    self,
                ).forms@[k],
            forall|k: Seq<char>|
                #[trigger] final(self).prompts@.contains_key(k) == (old(self).prompts@.contains_key(k)
                    && !owned_by(k, plugin@)),
            forall|k: Seq<char>|
                #[trigger] final(self).prompts@.contains_key(k) ==> final(self).prompts@[k] == old(
                    self,
                ).prompts@[k],
            forall|k: Seq<char>|
                #[trigger] final(self).confirms@.contains_key(k) == (old(
                    self,
                ).confirms@.contains_key(k) && !owned_by(k, plugin@)),
            forall|k: Seq<char>|
                #[trigger] final(self).confirms@.contains_key(k) ==> final(self).confirms@[k] == old(
                    self,
                ).confirms@[k],
    {
        self.forms.drain_for_plugin(plugin);
        self.prompts.drain_for_plugin(plugin);
        self.confirms.drain_for_plugin(plugin);
    }
}

/// A dialog another plugin opened survives when a plugin's dialogs are
/// drained, whatever prefix the two names share.
pub proof fn draining_keeps_other_plugins_dialogs<S>(
    before: Map<Seq<char>, S>,
    after: Map<Seq<char>, S>,
    drained: Seq<char>,
    other: Seq<char>,
    suffix: Seq<char>,
)
    requires
        !has_char(drained, '\0'),
        !has_char(other, '\0'),
        drained != other,
        forall|k: Seq<char>|
            #[trigger] after.contains_key(k) == (before.contains_key(k) && !owned_by(k, drained)),
        before.contains_key(prompt_id_text(other, suffix)),
    ensures
        after.contains_key(prompt_id_text(other, suffix)),
        !after.contains_key(prompt_id_text(drained, suffix)),
{
    crate::plugin_dialogs::dialogs_belong_to_their_plugin_only(other, drained, suffix);
    crate::plugin_dialogs::dialogs_belong_to_their_plugin_only(drained, other, suffix);
}

/// SSH prompts waiting for the user: host-key questions and passwords.
pub struct PendingPrompts<H, P> {
    pub host_key: IdTable<H>,
    pub password: IdTable<P>,
}

impl<H, P> PendingPrompts<H, P> {
    /// No prompts.
    pub fn new() -> (r: Self)
        ensures
            r.host_key.wf(),
            r.password.wf(),
            r.host_key@ == Map::<Seq<char>, H>::empty(),
            r.password@ == Map::<Seq<char>, P>::empty(),
    {
        PendingPrompts { host_key: IdTable::new(), password: IdTable::new() }
    }
}

} // verus!
