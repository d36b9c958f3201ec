//! Stable sorting by a (rank, text) key, the order in which the file
//! browsers and the font list present their entries.
use vstd::prelude::*;

verus! {

/// Lexicographic order of character sequences by code point (the order of
/// std's `Ord` for strings).
pub open spec fn text_lt(a: Seq<char>, b: Seq<char>) -> bool
    decreases a.len(),
{
    if a.len() == 0 {
        b.len() > 0
    } else if b.len() == 0 {
        false
    } else if a[0] != b[0] {
        a[0] < b[0]
    } else {
        text_lt(a.drop_first(), b.drop_first())
    }
}

/// A sort key: a rank compared first, then a text.
pub type SortKey = (u8, Seq<char>);

/// The strict order of sort keys.
pub open spec fn key_lt(a: SortKey, b: SortKey) -> bool {
    a.0 < b.0 || (a.0 == b.0 && text_lt(a.1, b.1))
}

/// Whether `p` lists each index below `n` exactly once.
pub open spec fn is_permutation(p: Seq<int>, n: int) -> bool {
    &&& p.len() == n
    &&& forall|i: int| 0 <= i < n ==> 0 <= #[trigger] p[i] < n
    &&& forall|i: int, j: int| 0 <= i < n && 0 <= j < n && i != j ==> p[i] != p[j]
    &&& forall|v: int| 0 <= v < n ==> #[trigger] covers(p, v)
}

/// Whether some entry of `p` is `v`.
pub open spec fn covers(p: Seq<int>, v: int) -> bool {
    exists|k: int| 0 <= k < p.len() && p[k] == v
}

/// Whether `out` is `input` sorted stably by their keys: `out` is a
/// rearrangement `p` of `input` in which keys never decrease, and items with
/// equal keys keep their original order.
pub open spec fn is_stable_sort<T>(input: Seq<(u8, Vec<char>, T)>, out: Seq<(u8, Vec<char>, T)>) -> bool {
    exists|p: Seq<int>|
        #![trigger is_permutation(p, input.len() as int)]
        is_permutation(p, input.len() as int) && stably_arranged(input, out, p)
}

/// Whether `out[k] == input[p[k]]` for every `k`, with keys ascending along
/// `out` and ties ordered by their position in `input`.
pub open spec fn stably_arranged<T>(input: Seq<(u8, Vec<char>, T)>, out: Seq<(u8, Vec<char>, T)>, p: Seq<int>) -> bool {
    &&& out.len() == p.len()
    &&& forall|k: int| 0 <= k < out.len() ==> out[k] == input[#[trigger] p[k]]
    &&& forall|i: int, j: int|
        0 <= i < j < out.len() ==> key_lt(item_key(#[trigger] out[i]), item_key(#[trigger] out[j]))
            || (item_key(out[i]) == item_key(out[j]) && p[i] < p[j])
}

/// Whether `out` is `input` sorted stably by `key`: a rearrangement of
/// `input` with keys ascending in which items of equal key keep their
/// original order.
pub open spec fn is_stable_sort_by<T>(input: Seq<T>, out: Seq<T>, key: spec_fn(T) -> SortKey) -> bool {
    exists|p: Seq<int>|
        #![trigger is_permutation(p, input.len() as int)]
        is_permutation(p, input.len() as int) && arranged_by(input, out, p, key)
}

/// Whether `out[k] == input[p[k]]` for every `k`, with `key` ascending along
/// `out` and ties ordered by their position in `input`.
pub open spec fn arranged_by<T>(input: Seq<T>, out: Seq<T>, p: Seq<int>, key: spec_fn(T) -> SortKey) -> bool {
    &&& out.len() == p.len()
    &&& forall|k: int| 0 <= k < out.len() ==> out[k] == input[#[trigger] p[k]]
    &&& forall|i: int, j: int|
        0 <= i < j < out.len() ==> key_lt(key(#[trigger] out[i]), key(#[trigger] out[j]))
            || (key(out[i]) == key(out[j]) && p[i] < p[j])
}

/// A stable sort keeps every item: each input item is somewhere in the
/// output.
pub proof fn lemma_sort_keeps_items<T>(input: Seq<T>, out: Seq<T>, key: spec_fn(T) -> SortKey)
    requires
        is_stable_sort_by(input, out, key),
    ensures
        out.len() == input.len(),
        forall|v: int| 0 <= v < input.len() ==> out.contains(#[trigger] input[v]),
{
    let p = choose|p: Seq<int>| is_permutation(p, input.len() as int) && arranged_by(input, out, p, key);
    assert forall|v: int| 0 <= v < input.len() implies out.contains(#[trigger] input[v]) by {
        assert(covers(p, v));
        let k = choose|k: int| 0 <= k < p.len() && p[k] == v;
        assert(out[k] == input[p[k]]);
    }
}

/// The output of a stable sort is in ascending key order.
pub proof fn lemma_sort_ascending<T>(input: Seq<T>, out: Seq<T>, key: spec_fn(T) -> SortKey)
    requires
        is_stable_sort_by(input, out, key),
    ensures
        forall|i: int, j: int| 0 <= i < j < out.len() ==> !key_lt(key(#[trigger] out[j]), key(#[trigger] out[i])),
{
    let p = choose|p: Seq<int>| is_permutation(p, input.len() as int) && arranged_by(input, out, p, key);
    assert forall|i: int, j: int| 0 <= i < j < out.len() implies !key_lt(key(#[trigger] out[j]), key(#[trigger] out[i])) by {
        lemma_key_facts(key(out[i]), key(out[j]), key(out[i]));
        lemma_key_facts(key(out[j]), key(out[i]), key(out[j]));
    }
}

/// Carries a stable sort of keyed items over to the items themselves, seen
/// through `proj`.
pub proof fn lemma_sort_unkeyed<T, U>(
    keyed_in: Seq<(u8, Vec<char>, T)>,
    keyed_out: Seq<(u8, Vec<char>, T)>,
    ins: Seq<U>,
    outs: Seq<U>,
    proj: spec_fn(T) -> U,
    key: spec_fn(U) -> SortKey,
)
    requires
        is_stable_sort(keyed_in, keyed_out),
        keyed_in.len() == ins.len(),
        keyed_out.len() == outs.len(),
        forall|k: int|
            0 <= k < ins.len() ==> proj((#[trigger] keyed_in[k]).2) == ins[k] && item_key(
                keyed_in[k],
            ) == key(ins[k]),
        forall|k: int| 0 <= k < outs.len() ==> proj((#[trigger] keyed_out[k]).2) == outs[k],
    ensures
        is_stable_sort_by(ins, outs, key),
{
    let p = choose|p: Seq<int>|
        is_permutation(p, keyed_in.len() as int) && stably_arranged(keyed_in, keyed_out, p);
    assert forall|k: int| 0 <= k < outs.len() implies outs[k] == ins[#[trigger] p[k]] by {
        assert(keyed_out[k] == keyed_in[p[k]]);
    }
    assert forall|i: int, j: int| 0 <= i < j < outs.len() implies key_lt(
        key(#[trigger] outs[i]),
        key(#[trigger] outs[j]),
    ) || (key(outs[i]) == key(outs[j]) && p[i] < p[j]) by {
        assert(keyed_out[i] == keyed_in[p[i]] && keyed_out[j] == keyed_in[p[j]]);
        assert(0 <= p[i] < ins.len() && 0 <= p[j] < ins.len());
    }
    assert(arranged_by(ins, outs, p, key));
}

proof fn lemma_text_lt_irreflexive(a: Seq<char>)
    ensures
        !text_lt(a, a),
    decreases a.len(),
{
    if a.len() > 0 {
        lemma_text_lt_irreflexive(a.drop_first());
    }
}

proof fn lemma_text_lt_transitive(a: Seq<char>, b: Seq<char>, c: Seq<char>)
    requires
        text_lt(a, b),
        text_lt(b, c),
    ensures
        text_lt(a, c),
    decreases a.len(),
{
    if a.len() > 0 && b.len() > 0 && c.len() > 0 && a[0] == b[0] && b[0] == c[0] {
        lemma_text_lt_transitive(a.drop_first(), b.drop_first(), c.drop_first());
    }
}

proof fn lemma_text_lt_total(a: Seq<char>, b: Seq<char>)
    ensures
        a == b || text_lt(a, b) || text_lt(b, a),
    decreases a.len(),
{
    if a.len() == 0 || b.len() == 0 {
        if a.len() == 0 && b.len() == 0 {
            assert(a =~= b);
        }
    } else if a[0] == b[0] {
        let (ta, tb) = (a.drop_first(), b.drop_first());
        lemma_text_lt_total(ta, tb);
        if ta == tb {
            assert(a =~= seq![a[0]] + ta);
            assert(b =~= seq![b[0]] + tb);
        }
    } else {
        assert(a[0] < b[0] || b[0] < a[0]);
    }
}

/// `key_lt` is a strict total order: irreflexive, transitive and total.
pub proof fn lemma_key_facts(a: SortKey, b: SortKey, c: SortKey)
    ensures
        !key_lt(a, a),
        key_lt(a, b) && key_lt(b, c) ==> key_lt(a, c),
        a == b || key_lt(a, b) || key_lt(b, a),
{
    lemma_text_lt_irreflexive(a.1);
    if key_lt(a, b) && key_lt(b, c) && a.0 == b.0 && b.0 == c.0 {
        lemma_text_lt_transitive(a.1, b.1, c.1);
    }
    lemma_text_lt_total(a.1, b.1);
}

/// Compares two texts in the order of `text_lt`.
pub fn text_less(a: &[char], b: &[char]) -> (r: bool)
    ensures
        r == text_lt(a@, b@),
{
    let mut i: usize = 0;
    assert(a@.skip(0) =~= a@);
    assert(b@.skip(0) =~= b@);
    loop
        invariant
            i <= a@.len(),
            i <= b@.len(),
            text_lt(a@, b@) == text_lt(a@.skip(i as int), b@.skip(i as int)),
        decreases a.len() - i,
    {
        if i == a.len() {
            return i < b.len();
        }
        if i == b.len() {
            return false;
        }
        assert(a@.skip(i as int)[0] == a@[i as int]);
        assert(b@.skip(i as int)[0] == b@[i as int]);
        if a[i] != b[i] {
            return a[i] < b[i];
        }
        assert(a@.skip(i as int).drop_first() =~= a@.skip(i + 1));
        assert(b@.skip(i as int).drop_first() =~= b@.skip(i + 1));
        i += 1;
    }
}

/// The key of a keyed item.
pub open spec fn item_key<T>(x: (u8, Vec<char>, T)) -> SortKey {
    (x.0, x.1@)
}

fn item_less<T>(a: &(u8, Vec<char>, T), b: &(u8, Vec<char>, T)) -> (r: bool)
    ensures
        r == key_lt(item_key(*a), item_key(*b)),
{
    if a.0 != b.0 {
        a.0 < b.0
    } else {
        text_less(a.1.as_slice(), b.1.as_slice())
    }
}

/// The items of `v` in reverse order.
pub fn reversed<T>(v: Vec<T>) -> (r: Vec<T>)
    ensures
        r@ == v@.reverse(),
{
    let ghost input = v@;
    let mut src = v;
    let mut r: Vec<T> = Vec::new();
    while src.len() > 0
        invariant
            src@.len() + r@.len() == input.len(),
            src@ == input.take(src@.len() as int),
            forall|k: int| 0 <= k < r@.len() ==> r@[k] == input[input.len() - 1 - k],
        decreases src@.len(),
    {
        let ghost n = src@.len();
        let x = src.pop().unwrap();
        r.push(x);
        assert(src@ =~= input.take(n - 1));
    }
    assert(r@ =~= input.reverse());
    r
}

/// Sorts items stably by their (rank, text) keys.
pub fn stable_sort_by_key<T>(items: Vec<(u8, Vec<char>, T)>) -> (r: Vec<(u8, Vec<char>, T)>)
    ensures
        is_stable_sort(items@, r@),
{
    let ghost input = items@;
    let mut src = items;
    // Items are taken from the back of `src` into `rev`.
    let mut rev: Vec<(u8, Vec<char>, T)> = Vec::new();
    while src.len() > 0
        invariant
            src@.len() + rev@.len() == input.len(),
            src@ == input.take(src@.len() as int),
            forall|k: int| 0 <= k < rev@.len() ==> rev@[k] == input[input.len() - 1 - k],
        decreases src@.len(),
    {
        let ghost n = src@.len();
        let x = src.pop().unwrap();
        rev.push(x);
        assert(src@ =~= input.take(n - 1));
    }
    // `rev` holds the items in reverse; insert them in their original order.
    let mut out: Vec<(u8, Vec<char>, T)> = Vec::new();
    let ghost mut p: Seq<int> = Seq::empty();
    let mut i: usize = 0;
    let total = rev.len();
    while rev.len() > 0
        invariant
            total == input.len(),
            rev@.len() + i == total,
            forall|k: int| 0 <= k < rev@.len() ==> rev@[k] == input[input.len() - 1 - k],
            out@.len() == i,
            is_permutation(p, i as int),
            stably_arranged(input, out@, p),
        decreases rev@.len(),
    {
        let x = rev.pop().unwrap();
        assert(x == input[i as int]);
        let mut q: usize = 0;
        while q < out.len() && !item_less(&x, &out[q])
            invariant
                q <= out@.len(),
                forall|j: int| 0 <= j < q ==> !key_lt(item_key(x), #[trigger] item_key(out@[j])),
            decreases out.len() - q,
        {
            q += 1;
        }
        let ghost old_out = out@;
        let ghost old_p = p;
        proof {
            // Every item from q on has a greater key than x.
            assert forall|b: int| q <= b < old_out.len() implies key_lt(
                item_key(x),
                #[trigger] item_key(old_out[b]),
            ) by {
                lemma_key_facts(item_key(x), item_key(old_out[q as int]), item_key(old_out[b]));
                if b > q {
                    assert(key_lt(item_key(old_out[q as int]), item_key(old_out[b])) || item_key(
                        old_out[q as int],
                    ) == item_key(old_out[b]));
                }
            }
            p = old_p.insert(q as int, i as int);
        }
        out.insert(q, x);
        proof {
            assert forall|k: int| 0 <= k < out@.len() implies out@[k] == input[#[trigger] p[k]] by {
                if k < q {
                    assert(out@[k] == old_out[k] && p[k] == old_p[k]);
                } else if k > q {
                    assert(out@[k] == old_out[k - 1] && p[k] == old_p[k - 1]);
                }
            }
            assert forall|a: int| 0 <= a < i + 1 implies 0 <= #[trigger] p[a] < i + 1 by {
                if a < q {
                    assert(p[a] == old_p[a]);
                } else if a > q {
                    assert(p[a] == old_p[a - 1]);
                }
            }
            assert forall|v: int| 0 <= v < i + 1 implies #[trigger] covers(p, v) by {
                if v == i {
                    assert(p[q as int] == v);
                } else {
                    assert(covers(old_p, v));
                    let k = choose|k: int| 0 <= k < old_p.len() && old_p[k] == v;
                    if k < q {
                        assert(p[k] == v);
                    } else {
                        assert(p[k + 1] == v);
                    }
                }
            }
            assert forall|a: int, b: int| 0 <= a < i + 1 && 0 <= b < i + 1 && a != b implies p[a]
                != p[b] by {
                let a2 = if a < q {
                    a
                } else {
                    a - 1
                };
                let b2 = if b < q {
                    b
                } else {
                    b - 1
                };
                if a != q as int {
                    assert(p[a] == old_p[a2]);
                }
                if b != q as int {
                    assert(p[b] == old_p[b2]);
                }
            }
            assert forall|a: int, b: int| 0 <= a < b < out@.len() implies key_lt(
                item_key(#[trigger] out@[a]),
                item_key(#[trigger] out@[b]),
            ) || (item_key(out@[a]) == item_key(out@[b]) && p[a] < p[b]) by {
                if a < q && b < q {
                    assert(out@[a] == old_out[a] && out@[b] == old_out[b]);
                    assert(p[a] == old_p[a] && p[b] == old_p[b]);
                } else if a < q && b == q {
                    assert(out@[a] == old_out[a] && p[a] == old_p[a]);
                    lemma_key_facts(item_key(old_out[a]), item_key(x), item_key(x));
                } else if a < q && b > q {
                    assert(out@[a] == old_out[a] && out@[b] == old_out[b - 1]);
                    assert(p[a] == old_p[a] && p[b] == old_p[b - 1]);
                } else if a == q {
                    assert(out@[b] == old_out[b - 1]);
                } else {
                    assert(out@[a] == old_out[a - 1] && out@[b] == old_out[b - 1]);
                    assert(p[a] == old_p[a - 1] && p[b] == old_p[b - 1]);
                }
            }
        }
        i += 1;
    }
    assert(is_permutation(p, input.len() as int) && stably_arranged(input, out@, p));
    out
}

} // verus!
