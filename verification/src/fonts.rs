//! The font lists offered in the settings: every family, and the monospace
//! families with the configured terminal font always among them.
use vstd::prelude::*;
use crate::keys::{to_lowercase, unicode_lowercase};
use crate::sorting::{
    arranged_by, is_permutation, SortKey, key_lt, lemma_key_facts, lemma_sort_ascending, lemma_sort_keeps_items, is_stable_sort_by, item_key, lemma_sort_unkeyed, reversed, stable_sort_by_key,
};
use crate::text::str_chars;

verus! {

/// The font families to offer.
pub struct SystemFonts {
    pub all: Vec<String>,
    pub monospace: Vec<String>,
}

/// The texts of a sequence of strings.
pub open spec fn texts(s: Seq<String>) -> Seq<Seq<char>> {
    s.map_values(|x: String| x@)
}

/// Font names are listed by their lower-case form.
pub open spec fn font_key(t: Seq<char>) -> SortKey {
    (0u8, unicode_lowercase(t))
}

/// `s` with every text after its first occurrence dropped: each name is
/// listed once, where it first appears.
pub open spec fn dedup_names(s: Seq<Seq<char>>) -> Seq<Seq<char>>
    decreases s.len(),
{
    if s.len() == 0 {
        s
    } else if dedup_names(s.drop_last()).contains(s.last()) {
        dedup_names(s.drop_last())
    } else {
        dedup_names(s.drop_last()).push(s.last())
    }
}

/// Whether the current terminal font has to be added to the monospace list
/// `mono`: it is set, not empty, and not listed yet.
pub open spec fn injects_current(mono: Seq<Seq<char>>, current: Option<Seq<char>>) -> bool {
    current is Some && current->0.len() > 0 && !mono.contains(current->0)
}

/// What the monospace list becomes from its sorted, deduplicated form `mono`:
/// with the current font added and sorted again when it was missing.
pub open spec fn with_current_font(mono: Seq<Seq<char>>, current: Option<Seq<char>>, out: Seq<Seq<char>>) -> bool {
    if injects_current(mono, current) {
        is_stable_sort_by(mono.push(current->0), out, |t: Seq<char>| font_key(t))
    } else {
        out == mono
    }
}

/// Whether the texts are in ascending lower-case order.
pub open spec fn ascending(s: Seq<Seq<char>>) -> bool {
    forall|i: int, j: int| 0 <= i < j < s.len() ==> !key_lt(font_key(#[trigger] s[j]), font_key(#[trigger] s[i]))
}

/// Whether no text occurs twice.
pub open spec fn no_duplicates(s: Seq<Seq<char>>) -> bool {
    forall|i: int, j: int| 0 <= i < j < s.len() ==> #[trigger] s[i] != #[trigger] s[j]
}

proof fn lemma_dedup_members(s: Seq<Seq<char>>)
    ensures
        forall|i: int| 0 <= i < dedup_names(s).len() ==> s.contains(#[trigger] dedup_names(s)[i]),
        forall|x: Seq<char>| s.contains(x) ==> #[trigger] dedup_names(s).contains(x),
        no_duplicates(dedup_names(s)),
    decreases s.len(),
{
    if s.len() > 0 {
        let t = s.drop_last();
        lemma_dedup_members(t);
        let d = dedup_names(s);
        let dt = dedup_names(t);
        assert forall|i: int| 0 <= i < d.len() implies s.contains(#[trigger] d[i]) by {
            if i < dt.len() {
                assert(d[i] == dt[i]);
                let k = choose|k: int| 0 <= k < t.len() && t[k] == dt[i];
                assert(s[k] == t[k]);
            } else {
                assert(d[i] == s.last());
                assert(s[s.len() - 1] == s.last());
            }
        }
        assert forall|x: Seq<char>| s.contains(x) implies #[trigger] d.contains(x) by {
            let k = choose|k: int| 0 <= k < s.len() && s[k] == x;
            if k < s.len() - 1 {
                assert(t[k] == x);
                assert(t.contains(x));
                assert(dt.contains(x));
                let m = choose|m: int| 0 <= m < dt.len() && dt[m] == x;
                assert(d[m] == x);
            } else if dt.contains(s.last()) {
                let m = choose|m: int| 0 <= m < dt.len() && dt[m] == x;
                assert(d[m] == x);
            } else {
                assert(d[d.len() - 1] == x);
            }
        }
        if !dt.contains(s.last()) {
            assert forall|i: int, j: int| 0 <= i < j < d.len() implies #[trigger] d[i] != #[trigger] d[j] by {
                if j == d.len() - 1 {
                    assert(d[i] == dt[i]);
                    if d[i] == d[j] {
                        assert(dt.contains(s.last()));
                    }
                } else {
                    assert(d[i] == dt[i] && d[j] == dt[j]);
                }
            }
        }
    }
}

proof fn lemma_dedup_ascending(s: Seq<Seq<char>>)
    requires
        ascending(s),
    ensures
        ascending(dedup_names(s)),
    decreases s.len(),
{
    if s.len() > 0 {
        let t = s.drop_last();
        assert(ascending(t)) by {
            assert forall|i: int, j: int| 0 <= i < j < t.len() implies !key_lt(font_key(#[trigger] t[j]), font_key(#[trigger] t[i])) by {
                assert(t[i] == s[i] && t[j] == s[j]);
            }
        }
        lemma_dedup_ascending(t);
        lemma_dedup_members(t);
        let d = dedup_names(s);
        let dt = dedup_names(t);
        if !dt.contains(s.last()) {
            assert forall|i: int, j: int| 0 <= i < j < d.len() implies !key_lt(font_key(#[trigger] d[j]), font_key(#[trigger] d[i])) by {
                if j == d.len() - 1 {
                    assert(d[i] == dt[i]);
                    assert(t.contains(dt[i]));
                    let k = choose|k: int| 0 <= k < t.len() && t[k] == dt[i];
                    assert(s[k] == t[k]);
                    assert(d[j] == s[s.len() - 1]);
                } else {
                    assert(d[i] == dt[i] && d[j] == dt[j]);
                }
            }
        }
    }
}

proof fn lemma_sort_keeps_distinct(input: Seq<Seq<char>>, out: Seq<Seq<char>>)
    requires
        is_stable_sort_by(input, out, |t: Seq<char>| font_key(t)),
        no_duplicates(input),
    ensures
        no_duplicates(out),
{
    let p = choose|p: Seq<int>|
        #![trigger is_permutation(p, input.len() as int)]
        is_permutation(p, input.len() as int) && arranged_by(input, out, p, |t: Seq<char>| font_key(t));
    assert forall|i: int, j: int| 0 <= i < j < out.len() implies #[trigger] out[i] != #[trigger] out[j] by {
        assert(out[i] == input[p[i]] && out[j] == input[p[j]]);
        assert(p[i] != p[j]);
        if p[i] < p[j] {
            assert(input[p[i]] != input[p[j]]);
        } else {
            assert(input[p[j]] != input[p[i]]);
        }
    }
}

/// Sorts font names stably by their lower-case form.
fn sort_fonts(v: Vec<String>) -> (r: Vec<String>)
    ensures
        is_stable_sort_by(texts(v@), texts(r@), |t: Seq<char>| font_key(t)),
{
    let ghost ins = v@;
    let mut rev = reversed(v);
    let mut keyed: Vec<(u8, Vec<char>, String)> = Vec::new();
    while rev.len() > 0
        invariant
            rev@.len() + keyed@.len() == ins.len(),
            forall|k: int| 0 <= k < rev@.len() ==> rev@[k] == ins[ins.len() - 1 - k],
            forall|k: int|
                0 <= k < keyed@.len() ==> (#[trigger] keyed@[k]).2@ == ins[k]@ && item_key(
                    keyed@[k],
                ) == font_key(ins[k]@),
        decreases rev@.len(),
    {
        let x = rev.pop().unwrap();
        let lower = to_lowercase(x.as_str());
        let chars = str_chars(lower.as_str());
        keyed.push((0u8, chars, x));
    }
    let ghost keyed_in = keyed@;
    let sorted = stable_sort_by_key(keyed);
    let ghost keyed_out = sorted@;
    let mut rs = reversed(sorted);
    let mut out: Vec<String> = Vec::new();
    while rs.len() > 0
        invariant
            rs@.len() + out@.len() == keyed_out.len(),
            forall|k: int| 0 <= k < rs@.len() ==> rs@[k] == keyed_out[keyed_out.len() - 1 - k],
            forall|k: int| 0 <= k < out@.len() ==> keyed_out[k].2 == #[trigger] out@[k],
        decreases rs@.len(),
    {
        let x = rs.pop().unwrap();
        let (_, _, f) = x;
        out.push(f);
    }
    proof {
        lemma_sort_unkeyed(
            keyed_in,
            keyed_out,
            texts(ins),
            texts(out@),
            |x: String| x@,
            |t: Seq<char>| font_key(t),
        );
    }
    out
}

/// Keeps the first occurrence of each name.
fn dedup_fonts(v: &Vec<String>) -> (r: Vec<String>)
    ensures
        texts(r@) == dedup_names(texts(v@)),
{
    let mut out: Vec<String> = Vec::new();
    let mut i: usize = 0;
    while i < v.len()
        invariant
            i <= v@.len(),
            texts(out@) == dedup_names(texts(v@).take(i as int)),
        decreases v.len() - i,
    {
        let ghost pre = texts(v@).take(i + 1);
        assert(pre.drop_last() =~= texts(v@).take(i as int));
        assert(pre.last() == v@[i as int]@);
        if !lists_font(&out, v[i].as_str()) {
            out.push(v[i].clone());
        }
        i += 1;
        assert(texts(out@) =~= dedup_names(pre));
    }
    assert(texts(v@).take(v@.len() as int) =~= texts(v@));
    out
}

/// Whether a name equal to `name` is listed.
fn lists_font(v: &Vec<String>, name: &str) -> (r: bool)
    ensures
        r == texts(v@).contains(name@),
{
    let target = name.to_owned();
    let mut i: usize = 0;
    while i < v.len()
        invariant
            i <= v@.len(),
            target@ == name@,
            forall|j: int| 0 <= j < i ==> v@[j]@ != name@,
        decreases v.len() - i,
    {
        if v[i] == target {
            assert(texts(v@)[i as int] == name@);
            return true;
        }
        i += 1;
    }
    assert forall|j: int| 0 <= j < texts(v@).len() implies texts(v@)[j] != name@ by {
        assert(v@[j]@ != name@);
    }
    false
}

/// Sorts both lists by lower-case name, keeps each name once, and adds
/// the current terminal font to the monospace list when it is missing.
pub fn finalize(all: Vec<String>, monospace: Vec<String>, current_terminal_font: Option<&str>) -> (r: SystemFonts)
    ensures
        ascending(texts(r.all@)),
        no_duplicates(texts(r.all@)),
        forall|x: Seq<char>| texts(all@).contains(x) ==> #[trigger] texts(r.all@).contains(x),
        ascending(texts(r.monospace@)),
        no_duplicates(texts(r.monospace@)),
        forall|x: Seq<char>| texts(monospace@).contains(x) ==> #[trigger] texts(r.monospace@).contains(x),
        match current_terminal_font {
            Some(c) => c@.len() > 0 ==> texts(r.monospace@).contains(c@),
            None => true,
        },
        exists|s: Seq<Seq<char>>|
            is_stable_sort_by(texts(all@), s, |t: Seq<char>| font_key(t)) && texts(r.all@)
                == dedup_names(s),
        exists|m: Seq<Seq<char>>|
            is_stable_sort_by(texts(monospace@), m, |t: Seq<char>| font_key(t))
                && with_current_font(
                dedup_names(m),
                match current_terminal_font {
                    Some(c) => Some(c@),
                    None => None,
                },
                texts(r.monospace@),
            ),
{
    let all_sorted = sort_fonts(all);
    let all_out = dedup_fonts(&all_sorted);
    let mono_sorted = sort_fonts(monospace);
    let mono = dedup_fonts(&mono_sorted);
    let ghost cur = match current_terminal_font {
        Some(c) => Some(c@),
        None => None,
    };
    let mut result = mono;
    if let Some(current) = current_terminal_font {
        if !current.is_empty() && !lists_font(&result, current) {
            let mut grown = result;
            grown.push(current.to_owned());
            assert(texts(grown@) =~= dedup_names(texts(mono_sorted@)).push(current@));
            result = sort_fonts(grown);
        }
    }
    assert(with_current_font(dedup_names(texts(mono_sorted@)), cur, texts(result@)));
    proof {
        let fk = |t: Seq<char>| font_key(t);
        lemma_sort_ascending(texts(all@), texts(all_sorted@), fk);
        lemma_sort_keeps_items(texts(all@), texts(all_sorted@), fk);
        lemma_dedup_ascending(texts(all_sorted@));
        lemma_dedup_members(texts(all_sorted@));
        assert forall|x: Seq<char>| texts(all@).contains(x) implies #[trigger] texts(all_out@).contains(x) by {
            let k = choose|k: int| 0 <= k < texts(all@).len() && texts(all@)[k] == x;
            assert(texts(all_sorted@).contains(texts(all@)[k]));
        }
        let md = dedup_names(texts(mono_sorted@));
        lemma_sort_ascending(texts(monospace@), texts(mono_sorted@), fk);
        lemma_sort_keeps_items(texts(monospace@), texts(mono_sorted@), fk);
        lemma_dedup_ascending(texts(mono_sorted@));
        lemma_dedup_members(texts(mono_sorted@));
        assert forall|x: Seq<char>| texts(monospace@).contains(x) implies #[trigger] md.contains(x) by {
            let k = choose|k: int| 0 <= k < texts(monospace@).len() && texts(monospace@)[k] == x;
            assert(texts(mono_sorted@).contains(texts(monospace@)[k]));
        }
        if injects_current(md, cur) {
            let grown = md.push(cur->0);
            assert(no_duplicates(grown)) by {
                assert forall|i: int, j: int| 0 <= i < j < grown.len() implies #[trigger] grown[i] != #[trigger] grown[j] by {
                    if j == grown.len() - 1 {
                        assert(grown[i] == md[i]);
                        if md[i] == cur->0 {
                            assert(md.contains(cur->0));
                        }
                    } else {
                        assert(grown[i] == md[i] && grown[j] == md[j]);
                    }
                }
            }
            lemma_sort_keeps_distinct(grown, texts(result@));
            lemma_sort_ascending(grown, texts(result@), fk);
            lemma_sort_keeps_items(grown, texts(result@), fk);
            assert(grown[grown.len() - 1] == cur->0);
            assert forall|x: Seq<char>| texts(monospace@).contains(x) implies #[trigger] texts(result@).contains(x) by {
                assert(md.contains(x));
                let m = choose|m: int| 0 <= m < md.len() && md[m] == x;
                assert(grown[m] == x);
            }
        }
    }
    SystemFonts { all: all_out, monospace: result }
}

} // verus!
