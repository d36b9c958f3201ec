//! Which plugin a pending dialog belongs to. A dialog's prompt id is the
//! plugin's name, a NUL character, and a unique suffix; the NUL cannot occur
//! in plugin names, so plugins whose names share a prefix never claim each
//! other's dialogs. Plugin menu items are found again from their menu ids.
use vstd::prelude::*;
use crate::text::{
    append_str, chars_to_string, has_char, push_char, splitn, splitn_chars, starts_with, starts_with_str, str_chars,
};

verus! {

/// The prompt id of a dialog of `plugin`: its name, NUL, then `suffix`.
pub open spec fn prompt_id_text(plugin: Seq<char>, suffix: Seq<char>) -> Seq<char> {
    plugin + seq!['\0'] + suffix
}

/// Whether a dialog with the prompt id `id` belongs to `plugin`: the id
/// starts with the plugin's name followed by NUL.
pub open spec fn owned_by(id: Seq<char>, plugin: Seq<char>) -> bool {
    starts_with(id, plugin + seq!['\0'])
}

/// The prompt id of a dialog of `plugin` with the unique `suffix`.
pub fn prompt_id(plugin: &str, suffix: &str) -> (r: String)
    ensures
        r@ == prompt_id_text(plugin@, suffix@),
{
    let mut s = plugin.to_owned();
    push_char(&mut s, '\0');
    append_str(&mut s, suffix);
    s
}

/// Whether the dialog with the prompt id `id` belongs to `plugin`.
pub fn dialog_belongs_to(id: &str, plugin: &str) -> (r: bool)
    ensures
        r == owned_by(id@, plugin@),
{
    let mut prefix = plugin.to_owned();
    push_char(&mut prefix, '\0');
    assert(prefix@ =~= plugin@ + seq!['\0']);
    let v = str_chars(id);
    starts_with_str(v.as_slice(), prefix.as_str())
}

/// A dialog belongs to the plugin that opened it, and to no other plugin,
/// whatever their names share: of two different names without NUL, the
/// dialogs of one never start with the prefix of the other.
pub proof fn dialogs_belong_to_their_plugin_only(a: Seq<char>, b: Seq<char>, suffix: Seq<char>)
    requires
        !has_char(a, '\0'),
        !has_char(b, '\0'),
    ensures
        owned_by(prompt_id_text(a, suffix), a),
        a != b ==> !owned_by(prompt_id_text(a, suffix), b),
{
    let id = prompt_id_text(a, suffix);
    let pa = a + seq!['\0'];
    assert(id.subrange(0, pa.len() as int) =~= pa);
    if a != b {
        let pb = b + seq!['\0'];
        if owned_by(id, b) {
            assert(id.subrange(0, pb.len() as int) == pb);
            if a.len() == b.len() {
                assert forall|i: int| 0 <= i < a.len() implies a[i] == b[i] by {
                    assert(id[i] == a[i]);
                    assert(id.subrange(0, pb.len() as int)[i] == pb[i]);
                }
                assert(a =~= b);
            } else if a.len() > b.len() {
                assert(id[b.len() as int] == a[b.len() as int]);
                assert(id.subrange(0, pb.len() as int)[b.len() as int] == '\0');
                assert(a[b.len() as int] == '\0');
            } else {
                assert(id[a.len() as int] == '\0');
                assert(id.subrange(0, pb.len() as int)[a.len() as int] == b[a.len() as int]);
            }
        }
    }
}

// ---------------------------------------------------------------------------
// Plugin menu items
// ---------------------------------------------------------------------------

/// The menu id of a plugin's menu item: `plugin.<plugin>.<action>`.
pub open spec fn menu_id_text(plugin: Seq<char>, action: Seq<char>) -> Seq<char> {
    "plugin."@ + plugin + seq!['.'] + action
}

/// The plain view of registered menu items (plugin, action).
pub open spec fn menu_item_views(items: Seq<(String, String)>) -> Seq<(Seq<char>, Seq<char>)> {
    items.map_values(|i: (String, String)| (i.0@, i.1@))
}

/// The position of the first item of `items` whose menu id is `id`.
pub open spec fn first_menu_item(items: Seq<(Seq<char>, Seq<char>)>, id: Seq<char>) -> Option<int>
    decreases items.len(),
{
    if items.len() == 0 {
        None
    } else {
        match first_menu_item(items.drop_last(), id) {
            Some(i) => Some(i),
            None => if menu_id_text(items.last().0, items.last().1) == id {
                Some(items.len() - 1)
            } else {
                None
            },
        }
    }
}

/// The plugin and action a menu id names: for an id starting with
/// `plugin.`, those of the first registered item with exactly that id (so
/// that names and actions may contain `.`), else the second and third of
/// the id's first three `.`-separated pieces when there are three; nothing
/// for any other id.
pub open spec fn plugin_menu_target(id: Seq<char>, items: Seq<(Seq<char>, Seq<char>)>) -> Option<(Seq<char>, Seq<char>)> {
    if !starts_with(id, "plugin."@) {
        None
    } else {
        match first_menu_item(items, id) {
            Some(i) => Some(items[i]),
            None => {
                let parts = splitn(id, '.', 3);
                if parts.len() == 3 {
                    Some((parts[1], parts[2]))
                } else {
                    None
                }
            },
        }
    }
}

proof fn lemma_first_menu_item_prefix(items: Seq<(Seq<char>, Seq<char>)>, id: Seq<char>, k: int)
    requires
        0 <= k <= items.len(),
        first_menu_item(items.take(k), id) is Some,
    ensures
        first_menu_item(items, id) == first_menu_item(items.take(k), id),
    decreases items.len(),
{
    if k < items.len() {
        assert(items.drop_last().take(k) =~= items.take(k));
        lemma_first_menu_item_prefix(items.drop_last(), id, k);
    } else {
        assert(items.take(k) =~= items);
    }
}

/// Finds the plugin and action a menu id names (see `plugin_menu_target`).
pub fn resolve_plugin_menu_id(id: &str, items: &[(String, String)]) -> (r: Option<(String, String)>)
    ensures
        match r {
            Some((p, a)) => plugin_menu_target(id@, menu_item_views(items@)) == Some((p@, a@)),
            None => plugin_menu_target(id@, menu_item_views(items@)) is None,
        },
{
    let ghost iv = menu_item_views(items@);
    let v = str_chars(id);
    proof {
        reveal_strlit("plugin.");
    }
    if !starts_with_str(v.as_slice(), "plugin.") {
        return None;
    }
    let target = id.to_owned();
    let mut i: usize = 0;
    assert(iv.take(0) =~= Seq::<(Seq<char>, Seq<char>)>::empty());
    while i < items.len()
        invariant
            i <= items@.len(),
            iv == menu_item_views(items@),
            target@ == id@,
            starts_with(id@, "plugin."@),
            first_menu_item(iv.take(i as int), id@) is None,
        decreases items.len() - i,
    {
        let mut candidate = "plugin.".to_owned();
        append_str(&mut candidate, items[i].0.as_str());
        push_char(&mut candidate, '.');
        append_str(&mut candidate, items[i].1.as_str());
        assert(iv.take(i + 1).drop_last() =~= iv.take(i as int));
        assert(iv.take(i + 1).last() == iv[i as int]);
        assert(iv[i as int] == (items@[i as int].0@, items@[i as int].1@));
        assert(candidate@ == menu_id_text(iv[i as int].0, iv[i as int].1));
        if candidate == target {
            assert(first_menu_item(iv.take(i + 1), id@) == Some(i as int));
            proof {
                lemma_first_menu_item_prefix(iv, id@, i + 1);
            }
            return Some((items[i].0.clone(), items[i].1.clone()));
        }
        i += 1;
    }
    assert(iv.take(iv.len() as int) =~= iv);
    let parts = splitn_chars(v.as_slice(), '.', 3);
    proof {
        assert(parts@.map_values(|p: Vec<char>| p@).len() == parts@.len());
    }
    if parts.len() == 3 {
        let ghost pv = parts@.map_values(|p: Vec<char>| p@);
        assert(pv[1] == parts@[1]@ && pv[2] == parts@[2]@);
        Some((chars_to_string(parts[1].as_slice()), chars_to_string(parts[2].as_slice())))
    } else {
        None
    }
}

} // verus!
