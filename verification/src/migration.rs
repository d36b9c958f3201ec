//! Moving the credentials of legacy server entries into vault accounts:
//! once an account exists for each (user, key path), the entries that used
//! it are linked to it and lose their own credential fields, and tunnels
//! that name their server only by session key are linked to it by id.
use vstd::prelude::*;
use crate::server_commands::{first_entry, ref_views, search, Criterion};
use crate::ssh_config::{
    all_entries, folder_entries, has_credential, is_legacy, unique_credentials, copy_entry, copy_opt, copy_tunnel, entry_views, opt_text, parsed_session_key,
    same_opt, ConfigView, EntryView, FolderView, SavedTunnel, ServerEntry, ServerFolder,
    SshConfig, TunnelView,
};

verus! {

/// A link from a credential to the vault account made for it: user, key
/// path, account id.
pub type AccountLink = (Seq<char>, Option<Seq<char>>, u128);

/// The plain views of executable links.
pub open spec fn link_views(links: Seq<(String, Option<String>, u128)>) -> Seq<AccountLink> {
    links.map_values(|l: (String, Option<String>, u128)| (l.0@, opt_text(l.1), l.2))
}

/// The account linked to the credential `(user, key)`: the last link that
/// names it, as later links replace earlier ones.
pub open spec fn account_for(links: Seq<AccountLink>, user: Seq<char>, key: Option<Seq<char>>) -> Option<u128>
    decreases links.len(),
{
    if links.len() == 0 {
        None
    } else if links.last().0 == user && links.last().1 == key {
        Some(links.last().2)
    } else {
        account_for(links.drop_last(), user, key)
    }
}

/// An entry after linking: a legacy entry (a user, no account) whose
/// credential has an account gets that account and loses its user, auth
/// method and key path; every other entry is kept.
pub open spec fn linked_entry(e: EntryView, links: Seq<AccountLink>) -> EntryView {
    if e.vault_account_id is None && e.user is Some {
        match account_for(links, e.user->0, e.key_path) {
            Some(id) => EntryView {
                vault_account_id: Some(id),
                user: None,
                auth_method: None,
                key_path: None,
                ..e
            },
            None => e,
        }
    } else {
        e
    }
}

/// Every entry of `s` after linking.
pub open spec fn linked_entries(s: Seq<EntryView>, links: Seq<AccountLink>) -> Seq<EntryView> {
    s.map_values(|e: EntryView| linked_entry(e, links))
}

/// A folder whose entries are linked.
pub open spec fn linked_folder(f: FolderView, links: Seq<AccountLink>) -> FolderView {
    FolderView { entries: linked_entries(f.entries, links), ..f }
}

/// The configuration after linking its entries.
pub open spec fn linked_config(c: ConfigView, links: Seq<AccountLink>) -> ConfigView {
    ConfigView {
        folders: c.folders.map_values(|f: FolderView| linked_folder(f, links)),
        ungrouped: linked_entries(c.ungrouped, links),
        tunnels: c.tunnels,
    }
}

fn find_account(links: &[(String, Option<String>, u128)], user: &String, key: &Option<String>) -> (r: Option<u128>)
    ensures
        r == account_for(link_views(links@), user@, opt_text(*key)),
{
    let ghost lv = link_views(links@);
    let mut i: usize = links.len();
    assert(lv.take(lv.len() as int) =~= lv);
    while i > 0
        invariant
            i <= links@.len(),
            lv == link_views(links@),
            account_for(lv, user@, opt_text(*key)) == account_for(lv.take(i as int), user@, opt_text(*key)),
        decreases i,
    {
        let ghost t = lv.take(i as int);
        assert(t.drop_last() =~= lv.take(i - 1));
        assert(t.last() == lv[i - 1]);
        if links[i - 1].0 == *user && same_opt(&links[i - 1].1, key) {
            return Some(links[i - 1].2);
        }
        i -= 1;
    }
    None
}

fn link_entry(e: &ServerEntry, links: &[(String, Option<String>, u128)]) -> (r: ServerEntry)
    ensures
        r@ == linked_entry(e@, link_views(links@)),
{
    let mut r = copy_entry(e);
    if e.vault_account_id.is_none() {
        if let Some(u) = &e.user {
            if let Some(id) = find_account(links, u, &e.key_path) {
                r.vault_account_id = Some(id);
                r.user = None;
                r.auth_method = None;
                r.key_path = None;
            }
        }
    }
    r
}

fn link_entry_list(v: &Vec<ServerEntry>, links: &[(String, Option<String>, u128)]) -> (r: Vec<ServerEntry>)
    ensures
        entry_views(r@) == linked_entries(entry_views(v@), link_views(links@)),
{
    let ghost lv = link_views(links@);
    let mut r: Vec<ServerEntry> = Vec::new();
    let mut i: usize = 0;
    while i < v.len()
        invariant
            i <= v@.len(),
            lv == link_views(links@),
            entry_views(r@) == linked_entries(entry_views(v@), lv).take(i as int),
        decreases v.len() - i,
    {
        let ghost before = entry_views(r@);
        let e = link_entry(&v[i], links);
        r.push(e);
        assert(entry_views(r@) =~= before.push(e@));
        i += 1;
        assert(entry_views(r@) =~= linked_entries(entry_views(v@), lv).take(i as int));
    }
    assert(linked_entries(entry_views(v@), lv).take(v@.len() as int) =~= linked_entries(entry_views(v@), lv));
    r
}

/// Links every legacy entry, grouped or not, whose (user, key path) has an
/// account in `links`: the entry gets the account and loses its own user,
/// auth method and key path. Tunnels are left as they are.
pub fn link_legacy_entries(config: &mut SshConfig, links: &[(String, Option<String>, u128)])
    ensures
        final(config)@ == linked_config(old(config)@, link_views(links@)),
{
    let ghost lv = link_views(links@);
    let ghost old_folders = config@.folders;
    let ungrouped = link_entry_list(&config.ungrouped, links);
    let mut folders: Vec<ServerFolder> = Vec::new();
    let mut i: usize = 0;
    while i < config.folders.len()
        invariant
            i <= config@.folders.len(),
            lv == link_views(links@),
            config@.folders == old_folders,
            crate::ssh_config::folder_views(folders@) == old_folders.map_values(
                |f: FolderView| linked_folder(f, lv),
            ).take(i as int),
        decreases config.folders.len() - i,
    {
        let ghost before = crate::ssh_config::folder_views(folders@);
        let f = &config.folders[i];
        assert(f@ == old_folders[i as int]);
        let nf = ServerFolder {
            id: f.id.clone(),
            name: f.name.clone(),
            expanded: f.expanded,
            entries: link_entry_list(&f.entries, links),
        };
        folders.push(nf);
        assert(crate::ssh_config::folder_views(folders@) =~= before.push(nf@));
        i += 1;
        assert(crate::ssh_config::folder_views(folders@) =~= old_folders.map_values(
            |f: FolderView| linked_folder(f, lv),
        ).take(i as int));
    }
    assert(old_folders.map_values(|f: FolderView| linked_folder(f, lv)).take(old_folders.len() as int)
        =~= old_folders.map_values(|f: FolderView| linked_folder(f, lv)));
    config.ungrouped = ungrouped;
    config.folders = folders;
}

proof fn lemma_linked_folder_entries(fs: Seq<FolderView>, links: Seq<AccountLink>)
    ensures
        folder_entries(fs.map_values(|f: FolderView| linked_folder(f, links))) == linked_entries(
            folder_entries(fs),
            links,
        ),
    decreases fs.len(),
{
    let m = fs.map_values(|f: FolderView| linked_folder(f, links));
    if fs.len() == 0 {
        assert(folder_entries(m) =~= linked_entries(folder_entries(fs), links));
    } else {
        lemma_linked_folder_entries(fs.drop_last(), links);
        assert(m.drop_last() =~= fs.drop_last().map_values(|f: FolderView| linked_folder(f, links)));
        assert(m.last() == linked_folder(fs.last(), links));
        assert(folder_entries(m) =~= linked_entries(folder_entries(fs), links));
    }
}

proof fn lemma_credential_listed(s: Seq<EntryView>, i: int)
    requires
        0 <= i < s.len(),
        s[i].user is Some,
    ensures
        has_credential(unique_credentials(s), s[i].user->0, s[i].key_path),
    decreases s.len(),
{
    let r = unique_credentials(s.drop_last());
    let e = s.last();
    if i < s.len() - 1 {
        assert(s.drop_last()[i] == s[i]);
        lemma_credential_listed(s.drop_last(), i);
        let w = choose|j: int| 0 <= j < r.len() && (#[trigger] r[j]).0 == s[i].user->0 && r[j].1 == s[i].key_path;
        if !has_credential(r, e.user->0, e.key_path) && e.user is Some {
            let p = r.push((e.user->0, e.key_path, e.user->0 + seq!['@'] + e.host));
            assert(p[w] == r[w]);
        }
    } else {
        if !has_credential(r, e.user->0, e.key_path) {
            let p = r.push((e.user->0, e.key_path, e.user->0 + seq!['@'] + e.host));
            assert(p[r.len() as int].0 == e.user->0);
        }
    }
}

/// Once every credential that `collect_unique_credentials` gathers from the
/// configuration has a vault account, linking leaves no legacy entry: no
/// saved server keeps a user without an account.
pub proof fn linking_every_credential_leaves_no_legacy_entry(c: ConfigView, links: Seq<AccountLink>)
    requires
        forall|j: int|
            0 <= j < unique_credentials(all_entries(c)).len() ==> account_for(
                links,
                (#[trigger] unique_credentials(all_entries(c))[j]).0,
                unique_credentials(all_entries(c))[j].1,
            ) is Some,
    ensures
        forall|k: int|
            0 <= k < all_entries(linked_config(c, links)).len() ==> !is_legacy(
                #[trigger] all_entries(linked_config(c, links))[k],
            ),
{
    let all = all_entries(c);
    let after = all_entries(linked_config(c, links));
    lemma_linked_folder_entries(c.folders, links);
    assert(after =~= linked_entries(all, links));
    assert forall|k: int| 0 <= k < after.len() implies !is_legacy(#[trigger] after[k]) by {
        let e = all[k];
        assert(after[k] == linked_entry(e, links));
        if e.vault_account_id is None && e.user is Some {
            lemma_credential_listed(all, k);
            let creds = unique_credentials(all);
            let j = choose|j: int| 0 <= j < creds.len() && (#[trigger] creds[j]).0 == e.user->0 && creds[j].1 == e.key_path;
            assert(account_for(links, creds[j].0, creds[j].1) is Some);
        }
    }
}

/// The server a tunnel gets linked to by id: for a tunnel without a server
/// id whose session key reads as `user@host:port`, the id of the first
/// saved server on that host and port.
pub open spec fn tunnel_link(t: TunnelView, servers: Seq<EntryView>) -> Option<Seq<char>> {
    if t.server_entry_id is None && t.session_key.len() > 0 {
        match parsed_session_key(t.session_key) {
            Some((_u, h, p)) => match first_entry(servers, Criterion::HostPort(h, p)) {
                Some(e) => Some(e.id),
                None => None,
            },
            None => None,
        }
    } else {
        None
    }
}

/// A tunnel after linking to the servers `servers`.
pub open spec fn linked_tunnel(t: TunnelView, servers: Seq<EntryView>) -> TunnelView {
    match tunnel_link(t, servers) {
        Some(id) => TunnelView { server_entry_id: Some(id), ..t },
        None => t,
    }
}

/// Links each tunnel that names its server only by a `user@host:port`
/// session key to the first saved server on that host and port; the
/// servers are left as they are.
pub fn link_tunnels_to_servers(config: &mut SshConfig)
    ensures
        final(config)@ == (ConfigView {
            tunnels: old(config)@.tunnels.map_values(
                |t: TunnelView| linked_tunnel(t, all_entries(old(config)@)),
            ),
            ..old(config)@
        }),
{
    let ghost servers = all_entries(config@);
    let ghost expected = config@.tunnels.map_values(|t: TunnelView| linked_tunnel(t, servers));
    let mut tunnels: Vec<SavedTunnel> = Vec::new();
    {
        let all = config.all_servers();
        assert(ref_views(all@) =~= servers);
        let mut i: usize = 0;
        while i < config.tunnels.len()
            invariant
                i <= config@.tunnels.len(),
                servers == all_entries(config@),
                ref_views(all@) == servers,
                expected == config@.tunnels.map_values(|t: TunnelView| linked_tunnel(t, servers)),
                crate::ssh_config::tunnel_views(tunnels@) == expected.take(i as int),
            decreases config.tunnels.len() - i,
        {
            let ghost before = crate::ssh_config::tunnel_views(tunnels@);
            let t = &config.tunnels[i];
            let mut nt = copy_tunnel(t);
            if t.server_entry_id.is_none() && !t.session_key.as_str().is_empty() {
                match SavedTunnel::parse_session_key(t.session_key.as_str()) {
                    Some((_u, host, port)) => match search(&all, 2, &host, port) {
                        Some(k) => {
                            nt.server_entry_id = Some(all[k].id.clone());
                        },
                        None => {},
                    },
                    None => {},
                }
            }
            assert(nt@ == expected[i as int]);
            tunnels.push(nt);
            assert(crate::ssh_config::tunnel_views(tunnels@) =~= before.push(nt@));
            i += 1;
            assert(crate::ssh_config::tunnel_views(tunnels@) =~= expected.take(i as int));
        }
        assert(expected.take(expected.len() as int) =~= expected);
    }
    config.tunnels = tunnels;
}

} // verus!
