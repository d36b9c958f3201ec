//! Server lookups behind the SSH commands: quick-connect specs, matching a
//! tunnel to its server, rewriting imported tunnel keys, credentials from
//! legacy entries, and duplicating a server.
use vstd::prelude::*;
use crate::remote::{SshCredentials, TunnelStatus, TunnelStatusView};
use crate::ssh_config::{
    ExportPayload, PayloadView, export_entries, export_folders, export_tunnels, filter_view, id_listed,
    merged_import, payload_server_count,
    ConfigView, EntryView, is_first_match, lookup_field, no_match, ServerEntry, SavedTunnel, SshConfig, TunnelView, all_entries, copy_entry,
    entry_views, opt_text, parsed_session_key, session_key_text, tunnel_views,
    entries_without, folders_without_entry, folder_position, folder_views, is_first_folder,
    is_first_tunnel, no_folder, no_tunnel, FolderView,
};
use crate::text::{
    append_chars, decimal, u64_to_decimal,
    append_str, chars_to_string, parse_u16_chars, parse_unsigned, rsplit_once, rsplit_once_chars,
    split_once, split_once_chars, str_chars,
};

verus! {

// ---------------------------------------------------------------------------
// Quick connect
// ---------------------------------------------------------------------------

/// What `parse_quick_connect` reads from `[user@]host[:port]`: the user
/// before the first `@` (else `default_user`), the host up to the last `:`
/// after it, and the port after that `:` (22 when absent or not a port).
pub open spec fn quick_connect_parts(input: Seq<char>, default_user: Seq<char>) -> (Seq<char>, Seq<char>, u16) {
    let (user, host_port) = match split_once(input, '@') {
        Some((u, rest)) => (u, rest),
        None => (default_user, input),
    };
    match rsplit_once(host_port, ':') {
        Some((h, p)) => (
            user,
            h,
            match parse_unsigned(p, u16::MAX as nat) {
                Some(n) => n as u16,
                None => 22,
            },
        ),
        None => (user, host_port, 22),
    }
}

/// Splits a quick-connect spec `[user@]host[:port]`; `default_user` is the
/// user when the spec names none.
pub fn parse_quick_connect(input: &str, default_user: &str) -> (r: (String, String, u16))
    ensures
        (r.0@, r.1@, r.2) == quick_connect_parts(input@, default_user@),
{
    let v = str_chars(input);
    let (user, host_port) = match split_once_chars(v.as_slice(), '@') {
        Some((u, rest)) => (chars_to_string(u.as_slice()), rest),
        None => (default_user.to_owned(), v),
    };
    match rsplit_once_chars(host_port.as_slice(), ':') {
        Some((h, p)) => {
            let port = match parse_u16_chars(p.as_slice()) {
                Some(n) => n,
                None => 22,
            };
            (user, chars_to_string(h.as_slice()), port)
        },
        None => (user, chars_to_string(host_port.as_slice()), 22),
    }
}

/// Credentials from the legacy fields of a server: its user (else `root`),
/// its sign-in method (else `key`), its key path, and the given password.
pub fn credentials_from_server(server: &ServerEntry, password: Option<String>) -> (r: SshCredentials)
    ensures
        r.username@ == match opt_text(server.user) {
            Some(u) => u,
            None => "root"@,
        },
        r.auth_method@ == match opt_text(server.auth_method) {
            Some(a) => a,
            None => "key"@,
        },
        opt_text(r.password) == opt_text(password),
        opt_text(r.key_path) == opt_text(server.key_path),
        r.key_passphrase is None,
{
    let username = match &server.user {
        Some(u) => u.clone(),
        None => "root".to_owned(),
    };
    let auth_method = match &server.auth_method {
        Some(a) => a.clone(),
        None => "key".to_owned(),
    };
    let key_path = match &server.key_path {
        Some(k) => Some(k.clone()),
        None => None,
    };
    SshCredentials { username, auth_method, password, key_path, key_passphrase: None }
}

// ---------------------------------------------------------------------------
// Matching servers
// ---------------------------------------------------------------------------

/// A condition a server is looked up by.
pub enum Criterion {
    /// Its id is the text.
    Id(Seq<char>),
    /// Its canonical session key is the text.
    Key(Seq<char>),
    /// Its host and port are these.
    HostPort(Seq<char>, u16),
    /// Its label is the text.
    Label(Seq<char>),
}

/// The user a server signs in as for its session key: its user, else `root`.
pub open spec fn user_or_root(e: EntryView) -> Seq<char> {
    match e.user {
        Some(u) => u,
        None => "root"@,
    }
}

/// The canonical session key of a server: `user@host:port`.
pub open spec fn canonical_key(e: EntryView) -> Seq<char> {
    session_key_text(user_or_root(e), e.host, e.port)
}

/// Whether `e` meets `c`.
pub open spec fn satisfies(e: EntryView, c: Criterion) -> bool {
    match c {
        Criterion::Id(t) => e.id == t,
        Criterion::Key(t) => canonical_key(e) == t,
        Criterion::HostPort(h, p) => e.host == h && e.port == p,
        Criterion::Label(t) => e.label == t,
    }
}

/// The position of the first server of `s` meeting `c`.
pub open spec fn first_where(s: Seq<EntryView>, c: Criterion) -> Option<int>
    decreases s.len(),
{
    if s.len() == 0 {
        None
    } else if satisfies(s[0], c) {
        Some(0)
    } else {
        match first_where(s.drop_first(), c) {
            Some(i) => Some(i + 1),
            None => None,
        }
    }
}

/// The first server of `s` meeting `c`.
pub open spec fn first_entry(s: Seq<EntryView>, c: Criterion) -> Option<EntryView> {
    match first_where(s, c) {
        Some(i) => Some(s[i]),
        None => None,
    }
}

proof fn lemma_first_where(s: Seq<EntryView>, c: Criterion, i: int)
    requires
        0 <= i <= s.len(),
        forall|j: int| 0 <= j < i ==> !satisfies(#[trigger] s[j], c),
    ensures
        i < s.len() && satisfies(s[i], c) ==> first_where(s, c) == Some(i),
        i == s.len() ==> first_where(s, c) is None,
    decreases s.len(),
{
    if s.len() > 0 && i > 0 {
        assert(!satisfies(s[0], c));
        assert forall|j: int| 0 <= j < i - 1 implies !satisfies(#[trigger] s.drop_first()[j], c) by {
            assert(s.drop_first()[j] == s[j + 1]);
        }
        lemma_first_where(s.drop_first(), c, i - 1);
        if i < s.len() {
            assert(s.drop_first()[i - 1] == s[i]);
        }
    }
}

/// The servers a lookup searches: every saved one, then those read from
/// `~/.ssh/config`.
pub open spec fn known_entries(c: crate::ssh_config::ConfigView, extra: Seq<EntryView>) -> Seq<EntryView> {
    all_entries(c) + extra
}

/// The views of a list of server references.
pub open spec fn ref_views(v: Seq<&ServerEntry>) -> Seq<EntryView> {
    v.map_values(|e: &ServerEntry| e@)
}

fn meets(e: &ServerEntry, kind: u8, text: &String, port: u16) -> (r: bool)
    ensures
        r == satisfies(e@, criterion(kind, text@, port)),
{
    if kind == 0 {
        e.id == *text
    } else if kind == 1 {
        let user = match &e.user {
            Some(u) => u.as_str(),
            None => "root",
        };
        let key = SavedTunnel::make_session_key(user, e.host.as_str(), e.port);
        key == *text
    } else if kind == 2 {
        e.host == *text && e.port == port
    } else {
        e.label == *text
    }
}

/// The criterion an executable search code stands for: 0 id, 1 session key,
/// 2 host and port, otherwise label.
pub open spec fn criterion(kind: u8, text: Seq<char>, port: u16) -> Criterion {
    if kind == 0 {
        Criterion::Id(text)
    } else if kind == 1 {
        Criterion::Key(text)
    } else if kind == 2 {
        Criterion::HostPort(text, port)
    } else {
        Criterion::Label(text)
    }
}

pub(crate) fn search(list: &Vec<&ServerEntry>, kind: u8, text: &String, port: u16) -> (r: Option<usize>)
    ensures
        match r {
            Some(i) => i < list@.len() && first_where(ref_views(list@), criterion(kind, text@, port))
                == Some(i as int),
            None => first_where(ref_views(list@), criterion(kind, text@, port)) is None,
        },
{
    let ghost s = ref_views(list@);
    let ghost c = criterion(kind, text@, port);
    let mut i: usize = 0;
    while i < list.len()
        invariant
            i <= list@.len(),
            s == ref_views(list@),
            c == criterion(kind, text@, port),
            forall|j: int| 0 <= j < i ==> !satisfies(#[trigger] s[j], c),
        decreases list.len() - i,
    {
        assert(s[i as int] == list@[i as int]@);
        if meets(list[i], kind, text, port) {
            proof {
                lemma_first_where(s, c, i as int);
            }
            return Some(i);
        }
        i += 1;
    }
    proof {
        lemma_first_where(s, c, i as int);
    }
    None
}

/// References to every saved server followed by the `~/.ssh/config` ones.
fn known_list<'a>(config: &'a SshConfig, extra: &'a Vec<ServerEntry>) -> (r: Vec<&'a ServerEntry>)
    ensures
        ref_views(r@) == known_entries(config@, entry_views(extra@)),
{
    let mut r = config.all_servers();
    let ghost base = ref_views(r@);
    assert(base =~= all_entries(config@));
    let mut i: usize = 0;
    while i < extra.len()
        invariant
            i <= extra@.len(),
            base == all_entries(config@),
            ref_views(r@) == base + entry_views(extra@).take(i as int),
        decreases extra.len() - i,
    {
        let ghost prev = ref_views(r@);
        let e = &extra[i];
        assert(e@ == entry_views(extra@)[i as int]);
        r.push(e);
        assert(ref_views(r@) =~= prev.push(e@));
        i += 1;
        assert(ref_views(r@) =~= base + entry_views(extra@).take(i as int));
    }
    assert(entry_views(extra@).take(extra@.len() as int) =~= entry_views(extra@));
    r
}

fn refs_of(v: &Vec<ServerEntry>) -> (r: Vec<&ServerEntry>)
    ensures
        ref_views(r@) == entry_views(v@),
{
    let mut r: Vec<&ServerEntry> = Vec::new();
    let mut i: usize = 0;
    while i < v.len()
        invariant
            i <= v@.len(),
            ref_views(r@) == entry_views(v@).take(i as int),
        decreases v.len() - i,
    {
        let ghost prev = ref_views(r@);
        let e = &v[i];
        assert(e@ == entry_views(v@)[i as int]);
        r.push(e);
        assert(ref_views(r@) =~= prev.push(e@));
        i += 1;
        assert(ref_views(r@) =~= entry_views(v@).take(i as int));
    }
    assert(entry_views(v@).take(v@.len() as int) =~= entry_views(v@));
    r
}

/// The view of an optional server.
pub open spec fn opt_entry(o: Option<ServerEntry>) -> Option<EntryView> {
    match o {
        Some(e) => Some(e@),
        None => None,
    }
}

/// Looks a server up by its entry id among every saved server, then among
/// those read from `~/.ssh/config`; no id finds nothing.
pub fn find_server_by_entry_id(config: &SshConfig, ssh_config_entries: &Vec<ServerEntry>, entry_id: Option<&str>) -> (r: Option<ServerEntry>)
    ensures
        opt_entry(r) == match entry_id {
            None => None,
            Some(id) => first_entry(
                known_entries(config@, entry_views(ssh_config_entries@)),
                Criterion::Id(id@),
            ),
        },
{
    let id = match entry_id {
        Some(id) => id.to_owned(),
        None => return None,
    };
    let list = known_list(config, ssh_config_entries);
    match search(&list, 0, &id, 0) {
        Some(i) => {
            assert(ref_views(list@)[i as int] == list@[i as int]@);
            Some(copy_entry(list[i]))
        },
        None => None,
    }
}

/// The server a tunnel with the legacy key `key` belongs to: the first
/// known server whose canonical key is `key`; else, when `key` reads as
/// `user@host:port`, the first known server on that host and port, or the
/// first `~/.ssh/config` server whose alias is that host, or a bare entry
/// made from the key's parts; else none.
pub open spec fn server_for_tunnel(known: Seq<EntryView>, extra: Seq<EntryView>, key: Seq<char>) -> Option<EntryView> {
    match first_entry(known, Criterion::Key(key)) {
        Some(e) => Some(e),
        None => match parsed_session_key(key) {
            None => None,
            Some((u, h, p)) => match first_entry(known, Criterion::HostPort(h, p)) {
                Some(e) => Some(e),
                None => match first_entry(extra, Criterion::Label(h)) {
                    Some(e) => Some(e),
                    None => Some(
                        EntryView {
                            id: Seq::empty(),
                            label: key,
                            host: h,
                            port: p,
                            user: Some(u),
                            auth_method: Some("key"@),
                            key_path: None,
                            vault_account_id: None,
                            proxy_command: None,
                            proxy_jump: None,
                        },
                    ),
                },
            },
        },
    }
}

/// Finds the server matching a tunnel's legacy session key, trying an
/// exact key match, then the same host and port, then a `~/.ssh/config`
/// alias, and falling back to a bare entry made from the key.
pub fn find_server_for_tunnel(config: &SshConfig, ssh_config_entries: &Vec<ServerEntry>, session_key: &str) -> (r: Option<ServerEntry>)
    ensures
        opt_entry(r) == server_for_tunnel(
            known_entries(config@, entry_views(ssh_config_entries@)),
            entry_views(ssh_config_entries@),
            session_key@,
        ),
{
    let list = known_list(config, ssh_config_entries);
    let key = session_key.to_owned();
    if let Some(i) = search(&list, 1, &key, 0) {
        assert(ref_views(list@)[i as int] == list@[i as int]@);
        return Some(copy_entry(list[i]));
    }
    match SavedTunnel::parse_session_key(session_key) {
        None => None,
        Some((user, host, port)) => {
            if let Some(i) = search(&list, 2, &host, port) {
                assert(ref_views(list@)[i as int] == list@[i as int]@);
                return Some(copy_entry(list[i]));
            }
            let ssh = refs_of(ssh_config_entries);
            if let Some(i) = search(&ssh, 3, &host, 0) {
                assert(ref_views(ssh@)[i as int] == ssh@[i as int]@);
                return Some(copy_entry(ssh[i]));
            }
            Some(
                ServerEntry {
                    id: String::new(),
                    label: session_key.to_owned(),
                    host,
                    port,
                    user: Some(user),
                    auth_method: Some("key".to_owned()),
                    key_path: None,
                    vault_account_id: None,
                    proxy_command: None,
                    proxy_jump: None,
                },
            )
        },
    }
}

/// The canonical session key of a server.
fn canonical_key_of(e: &ServerEntry) -> (r: String)
    ensures
        r@ == canonical_key(e@),
{
    let user = match &e.user {
        Some(u) => u.as_str(),
        None => "root",
    };
    SavedTunnel::make_session_key(user, e.host.as_str(), e.port)
}

/// The key an imported tunnel ends up with: kept when the tunnel existed
/// before the import or its key is already that of a known server;
/// otherwise, when the key reads as `user@host:port`, rewritten to the
/// canonical key of the first known server on that host and port, or of
/// the first `~/.ssh/config` server whose alias is that host; else kept.
pub open spec fn resolved_key(t: TunnelView, known: Seq<EntryView>, extra: Seq<EntryView>, existing: Seq<u128>) -> Seq<char> {
    if existing.contains(t.id) || first_where(known, Criterion::Key(t.session_key)) is Some {
        t.session_key
    } else {
        match parsed_session_key(t.session_key) {
            None => t.session_key,
            Some((_u, h, p)) => match first_entry(known, Criterion::HostPort(h, p)) {
                Some(e) => canonical_key(e),
                None => match first_entry(extra, Criterion::Label(h)) {
                    Some(e) => canonical_key(e),
                    None => t.session_key,
                },
            },
        }
    }
}

fn lists_id(ids: &[u128], id: u128) -> (r: bool)
    ensures
        r == ids@.contains(id),
{
    let mut i: usize = 0;
    while i < ids.len()
        invariant
            i <= ids@.len(),
            forall|j: int| 0 <= j < i ==> ids@[j] != id,
        decreases ids.len() - i,
    {
        if ids[i] == id {
            assert(ids@[i as int] == id);
            return true;
        }
        i += 1;
    }
    false
}

fn resolve_key(
    t: &SavedTunnel,
    known: &Vec<&ServerEntry>,
    extra: &Vec<&ServerEntry>,
    existing_ids: &[u128],
) -> (r: Option<String>)
    ensures
        match r {
            Some(k) => k@ == resolved_key(t@, ref_views(known@), ref_views(extra@), existing_ids@),
            None => resolved_key(t@, ref_views(known@), ref_views(extra@), existing_ids@)
                == t@.session_key,
        },
{
    if lists_id(existing_ids, t.id) {
        return None;
    }
    if search(known, 1, &t.session_key, 0).is_some() {
        return None;
    }
    match SavedTunnel::parse_session_key(t.session_key.as_str()) {
        None => None,
        Some((_user, host, port)) => {
            if let Some(i) = search(known, 2, &host, port) {
                assert(ref_views(known@)[i as int] == known@[i as int]@);
                return Some(canonical_key_of(known[i]));
            }
            if let Some(i) = search(extra, 3, &host, 0) {
                assert(ref_views(extra@)[i as int] == extra@[i as int]@);
                return Some(canonical_key_of(extra[i]));
            }
            None
        },
    }
}

/// Copies of the servers behind the references.
fn copies(v: &Vec<&ServerEntry>) -> (r: Vec<ServerEntry>)
    ensures
        entry_views(r@) == ref_views(v@),
{
    let mut r: Vec<ServerEntry> = Vec::new();
    let mut i: usize = 0;
    while i < v.len()
        invariant
            i <= v@.len(),
            entry_views(r@) == ref_views(v@).take(i as int),
        decreases v.len() - i,
    {
        let ghost prev = entry_views(r@);
        let e = copy_entry(v[i]);
        assert(e@ == ref_views(v@)[i as int]);
        r.push(e);
        assert(entry_views(r@) =~= prev.push(e@));
        i += 1;
        assert(entry_views(r@) =~= ref_views(v@).take(i as int));
    }
    assert(ref_views(v@).take(v@.len() as int) =~= ref_views(v@));
    r
}

/// Whether `new` is `old` with each tunnel key resolved (see
/// `resolved_key`) against the saved servers and `extra`.
pub open spec fn keys_resolved(old: ConfigView, extra: Seq<EntryView>, existing: Seq<u128>, new: ConfigView) -> bool {
    &&& new.folders == old.folders
    &&& new.ungrouped == old.ungrouped
    &&& new.tunnels.len() == old.tunnels.len()
    &&& forall|k: int|
        0 <= k < old.tunnels.len() ==> #[trigger] new.tunnels[k] == (TunnelView {
            session_key: resolved_key(old.tunnels[k], known_entries(old, extra), extra, existing),
            ..old.tunnels[k]
        })
}

/// Rewrites the legacy keys of imported tunnels (those whose ids are not in
/// `existing_ids`) to the canonical key of the server they most likely
/// mean, so that they match on activation; see `resolved_key`.
pub fn resolve_imported_tunnel_keys(config: &mut SshConfig, ssh_config_entries: &Vec<ServerEntry>, existing_ids: &[u128])
    ensures
        keys_resolved(old(config)@, entry_views(ssh_config_entries@), existing_ids@, final(config)@),
{
    let ghost known_v = known_entries(config@, entry_views(ssh_config_entries@));
    let ghost extra_v = entry_views(ssh_config_entries@);
    let snapshot = {
        let list = known_list(config, ssh_config_entries);
        copies(&list)
    };
    let known = refs_of(&snapshot);
    let extra = refs_of(ssh_config_entries);
    let mut tunnels: Vec<SavedTunnel> = Vec::new();
    std::mem::swap(&mut tunnels, &mut config.tunnels);
    let ghost ins = tunnel_views(tunnels@);
    assert(ins.len() == tunnels.len());
    let mut rev = crate::sorting::reversed(tunnels);
    let mut i: usize = 0;
    while rev.len() > 0
        invariant
            rev@.len() + i == ins.len(),
            ins.len() <= usize::MAX,
            ins == old(config)@.tunnels,
            forall|k: int| 0 <= k < rev@.len() ==> rev@[k]@ == ins[ins.len() - 1 - k],
            ref_views(known@) == known_v,
            ref_views(extra@) == extra_v,
            known_v == known_entries(old(config)@, extra_v),
            extra_v == entry_views(ssh_config_entries@),
            config@.folders == old(config)@.folders,
            config@.ungrouped == old(config)@.ungrouped,
            config@.tunnels.len() == i,
            forall|k: int|
                0 <= k < i ==> #[trigger] config@.tunnels[k] == (TunnelView {
                    session_key: resolved_key(ins[k], known_v, extra_v, existing_ids@),
                    ..ins[k]
                }),
        decreases rev@.len(),
    {
        let mut t = rev.pop().unwrap();
        assert(t@ == ins[i as int]);
        match resolve_key(&t, &known, &extra, existing_ids) {
            Some(k) => {
                t.session_key = k;
            },
            None => {},
        }
        let ghost prev = config@.tunnels;
        config.tunnels.push(t);
        assert(config@.tunnels =~= prev.push(t@));
        i += 1;
    }
}

/// The server with a fresh id and ` (copy)` after its label.
pub open spec fn is_duplicate_of(d: EntryView, e: EntryView) -> bool {
    d == (EntryView { id: d.id, label: e.label + " (copy)"@, ..e }) && crate::ids::is_random_uuid_text(d.id)
}

/// Duplicates the first server with the id `server_id` under a fresh id,
/// with ` (copy)` after its label, adding the copy to the ungrouped list;
/// returns the copy, or `None` (changing nothing) when no server has that id.
pub fn duplicate_server(config: &mut SshConfig, server_id: &str) -> (r: Option<ServerEntry>)
    ensures
        match first_entry(all_entries(old(config)@), Criterion::Id(server_id@)) {
            None => r is None && final(config)@ == old(config)@,
            Some(e) => r is Some && is_duplicate_of(r->0@, e) && final(config)@ == (ConfigView {
                ungrouped: old(config)@.ungrouped.push(r->0@),
                ..old(config)@
            }),
        },
{
    let found = match config.find_server(server_id) {
        Some(e) => {
            let ghost all = all_entries(config@);
            proof {
                let k = choose|k: int| is_first_match(all, k, server_id@, false) && all[k] == e@;
                assert forall|j: int| 0 <= j < k implies !satisfies(
                    #[trigger] all[j],
                    Criterion::Id(server_id@),
                ) by {
                    assert(lookup_field(all[j], false) != server_id@);
                }
                lemma_first_where(all, Criterion::Id(server_id@), k);
            }
            Some(copy_entry(e))
        },
        None => {
            proof {
                let all = all_entries(config@);
                assert forall|j: int| 0 <= j < all.len() implies !satisfies(
                    #[trigger] all[j],
                    Criterion::Id(server_id@),
                ) by {
                    assert(lookup_field(all[j], false) != server_id@);
                }
                lemma_first_where(all, Criterion::Id(server_id@), all.len() as int);
            }
            None
        },
    };
    match found {
        None => None,
        Some(mut dup) => {
            let u = crate::ids::new_uuid();
            dup.id = crate::ids::uuid_text(u);
            append_str(&mut dup.label, " (copy)");
            let result = copy_entry(&dup);
            config.add_server(dup);
            Some(result)
        },
    }
}

// ---------------------------------------------------------------------------
// Saving, moving and renaming
// ---------------------------------------------------------------------------

/// The text of an optional string slice.
pub open spec fn opt_str(o: Option<&str>) -> Option<Seq<char>> {
    match o {
        Some(s) => Some(s@),
        None => None,
    }
}

/// The configuration without the servers with the id `id`, wherever they
/// were saved.
pub open spec fn without_server(c: ConfigView, id: Seq<char>) -> ConfigView {
    ConfigView {
        ungrouped: entries_without(c.ungrouped, id),
        folders: folders_without_entry(c.folders, id),
        ..c
    }
}

/// Whether `after` is `before` with `e` added: at the end of the first
/// folder with the id `folder`, or at the end of the ungrouped servers when
/// no folder is named or none has that id.
pub open spec fn placed(before: ConfigView, e: EntryView, folder: Option<Seq<char>>, after: ConfigView) -> bool {
    let ungrouped = ConfigView { ungrouped: before.ungrouped.push(e), ..before };
    match folder {
        None => after == ungrouped,
        Some(fid) => (exists|f: int|
            is_first_folder(before.folders, f, fid) && after == (ConfigView {
                folders: before.folders.update(
                    f,
                    FolderView { entries: before.folders[f].entries.push(e), ..before.folders[f] },
                ),
                ..before
            })) || (no_folder(before.folders, fid) && after == ungrouped),
    }
}

fn place_server(config: &mut SshConfig, entry: ServerEntry, folder_id: Option<&str>)
    ensures
        placed(old(config)@, entry@, opt_str(folder_id), final(config)@),
{
    match folder_id {
        Some(fid) => config.add_server_to_folder(entry, fid),
        None => config.add_server(entry),
    }
}

/// Saves a server: the saved servers with its id are removed, then it is
/// added to the folder `folder_id` (see `placed`).
pub fn save_server(config: &mut SshConfig, entry: ServerEntry, folder_id: Option<&str>)
    ensures
        placed(without_server(old(config)@, entry@.id), entry@, opt_str(folder_id), final(config)@),
{
    config.remove_server(entry.id.as_str());
    place_server(config, entry, folder_id);
}

/// Moves the first saved server with the id `server_id` to the folder
/// `folder_id` (see `placed`): the servers with that id are removed and a
/// copy of it is added. Nothing changes when no server has that id.
pub fn move_server(config: &mut SshConfig, server_id: &str, folder_id: Option<&str>)
    ensures
        no_match(all_entries(old(config)@), server_id@, false) ==> final(config)@ == old(config)@,
        forall|k: int|
            is_first_match(all_entries(old(config)@), k, server_id@, false) ==> placed(
                without_server(old(config)@, server_id@),
                #[trigger] all_entries(old(config)@)[k],
                opt_str(folder_id),
                final(config)@,
            ),
{
    let ghost all = all_entries(config@);
    let entry = match config.find_server(server_id) {
        Some(e) => copy_entry(e),
        None => return ,
    };
    proof {
        let k0 = choose|k: int| is_first_match(all, k, server_id@, false) && all[k] == entry@;
        assert forall|k: int| is_first_match(all, k, server_id@, false) implies all[k] == entry@ by {
            if k < k0 {
                assert(lookup_field(all[k], false) != server_id@);
            } else if k0 < k {
                assert(lookup_field(all[k0], false) != server_id@);
            }
        }
    }
    config.remove_server(server_id);
    place_server(config, entry, folder_id);
}

/// Renames the first folder with the id `folder_id`; nothing changes when
/// no folder has that id.
pub fn rename_folder(config: &mut SshConfig, folder_id: &str, new_name: String)
    ensures
        (exists|f: int|
            is_first_folder(old(config)@.folders, f, folder_id@) && final(config)@ == (ConfigView {
                folders: old(config)@.folders.update(
                    f,
                    FolderView { name: new_name@, ..old(config)@.folders[f] },
                ),
                ..old(config)@
            })) || (no_folder(old(config)@.folders, folder_id@) && final(config)@ == old(config)@),
{
    let target = folder_id.to_owned();
    match folder_position(&config.folders, &target) {
        Some(f) => {
            let ghost n = new_name@;
            let mut folder = config.folders.remove(f);
            let ghost before = folder@;
            folder.name = new_name;
            config.folders.insert(f, folder);
            assert(folder_views(config.folders@) =~= old(config)@.folders.update(
                f as int,
                FolderView { name: n, ..before },
            ));
        },
        None => {},
    }
}

/// Saves a tunnel: it replaces the first saved tunnel with its id, or is
/// added at the end when none has it.
pub fn save_tunnel(config: &mut SshConfig, tunnel: SavedTunnel)
    ensures
        (exists|k: int|
            is_first_tunnel(old(config)@.tunnels, k, tunnel.id) && final(config)@ == (ConfigView {
                tunnels: old(config)@.tunnels.update(k, tunnel@),
                ..old(config)@
            })) || (no_tunnel(old(config)@.tunnels, tunnel.id) && final(config)@ == (ConfigView {
            tunnels: old(config)@.tunnels.push(tunnel@),
            ..old(config)@
        })),
{
    let known = config.find_tunnel(tunnel.id).is_some();
    if known {
        let ghost k0 = choose|k: int| is_first_tunnel(config@.tunnels, k, tunnel.id);
        assert(!no_tunnel(config@.tunnels, tunnel.id)) by {
            assert(config@.tunnels[k0].id == tunnel.id);
        }
        config.update_tunnel(tunnel);
    } else {
        config.add_tunnel(tunnel);
    }
}

/// The label of a tunnel state: `connecting`, `active` or `error: <message>`.
pub open spec fn status_label_text(s: TunnelStatusView) -> Seq<char> {
    match s {
        TunnelStatusView::Connecting => "connecting"@,
        TunnelStatusView::Active => "active"@,
        TunnelStatusView::Error(m) => "error: "@ + m,
    }
}

/// The label a tunnel list shows for a tunnel state.
pub fn status_label(status: &TunnelStatus) -> (r: String)
    ensures
        r@ == status_label_text(status@),
{
    match status {
        TunnelStatus::Connecting => "connecting".to_owned(),
        TunnelStatus::Active => "active".to_owned(),
        TunnelStatus::Error(m) => {
            let mut s = "error: ".to_owned();
            append_str(&mut s, m.as_str());
            s
        },
    }
}

// ---------------------------------------------------------------------------
// Export, import, and the server of a tunnel
// ---------------------------------------------------------------------------

/// The `~/.ssh/config` servers a filter selects (none without a filter).
pub open spec fn selected_extra(extra: Seq<EntryView>, ids: Option<Seq<String>>) -> Seq<EntryView>
    decreases extra.len(),
{
    match ids {
        None => Seq::empty(),
        Some(list) => if extra.len() == 0 {
            Seq::empty()
        } else if id_listed(list, extra.last().id) {
            selected_extra(extra.drop_last(), ids).push(extra.last())
        } else {
            selected_extra(extra.drop_last(), ids)
        },
    }
}

/// Whether `ids` lists the text of `id`.
fn lists_text(ids: &[String], id: &String) -> (r: bool)
    ensures
        r == id_listed(ids@, id@),
{
    let mut j: usize = 0;
    while j < ids.len()
        invariant
            j <= ids@.len(),
            forall|m: int| 0 <= m < j ==> (#[trigger] ids@[m])@ != id@,
        decreases ids.len() - j,
    {
        if ids[j] == *id {
            assert(ids@[j as int]@ == id@);
            return true;
        }
        j += 1;
    }
    false
}

/// The payload of an export: the saved servers and tunnels the filters
/// select (see `SshConfig::to_export_filtered`), with the selected
/// `~/.ssh/config` servers added to the ungrouped ones.
pub fn export_selection(
    config: &SshConfig,
    ssh_config_entries: &Vec<ServerEntry>,
    server_ids: Option<&[String]>,
    tunnel_ids: Option<&[String]>,
) -> (r: ExportPayload)
    ensures
        r@ == (PayloadView {
            version: 1,
            folders: export_folders(config@.folders, filter_view(server_ids)),
            ungrouped: export_entries(config@.ungrouped, filter_view(server_ids)) + selected_extra(
                entry_views(ssh_config_entries@),
                filter_view(server_ids),
            ),
            tunnels: export_tunnels(config@.tunnels, filter_view(tunnel_ids)),
        }),
{
    let mut payload = config.to_export_filtered(server_ids, tunnel_ids);
    let ghost base = payload@;
    let ghost ev = entry_views(ssh_config_entries@);
    match server_ids {
        None => {
            assert(base.ungrouped + selected_extra(ev, filter_view(server_ids)) =~= base.ungrouped);
        },
        Some(ids) => {
            let mut i: usize = 0;
            assert(ev.take(0) =~= Seq::<EntryView>::empty());
            while i < ssh_config_entries.len()
                invariant
                    i <= ssh_config_entries@.len(),
                    ev == entry_views(ssh_config_entries@),
                    filter_view(server_ids) == Some(ids@),
                    payload@ == (PayloadView {
                        ungrouped: base.ungrouped + selected_extra(ev.take(i as int), Some(ids@)),
                        ..base
                    }),
                decreases ssh_config_entries.len() - i,
            {
                assert(ev.take(i + 1).drop_last() =~= ev.take(i as int));
                assert(ev[i as int] == ssh_config_entries@[i as int]@);
                let ghost before = entry_views(payload.ungrouped@);
                let listed = lists_text(ids, &ssh_config_entries[i].id);
                if listed {
                    let e = copy_entry(&ssh_config_entries[i]);
                    payload.ungrouped.push(e);
                    assert(entry_views(payload.ungrouped@) =~= before.push(e@));
                }
                i += 1;
                assert(payload@.ungrouped =~= base.ungrouped + selected_extra(ev.take(i as int), Some(ids@)));
            }
            assert(ev.take(ev.len() as int) =~= ev);
        },
    }
    payload
}

/// The ids of the tunnels `ts`.
pub open spec fn tunnel_ids(ts: Seq<TunnelView>) -> Seq<u128> {
    ts.map_values(|t: TunnelView| t.id)
}

/// The report of an import: `Imported <s> server(s), <f> folder(s), <t> tunnel(s)`.
pub open spec fn import_message(servers: nat, folders: nat, tunnels: nat) -> Seq<char> {
    "Imported "@ + decimal(servers) + " server(s), "@ + decimal(folders) + " folder(s), "@ + decimal(
        tunnels,
    ) + " tunnel(s)"@
}

/// Imports an export payload: only version 1 is accepted; its folders,
/// servers and tunnels are added under fresh ids, and the keys of the new
/// tunnels are resolved against the known servers. Returns the report, or
/// the error for an unsupported version (leaving the configuration as it
/// was).
pub fn import_payload(config: &mut SshConfig, ssh_config_entries: &Vec<ServerEntry>, payload: ExportPayload) -> (r: Result<String, String>)
    requires
        payload_server_count(payload@) <= usize::MAX,
    ensures
        payload@.version != 1 ==> final(config)@ == old(config)@ && (r matches Err(e) && e@
            == "Unsupported export version: "@ + decimal(payload@.version as nat)),
        payload@.version == 1 ==> (r matches Ok(m) && m@ == import_message(
            payload_server_count(payload@),
            payload@.folders.len(),
            payload@.tunnels.len(),
        )) && exists|mid: ConfigView|
            merged_import(old(config)@, payload@, mid) && #[trigger] keys_resolved(
                mid,
                entry_views(ssh_config_entries@),
                tunnel_ids(old(config)@.tunnels),
                final(config)@,
            ),
{
    if payload.version != 1 {
        let mut e = "Unsupported export version: ".to_owned();
        let d = u64_to_decimal(payload.version as u64);
        append_chars(&mut e, d.as_slice());
        return Err(e);
    }
    let ghost pv = payload@;
    assert(pv.folders.len() == payload.folders.len() && pv.tunnels.len() == payload.tunnels.len());
    let mut existing: Vec<u128> = Vec::new();
    let mut k: usize = 0;
    while k < config.tunnels.len()
        invariant
            k <= config@.tunnels.len(),
            config@ == old(config)@,
            existing@ == tunnel_ids(config@.tunnels).take(k as int),
        decreases config.tunnels.len() - k,
    {
        existing.push(config.tunnels[k].id);
        k += 1;
        assert(existing@ =~= tunnel_ids(config@.tunnels).take(k as int));
    }
    assert(existing@ =~= tunnel_ids(old(config)@.tunnels));
    let (servers, folders, tunnels) = config.merge_import(payload);
    let ghost mid = config@;
    resolve_imported_tunnel_keys(config, ssh_config_entries, existing.as_slice());
    assert(servers as nat == payload_server_count(pv));
    assert(folders as nat == pv.folders.len());
    assert(tunnels as nat == pv.tunnels.len());
    let mut m = "Imported ".to_owned();
    let d1 = u64_to_decimal(servers as u64);
    append_chars(&mut m, d1.as_slice());
    append_str(&mut m, " server(s), ");
    let d2 = u64_to_decimal(folders as u64);
    append_chars(&mut m, d2.as_slice());
    append_str(&mut m, " folder(s), ");
    let d3 = u64_to_decimal(tunnels as u64);
    append_chars(&mut m, d3.as_slice());
    append_str(&mut m, " tunnel(s)");
    assert(d1@ == decimal(payload_server_count(pv)));
    assert(d2@ == decimal(pv.folders.len()));
    assert(d3@ == decimal(pv.tunnels.len()));
    assert(m@ =~= "Imported "@ + d1@ + " server(s), "@ + d2@ + " folder(s), "@ + d3@ + " tunnel(s)"@);
    assert(merged_import(old(config)@, pv, mid));
    assert(keys_resolved(mid, entry_views(ssh_config_entries@), tunnel_ids(old(config)@.tunnels), config@));
    Ok(m)
}

/// The server a saved tunnel connects through: the one its entry id names,
/// else the one matching its legacy session key (see `server_for_tunnel`).
pub open spec fn tunnel_server_view(known: Seq<EntryView>, extra: Seq<EntryView>, t: TunnelView) -> Option<EntryView> {
    let by_id = match t.server_entry_id {
        None => None,
        Some(id) => first_entry(known, Criterion::Id(id)),
    };
    match by_id {
        Some(e) => Some(e),
        None => server_for_tunnel(known, extra, t.session_key),
    }
}

/// Finds the server of a saved tunnel, or the error `No server configured
/// for <session key>`.
pub fn tunnel_server(config: &SshConfig, ssh_config_entries: &Vec<ServerEntry>, tunnel: &SavedTunnel) -> (r: Result<ServerEntry, String>)
    ensures
        match tunnel_server_view(
            known_entries(config@, entry_views(ssh_config_entries@)),
            entry_views(ssh_config_entries@),
            tunnel@,
        ) {
            Some(e) => r matches Ok(s) && s@ == e,
            None => r matches Err(m) && m@ == "No server configured for "@ + tunnel@.session_key,
        },
{
    let by_id = match &tunnel.server_entry_id {
        Some(id) => find_server_by_entry_id(config, ssh_config_entries, Some(id.as_str())),
        None => None,
    };
    match by_id {
        Some(s) => Ok(s),
        None => match find_server_for_tunnel(config, ssh_config_entries, tunnel.session_key.as_str()) {
            Some(s) => Ok(s),
            None => {
                let mut m = "No server configured for ".to_owned();
                append_str(&mut m, tunnel.session_key.as_str());
                Err(m)
            },
        },
    }
}

} // verus!
