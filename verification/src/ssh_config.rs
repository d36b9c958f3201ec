//! The saved SSH servers: entries, folders and tunnels, how they are looked
//! up and edited, exported and imported, and read from `~/.ssh/config`.
use vstd::prelude::*;
use crate::keys::{to_lowercase, unicode_lowercase};
use crate::text::{
    chars_eq_str, contains_char, is_whitespace, is_ws, lines, lines_chars, trim, trim_chars,
    all_digits, append_chars, digit_value, append_str, decimal, digits_value, has_char, index_of,
    last_index_of, lemma_index_of, lemma_index_of_unique, parse_u16_chars, parse_unsigned,
    push_char, rsplit_once, rsplit_once_chars, split_once, split_once_chars, str_chars,
    chars_to_string, u64_to_decimal, unsigned_value, trim_start, trim_end,
};

verus! {

// ---------------------------------------------------------------------------
// Data
// ---------------------------------------------------------------------------

/// A saved server.
#[derive(Debug, Clone)]
pub struct ServerEntry {
    pub id: String,
    pub label: String,
    pub host: String,
    pub port: u16,
    /// Legacy login name, kept until the entry is linked to a vault account.
    pub user: Option<String>,
    /// "key" or "password".
    pub auth_method: Option<String>,
    pub key_path: Option<String>,
    /// The vault account this server uses (a UUID, as its 128-bit value).
    pub vault_account_id: Option<u128>,
    /// Raw proxy command (e.g., `ssh -W %h:%p bastion`). `%h` and `%p` are expanded.
    pub proxy_command: Option<String>,
    /// SSH jump host (converted to `ssh -W %h:%p <jump>` at connect time).
    pub proxy_jump: Option<String>,
}

/// A named group of servers.
#[derive(Debug, Clone)]
pub struct ServerFolder {
    pub id: String,
    pub name: String,
    pub expanded: bool,
    pub entries: Vec<ServerEntry>,
}

/// A saved port-forwarding tunnel.
#[derive(Debug, Clone)]
pub struct SavedTunnel {
    /// The tunnel's UUID, as its 128-bit value.
    pub id: u128,
    pub label: String,
    /// Legacy field: `user@host:port` identifying the SSH server of this tunnel.
    pub session_key: String,
    /// Reference to a `ServerEntry` by id.
    pub server_entry_id: Option<String>,
    pub local_port: u16,
    pub remote_host: String,
    pub remote_port: u16,
    pub auto_start: bool,
}

/// All saved servers and tunnels.
#[derive(Debug, Clone)]
pub struct SshConfig {
    pub folders: Vec<ServerFolder>,
    pub ungrouped: Vec<ServerEntry>,
    pub tunnels: Vec<SavedTunnel>,
}

/// Portable export format: servers (with folders) and tunnels.
#[derive(Debug, Clone)]
pub struct ExportPayload {
    pub version: u32,
    pub folders: Vec<ServerFolder>,
    pub ungrouped: Vec<ServerEntry>,
    pub tunnels: Vec<SavedTunnel>,
}

// ---------------------------------------------------------------------------
// Views
// ---------------------------------------------------------------------------

/// The text of an optional string.
pub open spec fn opt_text(o: Option<String>) -> Option<Seq<char>> {
    match o {
        Some(s) => Some(s@),
        None => None,
    }
}

/// A server entry as plain values.
pub struct EntryView {
    pub id: Seq<char>,
    pub label: Seq<char>,
    pub host: Seq<char>,
    pub port: u16,
    pub user: Option<Seq<char>>,
    pub auth_method: Option<Seq<char>>,
    pub key_path: Option<Seq<char>>,
    pub vault_account_id: Option<u128>,
    pub proxy_command: Option<Seq<char>>,
    pub proxy_jump: Option<Seq<char>>,
}

impl View for ServerEntry {
    type V = EntryView;

    open spec fn view(&self) -> EntryView {
        EntryView {
            id: self.id@,
            label: self.label@,
            host: self.host@,
            port: self.port,
            user: opt_text(self.user),
            auth_method: opt_text(self.auth_method),
            key_path: opt_text(self.key_path),
            vault_account_id: self.vault_account_id,
            proxy_command: opt_text(self.proxy_command),
            proxy_jump: opt_text(self.proxy_jump),
        }
    }
}

/// The views of a sequence of entries.
pub open spec fn entry_views(s: Seq<ServerEntry>) -> Seq<EntryView> {
    s.map_values(|e: ServerEntry| e@)
}

/// A folder as plain values.
pub struct FolderView {
    pub id: Seq<char>,
    pub name: Seq<char>,
    pub expanded: bool,
    pub entries: Seq<EntryView>,
}

impl View for ServerFolder {
    type V = FolderView;

    open spec fn view(&self) -> FolderView {
        FolderView {
            id: self.id@,
            name: self.name@,
            expanded: self.expanded,
            entries: entry_views(self.entries@),
        }
    }
}

/// The views of a sequence of folders.
pub open spec fn folder_views(s: Seq<ServerFolder>) -> Seq<FolderView> {
    s.map_values(|f: ServerFolder| f@)
}

/// A saved tunnel as plain values.
pub struct TunnelView {
    pub id: u128,
    pub label: Seq<char>,
    pub session_key: Seq<char>,
    pub server_entry_id: Option<Seq<char>>,
    pub local_port: u16,
    pub remote_host: Seq<char>,
    pub remote_port: u16,
    pub auto_start: bool,
}

impl View for SavedTunnel {
    type V = TunnelView;

    open spec fn view(&self) -> TunnelView {
        TunnelView {
            id: self.id,
            label: self.label@,
            session_key: self.session_key@,
            server_entry_id: opt_text(self.server_entry_id),
            local_port: self.local_port,
            remote_host: self.remote_host@,
            remote_port: self.remote_port,
            auto_start: self.auto_start,
        }
    }
}

/// The views of a sequence of tunnels.
pub open spec fn tunnel_views(s: Seq<SavedTunnel>) -> Seq<TunnelView> {
    s.map_values(|t: SavedTunnel| t@)
}

/// The configuration as plain values.
pub struct ConfigView {
    pub folders: Seq<FolderView>,
    pub ungrouped: Seq<EntryView>,
    pub tunnels: Seq<TunnelView>,
}

impl View for SshConfig {
    type V = ConfigView;

    open spec fn view(&self) -> ConfigView {
        ConfigView {
            folders: folder_views(self.folders@),
            ungrouped: entry_views(self.ungrouped@),
            tunnels: tunnel_views(self.tunnels@),
        }
    }
}

/// An export payload as plain values.
pub struct PayloadView {
    pub version: u32,
    pub folders: Seq<FolderView>,
    pub ungrouped: Seq<EntryView>,
    pub tunnels: Seq<TunnelView>,
}

impl View for ExportPayload {
    type V = PayloadView;

    open spec fn view(&self) -> PayloadView {
        PayloadView {
            version: self.version,
            folders: folder_views(self.folders@),
            ungrouped: entry_views(self.ungrouped@),
            tunnels: tunnel_views(self.tunnels@),
        }
    }
}

// ---------------------------------------------------------------------------
// Copies
// ---------------------------------------------------------------------------

pub(crate) fn copy_opt(o: &Option<String>) -> (r: Option<String>)
    ensures
        opt_text(r) == opt_text(*o),
{
    match o {
        Some(s) => Some(s.clone()),
        None => None,
    }
}

/// A copy of a server entry.
pub fn copy_entry(e: &ServerEntry) -> (r: ServerEntry)
    ensures
        r@ == e@,
{
    ServerEntry {
        id: e.id.clone(),
        label: e.label.clone(),
        host: e.host.clone(),
        port: e.port,
        user: copy_opt(&e.user),
        auth_method: copy_opt(&e.auth_method),
        key_path: copy_opt(&e.key_path),
        vault_account_id: e.vault_account_id,
        proxy_command: copy_opt(&e.proxy_command),
        proxy_jump: copy_opt(&e.proxy_jump),
    }
}

/// A copy of a saved tunnel.
pub fn copy_tunnel(t: &SavedTunnel) -> (r: SavedTunnel)
    ensures
        r@ == t@,
{
    SavedTunnel {
        id: t.id,
        label: t.label.clone(),
        session_key: t.session_key.clone(),
        server_entry_id: copy_opt(&t.server_entry_id),
        local_port: t.local_port,
        remote_host: t.remote_host.clone(),
        remote_port: t.remote_port,
        auto_start: t.auto_start,
    }
}

// ---------------------------------------------------------------------------
// Tunnel session keys
// ---------------------------------------------------------------------------

/// `user@host:port`.
pub open spec fn session_key_text(user: Seq<char>, host: Seq<char>, port: u16) -> Seq<char> {
    user + seq!['@'] + host + seq![':'] + decimal(port as nat)
}

/// What `parse_session_key` reads from `key`: the text before the first
/// `@`, the text between it and the last `:` after it, and the port after
/// that `:`.
pub open spec fn parsed_session_key(key: Seq<char>) -> Option<(Seq<char>, Seq<char>, u16)> {
    match split_once(key, '@') {
        None => None,
        Some((user, rest)) => match rsplit_once(rest, ':') {
            None => None,
            Some((host, port)) => match parse_unsigned(port, u16::MAX as nat) {
                None => None,
                Some(n) => Some((user, host, n as u16)),
            },
        },
    }
}

impl SavedTunnel {
    /// `user@host:port`, the legacy key of a tunnel's server.
    pub fn make_session_key(user: &str, host: &str, port: u16) -> (r: String)
        ensures
            r@ == session_key_text(user@, host@, port),
    {
        let mut s = user.to_owned();
        push_char(&mut s, '@');
        append_str(&mut s, host);
        push_char(&mut s, ':');
        let d = u64_to_decimal(port as u64);
        append_chars(&mut s, d.as_slice());
        s
    }

    /// Splits `user@host:port` into its parts.
    pub fn parse_session_key(key: &str) -> (r: Option<(String, String, u16)>)
        ensures
            match r {
                Some((u, h, p)) => parsed_session_key(key@) == Some((u@, h@, p)),
                None => parsed_session_key(key@) is None,
            },
    {
        let k = str_chars(key);
        let (user, rest) = match split_once_chars(k.as_slice(), '@') {
            Some(x) => x,
            None => return None,
        };
        let (host, port_str) = match rsplit_once_chars(rest.as_slice(), ':') {
            Some(x) => x,
            None => return None,
        };
        let port = match parse_u16_chars(port_str.as_slice()) {
            Some(p) => p,
            None => return None,
        };
        Some((chars_to_string(user.as_slice()), chars_to_string(host.as_slice()), port))
    }
}

proof fn lemma_decimal_digits(n: nat)
    ensures
        decimal(n).len() > 0,
        all_digits(decimal(n)),
        digits_value(decimal(n)) == n,
        decimal(n)[0] != '+',
    decreases n,
{
    if n >= 10 {
        lemma_decimal_digits(n / 10);
        let d = decimal(n / 10);
        assert(decimal(n).drop_last() =~= d);
        assert(decimal(n)[0] == d[0]);
        let c = ((n % 10) + 48) as char;
        assert(c as u32 == (n % 10) + 48);
        assert(digit_value(c) == n % 10);
        assert(decimal(n).last() == c);
        assert(digits_value(decimal(n)) == digits_value(d) * 10 + digit_value(c));
        assert(n == (n / 10) * 10 + n % 10);
    } else {
        let c = (n + 48) as char;
        assert(c as u32 == n + 48);
        assert(decimal(n).drop_last() =~= Seq::<char>::empty());
        assert(decimal(n).last() == c);
        assert(digits_value(decimal(n)) == digits_value(Seq::<char>::empty()) * 10 + digit_value(c));
    }
}

proof fn lemma_last_index_after(s: Seq<char>, t: Seq<char>, c: char)
    requires
        !has_char(t, c),
    ensures
        last_index_of(s.push(c) + t, c) == Some(s.len() as int),
    decreases t.len(),
{
    if t.len() == 0 {
        assert(s.push(c) + t =~= s.push(c));
    } else {
        assert((s.push(c) + t).drop_last() =~= s.push(c) + t.drop_last());
        assert(t.last() != c) by {
            assert(t[t.len() - 1] == t.last());
        }
        assert forall|i: int| 0 <= i < t.drop_last().len() implies t.drop_last()[i] != c by {
            assert(t.drop_last()[i] == t[i]);
        }
        lemma_last_index_after(s, t.drop_last(), c);
    }
}

/// A session key made from a user name without `@` reads back as the same
/// user, host and port; the host may contain any character, `@` and `:`
/// included.
pub proof fn session_key_round_trip(user: Seq<char>, host: Seq<char>, port: u16)
    requires
        !has_char(user, '@'),
    ensures
        parsed_session_key(session_key_text(user, host, port)) == Some((user, host, port)),
{
    let key = session_key_text(user, host, port);
    let d = decimal(port as nat);
    let rest = host + seq![':'] + d;
    assert(key =~= user + seq!['@'] + rest);
    assert forall|j: int| 0 <= j < user.len() implies key[j] != '@' by {
        assert(key[j] == user[j]);
    }
    lemma_index_of_unique(key, '@', user.len() as int);
    assert(key.take(user.len() as int) =~= user);
    assert(key.skip(user.len() as int + 1) =~= rest);
    lemma_decimal_digits(port as nat);
    assert forall|i: int| 0 <= i < d.len() implies d[i] != ':' by {
        assert(all_digits(d));
    }
    assert(rest =~= host.push(':') + d);
    lemma_last_index_after(host, d, ':');
    assert(rest.take(host.len() as int) =~= host);
    assert(rest.skip(host.len() as int + 1) =~= d);
    assert(unsigned_value(d) == Some(port as nat));
}

// ---------------------------------------------------------------------------
// Lookups
// ---------------------------------------------------------------------------

/// The entries of all folders, folder by folder.
pub open spec fn folder_entries(fs: Seq<FolderView>) -> Seq<EntryView>
    decreases fs.len(),
{
    if fs.len() == 0 {
        Seq::empty()
    } else {
        folder_entries(fs.drop_last()) + fs.last().entries
    }
}

/// Every saved server: the ungrouped ones, then those of each folder.
pub open spec fn all_entries(c: ConfigView) -> Seq<EntryView> {
    c.ungrouped + folder_entries(c.folders)
}

/// The field an entry is looked up by: its label or its id.
pub open spec fn lookup_field(e: EntryView, by_label: bool) -> Seq<char> {
    if by_label {
        e.label
    } else {
        e.id
    }
}

/// Whether `s[k]` is the first entry of `s` whose field is `text`.
pub open spec fn is_first_match(s: Seq<EntryView>, k: int, text: Seq<char>, by_label: bool) -> bool {
    &&& 0 <= k < s.len()
    &&& lookup_field(s[k], by_label) == text
    &&& forall|j: int| 0 <= j < k ==> lookup_field(#[trigger] s[j], by_label) != text
}

/// Whether no entry of `s` has the field `text`.
pub open spec fn no_match(s: Seq<EntryView>, text: Seq<char>, by_label: bool) -> bool {
    forall|j: int| 0 <= j < s.len() ==> lookup_field(#[trigger] s[j], by_label) != text
}

proof fn lemma_folder_entries_concat(a: Seq<FolderView>, b: Seq<FolderView>)
    ensures
        folder_entries(a + b) == folder_entries(a) + folder_entries(b),
    decreases b.len(),
{
    if b.len() == 0 {
        assert(a + b =~= a);
        assert(folder_entries(a) + folder_entries(b) =~= folder_entries(a));
    } else {
        assert((a + b).drop_last() =~= a + b.drop_last());
        lemma_folder_entries_concat(a, b.drop_last());
        assert(folder_entries(a) + folder_entries(b.drop_last()) + b.last().entries
            =~= folder_entries(a) + (folder_entries(b.drop_last()) + b.last().entries));
    }
}

/// The entries of folder `f` sit right after those of the folders before it.
proof fn lemma_folder_entries_split(fs: Seq<FolderView>, f: int)
    requires
        0 <= f < fs.len(),
    ensures
        folder_entries(fs.take(f + 1)) == folder_entries(fs.take(f)) + fs[f].entries,
        folder_entries(fs) == folder_entries(fs.take(f + 1)) + folder_entries(fs.skip(f + 1)),
{
    assert(fs.take(f + 1).drop_last() =~= fs.take(f));
    assert(fs =~= fs.take(f + 1) + fs.skip(f + 1));
    lemma_folder_entries_concat(fs.take(f + 1), fs.skip(f + 1));
}

/// The position of the first entry of `v` whose label (or id) is `text`.
fn position_in(v: &Vec<ServerEntry>, text: &String, by_label: bool) -> (r: Option<usize>)
    ensures
        match r {
            Some(k) => is_first_match(entry_views(v@), k as int, text@, by_label),
            None => no_match(entry_views(v@), text@, by_label),
        },
{
    let ghost ev = entry_views(v@);
    let mut i: usize = 0;
    while i < v.len()
        invariant
            i <= v@.len(),
            ev == entry_views(v@),
            forall|j: int| 0 <= j < i ==> lookup_field(#[trigger] ev[j], by_label) != text@,
        decreases v.len() - i,
    {
        let hit = if by_label {
            v[i].label == *text
        } else {
            v[i].id == *text
        };
        if hit {
            return Some(i);
        }
        i += 1;
    }
    None
}

impl SshConfig {
    fn find_entry(&self, text: &str, by_label: bool) -> (r: Option<&ServerEntry>)
        ensures
            match r {
                Some(e) => exists|k: int|
                    is_first_match(all_entries(self@), k, text@, by_label) && all_entries(
                        self@,
                    )[k] == e@,
                None => no_match(all_entries(self@), text@, by_label),
            },
    {
        let target = text.to_owned();
        let ghost all = all_entries(self@);
        let ghost fv = self@.folders;
        let ghost un = self@.ungrouped;
        match position_in(&self.ungrouped, &target, by_label) {
            Some(k) => {
                assert(all[k as int] == un[k as int]);
                assert forall|j: int| 0 <= j < k implies lookup_field(#[trigger] all[j], by_label)
                    != text@ by {
                    assert(all[j] == un[j]);
                }
                return Some(&self.ungrouped[k]);
            },
            None => {},
        }
        let mut f: usize = 0;
        assert(folder_entries(fv.take(0)) =~= Seq::<EntryView>::empty());
        while f < self.folders.len()
            invariant
                f <= fv.len(),
                fv == self@.folders,
                un == self@.ungrouped,
                all == all_entries(self@),
                target@ == text@,
                no_match(un, text@, by_label),
                no_match(folder_entries(fv.take(f as int)), text@, by_label),
            decreases self.folders.len() - f,
        {
            proof {
                lemma_folder_entries_split(fv, f as int);
            }
            let ghost before = folder_entries(fv.take(f as int));
            match position_in(&self.folders[f].entries, &target, by_label) {
                Some(k) => {
                    let ghost idx = un.len() + before.len() + k;
                    assert(fv[f as int] == self.folders@[f as int]@);
                    assert(all =~= un + (before + fv[f as int].entries + folder_entries(
                        fv.skip(f + 1),
                    )));
                    assert(all[idx] == fv[f as int].entries[k as int]);
                    assert forall|j: int| 0 <= j < idx implies lookup_field(
                        #[trigger] all[j],
                        by_label,
                    ) != text@ by {
                        if j < un.len() {
                            assert(all[j] == un[j]);
                        } else if j < un.len() + before.len() {
                            assert(all[j] == before[j - un.len()]);
                        } else {
                            assert(all[j] == fv[f as int].entries[j - un.len() - before.len()]);
                        }
                    }
                    assert(is_first_match(all, idx, text@, by_label));
                    return Some(&self.folders[f].entries[k]);
                },
                None => {
                    assert(fv[f as int] == self.folders@[f as int]@);
                    let ghost after = folder_entries(fv.take(f + 1));
                    assert forall|j: int| 0 <= j < after.len() implies lookup_field(
                        #[trigger] after[j],
                        by_label,
                    ) != text@ by {
                        if j < before.len() {
                            assert(after[j] == before[j]);
                        } else {
                            assert(after[j] == fv[f as int].entries[j - before.len()]);
                        }
                    }
                },
            }
            f += 1;
        }
        assert(fv.take(fv.len() as int) =~= fv);
        assert forall|j: int| 0 <= j < all.len() implies lookup_field(#[trigger] all[j], by_label)
            != text@ by {
            if j < un.len() {
                assert(all[j] == un[j]);
            } else {
                assert(all[j] == folder_entries(fv)[j - un.len()]);
            }
        }
        None
    }

    /// The first saved server (ungrouped ones first, then folder by folder)
    /// with the given id.
    pub fn find_server(&self, id: &str) -> (r: Option<&ServerEntry>)
        ensures
            match r {
                Some(e) => exists|k: int|
                    is_first_match(all_entries(self@), k, id@, false) && all_entries(self@)[k]
                        == e@,
                None => no_match(all_entries(self@), id@, false),
            },
    {
        self.find_entry(id, false)
    }

    /// The first saved server (ungrouped ones first, then folder by folder)
    /// with the given label.
    pub fn find_server_by_label(&self, label: &str) -> (r: Option<&ServerEntry>)
        ensures
            match r {
                Some(e) => exists|k: int|
                    is_first_match(all_entries(self@), k, label@, true) && all_entries(self@)[k]
                        == e@,
                None => no_match(all_entries(self@), label@, true),
            },
    {
        self.find_entry(label, true)
    }
}

// ---------------------------------------------------------------------------
// Edits
// ---------------------------------------------------------------------------

/// `s` without the entries whose id is `id`.
pub open spec fn entries_without(s: Seq<EntryView>, id: Seq<char>) -> Seq<EntryView>
    decreases s.len(),
{
    if s.len() == 0 {
        s
    } else if s.last().id == id {
        entries_without(s.drop_last(), id)
    } else {
        entries_without(s.drop_last(), id).push(s.last())
    }
}

/// The folders with the entries whose id is `id` taken out of each.
pub open spec fn folders_without_entry(fs: Seq<FolderView>, id: Seq<char>) -> Seq<FolderView> {
    fs.map_values(
        |f: FolderView|
            FolderView {
                id: f.id,
                name: f.name,
                expanded: f.expanded,
                entries: entries_without(f.entries, id),
            },
    )
}

/// `fs` without the folders whose id is `id`.
pub open spec fn folders_without(fs: Seq<FolderView>, id: Seq<char>) -> Seq<FolderView>
    decreases fs.len(),
{
    if fs.len() == 0 {
        fs
    } else if fs.last().id == id {
        folders_without(fs.drop_last(), id)
    } else {
        folders_without(fs.drop_last(), id).push(fs.last())
    }
}

/// `ts` without the tunnels whose id is `id`.
pub open spec fn tunnels_without(ts: Seq<TunnelView>, id: u128) -> Seq<TunnelView>
    decreases ts.len(),
{
    if ts.len() == 0 {
        ts
    } else if ts.last().id == id {
        tunnels_without(ts.drop_last(), id)
    } else {
        tunnels_without(ts.drop_last(), id).push(ts.last())
    }
}

/// Whether `fs[f]` is the first folder with the id `id`.
pub open spec fn is_first_folder(fs: Seq<FolderView>, f: int, id: Seq<char>) -> bool {
    &&& 0 <= f < fs.len()
    &&& fs[f].id == id
    &&& forall|j: int| 0 <= j < f ==> (#[trigger] fs[j]).id != id
}

/// Whether no folder has the id `id`.
pub open spec fn no_folder(fs: Seq<FolderView>, id: Seq<char>) -> bool {
    forall|j: int| 0 <= j < fs.len() ==> (#[trigger] fs[j]).id != id
}

/// Whether `ts[k]` is the first tunnel with the id `id`.
pub open spec fn is_first_tunnel(ts: Seq<TunnelView>, k: int, id: u128) -> bool {
    &&& 0 <= k < ts.len()
    &&& ts[k].id == id
    &&& forall|j: int| 0 <= j < k ==> (#[trigger] ts[j]).id != id
}

/// Whether no tunnel has the id `id`.
pub open spec fn no_tunnel(ts: Seq<TunnelView>, id: u128) -> bool {
    forall|j: int| 0 <= j < ts.len() ==> (#[trigger] ts[j]).id != id
}

/// Whether some entry of `s` has the id `id`.
pub open spec fn has_entry_id(s: Seq<EntryView>, id: Seq<char>) -> bool {
    exists|j: int| 0 <= j < s.len() && (#[trigger] s[j]).id == id
}

/// The entries of `v` whose id is not `id`, in order.
fn entries_retained(v: Vec<ServerEntry>, id: &String) -> (r: Vec<ServerEntry>)
    ensures
        entry_views(r@) == entries_without(entry_views(v@), id@),
{
    let ghost ins = entry_views(v@);
    assert(ins.len() == v.len());
    let mut rev = crate::sorting::reversed(v);
    let mut out: Vec<ServerEntry> = Vec::new();
    let mut i: usize = 0;
    while rev.len() > 0
        invariant
            rev@.len() + i == ins.len(),
            ins.len() <= usize::MAX,
            forall|k: int| 0 <= k < rev@.len() ==> rev@[k]@ == ins[ins.len() - 1 - k],
            entry_views(out@) == entries_without(ins.take(i as int), id@),
        decreases rev@.len(),
    {
        let e = rev.pop().unwrap();
        assert(e@ == ins[i as int]);
        assert(ins.take(i + 1).drop_last() =~= ins.take(i as int));
        if e.id != *id {
            out.push(e);
        }
        i += 1;
        assert(entry_views(out@) =~= entries_without(ins.take(i as int), id@));
    }
    assert(ins.take(ins.len() as int) =~= ins);
    out
}

/// The position of the first folder of `v` with the id `id`.
pub(crate) fn folder_position(v: &Vec<ServerFolder>, id: &String) -> (r: Option<usize>)
    ensures
        match r {
            Some(f) => is_first_folder(folder_views(v@), f as int, id@),
            None => no_folder(folder_views(v@), id@),
        },
{
    let ghost fv = folder_views(v@);
    let mut i: usize = 0;
    while i < v.len()
        invariant
            i <= v@.len(),
            fv == folder_views(v@),
            forall|j: int| 0 <= j < i ==> (#[trigger] fv[j]).id != id@,
        decreases v.len() - i,
    {
        if v[i].id == *id {
            return Some(i);
        }
        i += 1;
    }
    None
}

/// The position of the first tunnel of `v` with the id `id`.
fn tunnel_position(v: &Vec<SavedTunnel>, id: u128) -> (r: Option<usize>)
    ensures
        match r {
            Some(k) => is_first_tunnel(tunnel_views(v@), k as int, id),
            None => no_tunnel(tunnel_views(v@), id),
        },
{
    let ghost tv = tunnel_views(v@);
    let mut i: usize = 0;
    while i < v.len()
        invariant
            i <= v@.len(),
            tv == tunnel_views(v@),
            forall|j: int| 0 <= j < i ==> (#[trigger] tv[j]).id != id,
        decreases v.len() - i,
    {
        if v[i].id == id {
            return Some(i);
        }
        i += 1;
    }
    None
}

/// Whether some entry of `v` has the id `id`.
fn lists_entry_id(v: &Vec<ServerEntry>, id: &String) -> (r: bool)
    ensures
        r == has_entry_id(entry_views(v@), id@),
{
    let ghost ev = entry_views(v@);
    let mut i: usize = 0;
    while i < v.len()
        invariant
            i <= v@.len(),
            ev == entry_views(v@),
            forall|j: int| 0 <= j < i ==> (#[trigger] ev[j]).id != id@,
        decreases v.len() - i,
    {
        if v[i].id == *id {
            assert(ev[i as int].id == id@);
            return true;
        }
        i += 1;
    }
    false
}

impl SshConfig {
    /// Adds a server to the ungrouped list.
    pub fn add_server(&mut self, entry: ServerEntry)
        ensures
            final(self)@ == (ConfigView { ungrouped: old(self)@.ungrouped.push(entry@), ..old(self)@ }),
    {
        self.ungrouped.push(entry);
        assert(entry_views(self.ungrouped@) =~= old(self)@.ungrouped.push(entry@));
    }

    /// Adds an empty, expanded folder with a fresh random id.
    pub fn add_folder(&mut self, name: &str)
        ensures
            exists|u: u128|
                crate::ids::is_random_uuid(u) && final(self)@ == (ConfigView {
                    folders: old(self)@.folders.push(
                        FolderView {
                            id: #[trigger] crate::ids::hyphenated(u),
                            name: name@,
                            expanded: true,
                            entries: Seq::empty(),
                        },
                    ),
                    ..old(self)@
                }),
    {
        let u = crate::ids::new_uuid();
        let id = crate::ids::uuid_text(u);
        let folder = ServerFolder { id, name: name.to_owned(), expanded: true, entries: Vec::new() };
        assert(entry_views(folder.entries@) =~= Seq::<EntryView>::empty());
        self.folders.push(folder);
        assert(folder_views(self.folders@) =~= old(self)@.folders.push(folder@));
    }

    /// Adds a server to the first folder with the id `folder_id`, or to the
    /// ungrouped list when there is no such folder.
    pub fn add_server_to_folder(&mut self, entry: ServerEntry, folder_id: &str)
        ensures
            (exists|f: int|
                is_first_folder(old(self)@.folders, f, folder_id@) && final(self)@ == (ConfigView {
                    folders: old(self)@.folders.update(
                        f,
                        FolderView {
                            entries: old(self)@.folders[f].entries.push(entry@),
                            ..old(self)@.folders[f]
                        },
                    ),
                    ..old(self)@
                })) || (no_folder(old(self)@.folders, folder_id@) && final(self)@ == (ConfigView {
                ungrouped: old(self)@.ungrouped.push(entry@),
                ..old(self)@
            })),
    {
        let target = folder_id.to_owned();
        match folder_position(&self.folders, &target) {
            Some(f) => {
                let mut folder = self.folders.remove(f);
                let ghost before = folder@;
                folder.entries.push(entry);
                assert(entry_views(folder.entries@) =~= before.entries.push(entry@));
                self.folders.insert(f, folder);
                assert(folder_views(self.folders@) =~= old(self)@.folders.update(
                    f as int,
                    FolderView { entries: before.entries.push(entry@), ..before },
                ));
            },
            None => {
                self.ungrouped.push(entry);
                assert(entry_views(self.ungrouped@) =~= old(self)@.ungrouped.push(entry@));
            },
        }
    }

    /// The id of the first folder holding a server with the id `server_id`.
    pub fn find_server_folder(&self, server_id: &str) -> (r: Option<&str>)
        ensures
            match r {
                Some(fid) => exists|f: int|
                    0 <= f < self@.folders.len() && fid@ == self@.folders[f].id && has_entry_id(
                        self@.folders[f].entries,
                        server_id@,
                    ) && forall|g: int|
                        0 <= g < f ==> !has_entry_id(
                            (#[trigger] self@.folders[g]).entries,
                            server_id@,
                        ),
                None => forall|g: int|
                    0 <= g < self@.folders.len() ==> !has_entry_id(
                        (#[trigger] self@.folders[g]).entries,
                        server_id@,
                    ),
            },
    {
        let target = server_id.to_owned();
        let ghost fv = self@.folders;
        let mut f: usize = 0;
        while f < self.folders.len()
            invariant
                f <= fv.len(),
                fv == self@.folders,
                target@ == server_id@,
                forall|g: int| 0 <= g < f ==> !has_entry_id((#[trigger] fv[g]).entries, server_id@),
            decreases self.folders.len() - f,
        {
            assert(fv[f as int] == self.folders@[f as int]@);
            if lists_entry_id(&self.folders[f].entries, &target) {
                return Some(self.folders[f].id.as_str());
            }
            f += 1;
        }
        None
    }

    /// Removes every server with the id `id`, ungrouped or in a folder.
    pub fn remove_server(&mut self, id: &str)
        ensures
            final(self)@ == (ConfigView {
                ungrouped: entries_without(old(self)@.ungrouped, id@),
                folders: folders_without_entry(old(self)@.folders, id@),
                ..old(self)@
            }),
    {
        let target = id.to_owned();
        let mut ungrouped: Vec<ServerEntry> = Vec::new();
        std::mem::swap(&mut ungrouped, &mut self.ungrouped);
        self.ungrouped = entries_retained(ungrouped, &target);
        let mut folders: Vec<ServerFolder> = Vec::new();
        std::mem::swap(&mut folders, &mut self.folders);
        let ghost ins = folder_views(folders@);
        assert(ins.len() == folders.len());
        let mut rev = crate::sorting::reversed(folders);
        let mut i: usize = 0;
        while rev.len() > 0
            invariant
                rev@.len() + i == ins.len(),
                ins.len() <= usize::MAX,
                forall|k: int| 0 <= k < rev@.len() ==> rev@[k]@ == ins[ins.len() - 1 - k],
                folder_views(self.folders@) == folders_without_entry(ins.take(i as int), id@),
                target@ == id@,
                entry_views(self.ungrouped@) == entries_without(old(self)@.ungrouped, id@),
                tunnel_views(self.tunnels@) == old(self)@.tunnels,
                ins == old(self)@.folders,
            decreases rev@.len(),
        {
            let f = rev.pop().unwrap();
            assert(f@ == ins[i as int]);
            let ServerFolder { id: fid, name, expanded, entries } = f;
            let kept = entries_retained(entries, &target);
            let nf = ServerFolder { id: fid, name, expanded, entries: kept };
            assert(nf@ == FolderView {
                id: ins[i as int].id,
                name: ins[i as int].name,
                expanded: ins[i as int].expanded,
                entries: entries_without(ins[i as int].entries, id@),
            });
            let ghost prev = folder_views(self.folders@);
            self.folders.push(nf);
            assert(folder_views(self.folders@) =~= prev.push(nf@));
            i += 1;
            assert(folder_views(self.folders@) =~= folders_without_entry(ins.take(i as int), id@));
        }
        assert(ins.take(ins.len() as int) =~= ins);
    }

    /// Removes every folder with the id `folder_id`, with its servers.
    pub fn remove_folder(&mut self, folder_id: &str)
        ensures
            final(self)@ == (ConfigView {
                folders: folders_without(old(self)@.folders, folder_id@),
                ..old(self)@
            }),
    {
        let target = folder_id.to_owned();
        let mut folders: Vec<ServerFolder> = Vec::new();
        std::mem::swap(&mut folders, &mut self.folders);
        let ghost ins = folder_views(folders@);
        assert(ins.len() == folders.len());
        let mut rev = crate::sorting::reversed(folders);
        let mut i: usize = 0;
        while rev.len() > 0
            invariant
                rev@.len() + i == ins.len(),
                ins.len() <= usize::MAX,
                forall|k: int| 0 <= k < rev@.len() ==> rev@[k]@ == ins[ins.len() - 1 - k],
                folder_views(self.folders@) == folders_without(ins.take(i as int), folder_id@),
                target@ == folder_id@,
                entry_views(self.ungrouped@) == old(self)@.ungrouped,
                tunnel_views(self.tunnels@) == old(self)@.tunnels,
                ins == old(self)@.folders,
            decreases rev@.len(),
        {
            let f = rev.pop().unwrap();
            assert(f@ == ins[i as int]);
            assert(ins.take(i + 1).drop_last() =~= ins.take(i as int));
            if f.id != target {
                self.folders.push(f);
            }
            i += 1;
            assert(folder_views(self.folders@) =~= folders_without(ins.take(i as int), folder_id@));
        }
        assert(ins.take(ins.len() as int) =~= ins);
    }

    /// Sets whether the first folder with the id `folder_id` is expanded.
    pub fn set_folder_expanded(&mut self, folder_id: &str, expanded: bool)
        ensures
            (exists|f: int|
                is_first_folder(old(self)@.folders, f, folder_id@) && final(self)@ == (ConfigView {
                    folders: old(self)@.folders.update(
                        f,
                        FolderView { expanded: expanded, ..old(self)@.folders[f] },
                    ),
                    ..old(self)@
                })) || (no_folder(old(self)@.folders, folder_id@) && final(self)@ == old(self)@),
    {
        let target = folder_id.to_owned();
        match folder_position(&self.folders, &target) {
            Some(f) => {
                let mut folder = self.folders.remove(f);
                let ghost before = folder@;
                folder.expanded = expanded;
                self.folders.insert(f, folder);
                assert(folder_views(self.folders@) =~= old(self)@.folders.update(
                    f as int,
                    FolderView { expanded: expanded, ..before },
                ));
            },
            None => {},
        }
    }

    // -- Tunnel operations --

    /// The first saved tunnel with the id `id`.
    pub fn find_tunnel(&self, id: u128) -> (r: Option<&SavedTunnel>)
        ensures
            match r {
                Some(t) => exists|k: int|
                    is_first_tunnel(self@.tunnels, k, id) && self@.tunnels[k] == t@,
                None => no_tunnel(self@.tunnels, id),
            },
    {
        match tunnel_position(&self.tunnels, id) {
            Some(k) => {
                assert(self@.tunnels[k as int] == self.tunnels@[k as int]@);
                Some(&self.tunnels[k])
            },
            None => None,
        }
    }

    /// Adds a tunnel at the end of the list.
    pub fn add_tunnel(&mut self, tunnel: SavedTunnel)
        ensures
            final(self)@ == (ConfigView { tunnels: old(self)@.tunnels.push(tunnel@), ..old(self)@ }),
    {
        self.tunnels.push(tunnel);
        assert(tunnel_views(self.tunnels@) =~= old(self)@.tunnels.push(tunnel@));
    }

    /// Removes every tunnel with the id `id`.
    pub fn remove_tunnel(&mut self, id: u128)
        ensures
            final(self)@ == (ConfigView {
                tunnels: tunnels_without(old(self)@.tunnels, id),
                ..old(self)@
            }),
    {
        let mut tunnels: Vec<SavedTunnel> = Vec::new();
        std::mem::swap(&mut tunnels, &mut self.tunnels);
        let ghost ins = tunnel_views(tunnels@);
        assert(ins.len() == tunnels.len());
        let mut rev = crate::sorting::reversed(tunnels);
        let mut i: usize = 0;
        while rev.len() > 0
            invariant
                rev@.len() + i == ins.len(),
                ins.len() <= usize::MAX,
                forall|k: int| 0 <= k < rev@.len() ==> rev@[k]@ == ins[ins.len() - 1 - k],
                tunnel_views(self.tunnels@) == tunnels_without(ins.take(i as int), id),
                entry_views(self.ungrouped@) == old(self)@.ungrouped,
                folder_views(self.folders@) == old(self)@.folders,
                ins == old(self)@.tunnels,
            decreases rev@.len(),
        {
            let t = rev.pop().unwrap();
            assert(t@ == ins[i as int]);
            assert(ins.take(i + 1).drop_last() =~= ins.take(i as int));
            if t.id != id {
                self.tunnels.push(t);
            }
            i += 1;
            assert(tunnel_views(self.tunnels@) =~= tunnels_without(ins.take(i as int), id));
        }
        assert(ins.take(ins.len() as int) =~= ins);
    }

    /// Replaces the first saved tunnel with the id of `tunnel`; without
    /// one, nothing changes.
    pub fn update_tunnel(&mut self, tunnel: SavedTunnel)
        ensures
            (exists|k: int|
                is_first_tunnel(old(self)@.tunnels, k, tunnel.id) && final(self)@ == (ConfigView {
                    tunnels: old(self)@.tunnels.update(k, tunnel@),
                    ..old(self)@
                })) || (no_tunnel(old(self)@.tunnels, tunnel.id) && final(self)@ == old(self)@),
    {
        match tunnel_position(&self.tunnels, tunnel.id) {
            Some(k) => {
                let ghost tv = tunnel@;
                let _old = self.tunnels.remove(k);
                self.tunnels.insert(k, tunnel);
                assert(tunnel_views(self.tunnels@) =~= old(self)@.tunnels.update(k as int, tv));
            },
            None => {},
        }
    }
}

// ---------------------------------------------------------------------------
// Listing and migration helpers
// ---------------------------------------------------------------------------

/// Whether `e` still carries a legacy login but no vault account.
pub open spec fn is_legacy(e: EntryView) -> bool {
    e.user is Some && e.vault_account_id is None
}

/// A credential found in legacy entries: user, key path, and a display
/// hint `user@host`.
pub type Credential = (Seq<char>, Option<Seq<char>>, Seq<char>);

/// Whether `creds` already holds the user and key path `(u, k)`.
pub open spec fn has_credential(creds: Seq<Credential>, u: Seq<char>, k: Option<Seq<char>>) -> bool {
    exists|i: int| 0 <= i < creds.len() && (#[trigger] creds[i]).0 == u && creds[i].1 == k
}

/// The distinct (user, key path) pairs of the legacy entries of `s`, in
/// order of first appearance, each with the hint of its first entry.
pub open spec fn unique_credentials(s: Seq<EntryView>) -> Seq<Credential>
    decreases s.len(),
{
    if s.len() == 0 {
        Seq::empty()
    } else {
        let r = unique_credentials(s.drop_last());
        let e = s.last();
        match e.user {
            None => r,
            Some(u) => if has_credential(r, u, e.key_path) {
                r
            } else {
                r.push((u, e.key_path, u + seq!['@'] + e.host))
            },
        }
    }
}

/// The views of a sequence of credentials.
pub open spec fn credential_views(v: Seq<(String, Option<String>, String)>) -> Seq<Credential> {
    v.map_values(|c: (String, Option<String>, String)| (c.0@, opt_text(c.1), c.2@))
}

pub(crate) fn same_opt(a: &Option<String>, b: &Option<String>) -> (r: bool)
    ensures
        r == (opt_text(*a) == opt_text(*b)),
{
    match (a, b) {
        (Some(x), Some(y)) => *x == *y,
        (None, None) => true,
        _ => false,
    }
}

/// Whether `creds` already holds the user and key path `(user, key)`.
fn lists_credential(creds: &Vec<(String, Option<String>, String)>, user: &String, key: &Option<String>) -> (r: bool)
    ensures
        r == has_credential(credential_views(creds@), user@, opt_text(*key)),
{
    let ghost cv = credential_views(creds@);
    let mut j: usize = 0;
    while j < creds.len()
        invariant
            j <= creds@.len(),
            cv == credential_views(creds@),
            forall|m: int|
                0 <= m < j ==> !((#[trigger] cv[m]).0 == user@ && cv[m].1 == opt_text(*key)),
        decreases creds.len() - j,
    {
        if creds[j].0 == *user && same_opt(&creds[j].1, key) {
            assert(cv[j as int].0 == user@ && cv[j as int].1 == opt_text(*key));
            return true;
        }
        j += 1;
    }
    false
}

impl SshConfig {
    /// Every saved server: the ungrouped ones, then those of each folder.
    pub fn all_servers(&self) -> (r: Vec<&ServerEntry>)
        ensures
            r@.len() == all_entries(self@).len(),
            forall|k: int| 0 <= k < r@.len() ==> (#[trigger] r@[k])@ == all_entries(self@)[k],
    {
        let ghost all = all_entries(self@);
        let ghost fv = self@.folders;
        let ghost un = self@.ungrouped;
        let mut r: Vec<&ServerEntry> = Vec::new();
        let mut i: usize = 0;
        while i < self.ungrouped.len()
            invariant
                i <= un.len(),
                un == self@.ungrouped,
                r@.len() == i,
                forall|k: int| 0 <= k < i ==> (#[trigger] r@[k])@ == un[k],
            decreases self.ungrouped.len() - i,
        {
            r.push(&self.ungrouped[i]);
            i += 1;
        }
        let mut f: usize = 0;
        assert(folder_entries(fv.take(0)) =~= Seq::<EntryView>::empty());
        while f < self.folders.len()
            invariant
                f <= fv.len(),
                fv == self@.folders,
                un == self@.ungrouped,
                r@.len() == un.len() + folder_entries(fv.take(f as int)).len(),
                forall|k: int|
                    0 <= k < r@.len() ==> (#[trigger] r@[k])@ == (un + folder_entries(
                        fv.take(f as int),
                    ))[k],
            decreases self.folders.len() - f,
        {
            proof {
                lemma_folder_entries_split(fv, f as int);
            }
            let ghost before = un + folder_entries(fv.take(f as int));
            assert(fv[f as int] == self.folders@[f as int]@);
            let entries = &self.folders[f].entries;
            let mut j: usize = 0;
            while j < entries.len()
                invariant
                    j <= entries@.len(),
                    entry_views(entries@) == fv[f as int].entries,
                    r@.len() == before.len() + j,
                    forall|k: int|
                        0 <= k < r@.len() ==> (#[trigger] r@[k])@ == (before
                            + fv[f as int].entries)[k],
                decreases entries.len() - j,
            {
                r.push(&entries[j]);
                j += 1;
            }
            assert(before + fv[f as int].entries =~= un + folder_entries(fv.take(f + 1)));
            f += 1;
        }
        assert(fv.take(fv.len() as int) =~= fv);
        r
    }

    /// Whether any server has a legacy login but no linked vault account.
    pub fn has_legacy_entries(&self) -> (r: bool)
        ensures
            r == exists|k: int|
                0 <= k < all_entries(self@).len() && is_legacy(#[trigger] all_entries(self@)[k]),
    {
        let all = self.all_servers();
        let mut i: usize = 0;
        while i < all.len()
            invariant
                i <= all@.len(),
                all@.len() == all_entries(self@).len(),
                forall|k: int| 0 <= k < all@.len() ==> (#[trigger] all@[k])@ == all_entries(self@)[k],
                forall|k: int| 0 <= k < i ==> !is_legacy(#[trigger] all_entries(self@)[k]),
            decreases all.len() - i,
        {
            let e = all[i];
            assert(e@ == all_entries(self@)[i as int]);
            if e.user.is_some() && e.vault_account_id.is_none() {
                return true;
            }
            i += 1;
        }
        false
    }

    /// The distinct (user, key path) combinations of the legacy entries, in
    /// order of first appearance, each with a `user@host` hint, so that one
    /// vault account can be created per distinct credential.
    pub fn collect_unique_credentials(&self) -> (r: Vec<(String, Option<String>, String)>)
        ensures
            credential_views(r@) == unique_credentials(all_entries(self@)),
    {
        let all = self.all_servers();
        let ghost av = all_entries(self@);
        let mut result: Vec<(String, Option<String>, String)> = Vec::new();
        let mut i: usize = 0;
        while i < all.len()
            invariant
                i <= all@.len(),
                all@.len() == av.len(),
                av == all_entries(self@),
                forall|k: int| 0 <= k < all@.len() ==> (#[trigger] all@[k])@ == av[k],
                credential_views(result@) == unique_credentials(av.take(i as int)),
            decreases all.len() - i,
        {
            let e = all[i];
            assert(e@ == av[i as int]);
            assert(av.take(i + 1).drop_last() =~= av.take(i as int));
            assert(av.take(i + 1).last() == av[i as int]);
            if let Some(user) = &e.user {
                let ghost cv = credential_views(result@);
                if !lists_credential(&result, user, &e.key_path) {
                    let mut hint = user.clone();
                    push_char(&mut hint, '@');
                    append_str(&mut hint, e.host.as_str());
                    let item = (user.clone(), copy_opt(&e.key_path), hint);
                    assert(item.0@ == user@ && opt_text(item.1) == opt_text(e.key_path) && item.2@
                        == user@ + seq!['@'] + e.host@);
                    result.push(item);
                    assert(credential_views(result@) =~= cv.push(
                        (user@, opt_text(e.key_path), user@ + seq!['@'] + e.host@),
                    ));
                }
            }
            i += 1;
        }
        assert(av.take(av.len() as int) =~= av);
        result
    }
}

// ---------------------------------------------------------------------------
// Export and import
// ---------------------------------------------------------------------------

/// Whether a path is absolute: it starts with `/` or `\\`, or with a drive
/// letter and `:`.
pub open spec fn is_absolute_path(p: Seq<char>) -> bool {
    ||| p.len() > 0 && (p[0] == '/' || p[0] == '\\')
    ||| p.len() > 1 && p[1] == ':' && (('a' <= p[0] && p[0] <= 'z') || ('A' <= p[0] && p[0] <= 'Z'))
}

/// An entry as exported: the vault account link, local to this machine, is
/// left out, and so is an absolute key path.
pub open spec fn exported_entry(e: EntryView) -> EntryView {
    EntryView {
        vault_account_id: None,
        key_path: match e.key_path {
            Some(k) => if is_absolute_path(k) {
                None
            } else {
                Some(k)
            },
            None => None,
        },
        ..e
    }
}

/// Whether the path `p` is absolute (see `is_absolute_path`).
fn absolute_path(p: &String) -> (r: bool)
    ensures
        r == is_absolute_path(p@),
{
    let v = str_chars(p.as_str());
    if v.len() > 0 && (v[0] == '/' || v[0] == '\\') {
        return true;
    }
    v.len() > 1 && v[1] == ':' && (('a' <= v[0] && v[0] <= 'z') || ('A' <= v[0] && v[0] <= 'Z'))
}

/// Whether `ids` lists the text `id`.
pub open spec fn id_listed(ids: Seq<String>, id: Seq<char>) -> bool {
    exists|i: int| 0 <= i < ids.len() && (#[trigger] ids[i])@ == id
}

/// Whether the filter `ids` (none: everything) selects the id `id`.
pub open spec fn selected(ids: Option<Seq<String>>, id: Seq<char>) -> bool {
    match ids {
        None => true,
        Some(list) => id_listed(list, id),
    }
}

/// The selected entries of `s`, as exported.
pub open spec fn export_entries(s: Seq<EntryView>, ids: Option<Seq<String>>) -> Seq<EntryView>
    decreases s.len(),
{
    if s.len() == 0 {
        Seq::empty()
    } else if selected(ids, s.last().id) {
        export_entries(s.drop_last(), ids).push(exported_entry(s.last()))
    } else {
        export_entries(s.drop_last(), ids)
    }
}

/// The folders of `fs` with their selected entries, as exported; under a
/// filter, a folder left without entries is dropped.
pub open spec fn export_folders(fs: Seq<FolderView>, ids: Option<Seq<String>>) -> Seq<FolderView>
    decreases fs.len(),
{
    if fs.len() == 0 {
        Seq::empty()
    } else {
        let f = fs.last();
        let es = export_entries(f.entries, ids);
        if ids is Some && es.len() == 0 {
            export_folders(fs.drop_last(), ids)
        } else {
            export_folders(fs.drop_last(), ids).push(FolderView { entries: es, ..f })
        }
    }
}

/// The tunnels of `ts` whose id, in its text form, the filter selects.
pub open spec fn export_tunnels(ts: Seq<TunnelView>, ids: Option<Seq<String>>) -> Seq<TunnelView>
    decreases ts.len(),
{
    if ts.len() == 0 {
        Seq::empty()
    } else if selected(ids, crate::ids::hyphenated(ts.last().id)) {
        export_tunnels(ts.drop_last(), ids).push(ts.last())
    } else {
        export_tunnels(ts.drop_last(), ids)
    }
}

/// The filter as plain values.
pub open spec fn filter_view(ids: Option<&[String]>) -> Option<Seq<String>> {
    match ids {
        Some(list) => Some(list@),
        None => None,
    }
}

/// Whether the filter selects `id`.
fn is_selected(ids: Option<&[String]>, id: &String) -> (r: bool)
    ensures
        r == selected(filter_view(ids), id@),
{
    match ids {
        None => true,
        Some(list) => {
            let mut i: usize = 0;
            while i < list.len()
                invariant
                    i <= list@.len(),
                    filter_view(ids) == Some(list@),
                    forall|j: int| 0 <= j < i ==> (#[trigger] list@[j])@ != id@,
                decreases list.len() - i,
            {
                if list[i] == *id {
                    assert(list@[i as int]@ == id@);
                    return true;
                }
                i += 1;
            }
            false
        },
    }
}

/// The selected entries of `v`, as exported.
fn export_entry_list(v: &Vec<ServerEntry>, ids: Option<&[String]>) -> (r: Vec<ServerEntry>)
    ensures
        entry_views(r@) == export_entries(entry_views(v@), filter_view(ids)),
{
    let ghost ev = entry_views(v@);
    let mut out: Vec<ServerEntry> = Vec::new();
    let mut i: usize = 0;
    while i < v.len()
        invariant
            i <= v@.len(),
            ev == entry_views(v@),
            entry_views(out@) == export_entries(ev.take(i as int), filter_view(ids)),
        decreases v.len() - i,
    {
        assert(ev.take(i + 1).drop_last() =~= ev.take(i as int));
        assert(ev[i as int] == v@[i as int]@);
        if is_selected(ids, &v[i].id) {
            let mut e = copy_entry(&v[i]);
            e.vault_account_id = None;
            let absolute = match &v[i].key_path {
                Some(k) => absolute_path(k),
                None => false,
            };
            if absolute {
                e.key_path = None;
            }
            let ghost prev = entry_views(out@);
            out.push(e);
            assert(entry_views(out@) =~= prev.push(exported_entry(ev[i as int])));
        }
        i += 1;
    }
    assert(ev.take(ev.len() as int) =~= ev);
    out
}

/// The count of servers in an import: those of the folders and the
/// ungrouped ones.
pub open spec fn payload_server_count(p: PayloadView) -> nat {
    folder_entries(p.folders).len() + p.ungrouped.len()
}

proof fn lemma_folder_entries_prefix_len(fs: Seq<FolderView>)
    ensures
        forall|k: int| 0 <= k <= fs.len() ==> #[trigger] folder_entries(fs.take(k)).len() <= folder_entries(fs).len(),
{
    assert forall|k: int| 0 <= k <= fs.len() implies #[trigger] folder_entries(fs.take(k)).len() <= folder_entries(fs).len() by {
        assert(fs =~= fs.take(k) + fs.skip(k));
        lemma_folder_entries_concat(fs.take(k), fs.skip(k));
    }
}

/// The number of servers a payload holds: those of its folders and the
/// ungrouped ones.
fn server_count_of(p: &ExportPayload) -> (r: usize)
    requires
        payload_server_count(p@) <= usize::MAX,
    ensures
        r == payload_server_count(p@),
{
    let ghost fv = p@.folders;
    proof {
        lemma_folder_entries_prefix_len(fv);
    }
    assert(folder_entries(fv.take(0)) =~= Seq::<EntryView>::empty());
    let mut total: usize = 0;
    let mut i: usize = 0;
    while i < p.folders.len()
        invariant
            i <= p.folders@.len(),
            fv == p@.folders,
            fv.len() == p.folders@.len(),
            total == folder_entries(fv.take(i as int)).len(),
            payload_server_count(p@) <= usize::MAX,
            forall|k: int| 0 <= k <= fv.len() ==> #[trigger] folder_entries(fv.take(k)).len() <= folder_entries(fv).len(),
        decreases p.folders.len() - i,
    {
        proof {
            lemma_folder_entries_split(fv, i as int);
        }
        assert(fv[i as int].entries.len() == p.folders@[i as int].entries@.len());
        assert(folder_entries(fv.take(i + 1)).len() <= folder_entries(fv).len());
        total = total + p.folders[i].entries.len();
        i += 1;
    }
    assert(fv.take(fv.len() as int) =~= fv);
    total + p.ungrouped.len()
}


/// The texts of a list of ids.
pub open spec fn id_texts(v: Seq<String>) -> Seq<Seq<char>> {
    v.map_values(|x: String| x@)
}

/// The entries `s`, the `i`-th under the id `ids[i]`.
pub open spec fn with_ids(s: Seq<EntryView>, ids: Seq<Seq<char>>) -> Seq<EntryView> {
    Seq::new(s.len(), |i: int| EntryView { id: ids[i], ..s[i] })
}

/// The `k`-th folder of `fs` as imported: under the id `fids[k]`, its
/// entries under the entry ids that follow those of the folders before it
/// in `eids`.
pub open spec fn imported_folder(fs: Seq<FolderView>, fids: Seq<Seq<char>>, eids: Seq<Seq<char>>, k: int) -> FolderView {
    FolderView {
        id: fids[k],
        entries: with_ids(fs[k].entries, eids.skip(folder_entries(fs.take(k)).len() as int)),
        ..fs[k]
    }
}

/// The configuration `old` with the payload `p` appended: its folders
/// under the ids `fids`, its servers (those of the folders in order, then
/// the ungrouped ones) under the ids `eids`, its tunnels under the ids
/// `tids`.
pub open spec fn imported_config(
    old: ConfigView,
    p: PayloadView,
    fids: Seq<Seq<char>>,
    eids: Seq<Seq<char>>,
    tids: Seq<u128>,
) -> ConfigView {
    ConfigView {
        folders: old.folders + Seq::new(
            p.folders.len(),
            |k: int| imported_folder(p.folders, fids, eids, k),
        ),
        ungrouped: old.ungrouped + with_ids(p.ungrouped, eids.skip(folder_entries(p.folders).len() as int)),
        tunnels: old.tunnels + Seq::new(p.tunnels.len(), |k: int| TunnelView { id: tids[k], ..p.tunnels[k] }),
    }
}

/// Whether `new` is `old` with the folders, servers and tunnels of `p`
/// appended after its own, each folder and server under the text of a
/// freshly drawn random (version 4) UUID and each tunnel under the value of
/// one.
pub open spec fn merged_import(old: ConfigView, p: PayloadView, new: ConfigView) -> bool {
    exists|fids: Seq<Seq<char>>, eids: Seq<Seq<char>>, tids: Seq<u128>|
        #![trigger imported_config(old, p, fids, eids, tids)]
        fids.len() == p.folders.len() && eids.len() == payload_server_count(p) && tids.len()
            == p.tunnels.len() && (forall|k: int| 0 <= k < fids.len() ==> crate::ids::is_random_uuid_text(#[trigger] fids[k]))
            && (forall|k: int| 0 <= k < eids.len() ==> crate::ids::is_random_uuid_text(#[trigger] eids[k]))
            && (forall|k: int| 0 <= k < tids.len() ==> crate::ids::is_random_uuid(#[trigger] tids[k])) && new
            == imported_config(old, p, fids, eids, tids)
}

fn fresh_id() -> (r: String)
    ensures
        crate::ids::is_random_uuid_text(r@),
{
    let u = crate::ids::new_uuid();
    crate::ids::uuid_text(u)
}

impl SshConfig {
    /// Creates an export payload, optionally filtered to the given server
    /// and tunnel ids; vault account links are left out.
    pub fn to_export_filtered(&self, server_ids: Option<&[String]>, tunnel_ids: Option<&[String]>) -> (r: ExportPayload)
        ensures
            r@ == (PayloadView {
                version: 1,
                folders: export_folders(self@.folders, filter_view(server_ids)),
                ungrouped: export_entries(self@.ungrouped, filter_view(server_ids)),
                tunnels: export_tunnels(self@.tunnels, filter_view(tunnel_ids)),
            }),
    {
        let ungrouped = export_entry_list(&self.ungrouped, server_ids);
        let ghost fv = self@.folders;
        let mut folders: Vec<ServerFolder> = Vec::new();
        let mut f: usize = 0;
        while f < self.folders.len()
            invariant
                f <= fv.len(),
                fv == self@.folders,
                folder_views(folders@) == export_folders(fv.take(f as int), filter_view(server_ids)),
            decreases self.folders.len() - f,
        {
            assert(fv.take(f + 1).drop_last() =~= fv.take(f as int));
            assert(fv[f as int] == self.folders@[f as int]@);
            let src = &self.folders[f];
            let entries = export_entry_list(&src.entries, server_ids);
            if server_ids.is_none() || entries.len() > 0 {
                let nf = ServerFolder {
                    id: src.id.clone(),
                    name: src.name.clone(),
                    expanded: src.expanded,
                    entries,
                };
                let ghost prev = folder_views(folders@);
                folders.push(nf);
                assert(folder_views(folders@) =~= prev.push(nf@));
            }
            f += 1;
        }
        assert(fv.take(fv.len() as int) =~= fv);
        let ghost tv = self@.tunnels;
        let mut tunnels: Vec<SavedTunnel> = Vec::new();
        let mut k: usize = 0;
        while k < self.tunnels.len()
            invariant
                k <= tv.len(),
                tv == self@.tunnels,
                tunnel_views(tunnels@) == export_tunnels(tv.take(k as int), filter_view(tunnel_ids)),
            decreases self.tunnels.len() - k,
        {
            assert(tv.take(k + 1).drop_last() =~= tv.take(k as int));
            assert(tv[k as int] == self.tunnels@[k as int]@);
            let text = crate::ids::uuid_text(self.tunnels[k].id);
            if is_selected(tunnel_ids, &text) {
                let t = copy_tunnel(&self.tunnels[k]);
                let ghost prev = tunnel_views(tunnels@);
                tunnels.push(t);
                assert(tunnel_views(tunnels@) =~= prev.push(t@));
            }
            k += 1;
        }
        assert(tv.take(tv.len() as int) =~= tv);
        ExportPayload { version: 1, folders, ungrouped, tunnels }
    }

    /// Appends the payload under the given ids: folder `k` under
    /// `folder_ids[k]`, the servers (those of the folders in order, then the
    /// ungrouped ones) under `entry_ids` in that order, tunnel `k` under
    /// `tunnel_ids[k]`; returns the numbers of servers, folders and tunnels
    /// added.
    pub fn import_under_ids(
        &mut self,
        payload: ExportPayload,
        folder_ids: Vec<String>,
        entry_ids: Vec<String>,
        tunnel_ids: Vec<u128>,
    ) -> (r: (usize, usize, usize))
        requires
            folder_ids@.len() == payload@.folders.len(),
            entry_ids@.len() == payload_server_count(payload@),
            tunnel_ids@.len() == payload@.tunnels.len(),
        ensures
            r == (
                payload_server_count(payload@) as usize,
                payload@.folders.len() as usize,
                payload@.tunnels.len() as usize,
            ),
            final(self)@ == imported_config(
                old(self)@,
                payload@,
                id_texts(folder_ids@),
                id_texts(entry_ids@),
                tunnel_ids@,
            ),
    {
        let ghost pv = payload@;
        let ghost o = self@;
        let ghost fids = id_texts(folder_ids@);
        let ghost eids = id_texts(entry_ids@);
        let ghost tids = tunnel_ids@;
        let ghost fv = pv.folders;
        let ExportPayload { version: _, folders: pfolders, ungrouped: pungrouped, tunnels: ptunnels } =
            payload;
        assert(fv.len() == pfolders.len());
        assert(eids.len() == entry_ids.len() && fids.len() == folder_ids.len());
        assert(tids.len() == tunnel_ids.len());
        let ghost nmax = eids.len();
        let mut rev_f = crate::sorting::reversed(pfolders);
        let mut rev_fid = crate::sorting::reversed(folder_ids);
        let mut rev_eid = crate::sorting::reversed(entry_ids);
        let mut nf: usize = 0;
        let mut used: usize = 0;
        assert(folder_entries(fv.take(0)) =~= Seq::<EntryView>::empty());
        proof {
            lemma_folder_entries_prefix_len(fv);
        }
        while rev_f.len() > 0
            invariant
                rev_f@.len() + nf == fv.len(),
                rev_fid@.len() + nf == fv.len(),
                rev_eid@.len() + used == eids.len(),
                eids.len() == payload_server_count(pv),
                eids.len() <= usize::MAX,
                fids.len() == fv.len(),
                fv.len() <= usize::MAX,
                fv == pv.folders,
                forall|k: int| 0 <= k < rev_f@.len() ==> rev_f@[k]@ == fv[fv.len() - 1 - k],
                forall|k: int| 0 <= k < rev_fid@.len() ==> rev_fid@[k]@ == fids[fids.len() - 1 - k],
                forall|k: int| 0 <= k < rev_eid@.len() ==> rev_eid@[k]@ == eids[eids.len() - 1 - k],
                used == folder_entries(fv.take(nf as int)).len(),
                forall|k: int| 0 <= k <= fv.len() ==> #[trigger] folder_entries(fv.take(k)).len()
                    <= folder_entries(fv).len(),
                self@ == (ConfigView {
                    folders: o.folders + Seq::new(nf as nat, |k: int| imported_folder(fv, fids, eids, k)),
                    ..o
                }),
            decreases rev_f@.len(),
        {
            let folder = rev_f.pop().unwrap();
            let fid = rev_fid.pop().unwrap();
            let ghost fview = folder@;
            assert(fview == fv[nf as int]);
            assert(fid@ == fids[nf as int]);
            proof {
                lemma_folder_entries_split(fv, nf as int);
            }
            let ServerFolder { id: _, name, expanded, entries } = folder;
            let ghost fe = entry_views(entries@);
            let ghost start = eids.skip(used as int);
            assert(folder_entries(fv.take(nf + 1)).len() == used + fe.len());
            let mut rev_entries = crate::sorting::reversed(entries);
            let mut new_entries: Vec<ServerEntry> = Vec::new();
            let mut j: usize = 0;
            while rev_entries.len() > 0
                invariant
                    rev_entries@.len() + j == fe.len(),
                    forall|k: int| 0 <= k < rev_entries@.len() ==> rev_entries@[k]@ == fe[fe.len() - 1 - k],
                    rev_eid@.len() + used + j == eids.len(),
                    used + fe.len() <= eids.len(),
                    eids.len() <= usize::MAX,
                    forall|k: int| 0 <= k < rev_eid@.len() ==> rev_eid@[k]@ == eids[eids.len() - 1 - k],
                    start == eids.skip(used as int),
                    entry_views(new_entries@) == with_ids(fe.take(j as int), start),
                decreases rev_entries@.len(),
            {
                let mut e = rev_entries.pop().unwrap();
                let id = rev_eid.pop().unwrap();
                let ghost ev = e@;
                assert(ev == fe[j as int]);
                assert(id@ == start[j as int]);
                e.id = id;
                assert(e@ == (EntryView { id: start[j as int], ..fe[j as int] }));
                let ghost prev = entry_views(new_entries@);
                new_entries.push(e);
                assert(entry_views(new_entries@) =~= prev.push(e@));
                j = j + 1;
                assert(entry_views(new_entries@) =~= with_ids(fe.take(j as int), start));
            }
            assert(fe.take(fe.len() as int) =~= fe);
            let nfolder = ServerFolder { id: fid, name, expanded, entries: new_entries };
            assert(nfolder@ == imported_folder(fv, fids, eids, nf as int));
            let ghost prev = self@.folders;
            self.folders.push(nfolder);
            assert(self@.folders =~= prev.push(imported_folder(fv, fids, eids, nf as int)));
            used = used + j;
            nf = nf + 1;
            assert(self@.folders =~= o.folders + Seq::new(nf as nat, |k: int| imported_folder(fv, fids, eids, k)));
        }
        assert(fv.take(fv.len() as int) =~= fv);
        let ghost pu = entry_views(pungrouped@);
        let ghost ustart = eids.skip(used as int);
        let mut rev_u = crate::sorting::reversed(pungrouped);
        let mut added: usize = 0;
        while rev_u.len() > 0
            invariant
                rev_u@.len() + added == pu.len(),
                forall|k: int| 0 <= k < rev_u@.len() ==> rev_u@[k]@ == pu[pu.len() - 1 - k],
                rev_eid@.len() + used + added == eids.len(),
                used + pu.len() == eids.len(),
                eids.len() <= usize::MAX,
                forall|k: int| 0 <= k < rev_eid@.len() ==> rev_eid@[k]@ == eids[eids.len() - 1 - k],
                ustart == eids.skip(used as int),
                self@ == (ConfigView {
                    folders: o.folders + Seq::new(fv.len(), |k: int| imported_folder(fv, fids, eids, k)),
                    ungrouped: o.ungrouped + with_ids(pu.take(added as int), ustart),
                    ..o
                }),
            decreases rev_u@.len(),
        {
            let mut e = rev_u.pop().unwrap();
            let id = rev_eid.pop().unwrap();
            assert(e@ == pu[added as int]);
            assert(id@ == ustart[added as int]);
            e.id = id;
            assert(e@ == (EntryView { id: ustart[added as int], ..pu[added as int] }));
            let ghost prevu = self@.ungrouped;
            self.ungrouped.push(e);
            assert(self@.ungrouped =~= prevu.push(e@));
            added = added + 1;
            assert(self@.ungrouped =~= o.ungrouped + with_ids(pu.take(added as int), ustart));
        }
        assert(pu.take(pu.len() as int) =~= pu);
        let ghost pt = tunnel_views(ptunnels@);
        assert(pt.len() == ptunnels.len());
        let mut rev_t = crate::sorting::reversed(ptunnels);
        let mut rev_tid = crate::sorting::reversed(tunnel_ids);
        let mut nt: usize = 0;
        while rev_t.len() > 0
            invariant
                rev_t@.len() + nt == pt.len(),
                rev_tid@.len() + nt == pt.len(),
                tids.len() == pt.len(),
                pt.len() <= usize::MAX,
                forall|k: int| 0 <= k < rev_t@.len() ==> rev_t@[k]@ == pt[pt.len() - 1 - k],
                forall|k: int| 0 <= k < rev_tid@.len() ==> rev_tid@[k] == tids[tids.len() - 1 - k],
                self@ == (ConfigView {
                    folders: o.folders + Seq::new(fv.len(), |k: int| imported_folder(fv, fids, eids, k)),
                    ungrouped: o.ungrouped + with_ids(pu, ustart),
                    tunnels: o.tunnels + Seq::new(nt as nat, |k: int| TunnelView { id: tids[k], ..pt[k] }),
                }),
            decreases rev_t@.len(),
        {
            let mut t = rev_t.pop().unwrap();
            let id = rev_tid.pop().unwrap();
            assert(t@ == pt[nt as int]);
            t.id = id;
            assert(t@ == (TunnelView { id: tids[nt as int], ..pt[nt as int] }));
            let ghost prevt = self@.tunnels;
            self.tunnels.push(t);
            assert(self@.tunnels =~= prevt.push(t@));
            nt = nt + 1;
            assert(self@.tunnels =~= o.tunnels + Seq::new(nt as nat, |k: int| TunnelView { id: tids[k], ..pt[k] }));
        }
        assert(self@ =~= imported_config(o, pv, fids, eids, tids));
        (used + added, nf, nt)
    }

    /// Merges an import payload into the configuration under fresh ids, so
    /// that nothing collides with what is already saved: it draws a UUID
    /// for each folder, server and tunnel and appends the payload under them
    /// (see `import_under_ids`); returns the numbers of servers, folders and
    /// tunnels imported.
    pub fn merge_import(&mut self, payload: ExportPayload) -> (r: (usize, usize, usize))
        requires
            payload_server_count(payload@) <= usize::MAX,
        ensures
            r == (
                payload_server_count(payload@) as usize,
                payload@.folders.len() as usize,
                payload@.tunnels.len() as usize,
            ),
            merged_import(old(self)@, payload@, final(self)@),
    {
        let ghost pv = payload@;
        let mut folder_ids: Vec<String> = Vec::new();
        let mut i: usize = 0;
        while i < payload.folders.len()
            invariant
                i <= payload.folders@.len(),
                folder_ids@.len() == i,
                forall|k: int| 0 <= k < i ==> crate::ids::is_random_uuid_text(#[trigger] folder_ids@[k]@),
            decreases payload.folders.len() - i,
        {
            folder_ids.push(fresh_id());
            i += 1;
        }
        let mut entry_ids: Vec<String> = Vec::new();
        let mut n: usize = 0;
        let total = server_count_of(&payload);
        while n < total
            invariant
                n <= total,
                entry_ids@.len() == n,
                forall|k: int| 0 <= k < n ==> crate::ids::is_random_uuid_text(#[trigger] entry_ids@[k]@),
            decreases total - n,
        {
            entry_ids.push(fresh_id());
            n += 1;
        }
        let mut tunnel_ids: Vec<u128> = Vec::new();
        let mut t: usize = 0;
        while t < payload.tunnels.len()
            invariant
                t <= payload.tunnels@.len(),
                tunnel_ids@.len() == t,
                forall|k: int| 0 <= k < t ==> crate::ids::is_random_uuid(#[trigger] tunnel_ids@[k]),
            decreases payload.tunnels.len() - t,
        {
            tunnel_ids.push(crate::ids::new_uuid());
            t += 1;
        }
        let ghost fids = id_texts(folder_ids@);
        let ghost eids = id_texts(entry_ids@);
        let ghost tids = tunnel_ids@;
        assert(pv.folders.len() == payload.folders@.len());
        assert(pv.tunnels.len() == payload.tunnels@.len());
        let r = self.import_under_ids(payload, folder_ids, entry_ids, tunnel_ids);
        assert(forall|k: int| 0 <= k < fids.len() ==> crate::ids::is_random_uuid_text(#[trigger] fids[k]));
        assert(forall|k: int| 0 <= k < eids.len() ==> crate::ids::is_random_uuid_text(#[trigger] eids[k]));
        assert(self@ == imported_config(old(self)@, pv, fids, eids, tids));
        r
    }
}

// ---------------------------------------------------------------------------
// Defaults
// ---------------------------------------------------------------------------

impl Default for SshConfig {
    /// No servers, folders or tunnels.
    fn default() -> (r: Self)
        ensures
            r@ == (ConfigView { folders: Seq::empty(), ungrouped: Seq::empty(), tunnels: Seq::empty() }),
    {
        let r = SshConfig { folders: Vec::new(), ungrouped: Vec::new(), tunnels: Vec::new() };
        assert(r@.folders =~= Seq::<FolderView>::empty());
        assert(r@.ungrouped =~= Seq::<EntryView>::empty());
        assert(r@.tunnels =~= Seq::<TunnelView>::empty());
        r
    }
}

// ---------------------------------------------------------------------------
// ~/.ssh/config import
// ---------------------------------------------------------------------------

/// A `Host` block read so far.
pub struct PartialView {
    pub alias: Seq<char>,
    pub hostname: Option<Seq<char>>,
    pub user: Option<Seq<char>>,
    pub port: Option<u16>,
    pub identity_file: Option<Seq<char>>,
    pub proxy_command: Option<Seq<char>>,
    pub proxy_jump: Option<Seq<char>>,
}

/// The state of reading an SSH config: the servers read, and the `Host`
/// block in progress.
pub struct ReadState {
    pub entries: Seq<EntryView>,
    pub current: Option<PartialView>,
}

/// The server a finished `Host` block describes: its id is `sshconfig_`
/// and the alias, the host defaults to the alias, the port to 22, the user
/// to `default_user`, and it signs in with a key.
pub open spec fn finished_entry(p: PartialView, default_user: Option<Seq<char>>) -> EntryView {
    EntryView {
        id: "sshconfig_"@ + p.alias,
        label: p.alias,
        host: match p.hostname {
            Some(h) => h,
            None => p.alias,
        },
        port: match p.port {
            Some(n) => n,
            None => 22,
        },
        user: match p.user {
            Some(u) => Some(u),
            None => default_user,
        },
        auth_method: Some("key"@),
        key_path: p.identity_file,
        vault_account_id: None,
        proxy_command: p.proxy_command,
        proxy_jump: p.proxy_jump,
    }
}

/// The servers read once the block in progress is finished.
pub open spec fn flushed(st: ReadState, default_user: Option<Seq<char>>) -> Seq<EntryView> {
    match st.current {
        Some(p) => st.entries.push(finished_entry(p, default_user)),
        None => st.entries,
    }
}

/// The position of the first whitespace character of `s`.
pub open spec fn first_ws(s: Seq<char>) -> Option<int>
    decreases s.len(),
{
    if s.len() == 0 {
        None
    } else if is_ws(s[0]) {
        Some(0)
    } else {
        match first_ws(s.drop_first()) {
            Some(i) => Some(i + 1),
            None => None,
        }
    }
}

/// A config line split at its first whitespace character into keyword and
/// the rest.
pub open spec fn keyword_split(s: Seq<char>) -> Option<(Seq<char>, Seq<char>)> {
    match first_ws(s) {
        Some(i) => Some((s.take(i), s.skip(i + 1))),
        None => None,
    }
}

/// The block in progress with one field set.
pub open spec fn set_field(cur: Option<PartialView>, key: Seq<char>, value: Seq<char>) -> Option<PartialView> {
    match cur {
        None => None,
        Some(p) => Some(
            if key == "hostname"@ {
                PartialView { hostname: Some(value), ..p }
            } else if key == "user"@ {
                PartialView { user: Some(value), ..p }
            } else if key == "port"@ {
                PartialView {
                    port: match parse_unsigned(value, u16::MAX as nat) {
                        Some(n) => Some(n as u16),
                        None => None,
                    },
                    ..p
                }
            } else if key == "identityfile"@ {
                PartialView { identity_file: Some(value), ..p }
            } else if key == "proxycommand"@ {
                PartialView { proxy_command: Some(value), ..p }
            } else if key == "proxyjump"@ {
                PartialView { proxy_jump: Some(value), ..p }
            } else {
                p
            },
        ),
    }
}

/// Whether `key` is a field of a `Host` block that the import keeps.
pub open spec fn is_entry_field(key: Seq<char>) -> bool {
    key == "hostname"@ || key == "user"@ || key == "port"@ || key == "identityfile"@ || key
        == "proxycommand"@ || key == "proxyjump"@
}

/// Reads one line of an SSH config. Blank lines, comments and lines without
/// a value are skipped; `Host` finishes the block in progress and starts one
/// (none for a pattern with `*` or `?`); `Match` finishes the block in
/// progress; the kept fields set the block in progress; other keywords are
/// ignored. Keywords are compared in lower case.
pub open spec fn read_line(st: ReadState, line: Seq<char>, default_user: Option<Seq<char>>) -> ReadState {
    let l = trim(line);
    if l.len() == 0 || l[0] == '#' {
        st
    } else {
        match keyword_split(l) {
            None => st,
            Some((k, v)) => {
                let key = unicode_lowercase(k);
                let value = trim(v);
                if key == "host"@ {
                    ReadState {
                        entries: flushed(st, default_user),
                        current: if has_char(value, '*') || has_char(value, '?') {
                            None
                        } else {
                            Some(
                                PartialView {
                                    alias: value,
                                    hostname: None,
                                    user: None,
                                    port: None,
                                    identity_file: None,
                                    proxy_command: None,
                                    proxy_jump: None,
                                },
                            )
                        },
                    }
                } else if key == "match"@ {
                    ReadState { entries: flushed(st, default_user), current: None }
                } else if is_entry_field(key) {
                    ReadState { entries: st.entries, current: set_field(st.current, key, value) }
                } else {
                    st
                }
            },
        }
    }
}

/// The state after reading `lines` in order.
pub open spec fn read_lines(st: ReadState, lines: Seq<Seq<char>>, default_user: Option<Seq<char>>) -> ReadState
    decreases lines.len(),
{
    if lines.len() == 0 {
        st
    } else {
        read_line(read_lines(st, lines.drop_last(), default_user), lines.last(), default_user)
    }
}

/// The servers an SSH config describes, one per `Host` block without
/// patterns, in order.
pub open spec fn ssh_config_entries(contents: Seq<char>, default_user: Option<Seq<char>>) -> Seq<EntryView> {
    flushed(
        read_lines(ReadState { entries: Seq::empty(), current: None }, lines(contents), default_user),
        default_user,
    )
}

/// Where the first whitespace of `k`, a space, `rest` falls when `k` holds
/// no whitespace.
proof fn lemma_first_ws_after_word(k: Seq<char>, rest: Seq<char>)
    requires
        forall|i: int| 0 <= i < k.len() ==> !is_ws(#[trigger] k[i]),
    ensures
        first_ws(k + seq![' '] + rest) == Some(k.len() as int),
    decreases k.len(),
{
    let s = k + seq![' '] + rest;
    if k.len() == 0 {
        assert(s[0] == ' ');
    } else {
        assert(s[0] == k[0]);
        assert(!is_ws(k[0]));
        assert forall|i: int| 0 <= i < k.drop_first().len() implies !is_ws(
            #[trigger] k.drop_first()[i],
        ) by {
            assert(k.drop_first()[i] == k[i + 1]);
        }
        lemma_first_ws_after_word(k.drop_first(), rest);
        assert(s.drop_first() =~= k.drop_first() + seq![' '] + rest);
    }
}

/// A text that starts and ends with a non-whitespace character is its own
/// trimmed form.
proof fn lemma_trim_keeps(s: Seq<char>)
    requires
        s.len() > 0,
        !is_ws(s[0]),
        !is_ws(s.last()),
    ensures
        trim(s) == s,
{
    assert(trim_start(s) == s);
    assert(trim_end(s) == s);
}

/// Inside a `Host` block, a line `<keyword> <value>` whose keyword is one
/// the import keeps puts the value into that field of the block's server:
/// `HostName` into the host, `User` into the user, `Port` into the port
/// (22 when it does not read as one), `IdentityFile` into the key path,
/// `ProxyCommand` and `ProxyJump` into theirs. The servers before the
/// block are left as they were.
pub proof fn block_fields_take_their_values(
    st: ReadState,
    keyword: Seq<char>,
    value: Seq<char>,
    default_user: Option<Seq<char>>,
)
    requires
        st.current is Some,
        keyword.len() > 0,
        keyword[0] != '#',
        forall|i: int| 0 <= i < keyword.len() ==> !is_ws(#[trigger] keyword[i]),
        value.len() > 0,
        !is_ws(value[0]),
        !is_ws(value.last()),
        ({
            let key = unicode_lowercase(keyword);
            ||| key == "hostname"@
            ||| key == "user"@
            ||| key == "port"@
            ||| key == "identityfile"@
            ||| key == "proxycommand"@
            ||| key == "proxyjump"@
        }),
    ensures
        ({
            let before = flushed(st, default_user);
            let after = flushed(read_line(st, keyword + seq![' '] + value, default_user), default_user);
            let server = after.last();
            let key = unicode_lowercase(keyword);
            &&& after.len() == before.len()
            &&& after.take(after.len() - 1) == before.take(before.len() - 1)
            &&& key == "hostname"@ ==> server.host == value
            &&& key == "user"@ ==> server.user == Some(value)
            &&& key == "port"@ ==> server.port == match parse_unsigned(value, u16::MAX as nat) {
                Some(n) => n as u16,
                None => 22u16,
            }
            &&& key == "identityfile"@ ==> server.key_path == Some(value)
            &&& key == "proxycommand"@ ==> server.proxy_command == Some(value)
            &&& key == "proxyjump"@ ==> server.proxy_jump == Some(value)
        }),
{
    reveal_strlit("host");
    reveal_strlit("match");
    reveal_strlit("hostname");
    reveal_strlit("user");
    reveal_strlit("port");
    reveal_strlit("identityfile");
    reveal_strlit("proxycommand");
    reveal_strlit("proxyjump");
    let line = keyword + seq![' '] + value;
    assert(line[0] == keyword[0]);
    assert(line.last() == value.last());
    lemma_trim_keeps(line);
    lemma_trim_keeps(value);
    lemma_first_ws_after_word(keyword, value);
    assert(line.take(keyword.len() as int) =~= keyword);
    assert(line.skip(keyword.len() as int + 1) =~= value);
    assert(keyword_split(line) == Some((keyword, value)));
    let key = unicode_lowercase(keyword);
    assert("hostname"@.len() != "host"@.len() && "hostname"@.len() != "match"@.len());
    assert("user"@[0] != "host"@[0] && "user"@.len() != "match"@.len());
    assert("port"@[0] != "host"@[0] && "port"@.len() != "match"@.len());
    assert("identityfile"@.len() != "host"@.len() && "identityfile"@.len() != "match"@.len());
    assert("proxycommand"@.len() != "host"@.len() && "proxycommand"@.len() != "match"@.len());
    assert("proxyjump"@.len() != "host"@.len() && "proxyjump"@.len() != "match"@.len());
    assert("user"@.len() != "hostname"@.len());
    assert("port"@[0] != "user"@[0] && "port"@.len() != "hostname"@.len());
    assert("identityfile"@.len() != "hostname"@.len() && "identityfile"@.len() != "user"@.len()
        && "identityfile"@.len() != "port"@.len());
    assert("proxycommand"@.len() != "hostname"@.len() && "proxycommand"@.len() != "user"@.len()
        && "proxycommand"@.len() != "port"@.len() && "proxycommand"@[0] != "identityfile"@[0]);
    assert("proxyjump"@.len() != "hostname"@.len() && "proxyjump"@.len() != "user"@.len()
        && "proxyjump"@.len() != "port"@.len() && "proxyjump"@.len() != "identityfile"@.len()
        && "proxyjump"@.len() != "proxycommand"@.len());
    assert(is_entry_field(key));
    assert(read_line(st, line, default_user).entries == st.entries);
    assert(read_line(st, line, default_user).current is Some);
    let after = flushed(read_line(st, line, default_user), default_user);
    let before = flushed(st, default_user);
    assert(after.take(after.len() - 1) =~= before.take(before.len() - 1));
}

struct PartialEntry {
    alias: String,
    hostname: Option<String>,
    user: Option<String>,
    port: Option<u16>,
    identity_file: Option<String>,
    proxy_command: Option<String>,
    proxy_jump: Option<String>,
}

impl View for PartialEntry {
    type V = PartialView;

    closed spec fn view(&self) -> PartialView {
        PartialView {
            alias: self.alias@,
            hostname: opt_text(self.hostname),
            user: opt_text(self.user),
            port: self.port,
            identity_file: opt_text(self.identity_file),
            proxy_command: opt_text(self.proxy_command),
            proxy_jump: opt_text(self.proxy_jump),
        }
    }
}

impl PartialEntry {
    fn into_server_entry(self, default_user: &Option<String>) -> (r: ServerEntry)
        ensures
            r@ == finished_entry(self@, opt_text(*default_user)),
    {
        let host = match &self.hostname {
            Some(h) => h.clone(),
            None => self.alias.clone(),
        };
        let user = match self.user {
            Some(u) => Some(u),
            None => copy_opt(default_user),
        };
        let mut id = "sshconfig_".to_owned();
        append_str(&mut id, self.alias.as_str());
        ServerEntry {
            id,
            label: self.alias,
            host,
            port: match self.port {
                Some(n) => n,
                None => 22,
            },
            user,
            auth_method: Some("key".to_owned()),
            key_path: self.identity_file,
            vault_account_id: None,
            proxy_command: self.proxy_command,
            proxy_jump: self.proxy_jump,
        }
    }
}

/// Splits a line at its first whitespace character.
fn keyword_split_chars(v: &[char]) -> (r: Option<(Vec<char>, Vec<char>)>)
    ensures
        match r {
            Some((a, b)) => keyword_split(v@) == Some((a@, b@)),
            None => keyword_split(v@) is None,
        },
{
    let mut i: usize = 0;
    assert(v@.skip(0) =~= v@);
    while i < v.len()
        invariant
            i <= v@.len(),
            forall|j: int| 0 <= j < i ==> !is_ws(v@[j]),
            first_ws(v@) == match first_ws(v@.skip(i as int)) {
                Some(k) => Some(k + i),
                None => None,
            },
        decreases v.len() - i,
    {
        assert(v@.skip(i as int).drop_first() =~= v@.skip(i + 1));
        if is_whitespace(v[i]) {
            let a = crate::text::sub_chars(v, 0, i);
            let b = crate::text::sub_chars(v, i + 1, v.len());
            assert(a@ =~= v@.take(i as int));
            assert(b@ =~= v@.skip(i + 1));
            return Some((a, b));
        }
        i += 1;
    }
    None
}

fn flush(entries: &mut Vec<ServerEntry>, current: Option<PartialEntry>, default_user: &Option<String>)
    ensures
        entry_views(final(entries)@) == flushed(
            ReadState {
                entries: entry_views(old(entries)@),
                current: match current {
                    Some(p) => Some(p@),
                    None => None,
                },
            },
            opt_text(*default_user),
        ),
{
    match current {
        Some(p) => {
            let e = p.into_server_entry(default_user);
            let ghost prev = entry_views(entries@);
            entries.push(e);
            assert(entry_views(entries@) =~= prev.push(e@));
        },
        None => {},
    }
}

/// Reads the servers of an SSH config file (`~/.ssh/config` syntax): one
/// per `Host` block without wildcards, with its host name, user, port,
/// identity file, proxy command and jump host; `default_user` stands in
/// for a block without `User`.
pub fn parse_ssh_config_str(contents: &str, default_user: Option<&str>) -> (r: Vec<ServerEntry>)
    ensures
        entry_views(r@) == ssh_config_entries(
            contents@,
            match default_user {
                Some(u) => Some(u@),
                None => None,
            },
        ),
{
    let du: Option<String> = match default_user {
        Some(u) => Some(u.to_owned()),
        None => None,
    };
    let ghost duv = opt_text(du);
    let text = str_chars(contents);
    let all_lines = lines_chars(text.as_slice());
    let ghost lv = all_lines@.map_values(|p: Vec<char>| p@);
    let mut entries: Vec<ServerEntry> = Vec::new();
    let mut current: Option<PartialEntry> = None;
    let mut i: usize = 0;
    assert(lv.take(0) =~= Seq::<Seq<char>>::empty());
    assert(entry_views(entries@) =~= Seq::<EntryView>::empty());
    while i < all_lines.len()
        invariant
            i <= all_lines@.len(),
            lv == all_lines@.map_values(|p: Vec<char>| p@),
            lv == lines(contents@),
            duv == opt_text(du),
            read_lines(ReadState { entries: Seq::empty(), current: None }, lv.take(i as int), duv)
                == (ReadState {
                entries: entry_views(entries@),
                current: match current {
                    Some(p) => Some(p@),
                    None => None,
                },
            }),
        decreases all_lines.len() - i,
    {
        assert(lv.take(i + 1).drop_last() =~= lv.take(i as int));
        assert(lv.take(i + 1).last() == all_lines@[i as int]@);
        let l = trim_chars(all_lines[i].as_slice());
        if l.len() == 0 || l[0] == '#' {
            i += 1;
            continue;
        }
        let (k, v) = match keyword_split_chars(l.as_slice()) {
            Some(x) => x,
            None => {
                i += 1;
                continue;
            },
        };
        let ks = crate::text::chars_to_string(k.as_slice());
        let lower = to_lowercase(ks.as_str());
        let key = str_chars(lower.as_str());
        let value = trim_chars(v.as_slice());
        let kk = key.as_slice();
        if chars_eq_str(kk, "host") {
            let prev = current;
            current = None;
            flush(&mut entries, prev, &du);
            if !(contains_char(value.as_slice(), '*') || contains_char(value.as_slice(), '?')) {
                current = Some(
                    PartialEntry {
                        alias: crate::text::chars_to_string(value.as_slice()),
                        hostname: None,
                        user: None,
                        port: None,
                        identity_file: None,
                        proxy_command: None,
                        proxy_jump: None,
                    },
                );
            }
        } else if chars_eq_str(kk, "match") {
            let prev = current;
            current = None;
            flush(&mut entries, prev, &du);
        } else if chars_eq_str(kk, "hostname") || chars_eq_str(kk, "user") || chars_eq_str(kk, "port")
            || chars_eq_str(kk, "identityfile") || chars_eq_str(kk, "proxycommand") || chars_eq_str(
            kk,
            "proxyjump",
        ) {
            match current {
                Some(mut p) => {
                    let vs = crate::text::chars_to_string(value.as_slice());
                    if chars_eq_str(kk, "hostname") {
                        p.hostname = Some(vs);
                    } else if chars_eq_str(kk, "user") {
                        p.user = Some(vs);
                    } else if chars_eq_str(kk, "port") {
                        p.port = parse_u16_chars(value.as_slice());
                    } else if chars_eq_str(kk, "identityfile") {
                        p.identity_file = Some(vs);
                    } else if chars_eq_str(kk, "proxycommand") {
                        p.proxy_command = Some(vs);
                    } else {
                        p.proxy_jump = Some(vs);
                    }
                    current = Some(p);
                },
                None => {
                    current = None;
                },
            }
        }
        i += 1;
    }
    assert(lv.take(lv.len() as int) =~= lv);
    let prev = current;
    flush(&mut entries, prev, &du);
    entries
}

} // verus!
