//! The decisions of an SSH connection: the proxy command to run, how the
//! user is authenticated, and what the user is asked for.
use vstd::prelude::*;
use crate::ssh_config::opt_text;
use crate::text::{
    append_chars, append_str, chars_eq_str, chars_to_string, decimal, push_char, starts_with, starts_with_str,
    str_chars, sub_chars, u64_to_decimal,
};

verus! {

// ---------------------------------------------------------------------------
// Proxies
// ---------------------------------------------------------------------------

/// The proxy command a server is reached through: its own proxy command, or
/// `ssh -W %h:%p <jump>` for a jump host, or none.
pub open spec fn effective_proxy_text(proxy_command: Option<Seq<char>>, proxy_jump: Option<Seq<char>>) -> Option<Seq<char>> {
    match proxy_command {
        Some(c) => Some(c),
        None => match proxy_jump {
            Some(j) => Some("ssh -W %h:%p "@ + j),
            None => None,
        },
    }
}

/// Picks the proxy command of a server: its proxy command, else a jump
/// through `proxy_jump`.
pub fn effective_proxy(proxy_command: &Option<String>, proxy_jump: &Option<String>) -> (r: Option<String>)
    ensures
        opt_text(r) == effective_proxy_text(opt_text(*proxy_command), opt_text(*proxy_jump)),
{
    match proxy_command {
        Some(c) => Some(c.clone()),
        None => match proxy_jump {
            Some(j) => {
                let mut s = "ssh -W %h:%p ".to_owned();
                append_str(&mut s, j.as_str());
                Some(s)
            },
            None => None,
        },
    }
}

/// `s` with each occurrence of the two-character marker `%m` replaced by
/// `with`, scanning left to right (std `str::replace`).
pub open spec fn replace_marker(s: Seq<char>, m: char, with: Seq<char>) -> Seq<char>
    decreases s.len(),
{
    if s.len() == 0 {
        s
    } else if s.len() >= 2 && s[0] == '%' && s[1] == m {
        with + replace_marker(s.skip(2), m, with)
    } else {
        seq![s[0]] + replace_marker(s.drop_first(), m, with)
    }
}

/// The command a proxy command runs for `host` and `port`: `%h` replaced
/// by the host, then `%p` by the port.
pub open spec fn expanded_proxy(cmd: Seq<char>, host: Seq<char>, port: u16) -> Seq<char> {
    replace_marker(replace_marker(cmd, 'h', host), 'p', decimal(port as nat))
}

fn replace_marker_chars(v: &[char], m: char, with: &[char]) -> (r: Vec<char>)
    ensures
        r@ == replace_marker(v@, m, with@),
{
    let mut out: Vec<char> = Vec::new();
    let mut i: usize = 0;
    assert(v@.skip(0) =~= v@);
    while i < v.len()
        invariant
            i <= v@.len(),
            out@ + replace_marker(v@.skip(i as int), m, with@) == replace_marker(v@, m, with@),
        decreases v.len() - i,
    {
        let ghost rest = v@.skip(i as int);
        if i + 1 < v.len() && v[i] == '%' && v[i + 1] == m {
            let mut k: usize = 0;
            let ghost before = out@;
            while k < with.len()
                invariant
                    k <= with@.len(),
                    out@ == before + with@.take(k as int),
                decreases with.len() - k,
            {
                out.push(with[k]);
                k += 1;
                assert(out@ =~= before + with@.take(k as int));
            }
            assert(with@.take(with@.len() as int) =~= with@);
            assert(rest.skip(2) =~= v@.skip(i + 2));
            assert(before + (with@ + replace_marker(v@.skip(i + 2), m, with@)) =~= out@
                + replace_marker(v@.skip(i + 2), m, with@));
            i += 2;
        } else {
            let ghost before = out@;
            out.push(v[i]);
            assert(rest.drop_first() =~= v@.skip(i + 1));
            assert(before + (seq![v@[i as int]] + replace_marker(v@.skip(i + 1), m, with@)) =~= out@
                + replace_marker(v@.skip(i + 1), m, with@));
            i += 1;
        }
    }
    assert(v@.skip(v@.len() as int) =~= Seq::<char>::empty());
    assert(out@ + Seq::<char>::empty() =~= out@);
    out
}

/// The command line a proxy command runs: `%h` replaced by the host, then
/// `%p` by the port.
pub fn expand_proxy_command(cmd: &str, host: &str, port: u16) -> (r: String)
    ensures
        r@ == expanded_proxy(cmd@, host@, port),
{
    let c = str_chars(cmd);
    let h = str_chars(host);
    let with_host = replace_marker_chars(c.as_slice(), 'h', h.as_slice());
    let p = u64_to_decimal(port as u64);
    let done = replace_marker_chars(with_host.as_slice(), 'p', p.as_slice());
    crate::text::chars_to_string(done.as_slice())
}

/// What a direct SSH connection is made with.
pub struct ConnectParams {
    pub host: String,
    pub port: u16,
    pub user: String,
    pub identity_file: Option<std::path::PathBuf>,
    pub password: Option<String>,
    pub proxy_command: Option<String>,
    pub proxy_jump: Option<String>,
}

/// The proxy command of a direct connection: its own proxy command, or a
/// non-interactive `ssh -o BatchMode=yes -W %h:%p <jump>` for a jump host,
/// or none (a plain TCP connection).
pub open spec fn batch_proxy_text(proxy_command: Option<Seq<char>>, proxy_jump: Option<Seq<char>>) -> Option<Seq<char>> {
    match proxy_command {
        Some(c) => Some(c),
        None => match proxy_jump {
            Some(j) => Some("ssh -o BatchMode=yes -W %h:%p "@ + j),
            None => None,
        },
    }
}

impl ConnectParams {
    /// Picks the proxy command the connection goes through, if any; the
    /// jump host is reached by an ssh that never prompts.
    pub fn effective_proxy(&self) -> (r: Option<String>)
        ensures
            opt_text(r) == batch_proxy_text(opt_text(self.proxy_command), opt_text(self.proxy_jump)),
    {
        match &self.proxy_command {
            Some(c) => Some(c.clone()),
            None => match &self.proxy_jump {
                Some(j) => {
                    let mut s = "ssh -o BatchMode=yes -W %h:%p ".to_owned();
                    append_str(&mut s, j.as_str());
                    Some(s)
                },
                None => None,
            },
        }
    }
}

// ---------------------------------------------------------------------------
// Authentication
// ---------------------------------------------------------------------------

/// How a connection authenticates.
#[derive(Debug, Clone, Copy, PartialEq, Eq, Structural)]
pub enum AuthPlan {
    /// A password only.
    Password,
    /// A key, and then a password when the key is accepted.
    KeyThenPassword,
    /// A key only.
    Key,
}

/// The plan for a sign-in method: `password`, `key_and_password`, and
/// anything else a key.
pub open spec fn plan_of(auth_method: Seq<char>) -> AuthPlan {
    if auth_method == "password"@ {
        AuthPlan::Password
    } else if auth_method == "key_and_password"@ {
        AuthPlan::KeyThenPassword
    } else {
        AuthPlan::Key
    }
}

/// Chooses how to authenticate for a sign-in method.
pub fn auth_plan(auth_method: &str) -> (r: AuthPlan)
    ensures
        r == plan_of(auth_method@),
{
    let v = str_chars(auth_method);
    if crate::text::chars_eq_str(v.as_slice(), "password") {
        AuthPlan::Password
    } else if crate::text::chars_eq_str(v.as_slice(), "key_and_password") {
        AuthPlan::KeyThenPassword
    } else {
        AuthPlan::Key
    }
}

/// The stored password to use, if any: an empty one (a placeholder left by
/// migration) counts as none, and the user is asked instead.
pub fn usable_password(password: &Option<String>) -> (r: Option<String>)
    ensures
        opt_text(r) == match opt_text(*password) {
            Some(p) => if p.len() > 0 {
                Some(p)
            } else {
                None
            },
            None => None,
        },
{
    match password {
        Some(p) => {
            if p.as_str().is_empty() {
                None
            } else {
                Some(p.clone())
            }
        },
        None => None,
    }
}

/// One sign-in attempt.
#[derive(Debug, Clone, Copy, PartialEq, Eq, Structural)]
pub enum AuthAttempt {
    /// Public-key authentication with the configured or default keys.
    Key,
    /// Password authentication.
    Password,
}

/// The next sign-in attempt after `last` (the previous attempt and whether
/// it succeeded), or none when signing in is over; the outcome of the last
/// attempt made is then the outcome of signing in. A password plan tries a
/// password, any other plan a key first. With `key_and_password`, an
/// interactive session tries the password after an accepted key (servers
/// that ask for both), while a tunnel tries it after a refused key (a
/// fallback).
pub open spec fn next_attempt(plan: AuthPlan, for_tunnel: bool, last: Option<(AuthAttempt, bool)>) -> Option<AuthAttempt> {
    match last {
        None => match plan {
            AuthPlan::Password => Some(AuthAttempt::Password),
            _ => Some(AuthAttempt::Key),
        },
        Some((AuthAttempt::Key, ok)) => match plan {
            AuthPlan::KeyThenPassword => if (!for_tunnel && ok) || (for_tunnel && !ok) {
                Some(AuthAttempt::Password)
            } else {
                None
            },
            _ => None,
        },
        Some((AuthAttempt::Password, _)) => None,
    }
}

/// Decides the next sign-in attempt (see `next_attempt`).
pub fn next_auth_attempt(plan: AuthPlan, for_tunnel: bool, last: Option<(AuthAttempt, bool)>) -> (r: Option<AuthAttempt>)
    ensures
        r == next_attempt(plan, for_tunnel, last),
{
    match last {
        None => match plan {
            AuthPlan::Password => Some(AuthAttempt::Password),
            _ => Some(AuthAttempt::Key),
        },
        Some((AuthAttempt::Key, ok)) => match plan {
            AuthPlan::KeyThenPassword => {
                if (!for_tunnel && ok) || (for_tunnel && !ok) {
                    Some(AuthAttempt::Password)
                } else {
                    None
                }
            },
            _ => None,
        },
        Some((AuthAttempt::Password, _)) => None,
    }
}

/// The question a tunnel asks for a password: `Password for
/// <user>@<host>:<port>`.
pub fn tunnel_password_prompt(username: &str, host: &str, port: u16) -> (r: String)
    ensures
        r@ == "Password for "@ + username@ + seq!['@'] + host@ + seq![':'] + decimal(port as nat),
{
    let mut s = "Password for ".to_owned();
    append_str(&mut s, username);
    push_char(&mut s, '@');
    append_str(&mut s, host);
    push_char(&mut s, ':');
    let d = u64_to_decimal(port as u64);
    append_chars(&mut s, d.as_slice());
    s
}

/// The question asked for a password: `Password for <user>@<host>`.
pub fn password_prompt(username: &str, host: &str) -> (r: String)
    ensures
        r@ == "Password for "@ + username@ + seq!['@'] + host@,
{
    let mut s = "Password for ".to_owned();
    append_str(&mut s, username);
    push_char(&mut s, '@');
    append_str(&mut s, host);
    s
}

// ---------------------------------------------------------------------------
// Vault accounts and key paths
// ---------------------------------------------------------------------------

/// How a vault account signs in.
pub enum VaultAuthMethod {
    Password(String),
    Key { path: String, passphrase: Option<String> },
    KeyAndPassword { key_path: String, passphrase: Option<String>, password: String },
}

/// A vault sign-in method as plain values.
pub enum VaultAuthView {
    Password(Seq<char>),
    Key { path: Seq<char>, passphrase: Option<Seq<char>> },
    KeyAndPassword { key_path: Seq<char>, passphrase: Option<Seq<char>>, password: Seq<char> },
}

impl View for VaultAuthMethod {
    type V = VaultAuthView;

    open spec fn view(&self) -> VaultAuthView {
        match self {
            VaultAuthMethod::Password(p) => VaultAuthView::Password(p@),
            VaultAuthMethod::Key { path, passphrase } => VaultAuthView::Key {
                path: path@,
                passphrase: opt_text(*passphrase),
            },
            VaultAuthMethod::KeyAndPassword { key_path, passphrase, password } => VaultAuthView::KeyAndPassword {
                key_path: key_path@,
                passphrase: opt_text(*passphrase),
                password: password@,
            },
        }
    }
}

/// The text of an optional string slice, empty when absent.
pub open spec fn text_or_empty(o: Option<Seq<char>>) -> Seq<char> {
    match o {
        Some(t) => t,
        None => Seq::empty(),
    }
}

/// The sign-in method an account form describes: `password` (an absent
/// password counts as empty), `key` (a key path is required),
/// `key_and_password` (a key path is required); any other type is an
/// error naming it.
pub open spec fn parsed_auth_method(
    auth_type: Seq<char>,
    password: Option<Seq<char>>,
    key_path: Option<Seq<char>>,
    passphrase: Option<Seq<char>>,
) -> Result<VaultAuthView, Seq<char>> {
    if auth_type == "password"@ {
        Ok(VaultAuthView::Password(text_or_empty(password)))
    } else if auth_type == "key"@ {
        match key_path {
            Some(k) => Ok(VaultAuthView::Key { path: k, passphrase: passphrase }),
            None => Err("key_path required for key auth"@),
        }
    } else if auth_type == "key_and_password"@ {
        match key_path {
            Some(k) => Ok(
                VaultAuthView::KeyAndPassword {
                    key_path: k,
                    passphrase: passphrase,
                    password: text_or_empty(password),
                },
            ),
            None => Err("key_path required"@),
        }
    } else {
        Err("unknown auth type: "@ + auth_type)
    }
}

/// What an account form's fields become: a password sign-in keeps the
/// typed password exactly, a key sign-in keeps the key path and its
/// passphrase, and a key-and-password sign-in keeps all three, whatever
/// else the form holds.
pub proof fn auth_method_keeps_what_was_typed(
    password: Seq<char>,
    key_path: Seq<char>,
    passphrase: Option<Seq<char>>,
    other_key: Option<Seq<char>>,
    other_password: Option<Seq<char>>,
)
    ensures
        parsed_auth_method("password"@, Some(password), other_key, passphrase) == Ok::<
            VaultAuthView,
            Seq<char>,
        >(VaultAuthView::Password(password)),
        parsed_auth_method("key"@, other_password, Some(key_path), passphrase) == Ok::<
            VaultAuthView,
            Seq<char>,
        >(VaultAuthView::Key { path: key_path, passphrase }),
        parsed_auth_method("key_and_password"@, Some(password), Some(key_path), passphrase) == Ok::<
            VaultAuthView,
            Seq<char>,
        >(VaultAuthView::KeyAndPassword { key_path, passphrase, password }),
{
    reveal_strlit("password");
    reveal_strlit("key");
    reveal_strlit("key_and_password");
    assert("key"@.len() != "password"@.len());
    assert("key_and_password"@.len() != "password"@.len());
    assert("key_and_password"@.len() != "key"@.len());
}

/// The view of an optional string slice.
pub open spec fn str_opt(o: Option<&str>) -> Option<Seq<char>> {
    match o {
        Some(t) => Some(t@),
        None => None,
    }
}

fn owned_opt(o: Option<&str>) -> (r: Option<String>)
    ensures
        opt_text(r) == str_opt(o),
{
    match o {
        Some(t) => Some(t.to_owned()),
        None => None,
    }
}

fn owned_or_empty(o: Option<&str>) -> (r: String)
    ensures
        r@ == text_or_empty(str_opt(o)),
{
    match o {
        Some(t) => t.to_owned(),
        None => String::new(),
    }
}

/// Reads the sign-in method of an account form (see `parsed_auth_method`).
pub fn parse_auth_method(
    auth_type: &str,
    password: Option<&str>,
    key_path: Option<&str>,
    passphrase: Option<&str>,
) -> (r: Result<VaultAuthMethod, String>)
    ensures
        match r {
            Ok(m) => parsed_auth_method(auth_type@, str_opt(password), str_opt(key_path), str_opt(passphrase))
                == Ok::<VaultAuthView, Seq<char>>(m@),
            Err(e) => parsed_auth_method(auth_type@, str_opt(password), str_opt(key_path), str_opt(passphrase))
                == Err::<VaultAuthView, Seq<char>>(e@),
        },
{
    let t = str_chars(auth_type);
    if chars_eq_str(t.as_slice(), "password") {
        Ok(VaultAuthMethod::Password(owned_or_empty(password)))
    } else if chars_eq_str(t.as_slice(), "key") {
        match key_path {
            Some(k) => Ok(VaultAuthMethod::Key { path: k.to_owned(), passphrase: owned_opt(passphrase) }),
            None => Err("key_path required for key auth".to_owned()),
        }
    } else if chars_eq_str(t.as_slice(), "key_and_password") {
        match key_path {
            Some(k) => Ok(
                VaultAuthMethod::KeyAndPassword {
                    key_path: k.to_owned(),
                    passphrase: owned_opt(passphrase),
                    password: owned_or_empty(password),
                },
            ),
            None => Err("key_path required".to_owned()),
        }
    } else {
        let mut e = "unknown auth type: ".to_owned();
        append_str(&mut e, auth_type);
        Err(e)
    }
}

/// How a path with a leading `~` is read: `~` alone is the home directory,
/// `~/rest` is `rest` under it, anything else is taken as it is.
pub enum TildePath {
    Home,
    UnderHome(String),
    AsIs,
}

/// A read path as plain values.
pub enum TildeView {
    Home,
    UnderHome(Seq<char>),
    AsIs,
}

impl View for TildePath {
    type V = TildeView;

    open spec fn view(&self) -> TildeView {
        match self {
            TildePath::Home => TildeView::Home,
            TildePath::UnderHome(rest) => TildeView::UnderHome(rest@),
            TildePath::AsIs => TildeView::AsIs,
        }
    }
}

/// What a path says about the home directory (see `TildePath`).
pub open spec fn tilde_form(p: Seq<char>) -> TildeView {
    if p == seq!['~'] {
        TildeView::Home
    } else if starts_with(p, seq!['~', '/']) {
        TildeView::UnderHome(p.skip(2))
    } else {
        TildeView::AsIs
    }
}

/// Reads the leading `~` of a path; the caller joins the rest to the home
/// directory.
pub fn tilde_path(path: &str) -> (r: TildePath)
    ensures
        r@ == tilde_form(path@),
{
    let v = str_chars(path);
    proof {
        reveal_strlit("~");
        reveal_strlit("~/");
    }
    assert("~"@ =~= seq!['~']);
    assert("~/"@ =~= seq!['~', '/']);
    if chars_eq_str(v.as_slice(), "~") {
        TildePath::Home
    } else if starts_with_str(v.as_slice(), "~/") {
        let rest = sub_chars(v.as_slice(), 2, v.len());
        assert(rest@ =~= path@.skip(2));
        TildePath::UnderHome(chars_to_string(rest.as_slice()))
    } else {
        TildePath::AsIs
    }
}

} // verus!
