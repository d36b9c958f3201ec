//! Command lines for rsync transfers over SSH, and what the probes of the
//! local and remote rsync report.
use vstd::prelude::*;
use crate::text::{
    append_chars, append_str, contains_str, decimal, first_word, first_word_chars,
    has_substring, lemma_first_word_shrinks, parse_u64_chars, parse_unsigned, push_char,
    str_chars, trim, trim_chars, u64_to_decimal,
};

verus! {

/// SSH connection metadata needed for rsync transport.
#[derive(Debug, Clone)]
pub struct SshConnectInfo {
    pub host: String,
    pub port: u16,
    pub user: String,
    /// The text of the private key's path, if one is used.
    pub identity_file: Option<String>,
}

/// Result of checking rsync on one side (local or remote).
#[derive(Debug, Clone, Copy)]
pub struct RsyncCheck {
    /// rsync binary is available.
    pub available: bool,
    /// rsync supports zstd compression (3.2.3+).
    pub has_zstd: bool,
}

// ---------------------------------------------------------------------------
// Shell quoting
// ---------------------------------------------------------------------------

/// `s` with each single quote replaced by `'\''`.
pub open spec fn escape_quotes(s: Seq<char>) -> Seq<char>
    decreases s.len(),
{
    if s.len() == 0 {
        seq![]
    } else if s.last() == '\'' {
        escape_quotes(s.drop_last()) + seq!['\'', '\\', '\'', '\'']
    } else {
        escape_quotes(s.drop_last()).push(s.last())
    }
}

/// `s` in single quotes, safe to embed in a POSIX shell command.
pub open spec fn shell_quoted(s: Seq<char>) -> Seq<char> {
    seq!['\''] + escape_quotes(s) + seq!['\'']
}

/// Shell-quotes a string: single quotes around it, with each embedded single
/// quote written as `'\''`.
pub fn shell_quote(s: &str) -> (r: String)
    ensures
        r@ == shell_quoted(s@),
{
    let v = str_chars(s);
    let mut out = String::new();
    push_char(&mut out, '\'');
    let mut i: usize = 0;
    while i < v.len()
        invariant
            i <= v@.len(),
            v@ == s@,
            out@ == seq!['\''] + escape_quotes(v@.take(i as int)),
        decreases v.len() - i,
    {
        assert(v@.take(i + 1).drop_last() =~= v@.take(i as int));
        if v[i] == '\'' {
            push_char(&mut out, '\'');
            push_char(&mut out, '\\');
            push_char(&mut out, '\'');
            push_char(&mut out, '\'');
        } else {
            push_char(&mut out, v[i]);
        }
        i += 1;
        assert(out@ =~= seq!['\''] + escape_quotes(v@.take(i as int)));
    }
    assert(v@.take(v@.len() as int) =~= v@);
    push_char(&mut out, '\'');
    out
}

// ---------------------------------------------------------------------------
// Command lines
// ---------------------------------------------------------------------------

/// The `-e` command rsync uses to reach the host: `ssh`, the port when it is
/// not 22, the key when there is one, and options that skip host-key
/// checking and prompting (rsync opens a connection of its own).
pub open spec fn ssh_cmd_text(info: SshConnectInfo) -> Seq<char> {
    "ssh"@ + port_option_text(info.port) + key_option_text(info.identity_file)
        + " -o StrictHostKeyChecking=no -o UserKnownHostsFile=/dev/null -o BatchMode=yes"@
}

/// ` -p <port>` for a port other than 22, else nothing.
pub open spec fn port_option_text(port: u16) -> Seq<char> {
    if port != 22 {
        " -p "@ + decimal(port as nat)
    } else {
        seq![]
    }
}

/// ` -i '<key>'` when a key is given, else nothing.
pub open spec fn key_option_text(identity_file: Option<String>) -> Seq<char> {
    match identity_file {
        Some(k) => " -i "@ + shell_quoted(k@),
        None => seq![],
    }
}

/// Builds the SSH command string for rsync's `-e` flag.
pub fn build_ssh_cmd(info: &SshConnectInfo) -> (r: String)
    ensures
        r@ == ssh_cmd_text(*info),
{
    let mut s = "ssh".to_owned();
    let ghost s0 = s@;
    if info.port != 22 {
        append_str(&mut s, " -p ");
        let d = u64_to_decimal(info.port as u64);
        append_chars(&mut s, d.as_slice());
    }
    let ghost s1 = s@;
    match &info.identity_file {
        Some(k) => {
            append_str(&mut s, " -i ");
            let q = shell_quote(k.as_str());
            append_str(&mut s, q.as_str());
        },
        None => {},
    }
    let ghost s2 = s@;
    append_str(&mut s, " -o StrictHostKeyChecking=no -o UserKnownHostsFile=/dev/null -o BatchMode=yes");
    proof {
        assert(s1 =~= "ssh"@ + port_option_text(info.port));
        assert(s2 =~= "ssh"@ + port_option_text(info.port) + key_option_text(info.identity_file));
    }
    s
}

/// rsync's compression options: zstd at level 19 when both sides support
/// it, else zlib at level 9.
pub open spec fn compression_texts(use_zstd: bool) -> Seq<Seq<char>> {
    if use_zstd {
        seq!["--zc=zstd"@, "--compress-level=19"@]
    } else {
        seq!["-z"@, "--compress-level=9"@]
    }
}

/// Builds the compression arguments for rsync.
pub fn compression_args(use_zstd: bool) -> (r: Vec<&'static str>)
    ensures
        r@.map_values(|a: &str| a@) == compression_texts(use_zstd),
{
    let r = if use_zstd {
        vec!["--zc=zstd", "--compress-level=19"]
    } else {
        vec!["-z", "--compress-level=9"]
    };
    assert(r@.map_values(|a: &str| a@) =~= compression_texts(use_zstd));
    r
}

/// `user@host:path`, the remote side of an rsync transfer.
pub open spec fn remote_location(info: SshConnectInfo, path: Seq<char>) -> Seq<char> {
    info.user@ + seq!['@'] + info.host@ + seq![':'] + path
}

/// The arguments of an rsync run copying `src` to `dst`.
pub open spec fn rsync_args(info: SshConnectInfo, src: Seq<char>, dst: Seq<char>, use_zstd: bool) -> Seq<Seq<char>> {
    seq![
        "-r"@,
        "--times"@,
        "--perms"@,
        "--info=progress2"@,
        "--no-human-readable"@,
        "-e"@,
        ssh_cmd_text(info),
    ] + compression_texts(use_zstd) + seq![src, dst]
}

fn remote_location_string(info: &SshConnectInfo, path: &str) -> (r: String)
    ensures
        r@ == remote_location(*info, path@),
{
    let mut s = info.user.clone();
    push_char(&mut s, '@');
    append_str(&mut s, info.host.as_str());
    push_char(&mut s, ':');
    append_str(&mut s, path);
    s
}

fn rsync_arg_list(info: &SshConnectInfo, src: String, dst: String, use_zstd: bool) -> (r: Vec<String>)
    ensures
        r@.map_values(|a: String| a@) == rsync_args(*info, src@, dst@, use_zstd),
{
    let mut args: Vec<String> = Vec::new();
    args.push("-r".to_owned());
    args.push("--times".to_owned());
    args.push("--perms".to_owned());
    args.push("--info=progress2".to_owned());
    args.push("--no-human-readable".to_owned());
    args.push("-e".to_owned());
    args.push(build_ssh_cmd(info));
    let comp = compression_args(use_zstd);
    assert(comp@.map_values(|a: &str| a@) == compression_texts(use_zstd));
    args.push(comp[0].to_owned());
    args.push(comp[1].to_owned());
    args.push(src);
    args.push(dst);
    assert(args@.map_values(|a: String| a@) =~= rsync_args(*info, src@, dst@, use_zstd)) by {
        assert(comp@.map_values(|a: &str| a@)[0] == comp@[0]@);
        assert(comp@.map_values(|a: &str| a@)[1] == comp@[1]@);
    }
    args
}

/// The rsync arguments that upload `local_path` to `remote_path` on the
/// host of `info`.
pub fn rsync_upload_args(info: &SshConnectInfo, local_path: &str, remote_path: &str, use_zstd: bool) -> (r: Vec<String>)
    ensures
        r@.map_values(|a: String| a@) == rsync_args(
            *info,
            local_path@,
            remote_location(*info, remote_path@),
            use_zstd,
        ),
{
    let remote = remote_location_string(info, remote_path);
    rsync_arg_list(info, local_path.to_owned(), remote, use_zstd)
}

/// The rsync arguments that download `remote_path` on the host of `info` to
/// `local_path`.
pub fn rsync_download_args(info: &SshConnectInfo, remote_path: &str, local_path: &str, use_zstd: bool) -> (r: Vec<String>)
    ensures
        r@.map_values(|a: String| a@) == rsync_args(
            *info,
            remote_location(*info, remote_path@),
            local_path@,
            use_zstd,
        ),
{
    let remote = remote_location_string(info, remote_path);
    rsync_arg_list(info, remote, local_path.to_owned(), use_zstd)
}

// ---------------------------------------------------------------------------
// Probes
// ---------------------------------------------------------------------------

/// What `rsync --version` run locally tells: rsync is there when the command
/// succeeded, and supports zstd when its output mentions it.
pub fn local_rsync_check(succeeded: bool, version_output: &str) -> (r: RsyncCheck)
    ensures
        r.available == succeeded,
        r.has_zstd == (succeeded && has_substring(version_output@, "zstd"@)),
{
    if succeeded {
        let v = str_chars(version_output);
        RsyncCheck { available: true, has_zstd: contains_str(v.as_slice(), "zstd") }
    } else {
        RsyncCheck { available: false, has_zstd: false }
    }
}

/// What `rsync --version` run on the remote tells, from the command's output
/// (`None` when the command failed): rsync is there when the output is not
/// blank, and supports zstd when its output mentions it.
pub fn remote_rsync_check(output: Option<&str>) -> (r: RsyncCheck)
    ensures
        r.available == (output is Some && trim(output->0@).len() > 0),
        r.has_zstd == (r.available && has_substring(output->0@, "zstd"@)),
{
    match output {
        Some(out) => {
            let v = str_chars(out);
            let t = trim_chars(v.as_slice());
            if t.len() > 0 {
                RsyncCheck { available: true, has_zstd: contains_str(v.as_slice(), "zstd") }
            } else {
                RsyncCheck { available: false, has_zstd: false }
            }
        },
        None => RsyncCheck { available: false, has_zstd: false },
    }
}

/// `s` without its commas.
pub open spec fn without_commas(s: Seq<char>) -> Seq<char>
    decreases s.len(),
{
    if s.len() == 0 {
        Seq::empty()
    } else if s.last() == ',' {
        without_commas(s.drop_last())
    } else {
        without_commas(s.drop_last()).push(s.last())
    }
}

/// The byte count of an rsync `--info=progress2 --no-human-readable`
/// progress line: the first whitespace-separated field that, without its
/// thousands separators, reads as a `u64`.
pub open spec fn progress_bytes(line: Seq<char>) -> Option<nat>
    decreases line.len(),
{
    match first_word(line) {
        None => None,
        Some((w, rest)) => match parse_unsigned(without_commas(w), u64::MAX as nat) {
            Some(n) => Some(n),
            None => {
                proof {
                    lemma_first_word_shrinks(line);
                }
                progress_bytes(rest)
            },
        },
    }
}

/// Removes the commas of `v`.
fn strip_commas(v: &[char]) -> (r: Vec<char>)
    ensures
        r@ == without_commas(v@),
{
    let mut r: Vec<char> = Vec::new();
    let mut i: usize = 0;
    while i < v.len()
        invariant
            i <= v@.len(),
            r@ == without_commas(v@.take(i as int)),
        decreases v.len() - i,
    {
        assert(v@.take(i + 1).drop_last() =~= v@.take(i as int));
        if v[i] != ',' {
            r.push(v[i]);
        }
        i += 1;
    }
    assert(v@.take(v@.len() as int) =~= v@);
    r
}

/// Reads the number of bytes transferred from an rsync progress line such
/// as `"    1,234,567  45%   12.34MB/s    0:00:03"`.
pub fn progress_bytes_transferred(line: &str) -> (r: Option<u64>)
    ensures
        match r {
            Some(n) => progress_bytes(line@) == Some(n as nat),
            None => progress_bytes(line@) is None,
        },
{
    let mut rest = str_chars(line);
    loop
        invariant
            progress_bytes(rest@) == progress_bytes(line@),
        decreases rest@.len(),
    {
        match first_word_chars(rest.as_slice()) {
            None => {
                return None;
            },
            Some((w, after)) => {
                proof {
                    lemma_first_word_shrinks(rest@);
                }
                let c = strip_commas(w.as_slice());
                match parse_u64_chars(c.as_slice()) {
                    Some(n) => {
                        return Some(n);
                    },
                    None => {},
                }
                rest = after;
            },
        }
    }
}

} // verus!
