//! Which shell a local terminal runs: the configured program, or the
//! user's login shell.
use vstd::prelude::*;
use crate::text::{chars_to_string, str_chars, trim, trim_chars};

verus! {

/// The configured shell of local terminals: a program and its arguments.
/// An empty program means the user's default shell.
pub struct TerminalShell {
    pub program: String,
    pub args: Vec<String>,
}

impl Default for TerminalShell {
    fn default() -> (r: Self)
        ensures
            r.program@ == Seq::<char>::empty(),
            r.args@.len() == 0,
    {
        TerminalShell { program: String::new(), args: Vec::new() }
    }
}

/// The program and arguments a terminal is started with: the trimmed
/// configured program and its arguments, or no program (and no arguments)
/// when the trimmed program is empty, so that the default shell is used.
pub fn resolved_shell(shell: &TerminalShell) -> (r: (Option<String>, &[String]))
    ensures
        trim(shell.program@).len() == 0 ==> r.0 is None && r.1@.len() == 0,
        trim(shell.program@).len() > 0 ==> (r.0 matches Some(p) && p@ == trim(shell.program@))
            && r.1@ == shell.args@,
{
    let v = str_chars(shell.program.as_str());
    let t = trim_chars(v.as_slice());
    if t.len() == 0 {
        let none: &[String] = &[];
        (None, none)
    } else {
        (Some(chars_to_string(t.as_slice())), shell.args.as_slice())
    }
}

/// The default shell: the login shell of the user's account, trimmed, when
/// that is not empty; else the `SHELL` variable when it is not empty; else
/// `/bin/bash`. It is never empty.
pub open spec fn default_shell_text(login_shell: Option<Seq<char>>, shell_var: Option<Seq<char>>) -> Seq<char> {
    match login_shell {
        Some(s) if trim(s).len() > 0 => trim(s),
        _ => match shell_var {
            Some(v) if v.len() > 0 => v,
            _ => "/bin/bash"@,
        },
    }
}

/// Chooses the default shell from the account's login shell (as read from
/// the password database) and the `SHELL` variable, each if present.
pub fn default_shell_choice(login_shell: Option<String>, shell_var: Option<String>) -> (r: String)
    ensures
        r@ == default_shell_text(
            match login_shell {
                Some(s) => Some(s@),
                None => None,
            },
            match shell_var {
                Some(v) => Some(v@),
                None => None,
            },
        ),
        r@.len() > 0,
{
    if let Some(s) = login_shell {
        let v = str_chars(s.as_str());
        let t = trim_chars(v.as_slice());
        if t.len() > 0 {
            return chars_to_string(t.as_slice());
        }
    }
    proof {
        reveal_strlit("/bin/bash");
    }
    match shell_var {
        Some(v) => {
            if v.as_str().is_empty() {
                "/bin/bash".to_owned()
            } else {
                v
            }
        },
        None => "/bin/bash".to_owned(),
    }
}

} // verus!
