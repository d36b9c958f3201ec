use conch::shell::{default_shell_choice, resolved_shell, TerminalShell};

#[test]
fn resolved_shell_empty_program_uses_default_shell() {
    let shell = TerminalShell::default();
    let (program, args) = resolved_shell(&shell);
    assert!(program.is_none());
    assert!(args.is_empty());
}

#[test]
fn resolved_shell_uses_configured_program_and_args() {
    let shell = TerminalShell {
        program: "/bin/zsh".into(),
        args: vec!["-l".into(), "-c".into(), "echo ok".into()],
    };
    let (program, args) = resolved_shell(&shell);
    assert_eq!(program.as_deref(), Some("/bin/zsh"));
    assert_eq!(args, shell.args.as_slice());
}

#[test]
fn resolved_shell_trims_and_treats_blank_as_default() {
    let shell = TerminalShell { program: "  /bin/fish \n".into(), args: vec!["-i".into()] };
    let (program, args) = resolved_shell(&shell);
    assert_eq!(program.as_deref(), Some("/bin/fish"));
    assert_eq!(args, &["-i".to_string()][..]);
    let blank = TerminalShell { program: "   ".into(), args: vec!["-i".into()] };
    let (program, args) = resolved_shell(&blank);
    assert!(program.is_none());
    assert!(args.is_empty());
}

#[test]
fn default_shell_prefers_login_shell_then_variable_then_bash() {
    assert_eq!(default_shell_choice(Some(" /bin/zsh\n".into()), Some("/bin/sh".into())), "/bin/zsh");
    assert_eq!(default_shell_choice(Some("  ".into()), Some("/bin/sh".into())), "/bin/sh");
    assert_eq!(default_shell_choice(None, Some("/usr/bin/fish".into())), "/usr/bin/fish");
    assert_eq!(default_shell_choice(None, None), "/bin/bash");
    assert!(!default_shell_choice(None, None).is_empty());
}

#[test]
fn default_shell_env_var_used() {
    let shell = default_shell_choice(None, Some(String::new()));
    assert!(!shell.is_empty());
    assert_eq!(shell, "/bin/bash");
    assert!(!default_shell_choice(Some("  ".into()), None).is_empty());
    assert_eq!(default_shell_choice(None, Some("/bin/zsh".into())), "/bin/zsh");
}
