use conch::tmux_backend::{
    control_mode_args, initial_client_size, parse_pane_line, parse_window_line, refresh_client_command,
    update_exit_input_line, TmuxSession, TmuxSessionInfo,
};

#[test]
fn tmux_session_info_from_tmux_session() {
    let session = TmuxSession {
        id: 1,
        name: "work".into(),
        window_count: 3,
        attached: true,
        created: Some(1711990800),
    };
    let info = TmuxSessionInfo::from(&session);
    assert_eq!(info.id, 1);
    assert_eq!(info.name, "work");
    assert_eq!(info.window_count, 3);
    assert!(info.attached);
    assert_eq!(info.created, Some(1711990800));
}

#[test]
fn tmux_session_info_from_session_no_created() {
    let session = TmuxSession {
        id: 2,
        name: "scratch".into(),
        window_count: 1,
        attached: false,
        created: None,
    };
    let info = TmuxSessionInfo::from(&session);
    assert_eq!(info.id, 2);
    assert!(!info.attached);
    assert!(info.created.is_none());
}

#[test]
fn parse_window_line_parses_tab_separated_output() {
    let parsed = parse_window_line("@7\teditor\t1").unwrap();
    assert_eq!(parsed.0, 7);
    assert_eq!(parsed.1, "editor");
    assert!(parsed.2);
}

#[test]
fn parse_pane_line_parses_tab_separated_output() {
    let parsed =
        parse_pane_line("%11\t0\t120\t42\t0\t0\t0\tbash").unwrap();
    assert_eq!(parsed.id, 11);
    assert!(!parsed.active);
    assert_eq!(parsed.width, 120);
    assert_eq!(parsed.height, 42);
    assert_eq!(parsed.left, 0);
    assert_eq!(parsed.top, 0);
    assert!(!parsed.alternate_on);
    assert_eq!(
        parsed.current_command.as_deref(),
        Some("bash")
    );
}

#[test]
fn parse_pane_line_with_offset_and_alternate_screen() {
    let parsed =
        parse_pane_line("%5\t1\t80\t24\t81\t0\t1\thtop").unwrap();
    assert_eq!(parsed.id, 5);
    assert!(parsed.active);
    assert_eq!(parsed.width, 80);
    assert_eq!(parsed.height, 24);
    assert_eq!(parsed.left, 81);
    assert_eq!(parsed.top, 0);
    assert!(parsed.alternate_on);
    assert_eq!(
        parsed.current_command.as_deref(),
        Some("htop")
    );
}

#[test]
fn parse_pane_line_minimal_fields() {
    // Only the 6 required fields (no alternate_on or current_command).
    let parsed =
        parse_pane_line("%3\t0\t200\t50\t0\t25").unwrap();
    assert_eq!(parsed.id, 3);
    assert_eq!(parsed.width, 200);
    assert_eq!(parsed.height, 50);
    assert_eq!(parsed.top, 25);
    assert!(!parsed.alternate_on);
    assert!(parsed.current_command.is_none());
}

#[test]
fn update_exit_input_line_detects_exit_across_keystrokes() {
    let mut buffer = String::new();
    assert!(!update_exit_input_line(&mut buffer, "e"));
    assert!(!update_exit_input_line(&mut buffer, "x"));
    assert!(!update_exit_input_line(&mut buffer, "i"));
    assert!(!update_exit_input_line(&mut buffer, "t"));
    assert!(update_exit_input_line(&mut buffer, "\r"));
    assert!(buffer.is_empty());
}

#[test]
fn update_exit_input_line_handles_backspace() {
    let mut buffer = String::new();
    assert!(!update_exit_input_line(&mut buffer, "exix"));
    assert!(!update_exit_input_line(&mut buffer, "\u{7f}"));
    assert!(!update_exit_input_line(&mut buffer, "t"));
    assert!(update_exit_input_line(&mut buffer, "\n"));
    assert!(buffer.is_empty());
}

#[test]
fn control_mode_attaches_or_creates() {
    assert_eq!(control_mode_args("main", true), vec!["-u", "-CC", "attach-session", "-t", "main"]);
    assert_eq!(control_mode_args("work", false), vec!["-u", "-CC", "new-session", "-s", "work"]);
}

#[test]
fn client_size_defaults_and_refresh_command() {
    assert_eq!(initial_client_size(None, None), (80, 24));
    assert_eq!(initial_client_size(Some(132), Some(43)), (132, 43));
    assert_eq!(refresh_client_command(132, 43).as_deref(), Some("refresh-client -C 132,43\n"));
    assert!(refresh_client_command(1, 43).is_none());
    assert!(refresh_client_command(80, 0).is_none());
}
