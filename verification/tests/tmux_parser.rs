use conch::tmux_parser::{decode_octal_escapes, ControlModeParser};
use conch::tmux_connection::ConnectionReader;
use conch::tmux_protocol::Notification;

#[test]
fn parse_sessions_changed() {
    let mut p = ControlModeParser::new();
    let notifs = p.feed(b"%sessions-changed\n");
    assert_eq!(notifs, vec![Notification::SessionsChanged]);
}

#[test]
fn parse_session_changed() {
    let mut p = ControlModeParser::new();
    let notifs = p.feed(b"%session-changed $1 my-session\n");
    assert_eq!(notifs, vec![Notification::SessionChanged { session_id: 1, name: "my-session".into() }]);
}

#[test]
fn parse_session_renamed() {
    let mut p = ControlModeParser::new();
    let notifs = p.feed(b"%session-renamed $3 new-name\n");
    assert_eq!(notifs, vec![Notification::SessionRenamed { session_id: 3, name: "new-name".into() }]);
}

#[test]
fn parse_session_window_changed() {
    let mut p = ControlModeParser::new();
    let notifs = p.feed(b"%session-window-changed $1 @2\n");
    assert_eq!(notifs, vec![Notification::SessionWindowChanged { session_id: 1, window_id: 2 }]);
}

#[test]
fn parse_window_add() {
    let mut p = ControlModeParser::new();
    let notifs = p.feed(b"%window-add @5\n");
    assert_eq!(notifs, vec![Notification::WindowAdd { window_id: 5 }]);
}

#[test]
fn parse_window_close() {
    let mut p = ControlModeParser::new();
    let notifs = p.feed(b"%window-close @3\n");
    assert_eq!(notifs, vec![Notification::WindowClose { window_id: 3 }]);
}

#[test]
fn parse_window_renamed() {
    let mut p = ControlModeParser::new();
    let notifs = p.feed(b"%window-renamed @1 my-window\n");
    assert_eq!(notifs, vec![Notification::WindowRenamed { window_id: 1, name: "my-window".into() }]);
}

#[test]
fn parse_window_pane_changed() {
    let mut p = ControlModeParser::new();
    let notifs = p.feed(b"%window-pane-changed @1 %3\n");
    assert_eq!(notifs, vec![Notification::WindowPaneChanged { window_id: 1, pane_id: 3 }]);
}

#[test]
fn parse_pane_mode_changed() {
    let mut p = ControlModeParser::new();
    let notifs = p.feed(b"%pane-mode-changed %2 1\n");
    assert_eq!(notifs, vec![Notification::PaneModeChanged { pane_id: 2, mode: 1 }]);
}

#[test]
fn parse_layout_change() {
    let mut p = ControlModeParser::new();
    let notifs = p.feed(b"%layout-change @1 abc123,80x24,0,0\n");
    assert_eq!(notifs, vec![Notification::LayoutChange { window_id: 1, layout: "abc123,80x24,0,0".into() }]);
}

#[test]
fn parse_exit_no_reason() {
    let mut p = ControlModeParser::new();
    let notifs = p.feed(b"%exit\n");
    assert_eq!(notifs, vec![Notification::Exit { reason: None }]);
}

#[test]
fn parse_exit_with_reason() {
    let mut p = ControlModeParser::new();
    let notifs = p.feed(b"%exit server exited\n");
    assert_eq!(notifs, vec![Notification::Exit { reason: Some("server exited".into()) }]);
}

#[test]
fn parse_unknown_notification() {
    let mut p = ControlModeParser::new();
    let notifs = p.feed(b"%future-thing arg1 arg2\n");
    assert_eq!(notifs, vec![Notification::Unknown { name: "future-thing".into(), args: "arg1 arg2".into() }]);
}

#[test]
fn parse_output_plain_text() {
    let mut p = ControlModeParser::new();
    let notifs = p.feed(b"%output %0 hello world\n");
    assert_eq!(notifs, vec![Notification::Output { pane_id: 0, data: b"hello world".to_vec() }]);
}

#[test]
fn parse_output_octal_escapes() {
    let mut p = ControlModeParser::new();
    let notifs = p.feed(b"%output %1 \\033[31mred\\012\n");
    assert_eq!(notifs, vec![Notification::Output { pane_id: 1, data: vec![0x1b, b'[', b'3', b'1', b'm', b'r', b'e', b'd', 0x0a] }]);
}

#[test]
fn parse_output_empty_data() {
    let mut p = ControlModeParser::new();
    let notifs = p.feed(b"%output %5 \n");
    assert_eq!(notifs, vec![Notification::Output { pane_id: 5, data: Vec::new() }]);
}

#[test]
fn parse_begin_end() {
    let mut p = ControlModeParser::new();
    let notifs = p.feed(b"%begin 1234 0\n%end 1234 0\n");
    assert_eq!(notifs, vec![
        Notification::Begin { command_number: 1234, flags: 0 },
        Notification::End { command_number: 1234, flags: 0 },
    ]);
}

#[test]
fn parse_error_response() {
    let mut p = ControlModeParser::new();
    let notifs = p.feed(b"%error 42 session not found\n");
    assert_eq!(notifs, vec![Notification::Error { command_number: 42, message: "session not found".into() }]);
}

#[test]
fn partial_line_across_feeds() {
    let mut p = ControlModeParser::new();
    let n1 = p.feed(b"%sessions-");
    assert!(n1.is_empty(), "incomplete line should yield nothing");
    let n2 = p.feed(b"changed\n");
    assert_eq!(n2, vec![Notification::SessionsChanged]);
}

#[test]
fn multiple_notifications_one_feed() {
    let mut p = ControlModeParser::new();
    let notifs = p.feed(b"%sessions-changed\n%window-add @1\n%window-add @2\n");
    assert_eq!(notifs, vec![
        Notification::SessionsChanged,
        Notification::WindowAdd { window_id: 1 },
        Notification::WindowAdd { window_id: 2 },
    ]);
}

#[test]
fn empty_feed() {
    let mut p = ControlModeParser::new();
    let notifs = p.feed(b"");
    assert!(notifs.is_empty());
}

#[test]
fn blank_lines_ignored() {
    let mut p = ControlModeParser::new();
    let notifs = p.feed(b"\n\n%sessions-changed\n\n");
    assert_eq!(notifs, vec![Notification::SessionsChanged]);
}

#[test]
fn interleaved_output_and_notifications() {
    let mut p = ControlModeParser::new();
    let notifs = p.feed(b"%output %0 data\n%window-add @1\n%output %0 more\n");
    assert_eq!(notifs.len(), 3);
    assert!(matches!(notifs[0], Notification::Output { pane_id: 0, .. }));
    assert_eq!(notifs[1], Notification::WindowAdd { window_id: 1 });
    assert!(matches!(notifs[2], Notification::Output { pane_id: 0, .. }));
}

#[test]
fn decode_octal_simple() {
    assert_eq!(decode_octal_escapes("abc"), b"abc");
}

#[test]
fn decode_octal_escape_sequence() {
    assert_eq!(decode_octal_escapes("\\033"), vec![0x1b]);
}

#[test]
fn decode_octal_mixed() {
    assert_eq!(decode_octal_escapes("A\\101B"), vec![b'A', 0x41, b'B']);
}

#[test]
fn decode_octal_backslash_not_followed_by_digits() {
    assert_eq!(decode_octal_escapes("a\\bc"), b"a\\bc");
}

#[test]
fn decode_octal_empty() {
    assert_eq!(decode_octal_escapes(""), b"");
}

#[test]
fn feeding_in_pieces_matches_feeding_whole() {
    let data: &[u8] = b"%begin 7 0\nhello\nworld\n%end 7 0\n%output %3 a\\033b\n%sessions-changed\n%window-add @4\n";
    let mut whole = ControlModeParser::new();
    let expected = whole.feed(data);
    assert_eq!(expected.len(), 5);
    for cut in 0..=data.len() {
        let mut p = ControlModeParser::new();
        let mut got = p.feed(&data[..cut]);
        got.extend(p.feed(&data[cut..]));
        assert_eq!(got, expected, "split at {cut}");
    }
}

#[test]
fn response_holds_lines_between_begin_and_end() {
    let mut p = ControlModeParser::new();
    p.feed(b"%begin 7 0\nline one\nline two\n%end 7 0\n");
    assert_eq!(p.take_response(7), Some(vec!["line one".to_string(), "line two".to_string()]));
    assert_eq!(p.take_response(7), None);
    p.feed(b"%begin 8 0\npartial\n");
    assert_eq!(p.take_response(8), Some(vec!["partial".to_string()]));
    assert_eq!(p.take_response(9), None);
}

#[test]
fn decode_octal_undoes_tmux_escaping() {
    assert_eq!(decode_octal_escapes("a\\033b\\134c"), b"a\x1bb\\c".to_vec());
    assert_eq!(decode_octal_escapes("\\012\\015"), b"\n\r".to_vec());
}

#[test]
fn decode_octal_only_takes_octal_digits() {
    assert_eq!(decode_octal_escapes("\\018"), b"\\018".to_vec());
    assert_eq!(decode_octal_escapes("\\091x"), b"\\091x".to_vec());
    assert_eq!(decode_octal_escapes("\\017"), vec![0x0f]);
}

#[test]
fn restarted_command_number_drops_its_finished_response() {
    let mut p = ControlModeParser::new();
    p.feed(b"%begin 5 0\nold\n%end 5 0\n%begin 5 0\nnew\n");
    assert_eq!(p.take_response(5), Some(vec!["new".to_string()]));
    assert_eq!(p.take_response(5), None);
}

#[test]
fn no_number_is_both_open_and_done() {
    let mut p = ControlModeParser::new();
    p.feed(b"%begin 3 0\nfirst\n%end 3 0\n");
    p.feed(b"%begin 3 0\n");
    // the finished response was dropped when the number began again
    assert_eq!(p.take_response(3), Some(Vec::<String>::new()));
    p.feed(b"again\n%end 3 0\n");
    assert_eq!(p.take_response(3), None);
}

#[test]
fn reader_gives_what_one_parser_fed_everything_gives() {
    let data: &[u8] = b"%begin 7 0\nhel";
    let more: &[u8] = b"lo\n%end 7 0\n%window-add @4\n";
    let mut r = ConnectionReader::new(std::io::empty());
    let mut got = r.parse_bytes(data);
    got.extend(r.parse_bytes(more));
    let mut whole = Vec::new();
    whole.extend_from_slice(data);
    whole.extend_from_slice(more);
    let mut q = ControlModeParser::new();
    assert_eq!(got, q.feed(&whole));
    assert_eq!(got.len(), 3);
}
