use conch::tmux_protocol::{CommandResponse, Notification};

#[test]
fn notification_variants_are_distinct() {
    let a = Notification::SessionsChanged;
    let b = Notification::Exit { reason: None };
    assert_ne!(a, b);
}

#[test]
fn notification_clone() {
    let n = Notification::Output {
        pane_id: 1,
        data: vec![65, 66, 67],
    };
    assert_eq!(n, n.clone());
}

#[test]
fn command_response_with_lines() {
    let r = CommandResponse {
        command_number: 42,
        lines: vec!["line1".into(), "line2".into()],
        success: true,
        error_message: None,
    };
    assert_eq!(r.lines.len(), 2);
    assert!(r.success);
}
