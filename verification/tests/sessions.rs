use conch::sessions::RemoteSessions;

#[test]
fn open_session_registers_connection_and_rejects_duplicates() {
    let mut s: RemoteSessions<u8, &'static str> = RemoteSessions::new();
    assert_eq!(s.open_session("main", 3, "h".into(), "u".into(), 22, "conn-a", 1), Ok(()));
    let c = s.connection("conn:main:3").unwrap();
    assert_eq!(c.ref_count, 1);
    assert_eq!(c.host, "h");
    assert_eq!(s.session("main:3").unwrap().connection_id, "conn:main:3");
    assert_eq!(
        s.open_session("main", 3, "h".into(), "u".into(), 22, "conn-b", 2),
        Err("Pane 3 already has an SSH session on window main".to_string())
    );
    assert_eq!(s.connection("conn:main:3").unwrap().handle, "conn-a");
}

#[test]
fn shared_connection_is_dropped_with_its_last_session() {
    let mut s: RemoteSessions<u8, &'static str> = RemoteSessions::new();
    s.open_session("main", 1, "h".into(), "u".into(), 2222, "conn", 1).unwrap();
    assert_eq!(s.open_channel("main", 2, "conn:nope:9", 2), Err("SSH connection 'conn:nope:9' not found".to_string()));
    assert_eq!(s.open_channel("main", 2, "conn:main:1", 2), Ok(()));
    assert_eq!(s.connection("conn:main:1").unwrap().ref_count, 2);
    assert_eq!(s.session("main:2").unwrap().port, 2222);
    assert!(s.close_session("main:1"));
    assert_eq!(s.connection("conn:main:1").unwrap().ref_count, 1);
    assert!(!s.close_session("main:1"));
    assert!(s.close_session("main:2"));
    assert!(s.connection("conn:main:1").is_none());
    assert!(s.session("main:2").is_none());
}

#[test]
fn remote_state_new_has_no_sessions() {
    let state: RemoteSessions<u8, u8> = RemoteSessions::new();
    assert!(state.sessions.is_empty());
}

#[test]
fn remote_state_new_has_no_connections() {
    let state: RemoteSessions<u8, u8> = RemoteSessions::new();
    assert!(state.connections.is_empty());
}
