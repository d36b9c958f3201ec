//! The SSH sessions of terminal panes and the connections they run on: a
//! pane opens a session on a new connection or on another pane's
//! connection, and a connection is dropped when its last session closes.
use vstd::prelude::*;
use crate::keys::{connection_key, connection_key_text, session_key, session_key_text};
use crate::pending::IdTable;
use crate::text::{append_chars, append_str, decimal, u64_to_decimal};

verus! {

/// The SSH session of one pane.
pub struct SessionRecord<S> {
    /// The key of the connection the session runs on.
    pub connection_id: String,
    pub host: String,
    pub user: String,
    pub port: u16,
    /// What feeds the session's channel.
    pub handle: S,
}

/// A session as plain values.
pub struct SessionView<S> {
    pub connection_id: Seq<char>,
    pub host: Seq<char>,
    pub user: Seq<char>,
    pub port: u16,
    pub handle: S,
}

impl<S> View for SessionRecord<S> {
    type V = SessionView<S>;

    open spec fn view(&self) -> SessionView<S> {
        SessionView {
            connection_id: self.connection_id@,
            host: self.host@,
            user: self.user@,
            port: self.port,
            handle: self.handle,
        }
    }
}

/// An SSH connection, shared by `ref_count` sessions.
pub struct ConnectionRecord<C> {
    pub host: String,
    pub user: String,
    pub port: u16,
    pub ref_count: u32,
    /// The connection itself.
    pub handle: C,
}

/// A connection as plain values.
pub struct ConnectionView<C> {
    pub host: Seq<char>,
    pub user: Seq<char>,
    pub port: u16,
    pub ref_count: u32,
    pub handle: C,
}

impl<C> View for ConnectionRecord<C> {
    type V = ConnectionView<C>;

    open spec fn view(&self) -> ConnectionView<C> {
        ConnectionView {
            host: self.host@,
            user: self.user@,
            port: self.port,
            ref_count: self.ref_count,
            handle: self.handle,
        }
    }
}

/// The sessions by session key and the connections by connection key.
pub struct RemoteSessions<S, C> {
    pub sessions: IdTable<SessionRecord<S>>,
    pub connections: IdTable<ConnectionRecord<C>>,
}

/// The sessions and connections as plain values.
pub struct SessionsView<S, C> {
    pub sessions: Map<Seq<char>, SessionView<S>>,
    pub connections: Map<Seq<char>, ConnectionView<C>>,
}

impl<S, C> View for RemoteSessions<S, C> {
    type V = SessionsView<S, C>;

    closed spec fn view(&self) -> SessionsView<S, C> {
        SessionsView {
            sessions: self.sessions@.map_values(|r: SessionRecord<S>| r@),
            connections: self.connections@.map_values(|r: ConnectionRecord<C>| r@),
        }
    }
}

/// The error for a pane that already has a session.
pub open spec fn duplicate_session_text(window: Seq<char>, pane: u32) -> Seq<char> {
    "Pane "@ + decimal(pane as nat) + " already has an SSH session on window "@ + window
}

/// The error for an unknown connection.
pub open spec fn unknown_connection_text(id: Seq<char>) -> Seq<char> {
    "SSH connection '"@ + id + "' not found"@
}

impl<S, C> RemoteSessions<S, C> {
    /// The tables' invariant.
    pub closed spec fn wf(self) -> bool {
        self.sessions.wf() && self.connections.wf()
    }

    /// No sessions and no connections.
    pub fn new() -> (r: Self)
        ensures
            r.wf(),
            r@.sessions == Map::<Seq<char>, SessionView<S>>::empty(),
            r@.connections == Map::<Seq<char>, ConnectionView<C>>::empty(),
    {
        let r = RemoteSessions { sessions: IdTable::new(), connections: IdTable::new() };
        assert(r@.sessions =~= Map::<Seq<char>, SessionView<S>>::empty());
        assert(r@.connections =~= Map::<Seq<char>, ConnectionView<C>>::empty());
        r
    }

    /// Opens the session of pane `pane` of `window` on a new connection:
    /// the error `Pane <pane> already has an SSH session on window <window>`
    /// (and no change) when the pane has one; otherwise the connection is
    /// registered under the pane's connection key with one session, and the
    /// session under its session key.
    pub fn open_session(
        &mut self,
        window: &str,
        pane: u32,
        host: String,
        user: String,
        port: u16,
        connection: C,
        session: S,
    ) -> (r: Result<(), String>)
        requires
            old(self).wf(),
        ensures
            final(self).wf(),
            old(self)@.sessions.contains_key(session_key_text(window@, pane)) ==> (r matches Err(e) && e@
                == duplicate_session_text(window@, pane)) && final(self)@ == old(self)@,
            !old(self)@.sessions.contains_key(session_key_text(window@, pane)) ==> r is Ok && final(self)@ == (SessionsView {
                sessions: old(self)@.sessions.insert(
                    session_key_text(window@, pane),
                    SessionView {
                        connection_id: connection_key_text(window@, pane),
                        host: host@,
                        user: user@,
                        port,
                        handle: session,
                    },
                ),
                connections: old(self)@.connections.insert(
                    connection_key_text(window@, pane),
                    ConnectionView { host: host@, user: user@, port, ref_count: 1, handle: connection },
                ),
            }),
    {
        let key = session_key(window, pane);
        match self.sessions.get(key.as_str()) {
            Some(_) => {
                let mut e = "Pane ".to_owned();
                let d = u64_to_decimal(pane as u64);
                append_chars(&mut e, d.as_slice());
                append_str(&mut e, " already has an SSH session on window ");
                append_str(&mut e, window);
                return Err(e);
            },
            None => {},
        }
        let ckey = connection_key(window, pane);
        let conn = ConnectionRecord { host: host.clone(), user: user.clone(), port, ref_count: 1, handle: connection };
        let ghost cv = conn@;
        let _ = self.connections.insert(ckey.clone(), conn);
        let rec = SessionRecord { connection_id: ckey, host, user, port, handle: session };
        let ghost sv = rec@;
        let _ = self.sessions.insert(key, rec);
        assert(self@.sessions =~= old(self)@.sessions.insert(session_key_text(window@, pane), sv));
        assert(self@.connections =~= old(self)@.connections.insert(connection_key_text(window@, pane), cv));
        Ok(())
    }

    /// Opens the session of pane `pane` of `window` on the existing
    /// connection `connection_id`: the error `SSH connection '<id>' not
    /// found` (and no change) when there is none; otherwise the connection
    /// counts one more session, and the session, with the connection's host,
    /// user and port, is registered under the pane's session key.
    pub fn open_channel(&mut self, window: &str, pane: u32, connection_id: &str, session: S) -> (r: Result<(), String>)
        requires
            old(self).wf(),
            old(self)@.connections.contains_key(connection_id@) ==> old(self)@.connections[connection_id@].ref_count
                < u32::MAX,
        ensures
            final(self).wf(),
            !old(self)@.connections.contains_key(connection_id@) ==> (r matches Err(e) && e@
                == unknown_connection_text(connection_id@)) && final(self)@ == old(self)@,
            old(self)@.connections.contains_key(connection_id@) ==> r is Ok && final(self)@ == ({
                let c = old(self)@.connections[connection_id@];
                SessionsView {
                    sessions: old(self)@.sessions.insert(
                        session_key_text(window@, pane),
                        SessionView {
                            connection_id: connection_id@,
                            host: c.host,
                            user: c.user,
                            port: c.port,
                            handle: session,
                        },
                    ),
                    connections: old(self)@.connections.insert(
                        connection_id@,
                        ConnectionView { ref_count: (c.ref_count + 1) as u32, ..c },
                    ),
                }
            }),
    {
        match self.connections.take(connection_id) {
            None => {
                assert(self.connections@ =~= old(self).connections@);
                let mut e = "SSH connection '".to_owned();
                append_str(&mut e, connection_id);
                append_str(&mut e, "' not found");
                Err(e)
            },
            Some(mut conn) => {
                let ghost c = conn@;
                let host = conn.host.clone();
                let user = conn.user.clone();
                let port = conn.port;
                conn.ref_count = conn.ref_count + 1;
                let ghost cv = conn@;
                let _ = self.connections.insert(connection_id.to_owned(), conn);
                let key = session_key(window, pane);
                let rec = SessionRecord { connection_id: connection_id.to_owned(), host, user, port, handle: session };
                let ghost sv = rec@;
                let _ = self.sessions.insert(key, rec);
                assert(self@.sessions =~= old(self)@.sessions.insert(session_key_text(window@, pane), sv));
                assert(self@.connections =~= old(self)@.connections.insert(connection_id@, cv));
                Ok(())
            },
        }
    }

    /// Closes the session `key` when it is open: it is removed, and its
    /// connection, when still registered, counts one session less (never
    /// below zero) and is removed once none is left. Returns whether a
    /// session was closed.
    pub fn close_session(&mut self, key: &str) -> (r: bool)
        requires
            old(self).wf(),
        ensures
            final(self).wf(),
            r == old(self)@.sessions.contains_key(key@),
            !r ==> final(self)@ == old(self)@,
            r ==> final(self)@.sessions == old(self)@.sessions.remove(key@),
            r ==> ({
                let cid = old(self)@.sessions[key@].connection_id;
                if !old(self)@.connections.contains_key(cid) {
                    final(self)@.connections == old(self)@.connections
                } else if old(self)@.connections[cid].ref_count <= 1 {
                    final(self)@.connections == old(self)@.connections.remove(cid)
                } else {
                    final(self)@.connections == old(self)@.connections.insert(
                        cid,
                        ConnectionView {
                            ref_count: (old(self)@.connections[cid].ref_count - 1) as u32,
                            ..old(self)@.connections[cid]
                        },
                    )
                }
            }),
    {
        match self.sessions.take(key) {
            None => {
                assert(self.sessions@ =~= old(self).sessions@);
                false
            },
            Some(session) => {
                assert(self@.sessions =~= old(self)@.sessions.remove(key@));
                let ghost cid = session.connection_id@;
                match self.connections.take(session.connection_id.as_str()) {
                    None => {
                        assert(self.connections@ =~= old(self).connections@);
                    },
                    Some(mut conn) => {
                        conn.ref_count = if conn.ref_count > 0 {
                            conn.ref_count - 1
                        } else {
                            0
                        };
                        if conn.ref_count == 0 {
                            assert(self@.connections =~= old(self)@.connections.remove(cid));
                        } else {
                            let ghost cv = conn@;
                            let _ = self.connections.insert(session.connection_id.clone(), conn);
                            assert(self@.connections =~= old(self)@.connections.insert(cid, cv));
                        }
                    },
                }
                true
            },
        }
    }

    /// The connection registered under `id`, if any.
    pub fn connection(&self, id: &str) -> (r: Option<&ConnectionRecord<C>>)
        requires
            self.wf(),
        ensures
            match r {
                Some(c) => self@.connections.contains_key(id@) && c@ == self@.connections[id@],
                None => !self@.connections.contains_key(id@),
            },
    {
        self.connections.get(id)
    }

    /// The session registered under `key`, if any.
    pub fn session(&self, key: &str) -> (r: Option<&SessionRecord<S>>)
        requires
            self.wf(),
        ensures
            match r {
                Some(s) => self@.sessions.contains_key(key@) && s@ == self@.sessions[key@],
                None => !self@.sessions.contains_key(key@),
            },
    {
        self.sessions.get(key)
    }
}

} // verus!
