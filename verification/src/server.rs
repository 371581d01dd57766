use vstd::prelude::*;
use std::collections::HashMap;
use crate::messages::ServerMsg;

verus! {

broadcast use vstd::std_specs::hash::group_hash_axioms;

/// What the server core does after handling a message.
pub enum CoreAction {
    /// Nothing to send.
    Nothing,
    /// Send a pong carrying `data` to connection `to`.
    Pong { to: usize, data: Vec<u8> },
    /// Send the server's status to connection `to`.
    Status { to: usize },
}

/// The server core's table of open connections, each with the sender on
/// which it is answered.
pub struct Registry<S> {
    conns: HashMap<usize, S>,
}

impl<S> View for Registry<S> {
    type V = Map<usize, S>;

    closed spec fn view(&self) -> Map<usize, S> {
        self.conns@
    }
}

/// The table and the action after the core handles `msg` with table `m`:
/// registering and unregistering change the table; a ping or a status
/// request is answered only for a registered connection.
pub open spec fn core_step<S>(m: Map<usize, S>, msg: ServerMsg<S>) -> (Map<usize, S>, CoreAction) {
    match msg {
        ServerMsg::Register { conn_id, out_tx } => (m.insert(conn_id, out_tx), CoreAction::Nothing),
        ServerMsg::Unregister { conn_id } => (m.remove(conn_id), CoreAction::Nothing),
        ServerMsg::Ping { conn_id, data } => (
            m,
            if m.contains_key(conn_id) {
                CoreAction::Pong { to: conn_id, data }
            } else {
                CoreAction::Nothing
            },
        ),
        ServerMsg::Status { conn_id } => (
            m,
            if m.contains_key(conn_id) {
                CoreAction::Status { to: conn_id }
            } else {
                CoreAction::Nothing
            },
        ),
    }
}

impl<S> Registry<S> {
    /// A table with no connection.
    pub fn new() -> (r: Self)
        ensures
            r@ == Map::<usize, S>::empty(),
    {
        Registry { conns: HashMap::new() }
    }

    /// Handles one message: updates the table and says what to send.
    pub fn handle(&mut self, msg: ServerMsg<S>) -> (r: CoreAction)
        ensures
            (final(self)@, r) == core_step(old(self)@, msg),
    {
        match msg {
            ServerMsg::Register { conn_id, out_tx } => {
                self.conns.insert(conn_id, out_tx);
                CoreAction::Nothing
            },
            ServerMsg::Unregister { conn_id } => {
                self.conns.remove(&conn_id);
                CoreAction::Nothing
            },
            ServerMsg::Ping { conn_id, data } => {
                if self.conns.contains_key(&conn_id) {
                    CoreAction::Pong { to: conn_id, data }
                } else {
                    CoreAction::Nothing
                }
            },
            ServerMsg::Status { conn_id } => {
                if self.conns.contains_key(&conn_id) {
                    CoreAction::Status { to: conn_id }
                } else {
                    CoreAction::Nothing
                }
            },
        }
    }

    /// The sender of connection `conn_id`, if it is registered.
    pub fn sender(&self, conn_id: usize) -> (r: Option<&S>)
        ensures
            match r {
                Some(s) => self@.contains_key(conn_id) && *s == self@[conn_id],
                None => !self@.contains_key(conn_id),
            },
    {
        self.conns.get(&conn_id)
    }
}

/// A connection that registered is answered: a ping right after its
/// registration comes back as a pong to it with the ping's bytes.
pub proof fn registered_connection_is_answered<S>(
    m: Map<usize, S>,
    conn_id: usize,
    out_tx: S,
    data: Vec<u8>,
)
    ensures
        ({
            let (m1, _) = core_step(m, ServerMsg::Register { conn_id, out_tx });
            core_step(m1, ServerMsg::Ping { conn_id, data }) == (
                m1,
                CoreAction::Pong { to: conn_id, data },
            )
        }),
{
}

/// A connection that unregistered is no longer answered.
pub proof fn unregistered_connection_is_not_answered<S>(
    m: Map<usize, S>,
    conn_id: usize,
    data: Vec<u8>,
)
    ensures
        ({
            let (m1, _) = core_step(m, ServerMsg::Unregister { conn_id });
            &&& core_step(m1, ServerMsg::Ping { conn_id, data }).1 == CoreAction::Nothing
            &&& core_step(m1, ServerMsg::Status { conn_id }).1 == CoreAction::Nothing
        }),
{
}


/// Registering a connection adds it with its sender and keeps every other
/// connection as it was: each other id is in the table afterwards exactly
/// when it was before, with the same sender, and a ping from any
/// registered connection is answered with a pong to it carrying its bytes.
pub proof fn register_keeps_other_connections<S>(
    m: Map<usize, S>,
    conn_id: usize,
    out_tx: S,
    other: usize,
    data: Vec<u8>,
)
    requires
        other != conn_id,
    ensures
        ({
            let (m1, action) = core_step(m, ServerMsg::Register { conn_id, out_tx });
            &&& action == CoreAction::Nothing
            &&& m1.contains_key(conn_id) && m1[conn_id] == out_tx
            &&& m1.contains_key(other) == m.contains_key(other)
            &&& m.contains_key(other) ==> m1[other] == m[other]
            &&& m1.dom() == m.dom().insert(conn_id)
            &&& m.contains_key(other) ==> core_step(m1, ServerMsg::Ping { conn_id: other, data }).1
                == CoreAction::Pong { to: other, data }
        }),
{
    let (m1, _) = core_step(m, ServerMsg::Register { conn_id, out_tx });
    assert(m1.dom() =~= m.dom().insert(conn_id));
}

/// Unregistering a connection removes it alone: each other id is in the
/// table afterwards exactly when it was before, with the same sender, and a
/// ping from any other registered connection is still answered with a pong.
pub proof fn unregister_keeps_other_connections<S>(
    m: Map<usize, S>,
    conn_id: usize,
    other: usize,
    data: Vec<u8>,
)
    requires
        other != conn_id,
    ensures
        ({
            let (m1, action) = core_step(m, ServerMsg::Unregister { conn_id });
            &&& action == CoreAction::Nothing
            &&& !m1.contains_key(conn_id)
            &&& m1.contains_key(other) == m.contains_key(other)
            &&& m.contains_key(other) ==> m1[other] == m[other]
            &&& m1.dom() == m.dom().remove(conn_id)
            &&& m.contains_key(other) ==> core_step(m1, ServerMsg::Ping { conn_id: other, data }).1
                == CoreAction::Pong { to: other, data }
        }),
{
    let (m1, _) = core_step(m, ServerMsg::Unregister { conn_id });
    assert(m1.dom() =~= m.dom().remove(conn_id));
}

/// Pings and status requests leave the table as it is, and are answered
/// exactly when the connection is registered: a pong to it carrying the
/// ping's bytes, or a status answer to it.
pub proof fn requests_answer_registered_connections<S>(
    m: Map<usize, S>,
    conn_id: usize,
    data: Vec<u8>,
)
    ensures
        ({
            let ping = core_step(m, ServerMsg::Ping { conn_id, data });
            let status = core_step(m, ServerMsg::Status { conn_id });
            &&& ping.0 == m
            &&& status.0 == m
            &&& m.contains_key(conn_id) ==> ping.1 == CoreAction::Pong { to: conn_id, data }
            &&& !m.contains_key(conn_id) ==> ping.1 == CoreAction::Nothing
            &&& m.contains_key(conn_id) ==> status.1 == CoreAction::Status { to: conn_id }
            &&& !m.contains_key(conn_id) ==> status.1 == CoreAction::Nothing
        }),
{
}

} // verus!
