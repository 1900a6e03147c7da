//! The connection to the server: logging in, then syncing.
use vstd::prelude::*;

verus! {

/// Where the connection stands.
#[derive(Clone, Copy, Debug, PartialEq, Eq, Structural)]
pub enum ConnectionState {
    Offline,
    Login,
    /// Logged in without a sync position: the next sync reads every room.
    SyncAll,
    /// Logged in with a sync position kept from an earlier run.
    SyncFirst,
    SyncLoop,
}

/// What a sync that has just come back is to do.
#[derive(Clone, Copy, Debug, PartialEq, Eq, Structural)]
pub enum SyncStep {
    /// Read every room anew.
    FullSync,
    /// Apply the new events to the known rooms; `true` asks also for each room's older
    /// history.
    Incremental(bool),
    /// Nothing: the connection is not syncing.
    Ignored,
}

/// The step that a sync coming back in state `s` takes.
pub open spec fn sync_step_of(s: ConnectionState) -> SyncStep {
    match s {
        ConnectionState::SyncAll => SyncStep::FullSync,
        ConnectionState::SyncFirst => SyncStep::Incremental(true),
        ConnectionState::SyncLoop => SyncStep::Incremental(false),
        _ => SyncStep::Ignored,
    }
}

/// The state after a sync comes back in state `s`.
pub open spec fn state_after_sync(s: ConnectionState) -> ConnectionState {
    match s {
        ConnectionState::SyncAll | ConnectionState::SyncFirst | ConnectionState::SyncLoop => ConnectionState::SyncLoop,
        _ => s,
    }
}

/// The state after a login succeeds, with or without a kept sync position.
pub open spec fn state_after_login(next_batch: Option<String>) -> ConnectionState {
    if next_batch is None {
        ConnectionState::SyncAll
    } else {
        ConnectionState::SyncFirst
    }
}

/// After a login, the first sync reads every room when no sync position was kept, and
/// otherwise applies the new events and asks once for older history; every later sync
/// applies new events without asking again. A full read happens in no other state.
pub proof fn lemma_login_then_syncs(next_batch: Option<String>, s: ConnectionState)
    ensures
        sync_step_of(state_after_login(next_batch)) == if next_batch is None {
            SyncStep::FullSync
        } else {
            SyncStep::Incremental(true)
        },
        state_after_sync(state_after_login(next_batch)) == ConnectionState::SyncLoop,
        sync_step_of(state_after_sync(state_after_login(next_batch))) == SyncStep::Incremental(false),
        state_after_sync(ConnectionState::SyncLoop) == ConnectionState::SyncLoop,
        sync_step_of(s) == SyncStep::FullSync <==> s == ConnectionState::SyncAll,
        sync_step_of(s) == SyncStep::Incremental(true) <==> s == ConnectionState::SyncFirst,
        sync_step_of(s) is Ignored <==> (s == ConnectionState::Offline || s == ConnectionState::Login),
{
}

#[derive(Debug)]
pub struct ConnectionData {
    pub access_token: Option<String>,
    pub next_batch: Option<String>,
    pub state: ConnectionState,
    pub past: bool,
}

impl ConnectionData {
    pub fn new() -> (c: ConnectionData)
        ensures
            c.access_token is None,
            c.next_batch is None,
            c.state == ConnectionState::Offline,
            !c.past,
    {
        ConnectionData { access_token: None, next_batch: None, state: ConnectionState::Offline, past: false }
    }

    /// A login has been asked for.
    pub fn start_login(&mut self)
        ensures
            final(self).state == ConnectionState::Login,
            final(self).access_token == old(self).access_token,
            final(self).next_batch == old(self).next_batch,
            final(self).past == old(self).past,
    {
        self.state = ConnectionState::Login;
    }

    /// A login has succeeded with `access_token`.
    pub fn on_login(&mut self, access_token: String)
        ensures
            final(self).state == state_after_login(old(self).next_batch),
            final(self).access_token == Some(access_token),
            final(self).next_batch == old(self).next_batch,
            final(self).past == old(self).past,
    {
        if self.next_batch.is_none() {
            self.state = ConnectionState::SyncAll;
        } else {
            self.state = ConnectionState::SyncFirst;
        }
        self.access_token = Some(access_token);
    }

    /// A sync has come back with the position `next_batch` for the next one.
    pub fn on_sync(&mut self, next_batch: String) -> (step: SyncStep)
        ensures
            step == sync_step_of(old(self).state),
            final(self).state == state_after_sync(old(self).state),
            final(self).next_batch == Some(next_batch),
            final(self).access_token == old(self).access_token,
            final(self).past == old(self).past,
    {
        self.next_batch = Some(next_batch);
        match self.state {
            ConnectionState::SyncAll => {
                self.state = ConnectionState::SyncLoop;
                SyncStep::FullSync
            },
            ConnectionState::SyncFirst => {
                self.state = ConnectionState::SyncLoop;
                SyncStep::Incremental(true)
            },
            ConnectionState::SyncLoop => SyncStep::Incremental(false),
            _ => SyncStep::Ignored,
        }
    }
}

} // verus!
