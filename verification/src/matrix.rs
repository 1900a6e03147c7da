//! The values that the Matrix client-server API sends and that the client keeps between runs.
use crate::room::Room;
use crate::strmap::StrMap;
use vstd::prelude::*;

verus! {

/// The answer to a login.
#[derive(Debug)]
pub struct LoginResponse {
    pub access_token: String,
    pub home_server: String,
    pub user_id: String,
    pub refresh_token: Option<String>,
}

/// The answer to a sync.
#[derive(Debug)]
pub struct Sync {
    pub next_batch: String,
    pub rooms: Rooms,
    pub presence: Presence,
}

/// The rooms of a sync, by room id.
#[derive(Debug)]
pub struct Rooms {
    pub join: StrMap<JoinedRoom>,
}

/// What a sync reports of a room that the user has joined.
#[derive(Debug)]
pub struct JoinedRoom {
    pub unread_notifications: UnreadNotificationCounts,
    pub timeline: Timeline,
    pub state: State,
    pub account_data: AccountData,
    pub ephemeral: Ephemeral,
}

#[derive(Debug)]
pub struct UnreadNotificationCounts {
    pub highlight_count: u32,
    pub notification_count: u32,
}

#[derive(Debug)]
pub struct Timeline {
    pub limited: bool,
    pub prev_batch: String,
    pub events: Vec<Event>,
}

#[derive(Debug)]
pub struct State {
    pub events: Vec<Event>,
}

#[derive(Debug)]
pub struct AccountData {
    pub events: Vec<Event>,
}

#[derive(Debug)]
pub struct Ephemeral {
    pub events: Vec<Event>,
}

#[derive(Debug)]
pub struct Presence {
    pub events: Vec<Event>,
}

/// An event of a room.
#[derive(Debug)]
pub struct Event {
    pub content: EventContent,
    pub origin_server_ts: Option<u64>,
    pub sender: Option<String>,
    pub kind: String,
    pub unsigned: Option<Unsigned>,
    pub state_key: Option<String>,
}

#[derive(Debug)]
pub struct Unsigned {
    pub prev_content: Option<EventContent>,
    pub age: Option<u64>,
    pub transaction_id: Option<String>,
}

#[derive(Debug, Clone, Copy, PartialEq, Eq, Structural)]
pub enum Membership {
    Invite,
}

/// The content of an event; which fields are present depends on its kind.
#[derive(Debug)]
pub struct EventContent {
    pub body: Option<String>,
    pub msgtype: Option<String>,
    pub name: Option<String>,
    pub avatar_url: Option<String>,
    pub displayname: Option<String>,
    pub membership: Option<String>,
    pub topic: Option<String>,
    pub creator: Option<String>,
    pub m_federate: bool,
    pub join_rule: Option<String>,
    pub alias: Option<String>,
}

/// A page of older events of a room.
#[derive(Debug)]
pub struct Messages {
    pub start: String,
    pub chunk: Vec<Event>,
    pub end: String,
}

/// What the client keeps between runs.
#[derive(Debug)]
pub struct Session {
    pub user: Option<String>,
    pub pass: Option<String>,
    pub rooms: StrMap<Room>,
    pub next_batch: Option<String>,
    pub current_room_id: Option<String>,
}

impl Session {
    pub fn new() -> (s: Session)
        ensures
            s.user is None,
            s.pass is None,
            s.rooms@.len() == 0,
            s.next_batch is None,
            s.current_room_id is None,
    {
        Session { user: None, pass: None, rooms: StrMap::new(), next_batch: None, current_room_id: None }
    }
}

} // verus!
