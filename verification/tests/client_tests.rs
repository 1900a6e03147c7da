use codec::client::{App, Core, HistoryRequest};
use codec::connection::ConnectionState;
use codec::events::EventResult;
use codec::matrix::{AccountData, Ephemeral, Event, EventContent, JoinedRoom, Presence, Rooms, Session, State, Sync, Timeline, UnreadNotificationCounts};
use codec::room::{Content, JoinRule, Message, Room};
use codec::strmap::StrMap;
use codec::ui::{UiAction, UiCon};

fn content() -> EventContent {
    EventContent {
        body: None,
        msgtype: None,
        name: None,
        avatar_url: None,
        displayname: None,
        membership: None,
        topic: None,
        creator: None,
        m_federate: true,
        join_rule: None,
        alias: None,
    }
}

fn event(kind: &str, c: EventContent) -> Event {
    Event { content: c, origin_server_ts: Some(1000), sender: Some("@a:x".to_string()), kind: kind.to_string(), unsigned: None, state_key: None }
}

fn text(body: &str) -> Event {
    let mut c = content();
    c.msgtype = Some("m.text".to_string());
    c.body = Some(body.to_string());
    event("m.room.message", c)
}

fn joined(name: &str, timeline: Vec<Event>, pb: &str) -> JoinedRoom {
    let mut cc = content();
    cc.creator = Some("@c:x".to_string());
    let mut nc = content();
    nc.name = Some(name.to_string());
    JoinedRoom {
        unread_notifications: UnreadNotificationCounts { highlight_count: 0, notification_count: 0 },
        timeline: Timeline { limited: false, prev_batch: pb.to_string(), events: timeline },
        state: State { events: vec![event("m.room.create", cc), event("m.room.name", nc)] },
        account_data: AccountData { events: vec![] },
        ephemeral: Ephemeral { events: vec![] },
    }
}

fn sync_of(next: &str, rooms: Vec<(&str, JoinedRoom)>) -> Sync {
    let mut join = StrMap::new();
    for (id, jr) in rooms {
        join.insert(id.to_string(), jr);
    }
    Sync { next_batch: next.to_string(), rooms: Rooms { join }, presence: Presence { events: vec![] } }
}

fn session_with(rooms: &[(&str, &str)], current: Option<&str>) -> Session {
    let mut s = Session::new();
    for (id, name) in rooms {
        s.rooms.insert(id.to_string(), Room::new(id, name, "p", "@c:x", true, JoinRule::Public));
    }
    s.current_room_id = current.map(|c| c.to_string());
    s
}

#[test]
fn new_session_is_empty() {
    let s = Session::new();
    assert!(s.user.is_none() && s.pass.is_none() && s.next_batch.is_none() && s.current_room_id.is_none());
    assert_eq!(s.rooms.len(), 0);
}

#[test]
fn core_starts_from_the_session() {
    let mut s = session_with(&[("!a:x", "A"), ("!b:x", "B")], Some("!b:x"));
    s.next_batch = Some("kept".to_string());
    let c = Core::new(s);
    assert_eq!(c.rooms.keys(), vec!["!a:x".to_string(), "!b:x".to_string()]);
    assert_eq!(c.ui.rooms, vec!["!a:x".to_string(), "!b:x".to_string()]);
    assert_eq!(c.ui.current, 1);
    assert_eq!(c.con.next_batch, Some("kept".to_string()));
    assert_eq!(c.con.state, ConnectionState::Offline);
    assert!(!c.con.past);
    assert!(c.ui.con.is_none());
}

#[test]
fn app_start_shows_rooms_and_logs_in() {
    let mut s = session_with(&[("!a:x", "A")], None);
    s.user = Some("alice".to_string());
    s.pass = Some("pw".to_string());
    let (app, start) = App::new(s);
    assert_eq!(
        start.actions,
        vec![
            UiAction::NewRoom("!a:x".to_string()),
            UiAction::SetRoomTitle("!a:x".to_string(), "A".to_string()),
            UiAction::ShowRoom("!a:x".to_string()),
        ]
    );
    let login = start.login.expect("login");
    assert_eq!(login.actions, vec![UiAction::SetLoginVisible(false), UiAction::SetLoadingVisible(true)]);
    assert_eq!(login.request.body, "{\"type\":\"m.login.password\",\"user\":\"alice\",\"password\":\"pw\"}");
    assert_eq!(app.core.con.state, ConnectionState::Login);
}

#[test]
fn app_start_without_credentials_waits() {
    let (app, start) = App::new(session_with(&[], Some("!gone:x")));
    assert!(start.actions.is_empty());
    assert!(start.login.is_none());
    assert_eq!(app.core.con.state, ConnectionState::Offline);
    assert_eq!(app.core.ui.current, 0);
}

#[test]
fn save_writes_rooms_position_and_current() {
    let (mut app, _) = App::new(session_with(&[("!a:x", "A")], None));
    app.core.rooms.insert("!b:x".to_string(), Room::new("!b:x", "B", "p", "@c:x", true, JoinRule::Public));
    app.core.con.next_batch = Some("s5".to_string());
    app.save();
    assert_eq!(app.core.session.rooms.keys(), vec!["!a:x".to_string(), "!b:x".to_string()]);
    assert_eq!(app.core.session.next_batch, Some("s5".to_string()));
    assert_eq!(app.core.session.current_room_id, Some("!a:x".to_string()));
    let restarted = Core::new(app.core.session);
    assert_eq!(restarted.rooms.get(&"!b:x".to_string()).unwrap().name, "B");
}

#[test]
fn login_without_window_is_not_started() {
    let mut c = Core::new(Session::new());
    assert!(c.request_login("u", "p").is_none());
    assert_eq!(c.con.state, ConnectionState::Offline);
    assert!(c.save_and_request_login("u", "p").is_none());
    assert_eq!(c.session.user, Some("u".to_string()));
    assert_eq!(c.session.pass, Some("p".to_string()));
}

#[test]
fn login_success_announces_full_sync() {
    let mut c = Core::new(Session::new());
    c.ui.con = Some(UiCon {});
    assert!(c.request_login("u", "p").is_some());
    assert_eq!(c.on_login("tok".to_string()), vec![UiAction::SetLoadingText("syncing all".to_string())]);
    assert_eq!(c.con.state, ConnectionState::SyncAll);
}

#[test]
fn full_sync_replaces_rooms() {
    let mut c = Core::new(Session::new());
    c.ui.con = Some(UiCon {});
    c.on_login("tok".to_string());
    let sync = sync_of("s1", vec![("!a:x", joined("Alpha", vec![text("hi")], "pa"))]);
    let out = c.on_sync(&sync);
    assert!(out.history.is_empty());
    assert_eq!(c.con.state, ConnectionState::SyncLoop);
    assert_eq!(c.con.next_batch, Some("s1".to_string()));
    assert_eq!(c.ui.rooms, vec!["!a:x".to_string()]);
    assert_eq!(out.actions[0], UiAction::SetLoadingVisible(false));
    assert_eq!(out.actions[1], UiAction::SetChatVisible(true));
    assert_eq!(out.actions[2], UiAction::NewRoom("!a:x".to_string()));
    assert_eq!(out.actions[3], UiAction::SetRoomTitle("!a:x".to_string(), "Alpha".to_string()));
    assert!(matches!(out.actions[4], UiAction::AddRoomText(..)));
    assert!(matches!(out.actions[5], UiAction::Notify(..)));
    assert_eq!(out.actions[6], UiAction::ShowRoom("!a:x".to_string()));
    assert_eq!(out.actions.len(), 7);
    assert_eq!(c.rooms.value_at(0).messages.len(), 1);
}

#[test]
fn first_sync_after_restart_asks_history() {
    let mut s = session_with(&[("!a:x", "A"), ("!b:x", "B")], Some("!a:x"));
    s.next_batch = Some("kept".to_string());
    let mut c = Core::new(s);
    c.ui.con = Some(UiCon {});
    assert!(c.on_login("tok".to_string()).is_empty());
    let sync = sync_of("s1", vec![("!b:x", joined("ignored", vec![text("new")], "pb2")), ("!zz:x", joined("Z", vec![], "pz"))]);
    let out = c.on_sync(&sync);
    assert_eq!(c.rooms.len(), 2);
    assert_eq!(c.rooms.get(&"!b:x".to_string()).unwrap().prev_batch, "pb2");
    assert_eq!(c.rooms.get(&"!b:x".to_string()).unwrap().messages.len(), 1);
    assert_eq!(
        out.history,
        vec![
            HistoryRequest { room_id: "!a:x".to_string(), from: "p".to_string() },
            HistoryRequest { room_id: "!b:x".to_string(), from: "pb2".to_string() },
        ]
    );
    assert_eq!(out.actions[0], UiAction::SetLoadingVisible(false));
    let out2 = c.on_sync(&sync_of("s2", vec![]));
    assert!(out2.history.is_empty());
    assert_eq!(c.con.next_batch, Some("s2".to_string()));
}

#[test]
fn sync_before_login_is_ignored() {
    let mut c = Core::new(Session::new());
    let out = c.on_sync(&sync_of("s1", vec![("!a:x", joined("A", vec![], "p"))]));
    assert!(out.actions.is_empty() && out.history.is_empty());
    assert_eq!(c.rooms.len(), 0);
    assert_eq!(c.con.next_batch, Some("s1".to_string()));
}

#[test]
fn history_adds_older_messages() {
    let mut c = Core::new(session_with(&[("!a:x", "A")], None));
    c.ui.con = Some(UiCon {});
    let m = Message::new("@a:x", "00:00:01", Content::Text("old".to_string()));
    let acts = c.on_history(&"!a:x".to_string(), vec![EventResult::Topic("x".to_string()), EventResult::Message(m)]);
    assert_eq!(acts.len(), 1);
    assert_eq!(c.rooms.value_at(0).messages.len(), 1);
    assert!(c.rooms.value_at(0).topic.is_none());
    assert!(c.on_history(&"!none:x".to_string(), vec![]).is_empty());
}

#[test]
fn tab_key_moves_on() {
    let (mut app, _) = App::new(session_with(&[("!a:x", "A"), ("!b:x", "B")], None));
    assert!(app.core.handle_key("", "Return").is_empty());
    assert_eq!(app.core.handle_key("", "Tab"), vec![UiAction::ShowRoom("!b:x".to_string())]);
    assert_eq!(app.core.handle_key("Shift", "Tab"), vec![UiAction::ShowRoom("!a:x".to_string())]);
}
