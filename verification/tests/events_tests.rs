use codec::events::{get_event, get_message_from_event, message_from_event_at, get_new_events, get_room_events, get_rooms, room_from_joined, EventResult};
use codec::matrix::{AccountData, Ephemeral, Event, EventContent, JoinedRoom, Messages, Presence, Rooms, State, Sync, Timeline, UnreadNotificationCounts};
use codec::room::{Content, JoinRule, User};
use codec::strmap::StrMap;

fn content() -> EventContent {
    EventContent {
        body: None,
        msgtype: None,
        name: None,
        avatar_url: None,
        displayname: None,
        membership: None,
        topic: None,
        creator: None,
        m_federate: false,
        join_rule: None,
        alias: None,
    }
}

fn event(kind: &str, sender: Option<&str>, c: EventContent) -> Event {
    Event {
        content: c,
        origin_server_ts: None,
        sender: sender.map(|s| s.to_string()),
        kind: kind.to_string(),
        unsigned: None,
        state_key: None,
    }
}

fn text(sender: &str, body: &str, ts: u64) -> Event {
    let mut c = content();
    c.msgtype = Some("m.text".to_string());
    c.body = Some(body.to_string());
    let mut e = event("m.room.message", Some(sender), c);
    e.origin_server_ts = Some(ts);
    e
}

fn named(kind: &str, f: impl Fn(&mut EventContent)) -> Event {
    let mut c = content();
    f(&mut c);
    event(kind, Some("@s:x"), c)
}

fn create(creator: &str, federate: bool) -> Event {
    named("m.room.create", |c| {
        c.creator = Some(creator.to_string());
        c.m_federate = federate;
    })
}

fn member(id: &str, display: Option<&str>) -> Event {
    let mut c = content();
    c.displayname = display.map(|d| d.to_string());
    event("m.room.member", Some(id), c)
}

fn is_clock(t: &str) -> bool {
    let b = t.as_bytes();
    b.len() == 8
        && b[2] == b':'
        && b[5] == b':'
        && [0, 1, 3, 4, 6, 7].iter().all(|&i| b[i].is_ascii_digit())
}

fn joined(state: Vec<Event>, timeline: Vec<Event>, prev_batch: &str) -> JoinedRoom {
    JoinedRoom {
        unread_notifications: UnreadNotificationCounts { highlight_count: 0, notification_count: 0 },
        timeline: Timeline { limited: false, prev_batch: prev_batch.to_string(), events: timeline },
        state: State { events: state },
        account_data: AccountData { events: vec![] },
        ephemeral: Ephemeral { events: vec![] },
    }
}

fn sync_of(rooms: Vec<(&str, JoinedRoom)>) -> Sync {
    let mut join = StrMap::new();
    for (id, jr) in rooms {
        join.insert(id.to_string(), jr);
    }
    Sync { next_batch: "s2".to_string(), rooms: Rooms { join }, presence: Presence { events: vec![] } }
}

#[test]
fn room_name_event_names_the_room() {
    let e = named("m.room.name", |c| c.name = Some("Lounge".to_string()));
    assert_eq!(get_event(&e), EventResult::RoomName("Lounge".to_string()));
    let e = named("m.room.name", |_| {});
    assert_eq!(get_event(&e), EventResult::Unknown);
}

#[test]
fn canonical_alias_names_the_room() {
    let e = named("m.room.canonical_alias", |c| c.alias = Some("#lounge:x".to_string()));
    assert_eq!(get_event(&e), EventResult::RoomName("#lounge:x".to_string()));
}

#[test]
fn topic_create_member_join_rules() {
    let e = named("m.room.topic", |c| c.topic = Some("news".to_string()));
    assert_eq!(get_event(&e), EventResult::Topic("news".to_string()));
    assert_eq!(get_event(&create("@c:x", true)), EventResult::Creation("@c:x".to_string(), true));
    assert_eq!(get_event(&named("m.room.create", |_| {})), EventResult::Unknown);
    assert_eq!(
        get_event(&member("@a:x", Some("Alice"))),
        EventResult::User("@a:x".to_string(), User::new("@a:x".to_string(), Some("Alice".to_string())))
    );
    let e = named("m.room.join_rules", |c| c.join_rule = Some("invite".to_string()));
    assert_eq!(get_event(&e), EventResult::JoinRule(JoinRule::Invite));
    assert_eq!(get_event(&named("m.room.power_levels", |_| {})), EventResult::Unknown);
    assert_eq!(get_event(&named("m.room.aliases", |_| {})), EventResult::Unknown);
}

#[test]
fn text_message_is_read_with_a_clock_time() {
    let e = text("@a:x", "hello", 1_431_648_000_000);
    match get_event(&e) {
        EventResult::Message(m) => {
            assert_eq!(m.user, "@a:x");
            assert_eq!(m.content, Content::Text("hello".to_string()));
            assert!(is_clock(&m.time), "{}", m.time);
            assert_ne!(m.time, "1431648000000");
        },
        other => panic!("{:?}", other),
    }
}

#[test]
fn incomplete_messages_are_unknown() {
    let mut e = text("@a:x", "hello", 1000);
    e.content.msgtype = Some("m.image".to_string());
    assert!(get_message_from_event(&e).is_none());
    assert_eq!(get_event(&e), EventResult::Unknown);
    let mut e = text("@a:x", "hello", 1000);
    e.origin_server_ts = None;
    assert!(get_message_from_event(&e).is_none());
    let mut e = text("@a:x", "hello", 1000);
    e.sender = None;
    assert!(get_message_from_event(&e).is_none());
    let mut e = text("@a:x", "hello", 1000);
    e.content.body = None;
    assert!(get_message_from_event(&e).is_none());
    let mut e = text("@a:x", "hello", 1000);
    e.kind = "m.room.topic".to_string();
    assert!(get_message_from_event(&e).is_none());
}

#[test]
fn new_events_put_messages_last() {
    let tl = vec![
        text("@a:x", "one", 1000),
        named("m.room.topic", |c| c.topic = Some("t".to_string())),
        text("@b:x", "two", 2000),
        member("@c:x", None),
    ];
    let sync = sync_of(vec![("!r:x", joined(vec![], tl, "p9"))]);
    let r = get_new_events(&sync);
    assert_eq!(r.len(), 1);
    assert_eq!(r.key_at(0), "!r:x");
    let (evs, pb) = r.value_at(0);
    assert_eq!(pb, "p9");
    assert_eq!(evs.len(), 4);
    assert_eq!(evs[0], EventResult::Topic("t".to_string()));
    assert_eq!(evs[1], EventResult::User("@c:x".to_string(), User::new("@c:x".to_string(), None)));
    match (&evs[2], &evs[3]) {
        (EventResult::Message(a), EventResult::Message(b)) => {
            assert_eq!(a.content, Content::Text("one".to_string()));
            assert_eq!(b.content, Content::Text("two".to_string()));
        },
        other => panic!("{:?}", other),
    }
}

#[test]
fn rooms_of_a_sync_take_their_state() {
    let state = vec![
        create("@c:x", false),
        named("m.room.name", |c| c.name = Some("First".to_string())),
        named("m.room.name", |c| c.name = Some("Second".to_string())),
        named("m.room.topic", |c| c.topic = Some("talk".to_string())),
        named("m.room.join_rules", |c| c.join_rule = Some("public".to_string())),
        member("@a:x", Some("Alice")),
        text("@a:x", "from state", 5000),
    ];
    let tl = vec![text("@a:x", "from timeline", 6000), named("m.room.topic", |c| c.topic = Some("ignored".to_string()))];
    let sync = sync_of(vec![("!r:x", joined(state, tl, "pb"))]);
    let (rooms, events) = get_rooms(&sync);
    assert_eq!(rooms.len(), 1);
    let room = rooms.value_at(0);
    assert_eq!(room.id, "!r:x");
    assert_eq!(room.name, "Second");
    assert_eq!(room.topic, Some("talk".to_string()));
    assert_eq!(room.prev_batch, "pb");
    assert_eq!(room.creator, "@c:x");
    assert!(!room.federate);
    assert_eq!(room.join_rule, JoinRule::Public);
    assert!(room.messages.is_empty());
    assert_eq!(room.users.keys(), vec!["@a:x".to_string()]);
    let evs = events.value_at(0);
    assert_eq!(events.key_at(0), "!r:x");
    assert_eq!(evs.len(), 2);
    match (&evs[0], &evs[1]) {
        (EventResult::Message(a), EventResult::Message(b)) => {
            assert_eq!(a.content, Content::Text("from state".to_string()));
            assert_eq!(b.content, Content::Text("from timeline".to_string()));
        },
        other => panic!("{:?}", other),
    }
}

#[test]
fn unnamed_room_takes_member_names() {
    let state = vec![create("@c:x", true), member("@a:x", Some("Alice")), member("@b:x", None)];
    let (room, evs) = room_from_joined(&"!r:x".to_string(), &joined(state, vec![], "pb"));
    assert_eq!(room.name, "Alice, @b:x");
    assert!(room.federate);
    assert!(evs.is_empty());
}

#[test]
fn unnamed_room_without_members_shows_its_id() {
    let (room, _) = room_from_joined(&"!r:x".to_string(), &joined(vec![create("@c:x", true)], vec![], "pb"));
    assert_eq!(room.name, "(no name), id :!r:x");
    assert_eq!(room.join_rule, JoinRule::NotSet);
}

#[test]
fn later_member_event_replaces_earlier() {
    let state = vec![create("@c:x", true), member("@a:x", None), member("@a:x", Some("A"))];
    let (room, _) = room_from_joined(&"!r:x".to_string(), &joined(state, vec![], "pb"));
    assert_eq!(room.users.len(), 1);
    assert_eq!(room.users.get(&"@a:x".to_string()).unwrap().get_name(), "A");
    assert_eq!(room.name, "A");
}

#[test]
fn room_events_read_each_event() {
    let msgs = Messages {
        start: "a".to_string(),
        chunk: vec![named("m.room.topic", |c| c.topic = Some("x".to_string())), text("@a:x", "m", 7000)],
        end: "b".to_string(),
    };
    let r = get_room_events(&msgs);
    assert_eq!(r.len(), 2);
    assert_eq!(r[0], EventResult::Topic("x".to_string()));
    assert!(matches!(r[1], EventResult::Message(_)));
}

#[test]
fn message_in_utc_shows_utc_time() {
    let e = text("@a:x", "hi", 3_723_999);
    let m = message_from_event_at(&e, 0).expect("a text message");
    assert_eq!(m.user, "@a:x");
    assert_eq!(m.time, "01:02:03");
    assert_eq!(m.content, Content::Text("hi".to_string()));
    let mut other = text("@a:x", "hi", 3_723_999);
    other.content.msgtype = None;
    assert!(message_from_event_at(&other, 0).is_none());
}
