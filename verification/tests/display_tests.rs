use codec::display::process_events_for_room;
use codec::events::EventResult;
use codec::room::{Content, JoinRule, Message, Room, User};
use codec::ui::{UiAction, UiCon, UiMaster};

fn ui(current: Option<&str>, con: bool) -> UiMaster {
    let mut u = UiMaster::new();
    if let Some(c) = current {
        u.rooms = vec![c.to_string()];
    }
    if con {
        u.con = Some(UiCon {});
    }
    u
}

fn room() -> Room {
    let mut r = Room::new("!r:x", "Lounge", "p0", "@c:x", true, JoinRule::Public);
    r.users.insert("@a:x".to_string(), User::new("@a:x".to_string(), Some("Alice".to_string())));
    r
}

fn msg(user: &str, body: &str) -> EventResult {
    EventResult::Message(Message::new(user, "10:11:12", Content::Text(body.to_string())))
}

#[test]
fn without_window_nothing_is_applied() {
    let mut r = room();
    let acts = process_events_for_room(&ui(None, false), &mut r, vec![EventResult::RoomName("N".to_string()), msg("@a:x", "hi")], false);
    assert!(acts.is_empty());
    assert_eq!(r.name, "Lounge");
    assert!(r.messages.is_empty());
}

#[test]
fn message_to_another_room_notifies() {
    let mut r = room();
    let acts = process_events_for_room(&ui(Some("!other:x"), true), &mut r, vec![msg("@a:x", "hi")], false);
    let name = "<color=#ff0000>Alice</color>".to_string();
    assert_eq!(
        acts,
        vec![
            UiAction::AddRoomText("!r:x".to_string(), name.clone(), "10:11:12".to_string(), "hi".to_string(), false),
            UiAction::Notify("Lounge".to_string(), name, "hi".to_string()),
        ]
    );
    assert_eq!(r.messages.len(), 1);
}

#[test]
fn message_to_the_shown_room_does_not_notify() {
    let mut r = room();
    let acts = process_events_for_room(&ui(Some("!r:x"), true), &mut r, vec![msg("@zed:x", "yo")], false);
    assert_eq!(
        acts,
        vec![UiAction::AddRoomText(
            "!r:x".to_string(),
            "<color=#ff0000>cannot find user</color>".to_string(),
            "10:11:12".to_string(),
            "yo".to_string(),
            false
        )]
    );
}

#[test]
fn state_events_change_the_room() {
    let mut r = room();
    let acts = process_events_for_room(
        &ui(None, true),
        &mut r,
        vec![
            EventResult::RoomName("New".to_string()),
            EventResult::Topic("t".to_string()),
            EventResult::User("@b:x".to_string(), User::new("@b:x".to_string(), None)),
            EventResult::Creation("@d:x".to_string(), false),
            EventResult::JoinRule(JoinRule::Invite),
            EventResult::Unknown,
            msg("@b:x", "after"),
        ],
        false,
    );
    assert_eq!(r.name, "New");
    assert_eq!(r.topic, Some("t".to_string()));
    assert_eq!(r.users.len(), 2);
    assert_eq!(r.creator, "@d:x");
    assert!(!r.federate);
    assert_eq!(r.join_rule, JoinRule::Invite);
    assert_eq!(acts[0], UiAction::SetRoomTitle("!r:x".to_string(), "New".to_string()));
    assert_eq!(
        acts[1],
        UiAction::AddRoomText("!r:x".to_string(), "<color=#ff0000>@b:x</color>".to_string(), "10:11:12".to_string(), "after".to_string(), false)
    );
    assert_eq!(acts[2], UiAction::Notify("New".to_string(), "<color=#ff0000>@b:x</color>".to_string(), "after".to_string()));
    assert_eq!(acts.len(), 3);
}

#[test]
fn history_adds_only_messages() {
    let mut r = room();
    let acts = process_events_for_room(
        &ui(None, true),
        &mut r,
        vec![EventResult::RoomName("Old".to_string()), msg("@a:x", "earlier")],
        true,
    );
    assert_eq!(r.name, "Lounge");
    assert_eq!(r.messages.len(), 1);
    assert_eq!(
        acts,
        vec![UiAction::AddRoomText(
            "!r:x".to_string(),
            "<color=#ff0000>Alice</color>".to_string(),
            "10:11:12".to_string(),
            "earlier".to_string(),
            true
        )]
    );
}
