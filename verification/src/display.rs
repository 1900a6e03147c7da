//! Applying the events of a room to it, and what the window is asked to show meanwhile.
use crate::events::EventResult;
use crate::room::{user_name, Content, Message, Room, RoomView};
use crate::strmap::{insert_entry, lookup};
use crate::ui::{actions_view, UiAction, UiActionView, UiMaster};
use vstd::prelude::*;
use vstd::string::StringExecFns;

verus! {

/// How a sender is shown: the member's name, in colour, or a placeholder for a sender that
/// is no member.
pub open spec fn shown_sender(rv: RoomView, user: Seq<char>) -> Seq<char> {
    let name = match lookup(rv.users, user) {
        Some(u) => user_name(u),
        None => "cannot find user"@,
    };
    "<color=#ff0000>"@ + name + "</color>"@
}

/// One event applied to a room: the room after it and what the window is asked.
/// `current` is the id of the room that the window shows; `history` marks older history, of
/// which only messages are applied.
pub open spec fn event_step(
    current: Option<Seq<char>>,
    rv: RoomView,
    e: EventResult,
    history: bool,
) -> (RoomView, Seq<UiActionView>) {
    if history && !(e is Message) {
        (rv, Seq::empty())
    } else {
        match e {
            EventResult::Unknown => (rv, Seq::empty()),
            EventResult::RoomName(n) => (
                RoomView { name: n@, ..rv },
                seq![UiActionView::SetRoomTitle(rv.id, n@)],
            ),
            EventResult::Message(m) => {
                let Content::Text(t) = m.content;
                let sender = shown_sender(rv, m.user@);
                let add = UiActionView::AddRoomText(rv.id, sender, m.time@, t@, history);
                let acts = if !history && current != Some(rv.id) {
                    seq![add, UiActionView::Notify(rv.name, sender, t@)]
                } else {
                    seq![add]
                };
                (RoomView { messages: rv.messages.push(m), ..rv }, acts)
            },
            EventResult::Topic(t) => (RoomView { topic: Some(t@), ..rv }, Seq::empty()),
            EventResult::User(id, u) => (
                RoomView { users: insert_entry(rv.users, id@, u), ..rv },
                Seq::empty(),
            ),
            EventResult::Creation(c, f) => (
                RoomView { creator: c@, federate: f, ..rv },
                Seq::empty(),
            ),
            EventResult::JoinRule(j) => (RoomView { join_rule: j, ..rv }, Seq::empty()),
        }
    }
}

/// The events `es` applied to a room in order: the room after them, and what the window is
/// asked, in order.
pub open spec fn apply_events(
    current: Option<Seq<char>>,
    rv: RoomView,
    es: Seq<EventResult>,
    history: bool,
) -> (RoomView, Seq<UiActionView>)
    decreases es.len(),
{
    if es.len() == 0 {
        (rv, Seq::empty())
    } else {
        let (r1, a1) = apply_events(current, rv, es.drop_last(), history);
        let (r2, a2) = event_step(current, r1, es.last(), history);
        (r2, a1 + a2)
    }
}

/// The messages among `es`, in order.
pub open spec fn messages_of(es: Seq<EventResult>) -> Seq<Message>
    decreases es.len(),
{
    if es.len() == 0 {
        Seq::empty()
    } else {
        match es.last() {
            EventResult::Message(m) => messages_of(es.drop_last()).push(m),
            _ => messages_of(es.drop_last()),
        }
    }
}

/// Whether a request notifies of a message.
pub open spec fn is_notify(a: UiActionView) -> bool {
    a is Notify
}

/// Applying events appends to a room's messages exactly the messages among them, in order,
/// and never changes the room's id. Older history changes nothing else of the room, and no
/// notification comes of it; neither does one come of a message to the room shown.
pub proof fn lemma_messages_appended(
    current: Option<Seq<char>>,
    rv: RoomView,
    es: Seq<EventResult>,
    history: bool,
)
    ensures
        apply_events(current, rv, es, history).0.messages == rv.messages + messages_of(es),
        apply_events(current, rv, es, history).0.id == rv.id,
        history ==> apply_events(current, rv, es, history).0 == (RoomView {
            messages: rv.messages + messages_of(es),
            ..rv
        }),
        history || current == Some(rv.id) ==> forall|i: int|
            0 <= i < apply_events(current, rv, es, history).1.len() ==> !is_notify(
                #[trigger] apply_events(current, rv, es, history).1[i],
            ),
    decreases es.len(),
{
    if es.len() > 0 {
        lemma_messages_appended(current, rv, es.drop_last(), history);
        let (r1, a1) = apply_events(current, rv, es.drop_last(), history);
        let (r2, a2) = event_step(current, r1, es.last(), history);
        assert(r2.messages =~= rv.messages + messages_of(es));
        if history {
            assert(r2 == (RoomView { messages: rv.messages + messages_of(es), ..rv }));
        }
        if history || current == Some(rv.id) {
            assert forall|i: int| 0 <= i < (a1 + a2).len() implies !is_notify(#[trigger] (a1 + a2)[i]) by {
                if i < a1.len() {
                    assert((a1 + a2)[i] == a1[i]);
                }
            }
        }
    }
}

/// A new message, outside older history, to a room that the window does not show is
/// added in its room under its sender's coloured name, and a notification of it follows
/// right after, whatever the room held before: the window is asked exactly these two
/// things for it, and the room keeps it as its last message.
pub proof fn lemma_message_to_other_room_notifies(
    current: Option<Seq<char>>,
    rv: RoomView,
    es: Seq<EventResult>,
    m: Message,
)
    requires
        current != Some(rv.id),
    ensures
        ({
            let (r1, a1) = apply_events(current, rv, es, false);
            let (r2, a2) = apply_events(current, rv, es.push(EventResult::Message(m)), false);
            let Content::Text(t) = m.content;
            let name = match lookup(r1.users, m.user@) {
                Some(u) => user_name(u),
                None => "cannot find user"@,
            };
            let shown = "<color=#ff0000>"@ + name + "</color>"@;
            &&& a2 == a1 + seq![
                UiActionView::AddRoomText(rv.id, shown, m.time@, t@, false),
                UiActionView::Notify(r1.name, shown, t@),
            ]
            &&& r2 == (RoomView { messages: r1.messages.push(m), ..r1 })
        }),
{
    lemma_messages_appended(current, rv, es, false);
    assert(es.push(EventResult::Message(m)).drop_last() =~= es);
}

/// Applies events to a room and says what the window is to show of them. Without a window
/// nothing is applied.
pub fn process_events_for_room(
    ui: &UiMaster,
    room: &mut Room,
    events: Vec<EventResult>,
    history: bool,
) -> (r: Vec<UiAction>)
    ensures
        ui.con is None ==> final(room)@ == old(room)@ && r@.len() == 0,
        ui.con is Some ==> (final(room)@, actions_view(r@)) == apply_events(
            ui.current_id(),
            old(room)@,
            events@,
            history,
        ),
{
    let mut actions: Vec<UiAction> = Vec::new();
    if ui.con.is_none() {
        return actions;
    }
    let ghost all = events@;
    assert(all.len() == events.len());
    let ghost current = ui.current_id();
    let mut evs = events;
    let mut i: usize = 0;
    while evs.len() > 0
        invariant
            ui.con is Some,
            current == ui.current_id(),
            i <= all.len(),
            evs@ == all.skip(i as int),
            all.len() <= usize::MAX,
            (room@, actions_view(actions@)) == apply_events(current, old(room)@, all.take(i as int), history),
        decreases evs@.len(),
    {
        let e = evs.remove(0);
        assert(all.take(i + 1).drop_last() =~= all.take(i as int));
        assert(all.take(i + 1).last() == e);
        let ghost before = room@;
        let ghost acts_before = actions@;
        match e {
            EventResult::Message(m) => {
                let Content::Text(t) = &m.content;
                let user: &str = match room.users.get(&m.user) {
                    Some(u) => u.get_name(),
                    None => "cannot find user",
                };
                let mut name = "<color=#ff0000>".to_owned();
                name.append(user);
                name.append("</color>");
                actions.push(UiAction::AddRoomText(room.id.clone(), name.clone(), m.time.clone(), t.clone(), history));
                let cur = ui.get_current_id();
                let is_current = match &cur {
                    Some(o) => *o == room.id,
                    None => false,
                };
                if !history && !is_current {
                    actions.push(UiAction::Notify(room.name.clone(), name, t.clone()));
                }
                room.messages.push(m);
            },
            EventResult::Unknown => {},
            EventResult::RoomName(n) => {
                if !history {
                    room.name = n;
                    actions.push(UiAction::SetRoomTitle(room.id.clone(), room.name.clone()));
                }
            },
            EventResult::Topic(t) => {
                if !history {
                    room.topic = Some(t);
                }
            },
            EventResult::User(user_id, user) => {
                if !history {
                    room.users.insert(user_id, user);
                }
            },
            EventResult::Creation(creator_id, fed) => {
                if !history {
                    room.creator = creator_id;
                    room.federate = fed;
                }
            },
            EventResult::JoinRule(jr) => {
                if !history {
                    room.join_rule = jr;
                }
            },
        }
        proof {
            let (r2, a2) = event_step(current, before, all[i as int], history);
            assert(room@ == r2);
            assert(actions_view(actions@) =~= actions_view(acts_before) + a2);
        }
        assert(evs@ =~= all.skip(i + 1));
        i = i + 1;
    }
    assert(all.take(i as int) =~= all);
    actions
}

} // verus!
