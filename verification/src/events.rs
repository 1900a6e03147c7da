//! Reading room events: what each event means for the room it belongs to.
use crate::clock::{
    clock_text, clock_time_at, local_offset, local_time_of, offset_ok, time_of_day, MAX_TIMESTAMP_MS,
};
use crate::matrix::{Event, JoinedRoom, Messages, Sync};
use crate::room::{get_join_rule, join_rule_of, opt_view, str_equals, user_name, Content, JoinRule, Message, Room, RoomView, User};
use crate::strmap::{insert_entry, keys_distinct, lemma_insert_then_lookup, lookup, StrMap};
use vstd::prelude::*;
use vstd::string::StringExecFns;

verus! {

/// What an event means for its room.
#[derive(Debug, PartialEq, Eq)]
pub enum EventResult {
    Unknown,
    RoomName(String),
    Message(Message),
    Topic(String),
    User(String, User),
    Creation(String, bool),
    JoinRule(JoinRule),
}

/// A text message that carries everything a shown message needs.
pub open spec fn is_text_message(e: Event) -> bool {
    &&& e.kind@ == "m.room.message"@
    &&& e.content.msgtype is Some
    &&& e.content.body is Some
    &&& e.content.msgtype->0@ == "m.text"@
    &&& e.sender is Some
    &&& e.origin_server_ts is Some
}

/// `m` is the message that the text message `e` shows at the offset `offset` seconds east
/// of UTC: its sender, its body, and the local time of day of its timestamp.
pub open spec fn message_at(e: Event, m: Message, offset: int) -> bool {
    &&& m.user@ == e.sender->0@
    &&& m.content == Content::Text(e.content.body->0)
    &&& m.time@ == clock_text(time_of_day((e.origin_server_ts->0 / 1000) as int, offset))
}

/// `m` is the message that the text message `e` shows: its sender, its body, and the local
/// time of day of its timestamp at the machine's offset from UTC.
pub open spec fn message_from(e: Event, m: Message) -> bool {
    &&& m.user@ == e.sender->0@
    &&& m.content == Content::Text(e.content.body->0)
    &&& local_time_of(e.origin_server_ts->0, m.time@)
}

/// The timestamp of a text message lies in the calendar's range.
pub open spec fn timestamp_in_range(e: Event) -> bool {
    is_text_message(e) ==> e.origin_server_ts->0 <= MAX_TIMESTAMP_MS
}

/// An event that can be read: a membership event names its sender, a join-rules event
/// states its rule, and a text message has a timestamp in range.
pub open spec fn event_wf(e: Event) -> bool {
    &&& e.kind@ == "m.room.member"@ ==> e.sender is Some
    &&& e.kind@ == "m.room.join_rules"@ ==> e.content.join_rule is Some
    &&& timestamp_in_range(e)
}

/// What an event means, for every event but a text message.
pub open spec fn plain_result(e: Event) -> EventResult {
    if e.kind@ == "m.room.name"@ {
        match e.content.name {
            Some(n) => EventResult::RoomName(n),
            None => EventResult::Unknown,
        }
    } else if e.kind@ == "m.room.message"@ {
        EventResult::Unknown
    } else if e.kind@ == "m.room.topic"@ {
        match e.content.topic {
            Some(t) => EventResult::Topic(t),
            None => EventResult::Unknown,
        }
    } else if e.kind@ == "m.room.member"@ {
        EventResult::User(e.sender->0, User { id: e.sender->0, display_name: e.content.displayname })
    } else if e.kind@ == "m.room.create"@ {
        match e.content.creator {
            Some(c) => EventResult::Creation(c, e.content.m_federate),
            None => EventResult::Unknown,
        }
    } else if e.kind@ == "m.room.join_rules"@ {
        EventResult::JoinRule(join_rule_of(e.content.join_rule->0@))
    } else if e.kind@ == "m.room.canonical_alias"@ {
        match e.content.alias {
            Some(a) => EventResult::RoomName(a),
            None => EventResult::Unknown,
        }
    } else {
        EventResult::Unknown
    }
}

/// `r` is what `e` means: a text message gives its message, any other event its plain
/// result.
pub open spec fn result_of(e: Event, r: EventResult) -> bool {
    if is_text_message(e) {
        r matches EventResult::Message(m) && message_from(e, m)
    } else {
        r == plain_result(e)
    }
}

/// `rs` holds, one for one and in order, what the events `es` mean.
pub open spec fn results_of(es: Seq<Event>, rs: Seq<EventResult>) -> bool {
    &&& rs.len() == es.len()
    &&& forall|i: int| 0 <= i < es.len() ==> #[trigger] result_of(es[i], rs[i])
}

/// The text messages among `es`, in order.
pub open spec fn text_events(es: Seq<Event>) -> Seq<Event>
    decreases es.len(),
{
    if es.len() == 0 {
        Seq::empty()
    } else if is_text_message(es.last()) {
        text_events(es.drop_last()).push(es.last())
    } else {
        text_events(es.drop_last())
    }
}

/// The events of `es` that are not text messages, in order.
pub open spec fn other_events(es: Seq<Event>) -> Seq<Event>
    decreases es.len(),
{
    if es.len() == 0 {
        Seq::empty()
    } else if is_text_message(es.last()) {
        other_events(es.drop_last())
    } else {
        other_events(es.drop_last()).push(es.last())
    }
}

pub open spec fn all_wf(es: Seq<Event>) -> bool {
    forall|i: int| 0 <= i < es.len() ==> #[trigger] event_wf(es[i])
}

/// The event kinds that the client reads are distinct texts.
pub proof fn lemma_kinds_distinct()
    ensures
        "m.room.message"@ != "m.room.name"@,
        "m.room.message"@ != "m.room.topic"@,
        "m.room.message"@ != "m.room.member"@,
        "m.room.message"@ != "m.room.create"@,
        "m.room.message"@ != "m.room.join_rules"@,
        "m.room.message"@ != "m.room.canonical_alias"@,
        "m.room.name"@ != "m.room.topic"@,
        "m.room.name"@ != "m.room.member"@,
        "m.room.name"@ != "m.room.create"@,
        "m.room.name"@ != "m.room.join_rules"@,
        "m.room.name"@ != "m.room.canonical_alias"@,
        "m.room.topic"@ != "m.room.member"@,
        "m.room.topic"@ != "m.room.create"@,
        "m.room.topic"@ != "m.room.join_rules"@,
        "m.room.topic"@ != "m.room.canonical_alias"@,
        "m.room.member"@ != "m.room.create"@,
        "m.room.member"@ != "m.room.join_rules"@,
        "m.room.member"@ != "m.room.canonical_alias"@,
        "m.room.create"@ != "m.room.join_rules"@,
        "m.room.create"@ != "m.room.canonical_alias"@,
        "m.room.join_rules"@ != "m.room.canonical_alias"@,
{
    reveal_strlit("m.room.message");
    reveal_strlit("m.room.name");
    reveal_strlit("m.room.topic");
    reveal_strlit("m.room.member");
    reveal_strlit("m.room.create");
    reveal_strlit("m.room.join_rules");
    reveal_strlit("m.room.canonical_alias");
    assert("m.room.message"@.len() == 14);
    assert("m.room.name"@.len() == 11);
    assert("m.room.topic"@.len() == 12);
    assert("m.room.member"@.len() == 13);
    assert("m.room.create"@.len() == 13);
    assert("m.room.join_rules"@.len() == 17);
    assert("m.room.canonical_alias"@.len() == 22);
    assert("m.room.member"@[7] != "m.room.create"@[7]);
}

/// Only three things make an event unreadable: a membership event without a sender, a
/// join-rules event without a rule, and a text message whose timestamp lies past the
/// calendar. Every other event can be read, a message of another kind than text (an image,
/// a notice) among them.
pub proof fn lemma_other_events_readable(e: Event)
    requires
        e.kind@ != "m.room.member"@,
        e.kind@ != "m.room.join_rules"@,
        !is_text_message(e),
    ensures
        event_wf(e),
{
}

/// A room message that is not a text message can always be read, whatever its content.
pub proof fn lemma_non_text_messages_readable(e: Event)
    requires
        e.kind@ == "m.room.message"@,
        !is_text_message(e),
    ensures
        event_wf(e),
{
    lemma_kinds_distinct();
    lemma_other_events_readable(e);
}

/// Whether an event can be read.
pub fn event_is_readable(e: &Event) -> (b: bool)
    ensures
        b == event_wf(*e),
{
    let member_ok = !str_equals(e.kind.as_str(), "m.room.member") || e.sender.is_some();
    let rule_ok = !str_equals(e.kind.as_str(), "m.room.join_rules") || e.content.join_rule.is_some();
    let text = str_equals(e.kind.as_str(), "m.room.message") && e.content.body.is_some()
        && e.sender.is_some() && match &e.content.msgtype {
        Some(t) => str_equals(t.as_str(), "m.text"),
        None => false,
    };
    let ts_ok = match e.origin_server_ts {
        Some(ts) => !text || ts <= MAX_TIMESTAMP_MS,
        None => true,
    };
    member_ok && rule_ok && ts_ok
}

/// Whether every event of a list can be read.
pub fn events_are_readable(es: &Vec<Event>) -> (b: bool)
    ensures
        b == all_wf(es@),
{
    let mut i: usize = 0;
    while i < es.len()
        invariant
            i <= es@.len(),
            forall|k: int| 0 <= k < i ==> #[trigger] event_wf(es@[k]),
        decreases es@.len() - i,
    {
        if !event_is_readable(&es[i]) {
            return false;
        }
        i = i + 1;
    }
    true
}

/// Whether an event is a text message that carries everything a shown message needs.
pub fn is_text_message_event(e: &Event) -> (b: bool)
    ensures
        b == is_text_message(*e),
{
    str_equals(e.kind.as_str(), "m.room.message")
        && match &e.content.msgtype {
            Some(t) => str_equals(t.as_str(), "m.text"),
            None => false,
        }
        && e.content.body.is_some()
        && e.sender.is_some()
        && e.origin_server_ts.is_some()
}

/// Reads a text message from an event, at the offset `offset` seconds east of UTC; `None`
/// for any other event.
pub fn message_from_event_at(e: &Event, offset: i32) -> (r: Option<Message>)
    requires
        timestamp_in_range(*e),
        offset_ok(offset as int),
    ensures
        r is Some <==> is_text_message(*e),
        r matches Some(m) ==> message_at(*e, m, offset as int),
{
    if !is_text_message_event(e) {
        return None;
    }
    let c = match &e.content.body {
        Some(b) => Content::Text(b.clone()),
        None => return None,
    };
    let sender = match &e.sender {
        Some(s) => s.clone(),
        None => return None,
    };
    let time = match e.origin_server_ts {
        Some(ost) => clock_time_at(ost, offset),
        None => return None,
    };
    Some(Message::new(sender.as_str(), time.as_str(), c))
}

/// Reads a text message from an event, with the local time of day that the machine's time
/// zone gives its timestamp; `None` for any other event.
pub fn get_message_from_event(e: &Event) -> (r: Option<Message>)
    requires
        timestamp_in_range(*e),
    ensures
        r is Some <==> is_text_message(*e),
        r matches Some(m) ==> message_from(*e, m),
{
    if !is_text_message_event(e) {
        return None;
    }
    let ost = match e.origin_server_ts {
        Some(t) => t,
        None => return None,
    };
    let secs = ost / 1000;
    assert(secs <= 8_210_266_876_799);
    let offset = local_offset(secs as i64);
    let r = message_from_event_at(e, offset);
    proof {
        if r is Some {
            let m = r->0;
            assert(offset_ok(offset as int) && m.time@ == clock_text(time_of_day((ost / 1000) as int, offset as int)));
        }
    }
    r
}

/// Reads what an event means for its room.
pub fn get_event(e: &Event) -> (r: EventResult)
    requires
        event_wf(*e),
    ensures
        result_of(*e, r),
{
    proof { lemma_kinds_distinct(); }
    let kind = e.kind.as_str();
    if str_equals(kind, "m.room.name") {
        if let Some(n) = &e.content.name {
            return EventResult::RoomName(n.clone());
        }
    } else if str_equals(kind, "m.room.message") {
        if let Some(m) = get_message_from_event(e) {
            return EventResult::Message(m);
        }
    } else if str_equals(kind, "m.room.topic") {
        if let Some(t) = &e.content.topic {
            return EventResult::Topic(t.clone());
        }
    } else if str_equals(kind, "m.room.member") {
        let sender = e.sender.clone().unwrap();
        let user = User::new(sender.clone(), e.content.displayname.clone());
        return EventResult::User(sender, user);
    } else if str_equals(kind, "m.room.create") {
        if let Some(c) = &e.content.creator {
            return EventResult::Creation(c.clone(), e.content.m_federate);
        }
    } else if str_equals(kind, "m.room.join_rules") {
        let join_rule = get_join_rule(e.content.join_rule.as_ref().unwrap());
        return EventResult::JoinRule(join_rule);
    } else if str_equals(kind, "m.room.canonical_alias") {
        if let Some(a) = &e.content.alias {
            return EventResult::RoomName(a.clone());
        }
    }
    EventResult::Unknown
}

/// What the state events of a room say of it, read in order; a later event overrides an
/// earlier one.
pub struct StateSummary {
    pub name: Option<String>,
    pub topic: Option<String>,
    pub users: Seq<(Seq<char>, User)>,
    pub creator: Option<String>,
    pub federate: bool,
    pub join_rule: JoinRule,
}

pub open spec fn initial_summary() -> StateSummary {
    StateSummary {
        name: None,
        topic: None,
        users: Seq::empty(),
        creator: None,
        federate: true,
        join_rule: JoinRule::NotSet,
    }
}

pub open spec fn summary_step(s: StateSummary, r: EventResult) -> StateSummary {
    match r {
        EventResult::RoomName(n) => StateSummary { name: Some(n), ..s },
        EventResult::Topic(t) => StateSummary { topic: Some(t), ..s },
        EventResult::User(id, u) => StateSummary { users: insert_entry(s.users, id@, u), ..s },
        EventResult::Creation(c, f) => StateSummary { creator: Some(c), federate: f, ..s },
        EventResult::JoinRule(j) => StateSummary { join_rule: j, ..s },
        _ => s,
    }
}

/// The summary of the state events `es`.
pub open spec fn state_summary(es: Seq<Event>) -> StateSummary
    decreases es.len(),
{
    if es.len() == 0 {
        initial_summary()
    } else {
        summary_step(state_summary(es.drop_last()), plain_result(es.last()))
    }
}

/// Reading any state keeps the members' ids distinct.
pub proof fn lemma_summary_users_distinct(es: Seq<Event>)
    ensures
        keys_distinct(state_summary(es).users),
    decreases es.len(),
{
    if es.len() > 0 {
        lemma_summary_users_distinct(es.drop_last());
        let prev = state_summary(es.drop_last());
        if let EventResult::User(id, u) = plain_result(es.last()) {
            lemma_insert_then_lookup(prev.users, id@, u, id@);
        }
    }
}

/// Only membership events change the members.
pub proof fn lemma_only_members_are_users(e: Event)
    ensures
        plain_result(e) is User ==> e.kind@ == "m.room.member"@,
        e.kind@ == "m.room.member"@ ==> plain_result(e) == EventResult::User(
            e.sender->0,
            User { id: e.sender->0, display_name: e.content.displayname },
        ),
{
    lemma_kinds_distinct();
}

/// Every membership event of a room's state puts its sender among the room's members: after
/// the state is read, the sender's id reads as the user of its last membership event,
/// whoever created the room and whatever else the state holds.
pub proof fn lemma_member_events_kept(es: Seq<Event>, i: int)
    requires
        all_wf(es),
        0 <= i < es.len(),
        es[i].kind@ == "m.room.member"@,
        forall|j: int| i < j < es.len() ==> !(#[trigger] es[j].kind@ == "m.room.member"@ && es[j].sender->0@ == es[i].sender->0@),
    ensures
        lookup(state_summary(es).users, es[i].sender->0@) == Some(User {
            id: es[i].sender->0,
            display_name: es[i].content.displayname,
        }),
    decreases es.len(),
{
    let k = es[i].sender->0@;
    let rest = es.drop_last();
    lemma_summary_users_distinct(rest);
    let prev = state_summary(rest);
    lemma_only_members_are_users(es.last());
    if i == es.len() - 1 {
        lemma_insert_then_lookup(prev.users, k, User { id: es[i].sender->0, display_name: es[i].content.displayname }, k);
    } else {
        assert(all_wf(rest)) by {
            assert forall|j: int| 0 <= j < rest.len() implies #[trigger] event_wf(rest[j]) by {
                assert(event_wf(es[j]));
            }
        }
        assert forall|j: int| i < j < rest.len() implies !(#[trigger] rest[j].kind@ == "m.room.member"@ && rest[j].sender->0@ == rest[i].sender->0@) by {
            assert(rest[j] == es[j]);
        }
        lemma_member_events_kept(rest, i);
        let last = es.last();
        if let EventResult::User(id, u) = plain_result(last) {
            assert(last.kind@ == "m.room.member"@);
            assert(es[es.len() - 1].kind@ == "m.room.member"@);
            assert(id@ != k);
            lemma_insert_then_lookup(prev.users, id@, u, k);
        }
    }
}

/// The names of the members, in order, separated by `", "` (no separator follows an empty
/// text).
pub open spec fn member_names(users: Seq<(Seq<char>, User)>) -> Seq<char>
    decreases users.len(),
{
    if users.len() == 0 {
        Seq::empty()
    } else {
        let p = member_names(users.drop_last());
        if p.len() == 0 {
            user_name(users.last().1)
        } else {
            p + ", "@ + user_name(users.last().1)
        }
    }
}

/// The name of a joined room: the name its state gives, else its members' names, else a
/// text that holds its id.
pub open spec fn room_name(id: Seq<char>, jr: JoinedRoom) -> Seq<char> {
    let s = state_summary(jr.state.events@);
    match s.name {
        Some(n) => n@,
        None => if s.users.len() > 0 {
            member_names(s.users)
        } else {
            "(no name), id :"@ + id
        },
    }
}

/// The room that a sync reports under `id`.
pub open spec fn joined_room_view(id: Seq<char>, jr: JoinedRoom) -> RoomView {
    let s = state_summary(jr.state.events@);
    RoomView {
        id,
        name: room_name(id, jr),
        topic: opt_view(s.topic),
        prev_batch: jr.timeline.prev_batch@,
        messages: Seq::empty(),
        users: s.users,
        creator: s.creator->0@,
        federate: s.federate,
        join_rule: s.join_rule,
    }
}

/// A joined room whose events can be read and whose state names its creator.
pub open spec fn joined_room_wf(jr: JoinedRoom) -> bool {
    &&& all_wf(jr.state.events@)
    &&& all_wf(jr.timeline.events@)
    &&& state_summary(jr.state.events@).creator is Some
}

/// Whether a joined room can be read: its events can, and its state names a creator.
pub fn joined_room_is_readable(jr: &JoinedRoom) -> (b: bool)
    ensures
        b == joined_room_wf(*jr),
{
    if !events_are_readable(&jr.state.events) || !events_are_readable(&jr.timeline.events) {
        return false;
    }
    let ghost st = jr.state.events@;
    let mut found = false;
    let mut i: usize = 0;
    while i < jr.state.events.len()
        invariant
            i <= st.len(),
            st == jr.state.events@,
            found == (state_summary(st.take(i as int)).creator is Some),
        decreases st.len() - i,
    {
        proof {
            lemma_kinds_distinct();
            assert(st.take(i + 1).drop_last() =~= st.take(i as int));
            assert(st.take(i + 1).last() == st[i as int]);
        }
        let e = &jr.state.events[i];
        if str_equals(e.kind.as_str(), "m.room.create") && e.content.creator.is_some() {
            found = true;
        }
        i = i + 1;
    }
    assert(st.take(st.len() as int) =~= st);
    found
}

/// Builds the room that a sync reports under `id`, and the messages of its state and its
/// timeline, to be shown in it.
pub fn room_from_joined(id: &String, jr: &JoinedRoom) -> (r: (Room, Vec<EventResult>))
    requires
        joined_room_wf(*jr),
    ensures
        r.0@ == joined_room_view(id@, *jr),
        results_of(text_events(jr.state.events@) + text_events(jr.timeline.events@), r.1@),
{
    let ghost st = jr.state.events@;
    let ghost tl = jr.timeline.events@;
    let mut name: Option<String> = None;
    let mut topic: Option<String> = None;
    let mut users: StrMap<User> = StrMap::new();
    let mut creator: Option<String> = None;
    let mut federate = true;
    let mut join_rule = JoinRule::NotSet;
    let mut events: Vec<EventResult> = Vec::new();

    let mut i: usize = 0;
    while i < jr.state.events.len()
        invariant
            i <= st.len(),
            st == jr.state.events@,
            all_wf(st),
            name == state_summary(st.take(i as int)).name,
            topic == state_summary(st.take(i as int)).topic,
            users@ == state_summary(st.take(i as int)).users,
            creator == state_summary(st.take(i as int)).creator,
            federate == state_summary(st.take(i as int)).federate,
            join_rule == state_summary(st.take(i as int)).join_rule,
            results_of(text_events(st.take(i as int)), events@),
        decreases st.len() - i,
    {
        let e = &jr.state.events[i];
        assert(event_wf(st[i as int]));
        let er = get_event(e);
        assert(st.take(i + 1).drop_last() =~= st.take(i as int));
        assert(st.take(i + 1).last() == st[i as int]);
        let ghost prev = events@;
        match er {
            EventResult::Unknown => {},
            EventResult::RoomName(n) => name = Some(n),
            EventResult::Message(m) => {
                events.push(EventResult::Message(m));
            },
            EventResult::Topic(t) => topic = Some(t),
            EventResult::User(user_id, user) => {
                users.insert(user_id, user);
            },
            EventResult::Creation(creator_id, fed) => {
                creator = Some(creator_id);
                federate = fed;
            },
            EventResult::JoinRule(jr) => join_rule = jr,
        }
        proof {
            lemma_kinds_distinct();
            let es = st.take(i + 1);
            if is_text_message(st[i as int]) {
                assert(text_events(es) == text_events(st.take(i as int)).push(st[i as int]));
                assert(events@ == prev.push(events@.last()));
                assert(results_of(text_events(es), events@)) by {
                    assert forall|k: int| 0 <= k < text_events(es).len() implies #[trigger] result_of(text_events(es)[k], events@[k]) by {
                        if k < prev.len() {
                            assert(result_of(text_events(st.take(i as int))[k], prev[k]));
                        }
                    }
                }
            } else {
                assert(text_events(es) == text_events(st.take(i as int)));
            }
        }
        i = i + 1;
    }
    assert(st.take(st.len() as int) =~= st);

    let mut j: usize = 0;
    while j < jr.timeline.events.len()
        invariant
            j <= tl.len(),
            tl == jr.timeline.events@,
            all_wf(tl),
            results_of(text_events(st) + text_events(tl.take(j as int)), events@),
        decreases tl.len() - j,
    {
        let e = &jr.timeline.events[j];
        assert(event_wf(tl[j as int]));
        let er = get_event(e);
        assert(tl.take(j + 1).drop_last() =~= tl.take(j as int));
        assert(tl.take(j + 1).last() == tl[j as int]);
        let ghost prev = events@;
        if let EventResult::Message(m) = er {
            events.push(EventResult::Message(m));
        }
        proof {
            let es = tl.take(j + 1);
            if is_text_message(tl[j as int]) {
                assert(text_events(es) == text_events(tl.take(j as int)).push(tl[j as int]));
                assert(text_events(st) + text_events(es) =~= (text_events(st) + text_events(tl.take(j as int))).push(tl[j as int]));
                assert(results_of(text_events(st) + text_events(es), events@)) by {
                    let all = text_events(st) + text_events(es);
                    assert forall|k: int| 0 <= k < all.len() implies #[trigger] result_of(all[k], events@[k]) by {
                        if k < prev.len() {
                            assert(result_of((text_events(st) + text_events(tl.take(j as int)))[k], prev[k]));
                        }
                    }
                }
            } else {
                assert(text_events(es) == text_events(tl.take(j as int)));
            }
        }
        j = j + 1;
    }
    assert(tl.take(tl.len() as int) =~= tl);

    let room_name = match name {
        Some(n) => n,
        None => {
            if users.len() > 0 {
                let mut members = String::new();
                let mut k: usize = 0;
                while k < users.len()
                    invariant
                        k <= users@.len(),
                        members@ == member_names(users@.take(k as int)),
                    decreases users@.len() - k,
                {
                    let u = users.value_at(k);
                    assert(users@.take(k + 1).drop_last() =~= users@.take(k as int));
                    if !members.as_str().is_empty() {
                        members.append(", ");
                    }
                    members.append(u.get_name());
                    k = k + 1;
                }
                assert(users@.take(users@.len() as int) =~= users@);
                members
            } else {
                let mut n = "(no name), id :".to_owned();
                n.append(id.as_str());
                n
            }
        },
    };
    let creator_id = match creator {
        Some(c) => c,
        None => {
            assert(false);
            String::new()
        },
    };
    let mut ro = Room::new(
        id.as_str(),
        room_name.as_str(),
        jr.timeline.prev_batch.as_str(),
        creator_id.as_str(),
        federate,
        join_rule,
    );
    ro.topic = topic;
    ro.users = users;
    (ro, events)
}

/// Reads every joined room of a sync, with the messages to show in each.
pub fn get_rooms(sync: &Sync) -> (r: (StrMap<Room>, StrMap<Vec<EventResult>>))
    requires
        forall|i: int| 0 <= i < sync.rooms.join@.len() ==> #[trigger] joined_room_wf(sync.rooms.join@[i].1),
    ensures
        r.0@.len() == sync.rooms.join@.len(),
        r.1@.len() == sync.rooms.join@.len(),
        forall|i: int| 0 <= i < sync.rooms.join@.len() ==> {
            let (id, jr) = #[trigger] sync.rooms.join@[i];
            &&& r.0@[i].0 == id
            &&& r.0@[i].1@ == joined_room_view(id, jr)
            &&& r.1@[i].0 == id
            &&& results_of(text_events(jr.state.events@) + text_events(jr.timeline.events@), r.1@[i].1@)
        },
{
    let join = &sync.rooms.join;
    let n = join.len();
    let mut rooms: StrMap<Room> = StrMap::new();
    let mut room_events: StrMap<Vec<EventResult>> = StrMap::new();
    let mut k: usize = 0;
    while k < n
        invariant
            k <= n,
            n == join@.len(),
            keys_distinct(join@),
            forall|i: int| 0 <= i < join@.len() ==> #[trigger] joined_room_wf(join@[i].1),
            rooms@.len() == k,
            room_events@.len() == k,
            forall|i: int| 0 <= i < k ==> {
                let (id, jr) = #[trigger] join@[i];
                &&& rooms@[i].0 == id
                &&& rooms@[i].1@ == joined_room_view(id, jr)
                &&& room_events@[i].0 == id
                &&& results_of(text_events(jr.state.events@) + text_events(jr.timeline.events@), room_events@[i].1@)
            },
        decreases n - k,
    {
        let id = join.key_at(k);
        let jr = join.value_at(k);
        assert(joined_room_wf(join@[k as int].1));
        let (ro, evs) = room_from_joined(id, jr);
        proof {
            assert forall|i: int| 0 <= i < rooms@.len() implies #[trigger] rooms@[i].0 != id@ by {
                assert(join@[i].0 == rooms@[i].0);
                assert(join@[i].0 != join@[k as int].0);
            }
            assert forall|i: int| 0 <= i < room_events@.len() implies #[trigger] room_events@[i].0 != id@ by {
                assert(join@[i].0 == room_events@[i].0);
                assert(join@[i].0 != join@[k as int].0);
            }
        }
        rooms.insert(id.clone(), ro);
        room_events.insert(id.clone(), evs);
        k = k + 1;
    }
    (rooms, room_events)
}

/// Reads the events of a timeline, the other events first and the text messages after
/// them, each group in its order.
pub fn new_events_of(events: &Vec<Event>) -> (r: Vec<EventResult>)
    requires
        all_wf(events@),
    ensures
        results_of(other_events(events@) + text_events(events@), r@),
{
    let ghost es = events@;
    let mut others: Vec<EventResult> = Vec::new();
    let mut msgs: Vec<EventResult> = Vec::new();
    let mut i: usize = 0;
    while i < events.len()
        invariant
            i <= es.len(),
            es == events@,
            all_wf(es),
            results_of(other_events(es.take(i as int)), others@),
            results_of(text_events(es.take(i as int)), msgs@),
        decreases es.len() - i,
    {
        assert(event_wf(es[i as int]));
        let ev = get_event(&events[i]);
        assert(es.take(i + 1).drop_last() =~= es.take(i as int));
        assert(es.take(i + 1).last() == es[i as int]);
        let ghost prev_o = others@;
        let ghost prev_m = msgs@;
        if let EventResult::Message(m) = ev {
            msgs.push(EventResult::Message(m));
        } else {
            others.push(ev);
        }
        proof {
            let ts = es.take(i + 1);
            if is_text_message(es[i as int]) {
                assert(text_events(ts) == text_events(es.take(i as int)).push(es[i as int]));
                assert(other_events(ts) == other_events(es.take(i as int)));
                assert forall|k: int| 0 <= k < text_events(ts).len() implies #[trigger] result_of(text_events(ts)[k], msgs@[k]) by {
                    if k < prev_m.len() {
                        assert(result_of(text_events(es.take(i as int))[k], prev_m[k]));
                    }
                }
            } else {
                assert(other_events(ts) == other_events(es.take(i as int)).push(es[i as int]));
                assert(text_events(ts) == text_events(es.take(i as int)));
                assert forall|k: int| 0 <= k < other_events(ts).len() implies #[trigger] result_of(other_events(ts)[k], others@[k]) by {
                    if k < prev_o.len() {
                        assert(result_of(other_events(es.take(i as int))[k], prev_o[k]));
                    }
                }
            }
        }
        i = i + 1;
    }
    assert(es.take(es.len() as int) =~= es);
    let ghost o = others@;
    let ghost m = msgs@;
    others.append(&mut msgs);
    proof {
        let all = other_events(es) + text_events(es);
        assert(others@ =~= o + m);
        assert forall|k: int| 0 <= k < all.len() implies #[trigger] result_of(all[k], others@[k]) by {
            if k < o.len() {
                assert(result_of(other_events(es)[k], o[k]));
            } else {
                assert(result_of(text_events(es)[k - o.len()], m[k - o.len()]));
            }
        }
    }
    others
}

/// Reads the new events of every joined room of a sync, with the room's `prev_batch`.
pub fn get_new_events(sync: &Sync) -> (r: StrMap<(Vec<EventResult>, String)>)
    requires
        forall|i: int| 0 <= i < sync.rooms.join@.len() ==> #[trigger] all_wf(sync.rooms.join@[i].1.timeline.events@),
    ensures
        r@.len() == sync.rooms.join@.len(),
        forall|i: int| 0 <= i < sync.rooms.join@.len() ==> {
            let (id, jr) = #[trigger] sync.rooms.join@[i];
            &&& r@[i].0 == id
            &&& r@[i].1.1 == jr.timeline.prev_batch
            &&& results_of(other_events(jr.timeline.events@) + text_events(jr.timeline.events@), r@[i].1.0@)
        },
{
    let join = &sync.rooms.join;
    let n = join.len();
    let mut r: StrMap<(Vec<EventResult>, String)> = StrMap::new();
    let mut k: usize = 0;
    while k < n
        invariant
            k <= n,
            n == join@.len(),
            keys_distinct(join@),
            forall|i: int| 0 <= i < join@.len() ==> #[trigger] all_wf(join@[i].1.timeline.events@),
            r@.len() == k,
            forall|i: int| 0 <= i < k ==> {
                let (id, jr) = #[trigger] join@[i];
                &&& r@[i].0 == id
                &&& r@[i].1.1 == jr.timeline.prev_batch
                &&& results_of(other_events(jr.timeline.events@) + text_events(jr.timeline.events@), r@[i].1.0@)
            },
        decreases n - k,
    {
        let id = join.key_at(k);
        let jr = join.value_at(k);
        assert(all_wf(join@[k as int].1.timeline.events@));
        let evs = new_events_of(&jr.timeline.events);
        proof {
            assert forall|i: int| 0 <= i < r@.len() implies #[trigger] r@[i].0 != id@ by {
                assert(join@[i].0 == r@[i].0);
                assert(join@[i].0 != join@[k as int].0);
            }
        }
        r.insert(id.clone(), (evs, jr.timeline.prev_batch.clone()));
        k = k + 1;
    }
    r
}

/// Reads the events of a page of older events, in order.
pub fn get_room_events(messages: &Messages) -> (r: Vec<EventResult>)
    requires
        all_wf(messages.chunk@),
    ensures
        results_of(messages.chunk@, r@),
{
    let mut events: Vec<EventResult> = Vec::new();
    let mut i: usize = 0;
    while i < messages.chunk.len()
        invariant
            i <= messages.chunk@.len(),
            all_wf(messages.chunk@),
            events@.len() == i,
            forall|k: int| 0 <= k < i ==> #[trigger] result_of(messages.chunk@[k], events@[k]),
        decreases messages.chunk@.len() - i,
    {
        assert(event_wf(messages.chunk@[i as int]));
        let ev = get_event(&messages.chunk[i]);
        events.push(ev);
        i = i + 1;
    }
    events
}

} // verus!
