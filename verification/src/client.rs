//! The client: its rooms, its window, its connection and its kept session, and how each
//! answer of the server and each key press changes them.
use crate::api::{json_object_text, login_members, login_request, login_url_text, LoginRequest};
use crate::connection::{
    state_after_login, state_after_sync, sync_step_of, ConnectionData, ConnectionState, SyncStep,
};
use crate::display::{apply_events, process_events_for_room};
use crate::events::{
    all_wf, get_new_events, get_rooms, joined_room_view, joined_room_wf, other_events, results_of,
    text_events, EventResult,
};
use crate::matrix::{JoinedRoom, Session, Sync};
use crate::room::{opt_view, Room, RoomView};
use crate::strmap::{
    has_key, insert_entry, keys_distinct, keys_of, lemma_choose_at, lemma_insert_then_lookup,
    lemma_lookup_at, lookup, StrMap,
};
use crate::ui::{actions_view, ids_view, UiAction, UiActionView, UiCon, UiMaster};
use vstd::prelude::*;

verus! {

/// The rooms with each room taken by its view.
pub open spec fn rooms_view(m: Seq<(Seq<char>, Room)>) -> Seq<(Seq<char>, RoomView)> {
    m.map_values(|e: (Seq<char>, Room)| (e.0, e.1@))
}

/// The entries `add`, stored one after the other into `base`.
pub open spec fn insert_all(
    base: Seq<(Seq<char>, RoomView)>,
    add: Seq<(Seq<char>, RoomView)>,
) -> Seq<(Seq<char>, RoomView)>
    decreases add.len(),
{
    if add.len() == 0 {
        base
    } else {
        let b = insert_all(base, add.drop_last());
        insert_entry(b, add.last().0, add.last().1)
    }
}

/// Storing entries one after the other keeps the keys distinct, and each stored key then
/// reads back what was stored under it; a key not stored reads as before.
pub proof fn lemma_insert_all_lookup(base: Seq<(Seq<char>, RoomView)>, add: Seq<(Seq<char>, RoomView)>, k: Seq<char>)
    requires
        keys_distinct(base),
        keys_distinct(add),
    ensures
        keys_distinct(insert_all(base, add)),
        has_key(add, k) ==> lookup(insert_all(base, add), k) == lookup(add, k),
        !has_key(add, k) ==> lookup(insert_all(base, add), k) == lookup(base, k),
    decreases add.len(),
{
    if add.len() > 0 {
        let rest = add.drop_last();
        assert(keys_distinct(rest)) by {
            assert forall|a: int, b: int| 0 <= a < rest.len() && 0 <= b < rest.len() && a != b implies #[trigger] rest[a].0 != #[trigger] rest[b].0 by {
                assert(add[a].0 != add[b].0);
            }
        }
        lemma_insert_all_lookup(base, rest, k);
        let b = insert_all(base, rest);
        let (lk, lv) = add.last();
        lemma_insert_then_lookup(b, lk, lv, k);
        lemma_lookup_at(add, add.len() - 1);
        if k == lk {
        } else {
            assert(has_key(add, k) == has_key(rest, k)) by {
                if has_key(add, k) {
                    let j = choose|j: int| 0 <= j < add.len() && #[trigger] add[j].0 == k;
                    assert(rest[j].0 == k);
                }
                if has_key(rest, k) {
                    let j = choose|j: int| 0 <= j < rest.len() && #[trigger] rest[j].0 == k;
                    assert(add[j].0 == k);
                }
            }
            if has_key(rest, k) {
                let j = choose|j: int| 0 <= j < rest.len() && #[trigger] rest[j].0 == k;
                lemma_lookup_at(rest, j);
                lemma_lookup_at(add, j);
            }
        }
    }
}

/// What saving writes, the session reads back: after `App::save`, each room of the client
/// reads, under its id, as the client had it, and a kept room that the client does not
/// have reads as before.
pub proof fn lemma_save_then_read(session_rooms: Seq<(Seq<char>, Room)>, rooms: Seq<(Seq<char>, Room)>, k: Seq<char>)
    requires
        keys_distinct(session_rooms),
        keys_distinct(rooms),
    ensures
        has_key(rooms, k) ==> lookup(insert_all(rooms_view(session_rooms), rooms_view(rooms)), k)
            == lookup(rooms_view(rooms), k),
        !has_key(rooms, k) ==> lookup(insert_all(rooms_view(session_rooms), rooms_view(rooms)), k)
            == lookup(rooms_view(session_rooms), k),
{
    lemma_rooms_view_keys(session_rooms);
    lemma_rooms_view_keys(rooms);
    lemma_insert_all_lookup(rooms_view(session_rooms), rooms_view(rooms), k);
}

/// Storing a room into a map and then taking the rooms by view is storing its view.
pub proof fn lemma_rooms_view_insert(m: Seq<(Seq<char>, Room)>, k: Seq<char>, v: Room)
    requires
        keys_distinct(m),
    ensures
        keys_distinct(rooms_view(m)),
        rooms_view(insert_entry(m, k, v)) == insert_entry(rooms_view(m), k, v@),
{
    let mv = rooms_view(m);
    assert forall|i: int, j: int| 0 <= i < mv.len() && 0 <= j < mv.len() && i != j implies #[trigger] mv[i].0 != #[trigger] mv[j].0 by {
        assert(m[i].0 != m[j].0);
    }
    if has_key(m, k) {
        let i = choose|i: int| 0 <= i < m.len() && #[trigger] m[i].0 == k;
        lemma_choose_at(m, i);
        assert(mv[i].0 == k);
        lemma_choose_at(mv, i);
        assert(rooms_view(insert_entry(m, k, v)) =~= insert_entry(mv, k, v@));
    } else {
        assert(!has_key(mv, k)) by {
            if has_key(mv, k) {
                let j = choose|j: int| 0 <= j < mv.len() && #[trigger] mv[j].0 == k;
                assert(m[j].0 == k);
            }
        }
        assert(rooms_view(insert_entry(m, k, v)) =~= insert_entry(mv, k, v@));
    }
}

/// With distinct keys, the rooms by view have distinct keys too.
pub proof fn lemma_rooms_view_keys(m: Seq<(Seq<char>, Room)>)
    requires
        keys_distinct(m),
    ensures
        keys_distinct(rooms_view(m)),
        forall|k: Seq<char>| has_key(m, k) <==> #[trigger] has_key(rooms_view(m), k),
{
    let mv = rooms_view(m);
    assert forall|i: int, j: int| 0 <= i < mv.len() && 0 <= j < mv.len() && i != j implies #[trigger] mv[i].0 != #[trigger] mv[j].0 by {
        assert(m[i].0 != m[j].0);
    }
    assert forall|k: Seq<char>| has_key(m, k) <==> #[trigger] has_key(rooms_view(m), k) by {
        if has_key(m, k) {
            let i = choose|i: int| 0 <= i < m.len() && #[trigger] m[i].0 == k;
            assert(mv[i].0 == k);
        }
        if has_key(mv, k) {
            let i = choose|i: int| 0 <= i < mv.len() && #[trigger] mv[i].0 == k;
            assert(m[i].0 == k);
        }
    }
}

/// The position of the entry with key `k`.
pub open spec fn key_index<V>(s: Seq<(Seq<char>, V)>, k: Seq<char>) -> int {
    choose|i: int| 0 <= i < s.len() && #[trigger] s[i].0 == k
}

/// The events of one room applied to the room with their key, if there is one: without a
/// window only the `prev_batch` is taken; with one the events are applied first.
pub open spec fn room_step(
    rooms: Seq<(Seq<char>, RoomView)>,
    id: Seq<char>,
    es: Seq<EventResult>,
    prev_batch: Option<Seq<char>>,
    current: Option<Seq<char>>,
    has_con: bool,
    history: bool,
) -> (Seq<(Seq<char>, RoomView)>, Seq<UiActionView>) {
    if has_key(rooms, id) {
        let i = key_index(rooms, id);
        let (rv, a) = if has_con {
            apply_events(current, rooms[i].1, es, history)
        } else {
            (rooms[i].1, Seq::empty())
        };
        let rv2 = match prev_batch {
            Some(p) => RoomView { prev_batch: p, ..rv },
            None => rv,
        };
        (rooms.update(i, (id, rv2)), a)
    } else {
        (rooms, Seq::empty())
    }
}

/// The events of several rooms applied in order, none of them older history.
pub open spec fn apply_all(
    rooms: Seq<(Seq<char>, RoomView)>,
    evs: Seq<(Seq<char>, Seq<EventResult>, Option<Seq<char>>)>,
    current: Option<Seq<char>>,
    has_con: bool,
) -> (Seq<(Seq<char>, RoomView)>, Seq<UiActionView>)
    decreases evs.len(),
{
    if evs.len() == 0 {
        (rooms, Seq::empty())
    } else {
        let (r1, a1) = apply_all(rooms, evs.drop_last(), current, has_con);
        let (id, es, pb) = evs.last();
        let (r2, a2) = room_step(r1, id, es, pb, current, has_con, false);
        (r2, a1 + a2)
    }
}

/// Applying events never changes which keys the rooms have, nor their order.
pub proof fn lemma_apply_all_keys(
    rooms: Seq<(Seq<char>, RoomView)>,
    evs: Seq<(Seq<char>, Seq<EventResult>, Option<Seq<char>>)>,
    current: Option<Seq<char>>,
    has_con: bool,
)
    ensures
        keys_of(apply_all(rooms, evs, current, has_con).0) == keys_of(rooms),
    decreases evs.len(),
{
    if evs.len() > 0 {
        lemma_apply_all_keys(rooms, evs.drop_last(), current, has_con);
        let (r1, a1) = apply_all(rooms, evs.drop_last(), current, has_con);
        let (id, es, pb) = evs.last();
        let (r2, a2) = room_step(r1, id, es, pb, current, has_con, false);
        if has_key(r1, id) {
            let i = key_index(r1, id);
            assert(r1[i].0 == id);
            assert(keys_of(r2) =~= keys_of(r1));
        }
    }
}

/// Applies the events of one room to the room with key `id`, if there is one, and takes
/// `prev_batch` as its new position where one is given.
fn apply_to_room(
    rooms: &mut StrMap<Room>,
    ui: &UiMaster,
    id: &String,
    events: Vec<EventResult>,
    prev_batch: Option<String>,
    history: bool,
) -> (r: Vec<UiAction>)
    ensures
        (rooms_view(final(rooms)@), actions_view(r@)) == room_step(
            rooms_view(old(rooms)@),
            id@,
            events@,
            opt_view(prev_batch),
            ui.current_id(),
            ui.con is Some,
            history,
        ),
{
    let ghost m = rooms@;
    match rooms.find(id) {
        Some(i) => {
            proof {
                lemma_rooms_view_keys(m);
                lemma_choose_at(rooms_view(m), i as int);
                assert(rooms_view(m)[i as int].0 == id@);
            }
            let (k, mut room) = rooms.remove_at(i);
            proof {
                assert forall|j: int| 0 <= j < rooms@.len() implies #[trigger] rooms@[j].0 != k@ by {
                    if j < i {
                        assert(m[j].0 != m[i as int].0);
                    } else {
                        assert(rooms@[j] == m[j + 1]);
                        assert(m[j + 1].0 != m[i as int].0);
                    }
                }
            }
            let acts = process_events_for_room(ui, &mut room, events, history);
            if let Some(pb) = prev_batch {
                room.prev_batch = pb;
            }
            let ghost kv = k@;
            rooms.insert_at(i, k, room);
            proof {
                assert(rooms@ =~= m.update(i as int, (kv, room)));
                assert(rooms_view(rooms@) =~= rooms_view(m).update(i as int, (id@, room@)));
            }
            acts
        },
        None => {
            proof {
                lemma_rooms_view_keys(m);
            }
            Vec::new()
        },
    }
}

/// Each room's events without a new position.
pub open spec fn events_entries(evs: Seq<(Seq<char>, Vec<EventResult>)>) -> Seq<(Seq<char>, Seq<EventResult>, Option<Seq<char>>)> {
    evs.map_values(|e: (Seq<char>, Vec<EventResult>)| (e.0, e.1@, None::<Seq<char>>))
}

/// Each room's events with its new position.
pub open spec fn new_events_entries(
    evs: Seq<(Seq<char>, (Vec<EventResult>, String))>,
) -> Seq<(Seq<char>, Seq<EventResult>, Option<Seq<char>>)> {
    evs.map_values(|e: (Seq<char>, (Vec<EventResult>, String))| (e.0, e.1.0@, Some(e.1.1@)))
}

/// The window learns of each room and its title.
pub open spec fn new_room_actions(rooms: Seq<(Seq<char>, RoomView)>) -> Seq<UiActionView>
    decreases rooms.len(),
{
    if rooms.len() == 0 {
        Seq::empty()
    } else {
        new_room_actions(rooms.drop_last()) + seq![
            UiActionView::NewRoom(rooms.last().0),
            UiActionView::SetRoomTitle(rooms.last().0, rooms.last().1.name),
        ]
    }
}

/// The window is told of every room, in order: two requests per room, the room first and
/// then its title.
pub proof fn lemma_new_room_actions_each(rooms: Seq<(Seq<char>, RoomView)>)
    ensures
        new_room_actions(rooms).len() == 2 * rooms.len(),
        forall|i: int| 0 <= i < rooms.len() ==> {
            &&& #[trigger] new_room_actions(rooms)[2 * i] == UiActionView::NewRoom(rooms[i].0)
            &&& new_room_actions(rooms)[2 * i + 1] == UiActionView::SetRoomTitle(rooms[i].0, rooms[i].1.name)
        },
    decreases rooms.len(),
{
    if rooms.len() > 0 {
        let rest = rooms.drop_last();
        lemma_new_room_actions_each(rest);
        assert forall|i: int| 0 <= i < rooms.len() implies {
            &&& #[trigger] new_room_actions(rooms)[2 * i] == UiActionView::NewRoom(rooms[i].0)
            &&& new_room_actions(rooms)[2 * i + 1] == UiActionView::SetRoomTitle(rooms[i].0, rooms[i].1.name)
        } by {
            if i < rest.len() {
                assert(new_room_actions(rest)[2 * i] == UiActionView::NewRoom(rest[i].0));
                assert(rest[i] == rooms[i]);
            }
        }
    }
}

/// Once synced, the window hides what it showed while loading and shows the chat.
pub open spec fn synced_actions(has_con: bool) -> Seq<UiActionView> {
    if has_con {
        seq![UiActionView::SetLoadingVisible(false), UiActionView::SetChatVisible(true)]
    } else {
        Seq::empty()
    }
}

/// The older history to ask for: each room's id and position, in order.
pub open spec fn history_of(rooms: Seq<(Seq<char>, RoomView)>) -> Seq<(Seq<char>, Seq<char>)> {
    rooms.map_values(|e: (Seq<char>, RoomView)| (e.1.id, e.1.prev_batch))
}

/// A request for the older history of a room: its id, and the position to read back from.
#[derive(Debug, PartialEq, Eq)]
pub struct HistoryRequest {
    pub room_id: String,
    pub from: String,
}

pub open spec fn history_view(h: Seq<HistoryRequest>) -> Seq<(Seq<char>, Seq<char>)> {
    h.map_values(|r: HistoryRequest| (r.room_id@, r.from@))
}

/// What a sync asks of the window, and which older history it asks for.
#[derive(Debug)]
pub struct SyncOutcome {
    pub actions: Vec<UiAction>,
    pub history: Vec<HistoryRequest>,
}

/// The rooms that a sync reports, each as the client builds it.
pub open spec fn joined_rooms_view(join: Seq<(Seq<char>, JoinedRoom)>) -> Seq<(Seq<char>, RoomView)> {
    Seq::new(join.len(), |i: int| (join[i].0, joined_room_view(join[i].0, join[i].1)))
}

/// `evs` holds, room by room, what the messages of each joined room's state and timeline
/// mean.
pub open spec fn full_sync_events(join: Seq<(Seq<char>, JoinedRoom)>, evs: Seq<Seq<EventResult>>) -> bool {
    &&& evs.len() == join.len()
    &&& forall|i: int| 0 <= i < join.len() ==> #[trigger] results_of(
        text_events(join[i].1.state.events@) + text_events(join[i].1.timeline.events@),
        evs[i],
    )
}

/// `evs` holds, room by room, what the timeline events of each joined room mean, the other
/// events first and the text messages after them.
pub open spec fn new_sync_events(join: Seq<(Seq<char>, JoinedRoom)>, evs: Seq<Seq<EventResult>>) -> bool {
    &&& evs.len() == join.len()
    &&& forall|i: int| 0 <= i < join.len() ==> #[trigger] results_of(
        other_events(join[i].1.timeline.events@) + text_events(join[i].1.timeline.events@),
        evs[i],
    )
}

pub open spec fn full_sync_entries(
    join: Seq<(Seq<char>, JoinedRoom)>,
    evs: Seq<Seq<EventResult>>,
) -> Seq<(Seq<char>, Seq<EventResult>, Option<Seq<char>>)> {
    Seq::new(join.len(), |i: int| (join[i].0, evs[i], None::<Seq<char>>))
}

pub open spec fn new_sync_entries(
    join: Seq<(Seq<char>, JoinedRoom)>,
    evs: Seq<Seq<EventResult>>,
) -> Seq<(Seq<char>, Seq<EventResult>, Option<Seq<char>>)> {
    Seq::new(join.len(), |i: int| (join[i].0, evs[i], Some(join[i].1.timeline.prev_batch@)))
}

/// A sync that a full read can take: every joined room can be read.
pub open spec fn full_sync_ready(sync: Sync) -> bool {
    forall|i: int| 0 <= i < sync.rooms.join@.len() ==> #[trigger] joined_room_wf(sync.rooms.join@[i].1)
}

/// A sync whose timelines can be read.
pub open spec fn new_sync_ready(sync: Sync) -> bool {
    forall|i: int| 0 <= i < sync.rooms.join@.len() ==> #[trigger] all_wf(sync.rooms.join@[i].1.timeline.events@)
}

/// Tells the window of each room and its title, in order.
fn new_room_actions_of(rooms: &StrMap<Room>) -> (r: Vec<UiAction>)
    ensures
        actions_view(r@) == new_room_actions(rooms_view(rooms@)),
{
    let ghost rv0 = rooms_view(rooms@);
    let mut actions: Vec<UiAction> = Vec::new();
    let n = rooms.len();
    let mut k: usize = 0;
    while k < n
        invariant
            k <= n,
            n == rooms@.len(),
            rv0 == rooms_view(rooms@),
            actions_view(actions@) == new_room_actions(rv0.take(k as int)),
        decreases n - k,
    {
        let ghost prev = actions@;
        let id = rooms.key_at(k);
        let room = rooms.value_at(k);
        actions.push(UiAction::NewRoom(id.clone()));
        actions.push(UiAction::SetRoomTitle(id.clone(), room.name.clone()));
        proof {
            assert(rv0.take(k + 1).drop_last() =~= rv0.take(k as int));
            assert(rv0.take(k + 1).last() == rv0[k as int]);
            assert(actions_view(actions@) =~= actions_view(prev) + seq![
                UiActionView::NewRoom(rv0[k as int].0),
                UiActionView::SetRoomTitle(rv0[k as int].0, rv0[k as int].1.name),
            ]);
        }
        k = k + 1;
    }
    assert(rv0.take(n as int) =~= rv0);
    actions
}

/// The client's state.
#[derive(Debug)]
pub struct Core {
    pub rooms: StrMap<Room>,
    pub ui: UiMaster,
    pub con: ConnectionData,
    pub session: Session,
}

/// What starting a login asks: the window changes, and the request to send.
#[derive(Debug)]
pub struct LoginStart {
    pub actions: Vec<UiAction>,
    pub request: LoginRequest,
}

/// A login start: the window hides the login form and shows that it loads, and the
/// request logs `user` in with `pass`.
pub open spec fn login_start_ok(s: LoginStart, user: Seq<char>, pass: Seq<char>) -> bool {
    &&& actions_view(s.actions@) == seq![
        UiActionView::SetLoginVisible(false),
        UiActionView::SetLoadingVisible(true),
    ]
    &&& s.request.url@ == login_url_text()
    &&& s.request.body@ == json_object_text(login_members(user, pass))
}

impl Core {
    /// The client as a kept session leaves it: its rooms, its sync position, and the room
    /// it showed.
    pub fn new(session: Session) -> (c: Core)
        ensures
            rooms_view(c.rooms@) == rooms_view(session.rooms@),
            ids_view(c.ui.rooms@) == keys_of(session.rooms@),
            c.ui.con is None,
            match session.current_room_id {
                Some(id) => if keys_of(session.rooms@).contains(id@) {
                    c.ui.current < session.rooms@.len()
                        && session.rooms@[c.ui.current as int].0 == id@
                        && forall|j: int| 0 <= j < c.ui.current ==> #[trigger] session.rooms@[j].0 != id@
                } else {
                    c.ui.current == 0
                },
                None => c.ui.current == 0,
            },
            c.con.next_batch == session.next_batch,
            c.con.access_token is None,
            c.con.state == ConnectionState::Offline,
            !c.con.past,
            c.session == session,
    {
        let rooms = session.rooms.clone();
        proof {
            assert forall|i: int| 0 <= i < rooms@.len() implies #[trigger] rooms_view(rooms@)[i] == rooms_view(session.rooms@)[i] by {
                assert(rooms@[i].0 == session.rooms@[i].0);
                assert(cloned(session.rooms@[i].1, rooms@[i].1));
            }
            assert(rooms_view(rooms@) =~= rooms_view(session.rooms@));
        }
        let mut con = ConnectionData::new();
        con.next_batch = session.next_batch.clone();
        let mut ui = UiMaster::new();
        ui.rooms = session.rooms.keys();
        proof {
            assert(ids_view(ui.rooms@) =~= keys_of(session.rooms@));
        }
        if let Some(id) = &session.current_room_id {
            ui.set_room(id.as_str());
            proof {
                if keys_of(session.rooms@).contains(id@) {
                    assert(ids_view(ui.rooms@).contains(id@));
                    assert forall|j: int| 0 <= j < ui.current implies #[trigger] session.rooms@[j].0 != id@ by {
                        assert(ui.rooms@[j]@ != id@);
                        assert(ids_view(ui.rooms@)[j] == session.rooms@[j].0);
                    }
                    assert(ids_view(ui.rooms@)[ui.current as int] == session.rooms@[ui.current as int].0);
                }
            }
        }
        Core { rooms, ui, con, session }
    }

    /// Starts a login, where a window is attached: the window shows that it loads, and the
    /// login request is handed out.
    pub fn request_login(&mut self, user: &str, pass: &str) -> (r: Option<LoginStart>)
        ensures
            old(self).ui.con is None ==> r is None && final(self).con == old(self).con,
            old(self).ui.con is Some ==> (r matches Some(s) && login_start_ok(s, user@, pass@)),
            final(self).con.past == old(self).con.past,
            old(self).ui.con is Some ==> final(self).con.state == ConnectionState::Login
                && final(self).con.access_token == old(self).con.access_token
                && final(self).con.next_batch == old(self).con.next_batch,
            final(self).rooms == old(self).rooms,
            final(self).ui == old(self).ui,
            final(self).session == old(self).session,
    {
        if self.ui.con.is_none() {
            return None;
        }
        let mut actions: Vec<UiAction> = Vec::new();
        actions.push(UiAction::SetLoginVisible(false));
        actions.push(UiAction::SetLoadingVisible(true));
        assert(actions_view(actions@) =~= seq![
            UiActionView::SetLoginVisible(false),
            UiActionView::SetLoadingVisible(true),
        ]);
        self.con.start_login();
        Some(LoginStart { actions, request: login_request(user, pass) })
    }

    /// Keeps the credentials in the session, then starts a login with them.
    pub fn save_and_request_login(&mut self, user: &str, pass: &str) -> (r: Option<LoginStart>)
        ensures
            final(self).session.user matches Some(u) && u@ == user@,
            final(self).session.pass matches Some(p) && p@ == pass@,
            final(self).session.rooms == old(self).session.rooms,
            final(self).session.next_batch == old(self).session.next_batch,
            final(self).session.current_room_id == old(self).session.current_room_id,
            old(self).ui.con is None ==> r is None && final(self).con == old(self).con,
            old(self).ui.con is Some ==> (r matches Some(s) && login_start_ok(s, user@, pass@)),
            final(self).con.past == old(self).con.past,
            old(self).ui.con is Some ==> final(self).con.state == ConnectionState::Login
                && final(self).con.access_token == old(self).con.access_token
                && final(self).con.next_batch == old(self).con.next_batch,
            final(self).rooms == old(self).rooms,
            final(self).ui == old(self).ui,
    {
        self.session.user = Some(user.to_owned());
        self.session.pass = Some(pass.to_owned());
        self.request_login(user, pass)
    }

    /// A login has succeeded: the connection starts syncing, and a window is told when all
    /// rooms are to be read.
    pub fn on_login(&mut self, access_token: String) -> (r: Vec<UiAction>)
        ensures
            final(self).con.state == state_after_login(old(self).con.next_batch),
            final(self).con.access_token == Some(access_token),
            final(self).con.next_batch == old(self).con.next_batch,
            actions_view(r@) == if old(self).con.next_batch is None && old(self).ui.con is Some {
                seq![UiActionView::SetLoadingText("syncing all"@)]
            } else {
                Seq::empty()
            },
            final(self).rooms == old(self).rooms,
            final(self).ui == old(self).ui,
            final(self).session == old(self).session,
    {
        self.con.on_login(access_token);
        let mut r: Vec<UiAction> = Vec::new();
        if self.con.state == ConnectionState::SyncAll && self.ui.con.is_some() {
            r.push(UiAction::SetLoadingText("syncing all".to_owned()));
        }
        assert(actions_view(r@) =~= if old(self).con.next_batch is None && old(self).ui.con is Some {
            seq![UiActionView::SetLoadingText("syncing all"@)]
        } else {
            Seq::empty()
        });
        r
    }

    /// Takes the rooms of a full sync in place of the known ones: the window learns of
    /// each, the messages of each are applied, and the window shows the current room.
    pub fn apply_full_sync(&mut self, rooms: StrMap<Room>, room_events: StrMap<Vec<EventResult>>) -> (r: Vec<UiAction>)
        requires
            old(self).ui.con is Some && rooms@.len() > 0 ==> old(self).ui.current < rooms@.len(),
        ensures
            rooms_view(final(self).rooms@) == apply_all(
                rooms_view(rooms@),
                events_entries(room_events@),
                old(self).ui.current_id(),
                old(self).ui.con is Some,
            ).0,
            ids_view(final(self).ui.rooms@) == keys_of(rooms@),
            final(self).ui.current == old(self).ui.current,
            final(self).ui.con == old(self).ui.con,
            actions_view(r@) == (if old(self).ui.con is Some {
                synced_actions(true) + new_room_actions(rooms_view(rooms@))
            } else {
                Seq::empty()
            }) + apply_all(
                rooms_view(rooms@),
                events_entries(room_events@),
                old(self).ui.current_id(),
                old(self).ui.con is Some,
            ).1 + final(self).ui.show_current_actions(),
            final(self).con == old(self).con,
            final(self).session == old(self).session,
    {
        let ghost cur = self.ui.current_id();
        let ghost has_con = self.ui.con is Some;
        let ghost rv0 = rooms_view(rooms@);
        let ghost old_rooms = rooms@;
        let ghost evs0 = events_entries(room_events@);
        let mut rooms = rooms;
        let mut room_events = room_events;
        let mut actions: Vec<UiAction> = Vec::new();
        if self.ui.con.is_some() {
            actions.push(UiAction::SetLoadingVisible(false));
            actions.push(UiAction::SetChatVisible(true));
            let ghost first = actions_view(actions@);
            let mut news = new_room_actions_of(&rooms);
            actions.append(&mut news);
            assert(actions_view(actions@) =~= first + new_room_actions(rv0));
            assert(first =~= synced_actions(true));
        } else {
            assert(actions_view(actions@) =~= Seq::<UiActionView>::empty());
        }
        let ghost prefix = actions_view(actions@);
        let ghost ne = room_events@.len();
        let ghost mut k: int = 0;
        while room_events.len() > 0
            invariant
                0 <= k <= ne,
                ne == evs0.len(),
                room_events@.len() + k == ne,
                forall|j: int| 0 <= j < room_events@.len() ==> #[trigger] events_entries(room_events@)[j] == evs0[j + k],
                cur == self.ui.current_id(),
                has_con == (self.ui.con is Some),
                self.ui == old(self).ui,
                self.con == old(self).con,
                self.session == old(self).session,
                (rooms_view(rooms@), actions_view(actions@).skip(prefix.len() as int)) == apply_all(rv0, evs0.take(k), cur, has_con),
                actions_view(actions@).take(prefix.len() as int) == prefix,
                actions_view(actions@).len() >= prefix.len(),
            decreases room_events@.len(),
        {
            let ghost re = room_events@;
            let (id, evs) = room_events.remove_at(0);
            assert(events_entries(re)[0] == evs0[k]);
            let ghost acts_before = actions_view(actions@);
            let mut acts = apply_to_room(&mut rooms, &self.ui, &id, evs, None, false);
            actions.append(&mut acts);
            proof {
                assert(evs0.take(k + 1).drop_last() =~= evs0.take(k));
                assert(evs0.take(k + 1).last() == evs0[k]);
                k = k + 1;
                assert forall|j: int| 0 <= j < room_events@.len() implies #[trigger] events_entries(room_events@)[j] == evs0[j + k] by {
                    assert(room_events@[j] == re[j + 1]);
                    assert(events_entries(re)[j + 1] == evs0[j + k]);
                }
                assert(actions_view(actions@).take(prefix.len() as int) =~= prefix);
            }
        }
        assert(evs0.take(k) =~= evs0);
        let ghost mid = actions_view(actions@);
        self.ui.rooms = rooms.keys();
        proof {
            assert(ids_view(self.ui.rooms@) =~= keys_of(rooms@));
            lemma_apply_all_keys(rv0, evs0, cur, has_con);
            assert(keys_of(rooms@) =~= keys_of(rooms_view(rooms@)));
            assert(keys_of(rv0) =~= keys_of(old_rooms));
        }
        let mut show = self.ui.show_current();
        actions.append(&mut show);
        self.rooms = rooms;
        proof {
            assert(actions_view(actions@) =~= mid + self.ui.show_current_actions());
            assert(mid =~= prefix + mid.skip(prefix.len() as int));
        }
        actions
    }

    /// Applies the new events of a sync to the known rooms, each taking its new position,
    /// and asks for each room's older history where `fetch_history` holds.
    pub fn apply_new_events(
        &mut self,
        room_events: StrMap<(Vec<EventResult>, String)>,
        fetch_history: bool,
    ) -> (r: SyncOutcome)
        ensures
            rooms_view(final(self).rooms@) == apply_all(
                rooms_view(old(self).rooms@),
                new_events_entries(room_events@),
                old(self).ui.current_id(),
                old(self).ui.con is Some,
            ).0,
            actions_view(r.actions@) == synced_actions(old(self).ui.con is Some) + apply_all(
                rooms_view(old(self).rooms@),
                new_events_entries(room_events@),
                old(self).ui.current_id(),
                old(self).ui.con is Some,
            ).1,
            history_view(r.history@) == if fetch_history {
                history_of(rooms_view(final(self).rooms@))
            } else {
                Seq::empty()
            },
            final(self).ui == old(self).ui,
            final(self).con == old(self).con,
            final(self).session == old(self).session,
    {
        let ghost cur = self.ui.current_id();
        let ghost has_con = self.ui.con is Some;
        let ghost rv0 = rooms_view(self.rooms@);
        let ghost evs0 = new_events_entries(room_events@);
        let mut room_events = room_events;
        let mut actions: Vec<UiAction> = Vec::new();
        if self.ui.con.is_some() {
            actions.push(UiAction::SetLoadingVisible(false));
            actions.push(UiAction::SetChatVisible(true));
        }
        assert(actions_view(actions@) =~= synced_actions(has_con));
        let ghost prefix = actions_view(actions@);
        let ghost ne = room_events@.len();
        let ghost mut k: int = 0;
        while room_events.len() > 0
            invariant
                0 <= k <= ne,
                ne == evs0.len(),
                room_events@.len() + k == ne,
                forall|j: int| 0 <= j < room_events@.len() ==> #[trigger] new_events_entries(room_events@)[j] == evs0[j + k],
                cur == self.ui.current_id(),
                has_con == (self.ui.con is Some),
                self.ui == old(self).ui,
                self.con == old(self).con,
                self.session == old(self).session,
                (rooms_view(self.rooms@), actions_view(actions@).skip(prefix.len() as int)) == apply_all(rv0, evs0.take(k), cur, has_con),
                actions_view(actions@).take(prefix.len() as int) == prefix,
                actions_view(actions@).len() >= prefix.len(),
            decreases room_events@.len(),
        {
            let ghost re = room_events@;
            let (id, (evs, prev_batch)) = room_events.remove_at(0);
            assert(new_events_entries(re)[0] == evs0[k]);
            let mut acts = apply_to_room(&mut self.rooms, &self.ui, &id, evs, Some(prev_batch), false);
            actions.append(&mut acts);
            proof {
                assert(evs0.take(k + 1).drop_last() =~= evs0.take(k));
                assert(evs0.take(k + 1).last() == evs0[k]);
                k = k + 1;
                assert forall|j: int| 0 <= j < room_events@.len() implies #[trigger] new_events_entries(room_events@)[j] == evs0[j + k] by {
                    assert(room_events@[j] == re[j + 1]);
                    assert(new_events_entries(re)[j + 1] == evs0[j + k]);
                }
                assert(actions_view(actions@).take(prefix.len() as int) =~= prefix);
            }
        }
        assert(evs0.take(k) =~= evs0);
        assert(actions_view(actions@) =~= prefix + actions_view(actions@).skip(prefix.len() as int));
        let mut history: Vec<HistoryRequest> = Vec::new();
        if fetch_history {
            let n = self.rooms.len();
            let mut j: usize = 0;
            while j < n
                invariant
                    j <= n,
                    n == self.rooms@.len(),
                    history@.len() == j,
                    forall|i: int| 0 <= i < j ==> #[trigger] history_view(history@)[i] == history_of(rooms_view(self.rooms@))[i],
                decreases n - j,
            {
                let room = self.rooms.value_at(j);
                let ghost prev = history@;
                history.push(HistoryRequest { room_id: room.id.clone(), from: room.prev_batch.clone() });
                proof {
                    assert(history@ == prev.push(history@.last()));
                    assert(history_view(history@)[j as int] == (room.id@, room.prev_batch@));
                    assert(history_of(rooms_view(self.rooms@))[j as int] == (room.id@, room.prev_batch@));
                    assert forall|i: int| 0 <= i < j implies #[trigger] history_view(history@)[i] == history_view(prev)[i] by {
                        assert(history@[i] == prev[i]);
                    }
                }
                j = j + 1;
            }
            assert(history_view(history@) =~= history_of(rooms_view(self.rooms@)));
        } else {
            assert(history_view(history@) =~= Seq::<(Seq<char>, Seq<char>)>::empty());
        }
        SyncOutcome { actions, history }
    }

    /// A sync has come back: the connection takes its position, and, as the connection
    /// stands, the client reads every room anew, or applies the new events to the known
    /// rooms (asking the first time for their older history), or does nothing more.
    pub fn on_sync(&mut self, sync: &Sync) -> (r: SyncOutcome)
        requires
            sync_step_of(old(self).con.state) == SyncStep::FullSync ==> full_sync_ready(*sync)
                && (old(self).ui.con is Some && sync.rooms.join@.len() > 0 ==> old(self).ui.current < sync.rooms.join@.len()),
            sync_step_of(old(self).con.state) is Incremental ==> new_sync_ready(*sync),
        ensures
            final(self).con.next_batch == Some(sync.next_batch),
            final(self).con.state == state_after_sync(old(self).con.state),
            final(self).con.access_token == old(self).con.access_token,
            final(self).con.past == old(self).con.past,
            final(self).session == old(self).session,
            final(self).ui.con == old(self).ui.con,
            final(self).ui.current == old(self).ui.current,
            sync_step_of(old(self).con.state) == SyncStep::FullSync ==> {
                let join = sync.rooms.join@;
                let has_con = old(self).ui.con is Some;
                &&& ids_view(final(self).ui.rooms@) == keys_of(join)
                &&& r.history@.len() == 0
                &&& exists|evs: Seq<Seq<EventResult>>| #[trigger] full_sync_events(join, evs) && {
                    let (rs, acts) = apply_all(joined_rooms_view(join), full_sync_entries(join, evs), old(self).ui.current_id(), has_con);
                    &&& rooms_view(final(self).rooms@) == rs
                    &&& actions_view(r.actions@) == (if has_con {
                        synced_actions(true) + new_room_actions(joined_rooms_view(join))
                    } else {
                        Seq::empty()
                    }) + acts + final(self).ui.show_current_actions()
                }
            },
            sync_step_of(old(self).con.state) matches SyncStep::Incremental(fetch) ==> {
                let join = sync.rooms.join@;
                let has_con = old(self).ui.con is Some;
                &&& final(self).ui == old(self).ui
                &&& exists|evs: Seq<Seq<EventResult>>| #[trigger] new_sync_events(join, evs) && {
                    let (rs, acts) = apply_all(rooms_view(old(self).rooms@), new_sync_entries(join, evs), old(self).ui.current_id(), has_con);
                    &&& rooms_view(final(self).rooms@) == rs
                    &&& actions_view(r.actions@) == synced_actions(has_con) + acts
                    &&& history_view(r.history@) == if fetch { history_of(rs) } else { Seq::empty() }
                }
            },
            sync_step_of(old(self).con.state) == SyncStep::Ignored ==> final(self).rooms == old(self).rooms
                && final(self).ui == old(self).ui && r.actions@.len() == 0 && r.history@.len() == 0,
    {
        let step = self.con.on_sync(sync.next_batch.clone());
        match step {
            SyncStep::FullSync => {
                let (rooms, room_events) = get_rooms(sync);
                let ghost join = sync.rooms.join@;
                let ghost evs = Seq::new(join.len(), |i: int| room_events@[i].1@);
                proof {
                    assert(rooms_view(rooms@) =~= joined_rooms_view(join));
                    assert(events_entries(room_events@) =~= full_sync_entries(join, evs));
                    assert(keys_of(rooms@) =~= keys_of(join));
                    assert(full_sync_events(join, evs));
                }
                let actions = self.apply_full_sync(rooms, room_events);
                SyncOutcome { actions, history: Vec::new() }
            },
            SyncStep::Incremental(fetch) => {
                let room_events = get_new_events(sync);
                let ghost join = sync.rooms.join@;
                let ghost evs = Seq::new(join.len(), |i: int| room_events@[i].1.0@);
                proof {
                    assert(new_events_entries(room_events@) =~= new_sync_entries(join, evs));
                    assert(new_sync_events(join, evs));
                }
                self.apply_new_events(room_events, fetch)
            },
            SyncStep::Ignored => SyncOutcome { actions: Vec::new(), history: Vec::new() },
        }
    }

    /// Whether `on_sync` can take this sync as the client stands: for a full read every
    /// joined room can be read and the current position fits the new rooms; for new events
    /// every timeline can be read.
    pub fn sync_is_readable(&self, sync: &Sync) -> (b: bool)
        ensures
            b == ((sync_step_of(self.con.state) == SyncStep::FullSync ==> full_sync_ready(*sync)
                && (self.ui.con is Some && sync.rooms.join@.len() > 0 ==> self.ui.current < sync.rooms.join@.len()))
                && (sync_step_of(self.con.state) is Incremental ==> new_sync_ready(*sync))),
    {
        let n = sync.rooms.join.len();
        match self.con.state {
            ConnectionState::SyncAll => {
                if self.ui.con.is_some() && n > 0 && self.ui.current >= n {
                    return false;
                }
                let mut k: usize = 0;
                while k < n
                    invariant
                        k <= n,
                        n == sync.rooms.join@.len(),
                        forall|i: int| 0 <= i < k ==> #[trigger] joined_room_wf(sync.rooms.join@[i].1),
                        self.con.state == ConnectionState::SyncAll,
                        self.ui.con is Some && n > 0 ==> self.ui.current < n,
                    decreases n - k,
                {
                    if !crate::events::joined_room_is_readable(sync.rooms.join.value_at(k)) {
                        assert(!joined_room_wf(sync.rooms.join@[k as int].1));
                        return false;
                    }
                    k = k + 1;
                }
                true
            },
            ConnectionState::SyncFirst | ConnectionState::SyncLoop => {
                let mut k: usize = 0;
                while k < n
                    invariant
                        k <= n,
                        n == sync.rooms.join@.len(),
                        forall|i: int| 0 <= i < k ==> #[trigger] all_wf(sync.rooms.join@[i].1.timeline.events@),
                        sync_step_of(self.con.state) is Incremental,
                    decreases n - k,
                {
                    if !crate::events::events_are_readable(&sync.rooms.join.value_at(k).timeline.events) {
                        assert(!all_wf(sync.rooms.join@[k as int].1.timeline.events@));
                        return false;
                    }
                    k = k + 1;
                }
                true
            },
            _ => true,
        }
    }

    /// Applies the older history of a room: of its events, only the messages are added.
    pub fn on_history(&mut self, room_id: &String, events: Vec<EventResult>) -> (r: Vec<UiAction>)
        ensures
            (rooms_view(final(self).rooms@), actions_view(r@)) == room_step(
                rooms_view(old(self).rooms@),
                room_id@,
                events@,
                None,
                old(self).ui.current_id(),
                old(self).ui.con is Some,
                true,
            ),
            final(self).ui == old(self).ui,
            final(self).con == old(self).con,
            final(self).session == old(self).session,
    {
        apply_to_room(&mut self.rooms, &self.ui, room_id, events, None, true)
    }

    /// A key press: Tab moves to the next room.
    pub fn handle_key(&mut self, modifier: &str, key: &str) -> (r: Vec<UiAction>)
        ensures
            key@ != "Tab"@ ==> final(self).ui == old(self).ui && r@.len() == 0,
            key@ == "Tab"@ ==> final(self).ui.rooms == old(self).ui.rooms
                && final(self).ui.con == old(self).ui.con
                && (old(self).ui.rooms@.len() == 0 ==> final(self).ui.current == old(self).ui.current && r@.len() == 0)
                && (old(self).ui.rooms@.len() > 0 ==> final(self).ui.current == old(self).ui.next_position()
                    && actions_view(r@) == final(self).ui.show_current_actions()),
            final(self).rooms == old(self).rooms,
            final(self).con == old(self).con,
            final(self).session == old(self).session,
    {
        if crate::room::str_equals(key, "Tab") {
            self.ui.show_next_room()
        } else {
            Vec::new()
        }
    }
}

/// The client as started: its state, with the window attached.
#[derive(Debug)]
pub struct App {
    pub core: Core,
}

/// What starting asks: the window changes, and a login with kept credentials.
#[derive(Debug)]
pub struct AppStart {
    pub actions: Vec<UiAction>,
    pub login: Option<LoginStart>,
}

impl App {
    /// Starts the client from a kept session: the window learns of each kept room and shows
    /// the current one, and where the session keeps a user and a password a login starts.
    pub fn new(session: Session) -> (r: (App, AppStart))
        ensures
            rooms_view(r.0.core.rooms@) == rooms_view(session.rooms@),
            ids_view(r.0.core.ui.rooms@) == keys_of(session.rooms@),
            r.0.core.ui.con is Some,
            match session.current_room_id {
                Some(id) => if keys_of(session.rooms@).contains(id@) {
                    r.0.core.ui.current < session.rooms@.len()
                        && session.rooms@[r.0.core.ui.current as int].0 == id@
                        && forall|j: int| 0 <= j < r.0.core.ui.current ==> #[trigger] session.rooms@[j].0 != id@
                } else {
                    r.0.core.ui.current == 0
                },
                None => r.0.core.ui.current == 0,
            },
            actions_view(r.1.actions@) == new_room_actions(rooms_view(session.rooms@))
                + r.0.core.ui.show_current_actions(),
            r.0.core.con.next_batch == session.next_batch,
            r.0.core.con.access_token is None,
            !r.0.core.con.past,
            r.0.core.session == session,
            match (session.user, session.pass) {
                (Some(u), Some(p)) => r.1.login matches Some(s) && login_start_ok(s, u@, p@)
                    && r.0.core.con.state == ConnectionState::Login,
                _ => r.1.login is None && r.0.core.con.state == ConnectionState::Offline,
            },
    {
        let mut core = Core::new(session);
        let mut actions = new_room_actions_of(&core.rooms);
        core.ui.con = Some(UiCon {});
        let ghost before = actions_view(actions@);
        let mut show = core.ui.show_current();
        actions.append(&mut show);
        assert(actions_view(actions@) =~= before + core.ui.show_current_actions());
        let login = match (&core.session.user, &core.session.pass) {
            (Some(u), Some(p)) => {
                let u = u.clone();
                let p = p.clone();
                core.request_login(u.as_str(), p.as_str())
            },
            _ => None,
        };
        (App { core }, AppStart { actions, login })
    }

    /// Writes the client's state into its session: every room (stored over a kept room of
    /// the same id), the sync position, and the id of the room shown.
    pub fn save(&mut self)
        ensures
            rooms_view(final(self).core.session.rooms@) == insert_all(
                rooms_view(old(self).core.session.rooms@),
                rooms_view(old(self).core.rooms@),
            ),
            final(self).core.session.next_batch == old(self).core.con.next_batch,
            opt_view(final(self).core.session.current_room_id) == old(self).core.ui.current_id(),
            final(self).core.session.user == old(self).core.session.user,
            final(self).core.session.pass == old(self).core.session.pass,
            final(self).core.rooms == old(self).core.rooms,
            final(self).core.ui == old(self).core.ui,
            final(self).core.con == old(self).core.con,
    {
        let n = self.core.rooms.len();
        let mut k: usize = 0;
        while k < n
            invariant
                k <= n,
                n == self.core.rooms@.len(),
                self.core.rooms == old(self).core.rooms,
                self.core.ui == old(self).core.ui,
                self.core.con == old(self).core.con,
                self.core.session.user == old(self).core.session.user,
                self.core.session.pass == old(self).core.session.pass,
                self.core.session.next_batch == old(self).core.session.next_batch,
                self.core.session.current_room_id == old(self).core.session.current_room_id,
                rooms_view(self.core.session.rooms@) == insert_all(
                    rooms_view(old(self).core.session.rooms@),
                    rooms_view(self.core.rooms@).take(k as int),
                ),
            decreases n - k,
        {
            let id = self.core.rooms.key_at(k).clone();
            let room = self.core.rooms.value_at(k).clone();
            let ghost before = self.core.session.rooms@;
            let ghost idv = id@;
            let ghost rg = room;
            self.core.session.rooms.insert(id, room);
            proof {
                lemma_rooms_view_insert(before, idv, rg);
                let add = rooms_view(self.core.rooms@).take(k + 1);
                assert(add.drop_last() =~= rooms_view(self.core.rooms@).take(k as int));
                assert(add.last() == (idv, rg@));
            }
            k = k + 1;
        }
        assert(rooms_view(self.core.rooms@).take(n as int) =~= rooms_view(self.core.rooms@));
        self.core.session.next_batch = self.core.con.next_batch.clone();
        self.core.session.current_room_id = self.core.ui.get_current_id();
    }

}

} // verus!
