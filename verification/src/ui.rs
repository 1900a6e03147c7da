//! What the client asks of its window, and which room the window shows.
use crate::room::str_equals;
use vstd::prelude::*;

verus! {

/// The window of the client. It holds nothing: the window lives outside the library, and
/// this value only records that one is attached.
#[derive(Debug, Clone, Copy)]
pub struct UiCon {}

/// A request to the window.
#[derive(Debug, PartialEq, Eq)]
pub enum UiAction {
    SetLoginVisible(bool),
    SetLoadingVisible(bool),
    SetChatVisible(bool),
    SetLoadingText(String),
    NewRoom(String),
    /// Room id and title.
    SetRoomTitle(String, String),
    /// Room id.
    ShowRoom(String),
    /// Room id, coloured sender name, time, text, and whether the text is older history.
    AddRoomText(String, String, String, String, bool),
    /// Room name, coloured sender name and text.
    Notify(String, String, String),
}

/// A request to the window, as plain values.
pub enum UiActionView {
    SetLoginVisible(bool),
    SetLoadingVisible(bool),
    SetChatVisible(bool),
    SetLoadingText(Seq<char>),
    NewRoom(Seq<char>),
    SetRoomTitle(Seq<char>, Seq<char>),
    ShowRoom(Seq<char>),
    AddRoomText(Seq<char>, Seq<char>, Seq<char>, Seq<char>, bool),
    Notify(Seq<char>, Seq<char>, Seq<char>),
}

impl View for UiAction {
    type V = UiActionView;

    open spec fn view(&self) -> UiActionView {
        match self {
            UiAction::SetLoginVisible(b) => UiActionView::SetLoginVisible(*b),
            UiAction::SetLoadingVisible(b) => UiActionView::SetLoadingVisible(*b),
            UiAction::SetChatVisible(b) => UiActionView::SetChatVisible(*b),
            UiAction::SetLoadingText(t) => UiActionView::SetLoadingText(t@),
            UiAction::NewRoom(id) => UiActionView::NewRoom(id@),
            UiAction::SetRoomTitle(id, t) => UiActionView::SetRoomTitle(id@, t@),
            UiAction::ShowRoom(id) => UiActionView::ShowRoom(id@),
            UiAction::AddRoomText(id, u, time, t, old) => UiActionView::AddRoomText(id@, u@, time@, t@, *old),
            UiAction::Notify(n, u, t) => UiActionView::Notify(n@, u@, t@),
        }
    }
}

/// A list of requests, as plain values.
pub open spec fn actions_view(v: Seq<UiAction>) -> Seq<UiActionView> {
    v.map_values(|a: UiAction| a@)
}

/// The ids of a list of rooms, as plain values.
pub open spec fn ids_view(v: Seq<String>) -> Seq<Seq<char>> {
    v.map_values(|s: String| s@)
}

/// The position after a Tab among `len` rooms.
pub open spec fn next_pos(cur: int, len: int) -> int {
    if cur >= len - 1 {
        0
    } else {
        cur + 1
    }
}

/// The position after `n` Tabs among `len` rooms.
pub open spec fn advance(cur: int, len: int, n: nat) -> int
    decreases n,
{
    if n == 0 {
        cur
    } else {
        next_pos(advance(cur, len, (n - 1) as nat), len)
    }
}

/// Tab goes round the rooms: `n` presses from room `cur` of `len` rooms lead to room
/// `(cur + n) % len`, so every room comes in turn and `len` presses come back.
pub proof fn lemma_tab_cycles(cur: int, len: int, n: nat)
    requires
        0 <= cur < len,
    ensures
        advance(cur, len, n) == (cur + n) % len,
        0 <= advance(cur, len, n) < len,
    decreases n,
{
    if n == 0 {
        vstd::arithmetic::div_mod::lemma_fundamental_div_mod_converse(cur, len, 0, cur);
    } else {
        lemma_tab_cycles(cur, len, (n - 1) as nat);
        let x = cur + n - 1;
        let m = x % len;
        let q = x / len;
        vstd::arithmetic::div_mod::lemma_fundamental_div_mod(x, len);
        assert(x == q * len + m) by {
            vstd::arithmetic::mul::lemma_mul_is_commutative(q, len);
        }
        if m == len - 1 {
            assert(x + 1 == (q + 1) * len + 0) by {
                vstd::arithmetic::mul::lemma_mul_is_distributive_add_other_way(len, q, 1);
            }
            vstd::arithmetic::div_mod::lemma_fundamental_div_mod_converse(x + 1, len, q + 1, 0);
        } else {
            vstd::arithmetic::div_mod::lemma_fundamental_div_mod_converse(x + 1, len, q, m + 1);
        }
    }
}

/// Which room the window shows, among the rooms it knows.
#[derive(Debug)]
pub struct UiMaster {
    pub current: usize,
    pub rooms: Vec<String>,
    pub con: Option<UiCon>,
}

impl UiMaster {
    /// The id of the room shown, if the position points at a room.
    pub open spec fn current_id(&self) -> Option<Seq<char>> {
        if self.current < self.rooms@.len() {
            Some(self.rooms@[self.current as int]@)
        } else {
            None
        }
    }

    /// Showing the current room cannot go out of bounds.
    pub open spec fn can_show(&self) -> bool {
        self.con is Some && self.rooms@.len() > 0 ==> self.current < self.rooms@.len()
    }

    /// What showing the current room asks of the window.
    pub open spec fn show_current_actions(&self) -> Seq<UiActionView> {
        if self.rooms@.len() > 0 && self.con is Some {
            seq![UiActionView::ShowRoom(self.rooms@[self.current as int]@)]
        } else {
            Seq::empty()
        }
    }

    /// The position after moving to the next room, back to the first after the last.
    pub open spec fn next_position(&self) -> usize {
        next_pos(self.current as int, self.rooms@.len() as int) as usize
    }

    pub fn new() -> (u: UiMaster)
        ensures
            u.current == 0,
            u.rooms@.len() == 0,
            u.con is None,
    {
        UiMaster { current: 0, rooms: Vec::new(), con: None }
    }

    pub fn get_current_id(&self) -> (r: Option<String>)
        ensures
            match r {
                Some(id) => self.current_id() == Some(id@),
                None => self.current_id() is None,
            },
    {
        if self.rooms.len() == 0 {
            None
        } else if self.current > self.rooms.len() - 1 {
            None
        } else {
            Some(self.rooms[self.current].clone())
        }
    }

    /// Moves to the next room and shows it.
    pub fn show_next_room(&mut self) -> (r: Vec<UiAction>)
        ensures
            final(self).rooms == old(self).rooms,
            final(self).con == old(self).con,
            old(self).rooms@.len() == 0 ==> final(self).current == old(self).current && r@.len() == 0,
            old(self).rooms@.len() > 0 ==> final(self).current == old(self).next_position()
                && actions_view(r@) == final(self).show_current_actions(),
    {
        if self.rooms.len() == 0 {
            return Vec::new();
        }
        self.current = if self.current >= self.rooms.len() - 1 {
            0
        } else {
            self.current + 1
        };
        self.show_current()
    }

    /// Makes the room with id `room_id` the current one; `false`, and nothing changed, where
    /// there is none.
    pub fn set_room(&mut self, room_id: &str) -> (found: bool)
        ensures
            final(self).rooms == old(self).rooms,
            final(self).con == old(self).con,
            found == ids_view(old(self).rooms@).contains(room_id@),
            found ==> final(self).current < old(self).rooms@.len()
                && old(self).rooms@[final(self).current as int]@ == room_id@
                && forall|j: int| 0 <= j < final(self).current ==> #[trigger] old(self).rooms@[j]@ != room_id@,
            !found ==> final(self).current == old(self).current,
    {
        let mut n: usize = 0;
        while n < self.rooms.len()
            invariant
                n <= self.rooms@.len(),
                self.rooms == old(self).rooms,
                self.con == old(self).con,
                self.current == old(self).current,
                forall|j: int| 0 <= j < n ==> #[trigger] self.rooms@[j]@ != room_id@,
            decreases self.rooms@.len() - n,
        {
            if str_equals(self.rooms[n].as_str(), room_id) {
                self.current = n;
                proof {
                    assert(ids_view(self.rooms@)[n as int] == room_id@);
                }
                return true;
            }
            n = n + 1;
        }
        proof {
            if ids_view(self.rooms@).contains(room_id@) {
                let j = choose|j: int| 0 <= j < ids_view(self.rooms@).len() && ids_view(self.rooms@)[j] == room_id@;
                assert(self.rooms@[j]@ != room_id@);
            }
        }
        false
    }

    /// Shows the room with id `room_id`, if the window knows it.
    pub fn show_room(&mut self, room_id: &str) -> (r: Vec<UiAction>)
        ensures
            final(self).rooms == old(self).rooms,
            final(self).con == old(self).con,
            !ids_view(old(self).rooms@).contains(room_id@) ==> final(self).current == old(self).current && r@.len() == 0,
            ids_view(old(self).rooms@).contains(room_id@) ==> final(self).current < old(self).rooms@.len()
                && old(self).rooms@[final(self).current as int]@ == room_id@
                && (forall|j: int| 0 <= j < final(self).current ==> #[trigger] old(self).rooms@[j]@ != room_id@)
                && actions_view(r@) == final(self).show_current_actions(),
    {
        if !self.set_room(room_id) {
            return Vec::new();
        }
        self.show_current()
    }

    /// Shows the current room.
    pub fn show_current(&self) -> (r: Vec<UiAction>)
        requires
            self.can_show(),
        ensures
            actions_view(r@) == self.show_current_actions(),
    {
        let mut r: Vec<UiAction> = Vec::new();
        if self.rooms.len() == 0 {
            assert(actions_view(r@) =~= self.show_current_actions());
            return r;
        }
        if self.con.is_some() {
            r.push(UiAction::ShowRoom(self.rooms[self.current].clone()));
        }
        assert(actions_view(r@) =~= self.show_current_actions());
        r
    }
}

} // verus!
