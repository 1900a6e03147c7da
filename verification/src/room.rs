//! The chat model: rooms, their members and their messages.
use crate::strmap::StrMap;
use vstd::prelude::*;

verus! {

/// Who may join a room, as a `m.room.join_rules` event states it.
#[derive(Clone, Copy, Debug, PartialEq, Eq, Structural)]
pub enum JoinRule {
    NotSet,
    Public,
    Knock,
    Invite,
    Private,
}

/// The join rule that a `join_rule` value of a `m.room.join_rules` event names.
pub open spec fn join_rule_of(rule: Seq<char>) -> JoinRule {
    if rule == "public"@ {
        JoinRule::Public
    } else if rule == "knock"@ {
        JoinRule::Knock
    } else if rule == "invite"@ {
        JoinRule::Invite
    } else if rule == "private"@ {
        JoinRule::Private
    } else {
        JoinRule::NotSet
    }
}

/// Whether `s` holds exactly the text of `lit`.
pub fn str_equals(s: &str, lit: &str) -> (b: bool)
    ensures
        b == (s@ == lit@),
{
    let a = s.to_owned();
    let c = lit.to_owned();
    a == c
}

/// Reads the `join_rule` value of a `m.room.join_rules` event.
pub fn get_join_rule(rule: &String) -> (j: JoinRule)
    ensures
        j == join_rule_of(rule@),
{
    if str_equals(rule.as_str(), "public") {
        JoinRule::Public
    } else if str_equals(rule.as_str(), "knock") {
        JoinRule::Knock
    } else if str_equals(rule.as_str(), "invite") {
        JoinRule::Invite
    } else if str_equals(rule.as_str(), "private") {
        JoinRule::Private
    } else {
        JoinRule::NotSet
    }
}

/// What a message carries.
#[derive(Debug, PartialEq, Eq)]
pub enum Content {
    Text(String),
}

impl Clone for Content {
    fn clone(&self) -> (c: Self)
        ensures
            c == *self,
    {
        match self {
            Content::Text(t) => Content::Text(t.clone()),
        }
    }
}

/// A message as the room shows it: who sent it, at what local time, and what it says.
#[derive(Debug, PartialEq, Eq)]
pub struct Message {
    pub user: String,
    pub time: String,
    pub content: Content,
}

impl Clone for Message {
    fn clone(&self) -> (m: Self)
        ensures
            m == *self,
    {
        Message { user: self.user.clone(), time: self.time.clone(), content: self.content.clone() }
    }
}

impl Message {
    pub fn new(user: &str, time: &str, content: Content) -> (m: Message)
        ensures
            m.user@ == user@,
            m.time@ == time@,
            m.content == content,
    {
        Message { user: user.to_owned(), time: time.to_owned(), content }
    }
}

/// A member of a room.
#[derive(Debug, PartialEq, Eq)]
pub struct User {
    pub id: String,
    pub display_name: Option<String>,
}

impl Clone for User {
    fn clone(&self) -> (u: Self)
        ensures
            u == *self,
    {
        User { id: self.id.clone(), display_name: self.display_name.clone() }
    }
}

/// The name under which a member is shown: the display name where there is one, else the id.
pub open spec fn user_name(u: User) -> Seq<char> {
    match u.display_name {
        Some(d) => d@,
        None => u.id@,
    }
}

impl User {
    pub fn new(id: String, display_name: Option<String>) -> (u: User)
        ensures
            u.id == id,
            u.display_name == display_name,
    {
        User { id, display_name }
    }

    pub fn get_name(&self) -> (n: &str)
        ensures
            n@ == user_name(*self),
    {
        if let Some(dn) = &self.display_name {
            dn.as_str()
        } else {
            self.id.as_str()
        }
    }
}

/// The colour in which member names are shown.
pub fn get_random_color() -> (c: String)
    ensures
        c@ == "#ff0000"@,
{
    "#ff0000".to_owned()
}

/// The view of an optional string.
pub open spec fn opt_view(o: Option<String>) -> Option<Seq<char>> {
    match o {
        Some(s) => Some(s@),
        None => None,
    }
}

/// A room of the chat.
#[derive(Debug)]
pub struct Room {
    pub id: String,
    pub name: String,
    pub topic: Option<String>,
    pub prev_batch: String,
    pub messages: Vec<Message>,
    pub users: StrMap<User>,
    pub creator: String,
    pub federate: bool,
    pub join_rule: JoinRule,
}

/// A room as plain values.
pub struct RoomView {
    pub id: Seq<char>,
    pub name: Seq<char>,
    pub topic: Option<Seq<char>>,
    pub prev_batch: Seq<char>,
    pub messages: Seq<Message>,
    pub users: Seq<(Seq<char>, User)>,
    pub creator: Seq<char>,
    pub federate: bool,
    pub join_rule: JoinRule,
}

impl View for Room {
    type V = RoomView;

    open spec fn view(&self) -> RoomView {
        RoomView {
            id: self.id@,
            name: self.name@,
            topic: opt_view(self.topic),
            prev_batch: self.prev_batch@,
            messages: self.messages@,
            users: self.users@,
            creator: self.creator@,
            federate: self.federate,
            join_rule: self.join_rule,
        }
    }
}

impl Clone for Room {
    fn clone(&self) -> (r: Self)
        ensures
            r@ == self@,
    {
        let messages = self.messages.clone();
        assert(messages@ =~= self.messages@);
        let users = self.users.clone();
        assert forall|i: int| 0 <= i < users@.len() implies #[trigger] users@[i] == self.users@[i] by {
            assert(users@[i].0 == self.users@[i].0);
            assert(cloned(self.users@[i].1, users@[i].1));
        }
        assert(users@ =~= self.users@);
        Room {
            id: self.id.clone(),
            name: self.name.clone(),
            topic: self.topic.clone(),
            prev_batch: self.prev_batch.clone(),
            messages,
            users,
            creator: self.creator.clone(),
            federate: self.federate,
            join_rule: self.join_rule,
        }
    }
}

impl Room {
    pub fn new(
        id: &str,
        name: &str,
        prev_batch: &str,
        creator: &str,
        federate: bool,
        join_rule: JoinRule,
    ) -> (r: Room)
        ensures
            r@ == (RoomView {
                id: id@,
                name: name@,
                topic: None,
                prev_batch: prev_batch@,
                messages: Seq::empty(),
                users: Seq::empty(),
                creator: creator@,
                federate,
                join_rule,
            }),
    {
        let r = Room {
            id: id.to_owned(),
            name: name.to_owned(),
            topic: None,
            prev_batch: prev_batch.to_owned(),
            messages: Vec::new(),
            users: StrMap::new(),
            creator: creator.to_owned(),
            federate,
            join_rule,
        };
        assert(r.messages@ =~= Seq::<Message>::empty());
        r
    }

    pub fn id(&self) -> (i: &str)
        ensures
            i@ == self.id@,
    {
        self.id.as_str()
    }
}

} // verus!
