use codec::room::{get_join_rule, get_random_color, str_equals, Content, JoinRule, Message, Room, User};
use codec::strmap::StrMap;

#[test]
fn join_rules_are_read_by_name() {
    assert_eq!(get_join_rule(&"public".to_string()), JoinRule::Public);
    assert_eq!(get_join_rule(&"knock".to_string()), JoinRule::Knock);
    assert_eq!(get_join_rule(&"invite".to_string()), JoinRule::Invite);
    assert_eq!(get_join_rule(&"private".to_string()), JoinRule::Private);
    assert_eq!(get_join_rule(&"Public".to_string()), JoinRule::NotSet);
    assert_eq!(get_join_rule(&"".to_string()), JoinRule::NotSet);
}

#[test]
fn user_name_prefers_display_name() {
    let u = User::new("@alice:matrix.org".to_string(), Some("Alice".to_string()));
    assert_eq!(u.get_name(), "Alice");
    let v = User::new("@bob:matrix.org".to_string(), None);
    assert_eq!(v.get_name(), "@bob:matrix.org");
}

#[test]
fn new_room_is_empty() {
    let r = Room::new("!r:x", "General", "t1", "@c:x", false, JoinRule::Invite);
    assert_eq!(r.id(), "!r:x");
    assert_eq!(r.name, "General");
    assert_eq!(r.prev_batch, "t1");
    assert_eq!(r.creator, "@c:x");
    assert!(!r.federate);
    assert_eq!(r.join_rule, JoinRule::Invite);
    assert!(r.topic.is_none());
    assert!(r.messages.is_empty());
    assert_eq!(r.users.len(), 0);
}

#[test]
fn message_keeps_its_fields() {
    let m = Message::new("@a:x", "12:00:01", Content::Text("hi".to_string()));
    assert_eq!(m.user, "@a:x");
    assert_eq!(m.time, "12:00:01");
    assert_eq!(m.content, Content::Text("hi".to_string()));
}

#[test]
fn colour_is_red() {
    assert_eq!(get_random_color(), "#ff0000");
}

#[test]
fn str_equals_compares_text() {
    assert!(str_equals("Tab", "Tab"));
    assert!(!str_equals("tab", "Tab"));
    assert!(!str_equals("Tab ", "Tab"));
}

#[test]
fn strmap_insert_then_get() {
    let mut m: StrMap<u32> = StrMap::new();
    m.insert("b".to_string(), 1);
    m.insert("a".to_string(), 2);
    assert_eq!(m.len(), 2);
    assert_eq!(m.get(&"b".to_string()), Some(&1));
    assert_eq!(m.get(&"a".to_string()), Some(&2));
    assert_eq!(m.get(&"c".to_string()), None);
    m.insert("b".to_string(), 7);
    assert_eq!(m.len(), 2);
    assert_eq!(m.get(&"b".to_string()), Some(&7));
    assert_eq!(m.keys(), vec!["b".to_string(), "a".to_string()]);
    assert_eq!(m.find(&"a".to_string()), Some(1));
    assert!(m.contains_key(&"a".to_string()));
    assert!(!m.contains_key(&"z".to_string()));
}

#[test]
fn strmap_remove_and_put_back() {
    let mut m: StrMap<u32> = StrMap::new();
    m.insert("x".to_string(), 1);
    m.insert("y".to_string(), 2);
    m.insert("z".to_string(), 3);
    let (k, v) = m.remove_at(1);
    assert_eq!(k, "y");
    assert_eq!(v, 2);
    assert_eq!(m.keys(), vec!["x".to_string(), "z".to_string()]);
    m.insert_at(0, "w".to_string(), 9);
    assert_eq!(m.keys(), vec!["w".to_string(), "x".to_string(), "z".to_string()]);
    assert_eq!(*m.value_at(0), 9);
    assert_eq!(m.key_at(2), "z");
}

#[test]
fn strmap_clone_is_equal() {
    let mut m: StrMap<u32> = StrMap::new();
    m.insert("x".to_string(), 1);
    let c = m.clone();
    assert_eq!(c.keys(), m.keys());
    assert_eq!(c.get(&"x".to_string()), Some(&1));
}

#[test]
fn room_clone_keeps_everything() {
    let mut r = Room::new("!r:x", "General", "t1", "@c:x", true, JoinRule::Public);
    r.users.insert("@a:x".to_string(), User::new("@a:x".to_string(), None));
    r.messages.push(Message::new("@a:x", "01:02:03", Content::Text("yo".to_string())));
    r.topic = Some("t".to_string());
    let c = r.clone();
    assert_eq!(c.id, r.id);
    assert_eq!(c.name, r.name);
    assert_eq!(c.topic, r.topic);
    assert_eq!(c.messages, r.messages);
    assert_eq!(c.users.keys(), r.users.keys());
    assert_eq!(c.creator, r.creator);
    assert_eq!(c.federate, r.federate);
    assert_eq!(c.join_rule, r.join_rule);
}
