use codec::ui::{UiAction, UiCon, UiMaster};

fn ui_with(rooms: &[&str], current: usize, con: bool) -> UiMaster {
    let mut u = UiMaster::new();
    u.rooms = rooms.iter().map(|r| r.to_string()).collect();
    u.current = current;
    if con {
        u.con = Some(UiCon {});
    }
    u
}

#[test]
fn new_ui_is_empty() {
    let u = UiMaster::new();
    assert_eq!(u.current, 0);
    assert!(u.rooms.is_empty());
    assert!(u.con.is_none());
    assert_eq!(u.get_current_id(), None);
}

#[test]
fn current_id_is_checked_against_the_rooms() {
    let u = ui_with(&["a", "b"], 1, false);
    assert_eq!(u.get_current_id(), Some("b".to_string()));
    let u = ui_with(&["a", "b"], 2, false);
    assert_eq!(u.get_current_id(), None);
}

#[test]
fn tab_goes_round() {
    let mut u = ui_with(&["a", "b", "c"], 0, true);
    assert_eq!(u.show_next_room(), vec![UiAction::ShowRoom("b".to_string())]);
    assert_eq!(u.show_next_room(), vec![UiAction::ShowRoom("c".to_string())]);
    assert_eq!(u.show_next_room(), vec![UiAction::ShowRoom("a".to_string())]);
    assert_eq!(u.current, 0);
}

#[test]
fn tab_without_rooms_does_nothing() {
    let mut u = ui_with(&[], 0, true);
    assert!(u.show_next_room().is_empty());
    assert_eq!(u.current, 0);
}

#[test]
fn tab_without_window_moves_silently() {
    let mut u = ui_with(&["a", "b"], 0, false);
    assert!(u.show_next_room().is_empty());
    assert_eq!(u.current, 1);
}

#[test]
fn set_room_finds_the_first_match() {
    let mut u = ui_with(&["a", "b", "b"], 0, true);
    assert!(u.set_room("b"));
    assert_eq!(u.current, 1);
    assert!(!u.set_room("z"));
    assert_eq!(u.current, 1);
}

#[test]
fn show_room_shows_known_rooms_only() {
    let mut u = ui_with(&["a", "b"], 0, true);
    assert_eq!(u.show_room("b"), vec![UiAction::ShowRoom("b".to_string())]);
    assert!(u.show_room("q").is_empty());
    assert_eq!(u.current, 1);
}

#[test]
fn show_current_needs_rooms_and_window() {
    assert!(ui_with(&[], 0, true).show_current().is_empty());
    assert!(ui_with(&["a"], 0, false).show_current().is_empty());
    assert_eq!(ui_with(&["a"], 0, true).show_current(), vec![UiAction::ShowRoom("a".to_string())]);
}
