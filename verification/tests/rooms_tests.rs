use collab_core::rooms::RoomManager;

#[test]
fn join_creates_missing_room() {
    let mut rooms = RoomManager::new();
    assert!(!rooms.room_exists(7));
    rooms.join(7, "bob".to_string());
    assert!(rooms.room_exists(7));
    assert_eq!(rooms.member_list(7).unwrap(), ["bob".to_string()].to_vec());
}

#[test]
fn broadcast_reaches_the_others_and_not_the_sender() {
    let mut rooms = RoomManager::new();
    rooms.join(7, "alice".to_string());
    rooms.join(7, "bob".to_string());
    rooms.broadcast(7, &"alice".to_string(), &"hello".to_string());
    assert_eq!(
        rooms.take_pending(7, &"bob".to_string()),
        ["hello".to_string()].to_vec()
    );
    assert_eq!(rooms.take_pending(7, &"alice".to_string()), Vec::<String>::new());
}

#[test]
fn broadcast_reaches_every_other_member() {
    let mut rooms = RoomManager::new();
    rooms.join(3, "alice".to_string());
    rooms.join(3, "bob".to_string());
    rooms.join(3, "carol".to_string());
    rooms.broadcast(3, &"bob".to_string(), &"edit".to_string());
    assert_eq!(
        rooms.take_pending(3, &"alice".to_string()),
        ["edit".to_string()].to_vec()
    );
    assert_eq!(
        rooms.take_pending(3, &"carol".to_string()),
        ["edit".to_string()].to_vec()
    );
    assert_eq!(rooms.take_pending(3, &"bob".to_string()), Vec::<String>::new());
}

#[test]
fn rejoin_replaces_the_old_entry() {
    let mut rooms = RoomManager::new();
    rooms.join(7, "alice".to_string());
    rooms.join(7, "bob".to_string());
    rooms.broadcast(7, &"bob".to_string(), &"before".to_string());
    rooms.join(7, "alice".to_string());
    assert_eq!(
        rooms.member_list(7).unwrap(),
        ["alice".to_string(), "bob".to_string()].to_vec()
    );
    rooms.broadcast(7, &"bob".to_string(), &"after".to_string());
    assert_eq!(
        rooms.take_pending(7, &"alice".to_string()),
        ["after".to_string()].to_vec()
    );
}

#[test]
fn leave_removes_exactly_the_leaver() {
    let mut rooms = RoomManager::new();
    rooms.join(9, "alice".to_string());
    rooms.join(9, "bob".to_string());
    rooms.leave(9, &"alice".to_string());
    assert_eq!(rooms.member_list(9).unwrap(), ["bob".to_string()].to_vec());
    rooms.leave(9, &"bob".to_string());
    assert!(rooms.room_exists(9));
    assert_eq!(rooms.member_list(9).unwrap(), Vec::<String>::new());
}

#[test]
fn leave_of_absent_name_or_room_changes_nothing() {
    let mut rooms = RoomManager::new();
    rooms.leave(5, &"ghost".to_string());
    assert!(!rooms.room_exists(5));
    rooms.join(5, "alice".to_string());
    rooms.leave(5, &"ghost".to_string());
    assert_eq!(rooms.member_list(5).unwrap(), ["alice".to_string()].to_vec());
}

#[test]
fn broadcast_into_absent_room_is_a_no_op() {
    let mut rooms = RoomManager::new();
    rooms.broadcast(42, &"alice".to_string(), &"lost".to_string());
    assert!(!rooms.room_exists(42));
}

#[test]
fn take_pending_of_absent_room_or_name_yields_nothing() {
    let mut rooms = RoomManager::new();
    assert_eq!(rooms.take_pending(8, &"alice".to_string()), Vec::<String>::new());
    rooms.join(8, "bob".to_string());
    assert_eq!(rooms.take_pending(8, &"alice".to_string()), Vec::<String>::new());
    assert!(rooms.room_exists(8));
    assert_eq!(rooms.member_list(8).unwrap(), ["bob".to_string()].to_vec());
}

#[test]
fn member_list_of_absent_room_is_none() {
    let rooms = RoomManager::new();
    assert!(rooms.member_list(11).is_none());
}

#[test]
fn one_senders_messages_arrive_in_order() {
    let mut rooms = RoomManager::new();
    rooms.join(1, "alice".to_string());
    rooms.join(1, "bob".to_string());
    rooms.broadcast(1, &"alice".to_string(), &"one".to_string());
    rooms.broadcast(1, &"alice".to_string(), &"two".to_string());
    rooms.broadcast(1, &"alice".to_string(), &"three".to_string());
    assert_eq!(
        rooms.take_pending(1, &"bob".to_string()),
        ["one".to_string(), "two".to_string(), "three".to_string()].to_vec()
    );
    assert_eq!(rooms.take_pending(1, &"bob".to_string()), Vec::<String>::new());
}

#[test]
fn rooms_are_independent() {
    let mut rooms = RoomManager::new();
    rooms.join(1, "alice".to_string());
    rooms.join(2, "alice".to_string());
    rooms.join(2, "bob".to_string());
    rooms.broadcast(2, &"bob".to_string(), &"only room two".to_string());
    assert_eq!(rooms.take_pending(1, &"alice".to_string()), Vec::<String>::new());
    assert_eq!(
        rooms.take_pending(2, &"alice".to_string()),
        ["only room two".to_string()].to_vec()
    );
}

#[test]
fn a_sender_outside_the_room_reaches_every_member() {
    let mut rooms = RoomManager::new();
    rooms.join(4, "alice".to_string());
    rooms.join(4, "bob".to_string());
    rooms.broadcast(4, &"watcher".to_string(), &"ping".to_string());
    assert_eq!(
        rooms.take_pending(4, &"alice".to_string()),
        ["ping".to_string()].to_vec()
    );
    assert_eq!(
        rooms.take_pending(4, &"bob".to_string()),
        ["ping".to_string()].to_vec()
    );
}
