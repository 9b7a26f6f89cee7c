use rchat::chat_rooms::{ChatRooms, DEFAULT_ROOM};

fn names(rooms: &ChatRooms) -> Vec<String> {
    rooms.room_names()
}

fn members(rooms: &ChatRooms, room: &str) -> Vec<String> {
    rooms.get_room(room).unwrap().in_room.clone()
}

#[test]
fn new_has_only_an_empty_lobby() {
    let rooms = ChatRooms::new();
    assert_eq!(names(&rooms), vec!["Lobby".to_string()]);
    assert_eq!(DEFAULT_ROOM, "Lobby");
    assert!(members(&rooms, "Lobby").is_empty());
    assert_eq!(rooms.get_room("Lobby").unwrap().name, "Lobby");
}

#[test]
fn get_room_of_missing_room_is_none() {
    let rooms = ChatRooms::new();
    assert!(rooms.get_room("Kitchen").is_none());
    assert!(rooms.get_room("lobby").is_none());
}

#[test]
fn insert_puts_client_in_room() {
    let mut rooms = ChatRooms::new();
    assert_eq!(rooms.insert_client_into_room("bob", "Lobby"), Ok(()));
    assert!(rooms.is_user_in_room("bob", "Lobby"));
    assert_eq!(members(&rooms, "Lobby"), vec!["bob".to_string()]);
}

#[test]
fn insert_twice_is_refused() {
    let mut rooms = ChatRooms::new();
    assert_eq!(rooms.insert_client_into_room("bob", "Lobby"), Ok(()));
    assert_eq!(rooms.insert_client_into_room("bob", "Lobby"), Err(()));
    assert_eq!(members(&rooms, "Lobby"), vec!["bob".to_string()]);
}

#[test]
fn insert_into_missing_room_is_refused() {
    let mut rooms = ChatRooms::new();
    assert_eq!(rooms.insert_client_into_room("bob", "Kitchen"), Err(()));
    assert!(!rooms.is_user_in_room("bob", "Kitchen"));
    assert!(members(&rooms, "Lobby").is_empty());
}

#[test]
fn create_room_then_again() {
    let mut rooms = ChatRooms::new();
    assert_eq!(rooms.create_room("Kitchen"), Ok(()));
    assert_eq!(rooms.create_room("Kitchen"), Err(()));
    assert_eq!(rooms.create_room("Lobby"), Err(()));
    assert_eq!(names(&rooms), vec!["Lobby".to_string(), "Kitchen".to_string()]);
    assert!(members(&rooms, "Kitchen").is_empty());
}

#[test]
fn current_room_name_of_client() {
    let mut rooms = ChatRooms::new();
    rooms.create_room("Kitchen").unwrap();
    rooms.insert_client_into_room("ann", "Kitchen").unwrap();
    assert_eq!(rooms.get_current_room_name("ann"), Ok("Kitchen".to_string()));
    assert_eq!(rooms.get_current_room_name("bob"), Err(()));
}

#[test]
fn current_room_is_the_first_that_holds_the_client() {
    let mut rooms = ChatRooms::new();
    rooms.create_room("Kitchen").unwrap();
    rooms.insert_client_into_room("ann", "Kitchen").unwrap();
    rooms.insert_client_into_room("ann", "Lobby").unwrap();
    assert_eq!(rooms.get_current_room_name("ann"), Ok("Lobby".to_string()));
}

#[test]
fn remove_takes_client_out() {
    let mut rooms = ChatRooms::new();
    rooms.insert_client_into_room("ann", "Lobby").unwrap();
    rooms.insert_client_into_room("bob", "Lobby").unwrap();
    assert_eq!(rooms.remove_client_from_room("ann"), Ok(()));
    assert!(!rooms.is_user_in_room("ann", "Lobby"));
    assert_eq!(members(&rooms, "Lobby"), vec!["bob".to_string()]);
    assert_eq!(rooms.get_current_room_name("ann"), Err(()));
}

#[test]
fn leave_undoes_insert() {
    let mut rooms = ChatRooms::new();
    rooms.create_room("Kitchen").unwrap();
    rooms.insert_client_into_room("bob", "Kitchen").unwrap();
    let before_names = names(&rooms);
    let before_lobby = members(&rooms, "Lobby");
    let before_kitchen = members(&rooms, "Kitchen");
    rooms.insert_client_into_room("ann", "Kitchen").unwrap();
    rooms.remove_client_from_room("ann").unwrap();
    assert_eq!(names(&rooms), before_names);
    assert_eq!(members(&rooms, "Lobby"), before_lobby);
    assert_eq!(members(&rooms, "Kitchen"), before_kitchen);
}

#[test]
fn participants_exclude_the_client() {
    let mut rooms = ChatRooms::new();
    rooms.create_room("Kitchen").unwrap();
    rooms.insert_client_into_room("ann", "Lobby").unwrap();
    rooms.insert_client_into_room("bob", "Lobby").unwrap();
    rooms.insert_client_into_room("cid", "Kitchen").unwrap();
    rooms.insert_client_into_room("dan", "Lobby").unwrap();
    assert_eq!(
        rooms.clients_room_pariticipants("bob"),
        vec!["ann".to_string(), "dan".to_string()]
    );
    assert!(rooms.clients_room_pariticipants("cid").is_empty());
}

#[test]
fn get_room_mut_changes_that_room() {
    let mut rooms = ChatRooms::new();
    rooms.create_room("Kitchen").unwrap();
    {
        let room = rooms.get_room_mut("Kitchen").unwrap();
        room.in_room.push("eve".to_string());
    }
    assert!(rooms.is_user_in_room("eve", "Kitchen"));
    assert!(!rooms.is_user_in_room("eve", "Lobby"));
    assert!(rooms.get_room_mut("Attic").is_none());
}

#[test]
fn names_are_compared_by_characters() {
    let mut rooms = ChatRooms::new();
    rooms.create_room("Caf\u{e9}").unwrap();
    rooms.insert_client_into_room("\u{3b1}\u{3b2}", "Caf\u{e9}").unwrap();
    assert!(rooms.is_user_in_room("\u{3b1}\u{3b2}", "Caf\u{e9}"));
    assert!(!rooms.is_user_in_room("\u{3b1}", "Caf\u{e9}"));
    assert!(rooms.get_room("Cafe").is_none());
}
