use text_engine::doors::{choose_door, door_for_words, find_door, is_end_room, through_door};
use text_engine::world::{cacti_mansion, end_rooms, spooky_mansion};
use text_engine::{Door, Item, Room, RoomID};

fn hall() -> Room {
    Room {
        name: "Hall",
        desc: "A hall.",
        doors: vec![
            Door { target: RoomID(1), triggers: vec!["east", "go east"], message: None, condition: None },
            Door { target: RoomID(2), triggers: vec!["east", "stairs"], message: Some("Up!"), condition: Some(Item::Key) },
        ],
        items: vec![],
        w: 5,
        h: 5,
        enemies: 0,
    }
}

#[test]
fn find_door_takes_the_first_with_the_trigger() {
    let room = hall();
    assert_eq!(find_door(&room, "east"), Some(0));
    assert_eq!(find_door(&room, "stairs"), Some(1));
    assert_eq!(find_door(&room, "go east"), Some(0));
    assert_eq!(find_door(&room, "west"), None);
    assert_eq!(find_door(&room, " east"), None);
}

#[test]
fn choose_door_trims_the_line() {
    let rooms = spooky_mansion();
    assert_eq!(choose_door(&rooms[0], "north\n"), Some(0));
    assert_eq!(choose_door(&rooms[0], "  go north  \r\n"), Some(0));
    assert_eq!(choose_door(&rooms[1], "fix painting\n"), Some(2));
    assert_eq!(choose_door(&rooms[1], "north"), Some(1));
    assert_eq!(choose_door(&rooms[1], "door"), Some(0));
    assert_eq!(choose_door(&rooms[1], "jump\n"), None);
    assert_eq!(choose_door(&rooms[1], "fix"), None);
    assert_eq!(choose_door(&rooms[2], "north"), None);
}

#[test]
fn door_for_words_looks_at_each_word() {
    let rooms = cacti_mansion();
    assert_eq!(door_for_words(&rooms[1], "I want to go north"), Some(1));
    assert_eq!(door_for_words(&rooms[1], "fix painting"), Some(2));
    assert_eq!(door_for_words(&rooms[1], "go south now"), Some(0));
    assert_eq!(door_for_words(&rooms[1], "go"), None);
    assert_eq!(door_for_words(&rooms[1], "nothing"), None);
    assert_eq!(door_for_words(&rooms[0], "the door"), Some(0));
    assert_eq!(door_for_words(&rooms[3], "door"), None);
}

#[test]
fn door_for_words_matches_a_trigger_of_several_words() {
    let room = hall();
    assert_eq!(door_for_words(&room, "go east"), Some(0));
    let only_phrase = Room {
        name: "Nook",
        desc: "",
        doors: vec![Door { target: RoomID(5), triggers: vec!["go north"], message: None, condition: None }],
        items: vec![],
        w: 3,
        h: 3,
        enemies: 0,
    };
    assert_eq!(door_for_words(&only_phrase, "go north"), Some(0));
    assert_eq!(door_for_words(&only_phrase, "I go north now"), Some(0));
    assert_eq!(door_for_words(&only_phrase, "north"), None);
    assert_eq!(door_for_words(&only_phrase, "go  north"), None);
    let rooms = cacti_mansion();
    assert_eq!(door_for_words(&rooms[1], "fix painting"), Some(2));
    assert_eq!(door_for_words(&rooms[1], "go south"), Some(0));
}

#[test]
fn end_rooms_are_the_snakes_and_the_vault() {
    let ends = end_rooms();
    assert!(!is_end_room(&ends, RoomID(0)));
    assert!(!is_end_room(&ends, RoomID(1)));
    assert!(is_end_room(&ends, RoomID(2)));
    assert!(is_end_room(&ends, RoomID(3)));
    assert!(!is_end_room(&vec![], RoomID(2)));
}

#[test]
fn mansions_are_linked() {
    for rooms in [spooky_mansion(), cacti_mansion()] {
        assert_eq!(rooms.len(), 4);
        for r in &rooms {
            for d in &r.doors {
                assert!(d.target.0 < rooms.len());
            }
        }
    }
    let rooms = spooky_mansion();
    assert_eq!(rooms[1].name, "Antechamber");
    assert_eq!(rooms[1].doors[2].message, Some("As you adjust the painting, a trap-door opens beneath your feet!"));
    let rooms = cacti_mansion();
    assert_eq!(rooms[0].name, "Main Room");
    assert_eq!(rooms[0].doors[0].condition, Some(Item::Key));
}

#[test]
fn a_door_tells_where_it_leads() {
    let rooms = spooky_mansion();
    let i = choose_door(&rooms[0], "north").unwrap();
    let (to, message) = through_door(&rooms[0], i);
    assert!(to == rooms[0].doors[i].target);
    assert_eq!(message, rooms[0].doors[i].message);
    let rooms = cacti_mansion();
    let (to, message) = through_door(&rooms[1], 2);
    assert!(to == rooms[1].doors[2].target);
    assert_eq!(message, rooms[1].doors[2].message);
}
