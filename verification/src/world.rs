//! The two mansions that the games are played in.
use vstd::prelude::*;

use crate::game::playable;
use crate::{Door, Item, Room, RoomID};

verus! {

/// What the foyer looks like.
pub const FOYER_DESC: &'static str = "This beautifully decorated foyer beckons you further into the mansion.  There is a door to the north.";

/// What the antechamber looks like.
pub const ANTECHAMBER_DESC: &'static str = "Dark wood paneling covers the walls.  An intricate painting of a field mouse hangs slightly askew on the wall (it looks like you could fix it).  The gilded northern doorway lies open to a shadowy parlour.  You can return to the foyer to the southern door. Items: Sword, Key, Bow, Arrow, and Bedroll";

/// What the room full of snakes looks like.
pub const SNAKES_DESC: &'static str = "The shadows wriggle and shift as you enter the parlour.  The floor is covered in snakes!  The walls are covered in snakes!  The ceiling is covered in snakes!  You are also covered in snakes!\n\nBAD END";

/// What the vault looks like.
pub const VAULT_DESC: &'static str = "When you regain consciousness, you feel a stabbing sensation in your lower back.  Reaching beneath you, you discover a massive diamond!  This room is full of gold and jewels, and a convenient ladder leading back outdoors!\n\nYou win!";

/// What the main room of the desert mansion looks like.
pub const MAIN_ROOM_DESC: &'static str = "This baroque style living room looks fancy. I see a door in the north side. I wonder where it will lead me?";

/// What the living room of the desert mansion looks like.
pub const LIVING_ROOM_DESC: &'static str = "You make it to the living room. It is a beautifully decorated room except you're still not free from the cati. \n            in this room there are three doors. ";

/// Every door of every room leads to one of the rooms.
pub open spec fn well_linked(rooms: Seq<Room>) -> bool {
    forall|i: int, k: int|
        0 <= i < rooms.len() && 0 <= k < rooms[i].doors@.len() ==> (#[trigger] rooms[i].doors@[k]).target.0
            < rooms.len()
}

/// Every room can be played on a grid.
pub open spec fn all_playable(rooms: Seq<Room>) -> bool {
    forall|i: int| 0 <= i < rooms.len() ==> playable(#[trigger] rooms[i])
}

/// In a list of rooms where every door leads to one of the rooms and every
/// room can be played, whatever door the player goes through leads to an
/// end room or to a room that can be played: the game never asks for a
/// room that is not there.
pub proof fn law_doors_lead_on(rooms: Seq<Room>, ends: Seq<RoomID>, i: int, k: int)
    requires
        well_linked(rooms),
        all_playable(rooms),
        0 <= i < rooms.len(),
        0 <= k < rooms[i].doors@.len(),
    ensures
        ends.contains(rooms[i].doors@[k].target) || (rooms[i].doors@[k].target.0 < rooms.len() && playable(
            rooms[rooms[i].doors@[k].target.0 as int],
        )),
{
    let t = rooms[i].doors@[k].target;
    assert(t.0 < rooms.len());
    assert(playable(rooms[t.0 as int]));
}

/// The door leads to room `t`, asks for `cond`, and shows no message.
pub open spec fn leads(d: Door, t: usize, cond: Option<Item>) -> bool {
    d.target == RoomID(t) && d.condition == cond && d.message is None
}

/// Room `i` is five wide and seven high, holds nothing and has three
/// enemies.
pub open spec fn plain_room(rooms: Seq<Room>, i: int) -> bool {
    rooms[i].w == 5 && rooms[i].h == 7 && rooms[i].enemies == 3 && rooms[i].items@.len() == 0
}

/// The words of the door's triggers.
pub open spec fn trigger_words(d: Door) -> Seq<Seq<char>> {
    d.triggers@.map_values(|t: &str| t@)
}

/// The rooms where the adventure ends: the room full of snakes and the vault.
pub fn end_rooms() -> (r: Vec<RoomID>)
    ensures
        r@ == seq![RoomID(2), RoomID(3)],
{
    vec![RoomID(2), RoomID(3)]
}

/// The spooky mansion: a foyer, an antechamber holding every item, a room
/// full of snakes and a vault.
pub fn spooky_mansion() -> (rooms: Vec<Room>)
    ensures
        rooms@.len() == 4,
        well_linked(rooms@),
        all_playable(rooms@),
        rooms@[0].name@ == "Foyer"@,
        rooms@[1].name@ == "Antechamber"@,
        rooms@[2].name@ == "A Room Full of Snakes!"@,
        rooms@[3].name@ == "The Vault"@,
        rooms@[0].desc@ == FOYER_DESC@,
        rooms@[1].desc@ == ANTECHAMBER_DESC@,
        rooms@[2].desc@ == SNAKES_DESC@,
        rooms@[3].desc@ == VAULT_DESC@,
        rooms@[0].doors@.len() == 1,
        leads(rooms@[0].doors@[0], 1, None),
        trigger_words(rooms@[0].doors@[0]) == seq!["door"@, "north"@, "go north"@],
        rooms@[1].doors@.len() == 3,
        leads(rooms@[1].doors@[0], 0, None),
        leads(rooms@[1].doors@[1], 2, Some(Item::Sword)),
        rooms@[1].doors@[2].target == RoomID(3) && rooms@[1].doors@[2].condition == Some(Item::Key),
        rooms@[1].items@ == seq![Item::Sword, Item::Key, Item::Bow, Item::Arrow, Item::Bedroll],
        trigger_words(rooms@[1].doors@[0]) == seq!["door"@, "south"@, "go south"@, "foyer"@],
        trigger_words(rooms@[1].doors@[1]) == seq!["north"@, "doorway"@, "go north"@],
        trigger_words(rooms@[1].doors@[2]) == seq!["painting"@, "mouse"@, "fix painting"@],
        rooms@[1].doors@[2].message == Some("As you adjust the painting, a trap-door opens beneath your feet!"),
        rooms@[2].doors@.len() == 0,
        rooms@[3].doors@.len() == 0,
        plain_room(rooms@, 0),
        rooms@[1].w == 5 && rooms@[1].h == 7 && rooms@[1].enemies == 3,
        plain_room(rooms@, 2),
        plain_room(rooms@, 3),
{
    let rooms = vec![
        Room {
            name: "Foyer",
            desc: FOYER_DESC,
            doors: vec![
                Door {
                    target: RoomID(1),
                    triggers: vec!["door", "north", "go north"],
                    message: None,
                    condition: None,
                },
            ],
            items: vec![],
            w: 5,
            h: 7,
            enemies: 3,
        },
        Room {
            name: "Antechamber",
            desc: ANTECHAMBER_DESC,
            doors: vec![
                Door {
                    target: RoomID(0),
                    triggers: vec!["door", "south", "go south", "foyer"],
                    message: None,
                    condition: None,
                },
                Door {
                    target: RoomID(2),
                    triggers: vec!["north", "doorway", "go north"],
                    message: None,
                    condition: Some(Item::Sword),
                },
                Door {
                    target: RoomID(3),
                    triggers: vec!["painting", "mouse", "fix painting"],
                    message: Some("As you adjust the painting, a trap-door opens beneath your feet!"),
                    condition: Some(Item::Key),
                },
            ],
            items: vec![Item::Sword, Item::Key, Item::Bow, Item::Arrow, Item::Bedroll],
            w: 5,
            h: 7,
            enemies: 3,
        },
        Room {
            name: "A Room Full of Snakes!",
            desc: SNAKES_DESC,
            doors: vec![],
            items: vec![],
            w: 5,
            h: 7,
            enemies: 3,
        },
        Room {
            name: "The Vault",
            desc: VAULT_DESC,
            doors: vec![],
            items: vec![],
            w: 5,
            h: 7,
            enemies: 3,
        },
    ];
    assert(rooms@[1].items@ =~= seq![Item::Sword, Item::Key, Item::Bow, Item::Arrow, Item::Bedroll]);
    assert(trigger_words(rooms@[0].doors@[0]) =~= seq!["door"@, "north"@, "go north"@]);
    assert(trigger_words(rooms@[1].doors@[0]) =~= seq!["door"@, "south"@, "go south"@, "foyer"@]);
    assert(trigger_words(rooms@[1].doors@[1]) =~= seq!["north"@, "doorway"@, "go north"@]);
    assert(trigger_words(rooms@[1].doors@[2]) =~= seq!["painting"@, "mouse"@, "fix painting"@]);
    assert forall|i: int| 0 <= i < rooms@.len() implies playable(#[trigger] rooms@[i]) by {
        assert(rooms@[i].items@.len() <= 5);
    }
    rooms
}

/// The mansion of the desert game: a main room, a living room with three
/// doors, a room full of snakes and a vault.
pub fn cacti_mansion() -> (rooms: Vec<Room>)
    ensures
        rooms@.len() == 4,
        well_linked(rooms@),
        all_playable(rooms@),
        rooms@[0].name@ == "Main Room"@,
        rooms@[1].name@ == "Living room"@,
        rooms@[2].name@ == "A Room Full of Snakes!"@,
        rooms@[3].name@ == "The Vault"@,
        rooms@[0].desc@ == MAIN_ROOM_DESC@,
        rooms@[1].desc@ == LIVING_ROOM_DESC@,
        rooms@[2].desc@ == SNAKES_DESC@,
        rooms@[3].desc@ == VAULT_DESC@,
        rooms@[0].doors@.len() == 1,
        leads(rooms@[0].doors@[0], 1, Some(Item::Key)),
        trigger_words(rooms@[0].doors@[0]) == seq!["door"@, "north"@, "go north"@],
        rooms@[0].items@ == seq![Item::Sword, Item::Key],
        rooms@[0].w == 7 && rooms@[0].h == 7 && rooms@[0].enemies == 3,
        rooms@[1].doors@.len() == 3,
        leads(rooms@[1].doors@[0], 0, None),
        leads(rooms@[1].doors@[1], 2, Some(Item::Sword)),
        rooms@[1].doors@[2].target == RoomID(3) && rooms@[1].doors@[2].condition == Some(Item::Key),
        rooms@[1].items@ == seq![Item::Sword, Item::Key, Item::Bedroll],
        trigger_words(rooms@[1].doors@[0]) == seq!["door"@, "south"@, "go south"@, "main"@],
        trigger_words(rooms@[1].doors@[1]) == seq!["north"@, "doorway"@, "go north"@],
        trigger_words(rooms@[1].doors@[2]) == seq!["painting"@, "mouse"@, "fix painting"@],
        rooms@[1].doors@[2].message == Some("As you adjust the painting, a trap-door opens beneath your feet!"),
        rooms@[1].w == 5 && rooms@[1].h == 8 && rooms@[1].enemies == 3,
        rooms@[2].doors@.len() == 0,
        rooms@[3].doors@.len() == 0,
        plain_room(rooms@, 2),
        plain_room(rooms@, 3),
{
    let rooms = vec![
        Room {
            name: "Main Room",
            desc: MAIN_ROOM_DESC,
            doors: vec![
                Door {
                    target: RoomID(1),
                    triggers: vec!["door", "north", "go north"],
                    message: None,
                    condition: Some(Item::Key),
                },
            ],
            items: vec![Item::Sword, Item::Key],
            w: 7,
            h: 7,
            enemies: 3,
        },
        Room {
            name: "Living room",
            desc: LIVING_ROOM_DESC,
            doors: vec![
                Door {
                    target: RoomID(0),
                    triggers: vec!["door", "south", "go south", "main"],
                    message: None,
                    condition: None,
                },
                Door {
                    target: RoomID(2),
                    triggers: vec!["north", "doorway", "go north"],
                    message: None,
                    condition: Some(Item::Sword),
                },
                Door {
                    target: RoomID(3),
                    triggers: vec!["painting", "mouse", "fix painting"],
                    message: Some("As you adjust the painting, a trap-door opens beneath your feet!"),
                    condition: Some(Item::Key),
                },
            ],
            items: vec![Item::Sword, Item::Key, Item::Bedroll],
            w: 5,
            h: 8,
            enemies: 3,
        },
        Room {
            name: "A Room Full of Snakes!",
            desc: SNAKES_DESC,
            doors: vec![],
            items: vec![],
            w: 5,
            h: 7,
            enemies: 3,
        },
        Room {
            name: "The Vault",
            desc: VAULT_DESC,
            doors: vec![],
            items: vec![],
            w: 5,
            h: 7,
            enemies: 3,
        },
    ];
    assert(rooms@[0].items@ =~= seq![Item::Sword, Item::Key]);
    assert(rooms@[1].items@ =~= seq![Item::Sword, Item::Key, Item::Bedroll]);
    assert(trigger_words(rooms@[0].doors@[0]) =~= seq!["door"@, "north"@, "go north"@]);
    assert(trigger_words(rooms@[1].doors@[0]) =~= seq!["door"@, "south"@, "go south"@, "main"@]);
    assert(trigger_words(rooms@[1].doors@[1]) =~= seq!["north"@, "doorway"@, "go north"@]);
    assert(trigger_words(rooms@[1].doors@[2]) =~= seq!["painting"@, "mouse"@, "fix painting"@]);
    assert forall|i: int| 0 <= i < rooms@.len() implies playable(#[trigger] rooms@[i]) by {
        assert(rooms@[i].items@.len() <= 3);
    }
    rooms
}

} // verus!
