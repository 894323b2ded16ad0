//! A small text-adventure engine: rooms joined by doors, typed commands that
//! pick a door, and a grid-based room in which the player walks, picks up
//! items and fights enemies.
use vstd::prelude::*;

mod chance;
pub mod doors;
pub mod game;
pub mod grid;
pub mod map;
pub mod text;
pub mod world;

verus! {

/// A room of the adventure.
pub struct Room {
    /// Short title, e.g. "Antechamber".
    pub name: &'static str,
    /// What the player sees on entering.
    pub desc: &'static str,
    /// The ways out of the room.
    pub doors: Vec<Door>,
    /// Items lying in the room.
    pub items: Vec<Item>,
    /// Width of the room's grid, walls included.
    pub w: usize,
    /// Height of the room's grid, walls included.
    pub h: usize,
    /// Number of enemies placed when the room's grid is drawn.
    pub enemies: usize,
}

/// A way from one room to another.
pub struct Door {
    /// The room that the door leads to.
    pub target: RoomID,
    /// Words that choose this door, e.g. "go north", "north".
    pub triggers: Vec<&'static str>,
    /// Message shown, if any, when the doorway is traversed.
    pub message: Option<&'static str>,
    /// An item that the door asks for.
    pub condition: Option<Item>,
}

/// Index of a room in the list of rooms.
#[derive(PartialEq, Eq, Structural, Clone, Copy)]
pub struct RoomID(pub usize);

/// Things the player can find and carry.
#[derive(PartialEq, Eq, Structural, Clone, Debug)]
pub enum Item {
    Sword,
    Key,
    Bow,
    Arrow,
    Bedroll,
}

} // verus!
