//! Choosing a door from what the player typed, and telling end rooms apart.
use vstd::prelude::*;

use crate::text::{is_phrase_of, phrase_of, same_text, trim_input, trimmed};
use crate::{Door, Room, RoomID};

verus! {

/// One of the door's triggers is exactly `w`.
pub open spec fn has_trigger(d: Door, w: Seq<char>) -> bool {
    exists|k: int| 0 <= k < d.triggers@.len() && d.triggers@[k]@ == w
}

/// One of the door's triggers is said in `text`: it is a run of
/// consecutive words of `text`, the words being the pieces of `text` cut at
/// its spaces.
pub open spec fn answers_words(d: Door, text: Seq<char>) -> bool {
    exists|k: int| 0 <= k < d.triggers@.len() && is_phrase_of(text, d.triggers@[k]@)
}

/// `r` is the index of the first door of `doors` that has the trigger `w`,
/// or `None` when no door has it.
pub open spec fn first_with_trigger(doors: Seq<Door>, w: Seq<char>, r: Option<usize>) -> bool {
    match r {
        Some(i) => {
            &&& i < doors.len()
            &&& has_trigger(doors[i as int], w)
            &&& forall|j: int| 0 <= j < i ==> !has_trigger(#[trigger] doors[j], w)
        },
        None => forall|j: int| 0 <= j < doors.len() ==> !has_trigger(#[trigger] doors[j], w),
    }
}

/// `r` is the index of the first door of `doors` that answers some word of
/// `text`, or `None` when none does.
pub open spec fn first_answering(doors: Seq<Door>, text: Seq<char>, r: Option<usize>) -> bool {
    match r {
        Some(i) => {
            &&& i < doors.len()
            &&& answers_words(doors[i as int], text)
            &&& forall|j: int| 0 <= j < i ==> !answers_words(#[trigger] doors[j], text)
        },
        None => forall|j: int| 0 <= j < doors.len() ==> !answers_words(#[trigger] doors[j], text),
    }
}

/// Whether one of the door's triggers is exactly `w`.
pub fn door_has_trigger(d: &Door, w: &str) -> (b: bool)
    ensures
        b == has_trigger(*d, w@),
{
    let mut k: usize = 0;
    while k < d.triggers.len()
        invariant
            k <= d.triggers@.len(),
            forall|j: int| 0 <= j < k ==> d.triggers@[j]@ != w@,
        decreases d.triggers@.len() - k,
    {
        if same_text(d.triggers[k], w) {
            return true;
        }
        k = k + 1;
    }
    false
}

/// Whether one of the door's triggers is said in `text` (see `answers_words`).
pub fn door_answers_words(d: &Door, text: &str) -> (b: bool)
    ensures
        b == answers_words(*d, text@),
{
    let mut k: usize = 0;
    while k < d.triggers.len()
        invariant
            k <= d.triggers@.len(),
            forall|j: int| 0 <= j < k ==> !is_phrase_of(text@, #[trigger] d.triggers@[j]@),
        decreases d.triggers@.len() - k,
    {
        if phrase_of(text, d.triggers[k]) {
            return true;
        }
        k = k + 1;
    }
    false
}

/// The first door of the room that has `w` as a trigger.
pub fn find_door(room: &Room, w: &str) -> (r: Option<usize>)
    ensures
        first_with_trigger(room.doors@, w@, r),
{
    let mut i: usize = 0;
    while i < room.doors.len()
        invariant
            i <= room.doors@.len(),
            forall|j: int| 0 <= j < i ==> !has_trigger(#[trigger] room.doors@[j], w@),
        decreases room.doors@.len() - i,
    {
        if door_has_trigger(&room.doors[i], w) {
            return Some(i);
        }
        i = i + 1;
    }
    None
}

/// The door that a typed line chooses: the line is trimmed of white space at
/// both ends, and the first door with the result as a trigger is taken.
pub fn choose_door(room: &Room, line: &str) -> (r: Option<usize>)
    ensures
        first_with_trigger(room.doors@, trimmed(line@), r),
{
    let w = trim_input(line);
    find_door(room, w)
}

/// The door that a typed sentence chooses: the first door one of whose
/// triggers the sentence says, a trigger being said when it is one word of
/// the sentence or several consecutive ones (such as "go north"), the
/// sentence being cut into words at every space.
pub fn door_for_words(room: &Room, text: &str) -> (r: Option<usize>)
    ensures
        first_answering(room.doors@, text@, r),
{
    let mut i: usize = 0;
    while i < room.doors.len()
        invariant
            i <= room.doors@.len(),
            forall|j: int| 0 <= j < i ==> !answers_words(#[trigger] room.doors@[j], text@),
        decreases room.doors@.len() - i,
    {
        if door_answers_words(&room.doors[i], text) {
            return Some(i);
        }
        i = i + 1;
    }
    None
}

/// Where the room's door `i` leads, and the message shown on the way
/// through, if any.
pub fn through_door(room: &Room, i: usize) -> (r: (RoomID, Option<&'static str>))
    requires
        i < room.doors@.len(),
    ensures
        r.0 == room.doors@[i as int].target,
        r.1 == room.doors@[i as int].message,
{
    let door = &room.doors[i];
    (door.target, door.message)
}

/// Whether `at` is one of the rooms where the adventure ends.
pub fn is_end_room(end_rooms: &Vec<RoomID>, at: RoomID) -> (b: bool)
    ensures
        b == end_rooms@.contains(at),
{
    let mut i: usize = 0;
    while i < end_rooms.len()
        invariant
            i <= end_rooms@.len(),
            forall|j: int| 0 <= j < i ==> end_rooms@[j] != at,
        decreases end_rooms@.len() - i,
    {
        if end_rooms[i] == at {
            return true;
        }
        i = i + 1;
    }
    false
}

} // verus!
