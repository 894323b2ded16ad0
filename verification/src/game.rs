//! The grid game played room by room: the player walks with the arrow keys,
//! picks items up by walking onto them, strikes the enemies around with the
//! sword, loses a hit point to each enemy walked into, and leaves through a
//! doorway when holding the key.
use vstd::prelude::*;

use crate::chance::roll;
use crate::doors::is_end_room;
use crate::grid::{count_cells, grid, lemma_count_none, lemma_count_put, lemma_put, lemma_put_rect, put, rect, set_cell};
use crate::map::{
    can_draw, drawn, fits, generate_map, inside, is_spot, item_mark, lemma_nth_spot, nth_spot, on_edge, open_spots,
    spot_test,
};
use crate::{Item, Room, RoomID};

verus! {

/// What the player asked for with a key.
#[derive(PartialEq, Eq, Structural, Clone, Copy, Debug)]
pub enum Command {
    Up,
    Down,
    Left,
    Right,
    /// Swing the sword at the eight cells around.
    Strike,
    /// Leave the game.
    Escape,
    /// Any other key.
    Other,
}

/// What happened during one turn: a key was pressed, or the turn's time ran
/// out with no key.
#[derive(PartialEq, Eq, Structural, Clone, Copy, Debug)]
pub enum Tick {
    Pressed(Command),
    Idle,
}

/// What a turn asks of the one who runs the game.
#[derive(PartialEq, Eq, Structural, Clone, Copy, Debug)]
pub enum Action {
    /// Go on with the next turn.
    Continue,
    /// The player left the game.
    Quit,
    /// The player walked into a doorway without the key and is back at the
    /// starting cell.
    DoorLocked,
    /// The player stands in a doorway with the key: the next room is to be
    /// chosen.
    DoorOpen,
    /// Time ran out but no cell is left for a new enemy: the game cannot go on.
    Stalled,
    /// The score no longer fits its type.
    ScoreOverflow,
}

/// The state of a game.
pub struct Game {
    /// The current room's grid.
    pub map: Vec<Vec<char>>,
    /// Row and column of the player.
    pub player_pos: (usize, usize),
    /// Hit points left.
    pub player_hp: i32,
    /// Points for enemies struck, less points for enemies walked into.
    pub player_score: i32,
    /// What the player carries.
    pub inventory: Vec<Item>,
    /// The current room.
    pub at: RoomID,
    /// What lies under the player.
    pub prev_point: char,
}

/// A game seen as values.
pub struct Scene {
    /// The grid, row by row.
    pub map: Seq<Seq<char>>,
    /// Row and column of the player.
    pub pos: (int, int),
    /// What lies under the player.
    pub under: char,
    /// Hit points left.
    pub hp: int,
    /// The score.
    pub score: int,
    /// What the player carries, in the order picked up.
    pub inventory: Seq<Item>,
    /// Index of the current room.
    pub room: int,
}

impl View for Game {
    type V = Scene;

    open spec fn view(&self) -> Scene {
        Scene {
            map: grid(self.map),
            pos: (self.player_pos.0 as int, self.player_pos.1 as int),
            under: self.prev_point,
            hp: self.player_hp as int,
            score: self.player_score as int,
            inventory: self.inventory@,
            room: self.at.0 as int,
        }
    }
}

/// A character that can lie on the floor under the player.
pub open spec fn floor_char(c: char) -> bool {
    c == '.' || c == '+' || c == '?' || c == '&' || c == '*'
}

/// The item picked up by walking onto the character, if any.
pub open spec fn item_at(c: char) -> Option<Item> {
    if c == '+' {
        Some(Item::Sword)
    } else if c == '?' {
        Some(Item::Key)
    } else if c == '&' {
        Some(Item::Bedroll)
    } else {
        None
    }
}

/// The inventory with the item added, unless it holds it already.
pub open spec fn add_once(inv: Seq<Item>, item: Item) -> Seq<Item> {
    if inv.contains(item) {
        inv
    } else {
        inv.push(item)
    }
}

/// No item is held twice.
pub open spec fn distinct(inv: Seq<Item>) -> bool {
    forall|i: int, j: int| 0 <= i < j < inv.len() ==> inv[i] != inv[j]
}

/// The cell that the command moves the player to.
pub open spec fn moved(pos: (int, int), cmd: Command) -> (int, int) {
    match cmd {
        Command::Up => (pos.0 - 1, pos.1),
        Command::Down => (pos.0 + 1, pos.1),
        Command::Left => (pos.0, pos.1 - 1),
        Command::Right => (pos.0, pos.1 + 1),
        _ => pos,
    }
}

/// The command moves the player.
pub open spec fn is_move(cmd: Command) -> bool {
    cmd == Command::Up || cmd == Command::Down || cmd == Command::Left || cmd == Command::Right
}

/// The cell is one of the eight around `pos`.
pub open spec fn near(pos: (int, int), y: int, x: int) -> bool {
    &&& pos.0 - 1 <= y <= pos.0 + 1
    &&& pos.1 - 1 <= x <= pos.1 + 1
    &&& !(y == pos.0 && x == pos.1)
}

/// 1 for an enemy's cell, 0 for any other.
pub open spec fn enemy_at(g: Seq<Seq<char>>, y: int, x: int) -> int {
    if g[y][x] == '*' {
        1
    } else {
        0
    }
}

/// How many enemies stand in the eight cells around `pos`.
pub open spec fn enemies_near(g: Seq<Seq<char>>, pos: (int, int)) -> int {
    let (y, x) = pos;
    enemy_at(g, y - 1, x - 1) + enemy_at(g, y - 1, x) + enemy_at(g, y - 1, x + 1) + enemy_at(g, y, x - 1)
        + enemy_at(g, y, x + 1) + enemy_at(g, y + 1, x - 1) + enemy_at(g, y + 1, x) + enemy_at(
        g,
        y + 1,
        x + 1,
    )
}

/// The grid with the enemies around `pos` struck down to bare floor.
pub open spec fn struck(g: Seq<Seq<char>>, pos: (int, int)) -> Seq<Seq<char>> {
    Seq::new(
        g.len(),
        |y: int|
            Seq::new(
                g[y].len(),
                |x: int|
                    if near(pos, y, x) && g[y][x] == '*' {
                        '.'
                    } else {
                        g[y][x]
                    },
            ),
    )
}

/// The scene after the command's own effect, before the player's new cell
/// is looked at: a move leaves what lay under the player behind and goes
/// one cell on; a strike while holding the sword clears the enemies around
/// and scores 100 for each; anything else changes nothing.
pub open spec fn press(s: Scene, cmd: Command) -> Scene {
    if is_move(cmd) {
        Scene { map: put(s.map, s.pos.0, s.pos.1, s.under), pos: moved(s.pos, cmd), ..s }
    } else if cmd == Command::Strike && s.inventory.contains(Item::Sword) {
        Scene { map: struck(s.map, s.pos), score: s.score + 100 * enemies_near(s.map, s.pos), ..s }
    } else {
        s
    }
}

/// The scene after a new enemy appears in row `y`, column `x`.
pub open spec fn spawned(s: Scene, y: int, x: int) -> Scene {
    Scene { map: put(s.map, y, x, '*'), ..s }
}

/// What the player's cell does: an item is picked up (once) and covered by
/// what lay under the player; an enemy costs a hit point and 100 points
/// and is covered the same way; a wall sends the player back to the
/// starting cell (1, 1); a doorway lets the player through with the key and
/// otherwise sends the player back to the starting cell; on anything else
/// the cell becomes bare floor, and so does what lies under the player.
pub open spec fn land(s: Scene) -> (Scene, Action) {
    let (y, x) = s.pos;
    let t = s.map[y][x];
    if item_at(t) is Some {
        (
            Scene {
                map: put(s.map, y, x, s.under),
                inventory: add_once(s.inventory, item_at(t)->0),
                ..s
            },
            Action::Continue,
        )
    } else if t == '*' {
        (
            Scene { map: put(s.map, y, x, s.under), hp: s.hp - 1, score: s.score - 100, ..s },
            Action::Continue,
        )
    } else if t == '#' {
        (Scene { map: put(s.map, 1, 1, s.under), pos: (1, 1), ..s }, Action::Continue)
    } else if t == '|' {
        if s.inventory.contains(Item::Key) {
            (s, Action::DoorOpen)
        } else {
            (Scene { map: put(s.map, 1, 1, s.under), pos: (1, 1), ..s }, Action::DoorLocked)
        }
    } else {
        (Scene { map: put(s.map, y, x, '.'), under: '.', ..s }, Action::Continue)
    }
}

/// The score fits an `i32`.
pub open spec fn score_fits(score: int) -> bool {
    i32::MIN <= score <= i32::MAX
}

/// Whether the inventory holds the item.
pub fn has_item(inv: &Vec<Item>, item: &Item) -> (b: bool)
    ensures
        b == inv@.contains(*item),
{
    let mut i: usize = 0;
    while i < inv.len()
        invariant
            i <= inv@.len(),
            forall|j: int| 0 <= j < i ==> inv@[j] != *item,
        decreases inv@.len() - i,
    {
        if inv[i] == *item {
            return true;
        }
        i = i + 1;
    }
    false
}

fn is_enemy(m: &Vec<Vec<char>>, y: usize, x: usize) -> (n: usize)
    requires
        y < m@.len(),
        x < m@[y as int]@.len(),
    ensures
        n == enemy_at(grid(*m), y as int, x as int),
{
    if m[y][x] == '*' {
        1
    } else {
        0
    }
}

/// How many enemies stand in the eight cells around row `y`, column `x`.
pub fn enemies_around(m: &Vec<Vec<char>>, y: usize, x: usize) -> (n: usize)
    requires
        m@.len() > 0,
        rect(grid(*m), m@.len() as int, m@[0]@.len() as int),
        1 <= y < m@.len() - 1,
        1 <= x < m@[0]@.len() - 1,
    ensures
        n == enemies_near(grid(*m), (y as int, x as int)),
{
    let ghost g = grid(*m);
    proof {
        assert(m.len() == m@.len());
        assert(m@[0].len() == m@[0]@.len());
    }
    assert(g[y - 1] == m@[y - 1]@);
    assert(g[y as int] == m@[y as int]@);
    assert(g[y + 1] == m@[y + 1]@);
    is_enemy(m, y - 1, x - 1) + is_enemy(m, y - 1, x) + is_enemy(m, y - 1, x + 1) + is_enemy(m, y, x - 1)
        + is_enemy(m, y, x + 1) + is_enemy(m, y + 1, x - 1) + is_enemy(m, y + 1, x) + is_enemy(
        m,
        y + 1,
        x + 1,
    )
}

fn clear_enemy(m: &mut Vec<Vec<char>>, y: usize, x: usize, h: Ghost<int>, w: Ghost<int>)
    requires
        rect(grid(*old(m)), h@, w@),
        y < h@,
        x < w@,
    ensures
        rect(grid(*final(m)), h@, w@),
        grid(*final(m)) == if grid(*old(m))[y as int][x as int] == '*' {
            put(grid(*old(m)), y as int, x as int, '.')
        } else {
            grid(*old(m))
        },
{
    assert(grid(*m)[y as int] == m@[y as int]@);
    if m[y][x] == '*' {
        proof {
            lemma_put_rect(grid(*m), h@, w@, y as int, x as int, '.');
        }
        set_cell(m, y, x, '.');
    }
}

/// Strikes down the enemies in the eight cells around row `y`, column `x`.
pub fn strike_around(m: &mut Vec<Vec<char>>, y: usize, x: usize)
    requires
        old(m)@.len() > 0,
        rect(grid(*old(m)), old(m)@.len() as int, old(m)@[0]@.len() as int),
        1 <= y < old(m)@.len() - 1,
        1 <= x < old(m)@[0]@.len() - 1,
    ensures
        grid(*final(m)) == struck(grid(*old(m)), (y as int, x as int)),
{
    let ghost g = grid(*m);
    let ghost h = g.len() as int;
    let ghost w = g[0].len() as int;
    assert(m@[0]@ == g[0]);
    proof {
        assert(m.len() == m@.len());
        assert(m@[0].len() == m@[0]@.len());
    }
    clear_enemy(m, y - 1, x - 1, Ghost(h), Ghost(w));
    clear_enemy(m, y - 1, x, Ghost(h), Ghost(w));
    clear_enemy(m, y - 1, x + 1, Ghost(h), Ghost(w));
    clear_enemy(m, y, x - 1, Ghost(h), Ghost(w));
    clear_enemy(m, y, x + 1, Ghost(h), Ghost(w));
    clear_enemy(m, y + 1, x - 1, Ghost(h), Ghost(w));
    clear_enemy(m, y + 1, x, Ghost(h), Ghost(w));
    clear_enemy(m, y + 1, x + 1, Ghost(h), Ghost(w));
    let ghost target = struck(g, (y as int, x as int));
    assert forall|a: int| 0 <= a < h implies (#[trigger] grid(*m)[a]) =~= target[a] by {
        assert(g[a].len() == w);
    }
    assert(grid(*m) =~= target);
}

/// The grid is at least three by three and rectangular and walled with
/// walls and doorways; inside lie floor, items and enemies, and the
/// player's mark only at the player's cell, which lies on the grid; what
/// lies under the player is floor, an item or an enemy; hit points are
/// between 0 and 2; no item is held twice, and only the sword, the key and
/// the bedroll are ever held.
pub open spec fn sound(s: Scene) -> bool {
    let g = s.map;
    let h = g.len() as int;
    let w = g[0].len() as int;
    &&& h >= 3
    &&& w >= 3
    &&& rect(g, h, w)
    &&& forall|y: int, x: int|
        0 <= y < h && 0 <= x < w && on_edge(h, w, y, x) ==> (#[trigger] g[y][x] == '#' || g[y][x] == '|')
    &&& forall|y: int, x: int|
        inside(h, w, y, x) ==> (floor_char(#[trigger] g[y][x]) || (g[y][x] == '@' && y == s.pos.0 && x
            == s.pos.1))
    &&& 0 <= s.pos.0 < h
    &&& 0 <= s.pos.1 < w
    &&& floor_char(s.under)
    &&& 0 <= s.hp <= 2
    &&& distinct(s.inventory)
    &&& forall|i: int|
        0 <= i < s.inventory.len() ==> (#[trigger] s.inventory[i] == Item::Sword || s.inventory[i]
            == Item::Key || s.inventory[i] == Item::Bedroll)
}

/// Between turns: the player stands inside the walls and the player's mark
/// is nowhere on the grid.
pub open spec fn poised(s: Scene) -> bool {
    &&& sound(s)
    &&& inside(s.map.len() as int, s.map[0].len() as int, s.pos.0, s.pos.1)
    &&& s.map[s.pos.0][s.pos.1] != '@'
}

/// During a turn: the player stands inside the walls, on the player's mark.
pub open spec fn playing(s: Scene) -> bool {
    &&& sound(s)
    &&& inside(s.map.len() as int, s.map[0].len() as int, s.pos.0, s.pos.1)
    &&& s.map[s.pos.0][s.pos.1] == '@'
}

/// The player stands in a doorway, waiting for the next room.
pub open spec fn in_doorway(s: Scene) -> bool {
    &&& sound(s)
    &&& s.map[s.pos.0][s.pos.1] == '|'
}

/// The two grids agree on every cell of the outer ring: walls and doorways
/// stay where they are.
pub open spec fn same_walls(g1: Seq<Seq<char>>, g2: Seq<Seq<char>>) -> bool {
    let h = g1.len() as int;
    let w = g1[0].len() as int;
    forall|y: int, x: int|
        0 <= y < h && 0 <= x < w && on_edge(h, w, y, x) ==> #[trigger] g2[y][x] == g1[y][x]
}

/// Writing a cell inside the walls keeps the grid's shape and its walls and
/// doorways, and leaves every other cell as it was.
proof fn lemma_write_inside(g: Seq<Seq<char>>, y: int, x: int, c: char)
    requires
        g.len() >= 3,
        g[0].len() >= 3,
        rect(g, g.len() as int, g[0].len() as int),
        inside(g.len() as int, g[0].len() as int, y, x),
    ensures
        put(g, y, x, c).len() == g.len(),
        put(g, y, x, c)[0].len() == g[0].len(),
        rect(put(g, y, x, c), g.len() as int, g[0].len() as int),
        same_walls(g, put(g, y, x, c)),
        put(g, y, x, c)[y][x] == c,
        forall|a: int, b: int|
            0 <= a < g.len() && 0 <= b < g[0].len() && !(a == y && b == x) ==> #[trigger] put(g, y, x, c)[a][b]
                == g[a][b],
{
    lemma_put(g, g.len() as int, g[0].len() as int, y, x, c);
}

proof fn lemma_land(s: Scene)
    requires
        sound(s),
        s.hp >= 1,
    ensures
        ({
            let (s2, a) = land(s);
            &&& a == Action::Continue || a == Action::DoorLocked || a == Action::DoorOpen
            &&& (a == Action::Continue || a == Action::DoorLocked) ==> poised(s2)
            &&& a == Action::DoorOpen ==> in_doorway(s2) && s.inventory.contains(Item::Key)
            &&& s2.room == s.room
            &&& s2.hp <= s.hp
            &&& s2.map.len() == s.map.len()
            &&& s2.map[0].len() == s.map[0].len()
            &&& same_walls(s.map, s2.map)
        }),
{
    let g = s.map;
    let h = g.len() as int;
    let w = g[0].len() as int;
    let (y, x) = s.pos;
    let t = g[y][x];
    let (s2, a) = land(s);
    let g2 = s2.map;
    if item_at(t) is Some || t == '*' || t == '#' || (t == '|' && !s.inventory.contains(Item::Key)) || !(t
        == '|') {
        let (py, px) = s2.pos;
        assert(inside(h, w, py, px)) by {
            if !on_edge(h, w, y, x) {
            } else {
                assert(t == '#' || t == '|');
            }
        }
        assert(g2 == put(g, py, px, g2[py][px]));
        lemma_write_inside(g, py, px, g2[py][px]);
        assert forall|a: int, b: int|
            0 <= a < h && 0 <= b < w && on_edge(h, w, a, b) implies (#[trigger] g2[a][b] == '#' || g2[a][b]
            == '|') by {
            assert(g2[a][b] == g[a][b]);
        }
        assert forall|a: int, b: int| inside(h, w, a, b) implies (floor_char(#[trigger] g2[a][b]) || (g2[a][b]
            == '@' && a == py && b == px)) by {
            if !(a == py && b == px) {
                assert(g2[a][b] == g[a][b]);
            }
        }
        if item_at(t) is Some {
            let item = item_at(t)->0;
            let inv2 = add_once(s.inventory, item);
            if !s.inventory.contains(item) {
                assert forall|i: int, j: int| 0 <= i < j < inv2.len() implies inv2[i] != inv2[j] by {
                    if j == inv2.len() - 1 {
                        assert(s.inventory[i] == inv2[i]);
                    }
                }
            }
        }
    }
}

proof fn lemma_press(s: Scene, cmd: Command)
    requires
        playing(s),
        s.hp >= 1,
    ensures
        sound(press(s, cmd)),
        press(s, cmd).hp == s.hp,
        press(s, cmd).room == s.room,
        press(s, cmd).inventory == s.inventory,
        press(s, cmd).under == s.under,
        !is_move(cmd) ==> press(s, cmd).pos == s.pos && press(s, cmd).map[s.pos.0][s.pos.1] == '@',
        press(s, cmd).map.len() == s.map.len(),
        press(s, cmd).map[0].len() == s.map[0].len(),
        same_walls(s.map, press(s, cmd).map),
{
    let g = s.map;
    let h = g.len() as int;
    let w = g[0].len() as int;
    let (y, x) = s.pos;
    let s2 = press(s, cmd);
    let g2 = s2.map;
    if is_move(cmd) {
        lemma_write_inside(g, y, x, s.under);
        assert forall|a: int, b: int|
            0 <= a < h && 0 <= b < w && on_edge(h, w, a, b) implies (#[trigger] g2[a][b] == '#' || g2[a][b]
            == '|') by {
            assert(g2[a][b] == g[a][b]);
        }
        assert forall|a: int, b: int| inside(h, w, a, b) implies (floor_char(#[trigger] g2[a][b]) || (g2[a][b]
            == '@' && a == s2.pos.0 && b == s2.pos.1)) by {
            if a == y && b == x {
            } else {
                assert(g2[a][b] == g[a][b]);
            }
        }
    } else if cmd == Command::Strike && s.inventory.contains(Item::Sword) {
        assert forall|a: int| 0 <= a < h implies (#[trigger] g2[a]).len() == w by {
            assert(g[a].len() == w);
        }
        assert(g2[0].len() == w);
        assert forall|a: int, b: int|
            0 <= a < h && 0 <= b < w && on_edge(h, w, a, b) implies (#[trigger] g2[a][b] == '#' || g2[a][b]
            == '|') by {
            assert(g[a].len() == w);
        }
        assert forall|a: int, b: int| inside(h, w, a, b) implies (floor_char(#[trigger] g2[a][b]) || (g2[a][b]
            == '@' && a == s2.pos.0 && b == s2.pos.1)) by {
            assert(g[a].len() == w);
        }
        assert(g2[y][x] == '@') by {
            assert(g[y].len() == w);
        }
    }
}

proof fn lemma_spawn(s: Scene, y: int, x: int)
    requires
        playing(s),
        0 <= y < s.map.len(),
        0 <= x < s.map[0].len(),
        is_spot(s.map.len() as int, s.map[0].len() as int, y, x, s.map[y][x], true),
    ensures
        sound(spawned(s, y, x)),
        spawned(s, y, x).map[s.pos.0][s.pos.1] == '@',
        spawned(s, y, x).map.len() == s.map.len(),
        spawned(s, y, x).map[0].len() == s.map[0].len(),
        same_walls(s.map, spawned(s, y, x).map),
{
    let g = s.map;
    let h = g.len() as int;
    let w = g[0].len() as int;
    let g2 = spawned(s, y, x).map;
    lemma_write_inside(g, y, x, '*');
    assert forall|a: int, b: int|
        0 <= a < h && 0 <= b < w && on_edge(h, w, a, b) implies (#[trigger] g2[a][b] == '#' || g2[a][b]
        == '|') by {
        assert(g2[a][b] == g[a][b]);
    }
    assert forall|a: int, b: int| inside(h, w, a, b) implies (floor_char(#[trigger] g2[a][b]) || (g2[a][b]
        == '@' && a == s.pos.0 && b == s.pos.1)) by {
        if a == y && b == x {
        } else {
            assert(g2[a][b] == g[a][b]);
        }
    }
}

/// What one turn does to the scene `s`, ending in `s2` with action `a`:
/// Escape quits at once; any other key does its own effect (see `press`)
/// and then the player's cell is looked at (see `land`), unless the score
/// would then no longer fit an `i32`; when time runs out an enemy appears
/// on some spot of bare floor (chance picks which), or, with none left, the
/// game stalls.
#[verifier::opaque]
pub open spec fn turn(s: Scene, tick: Tick, s2: Scene, a: Action) -> bool {
    match tick {
        Tick::Pressed(Command::Escape) => a == Action::Quit && s2 == s,
        Tick::Pressed(cmd) => {
            let next = land(press(s, cmd));
            if score_fits(next.0.score) {
                s2 == next.0 && a == next.1
            } else {
                a == Action::ScoreOverflow && s2 == s
            }
        },
        Tick::Idle => {
            let h = s.map.len() as int;
            let w = s.map[0].len() as int;
            if count_cells(s.map, h, w, spot_test(h, w, true)) == 0 {
                a == Action::Stalled && s2 == s
            } else {
                exists|y: int, x: int|
                    0 <= y < h && 0 <= x < w && is_spot(h, w, y, x, #[trigger] s.map[y][x], true) && (s2, a)
                        == land(spawned(s, y, x))
            }
        },
    }
}

/// The room can be played: it can be drawn and is at least three by three,
/// so that the starting cell (1, 1) lies inside its walls.
pub open spec fn playable(room: Room) -> bool {
    &&& fits(room)
    &&& room.h >= 3
    &&& room.w >= 3
}

/// Whether the room can be played (see `playable`).
pub fn can_play(room: &Room) -> (b: bool)
    ensures
        b == playable(*room),
{
    can_draw(room) && room.h >= 3 && room.w >= 3
}

proof fn lemma_arrive(g: Seq<Seq<char>>, room: Room, s: Scene, c: char)
    requires
        drawn(g, room),
        playable(room),
        floor_char(c),
        s.map == put(g, 1, 1, c),
        s.pos == (1int, 1int),
        floor_char(s.under),
        0 <= s.hp <= 2,
        distinct(s.inventory),
        forall|i: int|
            0 <= i < s.inventory.len() ==> (#[trigger] s.inventory[i] == Item::Sword || s.inventory[i]
                == Item::Key || s.inventory[i] == Item::Bedroll),
    ensures
        poised(s),
{
    let h = room.h as int;
    let w = room.w as int;
    let g2 = s.map;
    lemma_write_inside(g, 1, 1, c);
    assert forall|a: int, b: int|
        0 <= a < h && 0 <= b < w && on_edge(h, w, a, b) implies (#[trigger] g2[a][b] == '#' || g2[a][b]
        == '|') by {
        assert(g2[a][b] == g[a][b]);
    }
    assert forall|a: int, b: int| inside(h, w, a, b) implies (floor_char(#[trigger] g2[a][b]) || (g2[a][b]
        == '@' && a == 1 && b == 1)) by {
        if a == 1 && b == 1 {
        } else {
            assert(g2[a][b] == g[a][b]);
            if g[a][b] != '.' && g[a][b] != '*' {
                let k = choose|k: int| 0 <= k < room.items@.len() && g[a][b] == item_mark(#[trigger] room.items@[k]);
                assert(g[a][b] == item_mark(room.items@[k]));
            }
        }
    }
}

/// Whatever a turn brings (see `turn`), the game stays sound, the walls and
/// doorways stay where they are, hit points never rise, a doorway opens only
/// to a player holding the key, and the player ends the turn either ready
/// for the next one, in an open doorway, or (on quitting, a stalled game or
/// a score overflow) exactly where the turn began.
pub proof fn law_turn(s: Scene, tick: Tick, s2: Scene, a: Action)
    requires
        playing(s),
        s.hp >= 1,
        turn(s, tick, s2, a),
    ensures
        sound(s2),
        same_walls(s.map, s2.map),
        s2.map.len() == s.map.len(),
        s2.map[0].len() == s.map[0].len(),
        s2.hp <= s.hp,
        s2.room == s.room,
        (a == Action::Continue || a == Action::DoorLocked) ==> poised(s2),
        a == Action::DoorOpen ==> in_doorway(s2) && s.inventory.contains(Item::Key),
        (a == Action::Quit || a == Action::Stalled || a == Action::ScoreOverflow) ==> s2 == s,
{
    reveal(turn);
    match tick {
        Tick::Pressed(Command::Escape) => {},
        Tick::Pressed(cmd) => {
            lemma_press(s, cmd);
            lemma_land(press(s, cmd));
            let p = press(s, cmd);
            if score_fits(land(p).0.score) {
                assert forall|y: int, x: int|
                    0 <= y < s.map.len() && 0 <= x < s.map[0].len() && on_edge(
                        s.map.len() as int,
                        s.map[0].len() as int,
                        y,
                        x,
                    ) implies #[trigger] s2.map[y][x] == s.map[y][x] by {
                    assert(p.map[y][x] == s.map[y][x]);
                }
            }
        },
        Tick::Idle => {
            let h = s.map.len() as int;
            let w = s.map[0].len() as int;
            if count_cells(s.map, h, w, spot_test(h, w, true)) != 0 {
                let (y, x) = choose|y: int, x: int|
                    0 <= y < h && 0 <= x < w && is_spot(h, w, y, x, #[trigger] s.map[y][x], true) && (s2, a)
                        == land(spawned(s, y, x));
                lemma_spawn(s, y, x);
                lemma_land(spawned(s, y, x));
                let p = spawned(s, y, x);
                assert forall|a: int, b: int|
                    0 <= a < h && 0 <= b < w && on_edge(h, w, a, b) implies #[trigger] s2.map[a][b]
                    == s.map[a][b] by {
                    assert(p.map[a][b] == s.map[a][b]);
                }
            }
        },
    }
}

/// At rest between turns with bare floor under the player, and bare floor
/// remembered as what lies there.
pub open spec fn calm(s: Scene) -> bool {
    &&& poised(s)
    &&& s.under == '.'
    &&& s.map[s.pos.0][s.pos.1] == '.'
}

/// The tick is a move onto an enemy's cell.
pub open spec fn onto_enemy(s: Scene, tick: Tick) -> bool {
    tick matches Tick::Pressed(cmd) && is_move(cmd) && s.map[moved(s.pos, cmd).0][moved(s.pos, cmd).1] == '*'
}

/// The scene once a turn has begun: the player's mark put on the player's
/// cell, and what lay there remembered.
pub open spec fn begun(s: Scene) -> Scene {
    Scene { map: put(s.map, s.pos.0, s.pos.1, '@'), under: s.map[s.pos.0][s.pos.1], ..s }
}

proof fn lemma_begin(s: Scene)
    requires
        poised(s),
    ensures
        playing(begun(s)),
        same_walls(s.map, begun(s).map),
        begun(s).map.len() == s.map.len(),
        begun(s).map[0].len() == s.map[0].len(),
{
    let g = s.map;
    let h = g.len() as int;
    let w = g[0].len() as int;
    let (y, x) = s.pos;
    let g2 = begun(s).map;
    lemma_write_inside(g, y, x, '@');
    assert forall|a: int, b: int|
        0 <= a < h && 0 <= b < w && on_edge(h, w, a, b) implies (#[trigger] g2[a][b] == '#' || g2[a][b] == '|') by {
        assert(g2[a][b] == g[a][b]);
    }
    assert forall|a: int, b: int| inside(h, w, a, b) implies (floor_char(#[trigger] g2[a][b]) || (g2[a][b]
        == '@' && a == y && b == x)) by {
        if !(a == y && b == x) {
            assert(g2[a][b] == g[a][b]);
        }
    }
}

/// A round from a calm scene (see `calm`): the turn begins (see `begun`)
/// and is played (see `turn`). The walls and doorways stay where they are,
/// hit points never rise, a round that goes on in the room ends calm again
/// (so the player always stands on bare floor between turns), and a
/// doorway is entered with bare floor remembered. A hit point is lost only
/// by moving onto an enemy, and then exactly one.
pub proof fn law_round(s: Scene, tick: Tick, s2: Scene, a: Action)
    requires
        calm(s),
        s.hp >= 1,
        turn(begun(s), tick, s2, a),
    ensures
        playing(begun(s)),
        same_walls(s.map, s2.map),
        s2.map.len() == s.map.len(),
        s2.map[0].len() == s.map[0].len(),
        s2.hp <= s.hp,
        s2.hp != s.hp ==> s2.hp == s.hp - 1 && onto_enemy(s, tick),
        (a == Action::Continue || a == Action::DoorLocked) ==> calm(s2),
        a == Action::DoorOpen ==> in_doorway(s2) && s2.under == '.',
{
    reveal(turn);
    let b = begun(s);
    lemma_begin(s);
    law_turn(b, tick, s2, a);
    assert forall|y: int, x: int|
        0 <= y < s.map.len() && 0 <= x < s.map[0].len() && on_edge(s.map.len() as int, s.map[0].len() as int, y, x)
        implies #[trigger] s2.map[y][x] == s.map[y][x] by {
        assert(b.map[y][x] == s.map[y][x]);
        assert(s2.map[y][x] == b.map[y][x]);
    }
    match tick {
        Tick::Pressed(Command::Escape) => {},
        Tick::Pressed(cmd) => {
            lemma_press(b, cmd);
            let p = press(b, cmd);
            assert(p.under == '.');
        },
        Tick::Idle => {},
    }
}

/// Putting back what a cell held leaves the grid as it was.
proof fn lemma_put_back(g: Seq<Seq<char>>, y: int, x: int, d: char)
    requires
        0 <= y < g.len(),
        0 <= x < g[y].len(),
    ensures
        put(g, y, x, g[y][x]) == g,
        put(put(g, y, x, d), y, x, g[y][x]) == g,
{
    assert(put(g, y, x, g[y][x])[y] =~= g[y]);
    assert(put(g, y, x, g[y][x]) =~= g);
    assert(put(put(g, y, x, d), y, x, g[y][x])[y] =~= g[y]);
    assert(put(put(g, y, x, d), y, x, g[y][x]) =~= g);
}

/// A move in a round from a calm scene (see `calm`), by what lies on the
/// cell moved to: an enemy costs a hit point and 100 points and leaves bare
/// floor there (unless the score would no longer fit); a wall, or a doorway
/// without the key, sends the player back to the starting cell (1, 1),
/// which becomes bare floor, and changes nothing else; a doorway with the
/// key lets the player in; an item is picked up (once) and leaves bare
/// floor; bare floor is just walked onto. Only an enemy ever costs a hit
/// point.
pub proof fn law_move(s: Scene, cmd: Command, s2: Scene, a: Action)
    requires
        calm(s),
        s.hp >= 1,
        score_fits(s.score),
        is_move(cmd),
        turn(begun(s), Tick::Pressed(cmd), s2, a),
    ensures
        ({
            let q = moved(s.pos, cmd);
            let t = s.map[q.0][q.1];
            &&& 0 <= q.0 < s.map.len() && 0 <= q.1 < s.map[0].len()
            &&& t != '*' ==> s2.hp == s.hp && a != Action::ScoreOverflow
            &&& t == '*' && a != Action::ScoreOverflow ==> a == Action::Continue && s2 == (Scene {
                map: put(s.map, q.0, q.1, '.'),
                pos: q,
                hp: s.hp - 1,
                score: s.score - 100,
                ..s
            })
            &&& t == '*' && a == Action::ScoreOverflow ==> s2 == begun(s)
            &&& t == '#' ==> a == Action::Continue && s2 == (Scene { map: put(s.map, 1, 1, '.'), pos: (1, 1), ..s })
            &&& t == '|' && !s.inventory.contains(Item::Key) ==> a == Action::DoorLocked && s2 == (Scene {
                map: put(s.map, 1, 1, '.'),
                pos: (1, 1),
                ..s
            })
            &&& t == '|' && s.inventory.contains(Item::Key) ==> a == Action::DoorOpen && s2 == (Scene { pos: q, ..s })
            &&& item_at(t) is Some ==> a == Action::Continue && s2 == (Scene {
                map: put(s.map, q.0, q.1, '.'),
                pos: q,
                inventory: add_once(s.inventory, item_at(t)->0),
                ..s
            })
            &&& t == '.' ==> a == Action::Continue && s2 == (Scene { pos: q, ..s })
        }),
{
    reveal(turn);
    let b = begun(s);
    let (y, x) = s.pos;
    lemma_begin(s);
    lemma_put_back(s.map, y, x, '@');
    let p = press(b, cmd);
    assert(p.map == s.map);
    assert(p == (Scene { pos: moved(s.pos, cmd), ..s }));
    let q = moved(s.pos, cmd);
    let t = s.map[q.0][q.1];
    if t == '.' {
        lemma_put_back(s.map, q.0, q.1, '@');
    }
}

/// The arrow keys move the player one cell: Up to the row above, Down to
/// the row below, Left to the column on the left and Right to the column on
/// the right. From a calm scene the player ends the round on that cell
/// whenever it is neither a wall nor a doorway that stays locked, and the
/// score still fits; onto bare floor the round simply goes on.
pub proof fn law_arrow_keys(s: Scene, cmd: Command, s2: Scene, a: Action)
    requires
        calm(s),
        s.hp >= 1,
        score_fits(s.score),
        turn(begun(s), Tick::Pressed(cmd), s2, a),
    ensures
        ({
            let (y, x) = s.pos;
            let target = if cmd == Command::Up {
                (y - 1, x)
            } else if cmd == Command::Down {
                (y + 1, x)
            } else if cmd == Command::Left {
                (y, x - 1)
            } else {
                (y, x + 1)
            };
            let t = s.map[target.0][target.1];
            is_move(cmd) ==> {
                &&& (a != Action::ScoreOverflow && t != '#' && (t != '|' || s.inventory.contains(Item::Key)))
                    ==> s2.pos == target
                &&& t == '.' ==> s2.pos == target && a == Action::Continue
            }
        }),
{
    if is_move(cmd) {
        law_move(s, cmd, s2, a);
    }
}

/// Walking onto an item's mark picks that very item up, once: `+` the
/// sword, `?` the key and `&` the bedroll. Whatever the player newly holds
/// after a move is the item whose mark (see `item_mark`) lay on the cell
/// moved to, and a move onto anything else leaves the inventory as it was.
pub proof fn law_pickup(s: Scene, cmd: Command, s2: Scene, a: Action)
    requires
        calm(s),
        s.hp >= 1,
        score_fits(s.score),
        is_move(cmd),
        turn(begun(s), Tick::Pressed(cmd), s2, a),
    ensures
        ({
            let q = moved(s.pos, cmd);
            let t = s.map[q.0][q.1];
            &&& t == '+' ==> s2.inventory == (if s.inventory.contains(Item::Sword) {
                s.inventory
            } else {
                s.inventory.push(Item::Sword)
            })
            &&& t == '?' ==> s2.inventory == (if s.inventory.contains(Item::Key) {
                s.inventory
            } else {
                s.inventory.push(Item::Key)
            })
            &&& t == '&' ==> s2.inventory == (if s.inventory.contains(Item::Bedroll) {
                s.inventory
            } else {
                s.inventory.push(Item::Bedroll)
            })
            &&& (t != '+' && t != '?' && t != '&') ==> s2.inventory == s.inventory
            &&& forall|it: Item|
                #[trigger] s2.inventory.contains(it) && !s.inventory.contains(it) ==> item_mark(it) == t
        }),
{
    law_move(s, cmd, s2, a);
    let q = moved(s.pos, cmd);
    let t = s.map[q.0][q.1];
    assert forall|it: Item| #[trigger] s2.inventory.contains(it) && !s.inventory.contains(it) implies item_mark(
        it,
    ) == t by {
        if item_at(t) is Some {
            let k = item_at(t)->0;
            if !s.inventory.contains(k) {
                let j = choose|j: int| 0 <= j < s2.inventory.len() && s2.inventory[j] == it;
                if j < s.inventory.len() {
                    assert(s.inventory[j] == s2.inventory[j]);
                    assert(s.inventory.contains(it));
                }
            }
        }
    }
}

/// The cells turned from an enemy in `g` to bare floor in `g2`, as a test
/// for counting.
pub open spec fn cleared_test(g2: Seq<Seq<char>>) -> spec_fn(int, int, char) -> bool {
    |a: int, b: int, c: char| c == '*' && g2[a][b] == '.'
}

/// When `g2` is `g` with the enemies around the cell in row `y`, column `x`
/// cleared, the number of cells cleared is the number of enemies there.
proof fn lemma_count_cleared(g: Seq<Seq<char>>, g2: Seq<Seq<char>>, h: int, w: int, y: int, x: int)
    requires
        rect(g, h, w),
        rect(g2, h, w),
        1 <= y < h - 1,
        1 <= x < w - 1,
        forall|a: int, b: int|
            0 <= a < h && 0 <= b < w ==> #[trigger] g2[a][b] == (if near((y, x), a, b) && g[a][b] == '*' {
                '.'
            } else {
                g[a][b]
            }),
    ensures
        count_cells(g, h, w, cleared_test(g2)) == enemies_near(g, (y, x)),
{
    let p = cleared_test(g2);
    lemma_count_none(g2, h, w, p);
    let g1 = put(g2, y - 1, x - 1, g[y - 1][x - 1]);
    lemma_count_put(g2, h, w, p, y - 1, x - 1, g[y - 1][x - 1]);
    lemma_put(g2, h, w, y - 1, x - 1, g[y - 1][x - 1]);
    let g3 = put(g1, y - 1, x, g[y - 1][x]);
    lemma_count_put(g1, h, w, p, y - 1, x, g[y - 1][x]);
    lemma_put(g1, h, w, y - 1, x, g[y - 1][x]);
    let g4 = put(g3, y - 1, x + 1, g[y - 1][x + 1]);
    lemma_count_put(g3, h, w, p, y - 1, x + 1, g[y - 1][x + 1]);
    lemma_put(g3, h, w, y - 1, x + 1, g[y - 1][x + 1]);
    let g5 = put(g4, y, x - 1, g[y][x - 1]);
    lemma_count_put(g4, h, w, p, y, x - 1, g[y][x - 1]);
    lemma_put(g4, h, w, y, x - 1, g[y][x - 1]);
    let g6 = put(g5, y, x + 1, g[y][x + 1]);
    lemma_count_put(g5, h, w, p, y, x + 1, g[y][x + 1]);
    lemma_put(g5, h, w, y, x + 1, g[y][x + 1]);
    let g7 = put(g6, y + 1, x - 1, g[y + 1][x - 1]);
    lemma_count_put(g6, h, w, p, y + 1, x - 1, g[y + 1][x - 1]);
    lemma_put(g6, h, w, y + 1, x - 1, g[y + 1][x - 1]);
    let g8 = put(g7, y + 1, x, g[y + 1][x]);
    lemma_count_put(g7, h, w, p, y + 1, x, g[y + 1][x]);
    lemma_put(g7, h, w, y + 1, x, g[y + 1][x]);
    let g9 = put(g8, y + 1, x + 1, g[y + 1][x + 1]);
    lemma_count_put(g8, h, w, p, y + 1, x + 1, g[y + 1][x + 1]);
    lemma_put(g8, h, w, y + 1, x + 1, g[y + 1][x + 1]);
    assert(g9.len() == g.len());
    assert forall|a: int| 0 <= a < h implies #[trigger] g9[a] =~= g[a] by {
        assert(g[a].len() == w);
        assert(g9[a].len() == w);
        assert forall|b: int| 0 <= b < w implies g9[a][b] == g[a][b] by {
            assert(g2[a][b] == (if near((y, x), a, b) && g[a][b] == '*' {
                '.'
            } else {
                g[a][b]
            }));
        }
    }
    assert(g9 =~= g);
}

/// A strike from a calm scene scores exactly 100 for each cell it turns
/// from an enemy into bare floor, and turns no cell but the eight around the
/// player; with the sword it clears every enemy among those eight (unless
/// the score would no longer fit), and without the sword it clears none.
pub proof fn law_strike(s: Scene, s2: Scene, a: Action)
    requires
        calm(s),
        s.hp >= 1,
        score_fits(s.score),
        turn(begun(s), Tick::Pressed(Command::Strike), s2, a),
    ensures
        s2.score - s.score == 100 * count_cells(s.map, s.map.len() as int, s.map[0].len() as int, cleared_test(s2.map)),
        forall|y: int, x: int|
            0 <= y < s.map.len() && 0 <= x < s.map[0].len() && #[trigger] s.map[y][x] == '*' && s2.map[y][x]
                == '.' ==> s.pos.0 - 1 <= y <= s.pos.0 + 1 && s.pos.1 - 1 <= x <= s.pos.1 + 1,
        s.inventory.contains(Item::Sword) && a != Action::ScoreOverflow ==> forall|y: int, x: int|
            s.pos.0 - 1 <= y <= s.pos.0 + 1 && s.pos.1 - 1 <= x <= s.pos.1 + 1 && #[trigger] s.map[y][x] == '*'
                ==> s2.map[y][x] == '.',
        !s.inventory.contains(Item::Sword) ==> s2.score == s.score && s2.map == s.map,
{
    reveal(turn);
    let g = s.map;
    let h = g.len() as int;
    let w = g[0].len() as int;
    let (y, x) = s.pos;
    let b = begun(s);
    lemma_begin(s);
    lemma_press(b, Command::Strike);
    lemma_write_inside(g, y, x, '@');
    let p = press(b, Command::Strike);
    let g2 = s2.map;
    if s.inventory.contains(Item::Sword) && a != Action::ScoreOverflow {
        let sm = struck(b.map, s.pos);
        assert(sm[y][x] == '@');
        assert(land(p).1 == Action::Continue);
        assert(g2 == put(sm, y, x, '.'));
        assert forall|a: int, c: int| 0 <= a < h && 0 <= c < w implies #[trigger] g2[a][c] == (if near(
            (y, x),
            a,
            c,
        ) && g[a][c] == '*' {
            '.'
        } else {
            g[a][c]
        }) by {
            assert(g[a].len() == w);
            assert(b.map[a][c] == g[a][c] || (a == y && c == x));
        }
        assert(rect(g2, h, w)) by {
            assert forall|a: int| 0 <= a < h implies (#[trigger] g2[a]).len() == w by {
                assert(g[a].len() == w);
            }
        }
        lemma_count_cleared(g, g2, h, w, y, x);
        assert(enemies_near(b.map, s.pos) == enemies_near(g, s.pos));
    } else {
        if s.inventory.contains(Item::Sword) {
            assert(g2 == b.map);
        } else {
            lemma_put_back(g, y, x, '@');
            assert(g2 == put(b.map, y, x, '.'));
            assert(g2 == g);
        }
        assert forall|a: int, c: int| 0 <= a < h && 0 <= c < w implies !#[trigger] cleared_test(g2)(a, c, g[a][c]) by {
            assert(g[a].len() == w);
        }
        lemma_count_none(g, h, w, cleared_test(g2));
    }
}

/// `scenes` and `actions` are a run of turns in one room driven by `ticks`:
/// each turn begins from the scene before it and is played (see `turn`)
/// with hit points left, and every turn but the last goes on in the room.
pub open spec fn run(ticks: Seq<Tick>, scenes: Seq<Scene>, actions: Seq<Action>) -> bool {
    &&& scenes.len() == ticks.len() + 1
    &&& actions.len() == ticks.len()
    &&& forall|i: int|
        0 <= i < ticks.len() ==> scenes[i].hp >= 1 && turn(begun(#[trigger] scenes[i]), ticks[i], scenes[i + 1], actions[i])
    &&& forall|i: int|
        0 <= i < ticks.len() - 1 ==> (#[trigger] actions[i] == Action::Continue || actions[i] == Action::DoorLocked)
}

#[verifier::spinoff_prover]
#[verifier::rlimit(60)]
proof fn lemma_run_upto(ticks: Seq<Tick>, scenes: Seq<Scene>, actions: Seq<Action>, k: int)
    requires
        calm(scenes[0]),
        run(ticks, scenes, actions),
        0 <= k < scenes.len(),
    ensures
        forall|i: int| 0 <= i <= k ==> same_walls(scenes[0].map, #[trigger] scenes[i].map),
        forall|i: int|
            0 <= i <= k ==> (#[trigger] scenes[i]).map.len() == scenes[0].map.len() && scenes[i].map[0].len()
                == scenes[0].map[0].len(),
        forall|i: int| 0 <= i <= k ==> (#[trigger] scenes[i]).hp <= scenes[0].hp,
        forall|i: int| 0 <= i <= k && i < ticks.len() ==> calm(#[trigger] scenes[i]),
        forall|i: int| 0 <= i <= k && i < ticks.len() ==> playing(begun(#[trigger] scenes[i])),
    decreases k,
{
    if k > 0 {
        lemma_run_upto(ticks, scenes, actions, k - 1);
        let s = scenes[k - 1];
        assert(calm(s));
        assert(turn(begun(s), ticks[k - 1], scenes[k], actions[k - 1]));
        law_round(s, ticks[k - 1], scenes[k], actions[k - 1]);
        let g0 = scenes[0].map;
        let g1 = s.map;
        let g2 = scenes[k].map;
        assert(same_walls(g0, g1));
        assert forall|y: int, x: int|
            0 <= y < g0.len() && 0 <= x < g0[0].len() && on_edge(g0.len() as int, g0[0].len() as int, y, x)
            implies #[trigger] g2[y][x] == g0[y][x] by {
            assert(g1[y][x] == g0[y][x]);
        }
        if k < ticks.len() {
            assert(actions[k - 1] == Action::Continue || actions[k - 1] == Action::DoorLocked);
            lemma_begin(scenes[k]);
        }
    } else {
        if ticks.len() > 0 {
            lemma_begin(scenes[0]);
        }
    }
}

/// Over a whole run of turns in one room from a calm scene (see `run`),
/// every frame has the height and width of the first and shows the room's
/// walls and doorways as they were at the start, with the player's mark
/// once, inside the walls, on bare floor; between turns the player stands
/// on bare floor; and hit points never rise, falling by one exactly on a
/// move onto an enemy.
pub proof fn law_run(ticks: Seq<Tick>, scenes: Seq<Scene>, actions: Seq<Action>)
    requires
        calm(scenes[0]),
        run(ticks, scenes, actions),
    ensures
        forall|i: int|
            0 <= i < scenes.len() ==> (#[trigger] scenes[i]).map.len() == scenes[0].map.len() && scenes[i].map[0].len()
                == scenes[0].map[0].len(),
        forall|i: int| 0 <= i < scenes.len() ==> same_walls(scenes[0].map, #[trigger] scenes[i].map),
        forall|i: int| 0 <= i < scenes.len() ==> (#[trigger] scenes[i]).hp <= scenes[0].hp,
        forall|i: int|
            #![trigger scenes[i]]
            0 <= i < ticks.len() && scenes[i + 1].hp != scenes[i].hp ==> scenes[i + 1].hp == scenes[i].hp - 1
                && onto_enemy(scenes[i], ticks[i]),
        forall|i: int| 0 <= i < ticks.len() ==> calm(#[trigger] scenes[i]),
        forall|i: int| 0 <= i < ticks.len() ==> playing(begun(#[trigger] scenes[i])) && begun(scenes[i]).under == '.',
{
    lemma_run_upto(ticks, scenes, actions, scenes.len() - 1);
    assert forall|i: int|
        #![trigger scenes[i]]
        0 <= i < ticks.len() && scenes[i + 1].hp != scenes[i].hp implies scenes[i + 1].hp == scenes[i].hp - 1
        && onto_enemy(scenes[i], ticks[i]) by {
        assert(calm(scenes[i]));
        assert(scenes[i].hp >= 1 && turn(begun(scenes[i]), ticks[i], scenes[i + 1], actions[i]));
        law_round(scenes[i], ticks[i], scenes[i + 1], actions[i]);
    }
}

impl Game {
    /// The game's state is sound (see `sound`).
    pub open spec fn wf(&self) -> bool {
        sound(self@)
    }

    /// Between turns (see `poised`).
    pub open spec fn ready(&self) -> bool {
        poised(self@)
    }

    /// During a turn (see `playing`).
    pub open spec fn in_turn(&self) -> bool {
        playing(self@)
    }

    /// Waiting in a doorway (see `in_doorway`).
    pub open spec fn at_door(&self) -> bool {
        in_doorway(self@)
    }

    /// Looks at the player's cell and does what it asks (see `land`).
    fn settle(&mut self) -> (action: Action)
        requires
            sound(old(self)@),
            old(self).player_hp >= 1,
            score_fits(land(old(self)@).0.score),
        ensures
            (final(self)@, action) == land(old(self)@),
            final(self).at == old(self).at,
    {
        let (y, x) = self.player_pos;
        let ghost g = grid(self.map);
        assert(g[y as int] == self.map@[y as int]@);
        assert(g[1] == self.map@[1]@);
        let t = self.map[y][x];
        let under = self.prev_point;
        if t == '+' || t == '?' || t == '&' {
            let item = if t == '+' {
                Item::Sword
            } else if t == '?' {
                Item::Key
            } else {
                Item::Bedroll
            };
            if !has_item(&self.inventory, &item) {
                self.inventory.push(item);
            }
            set_cell(&mut self.map, y, x, under);
            Action::Continue
        } else if t == '*' {
            self.player_hp = self.player_hp - 1;
            self.player_score = self.player_score - 100;
            set_cell(&mut self.map, y, x, under);
            Action::Continue
        } else if t == '#' {
            self.player_pos = (1, 1);
            set_cell(&mut self.map, 1, 1, under);
            Action::Continue
        } else if t == '|' {
            if has_item(&self.inventory, &Item::Key) {
                Action::DoorOpen
            } else {
                self.player_pos = (1, 1);
                set_cell(&mut self.map, 1, 1, under);
                Action::DoorLocked
            }
        } else {
            self.prev_point = '.';
            set_cell(&mut self.map, y, x, '.');
            Action::Continue
        }
    }

    /// Plays one turn (see `turn`). The player's hit points never rise, and
    /// the game stays sound: after `Continue` or `DoorLocked` the next turn
    /// can start, after `DoorOpen` the player waits in a doorway, and after
    /// `Quit`, `Stalled` or `ScoreOverflow` nothing has changed.
    pub fn step(&mut self, tick: Tick) -> (action: Action)
        requires
            old(self).in_turn(),
            old(self).player_hp > 0,
        ensures
            turn(old(self)@, tick, final(self)@, action),
            final(self).at == old(self).at,
            final(self).player_hp <= old(self).player_hp,
            action == Action::Continue || action == Action::DoorLocked ==> final(self).ready(),
            action == Action::DoorOpen ==> final(self).at_door(),
            action == Action::Quit || action == Action::Stalled || action == Action::ScoreOverflow
                ==> final(self)@ == old(self)@,
    {
        reveal(turn);
        let ghost s0 = self@;
        let (y, x) = self.player_pos;
        let ghost g = grid(self.map);
        proof {
            assert(self.map.len() == self.map@.len());
            assert(self.map@[0].len() == self.map@[0]@.len());
        }
        assert(g[0] == self.map@[0]@);
        match tick {
            Tick::Pressed(Command::Escape) => {
                return Action::Quit;
            },
            Tick::Pressed(cmd) => {
                proof {
                    lemma_press(s0, cmd);
                    lemma_land(press(s0, cmd));
                }
                if cmd == Command::Up || cmd == Command::Down || cmd == Command::Left || cmd
                    == Command::Right {
                    let (ny, nx) = if cmd == Command::Up {
                        (y - 1, x)
                    } else if cmd == Command::Down {
                        (y + 1, x)
                    } else if cmd == Command::Left {
                        (y, x - 1)
                    } else {
                        (y, x + 1)
                    };
                    assert(g[ny as int] == self.map@[ny as int]@);
                    if self.map[ny][nx] == '*' && self.player_score < i32::MIN + 100 {
                        return Action::ScoreOverflow;
                    }
                    let under = self.prev_point;
                    set_cell(&mut self.map, y, x, under);
                    self.player_pos = (ny, nx);
                } else if cmd == Command::Strike && has_item(&self.inventory, &Item::Sword) {
                    let n = enemies_around(&self.map, y, x);
                    let gain = 100 * (n as i64);
                    if (self.player_score as i64) + gain > i32::MAX as i64 {
                        return Action::ScoreOverflow;
                    }
                    strike_around(&mut self.map, y, x);
                    self.player_score = ((self.player_score as i64) + gain) as i32;
                }
                assert(self@ == press(s0, cmd));
            },
            Tick::Idle => {
                let free = open_spots(&self.map, true);
                if free.len() == 0 {
                    return Action::Stalled;
                }
                let k = roll(0, free.len());
                proof {
                    lemma_nth_spot(g, true, free@, k as int);
                    let c = free@[k as int];
                    assert(is_spot(g.len() as int, g[0].len() as int, c.0 as int, c.1 as int, g[c.0 as int][c.1 as int], true));
                }
                return self.spawn_at(k);
            },
        }
        self.settle()
    }

    /// Time runs out: a new enemy appears on the spot of bare floor that has
    /// `k` such spots before it, the grid being read row by row (see
    /// `nth_spot`), and then the player's cell is looked at (see `land`).
    pub fn spawn_at(&mut self, k: usize) -> (action: Action)
        requires
            old(self).in_turn(),
            old(self).player_hp > 0,
            k < count_cells(
                old(self)@.map,
                old(self)@.map.len() as int,
                old(self)@.map[0].len() as int,
                spot_test(old(self)@.map.len() as int, old(self)@.map[0].len() as int, true),
            ),
        ensures
            ({
                let g = old(self)@.map;
                let c = nth_spot(g, g.len() as int, g[0].len() as int, true, k as int);
                &&& 0 <= c.0 < g.len() && 0 <= c.1 < g[0].len()
                &&& is_spot(g.len() as int, g[0].len() as int, c.0, c.1, g[c.0][c.1], true)
                &&& (final(self)@, action) == land(spawned(old(self)@, c.0, c.1))
            }),
            final(self).at == old(self).at,
            final(self).ready(),
            action == Action::Continue,
    {
        let ghost s0 = self@;
        let ghost g = grid(self.map);
        proof {
            assert(self.map.len() == self.map@.len());
            assert(self.map@[0].len() == self.map@[0]@.len());
            assert(g[0] == self.map@[0]@);
        }
        let free = open_spots(&self.map, true);
        let (sy, sx) = free[k];
        proof {
            lemma_nth_spot(g, true, free@, k as int);
        }
        set_cell(&mut self.map, sy, sx, '*');
        proof {
            lemma_spawn(s0, sy as int, sx as int);
            lemma_land(spawned(s0, sy as int, sx as int));
        }
        assert(self@ == spawned(s0, sy as int, sx as int));
        self.settle()
    }

    /// A new game in the first room: its grid drawn by chance, the player at
    /// the starting cell (1, 1) with two hit points, no score and nothing
    /// carried.
    pub fn start(rooms: &Vec<Room>) -> (game: Game)
        requires
            rooms@.len() > 0,
            playable(rooms@[0]),
        ensures
            game.ready(),
            calm(game@),
            drawn(game@.map, rooms@[0]),
            game.at == RoomID(0),
            game.player_pos == (1usize, 1usize),
            game.player_hp == 2,
            game.player_score == 0,
            game.inventory@.len() == 0,
            game.prev_point == '.',
    {
        let map = generate_map(&rooms[0]);
        let game = Game {
            map,
            player_pos: (1, 1),
            player_hp: 2,
            player_score: 0,
            inventory: Vec::new(),
            at: RoomID(0),
            prev_point: '.',
        };
        proof {
            let g = grid(game.map);
            assert(put(g, 1, 1, '.') =~= g) by {
                assert(g[1] =~= g[1].update(1, '.'));
            }
            lemma_arrive(g, rooms@[0], game@, '.');
        }
        game
    }

    /// Goes through the open doorway into `target`. When `target` is one of
    /// the end rooms the game is over and only the current room changes.
    /// Otherwise the new room's grid is drawn by chance, the player stands
    /// at its starting cell (1, 1), which takes what lay under the player,
    /// and the next turn can start.
    pub fn enter_room(&mut self, rooms: &Vec<Room>, end_rooms: &Vec<RoomID>, target: RoomID) -> (ended: bool)
        requires
            old(self).at_door(),
            end_rooms@.contains(target) || (target.0 < rooms@.len() && playable(rooms@[target.0 as int])),
        ensures
            ended == end_rooms@.contains(target),
            final(self).at == target,
            ended ==> final(self)@ == (Scene { room: target.0 as int, ..old(self)@ }),
            !ended ==> final(self).ready(),
            !ended && old(self).prev_point == '.' ==> calm(final(self)@),
            !ended ==> exists|g: Seq<Seq<char>>|
                drawn(g, rooms@[target.0 as int]) && final(self)@ == (Scene {
                    map: put(g, 1, 1, old(self)@.under),
                    pos: (1, 1),
                    room: target.0 as int,
                    ..old(self)@
                }),
    {
        self.at = target;
        if is_end_room(end_rooms, target) {
            return true;
        }
        let map = generate_map(&rooms[target.0]);
        let ghost g = grid(map);
        self.map = map;
        self.player_pos = (1, 1);
        let under = self.prev_point;
        assert(g[1] == self.map@[1]@);
        set_cell(&mut self.map, 1, 1, under);
        proof {
            lemma_arrive(g, rooms@[target.0 as int], self@, under);
        }
        false
    }

    /// Starts a turn: remembers what lies under the player, puts the
    /// player's mark there, and tells whether the player has hit points left.
    pub fn begin_turn(&mut self) -> (alive: bool)
        requires
            old(self).ready(),
        ensures
            final(self).in_turn(),
            alive == (old(self).player_hp > 0),
            final(self)@ == begun(old(self)@),
            final(self).at == old(self).at,
    {
        let (y, x) = self.player_pos;
        let ghost g = grid(self.map);
        assert(g[y as int] == self.map@[y as int]@);
        self.prev_point = self.map[y][x];
        set_cell(&mut self.map, y, x, '@');
        proof {
            let g2 = grid(self.map);
            let h = g.len() as int;
            let w = g[0].len() as int;
            lemma_write_inside(g, y as int, x as int, '@');
            assert forall|a: int, b: int|
                0 <= a < h && 0 <= b < w && on_edge(h, w, a, b) implies (#[trigger] g2[a][b] == '#'
                || g2[a][b] == '|') by {
                assert(g2[a][b] == g[a][b]);
            }
            assert forall|a: int, b: int| inside(h, w, a, b) implies (floor_char(#[trigger] g2[a][b]) || (
            g2[a][b] == '@' && a == y && b == x)) by {
                if !(a == y && b == x) {
                    assert(g2[a][b] == g[a][b]);
                }
            }
        }
        self.player_hp > 0
    }
}

} // verus!
