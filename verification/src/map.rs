//! Drawing a room's grid: walls, doorways, items and enemies.
use vstd::prelude::*;

use crate::chance::roll;
use crate::grid::{
    count_cells, count_row, count_rows, grid, lemma_count_none, lemma_count_nonneg, lemma_put,
    lemma_count_put, put, rect, set_cell,
};
use crate::{Item, Room};

verus! {

/// The cell in row `y`, column `x` of an empty `h`-by-`w` room: a doorway
/// at row 1 of the left wall, walls all round, floor inside.
pub open spec fn framed_cell(h: int, w: int, y: int, x: int) -> char {
    if y == 1 && x == 0 {
        '|'
    } else if y == 0 || y == h - 1 || x == 0 || x == w - 1 {
        '#'
    } else {
        '.'
    }
}

/// The grid of an empty `h`-by-`w` room.
pub open spec fn framed(h: int, w: int) -> Seq<Seq<char>> {
    Seq::new(h as nat, |y: int| Seq::new(w as nat, |x: int| framed_cell(h, w, y, x)))
}

/// The cell is on the outer ring of an `h`-by-`w` grid.
pub open spec fn on_edge(h: int, w: int, y: int, x: int) -> bool {
    y == 0 || y == h - 1 || x == 0 || x == w - 1
}

/// The cell lies inside the walls of an `h`-by-`w` grid.
pub open spec fn inside(h: int, w: int, y: int, x: int) -> bool {
    1 <= y < h - 1 && 1 <= x < w - 1
}

/// A cell inside the walls other than the player's starting cell (1, 1).
pub open spec fn spot_cell(h: int, w: int, y: int, x: int) -> bool {
    inside(h, w, y, x) && !(y == 1 && x == 1)
}

/// A cell where something may be put: inside the walls, not the player's
/// starting cell (1, 1), and, when `need_floor`, bare floor.
pub open spec fn is_spot(h: int, w: int, y: int, x: int, c: char, need_floor: bool) -> bool {
    &&& spot_cell(h, w, y, x)
    &&& (need_floor ==> c == '.')
}

/// The test of `is_spot`, for counting.
pub open spec fn spot_test(h: int, w: int, need_floor: bool) -> spec_fn(int, int, char) -> bool {
    |y: int, x: int, c: char| is_spot(h, w, y, x, c, need_floor)
}

/// The test for an enemy's cell, for counting.
pub open spec fn enemy_test() -> spec_fn(int, int, char) -> bool {
    |y: int, x: int, c: char| c == '*'
}

/// Cell `a` comes before cell `b` when the grid is read row by row.
pub open spec fn before(a: (usize, usize), b: (usize, usize)) -> bool {
    a.0 < b.0 || (a.0 == b.0 && a.1 < b.1)
}

/// How many spots of `g` come before the cell in row `y`, column `x`, the
/// grid being read row by row.
pub open spec fn rank(g: Seq<Seq<char>>, h: int, w: int, need_floor: bool, y: int, x: int) -> int {
    count_rows(g, spot_test(h, w, need_floor), w, y) + count_row(g, spot_test(h, w, need_floor), y, x)
}

/// The spot of `g` with `k` spots before it, row by row.
pub open spec fn nth_spot(g: Seq<Seq<char>>, h: int, w: int, need_floor: bool, k: int) -> (int, int) {
    choose|c: (int, int)|
        0 <= c.0 < h && 0 <= c.1 < w && is_spot(h, w, c.0, c.1, g[c.0][c.1], need_floor) && rank(
            g,
            h,
            w,
            need_floor,
            c.0,
            c.1,
        ) == k
}

/// `v` lists, row by row and each once, the spots of `g`.
pub open spec fn lists_spots(g: Seq<Seq<char>>, need_floor: bool, v: Seq<(usize, usize)>) -> bool {
    let h = g.len() as int;
    let w = g[0].len() as int;
    &&& forall|i: int|
        0 <= i < v.len() ==> is_spot(h, w, v[i].0 as int, v[i].1 as int, g[v[i].0 as int][v[i].1 as int], need_floor)
    &&& forall|y: int, x: int|
        0 <= y < h && 0 <= x < w && is_spot(h, w, y, x, #[trigger] g[y][x], need_floor)
            ==> v.contains((y as usize, x as usize))
    &&& forall|i: int, j: int| 0 <= i < j < v.len() ==> before(#[trigger] v[i], #[trigger] v[j])
    &&& v.len() == count_cells(g, h, w, spot_test(h, w, need_floor))
    &&& forall|i: int| 0 <= i < v.len() ==> rank(g, h, w, need_floor, (#[trigger] v[i]).0 as int, v[i].1 as int) == i
}

/// In a listing of the spots, the `k`-th is the spot with `k` spots before it.
pub proof fn lemma_nth_spot(g: Seq<Seq<char>>, need_floor: bool, v: Seq<(usize, usize)>, k: int)
    requires
        lists_spots(g, need_floor, v),
        0 <= k < v.len(),
        g.len() <= usize::MAX,
        g.len() > 0,
        g[0].len() <= usize::MAX,
    ensures
        nth_spot(g, g.len() as int, g[0].len() as int, need_floor, k) == (v[k].0 as int, v[k].1 as int),
{
    let h = g.len() as int;
    let w = g[0].len() as int;
    let c = nth_spot(g, h, w, need_floor, k);
    let vk = (v[k].0 as int, v[k].1 as int);
    assert(is_spot(h, w, vk.0, vk.1, g[vk.0][vk.1], need_floor));
    assert(rank(g, h, w, need_floor, vk.0, vk.1) == k);
    assert(0 <= c.0 < h && 0 <= c.1 < w && is_spot(h, w, c.0, c.1, g[c.0][c.1], need_floor) && rank(
        g,
        h,
        w,
        need_floor,
        c.0,
        c.1,
    ) == k);
    assert(v.contains((c.0 as usize, c.1 as usize)));
    let j = choose|j: int| 0 <= j < v.len() && v[j] == (c.0 as usize, c.1 as usize);
    assert(rank(g, h, w, need_floor, v[j].0 as int, v[j].1 as int) == j);
}

/// The character that shows an item on the grid.
pub open spec fn item_mark(item: Item) -> char {
    match item {
        Item::Sword => '+',
        Item::Key => '?',
        _ => '&',
    }
}

/// The character that shows an item on the grid: `+` for the sword, `?` for
/// the key, `&` for anything else.
pub fn item_char(item: &Item) -> (c: char)
    ensures
        c == item_mark(*item),
{
    match item {
        Item::Sword => '+',
        Item::Key => '?',
        _ => '&',
    }
}

fn framed_char(h: usize, w: usize, y: usize, x: usize) -> (c: char)
    requires
        y < h,
        x < w,
    ensures
        c == framed_cell(h as int, w as int, y as int, x as int),
{
    if y == 1 && x == 0 {
        '|'
    } else if y == 0 || y + 1 == h || x == 0 || x + 1 == w {
        '#'
    } else {
        '.'
    }
}

/// The grid of an empty room `h` rows high and `w` columns wide.
pub fn blank_map(w: usize, h: usize) -> (m: Vec<Vec<char>>)
    ensures
        grid(m) == framed(h as int, w as int),
{
    let mut m: Vec<Vec<char>> = Vec::new();
    let mut y: usize = 0;
    while y < h
        invariant
            y <= h,
            m@.len() == y,
            forall|r: int| 0 <= r < y ==> (#[trigger] m@[r])@ == framed(h as int, w as int)[r],
        decreases h - y,
    {
        let mut row: Vec<char> = Vec::new();
        let mut x: usize = 0;
        while x < w
            invariant
                x <= w,
                y < h,
                row@.len() == x,
                forall|k: int| 0 <= k < x ==> row@[k] == framed_cell(h as int, w as int, y as int, k),
            decreases w - x,
        {
            row.push(framed_char(h, w, y, x));
            x = x + 1;
        }
        assert(row@ =~= framed(h as int, w as int)[y as int]);
        m.push(row);
        y = y + 1;
    }
    assert(grid(m) =~= framed(h as int, w as int));
    m
}

/// The spots of the grid, row by row: every cell inside the walls but the
/// starting cell (1, 1), and, when `need_floor`, only the bare floor among
/// them.
pub fn open_spots(m: &Vec<Vec<char>>, need_floor: bool) -> (v: Vec<(usize, usize)>)
    requires
        m@.len() > 0,
        rect(grid(*m), m@.len() as int, m@[0]@.len() as int),
    ensures
        lists_spots(grid(*m), need_floor, v@),
{
    let ghost g = grid(*m);
    let h = m.len();
    let w = m[0].len();
    let ghost p = spot_test(h as int, w as int, need_floor);
    assert(g[0].len() == w);
    let mut v: Vec<(usize, usize)> = Vec::new();
    let mut y: usize = 0;
    while y < h
        invariant
            g == grid(*m),
            h == g.len(),
            w == g[0].len(),
            rect(g, h as int, w as int),
            p == spot_test(h as int, w as int, need_floor),
            y <= h,
            v@.len() == count_rows(g, p, w as int, y as int),
            forall|i: int| 0 <= i < v@.len() ==> (#[trigger] v@[i]).0 < y,
            forall|i: int|
                0 <= i < v@.len() ==> is_spot(
                    h as int,
                    w as int,
                    (#[trigger] v@[i]).0 as int,
                    v@[i].1 as int,
                    g[v@[i].0 as int][v@[i].1 as int],
                    need_floor,
                ),
            forall|a: int, b: int|
                0 <= a < y && 0 <= b < w && is_spot(h as int, w as int, a, b, #[trigger] g[a][b], need_floor)
                    ==> v@.contains((a as usize, b as usize)),
            forall|i: int, j: int| 0 <= i < j < v@.len() ==> before(#[trigger] v@[i], #[trigger] v@[j]),
            forall|i: int|
                0 <= i < v@.len() ==> rank(g, h as int, w as int, need_floor, (#[trigger] v@[i]).0 as int, v@[i].1 as int)
                    == i,
        decreases h - y,
    {
        let mut x: usize = 0;
        let ghost start = v@.len();
        while x < w
            invariant
                g == grid(*m),
                h == g.len(),
                w == g[0].len(),
                rect(g, h as int, w as int),
                p == spot_test(h as int, w as int, need_floor),
                y < h,
                x <= w,
                v@.len() == count_rows(g, p, w as int, y as int) + count_row(g, p, y as int, x as int),
                forall|i: int|
                    0 <= i < v@.len() ==> ((#[trigger] v@[i]).0 < y || (v@[i].0 == y && v@[i].1 < x)),
                forall|i: int|
                    0 <= i < v@.len() ==> is_spot(
                        h as int,
                        w as int,
                        (#[trigger] v@[i]).0 as int,
                        v@[i].1 as int,
                        g[v@[i].0 as int][v@[i].1 as int],
                        need_floor,
                    ),
                forall|a: int, b: int|
                    ((0 <= a < y && 0 <= b < w) || (a == y && 0 <= b < x)) && is_spot(
                        h as int,
                        w as int,
                        a,
                        b,
                        #[trigger] g[a][b],
                        need_floor,
                    ) ==> v@.contains((a as usize, b as usize)),
                forall|i: int, j: int| 0 <= i < j < v@.len() ==> before(#[trigger] v@[i], #[trigger] v@[j]),
                forall|i: int|
                    0 <= i < v@.len() ==> rank(g, h as int, w as int, need_floor, (#[trigger] v@[i]).0 as int, v@[i].1 as int)
                        == i,
            decreases w - x,
        {
            let c = m[y][x];
            assert(c == g[y as int][x as int]);
            let take = 1 <= y && y + 1 < h && 1 <= x && x + 1 < w && !(y == 1 && x == 1) && (!need_floor
                || c == '.');
            assert(take == p(y as int, x as int, c));
            if take {
                let ghost old_v = v@;
                v.push((y, x));
                assert forall|a: int, b: int|
                    ((0 <= a < y && 0 <= b < w) || (a == y && 0 <= b < x + 1)) && is_spot(
                        h as int,
                        w as int,
                        a,
                        b,
                        #[trigger] g[a][b],
                        need_floor,
                    ) implies v@.contains((a as usize, b as usize)) by {
                    if a == y && b == x {
                        assert(v@[v@.len() - 1] == (a as usize, b as usize));
                    } else {
                        assert(old_v.contains((a as usize, b as usize)));
                        let k = choose|k: int| 0 <= k < old_v.len() && old_v[k] == (a as usize, b as usize);
                        assert(v@[k] == (a as usize, b as usize));
                    }
                }
            }
            x = x + 1;
        }
        y = y + 1;
    }
    v
}

proof fn lemma_blank_row(h: int, w: int, need_floor: bool, y: int, n: int)
    requires
        h >= 3,
        w >= 3,
        0 <= y < h,
        0 <= n <= w,
    ensures
        count_row(framed(h, w), spot_test(h, w, need_floor), y, n) == if 1 <= y < h - 1 {
            (if n <= 1 {
                0
            } else if n <= w - 1 {
                n - 1
            } else {
                w - 2
            }) - (if y == 1 && n >= 2 {
                1int
            } else {
                0
            })
        } else {
            0
        },
    decreases n,
{
    if n > 0 {
        lemma_blank_row(h, w, need_floor, y, n - 1);
        assert(framed(h, w)[y][n - 1] == framed_cell(h, w, y, n - 1));
    }
}

proof fn lemma_blank_rows(h: int, w: int, need_floor: bool, m: int)
    requires
        h >= 3,
        w >= 3,
        0 <= m <= h,
    ensures
        count_rows(framed(h, w), spot_test(h, w, need_floor), w, m) == if m <= 1 {
            0
        } else if m <= h - 1 {
            (m - 1) * (w - 2) - 1
        } else {
            (h - 2) * (w - 2) - 1
        },
    decreases m,
{
    if m > 0 {
        lemma_blank_rows(h, w, need_floor, m - 1);
        lemma_blank_row(h, w, need_floor, m - 1, w);
        if 2 <= m - 1 && m - 1 < h - 1 {
            assert((m - 2) * (w - 2) + (w - 2) == (m - 1) * (w - 2)) by (nonlinear_arith);
        }
    }
}

/// An empty room has a spot in every cell inside its walls but the
/// starting cell.
pub proof fn lemma_blank_spots(h: int, w: int, need_floor: bool)
    requires
        h >= 3,
        w >= 3,
    ensures
        count_cells(framed(h, w), h, w, spot_test(h, w, need_floor)) == (h - 2) * (w - 2) - 1,
{
    lemma_blank_rows(h, w, need_floor, h);
}

/// How many cells inside the walls of an `h`-by-`w` grid can take an item
/// or an enemy: all but the starting cell (1, 1).
pub open spec fn spot_total(h: int, w: int) -> int {
    (h - 2) * (w - 2) - 1
}

/// The smaller of two numbers.
pub open spec fn smaller(a: int, b: int) -> int {
    if a < b {
        a
    } else {
        b
    }
}

/// The room can be drawn: at least two rows and one column; a third row
/// when a doorway has to be cut into the right wall; a room at least three
/// by three with a spot to spare when there are items (items may share a
/// spot); and when there are enemies, enough spots for all of them besides
/// those the items may take.
pub open spec fn fits(room: Room) -> bool {
    let h = room.h as int;
    let w = room.w as int;
    let items = room.items@.len() as int;
    let total = spot_total(h, w);
    &&& h >= 2
    &&& w >= 1
    &&& room.doors@.len() > 0 ==> h >= 3
    &&& items > 0 ==> h >= 3 && w >= 3 && total >= 1
    &&& room.enemies > 0 ==> h >= 3 && w >= 3 && room.enemies + smaller(items, total) <= total
}

/// The outer ring of `g` is the empty room's, but for doorways cut into the
/// right wall, which only a room with doors has.
pub open spec fn edge_drawn(g: Seq<Seq<char>>, room: Room) -> bool {
    let h = room.h as int;
    let w = room.w as int;
    forall|y: int, x: int|
        0 <= y < h && 0 <= x < w && on_edge(h, w, y, x) ==> (#[trigger] g[y][x] == framed_cell(h, w, y, x)
            || (room.doors@.len() > 0 && x == w - 1 && 1 <= y < h - 1 && g[y][x] == '|'))
}

/// Every cell inside the walls holds floor, an enemy or one of the items.
pub open spec fn inside_drawn(g: Seq<Seq<char>>, room: Room) -> bool {
    let h = room.h as int;
    let w = room.w as int;
    forall|y: int, x: int|
        inside(h, w, y, x) ==> (#[trigger] g[y][x] == '.' || g[y][x] == '*' || exists|k: int|
            0 <= k < room.items@.len() && g[y][x] == item_mark(#[trigger] room.items@[k]))
}

/// The test for a cell inside the walls that holds `c`, for counting.
pub open spec fn mark_test(h: int, w: int, c: char) -> spec_fn(int, int, char) -> bool {
    |y: int, x: int, d: char| inside(h, w, y, x) && d == c
}

/// The test for a doorway in the right wall, for counting (in a room one
/// column wide the right wall is the left one, whose doorway is not counted).
pub open spec fn doorway_test(h: int, w: int) -> spec_fn(int, int, char) -> bool {
    |y: int, x: int, d: char| 0 < x && x == w - 1 && 1 <= y < h - 1 && d == '|'
}

/// How many of the items are shown by `c`.
pub open spec fn count_marks(items: Seq<Item>, c: char) -> int
    decreases items.len(),
{
    if items.len() == 0 {
        0
    } else {
        count_marks(items.drop_last(), c) + if item_mark(items.last()) == c {
            1int
        } else {
            0
        }
    }
}

/// Each item mark shows on no more cells than there are items it stands for.
pub open spec fn marks_bounded(g: Seq<Seq<char>>, room: Room) -> bool {
    let h = room.h as int;
    let w = room.w as int;
    &&& count_cells(g, h, w, mark_test(h, w, '+')) <= count_marks(room.items@, '+')
    &&& count_cells(g, h, w, mark_test(h, w, '?')) <= count_marks(room.items@, '?')
    &&& count_cells(g, h, w, mark_test(h, w, '&')) <= count_marks(room.items@, '&')
}

/// `g` with a doorway cut into the right wall at each of the rows, in turn.
pub open spec fn cut_doorways(g: Seq<Seq<char>>, w: int, rows: Seq<usize>) -> Seq<Seq<char>>
    decreases rows.len(),
{
    if rows.len() == 0 {
        g
    } else {
        put(cut_doorways(g, w, rows.drop_last()), rows.last() as int, w - 1, '|')
    }
}

/// `g` with the items laid in turn, each on the spot that its pick counts
/// to among all spots, row by row.
pub open spec fn lay_items(g: Seq<Seq<char>>, h: int, w: int, items: Seq<Item>, picks: Seq<usize>) -> Seq<Seq<char>>
    decreases picks.len(),
{
    if picks.len() == 0 || items.len() == 0 {
        g
    } else {
        let g1 = lay_items(g, h, w, items.drop_last(), picks.drop_last());
        let c = nth_spot(g1, h, w, false, picks.last() as int);
        put(g1, c.0, c.1, item_mark(items.last()))
    }
}

/// `g` with an enemy put for each pick in turn, on the spot of bare floor
/// that the pick counts to, row by row.
pub open spec fn lay_enemies(g: Seq<Seq<char>>, h: int, w: int, picks: Seq<usize>) -> Seq<Seq<char>>
    decreases picks.len(),
{
    if picks.len() == 0 {
        g
    } else {
        let g1 = lay_enemies(g, h, w, picks.drop_last());
        let c = nth_spot(g1, h, w, true, picks.last() as int);
        put(g1, c.0, c.1, '*')
    }
}

/// The empty room with its doorways cut and its items laid.
pub open spec fn walls_and_items(room: Room, rows: Seq<usize>, item_picks: Seq<usize>) -> Seq<Seq<char>> {
    let h = room.h as int;
    let w = room.w as int;
    lay_items(cut_doorways(framed(h, w), w, rows), h, w, room.items@, item_picks)
}

/// The room's grid drawn with the given doorway rows, item picks and enemy
/// picks.
pub open spec fn drawing(room: Room, rows: Seq<usize>, item_picks: Seq<usize>, enemy_picks: Seq<usize>) -> Seq<Seq<char>> {
    lay_enemies(walls_and_items(room, rows, item_picks), room.h as int, room.w as int, enemy_picks)
}

/// One doorway row for each door, each a row inside the walls.
pub open spec fn rows_fit(room: Room, rows: Seq<usize>) -> bool {
    &&& rows.len() == room.doors@.len()
    &&& forall|i: int| 0 <= i < rows.len() ==> 1 <= #[trigger] rows[i] < room.h - 1
}

/// One pick for each item, each below the number of spots.
pub open spec fn picks_fit(room: Room, picks: Seq<usize>) -> bool {
    &&& picks.len() == room.items@.len()
    &&& forall|i: int| 0 <= i < picks.len() ==> #[trigger] picks[i] < spot_total(room.h as int, room.w as int)
}

/// Numbers that a drawing of the room can be made with: rows and item
/// picks that fit, and one pick for each enemy, the `e`-th below the number
/// of spots of bare floor left for it.
pub open spec fn rolls_fit(room: Room, rows: Seq<usize>, item_picks: Seq<usize>, enemy_picks: Seq<usize>) -> bool {
    let h = room.h as int;
    let w = room.w as int;
    &&& fits(room)
    &&& rows_fit(room, rows)
    &&& picks_fit(room, item_picks)
    &&& enemy_picks.len() == room.enemies
    &&& forall|e: int|
        0 <= e < enemy_picks.len() ==> #[trigger] enemy_picks[e] + e < count_cells(
            walls_and_items(room, rows, item_picks),
            h,
            w,
            spot_test(h, w, true),
        )
}

/// No cell of the `h`-by-`w` grid holds an enemy.
pub open spec fn no_enemy(g: Seq<Seq<char>>, h: int, w: int) -> bool {
    forall|y: int, x: int| 0 <= y < h && 0 <= x < w ==> #[trigger] g[y][x] != '*'
}

/// What holds of the grid once its doorways are cut and its items laid:
/// an `h`-by-`w` grid walled all round, with the doorway at row 1 of the
/// left wall and, when the room has doors, at least one and at most as many
/// doorways in the right wall; floor at the starting cell; only floor and
/// items inside, each item mark on no more cells than there are items it
/// stands for, and the last item on the grid; no enemy; and at least as
/// many spots of bare floor as there are spots the items cannot have taken.
pub open spec fn laid(g: Seq<Seq<char>>, room: Room) -> bool {
    let h = room.h as int;
    let w = room.w as int;
    &&& rect(g, h, w)
    &&& edge_drawn(g, room)
    &&& inside_drawn(g, room)
    &&& no_enemy(g, h, w)
    &&& (h >= 3 && w >= 3 ==> g[1][1] == '.')
    &&& (w >= 2 ==> count_cells(g, h, w, doorway_test(h, w)) <= room.doors@.len())
    &&& room.doors@.len() > 0 ==> exists|y: int| 1 <= y < h - 1 && #[trigger] g[y][w - 1] == '|'
    &&& marks_bounded(g, room)
    &&& room.items@.len() > 0 ==> exists|y: int, x: int|
        spot_cell(h, w, y, x) && #[trigger] g[y][x] == item_mark(room.items@.last())
    &&& (h >= 3 && w >= 3 ==> count_cells(g, h, w, spot_test(h, w, true)) >= spot_total(h, w) - smaller(
        room.items@.len() as int,
        spot_total(h, w),
    ))
}

/// What every drawing of the room's grid gives, whatever chance picked:
/// an `h`-by-`w` grid walled all round, with the doorway at row 1 of the
/// left wall and, when the room has doors, at least one and at most as many
/// doorways in the right wall; floor at the starting cell (1, 1); exactly
/// `enemies` enemies; items and enemies only inside the walls, each item
/// mark on no more cells than there are items it stands for; and the last
/// item of the room on the grid.
pub open spec fn drawn(g: Seq<Seq<char>>, room: Room) -> bool {
    let h = room.h as int;
    let w = room.w as int;
    &&& rect(g, h, w)
    &&& edge_drawn(g, room)
    &&& inside_drawn(g, room)
    &&& (h >= 3 && w >= 3 ==> g[1][1] == '.')
    &&& count_cells(g, h, w, enemy_test()) == room.enemies
    &&& (w >= 2 ==> count_cells(g, h, w, doorway_test(h, w)) <= room.doors@.len())
    &&& room.doors@.len() > 0 ==> exists|y: int| 1 <= y < h - 1 && #[trigger] g[y][w - 1] == '|'
    &&& marks_bounded(g, room)
    &&& room.items@.len() > 0 ==> exists|y: int, x: int|
        spot_cell(h, w, y, x) && #[trigger] g[y][x] == item_mark(room.items@.last())
}

proof fn lemma_same_spots_row(g1: Seq<Seq<char>>, g2: Seq<Seq<char>>, h: int, w: int, y: int, n: int)
    ensures
        count_row(g1, spot_test(h, w, false), y, n) == count_row(g2, spot_test(h, w, false), y, n),
    decreases n,
{
    if n > 0 {
        lemma_same_spots_row(g1, g2, h, w, y, n - 1);
    }
}

proof fn lemma_same_spots_rows(g1: Seq<Seq<char>>, g2: Seq<Seq<char>>, h: int, w: int, m: int)
    ensures
        count_rows(g1, spot_test(h, w, false), w, m) == count_rows(g2, spot_test(h, w, false), w, m),
    decreases m,
{
    if m > 0 {
        lemma_same_spots_rows(g1, g2, h, w, m - 1);
        lemma_same_spots_row(g1, g2, h, w, m - 1, w);
    }
}

/// Which cells are spots, floor aside, hangs on the grid's size alone.
pub proof fn lemma_same_spots(g1: Seq<Seq<char>>, g2: Seq<Seq<char>>, h: int, w: int)
    ensures
        count_cells(g1, h, w, spot_test(h, w, false)) == count_cells(g2, h, w, spot_test(h, w, false)),
{
    lemma_same_spots_rows(g1, g2, h, w, h);
}

/// Whether the room can be drawn (see `fits`).
pub fn can_draw(room: &Room) -> (b: bool)
    ensures
        b == fits(*room),
{
    let h = room.h as u128;
    let w = room.w as u128;
    let items = room.items.len() as u128;
    let enemies = room.enemies as u128;
    if h < 2 || w < 1 {
        return false;
    }
    if room.doors.len() > 0 && h < 3 {
        return false;
    }
    if items > 0 || enemies > 0 {
        if h < 3 || w < 3 {
            return false;
        }
        assert(1 <= (h - 2) * (w - 2) <= u64::MAX * u64::MAX) by (nonlinear_arith)
            requires
                3 <= h <= u64::MAX,
                3 <= w <= u64::MAX,
        ;
        let total = (h - 2) * (w - 2) - 1;
        if items > 0 && total < 1 {
            return false;
        }
        if enemies > 0 {
            let taken = if items < total {
                items
            } else {
                total
            };
            if enemies + taken > total {
                return false;
            }
        }
    }
    true
}

proof fn lemma_frame_counts(h: int, w: int)
    requires
        h >= 2,
        w >= 1,
    ensures
        rect(framed(h, w), h, w),
        w >= 2 ==> count_cells(framed(h, w), h, w, doorway_test(h, w)) == 0,
        count_cells(framed(h, w), h, w, mark_test(h, w, '+')) == 0,
        count_cells(framed(h, w), h, w, mark_test(h, w, '?')) == 0,
        count_cells(framed(h, w), h, w, mark_test(h, w, '&')) == 0,
        count_cells(framed(h, w), h, w, enemy_test()) == 0,
{
    let f = framed(h, w);
    assert forall|y: int| 0 <= y < h implies (#[trigger] f[y]).len() == w by {}
    if w >= 2 {
        assert forall|y: int, x: int| 0 <= y < h && 0 <= x < w implies !doorway_test(h, w)(y, x, #[trigger] f[y][x]) by {}
        lemma_count_none(f, h, w, doorway_test(h, w));
    }
    assert forall|y: int, x: int| 0 <= y < h && 0 <= x < w implies !mark_test(h, w, '+')(y, x, #[trigger] f[y][x]) by {}
    lemma_count_none(f, h, w, mark_test(h, w, '+'));
    assert forall|y: int, x: int| 0 <= y < h && 0 <= x < w implies !mark_test(h, w, '?')(y, x, #[trigger] f[y][x]) by {}
    lemma_count_none(f, h, w, mark_test(h, w, '?'));
    assert forall|y: int, x: int| 0 <= y < h && 0 <= x < w implies !mark_test(h, w, '&')(y, x, #[trigger] f[y][x]) by {}
    lemma_count_none(f, h, w, mark_test(h, w, '&'));
    assert forall|y: int, x: int| 0 <= y < h && 0 <= x < w implies !enemy_test()(y, x, #[trigger] f[y][x]) by {}
    lemma_count_none(f, h, w, enemy_test());
}

/// Draws the empty room and cuts a doorway into the right wall at each of
/// the rows, then lays each item on the spot its pick counts to among all
/// spots, row by row (a later item may cover an earlier one).
#[verifier::rlimit(50)]
#[verifier::spinoff_prover]
pub fn lay_out(room: &Room, rows: &Vec<usize>, picks: &Vec<usize>) -> (m: Vec<Vec<char>>)
    requires
        fits(*room),
        rows_fit(*room, rows@),
        picks_fit(*room, picks@),
    ensures
        grid(m) == walls_and_items(*room, rows@, picks@),
        laid(grid(m), *room),
{
    let h = room.h;
    let w = room.w;
    let ghost hh = h as int;
    let ghost ww = w as int;
    let ghost total = spot_total(hh, ww);
    let ghost items = room.items@;
    let ghost free_test = spot_test(hh, ww, true);
    let ghost frame = framed(hh, ww);
    let mut m = blank_map(w, h);
    proof {
        lemma_frame_counts(hh, ww);
        if hh >= 3 && ww >= 3 {
            lemma_blank_spots(hh, ww, true);
        }
        assert(rows@.take(0) =~= Seq::<usize>::empty());
    }
    let ghost mut door_row: int = 0;
    let mut i: usize = 0;
    while i < rows.len()
        invariant
            fits(*room),
            h == room.h,
            w == room.w,
            hh == h,
            ww == w,
            total == spot_total(hh, ww),
            free_test == spot_test(hh, ww, true),
            frame == framed(hh, ww),
            rows_fit(*room, rows@),
            i <= rows@.len(),
            grid(m) == cut_doorways(frame, ww, rows@.take(i as int)),
            rect(grid(m), hh, ww),
            edge_drawn(grid(m), *room),
            forall|y: int, x: int| inside(hh, ww, y, x) ==> #[trigger] grid(m)[y][x] == '.',
            ww >= 2 ==> count_cells(grid(m), hh, ww, doorway_test(hh, ww)) <= i,
            hh >= 3 && ww >= 3 ==> count_cells(grid(m), hh, ww, free_test) == total,
            count_cells(grid(m), hh, ww, mark_test(hh, ww, '+')) == 0,
            count_cells(grid(m), hh, ww, mark_test(hh, ww, '?')) == 0,
            count_cells(grid(m), hh, ww, mark_test(hh, ww, '&')) == 0,
            i > 0 ==> 1 <= door_row < hh - 1 && grid(m)[door_row][ww - 1] == '|',
        decreases rows@.len() - i,
    {
        let y = rows[i];
        let ghost g = grid(m);
        proof {
            lemma_put(g, hh, ww, y as int, ww - 1, '|');
            lemma_count_put(g, hh, ww, free_test, y as int, ww - 1, '|');
            lemma_count_put(g, hh, ww, doorway_test(hh, ww), y as int, ww - 1, '|');
            lemma_count_put(g, hh, ww, mark_test(hh, ww, '+'), y as int, ww - 1, '|');
            lemma_count_put(g, hh, ww, mark_test(hh, ww, '?'), y as int, ww - 1, '|');
            lemma_count_put(g, hh, ww, mark_test(hh, ww, '&'), y as int, ww - 1, '|');
        }
        set_cell(&mut m, y, w - 1, '|');
        proof {
            door_row = y as int;
            assert(rows@.take(i + 1).drop_last() =~= rows@.take(i as int));
            let g2 = grid(m);
            assert forall|a: int, b: int|
                0 <= a < hh && 0 <= b < ww && on_edge(hh, ww, a, b) implies (#[trigger] g2[a][b]
                == framed_cell(hh, ww, a, b) || (room.doors@.len() > 0 && b == ww - 1 && 1 <= a < hh
                - 1 && g2[a][b] == '|')) by {
                if !(a == y && b == ww - 1) {
                    assert(g2[a][b] == g[a][b]);
                }
            }
            assert forall|a: int, b: int| inside(hh, ww, a, b) implies #[trigger] g2[a][b] == '.' by {
                assert(g2[a][b] == g[a][b]);
            }
        }
        i = i + 1;
    }
    proof {
        assert(rows@.take(rows@.len() as int) =~= rows@);
    }
    let ghost g_walls = grid(m);
    proof {
        assert forall|a: int, b: int| 0 <= a < hh && 0 <= b < ww implies #[trigger] g_walls[a][b] != '*' by {
            if on_edge(hh, ww, a, b) {
            } else {
            }
        }
        assert(items.take(0) =~= Seq::<Item>::empty());
        assert(picks@.take(0) =~= Seq::<usize>::empty());
        lemma_count_nonneg(g_walls, free_test, ww, hh);
    }
    let ghost mut last: (int, int) = (0, 0);
    let mut j: usize = 0;
    while j < picks.len()
        invariant
            fits(*room),
            h == room.h,
            w == room.w,
            hh == h,
            ww == w,
            total == spot_total(hh, ww),
            free_test == spot_test(hh, ww, true),
            frame == framed(hh, ww),
            items == room.items@,
            picks_fit(*room, picks@),
            j <= picks@.len(),
            grid(m) == lay_items(g_walls, hh, ww, items.take(j as int), picks@.take(j as int)),
            rect(grid(m), hh, ww),
            edge_drawn(grid(m), *room),
            inside_drawn(grid(m), *room),
            no_enemy(grid(m), hh, ww),
            hh >= 3 && ww >= 3 ==> grid(m)[1][1] == '.',
            ww >= 2 ==> count_cells(grid(m), hh, ww, doorway_test(hh, ww)) <= room.doors@.len(),
            room.doors@.len() > 0 ==> 1 <= door_row < hh - 1 && grid(m)[door_row][ww - 1] == '|',
            count_cells(grid(m), hh, ww, mark_test(hh, ww, '+')) <= count_marks(items.take(j as int), '+'),
            count_cells(grid(m), hh, ww, mark_test(hh, ww, '?')) <= count_marks(items.take(j as int), '?'),
            count_cells(grid(m), hh, ww, mark_test(hh, ww, '&')) <= count_marks(items.take(j as int), '&'),
            hh >= 3 && ww >= 3 ==> count_cells(grid(m), hh, ww, free_test) >= total - j,
            0 <= count_cells(grid(m), hh, ww, free_test),
            j > 0 ==> spot_cell(hh, ww, last.0, last.1) && grid(m)[last.0][last.1] == item_mark(items[j - 1]),
        decreases picks@.len() - j,
    {
        let ghost g = grid(m);
        proof {
            assert(g[0] == m@[0]@);
            assert(m.len() == m@.len());
            assert(m@[0].len() == m@[0]@.len());
            lemma_same_spots(g, frame, hh, ww);
            lemma_blank_spots(hh, ww, false);
        }
        let v = open_spots(&m, false);
        let k = picks[j];
        let (y, x) = v[k];
        proof {
            lemma_nth_spot(g, false, v@, k as int);
        }
        let c = item_char(&room.items[j]);
        proof {
            lemma_put(g, hh, ww, y as int, x as int, c);
            lemma_count_put(g, hh, ww, free_test, y as int, x as int, c);
            lemma_count_put(g, hh, ww, doorway_test(hh, ww), y as int, x as int, c);
            lemma_count_put(g, hh, ww, mark_test(hh, ww, '+'), y as int, x as int, c);
            lemma_count_put(g, hh, ww, mark_test(hh, ww, '?'), y as int, x as int, c);
            lemma_count_put(g, hh, ww, mark_test(hh, ww, '&'), y as int, x as int, c);
        }
        set_cell(&mut m, y, x, c);
        proof {
            lemma_count_nonneg(grid(m), free_test, ww, hh);
            last = (y as int, x as int);
            assert(items.take(j + 1).drop_last() =~= items.take(j as int));
            assert(picks@.take(j + 1).drop_last() =~= picks@.take(j as int));
            let g2 = grid(m);
            assert forall|a: int, b: int|
                0 <= a < hh && 0 <= b < ww && on_edge(hh, ww, a, b) implies (#[trigger] g2[a][b]
                == framed_cell(hh, ww, a, b) || (room.doors@.len() > 0 && b == ww - 1 && 1 <= a < hh
                - 1 && g2[a][b] == '|')) by {
                assert(g2[a][b] == g[a][b]);
            }
            assert forall|a: int, b: int| inside(hh, ww, a, b) implies (#[trigger] g2[a][b] == '.'
                || g2[a][b] == '*' || exists|q: int|
                0 <= q < room.items@.len() && g2[a][b] == item_mark(#[trigger] room.items@[q])) by {
                if a == y && b == x {
                    assert(g2[a][b] == item_mark(room.items@[j as int]));
                } else {
                    assert(g2[a][b] == g[a][b]);
                }
            }
            assert forall|a: int, b: int| 0 <= a < hh && 0 <= b < ww implies #[trigger] g2[a][b] != '*' by {
                if !(a == y && b == x) {
                    assert(g2[a][b] == g[a][b]);
                }
            }
        }
        j = j + 1;
    }
    proof {
        assert(items.take(items.len() as int) =~= items);
        assert(picks@.take(picks@.len() as int) =~= picks@);
    }
    m
}

/// Puts an enemy for each pick in turn on the spot of bare floor that the
/// pick counts to, row by row.
#[verifier::rlimit(50)]
#[verifier::spinoff_prover]
pub fn add_enemies(m: &mut Vec<Vec<char>>, room: &Room, picks: &Vec<usize>)
    requires
        fits(*room),
        laid(grid(*old(m)), *room),
        picks@.len() == room.enemies,
        forall|e: int|
            0 <= e < picks@.len() ==> #[trigger] picks@[e] + e < count_cells(
                grid(*old(m)),
                room.h as int,
                room.w as int,
                spot_test(room.h as int, room.w as int, true),
            ),
    ensures
        grid(*final(m)) == lay_enemies(grid(*old(m)), room.h as int, room.w as int, picks@),
        drawn(grid(*final(m)), *room),
{
    let ghost hh = room.h as int;
    let ghost ww = room.w as int;
    let ghost g0 = grid(*m);
    let ghost free_test = spot_test(hh, ww, true);
    let ghost free0 = count_cells(g0, hh, ww, free_test);
    let ghost door_row: int = if room.doors@.len() > 0 {
        choose|y: int| 1 <= y < hh - 1 && #[trigger] g0[y][ww - 1] == '|'
    } else {
        0
    };
    let ghost last: (int, int) = if room.items@.len() > 0 {
        choose|c: (int, int)| spot_cell(hh, ww, c.0, c.1) && #[trigger] g0[c.0][c.1] == item_mark(room.items@.last())
    } else {
        (0, 0)
    };
    proof {
        if room.items@.len() > 0 {
            let (ly, lx) = choose|y: int, x: int|
                spot_cell(hh, ww, y, x) && #[trigger] g0[y][x] == item_mark(room.items@.last());
            assert(spot_cell(hh, ww, ly, lx) && g0[(ly, lx).0][(ly, lx).1] == item_mark(room.items@.last()));
        }
        lemma_count_none(g0, hh, ww, enemy_test());
        assert(picks@.take(0) =~= Seq::<usize>::empty());
    }
    let mut e: usize = 0;
    while e < picks.len()
        invariant
            fits(*room),
            hh == room.h,
            ww == room.w,
            free_test == spot_test(hh, ww, true),
            free0 == count_cells(g0, hh, ww, free_test),
            laid(g0, *room),
            picks@.len() == room.enemies,
            forall|q: int| 0 <= q < picks@.len() ==> #[trigger] picks@[q] + q < free0,
            room.doors@.len() > 0 ==> 1 <= door_row < hh - 1 && g0[door_row][ww - 1] == '|',
            room.items@.len() > 0 ==> spot_cell(hh, ww, last.0, last.1) && g0[last.0][last.1] == item_mark(
                room.items@.last(),
            ),
            e <= picks@.len(),
            grid(*m) == lay_enemies(g0, hh, ww, picks@.take(e as int)),
            rect(grid(*m), hh, ww),
            edge_drawn(grid(*m), *room),
            inside_drawn(grid(*m), *room),
            hh >= 3 && ww >= 3 ==> grid(*m)[1][1] == '.',
            count_cells(grid(*m), hh, ww, enemy_test()) == e,
            count_cells(grid(*m), hh, ww, free_test) == free0 - e,
            ww >= 2 ==> count_cells(grid(*m), hh, ww, doorway_test(hh, ww)) == count_cells(g0, hh, ww, doorway_test(hh, ww)),
            count_cells(grid(*m), hh, ww, mark_test(hh, ww, '+')) == count_cells(g0, hh, ww, mark_test(hh, ww, '+')),
            count_cells(grid(*m), hh, ww, mark_test(hh, ww, '?')) == count_cells(g0, hh, ww, mark_test(hh, ww, '?')),
            count_cells(grid(*m), hh, ww, mark_test(hh, ww, '&')) == count_cells(g0, hh, ww, mark_test(hh, ww, '&')),
            room.doors@.len() > 0 ==> grid(*m)[door_row][ww - 1] == '|',
            room.items@.len() > 0 ==> grid(*m)[last.0][last.1] == item_mark(room.items@.last()),
        decreases picks@.len() - e,
    {
        let ghost g = grid(*m);
        proof {
            assert(g[0] == m@[0]@);
            assert(m.len() == m@.len());
            assert(m@[0].len() == m@[0]@.len());
        }
        let v = open_spots(m, true);
        let k = picks[e];
        let (y, x) = v[k];
        proof {
            lemma_nth_spot(g, true, v@, k as int);
            lemma_put(g, hh, ww, y as int, x as int, '*');
            lemma_count_put(g, hh, ww, free_test, y as int, x as int, '*');
            lemma_count_put(g, hh, ww, enemy_test(), y as int, x as int, '*');
            lemma_count_put(g, hh, ww, doorway_test(hh, ww), y as int, x as int, '*');
            lemma_count_put(g, hh, ww, mark_test(hh, ww, '+'), y as int, x as int, '*');
            lemma_count_put(g, hh, ww, mark_test(hh, ww, '?'), y as int, x as int, '*');
            lemma_count_put(g, hh, ww, mark_test(hh, ww, '&'), y as int, x as int, '*');
        }
        set_cell(m, y, x, '*');
        proof {
            assert(picks@.take(e + 1).drop_last() =~= picks@.take(e as int));
            let g2 = grid(*m);
            assert forall|a: int, b: int|
                0 <= a < hh && 0 <= b < ww && on_edge(hh, ww, a, b) implies (#[trigger] g2[a][b]
                == framed_cell(hh, ww, a, b) || (room.doors@.len() > 0 && b == ww - 1 && 1 <= a < hh
                - 1 && g2[a][b] == '|')) by {
                assert(g2[a][b] == g[a][b]);
            }
            assert forall|a: int, b: int| inside(hh, ww, a, b) implies (#[trigger] g2[a][b] == '.'
                || g2[a][b] == '*' || exists|q: int|
                0 <= q < room.items@.len() && g2[a][b] == item_mark(#[trigger] room.items@[q])) by {
                if !(a == y && b == x) {
                    assert(g2[a][b] == g[a][b]);
                }
            }
        }
        e = e + 1;
    }
    proof {
        assert(picks@.take(picks@.len() as int) =~= picks@);
    }
}

/// Draws the room's grid with the given numbers: the doorway rows, one pick
/// for each item and one for each enemy (see `drawing`).
pub fn draw_map(room: &Room, rows: &Vec<usize>, item_picks: &Vec<usize>, enemy_picks: &Vec<usize>) -> (m: Vec<Vec<char>>)
    requires
        rolls_fit(*room, rows@, item_picks@, enemy_picks@),
    ensures
        grid(m) == drawing(*room, rows@, item_picks@, enemy_picks@),
        drawn(grid(m), *room),
{
    let mut m = lay_out(room, rows, item_picks);
    add_enemies(&mut m, room, enemy_picks);
    m
}

/// Draws the room's grid with numbers left to chance: for each door a row
/// of the right wall; for each item a spot among all spots; for each enemy,
/// in turn, a spot among those of bare floor left. Every row or spot of a
/// choice is equally likely, as when cells are drawn at random until one
/// will do.
pub fn generate_map(room: &Room) -> (m: Vec<Vec<char>>)
    requires
        fits(*room),
    ensures
        drawn(grid(m), *room),
        exists|rows: Seq<usize>, item_picks: Seq<usize>, enemy_picks: Seq<usize>|
            rolls_fit(*room, rows, item_picks, enemy_picks) && grid(m) == drawing(
                *room,
                rows,
                item_picks,
                enemy_picks,
            ),
{
    let h = room.h;
    let w = room.w;
    let mut rows: Vec<usize> = Vec::new();
    let mut i: usize = 0;
    while i < room.doors.len()
        invariant
            fits(*room),
            h == room.h,
            i <= room.doors@.len(),
            rows@.len() == i,
            forall|q: int| 0 <= q < i ==> 1 <= #[trigger] rows@[q] < h - 1,
        decreases room.doors@.len() - i,
    {
        rows.push(roll(1, h - 1));
        i = i + 1;
    }
    let mut item_picks: Vec<usize> = Vec::new();
    if room.items.len() > 0 {
        let blank = blank_map(w, h);
        proof {
            lemma_frame_counts(h as int, w as int);
            lemma_blank_spots(h as int, w as int, false);
            assert(grid(blank)[0] == blank@[0]@);
        }
        let spots = open_spots(&blank, false);
        let mut j: usize = 0;
        while j < room.items.len()
            invariant
                spots@.len() == spot_total(room.h as int, room.w as int),
                spots@.len() >= 1,
                j <= room.items@.len(),
                item_picks@.len() == j,
                forall|q: int| 0 <= q < j ==> #[trigger] item_picks@[q] < spots@.len(),
            decreases room.items@.len() - j,
        {
            item_picks.push(roll(0, spots.len()));
            j = j + 1;
        }
    }
    let mut m = lay_out(room, &rows, &item_picks);
    let ghost g = grid(m);
    proof {
        assert(g[0] == m@[0]@);
    }
    let free = open_spots(&m, true).len();
    let mut enemy_picks: Vec<usize> = Vec::new();
    let mut e: usize = 0;
    while e < room.enemies
        invariant
            e <= room.enemies,
            enemy_picks@.len() == e,
            room.enemies <= free,
            forall|q: int| 0 <= q < e ==> #[trigger] enemy_picks@[q] + q < free,
        decreases room.enemies - e,
    {
        enemy_picks.push(roll(0, free - e));
        e = e + 1;
    }
    add_enemies(&mut m, room, &enemy_picks);
    proof {
        assert(rolls_fit(*room, rows@, item_picks@, enemy_picks@));
    }
    m
}
} // verus!
