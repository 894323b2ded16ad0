//! Rectangular grids of characters: their model, writing one cell, and
//! counting the cells that pass a test.
use vstd::prelude::*;

verus! {

/// The characters of a grid, row by row.
pub open spec fn grid(m: Vec<Vec<char>>) -> Seq<Seq<char>> {
    m@.map_values(|r: Vec<char>| r@)
}

/// `g` has `h` rows of `w` characters each.
pub open spec fn rect(g: Seq<Seq<char>>, h: int, w: int) -> bool {
    &&& g.len() == h
    &&& forall|y: int| 0 <= y < h ==> (#[trigger] g[y]).len() == w
}

/// `g` with the cell in row `y`, column `x` replaced by `c`.
pub open spec fn put(g: Seq<Seq<char>>, y: int, x: int, c: char) -> Seq<Seq<char>> {
    g.update(y, g[y].update(x, c))
}

/// 1 when the cell passes the test, else 0.
pub open spec fn hit(p: spec_fn(int, int, char) -> bool, y: int, x: int, c: char) -> int {
    if p(y, x, c) {
        1
    } else {
        0
    }
}

/// How many of the first `n` cells of row `y` pass the test.
pub open spec fn count_row(g: Seq<Seq<char>>, p: spec_fn(int, int, char) -> bool, y: int, n: int) -> int
    decreases n,
{
    if n <= 0 {
        0
    } else {
        count_row(g, p, y, n - 1) + hit(p, y, n - 1, g[y][n - 1])
    }
}

/// How many cells of the first `m` rows, `w` cells each, pass the test.
pub open spec fn count_rows(g: Seq<Seq<char>>, p: spec_fn(int, int, char) -> bool, w: int, m: int) -> int
    decreases m,
{
    if m <= 0 {
        0
    } else {
        count_rows(g, p, w, m - 1) + count_row(g, p, m - 1, w)
    }
}

/// How many cells of the `h`-by-`w` grid pass the test.
pub open spec fn count_cells(g: Seq<Seq<char>>, h: int, w: int, p: spec_fn(int, int, char) -> bool) -> int {
    count_rows(g, p, w, h)
}

/// Writes `c` into row `y`, column `x`.
pub fn set_cell(m: &mut Vec<Vec<char>>, y: usize, x: usize, c: char)
    requires
        y < old(m)@.len(),
        x < old(m)@[y as int]@.len(),
    ensures
        grid(*final(m)) == put(grid(*old(m)), y as int, x as int, c),
{
    let mut row: Vec<char> = Vec::new();
    m.set_and_swap(y, &mut row);
    row.set(x, c);
    m.set_and_swap(y, &mut row);
    assert(grid(*m) =~= put(grid(*old(m)), y as int, x as int, c));
}

proof fn lemma_count_row_put(
    g: Seq<Seq<char>>,
    p: spec_fn(int, int, char) -> bool,
    h: int,
    w: int,
    y0: int,
    x0: int,
    c: char,
    y: int,
    n: int,
)
    requires
        rect(g, h, w),
        0 <= y0 < h,
        0 <= x0 < w,
        0 <= y < h,
        0 <= n <= w,
    ensures
        count_row(put(g, y0, x0, c), p, y, n) == count_row(g, p, y, n) + if y == y0 && x0 < n {
            hit(p, y0, x0, c) - hit(p, y0, x0, g[y0][x0])
        } else {
            0
        },
    decreases n,
{
    if n > 0 {
        lemma_count_row_put(g, p, h, w, y0, x0, c, y, n - 1);
    }
}

proof fn lemma_count_rows_put(
    g: Seq<Seq<char>>,
    p: spec_fn(int, int, char) -> bool,
    h: int,
    w: int,
    y0: int,
    x0: int,
    c: char,
    m: int,
)
    requires
        rect(g, h, w),
        0 <= y0 < h,
        0 <= x0 < w,
        0 <= m <= h,
    ensures
        count_rows(put(g, y0, x0, c), p, w, m) == count_rows(g, p, w, m) + if y0 < m {
            hit(p, y0, x0, c) - hit(p, y0, x0, g[y0][x0])
        } else {
            0
        },
    decreases m,
{
    if m > 0 {
        lemma_count_rows_put(g, p, h, w, y0, x0, c, m - 1);
        lemma_count_row_put(g, p, h, w, y0, x0, c, m - 1, w);
    }
}

/// Writing one cell changes a count only by what that cell's test gives
/// before and after.
pub proof fn lemma_count_put(
    g: Seq<Seq<char>>,
    h: int,
    w: int,
    p: spec_fn(int, int, char) -> bool,
    y0: int,
    x0: int,
    c: char,
)
    requires
        rect(g, h, w),
        0 <= y0 < h,
        0 <= x0 < w,
    ensures
        rect(put(g, y0, x0, c), h, w),
        count_cells(put(g, y0, x0, c), h, w, p) == count_cells(g, h, w, p) + hit(p, y0, x0, c)
            - hit(p, y0, x0, g[y0][x0]),
{
    lemma_count_rows_put(g, p, h, w, y0, x0, c, h);
    lemma_put_rect(g, h, w, y0, x0, c);
}

/// Writing one cell keeps the grid's shape.
pub proof fn lemma_put_rect(g: Seq<Seq<char>>, h: int, w: int, y0: int, x0: int, c: char)
    requires
        rect(g, h, w),
        0 <= y0 < h,
        0 <= x0 < w,
    ensures
        rect(put(g, y0, x0, c), h, w),
{
    let g2 = put(g, y0, x0, c);
    assert forall|y: int| 0 <= y < h implies (#[trigger] g2[y]).len() == w by {
        assert(g[y].len() == w);
    }
}

proof fn lemma_count_row_none(g: Seq<Seq<char>>, p: spec_fn(int, int, char) -> bool, y: int, n: int)
    requires
        forall|x: int| 0 <= x < n ==> !p(y, x, #[trigger] g[y][x]),
    ensures
        count_row(g, p, y, n) == 0,
    decreases n,
{
    if n > 0 {
        lemma_count_row_none(g, p, y, n - 1);
    }
}

proof fn lemma_count_rows_none(g: Seq<Seq<char>>, p: spec_fn(int, int, char) -> bool, w: int, m: int)
    requires
        forall|y: int, x: int| 0 <= y < m && 0 <= x < w ==> !p(y, x, #[trigger] g[y][x]),
    ensures
        count_rows(g, p, w, m) == 0,
    decreases m,
{
    if m > 0 {
        lemma_count_rows_none(g, p, w, m - 1);
        lemma_count_row_none(g, p, m - 1, w);
    }
}

/// A grid in which no cell passes the test counts none.
pub proof fn lemma_count_none(g: Seq<Seq<char>>, h: int, w: int, p: spec_fn(int, int, char) -> bool)
    requires
        forall|y: int, x: int| 0 <= y < h && 0 <= x < w ==> !p(y, x, #[trigger] g[y][x]),
    ensures
        count_cells(g, h, w, p) == 0,
{
    lemma_count_rows_none(g, p, w, h);
}

proof fn lemma_count_row_bounds(g: Seq<Seq<char>>, p: spec_fn(int, int, char) -> bool, y: int, n: int)
    ensures
        0 <= count_row(g, p, y, n),
        n >= 0 ==> count_row(g, p, y, n) <= n,
    decreases n,
{
    if n > 0 {
        lemma_count_row_bounds(g, p, y, n - 1);
    }
}

/// Counts are never negative.
pub proof fn lemma_count_nonneg(g: Seq<Seq<char>>, p: spec_fn(int, int, char) -> bool, w: int, m: int)
    ensures
        0 <= count_rows(g, p, w, m),
    decreases m,
{
    if m > 0 {
        lemma_count_nonneg(g, p, w, m - 1);
        lemma_count_row_bounds(g, p, m - 1, w);
    }
}

/// Writing one cell keeps the grid's shape, puts the character there and
/// leaves every other cell as it was.
pub proof fn lemma_put(g: Seq<Seq<char>>, h: int, w: int, y0: int, x0: int, c: char)
    requires
        rect(g, h, w),
        0 <= y0 < h,
        0 <= x0 < w,
    ensures
        rect(put(g, y0, x0, c), h, w),
        put(g, y0, x0, c)[y0][x0] == c,
        forall|y: int, x: int|
            0 <= y < h && 0 <= x < w && !(y == y0 && x == x0) ==> #[trigger] put(g, y0, x0, c)[y][x]
                == g[y][x],
{
    lemma_put_rect(g, h, w, y0, x0, c);
    assert forall|y: int, x: int|
        0 <= y < h && 0 <= x < w && !(y == y0 && x == x0) implies #[trigger] put(g, y0, x0, c)[y][x]
        == g[y][x] by {
        assert(g[y].len() == w);
    }
}

} // verus!
