//! The immutable instruction grid: a rectangle of symbols, built once
//! from program text, with total bounds-checked lookup defaulting to
//! the void symbol.

use vstd::prelude::*;

verus! {

/// The void symbol: read outside the grid and on every cell the
/// program text left uncovered; a token on it is removed.
pub const VOID: char = '.';

/// Positions of `c` in row `row` (at row index `y`), left of column
/// `j`, in column order.
pub open spec fn row_hits_upto(row: Seq<char>, c: char, y: int, j: int) -> Seq<(usize, usize)>
    decreases j,
{
    if j <= 0 || j > row.len() {
        Seq::empty()
    } else {
        let pre = row_hits_upto(row, c, y, j - 1);
        if row[j - 1] == c {
            pre.push(((j - 1) as usize, y as usize))
        } else {
            pre
        }
    }
}

/// Positions of `c` in the first `i` rows of `g`, in row-major order.
pub open spec fn hits_upto(g: Seq<Seq<char>>, c: char, i: int) -> Seq<(usize, usize)>
    decreases i,
{
    if i <= 0 || i > g.len() {
        Seq::empty()
    } else {
        hits_upto(g, c, i - 1) + row_hits_upto(g[i - 1], c, i - 1, g[i - 1].len() as int)
    }
}

/// Positions of `c` in `g`, in row-major order.
pub open spec fn char_positions(g: Seq<Seq<char>>, c: char) -> Seq<(usize, usize)> {
    hits_upto(g, c, g.len() as int)
}

/// All positions of symbol `c` in the table, as (x, y) pairs in
/// row-major order.
pub fn pos_of_chars(grid: &Vec<Vec<char>>, c: char) -> (r: Vec<(usize, usize)>)
    ensures
        r@ == char_positions(grid.deep_view(), c),
{
    let ghost gv = grid.deep_view();
    let mut r: Vec<(usize, usize)> = Vec::new();
    let mut i: usize = 0;
    while i < grid.len()
        invariant
            0 <= i <= grid.len(),
            gv == grid.deep_view(),
            gv.len() == grid.len(),
            forall|k: int| 0 <= k < gv.len() ==> gv[k] == grid@[k]@,
            r@ == hits_upto(gv, c, i as int),
        decreases grid.len() - i,
    {
        let row = &grid[i];
        let mut j: usize = 0;
        while j < row.len()
            invariant
                0 <= j <= row.len(),
                0 <= i < grid.len(),
                gv == grid.deep_view(),
                gv.len() == grid.len(),
                forall|k: int| 0 <= k < gv.len() ==> gv[k] == grid@[k]@,
                row@ == gv[i as int],
                r@ == hits_upto(gv, c, i as int) + row_hits_upto(gv[i as int], c, i as int, j as int),
            decreases row.len() - j,
        {
            if row[j] == c {
                r.push((j, i));
                proof {
                    assert(hits_upto(gv, c, i as int) + row_hits_upto(
                        gv[i as int],
                        c,
                        i as int,
                        j + 1,
                    ) =~= (hits_upto(gv, c, i as int) + row_hits_upto(
                        gv[i as int],
                        c,
                        i as int,
                        j as int,
                    )).push((j, i)));
                }
            }
            j = j + 1;
        }
        proof {
            assert(hits_upto(gv, c, i as int) + row_hits_upto(
                gv[i as int],
                c,
                i as int,
                gv[i as int].len() as int,
            ) =~= hits_upto(gv, c, i + 1));
        }
        i = i + 1;
    }
    r
}

/// Character the program text places at (x, y): the character of line
/// `y` at column `x` where one exists, the void symbol elsewhere.
pub open spec fn line_char(lines: Seq<Seq<char>>, x: int, y: int) -> char {
    if 0 <= y < lines.len() && 0 <= x < lines[y].len() {
        lines[y][x]
    } else {
        VOID
    }
}

/// A fixed-size rectangle of instruction symbols.
pub struct Grid {
    pub width: usize,
    pub height: usize,
    pub rows: Vec<Vec<char>>,
}

impl Grid {
    /// Shape invariant: positive dimensions, exactly `height` rows of
    /// exactly `width` symbols.
    pub open spec fn wf(self) -> bool {
        &&& self.width > 0
        &&& self.height > 0
        &&& self.rows@.len() == self.height
        &&& forall|i: int| 0 <= i < self.height ==> self.rows@[i]@.len() == self.width
    }

    /// Symbol at (x, y), the void symbol outside the bounds.
    pub open spec fn sym(self, x: int, y: int) -> char {
        if 0 <= x < self.width && 0 <= y < self.height {
            self.rows@[y]@[x]
        } else {
            VOID
        }
    }

    /// Lay the program lines onto a `width` by `height` grid: cell
    /// (x, y) holds the character of line `y` at column `x` where the
    /// text covers it and the void symbol everywhere else.
    pub fn new(width: usize, height: usize, lines: &Vec<Vec<char>>) -> (r: Grid)
        requires
            width > 0,
            height > 0,
        ensures
            r.wf(),
            r.width == width,
            r.height == height,
            forall|x: int, y: int|
                r.sym(x, y) == if 0 <= x < width && 0 <= y < height {
                    line_char(lines.deep_view(), x, y)
                } else {
                    VOID
                },
    {
        let ghost lv = lines.deep_view();
        let mut rows: Vec<Vec<char>> = Vec::new();
        let mut y: usize = 0;
        while y < height
            invariant
                0 <= y <= height,
                lv == lines.deep_view(),
                lv.len() == lines.len(),
                forall|k: int| 0 <= k < lv.len() ==> lv[k] == lines@[k]@,
                rows@.len() == y,
                forall|yy: int, xx: int|
                    0 <= yy < y && 0 <= xx < width ==> #[trigger] rows@[yy]@[xx] == line_char(
                        lv,
                        xx,
                        yy,
                    ),
                forall|yy: int| 0 <= yy < y ==> rows@[yy]@.len() == width,
            decreases height - y,
        {
            let mut row: Vec<char> = Vec::new();
            let mut x: usize = 0;
            while x < width
                invariant
                    0 <= x <= width,
                    0 <= y < height,
                    lv == lines.deep_view(),
                    lv.len() == lines.len(),
                    forall|k: int| 0 <= k < lv.len() ==> lv[k] == lines@[k]@,
                    row@.len() == x,
                    forall|xx: int| 0 <= xx < x ==> #[trigger] row@[xx] == line_char(lv, xx, y as int),
                decreases width - x,
            {
                let ch: char = if y < lines.len() && x < lines[y].len() {
                    lines[y][x]
                } else {
                    VOID
                };
                row.push(ch);
                x = x + 1;
            }
            rows.push(row);
            y = y + 1;
        }
        Grid { width, height, rows }
    }

    /// Symbol under a token at (x, y); total, the void symbol outside
    /// the grid.
    pub fn symbol_at(&self, x: usize, y: usize) -> (r: char)
        requires
            self.wf(),
        ensures
            r == self.sym(x as int, y as int),
    {
        if x < self.width && y < self.height {
            self.rows[y][x]
        } else {
            VOID
        }
    }

    /// All positions of symbol `c`, as (x, y) pairs in row-major order;
    /// used at initialization to find the input cells.
    pub fn positions_of(&self, c: char) -> (r: Vec<(usize, usize)>)
        ensures
            r@ == char_positions(self.rows.deep_view(), c),
    {
        pos_of_chars(&self.rows, c)
    }
}

} // verus!
