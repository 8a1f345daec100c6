//! Tokens ("cells") and their directions of travel.

use crate::value::Value;
use vstd::prelude::*;

verus! {

/// Direction of travel of a token; `Neutral` means it stands still.
#[derive(Clone, Copy, Debug, PartialEq, Eq, Structural)]
pub enum Dir {
    Neutral,
    Up,
    Down,
    Left,
    Right,
}

/// Unit displacement of a direction, as (dx, dy): up and left are the
/// negative senses.
pub open spec fn delta_spec(d: Dir) -> (i8, i8) {
    match d {
        Dir::Neutral => (0i8, 0i8),
        Dir::Up => (0i8, -1i8),
        Dir::Down => (0i8, 1i8),
        Dir::Left => (-1i8, 0i8),
        Dir::Right => (1i8, 0i8),
    }
}

/// Whether a direction is vertical (up or down).
pub open spec fn is_vertical(d: Dir) -> bool {
    d == Dir::Up || d == Dir::Down
}

/// Whether a direction is horizontal (left or right).
pub open spec fn is_horizontal(d: Dir) -> bool {
    d == Dir::Left || d == Dir::Right
}

impl Dir {
    /// Unit displacement of this direction, as (dx, dy).
    pub fn delta(&self) -> (r: (i8, i8))
        ensures
            r == delta_spec(*self),
    {
        match self {
            Dir::Neutral => (0, 0),
            Dir::Up => (0, -1),
            Dir::Down => (0, 1),
            Dir::Left => (-1, 0),
            Dir::Right => (1, 0),
        }
    }
}

/// A mobile token: position, value, direction, whether movement is
/// suppressed this tick, and whether it is marked for removal.
#[derive(Clone, Copy, Debug)]
pub struct Cell {
    pub pos: (usize, usize),
    pub val: Value,
    pub dir: Dir,
    pub frozen: bool,
    pub ignore: bool,
}

impl Cell {
    /// A fresh live token: not frozen, not marked for removal.
    pub fn new(pos: (usize, usize), val: Value, dir: Dir) -> (r: Self)
        ensures
            r == (Cell { pos, val, dir, frozen: false, ignore: false }),
    {
        Self { pos, val, dir, frozen: false, ignore: false }
    }
}

/// One coordinate stepped by a unit displacement, wrapping around the
/// address space; a wrapped coordinate lies outside every grid and the
/// token on it reads the void symbol.
pub open spec fn step_coord(x: usize, d: i8) -> usize {
    if d == 0 {
        x
    } else if d > 0 {
        if x == usize::MAX {
            0
        } else {
            (x + 1) as usize
        }
    } else {
        if x == 0 {
            usize::MAX
        } else {
            (x - 1) as usize
        }
    }
}

/// Place a token at the given position, touching nothing else.
pub fn move_cell(cell: &mut Cell, to: (usize, usize))
    ensures
        *final(cell) == (Cell { pos: to, ..*old(cell) }),
{
    cell.pos = to;
}

/// Displace a token by one unit step on each axis, wrapping at the
/// edges of the address space.
pub fn shift(cell: &mut Cell, dir: (i8, i8))
    requires
        -1 <= dir.0 <= 1,
        -1 <= dir.1 <= 1,
    ensures
        *final(cell) == (Cell {
            pos: (step_coord(old(cell).pos.0, dir.0), step_coord(old(cell).pos.1, dir.1)),
            ..*old(cell)
        }),
{
    let x = step_one(cell.pos.0, dir.0);
    let y = step_one(cell.pos.1, dir.1);
    cell.pos = (x, y);
}

/// One coordinate stepped by a unit displacement, wrapping.
fn step_one(x: usize, d: i8) -> (r: usize)
    requires
        -1 <= d <= 1,
    ensures
        r == step_coord(x, d),
{
    if d == 0 {
        x
    } else if d > 0 {
        if x == usize::MAX {
            0
        } else {
            x + 1
        }
    } else {
        if x == 0 {
            usize::MAX
        } else {
            x - 1
        }
    }
}

/// Direction a conditional-turn instruction selects: a vertically
/// moving token turns right when the condition holds and left when it
/// does not; a horizontally moving one turns down, respectively up; a
/// neutral token is unaffected.
pub open spec fn cond_dir(d: Dir, cond: bool) -> Dir {
    if is_vertical(d) {
        if cond {
            Dir::Right
        } else {
            Dir::Left
        }
    } else if is_horizontal(d) {
        if cond {
            Dir::Down
        } else {
            Dir::Up
        }
    } else {
        d
    }
}

/// Turn a token according to the conditional-turn rule.
pub fn conditional(cell: &mut Cell, cond: bool)
    ensures
        *final(cell) == (Cell { dir: cond_dir(old(cell).dir, cond), ..*old(cell) }),
{
    match cell.dir {
        Dir::Up | Dir::Down => {
            if cond {
                cell.dir = Dir::Right;
            } else {
                cell.dir = Dir::Left;
            }
        }
        Dir::Left | Dir::Right => {
            if cond {
                cell.dir = Dir::Down;
            } else {
                cell.dir = Dir::Up;
            }
        }
        _ => {}
    }
}

} // verus!
