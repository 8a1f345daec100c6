//! The simulation engine: per-token instruction effects, the
//! collision pass, movement, and the tick loop with its iteration
//! budget.

use crate::cell::{cond_dir, conditional, delta_spec, is_horizontal, is_vertical, shift, step_coord, Cell, Dir};
use crate::grid::{char_positions, Grid, VOID};
use crate::value::{
    bang_spec, digit_char_spec, ceil_spec, clamp01_spec, clip, floor_spec, fract_spec, half_spec, is_even_spec,
    val_of_int, Value, SCALE,
};
use vstd::pervasive::VecAdditionalExecFns;
use vstd::prelude::*;

verus! {

/// Reflection of a direction by the bounce instruction: up and left
/// swap, down and right swap, neutral is unchanged.
pub open spec fn reflect_dir(d: Dir) -> Dir {
    match d {
        Dir::Up => Dir::Left,
        Dir::Down => Dir::Right,
        Dir::Left => Dir::Up,
        Dir::Right => Dir::Down,
        Dir::Neutral => Dir::Neutral,
    }
}

/// Result of applying one instruction effect to one token: the
/// updated token (removal shows as its `ignore` mark), a companion
/// token to spawn, and a value emitted to the output stream.
pub struct EffectOut {
    pub cell: Cell,
    pub spawn: Option<Cell>,
    pub output: Option<Value>,
}

/// A token passed through unchanged.
pub open spec fn no_effect(c: Cell) -> EffectOut {
    EffectOut { cell: c, spawn: None, output: None }
}

/// A companion token spawned at the same position with the same value.
pub open spec fn companion(c: Cell, d: Dir) -> Cell {
    Cell { pos: c.pos, val: c.val, dir: d, frozen: false, ignore: false }
}

/// The instruction effect table: what the symbol under a token does to
/// it.  `inp` is the line of input consumed when the symbol is the
/// poll instruction and is ignored otherwise.
#[verifier::opaque]
pub open spec fn spec_effect(sym: char, c: Cell, inp: Option<Value>) -> EffectOut {
    if sym == 'o' {
        EffectOut { cell: Cell { ignore: true, ..c }, spawn: None, output: Some(c.val) }
    } else if sym == 'e' {
        EffectOut {
            cell: Cell {
                dir: if is_even_spec(c.val.as_int()) {
                    Dir::Right
                } else {
                    Dir::Left
                },
                ..c
            },
            spawn: None,
            output: None,
        }
    } else if sym == '>' {
        EffectOut { cell: Cell { dir: Dir::Right, ..c }, spawn: None, output: None }
    } else if sym == '<' {
        EffectOut { cell: Cell { dir: Dir::Left, ..c }, spawn: None, output: None }
    } else if sym == '^' {
        EffectOut { cell: Cell { dir: Dir::Up, ..c }, spawn: None, output: None }
    } else if sym == 'v' {
        EffectOut { cell: Cell { dir: Dir::Down, ..c }, spawn: None, output: None }
    } else if sym == 's' {
        EffectOut { cell: Cell { frozen: !c.frozen, ..c }, spawn: None, output: None }
    } else if sym == VOID {
        EffectOut { cell: Cell { ignore: true, ..c }, spawn: None, output: None }
    } else if sym == '+' {
        EffectOut {
            cell: Cell { val: val_of_int(clip(c.val.as_int() + SCALE as int)), ..c },
            spawn: None,
            output: None,
        }
    } else if sym == '-' {
        EffectOut {
            cell: Cell { val: val_of_int(clip(c.val.as_int() - SCALE as int)), ..c },
            spawn: None,
            output: None,
        }
    } else if sym == '*' {
        EffectOut {
            cell: Cell { val: val_of_int(clip(2 * c.val.as_int())), ..c },
            spawn: None,
            output: None,
        }
    } else if sym == '/' {
        EffectOut {
            cell: Cell { val: val_of_int(half_spec(c.val.as_int())), ..c },
            spawn: None,
            output: None,
        }
    } else if sym == '\\' {
        EffectOut { cell: Cell { dir: reflect_dir(c.dir), ..c }, spawn: None, output: None }
    } else if sym == '!' {
        EffectOut {
            cell: Cell { val: val_of_int(bang_spec(c.val.as_int())), ..c },
            spawn: None,
            output: None,
        }
    } else if sym == '_' {
        EffectOut {
            cell: Cell { dir: cond_dir(c.dir, c.val.as_int() < 0), ..c },
            spawn: None,
            output: None,
        }
    } else if sym == 'z' {
        EffectOut {
            cell: Cell { dir: cond_dir(c.dir, c.val.as_int() == 0), ..c },
            spawn: None,
            output: None,
        }
    } else if sym == 'n' {
        EffectOut {
            cell: Cell { val: val_of_int(clamp01_spec(c.val.as_int())), ..c },
            spawn: None,
            output: None,
        }
    } else if sym == 'c' {
        EffectOut {
            cell: Cell { val: val_of_int(clip(ceil_spec(c.val.as_int()))), ..c },
            spawn: None,
            output: None,
        }
    } else if sym == 'f' {
        EffectOut {
            cell: Cell { val: val_of_int(clip(floor_spec(c.val.as_int()))), ..c },
            spawn: None,
            output: None,
        }
    } else if sym == '%' {
        EffectOut {
            cell: Cell { val: val_of_int(fract_spec(c.val.as_int())), ..c },
            spawn: None,
            output: None,
        }
    } else if sym == '?' {
        EffectOut { cell: Cell { val: inp.unwrap(), ..c }, spawn: None, output: None }
    } else if sym == 'p' {
        if is_vertical(c.dir) {
            EffectOut { cell: c, spawn: Some(companion(c, Dir::Right)), output: None }
        } else {
            no_effect(c)
        }
    } else if sym == 'q' {
        if is_vertical(c.dir) {
            EffectOut { cell: c, spawn: Some(companion(c, Dir::Left)), output: None }
        } else {
            no_effect(c)
        }
    } else if sym == 'w' {
        if is_horizontal(c.dir) {
            EffectOut { cell: c, spawn: Some(companion(c, Dir::Down)), output: None }
        } else {
            no_effect(c)
        }
    } else if sym == 'm' {
        if is_horizontal(c.dir) {
            EffectOut { cell: c, spawn: Some(companion(c, Dir::Up)), output: None }
        } else {
            no_effect(c)
        }
    } else if sym == '|' {
        if is_vertical(c.dir) {
            EffectOut {
                cell: Cell { dir: Dir::Left, ..c },
                spawn: Some(companion(c, Dir::Right)),
                output: None,
            }
        } else if c.dir == Dir::Left {
            EffectOut {
                cell: Cell { pos: (step_coord(c.pos.0, -1i8), c.pos.1), ..c },
                spawn: None,
                output: None,
            }
        } else if c.dir == Dir::Right {
            EffectOut {
                cell: Cell { pos: (step_coord(c.pos.0, 1i8), c.pos.1), ..c },
                spawn: None,
                output: None,
            }
        } else {
            no_effect(c)
        }
    } else if sym == '=' {
        if is_horizontal(c.dir) {
            EffectOut {
                cell: Cell { dir: Dir::Up, ..c },
                spawn: Some(companion(c, Dir::Down)),
                output: None,
            }
        } else if c.dir == Dir::Up {
            EffectOut {
                cell: Cell { pos: (c.pos.0, step_coord(c.pos.1, -1i8)), ..c },
                spawn: None,
                output: None,
            }
        } else if c.dir == Dir::Down {
            EffectOut {
                cell: Cell { pos: (c.pos.0, step_coord(c.pos.1, 1i8)), ..c },
                spawn: None,
                output: None,
            }
        } else {
            no_effect(c)
        }
    } else {
        no_effect(c)
    }
}

/// Apply the instruction effect of `sym` to one token.
pub fn effect_for(sym: char, cell: Cell, inp: Option<Value>) -> (r: EffectOut)
    requires
        cell.val.wf(),
        sym == '?' ==> inp.is_some() && inp.unwrap().wf(),
    ensures
        r == spec_effect(sym, cell, inp),
        r.cell.val.wf(),
        r.spawn.is_some() ==> r.spawn.unwrap().val.wf(),
        r.output.is_some() ==> r.output.unwrap().wf(),
        r.spawn.is_some() ==> !r.spawn.unwrap().ignore,
{
    proof {
        reveal(spec_effect);
    }
    if sym == 'o' {
        EffectOut { cell: Cell { ignore: true, ..cell }, spawn: None, output: Some(cell.val) }
    } else if sym == 'e' {
        let d = if cell.val.is_even_int() {
            Dir::Right
        } else {
            Dir::Left
        };
        EffectOut { cell: Cell { dir: d, ..cell }, spawn: None, output: None }
    } else if sym == '>' {
        EffectOut { cell: Cell { dir: Dir::Right, ..cell }, spawn: None, output: None }
    } else if sym == '<' {
        EffectOut { cell: Cell { dir: Dir::Left, ..cell }, spawn: None, output: None }
    } else if sym == '^' {
        EffectOut { cell: Cell { dir: Dir::Up, ..cell }, spawn: None, output: None }
    } else if sym == 'v' {
        EffectOut { cell: Cell { dir: Dir::Down, ..cell }, spawn: None, output: None }
    } else if sym == 's' {
        EffectOut { cell: Cell { frozen: !cell.frozen, ..cell }, spawn: None, output: None }
    } else if sym == VOID {
        EffectOut { cell: Cell { ignore: true, ..cell }, spawn: None, output: None }
    } else if sym == '+' {
        EffectOut { cell: Cell { val: cell.val.inc(), ..cell }, spawn: None, output: None }
    } else if sym == '-' {
        EffectOut { cell: Cell { val: cell.val.dec(), ..cell }, spawn: None, output: None }
    } else if sym == '*' {
        EffectOut { cell: Cell { val: cell.val.dbl(), ..cell }, spawn: None, output: None }
    } else if sym == '/' {
        EffectOut { cell: Cell { val: cell.val.halve(), ..cell }, spawn: None, output: None }
    } else if sym == '\\' {
        let d = match cell.dir {
            Dir::Up => Dir::Left,
            Dir::Down => Dir::Right,
            Dir::Left => Dir::Up,
            Dir::Right => Dir::Down,
            Dir::Neutral => Dir::Neutral,
        };
        EffectOut { cell: Cell { dir: d, ..cell }, spawn: None, output: None }
    } else if sym == '!' {
        EffectOut { cell: Cell { val: cell.val.bang(), ..cell }, spawn: None, output: None }
    } else if sym == '_' {
        let mut c2 = cell;
        let neg = cell.val.is_negative();
        conditional(&mut c2, neg);
        EffectOut { cell: c2, spawn: None, output: None }
    } else if sym == 'z' {
        let mut c2 = cell;
        let z = cell.val.is_zero();
        conditional(&mut c2, z);
        EffectOut { cell: c2, spawn: None, output: None }
    } else if sym == 'n' {
        EffectOut { cell: Cell { val: cell.val.clamp01(), ..cell }, spawn: None, output: None }
    } else if sym == 'c' {
        EffectOut { cell: Cell { val: cell.val.ceil_val(), ..cell }, spawn: None, output: None }
    } else if sym == 'f' {
        EffectOut { cell: Cell { val: cell.val.floor_val(), ..cell }, spawn: None, output: None }
    } else if sym == '%' {
        EffectOut { cell: Cell { val: cell.val.fract_val(), ..cell }, spawn: None, output: None }
    } else if sym == '?' {
        EffectOut { cell: Cell { val: inp.unwrap(), ..cell }, spawn: None, output: None }
    } else if sym == 'p' {
        if cell.dir == Dir::Up || cell.dir == Dir::Down {
            let sp = Cell::new(cell.pos, cell.val, Dir::Right);
            EffectOut { cell, spawn: Some(sp), output: None }
        } else {
            EffectOut { cell, spawn: None, output: None }
        }
    } else if sym == 'q' {
        if cell.dir == Dir::Up || cell.dir == Dir::Down {
            let sp = Cell::new(cell.pos, cell.val, Dir::Left);
            EffectOut { cell, spawn: Some(sp), output: None }
        } else {
            EffectOut { cell, spawn: None, output: None }
        }
    } else if sym == 'w' {
        if cell.dir == Dir::Left || cell.dir == Dir::Right {
            let sp = Cell::new(cell.pos, cell.val, Dir::Down);
            EffectOut { cell, spawn: Some(sp), output: None }
        } else {
            EffectOut { cell, spawn: None, output: None }
        }
    } else if sym == 'm' {
        if cell.dir == Dir::Left || cell.dir == Dir::Right {
            let sp = Cell::new(cell.pos, cell.val, Dir::Up);
            EffectOut { cell, spawn: Some(sp), output: None }
        } else {
            EffectOut { cell, spawn: None, output: None }
        }
    } else if sym == '|' {
        if cell.dir == Dir::Up || cell.dir == Dir::Down {
            let sp = Cell::new(cell.pos, cell.val, Dir::Right);
            EffectOut { cell: Cell { dir: Dir::Left, ..cell }, spawn: Some(sp), output: None }
        } else if cell.dir == Dir::Left {
            let mut c2 = cell;
            shift(&mut c2, (-1, 0));
            EffectOut { cell: c2, spawn: None, output: None }
        } else if cell.dir == Dir::Right {
            let mut c2 = cell;
            shift(&mut c2, (1, 0));
            EffectOut { cell: c2, spawn: None, output: None }
        } else {
            EffectOut { cell, spawn: None, output: None }
        }
    } else if sym == '=' {
        if cell.dir == Dir::Left || cell.dir == Dir::Right {
            let sp = Cell::new(cell.pos, cell.val, Dir::Down);
            EffectOut { cell: Cell { dir: Dir::Up, ..cell }, spawn: Some(sp), output: None }
        } else if cell.dir == Dir::Up {
            let mut c2 = cell;
            shift(&mut c2, (0, -1));
            EffectOut { cell: c2, spawn: None, output: None }
        } else if cell.dir == Dir::Down {
            let mut c2 = cell;
            shift(&mut c2, (0, 1));
            EffectOut { cell: c2, spawn: None, output: None }
        } else {
            EffectOut { cell, spawn: None, output: None }
        }
    } else {
        EffectOut { cell, spawn: None, output: None }
    }
}

/// Every token value in the sequence is in canonical form.
pub open spec fn cells_wf(s: Seq<Cell>) -> bool {
    forall|i: int| 0 <= i < s.len() ==> (#[trigger] s[i]).val.wf()
}

/// Every value in the sequence is in canonical form.
pub open spec fn vals_wf(s: Seq<Value>) -> bool {
    forall|i: int| 0 <= i < s.len() ==> (#[trigger] s[i]).wf()
}

/// An option as a sequence of zero or one elements.
pub open spec fn opt_seq<T>(o: Option<T>) -> Seq<T> {
    match o {
        Some(x) => seq![x],
        None => Seq::empty(),
    }
}

/// State of the effects phase after a prefix of the tokens has been
/// processed: the token list with effects applied so far, the
/// companions spawned, the values emitted, and how many lines of
/// input were consumed.
pub struct EffState {
    pub cells: Seq<Cell>,
    pub spawns: Seq<Cell>,
    pub outputs: Seq<Value>,
    pub used: int,
}

/// Outcome of the effects phase: it either ran out of interactive
/// input at the token standing at `at`, or it finished.
pub enum EffRes {
    Need { at: (usize, usize) },
    Done { st: EffState },
}

/// The effects phase over the first `k` tokens, in token order: each
/// live token reads the symbol under it and takes exactly one effect;
/// a token on the poll instruction consumes the next line of input,
/// and the phase stops short when none is left.
pub open spec fn effects_upto(g: Grid, s0: Seq<Cell>, ins: Seq<Value>, k: int) -> EffRes
    decreases k,
{
    if k <= 0 || k > s0.len() {
        EffRes::Done {
            st: EffState { cells: s0, spawns: Seq::empty(), outputs: Seq::empty(), used: 0 },
        }
    } else {
        match effects_upto(g, s0, ins, k - 1) {
            EffRes::Need { at } => EffRes::Need { at },
            EffRes::Done { st } => {
                let c = st.cells[k - 1];
                if c.ignore {
                    EffRes::Done { st }
                } else {
                    let sym = g.sym(c.pos.0 as int, c.pos.1 as int);
                    if sym == '?' && st.used >= ins.len() {
                        EffRes::Need { at: c.pos }
                    } else {
                        let inp = if sym == '?' {
                            Some(ins[st.used])
                        } else {
                            None
                        };
                        let e = spec_effect(sym, c, inp);
                        EffRes::Done {
                            st: EffState {
                                cells: st.cells.update(k - 1, e.cell),
                                spawns: st.spawns + opt_seq(e.spawn),
                                outputs: st.outputs + opt_seq(e.output),
                                used: st.used + if sym == '?' {
                                    1int
                                } else {
                                    0int
                                },
                            },
                        }
                    }
                }
            },
        }
    }
}

/// Once the effects phase has run out of input it stays out of input:
/// processing more tokens cannot resume it.
proof fn lemma_need_persists(g: Grid, s0: Seq<Cell>, ins: Seq<Value>, k: int, k2: int)
    requires
        0 <= k <= k2 <= s0.len(),
        effects_upto(g, s0, ins, k) is Need,
    ensures
        effects_upto(g, s0, ins, k2) == effects_upto(g, s0, ins, k),
    decreases k2 - k,
{
    if k2 > k {
        lemma_need_persists(g, s0, ins, k, k2 - 1);
    }
}

/// The effects phase never changes how many tokens stand in the
/// list, and never hands back a negative input count.
proof fn lemma_effects_len(g: Grid, s0: Seq<Cell>, ins: Seq<Value>, k: int)
    requires
        0 <= k,
    ensures
        match effects_upto(g, s0, ins, k) {
            EffRes::Done { st } => st.cells.len() == s0.len() && st.used >= 0,
            EffRes::Need { .. } => true,
        },
    decreases k,
{
    if k > 0 {
        lemma_effects_len(g, s0, ins, k - 1);
    }
}

/// Result of the effects phase over all live tokens: `need` is the
/// position of the token whose poll found no input left, or nothing
/// if the phase finished, in which case the other fields are the
/// post-effect tokens, the spawned companions, the emitted values and
/// the count of input lines consumed.
pub struct EffApply {
    pub need: Option<(usize, usize)>,
    pub cells: Vec<Cell>,
    pub spawns: Vec<Cell>,
    pub outputs: Vec<Value>,
    pub used: usize,
}

/// Run the effects phase over all tokens, consuming input lines from
/// `ins` starting at index `from`.
#[verifier::loop_isolation(false)]
pub fn apply_effects(g: &Grid, cells: &Vec<Cell>, ins: &Vec<Value>, from: usize) -> (r: EffApply)
    requires
        g.wf(),
        cells_wf(cells@),
        vals_wf(ins@),
        from <= ins@.len(),
    ensures
        match effects_upto(*g, cells@, ins@.skip(from as int), cells@.len() as int) {
            EffRes::Need { at } => r.need == Some(at),
            EffRes::Done { st } => {
                &&& r.need is None
                &&& r.cells@ == st.cells
                &&& r.spawns@ == st.spawns
                &&& r.outputs@ == st.outputs
                &&& r.used as int == st.used
                &&& cells_wf(r.cells@)
                &&& cells_wf(r.spawns@)
                &&& vals_wf(r.outputs@)
                &&& forall|i: int| 0 <= i < r.spawns@.len() ==> !(#[trigger] r.spawns@[i]).ignore
                &&& from + r.used <= ins@.len()
            },
        },
{
    let ghost insv = ins@.skip(from as int);
    let n = cells.len();
    let mut work: Vec<Cell> = Vec::new();
    let mut i: usize = 0;
    while i < n
        invariant
            0 <= i <= n,
            work@ == cells@.take(i as int),
        decreases n - i,
    {
        work.push(cells[i]);
        proof {
            assert(cells@.take(i + 1) =~= cells@.take(i as int).push(cells@[i as int]));
        }
        i = i + 1;
    }
    proof {
        assert(work@ =~= cells@);
    }
    let mut spawns: Vec<Cell> = Vec::new();
    let mut outputs: Vec<Value> = Vec::new();
    let mut used: usize = 0;
    let mut k: usize = 0;
    while k < n
        invariant
            0 <= k <= n,
            from + used <= ins@.len(),
            work@.len() == n,
            effects_upto(*g, cells@, insv, k as int) == (EffRes::Done {
                st: EffState {
                    cells: work@,
                    spawns: spawns@,
                    outputs: outputs@,
                    used: used as int,
                },
            }),
            cells_wf(work@),
            cells_wf(spawns@),
            vals_wf(outputs@),
            forall|j: int| 0 <= j < spawns@.len() ==> !(#[trigger] spawns@[j]).ignore,
        decreases n - k,
    {
        let c = work[k];
        if !c.ignore {
            let sym = g.symbol_at(c.pos.0, c.pos.1);
            let inp: Option<Value>;
            if sym == '?' {
                if used >= ins.len() - from {
                    proof {
                        assert(effects_upto(*g, cells@, insv, k + 1) == (EffRes::Need {
                            at: c.pos,
                        }));
                        lemma_need_persists(*g, cells@, insv, k + 1, n as int);
                    }
                    return EffApply { need: Some(c.pos), cells: work, spawns, outputs, used };
                }
                inp = Some(ins[from + used]);
                used = used + 1;
            } else {
                inp = None;
            }
            let ghost pre_spawns = spawns@;
            let ghost pre_outputs = outputs@;
            let e = effect_for(sym, c, inp);
            work.set(k, e.cell);
            if let Some(sp) = e.spawn {
                spawns.push(sp);
            }
            if let Some(ov) = e.output {
                outputs.push(ov);
            }
            proof {
                assert(spawns@ =~= pre_spawns + opt_seq(e.spawn));
                assert(outputs@ =~= pre_outputs + opt_seq(e.output));
            }
        }
        k = k + 1;
    }
    EffApply { need: None, cells: work, spawns, outputs, used }
}

/// Token `r` absorbs token `o`: the receiver's value grows by the
/// absorbed token's value (saturating at the representation bound)
/// and the absorbed token is marked removed.
pub open spec fn merge(s: Seq<Cell>, r: int, o: int) -> Seq<Cell> {
    s.update(r, Cell { val: val_of_int(clip(s[r].val.as_int() + s[o].val.as_int())), ..s[r] })
        .update(o, Cell { ignore: true, ..s[o] })
}

/// One candidate pairing of the collision pass: when both tokens are
/// live, distinct, and share a position, the merge rule picks the
/// receiver.  Equal values: the first token receives if it moves
/// right or down, otherwise the second receives.  Unequal values: the
/// greater receives, independent of direction.
pub open spec fn collide_step(s: Seq<Cell>, i: int, j: int) -> Seq<Cell> {
    if !(0 <= i < s.len()) || !(0 <= j < s.len()) || i == j || s[i].ignore || s[j].ignore
        || s[i].pos != s[j].pos {
        s
    } else {
        let a = s[i];
        let b = s[j];
        if a.val == b.val {
            if a.dir == Dir::Right || a.dir == Dir::Down {
                merge(s, i, j)
            } else {
                merge(s, j, i)
            }
        } else if a.val.as_int() > b.val.as_int() {
            merge(s, i, j)
        } else {
            merge(s, j, i)
        }
    }
}

/// The collision pass from pairing (i, j) onward within row `i`:
/// `n` is the (unchanging) number of tokens.
pub open spec fn collide_inner(s: Seq<Cell>, i: int, j: int, n: int) -> Seq<Cell>
    decreases n - j,
{
    if j < 0 || j >= n {
        s
    } else {
        collide_inner(collide_step(s, i, j), i, j + 1, n)
    }
}

/// The collision pass from row `i` onward: each row pairs token `i`
/// with every token in order.
pub open spec fn collide_outer(s: Seq<Cell>, i: int, n: int) -> Seq<Cell>
    decreases n - i,
{
    if i < 0 || i >= n {
        s
    } else {
        collide_outer(collide_inner(s, i, 0, n), i + 1, n)
    }
}

/// The whole collision pass over a token list.
pub open spec fn collide(s: Seq<Cell>) -> Seq<Cell> {
    collide_outer(s, 0, s.len() as int)
}

/// Run the collision pass in place.
#[verifier::loop_isolation(false)]
pub fn resolve_collisions(cells: &mut Vec<Cell>)
    requires
        cells_wf(old(cells)@),
    ensures
        final(cells)@ == collide(old(cells)@),
        final(cells)@.len() == old(cells)@.len(),
        cells_wf(final(cells)@),
{
    let n = cells.len();
    let ghost s0 = cells@;
    let mut c1: usize = 0;
    while c1 < n
        invariant
            0 <= c1 <= n,
            cells@.len() == n,
            collide_outer(s0, 0, n as int) == collide_outer(cells@, c1 as int, n as int),
            cells_wf(cells@),
        decreases n - c1,
    {
        let mut c2: usize = 0;
        proof {
            assert(collide_outer(cells@, c1 as int, n as int) == collide_outer(
                collide_inner(cells@, c1 as int, 0, n as int),
                c1 + 1,
                n as int,
            ));
        }
        while c2 < n
            invariant
                0 <= c2 <= n,
                0 <= c1 < n,
                cells@.len() == n,
                collide_outer(s0, 0, n as int) == collide_outer(
                    collide_inner(cells@, c1 as int, c2 as int, n as int),
                    c1 + 1,
                    n as int,
                ),
                cells_wf(cells@),
            decreases n - c2,
        {
            let ghost pre = cells@;
            let a = cells[c1];
            let b = cells[c2];
            if c1 != c2 && !a.ignore && !b.ignore && a.pos.0 == b.pos.0 && a.pos.1 == b.pos.1 {
                let first_receives: bool = if a.val == b.val {
                    a.dir == Dir::Right || a.dir == Dir::Down
                } else {
                    a.val.gt(b.val)
                };
                if first_receives {
                    cells.set(c1, Cell { val: a.val.add(b.val), ..a });
                    cells.set(c2, Cell { ignore: true, ..b });
                } else {
                    cells.set(c2, Cell { val: b.val.add(a.val), ..b });
                    cells.set(c1, Cell { ignore: true, ..a });
                }
            }
            proof {
                assert(cells@ =~= collide_step(pre, c1 as int, c2 as int));
            }
            c2 = c2 + 1;
        }
        c1 = c1 + 1;
    }
}

/// The live tokens of a list, in order: those not marked for removal.
pub open spec fn live(s: Seq<Cell>) -> Seq<Cell>
    decreases s.len(),
{
    if s.len() == 0 {
        Seq::empty()
    } else {
        live(s.drop_last()) + (if s.last().ignore {
            Seq::empty()
        } else {
            seq![s.last()]
        })
    }
}

/// A token after the movement phase: displaced one unit step in its
/// direction, unless it is frozen or standing still.
pub open spec fn moved_cell(c: Cell) -> Cell {
    if !c.frozen && c.dir != Dir::Neutral {
        Cell {
            pos: (
                step_coord(c.pos.0, delta_spec(c.dir).0),
                step_coord(c.pos.1, delta_spec(c.dir).1),
            ),
            ..c
        }
    } else {
        c
    }
}

/// The movement phase over a token list.
pub open spec fn move_all(s: Seq<Cell>) -> Seq<Cell> {
    Seq::new(s.len(), |i: int| moved_cell(s[i]))
}

/// Result of one tick: either the poll instruction at `at` found no
/// input line left (and the tick did not happen), or the surviving
/// tokens, the values emitted in order, and the input lines consumed.
pub enum TickSpec {
    Need { at: (usize, usize) },
    Done { cells: Seq<Cell>, outputs: Seq<Value>, used: int },
}

/// One full tick: instruction effects in token order, the collision
/// pass over the post-effect tokens, removal of every token marked,
/// then the companions spawned this tick joining the set, then one
/// unit of movement for the surviving pre-existing tokens.  A newly
/// spawned companion neither collides nor moves on its birth tick.
pub open spec fn spec_tick(g: Grid, s: Seq<Cell>, ins: Seq<Value>) -> TickSpec {
    match effects_upto(g, s, ins, s.len() as int) {
        EffRes::Need { at } => TickSpec::Need { at },
        EffRes::Done { st } => TickSpec::Done {
            cells: move_all(live(collide(st.cells))) + st.spawns,
            outputs: st.outputs,
            used: st.used,
        },
    }
}

/// Result of one tick of the engine.
pub enum TickOut {
    Need { at: (usize, usize) },
    Done { cells: Vec<Cell>, outputs: Vec<Value>, used: usize },
}

/// Run one tick over the live tokens, consuming input lines from
/// `ins` starting at index `from`.
#[verifier::loop_isolation(false)]
pub fn tick(g: &Grid, cells: &Vec<Cell>, ins: &Vec<Value>, from: usize) -> (r: TickOut)
    requires
        g.wf(),
        cells_wf(cells@),
        vals_wf(ins@),
        from <= ins@.len(),
    ensures
        match r {
            TickOut::Need { at } => spec_tick(*g, cells@, ins@.skip(from as int))
                == (TickSpec::Need { at }),
            TickOut::Done { cells: nc, outputs: os, used: u } => {
                &&& spec_tick(*g, cells@, ins@.skip(from as int)) == (TickSpec::Done {
                    cells: nc@,
                    outputs: os@,
                    used: u as int,
                })
                &&& cells_wf(nc@)
                &&& vals_wf(os@)
                &&& from + u <= ins@.len()
                &&& forall|i: int| 0 <= i < nc@.len() ==> !(#[trigger] nc@[i]).ignore
            },
        },
{
    let eff = apply_effects(g, cells, ins, from);
    let EffApply { need, cells: mut work, spawns, outputs, used } = eff;
    if let Some(at) = need {
        return TickOut::Need { at };
    }
    let ghost st_cells = work@;
    let ghost st_spawns = spawns@;
    resolve_collisions(&mut work);
    let ghost col = collide(st_cells);
    let n0 = work.len();
    let mut survivors: Vec<Cell> = Vec::new();
    let mut i: usize = 0;
    while i < n0
        invariant
            0 <= i <= n0,
            n0 == col.len(),
            work@ == col,
            cells_wf(col),
            survivors@ == move_all(live(col.take(i as int))),
            cells_wf(survivors@),
            forall|k: int| 0 <= k < survivors@.len() ==> !(#[trigger] survivors@[k]).ignore,
        decreases n0 - i,
    {
        let c = work[i];
        proof {
            assert(col.take(i + 1).drop_last() =~= col.take(i as int));
        }
        if !c.ignore {
            let d = c.dir.delta();
            let mut c2 = c;
            if !c2.frozen {
                match c2.dir {
                    Dir::Neutral => {},
                    _ => {
                        shift(&mut c2, d);
                    },
                }
            }
            survivors.push(c2);
            proof {
                assert(c2 == moved_cell(c));
                assert(live(col.take(i + 1)) =~= live(col.take(i as int)).push(c));
                assert(move_all(live(col.take(i + 1))) =~= move_all(
                    live(col.take(i as int)),
                ).push(moved_cell(c)));
            }
        } else {
            proof {
                assert(live(col.take(i + 1)) =~= live(col.take(i as int)));
                assert(move_all(live(col.take(i + 1))) =~= move_all(live(col.take(i as int))));
            }
        }
        i = i + 1;
    }
    proof {
        assert(col.take(col.len() as int) =~= col);
    }
    let mut si: usize = 0;
    while si < spawns.len()
        invariant
            0 <= si <= st_spawns.len(),
            spawns@ == st_spawns,
            survivors@ == move_all(live(col)) + st_spawns.take(si as int),
            cells_wf(survivors@),
            forall|k: int| 0 <= k < survivors@.len() ==> !(#[trigger] survivors@[k]).ignore,
        decreases spawns.len() - si,
    {
        survivors.push(spawns[si]);
        proof {
            assert(move_all(live(col)) + st_spawns.take(si + 1) =~= (move_all(live(col))
                + st_spawns.take(si as int)).push(st_spawns[si as int]));
        }
        si = si + 1;
    }
    proof {
        assert(move_all(live(col)) + st_spawns.take(st_spawns.len() as int) =~= move_all(
            live(col),
        ) + st_spawns);
    }
    TickOut::Done { cells: survivors, outputs, used }
}


/// Ghost state of a simulation: the live tokens, everything emitted
/// so far, how many input lines were consumed, and the iteration
/// counter.
pub struct SimState {
    pub cells: Seq<Cell>,
    pub outputs: Seq<Value>,
    pub used: int,
    pub counter: int,
}

/// Whether a run is over: the token set is empty, or a nonzero
/// iteration cap has been reached.  A cap of zero never triggers:
/// it means run until the tokens are exhausted.
pub open spec fn halted_state(cap: u64, st: SimState) -> bool {
    st.cells.len() == 0 || (cap != 0 && st.counter >= cap as int)
}

/// With a cap of zero, a run can halt only by token exhaustion.
pub proof fn lemma_cap_zero_halts_only_empty(cap: u64, st: SimState)
    requires
        cap == 0,
    ensures
        halted_state(cap, st) <==> st.cells.len() == 0,
{
}

/// The state after `n` further complete ticks, or nothing if the run
/// halts or runs out of input first.  The iteration counter advances
/// once per tick, except under a cap of zero, where it never moves.
pub open spec fn run_steps(g: Grid, cap: u64, st: SimState, ins: Seq<Value>, n: nat) -> Option<
    SimState,
>
    decreases n,
{
    if n == 0 {
        Some(st)
    } else {
        match run_steps(g, cap, st, ins, (n - 1) as nat) {
            None => None,
            Some(p) => {
                if halted_state(cap, p) {
                    None
                } else {
                    match spec_tick(g, p.cells, ins.skip(p.used)) {
                        TickSpec::Need { .. } => None,
                        TickSpec::Done { cells, outputs, used } => Some(
                            SimState {
                                cells,
                                outputs: p.outputs + outputs,
                                used: p.used + used,
                                counter: p.counter + if cap == 0 {
                                    0int
                                } else {
                                    1int
                                },
                            },
                        ),
                    }
                }
            },
        }
    }
}

/// Initial token set: one token per input cell, in row-major order,
/// seeded with the matching value and directed down.
pub open spec fn seed_cells(ps: Seq<(usize, usize)>, vals: Seq<Value>) -> Seq<Cell> {
    Seq::new(
        ps.len(),
        |i: int|
            Cell { pos: ps[i], val: vals[i], dir: Dir::Down, frozen: false, ignore: false },
    )
}

/// Outcome of one driving step of a simulation.
#[derive(Clone, Copy, Debug)]
pub enum StepOut {
    /// The run was already over; nothing changed.
    Halted,
    /// The tick needs one more input line for the token at `at`;
    /// nothing changed.
    Need { at: (usize, usize) },
    /// One full tick was performed.
    Ticked,
}

/// How a bounded run ended.
#[derive(Clone, Copy, Debug, PartialEq, Eq, Structural)]
pub enum RunStatus {
    /// The run is over: tokens exhausted or cap reached.
    Halted,
    /// A poll instruction needs one more input line.
    NeedInput,
    /// The tick budget of this call ran out first.
    Budget,
}

/// Result of a bounded run: how it ended, where input is wanted when
/// it ended for want of input, and how many ticks were performed.
pub struct RunOut {
    pub status: RunStatus,
    pub at: Option<(usize, usize)>,
    pub ticks: u64,
}

/// A running simulation: the grid, the live tokens, everything
/// emitted so far, the iteration cap and counter, and how many lines
/// of the caller's input list have been consumed.
pub struct Sim {
    pub grid: Grid,
    pub cells: Vec<Cell>,
    pub outputs: Vec<Value>,
    pub cap: u64,
    pub counter: u64,
    pub used: usize,
}

impl Sim {
    /// The ghost state of this simulation.
    pub open spec fn st(self) -> SimState {
        SimState {
            cells: self.cells@,
            outputs: self.outputs@,
            used: self.used as int,
            counter: self.counter as int,
        }
    }

    /// Validity: a well-formed grid, canonical token values, no token
    /// marked for removal between ticks, and a counter within a
    /// nonzero cap.
    pub open spec fn wf(self) -> bool {
        &&& self.grid.wf()
        &&& cells_wf(self.cells@)
        &&& vals_wf(self.outputs@)
        &&& forall|i: int| 0 <= i < self.cells@.len() ==> !(#[trigger] self.cells@[i]).ignore
        &&& (self.cap != 0 ==> self.counter <= self.cap)
    }

    /// Start a run: one token per input cell of the grid, in
    /// row-major order, seeded with the matching value and directed
    /// down; counter at zero, nothing emitted or consumed yet.
    pub fn new(grid: Grid, seeds: &Vec<Value>, cap: u64) -> (r: Sim)
        requires
            grid.wf(),
            vals_wf(seeds@),
            seeds@.len() == char_positions(grid.rows.deep_view(), 'i').len(),
        ensures
            r.wf(),
            r.grid == grid,
            r.cap == cap,
            r.counter == 0,
            r.used == 0,
            r.outputs@ == Seq::<Value>::empty(),
            r.cells@ == seed_cells(char_positions(grid.rows.deep_view(), 'i'), seeds@),
    {
        let ps = grid.positions_of('i');
        let ghost psv = ps@;
        let mut cells: Vec<Cell> = Vec::new();
        let mut i: usize = 0;
        while i < ps.len()
            invariant
                0 <= i <= psv.len(),
                ps@ == psv,
                psv.len() == seeds@.len(),
                vals_wf(seeds@),
                cells@ == seed_cells(psv, seeds@).take(i as int),
            decreases ps.len() - i,
        {
            cells.push(Cell::new(ps[i], seeds[i], Dir::Down));
            proof {
                assert(seed_cells(psv, seeds@).take(i + 1) =~= seed_cells(psv, seeds@).take(
                    i as int,
                ).push(seed_cells(psv, seeds@)[i as int]));
            }
            i = i + 1;
        }
        proof {
            assert(cells@ =~= seed_cells(psv, seeds@));
        }
        Sim { grid, cells, outputs: Vec::new(), cap, counter: 0, used: 0 }
    }

    /// Whether the run is over: no tokens left, or a nonzero cap
    /// reached.
    pub fn is_halted(&self) -> (r: bool)
        ensures
            r == halted_state(self.cap, self.st()),
    {
        self.cells.len() == 0 || (self.cap != 0 && self.counter >= self.cap)
    }

    /// Drive the simulation by one tick, consuming input lines from
    /// `ins` (the same ever-growing list across calls).  When the run
    /// is over, or a poll instruction wants a line that is not there
    /// yet, nothing changes.
    pub fn step(&mut self, ins: &Vec<Value>) -> (r: StepOut)
        requires
            old(self).wf(),
            vals_wf(ins@),
            old(self).used <= ins@.len(),
        ensures
            final(self).grid == old(self).grid,
            final(self).cap == old(self).cap,
            final(self).wf(),
            final(self).used <= ins@.len(),
            old(self).cap == 0 ==> final(self).counter == old(self).counter,
            match r {
                StepOut::Halted => halted_state(old(self).cap, old(self).st()) && final(self).st()
                    == old(self).st(),
                StepOut::Need { at } => {
                    &&& !halted_state(old(self).cap, old(self).st())
                    &&& spec_tick(old(self).grid, old(self).cells@, ins@.skip(old(self).used as int))
                        == (TickSpec::Need { at })
                    &&& final(self).st() == old(self).st()
                },
                StepOut::Ticked => {
                    &&& !halted_state(old(self).cap, old(self).st())
                    &&& run_steps(old(self).grid, old(self).cap, old(self).st(), ins@, 1) == Some(
                        final(self).st(),
                    )
                },
            },
    {
        if self.is_halted() {
            return StepOut::Halted;
        }
        match tick(&self.grid, &self.cells, ins, self.used) {
            TickOut::Need { at } => StepOut::Need { at },
            TickOut::Done { cells, outputs, used } => {
                self.cells = cells;
                append_values(&mut self.outputs, &outputs);
                proof {
                    assert(self.used + used <= ins.len());
                }
                self.used = self.used + used;
                if self.cap != 0 {
                    self.counter = self.counter + 1;
                }
                proof {
                    assert(run_steps(old(self).grid, old(self).cap, old(self).st(), ins@, 0)
                        == Some(old(self).st()));
                }
                StepOut::Ticked
            },
        }
    }

    /// Drive the simulation until it halts, wants input, or has
    /// performed `max_ticks` ticks, whichever comes first.
    #[verifier::loop_isolation(false)]
    pub fn run(&mut self, ins: &Vec<Value>, max_ticks: u64) -> (r: RunOut)
        requires
            old(self).wf(),
            vals_wf(ins@),
            old(self).used <= ins@.len(),
        ensures
            final(self).grid == old(self).grid,
            final(self).cap == old(self).cap,
            final(self).wf(),
            final(self).used <= ins@.len(),
            old(self).cap == 0 ==> final(self).counter == old(self).counter,
            run_steps(old(self).grid, old(self).cap, old(self).st(), ins@, r.ticks as nat)
                == Some(final(self).st()),
            r.ticks <= max_ticks,
            match r.status {
                RunStatus::Halted => halted_state(final(self).cap, final(self).st()) && r.at
                    is None,
                RunStatus::NeedInput => {
                    &&& !halted_state(final(self).cap, final(self).st())
                    &&& r.at is Some
                    &&& spec_tick(
                        final(self).grid,
                        final(self).cells@,
                        ins@.skip(final(self).used as int),
                    ) == (TickSpec::Need { at: r.at.unwrap() })
                },
                RunStatus::Budget => r.ticks == max_ticks,
            },
    {
        let ghost st0 = self.st();
        let mut done: u64 = 0;
        while done < max_ticks
            invariant
                0 <= done <= max_ticks,
                self.grid == old(self).grid,
                self.cap == old(self).cap,
                self.wf(),
                self.used <= ins@.len(),
                old(self).cap == 0 ==> self.counter == old(self).counter,
                run_steps(old(self).grid, old(self).cap, st0, ins@, done as nat) == Some(
                    self.st(),
                ),
            decreases max_ticks - done,
        {
            let ghost pre = self.st();
            match self.step(ins) {
                StepOut::Halted => {
                    return RunOut { status: RunStatus::Halted, at: None, ticks: done };
                },
                StepOut::Need { at } => {
                    return RunOut { status: RunStatus::NeedInput, at: Some(at), ticks: done };
                },
                StepOut::Ticked => {
                    proof {
                        assert(run_steps(old(self).grid, old(self).cap, pre, ins@, 0) == Some(
                            pre,
                        ));
                        assert(run_steps(old(self).grid, old(self).cap, st0, ins@, (done + 1) as nat)
                            == Some(self.st()));
                    }
                    done = done + 1;
                },
            }
        }
        RunOut { status: RunStatus::Budget, at: None, ticks: done }
    }
}

/// Append a list of values to another.
fn append_values(dst: &mut Vec<Value>, src: &Vec<Value>)
    ensures
        final(dst)@ == old(dst)@ + src@,
{
    let ghost d0 = old(dst)@;
    let mut i: usize = 0;
    while i < src.len()
        invariant
            0 <= i <= src@.len(),
            dst@ == d0 + src@.take(i as int),
        decreases src.len() - i,
    {
        dst.push(src[i]);
        proof {
            assert(d0 + src@.take(i + 1) =~= (d0 + src@.take(i as int)).push(src@[i as int]));
        }
        i = i + 1;
    }
    proof {
        assert(d0 + src@.take(src@.len() as int) =~= d0 + src@);
    }
}


/// The parity instruction routes a token by its value alone: right
/// when the value is an even whole number of units, left on every
/// other value, whatever direction the token had before; nothing
/// else about the token changes and nothing is spawned or emitted.
pub proof fn lemma_parity_routes(c: Cell, inp: Option<Value>)
    ensures
        spec_effect('e', c, inp).cell == (Cell {
            dir: if is_even_spec(c.val.as_int()) {
                Dir::Right
            } else {
                Dir::Left
            },
            ..c
        }),
        spec_effect('e', c, inp).spawn is None,
        spec_effect('e', c, inp).output is None,
{
    reveal(spec_effect);
}

/// The receiver of a merging pair: on equal values the first token
/// when it moves right or down, else the second; on unequal values
/// the greater.
pub open spec fn receiver_of(s: Seq<Cell>, i: int, j: int) -> int {
    if s[i].val == s[j].val {
        if s[i].dir == Dir::Right || s[i].dir == Dir::Down {
            i
        } else {
            j
        }
    } else if s[i].val.as_int() > s[j].val.as_int() {
        i
    } else {
        j
    }
}

/// Collision merge is conservative: when a pairing merges two live
/// tokens on the same position and their sum is representable, the
/// receiver's value grows by exactly the absorbed token's value (so
/// the sum of the two values before equals the survivor's value),
/// the absorbed token is marked for removal, and no other token
/// changes.
pub proof fn lemma_merge_conservative(s: Seq<Cell>, i: int, j: int)
    requires
        0 <= i < s.len(),
        0 <= j < s.len(),
        i != j,
        !s[i].ignore,
        !s[j].ignore,
        s[i].pos == s[j].pos,
        s[i].val.wf(),
        s[j].val.wf(),
        -(u128::MAX as int) <= s[i].val.as_int() + s[j].val.as_int() <= u128::MAX as int,
    ensures
        ({
            let t = collide_step(s, i, j);
            let r = receiver_of(s, i, j);
            let o = if r == i {
                j
            } else {
                i
            };
            &&& t.len() == s.len()
            &&& (r == i || r == j)
            &&& t[r].val.as_int() == s[i].val.as_int() + s[j].val.as_int()
            &&& t[r].val.as_int() - s[r].val.as_int() == s[o].val.as_int()
            &&& t[o].ignore
            &&& !t[r].ignore
            &&& t[r].pos == s[r].pos
            &&& t[r].dir == s[r].dir
            &&& forall|k: int| 0 <= k < s.len() && k != i && k != j ==> t[k] == s[k]
        }),
{
}

/// The collision pass never clears a removal mark, and a marked
/// token takes part in no further pairing: it leaves the pass
/// exactly as it entered it.
pub proof fn lemma_collide_keeps_marks(s: Seq<Cell>, i: int)
    requires
        0 <= i < s.len(),
        s[i].ignore,
    ensures
        collide(s).len() == s.len(),
        collide(s)[i] == s[i],
{
    lemma_collide_outer_marks(s, 0, s.len() as int, i);
}

proof fn lemma_collide_step_marks(s: Seq<Cell>, i0: int, j0: int, i: int)
    requires
        0 <= i < s.len(),
        s[i].ignore,
    ensures
        collide_step(s, i0, j0).len() == s.len(),
        collide_step(s, i0, j0)[i] == s[i],
{
}

proof fn lemma_collide_inner_marks(s: Seq<Cell>, i0: int, j0: int, n: int, i: int)
    requires
        0 <= i < s.len(),
        n == s.len(),
        s[i].ignore,
    ensures
        collide_inner(s, i0, j0, n).len() == s.len(),
        collide_inner(s, i0, j0, n)[i] == s[i],
    decreases n - j0,
{
    if 0 <= j0 < n {
        lemma_collide_step_marks(s, i0, j0, i);
        lemma_collide_inner_marks(collide_step(s, i0, j0), i0, j0 + 1, n, i);
    }
}

proof fn lemma_collide_outer_marks(s: Seq<Cell>, i0: int, n: int, i: int)
    requires
        0 <= i < s.len(),
        n == s.len(),
        s[i].ignore,
    ensures
        collide_outer(s, i0, n).len() == s.len(),
        collide_outer(s, i0, n)[i] == s[i],
    decreases n - i0,
{
    if 0 <= i0 < n {
        lemma_collide_inner_marks(s, i0, 0, n, i);
        lemma_collide_outer_marks(collide_inner(s, i0, 0, n), i0 + 1, n, i);
    }
}

/// Compaction keeps exactly the unmarked tokens.
pub proof fn lemma_live_unmarked(s: Seq<Cell>)
    ensures
        forall|k: int| 0 <= k < live(s).len() ==> !(#[trigger] live(s)[k]).ignore,
    decreases s.len(),
{
    if s.len() > 0 {
        lemma_live_unmarked(s.drop_last());
    }
}

/// No token that a tick hands back is marked for removal: every
/// token marked during the tick, by an instruction or by a merge, is
/// gone from the surviving set.
pub proof fn lemma_tick_drops_marked(g: Grid, s: Seq<Cell>, ins: Seq<Value>)
    ensures
        match spec_tick(g, s, ins) {
            TickSpec::Done { cells, .. } => forall|k: int|
                0 <= k < cells.len() ==> !(#[trigger] cells[k]).ignore,
            TickSpec::Need { .. } => true,
        },
{
    match effects_upto(g, s, ins, s.len() as int) {
        EffRes::Need { .. } => {},
        EffRes::Done { st } => {
            let survivors = move_all(live(collide(st.cells))) + st.spawns;
            lemma_live_unmarked(collide(st.cells));
            lemma_effects_spawns_unmarked(g, s, ins, s.len() as int);
            assert forall|k: int| 0 <= k < survivors.len() implies !(#[trigger] survivors[k]).ignore by {
                let m = move_all(live(collide(st.cells)));
                if k < m.len() {
                    assert(m[k] == moved_cell(live(collide(st.cells))[k]));
                } else {
                    assert(survivors[k] == st.spawns[k - m.len()]);
                }
            }
        },
    }
}

/// Companions spawned by the effects phase are never born marked.
proof fn lemma_effects_spawns_unmarked(g: Grid, s0: Seq<Cell>, ins: Seq<Value>, k: int)
    requires
        0 <= k,
    ensures
        match effects_upto(g, s0, ins, k) {
            EffRes::Done { st } => forall|j: int|
                0 <= j < st.spawns.len() ==> !(#[trigger] st.spawns[j]).ignore,
            EffRes::Need { .. } => true,
        },
    decreases k,
{
    reveal(spec_effect);
    if k > 0 {
        lemma_effects_spawns_unmarked(g, s0, ins, k - 1);
    }
}

/// The effects phase leaves tokens it has not yet reached untouched.
proof fn lemma_effects_tail_untouched(g: Grid, s0: Seq<Cell>, ins: Seq<Value>, k: int)
    requires
        0 <= k <= s0.len(),
    ensures
        match effects_upto(g, s0, ins, k) {
            EffRes::Done { st } => forall|j: int|
                k <= j < s0.len() ==> #[trigger] st.cells[j] == s0[j],
            EffRes::Need { .. } => true,
        },
    decreases k,
{
    if k > 0 {
        lemma_effects_tail_untouched(g, s0, ins, k - 1);
        lemma_effects_len(g, s0, ins, k - 1);
    }
}

/// Once the effects phase has processed a token, later steps change
/// neither that token nor anything already emitted.
proof fn lemma_effects_extend(g: Grid, s0: Seq<Cell>, ins: Seq<Value>, k1: int, k2: int)
    requires
        0 <= k1 <= k2 <= s0.len(),
        effects_upto(g, s0, ins, k2) is Done,
    ensures
        effects_upto(g, s0, ins, k1) is Done,
        match (effects_upto(g, s0, ins, k1), effects_upto(g, s0, ins, k2)) {
            (EffRes::Done { st: st1 }, EffRes::Done { st: st2 }) => {
                &&& st1.outputs.len() <= st2.outputs.len()
                &&& forall|j: int|
                    0 <= j < st1.outputs.len() ==> #[trigger] st2.outputs[j] == st1.outputs[j]
                &&& forall|j: int| 0 <= j < k1 ==> #[trigger] st2.cells[j] == st1.cells[j]
            },
            _ => false,
        },
    decreases k2 - k1,
{
    if k2 > k1 {
        if effects_upto(g, s0, ins, k2 - 1) is Need {
            lemma_need_persists(g, s0, ins, k2 - 1, k2);
        }
        lemma_effects_extend(g, s0, ins, k1, k2 - 1);
        lemma_effects_len(g, s0, ins, k2 - 1);
    }
}

/// The values the effects phase emits, considering the first `k`
/// tokens: one per live token standing on the output instruction, in
/// token order, each the token's value unchanged.
pub open spec fn outputs_upto(g: Grid, s: Seq<Cell>, k: int) -> Seq<Value>
    decreases k,
{
    if k <= 0 || k > s.len() {
        Seq::empty()
    } else {
        outputs_upto(g, s, k - 1) + (if !s[k - 1].ignore && g.sym(
            s[k - 1].pos.0 as int,
            s[k - 1].pos.1 as int,
        ) == 'o' {
            seq![s[k - 1].val]
        } else {
            Seq::empty()
        })
    }
}

/// The effects phase emits exactly the values of the live tokens
/// standing on the output instruction, in token order, each value
/// as it stood when the tick began: no other instruction emits.
pub proof fn lemma_outputs_exact(g: Grid, s: Seq<Cell>, ins: Seq<Value>, k: int)
    requires
        0 <= k <= s.len(),
    ensures
        match effects_upto(g, s, ins, k) {
            EffRes::Done { st } => st.outputs == outputs_upto(g, s, k),
            EffRes::Need { .. } => true,
        },
    decreases k,
{
    reveal(spec_effect);
    if k > 0 {
        lemma_outputs_exact(g, s, ins, k - 1);
        lemma_effects_tail_untouched(g, s, ins, k - 1);
        lemma_effects_len(g, s, ins, k - 1);
        match effects_upto(g, s, ins, k) {
            EffRes::Done { st } => {
                assert(st.outputs =~= outputs_upto(g, s, k));
            },
            EffRes::Need { .. } => {},
        }
    }
}

/// A completed tick emits exactly the values of the live tokens that
/// stood on the output instruction when it began, in token order.
pub proof fn lemma_tick_outputs(g: Grid, s: Seq<Cell>, ins: Seq<Value>)
    ensures
        match spec_tick(g, s, ins) {
            TickSpec::Done { outputs, .. } => outputs == outputs_upto(g, s, s.len() as int),
            TickSpec::Need { .. } => true,
        },
{
    lemma_outputs_exact(g, s, ins, s.len() as int);
}

/// A live token standing on the output instruction has its value
/// emitted unchanged by the effects phase and is marked for removal:
/// once the tick completes it is gone from the surviving set.
pub proof fn lemma_output_emits_and_marks(g: Grid, s: Seq<Cell>, ins: Seq<Value>, i: int)
    requires
        0 <= i < s.len(),
        !s[i].ignore,
        g.sym(s[i].pos.0 as int, s[i].pos.1 as int) == 'o',
        effects_upto(g, s, ins, s.len() as int) is Done,
    ensures
        match effects_upto(g, s, ins, s.len() as int) {
            EffRes::Done { st } => {
                &&& st.cells[i] == (Cell { ignore: true, ..s[i] })
                &&& st.outputs.contains(s[i].val)
            },
            EffRes::Need { .. } => true,
        },
{
    let n = s.len() as int;
    reveal(spec_effect);
    if effects_upto(g, s, ins, i) is Need {
        lemma_need_persists(g, s, ins, i, n);
        assert(false);
    }
    lemma_effects_tail_untouched(g, s, ins, i);
    lemma_effects_len(g, s, ins, i);
    let st_i = match effects_upto(g, s, ins, i) {
        EffRes::Done { st } => st,
        EffRes::Need { .. } => arbitrary(),
    };
    assert(st_i.cells[i] == s[i]);
    assert(effects_upto(g, s, ins, i + 1) is Done);
    lemma_effects_extend(g, s, ins, i + 1, n);
    let st_n = match effects_upto(g, s, ins, n) {
        EffRes::Done { st } => st,
        EffRes::Need { .. } => arbitrary(),
    };
    assert(st_n.outputs[st_i.outputs.len() as int] == s[i].val);
    assert(st_n.outputs.contains(s[i].val));
}

/// A live token standing on the void symbol, on a cell the program
/// text left uncovered, or outside the grid altogether, is marked
/// for removal by the effects phase, emits nothing and spawns
/// nothing: once the tick completes it is gone from the surviving
/// set and never appears again.
pub proof fn lemma_void_marks(g: Grid, s: Seq<Cell>, ins: Seq<Value>, i: int)
    requires
        0 <= i < s.len(),
        !s[i].ignore,
        g.sym(s[i].pos.0 as int, s[i].pos.1 as int) == VOID,
    ensures
        match effects_upto(g, s, ins, s.len() as int) {
            EffRes::Done { st } => st.cells[i] == (Cell { ignore: true, ..s[i] }),
            EffRes::Need { .. } => true,
        },
{
    let n = s.len() as int;
    reveal(spec_effect);
    if effects_upto(g, s, ins, n) is Done {
        if effects_upto(g, s, ins, i) is Need {
            lemma_need_persists(g, s, ins, i, n);
            assert(false);
        }
        lemma_effects_tail_untouched(g, s, ins, i);
        lemma_effects_len(g, s, ins, i);
        assert(effects_upto(g, s, ins, i + 1) is Done);
        lemma_effects_extend(g, s, ins, i + 1, n);
    }
}


/// The token value a rendered frame shows at a cell: the last live
/// token in the list standing there, if any.
pub open spec fn occupant(s: Seq<Cell>, x: usize, y: usize) -> Option<Value>
    decreases s.len(),
{
    if s.len() == 0 {
        None
    } else if s.last().pos == (x, y) {
        Some(s.last().val)
    } else {
        occupant(s.drop_last(), x, y)
    }
}

impl Sim {
    /// The value shown at (x, y): the last token in the list
    /// standing there, if any.
    pub fn occupant_at(&self, x: usize, y: usize) -> (r: Option<Value>)
        ensures
            r == occupant(self.cells@, x, y),
    {
        proof {
            assert(self.cells@.take(self.cells@.len() as int) =~= self.cells@);
        }
        let mut k = self.cells.len();
        while k > 0
            invariant
                0 <= k <= self.cells@.len(),
                occupant(self.cells@, x, y) == occupant(self.cells@.take(k as int), x, y),
            decreases k,
        {
            k = k - 1;
            let c = self.cells[k];
            proof {
                assert(self.cells@.take(k + 1).last() == self.cells@[k as int]);
                assert(self.cells@.take(k + 1).drop_last() =~= self.cells@.take(k as int));
            }
            if c.pos.0 == x && c.pos.1 == y {
                return Some(c.val);
            }
        }
        None
    }

    /// One text frame of the run: each cell shows the digit glyph of
    /// the token standing on it, or the grid symbol where no token
    /// stands.
    pub fn frame(&self) -> (r: Vec<Vec<char>>)
        requires
            self.grid.wf(),
        ensures
            r@.len() == self.grid.height,
            forall|y: int| 0 <= y < self.grid.height ==> r@[y]@.len() == self.grid.width,
            forall|x: int, y: int|
                0 <= x < self.grid.width && 0 <= y < self.grid.height
                    ==> #[trigger] r@[y]@[x] == match occupant(
                    self.cells@,
                    x as usize,
                    y as usize,
                ) {
                    Some(v) => digit_char_spec(v),
                    None => self.grid.sym(x, y),
                },
    {
        let mut rows: Vec<Vec<char>> = Vec::new();
        let mut y: usize = 0;
        while y < self.grid.height
            invariant
                0 <= y <= self.grid.height,
                self.grid.wf(),
                rows@.len() == y,
                forall|yy: int| 0 <= yy < y ==> rows@[yy]@.len() == self.grid.width,
                forall|xx: int, yy: int|
                    0 <= xx < self.grid.width && 0 <= yy < y ==> #[trigger] rows@[yy]@[xx]
                        == match occupant(self.cells@, xx as usize, yy as usize) {
                        Some(v) => digit_char_spec(v),
                        None => self.grid.sym(xx, yy),
                    },
            decreases self.grid.height - y,
        {
            let mut row: Vec<char> = Vec::new();
            let mut x: usize = 0;
            while x < self.grid.width
                invariant
                    0 <= x <= self.grid.width,
                    0 <= y < self.grid.height,
                    self.grid.wf(),
                    row@.len() == x,
                    forall|xx: int|
                        0 <= xx < x ==> #[trigger] row@[xx] == match occupant(
                            self.cells@,
                            xx as usize,
                            y as usize,
                        ) {
                            Some(v) => digit_char_spec(v),
                            None => self.grid.sym(xx, y as int),
                        },
                decreases self.grid.width - x,
            {
                let ch: char = match self.occupant_at(x, y) {
                    Some(v) => v.digit_char(),
                    None => self.grid.symbol_at(x, y),
                };
                row.push(ch);
                x = x + 1;
            }
            rows.push(row);
            y = y + 1;
        }
        rows
    }
}

} // verus!





