//! Visiting the cells of a rectangle in order.
use crate::sim_data;
use crate::sim_data::Env;
use crate::sim_data::RegionBounds;
use crate::sim_data::SimData;
use crate::sim_data::State;
use vstd::prelude::*;

verus! {

broadcast use crate::region_events::group_events;

/// Work that is done cell by cell.
pub trait Pass: Sized {
    /// Whether what the work needs is there.
    spec fn ready(&self, env: Env, s: State) -> bool;

    /// What a visit of the cell in row `y` and column `x` makes of a state.
    spec fn effect(&self, env: Env, s: State, y: int, x: int) -> State;

    /// What the work needs is still there after a visit.
    proof fn stays_ready(&self, env: Env, s: State, y: int, x: int)
        requires
            self.ready(env, s),
            sim_data::same_shape(s, self.effect(env, s, y, x)),
            s.fits(env),
            0 <= y,
            0 <= x,
            y * env.width + x < env.cell_count(),
        ensures
            self.ready(env, self.effect(env, s, y, x)),
    ;

    /// Visits a cell.
    fn visit(&self, sim: &mut SimData, y: usize, x: usize, cell: usize)
        requires
            old(sim).wf(),
            self.ready(old(sim).env, old(sim)@),
            cell == y * old(sim).env.width + x,
            cell < old(sim).env.cell_count(),
        ensures
            sim_data::stepped(
                *old(sim),
                *final(sim),
                self.effect(old(sim).env, old(sim)@, y as int, x as int),
            ),
    ;
}

/// The state after a row's columns `lo..hi` are visited from left to right.
pub open spec fn row<P: Pass>(p: P, env: Env, s: State, y: int, lo: int, hi: int) -> State
    decreases hi - lo,
{
    if hi <= lo {
        s
    } else {
        p.effect(env, row(p, env, s, y, lo, hi - 1), y, hi - 1)
    }
}

/// The state after columns `x0..x1` of rows `y0..y1` are visited, row after row.
pub open spec fn rows<P: Pass>(
    p: P,
    env: Env,
    s: State,
    x0: int,
    x1: int,
    y0: int,
    y1: int,
) -> State
    decreases y1 - y0,
{
    if y1 <= y0 {
        s
    } else {
        row(p, env, rows(p, env, s, x0, x1, y0, y1 - 1), y1 - 1, x0, x1)
    }
}

/// What a visit of the cell in row `y` and column `x` makes of a state.
pub type Visit = spec_fn(State, int, int) -> State;

/// The state after a row's columns `lo..hi` are visited from left to right.
pub open spec fn row_by(f: Visit, s: State, y: int, lo: int, hi: int) -> State
    decreases hi - lo,
{
    if hi <= lo {
        s
    } else {
        f(row_by(f, s, y, lo, hi - 1), y, hi - 1)
    }
}

/// The state after columns `x0..x1` of rows `y0..y1` are visited, row after row.
pub open spec fn rows_by(f: Visit, s: State, x0: int, x1: int, y0: int, y1: int) -> State
    decreases y1 - y0,
{
    if y1 <= y0 {
        s
    } else {
        row_by(f, rows_by(f, s, x0, x1, y0, y1 - 1), y1 - 1, x0, x1)
    }
}

/// Work with the same visits has the same outcome.
pub proof fn lemma_row_by<P: Pass>(p: P, env: Env, f: Visit, s: State, y: int, lo: int, hi: int)
    requires
        forall|t: State, i: int, j: int| #[trigger] p.effect(env, t, i, j) == f(t, i, j),
    ensures
        row(p, env, s, y, lo, hi) == row_by(f, s, y, lo, hi),
    decreases hi - lo,
{
    if hi > lo {
        lemma_row_by(p, env, f, s, y, lo, hi - 1);
    }
}

/// Work with the same visits has the same outcome.
pub proof fn lemma_rows_by<P: Pass>(
    p: P,
    env: Env,
    f: Visit,
    s: State,
    x0: int,
    x1: int,
    y0: int,
    y1: int,
)
    requires
        forall|t: State, i: int, j: int| #[trigger] p.effect(env, t, i, j) == f(t, i, j),
    ensures
        rows(p, env, s, x0, x1, y0, y1) == rows_by(f, s, x0, x1, y0, y1),
    decreases y1 - y0,
{
    if y1 > y0 {
        lemma_rows_by(p, env, f, s, x0, x1, y0, y1 - 1);
        lemma_row_by(p, env, f, rows_by(f, s, x0, x1, y0, y1 - 1), y1 - 1, x0, x1);
    }
}

/// The smaller of two numbers.
pub open spec fn lesser(a: int, b: int) -> int {
    if a <= b {
        a
    } else {
        b
    }
}

/// The larger of two numbers.
pub open spec fn greater(a: int, b: int) -> int {
    if a >= b {
        a
    } else {
        b
    }
}

/// The state after the cells of a rectangle are visited, but for those in the last row and
/// column of the grid.
pub open spec fn inner<P: Pass>(p: P, env: Env, s: State, b: RegionBounds) -> State {
    rows(
        p,
        env,
        s,
        b.min_x as int,
        lesser(b.max_x as int, env.width - 1),
        b.min_y as int,
        lesser(b.max_y as int, env.height - 1),
    )
}

/// A cell inside the grid has an index inside the buffers.
pub proof fn lemma_index(env: Env, y: int, x: int)
    requires
        0 <= y < env.height,
        0 <= x < env.width,
    ensures
        0 <= y * env.width,
        0 <= y * env.width + x < env.cell_count(),
{
    let w = env.width as int;
    let h = env.height as int;
    assert(0 <= y * w && y * w + x < w * h) by (nonlinear_arith)
        requires
            0 <= y < h,
            0 <= x < w,
    ;
}

/// The row of a cell inside the buffers is inside the grid.
pub proof fn lemma_inside(env: Env, y: int, x: int)
    requires
        0 <= y,
        0 <= x,
        y * env.width + x < env.cell_count(),
    ensures
        y < env.height,
        env.width > 0,
{
    let w = env.width as int;
    let h = env.height as int;
    assert(y < h && w > 0) by (nonlinear_arith)
        requires
            0 <= y,
            0 <= x,
            y * w + x < w * h,
            w >= 0,
    ;
}

/// What a visit makes of a state where the cell is inside the buffers; others are skipped.
pub open spec fn reached<P: Pass>(p: P, env: Env, s: State, y: int, x: int) -> State {
    if y * env.width + x < env.cell_count() {
        p.effect(env, s, y, x)
    } else {
        s
    }
}

/// The state after those cells of a row's columns `lo..hi` are visited that are inside the
/// buffers.
pub open spec fn row_reached<P: Pass>(p: P, env: Env, s: State, y: int, lo: int, hi: int) -> State
    decreases hi - lo,
{
    if hi <= lo {
        s
    } else {
        reached(p, env, row_reached(p, env, s, y, lo, hi - 1), y, hi - 1)
    }
}

/// The state after those cells of columns `x0..x1` of rows `y0..y1` are visited that are inside
/// the buffers.
pub open spec fn rows_reached<P: Pass>(
    p: P,
    env: Env,
    s: State,
    x0: int,
    x1: int,
    y0: int,
    y1: int,
) -> State
    decreases y1 - y0,
{
    if y1 <= y0 {
        s
    } else {
        row_reached(p, env, rows_reached(p, env, s, x0, x1, y0, y1 - 1), y1 - 1, x0, x1)
    }
}

/// The state after the cells of a rectangle are visited, but for those beyond the buffers.
pub open spec fn all_reached<P: Pass>(p: P, env: Env, s: State, b: RegionBounds) -> State {
    rows_reached(p, env, s, b.min_x as int, b.max_x as int, b.min_y as int, b.max_y as int)
}

/// Nothing happens to the right of the last cell inside the buffers.
proof fn lemma_row_beyond<P: Pass>(p: P, env: Env, s: State, y: int, lo: int, mid: int, hi: int)
    requires
        lo <= mid <= hi,
        y * env.width + mid >= env.cell_count(),
    ensures
        row_reached(p, env, s, y, lo, hi) == row_reached(p, env, s, y, lo, mid),
    decreases hi - mid,
{
    if mid < hi {
        lemma_row_beyond(p, env, s, y, lo, mid, hi - 1);
    }
}

/// Nothing happens above the last row inside the buffers.
proof fn lemma_rows_beyond<P: Pass>(
    p: P,
    env: Env,
    s: State,
    x0: int,
    x1: int,
    y0: int,
    mid: int,
    y1: int,
)
    requires
        0 <= x0,
        y0 <= mid <= y1,
        mid * env.width >= env.cell_count(),
    ensures
        rows_reached(p, env, s, x0, x1, y0, y1) == rows_reached(p, env, s, x0, x1, y0, mid),
    decreases y1 - mid,
{
    if mid < y1 {
        lemma_rows_beyond(p, env, s, x0, x1, y0, mid, y1 - 1);
        let t = rows_reached(p, env, s, x0, x1, y0, y1 - 1);
        let y = y1 - 1;
        let w = env.width as int;
        assert(mid * w <= y * w) by (nonlinear_arith)
            requires
                mid <= y,
                w >= 0,
        ;
        if x0 < x1 {
            lemma_row_beyond(p, env, t, y, x0, x0, x1);
        }
    }
}

/// Work with the same visits has the same outcome.
pub proof fn lemma_row_reached_by<P: Pass>(
    p: P,
    env: Env,
    f: Visit,
    s: State,
    y: int,
    lo: int,
    hi: int,
)
    requires
        forall|t: State, i: int, j: int| #[trigger] reached(p, env, t, i, j) == f(t, i, j),
    ensures
        row_reached(p, env, s, y, lo, hi) == row_by(f, s, y, lo, hi),
    decreases hi - lo,
{
    if hi > lo {
        lemma_row_reached_by(p, env, f, s, y, lo, hi - 1);
    }
}

/// Work with the same visits has the same outcome.
pub proof fn lemma_rows_reached_by<P: Pass>(
    p: P,
    env: Env,
    f: Visit,
    s: State,
    x0: int,
    x1: int,
    y0: int,
    y1: int,
)
    requires
        forall|t: State, i: int, j: int| #[trigger] reached(p, env, t, i, j) == f(t, i, j),
    ensures
        rows_reached(p, env, s, x0, x1, y0, y1) == rows_by(f, s, x0, x1, y0, y1),
    decreases y1 - y0,
{
    if y1 > y0 {
        lemma_rows_reached_by(p, env, f, s, x0, x1, y0, y1 - 1);
        lemma_row_reached_by(p, env, f, rows_by(f, s, x0, x1, y0, y1 - 1), y1 - 1, x0, x1);
    }
}

/// Visits the cells of a rectangle, but for those beyond the buffers.
pub fn sweep_reached<P: Pass>(p: &P, sim: &mut SimData, b: RegionBounds)
    requires
        old(sim).wf(),
        p.ready(old(sim).env, old(sim)@),
    ensures
        sim_data::stepped(*old(sim), *final(sim), all_reached(*p, old(sim).env, old(sim)@, b)),
{
    let w: usize = sim.env.width;
    let n: usize = sim.env.total();
    let ghost x0 = b.min_x as int;
    let ghost x1 = b.max_x as int;
    let ghost y0 = b.min_y as int;
    let mut y: usize = b.min_y;
    while y < b.max_y
        invariant_except_break
            sim@ == rows_reached(*p, sim.env, old(sim)@, x0, x1, y0, y as int),
        invariant
            y0 == b.min_y,
            x0 == b.min_x,
            x1 == b.max_x,
            y0 <= y,
            y <= b.max_y || y == y0,
            w == sim.env.width,
            n == sim.env.cell_count(),
            sim.wf(),
            sim.env == old(sim).env,
            sim_data::same_shape(old(sim)@, sim@),
            p.ready(sim.env, sim@),
        ensures
            sim@ == all_reached(*p, sim.env, old(sim)@, b),
        decreases b.max_y - y,
    {
        proof {
            assert(0 <= y * w <= 0xffff_ffff_ffff_ffff * 0x7fff_ffff) by (nonlinear_arith)
                requires
                    0 <= y <= 0xffff_ffff_ffff_ffff,
                    0 <= w <= 0x7fff_ffff,
            ;
        }
        if y as u128 * w as u128 >= n as u128 {
            proof {
                lemma_rows_beyond(
                    *p,
                    sim.env,
                    old(sim)@,
                    x0,
                    x1,
                    y0,
                    y as int,
                    b.max_y as int,
                );
            }
            break ;
        }
        let start: usize = y * w;
        let ghost s0 = sim@;
        let mut x: usize = b.min_x;
        while x < b.max_x && x < n - start
            invariant
                x0 == b.min_x,
                x0 <= x,
                x <= b.max_x || x == x0,
                start == y * w,
                start < n,
                w == sim.env.width,
                n == sim.env.cell_count(),
                sim.wf(),
                sim.env == old(sim).env,
                sim_data::same_shape(old(sim)@, sim@),
                p.ready(sim.env, sim@),
                sim@ == row_reached(*p, sim.env, s0, y as int, x0, x as int),
            decreases b.max_x - x,
        {
            let ghost before = sim@;
            p.visit(sim, y, x, start + x);
            proof {
                p.stays_ready(sim.env, before, y as int, x as int);
            }
            x = x + 1;
        }
        proof {
            if x < b.max_x {
                lemma_row_beyond(*p, sim.env, s0, y as int, x0, x as int, b.max_x as int);
            }
        }
        y = y + 1;
    }
}

/// Visits columns `x0..x1` of rows `y0..y1`.
pub fn sweep_rows<P: Pass>(p: &P, sim: &mut SimData, x0: usize, x1: usize, y0: usize, y1: usize)
    requires
        old(sim).wf(),
        p.ready(old(sim).env, old(sim)@),
        x1 <= old(sim).env.width,
        y1 <= old(sim).env.height,
    ensures
        sim_data::stepped(
            *old(sim),
            *final(sim),
            rows(*p, old(sim).env, old(sim)@, x0 as int, x1 as int, y0 as int, y1 as int),
        ),
{
    let mut y: usize = y0;
    while y < y1
        invariant
            y0 <= y,
            y <= y1 || y == y0,
            x1 <= sim.env.width,
            y1 <= sim.env.height,
            sim.wf(),
            sim.env == old(sim).env,
            sim_data::same_shape(old(sim)@, sim@),
            p.ready(sim.env, sim@),
            sim@ == rows(*p, sim.env, old(sim)@, x0 as int, x1 as int, y0 as int, y as int),
        decreases y1 - y,
    {
        let ghost start = sim@;
        let mut x: usize = x0;
        while x < x1
            invariant
                x0 <= x,
                x <= x1 || x == x0,
                y < y1,
                x1 <= sim.env.width,
                y1 <= sim.env.height,
                sim.wf(),
                sim.env == old(sim).env,
                sim_data::same_shape(old(sim)@, sim@),
                p.ready(sim.env, sim@),
                sim@ == row(*p, sim.env, start, y as int, x0 as int, x as int),
            decreases x1 - x,
        {
            proof {
                lemma_index(sim.env, y as int, x as int);
            }
            let ghost before = sim@;
            p.visit(sim, y, x, y * sim.env.width + x);
            proof {
                p.stays_ready(sim.env, before, y as int, x as int);
            }
            x = x + 1;
        }
        y = y + 1;
    }
}

/// Visits the cells of a rectangle, but for those in the last row and column of the grid.
pub fn sweep_inner<P: Pass>(p: &P, sim: &mut SimData, b: RegionBounds)
    requires
        old(sim).wf(),
        p.ready(old(sim).env, old(sim)@),
        old(sim).env.width > 0,
        old(sim).env.height > 0,
    ensures
        sim_data::stepped(*old(sim), *final(sim), inner(*p, old(sim).env, old(sim)@, b)),
{
    let x1: usize = if b.max_x <= sim.env.width - 1 {
        b.max_x
    } else {
        sim.env.width - 1
    };
    let y1: usize = if b.max_y <= sim.env.height - 1 {
        b.max_y
    } else {
        sim.env.height - 1
    };
    sweep_rows(p, sim, b.min_x, x1, b.min_y, y1);
}

} // verus!
