//! In which order the parts of a step go, and the cells in each part.
use crate::cell::Cell;
use crate::constants::ZERO;
use crate::disease;
use crate::disease::AgePass;
use crate::gas_flow;
use crate::gas_flow::GasPass;
use crate::gas_flow::GasPushPass;
use crate::liquid_flow;
use crate::liquid_flow::LiquidPass;
use crate::number::num;
use crate::number::F32;
use crate::physics;
use crate::physics::Reply;
use crate::physics::Substep;
use crate::post_process;
use crate::post_process::Pause;
use crate::pressure;
use crate::pressure::SqueezePass;
use crate::radiation;
use crate::sim_data::Env;
use crate::sim_data::RegionBounds;
use crate::sim_data::State;
use crate::space;
use crate::space::SpacePass;
use crate::sweep;
use crate::sweep::Pass;
use vstd::prelude::*;

verus! {

/// The state after the cells of a list of rows and columns have been visited, one after the other.
pub open spec fn visited<P: Pass>(p: P, env: Env, s: State, list: Seq<(int, int)>) -> State
    decreases list.len(),
{
    if list.len() == 0 {
        s
    } else {
        let last = list.last();
        p.effect(env, visited(p, env, s, list.drop_last()), last.0, last.1)
    }
}

/// The cells of columns `x0..x1` of rows `y0..y1`: the lower row first, and in a row the left
/// column first.
pub open spec fn reading_order(x0: int, x1: int, y0: int, y1: int) -> Seq<(int, int)> {
    let w = if x0 < x1 {
        x1 - x0
    } else {
        0
    };
    let h = if y0 < y1 {
        y1 - y0
    } else {
        0
    };
    Seq::new((w * h) as nat, |k: int| (y0 + k / w, x0 + k % w))
}

/// A rectangle is gone through row after row, from the lowest on, and each row from left to right.
pub proof fn law_rows_in_order<P: Pass>(
    p: P,
    env: Env,
    s: State,
    x0: int,
    x1: int,
    y0: int,
    y1: int,
)
    requires
        x0 <= x1,
        y0 <= y1,
    ensures
        sweep::rows(p, env, s, x0, x1, y0, y1) == visited(
            p,
            env,
            s,
            reading_order(x0, x1, y0, y1),
        ),
    decreases y1 - y0,
{
    let w = x1 - x0;
    let h = y1 - y0;
    if y1 == y0 {
        assert(w * 0 == 0);
        assert(reading_order(x0, x1, y0, y1).len() == 0);
    } else {
        law_rows_in_order(p, env, s, x0, x1, y0, y1 - 1);
        let before = reading_order(x0, x1, y0, y1 - 1);
        let all = reading_order(x0, x1, y0, y1);
        assert(w * h == w * (h - 1) + w && w * (h - 1) >= 0) by (nonlinear_arith)
            requires
                w >= 0,
                h >= 1,
        ;
        lemma_row_in_order(p, env, s, x0, x1, y0, y1, x1);
        assert(all.take(w * (h - 1) + w) =~= all);
    }
}

proof fn lemma_row_in_order<P: Pass>(
    p: P,
    env: Env,
    s: State,
    x0: int,
    x1: int,
    y0: int,
    y1: int,
    x: int,
)
    requires
        x0 <= x <= x1,
        y0 < y1,
        sweep::rows(p, env, s, x0, x1, y0, y1 - 1) == visited(
            p,
            env,
            s,
            reading_order(x0, x1, y0, y1 - 1),
        ),
        (x1 - x0) * (y1 - y0) == (x1 - x0) * (y1 - y0 - 1) + (x1 - x0),
        (x1 - x0) * (y1 - y0 - 1) >= 0,
    ensures
        ({
            let t = sweep::rows(p, env, s, x0, x1, y0, y1 - 1);
            let n = (x1 - x0) * (y1 - y0 - 1) + (x - x0);
            sweep::row(p, env, t, y1 - 1, x0, x) == visited(
                p,
                env,
                s,
                reading_order(x0, x1, y0, y1).take(n),
            )
        }),
    decreases x - x0,
{
    let w = x1 - x0;
    let h = y1 - y0;
    let all = reading_order(x0, x1, y0, y1);
    let m = w * (h - 1);
    if x == x0 {
        let before = reading_order(x0, x1, y0, y1 - 1);
        assert(all.take(m + (x - x0)) =~= before) by {
            if w == 0 {
                assert(m == 0) by (nonlinear_arith)
                    requires
                        m == w * (h - 1),
                        w == 0,
                ;
            }
        }
    } else {
        lemma_row_in_order(p, env, s, x0, x1, y0, y1, x - 1);
        let n = m + (x - x0);
        let list = all.take(n);
        assert(list.drop_last() =~= all.take(n - 1));
        let j = x - 1 - x0;
        assert((m + j) / w == h - 1 && (m + j) % w == j) by {
            vstd::arithmetic::div_mod::lemma_fundamental_div_mod_converse(m + j, w, h - 1, j);
        }
        assert(list.last() == (y1 - 1, x - 1));
    }
}

/// What a part of a step does cell by cell, to each cell by itself, it does to each cell of its
/// rectangle once, and to no other.
pub proof fn law_each_cell_once<P: Pass>(
    p: P,
    env: Env,
    s: State,
    x0: int,
    x1: int,
    y0: int,
    y1: int,
    g: spec_fn(int, Cell) -> Cell,
    y: int,
    x: int,
)
    requires
        s.updated.len() == env.cell_count(),
        0 <= x0,
        x1 <= env.width,
        0 <= y0,
        y1 <= env.height,
        0 <= y < env.height,
        0 <= x < env.width,
        forall|t: State, v: int, u: int|
            t.updated.len() == env.cell_count() && 0 <= v < env.height && 0 <= u < env.width ==> (
            #[trigger] p.effect(env, t, v, u)).updated == t.updated.update(
                v * env.width + u,
                g(v * env.width + u, t.updated[v * env.width + u]),
            ),
    ensures
        ({
            let i = y * env.width + x;
            let t = sweep::rows(p, env, s, x0, x1, y0, y1);
            &&& t.updated.len() == s.updated.len()
            &&& t.updated[i] == if x0 <= x < x1 && y0 <= y < y1 {
                g(i, s.updated[i])
            } else {
                s.updated[i]
            }
        }),
    decreases y1 - y0,
{
    if y1 > y0 {
        law_each_cell_once(p, env, s, x0, x1, y0, y1 - 1, g, y, x);
        let t = sweep::rows(p, env, s, x0, x1, y0, y1 - 1);
        lemma_each_in_row(p, env, t, x0, x1, y1 - 1, g, y, x);
    }
}

proof fn lemma_each_in_row<P: Pass>(
    p: P,
    env: Env,
    s: State,
    lo: int,
    hi: int,
    v: int,
    g: spec_fn(int, Cell) -> Cell,
    y: int,
    x: int,
)
    requires
        s.updated.len() == env.cell_count(),
        0 <= lo,
        hi <= env.width,
        0 <= v < env.height,
        0 <= y < env.height,
        0 <= x < env.width,
        forall|t: State, v: int, u: int|
            t.updated.len() == env.cell_count() && 0 <= v < env.height && 0 <= u < env.width ==> (
            #[trigger] p.effect(env, t, v, u)).updated == t.updated.update(
                v * env.width + u,
                g(v * env.width + u, t.updated[v * env.width + u]),
            ),
    ensures
        ({
            let i = y * env.width + x;
            let t = sweep::row(p, env, s, v, lo, hi);
            &&& t.updated.len() == s.updated.len()
            &&& t.updated[i] == if lo <= x < hi && y == v {
                g(i, s.updated[i])
            } else {
                s.updated[i]
            }
        }),
    decreases hi - lo,
{
    if hi > lo {
        lemma_each_in_row(p, env, s, lo, hi - 1, v, g, y, x);
        let t = sweep::row(p, env, s, v, lo, hi - 1);
        sweep::lemma_index(env, y, x);
        sweep::lemma_index(env, v, hi - 1);
        let w = env.width as int;
        if y * w + x == v * w + hi - 1 {
            assert(y == v) by (nonlinear_arith)
                requires
                    0 <= x < w,
                    0 <= hi - 1 < w,
                    y * w + x == v * w + hi - 1,
            ;
        }
    }
}

/// Space takes from each cell of a rectangle once, but for the last row and column of the grid.
pub proof fn law_space_takes_once(env: Env, s: State, b: RegionBounds, y: int, x: int)
    requires
        env.width >= 3,
        env.height >= 3,
        s.updated.len() == env.cell_count(),
        s.flow.len() == env.cell_count(),
        env.world_zones@.len() == env.cell_count(),
        env.backwall@.len() == env.cell_count(),
        0 <= y < env.height,
        0 <= x < env.width,
    ensures
        ({
            let i = y * env.width + x;
            let t = space::vented(env, s, b);
            let inside = b.min_x <= x < b.max_x && x < env.width - 1 && b.min_y <= y < b.max_y && y
                < env.height - 1;
            &&& inside ==> t.updated[i] == SpacePass.effect(env, s, y, x).updated[i]
            &&& !inside ==> t.updated[i] == s.updated[i]
        }),
{
    let g = |i: int, c: Cell|
        {
            let exposed = env.world_zones@[i] == space::SPACE_ZONE && env.backwall@[i]
                == env.backwall_vacuum_element_idx;
            match space::loss_rate(env.elements.spec_post_phase(c.element_idx)) {
                Some(rate) => if exposed {
                    Cell { mass: space::drained(c.mass, rate), ..c }
                } else {
                    c
                },
                None => c,
            }
        };
    assert forall|t: State, v: int, u: int|
        t.updated.len() == env.cell_count() && 0 <= v < env.height && 0 <= u < env.width implies (
    #[trigger] SpacePass.effect(env, t, v, u)).updated == t.updated.update(
        v * env.width + u,
        g(v * env.width + u, t.updated[v * env.width + u]),
    ) by {
        sweep::lemma_index(env, v, u);
        let i = v * env.width + u;
        assert(t.updated.update(i, t.updated[i]) =~= t.updated);
    }
    let x1 = sweep::lesser(b.max_x as int, env.width - 1);
    let y1 = sweep::lesser(b.max_y as int, env.height - 1);
    law_each_cell_once(
        SpacePass,
        env,
        s,
        b.min_x as int,
        x1,
        b.min_y as int,
        y1,
        g,
        y,
        x,
    );
    sweep::lemma_index(env, y, x);
    sweep::lemma_index(env, env.height - 1, env.width - 1);
}

/// The parts of a region's step: gases spread, then push; on what they leave, liquids move, then
/// squeeze; on what those leave, germs spread, and then radiation. Before each part, what it finds
/// is what the last one left.
pub proof fn law_parts_of_a_step(env: Env, s: State, b: RegionBounds, cosmic: F32)
    requires
        !b.is_empty(),
        !s.unallocated(),
    ensures
        ({
            let found = |t: State|
                if t.unallocated() {
                    t
                } else {
                    State { cells: t.updated, ..t }
                };
            let gases = gas_flow::gases_spread(env, found(s), b);
            let pushed = gas_flow::gases_pushed(env, gases, b);
            let liquids = liquid_flow::liquids_moved(env, found(pushed), b);
            let squeezed = pressure::all_squeezed(env, liquids, b);
            let germs = disease::germs_spread(env, found(squeezed), b);
            physics::region_moved(env, s, b, cosmic, false) == radiation::irradiated(
                env,
                germs,
                b,
                cosmic,
            )
        }),
{
}

/// The stages of a region come one after the other: solids are strengthened, heat flows, gases,
/// liquids, germs and radiation have their turns, components do their work, and solids are
/// strengthened again. Nothing but the third of these is done by the step itself.
pub proof fn law_stages_in_order(env: Env, s: State, step: Substep, reply: Reply)
    requires
        step.stage is Strengthen || step.stage is Heat || step.stage is Components,
        step.region < physics::regions(env).len(),
    ensures
        ({
            let (t, next) = step.replied(env, s, reply);
            let r = physics::regions(env)[step.region as int];
            &&& step.stage is Strengthen ==> t == s && next.stage is Heat
            &&& step.stage is Heat ==> next.stage is Components && t == physics::region_moved(
                env,
                s,
                r.bounds,
                r.current_cosmic_radiation_intensity,
                false,
            )
            &&& step.stage is Components ==> t == s && next.stage is Harden
            &&& next.region == step.region
        }),
{
}

/// Then space takes its part of the wider rectangle, and the closing pass goes over that, with as
/// many pauses as it needs; then germs grow.
pub proof fn law_closing_stage(env: Env, s: State, step: Substep, reply: Reply)
    requires
        step.stage is Harden,
        step.region < physics::regions(env).len(),
        !physics::regions(env)[step.region as int].bounds.is_empty(),
    ensures
        ({
            let (t, next) = step.replied(env, s, reply);
            let b = physics::regions(env)[step.region as int].post_process_bounds;
            let (u, c) = post_process::closing(env, space::vented(env, s, b), b);
            &&& t == u
            &&& next.closing == c
            &&& c.pause == Pause::Done ==> next.stage is Growth
            &&& c.pause != Pause::Done ==> next.stage is Closing
            &&& next.region == step.region
        }),
{
}

/// After the last stage the next region that is not empty has its turn, and after the last region
/// the clock goes on by one.
pub proof fn law_regions_in_order(env: Env, s: State, step: Substep, reply: Reply)
    requires
        step.stage is Growth,
        step.region < physics::regions(env).len(),
        physics::regions(env).len() <= usize::MAX,
        s.tick_count < u32::MAX,
    ensures
        ({
            let (t, next) = step.replied(env, s, reply);
            &&& next.stage is Over || next.stage is Strengthen
            &&& next.region > step.region
            &&& next.stage is Over ==> t.tick_count == s.tick_count + 1
            &&& next.stage is Strengthen ==> t.tick_count == s.tick_count
            &&& next.stage is Strengthen ==> !physics::regions(
                env,
            )[next.region as int].bounds.is_empty()
            &&& forall|i: int|
                step.region < i < next.region ==> (#[trigger] physics::regions(
                    env,
                )[i]).bounds.is_empty()
        }),
{
    let b = physics::regions(env)[step.region as int].bounds;
    lemma_next_region(env, step.region + 1);
    lemma_clock(env, s, b, reply.spec_powers());
}

proof fn lemma_next_region(env: Env, i: int)
    requires
        0 <= i <= physics::regions(env).len(),
    ensures
        ({
            let n = physics::next_region(env, i);
            &&& i <= n <= physics::regions(env).len()
            &&& n < physics::regions(env).len() ==> !physics::regions(env)[n].bounds.is_empty()
            &&& forall|j: int|
                i <= j < n ==> (#[trigger] physics::regions(env)[j]).bounds.is_empty()
        }),
    decreases physics::regions(env).len() - i,
{
    if i < physics::regions(env).len() && physics::regions(env)[i].bounds.is_empty() {
        lemma_next_region(env, i + 1);
    }
}

proof fn lemma_clock(env: Env, s: State, b: RegionBounds, powers: Seq<F32>)
    ensures
        disease::germs_grown(env, s, b, powers).tick_count == s.tick_count,
{
    if disease::growing(env, s) {
        let f = disease::growing_by(env, disease::first_cell(env, b), powers);
        lemma_clock_rows(
            env,
            f,
            s,
            b.min_x as int,
            b.max_x as int,
            b.min_y as int,
            b.max_y as int,
        );
        let t = sweep::rows_by(
            f,
            s,
            b.min_x as int,
            b.max_x as int,
            b.min_y as int,
            b.max_y as int,
        );
        lemma_clock_reached(
            env,
            t,
            b.min_x as int,
            b.max_x as int,
            b.min_y as int,
            b.max_y as int,
        );
    }
}

proof fn lemma_clock_rows(
    env: Env,
    f: sweep::Visit,
    s: State,
    x0: int,
    x1: int,
    y0: int,
    y1: int,
)
    requires
        forall|t: State, y: int, x: int| (#[trigger] f(t, y, x)).tick_count == t.tick_count,
    ensures
        sweep::rows_by(f, s, x0, x1, y0, y1).tick_count == s.tick_count,
    decreases y1 - y0,
{
    if y1 > y0 {
        lemma_clock_rows(env, f, s, x0, x1, y0, y1 - 1);
        lemma_clock_row(f, sweep::rows_by(f, s, x0, x1, y0, y1 - 1), y1 - 1, x0, x1);
    }
}

proof fn lemma_clock_row(f: sweep::Visit, s: State, y: int, lo: int, hi: int)
    requires
        forall|t: State, y: int, x: int| (#[trigger] f(t, y, x)).tick_count == t.tick_count,
    ensures
        sweep::row_by(f, s, y, lo, hi).tick_count == s.tick_count,
    decreases hi - lo,
{
    if hi > lo {
        lemma_clock_row(f, s, y, lo, hi - 1);
    }
}

proof fn lemma_clock_reached(env: Env, s: State, x0: int, x1: int, y0: int, y1: int)
    ensures
        sweep::rows_reached(AgePass, env, s, x0, x1, y0, y1).tick_count == s.tick_count,
    decreases y1 - y0,
{
    if y1 > y0 {
        lemma_clock_reached(env, s, x0, x1, y0, y1 - 1);
        let t = sweep::rows_reached(AgePass, env, s, x0, x1, y0, y1 - 1);
        lemma_clock_row_reached(env, t, y1 - 1, x0, x1);
    }
}

proof fn lemma_clock_row_reached(env: Env, s: State, y: int, lo: int, hi: int)
    ensures
        sweep::row_reached(AgePass, env, s, y, lo, hi).tick_count == s.tick_count,
    decreases hi - lo,
{
    if hi > lo {
        lemma_clock_row_reached(env, s, y, lo, hi - 1);
    }
}

/// Liquids move cell by cell: only where the step found a liquid with some mass.
pub proof fn law_who_moves(env: Env, s: State, y: int, x: int)
    ensures
        ({
            let i = y * env.width + x;
            let t = LiquidPass.effect(env, s, y, x);
            let liquid = env.elements.spec_liquid(s.cells[i].element_idx) matches Some(d) && d.state
                & 3 == 2;
            &&& liquid && num(ZERO).lt(s.cells[i].mass) ==> t == liquid_flow::liquid_moved(
                env,
                s,
                i,
            )
            &&& !liquid || !num(ZERO).lt(s.cells[i].mass) ==> t == s
        }),
{
    if let Some(d) = env.elements.spec_liquid(s.cells[y * env.width + x].element_idx) {
        crate::move_laws::lemma_two_bits(d.state);
    }
}

/// The margins that each part leaves out: gases spread between the edges of the grid, gases and
/// liquids push three cells away from them, and the closing pass leaves out the last row and
/// column.
pub proof fn law_margins(env: Env, s: State, b: RegionBounds)
    requires
        env.width >= 7,
        env.height >= 7,
        !s.unallocated(),
        b.min_x == 0,
        b.min_y == 0,
        b.max_x == env.width,
        b.max_y == env.height,
    ensures
        ({
            let (w, h) = (env.width as int, env.height as int);
            let gases = GasPass { x0: 1, x1: (w - 1) as usize };
            &&& gas_flow::gases_spread(env, s, b) == sweep::rows(
                gases,
                env,
                s,
                1,
                w - 1,
                1,
                h - 1,
            )
            &&& gas_flow::gases_pushed(env, s, b) == sweep::rows(
                GasPushPass,
                env,
                s,
                3,
                w - 3,
                3,
                h - 3,
            )
            &&& pressure::all_squeezed(env, s, b) == sweep::rows(
                SqueezePass,
                env,
                s,
                3,
                w - 3,
                3,
                h - 3,
            )
            &&& liquid_flow::liquids_moved(env, s, b) == sweep::rows(
                LiquidPass,
                env,
                s,
                0,
                w - 1,
                0,
                h - 1,
            )
        }),
{
}

/// The closing pass over a rectangle begins at its lowest row and left column, and leaves out the
/// last row and column of the grid.
pub proof fn law_closing_begins(env: Env, s: State, b: RegionBounds)
    requires
        env.width >= 3,
        env.height >= 3,
        !s.unallocated(),
        b.max_x == env.width,
        b.max_y == env.height,
    ensures
        ({
            let (t, c) = post_process::closing(env, s, b);
            let r = post_process::closed_from(
                env,
                s,
                b.min_x as int,
                env.width - 1,
                env.height - 1,
                b.min_y as int,
                b.min_x as int,
            );
            &&& t == r.0
            &&& c.pause == r.3
            &&& c.x0 == b.min_x
            &&& c.x1 == env.width - 1
            &&& c.y1 == env.height - 1
        }),
{
}

/// The liquids of the whole grid move, and then the closing pass goes over it.
pub proof fn law_liquids_alone(env: Env, s: State)
    requires
        env.width >= 1,
        env.height >= 1,
    ensures
        ({
            let b = RegionBounds {
                min_x: 1,
                min_y: 1,
                max_x: (env.width - 1) as usize,
                max_y: (env.height - 1) as usize,
            };
            physics::liquids_closing(env, s) == post_process::closing(
                env,
                liquid_flow::liquids_moved(env, s, b),
                b,
            )
        }),
{
}

/// A step begins by turning its direction and taking what is there as what it finds.
pub proof fn law_step_turns(env: Env, s: State)
    requires
        !s.unallocated(),
        s.iterate_direction == 1 || s.iterate_direction == -1,
    ensures
        ({
            let (t, step) = physics::step_begun(env, s);
            &&& t.iterate_direction == -s.iterate_direction
            &&& t.cells == s.updated
            &&& t.updated == s.updated
        }),
{
}

/// Where regions run side by side, each part finds what the last one left in its own rectangle
/// alone.
pub proof fn law_parts_of_a_step_apart(env: Env, s: State, b: RegionBounds, cosmic: F32)
    requires
        !b.is_empty(),
    ensures
        ({
            let found = |t: State| physics::copied_in(env, t, b);
            let gases = gas_flow::gases_spread(env, found(s), b);
            let pushed = gas_flow::gases_pushed(env, gases, b);
            let liquids = liquid_flow::liquids_moved(env, found(pushed), b);
            let squeezed = pressure::all_squeezed(env, liquids, b);
            let germs = disease::germs_spread(env, found(squeezed), b);
            physics::region_moved(env, s, b, cosmic, true) == radiation::irradiated(
                env,
                germs,
                b,
                cosmic,
            )
        }),
{
}

} // verus!
