//! Making room: what moves when a cell is to be filled by something else.
use crate::constants::CENTI;
use crate::constants::ZERO;
use crate::cell::Cell;
use crate::element::GAS;
use crate::element::LIQUID;
use crate::element::NO_PHASE;
use crate::element::SOLID;
use crate::grid::fast_combined_temperature;
use crate::grid::marked;
use crate::grid::GAS_IMPERMEABLE;
use crate::grid::LIQUID_IMPERMEABLE;
use crate::number::num;
use crate::number::F32;
use crate::sim_data;
use crate::sim_data::next_random;
use crate::sim_data::peek;
use crate::sim_data::push_substance_change;
use crate::sim_data::Env;
use crate::sim_data::SimData;
use crate::sim_data::State;
use crate::sim_data::Vector4f;
use vstd::prelude::*;

verus! {

broadcast use crate::region_events::group_events;

/// The state after all that is in `src` has moved to `dst`.
pub open spec fn moved(env: Env, s: State, src: int, dst: int) -> State {
    let from = s.updated[src];
    let added = s.put(
        dst,
        s.updated[dst].spec_with_mass_added(
            env.diseases,
            from.mass,
            from.temperature,
            from.disease_idx,
            from.disease_count,
        ),
    );
    let renamed = added.put(
        dst,
        Cell { element_idx: added.updated[src].element_idx, ..added.updated[dst] },
    );
    let emptied = renamed.put(src, renamed.updated[src].emptied(env.vacuum_element_idx));
    emptied.changed(env, src).changed(env, dst)
}

/// Moves all that is in `src` to `dst`, which takes on the element of `src`.
pub fn do_displacement(sim: &mut SimData, src: usize, dst: usize)
    requires
        old(sim).wf(),
        src < old(sim)@.updated.len(),
        dst < old(sim)@.updated.len(),
    ensures
        sim_data::stepped(
            *old(sim),
            *final(sim),
            moved(old(sim).env, old(sim)@, src as int, dst as int),
        ),
{
    let from = sim.updated_cells[src];
    let c = sim.updated_cells[dst].with_mass_added(
        &sim.env.diseases,
        from.mass,
        from.temperature,
        from.disease_idx,
        from.disease_count,
    );
    sim.put(dst, c);
    let c = Cell { element_idx: sim.updated_cells[src].element_idx, ..sim.updated_cells[dst] };
    sim.put(dst, c);
    let c = sim.updated_cells[src].emptied(sim.env.vacuum_element_idx);
    sim.put(src, c);
    push_substance_change(sim, src);
    push_substance_change(sim, dst);
}

/// The state after a cell has evaporated.
pub open spec fn evaporated(env: Env, s: State, cell: int) -> State {
    if cell >= s.updated.len() {
        s
    } else {
        s.put(cell, s.updated[cell].emptied(env.vacuum_element_idx)).changed(env, cell)
    }
}

/// Empties a cell and reports it.
pub fn do_evaporate(sim: &mut SimData, cell: usize)
    requires
        old(sim).wf(),
    ensures
        sim_data::stepped(
            *old(sim),
            *final(sim),
            evaporated(old(sim).env, old(sim)@, cell as int),
        ),
{
    if cell >= sim.updated_cells.len() {
        return;
    }
    let c = sim.updated_cells[cell].emptied(sim.env.vacuum_element_idx);
    sim.put(cell, c);
    push_substance_change(sim, cell);
}

/// A flow of nothing.
pub open spec fn spec_no_flow() -> Vector4f {
    Vector4f { x: num(ZERO), y: num(ZERO), z: num(ZERO), w: num(ZERO) }
}

/// A flow of nothing.
#[verifier::when_used_as_spec(spec_no_flow)]
pub fn no_flow() -> (v: Vector4f)
    ensures
        v == spec_no_flow(),
{
    Vector4f { x: num(ZERO), y: num(ZERO), z: num(ZERO), w: num(ZERO) }
}

/// Forgets the flow out of a cell.
pub fn clear_flow(sim: &mut SimData, cell: usize)
    requires
        old(sim).wf(),
        cell < old(sim).env.cell_count(),
    ensures
        sim_data::stepped(*old(sim), *final(sim), old(sim)@.with_flow(cell as int, no_flow())),
{
    sim.set_flow(cell, no_flow());
}

/// The neighbours to which a gas escapes: above, left, right, below.
pub open spec fn gas_exit(env: Env, cell: int, k: int) -> int {
    if k == 0 {
        cell + env.width
    } else if k == 1 {
        cell - 1
    } else if k == 2 {
        cell + 1
    } else {
        cell - env.width
    }
}

/// Whether a cell takes in `gas`: it holds that gas or nothing, and admits gases.
pub open spec fn takes_gas(env: Env, s: State, c: int, gas: u16) -> bool {
    match sim_data::at(s.updated, c) {
        Some(x) => (x.element_idx == gas || x.element_idx == env.vacuum_element_idx) && !marked(
            x,
            GAS_IMPERMEABLE,
        ),
        None => false,
    }
}

/// The first neighbour that takes in `gas`, from the `i`th in the order of the tick.
pub open spec fn straight_exit(env: Env, s: State, cell: int, gas: u16, i: int) -> Option<int>
    decreases 4 - i,
{
    if i >= 4 {
        None
    } else {
        let c = gas_exit(env, cell, (s.tick_count + i) % 4);
        if takes_gas(env, s, c, gas) {
            Some(c)
        } else {
            straight_exit(env, s, cell, gas, i + 1)
        }
    }
}

/// Whether `gas` slips diagonally upwards to side `dir` (0 left, 1 right): that cell holds
/// the gas and admits it, and the neighbour on that side is known and not solid.
pub open spec fn slips(env: Env, s: State, cell: int, gas: u16, dir: int) -> bool {
    match (
        sim_data::at(s.updated, cell + env.width - 1 + 2 * dir),
        sim_data::at(s.updated, cell - 1 + 2 * dir),
    ) {
        (Some(x), Some(y)) => {
            &&& x.element_idx == gas
            &&& env.elements.spec_liquid_phase(y.element_idx) != SOLID
            &&& env.elements.spec_liquid_phase(y.element_idx) != NO_PHASE
            &&& !marked(x, GAS_IMPERMEABLE)
        },
        _ => false,
    }
}

/// Where the gas in a cell goes when it is pushed out: to a neighbour that takes it in, or
/// else diagonally upwards.
pub open spec fn gas_goal(env: Env, s: State, cell: int, gas: u16) -> Option<int> {
    match sim_data::at(s.updated, cell) {
        None => None,
        Some(c) => if c.mass.le(num(ZERO)) || env.elements.spec_post_phase(c.element_idx) != GAS {
            None
        } else if straight_exit(env, s, cell, gas, 0) is Some {
            straight_exit(env, s, cell, gas, 0)
        } else {
            let first = (s.tick_count % 2) as int;
            let second = ((s.tick_count + 1) % 2) as int;
            if slips(env, s, cell, gas, first) {
                Some(cell + env.width - 1 + 2 * first)
            } else if slips(env, s, cell, gas, second) {
                Some(cell + env.width - 1 + 2 * second)
            } else {
                None
            }
        },
    }
}

/// The state after the gas in a cell is pushed out, where it can go.
pub open spec fn gas_displaced(env: Env, s: State, cell: int, gas: u16) -> State {
    match gas_goal(env, s, cell, gas) {
        Some(d) => moved(env, s, cell, d),
        None => s,
    }
}

/// Pushes the gas out of a cell, all of it in one direction; false where it cannot go.
pub fn displace_gas(sim: &mut SimData, cell: usize, gas_elem: u16) -> (ok: bool)
    requires
        old(sim).wf(),
    ensures
        sim_data::stepped(
            *old(sim),
            *final(sim),
            gas_displaced(old(sim).env, old(sim)@, cell as int, gas_elem),
        ),
        ok == (gas_goal(old(sim).env, old(sim)@, cell as int, gas_elem) is Some),
{
    if cell >= sim.updated_cells.len() {
        return false;
    }
    let c = sim.updated_cells[cell];
    if c.mass.le(num(ZERO)) || sim.env.elements.post_phase(c.element_idx) != GAS {
        return false;
    }
    let here: i64 = cell as i64;
    let w: i64 = sim.env.width as i64;
    let tick: u32 = sim.tick_count % 4;
    let mut i: u32 = 0;
    while i < 4
        invariant
            i <= 4,
            sim.wf(),
            *sim == *old(sim),
            here == cell,
            w == sim.env.width,
            cell < sim@.updated.len(),
            tick == sim@.tick_count % 4,
            sim_data::at(sim@.updated, cell as int) == Some(c),
            !c.mass.le(num(ZERO)),
            sim.env.elements.spec_post_phase(c.element_idx) == GAS,
            straight_exit(sim.env, sim@, cell as int, gas_elem, 0) == straight_exit(
                sim.env,
                sim@,
                cell as int,
                gas_elem,
                i as int,
            ),
        decreases 4 - i,
    {
        let k: u32 = (tick + i) % 4;
        assert(k == (sim@.tick_count + i) % 4);
        let t: i64 = if k == 0 {
            here + w
        } else if k == 1 {
            here - 1
        } else if k == 2 {
            here + 1
        } else {
            here - w
        };
        match peek(&sim.updated_cells, t) {
            Some(x) => {
                if (x.element_idx == gas_elem || x.element_idx == sim.env.vacuum_element_idx)
                    && !marked(x, GAS_IMPERMEABLE) {
                    do_displacement(sim, cell, t as usize);
                    return true;
                }
            },
            None => {},
        }
        i = i + 1;
    }
    let mut j: u32 = 0;
    while j < 2
        invariant
            j <= 2,
            sim.wf(),
            *sim == *old(sim),
            here == cell,
            w == sim.env.width,
            cell < sim@.updated.len(),
            tick == sim@.tick_count % 4,
            sim_data::at(sim@.updated, cell as int) == Some(c),
            !c.mass.le(num(ZERO)),
            sim.env.elements.spec_post_phase(c.element_idx) == GAS,
            straight_exit(sim.env, sim@, cell as int, gas_elem, 0) is None,
            j > 0 ==> !slips(sim.env, sim@, cell as int, gas_elem, (sim@.tick_count % 2) as int),
            j > 1 ==> !slips(
                sim.env,
                sim@,
                cell as int,
                gas_elem,
                ((sim@.tick_count + 1) % 2) as int,
            ),
        decreases 2 - j,
    {
        let dir: i64 = ((tick + j) % 2) as i64;
        assert(dir == (sim@.tick_count + j) % 2);
        let t: i64 = here + w - 1 + 2 * dir;
        match (peek(&sim.updated_cells, t), peek(&sim.updated_cells, here - 1 + 2 * dir)) {
            (Some(x), Some(y)) => {
                let side: u8 = sim.env.elements.liquid_phase(y.element_idx);
                if x.element_idx == gas_elem && side != SOLID && side != NO_PHASE && !marked(
                    x,
                    GAS_IMPERMEABLE,
                ) {
                    do_displacement(sim, cell, t as usize);
                    return true;
                }
            },
            _ => {},
        }
        j = j + 1;
    }
    false
}

/// The neighbours among which a liquid is divided: right, left, above, below.
pub open spec fn liquid_exit(env: Env, cell: int, k: int) -> int {
    if k == 0 {
        cell + 1
    } else if k == 1 {
        cell - 1
    } else if k == 2 {
        cell + env.width
    } else {
        cell - env.width
    }
}

/// Whether a cell takes in a share of `elem`.
pub open spec fn takes_liquid(env: Env, s: State, c: int, elem: u16) -> bool {
    match sim_data::at(s.updated, c) {
        Some(x) => (x.element_idx == elem || x.element_idx == env.vacuum_element_idx) && !marked(
            x,
            LIQUID_IMPERMEABLE,
        ),
        None => false,
    }
}

/// Those of the first `k` neighbours that take in a share of `elem`.
pub open spec fn receivers(env: Env, s: State, cell: int, elem: u16, k: int) -> Seq<int>
    decreases k,
{
    if k <= 0 {
        Seq::empty()
    } else {
        let r = receivers(env, s, cell, elem, k - 1);
        if takes_liquid(env, s, liquid_exit(env, cell, k - 1), elem) {
            r.push(liquid_exit(env, cell, k - 1))
        } else {
            r
        }
    }
}

/// `v / n`, rounded towards zero.
pub open spec fn quotient(v: int, n: int) -> int {
    if v >= 0 {
        v / n
    } else {
        -((-v) / n)
    }
}

/// The share of mass and of germs of one of `n` receivers of what is in `c`.
pub open spec fn portion(c: Cell, n: int) -> (F32, i32) {
    (
        c.mass.over(F32::from_i32(n as i32)),
        quotient(c.disease_count.wrapping_add((n - 1) as i32) as int, n) as i32,
    )
}

/// The state after the first `k` of `list` have received their share of `from`.
pub open spec fn poured(
    env: Env,
    s: State,
    from: Cell,
    elem: u16,
    list: Seq<int>,
    k: int,
) -> State
    decreases k,
{
    if k <= 0 {
        s
    } else {
        let p = poured(env, s, from, elem, list, k - 1);
        let c = list[k - 1];
        let (mass, germs) = portion(from, list.len() as int);
        p.put(
            c,
            Cell {
                element_idx: elem,
                ..p.updated[c].spec_with_mass_added(
                    env.diseases,
                    mass,
                    from.temperature,
                    from.disease_idx,
                    germs,
                )
            },
        ).changed(env, c)
    }
}

/// Whether a cell holds enough to be divided among its neighbours, and one takes a share.
pub open spec fn divisible(env: Env, s: State, cell: int, elem: u16) -> bool {
    match sim_data::at(s.updated, cell) {
        Some(c) => !c.mass.lt(num(CENTI)) && receivers(env, s, cell, elem, 4).len() > 0,
        None => false,
    }
}

/// The state after a cell is divided among its neighbours, where it is divisible.
pub open spec fn divided(env: Env, s: State, cell: int, elem: u16) -> State {
    if divisible(env, s, cell, elem) {
        let list = receivers(env, s, cell, elem, 4);
        let p = poured(env, s, s.updated[cell], elem, list, list.len() as int);
        p.put(cell, p.updated[cell].emptied(env.vacuum_element_idx)).changed(env, cell)
    } else {
        s
    }
}

proof fn lemma_receivers(env: Env, s: State, cell: int, elem: u16, k: int)
    requires
        0 <= k <= 4,
    ensures
        receivers(env, s, cell, elem, k).len() <= k,
        forall|j: int|
            0 <= j < receivers(env, s, cell, elem, k).len() ==> 0 <= #[trigger] receivers(
                env,
                s,
                cell,
                elem,
                k,
            )[j] < s.updated.len(),
    decreases k,
{
    if k > 0 {
        lemma_receivers(env, s, cell, elem, k - 1);
    }
}

/// Divides what is in a cell evenly among the neighbours that take it in.
pub fn displace_liquid_simple(sim: &mut SimData, cell: usize, elem: u16) -> (ok: bool)
    requires
        old(sim).wf(),
    ensures
        sim_data::stepped(
            *old(sim),
            *final(sim),
            divided(old(sim).env, old(sim)@, cell as int, elem),
        ),
        ok == divisible(old(sim).env, old(sim)@, cell as int, elem),
{
    if cell >= sim.updated_cells.len() {
        return false;
    }
    let from = sim.updated_cells[cell];
    if from.mass.lt(num(CENTI)) {
        return false;
    }
    let here: i64 = cell as i64;
    let w: i64 = sim.env.width as i64;
    let mut list: Vec<usize> = Vec::new();
    let mut k: u32 = 0;
    let ghost s0 = sim@;
    let ghost env = sim.env;
    while k < 4
        invariant
            k <= 4,
            sim.wf(),
            *sim == *old(sim),
            s0 == sim@,
            env == sim.env,
            here == cell,
            w == sim.env.width,
            cell < sim@.updated.len(),
            list@.map_values(|x: usize| x as int) == receivers(
                env,
                s0,
                cell as int,
                elem,
                k as int,
            ),
        decreases 4 - k,
    {
        let t: i64 = if k == 0 {
            here + 1
        } else if k == 1 {
            here - 1
        } else if k == 2 {
            here + w
        } else {
            here - w
        };
        assert(t == liquid_exit(env, cell as int, k as int));
        match peek(&sim.updated_cells, t) {
            Some(x) => {
                if (x.element_idx == elem || x.element_idx == sim.env.vacuum_element_idx)
                    && !marked(x, LIQUID_IMPERMEABLE) {
                    let ghost before = list@;
                    list.push(t as usize);
                    assert(list@.map_values(|x: usize| x as int) =~= before.map_values(
                        |x: usize| x as int,
                    ).push(t as int));
                }
            },
            None => {},
        }
        k = k + 1;
    }
    let ghost goal = receivers(env, s0, cell as int, elem, 4);
    proof {
        lemma_receivers(env, s0, cell as int, elem, 4);
        assert(goal.len() == list@.len());
    }
    let n: usize = list.len();
    if n == 0 {
        return false;
    }
    let mass = from.mass.over(F32::from_i32(n as i32));
    let total: i32 = from.disease_count.wrapping_add(n as i32 - 1);
    let germs: i32 = if total >= 0 {
        (total as u32 / n as u32) as i32
    } else {
        let q: u32 = (-(total as i64)) as u32 / n as u32;
        assert(q <= 0x8000_0000) by (nonlinear_arith)
            requires
                q == ((-(total as i64)) as u32) / (n as u32),
                -(total as i64) <= 0x8000_0000,
                n >= 1,
                n <= 4,
                total < 0,
        ;
        (-(q as i64)) as i32
    };
    proof {
        assert((n - 1) as i32 == n as i32 - 1);
        if total >= 0 {
            assert(0 <= (total as int) / (n as int) <= total) by (nonlinear_arith)
                requires
                    total >= 0,
                    n >= 1,
            ;
        }
        assert((mass, germs) == portion(from, n as int));
    }
    let mut j: usize = 0;
    while j < n
        invariant
            j <= n,
            n == list@.len(),
            n == goal.len(),
            sim.wf(),
            sim.env == env,
            env == old(sim).env,
            s0 == old(sim)@,
            sim_data::same_shape(s0, sim@),
            cell < s0.updated.len(),
            from == s0.updated[cell as int],
            (mass, germs) == portion(from, n as int),
            list@.map_values(|x: usize| x as int) == goal,
            goal == receivers(env, s0, cell as int, elem, 4),
            forall|i: int| 0 <= i < goal.len() ==> 0 <= #[trigger] goal[i] < s0.updated.len(),
            sim@ == poured(env, s0, from, elem, goal, j as int),
        decreases n - j,
    {
        let c: usize = list[j];
        assert(goal[j as int] == c as int);
        let x = sim.updated_cells[c].with_mass_added(
            &sim.env.diseases,
            mass,
            from.temperature,
            from.disease_idx,
            germs,
        );
        sim.put(c, Cell { element_idx: elem, ..x });
        push_substance_change(sim, c);
        j = j + 1;
    }
    let c = sim.updated_cells[cell].emptied(sim.env.vacuum_element_idx);
    sim.put(cell, c);
    push_substance_change(sim, cell);
    true
}

/// The first neighbour, from the `i`th in the order of the tick, that holds a gas which can be
/// pushed out.
pub open spec fn gas_to_push(env: Env, s: State, cell: int, i: int) -> Option<int>
    decreases 4 - i,
{
    if i >= 4 {
        None
    } else {
        let c = liquid_exit(env, cell, (s.tick_count + i) % 4);
        match sim_data::at(s.updated, c) {
            Some(x) => if env.elements.spec_post_phase(x.element_idx) == GAS && gas_goal(
                env,
                s,
                c,
                x.element_idx,
            ) is Some {
                Some(c)
            } else {
                gas_to_push(env, s, cell, i + 1)
            },
            None => gas_to_push(env, s, cell, i + 1),
        }
    }
}

/// The state after the liquid in a cell is pushed out, and whether it was: it is divided among
/// its neighbours, if need be after a gas beside it has been pushed out first.
pub open spec fn liquid_displaced(env: Env, s: State, cell: int, elem: u16) -> (State, bool) {
    match sim_data::at(s.updated, cell) {
        None => (s, false),
        Some(c) => if c.mass.le(num(ZERO)) || env.elements.spec_post_phase(c.element_idx)
            != LIQUID {
            (s, false)
        } else if divisible(env, s, cell, elem) {
            (divided(env, s, cell, elem), true)
        } else {
            match gas_to_push(env, s, cell, 0) {
                None => (s, false),
                Some(g) => {
                    let t = gas_displaced(env, s, g, s.updated[g].element_idx);
                    (divided(env, t, cell, elem), divisible(env, t, cell, elem))
                },
            }
        },
    }
}

/// Pushes the liquid out of a cell.
pub fn displace_liquid(sim: &mut SimData, cell: usize, elem: u16) -> (ok: bool)
    requires
        old(sim).wf(),
    ensures
        sim_data::stepped(
            *old(sim),
            *final(sim),
            liquid_displaced(old(sim).env, old(sim)@, cell as int, elem).0,
        ),
        ok == liquid_displaced(old(sim).env, old(sim)@, cell as int, elem).1,
{
    if cell >= sim.updated_cells.len() {
        return false;
    }
    let c = sim.updated_cells[cell];
    if c.mass.le(num(ZERO)) || sim.env.elements.post_phase(c.element_idx) != LIQUID {
        return false;
    }
    let ghost s0 = sim@;
    let ghost env = sim.env;
    if displace_liquid_simple(sim, cell, elem) {
        return true;
    }
    assert(sim@ == s0);
    let here: i64 = cell as i64;
    let w: i64 = sim.env.width as i64;
    let tick: u32 = sim.tick_count % 4;
    let mut i: u32 = 0;
    while i < 4
        invariant
            i <= 4,
            sim.wf(),
            sim@ == s0,
            sim.env == env,
            s0 == old(sim)@,
            env == old(sim).env,
            here == cell,
            w == sim.env.width,
            cell < sim@.updated.len(),
            tick == sim@.tick_count % 4,
            sim_data::at(s0.updated, cell as int) == Some(c),
            !c.mass.le(num(ZERO)),
            env.elements.spec_post_phase(c.element_idx) == LIQUID,
            !divisible(env, s0, cell as int, elem),
            gas_to_push(env, s0, cell as int, 0) == gas_to_push(env, s0, cell as int, i as int),
        decreases 4 - i,
    {
        let k: u32 = (tick + i) % 4;
        assert(k == (sim@.tick_count + i) % 4);
        let t: i64 = if k == 0 {
            here + 1
        } else if k == 1 {
            here - 1
        } else if k == 2 {
            here + w
        } else {
            here - w
        };
        assert(t == liquid_exit(env, cell as int, k as int));
        match peek(&sim.updated_cells, t) {
            Some(x) => {
                if sim.env.elements.post_phase(x.element_idx) == GAS {
                    if displace_gas(sim, t as usize, x.element_idx) {
                        return displace_liquid_simple(sim, cell, elem);
                    }
                }
            },
            None => {},
        }
        i = i + 1;
    }
    false
}

/// The state after a cell has sunk below or warmed up the cell below it, and whether it did.
/// Nothing happens where the states of the two elements differ, or where the random number is
/// at most `gate`. A heavier substance sinks. Within one element the warmer cell below
/// rises if it is a gas, and shares its warmth if it is a liquid.
pub open spec fn layered(env: Env, s: State, cell: int, gate: F32) -> (State, bool) {
    let below = cell - env.width;
    if env.width == 0 || below < 0 || cell >= s.updated.len() {
        (s, false)
    } else {
        let c = s.updated[cell];
        let b = s.updated[below];
        match (
            env.elements.spec_post_process(c.element_idx),
            env.elements.spec_post_process(b.element_idx),
        ) {
            (Some(p), Some(q)) => if p.state != q.state {
                (s, false)
            } else {
                let t = s.rolled();
                if t.roll().le(gate) {
                    (t, false)
                } else if q.molar_mass.le(p.molar_mass) && !p.molar_mass.same(q.molar_mass) {
                    (t.swapped(cell, below).changed(env, cell).changed(env, below), true)
                } else if c.element_idx != b.element_idx || b.temperature.le(c.temperature) {
                    (t, false)
                } else if crate::element::phase(p.state) != LIQUID {
                    (t.swapped(cell, below), true)
                } else {
                    let mean = fast_combined_temperature(
                        c.mass,
                        c.temperature,
                        b.mass,
                        b.temperature,
                    );
                    let u = t.put(cell, Cell { temperature: mean, ..t.updated[cell] });
                    (u.put(below, Cell { temperature: mean, ..u.updated[below] }), true)
                }
            },
            _ => (s, false),
        }
    }
}

/// Lets a cell sink below or warm up from the cell below it.
pub fn do_density_displacement(sim: &mut SimData, cell: usize, gate: F32) -> (ok: bool)
    requires
        old(sim).wf(),
    ensures
        sim_data::stepped(
            *old(sim),
            *final(sim),
            layered(old(sim).env, old(sim)@, cell as int, gate).0,
        ),
        ok == layered(old(sim).env, old(sim)@, cell as int, gate).1,
{
    let w: usize = sim.env.width;
    if w == 0 || cell < w || cell >= sim.updated_cells.len() {
        return false;
    }
    let below: usize = cell - w;
    let c = sim.updated_cells[cell];
    let b = sim.updated_cells[below];
    match (
        sim.env.elements.post_process(c.element_idx),
        sim.env.elements.post_process(b.element_idx),
    ) {
        (Some(p), Some(q)) => {
            if p.state != q.state {
                return false;
            }
            if next_random(sim).le(gate) {
                return false;
            }
            if q.molar_mass.le(p.molar_mass) && !p.molar_mass.same(q.molar_mass) {
                sim.swap(cell, below);
                push_substance_change(sim, cell);
                push_substance_change(sim, below);
                return true;
            }
            if c.element_idx != b.element_idx || b.temperature.le(c.temperature) {
                return false;
            }
            if crate::element::phase(p.state) != LIQUID {
                sim.swap(cell, below);
                return true;
            }
            let mean = fast_combined_temperature(c.mass, c.temperature, b.mass, b.temperature);
            let x = Cell { temperature: mean, ..sim.updated_cells[cell] };
            sim.put(cell, x);
            let y = Cell { temperature: mean, ..sim.updated_cells[below] };
            sim.put(below, y);
            true
        },
        _ => false,
    }
}

} // verus!
