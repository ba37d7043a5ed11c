//! How solids and liquids give off gas.
use crate::cell::mixed_temperature;
use crate::cell::share;
use crate::cell::Cell;
use crate::constants::FIFTH;
use crate::constants::HALF_TURN;
use crate::constants::MINUS_QUARTER_TURN;
use crate::constants::NANO;
use crate::constants::QUARTER_TURN;
use crate::constants::SUBLIMATE_LIMIT;
use crate::constants::ZERO;
use crate::displacement;
use crate::displacement::displace_gas;
use crate::displacement::do_evaporate;
use crate::element::ElementPostProcessData;
use crate::element::NO_ELEMENT;
use crate::element::SOLID;
use crate::element::VACUUM;
use crate::liquid_flow;
use crate::liquid_flow::top_up;
use crate::number::num;
use crate::number::F32;
use crate::sim_data;
use crate::sim_data::next_random;
use crate::sim_data::push_spawn_fx;
use crate::sim_data::push_substance_change;
use crate::sim_data::Env;
use crate::sim_data::SimData;
use crate::sim_data::State;
use vstd::prelude::*;

verus! {

broadcast use crate::region_events::group_events;

/// The germs that leave with `amount` of a cell's mass.
pub open spec fn spec_leaving_germs(c: Cell, amount: F32) -> i32 {
    if num(ZERO).lt(c.mass) {
        F32::from_i32(c.disease_count).times(amount.over(c.mass)).to_i32()
    } else {
        0
    }
}

/// The germs that leave with `amount` of a cell's mass.
#[verifier::when_used_as_spec(spec_leaving_germs)]
pub fn leaving_germs(c: Cell, amount: F32) -> (n: i32)
    ensures
        n == spec_leaving_germs(c, amount),
{
    if num(ZERO).lt(c.mass) {
        F32::from_i32(c.disease_count).times(amount.over(c.mass)).to_i32()
    } else {
        0
    }
}

/// The state after `src` has given off `amount` of its mass as the gas `gas` into `dst`, with
/// its share of the germs if `merge_disease` says so.
pub open spec fn gas_emitted(
    env: Env,
    s: State,
    src: int,
    dst: int,
    amount: F32,
    merge_disease: bool,
    gas: u16,
) -> State {
    if src >= s.updated.len() || dst >= s.updated.len() {
        s
    } else {
        let from = s.updated[src];
        let germs = leaving_germs(from, amount);
        let a = s.put(
            src,
            (Cell { mass: from.mass.minus(amount), ..from }).with_disease_delta(
                0i32.wrapping_sub(germs),
            ),
        );
        let b = if a.updated[dst].element_idx != gas {
            a.put(dst, Cell { element_idx: gas, ..a.updated[dst] }).changed(env, dst)
        } else {
            a
        };
        let warmth = b.updated[src].temperature;
        if merge_disease {
            liquid_flow::topped_up(env, b, dst, amount, warmth, from.disease_idx, germs)
        } else {
            let d = b.updated[dst];
            let total = d.mass.plus(amount);
            b.put(
                dst,
                Cell {
                    mass: total,
                    temperature: mixed_temperature(d.mass, d.temperature, amount, warmth, total),
                    ..d
                },
            )
        }
    }
}

/// Lets a cell give off gas into a cell.
pub fn emit_sublimate_gas(
    sim: &mut SimData,
    src_cell: usize,
    dst_cell: usize,
    amount: F32,
    merge_disease: bool,
    sublimate_index: u16,
)
    requires
        old(sim).wf(),
    ensures
        sim_data::stepped(
            *old(sim),
            *final(sim),
            gas_emitted(
                old(sim).env,
                old(sim)@,
                src_cell as int,
                dst_cell as int,
                amount,
                merge_disease,
                sublimate_index,
            ),
        ),
{
    if src_cell >= sim.updated_cells.len() || dst_cell >= sim.updated_cells.len() {
        return;
    }
    let from = sim.updated_cells[src_cell];
    let germs: i32 = leaving_germs(from, amount);
    let c = Cell { mass: from.mass.minus(amount), ..from };
    sim.put(src_cell, c.with_disease_delta(0i32.wrapping_sub(germs)));
    let d = sim.updated_cells[dst_cell];
    if d.element_idx != sublimate_index {
        sim.put(dst_cell, Cell { element_idx: sublimate_index, ..d });
        push_substance_change(sim, dst_cell);
    }
    let warmth = sim.updated_cells[src_cell].temperature;
    if merge_disease {
        top_up(sim, dst_cell, amount, warmth, from.disease_idx, germs);
    } else {
        let d = sim.updated_cells[dst_cell];
        let total = d.mass.plus(amount);
        sim.put(
            dst_cell,
            Cell {
                mass: total,
                temperature: mixed_temperature(d.mass, d.temperature, amount, warmth, total),
                ..d
            },
        );
    }
}

/// The state after `amount` and `germs` of a block are gone: the loss is booked, shown, and a
/// block with nothing left is cleared.
pub open spec fn worn(
    env: Env,
    s: State,
    n: int,
    amount: F32,
    germs: i32,
    fx: i32,
    rotation: F32,
) -> State {
    let c = s.updated[n];
    let t = s.put(
        n,
        (Cell { mass: c.mass.minus(amount), ..c }).with_disease_delta(0i32.wrapping_sub(germs)),
    ).accumulated(n, amount).shown(env, n, fx, rotation);
    if t.updated[n].mass.le(num(NANO)) {
        displacement::evaporated(env, t, n)
    } else {
        t
    }
}

fn wear(sim: &mut SimData, n: usize, amount: F32, germs: i32, fx: i32, rotation: F32)
    requires
        old(sim).wf(),
        n < old(sim)@.updated.len(),
    ensures
        sim_data::stepped(
            *old(sim),
            *final(sim),
            worn(old(sim).env, old(sim)@, n as int, amount, germs, fx, rotation),
        ),
{
    let c = sim.updated_cells[n];
    let c = Cell { mass: c.mass.minus(amount), ..c };
    sim.put(n, c.with_disease_delta(0i32.wrapping_sub(germs)));
    sim.accumulate(n, amount);
    push_spawn_fx(sim, n, fx, rotation);
    if sim.updated_cells[n].mass.le(num(NANO)) {
        do_evaporate(sim, n);
    }
}

/// The state after the block `n` has given off gas into `cell`, which holds that gas already:
/// as much as a step allows and as `cell` has room for.
pub open spec fn given_to_same(
    env: Env,
    s: State,
    cell: int,
    n: int,
    d: ElementPostProcessData,
    amount: F32,
    rotation: F32,
) -> State {
    let block = s.updated[n];
    let gain = amount.times(d.sublimate_efficiency);
    let room = num(SUBLIMATE_LIMIT).minus(s.updated[cell].mass);
    let lost = if room.lt(gain) {
        room.over(gain).times(amount)
    } else {
        amount
    };
    let got = if room.lt(gain) {
        room
    } else {
        gain
    };
    let germs = share(lost, block.mass, block.disease_count);
    worn(
        env,
        liquid_flow::topped_up(env, s, cell, got, block.temperature, block.disease_idx, germs),
        n,
        lost,
        germs,
        d.sublimate_fx,
        rotation,
    )
}

fn give_to_same(
    sim: &mut SimData,
    cell: usize,
    n: usize,
    d: ElementPostProcessData,
    amount: F32,
    rotation: F32,
)
    requires
        old(sim).wf(),
        cell < old(sim)@.updated.len(),
        n < old(sim)@.updated.len(),
    ensures
        sim_data::stepped(
            *old(sim),
            *final(sim),
            given_to_same(old(sim).env, old(sim)@, cell as int, n as int, d, amount, rotation),
        ),
{
    let block = sim.updated_cells[n];
    let mut lost = amount;
    let mut got = amount.times(d.sublimate_efficiency);
    let room = num(SUBLIMATE_LIMIT).minus(sim.updated_cells[cell].mass);
    if room.lt(got) {
        lost = room.over(got).times(amount);
        got = room;
    }
    let germs: i32 = share(lost, block.mass, block.disease_count);
    top_up(sim, cell, got, block.temperature, block.disease_idx, germs);
    wear(sim, n, lost, germs, d.sublimate_fx, rotation);
}

/// The state after the block `n` has given off gas into `cell`, which holds something else, and
/// whether any block has given gas so far. What is in `cell` must leave first. Where it cannot,
/// a block still wears off once an earlier one has succeeded.
pub open spec fn given_to_other(
    env: Env,
    s: State,
    cell: int,
    n: int,
    d: ElementPostProcessData,
    amount: F32,
    rotation: F32,
    vacant: bool,
    done: bool,
) -> (State, bool) {
    let block = s.updated[n];
    let germs = share(amount, block.mass, block.disease_count);
    let held = s.updated[cell].element_idx;
    let room = vacant || displacement::gas_goal(env, s, cell, held) is Some;
    let a = if vacant {
        s
    } else {
        displacement::gas_displaced(env, s, cell, held)
    };
    if !room && !done {
        (s, false)
    } else if !room {
        (worn(env, s, n, amount, germs, d.sublimate_fx, rotation), true)
    } else {
        let c = a.updated[cell];
        let b = a.put(
            cell,
            Cell {
                element_idx: d.sublimate_index,
                mass: c.mass.plus(amount.times(d.sublimate_efficiency)),
                temperature: block.temperature,
                disease_idx: block.disease_idx,
                disease_count: germs,
                ..c
            },
        ).changed(env, cell);
        (worn(env, b, n, amount, germs, d.sublimate_fx, rotation), true)
    }
}

fn give_to_other(
    sim: &mut SimData,
    cell: usize,
    n: usize,
    d: ElementPostProcessData,
    amount: F32,
    rotation: F32,
    vacant: bool,
    done: bool,
) -> (ok: bool)
    requires
        old(sim).wf(),
        cell < old(sim)@.updated.len(),
        n < old(sim)@.updated.len(),
    ensures
        sim_data::stepped(
            *old(sim),
            *final(sim),
            given_to_other(
                old(sim).env,
                old(sim)@,
                cell as int,
                n as int,
                d,
                amount,
                rotation,
                vacant,
                done,
            ).0,
        ),
        ok == given_to_other(
            old(sim).env,
            old(sim)@,
            cell as int,
            n as int,
            d,
            amount,
            rotation,
            vacant,
            done,
        ).1,
{
    let block = sim.updated_cells[n];
    let germs: i32 = share(amount, block.mass, block.disease_count);
    let mut room = vacant;
    if !vacant {
        room = displace_gas(sim, cell, sim.updated_cells[cell].element_idx);
    }
    if !room && !done {
        return false;
    }
    if room {
        let c = sim.updated_cells[cell];
        sim.put(
            cell,
            Cell {
                element_idx: d.sublimate_index,
                mass: c.mass.plus(amount.times(d.sublimate_efficiency)),
                temperature: block.temperature,
                disease_idx: block.disease_idx,
                disease_count: germs,
                ..c
            },
        );
        push_substance_change(sim, cell);
    }
    wear(sim, n, amount, germs, d.sublimate_fx, rotation);
    true
}

/// The state after one neighbour of `cell` has had its chance to give off gas into it, and
/// whether any has done so. Only a solid that can sublimate draws a random number. What is too
/// little for another step turns into gas where it is.
#[verifier::opaque]
pub open spec fn sublimated_from(
    env: Env,
    s: State,
    cell: int,
    n: int,
    rotation: F32,
    elem: u16,
    vacant: bool,
    done: bool,
) -> (State, bool) {
    match sim_data::at(s.updated, n) {
        None => (s, done),
        Some(block) => match env.elements.spec_post_process(block.element_idx) {
            None => (s, done),
            Some(d) => if crate::element::phase(d.state) != SOLID || d.sublimate_index
                == NO_ELEMENT {
                (s, done)
            } else {
                let t = s.rolled();
                let rate = d.sublimate_rate.times(num(FIFTH));
                let amount = rate.min(block.mass);
                if d.sublimate_probability.lt(t.roll()) {
                    (t, done)
                } else if rate.le(block.mass.minus(amount)) {
                    if elem == d.sublimate_index {
                        (given_to_same(env, t, cell, n, d, amount, rotation), true)
                    } else {
                        given_to_other(env, t, cell, n, d, amount, rotation, vacant, done)
                    }
                } else {
                    (
                        t.put(
                            n,
                            Cell {
                                element_idx: d.sublimate_index,
                                mass: block.mass.times(d.sublimate_efficiency),
                                ..block
                            },
                        ).changed(env, n).shown(env, n, d.sublimate_fx, num(ZERO)),
                        true,
                    )
                }
            },
        },
    }
}

fn sublimate_from(
    sim: &mut SimData,
    cell: usize,
    n: usize,
    rotation: F32,
    elem: u16,
    vacant: bool,
    done: bool,
) -> (ok: bool)
    requires
        old(sim).wf(),
        cell < old(sim)@.updated.len(),
    ensures
        sim_data::stepped(
            *old(sim),
            *final(sim),
            sublimated_from(
                old(sim).env,
                old(sim)@,
                cell as int,
                n as int,
                rotation,
                elem,
                vacant,
                done,
            ).0,
        ),
        ok == sublimated_from(
            old(sim).env,
            old(sim)@,
            cell as int,
            n as int,
            rotation,
            elem,
            vacant,
            done,
        ).1,
{
    reveal(sublimated_from);
    if n >= sim.updated_cells.len() {
        return done;
    }
    let block = sim.updated_cells[n];
    let d = match sim.env.elements.post_process(block.element_idx) {
        Some(d) => d,
        None => return done,
    };
    if crate::element::phase(d.state) != SOLID || d.sublimate_index == NO_ELEMENT {
        return done;
    }
    if d.sublimate_probability.lt(next_random(sim)) {
        return done;
    }
    let rate = d.sublimate_rate.times(num(FIFTH));
    let amount = rate.min(block.mass);
    if rate.le(block.mass.minus(amount)) {
        if elem == d.sublimate_index {
            give_to_same(sim, cell, n, d, amount, rotation);
            return true;
        }
        return give_to_other(sim, cell, n, d, amount, rotation, vacant, done);
    }
    sim.put(
        n,
        Cell {
            element_idx: d.sublimate_index,
            mass: block.mass.times(d.sublimate_efficiency),
            ..block
        },
    );
    push_substance_change(sim, n);
    push_spawn_fx(sim, n, d.sublimate_fx, num(ZERO));
    true
}

/// The state after the solids around a cell have given off gas into it: those above, to the
/// right, to the left and below, in this order. A cell that holds its limit takes none.
#[verifier::opaque]
pub open spec fn sublimated(env: Env, s: State, cell: int) -> State {
    if env.width < 3 || env.height < 3 || cell < env.width || cell >= s.updated.len() {
        s
    } else {
        let c = s.updated[cell];
        match env.elements.spec_post_process(c.element_idx) {
            None => s,
            Some(p) => if num(SUBLIMATE_LIMIT).le(c.mass) {
                s
            } else {
                let e = c.element_idx;
                let v = crate::element::phase(p.state) == VACUUM;
                let w = env.width as int;
                let (s1, d1) = sublimated_from(
                    env,
                    s,
                    cell,
                    cell + w,
                    num(HALF_TURN),
                    e,
                    v,
                    false,
                );
                let (s2, d2) = sublimated_from(
                    env,
                    s1,
                    cell,
                    cell + 1,
                    num(QUARTER_TURN),
                    e,
                    v,
                    d1,
                );
                let (s3, d3) = sublimated_from(
                    env,
                    s2,
                    cell,
                    cell - 1,
                    num(MINUS_QUARTER_TURN),
                    e,
                    v,
                    d2,
                );
                sublimated_from(env, s3, cell, cell - w, num(ZERO), e, v, d3).0
            },
        }
    }
}

/// Lets the solids around a cell give off gas into it.
pub fn do_sublimation(sim: &mut SimData, cell: usize)
    requires
        old(sim).wf(),
    ensures
        sim_data::stepped(
            *old(sim),
            *final(sim),
            sublimated(old(sim).env, old(sim)@, cell as int),
        ),
{
    reveal(sublimated);
    let w: usize = sim.env.width;
    if w < 3 || sim.env.height < 3 || cell < w || cell >= sim.updated_cells.len() {
        return;
    }
    let c = sim.updated_cells[cell];
    if num(SUBLIMATE_LIMIT).le(c.mass) {
        return;
    }
    let e: u16 = c.element_idx;
    let v = match sim.env.elements.post_process(e) {
        Some(p) => crate::element::phase(p.state) == VACUUM,
        None => return,
    };
    let d1 = sublimate_from(sim, cell, cell + w, num(HALF_TURN), e, v, false);
    let d2 = sublimate_from(sim, cell, cell + 1, num(QUARTER_TURN), e, v, d1);
    let d3 = sublimate_from(sim, cell, cell - 1, num(MINUS_QUARTER_TURN), e, v, d2);
    sublimate_from(sim, cell, cell - w, num(ZERO), e, v, d3);
}

} // verus!
