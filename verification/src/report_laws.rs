//! What is reported, and what a change does to the timers.
use crate::block_laws;
use crate::cell::Cell;
use crate::constants::EIGHTH;
use crate::constants::ZERO;
use crate::displacement;
use crate::gas_flow;
use crate::liquid_flow;
use crate::move_laws;
use crate::number::num;
use crate::number::F32;
use crate::placing;
use crate::placing::Load;
use crate::post_process;
use crate::push_laws;
use crate::region_events::SpawnFXInfo;
use crate::region_events::SubstanceChangeInfo;
use crate::room_laws;
use crate::sim_data::Env;
use crate::sim_data::State;
use crate::sublimation;
use crate::unstable;
use vstd::prelude::*;

verus! {

/// The report that the substance of a cell has changed.
pub open spec fn change_at(env: Env, i: int) -> SubstanceChangeInfo {
    SubstanceChangeInfo {
        cell_idx: env.game_cell(i) as i32,
        old_element_idx: 0xffff,
        new_element_idx: 0xffff,
    }
}

/// Whether events are kept in one place, and all cells of a list are in view.
pub open spec fn can_report(env: Env, s: State, list: Seq<int>) -> bool {
    &&& s.events is Some
    &&& s.sink is None
    &&& forall|k: int| 0 <= k < list.len() ==> env.on_game_grid(#[trigger] list[k])
}

/// Whether the changes of some cells have been reported, in this order, and nothing else of the
/// kind.
pub open spec fn has_reported(env: Env, s: State, t: State, list: Seq<int>) -> bool {
    &&& t.events is Some
    &&& t.sink is None
    &&& t.events->0.substance_change_info =~= s.events->0.substance_change_info + list.map_values(
        |i: int| change_at(env, i),
    )
}

/// A change is reported once, with the place of the cell in the game, and makes the cell restless:
/// its timer is set to its end.
pub proof fn law_change(env: Env, s: State, i: int)
    requires
        can_report(env, s, seq![i]),
        0 <= i < s.timers.len(),
    ensures
        ({
            let t = s.changed(env, i);
            &&& has_reported(env, s, t, seq![i])
            &&& t.timers[i] & 0x1f == 0x1f
            &&& t.timers[i] & 0xe0 == s.timers[i] & 0xe0
            &&& forall|j: int|
                0 <= j < s.timers.len() && j != i ==> #[trigger] t.timers[j] == s.timers[j]
            &&& t.updated == s.updated
        }),
{
    assert(env.on_game_grid(seq![i][0]));
    let b = s.timers[i];
    assert((b | 0x1f) & 0x1f == 0x1f && (b | 0x1f) & 0xe0 == b & 0xe0) by (bit_vector);
}

proof fn lemma_change(env: Env, s: State, i: int)
    requires
        s.events is Some,
        s.sink is None,
        env.on_game_grid(i),
    ensures
        s.changed(env, i).events is Some,
        s.changed(env, i).sink is None,
        s.changed(env, i).events->0.substance_change_info
            == s.events->0.substance_change_info.push(change_at(env, i)),
{
}

/// What moves on is reported where it left and where it came; what vanishes where it was.
pub proof fn law_reports_of_moving(env: Env, s: State, src: int, dst: int)
    requires
        0 <= src < s.updated.len(),
        0 <= dst < s.updated.len(),
        can_report(env, s, seq![src, dst]),
    ensures
        has_reported(env, s, displacement::moved(env, s, src, dst), seq![src, dst]),
        has_reported(env, s, displacement::evaporated(env, s, src), seq![src]),
{
    assert(env.on_game_grid(seq![src, dst][0]));
    assert(env.on_game_grid(seq![src, dst][1]));
}

/// A liquid that falls through a gas is reported with what it changed places with, and one that
/// slips past a corner too; what only flows into its own kind is not.
pub proof fn law_reports_of_a_falling_liquid(env: Env, s: State, cell: int)
    requires
        move_laws::is_liquid_at(env, s, cell),
        move_laws::is_over_gas(env, s, cell),
        s.cells[cell - env.width].element_idx != env.void_element_idx,
        !move_laws::is_edge(env, s, cell),
        can_report(env, s, seq![cell, cell - env.width]),
    ensures
        has_reported(
            env,
            s,
            liquid_flow::liquid_moved(env, s, cell),
            seq![cell, cell - env.width],
        ),
{
    let below = cell - env.width;
    assert(env.on_game_grid(seq![cell, below][0]));
    assert(env.on_game_grid(seq![cell, below][1]));
    move_laws::lemma_low_bits(env, s.cells[below].element_idx);
    move_laws::lemma_low_bits(env, s.updated[below].element_idx);
    move_laws::lemma_low_bits(env, s.cells[cell].element_idx);
    move_laws::lemma_open(env, s, cell - 1);
    move_laws::lemma_open(env, s, cell + 1);
    move_laws::lemma_open(env, s, below - 1);
    move_laws::lemma_open(env, s, below + 1);
    let t = s.swapped(cell, below);
    assert(liquid_flow::liquid_moved(env, s, cell) == t.changed(env, cell).changed(env, below))
        by {
        reveal(liquid_flow::fallen);
    }
    lemma_change(env, t, cell);
    lemma_change(env, t.changed(env, cell), below);
}

/// What comes to its own kind is not reported; what fills another cell is, there.
pub proof fn law_reports_of_filling(
    env: Env,
    s: State,
    dst: int,
    elem: u16,
    amount: F32,
    temperature: F32,
    idx: u8,
    count: i32,
)
    requires
        0 <= dst < s.updated.len(),
        can_report(env, s, seq![dst]),
    ensures
        has_reported(
            env,
            s,
            liquid_flow::filled(env, s, dst, elem, amount, temperature, idx, count),
            seq![dst],
        ),
        has_reported(
            env,
            s,
            liquid_flow::topped_up(env, s, dst, amount, temperature, idx, count),
            seq![],
        ),
{
    assert(env.on_game_grid(seq![dst][0]));
}

/// A gas that pushes another on is reported: the other where it left and where it came, and the gas
/// where it followed.
pub proof fn law_reports_of_pushing(
    env: Env,
    s: State,
    elem: u16,
    src: int,
    dst: int,
    beyond: int,
)
    requires
        0 <= dst < s.updated.len(),
        0 <= src < s.updated.len(),
        0 <= beyond < s.updated.len(),
        src != dst,
        src != beyond,
        push_laws::may_push(env, s, elem, src, dst, beyond),
        num(ZERO).lt(s.cells[src].mass.times(num(EIGHTH))),
        num(ZERO).lt(s.updated[src].mass),
        can_report(env, s, seq![dst, beyond, dst]),
    ensures
        has_reported(
            env,
            s,
            gas_flow::gas_pushed(env, s, elem, src, dst, beyond).0,
            seq![dst, beyond, dst],
        ),
{
    let list = seq![dst, beyond, dst];
    assert(env.on_game_grid(list[0]));
    assert(env.on_game_grid(list[1]));
}

/// What sinks by its weight is reported in both cells; what sinks by its coldness is not.
pub proof fn law_reports_of_sinking(env: Env, s: State, cell: int, bar: F32)
    requires
        room_laws::is_layer(env, s, cell),
        !s.rolled().roll().le(bar),
        can_report(env, s, seq![cell, cell - env.width]),
    ensures
        ({
            let below = cell - env.width;
            let t = displacement::layered(env, s, cell, bar).0;
            let a = env.elements.spec_post_process(s.updated[cell].element_idx)->0.molar_mass;
            let b = env.elements.spec_post_process(s.updated[below].element_idx)->0.molar_mass;
            &&& b.lt(a) ==> has_reported(env, s, t, seq![cell, below])
            &&& s.updated[cell].element_idx == s.updated[below].element_idx ==> has_reported(
                env,
                s,
                t,
                seq![],
            )
        }),
{
    let list = seq![cell, cell - env.width];
    assert(env.on_game_grid(list[0]));
    assert(env.on_game_grid(list[1]));
}

/// What is laid down or settles in a cell is reported there; a liquid that is dumped where it
/// lands.
pub proof fn law_reports_of_placing(env: Env, s: State, cell: int, n: int, load: Load)
    requires
        0 <= n < s.updated.len(),
        0 <= cell < s.updated.len(),
        cell != n,
        can_report(env, s, seq![n]),
    ensures
        has_reported(env, s, placing::laid(env, s, n, load), seq![n]),
        has_reported(env, s, placing::settled(env, s, n, load), seq![n]),
        has_reported(env, s, placing::absorbed(env, s, n, load), seq![]),
        has_reported(env, s, post_process::halved(env, s, cell, n), seq![n]),
{
    assert(env.on_game_grid(seq![n][0]));
}

/// A block that falls where there is a viewer is reported as gone from its cell.
pub proof fn law_reports_of_a_falling_block(
    env: Env,
    s: State,
    c: Cell,
    cell: int,
    goal: int,
    weight: F32,
)
    requires
        !env.headless,
        0 <= cell < s.updated.len(),
        can_report(env, s, seq![cell]),
    ensures
        ({
            let t = unstable::shed(env, s, c, cell, goal, weight);
            let left = s.updated[cell].mass.minus(c.mass.times(weight)).max(num(ZERO));
            &&& left.le(num(ZERO)) ==> has_reported(env, s, t, seq![cell, cell])
            &&& !left.le(num(ZERO)) ==> has_reported(env, s, t, seq![cell])
        }),
{
    assert(env.on_game_grid(seq![cell][0]));
    let mass = c.mass.times(weight);
    let germs = F32::from_i32(c.disease_count).times(weight).to_i32();
    let a = s.restless(cell);
    let b = unstable::thinned(
        unstable::fall_reported(env, a, cell, goal, mass, germs),
        cell,
        mass,
        germs,
    );
    assert(b.events->0.substance_change_info == s.events->0.substance_change_info);
    lemma_change(env, b, cell);
    let d = b.changed(env, cell);
    let e = d.put(cell, d.updated[cell].emptied(env.vacuum_element_idx));
    lemma_change(env, e, cell);
}

/// A block that is worn shows an effect at its place, with the given number and turn.
pub proof fn law_effect_of_sublimation(
    env: Env,
    s: State,
    n: int,
    amount: F32,
    germs: i32,
    fx: i32,
    rotation: F32,
)
    requires
        0 <= n < s.updated.len(),
        can_report(env, s, seq![n]),
    ensures
        sublimation::worn(env, s, n, amount, germs, fx, rotation).events->0.spawn_fx_info
            == s.events->0.spawn_fx_info.push(
            SpawnFXInfo { cell_idx: env.game_cell(n) as i32, fx_id: fx, rotation },
        ),
{
    assert(env.on_game_grid(seq![n][0]));
}

/// A block on solid ground is restless: its timer is set to its end.
pub proof fn law_block_on_ground_waits_anew(env: Env, s: State, cell: int)
    requires
        env.saved_options & 1 == 0,
        0 < env.width <= cell,
        cell < s.updated.len(),
        cell < s.timers.len(),
        env.elements.spec_post_process(s.updated[cell - env.width].element_idx) is Some,
        !block_laws::gives_way(env, s.updated[cell - env.width]),
    ensures
        ({
            let t = unstable::checked(env, s, cell);
            t.timers[cell] & 0x1f == 0x1f && t.updated == s.updated
        }),
{
    room_laws::lemma_post_bits(env, s.updated[cell - env.width].element_idx);
    let b = s.timers[cell];
    assert((b | 0x1f) & 0x1f == 0x1f) by (bit_vector);
}

} // verus!
