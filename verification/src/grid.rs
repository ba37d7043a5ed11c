//! Questions about the cells of a buffer, and changes to one buffer alone.
use crate::cell::Cell;
use crate::element::phase;
use crate::element::ElementsTable;
use crate::element::SOLID;
use crate::germs::DiseaseTable;
use crate::number::F32;
use vstd::prelude::*;

verus! {

/// The mark of a place that no gas enters.
pub const GAS_IMPERMEABLE: u8 = 1;

/// The mark of a place that no liquid enters.
pub const LIQUID_IMPERMEABLE: u8 = 2;

/// The mark of a place into which no block falls.
pub const SOLID_IMPERMEABLE: u8 = 4;

/// The mark of a wall that pressure does not break.
pub const UNBREAKABLE: u8 = 8;

/// The mark of a place that was built.
pub const CONSTRUCTED: u8 = 0x80;

pub open spec fn spec_marked(c: Cell, mark: u8) -> bool {
    c.properties & mark != 0
}

/// Whether a cell carries one of the given marks.
#[verifier::when_used_as_spec(spec_marked)]
pub fn marked(c: Cell, mark: u8) -> (b: bool)
    ensures
        b == spec_marked(c, mark),
{
    c.properties & mark != 0
}

/// Whether liquid may enter a cell: it holds a gas or nothing, and the place admits liquids.
pub open spec fn permeable(elements: ElementsTable, c: Cell) -> bool {
    &&& !marked(c, LIQUID_IMPERMEABLE)
    &&& elements.spec_liquid(c.element_idx) matches Some(d) && phase(d.state) <= 1
}

/// Whether a cell is solid: it holds a solid, or the place admits no liquids.
pub open spec fn solid(elements: ElementsTable, c: Cell) -> bool {
    ||| elements.spec_liquid(c.element_idx) matches Some(d) && phase(d.state) == SOLID
    ||| marked(c, LIQUID_IMPERMEABLE)
}

/// Whether liquid may enter a cell. No element does so without an entry in the table.
pub fn is_liquid_permeable(elements: &ElementsTable, cells: &Vec<Cell>, cell_idx: usize) -> (b:
    bool)
    requires
        cell_idx < cells@.len(),
    ensures
        b == permeable(*elements, cells@[cell_idx as int]),
{
    let c = cells[cell_idx];
    if marked(c, LIQUID_IMPERMEABLE) {
        return false;
    }
    match elements.liquid(c.element_idx) {
        Some(d) => phase(d.state) <= 1,
        None => false,
    }
}

/// Whether a cell is solid.
pub fn is_solid(elements: &ElementsTable, cells: &Vec<Cell>, cell_idx: usize) -> (b: bool)
    requires
        cell_idx < cells@.len(),
    ensures
        b == solid(*elements, cells@[cell_idx as int]),
{
    let c = cells[cell_idx];
    let state_solid = match elements.liquid(c.element_idx) {
        Some(d) => phase(d.state) == SOLID,
        None => false,
    };
    state_solid || marked(c, LIQUID_IMPERMEABLE)
}

/// The phase of a cell in the closing pass.
pub fn elem_state(elements: &ElementsTable, cells: &Vec<Cell>, idx: usize) -> (p: u8)
    requires
        idx < cells@.len(),
    ensures
        p == elements.spec_post_phase(cells@[idx as int].element_idx),
{
    elements.post_phase(cells[idx].element_idx)
}

/// Adds mass to a cell and mixes the temperatures and the germs.
pub fn add_mass_and_update_temperature(
    diseases: &Option<DiseaseTable>,
    cells: &mut Vec<Cell>,
    cell: usize,
    amount: F32,
    src_temp: F32,
    disease_idx: u8,
    disease_count: i32,
)
    requires
        cell < old(cells)@.len(),
    ensures
        final(cells)@ == old(cells)@.update(
            cell as int,
            old(cells)@[cell as int].spec_with_mass_added(
                *diseases,
                amount,
                src_temp,
                disease_idx,
                disease_count,
            ),
        ),
{
    let c = cells[cell].with_mass_added(diseases, amount, src_temp, disease_idx, disease_count);
    cells.set(cell, c);
}

/// Adds germs to a cell.
pub fn add_disease_to_cell(
    diseases: &Option<DiseaseTable>,
    cells: &mut Vec<Cell>,
    cell: usize,
    disease_idx: u8,
    disease_count: i32,
)
    requires
        cell < old(cells)@.len(),
    ensures
        final(cells)@ == old(cells)@.update(
            cell as int,
            old(cells)@[cell as int].spec_with_disease(*diseases, disease_idx, disease_count),
        ),
{
    let c = cells[cell].with_disease(diseases, disease_idx, disease_count);
    cells.set(cell, c);
}

/// Changes the number of germs in a cell.
pub fn modify_disease_count(cells: &mut Vec<Cell>, cell: usize, delta: i32)
    requires
        cell < old(cells)@.len(),
    ensures
        final(cells)@ == old(cells)@.update(
            cell as int,
            old(cells)@[cell as int].with_disease_delta(delta),
        ),
{
    let c = cells[cell].with_disease_delta(delta);
    cells.set(cell, c);
}

/// Removes the germs of a cell.
pub fn clear_disease(cells: &mut Vec<Cell>, cell: usize)
    requires
        cell < old(cells)@.len(),
    ensures
        final(cells)@ == old(cells)@.update(
            cell as int,
            old(cells)@[cell as int].without_disease(),
        ),
{
    let c = cells[cell].without_disease();
    cells.set(cell, c);
}

/// Empties a cell.
pub fn clear_cell(vacuum: u16, cells: &mut Vec<Cell>, cell: usize)
    requires
        cell < old(cells)@.len(),
    ensures
        final(cells)@ == old(cells)@.update(cell as int, old(cells)@[cell as int].emptied(vacuum)),
{
    let c = cells[cell].emptied(vacuum);
    cells.set(cell, c);
}

/// The cells with the substances of two of them exchanged.
pub open spec fn exchanged(cells: Seq<Cell>, a: int, b: int) -> Seq<Cell> {
    cells.update(a, cells[a].holding(cells[b])).update(b, cells[b].holding(cells[a]))
}

/// Exchanges the substances of two cells; the marks of the places stay.
pub fn swap_cells(cells: &mut Vec<Cell>, a: usize, b: usize)
    requires
        a < old(cells)@.len(),
        b < old(cells)@.len(),
    ensures
        final(cells)@ == exchanged(old(cells)@, a as int, b as int),
{
    let ca = cells[a];
    let cb = cells[b];
    cells.set(a, ca.holding(cb));
    cells.set(b, cb.holding(ca));
}

/// The mean of two temperatures weighted by mass.
pub open spec fn spec_fast_combined_temperature(
    mass_a: F32,
    temp_a: F32,
    mass_b: F32,
    temp_b: F32,
) -> F32 {
    mass_a.times(temp_a).plus(mass_b.times(temp_b)).over(mass_a.plus(mass_b))
}

/// The mean of two temperatures weighted by mass.
#[verifier::when_used_as_spec(spec_fast_combined_temperature)]
pub fn fast_combined_temperature(mass_a: F32, temp_a: F32, mass_b: F32, temp_b: F32) -> (t: F32)
    ensures
        t == spec_fast_combined_temperature(mass_a, temp_a, mass_b, temp_b),
{
    mass_a.times(temp_a).plus(mass_b.times(temp_b)).over(mass_a.plus(mass_b))
}

/// The mean of two temperatures weighted by mass, kept between the two; zero without mass.
pub fn calculate_combined_temperature(
    mass_a: F32,
    temp_a: F32,
    mass_b: F32,
    temp_b: F32,
) -> (t: F32)
    ensures
        t == if mass_a.plus(mass_b).le(crate::number::num(0)) {
            crate::number::num(0)
        } else {
            fast_combined_temperature(mass_a, temp_a, mass_b, temp_b).clamp(
                temp_a.min(temp_b),
                temp_a.max(temp_b),
            )
        },
{
    if mass_a.plus(mass_b).le(crate::number::num(0)) {
        return crate::number::num(0);
    }
    let avg = fast_combined_temperature(mass_a, temp_a, mass_b, temp_b);
    avg.clamp(temp_a.min(temp_b), temp_a.max(temp_b))
}

} // verus!
