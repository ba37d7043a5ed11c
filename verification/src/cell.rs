//! One cell of the grid and what is done to a single cell.
use crate::constants::ZERO;
use crate::germs;
use crate::germs::known_strengths;
use crate::germs::DiseaseTable;
use crate::number::num;
use crate::number::F32;
use vstd::prelude::*;

verus! {

/// The disease index of a clean cell.
pub const NO_DISEASE: u8 = 0xff;

/// A cell: the substance in it and the marks of the place.
#[derive(Clone, Copy, Debug)]
pub struct Cell {
    pub element_idx: u16,
    pub properties: u8,
    pub strength_info: u8,
    pub disease_idx: u8,
    pub disease_infestation_tick_count: u8,
    pub disease_count: i32,
    pub mass: F32,
    pub temperature: F32,
    pub disease_growth_accumulated_error: F32,
    pub radiation: F32,
}

/// The part `amount / whole` of `count` germs, rounded towards zero.
pub open spec fn spec_share(amount: F32, whole: F32, count: i32) -> i32 {
    amount.over(whole).times(F32::from_i32(count)).to_i32()
}

/// The part `amount / whole` of `count` germs, rounded towards zero.
#[verifier::when_used_as_spec(spec_share)]
pub fn share(amount: F32, whole: F32, count: i32) -> (n: i32)
    ensures
        n == spec_share(amount, whole, count),
{
    amount.over(whole).times(F32::from_i32(count)).to_i32()
}

/// The mean of two temperatures weighted by mass, kept between the two.
pub open spec fn spec_mixed_temperature(
    mass_a: F32,
    temp_a: F32,
    mass_b: F32,
    temp_b: F32,
    total: F32,
) -> F32 {
    mass_a.times(temp_a).plus(temp_b.times(mass_b)).over(total).clamp(
        temp_a.min(temp_b),
        temp_a.max(temp_b),
    )
}

/// The mean of two temperatures weighted by mass, kept between the two.
#[verifier::when_used_as_spec(spec_mixed_temperature)]
pub fn mixed_temperature(mass_a: F32, temp_a: F32, mass_b: F32, temp_b: F32, total: F32) -> (t: F32)
    ensures
        t == spec_mixed_temperature(mass_a, temp_a, mass_b, temp_b, total),
{
    mass_a.times(temp_a).plus(temp_b.times(mass_b)).over(total).clamp(
        temp_a.min(temp_b),
        temp_a.max(temp_b),
    )
}

/// The germs that are left when `cur` (of kind `cur_idx`) meets `count` more of another kind
/// `idx`, both with a known strength: the stronger population displaces the weaker one.
pub open spec fn contest(
    cur_idx: u8,
    cur: i32,
    idx: u8,
    count: i32,
    cur_strength: F32,
    strength: F32,
) -> (u8, i32) {
    let held = F32::from_i32(cur).times(cur_strength);
    let coming = F32::from_i32(count).times(strength);
    if held.le(coming) {
        if cur < 0 {
            (idx, 0i32.wrapping_sub(cur))
        } else {
            (cur_idx, cur)
        }
    } else {
        let d = F32::from_i32(count).minus(
            held.over(coming).times(F32::from_i32(cur)),
        ).to_i32();
        if d < 0 {
            (cur_idx, 0i32.wrapping_sub(d))
        } else {
            (idx, d)
        }
    }
}

impl Cell {
    pub open spec fn spec_without_disease(self) -> Cell {
        Cell {
            disease_idx: NO_DISEASE,
            disease_count: 0,
            disease_infestation_tick_count: 0,
            disease_growth_accumulated_error: num(ZERO),
            ..self
        }
    }

    /// The cell without its germs.
    #[verifier::when_used_as_spec(spec_without_disease)]
    pub fn without_disease(self) -> (c: Cell)
        ensures
            c == self.spec_without_disease(),
    {
        Cell {
            disease_idx: NO_DISEASE,
            disease_count: 0,
            disease_infestation_tick_count: 0,
            disease_growth_accumulated_error: num(ZERO),
            ..self
        }
    }

    pub open spec fn spec_with_disease_delta(self, delta: i32) -> Cell {
        let n = self.disease_count.wrapping_add(delta);
        if n > 0 {
            Cell { disease_count: n, ..self }
        } else {
            self.spec_without_disease()
        }
    }

    /// The cell with `delta` germs more; clean once none are left.
    #[verifier::when_used_as_spec(spec_with_disease_delta)]
    pub fn with_disease_delta(self, delta: i32) -> (c: Cell)
        ensures
            c == self.spec_with_disease_delta(delta),
    {
        let n: i32 = self.disease_count.wrapping_add(delta);
        if n > 0 {
            Cell { disease_count: n, ..self }
        } else {
            self.without_disease()
        }
    }

    /// The germs that result where `count` of kind `idx` come to the cell.
    pub open spec fn merged_germs(self, diseases: Option<DiseaseTable>, idx: u8, count: i32) -> (
        u8,
        i32,
    ) {
        if self.disease_idx == idx {
            (idx, self.disease_count.wrapping_add(count))
        } else if self.disease_idx == NO_DISEASE {
            (idx, count)
        } else if idx == NO_DISEASE {
            (self.disease_idx, self.disease_count)
        } else {
            match germs::spec_known_strengths(diseases, self.disease_idx, idx) {
                Some((a, b)) => contest(self.disease_idx, self.disease_count, idx, count, a, b),
                None => (self.disease_idx, self.disease_count),
            }
        }
    }

    pub open spec fn spec_with_disease(
        self,
        diseases: Option<DiseaseTable>,
        idx: u8,
        count: i32,
    ) -> Cell {
        let (kind, n) = self.merged_germs(diseases, idx, count);
        if n > 0 {
            Cell {
                disease_idx: kind,
                disease_count: n,
                disease_infestation_tick_count: if kind != self.disease_idx {
                    0
                } else {
                    self.disease_infestation_tick_count
                },
                ..self
            }
        } else {
            self.spec_without_disease()
        }
    }

    /// The cell after `count` germs of kind `idx` come to it.
    pub fn with_disease(self, diseases: &Option<DiseaseTable>, idx: u8, count: i32) -> (c: Cell)
        ensures
            c == self.spec_with_disease(*diseases, idx, count),
    {
        let mut kind: u8 = self.disease_idx;
        let mut n: i32 = self.disease_count;
        if kind == idx {
            n = n.wrapping_add(count);
        } else if kind == NO_DISEASE {
            kind = idx;
            n = count;
        } else if idx != NO_DISEASE {
            match known_strengths(diseases, self.disease_idx, idx) {
                Some((a, b)) => {
                    let held = F32::from_i32(n).times(a);
                    let coming = F32::from_i32(count).times(b);
                    if held.le(coming) {
                        if n < 0 {
                            n = 0i32.wrapping_sub(n);
                            kind = idx;
                        }
                    } else {
                        let d: i32 = F32::from_i32(count).minus(
                            held.over(coming).times(F32::from_i32(n)),
                        ).to_i32();
                        if d < 0 {
                            n = 0i32.wrapping_sub(d);
                        } else {
                            kind = idx;
                            n = d;
                        }
                    }
                },
                None => {},
            }
        }
        if n > 0 {
            let ticks: u8 = if kind != self.disease_idx {
                0
            } else {
                self.disease_infestation_tick_count
            };
            Cell {
                disease_idx: kind,
                disease_count: n,
                disease_infestation_tick_count: ticks,
                ..self
            }
        } else {
            self.without_disease()
        }
    }

    pub open spec fn spec_with_mass_added(
        self,
        diseases: Option<DiseaseTable>,
        amount: F32,
        temperature: F32,
        idx: u8,
        count: i32,
    ) -> Cell {
        let total = self.mass.plus(amount);
        if total.le(num(ZERO)) {
            Cell { mass: num(ZERO), temperature: num(ZERO), ..self.spec_without_disease() }
        } else {
            (Cell {
                mass: total,
                temperature: mixed_temperature(
                    self.mass,
                    self.temperature,
                    amount,
                    temperature,
                    total,
                ),
                ..self
            }).spec_with_disease(diseases, idx, count)
        }
    }

    /// The cell after `amount` of mass at `temperature`, with `count` germs of kind `idx`, come
    /// to it. Where no mass is left, its mass, warmth and germs are gone.
    pub fn with_mass_added(
        self,
        diseases: &Option<DiseaseTable>,
        amount: F32,
        temperature: F32,
        idx: u8,
        count: i32,
    ) -> (c: Cell)
        ensures
            c == self.spec_with_mass_added(*diseases, amount, temperature, idx, count),
    {
        let total = self.mass.plus(amount);
        if total.le(num(ZERO)) {
            return Cell { mass: num(ZERO), temperature: num(ZERO), ..self.without_disease() };
        }
        let warmed = Cell {
            mass: total,
            temperature: mixed_temperature(
                self.mass,
                self.temperature,
                amount,
                temperature,
                total,
            ),
            ..self
        };
        warmed.with_disease(diseases, idx, count)
    }

    pub open spec fn spec_emptied(self, vacuum: u16) -> Cell {
        Cell {
            element_idx: vacuum,
            mass: num(ZERO),
            temperature: num(ZERO),
            ..self.spec_without_disease()
        }
    }

    /// The cell with nothing in it.
    #[verifier::when_used_as_spec(spec_emptied)]
    pub fn emptied(self, vacuum: u16) -> (c: Cell)
        ensures
            c == self.spec_emptied(vacuum),
    {
        Cell {
            element_idx: vacuum,
            mass: num(ZERO),
            temperature: num(ZERO),
            ..self.without_disease()
        }
    }

    pub open spec fn spec_holding(self, other: Cell) -> Cell {
        Cell {
            element_idx: other.element_idx,
            mass: other.mass,
            temperature: other.temperature,
            disease_idx: other.disease_idx,
            disease_count: other.disease_count,
            disease_infestation_tick_count: other.disease_infestation_tick_count,
            disease_growth_accumulated_error: other.disease_growth_accumulated_error,
            ..self
        }
    }

    /// This place with the substance of the other cell in it.
    #[verifier::when_used_as_spec(spec_holding)]
    pub fn holding(self, other: Cell) -> (c: Cell)
        ensures
            c == self.spec_holding(other),
    {
        Cell {
            element_idx: other.element_idx,
            mass: other.mass,
            temperature: other.temperature,
            disease_idx: other.disease_idx,
            disease_count: other.disease_count,
            disease_infestation_tick_count: other.disease_infestation_tick_count,
            disease_growth_accumulated_error: other.disease_growth_accumulated_error,
            ..self
        }
    }
}

} // verus!
