//! The kinds of germs and how they thrive.
use crate::number::F32;
use vstd::prelude::*;

verus! {

/// Four bounds of a range of temperatures, or what belongs to each of them.
#[derive(Clone, Copy, Debug)]
pub struct RangeInfo {
    pub min_viable: F32,
    pub min_growth: F32,
    pub max_growth: F32,
    pub max_viable: F32,
}

/// How a kind of germ thrives in each element.
#[derive(Debug)]
pub struct ElemGrowthInfo {
    pub under_population_death_rate: Vec<F32>,
    pub population_half_life: Vec<F32>,
    pub over_population_half_life: Vec<F32>,
    pub diffusion_scale: Vec<F32>,
    pub min_count_per_kg: Vec<F32>,
    pub max_count_per_kg: Vec<F32>,
    pub min_diffusion_count: Vec<i32>,
    pub min_diffusion_infestation_tick_count: Vec<u8>,
}

/// A kind of germ.
#[derive(Debug)]
pub struct DiseaseInfo {
    pub hash: u32,
    pub strength: F32,
    pub temperature_range: RangeInfo,
    pub temperature_half_lives: RangeInfo,
    pub radiation_kill_rate: F32,
    pub elem_growth_info: ElemGrowthInfo,
}

/// All kinds of germs.
#[derive(Debug)]
pub struct DiseaseTable {
    pub diseases: Vec<DiseaseInfo>,
}

/// The strengths of two kinds of germs, where both are known.
pub open spec fn spec_known_strengths(diseases: Option<DiseaseTable>, a: u8, b: u8) -> Option<
    (F32, F32),
> {
    match diseases {
        Some(t) => if a < t.diseases@.len() && b < t.diseases@.len() {
            Some((t.diseases@[a as int].strength, t.diseases@[b as int].strength))
        } else {
            None
        },
        None => None,
    }
}

/// The strengths of two kinds of germs, where both are known.
pub fn known_strengths(diseases: &Option<DiseaseTable>, a: u8, b: u8) -> (r: Option<(F32, F32)>)
    ensures
        r == spec_known_strengths(*diseases, a, b),
{
    match diseases {
        Some(t) => {
            if (a as usize) < t.diseases.len() && (b as usize) < t.diseases.len() {
                Some((t.diseases[a as usize].strength, t.diseases[b as usize].strength))
            } else {
                None
            }
        },
        None => None,
    }
}

} // verus!
