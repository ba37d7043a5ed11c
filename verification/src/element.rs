//! What the simulation knows of each element: read-only tables, indexed by element.
use crate::number::F32;
use vstd::prelude::*;

verus! {

/// The index that stands for "no element".
pub const NO_ELEMENT: u16 = 0xffff;

/// The phase reported where a table has no entry.
pub const NO_PHASE: u8 = 0xff;

/// The phase of an element that fills nothing.
pub const VACUUM: u8 = 0;

pub const GAS: u8 = 1;

pub const LIQUID: u8 = 2;

pub const SOLID: u8 = 3;

pub open spec fn spec_phase(state: u8) -> u8 {
    state & 3
}

/// The phase held in the low two bits of a state byte.
#[verifier::when_used_as_spec(spec_phase)]
pub fn phase(state: u8) -> (p: u8)
    ensures
        p == spec_phase(state),
{
    state & 3
}

/// How an element flows as a liquid.
#[derive(Clone, Copy, Debug)]
pub struct ElementLiquidData {
    pub state: u8,
    pub flow: F32,
    pub viscosity: F32,
    pub max_mass: F32,
    pub min_horizontal_flow: F32,
    pub min_vertical_flow: F32,
}

/// How an element equalises pressure.
#[derive(Clone, Copy, Debug)]
pub struct ElementPressureData {
    pub state: u8,
    pub flow: F32,
}

/// What the closing pass over the cells needs of an element.
#[derive(Clone, Copy, Debug)]
pub struct ElementPostProcessData {
    pub state: u8,
    pub sublimate_index: u16,
    pub sublimate_fx: i32,
    pub max_mass: F32,
    pub molar_mass: F32,
    pub strength: F32,
    pub min_horizontal_flow: F32,
    pub sublimate_rate: F32,
    pub sublimate_efficiency: F32,
    pub sublimate_probability: F32,
    pub off_gas_percentage: F32,
}

/// The temperatures between which an element keeps its phase, and what it turns into.
#[derive(Clone, Copy, Debug)]
pub struct ElementTemperatureData {
    pub low_temp: F32,
    pub high_temp: F32,
    pub low_temp_transition_idx: u16,
    pub high_temp_transition_idx: u16,
}

/// How an element blocks and gives off radiation.
#[derive(Clone, Copy, Debug)]
pub struct ElementRadiationData {
    pub factor: F32,
    pub rads_per_1000: F32,
}

/// How an element absorbs sunlight.
#[derive(Clone, Copy, Debug)]
pub struct ElementLightAbsorptionData {
    pub factor: F32,
    pub mass_scale: F32,
}

/// How an element is drawn.
#[derive(Clone, Copy, Debug)]
pub struct ElementPropertyTextureData {
    pub state: u8,
    pub number_of_gradient_colors: u8,
    pub colour: u32,
    pub gradient: [u32; 6],
    pub material_properties: u32,
}

/// The element tables. Each aspect may cover fewer elements than there are.
#[derive(Debug)]
pub struct ElementsTable {
    /// The identifying hash of each element; their number is the number of elements.
    pub ids: Vec<u32>,
    pub liquid_data: Vec<ElementLiquidData>,
    pub pressure_data: Vec<ElementPressureData>,
    pub post_process_data: Vec<ElementPostProcessData>,
    pub temperature_data: Vec<ElementTemperatureData>,
    pub radiation_data: Vec<ElementRadiationData>,
    pub light_absorption_data: Vec<ElementLightAbsorptionData>,
    pub property_texture_data: Vec<ElementPropertyTextureData>,
}

/// The entry of `s` at `i`, where there is one.
pub open spec fn entry<T>(s: Seq<T>, i: int) -> Option<T> {
    if 0 <= i < s.len() {
        Some(s[i])
    } else {
        None
    }
}

impl ElementsTable {
    pub open spec fn spec_liquid(self, e: u16) -> Option<ElementLiquidData> {
        entry(self.liquid_data@, e as int)
    }

    pub fn liquid(&self, e: u16) -> (d: Option<ElementLiquidData>)
        ensures
            d == self.spec_liquid(e),
    {
        if (e as usize) < self.liquid_data.len() {
            Some(self.liquid_data[e as usize])
        } else {
            None
        }
    }

    pub open spec fn spec_pressure(self, e: u16) -> Option<ElementPressureData> {
        entry(self.pressure_data@, e as int)
    }

    pub fn pressure(&self, e: u16) -> (d: Option<ElementPressureData>)
        ensures
            d == self.spec_pressure(e),
    {
        if (e as usize) < self.pressure_data.len() {
            Some(self.pressure_data[e as usize])
        } else {
            None
        }
    }

    pub open spec fn spec_post_process(self, e: u16) -> Option<ElementPostProcessData> {
        entry(self.post_process_data@, e as int)
    }

    pub fn post_process(&self, e: u16) -> (d: Option<ElementPostProcessData>)
        ensures
            d == self.spec_post_process(e),
    {
        if (e as usize) < self.post_process_data.len() {
            Some(self.post_process_data[e as usize])
        } else {
            None
        }
    }

    pub open spec fn spec_temperature(self, e: u16) -> Option<ElementTemperatureData> {
        entry(self.temperature_data@, e as int)
    }

    pub fn temperature(&self, e: u16) -> (d: Option<ElementTemperatureData>)
        ensures
            d == self.spec_temperature(e),
    {
        if (e as usize) < self.temperature_data.len() {
            Some(self.temperature_data[e as usize])
        } else {
            None
        }
    }

    pub open spec fn spec_radiation(self, e: u16) -> Option<ElementRadiationData> {
        entry(self.radiation_data@, e as int)
    }

    pub fn radiation(&self, e: u16) -> (d: Option<ElementRadiationData>)
        ensures
            d == self.spec_radiation(e),
    {
        if (e as usize) < self.radiation_data.len() {
            Some(self.radiation_data[e as usize])
        } else {
            None
        }
    }

    pub open spec fn spec_light_absorption(self, e: u16) -> Option<ElementLightAbsorptionData> {
        entry(self.light_absorption_data@, e as int)
    }

    pub fn light_absorption(&self, e: u16) -> (d: Option<ElementLightAbsorptionData>)
        ensures
            d == self.spec_light_absorption(e),
    {
        if (e as usize) < self.light_absorption_data.len() {
            Some(self.light_absorption_data[e as usize])
        } else {
            None
        }
    }

    pub open spec fn spec_property_texture(self, e: u16) -> Option<ElementPropertyTextureData> {
        entry(self.property_texture_data@, e as int)
    }

    pub fn property_texture(&self, e: u16) -> (d: Option<ElementPropertyTextureData>)
        ensures
            d == self.spec_property_texture(e),
    {
        if (e as usize) < self.property_texture_data.len() {
            Some(self.property_texture_data[e as usize])
        } else {
            None
        }
    }

    /// The index of the first element with the given hash at or after `from`.
    pub open spec fn index_from(ids: Seq<u32>, hash: u32, from: int) -> u16
        decreases ids.len() - from,
    {
        if from < 0 || from >= ids.len() || from >= NO_ELEMENT {
            NO_ELEMENT
        } else if ids[from] == hash {
            from as u16
        } else {
            Self::index_from(ids, hash, from + 1)
        }
    }

    pub open spec fn spec_index_of(self, hash: u32) -> u16 {
        Self::index_from(self.ids@, hash, 0)
    }

    /// The first element with the given hash, or [`NO_ELEMENT`].
    pub fn index_of(&self, hash: u32) -> (e: u16)
        ensures
            e == self.spec_index_of(hash),
    {
        let mut i: usize = 0;
        while i < self.ids.len() && i < NO_ELEMENT as usize
            invariant
                i <= self.ids.len(),
                i <= NO_ELEMENT,
                Self::index_from(self.ids@, hash, 0) == Self::index_from(self.ids@, hash, i as int),
            decreases self.ids.len() - i,
        {
            if self.ids[i] == hash {
                return i as u16;
            }
            i = i + 1;
        }
        NO_ELEMENT
    }

    pub open spec fn spec_liquid_phase(self, e: u16) -> u8 {
        match self.spec_liquid(e) {
            Some(d) => spec_phase(d.state),
            None => NO_PHASE,
        }
    }

    /// The phase that the liquid table gives, or [`NO_PHASE`].
    pub fn liquid_phase(&self, e: u16) -> (p: u8)
        ensures
            p == self.spec_liquid_phase(e),
    {
        match self.liquid(e) {
            Some(d) => phase(d.state),
            None => NO_PHASE,
        }
    }

    pub open spec fn spec_pressure_phase(self, e: u16) -> u8 {
        match self.spec_pressure(e) {
            Some(d) => spec_phase(d.state),
            None => NO_PHASE,
        }
    }

    /// The phase that the pressure table gives, or [`NO_PHASE`].
    pub fn pressure_phase(&self, e: u16) -> (p: u8)
        ensures
            p == self.spec_pressure_phase(e),
    {
        match self.pressure(e) {
            Some(d) => phase(d.state),
            None => NO_PHASE,
        }
    }

    pub open spec fn spec_post_phase(self, e: u16) -> u8 {
        match self.spec_post_process(e) {
            Some(d) => spec_phase(d.state),
            None => NO_PHASE,
        }
    }

    /// The phase that the closing pass goes by, or [`NO_PHASE`].
    pub fn post_phase(&self, e: u16) -> (p: u8)
        ensures
            p == self.spec_post_phase(e),
    {
        match self.post_process(e) {
            Some(d) => phase(d.state),
            None => NO_PHASE,
        }
    }
}

} // verus!
