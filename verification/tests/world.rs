//! Gases, germs, radiation, textures, events and whole steps.
#![allow(dead_code)]

use sim_physics::cell;
use sim_physics::disease;
use sim_physics::element;
use sim_physics::gas_flow;
use sim_physics::germs;
use sim_physics::number::F32;
use sim_physics::physics;
use sim_physics::post_process;
use sim_physics::property_texture;
use sim_physics::radiation;
use sim_physics::region_events;
use sim_physics::sim_data;
use sim_physics::sunlight;
use std::cell::Ref;
use std::cell::RefCell;
use std::cell::RefMut;
use std::rc::Rc;

// The world of the library in hardware numbers: what the tests write and read.

fn num(x: f32) -> F32 {
    F32 { bits: x.to_bits() }
}

fn float(x: F32) -> f32 {
    f32::from_bits(x.bits)
}

fn nums(v: &[f32]) -> Vec<F32> {
    v.iter().map(|x| num(*x)).collect()
}

#[derive(Clone, Copy)]
struct DefaultValues {
    mass: f32,
}

/// An element, from which its entries in the tables are made.
#[derive(Clone, Copy)]
struct Element {
    id: i32,
    state: u8,
    number_of_gradient_colors: u8,
    colour: u32,
    gradient_colours: [u32; 6],
    material_properties: u32,
    flow: f32,
    viscosity: f32,
    max_mass: f32,
    molar_mass: f32,
    strength: f32,
    min_horizontal_flow: f32,
    min_vertical_flow: f32,
    low_temp: f32,
    high_temp: f32,
    low_temp_transition_idx: u16,
    high_temp_transition_idx: u16,
    sublimate_index: u16,
    sublimate_fx: i32,
    sublimate_rate: f32,
    sublimate_efficiency: f32,
    sublimate_probability: f32,
    off_gas_percentage: f32,
    light_absorption_factor: f32,
    specific_heat_capacity: f32,
    thermal_conductivity: f32,
    solid_surface_area_multiplier: f32,
    default_values: DefaultValues,
}

impl Default for Element {
    fn default() -> Element {
        Element {
            id: 0,
            state: 0,
            number_of_gradient_colors: 0,
            colour: 0,
            gradient_colours: [0; 6],
            material_properties: 0,
            flow: 0.0,
            viscosity: 0.0,
            max_mass: 0.0,
            molar_mass: 0.0,
            strength: 0.0,
            min_horizontal_flow: 0.0,
            min_vertical_flow: 0.0,
            low_temp: 0.0,
            high_temp: 0.0,
            low_temp_transition_idx: 0xffff,
            high_temp_transition_idx: 0xffff,
            sublimate_index: 0xffff,
            sublimate_fx: 0,
            sublimate_rate: 0.0,
            sublimate_efficiency: 0.0,
            sublimate_probability: 0.0,
            off_gas_percentage: 0.0,
            light_absorption_factor: 0.0,
            specific_heat_capacity: 0.0,
            thermal_conductivity: 0.0,
            solid_surface_area_multiplier: 0.0,
            default_values: DefaultValues { mass: 0.0 },
        }
    }
}

#[derive(Clone, Copy, Default)]
struct ElementLiquidData {
    state: u8,
    flow: f32,
    viscosity: f32,
    max_mass: f32,
    min_horizontal_flow: f32,
    min_vertical_flow: f32,
}

#[derive(Clone, Copy, Default)]
struct ElementPressureData {
    state: u8,
    flow: f32,
}

#[derive(Clone, Copy)]
struct ElementPostProcessData {
    state: u8,
    sublimate_index: u16,
    sublimate_fx: i32,
    max_mass: f32,
    molar_mass: f32,
    strength: f32,
    min_horizontal_flow: f32,
    sublimate_rate: f32,
    sublimate_efficiency: f32,
    sublimate_probability: f32,
    off_gas_percentage: f32,
}

impl Default for ElementPostProcessData {
    fn default() -> ElementPostProcessData {
        ElementPostProcessData {
            state: 0,
            sublimate_index: 0xffff,
            sublimate_fx: 0,
            max_mass: 0.0,
            molar_mass: 0.0,
            strength: 0.0,
            min_horizontal_flow: 0.0,
            sublimate_rate: 0.0,
            sublimate_efficiency: 0.0,
            sublimate_probability: 0.0,
            off_gas_percentage: 0.0,
        }
    }
}

#[derive(Clone, Copy)]
struct ElementTemperatureData {
    low_temp: f32,
    high_temp: f32,
    low_temp_transition_idx: u16,
    high_temp_transition_idx: u16,
}

#[derive(Clone, Copy)]
struct ElementRadiationData {
    factor: f32,
    rads_per_1000: f32,
}

#[derive(Clone, Copy)]
struct ElementLightAbsorptionData {
    factor: f32,
    mass_scale: f32,
}

#[derive(Default)]
struct Table {
    elements: Vec<Element>,
    liquid_data: Vec<ElementLiquidData>,
    pressure_data: Vec<ElementPressureData>,
    post_process_data: Vec<ElementPostProcessData>,
    temperature_data: Vec<ElementTemperatureData>,
    radiation_data: Vec<ElementRadiationData>,
    light_absorption_data: Vec<ElementLightAbsorptionData>,
    property_texture_data: Vec<element::ElementPropertyTextureData>,
}

impl Table {
    fn to_lib(&self) -> element::ElementsTable {
        element::ElementsTable {
            ids: self.elements.iter().map(|e| e.id as u32).collect(),
            liquid_data: self
                .liquid_data
                .iter()
                .map(|d| element::ElementLiquidData {
                    state: d.state,
                    flow: num(d.flow),
                    viscosity: num(d.viscosity),
                    max_mass: num(d.max_mass),
                    min_horizontal_flow: num(d.min_horizontal_flow),
                    min_vertical_flow: num(d.min_vertical_flow),
                })
                .collect(),
            pressure_data: self
                .pressure_data
                .iter()
                .map(|d| element::ElementPressureData { state: d.state, flow: num(d.flow) })
                .collect(),
            post_process_data: self
                .post_process_data
                .iter()
                .map(|d| element::ElementPostProcessData {
                    state: d.state,
                    sublimate_index: d.sublimate_index,
                    sublimate_fx: d.sublimate_fx,
                    max_mass: num(d.max_mass),
                    molar_mass: num(d.molar_mass),
                    strength: num(d.strength),
                    min_horizontal_flow: num(d.min_horizontal_flow),
                    sublimate_rate: num(d.sublimate_rate),
                    sublimate_efficiency: num(d.sublimate_efficiency),
                    sublimate_probability: num(d.sublimate_probability),
                    off_gas_percentage: num(d.off_gas_percentage),
                })
                .collect(),
            temperature_data: self
                .temperature_data
                .iter()
                .map(|d| element::ElementTemperatureData {
                    low_temp: num(d.low_temp),
                    high_temp: num(d.high_temp),
                    low_temp_transition_idx: d.low_temp_transition_idx,
                    high_temp_transition_idx: d.high_temp_transition_idx,
                })
                .collect(),
            radiation_data: self
                .radiation_data
                .iter()
                .map(|d| element::ElementRadiationData {
                    factor: num(d.factor),
                    rads_per_1000: num(d.rads_per_1000),
                })
                .collect(),
            light_absorption_data: self
                .light_absorption_data
                .iter()
                .map(|d| element::ElementLightAbsorptionData {
                    factor: num(d.factor),
                    mass_scale: num(d.mass_scale),
                })
                .collect(),
            property_texture_data: self.property_texture_data.clone(),
        }
    }
}

#[derive(Clone, Copy, Default)]
struct RangeInfo {
    min_viable: f32,
    min_growth: f32,
    max_growth: f32,
    max_viable: f32,
}

impl RangeInfo {
    fn to_lib(self) -> germs::RangeInfo {
        germs::RangeInfo {
            min_viable: num(self.min_viable),
            min_growth: num(self.min_growth),
            max_growth: num(self.max_growth),
            max_viable: num(self.max_viable),
        }
    }
}

/// A list that is set up by size and index.
#[derive(Clone, Default)]
struct List<T>(Vec<T>);

impl<T: Copy> List<T> {
    fn resize(&mut self, n: usize, x: T) {
        self.0.resize(n, x);
    }

    fn set(&mut self, i: usize, x: T) {
        self.0[i] = x;
    }
}

#[derive(Clone, Default)]
struct ElemGrowthInfo {
    under_population_death_rate: List<f32>,
    population_half_life: List<f32>,
    over_population_half_life: List<f32>,
    diffusion_scale: List<f32>,
    min_count_per_kg: List<f32>,
    max_count_per_kg: List<f32>,
    min_diffusion_count: List<i32>,
    min_diffusion_infestation_tick_count: List<u8>,
}

#[derive(Clone, Default)]
struct DiseaseInfo {
    hash_id: u32,
    strength: f32,
    temperature_range: RangeInfo,
    temperature_half_lives: RangeInfo,
    radiation_kill_rate: f32,
    elem_growth_info: ElemGrowthInfo,
}

#[derive(Clone, Default)]
struct Disease {
    diseases: Vec<DiseaseInfo>,
}

impl Disease {
    fn new() -> Disease {
        Disease::default()
    }

    fn to_lib(&self) -> germs::DiseaseTable {
        germs::DiseaseTable {
            diseases: self
                .diseases
                .iter()
                .map(|d| germs::DiseaseInfo {
                    hash: d.hash_id,
                    strength: num(d.strength),
                    temperature_range: d.temperature_range.to_lib(),
                    temperature_half_lives: d.temperature_half_lives.to_lib(),
                    radiation_kill_rate: num(d.radiation_kill_rate),
                    elem_growth_info: germs::ElemGrowthInfo {
                        under_population_death_rate: nums(
                            &d.elem_growth_info.under_population_death_rate.0,
                        ),
                        population_half_life: nums(&d.elem_growth_info.population_half_life.0),
                        over_population_half_life: nums(
                            &d.elem_growth_info.over_population_half_life.0,
                        ),
                        diffusion_scale: nums(&d.elem_growth_info.diffusion_scale.0),
                        min_count_per_kg: nums(&d.elem_growth_info.min_count_per_kg.0),
                        max_count_per_kg: nums(&d.elem_growth_info.max_count_per_kg.0),
                        min_diffusion_count: d.elem_growth_info.min_diffusion_count.0.clone(),
                        min_diffusion_infestation_tick_count: d
                            .elem_growth_info
                            .min_diffusion_infestation_tick_count
                            .0
                            .clone(),
                    },
                })
                .collect(),
        }
    }
}

#[derive(Default)]
struct Content {
    table: Table,
    diseases: Option<Disease>,
}

/// The tables that a world is made with.
#[derive(Clone, Default)]
struct Tables(Rc<RefCell<Content>>);

impl Tables {
    /// Makes the entries of elements.
    fn create(&self, elements: Vec<Element>) {
        let mut t = Table::default();
        for e in &elements {
            t.liquid_data.push(ElementLiquidData {
                state: e.state,
                flow: e.flow,
                viscosity: e.viscosity,
                max_mass: e.max_mass,
                min_horizontal_flow: e.min_horizontal_flow,
                min_vertical_flow: e.min_vertical_flow,
            });
            t.pressure_data.push(ElementPressureData { state: e.state, flow: e.flow });
            t.post_process_data.push(ElementPostProcessData {
                state: e.state,
                sublimate_index: e.sublimate_index,
                sublimate_fx: e.sublimate_fx,
                max_mass: e.max_mass,
                molar_mass: e.molar_mass,
                strength: e.strength,
                min_horizontal_flow: e.min_horizontal_flow,
                sublimate_rate: e.sublimate_rate,
                sublimate_efficiency: e.sublimate_efficiency,
                sublimate_probability: e.sublimate_probability,
                off_gas_percentage: e.off_gas_percentage,
            });
            t.temperature_data.push(ElementTemperatureData {
                low_temp: e.low_temp,
                high_temp: e.high_temp,
                low_temp_transition_idx: e.low_temp_transition_idx,
                high_temp_transition_idx: e.high_temp_transition_idx,
            });
            t.radiation_data.push(ElementRadiationData { factor: 0.0, rads_per_1000: 0.0 });
            t.light_absorption_data.push(ElementLightAbsorptionData {
                factor: e.light_absorption_factor,
                mass_scale: 1.0 / e.default_values.mass,
            });
            t.property_texture_data.push(element::ElementPropertyTextureData {
                state: e.state,
                number_of_gradient_colors: e.number_of_gradient_colors,
                colour: e.colour,
                gradient: e.gradient_colours,
                material_properties: e.material_properties,
            });
        }
        t.elements = elements;
        self.0.borrow_mut().table = t;
    }

    fn edit(&self) -> RefMut<'_, Table> {
        RefMut::map(self.0.borrow_mut(), |c| &mut c.table)
    }

    fn look(&self) -> Ref<'_, Content> {
        self.0.borrow()
    }

    fn install(&self, d: Disease) {
        self.0.borrow_mut().diseases = Some(d);
    }

    fn uninstall(&self) {
        self.0.borrow_mut().diseases = None;
    }
}

/// A grid of values.
struct Column<T>(RefCell<Vec<T>>);

impl<T: Copy> Column<T> {
    fn new(n: usize, x: T) -> Column<T> {
        Column(RefCell::new(vec![x; n]))
    }

    fn get(&self, i: usize) -> T {
        self.0.borrow()[i]
    }

    fn set(&self, i: usize, x: T) {
        self.0.borrow_mut()[i] = x;
    }

    fn len(&self) -> usize {
        self.0.borrow().len()
    }

    fn to_vec(&self) -> Vec<T> {
        self.0.borrow().clone()
    }

    fn fill(&self, v: Vec<T>) {
        *self.0.borrow_mut() = v;
    }
}

/// The cells, property by property.
struct CellSOA {
    tables: Tables,
    element_idx: Column<u16>,
    properties: Column<u8>,
    insulation: Column<u8>,
    strength_info: Column<u8>,
    disease_idx: Column<u8>,
    disease_infestation_tick_count: Column<u8>,
    disease_count: Column<i32>,
    mass: Column<f32>,
    temperature: Column<f32>,
    disease_growth_accumulated_error: Column<f32>,
    radiation: Column<f32>,
}

impl CellSOA {
    fn new(tables: &Tables, n: usize) -> CellSOA {
        CellSOA {
            tables: tables.clone(),
            element_idx: Column::new(n, 0),
            properties: Column::new(n, 0),
            insulation: Column::new(n, 0),
            strength_info: Column::new(n, 0),
            disease_idx: Column::new(n, 0xff),
            disease_infestation_tick_count: Column::new(n, 0),
            disease_count: Column::new(n, 0),
            mass: Column::new(n, 0.0),
            temperature: Column::new(n, 0.0),
            disease_growth_accumulated_error: Column::new(n, 0.0),
            radiation: Column::new(n, 0.0),
        }
    }

    fn to_lib(&self) -> Vec<cell::Cell> {
        (0..self.element_idx.len())
            .map(|i| cell::Cell {
                element_idx: self.element_idx.get(i),
                properties: self.properties.get(i),
                strength_info: self.strength_info.get(i),
                disease_idx: self.disease_idx.get(i),
                disease_infestation_tick_count: self.disease_infestation_tick_count.get(i),
                disease_count: self.disease_count.get(i),
                mass: num(self.mass.get(i)),
                temperature: num(self.temperature.get(i)),
                disease_growth_accumulated_error: num(
                    self.disease_growth_accumulated_error.get(i),
                ),
                radiation: num(self.radiation.get(i)),
            })
            .collect()
    }

    fn take(&self, cells: &[cell::Cell]) {
        for (i, c) in cells.iter().enumerate() {
            self.element_idx.set(i, c.element_idx);
            self.properties.set(i, c.properties);
            self.strength_info.set(i, c.strength_info);
            self.disease_idx.set(i, c.disease_idx);
            self.disease_infestation_tick_count.set(i, c.disease_infestation_tick_count);
            self.disease_count.set(i, c.disease_count);
            self.mass.set(i, float(c.mass));
            self.temperature.set(i, float(c.temperature));
            self.disease_growth_accumulated_error
                .set(i, float(c.disease_growth_accumulated_error));
            self.radiation.set(i, float(c.radiation));
        }
    }
}

/// A channel of events.
struct Channel<T>(RefCell<Vec<T>>);

impl<T: Copy> Channel<T> {
    fn new() -> Channel<T> {
        Channel(RefCell::new(Vec::new()))
    }

    fn len(&self) -> usize {
        self.0.borrow().len()
    }

    fn get(&self, i: usize) -> T {
        self.0.borrow()[i]
    }

    fn iter(&self) -> std::vec::IntoIter<T> {
        self.0.borrow().clone().into_iter()
    }

    fn clear(&self) {
        self.0.borrow_mut().clear();
    }

    fn push(&self, x: T) {
        self.0.borrow_mut().push(x);
    }
}

#[derive(Clone, Copy)]
struct DropletInfo {
    cell_idx: i32,
    element_idx: u16,
    disease_idx: u8,
    mass: f32,
    temperature: f32,
    disease_count: i32,
}

#[derive(Clone, Copy)]
struct FallInfo {
    cell_idx: i32,
    elem_idx: u16,
    falling_info: u8,
    disease_idx: u8,
    mass: f32,
    temperature: f32,
    disease_count: i32,
}

#[derive(Clone, Copy)]
struct FXInfo {
    cell_idx: i32,
    fx_id: i32,
    rotation: f32,
}

/// The events so far.
struct Events {
    substance_change_info: Channel<region_events::SubstanceChangeInfo>,
    spawn_liquid_info: Channel<DropletInfo>,
    unstable_cell_info: Channel<FallInfo>,
    spawn_fx_info: Channel<FXInfo>,
    world_damage_info: Channel<region_events::WorldDamageInfo>,
}

/// What is behind the cells.
struct Backwall {
    element_idx: Column<u16>,
}

struct ActiveRegion {
    min_x: i32,
    min_y: i32,
    max_x: i32,
    max_y: i32,
    current_cosmic_radiation_intensity: f32,
}

#[derive(Clone, Copy)]
struct RegionBounds {
    min_x: usize,
    min_y: usize,
    max_x: usize,
    max_y: usize,
}

impl RegionBounds {
    fn to_lib(self) -> sim_data::RegionBounds {
        sim_data::RegionBounds {
            min_x: self.min_x,
            min_y: self.min_y,
            max_x: self.max_x,
            max_y: self.max_y,
        }
    }
}

#[derive(Clone, Copy, Default)]
struct Vector4f {
    x: f32,
    y: f32,
    z: f32,
    w: f32,
}

struct SimData {
    tables: Tables,
    width: i32,
    height: i32,
    vacuum_element_idx: u16,
    void_element_idx: u16,
    unobtanium_element_idx: u16,
    headless: bool,
    saved_options: u32,
    radiation_enabled: bool,
    radiation_max_mass: f32,
    radiation_linger_rate: f32,
    radiation_base_weight: f32,
    radiation_density_weight: f32,
    radiation_constructed_factor: f32,
    world_zones: Vec<u8>,
    backwall: Backwall,
    visible_grid: Vec<u8>,
    active_regions: Vec<ActiveRegion>,
    worlds: Vec<sim_data::WorldOffsetData>,
    cells: CellSOA,
    updated_cells: CellSOA,
    flow: Column<Vector4f>,
    accumulated_flow: Column<f32>,
    timers: Column<u8>,
    sim_events: Events,
    random_seed: std::cell::Cell<u32>,
    displacement_direction: std::cell::Cell<i32>,
    tick_count: std::cell::Cell<u32>,
    iterate_direction: std::cell::Cell<i32>,
}

impl SimData {
    fn new_for_allocate(
        tables: &Tables,
        width: i32,
        height: i32,
        random_seed: u32,
        radiation_enabled: bool,
        headless: bool,
    ) -> SimData {
        let n = (width * height) as usize;
        SimData {
            tables: tables.clone(),
            width,
            height,
            vacuum_element_idx: 0,
            void_element_idx: 0xffff,
            unobtanium_element_idx: 0xffff,
            headless,
            saved_options: 0,
            radiation_enabled,
            radiation_max_mass: 2000.0,
            radiation_linger_rate: 1.1,
            radiation_base_weight: 0.3,
            radiation_density_weight: 0.7,
            radiation_constructed_factor: 0.8,
            world_zones: Vec::new(),
            backwall: Backwall { element_idx: Column::new(n, 0) },
            visible_grid: vec![0xff; ((width - 2) * (height - 2)) as usize],
            active_regions: Vec::new(),
            worlds: Vec::new(),
            cells: CellSOA::new(tables, n),
            updated_cells: CellSOA::new(tables, n),
            flow: Column::new(n, Vector4f::default()),
            accumulated_flow: Column::new(n, 0.0),
            timers: Column::new(n, 0),
            sim_events: Events {
                substance_change_info: Channel::new(),
                spawn_liquid_info: Channel::new(),
                unstable_cell_info: Channel::new(),
                spawn_fx_info: Channel::new(),
                world_damage_info: Channel::new(),
            },
            random_seed: std::cell::Cell::new(random_seed),
            displacement_direction: std::cell::Cell::new(-1),
            tick_count: std::cell::Cell::new(0),
            iterate_direction: std::cell::Cell::new(-1),
        }
    }

    fn to_lib(&self) -> sim_data::SimData {
        let content = self.tables.look();
        let (w, h) = (self.width as usize, self.height as usize);
        sim_data::SimData {
            env: sim_data::Env {
                width: w,
                height: h,
                num_game_cells: (self.width - 2) * (self.height - 2),
                vacuum_element_idx: self.vacuum_element_idx,
                void_element_idx: self.void_element_idx,
                unobtanium_element_idx: self.unobtanium_element_idx,
                headless: self.headless,
                is_debug_editing: false,
                saved_options: self.saved_options,
                radiation_enabled: self.radiation_enabled,
                radiation_max_mass: num(self.radiation_max_mass),
                radiation_linger_rate: num(self.radiation_linger_rate),
                radiation_base_weight: num(self.radiation_base_weight),
                radiation_density_weight: num(self.radiation_density_weight),
                radiation_constructed_factor: num(self.radiation_constructed_factor),
                elements: content.table.to_lib(),
                diseases: content.diseases.as_ref().map(|d| d.to_lib()),
                world_zones: self.world_zones.clone(),
                backwall_vacuum_element_idx: 0,
                backwall: self.backwall.element_idx.to_vec(),
                visible_grid: self.visible_grid.clone(),
                active_regions: self
                    .active_regions
                    .iter()
                    .map(|r| sim_data::ActiveRegion {
                        bounds: sim_data::RegionBounds {
                            min_x: r.min_x as usize,
                            min_y: r.min_y as usize,
                            max_x: (r.max_x as usize).min(w),
                            max_y: (r.max_y as usize).min(h),
                        },
                        post_process_bounds: sim_data::RegionBounds {
                            min_x: r.min_x as usize,
                            min_y: r.min_y as usize,
                            max_x: r.max_x as usize + 1,
                            max_y: r.max_y as usize + 1,
                        },
                        current_cosmic_radiation_intensity: num(
                            r.current_cosmic_radiation_intensity,
                        ),
                    })
                    .collect(),
                worlds: self.worlds.clone(),
            },
            cells: self.cells.to_lib(),
            updated_cells: self.updated_cells.to_lib(),
            flow: self
                .flow
                .to_vec()
                .iter()
                .map(|v| sim_data::Vector4f {
                    x: num(v.x),
                    y: num(v.y),
                    z: num(v.z),
                    w: num(v.w),
                })
                .collect(),
            accumulated_flow: nums(&self.accumulated_flow.to_vec()),
            timers: self.timers.to_vec(),
            sim_events: Some(region_events::RegionEvents::default()),
            region_sink: None,
            region_rng: None,
            random_seed: self.random_seed.get(),
            displacement_direction: self.displacement_direction.get(),
            tick_count: self.tick_count.get(),
            iterate_direction: self.iterate_direction.get(),
        }
    }

    fn take(&self, s: sim_data::SimData) {
        self.cells.take(&s.cells);
        self.updated_cells.take(&s.updated_cells);
        self.flow.fill(
            s.flow
                .iter()
                .map(|v| Vector4f {
                    x: float(v.x),
                    y: float(v.y),
                    z: float(v.z),
                    w: float(v.w),
                })
                .collect(),
        );
        self.accumulated_flow.fill(s.accumulated_flow.iter().map(|x| float(*x)).collect());
        self.timers.fill(s.timers);
        self.random_seed.set(s.random_seed);
        self.displacement_direction.set(s.displacement_direction);
        self.tick_count.set(s.tick_count);
        self.iterate_direction.set(s.iterate_direction);
        if let Some(e) = s.sim_events {
            for x in e.substance_change_info {
                self.sim_events.substance_change_info.push(x);
            }
            for x in e.spawn_liquid_info {
                self.sim_events.spawn_liquid_info.push(DropletInfo {
                    cell_idx: x.cell_idx,
                    element_idx: x.element_idx,
                    disease_idx: x.disease_idx,
                    mass: float(x.mass),
                    temperature: float(x.temperature),
                    disease_count: x.disease_count,
                });
            }
            for x in e.unstable_cell_info {
                self.sim_events.unstable_cell_info.push(FallInfo {
                    cell_idx: x.cell_idx,
                    elem_idx: x.elem_idx,
                    falling_info: x.falling_info,
                    disease_idx: x.disease_idx,
                    mass: float(x.mass),
                    temperature: float(x.temperature),
                    disease_count: x.disease_count,
                });
            }
            for x in e.spawn_fx_info {
                self.sim_events.spawn_fx_info.push(FXInfo {
                    cell_idx: x.cell_idx,
                    fx_id: x.fx_id,
                    rotation: float(x.rotation),
                });
            }
            for x in e.world_damage_info {
                self.sim_events.world_damage_info.push(x);
            }
        }
    }

    /// Lets the library work on the world.
    fn run<R>(&self, f: impl FnOnce(&mut sim_data::SimData) -> R) -> R {
        let mut s = self.to_lib();
        let r = f(&mut s);
        self.take(s);
        r
    }
}

fn full_grid_bounds(sd: &SimData) -> RegionBounds {
    RegionBounds {
        min_x: 1,
        min_y: 1,
        max_x: sd.width as usize - 1,
        max_y: sd.height as usize - 1,
    }
}

/// Answers a closing pass that nothing melts or changes phase.
fn finish(s: &mut sim_data::SimData, mut c: post_process::Closing) {
    while !c.is_over() {
        c.reply(s, false);
    }
}

fn post_process_loop(sd: &SimData, b: RegionBounds) {
    sd.run(|s| {
        let c = post_process::post_process_loop(s, b.to_lib());
        finish(s, c);
    });
}

fn run_gas_pressure_task(sd: &SimData, b: RegionBounds) {
    sd.run(|s| gas_flow::run_gas_pressure_task(s, b.to_lib()));
}

fn run_gas_displacement_task(sd: &SimData, b: RegionBounds) {
    sd.run(|s| gas_flow::run_gas_displacement_task(s, b.to_lib()));
}

fn copy_updated_cells_to_cells(sd: &SimData) {
    sd.run(physics::copy_updated_cells_to_cells);
}

fn clear_flow(sd: &SimData) {
    sd.flow.fill(vec![Vector4f::default(); sd.flow.len()]);
}

fn powers_of_two(exponents: &[F32]) -> Vec<F32> {
    exponents.iter().map(|e| num(f32::powf(2.0, float(*e)))).collect()
}

/// Runs a step in which `heat` is done where heat is due, and nothing melts or changes phase.
fn update_data_with(sd: &SimData, heat: impl Fn(&mut sim_data::SimData)) {
    sd.run(|s| {
        let mut step = physics::update_data(s);
        loop {
            let reply = match step.request(s) {
                physics::Request::Strengthen(_) | physics::Request::Components(_) => {
                    physics::Reply::Done
                }
                physics::Request::Heat(_) => {
                    heat(s);
                    physics::Reply::Done
                }
                physics::Request::Melt(..) | physics::Request::Transition(..) => {
                    physics::Reply::Answer(false)
                }
                physics::Request::Powers(e) => physics::Reply::Powers(powers_of_two(&e)),
                physics::Request::Nothing => return,
            };
            step.reply(s, reply);
        }
    });
}

fn update_data(sd: &SimData) {
    update_data_with(sd, |_| {});
}

fn run_disease_growth_task(sd: &SimData, b: RegionBounds) {
    sd.run(|s| {
        let e = disease::growth_exponents(s, b.to_lib());
        disease::run_disease_growth_task(s, b.to_lib(), powers_of_two(&e));
    });
}

fn run_disease_diffusion_task(sd: &SimData, b: RegionBounds) {
    sd.run(|s| disease::run_disease_diffusion_task(s, b.to_lib()));
}

fn update_cells(sd: &SimData, a: usize, b: usize) {
    sd.run(|s| disease::update_cells(s, a, b));
}

fn get_diffusion_scale(sd: &SimData, i: usize) -> f32 {
    sd.run(|s| {
        float(disease::get_diffusion_scale(s.env.diseases.as_ref().unwrap(), s.cells[i]))
    })
}

fn half_life_to_growth_rate(half_life: f32, dt: f32) -> f32 {
    let r = disease::half_life_to_growth_rate(num(half_life), num(dt));
    float(r.value(num(f32::powf(2.0, float(r.exponent())))))
}

fn calculate_range_half_life(temp: f32, range: &RangeInfo, half_lives: &RangeInfo) -> f32 {
    let (r, h) = (range.to_lib(), half_lives.to_lib());
    float(disease::calculate_range_half_life(num(temp), &r, &h))
}

fn run_radiation_task(sd: &SimData, b: RegionBounds, cosmic: f32) {
    sd.run(|s| radiation::run_radiation_task(s, b.to_lib(), num(cosmic)));
}

fn init_gas_table(tables: &Tables) {
    let mut table = tables.edit();
    for (id, state, flow) in [(0i32, 0u8, 0.0f32), (1i32, 1u8, 1.0f32), (2i32, 1u8, 1.0f32), (3i32, 3u8, 0.0f32)] {
        let mut elem = Element::default();
        elem.id = id;
        elem.state = state;
        elem.flow = flow;
        table.elements.push(elem);
        table.liquid_data.push(ElementLiquidData {
            state,
            flow,
            viscosity: 50.0,
            max_mass: 1000.0,
            ..Default::default()
        });
        table.pressure_data.push(ElementPressureData { state, flow });
        table.post_process_data.push(ElementPostProcessData {
            state,
            ..Default::default()
        });
    }
}

fn make_sim(tables: &Tables) -> SimData {
    let mut sd = SimData::new_for_allocate(tables, 8, 8, 1, false, true);
    sd.vacuum_element_idx = 0;
    sd.void_element_idx = 0xFFFF;
    sd
}

fn fill_both(sd: &SimData, f: impl Fn(&CellSOA)) {
    {
        f(&sd.cells);
        f(&sd.updated_cells);
    }
}

#[test]
fn gas_same_element_horizontal_balance_moves_mass() {
    let tables = &Tables::default();
    init_gas_table(tables);
    let sd = make_sim(tables);

    fill_both(&sd, |b| {
        b.element_idx.set(27, 1);
        b.mass.set(27, 100.0);
        b.temperature.set(27, 300.0);
        b.element_idx.set(28, 1);
        b.mass.set(28, 0.0);
        b.temperature.set(28, 300.0);
    });
    let b = full_grid_bounds(&sd);
    run_gas_pressure_task(&sd, b);
    {
        let u = &sd.updated_cells;
        assert!(u.mass.get(28) > 0.0);
        assert!(u.mass.get(27) < 100.0);

        let total: f32 = (0..64).map(|i| u.mass.get(i)).sum();
        assert!((total - 100.0).abs() < 1e-3);
    }
}

#[test]
fn gas_diffuses_into_vacuum_cell() {
    let tables = &Tables::default();
    init_gas_table(tables);
    let sd = make_sim(tables);

    fill_both(&sd, |b| {
        b.element_idx.set(27, 1);
        b.mass.set(27, 100.0);
        b.temperature.set(27, 300.0);
        b.element_idx.set(28, 0);
        b.mass.set(28, 0.0);
    });
    let b = full_grid_bounds(&sd);
    run_gas_pressure_task(&sd, b);
    {
        let u = &sd.updated_cells;
        assert!(u.mass.get(28) > 0.0);
        assert_eq!(u.element_idx.get(28), 1);
    }
}

#[test]
fn different_gas_displacement_pushes_beyond_gas() {
    let tables = &Tables::default();
    init_gas_table(tables);
    let sd = make_sim(tables);

    fill_both(&sd, |b| {
        b.element_idx.set(27, 1);
        b.mass.set(27, 100.0);
        b.temperature.set(27, 300.0);
        b.element_idx.set(28, 2);
        b.mass.set(28, 10.0);
        b.temperature.set(28, 200.0);
        b.element_idx.set(29, 2);
        b.mass.set(29, 0.0);
        b.temperature.set(29, 200.0);
    });
    let b = full_grid_bounds(&sd);
    run_gas_displacement_task(&sd, b);
    {
        let u = &sd.updated_cells;

        assert_eq!(u.element_idx.get(28), 1);
        assert!(u.mass.get(28) > 10.0);
        assert_eq!(u.element_idx.get(29), 2);
        assert!(u.mass.get(29) > 0.0);
    }
}

#[test]
fn different_gas_displacement_beyond_vacuum_allowed() {
    let tables = &Tables::default();
    init_gas_table(tables);
    let sd = make_sim(tables);

    fill_both(&sd, |b| {
        b.element_idx.set(27, 1);
        b.mass.set(27, 100.0);
        b.temperature.set(27, 300.0);
        b.element_idx.set(28, 2);
        b.mass.set(28, 10.0);
        b.temperature.set(28, 200.0);
        b.element_idx.set(29, 0);
        b.mass.set(29, 0.0);
        b.temperature.set(29, 0.0);
    });
    let b = full_grid_bounds(&sd);
    run_gas_displacement_task(&sd, b);
    {
        let u = &sd.updated_cells;

        assert_eq!(u.element_idx.get(28), 1);
        assert!(u.mass.get(28) > 10.0);
        assert_eq!(u.element_idx.get(29), 2);
        assert!((u.mass.get(29) - 10.0).abs() < 1e-3);
    }
}

#[test]
fn iterate_direction_flips_each_update() {
    let tables = &Tables::default();
    init_gas_table(tables);
    let sd = make_sim(tables);
    assert_eq!(sd.iterate_direction.get(), -1);
    update_data(&sd);
    assert_eq!(sd.iterate_direction.get(), 1);
    update_data(&sd);
    assert_eq!(sd.iterate_direction.get(), -1);
}

fn init_stratify_table(tables: &Tables) {
    let mut table = tables.edit();
    let specs = [
        (0i32, 0u8, 0.0f32, 0.0f32),
        (1i32, 1u8, 1.0f32, 44.0f32),
        (2i32, 1u8, 1.0f32, 32.0f32),
        (3i32, 3u8, 0.0f32, 100.0f32),
    ];
    for (id, state, flow, molar) in specs {
        let mut elem = Element::default();
        elem.id = id;
        elem.state = state;
        elem.flow = flow;
        elem.molar_mass = molar;
        table.elements.push(elem);
        table.liquid_data.push(ElementLiquidData {
            state,
            flow,
            viscosity: 50.0,
            max_mass: 1000.0,
            ..Default::default()
        });
        table.pressure_data.push(ElementPressureData { state, flow });
        table.post_process_data.push(ElementPostProcessData {
            state,
            molar_mass: molar,
            max_mass: 1000.0,
            ..Default::default()
        });
    }
}

#[test]
fn gas_stratification_co2_sinks_below_o2() {
    let tables = &Tables::default();
    init_stratify_table(tables);
    let mut sd = SimData::new_for_allocate(tables, 14, 10, 12345, false, true);
    sd.vacuum_element_idx = 0;
    sd.void_element_idx = 0xFFFF;
    let w = sd.width as usize;
    let h = sd.height as usize;
    fill_both(&sd, |b| {
        for y in 0..h {
            for x in 0..w {
                let c = y * w + x;

                if y == 0 || y == h - 1 || x == 0 || x == w - 1 {
                    b.element_idx.set(c, 3);
                    b.mass.set(c, 1000.0);
                    b.temperature.set(c, 300.0);
                    continue;
                }

                let elem = if y >= 5 { 1u16 } else { 2u16 };
                let mass = if elem == 1 { 100.0 } else { 200.0 };
                b.element_idx.set(c, elem);
                b.mass.set(c, mass);
                b.temperature.set(c, 300.0);
            }
        }
    });
    let b = full_grid_bounds(&sd);

    let mut trend: Vec<(usize, f32, f32)> = Vec::new();
    for frame in 0..50000 {
        copy_updated_cells_to_cells(&sd);
        sd.iterate_direction.set(-sd.iterate_direction.get());
        run_gas_pressure_task(&sd, b);
        run_gas_displacement_task(&sd, b);
        copy_updated_cells_to_cells(&sd);
        post_process_loop(&sd, b);

        if [1000usize, 5000, 15000, 30000, 45000].contains(&(frame + 1)) {
            let (mut co2_bottom, mut co2_top) = (0.0f32, 0.0f32);
            for y in 1..h - 1 {
                for x in 1..w - 1 {
                    let c = y * w + x;
                    let e = sd.updated_cells.element_idx.get(c);
                    if e == 1 {
                        if y <= 4 {
                            co2_bottom += sd.updated_cells.mass.get(c);
                        } else {
                            co2_top += sd.updated_cells.mass.get(c);
                        }
                    }
                }
            }
            trend.push((frame + 1, co2_bottom, co2_top));
        }
    }
    let last = trend.last().copied().unwrap_or((0, 0.0, 0.0));

    assert!(trend.len() >= 5 && trend[0].1 > 4000.0);
    assert!(last.2 < 1.0);
}

#[test]
fn flow_texture_returns_to_rest_when_cleared_each_frame() {
    let tables = &Tables::default();

    {
        let mut table = tables.edit();
        for (id, state, flow) in [(0i32, 0u8, 0.0f32), (1i32, 1u8, 0.1f32), (3i32, 3u8, 0.0f32)] {
            let mut elem = Element::default();
            elem.id = id;
            elem.state = state;
            elem.flow = flow;
            table.elements.push(elem);
            table.liquid_data.push(ElementLiquidData {
                state,
                flow,
                viscosity: 50.0,
                max_mass: 1000.0,
                ..Default::default()
            });
            table.pressure_data.push(ElementPressureData { state, flow });
            table.post_process_data.push(ElementPostProcessData {
                state,
                ..Default::default()
            });
        }
    }

    let mut sd = SimData::new_for_allocate(tables, 14, 10, 12345, false, true);
    sd.vacuum_element_idx = 0;
    sd.void_element_idx = 0xFFFF;
    let w = sd.width as usize;
    let h = sd.height as usize;
    let src = 3 * w + 3;
    fill_both(&sd, |b| {
        for y in 0..h {
            for x in 0..w {
                let c = y * w + x;
                if y == 0 || y == h - 1 || x == 0 || x == w - 1 {
                    b.element_idx.set(c, 3);
                    b.mass.set(c, 1000.0);
                    b.temperature.set(c, 300.0);
                } else {
                    b.element_idx.set(c, 0);
                    b.temperature.set(c, 300.0);
                }
            }
        }
        b.element_idx.set(src, 1);
        b.mass.set(src, 100.0);
    });
    let b = full_grid_bounds(&sd);

    let mut last = 0usize;
    let mut raw_max = 0.0f32;
    for frame in 1..=20000usize {
        clear_flow(&sd);
        copy_updated_cells_to_cells(&sd);
        sd.iterate_direction.set(-sd.iterate_direction.get());
        run_gas_pressure_task(&sd, b);
        run_gas_displacement_task(&sd, b);
        copy_updated_cells_to_cells(&sd);

        raw_max = {
            let flow = sd.flow.to_vec();
            let u = &sd.updated_cells;
            let mut rmax = 0.0f32;
            for y in 1..h - 1 {
                for x in 1..w - 1 {
                    let c = y * w + x;
                    if u.element_idx.get(c) != 1 {
                        continue;
                    }
                    let inv = 1.0 / u.mass.get(c).max(1.0);
                    let f = flow[c];
                    rmax = rmax
                        .max(((f.x - f.y) * inv).abs())
                        .max(((f.w - f.z) * inv).abs());
                }
            }
            rmax
        };
        last = frame;
    }
    assert!(last == 20000);

    assert!(raw_max < 0.05);
}

fn create_state_table(tables: &Tables) {
    let mut w = Vec::new();
    for (id, state) in [(0i32, 1u8), (1i32, 2u8), (2i32, 3u8)] {
        let mut elem = Element::default();
        elem.id = id;
        elem.state = state;
        elem.number_of_gradient_colors = 1;
        w.push(elem);
    }
    tables.create(w);
}

fn install_disease_table(tables: &Tables) {
    let mut t = Disease::new();
    for (hash, strength) in [(0xAAAAu32, 2.0f32), (0xBBBB, 1.0)] {
        let mut eg = ElemGrowthInfo::default();
        eg.diffusion_scale.resize(3, 0.0);
        eg.diffusion_scale.set(0, 1.0);
        eg.diffusion_scale.set(1, 0.5);
        eg.diffusion_scale.set(2, 0.0);
        eg.min_diffusion_count.resize(3, 0);
        eg.min_diffusion_count.set(0, 10);
        eg.min_diffusion_count.set(1, 5);
        eg.min_diffusion_count.set(2, 100);
        eg.min_diffusion_infestation_tick_count.resize(3, 0);
        eg.min_diffusion_infestation_tick_count.set(0, 2);
        eg.min_diffusion_infestation_tick_count.set(1, 1);
        eg.min_diffusion_infestation_tick_count.set(2, 3);
        t.diseases.push(DiseaseInfo {
            hash_id: hash,
            strength,
            elem_growth_info: eg,
            ..Default::default()
        });
    }
    tables.install(t);
}

#[test]
fn get_diffusion_scale_gates() {
    let tables = &Tables::default();
    create_state_table(tables);
    install_disease_table(tables);
    let sd = SimData::new_for_allocate(tables, 6, 5, 1, true, false);
    {
        let cells = &sd.cells;

        cells.element_idx.set(7, 0);
        cells.disease_idx.set(7, 0);
        cells.disease_count.set(7, 9);
        cells.disease_infestation_tick_count.set(7, 5);
        assert_eq!(get_diffusion_scale(&sd, 7), 0.0);

        cells.disease_count.set(7, 100);
        cells.disease_infestation_tick_count.set(7, 1);
        assert_eq!(get_diffusion_scale(&sd, 7), 0.0);

        cells.disease_infestation_tick_count.set(7, 5);
        assert_eq!(get_diffusion_scale(&sd, 7), 1.0);

        cells.element_idx.set(8, 1);
        cells.disease_idx.set(8, 0);
        cells.disease_count.set(8, 100);
        cells.disease_infestation_tick_count.set(8, 5);
        assert_eq!(get_diffusion_scale(&sd, 8), 0.5);

        cells.element_idx.set(9, 2);
        cells.disease_idx.set(9, 0);
        cells.disease_count.set(9, 100);
        cells.disease_infestation_tick_count.set(9, 5);
        assert_eq!(get_diffusion_scale(&sd, 9), 0.0);
    }
}

fn set_both(sd: &SimData, cell: usize, elem: u16, d_idx: u8, d_count: i32, tick: u8) {
    {
        for buf in [&sd.cells, &sd.updated_cells] {
            let cells = buf;
            cells.element_idx.set(cell, elem);
            cells.disease_idx.set(cell, d_idx);
            cells.disease_count.set(cell, d_count);
            cells.disease_infestation_tick_count.set(cell, tick);
        }
    }
}

#[test]
fn update_cells_same_disease_equilibrates() {
    let tables = &Tables::default();
    create_state_table(tables);
    install_disease_table(tables);
    let sd = SimData::new_for_allocate(tables, 6, 5, 1, true, false);

    set_both(&sd, 7, 0, 0, 100, 5);
    set_both(&sd, 8, 0, 0, 50, 5);
    update_cells(&sd, 7, 8);
    {
        let u = &sd.updated_cells;
        assert_eq!(u.disease_count.get(7), 94);
        assert_eq!(u.disease_count.get(8), 56);
        assert_eq!(u.disease_idx.get(7), 0);
        assert_eq!(u.disease_idx.get(8), 0);
    }
}

#[test]
fn update_cells_empty_a_absorbs_from_b() {
    let tables = &Tables::default();
    create_state_table(tables);
    install_disease_table(tables);
    let sd = SimData::new_for_allocate(tables, 6, 5, 1, true, false);
    set_both(&sd, 7, 0, 0xff, 0, 0);
    set_both(&sd, 8, 0, 0, 100, 5);
    update_cells(&sd, 7, 8);
    {
        let u = &sd.updated_cells;
        assert_eq!(u.disease_count.get(7), 12);
        assert_eq!(u.disease_idx.get(7), 0);
        assert_eq!(u.disease_count.get(8), 88);
        assert_eq!(u.disease_idx.get(8), 0);
    }
}

#[test]
fn update_cells_empty_b_receives_from_a() {
    let tables = &Tables::default();
    create_state_table(tables);
    install_disease_table(tables);
    let sd = SimData::new_for_allocate(tables, 6, 5, 1, true, false);
    set_both(&sd, 7, 0, 0, 100, 5);
    set_both(&sd, 8, 0, 0xff, 0, 0);
    update_cells(&sd, 7, 8);
    {
        let u = &sd.updated_cells;
        assert_eq!(u.disease_count.get(7), 88);
        assert_eq!(u.disease_count.get(8), 12);
        assert_eq!(u.disease_idx.get(8), 0);
    }
}

#[test]
fn update_cells_different_disease_stronger_flows() {
    let tables = &Tables::default();
    create_state_table(tables);
    install_disease_table(tables);
    let sd = SimData::new_for_allocate(tables, 6, 5, 1, true, false);

    set_both(&sd, 7, 0, 0, 100, 5);
    set_both(&sd, 8, 0, 1, 100, 5);
    update_cells(&sd, 7, 8);
    {
        let u = &sd.updated_cells;
        assert_eq!(u.disease_count.get(7), 88);
        assert_eq!(u.disease_idx.get(7), 0);

        assert_eq!(u.disease_count.get(8), 404);
        assert_eq!(u.disease_idx.get(8), 1);
    }
}

#[test]
fn update_cells_element_state_gate_blocks() {
    let tables = &Tables::default();
    create_state_table(tables);
    install_disease_table(tables);
    let sd = SimData::new_for_allocate(tables, 6, 5, 1, true, false);

    set_both(&sd, 7, 0, 0, 100, 5);
    set_both(&sd, 8, 1, 0, 50, 5);
    update_cells(&sd, 7, 8);
    {
        let u = &sd.updated_cells;
        assert_eq!(u.disease_count.get(7), 100);
        assert_eq!(u.disease_count.get(8), 50);
    }
}

#[test]
fn run_disease_diffusion_task_loops_right_and_down() {
    let tables = &Tables::default();
    create_state_table(tables);
    install_disease_table(tables);
    let sd = SimData::new_for_allocate(tables, 6, 5, 1, true, false);

    set_both(&sd, 14, 0, 0, 100, 5);
    set_both(&sd, 15, 0, 0, 50, 5);
    set_both(&sd, 20, 0, 0, 50, 5);
    let bounds = RegionBounds {
min_x: 2,
min_y: 2,
max_x: 3,
max_y: 3,
    };
    run_disease_diffusion_task(&sd, bounds);
    {
        let u = &sd.updated_cells;
        assert_eq!(u.disease_count.get(14), 88);
        assert_eq!(u.disease_count.get(15), 56);
        assert_eq!(u.disease_count.get(20), 56);
    }
}

fn install_growth_table(tables: &Tables) {
    let mut t = Disease::new();
    let mut eg = ElemGrowthInfo::default();
    eg.min_count_per_kg.resize(1, 0.0);
    eg.min_count_per_kg.set(0, 100.0);
    eg.max_count_per_kg.resize(1, 0.0);
    eg.max_count_per_kg.set(0, 1000.0);
    eg.population_half_life.resize(1, 0.0);
    eg.population_half_life.set(0, 10.0);
    eg.over_population_half_life.resize(1, 0.0);
    eg.over_population_half_life.set(0, 10.0);
    eg.under_population_death_rate.resize(1, 0.0);
    eg.under_population_death_rate.set(0, 1.0);
    t.diseases.push(DiseaseInfo {
        hash_id: 0xD1,
        strength: 1.0,
        temperature_range: RangeInfo {
            min_viable: 0.0,
            min_growth: 20.0,
            max_growth: 40.0,
            max_viable: 60.0,
        },
        temperature_half_lives: RangeInfo {
            min_viable: 5.0,
            min_growth: 2.0,
            max_growth: 2.0,
            max_viable: 5.0,
        },
        elem_growth_info: eg,
        radiation_kill_rate: 0.5,
        ..Default::default()
    });
    tables.install(t);
}

    fn set_updated(
    sd: &SimData,
    cell: usize,
    temp: f32,
    mass: f32,
    d_idx: u8,
    d_count: i32,
    tick: u8,
    acc: f32,
    rad: f32,
) {
    {
        let u = &sd.updated_cells;
        u.element_idx.set(cell, 0);
        u.temperature.set(cell, temp);
        u.mass.set(cell, mass);
        u.disease_idx.set(cell, d_idx);
        u.disease_count.set(cell, d_count);
        u.disease_infestation_tick_count.set(cell, tick);
        u.disease_growth_accumulated_error.set(cell, acc);
        u.radiation.set(cell, rad);
    }
}

#[test]
fn post_process_optimal_temp_within_population_range() {
    let tables = &Tables::default();
    install_growth_table(tables);
    let sd = SimData::new_for_allocate(tables, 6, 5, 1, false, false);

    set_updated(&sd, 7, 30.0, 1.0, 0, 500, 5, 0.0, 0.0);
let bounds = RegionBounds { min_x: 1, min_y: 1, max_x: 4, max_y: 2 };
    run_disease_growth_task(&sd, bounds);
    {
        let u = &sd.updated_cells;
        assert_eq!(u.disease_count.get(7), 494);
        assert!((u.disease_growth_accumulated_error.get(7) - (-0.8836478)).abs() < 1e-5);
        assert_eq!(u.disease_infestation_tick_count.get(7), 6);
    }
}

#[test]
fn post_process_below_min_viable_decays() {
    let tables = &Tables::default();
    install_growth_table(tables);
    let sd = SimData::new_for_allocate(tables, 6, 5, 1, false, false);

    set_updated(&sd, 7, -10.0, 1.0, 0, 500, 5, 0.0, 0.0);
let bounds = RegionBounds { min_x: 1, min_y: 1, max_x: 4, max_y: 2 };
    run_disease_growth_task(&sd, bounds);
    {
        let u = &sd.updated_cells;
        assert_eq!(u.disease_count.get(7), 480);
        assert!((u.disease_growth_accumulated_error.get(7) - (-0.5561741)).abs() < 1e-5);
    }
}

#[test]
fn post_process_under_population_constant_death() {
    let tables = &Tables::default();
    install_growth_table(tables);
    let sd = SimData::new_for_allocate(tables, 6, 5, 1, false, false);

    set_updated(&sd, 7, 30.0, 1.0, 0, 50, 5, 0.0, 0.0);
let bounds = RegionBounds { min_x: 1, min_y: 1, max_x: 4, max_y: 2 };
    run_disease_growth_task(&sd, bounds);
    {
        let u = &sd.updated_cells;
        assert_eq!(u.disease_count.get(7), 50);
        assert!((u.disease_growth_accumulated_error.get(7) - (-0.2)).abs() < 1e-6);
    }
}

#[test]
fn post_process_over_population_half_life() {
    let tables = &Tables::default();
    install_growth_table(tables);
    let sd = SimData::new_for_allocate(tables, 6, 5, 1, false, false);

    set_updated(&sd, 7, 30.0, 1.0, 0, 2000, 5, 0.0, 0.0);
let bounds = RegionBounds { min_x: 1, min_y: 1, max_x: 4, max_y: 2 };
    run_disease_growth_task(&sd, bounds);
    {
        let u = &sd.updated_cells;
        assert_eq!(u.disease_count.get(7), 1973);
        assert!((u.disease_growth_accumulated_error.get(7) - (-0.5346)).abs() < 1e-3);
    }
}

#[test]
fn post_process_accumulated_error_carries() {
    let tables = &Tables::default();
    install_growth_table(tables);
    let sd = SimData::new_for_allocate(tables, 6, 5, 1, false, false);

    set_updated(&sd, 7, 30.0, 1.0, 0, 500, 5, 0.4, 0.0);
let bounds = RegionBounds { min_x: 1, min_y: 1, max_x: 4, max_y: 2 };
    run_disease_growth_task(&sd, bounds);
    {
        let u = &sd.updated_cells;
        assert_eq!(u.disease_count.get(7), 494);
        assert!((u.disease_growth_accumulated_error.get(7) - (-0.4836478)).abs() < 1e-5);
    }
}

#[test]
fn post_process_radiation_kills_when_enabled() {
    let tables = &Tables::default();
    install_growth_table(tables);
    let sd = SimData::new_for_allocate(tables, 6, 5, 1, true, false);

    set_updated(&sd, 7, 30.0, 1.0, 0, 500, 5, 0.0, 10.0);
let bounds = RegionBounds { min_x: 1, min_y: 1, max_x: 4, max_y: 2 };
    run_disease_growth_task(&sd, bounds);
    {
        let u = &sd.updated_cells;
        assert_eq!(u.disease_count.get(7), 489);
        assert!((u.disease_growth_accumulated_error.get(7) - (-0.8836478)).abs() < 1e-5);
    }
}

#[test]
fn post_process_second_pass_clears_and_increments_tick() {
    let tables = &Tables::default();
    install_growth_table(tables);
    let sd = SimData::new_for_allocate(tables, 6, 5, 1, false, false);

    set_updated(&sd, 7, 30.0, 1.0, 0, 0, 0, 0.5, 0.0);

    set_updated(&sd, 8, 30.0, 1.0, 0xff, 0, 7, 0.0, 0.0);
let bounds = RegionBounds { min_x: 1, min_y: 1, max_x: 4, max_y: 2 };
    run_disease_growth_task(&sd, bounds);
    {
        let u = &sd.updated_cells;
        assert_eq!(u.disease_idx.get(7), 0xff);
        assert_eq!(u.disease_count.get(7), 0);
        assert_eq!(u.disease_infestation_tick_count.get(7), 1);
        assert_eq!(u.disease_growth_accumulated_error.get(7), 0.0);
        assert_eq!(u.disease_infestation_tick_count.get(8), 1);
        assert_eq!(u.disease_idx.get(8), 0xff);
    }
}

fn install_integration_table(tables: &Tables) {
    let mut t = Disease::new();
    let mut eg = ElemGrowthInfo::default();
    eg.diffusion_scale.resize(1, 0.0);
    eg.diffusion_scale.set(0, 1.0);
    eg.min_diffusion_count.resize(1, 0);
    eg.min_diffusion_infestation_tick_count.resize(1, 0);
    eg.min_count_per_kg.resize(1, 0.0);
    eg.max_count_per_kg.resize(1, f32::INFINITY);
    eg.population_half_life.resize(1, f32::INFINITY);
    eg.over_population_half_life.resize(1, f32::INFINITY);
    eg.under_population_death_rate.resize(1, 0.0);
    t.diseases.push(DiseaseInfo {
        hash_id: 0xE1,
        strength: 1.0,
        temperature_range: RangeInfo {
            min_viable: -f32::INFINITY,
            min_growth: -f32::INFINITY,
            max_growth: f32::INFINITY,
            max_viable: f32::INFINITY,
        },
        temperature_half_lives: RangeInfo {
            min_viable: f32::INFINITY,
            min_growth: f32::INFINITY,
            max_growth: f32::INFINITY,
            max_viable: f32::INFINITY,
        },
        elem_growth_info: eg,
        radiation_kill_rate: 0.0,
        ..Default::default()
    });
    tables.install(t);
}

fn create_solid_table(tables: &Tables) {
    let mut w = Vec::new();
    let mut elem = Element::default();
    elem.id = 0;
    elem.state = 3;
    elem.low_temp = -273.0;
    elem.high_temp = 1000.0;
    elem.number_of_gradient_colors = 1;
    w.push(elem);
    tables.create(w);
}

#[test]
fn update_data_hooks_disease_diffusion_after_liquid() {
    let tables = &Tables::default();
    create_solid_table(tables);
    install_integration_table(tables);
    let mut sd = SimData::new_for_allocate(tables, 6, 5, 1, false, false);

    sd.vacuum_element_idx = 0;
    sd.void_element_idx = 0xFFFF;

    {
        for buf in [&sd.cells, &sd.updated_cells] {
            let c = buf;
            for i in 0..30usize {
                c.element_idx.set(i, 0);
                c.temperature.set(i, 300.0);
                c.mass.set(i, 1000.0);
                c.disease_idx.set(i, 0xff);
                c.disease_count.set(i, 0);
                c.disease_infestation_tick_count.set(i, 0);
            }
        }
    }
    set_both(&sd, 14, 0, 0, 100, 0);
    set_both(&sd, 15, 0, 0, 50, 0);

    set_both(&sd, 20, 0, 0, 100, 0);
    sd.active_regions.push(ActiveRegion {
        min_x: 2,
        min_y: 2,
        max_x: 3,
        max_y: 3,
        current_cosmic_radiation_intensity: 0.0,
    });
    update_data(&sd);
    {
        let u = &sd.updated_cells;
        assert_eq!(u.disease_count.get(14), 94);
        assert_eq!(u.disease_count.get(15), 56);
        assert_eq!(u.disease_count.get(20), 100);
        assert_eq!(u.disease_idx.get(14), 0);
        assert_eq!(u.disease_idx.get(15), 0);
        assert_eq!(u.disease_infestation_tick_count.get(14), 1);
    }
}

#[test]
fn half_life_to_growth_rate_zero_is_zero() {
    assert_eq!(half_life_to_growth_rate(0.0, 0.2), 0.0);
}

#[test]
fn half_life_to_growth_rate_infinity_is_one() {
    assert_eq!(half_life_to_growth_rate(f32::INFINITY, 0.2), 1.0);
}

#[test]
fn half_life_to_growth_rate_matches_pow2() {
    assert!((half_life_to_growth_rate(1.0, 0.2) - 0.870550563296124).abs() < 1e-6);

    assert!((half_life_to_growth_rate(10.0, 0.2) - 0.9862327044935591).abs() < 1e-6);
}

fn test_range() -> RangeInfo {
    RangeInfo {
        min_viable: 0.0,
        min_growth: 20.0,
        max_growth: 40.0,
        max_viable: 60.0,
    }
}

fn test_hl() -> RangeInfo {
    RangeInfo {
        min_viable: 100.0,
        min_growth: 200.0,
        max_growth: 300.0,
        max_viable: 400.0,
    }
}

#[test]
fn calculate_range_half_life_optimal_band_is_infinity() {
    let tables = &Tables::default();
    assert_eq!(calculate_range_half_life(30.0, &test_range(), &test_hl()), f32::INFINITY);
}

#[test]
fn calculate_range_half_life_interpolates_band() {
    let tables = &Tables::default();

    assert_eq!(calculate_range_half_life(10.0, &test_range(), &test_hl()), 150.0);
}

#[test]
fn calculate_range_half_life_clamps_below_and_above() {
    let tables = &Tables::default();
    assert_eq!(calculate_range_half_life(-5.0, &test_range(), &test_hl()), 100.0);
    assert_eq!(calculate_range_half_life(80.0, &test_range(), &test_hl()), 400.0);
}

#[test]
fn calculate_range_half_life_inf_propagates() {
    let tables = &Tables::default();
    let hl = RangeInfo {
        min_viable: f32::INFINITY,
        ..test_hl()
    };
    assert_eq!(calculate_range_half_life(10.0, &test_range(), &hl), f32::INFINITY);
}

fn init_radiation_table(tables: &Tables) {
    let mut table = tables.edit();
    for (id, state, factor, rads) in [
        (0i32, 0u8, 0.0f32, 0.0f32),
        (1i32, 3u8, 0.5f32, 0.0f32),
        (2i32, 3u8, 0.2f32, 1000.0f32),
        (3i32, 3u8, 1.0f32, 0.0f32),
    ] {
        let mut e = Element::default();
        e.id = id;
        e.state = state;
        table.elements.push(e);
        table.liquid_data.push(ElementLiquidData {
            state,
            ..Default::default()
        });
        table.pressure_data.push(ElementPressureData {
            state,
            ..Default::default()
        });
        table.post_process_data.push(ElementPostProcessData {
            state,
            ..Default::default()
        });
        table.radiation_data.push(ElementRadiationData {
            factor,
            rads_per_1000: rads,
        });
    }
}

fn make_radiant_sim(tables: &Tables) -> SimData {
    let mut sd = SimData::new_for_allocate(tables, 8, 8, 1, true, false);
    sd.vacuum_element_idx = 0;
    sd.void_element_idx = 0xFFFF;
    sd.radiation_linger_rate = 1.1;
    sd.radiation_max_mass = 2000.0;
    sd.radiation_base_weight = 0.3;
    sd.radiation_density_weight = 0.7;
    sd.radiation_constructed_factor = 0.8;
    sd
}

fn install_rs_table(tables: &Tables, include_rs: bool) {
    let mut t = Disease::new();
    if include_rs {
        t.diseases.push(DiseaseInfo {
            hash_id: 0xd49f77d6,
            ..Default::default()
        });
    }
    t.diseases.push(DiseaseInfo {
        hash_id: 0x9999,
        ..Default::default()
    });
    tables.install(t);
}

fn set_cell_disease(sd: &SimData, cell: usize, d_idx: u8, count: i32) {
    {
        for buf in [&sd.cells, &sd.updated_cells] {
            let c = buf;
            c.disease_idx.set(cell, d_idx);
            c.disease_count.set(cell, count);
        }
    }
}

fn set_cell_radiation(sd: &SimData, cell: usize, rad: f32) {
    {
        let u = &sd.updated_cells;
        u.radiation.set(cell, rad);
    }
}

#[test]
fn radiation_sickness_disease_contributes_count_times_0001() {
    let tables = &Tables::default();
    init_radiation_table(tables);
    install_rs_table(tables, true);
    let sd = make_radiant_sim(tables);

    set_cell_disease(&sd, 9, 0, 5000);
    set_cell_radiation(&sd, 9, 0.0);
    let bounds = full_grid_bounds(&sd);
    run_radiation_task(&sd, bounds, 0.0);
    {
        assert!((sd.updated_cells.radiation.get(9) - 5.0).abs() < 1e-4);
    }
}

#[test]
fn non_radiation_sickness_disease_does_not_contribute() {
    let tables = &Tables::default();
    init_radiation_table(tables);
    install_rs_table(tables, true);
    let sd = make_radiant_sim(tables);

    set_cell_disease(&sd, 9, 1, 5000);
    set_cell_radiation(&sd, 9, 0.0);
    let bounds = full_grid_bounds(&sd);
    run_radiation_task(&sd, bounds, 0.0);
    {
        assert_eq!(sd.updated_cells.radiation.get(9), 0.0);
    }
}

#[test]
fn no_disease_cell_contributes_zero() {
    let tables = &Tables::default();
    init_radiation_table(tables);
    install_rs_table(tables, true);
    let sd = make_radiant_sim(tables);

    set_cell_disease(&sd, 9, 0xff, 0);
    set_cell_radiation(&sd, 9, 1.0);
    let bounds = full_grid_bounds(&sd);
    run_radiation_task(&sd, bounds, 0.0);
    {
        let expected = 1.0 - 1.0 / 1.1;
        assert!((sd.updated_cells.radiation.get(9) - expected).abs() < 1e-5);
    }
}

#[test]
fn missing_disease_table_skips_contribution() {
    let tables = &Tables::default();
    init_radiation_table(tables);
    let sd = make_radiant_sim(tables);
    set_cell_disease(&sd, 9, 0, 5000);
    set_cell_radiation(&sd, 9, 0.0);
    let bounds = full_grid_bounds(&sd);
    run_radiation_task(&sd, bounds, 0.0);
    {
        assert_eq!(sd.updated_cells.radiation.get(9), 0.0);
    }
}

#[test]
fn table_without_radiation_sickness_is_noop() {
    let tables = &Tables::default();
    init_radiation_table(tables);
    install_rs_table(tables, false);
    let sd = make_radiant_sim(tables);
    set_cell_disease(&sd, 9, 0, 5000);
    set_cell_radiation(&sd, 9, 0.0);
    let bounds = full_grid_bounds(&sd);
    run_radiation_task(&sd, bounds, 0.0);
    {
        assert_eq!(sd.updated_cells.radiation.get(9), 0.0);
    }
}

fn install_rs_integration_table(tables: &Tables) {
    let mut t = Disease::new();
    let mut eg = ElemGrowthInfo::default();
    eg.diffusion_scale.resize(1, 1.0);
    eg.min_diffusion_count.resize(1, 1_000_000);
    eg.min_diffusion_infestation_tick_count.resize(1, 0);
    eg.min_count_per_kg.resize(1, 0.0);
    eg.max_count_per_kg.resize(1, f32::INFINITY);
    eg.population_half_life.resize(1, f32::INFINITY);
    eg.over_population_half_life.resize(1, f32::INFINITY);
    eg.under_population_death_rate.resize(1, 0.0);
    t.diseases.push(DiseaseInfo {
        hash_id: 0xd49f77d6,
        strength: 1.0,
        temperature_range: RangeInfo {
            min_viable: -f32::INFINITY,
            min_growth: -f32::INFINITY,
            max_growth: f32::INFINITY,
            max_viable: f32::INFINITY,
        },
        temperature_half_lives: RangeInfo {
            min_viable: f32::INFINITY,
            min_growth: f32::INFINITY,
            max_growth: f32::INFINITY,
            max_viable: f32::INFINITY,
        },
        elem_growth_info: eg,
        radiation_kill_rate: 0.0,
        ..Default::default()
    });
    tables.install(t);
}

#[test]
fn update_data_applies_radiation_sickness_contribution() {
    let tables = &Tables::default();
    create_solid_table(tables);
    install_rs_integration_table(tables);
    let mut sd = SimData::new_for_allocate(tables, 6, 5, 1, true, false);
    sd.vacuum_element_idx = 0;
    sd.void_element_idx = 0xFFFF;
    {
        for buf in [&sd.cells, &sd.updated_cells] {
            let c = buf;
            for i in 0..30usize {
                c.element_idx.set(i, 0);
                c.temperature.set(i, 300.0);
                c.mass.set(i, 1000.0);
                c.disease_idx.set(i, 0xff);
                c.disease_count.set(i, 0);
                c.radiation.set(i, 0.0);
            }
        }
    }
    set_cell_disease(&sd, 7, 0, 5000);
    sd.active_regions.push(ActiveRegion {
        min_x: 1,
        min_y: 1,
        max_x: 2,
        max_y: 2,
        current_cosmic_radiation_intensity: 0.0,
    });
    update_data(&sd);
    {
        assert!((sd.updated_cells.radiation.get(7) - 5.0).abs() < 1e-3);
    }
}

#[test]
fn radiation_task_gated_by_enabled_flag() {
    let tables = &Tables::default();
    init_radiation_table(tables);
    let mut sd = make_radiant_sim(tables);
    sd.radiation_enabled = false;
    fill_both(&sd, |b| {
        b.element_idx.set(14, 2);
        b.mass.set(14, 10.0);
        b.radiation.set(14, 5.0);
    });
    let b = full_grid_bounds(&sd);
    run_radiation_task(&sd, b, 100.0);
    {
        assert_eq!(sd.updated_cells.radiation.get(14), 5.0);
    }
}

#[test]
fn radiation_task_spreads_element_kernel() {
    let tables = &Tables::default();
    init_radiation_table(tables);
    let sd = make_radiant_sim(tables);
    fill_both(&sd, |b| {
        b.element_idx.set(14, 2);
        b.mass.set(14, 10.0);
    });
    let b = full_grid_bounds(&sd);
    run_radiation_task(&sd, b, 0.0);
    {
        let u = &sd.updated_cells;
        assert!((u.radiation.get(14) - 10.0).abs() < 1e-4);
        assert!((u.radiation.get(13) - 7.5).abs() < 1e-4);
        assert!((u.radiation.get(12) - 2.5).abs() < 1e-4);
    }
}

#[test]
fn radiation_task_cosmic_occlusion_and_apply() {
    let tables = &Tables::default();
    init_radiation_table(tables);
    let sd = make_radiant_sim(tables);

    fill_both(&sd, |b| {
        b.element_idx.set(13, 1);
        b.mass.set(13, 2000.0);
        b.element_idx.set(21, 0);
        b.element_idx.set(29, 0);
    });
    let b = full_grid_bounds(&sd);
    run_radiation_task(&sd, b, 110.0);
    {
        let u = &sd.updated_cells;

        assert!((u.radiation.get(29) - 100.0).abs() < 1e-3);

        assert!((u.radiation.get(21) - 100.0).abs() < 1e-3);

        assert!((u.radiation.get(13) - 50.0).abs() < 1e-3);
    }
}

#[test]
fn radiation_task_occlusion_below_threshold_zeroed() {
    let tables = &Tables::default();
    init_radiation_table(tables);
    let sd = make_radiant_sim(tables);

    fill_both(&sd, |b| {
        b.element_idx.set(13, 3);
        b.mass.set(13, 1986.0);
        b.element_idx.set(21, 0);
    });
    let b = full_grid_bounds(&sd);
    run_radiation_task(&sd, b, 110.0);
    {
        let u = &sd.updated_cells;
        assert_eq!(u.radiation.get(13), 0.0);
    }
}

#[test]
fn radiation_task_vertical_regions_occlusion_isolated() {
    let tables = &Tables::default();
    init_radiation_table(tables);
    let sd = make_radiant_sim(tables);

    fill_both(&sd, |b| {
        for x in 1..7 {
            b.element_idx.set(4 * 8 + x, 1);
            b.mass.set(4 * 8 + x, 2000.0);
        }
    });
    let b_top = RegionBounds { min_x: 1, min_y: 4, max_x: 7, max_y: 7 };
    let b_bot = RegionBounds { min_x: 1, min_y: 1, max_x: 7, max_y: 4 };

    run_radiation_task(&sd, b_top, 110.0);
    run_radiation_task(&sd, b_bot, 110.0);
    {
        let u = &sd.updated_cells;

        assert!((u.radiation.get(6 * 8 + 1) - 100.0).abs() < 1e-3);

        assert!((u.radiation.get(4 * 8 + 1) - 50.0).abs() < 1e-3);

        assert!((u.radiation.get(3 * 8 + 1) - 100.0).abs() < 1e-3);

        assert!((u.radiation.get(1 * 8 + 1) - 100.0).abs() < 1e-3);
    }
}

#[test]
fn radiation_task_decay_and_clamp() {
    let tables = &Tables::default();
    init_radiation_table(tables);
    let sd = make_radiant_sim(tables);
    fill_both(&sd, |b| {
        b.element_idx.set(14, 0);
        b.radiation.set(14, 5.0);
        b.radiation.set(21, 0.005);
        b.radiation.set(28, 1e8);
    });
    let b = full_grid_bounds(&sd);
    run_radiation_task(&sd, b, 0.0);
    {
        let u = &sd.updated_cells;
        let expect = 5.0 - 5.0 / 1.1;
        assert!((u.radiation.get(14) - expect).abs() < 1e-3);
        assert_eq!(u.radiation.get(21), 0.0);
        assert!((u.radiation.get(28) - 9e6).abs() < 1.0);
    }
}

fn init_pressure_table(tables: &Tables) {
    let mut table = tables.edit();
    for (id, state, flow) in [(0i32, 0u8, 0.0f32), (1i32, 2u8, 50.0f32), (2i32, 3u8, 0.0f32)] {
        let mut elem = Element::default();
        elem.id = id;
        elem.state = state;
        elem.flow = flow;
        table.elements.push(elem);

        table.liquid_data.push(ElementLiquidData {
            state,
            flow,
            viscosity: 50.0,
            max_mass: 1000.0,
            ..Default::default()
        });
        table.pressure_data.push(ElementPressureData { state, flow });

        table.post_process_data.push(ElementPostProcessData { state, ..Default::default() });
    }
}

fn make_sim_data(tables: &Tables) -> SimData {
    let mut sd = SimData::new_for_allocate(tables, 6, 6, 1, false, true);
    sd.vacuum_element_idx = 0;
    sd.void_element_idx = 0xFFFF;
    sd
}

#[test]
fn update_data_spreads_liquid_to_vacuum_neighbor() {
    let tables = &Tables::default();
    init_pressure_table(tables);
    let sd = make_sim_data(tables);
    fill_both(&sd, |b| {
        b.element_idx.set(14, 1);
        b.mass.set(14, 100.0);
        b.temperature.set(14, 300.0);
        b.element_idx.set(8, 2);
        b.mass.set(8, 500.0);
        b.temperature.set(8, 300.0);
    });
    update_data(&sd);
    {
        let updated = &sd.updated_cells;

        assert_eq!(updated.element_idx.get(15), 1);
        assert!((updated.mass.get(15) - 18.75).abs() < 1e-3);
        assert!((updated.temperature.get(15) - 300.0).abs() < 1e-3);

        assert_eq!(updated.element_idx.get(20), 0);
        assert!((updated.mass.get(20) - 0.0).abs() < 1e-6);

        assert!((updated.mass.get(13) - 25.0).abs() < 1e-3);
        assert!((updated.mass.get(14) - 56.25).abs() < 1e-3);

        assert_eq!(updated.element_idx.get(8), 2);
        assert!((updated.mass.get(8) - 500.0).abs() < 1e-3);

        let flow = sd.flow.to_vec();
        assert!((flow[15].x - 0.0).abs() < 1e-6);
        assert!((flow[14].x - 25.0).abs() < 1e-3);
        assert!((flow[14].y - 18.75).abs() < 1e-3);

        let events = &sd.sim_events;
        let has_cell6 = events.substance_change_info.iter().any(|e| e.cell_idx == 6);
        assert!(has_cell6);
    }
}

#[test]
fn update_data_liquid_all_solid_neighbors_inert() {
    let tables = &Tables::default();
    init_pressure_table(tables);
    let sd = make_sim_data(tables);
    fill_both(&sd, |b| {
        b.element_idx.set(14, 1);
        b.mass.set(14, 100.0);
        b.temperature.set(14, 300.0);

        for c in [8usize, 20, 15, 13] {
            b.element_idx.set(c, 2);
            b.mass.set(c, 500.0);
        }
    });
    update_data(&sd);
    {
        let updated = &sd.updated_cells;
        for c in [8usize, 20, 15, 13] {
            assert_eq!(updated.element_idx.get(c), 2);
            assert!((updated.mass.get(c) - 500.0).abs() < 1e-3);
        }
        let events = &sd.sim_events;
        assert_eq!(events.substance_change_info.len(), 0);
    }
}

#[test]
fn update_data_syncs_cells_before_temperature_each_substep() {
    let tables = &Tables::default();
    init_pressure_table(tables);
    let sd = make_sim_data(tables);

    fill_both(&sd, |b| {
        b.element_idx.set(14, 1);
        b.mass.set(14, 100.0);
        b.temperature.set(14, 300.0);
        b.insulation.set(14, 255);
        b.element_idx.set(15, 2);
        b.mass.set(15, 200.0);
        b.temperature.set(15, 400.0);
        b.insulation.set(15, 255);
        for (cell, temp) in [(8usize, 300.0f32), (20usize, 300.0f32), (13usize, 300.0f32)] {
            b.element_idx.set(cell, 2);
            b.mass.set(cell, 1000.0);
            b.temperature.set(cell, temp);
            b.insulation.set(cell, 255);
        }
        for (cell, temp) in [(9usize, 400.0f32), (21usize, 400.0f32), (16usize, 400.0f32)] {
            b.element_idx.set(cell, 2);
            b.mass.set(cell, 1000.0);
            b.temperature.set(cell, temp);
            b.insulation.set(cell, 255);
        }
    });
    update_data_with(&sd, conduct);
    let after_1 = sd.updated_cells.temperature.get(14);
    update_data_with(&sd, conduct);
    let after_2 = sd.updated_cells.temperature.get(14);

    assert!(after_2 > after_1);
    assert!(after_2 < 400.0);
}

#[test]
fn update_data_increments_tick_count_once() {
    let tables = &Tables::default();
    init_pressure_table(tables);
    let sd = SimData::new_for_allocate(tables, 6, 5, 1, true, false);
    sd.tick_count.set(0);
    update_data(&sd);
    assert_eq!(sd.tick_count.get(), 1);
    update_data(&sd);
    assert_eq!(sd.tick_count.get(), 2);
}

fn create_test_elements_table(tables: &Tables) {
    let mut gas = Element::default();
    gas.id = 0;
    gas.state = 1;
    gas.colour = 0xffffffff;
    let mut liquid = Element::default();
    liquid.id = 1;
    liquid.state = 2;
    liquid.colour = 0xff00ff00;
    liquid.material_properties = 0x12345678;
    liquid.number_of_gradient_colors = 1;
    liquid.gradient_colours[0] = 0xff00ff00;
    liquid.gradient_colours[1] = 0xff00ff00;
    liquid.low_temp = 0.0;
    liquid.high_temp = 100.0;

    let mut w = Vec::new();

    w.push(gas);
    w.push(liquid);
    tables.create(w);
}

#[test]
fn update_flow_texture_writes_vector2f() {
    let tables = &Tables::default();
    let sd = SimData::new_for_allocate(tables, 6, 5, 1, true, false);
    let mut gd = GameData::new(4, 3);
    {
        let cells = &sd.cells;
        cells.element_idx.set(0, 0);
        cells.mass.set(0, 1000.0);

        cells.element_idx.set(7, 0);
        cells.mass.set(7, 1000.0);
        let updated = &sd.updated_cells;
        updated.element_idx.set(7, 0);
        updated.mass.set(7, 1000.0);

        sd.flow.set(7, Vector4f { x: 5.0, y: 2.0, z: 3.0, w: 7.0 });
    }
    update_flow_texture(&sd, &mut gd);
    {
        let tex = gd.flow();

        let v = tex[0];
        assert!((v.x - 0.003).abs() < 1e-6);
        assert!((v.y - 0.004).abs() < 1e-6);
    }
}

#[test]
fn update_liquid_property_texture_writes_color() {
    let tables = &Tables::default();
    create_test_elements_table(tables);
    let sd = SimData::new_for_allocate(tables, 6, 5, 1, true, false);
    let mut gd = GameData::new(4, 3);
    {
        let updated = &sd.updated_cells;

        updated.element_idx.set(7, 1);
        updated.mass.set(7, 1000.0);
        updated.temperature.set(7, 50.0);

        updated.element_idx.set(13, 0);

        updated.element_idx.set(8, 0);
        gd.game.property_texture_liquid[1] = 0x55555555;
        gd.game.property_texture_liquid_data[1] = 0x55555555;
        gd.game.property_texture_material_data[1] = 0x55555555;
    }
    update_liquid_property_texture(&sd, &mut gd);
    {
        let liquid = gd.game.property_texture_liquid.clone();
        let liquid_data = gd.game.property_texture_liquid_data.clone();
        let material = gd.game.property_texture_material_data.clone();

        assert_ne!(liquid[0], 0);
        assert_eq!(liquid[0], 0xff00ff00);

        assert_eq!(liquid_data[0], 0x7fffffff);

        assert_eq!(material[0], 0x12000008);

        assert_eq!(liquid[1], 0);
        assert_eq!(liquid_data[1], 0);
        assert_eq!(material[1], 0);
    }
}

#[test]
fn update_liquid_property_texture_no_panic_empty_table() {
    let tables = &Tables::default();
    let sd = SimData::new_for_allocate(tables, 6, 5, 1, true, false);
    let mut gd = GameData::new(4, 3);
    {
        let updated = &sd.updated_cells;
        updated.element_idx.set(7, 0);
        updated.mass.set(7, 1000.0);
    }
    update_liquid_property_texture(&sd, &mut gd);
    {
        let liquid = gd.game.property_texture_liquid.clone();
        assert_eq!(liquid[0], 0);
    }
}

#[test]
fn liquid_alpha_scales_with_mass_ratio() {
    let tables = &Tables::default();
    create_test_elements_table(tables);
    let sd = SimData::new_for_allocate(tables, 6, 5, 1, true, false);
    let mut gd = GameData::new(4, 3);
    {
        let updated = &sd.updated_cells;

        updated.element_idx.set(7, 1);
        updated.mass.set(7, 100.0);
        updated.temperature.set(7, 50.0);

        updated.element_idx.set(13, 0);
    }
    update_liquid_property_texture(&sd, &mut gd);
    {
        let liquid = gd.game.property_texture_liquid.clone();
        let alpha = (liquid[0] >> 24) & 0xff;
        assert_eq!(alpha, 90);
        assert_eq!(liquid[0] & 0xffffff, 0x00ff00);
    }
}

#[test]
fn estimated_gradient_scales_with_mass_ratio() {
    let tables = &Tables::default();
    create_test_elements_table(tables);
    let sd = SimData::new_for_allocate(tables, 6, 5, 1, true, false);
    {
        let updated = &sd.updated_cells;
        updated.element_idx.set(7, 1);
        updated.mass.set(7, 100.0);
        updated.element_idx.set(13, 1);
        updated.mass.set(13, 1000.0);
    }
    let gd = GameData::new(4, 3);
    {
        let s = sd.to_lib();
        let v = float(property_texture::estimated_liquid_gradient_value(
            &s,
            &gd.game,
            &fullness(&s),
            7,
            false,
        ));
        assert!((v - 0.354813).abs() < 1e-3);
    }
}

#[test]
fn diagnostic_flow_texture_magnitude_gas_diffusion() {
    let tables = &Tables::default();

    let mut w = Vec::new();
    for (id, state, flow) in [(0i32, 0u8, 0.0f32), (1, 1, 0.1), (2, 3, 0.0)] {
        let mut e = Element::default();
        e.id = id;
        e.state = state;
        e.flow = flow;
        e.low_temp = -273.0;
        e.high_temp = 2000.0;
        e.number_of_gradient_colors = 1;
        w.push(e);
    }
    tables.create(w);

    let mut sd = SimData::new_for_allocate(tables, 16, 8, 1, false, false);
    sd.vacuum_element_idx = 0;
    sd.void_element_idx = 0xFFFF;
    let w16 = 16usize;
    let src = 3 * w16 + 4;
    {
        for buf in [&sd.cells, &sd.updated_cells] {
            let c = buf;
            for i in 0..(16 * 8usize) {
                let x = i % w16;
                let y = i / w16;
                if x == 0 || x == 15 || y == 0 || y == 7 {
                    c.element_idx.set(i, 2);
                    c.mass.set(i, 1000.0);
                    c.temperature.set(i, 300.0);
                } else {
                    c.element_idx.set(i, 0);
                    c.temperature.set(i, 300.0);
                }
            }
            c.element_idx.set(src, 1);
            c.mass.set(src, 100.0);
            c.temperature.set(src, 300.0);
        }
    }
    sd.active_regions.push(ActiveRegion {
        min_x: 1,
        min_y: 1,
        max_x: 15,
        max_y: 7,
        current_cosmic_radiation_intensity: 0.0,
    });
    for _ in 0..5 {
        update_data(&sd);
    }
    {
        let flow = sd.flow.to_vec();
        let updated = &sd.updated_cells;
        let mut max_tex = 0.0f32;
        for i in 0..(16 * 8usize) {
            let f = flow[i];
            if updated.element_idx.get(i) == 1 {
                let inv = 1.0 / updated.mass.get(i).max(1.0);
                let tx = (f.x - f.y) * inv;
                let ty = (f.w - f.z) * inv;
                max_tex = max_tex.max(tx.abs()).max(ty.abs());
            }
        }

        assert!(updated.mass.get(src) < 100.0);

        assert!(max_tex < 100.0);
    }
}

fn create_exposed_table(tables: &Tables) {
    let mut w = Vec::new();
    let elems = [
        {
            let mut e = Element::default();
            e.id = 0;
            e.state = 0;
            e.number_of_gradient_colors = 1;
            e.light_absorption_factor = 0.0;
            e.default_values.mass = 1.0;
            e
        },
        {
            let mut e = Element::default();
            e.id = 1;
            e.state = 3;
            e.number_of_gradient_colors = 1;
            e.light_absorption_factor = 0.5;
            e.default_values.mass = 1.0;
            e
        },
    ];
    w.extend_from_slice(&elems);
    tables.create(w);
}

#[test]
fn update_exposed_to_sun_writes_attenuated_light_column() {
    let tables = &Tables::default();
    create_exposed_table(tables);
    let mut sd = SimData::new_for_allocate(tables, 6, 5, 1, true, false);
    sd.worlds.push(sim_data::WorldOffsetData {
        offset_x: 0,
        offset_y: 0,
        width: 4,
        height: 3,
    });
    {
        let updated = &sd.updated_cells;

        updated.element_idx.set(19, 1);
        updated.mass.set(19, 1.0);

        updated.element_idx.set(13, 0);
        updated.mass.set(13, 0.0);
    }
    let mut gd = GameData::new(4, 3);
    update_exposed_to_sun_property_texture(&sd, &mut gd);
    {
        let exposed = gd.game.property_texture_exposed_to_sunlight.clone();

        assert_eq!(exposed[4], 127);

        assert_eq!(exposed[0], 127);

        assert_eq!(exposed[5], 255);
        assert_eq!(exposed[1], 255);

        for g in 8..12 {
            assert_eq!(exposed[g], 255);
        }
    }
}

#[test]
fn exposed_sun_passes_through_vacuum_space_biome() {
    let tables = &Tables::default();

    {
        let mut w = Vec::new();
        let elems = [
            {
                let mut e = Element::default();
                e.id = 0;
                e.state = 0;
                e.number_of_gradient_colors = 1;
                e.light_absorption_factor = 0.0;
                e.default_values.mass = 0.0;
                e
            },
            {
                let mut e = Element::default();
                e.id = 1;
                e.state = 3;
                e.number_of_gradient_colors = 1;
                e.light_absorption_factor = 0.5;
                e.default_values.mass = 1.0;
                e
            },
        ];
        w.extend_from_slice(&elems);
    tables.create(w);
    }
    let mut sd = SimData::new_for_allocate(tables, 6, 5, 1, true, false);
    sd.worlds.push(sim_data::WorldOffsetData {
        offset_x: 0,
        offset_y: 0,
        width: 4,
        height: 3,
    });

    {
        for buf in [&sd.updated_cells, &sd.cells] {
            for idx in 0..30usize {
                buf.element_idx.set(idx, 0);
                buf.mass.set(idx, 0.0);
                buf.temperature.set(idx, 300.0);
            }
        }
    }
    let mut gd = GameData::new(4, 3);
    update_exposed_to_sun_property_texture(&sd, &mut gd);
    {
        let exposed = gd.game.property_texture_exposed_to_sunlight.clone();

        for gr in 0..3 {
            for gc in 0..4 {
                let v = exposed[gr * 4 + gc];
                assert_eq!(v, 255);
            }
        }
    }
}

#[test]
fn update_exposed_to_sun_no_panic_empty_table() {
    let tables = &Tables::default();
    let sd = SimData::new_for_allocate(tables, 6, 5, 1, true, false);
    let mut gd = GameData::new(4, 3);
    update_exposed_to_sun_property_texture(&sd, &mut gd);
    {
        let exposed = gd.game.property_texture_exposed_to_sunlight.clone();
        assert_eq!(exposed[0], 0);
    }
}

/// Lets heat flow between two neighbours: what it reads is the old buffer.
fn conduct(s: &mut sim_data::SimData) {
    let (a, b) = (float(s.cells[14].temperature), float(s.cells[15].temperature));
    s.updated_cells[14].temperature = num(a + (b - a) * 0.25);
}

#[test]
fn sink_routes_to_region_events() {
    let tables = &Tables::default();
    let sim = SimData::new_for_allocate(tables, 6, 6, 1, false, false).to_lib();
    let region = region_events::RegionEvents::default();
    let (_, region, sim) = sim_data::with_region_sink(sim, region, |mut s| {
        sim_data::emit(&mut s, change());
        ((), s)
    });
    assert_eq!(region.unwrap().substance_change_info.len(), 1);
    assert_eq!(sim.sim_events.unwrap().substance_change_info.len(), 0);
}

#[test]
fn no_sink_writes_global() {
    let tables = &Tables::default();
    let mut sim = SimData::new_for_allocate(tables, 6, 6, 1, false, false).to_lib();
    sim_data::emit(&mut sim, change());
    assert_eq!(sim.sim_events.unwrap().substance_change_info.len(), 1);
}

#[test]
fn with_region_sink_restores_previous() {
    let tables = &Tables::default();
    let sim = SimData::new_for_allocate(tables, 6, 6, 1, false, false).to_lib();
    let r_outer = region_events::RegionEvents::default();
    let (r_inner, r_outer, sim) = sim_data::with_region_sink(sim, r_outer, |s| {
        let r_inner = region_events::RegionEvents::default();
        let (_, r_inner, mut s) = sim_data::with_region_sink(s, r_inner, |mut s| {
            sim_data::emit(&mut s, change());
            ((), s)
        });
        sim_data::emit(&mut s, change());
        (r_inner, s)
    });
    assert_eq!(r_outer.unwrap().substance_change_info.len(), 1);
    assert_eq!(r_inner.unwrap().substance_change_info.len(), 1);
    assert!(sim.region_sink.is_none());
}

#[test]
fn merge_into_appends_in_field_order_and_clears() {
    let tables = &Tables::default();
    let mut region = region_events::RegionEvents::default();
    region.record(change());
    region.record(droplet());
    let mut sim = SimData::new_for_allocate(tables, 6, 6, 1, false, false).to_lib();
    region.merge_into(&mut sim);
    let events = sim.sim_events.unwrap();
    assert_eq!(events.substance_change_info.len(), 1);
    assert_eq!(events.spawn_liquid_info.len(), 1);
    assert_eq!(region.substance_change_info.len(), 0);
    assert_eq!(region.spawn_liquid_info.len(), 0);
}

fn change() -> region_events::Event {
    region_events::Event::SubstanceChange(region_events::SubstanceChangeInfo {
        cell_idx: 0,
        old_element_idx: 0,
        new_element_idx: 0,
    })
}

fn droplet() -> region_events::Event {
    region_events::Event::SpawnLiquid(region_events::SpawnFallingLiquidInfo {
        cell_idx: 0,
        element_idx: 0,
        disease_idx: 0,
        mass: num(0.0),
        temperature: num(0.0),
        disease_count: 0,
    })
}

#[derive(Clone, Copy)]
struct Vector2f {
    x: f32,
    y: f32,
}

/// The textures in hardware numbers.
struct GameData {
    game: property_texture::GameData,
}

impl GameData {
    fn new(width: usize, height: usize) -> GameData {
        let n = width * height;
        GameData {
            game: property_texture::GameData {
                width,
                height,
                property_texture_flow: vec![property_texture::Vector2f { x: num(0.0), y: num(0.0) }; n],
                property_texture_liquid: vec![0; n],
                property_texture_liquid_data: vec![0; n],
                property_texture_material_data: vec![0; n],
                property_texture_exposed_to_sunlight: vec![0; n],
            },
        }
    }

    fn flow(&self) -> Vec<Vector2f> {
        self.game
            .property_texture_flow
            .iter()
            .map(|v| Vector2f { x: float(v.x), y: float(v.y) })
            .collect()
    }
}

fn fullness(s: &sim_data::SimData) -> Vec<F32> {
    property_texture::liquid_fill_levels(s)
        .iter()
        .map(|x| num(float(*x).powf(0.45)))
        .collect()
}

fn update_flow_texture(sd: &SimData, gd: &mut GameData) {
    property_texture::update_flow_texture(&sd.to_lib(), &mut gd.game);
}

fn update_liquid_property_texture(sd: &SimData, gd: &mut GameData) {
    let s = sd.to_lib();
    property_texture::update_liquid_property_texture(&s, &mut gd.game, &fullness(&s));
}

fn update_exposed_to_sun_property_texture(sd: &SimData, gd: &mut GameData) {
    sunlight::update_exposed_to_sun_property_texture(&sd.to_lib(), &mut gd.game);
}
