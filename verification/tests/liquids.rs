//! Liquids, what is put into the grid, and the closing pass.
#![allow(dead_code)]

use sim_physics::cell;
use sim_physics::displacement;
use sim_physics::element;
use sim_physics::germs;
use sim_physics::grid;
use sim_physics::liquid_flow;
use sim_physics::number::F32;
use sim_physics::physics;
use sim_physics::placing;
use sim_physics::post_process;
use sim_physics::pressure;
use sim_physics::region_events;
use sim_physics::sim_data;
use sim_physics::space;
use sim_physics::sublimation;
use sim_physics::unstable;
use std::cell::Ref;
use std::cell::RefCell;
use std::cell::RefMut;
use std::rc::Rc;

// The world of the library in hardware numbers: what the tests write and read.

fn num(x: f32) -> F32 {
    F32 { bits: x.to_bits() }
}

fn float(x: F32) -> f32 {
    f32::from_bits(x.bits)
}

fn nums(v: &[f32]) -> Vec<F32> {
    v.iter().map(|x| num(*x)).collect()
}

#[derive(Clone, Copy)]
struct DefaultValues {
    mass: f32,
}

/// An element, from which its entries in the tables are made.
#[derive(Clone, Copy)]
struct Element {
    id: i32,
    state: u8,
    number_of_gradient_colors: u8,
    colour: u32,
    gradient_colours: [u32; 6],
    material_properties: u32,
    flow: f32,
    viscosity: f32,
    max_mass: f32,
    molar_mass: f32,
    strength: f32,
    min_horizontal_flow: f32,
    min_vertical_flow: f32,
    low_temp: f32,
    high_temp: f32,
    low_temp_transition_idx: u16,
    high_temp_transition_idx: u16,
    sublimate_index: u16,
    sublimate_fx: i32,
    sublimate_rate: f32,
    sublimate_efficiency: f32,
    sublimate_probability: f32,
    off_gas_percentage: f32,
    light_absorption_factor: f32,
    specific_heat_capacity: f32,
    thermal_conductivity: f32,
    solid_surface_area_multiplier: f32,
    default_values: DefaultValues,
}

impl Default for Element {
    fn default() -> Element {
        Element {
            id: 0,
            state: 0,
            number_of_gradient_colors: 0,
            colour: 0,
            gradient_colours: [0; 6],
            material_properties: 0,
            flow: 0.0,
            viscosity: 0.0,
            max_mass: 0.0,
            molar_mass: 0.0,
            strength: 0.0,
            min_horizontal_flow: 0.0,
            min_vertical_flow: 0.0,
            low_temp: 0.0,
            high_temp: 0.0,
            low_temp_transition_idx: 0xffff,
            high_temp_transition_idx: 0xffff,
            sublimate_index: 0xffff,
            sublimate_fx: 0,
            sublimate_rate: 0.0,
            sublimate_efficiency: 0.0,
            sublimate_probability: 0.0,
            off_gas_percentage: 0.0,
            light_absorption_factor: 0.0,
            specific_heat_capacity: 0.0,
            thermal_conductivity: 0.0,
            solid_surface_area_multiplier: 0.0,
            default_values: DefaultValues { mass: 0.0 },
        }
    }
}

#[derive(Clone, Copy, Default)]
struct ElementLiquidData {
    state: u8,
    flow: f32,
    viscosity: f32,
    max_mass: f32,
    min_horizontal_flow: f32,
    min_vertical_flow: f32,
}

#[derive(Clone, Copy, Default)]
struct ElementPressureData {
    state: u8,
    flow: f32,
}

#[derive(Clone, Copy)]
struct ElementPostProcessData {
    state: u8,
    sublimate_index: u16,
    sublimate_fx: i32,
    max_mass: f32,
    molar_mass: f32,
    strength: f32,
    min_horizontal_flow: f32,
    sublimate_rate: f32,
    sublimate_efficiency: f32,
    sublimate_probability: f32,
    off_gas_percentage: f32,
}

impl Default for ElementPostProcessData {
    fn default() -> ElementPostProcessData {
        ElementPostProcessData {
            state: 0,
            sublimate_index: 0xffff,
            sublimate_fx: 0,
            max_mass: 0.0,
            molar_mass: 0.0,
            strength: 0.0,
            min_horizontal_flow: 0.0,
            sublimate_rate: 0.0,
            sublimate_efficiency: 0.0,
            sublimate_probability: 0.0,
            off_gas_percentage: 0.0,
        }
    }
}

#[derive(Clone, Copy)]
struct ElementTemperatureData {
    low_temp: f32,
    high_temp: f32,
    low_temp_transition_idx: u16,
    high_temp_transition_idx: u16,
}

#[derive(Clone, Copy)]
struct ElementRadiationData {
    factor: f32,
    rads_per_1000: f32,
}

#[derive(Clone, Copy)]
struct ElementLightAbsorptionData {
    factor: f32,
    mass_scale: f32,
}

#[derive(Default)]
struct Table {
    elements: Vec<Element>,
    liquid_data: Vec<ElementLiquidData>,
    pressure_data: Vec<ElementPressureData>,
    post_process_data: Vec<ElementPostProcessData>,
    temperature_data: Vec<ElementTemperatureData>,
    radiation_data: Vec<ElementRadiationData>,
    light_absorption_data: Vec<ElementLightAbsorptionData>,
    property_texture_data: Vec<element::ElementPropertyTextureData>,
}

impl Table {
    fn to_lib(&self) -> element::ElementsTable {
        element::ElementsTable {
            ids: self.elements.iter().map(|e| e.id as u32).collect(),
            liquid_data: self
                .liquid_data
                .iter()
                .map(|d| element::ElementLiquidData {
                    state: d.state,
                    flow: num(d.flow),
                    viscosity: num(d.viscosity),
                    max_mass: num(d.max_mass),
                    min_horizontal_flow: num(d.min_horizontal_flow),
                    min_vertical_flow: num(d.min_vertical_flow),
                })
                .collect(),
            pressure_data: self
                .pressure_data
                .iter()
                .map(|d| element::ElementPressureData { state: d.state, flow: num(d.flow) })
                .collect(),
            post_process_data: self
                .post_process_data
                .iter()
                .map(|d| element::ElementPostProcessData {
                    state: d.state,
                    sublimate_index: d.sublimate_index,
                    sublimate_fx: d.sublimate_fx,
                    max_mass: num(d.max_mass),
                    molar_mass: num(d.molar_mass),
                    strength: num(d.strength),
                    min_horizontal_flow: num(d.min_horizontal_flow),
                    sublimate_rate: num(d.sublimate_rate),
                    sublimate_efficiency: num(d.sublimate_efficiency),
                    sublimate_probability: num(d.sublimate_probability),
                    off_gas_percentage: num(d.off_gas_percentage),
                })
                .collect(),
            temperature_data: self
                .temperature_data
                .iter()
                .map(|d| element::ElementTemperatureData {
                    low_temp: num(d.low_temp),
                    high_temp: num(d.high_temp),
                    low_temp_transition_idx: d.low_temp_transition_idx,
                    high_temp_transition_idx: d.high_temp_transition_idx,
                })
                .collect(),
            radiation_data: self
                .radiation_data
                .iter()
                .map(|d| element::ElementRadiationData {
                    factor: num(d.factor),
                    rads_per_1000: num(d.rads_per_1000),
                })
                .collect(),
            light_absorption_data: self
                .light_absorption_data
                .iter()
                .map(|d| element::ElementLightAbsorptionData {
                    factor: num(d.factor),
                    mass_scale: num(d.mass_scale),
                })
                .collect(),
            property_texture_data: self.property_texture_data.clone(),
        }
    }
}

#[derive(Clone, Copy, Default)]
struct RangeInfo {
    min_viable: f32,
    min_growth: f32,
    max_growth: f32,
    max_viable: f32,
}

impl RangeInfo {
    fn to_lib(self) -> germs::RangeInfo {
        germs::RangeInfo {
            min_viable: num(self.min_viable),
            min_growth: num(self.min_growth),
            max_growth: num(self.max_growth),
            max_viable: num(self.max_viable),
        }
    }
}

/// A list that is set up by size and index.
#[derive(Clone, Default)]
struct List<T>(Vec<T>);

impl<T: Copy> List<T> {
    fn resize(&mut self, n: usize, x: T) {
        self.0.resize(n, x);
    }

    fn set(&mut self, i: usize, x: T) {
        self.0[i] = x;
    }
}

#[derive(Clone, Default)]
struct ElemGrowthInfo {
    under_population_death_rate: List<f32>,
    population_half_life: List<f32>,
    over_population_half_life: List<f32>,
    diffusion_scale: List<f32>,
    min_count_per_kg: List<f32>,
    max_count_per_kg: List<f32>,
    min_diffusion_count: List<i32>,
    min_diffusion_infestation_tick_count: List<u8>,
}

#[derive(Clone, Default)]
struct DiseaseInfo {
    hash_id: u32,
    strength: f32,
    temperature_range: RangeInfo,
    temperature_half_lives: RangeInfo,
    radiation_kill_rate: f32,
    elem_growth_info: ElemGrowthInfo,
}

#[derive(Clone, Default)]
struct Disease {
    diseases: Vec<DiseaseInfo>,
}

impl Disease {
    fn new() -> Disease {
        Disease::default()
    }

    fn to_lib(&self) -> germs::DiseaseTable {
        germs::DiseaseTable {
            diseases: self
                .diseases
                .iter()
                .map(|d| germs::DiseaseInfo {
                    hash: d.hash_id,
                    strength: num(d.strength),
                    temperature_range: d.temperature_range.to_lib(),
                    temperature_half_lives: d.temperature_half_lives.to_lib(),
                    radiation_kill_rate: num(d.radiation_kill_rate),
                    elem_growth_info: germs::ElemGrowthInfo {
                        under_population_death_rate: nums(
                            &d.elem_growth_info.under_population_death_rate.0,
                        ),
                        population_half_life: nums(&d.elem_growth_info.population_half_life.0),
                        over_population_half_life: nums(
                            &d.elem_growth_info.over_population_half_life.0,
                        ),
                        diffusion_scale: nums(&d.elem_growth_info.diffusion_scale.0),
                        min_count_per_kg: nums(&d.elem_growth_info.min_count_per_kg.0),
                        max_count_per_kg: nums(&d.elem_growth_info.max_count_per_kg.0),
                        min_diffusion_count: d.elem_growth_info.min_diffusion_count.0.clone(),
                        min_diffusion_infestation_tick_count: d
                            .elem_growth_info
                            .min_diffusion_infestation_tick_count
                            .0
                            .clone(),
                    },
                })
                .collect(),
        }
    }
}

#[derive(Default)]
struct Content {
    table: Table,
    diseases: Option<Disease>,
}

/// The tables that a world is made with.
#[derive(Clone, Default)]
struct Tables(Rc<RefCell<Content>>);

impl Tables {
    /// Makes the entries of elements.
    fn create(&self, elements: Vec<Element>) {
        let mut t = Table::default();
        for e in &elements {
            t.liquid_data.push(ElementLiquidData {
                state: e.state,
                flow: e.flow,
                viscosity: e.viscosity,
                max_mass: e.max_mass,
                min_horizontal_flow: e.min_horizontal_flow,
                min_vertical_flow: e.min_vertical_flow,
            });
            t.pressure_data.push(ElementPressureData { state: e.state, flow: e.flow });
            t.post_process_data.push(ElementPostProcessData {
                state: e.state,
                sublimate_index: e.sublimate_index,
                sublimate_fx: e.sublimate_fx,
                max_mass: e.max_mass,
                molar_mass: e.molar_mass,
                strength: e.strength,
                min_horizontal_flow: e.min_horizontal_flow,
                sublimate_rate: e.sublimate_rate,
                sublimate_efficiency: e.sublimate_efficiency,
                sublimate_probability: e.sublimate_probability,
                off_gas_percentage: e.off_gas_percentage,
            });
            t.temperature_data.push(ElementTemperatureData {
                low_temp: e.low_temp,
                high_temp: e.high_temp,
                low_temp_transition_idx: e.low_temp_transition_idx,
                high_temp_transition_idx: e.high_temp_transition_idx,
            });
            t.radiation_data.push(ElementRadiationData { factor: 0.0, rads_per_1000: 0.0 });
            t.light_absorption_data.push(ElementLightAbsorptionData {
                factor: e.light_absorption_factor,
                mass_scale: 1.0 / e.default_values.mass,
            });
            t.property_texture_data.push(element::ElementPropertyTextureData {
                state: e.state,
                number_of_gradient_colors: e.number_of_gradient_colors,
                colour: e.colour,
                gradient: e.gradient_colours,
                material_properties: e.material_properties,
            });
        }
        t.elements = elements;
        self.0.borrow_mut().table = t;
    }

    fn edit(&self) -> RefMut<'_, Table> {
        RefMut::map(self.0.borrow_mut(), |c| &mut c.table)
    }

    fn look(&self) -> Ref<'_, Content> {
        self.0.borrow()
    }

    fn install(&self, d: Disease) {
        self.0.borrow_mut().diseases = Some(d);
    }

    fn uninstall(&self) {
        self.0.borrow_mut().diseases = None;
    }
}

/// A grid of values.
struct Column<T>(RefCell<Vec<T>>);

impl<T: Copy> Column<T> {
    fn new(n: usize, x: T) -> Column<T> {
        Column(RefCell::new(vec![x; n]))
    }

    fn get(&self, i: usize) -> T {
        self.0.borrow()[i]
    }

    fn set(&self, i: usize, x: T) {
        self.0.borrow_mut()[i] = x;
    }

    fn len(&self) -> usize {
        self.0.borrow().len()
    }

    fn to_vec(&self) -> Vec<T> {
        self.0.borrow().clone()
    }

    fn fill(&self, v: Vec<T>) {
        *self.0.borrow_mut() = v;
    }
}

/// The cells, property by property.
struct CellSOA {
    tables: Tables,
    element_idx: Column<u16>,
    properties: Column<u8>,
    insulation: Column<u8>,
    strength_info: Column<u8>,
    disease_idx: Column<u8>,
    disease_infestation_tick_count: Column<u8>,
    disease_count: Column<i32>,
    mass: Column<f32>,
    temperature: Column<f32>,
    disease_growth_accumulated_error: Column<f32>,
    radiation: Column<f32>,
}

impl CellSOA {
    fn new(tables: &Tables, n: usize) -> CellSOA {
        CellSOA {
            tables: tables.clone(),
            element_idx: Column::new(n, 0),
            properties: Column::new(n, 0),
            insulation: Column::new(n, 0),
            strength_info: Column::new(n, 0),
            disease_idx: Column::new(n, 0xff),
            disease_infestation_tick_count: Column::new(n, 0),
            disease_count: Column::new(n, 0),
            mass: Column::new(n, 0.0),
            temperature: Column::new(n, 0.0),
            disease_growth_accumulated_error: Column::new(n, 0.0),
            radiation: Column::new(n, 0.0),
        }
    }

    fn to_lib(&self) -> Vec<cell::Cell> {
        (0..self.element_idx.len())
            .map(|i| cell::Cell {
                element_idx: self.element_idx.get(i),
                properties: self.properties.get(i),
                strength_info: self.strength_info.get(i),
                disease_idx: self.disease_idx.get(i),
                disease_infestation_tick_count: self.disease_infestation_tick_count.get(i),
                disease_count: self.disease_count.get(i),
                mass: num(self.mass.get(i)),
                temperature: num(self.temperature.get(i)),
                disease_growth_accumulated_error: num(
                    self.disease_growth_accumulated_error.get(i),
                ),
                radiation: num(self.radiation.get(i)),
            })
            .collect()
    }

    fn take(&self, cells: &[cell::Cell]) {
        for (i, c) in cells.iter().enumerate() {
            self.element_idx.set(i, c.element_idx);
            self.properties.set(i, c.properties);
            self.strength_info.set(i, c.strength_info);
            self.disease_idx.set(i, c.disease_idx);
            self.disease_infestation_tick_count.set(i, c.disease_infestation_tick_count);
            self.disease_count.set(i, c.disease_count);
            self.mass.set(i, float(c.mass));
            self.temperature.set(i, float(c.temperature));
            self.disease_growth_accumulated_error
                .set(i, float(c.disease_growth_accumulated_error));
            self.radiation.set(i, float(c.radiation));
        }
    }
}

/// A channel of events.
struct Channel<T>(RefCell<Vec<T>>);

impl<T: Copy> Channel<T> {
    fn new() -> Channel<T> {
        Channel(RefCell::new(Vec::new()))
    }

    fn len(&self) -> usize {
        self.0.borrow().len()
    }

    fn get(&self, i: usize) -> T {
        self.0.borrow()[i]
    }

    fn iter(&self) -> std::vec::IntoIter<T> {
        self.0.borrow().clone().into_iter()
    }

    fn clear(&self) {
        self.0.borrow_mut().clear();
    }

    fn push(&self, x: T) {
        self.0.borrow_mut().push(x);
    }
}

#[derive(Clone, Copy)]
struct DropletInfo {
    cell_idx: i32,
    element_idx: u16,
    disease_idx: u8,
    mass: f32,
    temperature: f32,
    disease_count: i32,
}

#[derive(Clone, Copy)]
struct FallInfo {
    cell_idx: i32,
    elem_idx: u16,
    falling_info: u8,
    disease_idx: u8,
    mass: f32,
    temperature: f32,
    disease_count: i32,
}

#[derive(Clone, Copy)]
struct FXInfo {
    cell_idx: i32,
    fx_id: i32,
    rotation: f32,
}

/// The events so far.
struct Events {
    substance_change_info: Channel<region_events::SubstanceChangeInfo>,
    spawn_liquid_info: Channel<DropletInfo>,
    unstable_cell_info: Channel<FallInfo>,
    spawn_fx_info: Channel<FXInfo>,
    world_damage_info: Channel<region_events::WorldDamageInfo>,
}

/// What is behind the cells.
struct Backwall {
    element_idx: Column<u16>,
}

struct ActiveRegion {
    min_x: i32,
    min_y: i32,
    max_x: i32,
    max_y: i32,
    current_cosmic_radiation_intensity: f32,
}

#[derive(Clone, Copy)]
struct RegionBounds {
    min_x: usize,
    min_y: usize,
    max_x: usize,
    max_y: usize,
}

impl RegionBounds {
    fn to_lib(self) -> sim_data::RegionBounds {
        sim_data::RegionBounds {
            min_x: self.min_x,
            min_y: self.min_y,
            max_x: self.max_x,
            max_y: self.max_y,
        }
    }
}

#[derive(Clone, Copy, Default)]
struct Vector4f {
    x: f32,
    y: f32,
    z: f32,
    w: f32,
}

struct SimData {
    tables: Tables,
    width: i32,
    height: i32,
    vacuum_element_idx: u16,
    void_element_idx: u16,
    unobtanium_element_idx: u16,
    headless: bool,
    saved_options: u32,
    radiation_enabled: bool,
    radiation_max_mass: f32,
    radiation_linger_rate: f32,
    radiation_base_weight: f32,
    radiation_density_weight: f32,
    radiation_constructed_factor: f32,
    world_zones: Vec<u8>,
    backwall: Backwall,
    visible_grid: Vec<u8>,
    active_regions: Vec<ActiveRegion>,
    worlds: Vec<sim_data::WorldOffsetData>,
    cells: CellSOA,
    updated_cells: CellSOA,
    flow: Column<Vector4f>,
    accumulated_flow: Column<f32>,
    timers: Column<u8>,
    sim_events: Events,
    random_seed: std::cell::Cell<u32>,
    displacement_direction: std::cell::Cell<i32>,
    tick_count: std::cell::Cell<u32>,
    iterate_direction: std::cell::Cell<i32>,
}

impl SimData {
    fn new_for_allocate(
        tables: &Tables,
        width: i32,
        height: i32,
        random_seed: u32,
        radiation_enabled: bool,
        headless: bool,
    ) -> SimData {
        let n = (width * height) as usize;
        SimData {
            tables: tables.clone(),
            width,
            height,
            vacuum_element_idx: 0,
            void_element_idx: 0xffff,
            unobtanium_element_idx: 0xffff,
            headless,
            saved_options: 0,
            radiation_enabled,
            radiation_max_mass: 2000.0,
            radiation_linger_rate: 1.1,
            radiation_base_weight: 0.3,
            radiation_density_weight: 0.7,
            radiation_constructed_factor: 0.8,
            world_zones: Vec::new(),
            backwall: Backwall { element_idx: Column::new(n, 0) },
            visible_grid: vec![0xff; ((width - 2) * (height - 2)) as usize],
            active_regions: Vec::new(),
            worlds: Vec::new(),
            cells: CellSOA::new(tables, n),
            updated_cells: CellSOA::new(tables, n),
            flow: Column::new(n, Vector4f::default()),
            accumulated_flow: Column::new(n, 0.0),
            timers: Column::new(n, 0),
            sim_events: Events {
                substance_change_info: Channel::new(),
                spawn_liquid_info: Channel::new(),
                unstable_cell_info: Channel::new(),
                spawn_fx_info: Channel::new(),
                world_damage_info: Channel::new(),
            },
            random_seed: std::cell::Cell::new(random_seed),
            displacement_direction: std::cell::Cell::new(-1),
            tick_count: std::cell::Cell::new(0),
            iterate_direction: std::cell::Cell::new(-1),
        }
    }

    fn to_lib(&self) -> sim_data::SimData {
        let content = self.tables.look();
        let (w, h) = (self.width as usize, self.height as usize);
        sim_data::SimData {
            env: sim_data::Env {
                width: w,
                height: h,
                num_game_cells: (self.width - 2) * (self.height - 2),
                vacuum_element_idx: self.vacuum_element_idx,
                void_element_idx: self.void_element_idx,
                unobtanium_element_idx: self.unobtanium_element_idx,
                headless: self.headless,
                is_debug_editing: false,
                saved_options: self.saved_options,
                radiation_enabled: self.radiation_enabled,
                radiation_max_mass: num(self.radiation_max_mass),
                radiation_linger_rate: num(self.radiation_linger_rate),
                radiation_base_weight: num(self.radiation_base_weight),
                radiation_density_weight: num(self.radiation_density_weight),
                radiation_constructed_factor: num(self.radiation_constructed_factor),
                elements: content.table.to_lib(),
                diseases: content.diseases.as_ref().map(|d| d.to_lib()),
                world_zones: self.world_zones.clone(),
                backwall_vacuum_element_idx: 0,
                backwall: self.backwall.element_idx.to_vec(),
                visible_grid: self.visible_grid.clone(),
                active_regions: self
                    .active_regions
                    .iter()
                    .map(|r| sim_data::ActiveRegion {
                        bounds: sim_data::RegionBounds {
                            min_x: r.min_x as usize,
                            min_y: r.min_y as usize,
                            max_x: (r.max_x as usize).min(w),
                            max_y: (r.max_y as usize).min(h),
                        },
                        post_process_bounds: sim_data::RegionBounds {
                            min_x: r.min_x as usize,
                            min_y: r.min_y as usize,
                            max_x: r.max_x as usize + 1,
                            max_y: r.max_y as usize + 1,
                        },
                        current_cosmic_radiation_intensity: num(
                            r.current_cosmic_radiation_intensity,
                        ),
                    })
                    .collect(),
                worlds: self.worlds.clone(),
            },
            cells: self.cells.to_lib(),
            updated_cells: self.updated_cells.to_lib(),
            flow: self
                .flow
                .to_vec()
                .iter()
                .map(|v| sim_data::Vector4f {
                    x: num(v.x),
                    y: num(v.y),
                    z: num(v.z),
                    w: num(v.w),
                })
                .collect(),
            accumulated_flow: nums(&self.accumulated_flow.to_vec()),
            timers: self.timers.to_vec(),
            sim_events: Some(region_events::RegionEvents::default()),
            region_sink: None,
            region_rng: None,
            random_seed: self.random_seed.get(),
            displacement_direction: self.displacement_direction.get(),
            tick_count: self.tick_count.get(),
            iterate_direction: self.iterate_direction.get(),
        }
    }

    fn take(&self, s: sim_data::SimData) {
        self.cells.take(&s.cells);
        self.updated_cells.take(&s.updated_cells);
        self.flow.fill(
            s.flow
                .iter()
                .map(|v| Vector4f {
                    x: float(v.x),
                    y: float(v.y),
                    z: float(v.z),
                    w: float(v.w),
                })
                .collect(),
        );
        self.accumulated_flow.fill(s.accumulated_flow.iter().map(|x| float(*x)).collect());
        self.timers.fill(s.timers);
        self.random_seed.set(s.random_seed);
        self.displacement_direction.set(s.displacement_direction);
        self.tick_count.set(s.tick_count);
        self.iterate_direction.set(s.iterate_direction);
        if let Some(e) = s.sim_events {
            for x in e.substance_change_info {
                self.sim_events.substance_change_info.push(x);
            }
            for x in e.spawn_liquid_info {
                self.sim_events.spawn_liquid_info.push(DropletInfo {
                    cell_idx: x.cell_idx,
                    element_idx: x.element_idx,
                    disease_idx: x.disease_idx,
                    mass: float(x.mass),
                    temperature: float(x.temperature),
                    disease_count: x.disease_count,
                });
            }
            for x in e.unstable_cell_info {
                self.sim_events.unstable_cell_info.push(FallInfo {
                    cell_idx: x.cell_idx,
                    elem_idx: x.elem_idx,
                    falling_info: x.falling_info,
                    disease_idx: x.disease_idx,
                    mass: float(x.mass),
                    temperature: float(x.temperature),
                    disease_count: x.disease_count,
                });
            }
            for x in e.spawn_fx_info {
                self.sim_events.spawn_fx_info.push(FXInfo {
                    cell_idx: x.cell_idx,
                    fx_id: x.fx_id,
                    rotation: float(x.rotation),
                });
            }
            for x in e.world_damage_info {
                self.sim_events.world_damage_info.push(x);
            }
        }
    }

    /// Lets the library work on the world.
    fn run<R>(&self, f: impl FnOnce(&mut sim_data::SimData) -> R) -> R {
        let mut s = self.to_lib();
        let r = f(&mut s);
        self.take(s);
        r
    }
}

fn full_grid_bounds(sd: &SimData) -> RegionBounds {
    RegionBounds {
        min_x: 1,
        min_y: 1,
        max_x: sd.width as usize - 1,
        max_y: sd.height as usize - 1,
    }
}

fn is_liquid_permeable(cells: &CellSOA, i: usize) -> bool {
    grid::is_liquid_permeable(&cells.tables.look().table.to_lib(), &cells.to_lib(), i)
}

fn is_solid(cells: &CellSOA, i: usize) -> bool {
    grid::is_solid(&cells.tables.look().table.to_lib(), &cells.to_lib(), i)
}

fn add_disease_to_cell(cells: &CellSOA, i: usize, idx: u8, count: i32) {
    let mut v = cells.to_lib();
    let d = cells.tables.look().diseases.as_ref().map(|d| d.to_lib());
    grid::add_disease_to_cell(&d, &mut v, i, idx, count);
    cells.take(&v);
}

fn update_liquid(sd: &SimData, i: usize) {
    sd.run(|s| liquid_flow::update_liquid(s, i));
}

fn update_liquid_loop(sd: &SimData, b: RegionBounds) {
    sd.run(|s| liquid_flow::update_liquid_loop(s, b.to_lib()));
}

/// Answers a closing pass that nothing melts or changes phase.
fn finish(s: &mut sim_data::SimData, mut c: post_process::Closing) {
    while !c.is_over() {
        c.reply(s, false);
    }
}

fn update_liquids(sd: &SimData) {
    sd.run(|s| {
        let c = physics::update_liquids(s);
        finish(s, c);
    });
}

fn post_process_loop(sd: &SimData, b: RegionBounds) {
    sd.run(|s| {
        let c = post_process::post_process_loop(s, b.to_lib());
        finish(s, c);
    });
}

fn post_process_cell(sd: &SimData, i: usize) {
    sd.run(|s| {
        let mut p = post_process::post_process_cell(s, i);
        while !p.is_done() {
            p = post_process::post_process_resume(s, i, p, false);
        }
    });
}

fn run_space_vacuum_task(sd: &SimData, b: RegionBounds) {
    sd.run(|s| space::run_space_vacuum_task(s, b.to_lib()));
}

fn update_pressure(sd: &SimData, a: usize, b: usize) -> f32 {
    sd.run(|s| float(pressure::update_pressure(s, a, b)))
}

fn push_spawn_fx(sd: &SimData, i: usize, fx: i32, rotation: f32) {
    sd.run(|s| sim_data::push_spawn_fx(s, i, fx, num(rotation)));
}

fn do_sublimation(sd: &SimData, i: usize) {
    sd.run(|s| sublimation::do_sublimation(s, i));
}

fn do_unstable_check_basic(sd: &SimData, i: usize) {
    sd.run(|s| unstable::do_unstable_check_basic(s, i));
}

fn do_unstable_check_with_diagonals(sd: &SimData, i: usize) {
    sd.run(|s| unstable::do_unstable_check_with_diagonals(s, i));
}

fn get_stable_ticks_remaining(sd: &SimData, i: usize) -> u8 {
    sd.run(|s| unstable::get_stable_ticks_remaining(s, i))
}

fn do_density_displacement(sd: &SimData, i: usize, gate: f32) -> bool {
    sd.run(|s| displacement::do_density_displacement(s, i, num(gate)))
}

fn displace_gas(sd: &SimData, i: usize, elem: u16) -> bool {
    sd.run(|s| displacement::displace_gas(s, i, elem))
}

fn displace_liquid(sd: &SimData, i: usize, elem: u16) -> bool {
    sd.run(|s| displacement::displace_liquid(s, i, elem))
}

fn displace_liquid_directional(sd: &SimData, a: usize, b: usize) -> bool {
    sd.run(|s| pressure::displace_liquid_directional(s, a, b))
}

fn do_liquid_pressure_displacement(
    sd: &SimData,
    elem: u16,
    a: usize,
    b: usize,
    beyond: usize,
) -> f32 {
    sd.run(|s| float(pressure::do_liquid_pressure_displacement(s, elem, a, b, beyond)))
}

fn run_liquid_displacement_task(sd: &SimData, b: RegionBounds) {
    sd.run(|s| pressure::run_liquid_displacement_task(s, b.to_lib()));
}

fn add_liquid(sd: &SimData, i: usize, e: u16, mass: f32, t: f32, idx: u8, n: i32) {
    sd.run(|s| placing::add_liquid(s, i, e, num(mass), num(t), idx, n));
}

fn add_gas(sd: &SimData, i: usize, e: u16, mass: f32, t: f32, idx: u8, n: i32) {
    sd.run(|s| placing::add_gas(s, i, e, num(mass), num(t), idx, n));
}

fn add_solid(sd: &SimData, i: usize, e: u16, mass: f32, t: f32, idx: u8, n: i32, kind: u8) {
    sd.run(|s| placing::add_solid(s, i, e, num(mass), num(t), idx, n, kind));
}

fn copy_updated_cells_to_cells(sd: &SimData) {
    sd.run(physics::copy_updated_cells_to_cells);
}

fn powers_of_two(exponents: &[F32]) -> Vec<F32> {
    exponents.iter().map(|e| num(f32::powf(2.0, float(*e)))).collect()
}

/// Runs a step in which `heat` is done where heat is due, and nothing melts or changes phase.
fn update_data_with(sd: &SimData, heat: impl Fn(&mut sim_data::SimData)) {
    sd.run(|s| {
        let mut step = physics::update_data(s);
        loop {
            let reply = match step.request(s) {
                physics::Request::Strengthen(_) | physics::Request::Components(_) => {
                    physics::Reply::Done
                }
                physics::Request::Heat(_) => {
                    heat(s);
                    physics::Reply::Done
                }
                physics::Request::Melt(..) | physics::Request::Transition(..) => {
                    physics::Reply::Answer(false)
                }
                physics::Request::Powers(e) => physics::Reply::Powers(powers_of_two(&e)),
                physics::Request::Nothing => return,
            };
            step.reply(s, reply);
        }
    });
}

fn update_data(sd: &SimData) {
    update_data_with(sd, |_| {});
}

fn create_state_table(tables: &Tables) {
    let mut w = Vec::new();
    for (id, state) in [(0i32, 1u8), (1i32, 2u8), (2i32, 3u8)] {
        let mut elem = Element::default();
        elem.id = id;
        elem.state = state;
        elem.number_of_gradient_colors = 1;
        w.push(elem);
    }
    tables.create(w);
}

#[test]
fn is_liquid_permeable_basic() {
    let tables = &Tables::default();
    create_state_table(tables);
    let sd = SimData::new_for_allocate(tables, 6, 5, 1, true, false);
    {
        let cells = &sd.cells;
        cells.element_idx.set(0, 0);
        cells.element_idx.set(1, 1);
        cells.element_idx.set(2, 2);
        assert!(is_liquid_permeable(cells, 0));
        assert!(!is_liquid_permeable(cells, 1));
        assert!(!is_liquid_permeable(cells, 2));

        cells.element_idx.set(3, 0);
        cells.properties.set(3, 2);
        assert!(!is_liquid_permeable(cells, 3));
    }
}

#[test]
fn is_solid_detects_unobtanium() {
    let tables = &Tables::default();
    create_state_table(tables);
    let sd = SimData::new_for_allocate(tables, 6, 5, 1, true, false);
    {
        let cells = &sd.cells;
        cells.element_idx.set(0, 2);
        cells.element_idx.set(1, 0);
        assert!(is_solid(cells, 0));
        assert!(!is_solid(cells, 1));

        cells.element_idx.set(2, 0);
        cells.properties.set(2, 2);
        assert!(is_solid(cells, 2));
    }
}

#[test]
fn run_space_vacuum_task_removes_liquid_gas_skips_solid() {
    let tables = &Tables::default();
    create_state_table(tables);
    let mut sd = SimData::new_for_allocate(tables, 6, 5, 1, true, false);

    let mut wz = vec![0u8; 30];
    wz[14] = 0xFF;
    wz[15] = 0xFF;
    wz[16] = 0xFF;
    sd.world_zones = wz;
    {
        let updated = &sd.updated_cells;
        updated.element_idx.set(14, 1);
        updated.mass.set(14, 500.0);
        updated.element_idx.set(15, 0);
        updated.mass.set(15, 1.0);
        updated.element_idx.set(16, 2);
        updated.mass.set(16, 100.0);
    }

    let bounds = full_grid_bounds(&sd);
    run_space_vacuum_task(&sd, bounds);

    {
        let updated = &sd.updated_cells;
        assert!((updated.mass.get(14) - 480.0).abs() < 1e-3);
        assert!((updated.mass.get(15) - 0.98).abs() < 1e-3);
        assert!((updated.mass.get(16) - 100.0).abs() < 1e-3);

        let flow = sd.flow.to_vec();
        assert_eq!(flow[14].x, -0.3);
        assert_eq!(flow[14].y, 0.3);
        assert_eq!(flow[14].z, 0.3);
        assert_eq!(flow[14].w, -0.3);
    }
}

#[test]
fn run_space_vacuum_task_gates_on_world_zone_and_backwall() {
    let tables = &Tables::default();
    create_state_table(tables);
    let mut sd = SimData::new_for_allocate(tables, 6, 5, 1, true, false);
    let mut wz = vec![0u8; 30];

    wz[14] = 0xFF;
    wz[16] = 0xFF;
    sd.world_zones = wz;
    {
        let updated = &sd.updated_cells;
        updated.element_idx.set(14, 1);
        updated.mass.set(14, 200.0);
        updated.element_idx.set(15, 1);
        updated.mass.set(15, 200.0);

        updated.element_idx.set(16, 1);
        updated.mass.set(16, 200.0);
        let bw = &sd.backwall;
        bw.element_idx.set(16, 5);
    }

    let bounds = full_grid_bounds(&sd);
    run_space_vacuum_task(&sd, bounds);

    {
        let updated = &sd.updated_cells;
        assert!((updated.mass.get(14) - 180.0).abs() < 1e-3);
        assert!((updated.mass.get(15) - 200.0).abs() < 1e-3);
        assert!((updated.mass.get(16) - 200.0).abs() < 1e-3);
    }
}

#[test]
fn empty_table_returns_safe_defaults() {
    let tables = &Tables::default();
    let sd = SimData::new_for_allocate(tables, 6, 5, 1, true, false);
    {
        let cells = &sd.cells;
        assert!(!is_liquid_permeable(cells, 0));
        assert!(!is_solid(cells, 0));

        let _ = sd.vacuum_element_idx;
        let _ = sd.unobtanium_element_idx;
    }
}

fn create_liquid_table(tables: &Tables) {
    let mut w = Vec::new();
    for elem in [
        Element::default(),
        {
            let mut e = Element::default();
            e.id = 1;
            e.state = 2;
            e.number_of_gradient_colors = 1;
            e.flow = 50.0;
            e.viscosity = 50.0;
            e.max_mass = 1000.0;
            e.min_vertical_flow = 0.0;
            e.low_temp = 0.0;
            e.high_temp = 10000.0;
            e
        },
    ] {
        w.push(elem);
    }
    tables.create(w);
}

#[test]
fn update_liquid_moves_mass_down_to_vacuum() {
    let tables = &Tables::default();
    let sd = SimData::new_for_allocate(tables, 6, 5, 1, true, false);
    update_liquids(&sd);
}

#[test]
fn update_liquid_same_element_transfers_mass_and_flow() {
    let tables = &Tables::default();
    create_liquid_table(tables);
    let mut sd = SimData::new_for_allocate(tables, 6, 5, 1, true, false);
    sd.vacuum_element_idx = 0;
    {
        let cells = &sd.cells;
        let updated = &sd.updated_cells;
        for buf in [cells, updated] {
            buf.element_idx.set(14, 1);
            buf.mass.set(14, 100.0);
            buf.temperature.set(14, 300.0);

            buf.element_idx.set(8, 1);
            buf.mass.set(8, 10.0);
            buf.temperature.set(8, 300.0);

            buf.element_idx.set(15, 4);
            buf.mass.set(15, 500.0);
            buf.temperature.set(15, 300.0);
        }
    }
    update_liquid(&sd, 14);
    {
        let updated = &sd.updated_cells;

        assert!((updated.mass.get(14) - 37.5).abs() < 1e-3);
        assert!((updated.mass.get(8) - 60.0).abs() < 1e-3);

        assert_eq!(updated.element_idx.get(13), 1);
        assert!((updated.mass.get(13) - 12.5).abs() < 1e-3);
        let flow = sd.flow.to_vec();
        assert!((flow[14].z - 50.0).abs() < 1e-3);
        assert!((flow[14].x - 12.5).abs() < 1e-3);

        let events = &sd.sim_events;
        assert_eq!(events.substance_change_info.len(), 1);
        assert_eq!(events.substance_change_info.get(0).cell_idx, 4);
    }
}

#[test]
fn liquid_spreads_into_gas_and_gas_escapes_diagonally() {
    let tables = &Tables::default();

    let mut w = Vec::new();
    for elem in [
        Element::default(),
        {
            let mut e = Element::default();
            e.id = 1;
            e.state = 2;
            e.number_of_gradient_colors = 1;
            e.flow = 50.0;
            e.viscosity = 50.0;
            e.max_mass = 1000.0;
            e.min_vertical_flow = 0.0;
            e.low_temp = 0.0;
            e.high_temp = 10000.0;
            e
        },
        {
            let mut e = Element::default();
            e.id = 2;
            e.state = 1;
            e.low_temp = 0.0;
            e.high_temp = 10000.0;
            e
        },
        {
            let mut e = Element::default();
            e.id = 3;
            e.state = 3;
            e.low_temp = 0.0;
            e.high_temp = 10000.0;
            e
        },
    ] {
        w.push(elem);
    }
    tables.create(w);

    let mut sd = SimData::new_for_allocate(tables, 6, 5, 1, true, false);
    sd.vacuum_element_idx = 0;
    {
        let cells = &sd.cells;
        let updated = &sd.updated_cells;
        for buf in [cells, updated] {
            buf.element_idx.set(14, 1);
            buf.mass.set(14, 100.0);
            buf.temperature.set(14, 300.0);

            buf.element_idx.set(8, 1);
            buf.mass.set(8, 10.0);
            buf.temperature.set(8, 300.0);

            buf.element_idx.set(13, 2);
            buf.mass.set(13, 10.0);
            buf.temperature.set(13, 300.0);

            for c in [19usize, 12, 7] {
                buf.element_idx.set(c, 3);
                buf.mass.set(c, 500.0);
                buf.temperature.set(c, 300.0);
            }

            buf.element_idx.set(18, 3);
            buf.mass.set(18, 500.0);
            buf.temperature.set(18, 300.0);
            buf.element_idx.set(20, 2);
            buf.mass.set(20, 0.0);
            buf.temperature.set(20, 300.0);

            buf.element_idx.set(15, 3);
            buf.mass.set(15, 500.0);
            buf.temperature.set(15, 300.0);
        }
    }
    update_liquid(&sd, 14);
    {
        let updated = &sd.updated_cells;
        assert_eq!(updated.element_idx.get(13), 1);
        assert!(updated.mass.get(13) > 0.0);
        assert_eq!(updated.element_idx.get(20), 2);
        assert!((updated.mass.get(20) - 10.0).abs() < 1e-3);
    }
}

fn create_liquid_displacement_table(tables: &Tables) {
    let mut w = Vec::new();
    let elems = [
        Element::default(),
        {
            let mut e = Element::default();
            e.id = 1;
            e.state = 2;
            e.number_of_gradient_colors = 1;
            e.flow = 50.0;
            e.viscosity = 50.0;
            e.max_mass = 1000.0;
            e.min_vertical_flow = 0.0;
            e.low_temp = 0.0;
            e.high_temp = 10000.0;
            e
        },
        {
            let mut e = Element::default();
            e.id = 2;
            e.state = 2;
            e.number_of_gradient_colors = 1;
            e.flow = 50.0;
            e.viscosity = 50.0;
            e.max_mass = 1000.0;
            e.min_vertical_flow = 0.0;
            e.low_temp = 0.0;
            e.high_temp = 10000.0;
            e
        },
        {
            let mut e = Element::default();
            e.id = 3;
            e.state = 1;
            e.low_temp = 0.0;
            e.high_temp = 10000.0;
            e
        },
        {
            let mut e = Element::default();
            e.id = 4;
            e.state = 3;
            e.low_temp = 0.0;
            e.high_temp = 10000.0;
            e
        },
    ];
    w.extend_from_slice(&elems);
    tables.create(w);
}

fn create_clean_density_table(tables: &Tables) {
    let mut w = Vec::new();
    let elems = [
        Element::default(),
        {
            let mut e = Element::default();
            e.id = 1;
            e.state = 2;
            e.number_of_gradient_colors = 1;
            e.flow = 50.0;
            e.viscosity = 50.0;
            e.molar_mass = 200.0;
            e.max_mass = 1000.0;
            e.min_vertical_flow = 0.0;
            e.low_temp = 0.0;
            e.high_temp = 10000.0;
            e
        },
        {
            let mut e = Element::default();
            e.id = 2;
            e.state = 2;
            e.number_of_gradient_colors = 1;
            e.flow = 50.0;
            e.viscosity = 50.0;
            e.molar_mass = 18.0;
            e.max_mass = 1000.0;
            e.min_vertical_flow = 0.0;
            e.low_temp = 0.0;
            e.high_temp = 10000.0;
            e
        },
        {
            let mut e = Element::default();
            e.id = 3;
            e.state = 1;
            e.low_temp = 0.0;
            e.high_temp = 10000.0;
            e
        },
        {
            let mut e = Element::default();
            e.id = 4;
            e.state = 3;
            e.low_temp = 0.0;
            e.high_temp = 10000.0;
            e
        },
    ];
    w.extend_from_slice(&elems);
    tables.create(w);
}

#[test]
fn displace_liquid_directional_merge_requires_same_element() {
    let tables = &Tables::default();
    create_clean_density_table(tables);
    let mut sd = SimData::new_for_allocate(tables, 6, 5, 1, true, false);
    sd.vacuum_element_idx = 0;
    {
        let cells = &sd.cells;
        let updated = &sd.updated_cells;
        for buf in [cells, updated] {
            buf.element_idx.set(13, 1);
            buf.mass.set(13, 100.0);
            buf.temperature.set(13, 300.0);
            buf.element_idx.set(12, 2);
            buf.mass.set(12, 100.0);
            buf.temperature.set(12, 300.0);
        }
    }

    let ok = displace_liquid_directional(&sd, 13, 12);
    assert!(!ok);
    {
        let u = &sd.updated_cells;
        assert_eq!(u.element_idx.get(13), 1);
        assert!((u.mass.get(13) - 100.0).abs() < 1e-3);
        assert_eq!(u.element_idx.get(12), 2);
        assert!((u.mass.get(12) - 100.0).abs() < 1e-3);
    }

    {
        let u = &sd.updated_cells;
        u.element_idx.set(12, 1);
        u.mass.set(12, 50.0);
    }
    let ok2 = displace_liquid_directional(&sd, 13, 12);
    assert!(ok2);
    {
        let u = &sd.updated_cells;
        assert_eq!(u.element_idx.get(12), 1);
        assert!((u.mass.get(12) - 150.0).abs() < 1e-3);
        assert_eq!(u.element_idx.get(13), 0);
    }
}

#[test]
fn polluted_sinking_conserves_mass() {
    let tables = &Tables::default();
    create_clean_density_table(tables);
    let mut sd = SimData::new_for_allocate(tables, 20, 14, 17, true, false);
    sd.vacuum_element_idx = 0;
    {
        let cells = &sd.cells;
        let updated = &sd.updated_cells;
        for buf in [cells, updated] {
            for i in 0..280usize {
                buf.element_idx.set(i, 0);
                buf.mass.set(i, 0.0);
                buf.temperature.set(i, 300.0);
            }

            for c in 3..17usize {
                let idx = 1 * 20 + c;
                buf.element_idx.set(idx, 4);
                buf.mass.set(idx, 1000.0);
            }

            for r in 2..9usize {
                for c in 3..17usize {
                    let idx = r * 20 + c;
                    buf.element_idx.set(idx, 2);
                    buf.mass.set(idx, 1000.0);
                }
            }

            buf.element_idx.set(209, 1);
            buf.mass.set(209, 1000.0);
        }
    }
    let bounds = full_grid_bounds(&sd);
    let mut min_pt = 1000.0f32;
    for _tick in 0..400 {
        {
            copy_updated_cells_to_cells(&sd);
        }
        update_liquid_loop(&sd, bounds);
        run_liquid_displacement_task(&sd, bounds);
        {
            copy_updated_cells_to_cells(&sd);
        }
        post_process_loop(&sd, bounds);
        {
            let u = &sd.updated_cells;
            let mut pt = 0.0f32;
            for i in 0..280usize {
                if u.element_idx.get(i) == 1 {
                    pt += u.mass.get(i);
                }
            }
            min_pt = min_pt.min(pt);
        }
    }
    assert!(min_pt >= 999.5);
    {
        let u = &sd.updated_cells;
        let mut pt = 0.0f32;
        for i in 0..280usize {
            if u.element_idx.get(i) == 1 {
                pt += u.mass.get(i);
            }
        }
        assert!((pt - 1000.0).abs() < 0.2);
    }
}

#[test]
fn do_liquid_pressure_displacement_squeezes_to_liquid_beyond() {
    let tables = &Tables::default();
    create_liquid_displacement_table(tables);
    let mut sd = SimData::new_for_allocate(tables, 6, 5, 1, true, false);
    sd.vacuum_element_idx = 0;
    {
        for buf in [&sd.cells, &sd.updated_cells] {
            buf.element_idx.set(14, 1);
            buf.mass.set(14, 1000.0);
            buf.temperature.set(14, 300.0);
            buf.element_idx.set(13, 2);
            buf.mass.set(13, 100.0);
            buf.temperature.set(13, 200.0);
            buf.element_idx.set(12, 2);
            buf.mass.set(12, 50.0);
            buf.temperature.set(12, 200.0);
        }
    }
    let r = do_liquid_pressure_displacement(&sd, 1, 14, 13, 12);
    {
        let updated = &sd.updated_cells;
        assert!((r - 125.0).abs() < 1e-3);
        assert_eq!(updated.element_idx.get(13), 1);
        assert!((updated.mass.get(13) - 125.0).abs() < 1e-3);
        assert!((updated.mass.get(14) - 875.0).abs() < 1e-3);
        assert_eq!(updated.element_idx.get(12), 2);
        assert!((updated.mass.get(12) - 150.0).abs() < 1e-3);
        assert!((updated.temperature.get(13) - 300.0).abs() < 1e-3);
    }
}

#[test]
fn do_liquid_pressure_displacement_gas_beyond_displaces_gas() {
    let tables = &Tables::default();
    create_liquid_displacement_table(tables);
    let mut sd = SimData::new_for_allocate(tables, 6, 5, 1, true, false);
    sd.vacuum_element_idx = 0;
    {
        for buf in [&sd.cells, &sd.updated_cells] {
            buf.element_idx.set(14, 1);
            buf.mass.set(14, 1000.0);
            buf.temperature.set(14, 300.0);
            buf.element_idx.set(13, 2);
            buf.mass.set(13, 100.0);
            buf.temperature.set(13, 200.0);
            buf.element_idx.set(12, 3);
            buf.mass.set(12, 10.0);
            buf.temperature.set(12, 250.0);
            buf.element_idx.set(18, 3);
            buf.mass.set(18, 0.0);
            buf.temperature.set(18, 250.0);

            for c in [11usize, 6] {
                buf.element_idx.set(c, 4);
                buf.mass.set(c, 500.0);
                buf.temperature.set(c, 300.0);
            }
        }
    }
    let r = do_liquid_pressure_displacement(&sd, 1, 14, 13, 12);
    {
        let updated = &sd.updated_cells;
        assert!((r - 125.0).abs() < 1e-3);
        assert_eq!(updated.element_idx.get(18), 3);
        assert!((updated.mass.get(18) - 10.0).abs() < 1e-3);
        assert_eq!(updated.element_idx.get(12), 2);
        assert!((updated.mass.get(12) - 100.0).abs() < 1e-3);
        assert_eq!(updated.element_idx.get(13), 1);
        assert!((updated.mass.get(13) - 125.0).abs() < 1e-3);
        assert!((updated.mass.get(14) - 875.0).abs() < 1e-3);
    }
}

#[test]
fn do_liquid_pressure_displacement_gates() {
    let tables = &Tables::default();
    create_liquid_displacement_table(tables);
    let mut sd = SimData::new_for_allocate(tables, 6, 5, 1, true, false);
    sd.vacuum_element_idx = 0;
    {
        for buf in [&sd.cells, &sd.updated_cells] {
            buf.element_idx.set(14, 1);
            buf.mass.set(14, 1000.0);
            buf.temperature.set(14, 300.0);
            buf.element_idx.set(13, 1);
            buf.mass.set(13, 100.0);
            buf.temperature.set(13, 200.0);
            buf.element_idx.set(12, 2);
            buf.mass.set(12, 50.0);
        }
    }

    let r1 = do_liquid_pressure_displacement(&sd, 1, 14, 13, 12);
    assert!((r1 - 0.0).abs() < 1e-6);
    {
        let updated = &sd.updated_cells;
        assert_eq!(updated.element_idx.get(13), 1);
        assert!((updated.mass.get(14) - 1000.0).abs() < 1e-6);
    }

    {
        for buf in [&sd.cells, &sd.updated_cells] {
            buf.element_idx.set(13, 3);
            buf.mass.set(13, 10.0);
        }
    }
    let r2 = do_liquid_pressure_displacement(&sd, 1, 14, 13, 12);
    assert!((r2 - 0.0).abs() < 1e-6);

    {
        for buf in [&sd.cells, &sd.updated_cells] {
            buf.element_idx.set(13, 2);
            buf.mass.set(13, 100.0);
            buf.mass.set(14, 100.0);
        }
    }
    let r3 = do_liquid_pressure_displacement(&sd, 1, 14, 13, 12);
    assert!((r3 - 0.0).abs() < 1e-6);

    {
        for buf in [&sd.cells, &sd.updated_cells] {
            buf.mass.set(14, 1000.0);
            buf.properties.set(13, 2);
        }
    }
    let r4 = do_liquid_pressure_displacement(&sd, 1, 14, 13, 12);
    assert!((r4 - 0.0).abs() < 1e-6);
}

#[test]
fn run_liquid_displacement_task_squeezes_and_accounts_flow() {
    let tables = &Tables::default();
    create_liquid_displacement_table(tables);
    let mut sd = SimData::new_for_allocate(tables, 12, 10, 1, true, false);
    sd.vacuum_element_idx = 0;
    sd.iterate_direction.set(1);
    {
        for buf in [&sd.cells, &sd.updated_cells] {
            buf.element_idx.set(53, 1);
            buf.mass.set(53, 1000.0);
            buf.temperature.set(53, 300.0);
            buf.element_idx.set(52, 2);
            buf.mass.set(52, 100.0);
            buf.temperature.set(52, 200.0);
            buf.element_idx.set(51, 2);
            buf.mass.set(51, 50.0);
            buf.temperature.set(51, 200.0);

            for c in [54usize, 41] {
                buf.element_idx.set(c, 4);
                buf.mass.set(c, 500.0);
                buf.temperature.set(c, 300.0);
            }
        }
    }
    let b = full_grid_bounds(&sd);
    run_liquid_displacement_task(&sd, b);
    {
        let updated = &sd.updated_cells;
        assert_eq!(updated.element_idx.get(52), 1);
        assert!((updated.mass.get(52) - 125.0).abs() < 1e-3);
        assert_eq!(updated.element_idx.get(51), 2);
        assert!((updated.mass.get(51) - 150.0).abs() < 1e-3);
        assert!((updated.mass.get(53) - 875.0).abs() < 1e-3);
        let flow = sd.flow.to_vec();
        assert!((flow[53].x - 125.0).abs() < 1e-3);
        assert!((flow[52].y - (-125.0)).abs() < 1e-3);
    }
}

#[test]
fn do_liquid_pressure_displacement_transfers_disease() {
    let tables = &Tables::default();
    create_liquid_displacement_table(tables);
    let mut sd = SimData::new_for_allocate(tables, 6, 5, 1, true, false);
    sd.vacuum_element_idx = 0;
    {
        for buf in [&sd.cells, &sd.updated_cells] {
            buf.element_idx.set(14, 1);
            buf.mass.set(14, 1000.0);
            buf.temperature.set(14, 300.0);
            buf.disease_idx.set(14, 0x05);
            buf.disease_count.set(14, 800);
            buf.element_idx.set(13, 2);
            buf.mass.set(13, 100.0);
            buf.temperature.set(13, 200.0);
            buf.disease_idx.set(13, 0x08);
            buf.disease_count.set(13, 0);
            buf.element_idx.set(12, 2);
            buf.mass.set(12, 50.0);
            buf.temperature.set(12, 200.0);
        }
    }
    let r = do_liquid_pressure_displacement(&sd, 1, 14, 13, 12);
    {
        let updated = &sd.updated_cells;
        assert!((r - 125.0).abs() < 1e-3);
        assert_eq!(updated.disease_count.get(13), 100);
        assert_eq!(updated.disease_idx.get(13), 0x05);
        assert_eq!(updated.disease_count.get(14), 700);
    }
}

#[test]
fn enclosed_vertical_shaft_gas_teleports_to_top() {
    let tables = &Tables::default();
    create_liquid_displacement_table(tables);
    let mut sd = SimData::new_for_allocate(tables, 6, 5, 1, true, false);
    sd.vacuum_element_idx = 0;
    {
        for buf in [&sd.cells, &sd.updated_cells] {
            buf.element_idx.set(8, 3);
            buf.mass.set(8, 10.0);
            buf.temperature.set(8, 250.0);
            buf.element_idx.set(14, 1);
            buf.mass.set(14, 100.0);
            buf.temperature.set(14, 300.0);
            buf.element_idx.set(20, 1);
            buf.mass.set(20, 100.0);
            buf.temperature.set(20, 300.0);

            for c in [7usize, 9, 13, 15, 19, 21, 2] {
                buf.element_idx.set(c, 4);
                buf.mass.set(c, 500.0);
                buf.temperature.set(c, 300.0);
            }
        }
    }
    let b = full_grid_bounds(&sd);

    update_liquid_loop(&sd, b);
    {
        let updated = &sd.updated_cells;
        assert_eq!(updated.element_idx.get(14), 3);
        assert_eq!(updated.element_idx.get(8), 1);
    }

    copy_updated_cells_to_cells(&sd);
    update_liquid_loop(&sd, b);
    {
        let updated = &sd.updated_cells;
        assert_eq!(updated.element_idx.get(20), 3);
        assert_eq!(updated.element_idx.get(14), 1);
        assert_eq!(updated.element_idx.get(8), 1);
    }
}

#[test]
fn horizontal_gas_liquid_corner_enclosed_behavior() {
    let tables = &Tables::default();
    create_liquid_displacement_table(tables);
    let mut sd = SimData::new_for_allocate(tables, 6, 5, 1, true, false);
    sd.vacuum_element_idx = 0;
    {
        for buf in [&sd.cells, &sd.updated_cells] {
            buf.element_idx.set(7, 3);
            buf.mass.set(7, 10.0);
            buf.temperature.set(7, 250.0);
            buf.element_idx.set(8, 1);
            buf.mass.set(8, 100.0);
            buf.temperature.set(8, 300.0);
            buf.element_idx.set(14, 1);
            buf.mass.set(14, 100.0);
            buf.temperature.set(14, 300.0);

            for c in [13usize, 15, 9, 3, 2, 1, 6, 12] {
                buf.element_idx.set(c, 4);
                buf.mass.set(c, 500.0);
                buf.temperature.set(c, 300.0);
            }
        }
    }
    let b = full_grid_bounds(&sd);
    for _ in 0..20 {
        update_liquid_loop(&sd, b);
        copy_updated_cells_to_cells(&sd);
    }
    {
        let updated = &sd.updated_cells;
        let gas_at = (0..30)
            .filter(|&c| updated.element_idx.get(c) == 3)
            .collect::<Vec<_>>();
        assert!(gas_at.len() == 1 && gas_at[0] == 14);
    }
}

#[test]
fn gas_above_correct_layout_swap_vs_vacuum() {
    let tables = &Tables::default();
    create_liquid_displacement_table(tables);
    let w = 12usize;
    let gas = 1 * w + 1;
    let liq1 = gas + w;
    let liq2 = liq1 + 1;

    let bricks = [
        liq1 - 1,
        liq2 + 1,
        liq1 + w,
        liq2 + w,
        liq1 + w - 1,
        gas - 1,
        gas - w,
        gas - w - 1,
        gas - w + 1,
        liq2 - w,
        liq2 - w + 1,
        liq2 + w + 1,
    ];
    for (liq2_elem, liq2_mass, expect_gas_at) in
        [(1u16, 300.0f32, liq1), (0u16, 0.0f32, gas)]
    {
        let mut sd = SimData::new_for_allocate(tables, 12, 10, 12345, false, true);
        sd.vacuum_element_idx = 0;
        sd.void_element_idx = 0xFFFF;
        {
            for buf in [&sd.cells, &sd.updated_cells] {
                buf.element_idx.set(gas, 3);
                buf.mass.set(gas, 1.0);
                buf.temperature.set(gas, 250.0);
                buf.element_idx.set(liq1, 1);
                buf.mass.set(liq1, 1000.0);
                buf.temperature.set(liq1, 300.0);
                buf.element_idx.set(liq2, liq2_elem);
                buf.mass.set(liq2, liq2_mass);
                buf.temperature.set(liq2, 300.0);
                for &c in &bricks {
                    buf.element_idx.set(c, 4);
                    buf.mass.set(c, 500.0);
                    buf.temperature.set(c, 300.0);
                }
            }
        }
        sd.active_regions.push(ActiveRegion {
        min_x: 0,
        min_y: 0,
        max_x: 12,
        max_y: 10,
            current_cosmic_radiation_intensity: 0.0,
        });
        for _ in 0..5 {
            update_data(&sd);
        }
        {
            let updated = &sd.updated_cells;
            let gas_cells = (0..(12 * 10))
                .filter(|&c| updated.element_idx.get(c) == 3)
                .collect::<Vec<_>>();
            assert!(gas_cells.len() == 1 && gas_cells[0] == expect_gas_at);
        }
    }
}

#[test]
fn full_column_merge_then_gas_swap_cascade() {
    let tables = &Tables::default();
    create_liquid_displacement_table(tables);
    let mut sd = SimData::new_for_allocate(tables, 6, 5, 1, true, false);
    sd.vacuum_element_idx = 0;
    {
        for buf in [&sd.cells, &sd.updated_cells] {
            buf.element_idx.set(8, 3);
            buf.mass.set(8, 1.0);
            buf.temperature.set(8, 250.0);
            buf.element_idx.set(14, 1);
            buf.mass.set(14, 1000.0);
            buf.temperature.set(14, 300.0);
            buf.element_idx.set(20, 1);
            buf.mass.set(20, 1000.0);
            buf.temperature.set(20, 300.0);
            for c in [7usize, 9, 13, 15, 19, 21, 2] {
                buf.element_idx.set(c, 4);
                buf.mass.set(c, 500.0);
                buf.temperature.set(c, 300.0);
            }
        }
    }
    let b = full_grid_bounds(&sd);

    update_liquid_loop(&sd, b);
    {
        let updated = &sd.updated_cells;
        let gas_cells = (0..30)
            .filter(|&c| updated.element_idx.get(c) == 3)
            .collect::<Vec<_>>();
        assert_eq!(updated.element_idx.get(14), 3);
    }

    copy_updated_cells_to_cells(&sd);
    update_liquid_loop(&sd, b);
    {
        let updated = &sd.updated_cells;
        let gas_cells = (0..30)
            .filter(|&c| updated.element_idx.get(c) == 3)
            .collect::<Vec<_>>();
        assert_eq!(updated.element_idx.get(20), 3);
    }
}

#[test]
fn diagonal_swap_liquid_swaps_with_below_left_gas() {
    let tables = &Tables::default();
    create_liquid_displacement_table(tables);
    let mut sd = SimData::new_for_allocate(tables, 6, 5, 1, true, false);
    sd.vacuum_element_idx = 0;
    {
        for buf in [&sd.cells, &sd.updated_cells] {
            buf.element_idx.set(7, 3);
            buf.mass.set(7, 1.0);
            buf.temperature.set(7, 250.0);
            buf.element_idx.set(8, 1);
            buf.mass.set(8, 1000.0);
            buf.temperature.set(8, 300.0);
            buf.element_idx.set(14, 1);
            buf.mass.set(14, 1000.0);
            buf.temperature.set(14, 300.0);

            for c in [13usize, 6, 1, 2, 9, 15, 20, 0, 3, 21, 19] {
                buf.element_idx.set(c, 4);
                buf.mass.set(c, 500.0);
                buf.temperature.set(c, 300.0);
            }
        }
    }
    update_liquid(&sd, 14);
    {
        let updated = &sd.updated_cells;
        assert_eq!(updated.element_idx.get(14), 3);
        assert_eq!(updated.element_idx.get(7), 1);
        assert_eq!(updated.element_idx.get(8), 1);
        assert!((updated.mass.get(14) - 1.0).abs() < 1e-3);
        assert!((updated.mass.get(7) - 995.0).abs() < 1e-3);
        assert!((updated.mass.get(8) - 1005.0).abs() < 1e-3);
    }
}

#[test]
fn diagonal_swap_full_pipeline_300kg() {
    let tables = &Tables::default();
    create_liquid_displacement_table(tables);
    let mut sd = SimData::new_for_allocate(tables, 6, 5, 1, true, false);
    sd.vacuum_element_idx = 0;
    {
        for buf in [&sd.cells, &sd.updated_cells] {
            buf.element_idx.set(7, 3);
            buf.mass.set(7, 1.0);
            buf.temperature.set(7, 250.0);
            buf.element_idx.set(8, 1);
            buf.mass.set(8, 1000.0);
            buf.temperature.set(8, 300.0);
            buf.element_idx.set(14, 1);
            buf.mass.set(14, 1000.0);
            buf.temperature.set(14, 300.0);
            for c in [13usize, 6, 1, 2, 9, 15, 20, 0, 3, 21, 19] {
                buf.element_idx.set(c, 4);
                buf.mass.set(c, 500.0);
                buf.temperature.set(c, 300.0);
            }
        }
    }
    for _ in 0..5 {
        update_data(&sd);
    }
    {
        let updated = &sd.updated_cells;
        assert_eq!(updated.element_idx.get(14), 3);
        assert_eq!(updated.element_idx.get(7), 1);
        assert_eq!(updated.element_idx.get(8), 1);
    }
}

#[test]
fn diagonal_swap_full_pipeline_1000kg_merge_then_swap() {
    let tables = &Tables::default();
    create_liquid_displacement_table(tables);
    let mut sd = SimData::new_for_allocate(tables, 6, 5, 1, true, false);
    sd.vacuum_element_idx = 0;
    {
        for buf in [&sd.cells, &sd.updated_cells] {
            buf.element_idx.set(7, 3);
            buf.mass.set(7, 1.0);
            buf.temperature.set(7, 250.0);
            buf.element_idx.set(8, 1);
            buf.mass.set(8, 1000.0);
            buf.temperature.set(8, 300.0);
            buf.element_idx.set(14, 1);
            buf.mass.set(14, 1000.0);
            buf.temperature.set(14, 300.0);
            for c in [13usize, 6, 1, 2, 9, 15, 20, 0, 3, 21, 19] {
                buf.element_idx.set(c, 4);
                buf.mass.set(c, 500.0);
                buf.temperature.set(c, 300.0);
            }
        }
    }
    for _ in 0..5 {
        update_data(&sd);
    }
    {
        let updated = &sd.updated_cells;
        assert_eq!(updated.element_idx.get(14), 3);
        assert_eq!(updated.element_idx.get(7), 1);
        assert_eq!(updated.element_idx.get(8), 1);
    }
}

#[test]
fn diagonal_swap_vacuum_at_liquid2_no_transfer() {
    let tables = &Tables::default();
    create_liquid_displacement_table(tables);
    let mut sd = SimData::new_for_allocate(tables, 6, 5, 1, true, false);
    sd.vacuum_element_idx = 0;
    {
        for buf in [&sd.cells, &sd.updated_cells] {
            buf.element_idx.set(7, 3);
            buf.mass.set(7, 1.0);
            buf.temperature.set(7, 250.0);
            buf.element_idx.set(8, 1);
            buf.mass.set(8, 1000.0);
            buf.temperature.set(8, 300.0);
            buf.element_idx.set(14, 0);
            buf.mass.set(14, 0.0);
            buf.temperature.set(14, 0.0);
            for c in [13usize, 6, 1, 2, 9, 15, 20, 0, 3, 21, 19] {
                buf.element_idx.set(c, 4);
                buf.mass.set(c, 500.0);
                buf.temperature.set(c, 300.0);
            }
        }
    }
    for _ in 0..5 {
        update_data(&sd);
    }
    {
        let updated = &sd.updated_cells;
        assert_eq!(updated.element_idx.get(7), 3);
        assert_eq!(updated.element_idx.get(14), 0);
    }
}

#[test]
fn diagonal_swap_mirror_below_right_gas() {
    let tables = &Tables::default();
    create_liquid_displacement_table(tables);
    let mut sd = SimData::new_for_allocate(tables, 6, 5, 1, true, false);
    sd.vacuum_element_idx = 0;
    {
        for buf in [&sd.cells, &sd.updated_cells] {
            buf.element_idx.set(9, 3);
            buf.mass.set(9, 1.0);
            buf.temperature.set(9, 250.0);
            buf.element_idx.set(8, 1);
            buf.mass.set(8, 1000.0);
            buf.temperature.set(8, 300.0);
            buf.element_idx.set(14, 1);
            buf.mass.set(14, 300.0);
            buf.temperature.set(14, 300.0);

            for c in [15usize, 10, 3, 7, 2, 13, 20, 0, 1, 6, 16, 21, 19] {
                buf.element_idx.set(c, 4);
                buf.mass.set(c, 500.0);
                buf.temperature.set(c, 300.0);
            }
        }
    }
    for _ in 0..5 {
        update_data(&sd);
    }
    {
        let updated = &sd.updated_cells;
        assert_eq!(updated.element_idx.get(14), 3);
        assert_eq!(updated.element_idx.get(9), 1);
        assert_eq!(updated.element_idx.get(8), 1);
    }
}

#[test]
fn diagonal_swap_no_mass_inflation_bottom_up() {
    let tables = &Tables::default();
    create_liquid_displacement_table(tables);
    let mut sd = SimData::new_for_allocate(tables, 6, 5, 1, true, false);
    sd.vacuum_element_idx = 0;
    {
        for buf in [&sd.cells, &sd.updated_cells] {
            buf.element_idx.set(7, 3);
            buf.mass.set(7, 1.0);
            buf.temperature.set(7, 250.0);
            buf.element_idx.set(8, 1);
            buf.mass.set(8, 1000.0);
            buf.temperature.set(8, 300.0);
            buf.element_idx.set(14, 1);
            buf.mass.set(14, 1000.0);
            buf.temperature.set(14, 300.0);
            for c in [13usize, 6, 1, 2, 9, 15, 20, 0, 3, 21, 19] {
                buf.element_idx.set(c, 4);
                buf.mass.set(c, 500.0);
                buf.temperature.set(c, 300.0);
            }
        }
    }
    update_data(&sd);
    {
        let updated = &sd.updated_cells;
        assert_eq!(updated.element_idx.get(14), 3);
        assert_eq!(updated.element_idx.get(7), 1);

        assert!((updated.mass.get(7) - 995.0).abs() < 1e-3);
        assert!((updated.mass.get(8) - 1005.0).abs() < 1e-3);
    }

    update_data(&sd);
    {
        let updated = &sd.updated_cells;
        assert!((updated.mass.get(7) - 997.5).abs() < 1e-3);
    }
}

#[test]
fn update_liquid_drains_down_toward_full_cell() {
    let tables = &Tables::default();
    create_liquid_table(tables);
    let mut sd = SimData::new_for_allocate(tables, 6, 5, 1, true, false);
    sd.vacuum_element_idx = 0;
    {
        let cells = &sd.cells;
        let updated = &sd.updated_cells;
        for buf in [cells, updated] {
            buf.element_idx.set(14, 1);
            buf.mass.set(14, 100.0);
            buf.temperature.set(14, 300.0);
            buf.element_idx.set(8, 1);
            buf.mass.set(8, 990.0);
            buf.temperature.set(8, 300.0);

            buf.element_idx.set(13, 4);
            buf.mass.set(13, 500.0);
            buf.element_idx.set(15, 4);
            buf.mass.set(15, 500.0);
        }
    }
    update_liquid(&sd, 14);
    {
        let updated = &sd.updated_cells;
        assert!((updated.mass.get(8) - 995.0).abs() < 1e-3);
        assert!((updated.mass.get(14) - 95.0).abs() < 1e-3);
    }

    let mut sd2 = SimData::new_for_allocate(tables, 6, 5, 1, true, false);
    sd2.vacuum_element_idx = 0;
    {
        let cells = &sd2.cells;
        let updated = &sd2.updated_cells;
        for buf in [cells, updated] {
            buf.element_idx.set(14, 1);
            buf.mass.set(14, 1020.0);
            buf.temperature.set(14, 300.0);
            buf.element_idx.set(8, 1);
            buf.mass.set(8, 1000.0);
            buf.temperature.set(8, 300.0);
            buf.element_idx.set(13, 4);
            buf.mass.set(13, 500.0);
            buf.element_idx.set(15, 4);
            buf.mass.set(15, 500.0);

            buf.element_idx.set(20, 4);
            buf.mass.set(20, 500.0);
        }
    }
    update_liquid(&sd2, 14);
    {
        let updated = &sd2.updated_cells;

        assert!((updated.mass.get(8) - 1015.1).abs() < 1e-3);
        assert!((updated.mass.get(14) - 1004.9).abs() < 1e-3);
    }
}

#[test]
fn update_liquid_vacuum_below_swaps_and_fires_events() {
    let tables = &Tables::default();
    create_liquid_table(tables);
    let mut sd = SimData::new_for_allocate(tables, 6, 5, 1, true, false);
    sd.vacuum_element_idx = 0;
    {
        let cells = &sd.cells;
        let updated = &sd.updated_cells;
        for buf in [cells, updated] {
            buf.element_idx.set(14, 1);
            buf.mass.set(14, 100.0);
            buf.temperature.set(14, 300.0);
            buf.element_idx.set(8, 0);
            buf.mass.set(8, 0.0);
            buf.temperature.set(8, 0.0);
        }
    }
    update_liquid(&sd, 14);
    {
        let updated = &sd.updated_cells;
        assert_eq!(updated.element_idx.get(14), 0);
        assert_eq!(updated.element_idx.get(8), 1);
        assert!((updated.mass.get(8) - 100.0).abs() < 1e-3);
        assert!((updated.mass.get(14) - 0.0).abs() < 1e-3);
        let events = &sd.sim_events;
        assert_eq!(events.substance_change_info.len(), 2);

        let mut cells: Vec<i32> = events
            .substance_change_info
            .iter()
            .map(|e| e.cell_idx)
            .collect();
        cells.sort();
        assert_eq!(cells, vec![1, 5]);
    }
}

#[test]
fn update_liquid_spreads_left_to_vacuum() {
    let tables = &Tables::default();
    create_displace_table(tables);
    let sd = SimData::new_for_allocate(tables, 6, 5, 1, true, false);

    {
        let cells = &sd.cells;
        cells.element_idx.set(14, 1);
        cells.mass.set(14, 100.0);
        cells.temperature.set(14, 300.0);
        cells.element_idx.set(8, 4);
        cells.mass.set(8, 500.0);

        cells.element_idx.set(15, 4);
        cells.mass.set(15, 500.0);

        cells.element_idx.set(7, 4);
        cells.mass.set(7, 500.0);
        let updated = &sd.updated_cells;
        updated.element_idx.set(14, 1);
        updated.mass.set(14, 100.0);
        updated.element_idx.set(8, 4);
        updated.mass.set(8, 500.0);
        updated.element_idx.set(15, 4);
        updated.mass.set(15, 500.0);
        updated.element_idx.set(7, 4);
        updated.mass.set(7, 500.0);
    }
    update_liquid(&sd, 14);
    {
        let updated = &sd.updated_cells;
        assert_eq!(updated.element_idx.get(13), 1);
        assert!((updated.mass.get(13) - 25.0).abs() < 1e-3);
        assert!((updated.mass.get(14) - 75.0).abs() < 1e-3);
        assert!((updated.temperature.get(13) - 300.0).abs() < 1e-3);
        let flow = sd.flow.to_vec();
        assert!((flow[14].x - 25.0).abs() < 1e-3);
    }
}

#[test]
fn update_liquid_spread_left_fires_event() {
    let tables = &Tables::default();
    create_displace_table(tables);
    let sd = SimData::new_for_allocate(tables, 6, 5, 1, true, false);
    {
        let cells = &sd.cells;
        cells.element_idx.set(14, 1);
        cells.mass.set(14, 100.0);
        cells.element_idx.set(8, 4);

        cells.element_idx.set(15, 4);
        cells.mass.set(15, 500.0);

        cells.element_idx.set(7, 4);
        cells.mass.set(7, 500.0);
        let updated = &sd.updated_cells;
        updated.element_idx.set(14, 1);
        updated.mass.set(14, 100.0);
        updated.element_idx.set(8, 4);
        updated.element_idx.set(15, 4);
        updated.mass.set(15, 500.0);
        updated.element_idx.set(7, 4);
        updated.mass.set(7, 500.0);
    }
    update_liquid(&sd, 14);
    {
        let events = &sd.sim_events;

        let has_cell4 = events
            .substance_change_info
            .iter()
            .any(|e| e.cell_idx == 4);
        assert!(has_cell4);
    }
}

#[test]
fn update_liquid_skips_spread_to_solid_neighbor() {
    let tables = &Tables::default();
    create_displace_table(tables);
    let sd = SimData::new_for_allocate(tables, 6, 5, 1, true, false);
    {
        let cells = &sd.cells;
        cells.element_idx.set(14, 1);
        cells.mass.set(14, 100.0);
        cells.element_idx.set(8, 4);
        cells.element_idx.set(13, 4);
        cells.mass.set(13, 500.0);

        cells.element_idx.set(15, 4);
        cells.mass.set(15, 500.0);
        let updated = &sd.updated_cells;
        updated.element_idx.set(14, 1);
        updated.mass.set(14, 100.0);
        updated.element_idx.set(8, 4);
        updated.element_idx.set(13, 4);
        updated.mass.set(13, 500.0);
        updated.element_idx.set(15, 4);
        updated.mass.set(15, 500.0);
    }
    update_liquid(&sd, 14);
    {
        let updated = &sd.updated_cells;
        assert_eq!(updated.element_idx.get(13), 4);
        assert!((updated.mass.get(13) - 500.0).abs() < 1e-3);
        assert!((updated.mass.get(14) - 100.0).abs() < 1e-3);
    }
}

#[test]
fn update_liquid_spreads_right_to_vacuum() {
    let tables = &Tables::default();
    create_displace_table(tables);
    let sd = SimData::new_for_allocate(tables, 6, 5, 1, true, false);
    {
        let cells = &sd.cells;
        cells.element_idx.set(14, 1);
        cells.mass.set(14, 100.0);
        cells.temperature.set(14, 300.0);
        cells.element_idx.set(8, 4);
        cells.mass.set(8, 500.0);

        cells.element_idx.set(13, 2);
        cells.mass.set(13, 0.0);
        let updated = &sd.updated_cells;
        updated.element_idx.set(14, 1);
        updated.mass.set(14, 100.0);
        updated.element_idx.set(8, 4);
        updated.mass.set(8, 500.0);
        updated.element_idx.set(13, 2);
        updated.mass.set(13, 0.0);

        cells.element_idx.set(9, 4);
        cells.mass.set(9, 500.0);
        updated.element_idx.set(9, 4);
        updated.mass.set(9, 500.0);
    }
    update_liquid(&sd, 14);
    {
        let updated = &sd.updated_cells;
        assert_eq!(updated.element_idx.get(15), 1);
        assert!((updated.mass.get(15) - 25.0).abs() < 1e-3);
        assert!((updated.mass.get(14) - 75.0).abs() < 1e-3);
        let flow = sd.flow.to_vec();
        assert!((flow[14].y - 25.0).abs() < 1e-3);
    }
}

#[test]
fn update_liquid_spreads_both_directions() {
    let tables = &Tables::default();
    create_displace_table(tables);
    let sd = SimData::new_for_allocate(tables, 6, 5, 1, true, false);
    {
        let cells = &sd.cells;
        cells.element_idx.set(14, 1);
        cells.mass.set(14, 100.0);
        cells.element_idx.set(8, 4);
        cells.mass.set(8, 500.0);

        cells.element_idx.set(7, 4);
        cells.mass.set(7, 500.0);
        cells.element_idx.set(9, 4);
        cells.mass.set(9, 500.0);
        let updated = &sd.updated_cells;
        updated.element_idx.set(14, 1);
        updated.mass.set(14, 100.0);
        updated.element_idx.set(8, 4);
        updated.mass.set(8, 500.0);
        updated.element_idx.set(7, 4);
        updated.mass.set(7, 500.0);
        updated.element_idx.set(9, 4);
        updated.mass.set(9, 500.0);
    }
    update_liquid(&sd, 14);
    {
        let updated = &sd.updated_cells;
        assert_eq!(updated.element_idx.get(13), 1);
        assert_eq!(updated.element_idx.get(15), 1);
        assert!((updated.mass.get(13) - 25.0).abs() < 1e-3);
        assert!((updated.mass.get(15) - 18.75).abs() < 1e-3);
        assert!((updated.mass.get(14) - 56.25).abs() < 1e-3);
        let flow = sd.flow.to_vec();
        assert!((flow[14].x - 25.0).abs() < 1e-3);
        assert!((flow[14].y - 18.75).abs() < 1e-3);
    }
}

#[test]
fn update_liquid_horizontal_flow_threshold() {
    let tables = &Tables::default();
    create_displace_table(tables);
    let sd = SimData::new_for_allocate(tables, 6, 5, 1, true, false);
    {
        let cells = &sd.cells;
        cells.element_idx.set(14, 1);
        cells.mass.set(14, 100.0);
        cells.element_idx.set(8, 4);
        cells.element_idx.set(13, 1);
        cells.mass.set(13, 99.0);

        cells.element_idx.set(7, 4);
        cells.mass.set(7, 500.0);
        let updated = &sd.updated_cells;
        updated.element_idx.set(14, 1);
        updated.mass.set(14, 100.0);
        updated.element_idx.set(8, 4);
        updated.element_idx.set(13, 1);
        updated.mass.set(13, 99.0);
        updated.element_idx.set(7, 4);
        updated.mass.set(7, 500.0);
    }

    update_liquid(&sd, 14);
    {
        let updated = &sd.updated_cells;
        assert!((updated.mass.get(13) - 99.25).abs() < 1e-3);
    }
}

fn create_production_like_liquid_table(tables: &Tables) {
    let mut w = Vec::new();
    for elem in [
        Element::default(),
        {
            let mut e = Element::default();
            e.id = 1;
            e.state = 2;
            e.number_of_gradient_colors = 1;
            e.flow = 0.0;
            e.viscosity = 125.0;
            e.max_mass = 1000.0;
            e.min_horizontal_flow = 0.01;
            e.min_vertical_flow = 0.01;
            e.low_temp = 272.5;
            e.high_temp = 372.5;
            e
        },
        {
            let mut e = Element::default();
            e.id = 4;
            e.state = 3;
            e.number_of_gradient_colors = 1;
            e
        },
    ] {
        w.push(elem);
    }
    tables.create(w);
}

#[test]
fn update_liquid_spreads_with_production_like_viscosity_cap() {
    let tables = &Tables::default();
    create_production_like_liquid_table(tables);
    let sd = SimData::new_for_allocate(tables, 6, 5, 1, true, false);
    {
        let cells = &sd.cells;
        cells.element_idx.set(14, 1);
        cells.mass.set(14, 100.0);
        cells.temperature.set(14, 300.0);
        cells.element_idx.set(8, 2);
        cells.mass.set(8, 500.0);
        cells.element_idx.set(15, 2);
        cells.mass.set(15, 500.0);

        cells.element_idx.set(7, 2);
        cells.mass.set(7, 500.0);
        let updated = &sd.updated_cells;
        updated.element_idx.set(14, 1);
        updated.mass.set(14, 100.0);
        updated.element_idx.set(8, 2);
        updated.mass.set(8, 500.0);
        updated.element_idx.set(15, 2);
        updated.mass.set(15, 500.0);
        updated.element_idx.set(7, 2);
        updated.mass.set(7, 500.0);
    }
    update_liquid(&sd, 14);
    {
        let updated = &sd.updated_cells;
        assert_eq!(updated.element_idx.get(13), 1);
        assert!((updated.mass.get(13) - 25.0).abs() < 1e-3);
        assert!((updated.mass.get(14) - 75.0).abs() < 1e-3);
        let flow = sd.flow.to_vec();
        assert!((flow[14].x - 25.0).abs() < 1e-3);
    }
}

#[test]
fn update_liquid_spawns_droplet_at_left_ledge() {
    let tables = &Tables::default();
    create_displace_table(tables);
    let sd = SimData::new_for_allocate(tables, 6, 5, 1, true, false);
    {
        let cells = &sd.cells;
        cells.element_idx.set(14, 1);
        cells.mass.set(14, 100.0);
        cells.temperature.set(14, 300.0);
        cells.element_idx.set(8, 4);
        cells.mass.set(8, 500.0);
        cells.element_idx.set(15, 4);
        cells.mass.set(15, 500.0);

        let updated = &sd.updated_cells;
        updated.element_idx.set(14, 1);
        updated.mass.set(14, 100.0);
        updated.element_idx.set(8, 4);
        updated.mass.set(8, 500.0);
        updated.element_idx.set(15, 4);
        updated.mass.set(15, 500.0);
    }
    update_liquid(&sd, 14);
    {
        let updated = &sd.updated_cells;
        assert_eq!(updated.element_idx.get(13), 0);
        assert_eq!(updated.mass.get(13), 0.0);
        assert!((updated.mass.get(14) - 75.0).abs() < 1e-3);
        let events = &sd.sim_events;
        let drop = events
            .spawn_liquid_info
            .iter()
            .find(|e| e.cell_idx == 4);
        assert!(drop.is_some());
        assert!((drop.unwrap().mass - 25.0).abs() < 1e-3);
        assert_eq!(drop.unwrap().element_idx, 1);
        let flow = sd.flow.to_vec();
        assert!((flow[14].x - 25.0).abs() < 1e-3);
    }
}

#[test]
fn update_liquid_spawns_droplet_at_right_ledge() {
    let tables = &Tables::default();
    create_displace_table(tables);
    let sd = SimData::new_for_allocate(tables, 6, 5, 1, true, false);
    {
        let cells = &sd.cells;
        cells.element_idx.set(14, 1);
        cells.mass.set(14, 100.0);
        cells.temperature.set(14, 300.0);
        cells.element_idx.set(8, 4);
        cells.mass.set(8, 500.0);
        cells.element_idx.set(13, 2);
        cells.mass.set(13, 0.0);
        let updated = &sd.updated_cells;
        updated.element_idx.set(14, 1);
        updated.mass.set(14, 100.0);
        updated.element_idx.set(8, 4);
        updated.mass.set(8, 500.0);
        updated.element_idx.set(13, 2);
        updated.mass.set(13, 0.0);
    }
    update_liquid(&sd, 14);
    {
        let updated = &sd.updated_cells;
        assert_eq!(updated.element_idx.get(15), 0);
        assert!((updated.mass.get(14) - 75.0).abs() < 1e-3);
        let events = &sd.sim_events;
        let drop = events
            .spawn_liquid_info
            .iter()
            .find(|e| e.cell_idx == 6);
        assert!(drop.is_some());
        assert!((drop.unwrap().mass - 25.0).abs() < 1e-3);
        let flow = sd.flow.to_vec();
        assert!((flow[14].y - 25.0).abs() < 1e-3);
    }
}

#[test]
fn update_liquid_invisible_ledge_falls_back_to_cell_transfer() {
    let tables = &Tables::default();
    create_displace_table(tables);
    let mut sd = SimData::new_for_allocate(tables, 6, 5, 1, true, false);
    {
        sd.visible_grid = vec![0; 12];
        let cells = &sd.cells;
        cells.element_idx.set(14, 1);
        cells.mass.set(14, 100.0);
        cells.temperature.set(14, 300.0);
        cells.element_idx.set(8, 4);
        cells.mass.set(8, 500.0);
        cells.element_idx.set(15, 4);
        cells.mass.set(15, 500.0);
        let updated = &sd.updated_cells;
        updated.element_idx.set(14, 1);
        updated.mass.set(14, 100.0);
        updated.element_idx.set(8, 4);
        updated.mass.set(8, 500.0);
        updated.element_idx.set(15, 4);
        updated.mass.set(15, 500.0);
    }
    update_liquid(&sd, 14);
    {
        let updated = &sd.updated_cells;
        assert_eq!(updated.element_idx.get(13), 1);
        assert!((updated.mass.get(13) - 25.0).abs() < 1e-3);
        let events = &sd.sim_events;
        assert_eq!(events.spawn_liquid_info.len(), 0);
    }
}

#[test]
fn add_liquid_merges_into_same_element() {
    let tables = &Tables::default();
    create_displace_table(tables);
    let mut sd = SimData::new_for_allocate(tables, 6, 5, 1, true, false);
    sd.vacuum_element_idx = 0;
    {
        for buf in [&sd.cells, &sd.updated_cells] {
            buf.element_idx.set(14, 1);
            buf.mass.set(14, 100.0);
            buf.temperature.set(14, 300.0);
        }
    }
    add_liquid(&sd, 14, 1, 25.0, 300.0, 0xFF, 0);
    {
        let updated = &sd.updated_cells;
        assert_eq!(updated.element_idx.get(14), 1);
        assert!((updated.mass.get(14) - 125.0).abs() < 1e-3);
        assert!((updated.temperature.get(14) - 300.0).abs() < 1e-3);
    }
}

#[test]
fn add_liquid_places_into_vacuum() {
    let tables = &Tables::default();
    create_displace_table(tables);
    let mut sd = SimData::new_for_allocate(tables, 6, 5, 1, true, false);
    sd.vacuum_element_idx = 0;

    add_liquid(&sd, 14, 1, 25.0, 300.0, 0xFF, 0);
    {
        let updated = &sd.updated_cells;
        assert_eq!(updated.element_idx.get(14), 1);
        assert!((updated.mass.get(14) - 25.0).abs() < 1e-3);
        let events = &sd.sim_events;
        assert_eq!(events.substance_change_info.len(), 1);
    }
}

#[test]
fn add_liquid_displaces_different_liquid() {
    let tables = &Tables::default();
    create_displace_table(tables);
    let mut sd = SimData::new_for_allocate(tables, 6, 5, 1, true, false);
    sd.vacuum_element_idx = 0;
    {
        for buf in [&sd.cells, &sd.updated_cells] {
            buf.element_idx.set(14, 2);
            buf.mass.set(14, 50.0);
            buf.temperature.set(14, 280.0);
        }
    }
    add_liquid(&sd, 14, 1, 25.0, 300.0, 0xFF, 0);
    {
        let updated = &sd.updated_cells;
        assert_eq!(updated.element_idx.get(14), 1);
        assert!((updated.mass.get(14) - 25.0).abs() < 1e-3);

        let mut displaced = 0.0f32;
        for c in [13usize, 15, 8, 20] {
            displaced += updated.mass.get(c);
        }
        assert!((displaced - 50.0).abs() < 1e-2);
    }
}

#[test]
fn add_gas_preserves_liquid_when_displace_fails_and_places_in_neighbor() {
    let tables = &Tables::default();
    create_displace_table(tables);
    let mut sd = SimData::new_for_allocate(tables, 6, 5, 1, true, false);
    sd.vacuum_element_idx = 0;
    {
        for buf in [&sd.cells, &sd.updated_cells] {
            buf.element_idx.set(14, 1);
            buf.mass.set(14, 1000.0);
            buf.temperature.set(14, 300.0);
        }

        for c in [8usize, 13, 15, 20] {
            let u = &sd.updated_cells;
            u.properties.set(c, 6);
        }
    }
    add_gas(&sd, 14, 3, 1.0, 300.0, 0xFF, 0);
    {
        let updated = &sd.updated_cells;
        assert_eq!(updated.element_idx.get(14), 1);
        assert!((updated.mass.get(14) - 1000.0).abs() < 1e-3);
        assert_eq!(updated.element_idx.get(13), 3);
        assert!((updated.mass.get(13) - 1.0).abs() < 1e-3);
    }
}

#[test]
fn add_gas_hetero_against_occupied_neighbors_subtracts_liquid_mass() {
    let tables = &Tables::default();
    create_displace_table(tables);
    let mut sd = SimData::new_for_allocate(tables, 6, 5, 1, true, false);
    sd.vacuum_element_idx = 0;
    {
        for buf in [&sd.cells, &sd.updated_cells] {
            buf.element_idx.set(14, 1);
            buf.mass.set(14, 1000.0);
            buf.temperature.set(14, 300.0);
        }

        for c in 0..30 {
            if c == 14 {
                continue;
            }
            let u = &sd.updated_cells;
            u.element_idx.set(c, 4);
            u.mass.set(c, 100.0);
            u.temperature.set(c, 300.0);
            u.properties.set(c, 6);
        }

        for c in [8usize, 13, 15] {
            let u = &sd.updated_cells;
            u.element_idx.set(c, 5);
            u.mass.set(c, 1.0);
            u.temperature.set(c, 300.0);
            u.properties.set(c, 6);
        }
    }

    add_gas(&sd, 14, 3, 1.0, 300.0, 0xFF, 0);
    {
        let updated = &sd.updated_cells;
        assert_eq!(updated.element_idx.get(14), 1);
        assert!((updated.mass.get(14) - 999.0).abs() < 1e-3);
    }
}

#[test]
fn add_gas_fallback_prefers_left_same_element_over_right_vacuum() {
    let tables = &Tables::default();
    create_displace_table(tables);
    let mut sd = SimData::new_for_allocate(tables, 6, 5, 1, true, false);
    sd.vacuum_element_idx = 0;
    {
        for buf in [&sd.cells, &sd.updated_cells] {
            buf.element_idx.set(14, 1);
            buf.mass.set(14, 1000.0);
            buf.temperature.set(14, 300.0);
        }

        for c in 0..30 {
            if c == 14 {
                continue;
            }
            let u = &sd.updated_cells;
            u.element_idx.set(c, 4);
            u.mass.set(c, 100.0);
            u.temperature.set(c, 300.0);
            u.properties.set(c, 6);
        }
        let u = &sd.updated_cells;
        u.element_idx.set(13, 3);
        u.mass.set(13, 1.0);
        u.temperature.set(13, 300.0);
        u.element_idx.set(15, 0);
        u.mass.set(15, 0.0);
        u.properties.set(15, 6);
    }
    add_gas(&sd, 14, 3, 1.0, 300.0, 0xFF, 0);
    {
        let updated = &sd.updated_cells;
        assert_eq!(updated.element_idx.get(14), 1);
        assert!((updated.mass.get(13) - 2.0).abs() < 1e-3);
        assert_eq!(updated.element_idx.get(15), 0);
        assert!((updated.mass.get(15) - 0.0).abs() < 1e-6);
    }
}

#[test]
fn add_liquid_writes_into_target_after_successful_displacement() {
    let tables = &Tables::default();
    create_displace_table(tables);
    let mut sd = SimData::new_for_allocate(tables, 6, 5, 1, true, false);
    sd.vacuum_element_idx = 0;
    {
        for buf in [&sd.cells, &sd.updated_cells] {
            buf.element_idx.set(14, 2);
            buf.mass.set(14, 50.0);
            buf.temperature.set(14, 280.0);
        }
        let u = &sd.updated_cells;
        u.element_idx.set(15, 0);
        u.element_idx.set(13, 4);
        u.mass.set(13, 100.0);
        u.element_idx.set(20, 4);
        u.mass.set(20, 100.0);
        u.element_idx.set(8, 1);
        u.mass.set(8, 10.0);
        u.temperature.set(8, 300.0);
    }
    add_liquid(&sd, 14, 1, 25.0, 300.0, 0xFF, 0);
    {
        let updated = &sd.updated_cells;
        assert_eq!(updated.element_idx.get(14), 1);
        assert!((updated.mass.get(14) - 25.0).abs() < 1e-3);
        assert_eq!(updated.element_idx.get(15), 2);
        assert!((updated.mass.get(15) - 50.0).abs() < 1e-2);
        assert!((updated.mass.get(8) - 10.0).abs() < 1e-3);
    }
}

#[test]
fn add_liquid_gas_swap_uses_cell_above() {
    let tables = &Tables::default();
    create_displace_table(tables);
    let mut sd = SimData::new_for_allocate(tables, 6, 5, 1, true, false);
    sd.vacuum_element_idx = 0;
    {
        for buf in [&sd.cells, &sd.updated_cells] {
            buf.element_idx.set(14, 3);
            buf.mass.set(14, 1.0);
            buf.temperature.set(14, 300.0);
        }
        let u = &sd.updated_cells;
        u.element_idx.set(20, 1);
        u.mass.set(20, 50.0);
        u.temperature.set(20, 300.0);
        u.element_idx.set(8, 2);
        u.mass.set(8, 50.0);
        u.temperature.set(8, 300.0);
        u.element_idx.set(13, 4);
        u.mass.set(13, 100.0);
        u.element_idx.set(15, 4);
        u.mass.set(15, 100.0);
        for c in [7usize, 9, 12, 16, 19, 21] {
            u.element_idx.set(c, 4);
            u.mass.set(c, 100.0);
        }
    }
    add_liquid(&sd, 14, 2, 25.0, 300.0, 0xFF, 0);
    {
        let updated = &sd.updated_cells;
        assert_eq!(updated.element_idx.get(14), 1);
        assert!((updated.mass.get(14) - 50.0).abs() < 1e-3);
        assert_eq!(updated.element_idx.get(20), 3);
        assert!((updated.mass.get(20) - 1.0).abs() < 1e-3);
        assert_eq!(updated.element_idx.get(8), 2);
        assert!((updated.mass.get(8) - 75.0).abs() < 1e-3);
    }
}

#[test]
fn add_solid_vertical_displacement_fills_above_and_places_down() {
    let tables = &Tables::default();
    create_state_table(tables);
    {
        let mut table = tables.edit();
        table.post_process_data[2].max_mass = 1000.0;
    }
    let mut sd = SimData::new_for_allocate(tables, 6, 6, 1, false, false);
    sd.vacuum_element_idx = 0;
    {
        let u = &sd.updated_cells;
        u.element_idx.set(8, 2);
        u.mass.set(8, 900.0);
        u.temperature.set(8, 300.0);
        u.element_idx.set(14, 0);
        u.mass.set(14, 0.1);
        u.temperature.set(14, 300.0);
        u.element_idx.set(20, 0);
        u.mass.set(20, 0.1);
        u.temperature.set(20, 300.0);
    }
    add_solid(&sd, 14, 2, 150.0, 400.0, 0xFF, 0, 0);
    {
        let u = &sd.updated_cells;
        assert!((u.mass.get(8) - 1000.0).abs() < 1e-3);
        assert_eq!(u.element_idx.get(14), 2);
        assert!((u.mass.get(14) - 50.0).abs() < 1e-3);
    }
}

#[test]
fn add_solid_vertical_displacement_skips_solid_and_displaces_gas() {
    let tables = &Tables::default();

    let mut w = Vec::new();
    for (id, state) in [(0i32, 1u8), (1i32, 2u8), (2i32, 3u8), (3i32, 3u8)] {
        let mut e = Element::default();
        e.id = id;
        e.state = state;
        e.max_mass = 1000.0;
        e.number_of_gradient_colors = 1;
        w.push(e);
    }
    tables.create(w);
    let mut sd = SimData::new_for_allocate(tables, 6, 6, 1, false, false);
    sd.vacuum_element_idx = 0;
    {
        let u = &sd.updated_cells;
        u.element_idx.set(8, 2);
        u.mass.set(8, 900.0);
        u.temperature.set(8, 300.0);
        u.element_idx.set(14, 3);
        u.mass.set(14, 100.0);
        u.temperature.set(14, 300.0);
        u.element_idx.set(20, 0);
        u.mass.set(20, 0.5);
        u.temperature.set(20, 300.0);
    }
    add_solid(&sd, 14, 2, 150.0, 400.0, 0xFF, 0, 0);
    {
        let u = &sd.updated_cells;
        assert!((u.mass.get(8) - 1000.0).abs() < 1e-3);
        assert_eq!(u.element_idx.get(20), 2);
        assert!((u.mass.get(20) - 50.0).abs() < 1e-3);
    }
}

#[test]
fn add_solid_only_same_element_solid_noop_and_merge() {
    let tables = &Tables::default();
    create_state_table(tables);
    let mut sd = SimData::new_for_allocate(tables, 6, 6, 1, false, false);
    sd.vacuum_element_idx = 0;
    {
        let u = &sd.updated_cells;
        u.element_idx.set(14, 2);
        u.mass.set(14, 100.0);
        u.temperature.set(14, 300.0);
    }

    add_solid(&sd, 14, 0, 50.0, 400.0, 0xFF, 0, 1);
    {
        let u = &sd.updated_cells;
        assert_eq!(u.element_idx.get(14), 2);
        assert!((u.mass.get(14) - 100.0).abs() < 1e-3);
    }

    add_solid(&sd, 14, 2, 50.0, 400.0, 0xFF, 0, 1);
    {
        let u = &sd.updated_cells;
        assert!((u.mass.get(14) - 150.0).abs() < 1e-3);
    }
}

#[test]
fn add_solid_other_type_is_noop() {
    let tables = &Tables::default();
    create_state_table(tables);
    let mut sd = SimData::new_for_allocate(tables, 6, 6, 1, false, false);
    sd.vacuum_element_idx = 0;
    {
        let u = &sd.updated_cells;
        u.element_idx.set(14, 0);
        u.mass.set(14, 0.1);
        u.temperature.set(14, 300.0);
    }
    add_solid(&sd, 14, 2, 50.0, 400.0, 0xFF, 0, 9);
    {
        let u = &sd.updated_cells;
        assert_eq!(u.element_idx.get(14), 0);
    }
}

#[test]
fn post_process_overpressure_releases_through_open_direction() {
    let tables = &Tables::default();
    create_displace_table(tables);
    let mut sd = SimData::new_for_allocate(tables, 6, 5, 1, true, false);
    sd.vacuum_element_idx = 0;
    {
        for buf in [&sd.cells, &sd.updated_cells] {
            buf.element_idx.set(14, 1);
            buf.mass.set(14, 2000.0);
            buf.temperature.set(14, 300.0);
            buf.element_idx.set(20, 1);
            buf.mass.set(20, 100.0);
            buf.temperature.set(20, 300.0);
        }
    }
    post_process_cell(&sd, 14);
    {
        let updated = &sd.updated_cells;

        let expect_dump = 2025.0 * 0.49751243;
        assert!((updated.mass.get(14) - (2025.0 - expect_dump)).abs() < 1.0);
        assert!((updated.mass.get(20) - expect_dump).abs() < 1.0);
        assert_eq!(updated.element_idx.get(20), 1);
    }
}

#[test]
fn post_process_overpressure_open_direction_falls_through_to_dump() {
    let tables = &Tables::default();
    create_displace_table(tables);
    let mut sd = SimData::new_for_allocate(tables, 6, 5, 1, true, false);
    sd.vacuum_element_idx = 0;
    {
        for buf in [&sd.cells, &sd.updated_cells] {
            buf.element_idx.set(14, 1);
            buf.mass.set(14, 2000.0);
            buf.temperature.set(14, 300.0);

            buf.element_idx.set(20, 1);
            buf.mass.set(20, 1100.0);
            buf.temperature.set(20, 300.0);
        }
    }
    post_process_cell(&sd, 14);
    {
        let updated = &sd.updated_cells;

        let expect_dump = 2275.0 * 0.49751243;
        assert!((updated.mass.get(20) - expect_dump).abs() < 1.0);
        assert_eq!(updated.element_idx.get(20), 1);
        assert!((updated.mass.get(14) - (2275.0 - expect_dump)).abs() < 1.0);
        assert!((updated.temperature.get(20) - 300.0).abs() < 1e-3);
        let events = &sd.sim_events;
        assert_eq!(events.world_damage_info.len(), 0);
    }
}

#[test]
fn post_process_overpressure_dumps_down_when_all_blocked() {
    let tables = &Tables::default();
    create_displace_table(tables);
    let mut sd = SimData::new_for_allocate(tables, 6, 5, 1, true, false);
    sd.vacuum_element_idx = 0;
    {
        for buf in [&sd.cells, &sd.updated_cells] {
            buf.element_idx.set(14, 1);
            buf.mass.set(14, 2000.0);
            buf.temperature.set(14, 300.0);

            buf.element_idx.set(20, 1);
            buf.mass.set(20, 1100.0);
            buf.temperature.set(20, 300.0);

            buf.element_idx.set(8, 4);
            buf.mass.set(8, 500.0);
            buf.element_idx.set(2, 4);
            buf.mass.set(2, 500.0);

            for c in [13usize, 12, 11, 15, 16, 17] {
                buf.element_idx.set(c, 4);
                buf.mass.set(c, 500.0);
            }
        }
    }
    post_process_cell(&sd, 14);
    {
        let updated = &sd.updated_cells;

        let expect_dump = 2275.0 * 0.49751243;
        assert!((updated.mass.get(20) - expect_dump).abs() < 1.0);
        assert_eq!(updated.element_idx.get(20), 1);
        assert!((updated.mass.get(14) - (2275.0 - expect_dump)).abs() < 1.0);

        let mut displaced = 0.0f32;
        for c in [19usize, 21, 26] {
            displaced += updated.mass.get(c);
        }
        assert!((displaced - 275.0 * 3.0).abs() < 1.0);
    }
}

#[test]
fn post_process_overpressure_skips_dump_when_below_nearly_full() {
    let tables = &Tables::default();
    create_displace_table(tables);
    let mut sd = SimData::new_for_allocate(tables, 6, 5, 1, true, false);
    sd.vacuum_element_idx = 0;
    {
        for buf in [&sd.cells, &sd.updated_cells] {
            buf.element_idx.set(14, 1);
            buf.mass.set(14, 2000.0);
            buf.temperature.set(14, 300.0);

            buf.element_idx.set(20, 1);
            buf.mass.set(20, 1990.0);
            buf.temperature.set(20, 300.0);
            for c in [8usize, 2, 13, 12, 11, 15, 16, 17] {
                buf.element_idx.set(c, 4);
                buf.mass.set(c, 500.0);
            }
        }
    }
    post_process_cell(&sd, 14);
    {
        let updated = &sd.updated_cells;
        assert!((updated.mass.get(14) - 2000.0).abs() < 1e-3);
        assert!((updated.mass.get(20) - 1990.0).abs() < 1e-3);
        assert_eq!(updated.element_idx.get(20), 1);
    }
}

#[test]
fn update_liquid_pushes_excess_up() {
    let tables = &Tables::default();
    create_displace_table(tables);
    let mut sd = SimData::new_for_allocate(tables, 6, 5, 1, true, false);
    sd.vacuum_element_idx = 0;
    {
        let cells = &sd.cells;
        let updated = &sd.updated_cells;
        for buf in [cells, updated] {
            buf.element_idx.set(14, 1);
            buf.mass.set(14, 1020.0);
            buf.temperature.set(14, 300.0);
            buf.element_idx.set(20, 1);
            buf.mass.set(20, 1000.0);
            buf.temperature.set(20, 300.0);

            for c in [8usize, 13, 15] {
                buf.element_idx.set(c, 4);
                buf.mass.set(c, 500.0);
            }
        }
    }
    update_liquid(&sd, 14);
    {
        let updated = &sd.updated_cells;
        assert!((updated.mass.get(20) - 1005.0).abs() < 1e-3);
        assert!((updated.mass.get(14) - 1015.0).abs() < 1e-3);
        let flow = sd.flow.to_vec();
        assert!((flow[14].w - 5.0).abs() < 1e-3);
    }
}

#[test]
fn update_liquid_pushes_excess_up_viscosity_capped() {
    let tables = &Tables::default();
    create_displace_table(tables);
    let mut sd = SimData::new_for_allocate(tables, 6, 5, 1, true, false);
    sd.vacuum_element_idx = 0;
    {
        let cells = &sd.cells;
        let updated = &sd.updated_cells;
        for buf in [cells, updated] {
            buf.element_idx.set(14, 1);
            buf.mass.set(14, 2000.0);
            buf.temperature.set(14, 300.0);
            buf.element_idx.set(20, 1);
            buf.mass.set(20, 1000.0);
            buf.temperature.set(20, 300.0);
            for c in [8usize, 13, 15] {
                buf.element_idx.set(c, 4);
                buf.mass.set(c, 500.0);
            }
        }
    }
    update_liquid(&sd, 14);
    {
        let updated = &sd.updated_cells;
        assert!((updated.mass.get(20) - 1050.0).abs() < 1e-3);
        assert!((updated.mass.get(14) - 1950.0).abs() < 1e-3);
    }
}

#[test]
fn update_liquid_does_not_push_when_under_threshold() {
    let tables = &Tables::default();
    create_displace_table(tables);
    let mut sd = SimData::new_for_allocate(tables, 6, 5, 1, true, false);
    sd.vacuum_element_idx = 0;
    {
        let cells = &sd.cells;
        let updated = &sd.updated_cells;
        for buf in [cells, updated] {
            buf.element_idx.set(14, 1);
            buf.mass.set(14, 1000.0);
            buf.temperature.set(14, 300.0);
            buf.element_idx.set(20, 1);
            buf.mass.set(20, 1000.0);
            buf.temperature.set(20, 300.0);
            for c in [8usize, 13, 15] {
                buf.element_idx.set(c, 4);
                buf.mass.set(c, 500.0);
            }
        }
    }
    update_liquid(&sd, 14);
    {
        let updated = &sd.updated_cells;
        assert!((updated.mass.get(20) - 1000.0).abs() < 1e-3);
        assert!((updated.mass.get(14) - 1000.0).abs() < 1e-3);
    }
}

#[test]
fn post_process_evaporates_tiny_liquid() {
    let tables = &Tables::default();
    create_displace_table(tables);
    let mut sd = SimData::new_for_allocate(tables, 6, 5, 1, true, false);
    sd.vacuum_element_idx = 0;
    {
        let updated = &sd.updated_cells;
        updated.element_idx.set(14, 1);
        updated.mass.set(14, 0.005);
        updated.temperature.set(14, 300.0);
        updated.element_idx.set(8, 4);
        updated.mass.set(8, 500.0);
    }
    post_process_cell(&sd, 14);
    {
        let updated = &sd.updated_cells;
        assert_eq!(updated.element_idx.get(14), 0);
        assert_eq!(updated.mass.get(14), 0.0);
        let events = &sd.sim_events;
        assert!(events.substance_change_info.len() >= 1);
    }
}

#[test]
fn post_process_keeps_exact_0_01() {
    let tables = &Tables::default();
    create_displace_table(tables);
    let mut sd = SimData::new_for_allocate(tables, 6, 5, 1, true, false);
    sd.vacuum_element_idx = 0;
    {
        let updated = &sd.updated_cells;
        updated.element_idx.set(14, 1);
        updated.mass.set(14, 0.01);
        updated.temperature.set(14, 300.0);
        updated.element_idx.set(8, 4);
        updated.mass.set(8, 500.0);
    }
    post_process_cell(&sd, 14);
    {
        let updated = &sd.updated_cells;
        assert_eq!(updated.element_idx.get(14), 3);
        assert!((updated.mass.get(14) - 0.01).abs() < 1e-9);
    }
}

#[test]
fn update_liquid_void_below_clears_source_cell() {
    let tables = &Tables::default();
    create_liquid_table(tables);
    let mut sd = SimData::new_for_allocate(tables, 6, 5, 1, true, false);
    sd.vacuum_element_idx = 0;
    sd.void_element_idx = 0;
    {
        let cells = &sd.cells;
        let updated = &sd.updated_cells;
        for buf in [cells, updated] {
            buf.element_idx.set(14, 1);
            buf.mass.set(14, 100.0);
            buf.temperature.set(14, 300.0);
            buf.disease_idx.set(14, 0x05);
            buf.disease_count.set(14, 42);
            buf.element_idx.set(8, 0);
            buf.mass.set(8, 0.0);
        }
    }
    update_liquid(&sd, 14);
    {
        let updated = &sd.updated_cells;
        assert_eq!(updated.element_idx.get(14), sd.vacuum_element_idx);
        assert_eq!(updated.mass.get(14), 0.0);
        assert_eq!(updated.temperature.get(14), 0.0);
        assert_eq!(updated.disease_idx.get(14), 0xFF);
        assert_eq!(updated.disease_count.get(14), 0);
        let events = &sd.sim_events;
        assert_eq!(events.substance_change_info.len(), 1);
        assert_eq!(events.substance_change_info.get(0).cell_idx, 5);
    }
}

#[test]
fn update_pressure_no_panic_on_empty_table() {
    let tables = &Tables::default();
    let sd = SimData::new_for_allocate(tables, 6, 5, 1, true, false);
    {
        let cells = &sd.cells;
        cells.mass.set(14, 2000.0);
        cells.mass.set(15, 100.0);
    }
    let r = update_pressure(&sd, 14, 15);
    assert_eq!(r, 0.0);
}

#[test]
fn update_pressure_balances_neighbor_masses() {
    let tables = &Tables::default();
    create_liquid_table(tables);
    let sd = SimData::new_for_allocate(tables, 6, 5, 1, true, false);
    {
        for buf in [&sd.cells, &sd.updated_cells] {
            buf.element_idx.set(14, 1);
            buf.mass.set(14, 100.0);
            buf.temperature.set(14, 300.0);
            buf.element_idx.set(13, 1);
            buf.mass.set(13, 900.0);
            buf.temperature.set(13, 300.0);
        }
    }
    let r = update_pressure(&sd, 14, 13);
    {
        let updated = &sd.updated_cells;
        assert!((r - (-112.5)).abs() < 1e-3);
        assert!((updated.mass.get(14) - 212.5).abs() < 1e-3);
        assert!((updated.mass.get(13) - 787.5).abs() < 1e-3);

        let events = &sd.sim_events;
        assert_eq!(events.substance_change_info.len(), 0);
    }
}

#[test]
fn update_pressure_fills_vacuum_cell_with_event() {
    let tables = &Tables::default();
    create_liquid_table(tables);
    let mut sd = SimData::new_for_allocate(tables, 6, 5, 1, true, false);
    sd.void_element_idx = 0xFFFF;
    {
        for buf in [&sd.cells, &sd.updated_cells] {
            buf.element_idx.set(13, 1);
            buf.mass.set(13, 900.0);
            buf.temperature.set(13, 300.0);
            buf.element_idx.set(14, 0);
            buf.mass.set(14, 0.0);
            buf.temperature.set(14, 0.0);
        }
    }
    let r = update_pressure(&sd, 13, 14);
    {
        let updated = &sd.updated_cells;
        assert!((r - 112.5).abs() < 1e-3);
        assert!((updated.mass.get(14) - 112.5).abs() < 1e-3);
        assert!((updated.temperature.get(14) - 300.0).abs() < 1e-3);
        assert_eq!(updated.element_idx.get(14), 1);
        assert!((updated.mass.get(13) - 787.5).abs() < 1e-3);
        let events = &sd.sim_events;
        assert_eq!(events.substance_change_info.len(), 1);
        assert_eq!(events.substance_change_info.get(0).cell_idx, 5);
    }
}

#[test]
fn update_pressure_transfers_disease() {
    let tables = &Tables::default();
    create_liquid_table(tables);
    let sd = SimData::new_for_allocate(tables, 6, 5, 1, true, false);
    {
        for buf in [&sd.cells, &sd.updated_cells] {
            buf.element_idx.set(14, 1);
            buf.mass.set(14, 100.0);
            buf.temperature.set(14, 300.0);
            buf.disease_idx.set(14, 0x05);
            buf.disease_count.set(14, 100);
            buf.element_idx.set(13, 1);
            buf.mass.set(13, 900.0);
            buf.temperature.set(13, 300.0);
            buf.disease_idx.set(13, 0x05);
            buf.disease_count.set(13, 1000);
        }
    }
    let r = update_pressure(&sd, 14, 13);
    {
        let updated = &sd.updated_cells;
        assert!((r - (-112.5)).abs() < 1e-3);
        assert_eq!(updated.disease_count.get(13), 875);
        assert_eq!(updated.disease_count.get(14), 225);
        assert_eq!(updated.disease_idx.get(14), 0x05);
        assert_eq!(updated.disease_idx.get(13), 0x05);
    }
}

#[test]
fn update_pressure_clean_replenishment_keeps_disease() {
    let tables = &Tables::default();
    create_liquid_table(tables);
    let sd = SimData::new_for_allocate(tables, 6, 5, 1, true, false);
    {
        for buf in [&sd.cells, &sd.updated_cells] {
            buf.element_idx.set(14, 1);
            buf.mass.set(14, 100.0);
            buf.temperature.set(14, 300.0);
            buf.disease_idx.set(14, 0xff);
            buf.disease_count.set(14, 0);
            buf.element_idx.set(13, 1);
            buf.mass.set(13, 2.0);
            buf.temperature.set(13, 300.0);
            buf.disease_idx.set(13, 0x05);
            buf.disease_count.set(13, 1000);
        }
    }
    let r = update_pressure(&sd, 14, 13);
    {
        let updated = &sd.updated_cells;
        assert!(r > 0.0);
        assert!(updated.mass.get(13) > 2.0);
        assert_eq!(updated.disease_count.get(13), 1000);
        assert_eq!(updated.disease_idx.get(13), 0x05);
    }
}

fn create_pressure_gas_table(tables: &Tables) {
    let mut w = Vec::new();
    let elems = [
        Element::default(),
        {
            let mut e = Element::default();
            e.id = 1;
            e.state = 2;
            e.number_of_gradient_colors = 1;
            e.flow = 50.0;
            e.viscosity = 50.0;
            e.max_mass = 1000.0;
            e.min_vertical_flow = 0.0;
            e.low_temp = 0.0;
            e.high_temp = 10000.0;
            e
        },
        {
            let mut e = Element::default();
            e.id = 2;
            e.state = 1;
            e.number_of_gradient_colors = 1;
            e.flow = 0.12;
            e.molar_mass = 44.0;
            e
        },
    ];
    w.extend_from_slice(&elems);
    tables.create(w);
}

#[test]
fn update_pressure_does_not_transfer_into_heterogeneous_gas() {
    let tables = &Tables::default();
    create_pressure_gas_table(tables);
    let mut sd = SimData::new_for_allocate(tables, 6, 5, 1, true, false);
    sd.vacuum_element_idx = 0;
    {
        for buf in [&sd.cells, &sd.updated_cells] {
            buf.element_idx.set(14, 1);
            buf.mass.set(14, 500.0);
            buf.temperature.set(14, 300.0);
            buf.element_idx.set(13, 2);
            buf.mass.set(13, 0.5);
            buf.temperature.set(13, 300.0);
        }
    }
    let r = update_pressure(&sd, 14, 13);
    {
        let updated = &sd.updated_cells;
        assert_eq!(r, 0.0);
        assert!((updated.mass.get(14) - 500.0).abs() < 1e-4);
        assert!((updated.mass.get(13) - 0.5).abs() < 1e-4);
        assert_eq!(updated.element_idx.get(13), 2);
    }
}

fn create_displace_table(tables: &Tables) {
    let mut w = Vec::new();
    let elems = [
        Element::default(),
        {
            let mut e = Element::default();
            e.id = 1;
            e.state = 2;
            e.number_of_gradient_colors = 1;
            e.molar_mass = 200.0;
            e.flow = 50.0;
            e.viscosity = 50.0;
            e.max_mass = 1000.0;

            e.min_vertical_flow = 0.0;
            e.low_temp = 0.0;
            e.high_temp = 10000.0;

            e.sublimate_index = 3;
            e.sublimate_probability = 1.0;
            e.off_gas_percentage = 0.5;
            e.sublimate_efficiency = 1.0;
            e
        },
        {
            let mut e = Element::default();
            e.id = 2;
            e.state = 2;
            e.number_of_gradient_colors = 1;
            e.molar_mass = 18.0;
            e.max_mass = 1000.0;
            e
        },
        {
            let mut e = Element::default();
            e.id = 3;
            e.state = 1;
            e.number_of_gradient_colors = 1;
            e.molar_mass = 16.0;
            e
        },
        {
            let mut e = Element::default();
            e.id = 4;
            e.state = 3;
            e.number_of_gradient_colors = 1;
            e.molar_mass = 1000.0;
            e
        },
        {
            let mut e = Element::default();
            e.id = 5;
            e.state = 1;
            e.number_of_gradient_colors = 1;
            e.molar_mass = 8.0;
            e
        },
    ];
    w.extend_from_slice(&elems);
    tables.create(w);
}

fn create_sublimate_table(tables: &Tables) {
    let mut w = Vec::new();
    let elems = [
        Element::default(),
        {
            let mut e = Element::default();
            e.id = 1;
            e.state = 3;
            e.number_of_gradient_colors = 1;
            e.sublimate_index = 4;
            e.sublimate_rate = 0.4;
            e.sublimate_efficiency = 0.5;
            e.sublimate_probability = 1.0;
            e.sublimate_fx = 101;
            e
        },
        {
            let mut e = Element::default();
            e.id = 2;
            e.state = 3;
            e.number_of_gradient_colors = 1;
            e.sublimate_index = 5;
            e.sublimate_rate = 0.1;
            e.sublimate_efficiency = 0.2;
            e.sublimate_probability = 1.0;
            e.sublimate_fx = 102;
            e
        },
        {
            let mut e = Element::default();
            e.id = 3;
            e.state = 1;
            e.number_of_gradient_colors = 1;
            e.molar_mass = 16.0;
            e
        },
        {
            let mut e = Element::default();
            e.id = 4;
            e.state = 1;
            e.number_of_gradient_colors = 1;
            e.molar_mass = 44.0;
            e
        },
        {
            let mut e = Element::default();
            e.id = 5;
            e.state = 1;
            e.number_of_gradient_colors = 1;
            e.molar_mass = 28.0;
            e
        },
        {
            let mut e = Element::default();
            e.id = 6;
            e.state = 3;
            e.number_of_gradient_colors = 1;
            e.sublimate_index = 0xffff;
            e
        },
        {
            let mut e = Element::default();
            e.id = 7;
            e.state = 2;
            e.number_of_gradient_colors = 1;
            e.flow = 50.0;
            e.viscosity = 50.0;
            e.max_mass = 1000.0;
            e.min_vertical_flow = 0.0;
            e.low_temp = 0.0;
            e.high_temp = 10000.0;
            e.sublimate_index = 5;
            e.sublimate_probability = 1.0;
            e.off_gas_percentage = 0.5;
            e.sublimate_efficiency = 1.0;
            e.sublimate_fx = 107;
            e
        },
    ];
    w.extend_from_slice(&elems);
    tables.create(w);
}

#[test]
fn post_process_cell_no_panic() {
    let tables = &Tables::default();
    let sd = SimData::new_for_allocate(tables, 6, 5, 1, true, false);
    post_process_cell(&sd, 14);
}

#[test]
fn do_sublimation_skips_when_target_full() {
    let tables = &Tables::default();
    create_sublimate_table(tables);
    let mut sd = SimData::new_for_allocate(tables, 6, 5, 1, true, false);
    sd.vacuum_element_idx = 0;
    {
        for buf in [&sd.cells, &sd.updated_cells] {
            buf.element_idx.set(14, 4);
            buf.mass.set(14, 1.8);
            buf.temperature.set(14, 300.0);
            buf.element_idx.set(20, 1);
            buf.mass.set(20, 100.0);
            buf.temperature.set(20, 300.0);
        }
    }
    let seed_before = sd.random_seed.get();
    do_sublimation(&sd, 14);
    {
        let updated = &sd.updated_cells;
        assert!((updated.mass.get(20) - 100.0).abs() < 1e-4);
    }
    assert_eq!(sd.random_seed.get(), seed_before);
}

#[test]
fn do_sublimation_merges_same_element() {
    let tables = &Tables::default();
    create_sublimate_table(tables);
    let mut sd = SimData::new_for_allocate(tables, 6, 5, 1, true, false);
    sd.vacuum_element_idx = 0;
    {
        for buf in [&sd.cells, &sd.updated_cells] {
            buf.element_idx.set(14, 4);
            buf.mass.set(14, 1.0);
            buf.temperature.set(14, 300.0);
            buf.element_idx.set(20, 1);
            buf.mass.set(20, 100.0);
            buf.temperature.set(20, 250.0);
        }
    }
    do_sublimation(&sd, 14);
    {
        let updated = &sd.updated_cells;
        assert!((updated.mass.get(14) - 1.04).abs() < 1e-4);
        assert!((updated.mass.get(20) - 99.92).abs() < 1e-4);
        assert!((updated.temperature.get(14) - 298.0769).abs() < 1e-3);
        let acc = sd.accumulated_flow.to_vec();
        assert!((acc[20] - 0.08).abs() < 1e-4);
        let events = &sd.sim_events;
        assert_eq!(events.substance_change_info.len(), 0);
        assert_eq!(events.spawn_fx_info.len(), 1);
        let fx = events.spawn_fx_info.get(0);
        assert_eq!(fx.cell_idx, 9);
        assert_eq!(fx.fx_id, 101);
        assert_eq!(fx.rotation, 180.0);
    }
}

#[test]
fn do_sublimation_caps_at_1_8() {
    let tables = &Tables::default();
    create_sublimate_table(tables);
    let mut sd = SimData::new_for_allocate(tables, 6, 5, 1, true, false);
    sd.vacuum_element_idx = 0;
    {
        for buf in [&sd.cells, &sd.updated_cells] {
            buf.element_idx.set(14, 4);
            buf.mass.set(14, 1.79);
            buf.temperature.set(14, 300.0);
            buf.element_idx.set(20, 1);
            buf.mass.set(20, 100.0);
            buf.temperature.set(20, 300.0);
        }
    }
    do_sublimation(&sd, 14);
    {
        let updated = &sd.updated_cells;
        assert!((updated.mass.get(14) - 1.8).abs() < 1e-5);
        assert!((updated.mass.get(20) - 99.98).abs() < 1e-4);
    }
}

#[test]
fn do_sublimation_sets_element_in_vacuum() {
    let tables = &Tables::default();
    create_sublimate_table(tables);
    let mut sd = SimData::new_for_allocate(tables, 6, 5, 1, true, false);
    sd.vacuum_element_idx = 0;
    {
        for buf in [&sd.cells, &sd.updated_cells] {
            buf.element_idx.set(14, 0);
            buf.mass.set(14, 0.0);
            buf.temperature.set(14, 0.0);
            buf.element_idx.set(20, 1);
            buf.mass.set(20, 100.0);
            buf.temperature.set(20, 250.0);
        }
    }
    do_sublimation(&sd, 14);
    {
        let updated = &sd.updated_cells;
        assert_eq!(updated.element_idx.get(14), 4);
        assert!((updated.mass.get(14) - 0.04).abs() < 1e-5);
        assert!((updated.temperature.get(14) - 250.0).abs() < 1e-4);
        let events = &sd.sim_events;
        assert_eq!(events.substance_change_info.len(), 1);
        assert_eq!(events.substance_change_info.get(0).cell_idx, 5);
    }
}

#[test]
fn do_sublimation_transfers_disease_proportionally() {
    let tables = &Tables::default();
    create_sublimate_table(tables);
    let mut sd = SimData::new_for_allocate(tables, 6, 5, 1, true, false);
    sd.vacuum_element_idx = 0;
    {
        for buf in [&sd.cells, &sd.updated_cells] {
            buf.element_idx.set(14, 0);
            buf.mass.set(14, 0.0);
            buf.temperature.set(14, 0.0);
            buf.element_idx.set(20, 1);
            buf.mass.set(20, 0.5);
            buf.temperature.set(20, 250.0);
            buf.disease_idx.set(20, 3);
            buf.disease_count.set(20, 100);
        }
    }
    do_sublimation(&sd, 14);
    {
        let updated = &sd.updated_cells;
        assert!((updated.mass.get(20) - 0.42).abs() < 1e-5);
        assert_eq!(updated.disease_count.get(20), 84);
        assert_eq!(updated.disease_idx.get(14), 3);
        assert_eq!(updated.disease_count.get(14), 16);
    }
}

#[test]
fn do_sublimation_displaces_heterogeneous_gas() {
    let tables = &Tables::default();
    create_sublimate_table(tables);
    let mut sd = SimData::new_for_allocate(tables, 6, 5, 1, true, false);
    sd.vacuum_element_idx = 0;
    sd.tick_count.set(0);
    {
        for buf in [&sd.cells, &sd.updated_cells] {
            buf.element_idx.set(14, 3);
            buf.mass.set(14, 0.5);
            buf.temperature.set(14, 300.0);
            buf.element_idx.set(20, 1);
            buf.mass.set(20, 100.0);
            buf.temperature.set(20, 250.0);
            buf.element_idx.set(13, 0);
            buf.mass.set(13, 0.0);
        }
    }
    do_sublimation(&sd, 14);
    {
        let updated = &sd.updated_cells;
        assert_eq!(updated.element_idx.get(13), 3);
        assert!((updated.mass.get(13) - 0.5).abs() < 1e-4);
        assert_eq!(updated.element_idx.get(14), 4);
        assert!((updated.mass.get(14) - 0.04).abs() < 1e-5);
        assert!((updated.temperature.get(14) - 250.0).abs() < 1e-4);
        assert!((updated.mass.get(20) - 99.92).abs() < 1e-4);
    }
}

#[test]
fn do_sublimation_skips_when_displace_fails_and_no_prior_success() {
    let tables = &Tables::default();
    create_sublimate_table(tables);
    let mut sd = SimData::new_for_allocate(tables, 6, 5, 1, true, false);
    sd.vacuum_element_idx = 0;
    {
        for buf in [&sd.cells, &sd.updated_cells] {
            buf.element_idx.set(14, 3);
            buf.mass.set(14, 0.5);
            buf.temperature.set(14, 300.0);
            buf.element_idx.set(20, 1);
            buf.mass.set(20, 100.0);
            buf.temperature.set(20, 300.0);
            for nb in [15usize, 13, 8] {
                buf.element_idx.set(nb, 6);
                buf.mass.set(nb, 500.0);
                buf.temperature.set(nb, 300.0);
            }
        }
    }
    let seed_before = sd.random_seed.get();
    do_sublimation(&sd, 14);
    {
        let updated = &sd.updated_cells;
        assert!((updated.mass.get(14) - 0.5).abs() < 1e-4);
        assert!((updated.mass.get(20) - 100.0).abs() < 1e-4);
        let events = &sd.sim_events;
        assert_eq!(events.spawn_fx_info.len(), 0);
    }
    let expected = seed_before.wrapping_mul(0x343fd).wrapping_add(0x269ec3);
    assert_eq!(sd.random_seed.get(), expected);
}

#[test]
fn do_sublimation_quirk_mirrors_mass_loss_after_prior_success() {
    let tables = &Tables::default();
    create_sublimate_table(tables);
    let mut sd = SimData::new_for_allocate(tables, 6, 5, 1, true, false);
    sd.vacuum_element_idx = 0;
    sd.tick_count.set(0);
    {
        for buf in [&sd.cells, &sd.updated_cells] {
            buf.element_idx.set(14, 3);
            buf.mass.set(14, 0.5);
            buf.temperature.set(14, 300.0);
            buf.element_idx.set(20, 1);
            buf.mass.set(20, 100.0);
            buf.temperature.set(20, 300.0);
            buf.element_idx.set(15, 2);
            buf.mass.set(15, 100.0);
            buf.temperature.set(15, 300.0);
            buf.element_idx.set(13, 0);
            buf.mass.set(13, 0.0);
            buf.element_idx.set(8, 6);
            buf.mass.set(8, 500.0);
        }
    }
    do_sublimation(&sd, 14);
    {
        let updated = &sd.updated_cells;
        assert_eq!(updated.element_idx.get(13), 3);
        assert_eq!(updated.element_idx.get(14), 4);
        assert!((updated.mass.get(14) - 0.04).abs() < 1e-5);
        assert!((updated.mass.get(15) - 99.98).abs() < 1e-4);
        let acc = sd.accumulated_flow.to_vec();
        assert!((acc[15] - 0.02).abs() < 1e-5);
        let events = &sd.sim_events;
        assert_eq!(events.spawn_fx_info.len(), 2);
    }
}

#[test]
fn do_sublimation_full_consumption_converts_in_place() {
    let tables = &Tables::default();
    create_sublimate_table(tables);
    let mut sd = SimData::new_for_allocate(tables, 6, 5, 1, true, false);
    sd.vacuum_element_idx = 0;
    {
        for buf in [&sd.cells, &sd.updated_cells] {
            buf.element_idx.set(14, 0);
            buf.mass.set(14, 0.0);
            buf.temperature.set(14, 0.0);
            buf.element_idx.set(20, 1);
            buf.mass.set(20, 0.05);
            buf.temperature.set(20, 250.0);
        }
    }
    do_sublimation(&sd, 14);
    {
        let updated = &sd.updated_cells;
        assert_eq!(updated.element_idx.get(20), 4);
        assert!((updated.mass.get(20) - 0.025).abs() < 1e-5);
        assert_eq!(updated.element_idx.get(14), 0);
        let acc = sd.accumulated_flow.to_vec();
        assert_eq!(acc[20], 0.0);
        let events = &sd.sim_events;
        assert_eq!(events.substance_change_info.len(), 1);
        assert_eq!(events.substance_change_info.get(0).cell_idx, 9);
        let fx = events.spawn_fx_info.get(0);
        assert_eq!(fx.rotation, 0.0);
    }
}

#[test]
fn do_sublimation_uses_entry_snapshot_for_vacuum() {
    let tables = &Tables::default();
    create_sublimate_table(tables);
    let mut sd = SimData::new_for_allocate(tables, 6, 5, 1, true, false);
    sd.vacuum_element_idx = 0;
    {
        for buf in [&sd.cells, &sd.updated_cells] {
            buf.element_idx.set(14, 0);
            buf.mass.set(14, 0.0);
            buf.temperature.set(14, 0.0);
            buf.element_idx.set(20, 1);
            buf.mass.set(20, 100.0);
            buf.temperature.set(20, 300.0);
            buf.element_idx.set(15, 2);
            buf.mass.set(15, 100.0);
            buf.temperature.set(15, 300.0);
            buf.element_idx.set(13, 6);
            buf.mass.set(13, 500.0);
            buf.element_idx.set(8, 6);
            buf.mass.set(8, 500.0);
        }
    }
    do_sublimation(&sd, 14);
    {
        let updated = &sd.updated_cells;
        assert_eq!(updated.element_idx.get(14), 5);
        assert!((updated.mass.get(14) - 0.044).abs() < 1e-5);
        assert!((updated.mass.get(20) - 99.92).abs() < 1e-4);
        assert!((updated.mass.get(15) - 99.98).abs() < 1e-4);
        let events = &sd.sim_events;
        assert_eq!(events.substance_change_info.len(), 2);
        assert_eq!(events.substance_change_info.get(0).cell_idx, 5);
        assert_eq!(events.substance_change_info.get(1).cell_idx, 5);
    }
}

#[test]
fn do_sublimation_consumes_seed_only_for_valid_neighbors() {
    let tables = &Tables::default();
    create_sublimate_table(tables);
    let mut sd = SimData::new_for_allocate(tables, 6, 5, 1, true, false);
    sd.vacuum_element_idx = 0;
    {
        for buf in [&sd.cells, &sd.updated_cells] {
            buf.element_idx.set(14, 0);
            buf.mass.set(14, 0.0);
            for nb in [20usize, 15, 13, 8] {
                buf.element_idx.set(nb, 6);
                buf.mass.set(nb, 500.0);
            }
        }
    }
    let seed_before = sd.random_seed.get();
    do_sublimation(&sd, 14);
    assert_eq!(sd.random_seed.get(), seed_before);
}

#[test]
fn displace_liquid_evenly_splits_to_4_neighbors() {
    let tables = &Tables::default();
    create_displace_table(tables);
    let mut sd = SimData::new_for_allocate(tables, 6, 5, 1, true, false);
    sd.vacuum_element_idx = 0;
    {
        let updated = &sd.updated_cells;

        updated.element_idx.set(14, 1);
        updated.mass.set(14, 100.0);
        updated.temperature.set(14, 300.0);

        for c in [13usize, 15, 8, 20] {
            updated.element_idx.set(c, 0);
            updated.mass.set(c, 0.0);
            updated.temperature.set(c, 0.0);
        }
    }
    let ok = displace_liquid(&sd, 14, 1);
    {
        let updated = &sd.updated_cells;
        assert!(ok);
        for c in [13usize, 15, 8, 20] {
            assert!((updated.mass.get(c) - 25.0).abs() < 1e-3);
            assert_eq!(updated.element_idx.get(c), 1);
        }

        assert_eq!(updated.element_idx.get(14), 0);
        assert_eq!(updated.mass.get(14), 0.0);
        assert_eq!(updated.temperature.get(14), 0.0);
        let events = &sd.sim_events;
        assert_eq!(events.substance_change_info.len(), 5);
        let mut cells: Vec<i32> = events
            .substance_change_info
            .iter()
            .map(|e| e.cell_idx)
            .collect();
        cells.sort();

        assert_eq!(cells, vec![1, 4, 5, 6, 9]);
    }
}

#[test]
fn displace_liquid_splits_to_available_neighbors_only() {
    let tables = &Tables::default();
    create_displace_table(tables);
    let mut sd = SimData::new_for_allocate(tables, 6, 5, 1, true, false);
    sd.vacuum_element_idx = 0;
    {
        let updated = &sd.updated_cells;
        updated.element_idx.set(14, 1);
        updated.mass.set(14, 100.0);
        updated.temperature.set(14, 300.0);
        for c in [15usize, 8, 20] {
            updated.element_idx.set(c, 0);
            updated.mass.set(c, 0.0);
        }

        updated.element_idx.set(13, 0);
        updated.mass.set(13, 0.0);
        updated.properties.set(13, 2);
    }
    let ok = displace_liquid(&sd, 14, 1);
    {
        let updated = &sd.updated_cells;
        assert!(ok);
        for c in [15usize, 8, 20] {
            assert!((updated.mass.get(c) - (100.0 / 3.0)).abs() < 1e-3);
        }
        assert_eq!(updated.mass.get(13), 0.0);
        assert_eq!(updated.element_idx.get(14), 0);
        let events = &sd.sim_events;
        assert_eq!(events.substance_change_info.len(), 4);
    }
}

#[test]
fn displace_gas_moves_all_to_single_direction() {
    let tables = &Tables::default();
    create_displace_table(tables);
    let mut sd = SimData::new_for_allocate(tables, 6, 5, 1, true, false);
    sd.vacuum_element_idx = 0;
    sd.tick_count.set(0);
    {
        let updated = &sd.updated_cells;

        updated.element_idx.set(14, 3);
        updated.mass.set(14, 50.0);
        updated.temperature.set(14, 300.0);

        updated.element_idx.set(20, 0);
        updated.mass.set(20, 0.0);
        updated.temperature.set(20, 0.0);
        for c in [13usize, 15, 8] {
            updated.element_idx.set(c, 0);
            updated.mass.set(c, 0.0);
            updated.properties.set(c, 1);
        }
    }
    let ok = displace_gas(&sd, 14, 3);
    {
        let updated = &sd.updated_cells;
        assert!(ok);
        assert!((updated.mass.get(20) - 50.0).abs() < 1e-3);
        assert_eq!(updated.element_idx.get(20), 3);
        assert!((updated.temperature.get(20) - 300.0).abs() < 1e-3);
        assert_eq!(updated.element_idx.get(14), 0);
        assert_eq!(updated.mass.get(14), 0.0);

        for c in [13usize, 15, 8] {
            assert_eq!(updated.mass.get(c), 0.0);
        }
        let events = &sd.sim_events;
        assert_eq!(events.substance_change_info.len(), 2);

        let mut cells: Vec<i32> = events
            .substance_change_info
            .iter()
            .map(|e| e.cell_idx)
            .collect();
        cells.sort();
        assert_eq!(cells, vec![5, 9]);
    }
}

#[test]
fn update_liquid_displaces_gas_horizontally() {
    let tables = &Tables::default();
    create_displace_table(tables);
    let mut sd = SimData::new_for_allocate(tables, 6, 5, 1, true, false);
    sd.vacuum_element_idx = 0;

    {
        for buf in [&sd.cells, &sd.updated_cells] {
            buf.element_idx.set(14, 1);
            buf.mass.set(14, 100.0);
            buf.temperature.set(14, 300.0);

            buf.element_idx.set(13, 3);
            buf.mass.set(13, 10.0);
            buf.temperature.set(13, 300.0);

            buf.element_idx.set(8, 4);
            buf.mass.set(8, 1000.0);
            buf.temperature.set(8, 300.0);
            buf.element_idx.set(7, 4);
            buf.mass.set(7, 1000.0);
            buf.temperature.set(7, 300.0);

            buf.element_idx.set(12, 0);
            buf.mass.set(12, 0.0);
            buf.temperature.set(12, 0.0);
        }
    }
    update_liquid(&sd, 14);
    {
        let updated = &sd.updated_cells;
        assert_eq!(updated.element_idx.get(13), 1);
        assert!(updated.mass.get(13) > 0.0);
        assert_eq!(updated.element_idx.get(19), 3);
        assert!((updated.mass.get(19) - 10.0).abs() < 1e-3);
        assert!(updated.mass.get(14) < 100.0);
    }
}

#[test]
fn do_density_displacement_swaps_heavy_above_light() {
    let tables = &Tables::default();
    create_displace_table(tables);
    let sd = SimData::new_for_allocate(tables, 6, 5, 1, true, false);
    {
        let updated = &sd.updated_cells;

        updated.element_idx.set(14, 1);
        updated.mass.set(14, 100.0);
        updated.temperature.set(14, 300.0);
        updated.element_idx.set(8, 2);
        updated.mass.set(8, 100.0);
        updated.temperature.set(8, 300.0);
    }
    let swapped = do_density_displacement(&sd, 14, 0.0);
    {
        let updated = &sd.updated_cells;
        assert!(swapped);
        assert_eq!(updated.element_idx.get(14), 2);
        assert_eq!(updated.element_idx.get(8), 1);
        let events = &sd.sim_events;
        assert_eq!(events.substance_change_info.len(), 2);
    }
}

#[test]
fn do_density_displacement_same_element_combines_temperature() {
    let tables = &Tables::default();
    create_displace_table(tables);
    let sd = SimData::new_for_allocate(tables, 6, 5, 1, true, false);
    {
        let updated = &sd.updated_cells;
        updated.element_idx.set(14, 1);
        updated.mass.set(14, 100.0);
        updated.temperature.set(14, 300.0);
        updated.element_idx.set(8, 1);
        updated.mass.set(8, 200.0);
        updated.temperature.set(8, 400.0);
    }
    let swapped = do_density_displacement(&sd, 14, 0.0);
    {
        let updated = &sd.updated_cells;
        assert!(swapped);
        let expected = (100.0 * 300.0 + 200.0 * 400.0) / 300.0;
        assert!((updated.temperature.get(14) - expected).abs() < 1e-3);
        assert!((updated.temperature.get(8) - expected).abs() < 1e-3);
        assert_eq!(updated.element_idx.get(14), 1);
        assert_eq!(updated.element_idx.get(8), 1);
        let events = &sd.sim_events;
        assert_eq!(events.substance_change_info.len(), 0);
    }
}

#[test]
fn post_process_cell_accumulates_flow_on_sublimation_path() {
    let tables = &Tables::default();
    create_displace_table(tables);
    let mut sd = SimData::new_for_allocate(tables, 6, 5, 1, true, false);
    sd.vacuum_element_idx = 0;
    {
        let updated = &sd.updated_cells;
        updated.element_idx.set(14, 1);
        updated.mass.set(14, 100.0);
        updated.temperature.set(14, 300.0);
        updated.element_idx.set(20, 0);
        updated.mass.set(20, 0.0);
        updated.temperature.set(20, 0.0);
        updated.element_idx.set(8, 0);
        updated.mass.set(8, 0.0);
    }
    post_process_cell(&sd, 14);
    {
        let acc = sd.accumulated_flow.to_vec();
        assert!((acc[14] - 1.0).abs() < 1e-3);
    }
}

#[test]
fn post_process_cell_accumulates_scaled_flow_when_below_mass_high() {
    let tables = &Tables::default();
    create_displace_table(tables);
    let mut sd = SimData::new_for_allocate(tables, 6, 5, 1, true, false);
    sd.vacuum_element_idx = 0;
    {
        let updated = &sd.updated_cells;
        updated.element_idx.set(14, 1);
        updated.mass.set(14, 100.0);
        updated.temperature.set(14, 300.0);
        updated.element_idx.set(20, 0);
        updated.mass.set(20, 1.0);
        updated.temperature.set(20, 0.0);
    }
    post_process_cell(&sd, 14);
    {
        let acc = sd.accumulated_flow.to_vec();
        assert!((acc[14] - 0.8).abs() < 1e-3);
    }
}

#[test]
fn post_process_cell_displaces_heterogeneous_gas_below() {
    let tables = &Tables::default();
    create_displace_table(tables);
    let mut sd = SimData::new_for_allocate(tables, 6, 5, 1, true, false);
    sd.vacuum_element_idx = 0;
    sd.tick_count.set(0);
    {
        let updated = &sd.updated_cells;
        updated.element_idx.set(14, 1);
        updated.mass.set(14, 100.0);
        updated.temperature.set(14, 300.0);
        updated.element_idx.set(20, 5);
        updated.mass.set(20, 0.1);
        updated.temperature.set(20, 300.0);
        updated.element_idx.set(8, 0);
        updated.mass.set(8, 0.0);
    }
    post_process_cell(&sd, 14);
    {
        let updated = &sd.updated_cells;
        let acc = sd.accumulated_flow.to_vec();
        assert!((acc[14] - 1.0).abs() < 1e-3);

        assert_eq!(updated.element_idx.get(26), 5);
        assert!((updated.mass.get(26) - 0.1).abs() < 1e-3);
        assert_eq!(updated.element_idx.get(20), 3);
        assert!((updated.mass.get(20) - 1.0).abs() < 1e-3);
        assert!((updated.mass.get(14) - 99.0).abs() < 1e-3);
    }
}

#[test]
fn post_process_cell_recomputes_flow_from_up_cell_mass() {
    let tables = &Tables::default();
    create_displace_table(tables);
    let mut sd = SimData::new_for_allocate(tables, 6, 5, 1, true, false);
    sd.vacuum_element_idx = 0;
    {
        let updated = &sd.updated_cells;
        updated.element_idx.set(14, 1);
        updated.mass.set(14, 0.6);
        updated.temperature.set(14, 300.0);
        updated.element_idx.set(8, 1);
        updated.mass.set(8, 1.0);
        updated.temperature.set(8, 300.0);
        updated.element_idx.set(20, 0);
        updated.mass.set(20, 0.0);
    }
    post_process_cell(&sd, 14);
    {
        let acc = sd.accumulated_flow.to_vec();
        assert!((acc[14] - 0.5).abs() < 1e-3);
    }
}

#[test]
fn post_process_cell_gas_cell_no_corruption() {
    let tables = &Tables::default();
    create_displace_table(tables);
    let mut sd = SimData::new_for_allocate(tables, 6, 5, 1, true, false);
    sd.vacuum_element_idx = 0;
    {
        let updated = &sd.updated_cells;
        updated.element_idx.set(14, 3);
        updated.mass.set(14, 1.0);
        updated.temperature.set(14, 300.0);
        updated.element_idx.set(8, 0);
        updated.mass.set(8, 0.0);
    }
    post_process_cell(&sd, 14);
    {
        let updated = &sd.updated_cells;
        assert_eq!(updated.element_idx.get(14), 3);
        assert!((updated.mass.get(14) - 1.0).abs() < 1e-6);
    }
}

#[test]
fn post_process_cell_gas_with_solid_flag_still_displaces() {
    let tables = &Tables::default();
    create_displace_table(tables);
    let mut sd = SimData::new_for_allocate(tables, 6, 5, 1, true, false);
    sd.vacuum_element_idx = 0;
    sd.tick_count.set(0);
    sd.random_seed.set(9020);
    {
        let updated = &sd.updated_cells;
        updated.element_idx.set(14, 3);
        updated.mass.set(14, 1.0);
        updated.temperature.set(14, 300.0);
        updated.properties.set(14, 2);
        updated.element_idx.set(15, 5);
        updated.mass.set(15, 0.5);
        updated.temperature.set(15, 300.0);
    }
    post_process_cell(&sd, 14);
    {
        let updated = &sd.updated_cells;
        assert_eq!(updated.element_idx.get(14), 5);
        assert_eq!(updated.element_idx.get(15), 3);
        assert!((updated.mass.get(14) - 0.5).abs() < 1e-3);
        assert!((updated.mass.get(15) - 1.0).abs() < 1e-3);
        let events = &sd.sim_events;
        assert_eq!(events.substance_change_info.len(), 2);
    }
}

#[test]
fn update_liquids_hooks_post_process_cell_sublimation_path() {
    let tables = &Tables::default();
    create_displace_table(tables);
    let mut sd = SimData::new_for_allocate(tables, 6, 5, 1, true, false);
    sd.vacuum_element_idx = 0;
    {
        for buf in [&sd.cells, &sd.updated_cells] {
            buf.element_idx.set(14, 1);
            buf.mass.set(14, 100.0);
            buf.temperature.set(14, 300.0);
            buf.element_idx.set(8, 4);
            buf.mass.set(8, 500.0);
            buf.temperature.set(8, 300.0);
            buf.element_idx.set(20, 0);
            buf.mass.set(20, 0.0);
            buf.temperature.set(20, 0.0);
        }
    }
    update_liquids(&sd);
    {
        let acc = sd.accumulated_flow.to_vec();
        assert!((acc[14] - 1.0).abs() < 1e-3);
    }
}

#[test]
fn push_spawn_fx_converts_cell_and_fields() {
    let tables = &Tables::default();
    let sd = SimData::new_for_allocate(tables, 6, 5, 1, true, false);
    {
        let events = &sd.sim_events;
        assert_eq!(events.spawn_fx_info.len(), 0);
    }
    push_spawn_fx(&sd, 14, 101, 180.0);
    push_spawn_fx(&sd, 20, 102, 0.0);
    {
        let events = &sd.sim_events;
        assert_eq!(events.spawn_fx_info.len(), 2);
        let fx0 = events.spawn_fx_info.get(0);
        assert_eq!(fx0.cell_idx, 5);
        assert_eq!(fx0.fx_id, 101);
        assert_eq!(fx0.rotation, 180.0);
        let fx1 = events.spawn_fx_info.get(1);
        assert_eq!(fx1.cell_idx, 9);
        assert_eq!(fx1.fx_id, 102);
        assert_eq!(fx1.rotation, 0.0);
    }
}

#[test]
fn offgas_main_path_emits_into_vacuum() {
    let tables = &Tables::default();
    create_sublimate_table(tables);
    let mut sd = SimData::new_for_allocate(tables, 6, 5, 1, true, false);
    sd.vacuum_element_idx = 0;
    {
        let updated = &sd.updated_cells;
        updated.element_idx.set(14, 7);
        updated.mass.set(14, 100.0);
        updated.temperature.set(14, 300.0);
        updated.disease_idx.set(14, 3);
        updated.disease_count.set(14, 100);
        updated.element_idx.set(20, 0);
        updated.mass.set(20, 0.0);
        updated.temperature.set(20, 0.0);
        updated.disease_idx.set(20, 0xff);
        updated.element_idx.set(8, 0);
        updated.mass.set(8, 0.0);
    }
    post_process_cell(&sd, 14);
    {
        let updated = &sd.updated_cells;
        assert_eq!(updated.element_idx.get(20), 5);
        assert!((updated.mass.get(20) - 1.0).abs() < 1e-4);
        assert!((updated.temperature.get(20) - 300.0).abs() < 1e-4);
        assert_eq!(updated.disease_idx.get(20), 3);
        assert_eq!(updated.disease_count.get(20), 1);
        assert!((updated.mass.get(14) - 99.0).abs() < 1e-4);
        assert_eq!(updated.disease_count.get(14), 99);
        let acc = sd.accumulated_flow.to_vec();
        assert!((acc[14] - 1.0).abs() < 1e-4);
        let events = &sd.sim_events;
        assert_eq!(events.substance_change_info.len(), 1);
        assert_eq!(events.substance_change_info.get(0).cell_idx, 9);
        assert_eq!(events.spawn_fx_info.len(), 1);
        let fx = events.spawn_fx_info.get(0);
        assert_eq!(fx.cell_idx, 5);
        assert_eq!(fx.fx_id, 107);
        assert_eq!(fx.rotation, 0.0);
    }
}

#[test]
fn offgas_main_path_merges_same_gas_and_disease() {
    let tables = &Tables::default();
    create_sublimate_table(tables);
    let mut sd = SimData::new_for_allocate(tables, 6, 5, 1, true, false);
    sd.vacuum_element_idx = 0;
    {
        let updated = &sd.updated_cells;
        updated.element_idx.set(14, 7);
        updated.mass.set(14, 100.0);
        updated.temperature.set(14, 300.0);
        updated.disease_idx.set(14, 3);
        updated.disease_count.set(14, 100);
        updated.element_idx.set(20, 5);
        updated.mass.set(20, 0.5);
        updated.temperature.set(20, 200.0);
        updated.disease_idx.set(20, 3);
        updated.disease_count.set(20, 10);
        updated.element_idx.set(8, 0);
        updated.mass.set(8, 0.0);
    }
    post_process_cell(&sd, 14);
    {
        let updated = &sd.updated_cells;
        assert!((updated.mass.get(20) - 1.5).abs() < 1e-4);
        assert!((updated.temperature.get(20) - 266.667).abs() < 1e-2);
        assert_eq!(updated.disease_count.get(20), 11);
        assert!((updated.mass.get(14) - 99.0).abs() < 1e-4);
        let events = &sd.sim_events;
        assert_eq!(events.substance_change_info.len(), 0);
    }
}

#[test]
fn offgas_main_path_scales_to_room() {
    let tables = &Tables::default();
    create_sublimate_table(tables);
    let mut sd = SimData::new_for_allocate(tables, 6, 5, 1, true, false);
    sd.vacuum_element_idx = 0;
    {
        let updated = &sd.updated_cells;
        updated.element_idx.set(14, 7);
        updated.mass.set(14, 100.0);
        updated.temperature.set(14, 300.0);
        updated.element_idx.set(20, 5);
        updated.mass.set(20, 1.0);
        updated.temperature.set(20, 300.0);
        updated.element_idx.set(8, 0);
        updated.mass.set(8, 0.0);
    }
    post_process_cell(&sd, 14);
    {
        let updated = &sd.updated_cells;
        assert!((updated.mass.get(20) - 1.8).abs() < 1e-4);
        assert!((updated.mass.get(14) - 99.2).abs() < 1e-4);
        let acc = sd.accumulated_flow.to_vec();
        assert!((acc[14] - 0.8).abs() < 1e-4);
    }
}

#[test]
fn offgas_main_path_returns_when_displace_fails() {
    let tables = &Tables::default();
    create_sublimate_table(tables);
    let mut sd = SimData::new_for_allocate(tables, 6, 5, 1, true, false);
    sd.vacuum_element_idx = 0;
    sd.tick_count.set(0);
    {
        let updated = &sd.updated_cells;
        updated.element_idx.set(14, 7);
        updated.mass.set(14, 100.0);
        updated.temperature.set(14, 300.0);
        updated.element_idx.set(20, 3);
        updated.mass.set(20, 0.1);
        updated.temperature.set(20, 300.0);
        updated.element_idx.set(8, 0);
        updated.mass.set(8, 0.0);
        for nb in [26usize, 19, 21] {
            updated.element_idx.set(nb, 6);
            updated.mass.set(nb, 500.0);
        }
    }
    post_process_cell(&sd, 14);
    {
        let updated = &sd.updated_cells;
        assert!((updated.mass.get(14) - 100.0).abs() < 1e-4);
        let acc = sd.accumulated_flow.to_vec();
        assert_eq!(acc[14], 0.0);
        let events = &sd.sim_events;
        assert_eq!(events.spawn_fx_info.len(), 0);
    }
}

#[test]
fn offgas_realistic_dirty_water_emits_500g_from_500kg() {
    let tables = &Tables::default();

    let mut w = Vec::new();
    let elems = [
        Element::default(),
        {
            let mut e = Element::default();
            e.id = 1;
            e.state = 2;
            e.number_of_gradient_colors = 1;
            e.flow = 50.0;
            e.viscosity = 50.0;
            e.max_mass = 1000.0;
            e.min_vertical_flow = 0.0;
            e.low_temp = 0.0;
            e.high_temp = 10000.0;
            e.sublimate_index = 2;
            e.sublimate_probability = 1.0;
            e.off_gas_percentage = 0.001;
            e.sublimate_efficiency = 1.0;
            e.sublimate_fx = 107;
            e
        },
        {
            let mut e = Element::default();
            e.id = 2;
            e.state = 1;
            e.number_of_gradient_colors = 1;
            e.molar_mass = 44.0;
            e
        },
    ];
    w.extend_from_slice(&elems);
    tables.create(w);
    let mut sd = SimData::new_for_allocate(tables, 6, 5, 1, true, false);
    sd.vacuum_element_idx = 0;
    {
        let updated = &sd.updated_cells;
        updated.element_idx.set(14, 1);
        updated.mass.set(14, 500.0);
        updated.temperature.set(14, 300.0);
        updated.element_idx.set(20, 0);
        updated.mass.set(20, 0.0);
        updated.temperature.set(20, 0.0);
        updated.disease_idx.set(20, 0xff);
        updated.element_idx.set(8, 0);
        updated.mass.set(8, 0.0);
    }
    post_process_cell(&sd, 14);
    {
        let updated = &sd.updated_cells;
        assert_eq!(updated.element_idx.get(20), 2);
        assert!((updated.mass.get(20) - 0.5).abs() < 1e-4);
        assert!((updated.mass.get(14) - 499.5).abs() < 1e-4);
    }
}

#[test]
fn offgas_depleted_path_converts_in_place_with_top_up() {
    let tables = &Tables::default();
    create_sublimate_table(tables);
    let mut sd = SimData::new_for_allocate(tables, 6, 5, 1, true, false);
    sd.vacuum_element_idx = 0;
    {
        let updated = &sd.updated_cells;
        updated.element_idx.set(14, 7);
        updated.mass.set(14, 0.015);
        updated.temperature.set(14, 300.0);
        updated.disease_idx.set(14, 3);
        updated.disease_count.set(14, 100);
        updated.element_idx.set(8, 7);
        updated.mass.set(8, 10.0);
        updated.temperature.set(8, 300.0);
        updated.disease_idx.set(8, 0xff);
        updated.element_idx.set(20, 0);
        updated.mass.set(20, 0.0);
        updated.temperature.set(20, 0.0);
    }
    post_process_cell(&sd, 14);
    {
        let updated = &sd.updated_cells;
        assert_eq!(updated.element_idx.get(14), 5);
        assert!((updated.mass.get(14) - 1.0).abs() < 1e-4);
        assert!((updated.mass.get(8) - 9.015).abs() < 1e-4);
        assert_eq!(updated.disease_idx.get(14), 3);
        let acc = sd.accumulated_flow.to_vec();
        assert_eq!(acc[14], 0.0);
        let events = &sd.sim_events;
        assert_eq!(events.spawn_fx_info.len(), 1);
        assert_eq!(events.spawn_fx_info.get(0).cell_idx, 5);
    }
}

#[test]
fn offgas_depleted_path_without_top_up() {
    let tables = &Tables::default();
    create_sublimate_table(tables);
    let mut sd = SimData::new_for_allocate(tables, 6, 5, 1, true, false);
    sd.vacuum_element_idx = 0;
    {
        let updated = &sd.updated_cells;
        updated.element_idx.set(14, 7);
        updated.mass.set(14, 0.015);
        updated.temperature.set(14, 300.0);
        updated.element_idx.set(8, 0);
        updated.mass.set(8, 0.0);
        updated.element_idx.set(20, 0);
        updated.mass.set(20, 0.0);
    }
    post_process_cell(&sd, 14);
    {
        let updated = &sd.updated_cells;
        assert_eq!(updated.element_idx.get(14), 5);
        assert!((updated.mass.get(14) - 0.015).abs() < 1e-5);
        let events = &sd.sim_events;
        assert_eq!(events.spawn_fx_info.len(), 1);
    }
}

fn install_disease_table(tables: &Tables) {
    let mut t = Disease::new();
    t.diseases.push(DiseaseInfo { hash_id: 0xAAAA, strength: 2.0, ..Default::default() });
    t.diseases.push(DiseaseInfo { hash_id: 0xBBBB, strength: 4.0, ..Default::default() });
    t.diseases.push(DiseaseInfo { hash_id: 0xCCCC, strength: 1.0, ..Default::default() });
    tables.install(t);
}

#[test]
fn add_disease_to_cell_same_disease_accumulates() {
    let tables = &Tables::default();
    install_disease_table(tables);
    let sd = SimData::new_for_allocate(tables, 6, 5, 1, true, false);
    {
        let cells = &sd.cells;
        cells.disease_idx.set(0, 0);
        cells.disease_count.set(0, 100);
        cells.disease_infestation_tick_count.set(0, 7);
        add_disease_to_cell(cells, 0, 0, 50);
        assert_eq!(cells.disease_idx.get(0), 0);
        assert_eq!(cells.disease_count.get(0), 150);
        assert_eq!(cells.disease_infestation_tick_count.get(0), 7);
    }
}

#[test]
fn add_disease_to_cell_one_side_invalid_replaces() {
    let tables = &Tables::default();
    let sd = SimData::new_for_allocate(tables, 6, 5, 1, true, false);
    {
        let cells = &sd.cells;
        cells.disease_idx.set(0, 0xff);
        add_disease_to_cell(cells, 0, 1, 42);
        assert_eq!(cells.disease_idx.get(0), 1);
        assert_eq!(cells.disease_count.get(0), 42);
    }
}

#[test]
fn add_disease_to_cell_clean_inflow_keeps_current() {
    let tables = &Tables::default();
    install_disease_table(tables);
    let sd = SimData::new_for_allocate(tables, 6, 5, 1, true, false);
    {
        let cells = &sd.cells;
        cells.disease_idx.set(0, 0);
        cells.disease_count.set(0, 1000);
        cells.disease_infestation_tick_count.set(0, 5);

        add_disease_to_cell(cells, 0, 0xff, 0);
        assert_eq!(cells.disease_idx.get(0), 0);
        assert_eq!(cells.disease_count.get(0), 1000);
        assert_eq!(cells.disease_infestation_tick_count.get(0), 5);
    }
}

#[test]
fn add_disease_to_cell_mixing_keep_current_when_weaker_new() {
    let tables = &Tables::default();
    install_disease_table(tables);
    let sd = SimData::new_for_allocate(tables, 6, 5, 1, true, false);
    {
        let cells = &sd.cells;
        cells.disease_idx.set(0, 0);
        cells.disease_count.set(0, 100);
        add_disease_to_cell(cells, 0, 1, 50);
        assert_eq!(cells.disease_idx.get(0), 0);
        assert_eq!(cells.disease_count.get(0), 100);
    }
}

#[test]
fn add_disease_to_cell_mixing_negative_cur_count_switches() {
    let tables = &Tables::default();
    install_disease_table(tables);
    let sd = SimData::new_for_allocate(tables, 6, 5, 1, true, false);
    {
        let cells = &sd.cells;
        cells.disease_idx.set(0, 0);
        cells.disease_count.set(0, -100);
        add_disease_to_cell(cells, 0, 1, 50);
        assert_eq!(cells.disease_idx.get(0), 1);
        assert_eq!(cells.disease_count.get(0), 100);
    }
}

#[test]
fn add_disease_to_cell_mixing_negative_d_keeps_current() {
    let tables = &Tables::default();
    install_disease_table(tables);
    let sd = SimData::new_for_allocate(tables, 6, 5, 1, true, false);
    {
        let cells = &sd.cells;
        cells.disease_idx.set(0, 0);
        cells.disease_count.set(0, 100);
        add_disease_to_cell(cells, 0, 2, 100);
        assert_eq!(cells.disease_idx.get(0), 0);
        assert_eq!(cells.disease_count.get(0), 100);
    }
}

#[test]
fn add_disease_to_cell_mixing_positive_d_replaces() {
    let tables = &Tables::default();
    install_disease_table(tables);
    let sd = SimData::new_for_allocate(tables, 6, 5, 1, true, false);
    {
        let cells = &sd.cells;
        cells.disease_idx.set(0, 0);
        cells.disease_count.set(0, 100);
        add_disease_to_cell(cells, 0, 2, 150);
        assert_eq!(cells.disease_idx.get(0), 2);
        assert_eq!(cells.disease_count.get(0), 16);
    }
}

#[test]
fn add_disease_to_cell_mixing_changes_idx_resets_infestation() {
    let tables = &Tables::default();
    install_disease_table(tables);
    let sd = SimData::new_for_allocate(tables, 6, 5, 1, true, false);
    {
        let cells = &sd.cells;
        cells.disease_idx.set(0, 0);
        cells.disease_count.set(0, 100);
        cells.disease_infestation_tick_count.set(0, 9);
        add_disease_to_cell(cells, 0, 2, 150);
        assert_eq!(cells.disease_idx.get(0), 2);
        assert_eq!(cells.disease_infestation_tick_count.get(0), 0);
    }
}

#[test]
fn add_disease_to_cell_result_nonpositive_clears() {
    let tables = &Tables::default();
    install_disease_table(tables);
    let sd = SimData::new_for_allocate(tables, 6, 5, 1, true, false);
    {
        let cells = &sd.cells;
        cells.disease_idx.set(0, 0);
        cells.disease_count.set(0, 5);
        cells.disease_infestation_tick_count.set(0, 3);
        cells.disease_growth_accumulated_error.set(0, 1.5);
        add_disease_to_cell(cells, 0, 0, -5);
        assert_eq!(cells.disease_idx.get(0), 0xff);
        assert_eq!(cells.disease_count.get(0), 0);
        assert_eq!(cells.disease_infestation_tick_count.get(0), 0);
        assert_eq!(cells.disease_growth_accumulated_error.get(0), 0.0);
    }
}

#[test]
fn add_disease_to_cell_without_table_keeps_current() {
    let tables = &Tables::default();
    let sd = SimData::new_for_allocate(tables, 6, 5, 1, true, false);
    {
        let cells = &sd.cells;
        cells.disease_idx.set(0, 0);
        cells.disease_count.set(0, 100);
        add_disease_to_cell(cells, 0, 1, 50);
        assert_eq!(cells.disease_idx.get(0), 0);
        assert_eq!(cells.disease_count.get(0), 100);
    }
}

fn create_unstable_table(tables: &Tables) {
    let mut w = Vec::new();
    for (id, state) in [(0i32, 0u8), (1i32, 1u8), (2i32, 0x0bu8)] {
        let mut elem = Element::default();
        elem.id = id;
        elem.state = state;
        elem.number_of_gradient_colors = 1;
        w.push(elem);
    }
    tables.create(w);
}

#[test]
fn stable_ticks_reroll_decrement_and_zero() {
    let tables = &Tables::default();
    let sd = SimData::new_for_allocate(tables, 6, 5, 1, true, false);
    {
        let timers = &sd.timers;

        timers.set(3, 0x1F);
        let v = get_stable_ticks_remaining(&sd, 3);
        assert!((3..=5).contains(&v));
        let stored = timers.get(3) & 0x1f;
        assert_eq!(stored, v);

        timers.set(4, 5);
        assert_eq!(get_stable_ticks_remaining(&sd, 4), 4);
        assert_eq!(timers.get(4) & 0x1f, 4);

        timers.set(5, 0);
        assert_eq!(get_stable_ticks_remaining(&sd, 5), 0);
    }
}

#[test]
fn unstable_check_gas_below_falls_and_pushes_event() {
    let tables = &Tables::default();
    create_unstable_table(tables);
    let mut sd = SimData::new_for_allocate(tables, 6, 5, 1, false, false);
    sd.vacuum_element_idx = 0;
    sd.void_element_idx = 0xFFFF;
    {
        for buf in [&sd.cells, &sd.updated_cells] {
            buf.element_idx.set(19, 2);
            buf.mass.set(19, 100.0);
            buf.temperature.set(19, 300.0);
            buf.disease_idx.set(19, 3);
            buf.disease_count.set(19, 42);
            buf.element_idx.set(13, 1);
            buf.mass.set(13, 1.0);
            buf.temperature.set(13, 300.0);
        }

        let timers = &sd.timers;
        timers.set(19, 0);
    }
    do_unstable_check_basic(&sd, 19);
    {
        let events = &sd.sim_events;
        assert_eq!(events.unstable_cell_info.len(), 1);
        let info = events.unstable_cell_info.get(0);
        assert_eq!(info.elem_idx, 2);
        assert_eq!(info.cell_idx, 8);
        assert_eq!(info.falling_info, 0);
        assert_eq!(info.disease_idx, 3);
        assert!((info.mass - 100.0).abs() < 1e-3);
        assert_eq!(info.disease_count, 42);

        let updated = &sd.updated_cells;
        assert_eq!(updated.element_idx.get(19), 0);
        assert_eq!(updated.mass.get(19), 0.0);
        assert_eq!(updated.temperature.get(19), 0.0);
        assert_eq!(updated.disease_idx.get(19), 0xff);
    }
}

#[test]
fn unstable_check_solid_below_no_fall_sets_timer() {
    let tables = &Tables::default();
    create_unstable_table(tables);
    let mut sd = SimData::new_for_allocate(tables, 6, 5, 1, false, false);
    sd.vacuum_element_idx = 0;
    sd.void_element_idx = 0xFFFF;
    {
        for buf in [&sd.cells, &sd.updated_cells] {
            buf.element_idx.set(19, 2);
            buf.mass.set(19, 100.0);
            buf.temperature.set(19, 300.0);
            buf.element_idx.set(13, 2);
            buf.mass.set(13, 100.0);
        }
        let timers = &sd.timers;
        timers.set(19, 5);
    }
    do_unstable_check_basic(&sd, 19);
    {
        let events = &sd.sim_events;
        assert_eq!(events.unstable_cell_info.len(), 0);
        let updated = &sd.updated_cells;
        assert_eq!(updated.element_idx.get(19), 2);
        let timers = &sd.timers;
        let t = timers.get(19);
        assert_eq!(t & 0x1f, 0x1f);
    }
}

#[test]
fn unstable_check_void_below_no_fall() {
    let tables = &Tables::default();
    create_unstable_table(tables);
    let mut sd = SimData::new_for_allocate(tables, 6, 5, 1, false, false);
    sd.vacuum_element_idx = 0;
    sd.void_element_idx = 1;
    {
        for buf in [&sd.cells, &sd.updated_cells] {
            buf.element_idx.set(19, 2);
            buf.mass.set(19, 100.0);
            buf.temperature.set(19, 300.0);
            buf.element_idx.set(13, 1);
        }
        let timers = &sd.timers;
        timers.set(19, 0);
    }
    do_unstable_check_basic(&sd, 19);
    {
        let events = &sd.sim_events;
        assert_eq!(events.unstable_cell_info.len(), 0);
    }
}

#[test]
fn unstable_check_stable_ticks_delay_blocks_fall() {
    let tables = &Tables::default();
    create_unstable_table(tables);
    let mut sd = SimData::new_for_allocate(tables, 6, 5, 1, false, false);
    sd.vacuum_element_idx = 0;
    sd.void_element_idx = 0xFFFF;
    {
        for buf in [&sd.cells, &sd.updated_cells] {
            buf.element_idx.set(19, 2);
            buf.mass.set(19, 100.0);
            buf.temperature.set(19, 300.0);
            buf.element_idx.set(13, 1);
            buf.mass.set(13, 1.0);
        }
        let timers = &sd.timers;
        timers.set(19, 5);
    }
    do_unstable_check_basic(&sd, 19);
    {
        let events = &sd.sim_events;
        assert_eq!(events.unstable_cell_info.len(), 0);
        let timers = &sd.timers;
        let t = timers.get(19) & 0x1f;
        assert_eq!(t, 4);
    }
}

#[test]
fn unstable_check_headless_swaps_down() {
    let tables = &Tables::default();
    create_unstable_table(tables);
    let mut sd = SimData::new_for_allocate(tables, 8, 8, 1, false, true);
    sd.vacuum_element_idx = 0;
    sd.void_element_idx = 0xFFFF;
    {
        for buf in [&sd.cells, &sd.updated_cells] {
            buf.element_idx.set(27, 2);
            buf.mass.set(27, 100.0);
            buf.temperature.set(27, 300.0);
            buf.element_idx.set(19, 1);
            buf.element_idx.set(11, 1);
            buf.element_idx.set(3, 2);
            buf.mass.set(3, 100.0);
        }
        let timers = &sd.timers;
        timers.set(27, 0);
    }
    do_unstable_check_basic(&sd, 27);
    {
        let updated = &sd.updated_cells;
        assert_eq!(updated.element_idx.get(11), 2);
        assert_eq!(updated.mass.get(11), 100.0);
        assert_eq!(updated.element_idx.get(19), 1);
        assert_eq!(updated.element_idx.get(27), 1);
    }
}

#[test]
fn unstable_check_with_diagonals_below_empty_falls_full() {
    let tables = &Tables::default();
    create_unstable_table(tables);
    let mut sd = SimData::new_for_allocate(tables, 8, 8, 1, false, false);
    sd.vacuum_element_idx = 0;
    sd.void_element_idx = 0xFFFF;
    sd.saved_options = 1;
    {
        for buf in [&sd.cells, &sd.updated_cells] {
            buf.element_idx.set(27, 2);
            buf.mass.set(27, 100.0);
            buf.temperature.set(27, 300.0);
            buf.element_idx.set(19, 1);
            buf.mass.set(19, 1.0);

            buf.element_idx.set(18, 2);
            buf.mass.set(18, 100.0);
            buf.element_idx.set(20, 2);
            buf.mass.set(20, 100.0);
        }
        let timers = &sd.timers;
        timers.set(27, 0);
    }
    do_unstable_check_with_diagonals(&sd, 27);
    {
        let events = &sd.sim_events;
        assert_eq!(events.unstable_cell_info.len(), 1);
        let info = events.unstable_cell_info.get(0);
        assert_eq!(info.cell_idx, 8);
        assert!((info.mass - 100.0).abs() < 1e-3);
        let updated = &sd.updated_cells;
        assert_eq!(updated.mass.get(27), 0.0);
        assert_eq!(updated.element_idx.get(27), 0);
    }
}

#[test]
fn unstable_check_with_diagonals_side_empty_half_falls() {
    let tables = &Tables::default();
    create_unstable_table(tables);
    let mut sd = SimData::new_for_allocate(tables, 8, 8, 1, false, false);
    sd.vacuum_element_idx = 0;
    sd.void_element_idx = 0xFFFF;
    sd.saved_options = 1;
    {
        for buf in [&sd.cells, &sd.updated_cells] {
            buf.element_idx.set(27, 2);
            buf.mass.set(27, 100.0);
            buf.temperature.set(27, 300.0);
            buf.element_idx.set(19, 2);
            buf.mass.set(19, 100.0);
            buf.element_idx.set(18, 1);
            buf.mass.set(18, 1.0);
            buf.element_idx.set(26, 1);
            buf.mass.set(26, 1.0);
            buf.element_idx.set(28, 2);
            buf.mass.set(28, 100.0);
        }
        let timers = &sd.timers;
        timers.set(27, 0);
    }
    do_unstable_check_with_diagonals(&sd, 27);
    {
        let events = &sd.sim_events;
        assert_eq!(events.unstable_cell_info.len(), 1);
        let info = events.unstable_cell_info.get(0);
        assert_eq!(info.cell_idx, 7);
        assert!((info.mass - 50.0).abs() < 1e-3);
        let updated = &sd.updated_cells;
        assert!((updated.mass.get(27) - 50.0).abs() < 1e-3);
        assert_eq!(updated.element_idx.get(27), 2);
    }
}

#[test]
fn post_process_cell_unstable_solid_falls_via_gate() {
    let tables = &Tables::default();
    create_unstable_table(tables);
    let mut sd = SimData::new_for_allocate(tables, 8, 8, 1, false, false);
    sd.vacuum_element_idx = 0;
    sd.void_element_idx = 0xFFFF;
    {
        for buf in [&sd.cells, &sd.updated_cells] {
            buf.element_idx.set(27, 2);
            buf.mass.set(27, 100.0);
            buf.temperature.set(27, 300.0);
            buf.element_idx.set(19, 1);
            buf.mass.set(19, 1.0);
            buf.temperature.set(19, 300.0);
        }
        let timers = &sd.timers;
        timers.set(27, 0);
    }
    post_process_cell(&sd, 27);
    {
        let events = &sd.sim_events;
        assert_eq!(events.unstable_cell_info.len(), 1);
        let updated = &sd.updated_cells;
        assert_eq!(updated.element_idx.get(27), 0);
    }
}
