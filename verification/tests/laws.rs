//! The laws of the library on plain values, and what it does at the edges of its inputs.

use sim_physics::cell::share;
use sim_physics::cell::Cell;
use sim_physics::disease;
use sim_physics::displacement;
use sim_physics::element;
use sim_physics::gas_flow;
use sim_physics::germs;
use sim_physics::grid;
use sim_physics::liquid_flow;
use sim_physics::number::F32;
use sim_physics::physics;
use sim_physics::placing;
use sim_physics::post_process;
use sim_physics::pressure;
use sim_physics::pressure_break;
use sim_physics::property_texture;
use sim_physics::radiation;
use sim_physics::region_events;
use sim_physics::sim_data;
use sim_physics::space;
use sim_physics::sublimation;
use sim_physics::sunlight;
use sim_physics::unstable;

fn num(x: f32) -> F32 {
    F32 { bits: x.to_bits() }
}

fn float(x: F32) -> f32 {
    f32::from_bits(x.bits)
}

const VACUUM: u16 = 0;
const WATER: u16 = 1;
const OIL: u16 = 2;
const OXYGEN: u16 = 3;
const ROCK: u16 = 4;
const CHLORINE: u16 = 5;
const ICE: u16 = 6;
const BEDROCK: u16 = 7;
const UNKNOWN: u16 = 99;

/// Vacuum, two liquids, a gas, a solid, another gas, a solid that sublimates into oxygen, and a
/// solid that cannot be broken.
fn elements() -> element::ElementsTable {
    let states = [0u8, 2, 2, 1, 3, 1, 3, 7];
    let molar = [0.0f32, 18.0, 200.0, 32.0, 100.0, 71.0, 18.0, 500.0];
    element::ElementsTable {
        ids: (0..8).collect(),
        liquid_data: states
            .iter()
            .map(|s| element::ElementLiquidData {
                state: *s,
                flow: num(0.5),
                viscosity: num(125.0),
                max_mass: num(1000.0),
                min_horizontal_flow: num(0.01),
                min_vertical_flow: num(0.01),
            })
            .collect(),
        pressure_data: states
            .iter()
            .map(|s| element::ElementPressureData { state: *s, flow: num(0.5) })
            .collect(),
        post_process_data: states
            .iter()
            .enumerate()
            .map(|(i, s)| element::ElementPostProcessData {
                state: *s,
                sublimate_index: if i as u16 == ICE { OXYGEN } else { 0xffff },
                sublimate_fx: 11,
                max_mass: num(1000.0),
                molar_mass: num(molar[i]),
                strength: num(1.0),
                min_horizontal_flow: num(0.01),
                sublimate_rate: num(5.0),
                sublimate_efficiency: num(1.0),
                sublimate_probability: num(1.0),
                off_gas_percentage: num(0.0),
            })
            .collect(),
        temperature_data: states
            .iter()
            .map(|_| element::ElementTemperatureData {
                low_temp: num(0.0),
                high_temp: num(1000.0),
                low_temp_transition_idx: 0xffff,
                high_temp_transition_idx: 0xffff,
            })
            .collect(),
        radiation_data: states
            .iter()
            .map(|_| element::ElementRadiationData { factor: num(0.5), rads_per_1000: num(0.0) })
            .collect(),
        light_absorption_data: states
            .iter()
            .map(|_| element::ElementLightAbsorptionData {
                factor: num(0.5),
                mass_scale: num(0.1),
            })
            .collect(),
        property_texture_data: states
            .iter()
            .map(|s| element::ElementPropertyTextureData {
                state: *s,
                number_of_gradient_colors: 2,
                colour: 0xff10_2030,
                gradient: [0x0010_0000, 0xff20_4060, 0, 0, 0, 0],
                material_properties: 0xffff_ffff,
            })
            .collect(),
    }
}

fn empty_cell() -> Cell {
    Cell {
        element_idx: VACUUM,
        properties: 0,
        strength_info: 0,
        disease_idx: 0xff,
        disease_infestation_tick_count: 0,
        disease_count: 0,
        mass: num(0.0),
        temperature: num(0.0),
        disease_growth_accumulated_error: num(0.0),
        radiation: num(0.0),
    }
}

fn filled(element_idx: u16, mass: f32) -> Cell {
    Cell { element_idx, mass: num(mass), temperature: num(300.0), ..empty_cell() }
}

fn world(width: usize, height: usize) -> sim_data::SimData {
    let n = width * height;
    let zero = sim_data::Vector4f { x: num(0.0), y: num(0.0), z: num(0.0), w: num(0.0) };
    sim_data::SimData {
        env: sim_data::Env {
            width,
            height,
            num_game_cells: (width as i32 - 2) * (height as i32 - 2),
            vacuum_element_idx: VACUUM,
            void_element_idx: 0xfffe,
            unobtanium_element_idx: BEDROCK,
            headless: false,
            is_debug_editing: false,
            saved_options: 0,
            radiation_enabled: true,
            radiation_max_mass: num(2000.0),
            radiation_linger_rate: num(2.0),
            radiation_base_weight: num(0.3),
            radiation_density_weight: num(0.7),
            radiation_constructed_factor: num(0.8),
            elements: elements(),
            diseases: None,
            world_zones: Vec::new(),
            backwall_vacuum_element_idx: VACUUM,
            backwall: Vec::new(),
            visible_grid: vec![1; (width - 2) * (height - 2)],
            active_regions: Vec::new(),
            worlds: Vec::new(),
        },
        cells: vec![empty_cell(); n],
        updated_cells: vec![empty_cell(); n],
        flow: vec![zero; n],
        accumulated_flow: vec![num(0.0); n],
        timers: vec![0; n],
        sim_events: Some(region_events::RegionEvents::default()),
        region_sink: None,
        region_rng: None,
        random_seed: 1,
        displacement_direction: 1,
        tick_count: 0,
        iterate_direction: 1,
    }
}

fn place(s: &mut sim_data::SimData, i: usize, c: Cell) {
    s.cells[i] = c;
    s.updated_cells[i] = c;
}

fn mass(s: &sim_data::SimData, i: usize) -> f32 {
    float(s.updated_cells[i].mass)
}

fn all(width: usize, height: usize) -> sim_data::RegionBounds {
    sim_data::RegionBounds { min_x: 1, min_y: 1, max_x: width - 1, max_y: height - 1 }
}

fn change() -> region_events::Event {
    region_events::Event::SubstanceChange(region_events::SubstanceChangeInfo {
        cell_idx: 3,
        old_element_idx: 1,
        new_element_idx: 2,
    })
}

fn steady_germs() -> germs::DiseaseTable {
    let n = 8;
    let inf = f32::INFINITY;
    germs::DiseaseTable {
        diseases: vec![germs::DiseaseInfo {
            hash: 0xd49f77d6,
            strength: num(1.0),
            temperature_range: germs::RangeInfo {
                min_viable: num(0.0),
                min_growth: num(200.0),
                max_growth: num(400.0),
                max_viable: num(600.0),
            },
            temperature_half_lives: germs::RangeInfo {
                min_viable: num(10.0),
                min_growth: num(inf),
                max_growth: num(inf),
                max_viable: num(10.0),
            },
            radiation_kill_rate: num(0.0),
            elem_growth_info: germs::ElemGrowthInfo {
                under_population_death_rate: vec![num(5.0); n],
                population_half_life: vec![num(inf); n],
                over_population_half_life: vec![num(0.0); n],
                diffusion_scale: vec![num(1.0); n],
                min_count_per_kg: vec![num(1.0); n],
                max_count_per_kg: vec![num(1000.0); n],
                min_diffusion_count: vec![0; n],
                min_diffusion_infestation_tick_count: vec![0; n],
            },
        }],
    }
}

#[test]
fn permeable_cells_are_not_solid() {
    let table = elements();
    for e in [VACUUM, WATER, OXYGEN, ROCK, UNKNOWN] {
        for properties in 0..=255u8 {
            let cells = vec![Cell { properties, ..filled(e, 1.0) }];
            let open = grid::is_liquid_permeable(&table, &cells, 0);
            let solid = grid::is_solid(&table, &cells, 0);
            assert!(!(open && solid));
        }
    }
    let cells = vec![filled(UNKNOWN, 1.0)];
    assert!(!grid::is_liquid_permeable(&table, &cells, 0) && !grid::is_solid(&table, &cells, 0));
}

#[test]
fn swapping_twice_undoes_it() {
    let a = Cell { properties: 5, disease_idx: 1, disease_count: 9, ..filled(WATER, 3.0) };
    let b = Cell { strength_info: 7, radiation: num(2.0), ..filled(OXYGEN, 0.5) };
    let mut cells = vec![a, b];
    grid::swap_cells(&mut cells, 0, 1);
    assert_eq!(cells[0].element_idx, OXYGEN);
    assert_eq!((cells[0].properties, cells[1].strength_info), (5, 7));
    assert_eq!(float(cells[1].radiation), 2.0);
    assert_eq!((cells[0].disease_count, cells[1].disease_count), (0, 9));
    grid::swap_cells(&mut cells, 0, 1);
    assert_eq!((cells[0].element_idx, cells[0].disease_count), (WATER, 9));
    assert_eq!(float(cells[0].mass), 3.0);
}

#[test]
fn cells_have_germs_or_are_clean() {
    let c = Cell {
        disease_idx: 0,
        disease_count: 5,
        disease_infestation_tick_count: 4,
        disease_growth_accumulated_error: num(0.5),
        ..filled(WATER, 1.0)
    };
    assert_eq!(c.with_disease_delta(-4).disease_count, 1);
    for d in [c.with_disease_delta(-5), c.with_disease_delta(-50), c.without_disease()] {
        assert_eq!((d.disease_idx, d.disease_count), (0xff, 0));
        assert_eq!(d.disease_infestation_tick_count, 0);
        assert_eq!(float(d.disease_growth_accumulated_error), 0.0);
    }
    let none = None;
    assert_eq!(c.with_disease(&none, 0, -5).disease_idx, 0xff);
    assert_eq!(c.with_disease(&none, 3, 100).disease_idx, 0);
    let twice = c.without_disease().without_disease();
    assert_eq!(twice.disease_idx, 0xff);
}

#[test]
fn single_cells_are_changed_in_place() {
    let table = elements();
    let mut cells = vec![filled(WATER, 1.0), filled(UNKNOWN, 1.0)];
    assert_eq!(grid::elem_state(&table, &cells, 0), 2);
    assert_eq!(grid::elem_state(&table, &cells, 1), 0xff);
    grid::add_mass_and_update_temperature(&None, &mut cells, 0, num(1.0), num(400.0), 3, 8);
    assert_eq!((float(cells[0].mass), float(cells[0].temperature)), (2.0, 350.0));
    assert_eq!((cells[0].disease_idx, cells[0].disease_count), (3, 8));
    grid::modify_disease_count(&mut cells, 0, -3);
    assert_eq!(cells[0].disease_count, 5);
    grid::clear_disease(&mut cells, 0);
    assert_eq!((cells[0].disease_idx, cells[0].disease_count), (0xff, 0));
    grid::clear_cell(VACUUM, &mut cells, 0);
    assert_eq!((cells[0].element_idx, float(cells[0].mass)), (VACUUM, 0.0));
}

#[test]
fn mixtures_lie_between_their_parts() {
    let c = Cell { temperature: num(100.0), ..filled(WATER, 1.0) };
    let d = c.with_mass_added(&None, num(3.0), num(300.0), 0xff, 0);
    assert_eq!((float(d.mass), float(d.temperature)), (4.0, 250.0));
    let e = c.with_mass_added(&None, num(-2.0), num(300.0), 0xff, 0);
    assert_eq!((float(e.mass), float(e.temperature)), (0.0, 0.0));
    let t = grid::calculate_combined_temperature(num(1.0), num(10.0), num(1.0), num(20.0));
    assert_eq!(float(t), 15.0);
    let t = grid::calculate_combined_temperature(num(0.0), num(10.0), num(0.0), num(20.0));
    assert_eq!(float(t), 0.0);
}

#[test]
fn no_more_germs_leave_than_there_are() {
    assert_eq!(share(num(1.0), num(3.0), 100), 33);
    assert_eq!(share(num(3.0), num(3.0), 100), 100);
    assert_eq!(share(num(0.0), num(3.0), 100), 0);
    assert_eq!(share(num(1.0), num(1.0), 16777219), 16777220);
}

#[test]
fn random_numbers_are_fractions() {
    let mut s = world(3, 3);
    for seed in [0u32, 1, 17, 9020, 0xffff_ffff] {
        s.random_seed = seed;
        let x = float(sim_data::next_random(&mut s));
        let n = seed.wrapping_mul(0x343fd).wrapping_add(0x269ec3);
        assert_eq!(s.random_seed, n);
        assert_eq!(x, ((n >> 16) & 0x7fff) as f32 * 3.051851e-05);
        assert!((0.0..=1.0).contains(&x));
    }
}

/// The seed whose next one is `n`.
fn seed_before(n: u32) -> u32 {
    let mut inverse = 1u32;
    for _ in 0..5 {
        inverse = inverse.wrapping_mul(2u32.wrapping_sub(0x343fdu32.wrapping_mul(inverse)));
    }
    n.wrapping_sub(0x269ec3).wrapping_mul(inverse)
}

#[test]
fn random_numbers_are_below_one_unless_all_bits_are_set() {
    let mut s = world(3, 3);
    s.random_seed = seed_before(0x7fff_0000);
    assert_eq!(float(sim_data::next_random(&mut s)), 1.0);
    s.random_seed = seed_before(0x7ffe_ffff);
    let x = float(sim_data::next_random(&mut s));
    assert_eq!((s.random_seed, x), (0x7ffe_ffff, 32766.0 * 3.051851e-05));
    assert!(x < 1.0);
}

#[test]
fn fresh_timers_take_three_to_six_ticks() {
    assert_eq!(unstable::fresh_ticks(num(0.0)), 3);
    assert_eq!(unstable::fresh_ticks(num(0.5)), 4);
    assert_eq!(unstable::fresh_ticks(num(0.99)), 5);
    assert_eq!(unstable::fresh_ticks(num(1.0)), 6);
}

#[test]
fn timers_count_down_to_zero() {
    let mut s = world(3, 3);
    s.timers[4] = 0xe2;
    assert_eq!(unstable::get_stable_ticks_remaining(&mut s, 4), 1);
    assert_eq!(s.timers[4], 0xe1);
    assert_eq!(unstable::get_stable_ticks_remaining(&mut s, 4), 0);
    assert_eq!(unstable::get_stable_ticks_remaining(&mut s, 4), 0);
    assert_eq!(s.timers[4], 0xe0);
    s.timers = Vec::new();
    assert_eq!(unstable::get_stable_ticks_remaining(&mut s, 4), 0);
}

#[test]
fn what_falls_both_ways_is_what_leaves() {
    let mut s = world(8, 8);
    s.env.elements.post_process_data[ROCK as usize].state = 0x0b;
    s.env.elements.post_process_data[ROCK as usize].min_horizontal_flow = num(0.0);
    for i in [27, 19] {
        place(&mut s, i, Cell { disease_idx: 2, disease_count: 10, ..filled(ROCK, 100.0) });
    }
    for i in [18, 20, 26, 28] {
        place(&mut s, i, filled(OXYGEN, 1.0));
    }
    unstable::do_unstable_check_with_diagonals(&mut s, 27);
    let events = &s.sim_events.as_ref().unwrap().unstable_cell_info;
    let seen: Vec<(i32, f32, i32)> =
        events.iter().map(|e| (e.cell_idx, float(e.mass), e.disease_count)).collect();
    assert_eq!(seen, vec![(7, 50.0, 5), (9, 50.0, 5)]);
    assert_eq!((s.updated_cells[27].element_idx, mass(&s, 27)), (VACUUM, 0.0));
}

#[test]
fn a_cell_that_loses_all_mass_is_empty() {
    let mut cells = vec![Cell { disease_idx: 1, disease_count: 10, ..filled(WATER, 5.0) }];
    grid::add_mass_and_update_temperature(&None, &mut cells, 0, num(-5.0), num(300.0), 0xff, 0);
    assert_eq!((float(cells[0].mass), float(cells[0].temperature)), (0.0, 0.0));
    assert_eq!((cells[0].disease_idx, cells[0].disease_count), (0xff, 0));
}

#[test]
fn what_rises_is_what_the_sides_have_left() {
    let mut s = world(5, 5);
    for i in 0..25 {
        place(&mut s, i, filled(ROCK, 100.0));
    }
    place(&mut s, 12, filled(WATER, 1200.0));
    place(&mut s, 13, filled(WATER, 800.0));
    place(&mut s, 17, filled(VACUUM, 0.0));
    liquid_flow::update_liquid(&mut s, 12);
    assert_eq!((mass(&s, 13), mass(&s, 17), mass(&s, 12)), (900.0, 50.0, 1050.0));
}

#[test]
fn merged_events_are_as_if_reported_directly() {
    let mut direct = world(3, 3);
    sim_data::emit(&mut direct, change());
    sim_data::emit(&mut direct, change());
    let mut routed = world(3, 3);
    sim_data::emit(&mut routed, change());
    routed.route_events(Some(region_events::RegionEvents::default()));
    sim_data::emit(&mut routed, change());
    assert_eq!(routed.sim_events.as_ref().unwrap().substance_change_info.len(), 1);
    let mut region = routed.route_events(None).unwrap();
    region.merge_into(&mut routed);
    region.merge_into(&mut routed);
    let (a, b) = (direct.sim_events.unwrap(), routed.sim_events.unwrap());
    assert_eq!(a.substance_change_info.len(), b.substance_change_info.len());
    assert_eq!(b.substance_change_info[1].cell_idx, 3);
}

#[test]
fn events_go_back_to_where_they_went() {
    let fresh = region_events::RegionEvents::default();
    let (drawn, events, mut s) = sim_data::with_region_sink(world(3, 3), fresh, |mut s| {
        sim_data::emit(&mut s, change());
        (sim_data::next_random(&mut s), s)
    });
    assert_eq!(events.unwrap().substance_change_info.len(), 1);
    assert_eq!(float(drawn), float(sim_data::next_random(&mut world(3, 3))));
    sim_data::emit(&mut s, change());
    assert_eq!(s.sim_events.unwrap().substance_change_info.len(), 1);
}

#[test]
fn events_without_a_buffer_are_dropped() {
    let mut s = world(3, 3);
    s.sim_events = None;
    sim_data::emit(&mut s, change());
    assert!(s.sim_events.is_none());
    let mut region = region_events::RegionEvents::default();
    region.record(change());
    region.merge_into(&mut s);
    assert_eq!(region.substance_change_info.len(), 1);
}

#[test]
fn region_random_numbers_leave_the_world_alone() {
    let mut s = world(3, 3);
    s.region_rng = Some(sim_data::RegionRng { random_seed: 7, displacement_direction: -1 });
    sim_data::next_random(&mut s);
    assert_eq!(s.turn(), -1);
    assert_eq!((s.random_seed, s.displacement_direction), (1, 1));
    assert_eq!(s.region_rng.unwrap().displacement_direction, 1);
}

#[test]
fn gas_leaves_all_at_once_and_in_turn() {
    let mut goals = Vec::new();
    for tick in 0..8 {
        let mut s = world(5, 5);
        s.tick_count = tick;
        place(&mut s, 12, filled(OXYGEN, 2.0));
        assert!(displacement::displace_gas(&mut s, 12, OXYGEN));
        assert_eq!((s.updated_cells[12].element_idx, mass(&s, 12)), (VACUUM, 0.0));
        let g = (0..25).find(|i| mass(&s, *i) == 2.0).unwrap();
        goals.push(g);
    }
    assert_eq!(goals, vec![17, 11, 13, 7, 17, 11, 13, 7]);
}

#[test]
fn gas_that_cannot_leave_stays() {
    let mut s = world(5, 5);
    for i in 0..25 {
        place(&mut s, i, filled(ROCK, 100.0));
    }
    place(&mut s, 12, filled(OXYGEN, 2.0));
    assert!(!displacement::displace_gas(&mut s, 12, OXYGEN));
    assert_eq!(mass(&s, 12), 2.0);
    assert!(!displacement::displace_gas(&mut s, 99, OXYGEN));
    assert_eq!(s.sim_events.unwrap().substance_change_info.len(), 0);
}

#[test]
fn moving_conserves_mass() {
    let mut s = world(5, 5);
    place(&mut s, 12, filled(OXYGEN, 3.0));
    place(&mut s, 13, filled(OXYGEN, 5.0));
    displacement::do_displacement(&mut s, 12, 13);
    assert_eq!((mass(&s, 12), mass(&s, 13)), (0.0, 8.0));
}

fn total(s: &sim_data::SimData) -> f64 {
    s.updated_cells.iter().map(|c| float(c.mass) as f64).sum()
}

#[test]
fn liquid_is_divided_evenly_or_stays() {
    let mut s = world(5, 5);
    place(&mut s, 12, filled(WATER, 400.0));
    assert!(displacement::displace_liquid(&mut s, 12, WATER));
    assert_eq!([11, 13, 7, 17].map(|i| mass(&s, i)), [100.0; 4]);
    assert_eq!((s.updated_cells[12].element_idx, mass(&s, 12)), (VACUUM, 0.0));
    assert_eq!(total(&s), 400.0);
    place(&mut s, 12, filled(WATER, 0.005));
    assert!(!displacement::displace_liquid(&mut s, 12, WATER));
    assert_eq!(mass(&s, 12), 0.005);
}

#[test]
fn sinking_slipping_and_falling_conserve_mass() {
    let mut s = world(5, 5);
    place(&mut s, 12, filled(OIL, 10.0));
    place(&mut s, 7, filled(WATER, 20.0));
    place(&mut s, 22, filled(ROCK, 40.0));
    assert!(displacement::do_density_displacement(&mut s, 12, num(0.0)));
    assert_eq!((mass(&s, 12), mass(&s, 7), total(&s)), (20.0, 10.0, 70.0));
    s.env.headless = true;
    unstable::headless_unstable_fall_simple_swap(&mut s, 22);
    assert_eq!((s.updated_cells[2].element_idx, total(&s)), (ROCK, 70.0));
}

#[test]
fn exposure_is_of_the_region() {
    let exposed = |above: u16| {
        let mut s = world(6, 8);
        place(&mut s, 6 * 5 + 2, filled(above, 2000.0));
        place(&mut s, 6 * 3 + 2, filled(ROCK, 500.0));
        let b = sim_data::RegionBounds { min_x: 1, min_y: 1, max_x: 5, max_y: 5 };
        radiation::run_radiation_task(&mut s, b, num(100.0));
        float(s.updated_cells[6 * 2 + 2].radiation)
    };
    assert_eq!(exposed(ROCK), exposed(VACUUM));
    assert!(exposed(ROCK) > 0.0);
}

#[test]
fn pressure_conserves_mass_and_moves_an_eighth_at_most() {
    let mut s = world(5, 5);
    place(&mut s, 12, filled(OXYGEN, 80.0));
    place(&mut s, 13, filled(OXYGEN, 8.0));
    assert_eq!(float(pressure::update_pressure(&mut s, 12, 13)), 10.0);
    assert_eq!((mass(&s, 12), mass(&s, 13)), (70.0, 18.0));
    assert_eq!(float(pressure::pressure_flow(num(0.5), num(8.0), num(80.0))), -10.0);
    assert_eq!(float(pressure::pressure_flow(num(0.1), num(8.0), num(4.0))), 0.4);
    assert_eq!(float(pressure::update_pressure(&mut s, 12, 99)), 0.0);
}

#[test]
fn pressure_flows_from_the_larger_mass() {
    let cases = [(80.0, 8.0, 10.0), (8.0, 80.0, -10.0), (8.0, 7.0, 0.5), (4.0, 4.0, 0.0)];
    for (here, there, f) in cases {
        let mut s = world(5, 5);
        place(&mut s, 12, filled(OXYGEN, here));
        place(&mut s, 13, filled(OXYGEN, there));
        assert_eq!(float(pressure::update_pressure(&mut s, 12, 13)), f);
        assert_eq!((mass(&s, 12), mass(&s, 13)), (here - f, there + f));
        assert_eq!(total(&s), (here + there) as f64);
    }
}

#[test]
fn spreading_gas_conserves_mass_and_keeps_out_of_closed_cells() {
    for dir in [1, -1] {
        let mut s = world(7, 7);
        s.iterate_direction = dir;
        for i in 0..49 {
            place(&mut s, i, filled(OXYGEN, 8.0));
        }
        place(&mut s, 24, filled(OXYGEN, 4096.0));
        place(&mut s, 25, filled(VACUUM, 0.0));
        place(&mut s, 17, filled(WATER, 500.0));
        place(&mut s, 31, filled(ROCK, 700.0));
        place(&mut s, 30, Cell { properties: 1, ..filled(OXYGEN, 64.0) });
        let before = s.updated_cells.clone();
        let sum = total(&s);
        gas_flow::run_gas_pressure_task(&mut s, all(7, 7));
        assert_eq!(total(&s), sum);
        assert_eq!((mass(&s, 25), s.updated_cells[25].element_idx), (1.0, OXYGEN));
        assert!(mass(&s, 24) < 4096.0 && s.updated_cells.iter().all(|c| float(c.mass) >= 0.0));
        for i in [17, 30, 31] {
            let (c, d) = (s.updated_cells[i], before[i]);
            assert_eq!((c.element_idx, c.mass.bits), (d.element_idx, d.mass.bits));
            assert_eq!(c.temperature.bits, d.temperature.bits);
        }
    }
}

#[test]
fn liquids_do_not_mix_by_pressure() {
    let mut s = world(5, 5);
    place(&mut s, 12, filled(WATER, 500.0));
    place(&mut s, 13, filled(OXYGEN, 1.0));
    assert_eq!(float(pressure::update_pressure(&mut s, 12, 13)), 0.0);
    assert_eq!((mass(&s, 12), mass(&s, 13)), (500.0, 1.0));
}

#[test]
fn falling_liquid_conserves_mass() {
    let mut s = world(5, 5);
    for i in 0..25 {
        place(&mut s, i, filled(ROCK, 100.0));
    }
    place(&mut s, 12, filled(WATER, 400.0));
    place(&mut s, 7, filled(WATER, 100.0));
    liquid_flow::update_liquid(&mut s, 12);
    assert_eq!((mass(&s, 12), mass(&s, 7)), (275.0, 225.0));
    assert_eq!(float(s.flow[12].z), 125.0);
}

fn droplets(s: &sim_data::SimData) -> f64 {
    let events = s.sim_events.as_ref().unwrap();
    events.spawn_liquid_info.iter().map(|d| float(d.mass) as f64).sum()
}

#[test]
fn what_liquid_loses_leaves_as_droplets() {
    let mut s = world(7, 7);
    place(&mut s, 24, filled(WATER, 64.0));
    place(&mut s, 17, filled(ROCK, 100.0));
    liquid_flow::update_liquid(&mut s, 24);
    assert!(droplets(&s) > 0.0);
    assert_eq!(total(&s) + droplets(&s), 164.0);
    let mut s = world(7, 7);
    place(&mut s, 24, filled(WATER, 64.0));
    liquid_flow::update_liquid(&mut s, 24);
    assert_eq!((mass(&s, 17), total(&s), droplets(&s)), (64.0, 64.0, 0.0));
    let mut s = world(7, 7);
    place(&mut s, 24, filled(WATER, 64.0));
    place(&mut s, 16, filled(ROCK, 100.0));
    liquid_flow::update_liquid(&mut s, 24);
    assert_eq!((total(&s), droplets(&s)), (100.0, 64.0));
    let mut s = world(7, 7);
    for i in 0..49 {
        place(&mut s, i, filled(OXYGEN, 1.0));
    }
    place(&mut s, 24, filled(WATER, 1024.0));
    place(&mut s, 17, filled(WATER, 1024.0));
    liquid_flow::update_liquid(&mut s, 24);
    assert_eq!(total(&s) + droplets(&s), 2048.0 + 47.0);
}

#[test]
fn mass_is_off_by_no_more_than_rounding() {
    let mut s = world(7, 7);
    for i in 0..49 {
        place(&mut s, i, filled(ROCK, 1.0));
    }
    for (i, m) in [(24, 900.1), (17, 0.3), (23, 0.7), (25, 333.3), (31, 0.1)] {
        place(&mut s, i, filled(WATER, m));
    }
    let sum = total(&s);
    liquid_flow::update_liquid(&mut s, 24);
    assert!(mass(&s, 24) < 900.1 && mass(&s, 17) > 0.3 && mass(&s, 23) > 0.7);
    assert!((total(&s) - sum).abs() <= 8.0 * 1024.0 / 16777216.0);
    let mut s = world(7, 7);
    for i in 0..49 {
        place(&mut s, i, filled(OXYGEN, 0.1 * (i * i) as f32));
    }
    let sum = total(&s);
    gas_flow::run_gas_pressure_task(&mut s, all(7, 7));
    assert!(s.updated_cells.iter().all(|c| float(c.mass) >= 0.0));
    assert!((total(&s) - sum).abs() <= 6.0 * 25.0 * 256.0 / 16777216.0);
}

#[test]
fn a_refused_liquid_changes_nothing() {
    let mut s = world(5, 5);
    place(&mut s, 12, filled(WATER, 400.0));
    place(&mut s, 13, filled(OIL, 100.0));
    let ok = liquid_flow::update_neighbour_liquid_mass(&mut s, 12, WATER, 13, num(5.0), 0xff, 0);
    assert!(!ok);
    assert_eq!((mass(&s, 12), mass(&s, 13)), (400.0, 100.0));
    assert!(!liquid_flow::update_neighbour_liquid_mass(&mut s, 12, WATER, 77, num(5.0), 0xff, 0));
}

#[test]
fn the_void_swallows_liquid() {
    let mut s = world(5, 5);
    s.env.void_element_idx = CHLORINE;
    place(&mut s, 12, filled(WATER, 400.0));
    place(&mut s, 7, filled(CHLORINE, 1.0));
    liquid_flow::update_liquid(&mut s, 12);
    assert_eq!((s.updated_cells[12].element_idx, mass(&s, 12)), (VACUUM, 0.0));
    let ok = liquid_flow::update_neighbour_liquid_mass(&mut s, 12, WATER, 7, num(5.0), 0xff, 0);
    assert!(ok);
    assert_eq!(mass(&s, 7), 0.0);
}

#[test]
fn indices_outside_the_grid_are_ignored() {
    let mut s = world(5, 5);
    place(&mut s, 12, filled(WATER, 400.0));
    for i in [0, 4, 25, 1000] {
        liquid_flow::update_liquid(&mut s, i);
        displacement::do_evaporate(&mut s, 25 + i);
        sublimation::do_sublimation(&mut s, 25 + i);
        placing::add_liquid(&mut s, 25 + i, WATER, num(1.0), num(1.0), 0xff, 0);
        placing::add_gas(&mut s, 25 + i, WATER, num(1.0), num(1.0), 0xff, 0);
        placing::add_solid(&mut s, 25 + i, ROCK, num(1.0), num(1.0), 0xff, 0, 0);
    }
    assert_eq!(mass(&s, 12), 400.0);
    assert_eq!(s.sim_events.unwrap().substance_change_info.len(), 0);
}

#[test]
fn absent_buffers_are_left_alone() {
    let mut s = world(8, 8);
    s.cells = Vec::new();
    s.updated_cells = Vec::new();
    s.flow = Vec::new();
    let b = all(8, 8);
    liquid_flow::update_liquid_loop(&mut s, b);
    gas_flow::run_gas_pressure_task(&mut s, b);
    gas_flow::run_gas_displacement_task(&mut s, b);
    pressure::run_liquid_displacement_task(&mut s, b);
    disease::run_disease_diffusion_task(&mut s, b);
    radiation::run_radiation_task(&mut s, b, num(1.0));
    space::run_space_vacuum_task(&mut s, b);
    assert!(post_process::post_process_loop(&mut s, b).is_over());
    physics::copy_updated_cells_to_cells(&mut s);
    assert_eq!(s.cells.len(), 0);
}

#[test]
fn pressure_breaks_thin_walls_only() {
    for (walls, broken) in [(0, 0), (1, 1), (2, 2), (3, 0)] {
        let mut s = world(9, 5);
        place(&mut s, 20, filled(WATER, 5000.0));
        for k in 0..walls {
            place(&mut s, 21 + k, filled(ROCK, 10.0));
        }
        let ok = pressure_break::do_pressure_break(&mut s, 20, num(5.0), 1);
        assert_eq!(ok, broken > 0);
        let damage = s.sim_events.unwrap().world_damage_info;
        assert_eq!(damage.len(), broken);
        if broken > 0 {
            assert_eq!((damage[0].cell_idx, damage[0].damage_source_cell_idx), (9, 8));
        }
    }
    let mut s = world(9, 5);
    place(&mut s, 20, filled(WATER, 5000.0));
    place(&mut s, 21, filled(BEDROCK, 10.0));
    assert!(!pressure_break::do_pressure_break(&mut s, 20, num(5.0), 1));
    place(&mut s, 21, filled(ROCK, 10.0));
    s.sim_events = None;
    assert!(!pressure_break::do_pressure_break(&mut s, 20, num(5.0), 1));
}

#[test]
fn walls_resist_by_their_strength() {
    let d = elements().post_process_data[ROCK as usize];
    let built = Cell { strength_info: 4, ..filled(ROCK, 500.0) };
    assert_eq!(float(pressure_break::resistance(built, d)), 1.0 + 0.100000024);
    let natural = Cell { strength_info: 0x84, ..filled(ROCK, 500.0) };
    assert_eq!(float(pressure_break::resistance(natural, d)), 0.5 + 0.100000024);
}

#[test]
fn loss_to_space_stops_at_nothing() {
    assert_eq!(float(space::drained(num(500.0), num(1000.0))), 480.0);
    assert_eq!(float(space::drained(num(5.0), num(1000.0))), 0.0);
    assert!(space::loss_rate(3).is_none() && space::loss_rate(0).is_none());
    assert_eq!(float(space::loss_rate(1).unwrap()), 1.0);
}

#[test]
fn radiation_keeps_within_limits() {
    assert_eq!(float(radiation::limited(num(-5.0))), 0.0);
    assert_eq!(float(radiation::limited(num(0.01))), 0.0);
    assert_eq!(float(radiation::limited(num(0.02))), 0.02);
    assert_eq!(float(radiation::limited(num(1e9))), 9e6);
    assert_eq!(float(radiation::passing(num(0.25), num(0.5))), 0.375);
    assert_eq!(float(radiation::passing(num(0.995), num(1.0))), 0.0);
    assert_eq!(float(radiation::weight(0, 0)), 1.0);
    assert_eq!(float(radiation::weight(-1, 0)), 0.75);
    assert_eq!(float(radiation::weight(1, -1)), 0.5);
    assert_eq!(float(radiation::weight(0, 2)), 0.25);
    assert_eq!(float(radiation::weight(2, 1)), 0.15);
    assert_eq!(float(radiation::weight(-2, -2)), 0.1);
}

#[test]
fn radiation_ends_within_limits_where_nothing_gives_it_off() {
    let bounds = sim_data::RegionBounds { min_x: 1, min_y: 1, max_x: 5, max_y: 5 };
    let mut s = world(6, 6);
    for (i, r) in [f32::NAN, -7.0, 0.015, f32::INFINITY, 1.0e30, 50.0].into_iter().enumerate() {
        place(&mut s, 7 + i % 4 + 6 * (i / 4), Cell { radiation: num(r), ..filled(ROCK, 1.0) });
    }
    let mut t = world(6, 6);
    t.updated_cells = s.updated_cells.clone();
    radiation::run_radiation_task(&mut s, bounds, num(0.0));
    let at = |i: usize| float(s.updated_cells[i].radiation);
    let after: Vec<f32> = (7..11).chain(13..15).map(at).collect();
    assert_eq!(after, vec![0.0, 0.0, 0.0, 0.0, 9.0e6, 25.0]);
    radiation::run_radiation_task(&mut t, bounds, num(8.0));
    for y in 1..5 {
        for x in 1..5 {
            let r = float(t.updated_cells[y * 6 + x].radiation);
            assert!(r == 0.0 || (0.01 < r && r <= 9.0e6));
        }
    }
}

#[test]
fn a_later_source_adds_to_a_cell_within_limits() {
    let mut s = world(6, 6);
    s.env.elements.radiation_data[ROCK as usize].rads_per_1000 = num(1000.0);
    place(&mut s, 7, Cell { radiation: num(1.0e30), ..filled(OXYGEN, 1.0) });
    place(&mut s, 8, filled(ROCK, 8.0));
    let bounds = sim_data::RegionBounds { min_x: 1, min_y: 1, max_x: 5, max_y: 5 };
    radiation::run_radiation_task(&mut s, bounds, num(0.0));
    assert_eq!(float(s.updated_cells[7].radiation), 9.0e6 + 6.0);
    assert_eq!(float(s.updated_cells[8].radiation), 8.0);
}

#[test]
fn radiation_touches_nothing_else() {
    let mut s = world(6, 6);
    place(&mut s, 14, Cell { radiation: num(100.0), ..filled(ROCK, 7.0) });
    radiation::run_radiation_task(&mut s, all(6, 6), num(40.0));
    assert_eq!((s.updated_cells[14].element_idx, mass(&s, 14)), (ROCK, 7.0));
    assert!(float(s.updated_cells[14].radiation) > 50.0);
    assert_eq!(float(s.cells[14].radiation), 100.0);
    let mut t = world(6, 6);
    t.env.radiation_enabled = false;
    place(&mut t, 14, Cell { radiation: num(100.0), ..filled(ROCK, 7.0) });
    radiation::run_radiation_task(&mut t, all(6, 6), num(40.0));
    assert_eq!(float(t.updated_cells[14].radiation), 100.0);
}

#[test]
fn light_only_dims() {
    let d = Some(element::ElementLightAbsorptionData { factor: num(0.5), mass_scale: num(0.1) });
    assert_eq!(float(sunlight::dimmed(num(1.0), d, num(5.0))), 0.75);
    assert_eq!(float(sunlight::dimmed(num(1.0), d, num(500.0))), 0.5);
    assert_eq!(float(sunlight::dimmed(num(0.25), d, num(500.0))), 0.0);
    assert_eq!(float(sunlight::dimmed(num(0.25), None, num(500.0))), 0.25);
    let endless = element::ElementLightAbsorptionData {
        factor: num(0.5),
        mass_scale: num(f32::INFINITY),
    };
    assert_eq!(float(sunlight::dimmed(num(1.0), Some(endless), num(0.0))), 1.0);
}

#[test]
fn no_row_is_brighter_than_the_one_above() {
    let mut s = world(6, 8);
    s.env.worlds = vec![
        sim_data::WorldOffsetData { offset_x: 0, offset_y: 0, width: 2, height: 6 },
        sim_data::WorldOffsetData { offset_x: 2, offset_y: 1, width: 2, height: 5 },
    ];
    place(&mut s, 31, filled(WATER, 5.0));
    place(&mut s, 26, Cell { properties: 0x20, ..filled(ROCK, 0.0) });
    let mut g = property_texture::GameData {
        width: 4,
        height: 6,
        property_texture_flow: Vec::new(),
        property_texture_liquid: Vec::new(),
        property_texture_liquid_data: Vec::new(),
        property_texture_material_data: Vec::new(),
        property_texture_exposed_to_sunlight: vec![9; 24],
    };
    sunlight::update_exposed_to_sun_property_texture(&s, &mut g);
    let shown = |y: usize, x: usize| g.property_texture_exposed_to_sunlight[y * 4 + x];
    for x in 0..4 {
        assert_eq!(shown(5, x), 255);
        for y in 1..5 {
            assert!(shown(y, x) <= shown(y + 1, x));
        }
    }
    assert_eq!((shown(3, 0), shown(2, 0)), (191, 191));
    assert_eq!((shown(3, 1), shown(2, 1), shown(0, 1)), (255, 0, 0));
    assert_eq!((shown(0, 2), shown(1, 2)), (9, 255));
}

#[test]
fn cells_age() {
    let c = Cell { disease_idx: 0, disease_count: 5, ..filled(WATER, 1.0) };
    assert_eq!(disease::age_cell(c).disease_infestation_tick_count, 1);
    let old = Cell { disease_infestation_tick_count: 0xfe, ..c };
    assert_eq!(disease::age_cell(old).disease_infestation_tick_count, 0xfe);
    let gone = disease::age_cell(Cell { disease_count: 0, ..old });
    assert_eq!((gone.disease_idx, gone.disease_infestation_tick_count), (0xff, 1));
}

fn powers(warm: f32, crowd: f32) -> disease::Powers {
    disease::Powers { warm: num(warm), over: num(crowd), normal: num(crowd) }
}

#[test]
fn thriving_germs_are_steady() {
    let mut s = world(5, 5);
    s.env.diseases = Some(steady_germs());
    s.env.radiation_enabled = false;
    let c = Cell { disease_idx: 0, disease_count: 500, ..filled(WATER, 1.0) };
    let d = disease::grow_cell(&s.env, c, powers(0.5, 0.5));
    assert_eq!(d.disease_count, 500);
    let many = Cell { disease_count: 5000, ..c };
    assert_eq!(disease::grow_cell(&s.env, many, powers(0.5, 0.5)).disease_count, 0);
    let cold = Cell { temperature: num(-5.0), ..c };
    let e = disease::grow_cell(&s.env, cold, powers(0.5, 0.5));
    assert_eq!(e.disease_count, 250);
    let few = Cell { disease_count: 5, mass: num(100.0), ..c };
    let f = disease::grow_cell(&s.env, few, powers(1.0, 1.0));
    assert_eq!((f.disease_count, float(f.disease_growth_accumulated_error)), (4, 0.0));
    let odd = disease::grow_cell(&s.env, cold, powers(0.4999, 1.0));
    assert!(float(odd.disease_growth_accumulated_error).abs() <= 1.0);
    let endless = disease::grow_cell(&s.env, cold, powers(f32::INFINITY, 1.0));
    assert_eq!(endless.disease_count, 500);
}

#[test]
fn powers_are_asked_for_cell_by_cell() {
    let mut s = world(5, 5);
    s.env.diseases = Some(steady_germs());
    let cold = Cell { temperature: num(-5.0), ..filled(WATER, 1.0) };
    let c = Cell { disease_idx: 0, disease_count: 500, ..cold };
    place(&mut s, 7, c);
    let b = sim_data::RegionBounds { min_x: 1, min_y: 1, max_x: 3, max_y: 3 };
    let e = disease::growth_exponents(&s, b);
    assert_eq!(e.len(), 21);
    assert_eq!(float(e[3]), -0.2f32 / 10.0);
    assert!(e.iter().enumerate().all(|(i, x)| i == 3 || float(*x) == 0.0));
    let mut powers = vec![num(1.0); 21];
    powers[3] = num(0.5);
    disease::run_disease_growth_task(&mut s, b, powers);
    assert_eq!(s.updated_cells[7].disease_count, 250);
    s.env.diseases = None;
    assert_eq!(disease::growth_exponents(&s, b).len(), 0);
}

#[test]
fn germs_beyond_the_buffers_are_skipped() {
    let mut s = world(5, 5);
    s.env.diseases = Some(steady_germs());
    let c = Cell { disease_idx: 0, disease_count: 500, ..filled(WATER, 1.0) };
    place(&mut s, 24, c);
    place(&mut s, 5, c);
    let b = sim_data::RegionBounds { min_x: 3, min_y: 0, max_x: 6, max_y: 9 };
    assert_eq!(disease::growth_exponents(&s, b).len(), 3 * 22);
    disease::run_disease_diffusion_task(&mut s, b);
    disease::run_disease_growth_task(&mut s, b, Vec::new());
    let ticks: Vec<u8> =
        s.updated_cells.iter().map(|c| c.disease_infestation_tick_count).collect();
    assert_eq!((ticks[2], ticks[3], ticks[4], ticks[5], ticks[6]), (0, 1, 1, 1, 0));
    assert_eq!(ticks[24], 1);
    let far = sim_data::RegionBounds { min_x: 0, min_y: 7, max_x: usize::MAX, max_y: usize::MAX };
    disease::run_disease_growth_task(&mut s, far, Vec::new());
    assert_eq!(disease::growth_exponents(&s, far).len(), 0);
}

#[test]
fn spreading_keeps_germs() {
    let mut s = world(5, 5);
    s.env.diseases = Some(steady_germs());
    place(&mut s, 12, Cell { disease_idx: 0, disease_count: 100, ..filled(WATER, 1.0) });
    place(&mut s, 13, Cell { disease_idx: 0, disease_count: 20, ..filled(WATER, 1.0) });
    disease::update_cells(&mut s, 12, 13);
    assert_eq!(s.updated_cells[12].disease_count, 90);
    assert_eq!(s.updated_cells[13].disease_count, 30);
}

#[test]
fn germs_even_out_the_same_from_either_side() {
    for (more, less, moved) in [(100, 20, 10), (21, 20, 0), (27, 20, 0), (28, 20, 1)] {
        for (a, b) in [(12, 13), (13, 12)] {
            let mut s = world(5, 5);
            s.env.diseases = Some(steady_germs());
            place(&mut s, 12, Cell { disease_idx: 0, disease_count: more, ..filled(WATER, 1.0) });
            place(&mut s, 13, Cell { disease_idx: 0, disease_count: less, ..filled(WATER, 1.0) });
            disease::update_cells(&mut s, a, b);
            assert_eq!(s.updated_cells[12].disease_count, more - moved);
            assert_eq!(s.updated_cells[13].disease_count, less + moved);
        }
    }
}

#[test]
fn without_a_table_germs_neither_spread_nor_grow() {
    let mut s = world(5, 5);
    place(&mut s, 12, Cell { disease_idx: 0, disease_count: 100, ..filled(WATER, 1.0) });
    disease::run_disease_diffusion_task(&mut s, all(5, 5));
    disease::run_disease_growth_task(&mut s, all(5, 5), Vec::new());
    assert_eq!(s.updated_cells[12].disease_count, 100);
    assert_eq!(s.updated_cells[13].disease_count, 0);
}

#[test]
fn layering_happens_or_only_draws() {
    let mut s = world(5, 5);
    place(&mut s, 12, filled(OIL, 10.0));
    place(&mut s, 7, filled(WATER, 10.0));
    assert!(!displacement::do_density_displacement(&mut s, 12, num(1.0)));
    assert_eq!(s.updated_cells[12].element_idx, OIL);
    assert_ne!(s.random_seed, 1);
    assert!(displacement::do_density_displacement(&mut s, 12, num(0.0)));
    assert_eq!(s.updated_cells[12].element_idx, WATER);
    place(&mut s, 12, filled(ROCK, 10.0));
    let seed = s.random_seed;
    assert!(!displacement::do_density_displacement(&mut s, 12, num(0.0)));
    assert_eq!(s.random_seed, seed);
}

#[test]
fn added_matter_joins_its_kind_or_fills_what_is_empty() {
    let mut s = world(5, 5);
    place(&mut s, 12, filled(WATER, 10.0));
    placing::add_liquid(&mut s, 12, WATER, num(5.0), num(300.0), 0xff, 0);
    assert_eq!(mass(&s, 12), 15.0);
    assert_eq!(s.sim_events.as_ref().unwrap().substance_change_info.len(), 0);
    placing::add_gas(&mut s, 13, OXYGEN, num(0.7), num(300.0), 0xff, 0);
    assert_eq!((s.updated_cells[13].element_idx, mass(&s, 13)), (OXYGEN, 0.7));
    placing::add_solid(&mut s, 11, ROCK, num(5.0), num(300.0), 0xff, 0, 9);
    assert_eq!(s.updated_cells[11].element_idx, VACUUM);
    for i in 0..25 {
        place(&mut s, i, filled(ROCK, 100.0));
    }
    placing::add_liquid(&mut s, 12, WATER, num(30.0), num(300.0), 0xff, 0);
    assert_eq!((s.updated_cells[12].element_idx, mass(&s, 12)), (ROCK, 70.0));
    placing::add_liquid(&mut s, 12, WATER, num(170.0), num(300.0), 0xff, 0);
    assert_eq!((s.updated_cells[12].element_idx, mass(&s, 12)), (WATER, 100.0));
    placing::add_gas(&mut s, 6, OXYGEN, num(100.0), num(300.0), 0xff, 0);
    assert_eq!((s.updated_cells[6].element_idx, mass(&s, 6)), (VACUUM, 0.0));
}

#[test]
fn solids_pile_up_and_stop_at_bedrock() {
    let mut s = world(5, 5);
    place(&mut s, 7, filled(ROCK, 1000.0));
    place(&mut s, 12, filled(BEDROCK, 1000.0));
    placing::add_solid(&mut s, 7, ROCK, num(50.0), num(300.0), 0xff, 0, 0);
    assert_eq!(s.updated_cells[17].element_idx, VACUUM);
    place(&mut s, 12, filled(ROCK, 1000.0));
    placing::add_solid(&mut s, 7, ROCK, num(50.0), num(300.0), 0xff, 0, 0);
    assert_eq!((s.updated_cells[17].element_idx, mass(&s, 17)), (ROCK, 50.0));
}

#[test]
fn sublimation_keeps_to_its_limit() {
    let mut s = world(5, 5);
    place(&mut s, 12, filled(OXYGEN, 1.3));
    place(&mut s, 13, filled(ICE, 100.0));
    sublimation::do_sublimation(&mut s, 12);
    assert_eq!(mass(&s, 12), 1.8);
    assert!((mass(&s, 13) - 99.5).abs() < 1e-4);
    let fx = &s.sim_events.as_ref().unwrap().spawn_fx_info;
    assert_eq!((fx.len(), fx[0].fx_id, float(fx[0].rotation)), (1, 11, 90.0));
    sublimation::do_sublimation(&mut s, 12);
    assert_eq!(mass(&s, 12), 1.8);
}

#[test]
fn nothing_falls_that_is_not_there() {
    let d = elements().liquid_data[WATER as usize];
    assert_eq!(float(liquid_flow::fall_amount(d, num(100.0), num(0.0))), 100.0);
    assert_eq!(float(liquid_flow::fall_amount(d, num(400.0), num(0.0))), 125.0);
    assert_eq!(float(liquid_flow::fall_amount(d, num(400.0), num(900.0))), 50.0);
    assert_eq!(float(liquid_flow::fall_amount(d, num(400.0), num(2000.0))), 0.0);
    assert_eq!(float(liquid_flow::rise_amount(d, num(900.0), num(0.0))), 0.0);
    assert_eq!(float(liquid_flow::rise_amount(d, num(1100.0), num(0.0))), 50.0);
    assert_eq!(float(liquid_flow::rise_amount(d, num(1500.0), num(0.0))), 125.0);
    assert_eq!(float(liquid_flow::rise_amount(d, num(5000.0), num(0.0))), 2000.0);
}

#[test]
fn droplets_need_a_viewer_and_a_lasting_phase() {
    let drip = |s: &mut sim_data::SimData, t: f32| {
        liquid_flow::spawn_falling_liquid(s, 12, WATER, num(1.0), num(t), 0xff, 0)
    };
    let mut s = world(5, 5);
    assert!(drip(&mut s, 300.0));
    assert!(drip(&mut s, 1003.0) && drip(&mut s, -3.0));
    assert!(!drip(&mut s, 1003.5) && !drip(&mut s, -3.5));
    s.env.visible_grid = vec![0; 9];
    assert!(!drip(&mut s, 300.0));
    s.env.is_debug_editing = true;
    assert!(drip(&mut s, 300.0));
    s.cells[7].properties = 2;
    assert!(!drip(&mut s, 300.0));
    s.cells[7].properties = 0;
    s.env.headless = true;
    assert!(!drip(&mut s, 300.0));
    s.env.headless = false;
    assert!(!liquid_flow::spawn_falling_liquid(&mut s, 12, UNKNOWN, num(1.0), num(1.0), 0xff, 0));
    s.sim_events = None;
    assert!(!drip(&mut s, 300.0));
}

#[test]
fn copies_are_whole_or_of_a_region() {
    let mut s = world(5, 5);
    for i in 0..25 {
        s.updated_cells[i] = filled(WATER, i as f32);
    }
    let b = sim_data::RegionBounds { min_x: 1, min_y: 2, max_x: 3, max_y: 3 };
    physics::copy_updated_cells_to_cells_region(&mut s, b);
    let copied: Vec<usize> = (0..25).filter(|i| s.cells[*i].element_idx == WATER).collect();
    assert_eq!(copied, vec![11, 12]);
    physics::copy_updated_cells_to_cells(&mut s);
    assert!((0..25).all(|i| s.cells[i].element_idx == WATER));
}

#[test]
fn regions_run_alike_together_or_apart() {
    let run = |parallel: bool| {
        let mut s = world(8, 8);
        place(&mut s, 27, filled(WATER, 500.0));
        place(&mut s, 36, filled(OXYGEN, 3.0));
        physics::run_region_physics_a(&mut s, all(8, 8), num(0.0), parallel);
        (0..64).map(|i| mass(&s, i)).collect::<Vec<f32>>()
    };
    assert_eq!(run(false), run(true));
    let mut s = world(8, 8);
    place(&mut s, 27, filled(WATER, 500.0));
    let none = sim_data::RegionBounds { min_x: 3, min_y: 3, max_x: 3, max_y: 5 };
    physics::run_region_physics_a(&mut s, none, num(0.0), false);
    assert!(physics::run_region_physics_c(&mut s, none, all(8, 8)).is_over());
    assert_eq!(mass(&s, 27), 500.0);
}

/// The requests of a step, by name.
fn requests(s: &mut sim_data::SimData) -> Vec<String> {
    let mut step = physics::update_data(s);
    let mut names = Vec::new();
    loop {
        let (name, reply) = match step.request(s) {
            physics::Request::Strengthen(b) => {
                (format!("strengthen {}", b.min_x), physics::Reply::Done)
            }
            physics::Request::Heat(b) => (format!("heat {}", b.min_x), physics::Reply::Done),
            physics::Request::Components(b) => {
                (format!("components {}", b.min_x), physics::Reply::Done)
            }
            physics::Request::Melt(c, n) => {
                (format!("melt {c} {n}"), physics::Reply::Answer(false))
            }
            physics::Request::Transition(c, n) => {
                (format!("transition {c} {n}"), physics::Reply::Answer(n == c + 1))
            }
            physics::Request::Powers(e) => {
                (format!("powers {}", e.len()), physics::Reply::Powers(Vec::new()))
            }
            physics::Request::Nothing => return names,
        };
        names.push(name);
        step.reply(s, reply);
    }
}

#[test]
fn a_step_asks_in_order_and_turns() {
    let mut s = world(6, 6);
    s.env.diseases = Some(steady_germs());
    place(&mut s, 14, filled(WATER, 500.0));
    place(&mut s, 8, filled(ROCK, 500.0));
    place(&mut s, 13, filled(ROCK, 500.0));
    place(&mut s, 15, filled(ROCK, 500.0));
    place(&mut s, 26, filled(OXYGEN, 1.0));
    let names = requests(&mut s);
    let fixed: Vec<&String> = names.iter().filter(|n| !n.starts_with("melt")).collect();
    assert_eq!(
        fixed,
        vec![
            "strengthen 1",
            "heat 1",
            "components 1",
            "strengthen 1",
            "transition 14 8",
            "transition 14 13",
            "transition 14 15",
            "powers 66",
        ]
    );
    let first = names.iter().position(|n| n.starts_with("melt")).unwrap();
    let cell: usize = names[first].split(' ').nth(1).unwrap().parse().unwrap();
    let around = [cell - 6, cell - 1, cell + 1, cell + 6];
    assert_eq!(names[first..first + 4], around.map(|n| format!("melt {cell} {n}")));
    assert_eq!((s.tick_count, s.iterate_direction), (1, -1));
    requests(&mut s);
    assert_eq!((s.tick_count, s.iterate_direction), (2, 1));
}

#[test]
fn a_step_skips_empty_regions() {
    let mut s = world(8, 8);
    let region = |x0: usize, x1: usize| {
        let b = sim_data::RegionBounds { min_x: x0, min_y: 1, max_x: x1, max_y: 7 };
        sim_data::ActiveRegion {
            bounds: b,
            post_process_bounds: b,
            current_cosmic_radiation_intensity: num(0.0),
        }
    };
    s.env.active_regions = vec![region(1, 1), region(2, 4), region(5, 5), region(5, 7)];
    let names = requests(&mut s);
    assert_eq!(names.iter().filter(|n| n.starts_with("heat")).count(), 2);
    assert_eq!((&names[1][..], &names[6][..]), ("heat 2", "heat 5"));
    s.env.active_regions = vec![region(3, 3)];
    s.tick_count = u32::MAX;
    assert_eq!(requests(&mut s).len(), 0);
    assert_eq!(s.tick_count, 0);
}

#[test]
fn the_closing_pass_goes_on_cell_by_cell() {
    let mut s = world(6, 6);
    for i in [8, 10, 20] {
        place(&mut s, i, filled(OXYGEN, 1.0));
        place(&mut s, i - 6, filled(ROCK, 1.0));
    }
    let mut c = post_process::post_process_loop(&mut s, all(6, 6));
    let mut seen = Vec::new();
    while !c.is_over() {
        seen.push(c.cell(&s));
        c.reply(&mut s, true);
    }
    assert_eq!(seen, vec![8, 10, 20]);
    c.reply(&mut s, true);
    assert!(c.is_over());
}

#[test]
fn neighbours_are_asked_about_until_one_melts() {
    let mut s = world(6, 6);
    for i in [8, 10] {
        place(&mut s, i, filled(OXYGEN, 1.0));
        place(&mut s, i - 6, filled(ROCK, 1.0));
    }
    let mut c = post_process::post_process_loop(&mut s, all(6, 6));
    let mut seen = Vec::new();
    while !c.is_over() {
        assert!(c.is_valid(&s));
        seen.push((c.cell(&s), c.neighbour(&s)));
        c.reply(&mut s, seen.len() == 3);
    }
    assert_eq!(seen[..3], [(8, 2), (8, 7), (8, 9)]);
    assert_eq!(seen[3..], [(10, 4), (10, 9), (10, 11), (10, 16)]);
}

#[test]
fn only_liquids_are_shown_and_the_sky_is_bright() {
    let mut s = world(6, 5);
    let sky = sim_data::WorldOffsetData { offset_x: 0, offset_y: 0, width: 4, height: 3 };
    s.env.worlds = vec![sky];
    place(&mut s, 7, filled(WATER, 1000.0));
    place(&mut s, 8, filled(OXYGEN, 1.0));
    let mut g = property_texture::GameData {
        width: 4,
        height: 3,
        property_texture_flow: vec![property_texture::Vector2f { x: num(1.0), y: num(1.0) }; 12],
        property_texture_liquid: vec![7; 12],
        property_texture_liquid_data: vec![7; 12],
        property_texture_material_data: vec![7; 12],
        property_texture_exposed_to_sunlight: vec![0; 12],
    };
    sunlight::update_exposed_to_sun_property_texture(&s, &mut g);
    assert_eq!(g.property_texture_exposed_to_sunlight[8..12], [255; 4]);
    let full: Vec<F32> = property_texture::liquid_fill_levels(&s);
    assert_eq!((float(full[7]), float(full[8])), (1.0, 0.001));
    property_texture::update_liquid_property_texture(&s, &mut g, &full);
    assert_eq!(g.property_texture_liquid[0], 0xff10_0000);
    assert_eq!(g.property_texture_liquid_data[0], 0x4cff_ffff);
    assert_eq!(g.property_texture_material_data[0], 0xff00_000f);
    assert_eq!(
        (
            g.property_texture_liquid[1],
            g.property_texture_liquid_data[1],
            g.property_texture_material_data[1]
        ),
        (0, 0, 0)
    );
    s.cells[7] = filled(OXYGEN, 1.0);
    s.flow[7].x = num(5.0);
    property_texture::update_flow_texture(&s, &mut g);
    assert_eq!(float(g.property_texture_flow[0].x), 0.0);
}

#[test]
fn flows_are_shown_up_to_the_last_row_of_the_grid() {
    let mut s = world(6, 5);
    place(&mut s, 27, filled(WATER, 4.0));
    s.flow[27].y = num(6.0);
    let mut g = property_texture::GameData {
        width: 4,
        height: 4,
        property_texture_flow: vec![property_texture::Vector2f { x: num(1.0), y: num(1.0) }; 16],
        property_texture_liquid: Vec::new(),
        property_texture_liquid_data: Vec::new(),
        property_texture_material_data: Vec::new(),
        property_texture_exposed_to_sunlight: Vec::new(),
    };
    assert!(g.is_in_grid(&s.env) && !g.is_fitting(&s.env));
    property_texture::update_flow_texture(&s, &mut g);
    assert_eq!(float(g.property_texture_flow[14].x), -1.5);
    g.height = 5;
    assert!(!g.is_in_grid(&s.env));
}

#[test]
fn colours_of_a_gradient_blend() {
    let gradient = [0x0010_2030, 0x8030_4050, 0xff00_0000, 0, 0, 0];
    let at = |t: f32, n: u8| property_texture::interpolate_gradient_colour(9, &gradient, n, num(t));
    assert_eq!(at(0.0, 3), 0x0010_2030);
    assert_eq!(at(0.5, 0), 9);
    assert_eq!(at(0.25, 3), 0x001f_2f3f);
    assert_eq!(at(1.0, 3), 0x0000_0000);
    assert_eq!(at(1.0, 2), 0x0030_4050);
}

#[test]
fn nothing_is_consolidated_or_refreshed_in_the_world() {
    let mut s = world(4, 4);
    place(&mut s, 5, filled(WATER, 3.0));
    sim_data::emit(&mut s, change());
    physics::consolidate_events(&mut s);
    physics::update_components_data_list_only(&mut s);
    assert_eq!(mass(&s, 5), 3.0);
    assert_eq!(s.sim_events.unwrap().substance_change_info.len(), 1);
}
