//! Cell physics of a two-dimensional world of solids, liquids and gases.

pub mod block_laws;
pub mod break_laws;
pub mod cell;
pub mod closing_laws;
pub mod constant_laws;
pub mod constants;
pub mod disease;
pub mod displacement;
pub mod element;
pub mod even_laws;
pub mod gas_flow;
pub mod gas_laws;
pub mod germ_laws;
pub mod germs;
pub mod grid;
pub mod growth_laws;
pub mod heat_laws;
pub mod laws;
pub mod light_laws;
pub mod liquid_flow;
pub mod liquid_laws;
pub mod move_laws;
pub mod number;
pub mod number_laws;
pub mod order_laws;
pub mod physics;
pub mod place_laws;
pub mod placing;
pub mod post_process;
pub mod pressure;
pub mod pressure_break;
pub mod pressure_laws;
pub mod property_texture;
pub mod push_laws;
pub mod radiation;
pub mod radiation_laws;
pub mod region_events;
pub mod report_laws;
pub mod room_laws;
pub mod rounding;
pub mod show_laws;
pub mod sim_data;
pub mod space;
pub mod sublimation;
pub mod sunlight;
pub mod sweep;
pub mod unstable;
pub mod world_laws;
