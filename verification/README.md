# sim_physics

The physics of a world of cells that hold solids, liquids and gases, with germs and radiation in
them. It is written in Verus: every function of the library states in its contract what it makes
of the world, and is proved to do so.

- `src/` is the library.
  - `number`, `rounding`, `constants`: single-precision arithmetic on integers, each operation the
    exact result rounded to the nearest number. `number_laws` holds what follows from that.
  - `cell`, `element`, `germs`, `region_events`, `sim_data`, `grid`: the data and what is done to
    single cells. `sim_data::State` is the mathematical model of the world.
  - `displacement`, `pressure`, `liquid_flow`, `gas_flow`, `sublimation`, `unstable`,
    `pressure_break`, `placing`, `space`, `disease`, `radiation`: the parts of a step.
  - `post_process`: the closing pass over the cells. `physics`: whole steps.
  - `property_texture`, `sunlight`: what the game is shown.
  - `laws`: what holds of the simulation as a whole. `pressure_laws`, `gas_laws` and `liquid_laws`
    follow the mass through an exchange, a pass of the gases and the movement of a liquid;
    `germ_laws` is about germs that even out, `light_laws` about the columns that the sun reaches,
    `radiation_laws` about the limits of radiation.
- `tests/` runs the library.
- `app/` drives it: heat, the components of buildings and powers with fractional exponents come
  from a host. A step asks for them and goes on with the answers.

Contracts speak of spec functions from one `State` to the next. `sim_data::stepped` adds what no
part of a step touches: the sizes of the grids, the marks of each place, the clock, the direction
of the step and the events that were there before.
