//! How far sunlight reaches down into the worlds.
use crate::constants::BYTE_MAX;
use crate::constants::ONE;
use crate::constants::ZERO;
use crate::element::ElementLightAbsorptionData;
use crate::element::NO_ELEMENT;
use crate::number::num;
use crate::number::F32;
use crate::property_texture::GameData;
use crate::property_texture::Textures;
use crate::sim_data;
use crate::sim_data::peek;
use crate::sim_data::Env;
use crate::sim_data::SimData;
use crate::sim_data::State;
use crate::sim_data::WorldOffsetData;
use vstd::prelude::*;

verus! {

/// The hash of the element that stands for whatever lets no light through.
pub const OPAQUE_ELEMENT_HASH: u32 = 0x2531469c;

/// The property bits of a cell that lets no light through.
pub const OPAQUE: u8 = 0x30;

/// The property bit of a cell below which it is dark.
pub const SHADE: u8 = 0x20;

/// A pixel in full sunlight.
pub const FULL_LIGHT: u8 = 0xff;

pub open spec fn spec_dimmed(light: F32, d: Option<ElementLightAbsorptionData>, mass: F32) -> F32 {
    let scale = match d {
        Some(d) => d.mass_scale,
        None => num(ZERO),
    };
    let factor = match d {
        Some(d) => d.factor,
        None => num(ZERO),
    };
    let part = scale.times(mass);
    let part = if part.is_nan() {
        num(ZERO)
    } else if num(ONE).le(part) {
        num(ONE)
    } else {
        part
    };
    let left = light.minus(part.times(factor));
    if left.le(num(ZERO)) {
        num(ZERO)
    } else {
        left
    }
}

/// What is left of light after a mass of an element. An infinite weight of nothing dims nothing.
#[verifier::when_used_as_spec(spec_dimmed)]
pub fn dimmed(light: F32, d: Option<ElementLightAbsorptionData>, mass: F32) -> (r: F32)
    ensures
        r == spec_dimmed(light, d, mass),
{
    let (scale, factor) = match d {
        Some(d) => (d.mass_scale, d.factor),
        None => (num(ZERO), num(ZERO)),
    };
    let mut part = scale.times(mass);
    if part.is_nan() {
        part = num(ZERO);
    } else if num(ONE).le(part) {
        part = num(ONE);
    }
    let left = light.minus(part.times(factor));
    if left.le(num(ZERO)) {
        num(ZERO)
    } else {
        left
    }
}

pub open spec fn spec_side(x: i32) -> int {
    if x > 0 {
        x as int
    } else {
        0
    }
}

/// A length or place; a negative one counts as zero.
fn side(x: i32) -> (n: i64)
    ensures
        n == spec_side(x),
{
    if x > 0 {
        x as i64
    } else {
        0
    }
}

/// The light in a cell once it has come through the cell above, and the light that goes on from
/// it. A cell that lets no light through dims it as the opaque element would.
pub open spec fn through(env: Env, s: State, cell: int, light: F32) -> (F32, F32) {
    let c = s.updated[cell];
    let above = match sim_data::at(s.updated, cell + env.width) {
        Some(a) => a.mass,
        None => num(ZERO),
    };
    let e = if c.properties & OPAQUE == OPAQUE {
        env.elements.spec_index_of(OPAQUE_ELEMENT_HASH)
    } else {
        match sim_data::at(s.updated, cell + env.width) {
            Some(a) => a.element_idx,
            None => NO_ELEMENT,
        }
    };
    let f = dimmed(light, env.elements.spec_light_absorption(e), above);
    (
        f,
        if c.properties & OPAQUE != OPAQUE && c.properties & SHADE != 0 {
            num(ZERO)
        } else {
            f
        },
    )
}

fn pass_through(sim: &SimData, opaque: u16, cell: usize, light: F32) -> (r: (F32, F32))
    requires
        sim.wf(),
        cell < sim@.updated.len(),
        opaque == sim.env.elements.spec_index_of(OPAQUE_ELEMENT_HASH),
    ensures
        r == through(sim.env, sim@, cell as int, light),
{
    let c = sim.updated_cells[cell];
    let (above, e) = match peek(&sim.updated_cells, cell as i64 + sim.env.width as i64) {
        Some(a) => (a.mass, a.element_idx),
        None => (num(ZERO), NO_ELEMENT),
    };
    let is_opaque = c.properties & OPAQUE == OPAQUE;
    let e: u16 = if is_opaque {
        opaque
    } else {
        e
    };
    let f = dimmed(light, sim.env.elements.light_absorption(e), above);
    let g = if !is_opaque && c.properties & SHADE != 0 {
        num(ZERO)
    } else {
        f
    };
    (f, g)
}

/// The cell of a row and column of a world, where the grid has it.
pub open spec fn world_cell(env: Env, s: State, w: WorldOffsetData, row: int, col: int) -> Option<
    int,
> {
    let r = spec_side(w.offset_y) + row + 1;
    let cell = r * env.width + spec_side(w.offset_x) + 1 + col;
    if r < env.height && cell < s.updated.len() {
        Some(cell)
    } else {
        None
    }
}

fn find_world_cell(sim: &SimData, w: WorldOffsetData, row: i64, col: i64) -> (c: Option<usize>)
    requires
        sim.wf(),
        0 <= row <= 0x7fff_ffff,
        0 <= col <= 0x7fff_ffff,
    ensures
        match world_cell(sim.env, sim@, w, row as int, col as int) {
            Some(i) => c is Some && c->0 == i && i < sim@.updated.len(),
            None => c is None,
        },
{
    let r: i64 = side(w.offset_y) + row + 1;
    if r >= sim.env.height as i64 {
        return None;
    }
    proof {
        assert(0 <= r * sim.env.width <= 0x7fff_ffff * 0x7fff_ffff) by (nonlinear_arith)
            requires
                0 <= r <= 0x7fff_ffff,
                0 <= sim.env.width <= 0x7fff_ffff,
        ;
    }
    let cell: i64 = r * sim.env.width as i64 + side(w.offset_x) + 1 + col;
    if cell < sim.updated_cells.len() as i64 {
        Some(cell as usize)
    } else {
        None
    }
}

/// The light that comes to a row of a world's column from above. The row below the sky gets all
/// of it.
pub open spec fn light_above(env: Env, s: State, w: WorldOffsetData, row: int, col: int) -> F32
    decreases spec_side(w.height) - row,
{
    if row >= spec_side(w.height) - 2 {
        num(ONE)
    } else {
        let l = light_above(env, s, w, row + 1, col);
        match world_cell(env, s, w, row + 1, col) {
            Some(c) => through(env, s, c, l).1,
            None => l,
        }
    }
}

/// The pixel of a row and column of a world.
pub open spec fn world_pixel(t: Textures, w: WorldOffsetData, row: int, col: int) -> int {
    (spec_side(w.offset_y) + row) * t.width + spec_side(w.offset_x) + col
}

/// The sunlight after the first `n` columns of a row are shown.
pub open spec fn row_shown(
    env: Env,
    s: State,
    t: Textures,
    sun: Seq<u8>,
    w: WorldOffsetData,
    row: int,
    n: int,
) -> Seq<u8>
    decreases n,
{
    if n <= 0 {
        sun
    } else {
        let prev = row_shown(env, s, t, sun, w, row, n - 1);
        let g = world_pixel(t, w, row, n - 1);
        match world_cell(env, s, w, row, n - 1) {
            Some(c) => if g < prev.len() {
                prev.update(
                    g,
                    through(env, s, c, light_above(env, s, w, row, n - 1)).0.times(
                        num(BYTE_MAX),
                    ).to_u8(),
                )
            } else {
                prev
            },
            None => prev,
        }
    }
}

/// The sunlight after the rows of a world from the one below the sky down to `row` are shown.
pub open spec fn rows_shown(
    env: Env,
    s: State,
    t: Textures,
    sun: Seq<u8>,
    w: WorldOffsetData,
    row: int,
) -> Seq<u8>
    decreases spec_side(w.height) - row,
{
    if row >= spec_side(w.height) - 1 {
        sun
    } else {
        row_shown(
            env,
            s,
            t,
            rows_shown(env, s, t, sun, w, row + 1),
            w,
            row,
            spec_side(w.width),
        )
    }
}

/// The sunlight after the sky, the top row of a world, is shown.
pub open spec fn sky_shown(t: Textures, sun: Seq<u8>, w: WorldOffsetData) -> Seq<u8> {
    let start = world_pixel(t, w, spec_side(w.height) - 1, 0);
    Seq::new(
        sun.len(),
        |g: int|
            if start <= g < start + spec_side(w.width) {
                FULL_LIGHT
            } else {
                sun[g]
            },
    )
}

/// The sunlight after a world is shown.
pub open spec fn world_shown(
    env: Env,
    s: State,
    t: Textures,
    sun: Seq<u8>,
    w: WorldOffsetData,
) -> Seq<u8> {
    if spec_side(w.width) == 0 || spec_side(w.height) == 0 {
        sun
    } else {
        rows_shown(env, s, t, sky_shown(t, sun, w), w, 0)
    }
}

/// The sunlight after the first `n` worlds are shown.
pub open spec fn worlds_shown(env: Env, s: State, t: Textures, n: int) -> Seq<u8>
    decreases n,
{
    if n <= 0 {
        t.sunlight
    } else {
        world_shown(env, s, t, worlds_shown(env, s, t, n - 1), env.worlds@[n - 1])
    }
}

/// The textures after the sunlight is shown.
pub open spec fn sunlight_shown(env: Env, s: State, t: Textures) -> Textures {
    if s.updated.len() == 0 || t.sunlight.len() == 0 || env.elements.ids@.len() == 0 {
        t
    } else {
        Textures { sunlight: worlds_shown(env, s, t, env.worlds@.len() as int), ..t }
    }
}

/// A place on a texture, whatever the sizes.
fn find_pixel(game: &GameData, w: WorldOffsetData, row: i64, col: i64) -> (g: i128)
    requires
        0 <= row <= 0x7fff_ffff,
        0 <= col <= 0x7fff_ffff,
    ensures
        g == world_pixel(game@, w, row as int, col as int),
        0 <= g <= 0x1_0000_0000_0000_0000_0000_0000_0000,
{
    let r: i128 = side(w.offset_y) as i128 + row as i128;
    proof {
        assert(0 <= r * game.width <= 0xffff_fffe * 0xffff_ffff_ffff_ffff) by (nonlinear_arith)
            requires
                0 <= r <= 0xffff_fffe,
                0 <= game.width <= 0xffff_ffff_ffff_ffff,
        ;
    }
    r * game.width as i128 + side(w.offset_x) as i128 + col as i128
}

/// Shows the sky of a world.
fn show_sky(game: &mut GameData, w: WorldOffsetData)
    requires
        spec_side(w.width) > 0,
        spec_side(w.height) > 0,
    ensures
        final(game)@ == (Textures {
            sunlight: sky_shown(old(game)@, old(game)@.sunlight, w),
            ..old(game)@
        }),
{
    let start: i128 = find_pixel(game, w, side(w.height) - 1, 0);
    let n: usize = game.property_texture_exposed_to_sunlight.len();
    let end: i128 = start + side(w.width) as i128;
    if start < n as i128 {
        let stop: usize = if end < n as i128 {
            end as usize
        } else {
            n
        };
        let mut g: usize = start as usize;
        while g < stop
            invariant
                start <= g <= stop <= n,
                n == game@.sunlight.len(),
                n == old(game)@.sunlight.len(),
                game@ == (Textures { sunlight: game@.sunlight, ..old(game)@ }),
                0 <= start,
                forall|i: int|
                    0 <= i < n ==> #[trigger] game@.sunlight[i] == if start <= i < g {
                        FULL_LIGHT
                    } else {
                        old(game)@.sunlight[i]
                    },
            decreases stop - g,
        {
            game.property_texture_exposed_to_sunlight.set(g, FULL_LIGHT);
            g = g + 1;
        }
    }
    assert(game@.sunlight =~= sky_shown(old(game)@, old(game)@.sunlight, w));
}

/// Shows a row of a world and takes the light in each of its columns on to the next.
fn show_row(
    sim: &SimData,
    game: &mut GameData,
    opaque: u16,
    w: WorldOffsetData,
    row: i64,
    light: &mut Vec<F32>,
)
    requires
        sim.wf(),
        opaque == sim.env.elements.spec_index_of(OPAQUE_ELEMENT_HASH),
        0 <= row < spec_side(w.height) - 1,
        old(light)@.len() == spec_side(w.width),
        forall|c: int|
            0 <= c < old(light)@.len() ==> #[trigger] old(light)@[c] == light_above(
                sim.env,
                sim@,
                w,
                row as int,
                c,
            ),
    ensures
        final(game)@ == (Textures {
            sunlight: row_shown(
                sim.env,
                sim@,
                old(game)@,
                old(game)@.sunlight,
                w,
                row as int,
                spec_side(w.width),
            ),
            ..old(game)@
        }),
        final(game)@.sunlight.len() == old(game)@.sunlight.len(),
        final(light)@.len() == spec_side(w.width),
        forall|c: int|
            0 <= c < final(light)@.len() ==> #[trigger] final(light)@[c] == light_above(
                sim.env,
                sim@,
                w,
                row - 1,
                c,
            ),
{
    let n: usize = light.len();
    let mut col: usize = 0;
    while col < n
        invariant
            col <= n,
            n == spec_side(w.width),
            n == light@.len(),
            n == old(light)@.len(),
            sim.wf(),
            opaque == sim.env.elements.spec_index_of(OPAQUE_ELEMENT_HASH),
            0 <= row < spec_side(w.height) - 1,
            game@ == (Textures {
                sunlight: row_shown(
                    sim.env,
                    sim@,
                    old(game)@,
                    old(game)@.sunlight,
                    w,
                    row as int,
                    col as int,
                ),
                ..old(game)@
            }),
            game@.sunlight.len() == old(game)@.sunlight.len(),
            forall|c: int|
                col <= c < n ==> #[trigger] light@[c] == light_above(
                    sim.env,
                    sim@,
                    w,
                    row as int,
                    c,
                ),
            forall|c: int|
                0 <= c < col ==> #[trigger] light@[c] == light_above(
                    sim.env,
                    sim@,
                    w,
                    row - 1,
                    c,
                ),
        decreases n - col,
    {
        match find_world_cell(sim, w, row, col as i64) {
            Some(cell) => {
                let (f, next) = pass_through(sim, opaque, cell, light[col]);
                light.set(col, next);
                let g: i128 = find_pixel(game, w, row, col as i64);
                if g < game.property_texture_exposed_to_sunlight.len() as i128 {
                    let b: u8 = f.times(num(BYTE_MAX)).to_u8();
                    game.property_texture_exposed_to_sunlight.set(g as usize, b);
                }
            },
            None => {},
        }
        col = col + 1;
    }
}

/// Shows a world.
fn show_world(sim: &SimData, game: &mut GameData, opaque: u16, w: WorldOffsetData)
    requires
        sim.wf(),
        opaque == sim.env.elements.spec_index_of(OPAQUE_ELEMENT_HASH),
    ensures
        final(game)@ == (Textures {
            sunlight: world_shown(sim.env, sim@, old(game)@, old(game)@.sunlight, w),
            ..old(game)@
        }),
        final(game)@.sunlight.len() == old(game)@.sunlight.len(),
{
    let cols: i64 = side(w.width);
    let rows: i64 = side(w.height);
    if cols == 0 || rows == 0 {
        return;
    }
    show_sky(game, w);
    let ghost sky = game@.sunlight;
    let mut light: Vec<F32> = Vec::new();
    let mut col: i64 = 0;
    while col < cols
        invariant
            0 <= col <= cols,
            cols <= 0x7fff_ffff,
            light@.len() == col,
            forall|c: int| 0 <= c < light@.len() ==> #[trigger] light@[c] == num(ONE),
        decreases cols - col,
    {
        light.push(num(ONE));
        col = col + 1;
    }
    let mut row: i64 = rows - 1;
    while row > 0
        invariant
            0 <= row <= rows - 1,
            rows == spec_side(w.height),
            cols == spec_side(w.width),
            sim.wf(),
            opaque == sim.env.elements.spec_index_of(OPAQUE_ELEMENT_HASH),
            light@.len() == cols,
            forall|c: int|
                0 <= c < light@.len() ==> #[trigger] light@[c] == light_above(
                    sim.env,
                    sim@,
                    w,
                    row - 1,
                    c,
                ),
            sky == sky_shown(old(game)@, old(game)@.sunlight, w),
            game@ == (Textures {
                sunlight: rows_shown(sim.env, sim@, old(game)@, sky, w, row as int),
                ..old(game)@
            }),
            game@.sunlight.len() == old(game)@.sunlight.len(),
        decreases row,
    {
        row = row - 1;
        let ghost before = game@;
        show_row(sim, game, opaque, w, row, &mut light);
        proof {
            lemma_row_same(
                sim.env,
                sim@,
                before,
                old(game)@,
                before.sunlight,
                w,
                row as int,
                spec_side(w.width),
            );
        }
    }
}

/// What is shown in a row depends on no texture.
proof fn lemma_row_same(
    env: Env,
    s: State,
    t: Textures,
    u: Textures,
    sun: Seq<u8>,
    w: WorldOffsetData,
    row: int,
    n: int,
)
    requires
        t.width == u.width,
    ensures
        row_shown(env, s, t, sun, w, row, n) == row_shown(env, s, u, sun, w, row, n),
    decreases n,
{
    if n > 0 {
        lemma_row_same(env, s, t, u, sun, w, row, n - 1);
    }
}

/// What is shown of a world depends on no texture.
proof fn lemma_world_same(
    env: Env,
    s: State,
    t: Textures,
    u: Textures,
    sun: Seq<u8>,
    w: WorldOffsetData,
)
    requires
        t.width == u.width,
    ensures
        world_shown(env, s, t, sun, w) == world_shown(env, s, u, sun, w),
{
    assert(sky_shown(t, sun, w) =~= sky_shown(u, sun, w));
    lemma_rows_same(env, s, t, u, sky_shown(t, sun, w), w, 0);
}

proof fn lemma_rows_same(
    env: Env,
    s: State,
    t: Textures,
    u: Textures,
    sun: Seq<u8>,
    w: WorldOffsetData,
    row: int,
)
    requires
        t.width == u.width,
    ensures
        rows_shown(env, s, t, sun, w, row) == rows_shown(env, s, u, sun, w, row),
    decreases spec_side(w.height) - row,
{
    if row < spec_side(w.height) - 1 {
        lemma_rows_same(env, s, t, u, sun, w, row + 1);
        lemma_row_same(
            env,
            s,
            t,
            u,
            rows_shown(env, s, t, sun, w, row + 1),
            w,
            row,
            spec_side(w.width),
        );
    }
}

/// Shows the sunlight in all worlds.
pub fn update_exposed_to_sun_property_texture(sim: &SimData, game: &mut GameData)
    requires
        sim.wf(),
        old(game)@.wf(),
    ensures
        final(game)@ == sunlight_shown(sim.env, sim@, old(game)@),
{
    if sim.updated_cells.len() == 0 || game.property_texture_exposed_to_sunlight.len() == 0
        || sim.env.elements.ids.len() == 0 {
        return;
    }
    let opaque: u16 = sim.env.elements.index_of(OPAQUE_ELEMENT_HASH);
    let n: usize = sim.env.worlds.len();
    let mut i: usize = 0;
    while i < n
        invariant
            i <= n,
            n == sim.env.worlds@.len(),
            sim.wf(),
            opaque == sim.env.elements.spec_index_of(OPAQUE_ELEMENT_HASH),
            game@ == (Textures {
                sunlight: worlds_shown(sim.env, sim@, old(game)@, i as int),
                ..old(game)@
            }),
        decreases n - i,
    {
        let ghost before = game@;
        let w = sim.env.worlds[i];
        show_world(sim, game, opaque, w);
        proof {
            lemma_world_same(sim.env, sim@, before, old(game)@, before.sunlight, w);
        }
        i = i + 1;
    }
}

} // verus!
