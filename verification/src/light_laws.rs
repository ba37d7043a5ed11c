//! What holds of sunlight in whole worlds.
use crate::constants::BYTE_MAX;
use crate::constants::ONE;
use crate::constants::ZERO;
use crate::element::ElementLightAbsorptionData;
use crate::laws;
use crate::number::num;
use crate::number::F32;
use crate::number_laws;
use crate::property_texture::Textures;
use crate::rounding;
use crate::sim_data;
use crate::sim_data::Env;
use crate::sim_data::State;
use crate::sim_data::WorldOffsetData;
use crate::sunlight;
use crate::sunlight::FULL_LIGHT;
use crate::sunlight::OPAQUE;
use crate::sunlight::SHADE;
use vstd::arithmetic::power2::*;
use vstd::prelude::*;

verus! {

/// The pixel that a light is shown as.
pub open spec fn brightness(light: F32) -> u8 {
    light.times(num(BYTE_MAX)).to_u8()
}

/// A light on its way down: no number, or from nothing to all of it.
pub open spec fn is_light(x: F32) -> bool {
    x.is_nan() || (num(ZERO).le(x) && x.le(num(ONE)))
}

/// No light.
pub open spec fn is_dark(x: F32) -> bool {
    x.is_nan() || x == num(ZERO)
}

/// What is no number is shown as nothing, and so is no light.
proof fn lemma_dark(x: F32)
    requires
        is_dark(x),
    ensures
        brightness(x) == 0,
{
    reveal(F32::to_range);
    if x.is_nan() {
        reveal(F32::spec_times);
    } else {
        laws::lemma_product_sign(x, num(BYTE_MAX));
        laws::lemma_whole_zero(x.times(num(BYTE_MAX)));
    }
}

/// Less light is shown no brighter.
proof fn lemma_brightness(x: F32, y: F32)
    requires
        is_light(x),
        is_light(y),
        x.is_nan() || x.le(y),
    ensures
        brightness(x) <= brightness(y),
{
    if x.is_nan() {
        lemma_dark(x);
    } else {
        let m = num(BYTE_MAX);
        number_laws::law_times_commutes(x, m);
        number_laws::law_times_commutes(y, m);
        number_laws::law_part_of_whole(m, x);
        number_laws::law_part_of_whole(m, y);
        let a = rounding::units(x.mag() as nat);
        let b = rounding::units(y.mag() as nat);
        let c = rounding::units(m.mag() as nat);
        laws::lemma_zero_value();
        number_laws::law_order_is_by_value(x, y);
        number_laws::law_order_is_by_value(num(ZERO), x);
        number_laws::law_order_is_by_value(num(ZERO), y);
        assert(a <= b);
        assert(a * c <= b * c) by (nonlinear_arith)
            requires
                a <= b,
        ;
        lemma_pow2_pos(149);
        number_laws::law_round_monotone(a * c, b * c, pow2(149));
        let u = x.times(m);
        let v = y.times(m);
        assert(u.mag() <= v.mag()) by {
            reveal(F32::spec_times);
        }
        laws::lemma_whole_monotone(u, v);
        if u.rank() == 0 {
            laws::lemma_whole_zero(u);
        }
        if v.rank() == 0 {
            laws::lemma_whole_zero(v);
        }
        reveal(F32::to_range);
    }
}

/// An element takes nothing less than nothing from the light.
pub open spec fn absorbs(d: Option<ElementLightAbsorptionData>) -> bool {
    d matches Some(x) ==> num(ZERO).le(x.mass_scale) && num(ZERO).le(x.factor)
}

/// Light that has come through some matter is light, and no brighter; no light stays none.
proof fn lemma_dimmed(light: F32, d: Option<ElementLightAbsorptionData>, mass: F32)
    requires
        is_light(light),
        num(ZERO).le(mass),
        absorbs(d),
    ensures
        is_light(sunlight::dimmed(light, d, mass)),
        brightness(sunlight::dimmed(light, d, mass)) <= brightness(light),
        is_dark(light) ==> is_dark(sunlight::dimmed(light, d, mass)),
{
    let scale = match d {
        Some(d) => d.mass_scale,
        None => num(ZERO),
    };
    let factor = match d {
        Some(d) => d.factor,
        None => num(ZERO),
    };
    let p = scale.times(mass);
    let part = if p.is_nan() {
        num(ZERO)
    } else if num(ONE).le(p) {
        num(ONE)
    } else {
        p
    };
    if !p.is_nan() {
        number_laws::law_product_not_negative(scale, mass);
    }
    let lost = part.times(factor);
    let left = light.minus(lost);
    let r = sunlight::dimmed(light, d, mass);
    if light.is_nan() || lost.is_nan() {
        assert(left.is_nan()) by {
            assert(lost.neg().mag() == lost.mag());
            reveal(F32::spec_plus);
        }
        lemma_brightness(r, light);
    } else {
        number_laws::law_product_not_negative(part, factor);
        if lost.is_finite() {
            number_laws::law_sum_is_rounded(light, lost.neg());
        } else {
            reveal(F32::spec_plus);
        }
        number_laws::law_minus_makes_no_larger(light, lost);
        lemma_brightness(r, light);
    }
}

/// All masses are from nothing on, and no element adds light.
pub open spec fn dims_everywhere(env: Env, s: State) -> bool {
    &&& forall|i: int| 0 <= i < s.updated.len() ==> num(ZERO).le((#[trigger] s.updated[i]).mass)
    &&& forall|e: u16| absorbs(#[trigger] env.elements.spec_light_absorption(e))
}

/// Light that has come through a cell is light, and no brighter; what goes on from it is no
/// brighter still.
proof fn lemma_through(env: Env, s: State, cell: int, light: F32)
    requires
        is_light(light),
        dims_everywhere(env, s),
    ensures
        ({
            let (f, g) = sunlight::through(env, s, cell, light);
            &&& is_light(f)
            &&& is_light(g)
            &&& brightness(f) <= brightness(light)
            &&& brightness(g) <= brightness(f)
            &&& is_dark(light) ==> is_dark(f) && is_dark(g)
        }),
{
    let above = match sim_data::at(s.updated, cell + env.width) {
        Some(a) => a.mass,
        None => num(ZERO),
    };
    let e = if s.updated[cell].properties & OPAQUE == OPAQUE {
        env.elements.spec_index_of(sunlight::OPAQUE_ELEMENT_HASH)
    } else {
        match sim_data::at(s.updated, cell + env.width) {
            Some(a) => a.element_idx,
            None => crate::element::NO_ELEMENT,
        }
    };
    let d = env.elements.spec_light_absorption(e);
    assert(absorbs(d));
    lemma_dimmed(light, d, above);
    lemma_dark(num(ZERO));
}

/// The light that comes to each row of a column is light.
proof fn lemma_light_above(env: Env, s: State, w: WorldOffsetData, row: int, col: int)
    requires
        dims_everywhere(env, s),
    ensures
        is_light(sunlight::light_above(env, s, w, row, col)),
    decreases sunlight::spec_side(w.height) - row,
{
    if row < sunlight::spec_side(w.height) - 2 {
        lemma_light_above(env, s, w, row + 1, col);
        if let Some(c) = sunlight::world_cell(env, s, w, row + 1, col) {
            lemma_through(env, s, c, sunlight::light_above(env, s, w, row + 1, col));
        }
    }
}

/// A world has cells, lies inside the textures, and the grid is larger by a border.
pub open spec fn world_fits(env: Env, t: Textures, w: WorldOffsetData) -> bool {
    &&& w.offset_x >= 0
    &&& w.offset_y >= 0
    &&& w.width > 0
    &&& w.height > 0
    &&& w.offset_x + w.width <= t.width
    &&& w.offset_y + w.height <= t.height
    &&& env.width == t.width + 2
    &&& env.height == t.height + 2
    &&& t.sunlight.len() == t.area()
}

/// Whether a place on the textures is in a world.
pub open spec fn in_world(w: WorldOffsetData, y: int, x: int) -> bool {
    w.offset_x <= x < w.offset_x + w.width && w.offset_y <= y < w.offset_y + w.height
}

/// Each place on a texture has a pixel of its own.
proof fn lemma_pixel(tw: int, th: int, y: int, x: int, v: int, u: int)
    requires
        0 <= y < th,
        0 <= x < tw,
        0 <= v < th,
        0 <= u < tw,
    ensures
        0 <= y * tw + x < tw * th,
        y * tw + x == v * tw + u ==> y == v && x == u,
{
    assert(0 <= y * tw + x < tw * th) by (nonlinear_arith)
        requires
            0 <= y < th,
            0 <= x < tw,
    ;
    assert(y * tw + x == v * tw + u ==> y == v) by (nonlinear_arith)
        requires
            0 <= x < tw,
            0 <= u < tw,
    ;
}

/// Every cell of a world below its sky is inside the grid.
proof fn lemma_world_cell(env: Env, s: State, t: Textures, w: WorldOffsetData, row: int, col: int)
    requires
        world_fits(env, t, w),
        s.updated.len() == env.cell_count(),
        0 <= row < w.height - 1,
        0 <= col < w.width,
    ensures
        sunlight::world_cell(env, s, w, row, col) is Some,
{
    crate::sweep::lemma_index(env, w.offset_y + row + 1, w.offset_x + 1 + col);
}

/// What a row and column of a world below its sky is shown as.
pub open spec fn shown_byte(env: Env, s: State, w: WorldOffsetData, row: int, col: int) -> u8 {
    brightness(
        sunlight::through(
            env,
            s,
            sunlight::world_cell(env, s, w, row, col)->0,
            sunlight::light_above(env, s, w, row, col),
        ).0,
    )
}

/// A row that is shown changes its own pixels only.
proof fn lemma_row_shown(
    env: Env,
    s: State,
    t: Textures,
    sun: Seq<u8>,
    w: WorldOffsetData,
    row: int,
    n: int,
    y: int,
    x: int,
)
    requires
        world_fits(env, t, w),
        s.updated.len() == env.cell_count(),
        sun.len() == t.area(),
        0 <= row < w.height - 1,
        0 <= n <= w.width,
        0 <= y < t.height,
        0 <= x < t.width,
    ensures
        sunlight::row_shown(env, s, t, sun, w, row, n).len() == sun.len(),
        sunlight::row_shown(env, s, t, sun, w, row, n)[y * t.width + x] == if y == w.offset_y + row
            && w.offset_x <= x < w.offset_x + n {
            shown_byte(env, s, w, row, x - w.offset_x)
        } else {
            sun[y * t.width + x]
        },
    decreases n,
{
    if n > 0 {
        lemma_row_shown(env, s, t, sun, w, row, n - 1, y, x);
        lemma_world_cell(env, s, t, w, row, n - 1);
        lemma_pixel(
            t.width,
            t.height,
            w.offset_y + row,
            w.offset_x + n - 1,
            y,
            x,
        );
        lemma_pixel(t.width, t.height, y, x, y, x);
    }
}

/// Rows that are shown change their own pixels only.
proof fn lemma_rows_shown(
    env: Env,
    s: State,
    t: Textures,
    sun: Seq<u8>,
    w: WorldOffsetData,
    row: int,
    y: int,
    x: int,
)
    requires
        world_fits(env, t, w),
        s.updated.len() == env.cell_count(),
        sun.len() == t.area(),
        0 <= row <= w.height - 1,
        0 <= y < t.height,
        0 <= x < t.width,
    ensures
        sunlight::rows_shown(env, s, t, sun, w, row).len() == sun.len(),
        sunlight::rows_shown(env, s, t, sun, w, row)[y * t.width + x] == if w.offset_y + row <= y
            && y < w.offset_y + w.height - 1 && w.offset_x <= x < w.offset_x + w.width {
            shown_byte(env, s, w, y - w.offset_y, x - w.offset_x)
        } else {
            sun[y * t.width + x]
        },
    decreases w.height - row,
{
    if row < w.height - 1 {
        lemma_rows_shown(env, s, t, sun, w, row + 1, y, x);
        let prev = sunlight::rows_shown(env, s, t, sun, w, row + 1);
        lemma_row_shown(env, s, t, prev, w, row, w.width as int, y, x);
    }
}

/// What a place in a world is shown as.
pub open spec fn world_byte(env: Env, s: State, w: WorldOffsetData, y: int, x: int) -> u8 {
    if y == w.offset_y + w.height - 1 {
        FULL_LIGHT
    } else {
        shown_byte(env, s, w, y - w.offset_y, x - w.offset_x)
    }
}

/// A world that is shown changes its own pixels only.
proof fn lemma_world_shown(
    env: Env,
    s: State,
    t: Textures,
    sun: Seq<u8>,
    w: WorldOffsetData,
    y: int,
    x: int,
)
    requires
        world_fits(env, t, w),
        s.updated.len() == env.cell_count(),
        sun.len() == t.area(),
        0 <= y < t.height,
        0 <= x < t.width,
    ensures
        sunlight::world_shown(env, s, t, sun, w).len() == sun.len(),
        sunlight::world_shown(env, s, t, sun, w)[y * t.width + x] == if in_world(w, y, x) {
            world_byte(env, s, w, y, x)
        } else {
            sun[y * t.width + x]
        },
{
    let sky = sunlight::sky_shown(t, sun, w);
    lemma_rows_shown(env, s, t, sky, w, 0, y, x);
    let tw = t.width;
    let top = w.offset_y + w.height - 1;
    let start = top * tw + w.offset_x;
    let g = y * tw + x;
    lemma_pixel(tw, t.height, y, x, y, x);
    assert((start <= g < start + w.width) == (y == top && w.offset_x <= x < w.offset_x + w.width))
        by (nonlinear_arith)
        requires
            start == top * tw + w.offset_x,
            g == y * tw + x,
            0 <= x < tw,
            0 <= w.offset_x,
            w.offset_x + w.width <= tw,
            w.width > 0,
    ;
}

/// No two worlds overlap.
pub open spec fn apart(worlds: Seq<WorldOffsetData>) -> bool {
    forall|i: int, j: int, y: int, x: int|
        0 <= i < j < worlds.len() ==> !(#[trigger] in_world(worlds[i], y, x)
            && #[trigger] in_world(worlds[j], y, x))
}

/// Whether sunlight is shown: there is something to show, every world that has cells lies inside
/// the textures, no two overlap, and nothing adds light.
pub open spec fn is_sunny(env: Env, s: State, t: Textures) -> bool {
    &&& s.updated.len() == env.cell_count()
    &&& s.updated.len() != 0
    &&& t.sunlight.len() != 0
    &&& env.elements.ids@.len() != 0
    &&& forall|i: int|
        0 <= i < env.worlds@.len() ==> {
            let w = #[trigger] env.worlds@[i];
            w.width <= 0 || w.height <= 0 || world_fits(env, t, w)
        }
    &&& apart(env.worlds@)
    &&& dims_everywhere(env, s)
}

/// After the first worlds are shown, a place in one of them shows that world.
proof fn lemma_worlds_shown(env: Env, s: State, t: Textures, n: int, i: int, y: int, x: int)
    requires
        is_sunny(env, s, t),
        0 <= n <= env.worlds@.len(),
        0 <= i < env.worlds@.len(),
        in_world(env.worlds@[i], y, x),
        t.sunlight.len() == t.area(),
    ensures
        sunlight::worlds_shown(env, s, t, n).len() == t.area(),
        i < n ==> sunlight::worlds_shown(env, s, t, n)[y * t.width + x] == world_byte(
            env,
            s,
            env.worlds@[i],
            y,
            x,
        ),
    decreases n,
{
    if n > 0 {
        lemma_worlds_shown(env, s, t, n - 1, i, y, x);
        assert(world_fits(env, t, env.worlds@[i]));
        let prev = sunlight::worlds_shown(env, s, t, n - 1);
        let last = env.worlds@[n - 1];
        if last.width > 0 && last.height > 0 {
            lemma_world_shown(env, s, t, prev, last, y, x);
        }
        if i < n - 1 {
            assert(!(in_world(env.worlds@[i], y, x) && in_world(env.worlds@[n - 1], y, x)));
        }
    }
}

/// In every column of every world the sky is fully lit, and no row is brighter than the one above
/// it.
pub proof fn law_no_row_is_brighter_than_the_one_above(
    env: Env,
    s: State,
    t: Textures,
    i: int,
    y: int,
    x: int,
)
    requires
        is_sunny(env, s, t),
        0 <= i < env.worlds@.len(),
        in_world(env.worlds@[i], y, x),
    ensures
        ({
            let w = env.worlds@[i];
            let r = sunlight::sunlight_shown(env, s, t).sunlight;
            &&& y == w.offset_y + w.height - 1 ==> r[y * t.width + x] == FULL_LIGHT
            &&& y < w.offset_y + w.height - 1 ==> r[y * t.width + x] <= r[(y + 1) * t.width + x]
        }),
{
    let w = env.worlds@[i];
    let n = env.worlds@.len() as int;
    assert(world_fits(env, t, w));
    lemma_worlds_shown(env, s, t, n, i, y, x);
    if y < w.offset_y + w.height - 1 {
        lemma_worlds_shown(env, s, t, n, i, y + 1, x);
        let row = y - w.offset_y;
        let col = x - w.offset_x;
        lemma_world_cell(env, s, t, w, row, col);
        let light = sunlight::light_above(env, s, w, row, col);
        lemma_light_above(env, s, w, row, col);
        lemma_through(env, s, sunlight::world_cell(env, s, w, row, col)->0, light);
        if row + 1 < w.height - 1 {
            lemma_world_cell(env, s, t, w, row + 1, col);
            lemma_light_above(env, s, w, row + 1, col);
            lemma_through(
                env,
                s,
                sunlight::world_cell(env, s, w, row + 1, col)->0,
                sunlight::light_above(env, s, w, row + 1, col),
            );
        }
    }
}

/// Whether a cell keeps all light from those below it: it is marked for shade, and not as opaque.
pub open spec fn shades(env: Env, s: State, w: WorldOffsetData, y: int, x: int) -> bool {
    let c = s.updated[sunlight::world_cell(env, s, w, y - w.offset_y, x - w.offset_x)->0];
    c.properties & SHADE != 0 && c.properties & OPAQUE != OPAQUE
}

/// No light comes to the rows below a cell that keeps it.
proof fn lemma_shade(
    env: Env,
    s: State,
    t: Textures,
    w: WorldOffsetData,
    row: int,
    col: int,
    mark: int,
)
    requires
        world_fits(env, t, w),
        s.updated.len() == env.cell_count(),
        dims_everywhere(env, s),
        0 <= row < mark < w.height - 1,
        0 <= col < w.width,
        shades(env, s, w, w.offset_y + mark, w.offset_x + col),
    ensures
        is_dark(sunlight::light_above(env, s, w, row, col)),
    decreases mark - row,
{
    lemma_world_cell(env, s, t, w, row + 1, col);
    if row + 1 < mark {
        lemma_shade(env, s, t, w, row + 1, col, mark);
        lemma_through(
            env,
            s,
            sunlight::world_cell(env, s, w, row + 1, col)->0,
            sunlight::light_above(env, s, w, row + 1, col),
        );
    }
}

/// In every column of every world it is dark below a cell that keeps all light, unless that cell
/// is in the sky.
pub proof fn law_dark_below_shade(
    env: Env,
    s: State,
    t: Textures,
    i: int,
    y: int,
    x: int,
    mark: int,
)
    requires
        is_sunny(env, s, t),
        0 <= i < env.worlds@.len(),
        in_world(env.worlds@[i], y, x),
        y < mark < env.worlds@[i].offset_y + env.worlds@[i].height - 1,
        shades(env, s, env.worlds@[i], mark, x),
    ensures
        sunlight::sunlight_shown(env, s, t).sunlight[y * t.width + x] == 0,
{
    let w = env.worlds@[i];
    assert(world_fits(env, t, w));
    lemma_worlds_shown(env, s, t, env.worlds@.len() as int, i, y, x);
    let row = y - w.offset_y;
    let col = x - w.offset_x;
    lemma_shade(env, s, t, w, row, col, mark - w.offset_y);
    let light = sunlight::light_above(env, s, w, row, col);
    lemma_through(env, s, sunlight::world_cell(env, s, w, row, col)->0, light);
    lemma_dark(sunlight::through(env, s, sunlight::world_cell(env, s, w, row, col)->0, light).0);
}

} // verus!
