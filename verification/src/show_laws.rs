//! What holds of what the game is shown.
use crate::break_laws;
use crate::constant_laws;
use crate::constants::BYTE_MAX;
use crate::constants::BYTE_STEP;
use crate::constants::HALF;
use crate::constants::ONE;
use crate::constants::THOUSAND;
use crate::constants::THREE;
use crate::constants::ZERO;
use crate::element::ElementLightAbsorptionData;
use crate::element::ElementTemperatureData;
use crate::heat_laws;
use crate::laws;
use crate::light_laws;
use crate::liquid_laws;
use crate::number::num;
use crate::number::F32;
use crate::number_laws;
use crate::pressure_laws::is_amount;
use crate::property_texture;
use crate::property_texture::Textures;
use crate::rounding;
use crate::sim_data::Env;
use crate::sim_data::State;
use crate::sim_data::WorldOffsetData;
use crate::sunlight;
use vstd::arithmetic::power2::*;
use vstd::prelude::*;

verus! {

/// Light loses the factor of what it passes, times how much of that there is: its mass on the scale
/// of the element, and at most once. No less than nothing is left. What is not in the table takes
/// nothing.
pub proof fn law_how_light_dims(light: F32, d: ElementLightAbsorptionData, mass: F32)
    requires
        is_amount(light),
        is_amount(d.mass_scale),
        is_amount(d.factor),
        is_amount(mass),
    ensures
        ({
            let f = sunlight::dimmed(light, Some(d), mass);
            let part = d.mass_scale.times(mass);
            let thin = light.minus(part.times(d.factor));
            let thick = light.minus(num(ONE).times(d.factor));
            &&& part.lt(num(ONE)) && num(ZERO).lt(thin) ==> f == thin
            &&& part.lt(num(ONE)) && thin.le(num(ZERO)) ==> f == num(ZERO)
            &&& num(ONE).le(part) && num(ZERO).lt(thick) ==> f == thick
            &&& num(ONE).le(part) && thick.le(num(ZERO)) ==> f == num(ZERO)
        }),
{
    laws::lemma_product_sign(d.mass_scale, mass);
}

/// What light falls through to reach a cell is what is in the cell above it, unless the cell is
/// marked as opaque; a mark for shade keeps all of it from what is below.
pub proof fn law_what_light_passes(env: Env, s: State, cell: int, light: F32)
    requires
        0 <= cell,
        cell + env.width < s.updated.len(),
    ensures
        ({
            let (here, on) = sunlight::through(env, s, cell, light);
            let m = s.updated[cell].properties;
            let above = s.updated[cell + env.width];
            let d = env.elements.spec_light_absorption(above.element_idx);
            &&& m & 0x30 != 0x30 ==> here == sunlight::dimmed(light, d, above.mass)
            &&& m & 0x30 == 0x30 ==> here == sunlight::dimmed(
                light,
                env.elements.spec_light_absorption(env.elements.spec_index_of(0x2531469c)),
                above.mass,
            )
            &&& m & 0x30 == 0 ==> on == here
            &&& m & 0x30 == 0x10 ==> on == here
            &&& m & 0x30 == 0x20 ==> on == num(ZERO)
            &&& m & 0x30 == 0x30 ==> on == here
        }),
{
    let m = s.updated[cell].properties;
    assert(m & 0x30 == 0 ==> m & 0x20 == 0) by (bit_vector);
    assert(m & 0x30 == 0x10 ==> m & 0x20 == 0) by (bit_vector);
    assert(m & 0x30 == 0x20 ==> m & 0x20 != 0) by (bit_vector);
}

/// Light starts in full below the sky, and each row gets what the row above it lets through.
pub proof fn law_light_from_row_to_row(env: Env, s: State, w: WorldOffsetData, row: int, col: int)
    requires
        w.height > 0,
        0 <= row,
    ensures
        ({
            let l = sunlight::light_above(env, s, w, row, col);
            &&& row >= w.height - 2 ==> l == num(ONE)
            &&& row < w.height - 2 ==> match sunlight::world_cell(env, s, w, row + 1, col) {
                Some(c) => l == sunlight::through(
                    env,
                    s,
                    c,
                    sunlight::light_above(env, s, w, row + 1, col),
                ).1,
                None => l == sunlight::light_above(env, s, w, row + 1, col),
            }
        }),
{
}

/// A light is shown as a byte in proportion to it, up to one and one part in a million.
pub proof fn law_brightness(light: F32)
    requires
        is_amount(light),
        light.le(num(ONE)),
    ensures
        ({
            let b = light_laws::brightness(light);
            let p = pow2(149);
            let e = 255 * light.value();
            -(e + 0x20_0000 * p) <= 0x10_0000 * (b * p - e) <= e + 0x20_0000 * p
        }),
        light == num(ONE) ==> light_laws::brightness(light) == 255,
        light.rank() == 0 ==> light_laws::brightness(light) == 0,
{
    let p = pow2(149) as int;
    let x = num(BYTE_MAX);
    let z = light.times(x);
    lemma_pow2_pos(149);
    lemma2_to64();
    lemma_byte();
    number_laws::lemma_one();
    laws::lemma_zero_value();
    liquid_laws::lemma_amount_value(light);
    number_laws::law_order_is_by_value(light, num(ONE));
    let v = light.value();
    lemma_pow2_strictly_increases(149, 276);
    lemma_pow2_strictly_increases(28, 149);
    lemma_pow2_adds(149, 8);
    lemma_pow2_strictly_increases(157, 276);
    assert(0 <= v * x.value() <= p * pow2(276)) by (nonlinear_arith)
        requires
            0 <= v <= p,
            x.value() == 255 * p,
            256 * p <= pow2(276),
            p > 0,
    ;
    number_laws::law_product_is_near(light, x);
    number_laws::law_times_commutes(light, x);
    number_laws::law_part_of_whole(x, light);
    number_laws::law_order_is_by_value(z, x);
    heat_laws::lemma_integer_part(z, 255);
    let k = z.to_i32() as int;
    assert(light_laws::brightness(light) == k) by {
        reveal(F32::to_range);
        if z.rank() == 0 {
            laws::lemma_whole_zero(z);
        }
    }
    let zv = z.value();
    let e = 255 * v;
    assert(v * x.value() == e * p) by (nonlinear_arith)
        requires
            x.value() == 255 * p,
            e == 255 * v,
    ;
    assert(-(e + 0x80_0000) <= 0x100_0000 * (zv - e) <= e + 0x80_0000) by {
        let d = zv - e;
        let f = e + 0x80_0000;
        assert(d * p == zv * p - e * p && f * p == e * p + 0x80_0000 * p) by (nonlinear_arith)
            requires
                d == zv - e,
                f == e + 0x80_0000,
        ;
        assert(-f <= 0x100_0000 * d <= f) by (nonlinear_arith)
            requires
                -(f * p) <= 0x100_0000 * (d * p) <= f * p,
                p > 0,
        ;
    }
    if light == num(ONE) {
        number_laws::law_times_one(x);
        assert(z == x);
        assert(k == 255) by (nonlinear_arith)
            requires
                k * p <= 255 * p < k * p + p,
                p > 0,
        ;
    }
    if light.rank() == 0 {
        laws::lemma_product_sign(light, x);
        laws::lemma_whole_zero(z);
        reveal(F32::to_range);
    }
}

proof fn lemma_byte()
    ensures
        num(BYTE_MAX).value() == 255 * pow2(149),
        is_amount(num(BYTE_MAX)),
{
    lemma2_to64();
    let m = num(BYTE_MAX).mag() as nat;
    lemma_pow2_adds(16, 133);
    assert(rounding::exponent(m) == 133);
    assert(rounding::significand(m) == 255 * 0x1_0000);
    let p = pow2(133) as int;
    assert((255 * 0x1_0000) * p == 255 * (0x1_0000 * p)) by (nonlinear_arith);
}

/// The pixel in row `r` and column `c` of the texture of flows shows the cell one row and one
/// column further on: the flow to the left less that to the right, and the flow up less that down,
/// for each unit of mass above one; and nothing where the element has changed.
pub proof fn law_flow_pixel(env: Env, s: State, t: Textures, r: int, c: int)
    requires
        !s.unallocated(),
        s.flow.len() != 0,
        t.flow.len() == t.width * t.height,
        0 <= r < t.height,
        0 <= c < t.width,
    ensures
        ({
            let i = (r + 1) * env.width + c + 1;
            let p = property_texture::flow_texture(env, s, t)[r * t.width + c];
            let v = s.flow[i];
            let m = s.updated[i].mass;
            let same = s.updated[i].element_idx == s.cells[i].element_idx;
            let (x, y) = (v.x.minus(v.y), v.w.minus(v.z));
            &&& !same ==> p.x == x.times(num(ZERO)) && p.y == y.times(num(ZERO))
            &&& same && m.le(num(ONE)) && !x.is_nan() && !y.is_nan() && x.is_finite()
                && y.is_finite() ==> p.x == x && p.y == y
            &&& same && num(ONE).lt(m) ==> p.x == x.times(num(ONE).over(m)) && p.y == y.times(
                num(ONE).over(m),
            )
        }),
{
    let g = r * t.width + c;
    let w = t.width;
    vstd::arithmetic::div_mod::lemma_fundamental_div_mod_converse(g, w, r, c);
    assert(0 <= g < w * t.height) by (nonlinear_arith)
        requires
            g == r * w + c,
            0 <= r < t.height,
            0 <= c < w,
    ;
    let i = (r + 1) * env.width + c + 1;
    assert(t.cell_of(env, g) == i);
    let v = s.flow[i];
    let (x, y) = (v.x.minus(v.y), v.w.minus(v.z));
    if x.is_finite() {
        number_laws::law_times_one(x);
    }
    if y.is_finite() {
        number_laws::law_times_one(y);
    }
}

/// How full a cell is: a thousandth for each unit of mass, and at most once.
pub proof fn law_fill_level(mass: F32)
    requires
        is_amount(mass),
    ensures
        ({
            let f = property_texture::fill_level(mass);
            &&& num(ZERO).le(f)
            &&& f.le(num(ONE))
            &&& num(THOUSAND).le(mass) ==> f == num(ONE)
            &&& mass.le(num(THOUSAND)) ==> f == mass.over(num(THOUSAND))
        }),
{
    let k = num(THOUSAND);
    let p = pow2(149) as int;
    lemma_pow2_pos(149);
    number_laws::lemma_one();
    laws::lemma_zero_value();
    assert(p * k.value() == k.value() * p) by (nonlinear_arith);
    lemma_thousand();
    number_laws::law_over_exact(k, k, num(ONE));
    break_laws::lemma_over_monotone(mass, mass, k);
    if k.le(mass) {
        break_laws::lemma_over_monotone(k, mass, k);
    } else {
        break_laws::lemma_over_monotone(mass, k, k);
    }
    if mass.le(k) {
        break_laws::lemma_over_monotone(mass, k, k);
    }
    number_laws::law_clamp(mass.over(k), num(ZERO), num(ONE));
}

proof fn lemma_thousand()
    ensures
        num(THOUSAND).value() > 0,
        is_amount(num(THOUSAND)),
{
    constant_laws::law_constants();
    lemma_pow2_pos(149);
}

/// Where a temperature lies between those at which an element changes phase, three degrees beyond
/// each: below a half it goes towards the colder change, else towards the hotter one.
pub proof fn law_thermal(d: ElementTemperatureData, temperature: F32)
    ensures
        ({
            let (f, goal) = property_texture::thermal(Some(d), temperature);
            let low = d.low_temp.minus(num(THREE));
            let high = d.high_temp.plus(num(THREE));
            let part = temperature.minus(low).over(high.minus(low));
            &&& num(ONE).lt(part) ==> f == num(ONE) && goal == d.high_temp_transition_idx
            &&& part.lt(num(ZERO)) ==> f == num(ZERO) && goal == d.low_temp_transition_idx
            &&& num(ZERO).le(part) && part.lt(num(HALF)) ==> f == part && goal
                == d.low_temp_transition_idx
            &&& num(HALF).le(part) && part.le(num(ONE)) ==> f == part && goal
                == d.high_temp_transition_idx
        }),
{
}

/// A liquid is shown as full as it is where its surface is: where a gas or nothing is above it, and
/// no mark that holds liquids back. Below the surface it is shown in full.
pub proof fn law_opacity(env: Env, s: State, fullness: Seq<F32>, cell: int)
    ensures
        ({
            let a = property_texture::opacity(env, s, fullness, cell);
            let above = cell + env.width;
            let p = match env.elements.spec_property_texture(s.updated[above].element_idx) {
                Some(d) => d.state & 3,
                None => 0,
            };
            let held = s.cells[above].properties & 2 != 0;
            &&& p < 2 && !held ==> a == fullness[cell]
            &&& p >= 2 || held ==> a == num(ONE)
        }),
{
}

/// A liquid's pixels: how full it is and its colour; how near it is to a change of phase and the
/// colour of what it changes into; and the properties of its material.
pub proof fn law_liquid_pixel(env: Env, s: State, t: Textures, fullness: Seq<F32>, cell: int)
    requires
        env.elements.spec_property_texture(s.updated[cell].element_idx) matches Some(d) && d.state & 3
            == 2,
    ensures
        ({
            let p = property_texture::liquid_pixel(env, s, t, fullness, cell);
            let c = s.updated[cell];
            let d = env.elements.spec_property_texture(c.element_idx)->0;
            let (f, goal) = property_texture::thermal(
                env.elements.spec_temperature(c.element_idx),
                c.temperature,
            );
            let into = match env.elements.spec_property_texture(goal) {
                Some(e) if goal != 0xffff => e.colour,
                _ => 0xff_ffff,
            };
            let full = property_texture::to_byte(
                property_texture::opacity(env, s, fullness, cell),
            );
            &&& p.material == d.material_properties & 0xff00_000f
            &&& p.liquid >> 24 == full
            &&& p.data >> 24 == property_texture::to_byte(f)
            &&& p.data & 0xff_ffff == into & 0xff_ffff
        }),
{
    let c = s.updated[cell];
    let d = env.elements.spec_property_texture(c.element_idx)->0;
    let (f, goal) = property_texture::thermal(
        env.elements.spec_temperature(c.element_idx),
        c.temperature,
    );
    let full = property_texture::to_byte(property_texture::opacity(env, s, fullness, cell));
    let near = property_texture::to_byte(f);
    let colour = property_texture::graded(
        d.colour,
        d.gradient@,
        d.number_of_gradient_colors as int,
        property_texture::depth(env, s, t, fullness, cell, true),
        d.number_of_gradient_colors as int,
    );
    let into = property_texture::colour_of(env.elements, goal);
    assert(full < 256 && near < 256);
    assert(((full << 24) | (colour & 0xff_ffff)) >> 24 == full) by (bit_vector)
        requires
            full < 256,
    ;
    assert(((near << 24) | (into & 0xff_ffff)) >> 24 == near && ((near << 24) | (into & 0xff_ffff))
        & 0xff_ffff == into & 0xff_ffff) by (bit_vector)
        requires
            near < 256,
    ;
}

/// The sunlight on a cell is that of its pixel, one row and one column before it.
pub proof fn law_sunlight_on_a_cell(env: Env, t: Textures, r: int, c: int)
    requires
        env.width >= 3,
        0 <= r < t.height,
        0 <= c < t.width,
        t.width <= env.width - 2,
        t.sunlight.len() == t.width * t.height,
    ensures
        property_texture::sunlight_at(env, t, (r + 1) * env.width + c + 1) == t.sunlight[r * t.width
            + c],
{
    let w = env.width as int;
    let i = (r + 1) * w + c + 1;
    vstd::arithmetic::div_mod::lemma_fundamental_div_mod_converse(i, w, r + 1, c + 1);
    assert(0 <= r * t.width + c < t.width * t.height) by (nonlinear_arith)
        requires
            0 <= r < t.height,
            0 <= c < t.width,
    ;
}

/// How deep a cell is: nothing that is not a liquid or a solid is deep, and a solid is as deep as
/// can be. A liquid at the surface is not deep. Under a liquid or a solid it is as deep as it is
/// dark and full, but no deeper than the cell above it, whose own depth counts by itself.
pub proof fn law_depth(env: Env, s: State, t: Textures, fullness: Seq<F32>, cell: int)
    requires
        0 <= cell,
        cell + env.width < env.cell_count(),
        env.elements.spec_property_texture(s.updated[cell].element_idx) is Some,
        env.elements.spec_property_texture(s.updated[cell + env.width].element_idx) is Some,
    ensures
        ({
            let above = cell + env.width;
            let p = env.elements.spec_property_texture(s.updated[cell].element_idx)->0.state & 3;
            let q = env.elements.spec_property_texture(s.updated[above].element_idx)->0.state & 3;
            let light = F32::from_i32(property_texture::sunlight_at(env, t, cell) as i32).times(
                num(BYTE_STEP),
            );
            let dark = num(ONE).minus(light).clamp(num(ZERO), num(ONE)).times(fullness[cell]);
            let d = property_texture::depth(env, s, t, fullness, cell, true);
            let e = property_texture::depth(env, s, t, fullness, cell, false);
            let over = property_texture::depth(env, s, t, fullness, above, false);
            &&& p < 2 ==> d == num(ZERO) && e == num(ZERO)
            &&& p > 2 ==> d == num(ONE) && e == num(ONE)
            &&& p == 2 && q < 2 ==> d == num(ZERO) && e == num(ZERO)
            &&& p == 2 && q >= 2 && dark.lt(num(ONE)) ==> e == dark
            &&& p == 2 && q >= 2 && num(ZERO).lt(dark) && dark.lt(over) ==> d == dark
            &&& p == 2 && q >= 2 && num(ZERO).lt(dark) && over.le(dark) ==> d == over
        }),
{
    reveal_with_fuel(property_texture::depth, 3);
}

/// A liquid is shown in the colour of its gradient at its depth.
pub proof fn law_colour_of_a_liquid(
    env: Env,
    s: State,
    t: Textures,
    fullness: Seq<F32>,
    cell: int,
)
    requires
        env.elements.spec_property_texture(s.updated[cell].element_idx) matches Some(d) && d.state
            & 3 == 2,
    ensures
        ({
            let p = property_texture::liquid_pixel(env, s, t, fullness, cell);
            let d = env.elements.spec_property_texture(s.updated[cell].element_idx)->0;
            let n = d.number_of_gradient_colors as int;
            let deep = property_texture::depth(env, s, t, fullness, cell, true);
            p.liquid & 0xff_ffff == property_texture::graded(d.colour, d.gradient@, n, deep, n)
                & 0xff_ffff
        }),
{
    let d = env.elements.spec_property_texture(s.updated[cell].element_idx)->0;
    let n = d.number_of_gradient_colors as int;
    let deep = property_texture::depth(env, s, t, fullness, cell, true);
    let colour = property_texture::graded(d.colour, d.gradient@, n, deep, n);
    let full = property_texture::to_byte(property_texture::opacity(env, s, fullness, cell));
    assert(((full << 24) | (colour & 0xff_ffff)) & 0xff_ffff == colour & 0xff_ffff) by (bit_vector);
}

/// Between two colours of a gradient the way from one to the other is in proportion to the depth,
/// and each colour counts from its own depth on.
pub proof fn law_between_two_colours(colour: u32, gradient: Seq<u32>, n: int, t: F32, i: int)
    requires
        0 < i < n,
        n <= gradient.len(),
        property_texture::spec_from_byte(gradient[i - 1] >> 24).le(t),
    ensures
        ({
            let a = property_texture::spec_from_byte(gradient[i - 1] >> 24);
            let b = property_texture::spec_from_byte(gradient[i] >> 24);
            let way = t.minus(a).over(b.minus(a));
            let c = property_texture::graded(colour, gradient, n, t, i);
            &&& a.lt(b) && num(ZERO).lt(b.minus(a)) && num(ZERO).le(way) && way.le(num(ONE)) ==> c
                == property_texture::blended(gradient[i - 1], gradient[i], way)
            &&& a.lt(b) && num(ZERO).lt(b.minus(a)) && num(ONE).lt(way) ==> c
                == property_texture::blended(gradient[i - 1], gradient[i], num(ONE))
        }),
{
}

/// A byte counts in steps of one part in 255.
pub proof fn law_bytes_as_fractions(b: u32)
    requires
        b < 256,
    ensures
        property_texture::spec_from_byte(b) == F32::from_i32(b as i32).times(num(BYTE_STEP)),
{
}

} // verus!
