//! The textures by which the game shows flows, liquids and sunlight.
//!
//! How full a liquid cell looks is a power with a fractional exponent. Those are not computed
//! here: `liquid_fill_levels` says of what, and `update_liquid_property_texture` takes the powers.
use crate::cell::Cell;
use crate::constants::BYTE_MAX;
use crate::constants::BYTE_STEP;
use crate::constants::HALF;
use crate::constants::ONE;
use crate::constants::THOUSAND;
use crate::constants::THREE;
use crate::constants::ZERO;
use crate::element::phase;
use crate::element::ElementPropertyTextureData;
use crate::element::ElementTemperatureData;
use crate::element::ElementsTable;
use crate::element::LIQUID;
use crate::element::NO_ELEMENT;
use crate::grid::marked;
use crate::grid::LIQUID_IMPERMEABLE;
use crate::number::num;
use crate::number::F32;
use crate::sim_data::Env;
use crate::sim_data::SimData;
use crate::sim_data::State;
use crate::sim_data::Vector4f;
use vstd::prelude::*;

verus! {

/// The colour of what has no colour.
pub const WHITE: u32 = 0x00ff_ffff;

/// The bits of an element's material that a texture shows.
pub const MATERIAL_MASK: u32 = 0xff00_000f;

/// A flow across and upwards.
#[derive(Clone, Copy, Debug)]
pub struct Vector2f {
    pub x: F32,
    pub y: F32,
}

/// The textures of the game, row by row. One that is empty is absent.
#[derive(Debug)]
pub struct GameData {
    pub width: usize,
    pub height: usize,
    pub property_texture_flow: Vec<Vector2f>,
    pub property_texture_liquid: Vec<u32>,
    pub property_texture_liquid_data: Vec<u32>,
    pub property_texture_material_data: Vec<u32>,
    pub property_texture_exposed_to_sunlight: Vec<u8>,
}

/// What the textures hold.
#[verifier::ext_equal]
pub ghost struct Textures {
    pub width: int,
    pub height: int,
    pub flow: Seq<Vector2f>,
    pub liquid: Seq<u32>,
    pub liquid_data: Seq<u32>,
    pub material: Seq<u32>,
    pub sunlight: Seq<u8>,
}

impl View for GameData {
    type V = Textures;

    open spec fn view(&self) -> Textures {
        Textures {
            width: self.width as int,
            height: self.height as int,
            flow: self.property_texture_flow@,
            liquid: self.property_texture_liquid@,
            liquid_data: self.property_texture_liquid_data@,
            material: self.property_texture_material_data@,
            sunlight: self.property_texture_exposed_to_sunlight@,
        }
    }
}

impl Textures {
    /// The number of pixels.
    pub open spec fn area(self) -> int {
        self.width * self.height
    }

    /// Each texture is absent or has all pixels.
    pub open spec fn wf(self) -> bool {
        &&& self.flow.len() == 0 || self.flow.len() == self.area()
        &&& self.liquid.len() == 0 || self.liquid.len() == self.area()
        &&& self.liquid_data.len() == 0 || self.liquid_data.len() == self.area()
        &&& self.material.len() == 0 || self.material.len() == self.area()
        &&& self.sunlight.len() == 0 || self.sunlight.len() == self.area()
    }

    /// The cell of the grid, which has a border, that a pixel shows.
    pub open spec fn cell_of(self, env: Env, g: int) -> int {
        (g / self.width + 1) * env.width + 1 + g % self.width
    }

    /// Every pixel shows a cell of the grid.
    pub open spec fn is_in_grid(self, env: Env) -> bool {
        self.area() > 0 ==> self.height * env.width + self.width < env.cell_count()
    }

    /// Every pixel shows a cell of the grid that has a cell above it.
    pub open spec fn fits(self, env: Env) -> bool {
        self.area() > 0 ==> (self.height + 1) * env.width + self.width < env.cell_count()
    }
}

impl GameData {
    /// Whether a texture of `n` pixels is absent or has them all.
    fn is_covered(&self, n: usize) -> (b: bool)
        ensures
            b == (n == 0 || n == self@.area()),
    {
        proof {
            assert(0 <= self.width * self.height <= 0xffff_ffff_ffff_ffff * 0xffff_ffff_ffff_ffff)
                by (nonlinear_arith)
                requires
                    0 <= self.width <= 0xffff_ffff_ffff_ffff,
                    0 <= self.height <= 0xffff_ffff_ffff_ffff,
            ;
        }
        n == 0 || n as u128 == self.width as u128 * self.height as u128
    }

    /// Whether each texture is absent or has all pixels.
    pub fn is_valid(&self) -> (b: bool)
        ensures
            b == self@.wf(),
    {
        self.is_covered(self.property_texture_flow.len()) && self.is_covered(
            self.property_texture_liquid.len(),
        ) && self.is_covered(self.property_texture_liquid_data.len()) && self.is_covered(
            self.property_texture_material_data.len(),
        ) && self.is_covered(self.property_texture_exposed_to_sunlight.len())
    }

    /// Whether every pixel shows a cell of the grid.
    pub fn is_in_grid(&self, env: &Env) -> (b: bool)
        requires
            env.wf(),
        ensures
            b == self@.is_in_grid(*env),
    {
        proof {
            assert(self.width * self.height > 0 <==> self.width > 0 && self.height > 0)
                by (nonlinear_arith)
                requires
                    self.width >= 0,
                    self.height >= 0,
            ;
            assert(0 <= self.height * env.width <= 0xffff_ffff_ffff_ffff * 0x7fff_ffff)
                by (nonlinear_arith)
                requires
                    0 <= self.height <= 0xffff_ffff_ffff_ffff,
                    0 <= env.width <= 0x7fff_ffff,
            ;
        }
        self.width == 0 || self.height == 0 || self.height as u128 * env.width as u128 + (
        self.width as u128) < env.total() as u128
    }

    /// Whether every pixel shows a cell of the grid that has a cell above it.
    pub fn is_fitting(&self, env: &Env) -> (b: bool)
        requires
            env.wf(),
        ensures
            b == self@.fits(*env),
    {
        proof {
            assert(self.width * self.height > 0 <==> self.width > 0 && self.height > 0)
                by (nonlinear_arith)
                requires
                    self.width >= 0,
                    self.height >= 0,
            ;
            assert(0 <= (self.height + 1) * env.width <= 0x1_0000_0000_0000_0000 * 0x7fff_ffff)
                by (nonlinear_arith)
                requires
                    0 <= self.height <= 0xffff_ffff_ffff_ffff,
                    0 <= env.width <= 0x7fff_ffff,
            ;
        }
        self.width == 0 || self.height == 0 || (self.height as u128 + 1) * env.width as u128
            + (self.width as u128) < env.total() as u128
    }
}

/// A pixel shows a cell of the grid.
proof fn lemma_pixel(t: Textures, env: Env, g: int)
    requires
        t.is_in_grid(env),
        0 <= g < t.area(),
        t.width >= 0,
        t.height >= 0,
    ensures
        t.width > 0,
        0 <= g / t.width < t.height,
        0 <= g % t.width < t.width,
        0 <= (g / t.width + 1) * env.width <= t.height * env.width,
        0 <= t.cell_of(env, g) < env.cell_count(),
{
    let w = t.width;
    let h = t.height;
    let ew = env.width as int;
    assert(w > 0) by (nonlinear_arith)
        requires
            w * h > 0,
            w >= 0,
    ;
    vstd::arithmetic::div_mod::lemma_fundamental_div_mod(g, w);
    let q = g / w;
    let r = g % w;
    assert(0 <= q < h) by (nonlinear_arith)
        requires
            g == w * q + r,
            0 <= r < w,
            0 <= g < w * h,
    ;
    assert(0 <= (q + 1) * ew && (q + 1) * ew <= h * ew) by (nonlinear_arith)
        requires
            0 <= q < h,
            ew >= 0,
    ;
}

/// A pixel shows a cell of the grid, with a cell above it.
proof fn lemma_cell_of(t: Textures, env: Env, g: int)
    requires
        t.fits(env),
        0 <= g < t.area(),
        t.width >= 0,
        t.height >= 0,
    ensures
        t.width > 0,
        0 <= g / t.width < t.height,
        0 <= g % t.width < t.width,
        0 <= (g / t.width + 1) * env.width,
        0 <= t.cell_of(env, g),
        t.cell_of(env, g) + env.width < env.cell_count(),
{
    let h = t.height;
    let ew = env.width as int;
    assert((h + 1) * ew == h * ew + ew) by (nonlinear_arith);
    lemma_pixel(t, env, g);
}

pub open spec fn spec_flow_pixel(was: Cell, c: Cell, v: Vector4f) -> Vector2f {
    let scale = if c.element_idx == was.element_idx {
        if c.mass.le(num(ONE)) {
            num(ONE)
        } else {
            num(ONE).over(c.mass)
        }
    } else {
        num(ZERO)
    };
    Vector2f { x: v.x.minus(v.y).times(scale), y: v.w.minus(v.z).times(scale) }
}

/// How a flow is shown: in proportion to the mass that flows, and not at all where the element
/// has changed.
#[verifier::when_used_as_spec(spec_flow_pixel)]
pub fn flow_pixel(was: Cell, c: Cell, v: Vector4f) -> (p: Vector2f)
    ensures
        p == spec_flow_pixel(was, c, v),
{
    let scale = if c.element_idx == was.element_idx {
        if c.mass.le(num(ONE)) {
            num(ONE)
        } else {
            num(ONE).over(c.mass)
        }
    } else {
        num(ZERO)
    };
    Vector2f { x: v.x.minus(v.y).times(scale), y: v.w.minus(v.z).times(scale) }
}

/// The texture of flows.
pub open spec fn flow_texture(env: Env, s: State, t: Textures) -> Seq<Vector2f> {
    if s.unallocated() || s.flow.len() == 0 || t.flow.len() == 0 {
        t.flow
    } else {
        Seq::new(
            t.flow.len(),
            |g: int|
                {
                    let c = t.cell_of(env, g);
                    flow_pixel(s.cells[c], s.updated[c], s.flow[c])
                },
        )
    }
}

/// Shows the flows.
pub fn update_flow_texture(sim: &SimData, game: &mut GameData)
    requires
        sim.wf(),
        old(game)@.wf(),
        sim@.unallocated() || sim@.flow.len() == 0 || old(game)@.is_in_grid(sim.env),
    ensures
        final(game)@ == (Textures {
            flow: flow_texture(sim.env, sim@, old(game)@),
            ..old(game)@
        }),
{
    if sim.cells.len() == 0 || sim.updated_cells.len() == 0 || sim.flow.len() == 0 {
        return;
    }
    let n: usize = game.property_texture_flow.len();
    let w: usize = game.width;
    let mut g: usize = 0;
    while g < n
        invariant
            g <= n,
            n == game.property_texture_flow@.len(),
            w == game.width,
            sim.wf(),
            sim@.cells.len() == sim.env.cell_count(),
            sim@.updated.len() == sim.env.cell_count(),
            sim@.flow.len() == sim.env.cell_count(),
            old(game)@.wf(),
            old(game)@.is_in_grid(sim.env),
            old(game)@.flow.len() == n,
            game@ == (Textures { flow: game@.flow, ..old(game)@ }),
            forall|i: int|
                0 <= i < g ==> game@.flow[i] == {
                    let c = old(game)@.cell_of(sim.env, i);
                    flow_pixel(sim@.cells[c], sim@.updated[c], sim@.flow[c])
                },
        decreases n - g,
    {
        proof {
            lemma_pixel(old(game)@, sim.env, g as int);
        }
        let c: usize = (g / w + 1) * sim.env.width + 1 + g % w;
        let p = flow_pixel(sim.cells[c], sim.updated_cells[c], sim.flow[c]);
        game.property_texture_flow.set(g, p);
        g = g + 1;
    }
    assert(game@.flow =~= flow_texture(sim.env, sim@, old(game)@));
}

pub open spec fn spec_fill_level(mass: F32) -> F32 {
    mass.over(num(THOUSAND)).clamp(num(ZERO), num(ONE))
}

/// How full a cell is with a mass of liquid.
#[verifier::when_used_as_spec(spec_fill_level)]
pub fn fill_level(mass: F32) -> (f: F32)
    ensures
        f == spec_fill_level(mass),
{
    mass.over(num(THOUSAND)).clamp(num(ZERO), num(ONE))
}

/// How full each cell is. A liquid looks as full as the power of this with exponent 0.45.
pub fn liquid_fill_levels(sim: &SimData) -> (r: Vec<F32>)
    ensures
        r@ == sim@.updated.map_values(|c: Cell| fill_level(c.mass)),
{
    let mut r: Vec<F32> = Vec::new();
    let n: usize = sim.updated_cells.len();
    let mut i: usize = 0;
    while i < n
        invariant
            i <= n,
            n == sim@.updated.len(),
            r@.len() == i,
            forall|j: int| 0 <= j < i ==> r@[j] == fill_level(sim@.updated[j].mass),
        decreases n - i,
    {
        r.push(fill_level(sim.updated_cells[i].mass));
        i = i + 1;
    }
    assert(r@ =~= sim@.updated.map_values(|c: Cell| fill_level(c.mass)));
    r
}

/// The lowest byte of a number.
pub open spec fn spec_low_byte(x: int) -> u32 {
    (x % 256) as u32
}

/// The lowest byte of a number.
pub fn low_byte(x: i64) -> (b: u32)
    requires
        -0x1_0000_0000 <= x <= 0x1_0000_0000,
    ensures
        b == spec_low_byte(x as int),
        b < 256,
{
    ((x + 0x1_0000_0000) % 256) as u32
}

/// A fraction as a byte.
pub open spec fn spec_to_byte(f: F32) -> u32 {
    spec_low_byte(f.times(num(BYTE_MAX)).to_i32() as int)
}

/// A fraction as a byte.
#[verifier::when_used_as_spec(spec_to_byte)]
pub fn to_byte(f: F32) -> (b: u32)
    ensures
        b == spec_to_byte(f),
{
    low_byte(f.times(num(BYTE_MAX)).to_i32() as i64)
}

/// A byte as a fraction.
pub open spec fn spec_from_byte(b: u32) -> F32 {
    F32::from_i32(b as i32).times(num(BYTE_STEP))
}

/// A byte as a fraction.
pub fn from_byte(b: u32) -> (f: F32)
    requires
        b < 256,
    ensures
        f == spec_from_byte(b),
{
    F32::from_i32(b as i32).times(num(BYTE_STEP))
}

/// A channel of a colour between two others.
pub open spec fn blended_channel(lower: u32, upper: u32, f: F32) -> u32 {
    spec_low_byte(lower + F32::from_i32((upper - lower) as i32).times(f).to_i32())
}

fn blend_channel(lower: u32, upper: u32, f: F32) -> (c: u32)
    requires
        lower < 256,
        upper < 256,
    ensures
        c == blended_channel(lower, upper, f),
        c < 256,
{
    let d: i32 = F32::from_i32(upper as i32 - lower as i32).times(f).to_i32();
    low_byte(lower as i64 + d as i64)
}

/// A colour between two others, without the highest byte.
pub open spec fn blended(lower: u32, upper: u32, f: F32) -> u32 {
    blended_channel(lower & 0xff, upper & 0xff, f) | (blended_channel(
        (lower >> 8) & 0xff,
        (upper >> 8) & 0xff,
        f,
    ) << 8) | (blended_channel((lower >> 16) & 0xff, (upper >> 16) & 0xff, f) << 16)
}

fn blend(lower: u32, upper: u32, f: F32) -> (c: u32)
    ensures
        c == blended(lower, upper, f),
{
    proof {
        lemma_bytes(lower);
        lemma_bytes(upper);
    }
    blend_channel(lower & 0xff, upper & 0xff, f) | (blend_channel(
        (lower >> 8) & 0xff,
        (upper >> 8) & 0xff,
        f,
    ) << 8) | (blend_channel((lower >> 16) & 0xff, (upper >> 16) & 0xff, f) << 16)
}

/// The parts of a colour are bytes.
proof fn lemma_bytes(x: u32)
    ensures
        x & 0xff < 256,
        (x >> 8) & 0xff < 256,
        (x >> 16) & 0xff < 256,
        x >> 24 < 256,
{
    assert(x & 0xff < 256 && (x >> 8) & 0xff < 256 && (x >> 16) & 0xff < 256 && x >> 24 < 256)
        by (bit_vector);
}

/// The colour at depth `t` after the first `i` colours of a gradient of `n`. The highest byte of
/// each says from which depth on it counts; there it passes into the next.
pub open spec fn graded(colour: u32, gradient: Seq<u32>, n: int, t: F32, i: int) -> u32
    decreases i,
{
    if i <= 0 {
        colour
    } else {
        let lower = gradient[i - 1];
        let upper = if i < n {
            gradient[i]
        } else {
            lower
        };
        let a = spec_from_byte(lower >> 24);
        let span = spec_from_byte(upper >> 24).minus(a);
        if a.le(t) {
            blended(
                lower,
                upper,
                (if num(ZERO).lt(span) {
                    t.minus(a).over(span)
                } else {
                    num(ZERO)
                }).clamp(num(ZERO), num(ONE)),
            )
        } else {
            graded(colour, gradient, n, t, i - 1)
        }
    }
}

/// The colour of a gradient at depth `t`.
pub fn interpolate_gradient_colour(
    colour: u32,
    gradient: &[u32; 6],
    number_of_gradient_colors: u8,
    t: F32,
) -> (c: u32)
    requires
        number_of_gradient_colors <= 6,
    ensures
        c == graded(
            colour,
            gradient@,
            number_of_gradient_colors as int,
            t,
            number_of_gradient_colors as int,
        ),
{
    let n: usize = number_of_gradient_colors as usize;
    let mut result: u32 = colour;
    let mut i: usize = 0;
    while i < n
        invariant
            i <= n <= 6,
            result == graded(colour, gradient@, n as int, t, i as int),
        decreases n - i,
    {
        let lower: u32 = gradient[i];
        let upper: u32 = if i + 1 < n {
            gradient[i + 1]
        } else {
            lower
        };
        proof {
            lemma_bytes(lower);
            lemma_bytes(upper);
        }
        let a = from_byte(lower >> 24);
        if a.le(t) {
            let span = from_byte(upper >> 24).minus(a);
            let f = if num(ZERO).lt(span) {
                t.minus(a).over(span)
            } else {
                num(ZERO)
            };
            result = blend(lower, upper, f.clamp(num(ZERO), num(ONE)));
        }
        i = i + 1;
    }
    result
}

/// The pixel of a cell; the first where it is on the border.
pub open spec fn pixel_of(env: Env, t: Textures, cell: int) -> int {
    let row = cell / env.width as int;
    let col = cell % env.width as int;
    if row > 0 && col > 0 {
        (row - 1) * t.width + (col - 1)
    } else {
        0
    }
}

/// The sunlight at a cell; none where no pixel shows it.
pub open spec fn sunlight_at(env: Env, t: Textures, cell: int) -> u8 {
    let g = pixel_of(env, t, cell);
    if 0 <= g < t.sunlight.len() {
        t.sunlight[g]
    } else {
        0
    }
}

fn get_sunlight_at(env: &Env, game: &GameData, cell: usize) -> (b: u8)
    requires
        env.width > 0,
    ensures
        b == sunlight_at(*env, game@, cell as int),
{
    let row: usize = cell / env.width;
    let col: usize = cell % env.width;
    let g: u128 = if row > 0 && col > 0 {
        proof {
            assert(0 <= (row - 1) * game.width <= 0xffff_ffff_ffff_ffff * 0xffff_ffff_ffff_ffff)
                by (nonlinear_arith)
                requires
                    0 <= row - 1 <= 0xffff_ffff_ffff_ffff,
                    0 <= game.width <= 0xffff_ffff_ffff_ffff,
            ;
        }
        (row as u128 - 1) * game.width as u128 + (col as u128 - 1)
    } else {
        0
    };
    if g < game.property_texture_exposed_to_sunlight.len() as u128 {
        game.property_texture_exposed_to_sunlight[g as usize]
    } else {
        0
    }
}

/// The depth that a liquid cell shows by itself: none where the cell above is open, else the
/// less the more sunlight there is.
pub open spec fn own_depth(
    env: Env,
    t: Textures,
    fullness: Seq<F32>,
    cell: int,
    above: ElementPropertyTextureData,
) -> F32 {
    if phase(above.state) < LIQUID {
        num(ZERO)
    } else {
        num(ONE).minus(
            F32::from_i32(sunlight_at(env, t, cell) as i32).times(num(BYTE_STEP)),
        ).clamp(num(ZERO), num(ONE)).times(fullness[cell])
    }
}

/// The depth that a cell shows: none for gases, the full for solids. That of a liquid is limited
/// by the cell above where `deep` asks for it.
pub open spec fn depth(
    env: Env,
    s: State,
    t: Textures,
    fullness: Seq<F32>,
    cell: int,
    deep: bool,
) -> F32
    decreases
            (if deep {
                1int
            } else {
                0int
            }),
{
    let above = cell + env.width;
    if above >= env.cell_count() {
        num(ZERO)
    } else {
        match (
            env.elements.spec_property_texture(s.updated[cell].element_idx),
            env.elements.spec_property_texture(s.updated[above].element_idx),
        ) {
            (Some(d), Some(a)) => if phase(d.state) == LIQUID {
                let own = own_depth(env, t, fullness, cell, a);
                let limit = if deep && num(ZERO).lt(own) {
                    depth(env, s, t, fullness, above, false)
                } else {
                    num(ONE)
                };
                if limit.le(own) {
                    limit
                } else {
                    own
                }
            } else if phase(d.state) < LIQUID {
                num(ZERO)
            } else {
                num(ONE)
            },
            _ => num(ZERO),
        }
    }
}

/// The depth that a cell shows.
pub fn estimated_liquid_gradient_value(
    sim: &SimData,
    game: &GameData,
    fullness: &Vec<F32>,
    cell: usize,
    recurse: bool,
) -> (f: F32)
    requires
        sim.wf(),
        sim@.updated.len() == sim.env.cell_count(),
        fullness@.len() == sim.env.cell_count(),
        cell < sim.env.cell_count(),
    ensures
        f == depth(sim.env, sim@, game@, fullness@, cell as int, recurse),
    decreases
            (if recurse {
                1int
            } else {
                0int
            }),
{
    let above: usize = cell + sim.env.width;
    if above >= sim.env.total() {
        return num(ZERO);
    }
    let d = match sim.env.elements.property_texture(sim.updated_cells[cell].element_idx) {
        Some(d) => d,
        None => return num(ZERO),
    };
    let a = match sim.env.elements.property_texture(sim.updated_cells[above].element_idx) {
        Some(a) => a,
        None => return num(ZERO),
    };
    let p: u8 = phase(d.state);
    if p == LIQUID {
        let own = if phase(a.state) < LIQUID {
            num(ZERO)
        } else {
            proof {
                assert(sim.env.width > 0) by (nonlinear_arith)
                    requires
                        cell < sim.env.width * sim.env.height,
                        cell >= 0,
                ;
            }
            num(ONE).minus(
                F32::from_i32(get_sunlight_at(&sim.env, game, cell) as i32).times(
                    num(BYTE_STEP),
                ),
            ).clamp(num(ZERO), num(ONE)).times(fullness[cell])
        };
        let limit = if recurse && num(ZERO).lt(own) {
            estimated_liquid_gradient_value(sim, game, fullness, above, false)
        } else {
            num(ONE)
        };
        if limit.le(own) {
            limit
        } else {
            own
        }
    } else if p < LIQUID {
        num(ZERO)
    } else {
        num(ONE)
    }
}

/// Three pixels of the textures of liquids: colour, temperature and material.
#[derive(Clone, Copy, Debug)]
pub struct LiquidPixel {
    pub liquid: u32,
    pub data: u32,
    pub material: u32,
}

/// How opaque a liquid cell looks: as full as it is where the cell above is open, else wholly.
pub open spec fn opacity(env: Env, s: State, fullness: Seq<F32>, cell: int) -> F32 {
    let above = cell + env.width;
    let p = match env.elements.spec_property_texture(s.updated[above].element_idx) {
        Some(d) => phase(d.state),
        None => 0,
    };
    if p < LIQUID && !marked(s.cells[above], LIQUID_IMPERMEABLE) {
        fullness[cell]
    } else {
        num(ONE)
    }
}

/// Where a temperature lies between those at which an element changes phase, give or take
/// three degrees, and what it changes into at the nearer of them.
pub open spec fn spec_thermal(d: Option<ElementTemperatureData>, temperature: F32) -> (F32, u16) {
    let low = match d {
        Some(d) => d.low_temp,
        None => num(ZERO),
    };
    let high = match d {
        Some(d) => d.high_temp,
        None => num(ZERO),
    };
    let cold = match d {
        Some(d) => d.low_temp_transition_idx,
        None => NO_ELEMENT,
    };
    let hot = match d {
        Some(d) => d.high_temp_transition_idx,
        None => NO_ELEMENT,
    };
    let f = temperature.minus(low.minus(num(THREE))).over(
        high.plus(num(THREE)).minus(low.minus(num(THREE))),
    );
    if num(ONE).lt(f) {
        (num(ONE), hot)
    } else if f.lt(num(ZERO)) {
        (num(ZERO), cold)
    } else if f.lt(num(HALF)) {
        (f, cold)
    } else {
        (f, hot)
    }
}

/// Where a temperature lies between those at which an element changes phase, give or take
/// three degrees, and what it changes into at the nearer of them.
#[verifier::when_used_as_spec(spec_thermal)]
pub fn thermal(d: Option<ElementTemperatureData>, temperature: F32) -> (r: (F32, u16))
    ensures
        r == spec_thermal(d, temperature),
{
    let (low, high, cold, hot) = match d {
        Some(d) => (
            d.low_temp,
            d.high_temp,
            d.low_temp_transition_idx,
            d.high_temp_transition_idx,
        ),
        None => (num(ZERO), num(ZERO), NO_ELEMENT, NO_ELEMENT),
    };
    let f = temperature.minus(low.minus(num(THREE))).over(
        high.plus(num(THREE)).minus(low.minus(num(THREE))),
    );
    if num(ONE).lt(f) {
        (num(ONE), hot)
    } else if f.lt(num(ZERO)) {
        (num(ZERO), cold)
    } else if f.lt(num(HALF)) {
        (f, cold)
    } else {
        (f, hot)
    }
}

/// The colour of an element; white where it has none.
pub open spec fn colour_of(elements: ElementsTable, e: u16) -> u32 {
    if e == NO_ELEMENT {
        WHITE
    } else {
        match elements.spec_property_texture(e) {
            Some(d) => d.colour,
            None => WHITE,
        }
    }
}

fn get_colour_of(elements: &ElementsTable, e: u16) -> (c: u32)
    ensures
        c == colour_of(*elements, e),
{
    if e == NO_ELEMENT {
        WHITE
    } else {
        match elements.property_texture(e) {
            Some(d) => d.colour,
            None => WHITE,
        }
    }
}

/// How a cell is shown: a liquid in the colour of its gradient, anything else not at all.
pub open spec fn liquid_pixel(
    env: Env,
    s: State,
    t: Textures,
    fullness: Seq<F32>,
    cell: int,
) -> LiquidPixel {
    let c = s.updated[cell];
    match env.elements.spec_property_texture(c.element_idx) {
        Some(d) => if phase(d.state) == LIQUID {
            let colour = graded(
                d.colour,
                d.gradient@,
                d.number_of_gradient_colors as int,
                depth(env, s, t, fullness, cell, true),
                d.number_of_gradient_colors as int,
            );
            let (f, goal) = thermal(env.elements.spec_temperature(c.element_idx), c.temperature);
            LiquidPixel {
                liquid: (to_byte(opacity(env, s, fullness, cell)) << 24) | (colour & WHITE),
                data: (to_byte(f) << 24) | (colour_of(env.elements, goal) & WHITE),
                material: d.material_properties & MATERIAL_MASK,
            }
        } else {
            LiquidPixel { liquid: 0, data: 0, material: 0 }
        },
        None => LiquidPixel { liquid: 0, data: 0, material: 0 },
    }
}

/// No element has more colours in its gradient than there is room for.
pub open spec fn gradients_fit(elements: ElementsTable) -> bool {
    forall|e: u16|
        (#[trigger] elements.spec_property_texture(e)) matches Some(d)
            ==> d.number_of_gradient_colors <= 6
}

/// Whether no element has more colours in its gradient than there is room for.
pub fn has_fitting_gradients(elements: &ElementsTable) -> (b: bool)
    ensures
        b == gradients_fit(*elements),
{
    let mut e: u16 = 0;
    loop
        invariant
            forall|d: u16|
                d < e ==> ((#[trigger] elements.spec_property_texture(d)) matches Some(x)
                    ==> x.number_of_gradient_colors <= 6),
        decreases 0xffff - e,
    {
        match elements.property_texture(e) {
            Some(d) => {
                if d.number_of_gradient_colors > 6 {
                    assert(!gradients_fit(*elements)) by {
                        assert(elements.spec_property_texture(e) == Some(d));
                    }
                    return false;
                }
            },
            None => {},
        }
        if e == 0xffff {
            return true;
        }
        e = e + 1;
    }
}

fn get_liquid_pixel(sim: &SimData, game: &GameData, fullness: &Vec<F32>, cell: usize) -> (p:
    LiquidPixel)
    requires
        sim.wf(),
        gradients_fit(sim.env.elements),
        sim@.updated.len() == sim.env.cell_count(),
        sim@.cells.len() == sim.env.cell_count(),
        fullness@.len() == sim.env.cell_count(),
        cell + sim.env.width < sim.env.cell_count(),
    ensures
        p == liquid_pixel(sim.env, sim@, game@, fullness@, cell as int),
{
    let c = sim.updated_cells[cell];
    let d = match sim.env.elements.property_texture(c.element_idx) {
        Some(d) => d,
        None => return LiquidPixel { liquid: 0, data: 0, material: 0 },
    };
    if phase(d.state) != LIQUID {
        return LiquidPixel { liquid: 0, data: 0, material: 0 };
    }
    let above: usize = cell + sim.env.width;
    let p: u8 = match sim.env.elements.property_texture(sim.updated_cells[above].element_idx) {
        Some(a) => phase(a.state),
        None => 0,
    };
    let alpha = if p < LIQUID && !marked(sim.cells[above], LIQUID_IMPERMEABLE) {
        fullness[cell]
    } else {
        num(ONE)
    };
    let t = estimated_liquid_gradient_value(sim, game, fullness, cell, true);
    let colour: u32 = interpolate_gradient_colour(
        d.colour,
        &d.gradient,
        d.number_of_gradient_colors,
        t,
    );
    let (f, goal) = thermal(sim.env.elements.temperature(c.element_idx), c.temperature);
    LiquidPixel {
        liquid: (to_byte(alpha) << 24) | (colour & WHITE),
        data: (to_byte(f) << 24) | (get_colour_of(&sim.env.elements, goal) & WHITE),
        material: d.material_properties & MATERIAL_MASK,
    }
}

/// Whether liquids are shown: all that is needed is there.
pub open spec fn shows_liquids(env: Env, s: State, t: Textures) -> bool {
    &&& !s.unallocated()
    &&& t.liquid.len() != 0
    &&& t.liquid_data.len() != 0
    &&& t.material.len() != 0
    &&& t.sunlight.len() != 0
    &&& env.elements.ids@.len() != 0
}

/// The textures after the liquids are shown.
pub open spec fn liquids_shown(env: Env, s: State, t: Textures, fullness: Seq<F32>) -> Textures {
    if !shows_liquids(env, s, t) {
        t
    } else {
        Textures {
            liquid: Seq::new(
                t.liquid.len(),
                |g: int| liquid_pixel(env, s, t, fullness, t.cell_of(env, g)).liquid,
            ),
            liquid_data: Seq::new(
                t.liquid.len(),
                |g: int| liquid_pixel(env, s, t, fullness, t.cell_of(env, g)).data,
            ),
            material: Seq::new(
                t.liquid.len(),
                |g: int| liquid_pixel(env, s, t, fullness, t.cell_of(env, g)).material,
            ),
            ..t
        }
    }
}

/// Pixels depend on no texture but that of sunlight.
proof fn lemma_depth(
    env: Env,
    s: State,
    t: Textures,
    u: Textures,
    fullness: Seq<F32>,
    cell: int,
    deep: bool,
)
    requires
        t.width == u.width,
        t.sunlight == u.sunlight,
    ensures
        depth(env, s, t, fullness, cell, deep) == depth(env, s, u, fullness, cell, deep),
    decreases
            (if deep {
                1int
            } else {
                0int
            }),
{
    if deep {
        lemma_depth(env, s, t, u, fullness, cell + env.width, false);
    }
}

/// Shows the liquids, given how full each cell looks.
pub fn update_liquid_property_texture(sim: &SimData, game: &mut GameData, fullness: &Vec<F32>)
    requires
        sim.wf(),
        old(game)@.wf(),
        old(game)@.fits(sim.env),
        gradients_fit(sim.env.elements),
        fullness@.len() == sim@.updated.len(),
    ensures
        final(game)@ == liquids_shown(sim.env, sim@, old(game)@, fullness@),
{
    if sim.cells.len() == 0 || sim.updated_cells.len() == 0 || sim.env.elements.ids.len() == 0
        || game.property_texture_liquid.len() == 0 || game.property_texture_liquid_data.len() == 0
        || game.property_texture_material_data.len() == 0
        || game.property_texture_exposed_to_sunlight.len() == 0 {
        return;
    }
    let n: usize = game.property_texture_liquid.len();
    let w: usize = game.width;
    let mut g: usize = 0;
    while g < n
        invariant
            g <= n,
            n == game@.liquid.len(),
            n == game@.liquid_data.len(),
            n == game@.material.len(),
            n == old(game)@.area(),
            w == game.width,
            sim.wf(),
            gradients_fit(sim.env.elements),
            fullness@.len() == sim@.updated.len(),
            sim@.cells.len() == sim.env.cell_count(),
            sim@.updated.len() == sim.env.cell_count(),
            old(game)@.wf(),
            old(game)@.fits(sim.env),
            game@ == (Textures {
                liquid: game@.liquid,
                liquid_data: game@.liquid_data,
                material: game@.material,
                ..old(game)@
            }),
            forall|i: int|
                0 <= i < g ==> {
                    let p = liquid_pixel(
                        sim.env,
                        sim@,
                        old(game)@,
                        fullness@,
                        old(game)@.cell_of(sim.env, i),
                    );
                    &&& #[trigger] game@.liquid[i] == p.liquid
                    &&& game@.liquid_data[i] == p.data
                    &&& game@.material[i] == p.material
                },
        decreases n - g,
    {
        proof {
            lemma_cell_of(old(game)@, sim.env, g as int);
        }
        let c: usize = (g / w + 1) * sim.env.width + 1 + g % w;
        proof {
            lemma_depth(sim.env, sim@, old(game)@, game@, fullness@, c as int, true);
        }
        let p = get_liquid_pixel(sim, game, fullness, c);
        game.property_texture_liquid.set(g, p.liquid);
        game.property_texture_liquid_data.set(g, p.data);
        game.property_texture_material_data.set(g, p.material);
        g = g + 1;
    }
    proof {
        let r = liquids_shown(sim.env, sim@, old(game)@, fullness@);
        assert(game@.liquid =~= r.liquid);
        assert forall|i: int| 0 <= i < n implies game@.liquid_data[i] == r.liquid_data[i]
            && game@.material[i] == r.material[i] by {
            assert(game@.liquid[i] == r.liquid[i]);
        }
        assert(game@.liquid_data =~= r.liquid_data);
        assert(game@.material =~= r.material);
    }
}

} // verus!
