use vstd::prelude::*;
use crate::color::{Color, scaled_channel};

verus! {

/// Shading inputs are fixed-point numbers with this many units per 1.0.
pub const UNIT: i64 = 10000;

/// The procedural colouring that applies to a whole draw call.
#[derive(Clone, Copy, Debug, PartialEq, Eq, Structural)]
pub enum ShaderType {
    Sun,
    RockyPlanet,
    GasGiant,
    EarthLike,
    IcePlanet,
    Moon,
    Rings,
    Spaceship,
}

/// The per-fragment values that a shader reads, in `UNIT`s. Their meaning
/// depends on the shader:
/// - `Sun`: `noise` is the brightness.
/// - `RockyPlanet`, `Moon`: `noise` is the weighted terrain noise, `detail`
///   the crater pattern in [0, 1].
/// - `GasGiant`: `noise` is the band mix before clamping, `detail` the
///   distance to the storm centre, `extra` the swirl in [0, 1].
/// - `EarthLike`: `noise` is the terrain mix, `detail` the cloud cover in
///   [0, 1].
/// - `IcePlanet`: `noise` is the brightness, `detail` the crack term,
///   `extra` the aurora strength.
/// - `Rings`: `noise` is the band mix, `detail` the distance from the centre.
/// - `Spaceship`: `base` is the authored colour.
/// `diffuse` is the dot product of the unit normal and the unit light
/// direction, in [-1, 1].
#[derive(Clone, Copy, Debug, PartialEq, Eq, Structural)]
pub struct ShadeTerms {
    pub noise: i64,
    pub detail: i64,
    pub extra: i64,
    pub diffuse: i64,
    pub base: Color,
}

/// The Lambertian intensity `max(diffuse, floor) * scale + bias`.
pub open spec fn lambert(diffuse: int, floor: int, scale: int, bias: int) -> int {
    (if diffuse > floor {
        diffuse
    } else {
        floor
    }) * scale / 10000 + bias
}

fn lambert_fixed(diffuse: i64, floor: i64, scale: i64, bias: i64) -> (k: u32)
    requires
        -UNIT <= diffuse <= UNIT,
        0 <= floor <= UNIT,
        0 <= scale <= UNIT,
        0 <= bias <= UNIT,
    ensures
        k == lambert(diffuse as int, floor as int, scale as int, bias as int),
        bias <= k <= scale + bias,
{
    let m: i64 = if diffuse > floor { diffuse } else { floor };
    proof {
        assert(0 <= m * scale <= UNIT * UNIT) by (nonlinear_arith)
            requires
                0 <= m <= UNIT,
                0 <= scale <= UNIT,
        ;
        assert(0 <= m * scale / 10000 <= scale) by (nonlinear_arith)
            requires
                0 <= m <= UNIT,
                0 <= scale <= UNIT,
        ;
    }
    (m * scale / 10000 + bias) as u32
}

pub open spec fn sun_palette(brightness: int) -> Color {
    if brightness > 8500 {
        Color { r: 255, g: 255, b: 240 }
    } else if brightness > 7000 {
        Color { r: 255, g: 220, b: 100 }
    } else if brightness > 5000 {
        Color { r: 255, g: 180, b: 50 }
    } else if brightness > 3000 {
        Color { r: 255, g: 100, b: 0 }
    } else {
        Color { r: 200, g: 30, b: 0 }
    }
}

/// The sun is self-luminous: five bands of brightness, white-hot to deep red.
pub fn sun_color(brightness: i64) -> (c: Color)
    ensures
        c == sun_palette(brightness as int),
{
    if brightness > 8500 {
        Color::new(255, 255, 240)
    } else if brightness > 7000 {
        Color::new(255, 220, 100)
    } else if brightness > 5000 {
        Color::new(255, 180, 50)
    } else if brightness > 3000 {
        Color::new(255, 100, 0)
    } else {
        Color::new(200, 30, 0)
    }
}

pub open spec fn rocky_palette(combined: int) -> Color {
    if combined > 5000 {
        Color { r: 190, g: 160, b: 120 }
    } else if combined > 2000 {
        Color { r: 160, g: 130, b: 90 }
    } else if combined > -1000 {
        Color { r: 120, g: 90, b: 65 }
    } else if combined > -4000 {
        Color { r: 80, g: 60, b: 45 }
    } else {
        Color { r: 40, g: 30, b: 25 }
    }
}

pub open spec fn rocky_planet_spec(combined: int, crater: int, diffuse: int) -> Color {
    let shadow: nat = if crater > 8500 { 7000 } else { 10000 };
    rocky_palette(combined).scaled(lambert(diffuse, 0, 7000, 3000) as nat).scaled(shadow)
}

/// Rocky surface: five terrain bands, lit with intensity in [0.3, 1], darkened
/// to 0.7 where the crater pattern passes 0.85.
pub fn rocky_planet_color(combined: i64, crater: i64, diffuse: i64) -> (c: Color)
    requires
        -UNIT <= diffuse <= UNIT,
    ensures
        c == rocky_planet_spec(combined as int, crater as int, diffuse as int),
{
    let base = if combined > 5000 {
        Color::new(190, 160, 120)
    } else if combined > 2000 {
        Color::new(160, 130, 90)
    } else if combined > -1000 {
        Color::new(120, 90, 65)
    } else if combined > -4000 {
        Color::new(80, 60, 45)
    } else {
        Color::new(40, 30, 25)
    };
    let intensity = lambert_fixed(diffuse, 0, 7000, 3000);
    let shadow: u32 = if crater > 8500 { 7000 } else { 10000 };
    base.scale(intensity).scale(shadow)
}

pub open spec fn moon_palette(combined: int) -> Color {
    if combined > 5000 {
        Color { r: 160, g: 160, b: 165 }
    } else if combined > 2000 {
        Color { r: 130, g: 130, b: 135 }
    } else if combined > -1000 {
        Color { r: 100, g: 100, b: 105 }
    } else if combined > -4000 {
        Color { r: 70, g: 70, b: 75 }
    } else {
        Color { r: 40, g: 40, b: 45 }
    }
}

pub open spec fn moon_spec(combined: int, crater: int, diffuse: int) -> Color {
    let shadow: nat = if crater > 8500 { 6000 } else { 10000 };
    moon_palette(combined).scaled(lambert(diffuse, 0, 7000, 3000) as nat).scaled(shadow)
}

/// Moon surface: five grey bands, lit with intensity in [0.3, 1], darkened to
/// 0.6 where the crater pattern passes 0.85.
pub fn moon_color(combined: i64, crater: i64, diffuse: i64) -> (c: Color)
    requires
        -UNIT <= diffuse <= UNIT,
    ensures
        c == moon_spec(combined as int, crater as int, diffuse as int),
{
    let base = if combined > 5000 {
        Color::new(160, 160, 165)
    } else if combined > 2000 {
        Color::new(130, 130, 135)
    } else if combined > -1000 {
        Color::new(100, 100, 105)
    } else if combined > -4000 {
        Color::new(70, 70, 75)
    } else {
        Color::new(40, 40, 45)
    };
    let intensity = lambert_fixed(diffuse, 0, 7000, 3000);
    let shadow: u32 = if crater > 8500 { 6000 } else { 10000 };
    base.scale(intensity).scale(shadow)
}

/// The storm's brightening: 0.6 at its centre, falling linearly to 0 at
/// radius 0.4.
pub open spec fn storm_strength(distance: int) -> int {
    if distance < 4000 {
        (4000 - distance) * 6000 / 4000
    } else {
        0
    }
}

pub open spec fn gas_giant_palette(bands: int, storm: int) -> Color {
    let b = if bands < 0 {
        0
    } else if bands > 10000 {
        10000
    } else {
        bands
    };
    if storm > 3000 || b > 7500 {
        Color { r: 200, g: 220, b: 255 }
    } else if b > 6000 {
        Color { r: 120, g: 160, b: 230 }
    } else if b > 4000 {
        Color { r: 80, g: 120, b: 200 }
    } else if b > 2500 {
        Color { r: 45, g: 80, b: 160 }
    } else {
        Color { r: 15, g: 40, b: 100 }
    }
}

pub open spec fn gas_giant_spec(bands: int, storm_distance: int, swirl: int, diffuse: int) -> Color {
    let storm = storm_strength(storm_distance);
    let k = lambert(diffuse, 0, 6000, 4000) + storm + swirl * 1500 / 10000;
    gas_giant_palette(bands, storm).scaled(k as nat)
}

/// Gas giant: the band mix, clamped to [0, 1], picks one of five blues; inside
/// the storm the colour turns white. The intensity adds the Lambertian term,
/// the storm and 0.15 of the swirl, and may exceed 1.
pub fn gas_giant_color(bands: i64, storm_distance: i64, swirl: i64, diffuse: i64) -> (c: Color)
    requires
        -UNIT <= diffuse <= UNIT,
        0 <= storm_distance,
        0 <= swirl <= UNIT,
    ensures
        c == gas_giant_spec(bands as int, storm_distance as int, swirl as int, diffuse as int),
{
    let storm: i64 = if storm_distance < 4000 { (4000 - storm_distance) * 6000 / 4000 } else { 0 };
    let b: i64 = if bands < 0 {
        0
    } else if bands > 10000 {
        10000
    } else {
        bands
    };
    let base = if storm > 3000 || b > 7500 {
        Color::new(200, 220, 255)
    } else if b > 6000 {
        Color::new(120, 160, 230)
    } else if b > 4000 {
        Color::new(80, 120, 200)
    } else if b > 2500 {
        Color::new(45, 80, 160)
    } else {
        Color::new(15, 40, 100)
    };
    let intensity = lambert_fixed(diffuse, 0, 6000, 4000);
    proof {
        assert(0 <= swirl * 1500 / 10000 <= 1500) by (nonlinear_arith)
            requires
                0 <= swirl <= UNIT,
        ;
    }
    let k: u32 = intensity + (storm as u32) + ((swirl * 1500 / 10000) as u32);
    base.scale(k)
}

pub open spec fn earth_palette(combined: int) -> Color {
    if combined > 6000 {
        Color { r: 240, g: 240, b: 255 }
    } else if combined > 4000 {
        Color { r: 100, g: 90, b: 70 }
    } else if combined > 1500 {
        Color { r: 60, g: 120, b: 40 }
    } else if combined > 0 {
        Color { r: 200, g: 180, b: 120 }
    } else if combined > -3000 {
        Color { r: 40, g: 120, b: 180 }
    } else if combined > -6000 {
        Color { r: 20, g: 80, b: 150 }
    } else {
        Color { r: 10, g: 40, b: 100 }
    }
}

pub open spec fn earth_like_spec(combined: int, cloud: int, diffuse: int) -> Color {
    let base = earth_palette(combined);
    let surface = if cloud > 7000 {
        base.blended(Color { r: 255, g: 255, b: 255 }, ((cloud - 7000) * 10000 / 3000) as nat)
    } else {
        base
    };
    surface.scaled(lambert(diffuse, 0, 7000, 3000) as nat)
}

/// Earth-like: seven terrain and water bands; cloud cover above 0.7 blends
/// toward white, fully at 1; lit with intensity in [0.3, 1].
pub fn earth_like_color(combined: i64, cloud: i64, diffuse: i64) -> (c: Color)
    requires
        -UNIT <= diffuse <= UNIT,
        0 <= cloud <= UNIT,
    ensures
        c == earth_like_spec(combined as int, cloud as int, diffuse as int),
{
    let base = if combined > 6000 {
        Color::new(240, 240, 255)
    } else if combined > 4000 {
        Color::new(100, 90, 70)
    } else if combined > 1500 {
        Color::new(60, 120, 40)
    } else if combined > 0 {
        Color::new(200, 180, 120)
    } else if combined > -3000 {
        Color::new(40, 120, 180)
    } else if combined > -6000 {
        Color::new(20, 80, 150)
    } else {
        Color::new(10, 40, 100)
    };
    let surface = if cloud > 7000 {
        proof {
            assert(0 <= (cloud - 7000) * 10000 / 3000 <= 10000) by (nonlinear_arith)
                requires
                    7000 < cloud <= UNIT,
            ;
        }
        let t: u32 = ((cloud - 7000) * 10000 / 3000) as u32;
        base.blend(&Color::new(255, 255, 255), t)
    } else {
        base
    };
    let intensity = lambert_fixed(diffuse, 0, 7000, 3000);
    surface.scale(intensity)
}

pub open spec fn ice_palette(cracks: int, brightness: int) -> Color {
    if cracks < 3000 {
        Color { r: 60, g: 100, b: 150 }
    } else if brightness > 7500 {
        Color { r: 245, g: 250, b: 255 }
    } else if brightness > 6000 {
        Color { r: 200, g: 235, b: 255 }
    } else if brightness > 4500 {
        Color { r: 170, g: 220, b: 245 }
    } else if brightness > 3000 {
        Color { r: 130, g: 200, b: 230 }
    } else if brightness > 2000 {
        Color { r: 100, g: 150, b: 200 }
    } else {
        Color { r: 60, g: 100, b: 150 }
    }
}

pub open spec fn ice_planet_spec(brightness: int, cracks: int, aurora: int, diffuse: int) -> Color {
    let base = ice_palette(cracks, brightness);
    let lit = if aurora > 1000 {
        base.blended(Color { r: 100, g: 255, b: 220 }, (if aurora < 6000 { aurora } else { 6000 }) as nat)
    } else {
        base
    };
    let reflection: nat = if brightness > 7000 { 12000 } else { 10000 };
    lit.scaled(lambert(diffuse, 0, 6000, 4000) as nat).scaled(reflection)
}

/// Ice planet: six ice tones by brightness, the darkest wherever the crack
/// term is under 0.3; an aurora above 0.1 blends toward cyan by up to 0.6;
/// lit with intensity in [0.4, 1] and made 1.2 times brighter where the
/// brightness passes 0.7.
pub fn ice_planet_color(brightness: i64, cracks: i64, aurora: i64, diffuse: i64) -> (c: Color)
    requires
        -UNIT <= diffuse <= UNIT,
    ensures
        c == ice_planet_spec(brightness as int, cracks as int, aurora as int, diffuse as int),
{
    let base = if cracks < 3000 {
        Color::new(60, 100, 150)
    } else if brightness > 7500 {
        Color::new(245, 250, 255)
    } else if brightness > 6000 {
        Color::new(200, 235, 255)
    } else if brightness > 4500 {
        Color::new(170, 220, 245)
    } else if brightness > 3000 {
        Color::new(130, 200, 230)
    } else if brightness > 2000 {
        Color::new(100, 150, 200)
    } else {
        Color::new(60, 100, 150)
    };
    let lit = if aurora > 1000 {
        let t: u32 = if aurora < 6000 { aurora as u32 } else { 6000 };
        base.blend(&Color::new(100, 255, 220), t)
    } else {
        base
    };
    let intensity = lambert_fixed(diffuse, 0, 6000, 4000);
    let reflection: u32 = if brightness > 7000 { 12000 } else { 10000 };
    lit.scale(intensity).scale(reflection)
}

pub open spec fn ring_palette(combined: int) -> Color {
    if combined > 8000 {
        Color { r: 240, g: 235, b: 220 }
    } else if combined > 6000 {
        Color { r: 230, g: 220, b: 200 }
    } else if combined > 4000 {
        Color { r: 200, g: 190, b: 170 }
    } else if combined > 2500 {
        Color { r: 150, g: 140, b: 120 }
    } else {
        Color { r: 100, g: 90, b: 80 }
    }
}

/// The opacity of the ring at a distance from the centre: two gaps, between
/// 1.3 and 1.4 and between 1.7 and 1.75, let little through.
pub open spec fn ring_gap(distance: int) -> nat {
    if 13000 < distance < 14000 {
        2000
    } else if 17000 < distance < 17500 {
        3000
    } else {
        10000
    }
}

pub open spec fn rings_spec(combined: int, distance: int, diffuse: int) -> Color {
    ring_palette(combined).scaled(lambert(diffuse, 0, 5000, 5000) as nat).scaled(ring_gap(distance))
}

/// Rings: five tones by the band mix, lit with intensity in [0.5, 1], dimmed
/// inside the two gaps.
pub fn rings_color(combined: i64, distance: i64, diffuse: i64) -> (c: Color)
    requires
        -UNIT <= diffuse <= UNIT,
    ensures
        c == rings_spec(combined as int, distance as int, diffuse as int),
{
    let base = if combined > 8000 {
        Color::new(240, 235, 220)
    } else if combined > 6000 {
        Color::new(230, 220, 200)
    } else if combined > 4000 {
        Color::new(200, 190, 170)
    } else if combined > 2500 {
        Color::new(150, 140, 120)
    } else {
        Color::new(100, 90, 80)
    };
    let gap: u32 = if 13000 < distance && distance < 14000 {
        2000
    } else if 17000 < distance && distance < 17500 {
        3000
    } else {
        10000
    };
    let intensity = lambert_fixed(diffuse, 0, 5000, 5000);
    base.scale(intensity).scale(gap)
}

pub open spec fn spaceship_spec(base: Color, diffuse: int) -> Color {
    base.scaled(lambert(diffuse, 2000, 8000, 2000) as nat)
}

/// The craft keeps its authored colour, lit with intensity in [0.36, 1] so
/// that it is never fully dark.
pub fn spaceship_color(base: Color, diffuse: i64) -> (c: Color)
    requires
        -UNIT <= diffuse <= UNIT,
    ensures
        c == spaceship_spec(base, diffuse as int),
{
    let intensity = lambert_fixed(diffuse, 2000, 8000, 2000);
    base.scale(intensity)
}

/// The ranges that each shader's inputs keep.
pub open spec fn terms_valid(shader: ShaderType, t: ShadeTerms) -> bool {
    &&& -UNIT <= t.diffuse <= UNIT
    &&& shader == ShaderType::GasGiant ==> 0 <= t.detail && 0 <= t.extra <= UNIT
    &&& shader == ShaderType::EarthLike ==> 0 <= t.detail <= UNIT
}

pub open spec fn shade_spec(shader: ShaderType, t: ShadeTerms) -> Color {
    match shader {
        ShaderType::Sun => sun_palette(t.noise as int),
        ShaderType::RockyPlanet => rocky_planet_spec(t.noise as int, t.detail as int, t.diffuse as int),
        ShaderType::GasGiant => gas_giant_spec(t.noise as int, t.detail as int, t.extra as int, t.diffuse as int),
        ShaderType::EarthLike => earth_like_spec(t.noise as int, t.detail as int, t.diffuse as int),
        ShaderType::IcePlanet => ice_planet_spec(t.noise as int, t.detail as int, t.extra as int, t.diffuse as int),
        ShaderType::Moon => moon_spec(t.noise as int, t.detail as int, t.diffuse as int),
        ShaderType::Rings => rings_spec(t.noise as int, t.detail as int, t.diffuse as int),
        ShaderType::Spaceship => spaceship_spec(t.base, t.diffuse as int),
    }
}

/// Colours one fragment with the shader of the draw call.
pub fn shade(shader: ShaderType, t: &ShadeTerms) -> (c: Color)
    requires
        terms_valid(shader, *t),
    ensures
        c == shade_spec(shader, *t),
{
    match shader {
        ShaderType::Sun => sun_color(t.noise),
        ShaderType::RockyPlanet => rocky_planet_color(t.noise, t.detail, t.diffuse),
        ShaderType::GasGiant => gas_giant_color(t.noise, t.detail, t.extra, t.diffuse),
        ShaderType::EarthLike => earth_like_color(t.noise, t.detail, t.diffuse),
        ShaderType::IcePlanet => ice_planet_color(t.noise, t.detail, t.extra, t.diffuse),
        ShaderType::Moon => moon_color(t.noise, t.detail, t.diffuse),
        ShaderType::Rings => rings_color(t.noise, t.detail, t.diffuse),
        ShaderType::Spaceship => spaceship_color(t.base, t.diffuse),
    }
}

proof fn lemma_gap_darker_channel(b1: u8, b2: u8, k: nat)
    requires
        b1 <= 240,
        80 <= b2,
        5000 <= k <= 10000,
    ensures
        scaled_channel(scaled_channel(b1, k), 2000) < scaled_channel(scaled_channel(b2, k), 10000),
{
    let l1 = (b1 as nat * k) / 10000;
    let r1 = (b2 as nat * k) / 10000;
    assert(l1 <= 240) by (nonlinear_arith)
        requires
            l1 == (b1 as nat * k) / 10000,
            b1 <= 240,
            k <= 10000,
    ;
    assert(r1 <= 255) by (nonlinear_arith)
        requires
            r1 == (b2 as nat * k) / 10000,
            b2 <= 255,
            k <= 10000,
    ;
    assert(l1 * 2000 / 10000 < r1) by (nonlinear_arith)
        requires
            l1 == (b1 as nat * k) / 10000,
            r1 == (b2 as nat * k) / 10000,
            b1 <= 240,
            80 <= b2,
            5000 <= k <= 10000,
    ;
    assert(r1 * 10000 / 10000 == r1);
}

/// Inside the ring's first gap a fragment is darker, channel by channel, than
/// one outside any gap under the same light, whatever the band noise.
pub proof fn lemma_ring_gap_darker(combined_in: int, combined_out: int, diffuse: int)
    requires
        -10000 <= diffuse <= 10000,
    ensures
        rings_spec(combined_in, 13500, diffuse).r < rings_spec(combined_out, 15000, diffuse).r,
        rings_spec(combined_in, 13500, diffuse).g < rings_spec(combined_out, 15000, diffuse).g,
        rings_spec(combined_in, 13500, diffuse).b < rings_spec(combined_out, 15000, diffuse).b,
{
    let k = lambert(diffuse, 0, 5000, 5000);
    let m = if diffuse > 0 { diffuse } else { 0 };
    assert(0 <= m * 5000 / 10000 <= 5000) by (nonlinear_arith)
        requires
            0 <= m <= 10000,
    ;
    let p = ring_palette(combined_in);
    let q = ring_palette(combined_out);
    lemma_gap_darker_channel(p.r, q.r, k as nat);
    lemma_gap_darker_channel(p.g, q.g, k as nat);
    lemma_gap_darker_channel(p.b, q.b, k as nat);
}

} // verus!
