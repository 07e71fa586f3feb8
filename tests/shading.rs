use spaceship::color::Color;
use spaceship::shading::{
    earth_like_color, gas_giant_color, ice_planet_color, moon_color, rings_color, rocky_planet_color, shade,
    spaceship_color, sun_color, ShadeTerms, ShaderType,
};

fn darker(a: Color, b: Color) -> bool {
    a.red() < b.red() && a.green() < b.green() && a.blue() < b.blue()
}

#[test]
fn sun_band_boundary_is_exclusive_and_repeatable() {
    let first = sun_color(8500);
    assert_eq!(first, Color::new(255, 220, 100));
    for _ in 0..10 {
        assert_eq!(sun_color(8500), first);
    }
    assert_eq!(sun_color(8501), Color::new(255, 255, 240));
}

#[test]
fn sun_bands() {
    assert_eq!(sun_color(7001), Color::new(255, 220, 100));
    assert_eq!(sun_color(7000), Color::new(255, 180, 50));
    assert_eq!(sun_color(5000), Color::new(255, 100, 0));
    assert_eq!(sun_color(3000), Color::new(200, 30, 0));
    assert_eq!(sun_color(-20000), Color::new(200, 30, 0));
}

#[test]
fn ring_gap_is_darker() {
    let inside = rings_color(9000, 13500, 10000);
    let outside = rings_color(0, 15000, 10000);
    assert_eq!(inside, Color::new(48, 47, 44));
    assert_eq!(outside, Color::new(100, 90, 80));
    assert!(darker(inside, outside));
    for combined in [-5000i64, 3000, 5000, 7000, 9000] {
        for diffuse in [-10000i64, -3000, 0, 4000, 10000] {
            assert!(darker(rings_color(combined, 13500, diffuse), rings_color(combined, 15000, diffuse)));
        }
    }
}

#[test]
fn ring_second_gap() {
    assert_eq!(rings_color(0, 17200, 10000), Color::new(30, 27, 24));
    assert_eq!(rings_color(0, 17500, 10000), Color::new(100, 90, 80));
}

#[test]
fn rocky_planet_examples() {
    assert_eq!(rocky_planet_color(6000, 9000, 10000), Color::new(133, 112, 84));
    assert_eq!(rocky_planet_color(-5000, 0, -10000), Color::new(12, 9, 7));
}

#[test]
fn moon_examples() {
    assert_eq!(moon_color(0, 9000, 10000), Color::new(60, 60, 63));
    assert_eq!(moon_color(6000, 0, 10000), Color::new(160, 160, 165));
}

#[test]
fn gas_giant_examples() {
    assert_eq!(gas_giant_color(8000, 10000, 0, 0), Color::new(80, 88, 102));
    assert_eq!(gas_giant_color(0, 0, 0, 0), Color::new(200, 220, 255));
    assert_eq!(gas_giant_color(-3000, 10000, 10000, 10000), Color::new(17, 46, 115));
}

#[test]
fn earth_like_examples() {
    assert_eq!(earth_like_color(7000, 10000, 10000), Color::new(255, 255, 255));
    assert_eq!(earth_like_color(-7000, 0, -5000), Color::new(3, 12, 30));
    assert_eq!(earth_like_color(500, 8500, 10000), Color::new(227, 217, 187));
}

#[test]
fn ice_planet_examples() {
    assert_eq!(ice_planet_color(8000, 2000, 0, 10000), Color::new(72, 120, 180));
    assert_eq!(ice_planet_color(8000, 5000, 0, 10000), Color::new(255, 255, 255));
    assert_eq!(ice_planet_color(2500, 5000, 9000, 10000), Color::new(100, 213, 212));
}

#[test]
fn spaceship_is_never_dark() {
    assert_eq!(spaceship_color(Color::new(100, 150, 200), -10000), Color::new(36, 54, 72));
    assert_eq!(spaceship_color(Color::new(100, 150, 200), 10000), Color::new(100, 150, 200));
}

#[test]
fn dispatch_follows_the_tag() {
    let t = ShadeTerms { noise: 9000, detail: 13500, extra: 0, diffuse: 10000, base: Color::new(1, 2, 3) };
    assert_eq!(shade(ShaderType::Sun, &t), Color::new(255, 255, 240));
    assert_eq!(shade(ShaderType::Rings, &t), rings_color(9000, 13500, 10000));
    assert_eq!(shade(ShaderType::Spaceship, &t), Color::new(1, 2, 3));
    assert_eq!(shade(ShaderType::Moon, &t), moon_color(9000, 13500, 10000));
}
