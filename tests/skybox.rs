use spaceship::color::Color;
use spaceship::framebuffer::Framebuffer;
use spaceship::skybox::Skybox;

fn reference_stars(n: usize) -> Vec<(u32, u32, u8)> {
    let mut seed = 12345u32;
    let mut out = Vec::new();
    for _ in 0..n {
        seed = seed.wrapping_mul(1103515245).wrapping_add(12345);
        let x = seed >> 16;
        seed = seed.wrapping_mul(1103515245).wrapping_add(12345);
        let y = seed >> 16;
        seed = seed.wrapping_mul(1103515245).wrapping_add(12345);
        let rand3 = (seed >> 16) as f32 / 65536.0;
        let brightness = if rand3 > 0.9 {
            255
        } else if rand3 > 0.7 {
            200
        } else if rand3 > 0.4 {
            150
        } else {
            100
        };
        out.push((x, y, brightness));
    }
    out
}

#[test]
fn stars_follow_the_generator() {
    let sky = Skybox::new(800);
    let expected = reference_stars(800);
    assert_eq!(sky.stars.len(), 800);
    for (s, e) in sky.stars.iter().zip(expected.iter()) {
        assert_eq!((s.x, s.y, s.brightness), *e);
    }
}

#[test]
fn star_field_is_the_same_every_time() {
    let a = Skybox::new(50);
    let b = Skybox::new(50);
    assert_eq!(a.stars, b.stars);
    assert!(Skybox::new(0).stars.is_empty());
}

#[test]
fn render_draws_stars_and_halos() {
    let sky = Skybox::new(200);
    let mut fb = Framebuffer::new(800, 800);
    fb.clear();
    sky.render(&mut fb, 100);
    let last = sky.stars[199];
    let x = (last.x as usize * 800) / 65536;
    let y = (last.y as usize * 800) / 65536;
    let g = last.brightness;
    assert_eq!(fb.pixel(x, y), Color::new(g, g, g).to_hex());
    let bright = sky.stars.iter().filter(|s| s.brightness > 200).count();
    let lit = fb.buffer().iter().filter(|&&p| p != 0).count();
    assert!(lit > 200 && lit <= 200 + 4 * bright);
}
