use spaceship::color::Color;
use spaceship::framebuffer::Framebuffer;
use spaceship::shading::{shade, ShadeTerms, ShaderType};
use spaceship::triangle::{triangle, ScreenVertex};

const SIZE: usize = 800;
const EYE_DISTANCE: f64 = 5.0;

fn sphere(rings: u32, sectors: u32) -> Vec<[f64; 3]> {
    let r = 1.0 / (rings - 1) as f64;
    let s = 1.0 / (sectors - 1) as f64;
    let mut grid = Vec::new();
    for ring in 0..rings {
        for sector in 0..sectors {
            let theta = std::f64::consts::PI * ring as f64 * r;
            let phi = 2.0 * std::f64::consts::PI * sector as f64 * s;
            grid.push([theta.sin() * phi.cos(), theta.cos(), theta.sin() * phi.sin()]);
        }
    }
    let mut tris = Vec::new();
    for ring in 0..rings - 1 {
        for sector in 0..sectors - 1 {
            let a = (ring * sectors + sector) as usize;
            let b = ((ring + 1) * sectors + sector) as usize;
            let c = ((ring + 1) * sectors + sector + 1) as usize;
            let d = (ring * sectors + sector + 1) as usize;
            tris.extend_from_slice(&[grid[a], grid[b], grid[c], grid[a], grid[c], grid[d]]);
        }
    }
    tris
}

fn focal() -> f64 {
    1.0 / (std::f64::consts::PI / 8.0).tan()
}

fn project(p: [f64; 3]) -> ScreenVertex {
    let w = EYE_DISTANCE - p[2];
    let half = SIZE as f64 / 2.0;
    let sx = (focal() * p[0] / w + 1.0) * half;
    let sy = (1.0 - focal() * p[1] / w) * half;
    ScreenVertex { x: (sx * 16.0).round() as i32, y: (sy * 16.0).round() as i32, depth: (w * 1_000_000.0) as u32 }
}

#[test]
fn sun_sphere_fills_a_disc() {
    let mut fb = Framebuffer::new(SIZE, SIZE);
    fb.set_background_color(0);
    fb.clear();
    let verts = sphere(50, 50);
    assert_eq!(verts.len() % 3, 0);
    for tri in verts.chunks(3) {
        let a = project(tri[0]);
        let b = project(tri[1]);
        let c = project(tri[2]);
        for f in triangle(&a, &b, &c, SIZE, SIZE) {
            let area = f.area as f64;
            let n: Vec<f64> = (0..3)
                .map(|k| (tri[0][k] * f.w0 as f64 + tri[1][k] * f.w1 as f64 + tri[2][k] * f.w2 as f64) / area)
                .collect();
            let x = n[0];
            let y = n[1];
            let zoom = 100.0;
            let n1 = (x * zoom).sin() * (y * zoom).cos();
            let n2 = ((x + 0.5) * zoom * 1.5).sin() * ((y + 0.5) * zoom * 1.5).cos();
            let n3 = ((x * 0.7 + y * 0.3) * zoom * 0.8).sin();
            let brightness = ((n1 + n2 + n3) / 3.0 + 1.0) * 0.5;
            let terms = ShadeTerms {
                noise: (brightness * 10000.0).round() as i64,
                detail: 0,
                extra: 0,
                diffuse: 0,
                base: Color::black(),
            };
            let color = shade(ShaderType::Sun, &terms);
            fb.point(f.x, f.y, f.depth, color.to_hex());
        }
    }
    let lit = fb.buffer().iter().filter(|&&p| p != 0).count() as f64;
    let r_screen = SIZE as f64 / 2.0 * focal() / (EYE_DISTANCE * EYE_DISTANCE - 1.0).sqrt();
    let disc = std::f64::consts::PI * r_screen * r_screen;
    assert!((lit - disc).abs() / disc < 0.03, "lit {} disc {}", lit, disc);
    let centre = fb.pixel(SIZE / 2, SIZE / 2);
    assert_ne!(centre, 0);
    assert_eq!(fb.pixel(5, 5), 0);
}
