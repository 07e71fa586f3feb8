use spaceship::color::Color;
use spaceship::framebuffer::Framebuffer;
use spaceship::segment::{draw_line, rasterize_line, LineEnd};

fn end(x: i32, y: i32, depth: u32) -> LineEnd {
    LineEnd { x, y, depth, color: Color::new(10, 20, 30) }
}

fn xy(a: LineEnd, b: LineEnd) -> Vec<(i64, i64)> {
    rasterize_line(&a, &b).iter().map(|p| (p.x, p.y)).collect()
}

#[test]
fn horizontal_line() {
    assert_eq!(xy(end(0, 0, 0), end(3, 0, 0)), vec![(0, 0), (1, 0), (2, 0), (3, 0)]);
}

#[test]
fn shallow_line_rounds_to_nearest() {
    assert_eq!(xy(end(0, 0, 0), end(4, 2, 0)), vec![(0, 0), (1, 1), (2, 1), (3, 2), (4, 2)]);
}

#[test]
fn steep_line_going_back() {
    assert_eq!(xy(end(0, 0, 0), end(-1, -3, 0)), vec![(0, 0), (0, -1), (-1, -2), (-1, -3)]);
}

#[test]
fn single_point_line() {
    assert_eq!(xy(end(5, 6, 0), end(5, 6, 0)), vec![(5, 6)]);
}

#[test]
fn depth_and_color_interpolate() {
    let a = LineEnd { x: 0, y: 0, depth: 0, color: Color::new(0, 0, 0) };
    let b = LineEnd { x: 4, y: 0, depth: 100, color: Color::new(200, 100, 40) };
    let pts = rasterize_line(&a, &b);
    let depths: Vec<u32> = pts.iter().map(|p| p.depth).collect();
    assert_eq!(depths, vec![0, 25, 50, 75, 100]);
    assert_eq!(pts[2].color, Color::new(100, 50, 20));
    let back = rasterize_line(&b, &a);
    let depths: Vec<u32> = back.iter().map(|p| p.depth).collect();
    assert_eq!(depths, vec![100, 75, 50, 25, 0]);
}

#[test]
fn no_gaps_on_long_lines() {
    let pts = rasterize_line(&end(-7, 3, 0), &end(40, -19, 0));
    assert_eq!(pts.len(), 48);
    for w in pts.windows(2) {
        assert_eq!(w[1].x - w[0].x, 1);
        assert!((w[1].y - w[0].y).abs() <= 1);
    }
    assert_eq!((pts[47].x, pts[47].y), (40, -19));
}

#[test]
fn draw_line_writes_inside_only() {
    let mut fb = Framebuffer::new(4, 4);
    draw_line(&mut fb, &end(-2, 1, 5), &end(6, 1, 5));
    let c = Color::new(10, 20, 30).to_hex();
    for x in 0..4 {
        assert_eq!(fb.pixel(x, 1), c);
        assert_eq!(fb.pixel(x, 0), 0);
    }
}
