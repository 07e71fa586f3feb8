use spaceship::triangle::{triangle, ScreenVertex};

fn v(x: i32, y: i32, depth: u32) -> ScreenVertex {
    ScreenVertex { x, y, depth }
}

fn edge(a: (i64, i64), b: (i64, i64), p: (i64, i64)) -> i64 {
    (b.0 - a.0) * (p.1 - a.1) - (b.1 - a.1) * (p.0 - a.0)
}

fn brute_force_count(a: ScreenVertex, b: ScreenVertex, c: ScreenVertex, w: usize, h: usize) -> usize {
    let pa = (a.x as i64, a.y as i64);
    let pb = (b.x as i64, b.y as i64);
    let pc = (c.x as i64, c.y as i64);
    if edge(pa, pb, pc) == 0 {
        return 0;
    }
    let mut n = 0;
    for py in 0..h {
        for px in 0..w {
            let p = (16 * px as i64 + 8, 16 * py as i64 + 8);
            let w0 = edge(pb, pc, p);
            let w1 = edge(pc, pa, p);
            let w2 = edge(pa, pb, p);
            if (w0 >= 0 && w1 >= 0 && w2 >= 0) || (w0 <= 0 && w1 <= 0 && w2 <= 0) {
                n += 1;
            }
        }
    }
    n
}

#[test]
fn right_triangle_covers_expected_pixels() {
    let frags = triangle(&v(0, 0, 0), &v(64, 0, 0), &v(0, 64, 0), 8, 8);
    assert_eq!(frags.len(), 10);
    for f in &frags {
        assert!(f.x + f.y <= 3);
    }
}

#[test]
fn count_matches_inside_test() {
    let cases = [
        (v(5, 7, 1), v(150, 30, 2), v(60, 170, 3)),
        (v(60, 170, 3), v(150, 30, 2), v(5, 7, 1)),
        (v(-40, -40, 0), v(400, 10, 0), v(90, 300, 0)),
        (v(33, 33, 0), v(34, 200, 0), v(250, 121, 0)),
    ];
    for (a, b, c) in cases.iter() {
        let frags = triangle(a, b, c, 16, 12);
        assert_eq!(frags.len(), brute_force_count(*a, *b, *c, 16, 12));
    }
}

#[test]
fn fragments_come_in_scan_order() {
    let frags = triangle(&v(5, 7, 1), &v(150, 30, 2), &v(60, 170, 3), 16, 12);
    assert!(!frags.is_empty());
    for pair in frags.windows(2) {
        assert!((pair[0].y, pair[0].x) < (pair[1].y, pair[1].x));
    }
}

#[test]
fn degenerate_triangle_yields_nothing() {
    assert!(triangle(&v(0, 0, 0), &v(32, 32, 0), &v(64, 64, 0), 8, 8).is_empty());
    assert!(triangle(&v(16, 16, 0), &v(16, 16, 0), &v(100, 3, 0), 8, 8).is_empty());
    assert!(triangle(&v(9, 9, 0), &v(9, 9, 0), &v(9, 9, 0), 8, 8).is_empty());
}

#[test]
fn shifting_by_whole_pixels_keeps_coverage() {
    let a = triangle(&v(5, 7, 0), &v(70, 20, 0), &v(30, 60, 0), 20, 20);
    let b = triangle(&v(5 + 32, 7 + 16, 0), &v(70 + 32, 20 + 16, 0), &v(30 + 32, 60 + 16, 0), 20, 20);
    assert_eq!(a.len(), b.len());
    for (fa, fb) in a.iter().zip(b.iter()) {
        assert_eq!((fa.x + 2, fa.y + 1), (fb.x, fb.y));
    }
}

#[test]
fn weights_are_barycentric() {
    let frags = triangle(&v(60, 170, 300), &v(150, 30, 200), &v(5, 7, 100), 16, 12);
    for f in &frags {
        assert!(f.w0 >= 0 && f.w1 >= 0 && f.w2 >= 0);
        assert_eq!(f.w0 + f.w1 + f.w2, f.area);
        assert!(f.depth >= 100 && f.depth <= 300);
    }
}

#[test]
fn flat_depth_stays_flat() {
    let frags = triangle(&v(0, 0, 77), &v(128, 0, 77), &v(0, 128, 77), 8, 8);
    assert!(!frags.is_empty());
    assert!(frags.iter().all(|f| f.depth == 77));
}

#[test]
fn clipped_to_framebuffer() {
    let frags = triangle(&v(-1000, -1000, 0), &v(5000, -1000, 0), &v(-1000, 5000, 0), 10, 6);
    assert_eq!(frags.len(), 60);
    assert!(frags.iter().all(|f| f.x < 10 && f.y < 6));
}
