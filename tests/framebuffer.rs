use spaceship::framebuffer::{Framebuffer, DEPTH_FAR};

#[test]
fn new_is_black_and_far() {
    let fb = Framebuffer::new(4, 3);
    assert_eq!(fb.width(), 4);
    assert_eq!(fb.height(), 3);
    assert_eq!(fb.buffer().len(), 12);
    for y in 0..3 {
        for x in 0..4 {
            assert_eq!(fb.pixel(x, y), 0);
            assert_eq!(fb.depth(x, y), DEPTH_FAR);
        }
    }
}

#[test]
fn clear_shows_background_everywhere() {
    let mut fb = Framebuffer::new(5, 4);
    fb.point(1, 2, 10, 0xABCDEF);
    fb.point(4, 3, 0, 0x123456);
    fb.set_background_color(0x112233);
    fb.clear();
    assert!(fb.buffer().iter().all(|&p| p == 0x112233));
    for y in 0..4 {
        for x in 0..5 {
            assert_eq!(fb.depth(x, y), DEPTH_FAR);
        }
    }
}

#[test]
fn nearer_write_after_farther_wins() {
    let mut fb = Framebuffer::new(3, 3);
    fb.clear();
    fb.point(1, 1, 5, 0x0000FF);
    fb.point(1, 1, 3, 0x00FF00);
    assert_eq!(fb.pixel(1, 1), 0x00FF00);
    assert_eq!(fb.depth(1, 1), 3);
}

#[test]
fn farther_write_after_nearer_is_rejected() {
    let mut fb = Framebuffer::new(3, 3);
    fb.clear();
    fb.point(1, 1, 3, 0x00FF00);
    fb.point(1, 1, 5, 0x0000FF);
    assert_eq!(fb.pixel(1, 1), 0x00FF00);
    assert_eq!(fb.depth(1, 1), 3);
}

#[test]
fn equal_depth_favours_latest_write() {
    let mut fb = Framebuffer::new(2, 2);
    fb.point(0, 1, 7, 0x111111);
    fb.point(0, 1, 7, 0x222222);
    assert_eq!(fb.pixel(0, 1), 0x222222);
    assert_eq!(fb.buffer()[2], 0x222222);
}

#[test]
fn plot_outside_is_dropped() {
    let mut fb = Framebuffer::new(2, 2);
    fb.plot(-1, 0, 0, 0xFFFFFF);
    fb.plot(0, 2, 0, 0xFFFFFF);
    fb.plot(2, 0, 0, 0xFFFFFF);
    assert!(fb.buffer().iter().all(|&p| p == 0));
    fb.plot(1, 1, 0, 0xFFFFFF);
    assert_eq!(fb.pixel(1, 1), 0xFFFFFF);
}
