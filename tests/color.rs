use spaceship::color::{Color, FACTOR_ONE};

#[test]
fn scale_by_one_keeps_color() {
    let c = Color::new(12, 34, 56);
    assert_eq!(c.scale(FACTOR_ONE), c);
    let w = Color::new(255, 255, 255);
    assert_eq!(w.scale(FACTOR_ONE), w);
}

#[test]
fn scale_clamps_instead_of_wrapping() {
    assert_eq!(Color::new(200, 100, 0).scale(20000), Color::new(255, 200, 0));
    assert_eq!(Color::new(255, 255, 255).scale(u32::MAX), Color::new(255, 255, 255));
}

#[test]
fn scale_truncates() {
    assert_eq!(Color::new(255, 100, 1).scale(5000), Color::new(127, 50, 0));
    assert_eq!(Color::new(190, 160, 120).scale(7000), Color::new(133, 112, 84));
    assert_eq!(Color::new(9, 9, 9).scale(0), Color::new(0, 0, 0));
}

#[test]
fn hex_packs_red_high() {
    assert_eq!(Color::new(0x12, 0x34, 0x56).to_hex(), 0x123456);
    assert_eq!(Color::new(255, 0, 0).to_hex(), 0xFF0000);
    assert_eq!(Color::black().to_hex(), 0);
}

#[test]
fn hex_unpacks_low_bytes() {
    let c = Color::from_hex(0xFF12_3456);
    assert_eq!((c.red(), c.green(), c.blue()), (0x12, 0x34, 0x56));
    let d = Color::new(7, 200, 99);
    assert_eq!(Color::from_hex(d.to_hex()), d);
}

#[test]
fn blend_moves_toward_other() {
    let a = Color::new(100, 200, 50);
    let b = Color::new(200, 0, 250);
    assert_eq!(a.blend(&b, 0), a);
    assert_eq!(a.blend(&b, FACTOR_ONE), b);
    assert_eq!(a.blend(&b, 2500), Color::new(125, 150, 100));
    assert_eq!(Color::black().blend(&Color::new(255, 255, 255), 5000), Color::new(127, 127, 127));
}
