use vstd::prelude::*;
use crate::color::{Color, packed};
use crate::framebuffer::{FrameModel, Framebuffer};

verus! {

/// The seed of the star field.
pub const STAR_SEED: u32 = 12345;

/// A star: its position as fractions of the screen in 1/65536 steps, and its
/// grey level.
#[derive(Clone, Copy, Debug, PartialEq, Eq, Structural)]
pub struct Star {
    pub x: u32,
    pub y: u32,
    pub brightness: u8,
}

/// A fixed background of stars, the same on every run.
pub struct Skybox {
    pub stars: Vec<Star>,
}

/// One step of the linear congruential generator, modulo 2^32.
pub open spec fn lcg(seed: nat) -> nat {
    (seed * 1103515245 + 12345) % 0x1_0000_0000
}

pub open spec fn lcg_iter(seed: nat, n: nat) -> nat
    decreases n,
{
    if n == 0 {
        seed
    } else {
        lcg(lcg_iter(seed, (n - 1) as nat))
    }
}

/// Grey level from a 16-bit draw `r` read as the fraction r / 65536:
/// 255 above 0.9, 200 above 0.7, 150 above 0.4, else 100.
pub open spec fn star_brightness(r: nat) -> u8 {
    if r > 58982 {
        255
    } else if r > 45874 {
        200
    } else if r > 26214 {
        150
    } else {
        100
    }
}

/// The star made from the three seeds that follow `seed`.
pub open spec fn star_from(seed: nat) -> Star {
    Star {
        x: (lcg(seed) / 65536) as u32,
        y: (lcg(lcg(seed)) / 65536) as u32,
        brightness: star_brightness(lcg(lcg(lcg(seed))) / 65536),
    }
}

/// The `k`-th star of the field.
pub open spec fn star_at(k: nat) -> Star {
    star_from(lcg_iter(STAR_SEED as nat, 3 * k))
}

fn lcg_next(seed: u32) -> (s: u32)
    ensures
        s == lcg(seed as nat),
{
    ((seed as u64 * 1103515245 + 12345) % 0x1_0000_0000) as u32
}

/// The screen coordinate of a star fraction on an axis of `size` pixels.
pub open spec fn star_screen(f: u32, size: nat) -> int {
    (f as nat * size / 65536) as int
}

pub open spec fn grey(level: u8) -> u32 {
    packed(Color { r: level, g: level, b: level }) as u32
}

/// A star drawn: its pixel, and for the brightest a dimmer halo on the four
/// neighbours that fall inside the screen.
pub open spec fn star_drawn(m: FrameModel, s: Star, depth: u32) -> FrameModel {
    let x = star_screen(s.x, m.width);
    let y = star_screen(s.y, m.height);
    if x < m.width && y < m.height {
        let lit = m.plot(x, y, depth, grey(s.brightness));
        if s.brightness > 200 {
            let h = grey(s.brightness / 2);
            lit.plot(x - 1, y, depth, h).plot(x + 1, y, depth, h).plot(x, y - 1, depth, h).plot(x, y + 1, depth, h)
        } else {
            lit
        }
    } else {
        m
    }
}

pub open spec fn stars_drawn(m: FrameModel, stars: Seq<Star>, depth: u32) -> FrameModel
    decreases stars.len(),
{
    if stars.len() == 0 {
        m
    } else {
        star_drawn(stars_drawn(m, stars.drop_last(), depth), stars.last(), depth)
    }
}

proof fn lemma_lcg_iter_step(seed: nat, n: nat)
    ensures
        lcg_iter(seed, n + 1) == lcg(lcg_iter(seed, n)),
{
}

impl Skybox {
    /// `star_count` stars drawn from the generator seeded with `STAR_SEED`,
    /// three draws per star.
    pub fn new(star_count: usize) -> (sky: Skybox)
        ensures
            sky.stars@.len() == star_count,
            forall|k: int| 0 <= k < star_count ==> sky.stars@[k] == star_at(k as nat),
            forall|k: int| 0 <= k < star_count ==> sky.stars@[k].x < 65536 && sky.stars@[k].y < 65536,
    {
        let mut stars: Vec<Star> = Vec::new();
        let mut seed: u32 = STAR_SEED;
        let mut i: usize = 0;
        while i < star_count
            invariant
                i <= star_count,
                stars@.len() == i,
                seed == lcg_iter(STAR_SEED as nat, 3 * i as nat),
                forall|k: int| 0 <= k < i ==> stars@[k] == star_at(k as nat),
                forall|k: int| 0 <= k < i ==> stars@[k].x < 65536 && stars@[k].y < 65536,
            decreases star_count - i,
        {
            let ghost start = seed as nat;
            let s1 = lcg_next(seed);
            let s2 = lcg_next(s1);
            let s3 = lcg_next(s2);
            let r = s3 / 65536;
            let brightness: u8 = if r > 58982 {
                255
            } else if r > 45874 {
                200
            } else if r > 26214 {
                150
            } else {
                100
            };
            stars.push(Star { x: s1 / 65536, y: s2 / 65536, brightness });
            proof {
                lemma_lcg_iter_step(STAR_SEED as nat, 3 * i as nat);
                lemma_lcg_iter_step(STAR_SEED as nat, 3 * i as nat + 1);
                lemma_lcg_iter_step(STAR_SEED as nat, 3 * i as nat + 2);
                assert(3 * (i + 1) as nat == 3 * i as nat + 3);
                assert(stars@[i as int] == star_from(start));
            }
            seed = s3;
            i = i + 1;
        }
        Skybox { stars }
    }

    /// Draws every star at the given depth key, in order.
    pub fn render(&self, framebuffer: &mut Framebuffer, depth: u32)
        requires
            old(framebuffer).wf(),
            forall|k: int| 0 <= k < self.stars@.len() ==> self.stars@[k].x < 65536 && self.stars@[k].y < 65536,
        ensures
            final(framebuffer).wf(),
            final(framebuffer)@ == stars_drawn(old(framebuffer)@, self.stars@, depth),
    {
        let width = framebuffer.width();
        let height = framebuffer.height();
        let mut k: usize = 0;
        while k < self.stars.len()
            invariant
                framebuffer.wf(),
                k <= self.stars@.len(),
                framebuffer@.width == width,
                framebuffer@.height == height,
                forall|j: int| 0 <= j < self.stars@.len() ==> self.stars@[j].x < 65536 && self.stars@[j].y < 65536,
                framebuffer@ == stars_drawn(old(framebuffer)@, self.stars@.take(k as int), depth),
            decreases self.stars@.len() - k,
        {
            let star = self.stars[k];
            let ghost before = framebuffer@;
            proof {
                assert(star.x as u64 * width as u64 <= 65536 * (width as u64)) by (nonlinear_arith)
                    requires
                        star.x < 65536,
                ;
                assert(star.y as u64 * height as u64 <= 65536 * (height as u64)) by (nonlinear_arith)
                    requires
                        star.y < 65536,
                ;
                assert(width as nat * height as nat <= usize::MAX);
                assert(width as u64 <= 0xffff_ffff_ffff_ffff);
            }
            let sx: u128 = (star.x as u128) * (width as u128) / 65536;
            let sy: u128 = (star.y as u128) * (height as u128) / 65536;
            if sx < width as u128 && sy < height as u128 {
                let x = sx as usize;
                let y = sy as usize;
                let c = Color::new(star.brightness, star.brightness, star.brightness).to_hex();
                framebuffer.point(x, y, depth, c);
                if star.brightness > 200 {
                    let dim = star.brightness / 2;
                    let h = Color::new(dim, dim, dim).to_hex();
                    let ghost m0 = framebuffer@;
                    if x > 0 {
                        framebuffer.point(x - 1, y, depth, h);
                    }
                    let ghost m1 = framebuffer@;
                    assert(m1 == m0.plot(x - 1, y as int, depth, h));
                    if x < width - 1 {
                        framebuffer.point(x + 1, y, depth, h);
                    }
                    let ghost m2 = framebuffer@;
                    assert(m2 == m1.plot(x + 1, y as int, depth, h));
                    if y > 0 {
                        framebuffer.point(x, y - 1, depth, h);
                    }
                    let ghost m3 = framebuffer@;
                    assert(m3 == m2.plot(x as int, y - 1, depth, h));
                    if y < height - 1 {
                        framebuffer.point(x, y + 1, depth, h);
                    }
                    assert(framebuffer@ == m3.plot(x as int, y + 1, depth, h));
                }
            }
            proof {
                assert(self.stars@.take(k + 1).drop_last() =~= self.stars@.take(k as int));
                assert(framebuffer@ == star_drawn(before, star, depth));
            }
            k = k + 1;
        }
        proof {
            assert(self.stars@.take(self.stars@.len() as int) =~= self.stars@);
        }
    }
}

} // verus!
