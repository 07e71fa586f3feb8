use vstd::prelude::*;

verus! {

/// Scale factors are fixed-point numbers with this many units per 1.0.
pub const FACTOR_ONE: u32 = 10000;

/// An 8-bit-per-channel RGB colour.
#[derive(Clone, Copy, Debug, PartialEq, Eq, Structural)]
pub struct Color {
    pub r: u8,
    pub g: u8,
    pub b: u8,
}

/// A channel multiplied by a fixed-point factor, truncated and clamped to 255.
pub open spec fn scaled_channel(c: u8, k: nat) -> u8 {
    let v = (c as nat * k) / (FACTOR_ONE as nat);
    if v > 255 {
        255
    } else {
        v as u8
    }
}

/// The colour packed as `(r << 16) | (g << 8) | b`.
pub open spec fn packed(c: Color) -> nat {
    c.r as nat * 65536 + c.g as nat * 256 + c.b as nat
}

/// The colour held in the low 24 bits of a packed integer.
pub open spec fn unpacked(hex: u32) -> Color {
    Color {
        r: ((hex as nat / 65536) % 256) as u8,
        g: ((hex as nat / 256) % 256) as u8,
        b: (hex as nat % 256) as u8,
    }
}

/// Linear blend of one channel toward another by `t` out of `FACTOR_ONE`.
pub open spec fn blended_channel(a: u8, b: u8, t: nat) -> u8 {
    ((a as int * (10000 - t) + b as int * t) / 10000) as u8
}

impl Color {
    pub open spec fn scaled(self, k: nat) -> Color {
        Color {
            r: scaled_channel(self.r, k),
            g: scaled_channel(self.g, k),
            b: scaled_channel(self.b, k),
        }
    }

    pub open spec fn blended(self, other: Color, t: nat) -> Color {
        Color {
            r: blended_channel(self.r, other.r, t),
            g: blended_channel(self.g, other.g, t),
            b: blended_channel(self.b, other.b, t),
        }
    }

    pub fn new(r: u8, g: u8, b: u8) -> (c: Color)
        ensures
            c == (Color { r, g, b }),
    {
        Color { r, g, b }
    }

    pub fn black() -> (c: Color)
        ensures
            c == (Color { r: 0, g: 0, b: 0 }),
    {
        Color { r: 0, g: 0, b: 0 }
    }

    pub fn red(&self) -> (v: u8)
        ensures
            v == self.r,
    {
        self.r
    }

    pub fn green(&self) -> (v: u8)
        ensures
            v == self.g,
    {
        self.g
    }

    pub fn blue(&self) -> (v: u8)
        ensures
            v == self.b,
    {
        self.b
    }

    /// Unpacks the low 24 bits of `hex`; higher bits are ignored.
    pub fn from_hex(hex: u32) -> (c: Color)
        ensures
            c == unpacked(hex),
    {
        Color { r: ((hex / 65536) % 256) as u8, g: ((hex / 256) % 256) as u8, b: (hex % 256) as u8 }
    }

    /// Packs the colour into a 24-bit integer, red in the high byte.
    pub fn to_hex(&self) -> (hex: u32)
        ensures
            hex as nat == packed(*self),
            hex < 0x100_0000,
    {
        (self.r as u32) * 65536 + (self.g as u32) * 256 + (self.b as u32)
    }

    /// Multiplies every channel by `factor / FACTOR_ONE`, truncating and
    /// clamping to 255 instead of wrapping.
    pub fn scale(&self, factor: u32) -> (c: Color)
        ensures
            c == self.scaled(factor as nat),
    {
        Color {
            r: scale_channel(self.r, factor),
            g: scale_channel(self.g, factor),
            b: scale_channel(self.b, factor),
        }
    }

    /// Moves the colour toward `other` by `t / FACTOR_ONE` (0 keeps `self`,
    /// `FACTOR_ONE` gives `other`), truncating each channel.
    pub fn blend(&self, other: &Color, t: u32) -> (c: Color)
        requires
            t <= FACTOR_ONE,
        ensures
            c == self.blended(*other, t as nat),
    {
        Color {
            r: blend_channel(self.r, other.r, t),
            g: blend_channel(self.g, other.g, t),
            b: blend_channel(self.b, other.b, t),
        }
    }
}

fn scale_channel(c: u8, k: u32) -> (r: u8)
    ensures
        r == scaled_channel(c, k as nat),
{
    assert(c as u64 * k as u64 <= 255 * 0xffff_ffff) by (nonlinear_arith)
        requires
            c <= 255,
            k <= 0xffff_ffff,
    ;
    let v: u64 = (c as u64) * (k as u64) / (FACTOR_ONE as u64);
    if v > 255 {
        255
    } else {
        v as u8
    }
}

fn blend_channel(a: u8, b: u8, t: u32) -> (r: u8)
    requires
        t <= FACTOR_ONE,
    ensures
        r == blended_channel(a, b, t as nat),
{
    let s: u64 = (FACTOR_ONE - t) as u64;
    proof {
        assert(a as u64 * s <= 255 * 10000) by (nonlinear_arith)
            requires
                a <= 255,
                s <= 10000,
        ;
        assert(b as u64 * t as u64 <= 255 * 10000) by (nonlinear_arith)
            requires
                b <= 255,
                t <= 10000,
        ;
        assert((a as nat * s as nat + b as nat * t as nat) <= 255 * 10000) by (nonlinear_arith)
            requires
                a <= 255,
                s + t == 10000,
        ;
    }
    let v: u64 = ((a as u64) * s + (b as u64) * (t as u64)) / (FACTOR_ONE as u64);
    v as u8
}

/// Scaling by exactly one leaves a colour unchanged.
pub proof fn lemma_scale_by_one(c: Color)
    ensures
        c.scaled(FACTOR_ONE as nat) == c,
{
}

/// Scaling never wraps: each channel is the true product, or 255 when the
/// product exceeds 255.
pub proof fn lemma_scale_clamps(c: Color, k: nat)
    ensures
        c.scaled(k).r as nat == if c.r as nat * k / 10000 <= 255 { c.r as nat * k / 10000 } else { 255 },
        c.scaled(k).g as nat == if c.g as nat * k / 10000 <= 255 { c.g as nat * k / 10000 } else { 255 },
        c.scaled(k).b as nat == if c.b as nat * k / 10000 <= 255 { c.b as nat * k / 10000 } else { 255 },
        c.scaled(k).r <= 255 && c.scaled(k).g <= 255 && c.scaled(k).b <= 255,
{
}

/// Packing then unpacking gives the colour back.
pub proof fn lemma_hex_round_trip(c: Color)
    ensures
        packed(c) < 0x100_0000,
        unpacked(packed(c) as u32) == c,
{
    let h = packed(c);
    assert(h / 65536 == c.r as nat) by (nonlinear_arith)
        requires
            h == c.r as nat * 65536 + c.g as nat * 256 + c.b as nat,
            c.g < 256,
            c.b < 256,
    ;
    assert(h / 256 == c.r as nat * 256 + c.g as nat) by (nonlinear_arith)
        requires
            h == c.r as nat * 65536 + c.g as nat * 256 + c.b as nat,
            c.b < 256,
    ;
    assert((c.r as nat * 256 + c.g as nat) % 256 == c.g as nat) by (nonlinear_arith)
        requires
            c.g < 256,
    ;
    assert(h % 256 == c.b as nat) by (nonlinear_arith)
        requires
            h == c.r as nat * 65536 + c.g as nat * 256 + c.b as nat,
            c.b < 256,
    ;
}

} // verus!
