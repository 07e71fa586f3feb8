use vstd::prelude::*;

verus! {

/// Depth keys order fragments front to back: a smaller key is nearer.
/// A cleared pixel holds this key, farther than any fragment's.
pub const DEPTH_FAR: u32 = 0xffff_ffff;

/// What a framebuffer holds: packed colours and depth keys, row-major.
pub struct FrameModel {
    pub width: nat,
    pub height: nat,
    pub pixels: Seq<u32>,
    pub depths: Seq<u32>,
    pub background: u32,
}

impl FrameModel {
    pub open spec fn index(self, x: nat, y: nat) -> nat {
        y * self.width + x
    }

    pub open spec fn wf(self) -> bool {
        &&& self.pixels.len() == self.width * self.height
        &&& self.depths.len() == self.width * self.height
    }

    pub open spec fn in_bounds(self, x: nat, y: nat) -> bool {
        x < self.width && y < self.height
    }

    pub open spec fn pixel(self, x: nat, y: nat) -> u32 {
        self.pixels[self.index(x, y) as int]
    }

    pub open spec fn depth(self, x: nat, y: nat) -> u32 {
        self.depths[self.index(x, y) as int]
    }

    /// The depth-tested write: the colour and depth land only where `depth`
    /// is nearer than or as near as what the pixel holds.
    pub open spec fn point(self, x: nat, y: nat, depth: u32, color: u32) -> FrameModel {
        let i = self.index(x, y) as int;
        if depth <= self.depths[i] {
            FrameModel {
                pixels: self.pixels.update(i, color),
                depths: self.depths.update(i, depth),
                ..self
            }
        } else {
            self
        }
    }
}

pub proof fn lemma_index_in_range(width: nat, height: nat, x: nat, y: nat)
    requires
        x < width,
        y < height,
    ensures
        y * width + x < width * height,
{
    assert(y * width + x < width * height) by (nonlinear_arith)
        requires
            x < width,
            y < height,
    ;
}

/// A pixel buffer with a parallel depth buffer.
pub struct Framebuffer {
    width: usize,
    height: usize,
    buffer: Vec<u32>,
    zbuffer: Vec<u32>,
    background_color: u32,
}

impl View for Framebuffer {
    type V = FrameModel;

    closed spec fn view(&self) -> FrameModel {
        FrameModel {
            width: self.width as nat,
            height: self.height as nat,
            pixels: self.buffer@,
            depths: self.zbuffer@,
            background: self.background_color,
        }
    }
}

impl Framebuffer {
    pub open spec fn wf(&self) -> bool {
        &&& self@.wf()
        &&& self@.width * self@.height <= usize::MAX
    }

    /// A `width` x `height` framebuffer, black, every depth far, on a black
    /// background.
    pub fn new(width: usize, height: usize) -> (fb: Framebuffer)
        requires
            width * height <= usize::MAX,
        ensures
            fb.wf(),
            fb@.width == width,
            fb@.height == height,
            fb@.background == 0,
            forall|i: int| 0 <= i < width * height ==> fb@.pixels[i] == 0 && fb@.depths[i] == DEPTH_FAR,
    {
        let n: usize = width * height;
        let mut buffer: Vec<u32> = Vec::new();
        let mut zbuffer: Vec<u32> = Vec::new();
        let mut i: usize = 0;
        while i < n
            invariant
                i <= n,
                buffer@.len() == i,
                zbuffer@.len() == i,
                forall|j: int| 0 <= j < i ==> buffer@[j] == 0 && zbuffer@[j] == DEPTH_FAR,
            decreases n - i,
        {
            buffer.push(0);
            zbuffer.push(DEPTH_FAR);
            i = i + 1;
        }
        Framebuffer { width, height, buffer, zbuffer, background_color: 0 }
    }

    pub fn width(&self) -> (w: usize)
        ensures
            w == self@.width,
    {
        self.width
    }

    pub fn height(&self) -> (h: usize)
        ensures
            h == self@.height,
    {
        self.height
    }

    /// The packed colours, row-major, for presentation.
    pub fn buffer(&self) -> (b: &Vec<u32>)
        ensures
            b@ == self@.pixels,
    {
        &self.buffer
    }

    /// The packed colour at (x, y).
    pub fn pixel(&self, x: usize, y: usize) -> (c: u32)
        requires
            self.wf(),
            x < self@.width,
            y < self@.height,
        ensures
            c == self@.pixel(x as nat, y as nat),
    {
        proof {
            lemma_index_in_range(self.width as nat, self.height as nat, x as nat, y as nat);
        }
        self.buffer[y * self.width + x]
    }

    /// The depth key stored at (x, y).
    pub fn depth(&self, x: usize, y: usize) -> (d: u32)
        requires
            self.wf(),
            x < self@.width,
            y < self@.height,
        ensures
            d == self@.depth(x as nat, y as nat),
    {
        proof {
            lemma_index_in_range(self.width as nat, self.height as nat, x as nat, y as nat);
        }
        self.zbuffer[y * self.width + x]
    }

    /// Sets the colour that the next `clear` fills with.
    pub fn set_background_color(&mut self, color: u32)
        ensures
            final(self)@ == (FrameModel { background: color, ..old(self)@ }),
    {
        self.background_color = color;
    }

    /// Fills every pixel with the background colour and every depth with
    /// `DEPTH_FAR`.
    pub fn clear(&mut self)
        requires
            old(self).wf(),
        ensures
            final(self).wf(),
            final(self)@.width == old(self)@.width,
            final(self)@.height == old(self)@.height,
            final(self)@.background == old(self)@.background,
            forall|i: int|
                0 <= i < final(self)@.pixels.len() ==> final(self)@.pixels[i] == old(self)@.background
                    && final(self)@.depths[i] == DEPTH_FAR,
    {
        let n: usize = self.buffer.len();
        let mut i: usize = 0;
        while i < n
            invariant
                i <= n,
                n == self.buffer@.len(),
                self.wf(),
                self.width == old(self).width,
                self.height == old(self).height,
                self.background_color == old(self).background_color,
                forall|j: int| 0 <= j < i ==> self.buffer@[j] == self.background_color && self.zbuffer@[j] == DEPTH_FAR,
            decreases n - i,
        {
            let bg = self.background_color;
            self.buffer.set(i, bg);
            self.zbuffer.set(i, DEPTH_FAR);
            i = i + 1;
        }
    }

    /// Writes `color` at (x, y) when `depth` is nearer than or as near as the
    /// stored depth; otherwise leaves the framebuffer as it was.
    pub fn point(&mut self, x: usize, y: usize, depth: u32, color: u32)
        requires
            old(self).wf(),
            x < old(self)@.width,
            y < old(self)@.height,
        ensures
            final(self).wf(),
            final(self)@ == old(self)@.point(x as nat, y as nat, depth, color),
    {
        proof {
            lemma_index_in_range(self.width as nat, self.height as nat, x as nat, y as nat);
        }
        let i = y * self.width + x;
        if depth <= self.zbuffer[i] {
            self.buffer.set(i, color);
            self.zbuffer.set(i, depth);
        }
        proof {
            assert(self@ =~= old(self)@.point(x as nat, y as nat, depth, color));
        }
    }
}

impl FrameModel {
    /// A depth-tested write that is dropped when (x, y) lies outside.
    pub open spec fn plot(self, x: int, y: int, depth: u32, color: u32) -> FrameModel {
        if 0 <= x < self.width && 0 <= y < self.height {
            self.point(x as nat, y as nat, depth, color)
        } else {
            self
        }
    }
}

impl Framebuffer {
    /// Like `point`, for coordinates that may fall outside the framebuffer:
    /// those writes are dropped.
    pub fn plot(&mut self, x: i64, y: i64, depth: u32, color: u32)
        requires
            old(self).wf(),
        ensures
            final(self).wf(),
            final(self)@ == old(self)@.plot(x as int, y as int, depth, color),
    {
        if x >= 0 && y >= 0 && (x as u64) < (self.width as u64) && (y as u64) < (self.height as u64) {
            self.point(x as usize, y as usize, depth, color);
        }
    }
}

/// A clear followed by no writes leaves every pixel at the background colour.
pub proof fn lemma_clear_shows_background(before: FrameModel, after: FrameModel, x: nat, y: nat)
    requires
        before.wf(),
        after.wf(),
        after.width == before.width,
        after.height == before.height,
        forall|i: int| 0 <= i < after.pixels.len() ==> after.pixels[i] == before.background,
        after.in_bounds(x, y),
    ensures
        after.pixel(x, y) == before.background,
{
    lemma_index_in_range(after.width, after.height, x, y);
}

/// Of two writes to one pixel the nearer colour survives, whichever comes
/// first, as long as the pixel held nothing nearer before.
pub proof fn lemma_nearer_write_survives(
    m: FrameModel,
    x: nat,
    y: nat,
    near: u32,
    far: u32,
    near_color: u32,
    far_color: u32,
)
    requires
        m.wf(),
        m.in_bounds(x, y),
        near < far,
        near <= m.depth(x, y),
    ensures
        m.point(x, y, far, far_color).point(x, y, near, near_color).pixel(x, y) == near_color,
        m.point(x, y, near, near_color).point(x, y, far, far_color).pixel(x, y) == near_color,
        m.point(x, y, far, far_color).point(x, y, near, near_color).depth(x, y) == near,
        m.point(x, y, near, near_color).point(x, y, far, far_color).depth(x, y) == near,
{
    lemma_index_in_range(m.width, m.height, x, y);
}

} // verus!
