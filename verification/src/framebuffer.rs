//! The composited picture of the display, packed for a viewer.
use vstd::prelude::*;

verus! {

/// The words from one row of the display buffer to the next.
pub const STRIDE: usize = 2048;

/// One captured frame: tightly packed bytes R, G, B, A and its size in pixels.
#[derive(Debug)]
pub struct Frame {
    pub width: usize,
    pub height: usize,
    pub rgba: Vec<u8>,
    /// Goes up with each frame, so that a viewer can tell a new one.
    pub seq: u64,
}

/// The slot of the latest frame.
#[derive(Debug)]
pub struct FrameSink {
    pub frame: Frame,
    pub seq: u64,
}

/// Captures the composited picture into a sink.
#[derive(Debug)]
pub struct CaptureRenderer {
    pub sink: FrameSink,
    pub seq: u64,
}

/// How many rows of `width` words lie whole in a buffer of `len` words, at most
/// `height`.
pub open spec fn whole_rows(len: int, width: int, height: int) -> int {
    if width > len {
        0
    } else if (len - width) / (STRIDE as int) + 1 < height {
        (len - width) / (STRIDE as int) + 1
    } else {
        height
    }
}

/// Byte `c` of a pixel whose word holds R in its low byte, then G, then B. The
/// pixel is opaque.
pub open spec fn lane(word: u32, c: int) -> u8 {
    if c == 0 {
        (word % 256) as u8
    } else if c == 1 {
        (word / 256 % 256) as u8
    } else if c == 2 {
        (word / 65536 % 256) as u8
    } else {
        255
    }
}

/// Byte `p` of the packed picture; where the buffer has no row for it, what stood
/// there before.
pub open spec fn packed_at(buffer: Seq<u32>, width: int, height: int, before: Seq<u8>, p: int) -> u8 {
    let y = p / 4 / width;
    let x = p / 4 % width;
    if y < whole_rows(buffer.len() as int, width, height) {
        lane(buffer[y * STRIDE + x], p % 4)
    } else {
        before[p]
    }
}

/// The bytes of a frame of another size count as zeros.
pub open spec fn starting_bytes(old_rgba: Seq<u8>, needed: nat) -> Seq<u8> {
    if old_rgba.len() == needed {
        old_rgba
    } else {
        Seq::new(needed, |p: int| 0u8)
    }
}

/// The picture in a display buffer, packed.
pub open spec fn packed(buffer: Seq<u32>, width: int, height: int, old_rgba: Seq<u8>) -> Seq<u8> {
    let needed = (width * height * 4) as nat;
    let before = starting_bytes(old_rgba, needed);
    Seq::new(needed, |p: int| packed_at(buffer, width, height, before, p))
}

/// Whether a picture of this size can be captured: it has pixels, and the length
/// of its bytes is a number.
pub open spec fn has_picture(width: int, height: int) -> bool {
    width > 0 && height > 0 && width * height * 4 <= usize::MAX
}

impl Frame {
    /// The bytes are those of all pixels.
    pub open spec fn well_formed(self) -> bool {
        self.rgba@.len() == self.width * self.height * 4
    }

    /// A frame without pixels.
    pub fn empty() -> (r: Frame)
        ensures
            r.well_formed(),
            r.width == 0,
            r.height == 0,
            r.rgba@.len() == 0,
            r.seq == 0,
    {
        Frame { width: 0, height: 0, rgba: Vec::new(), seq: 0 }
    }

    /// A copy of the frame.
    pub fn copy(&self) -> (r: Frame)
        ensures
            r.width == self.width,
            r.height == self.height,
            r.rgba@ == self.rgba@,
            r.seq == self.seq,
    {
        let mut rgba: Vec<u8> = Vec::new();
        rgba.extend_from_slice(self.rgba.as_slice());
        assert(rgba@ =~= self.rgba@);
        Frame { width: self.width, height: self.height, rgba, seq: self.seq }
    }
}

impl FrameSink {
    /// The number of the latest frame is that of the frame in the slot, which is
    /// whole.
    pub open spec fn well_formed(self) -> bool {
        self.seq == self.frame.seq && self.frame.well_formed()
    }

    /// A slot that no frame has come to yet.
    pub fn new() -> (r: Self)
        ensures
            r.well_formed(),
            r.seq == 0,
            r.frame.width == 0,
            r.frame.height == 0,
    {
        FrameSink { frame: Frame::empty(), seq: 0 }
    }

    /// The number of the latest frame; zero before the first.
    pub fn seq(&self) -> (r: u64)
        ensures
            r == self.seq,
    {
        self.seq
    }

    /// A copy of the latest frame.
    pub fn snapshot(&self) -> (r: Frame)
        ensures
            r.width == self.frame.width,
            r.height == self.frame.height,
            r.rgba@ == self.frame.rgba@,
            r.seq == self.frame.seq,
    {
        self.frame.copy()
    }
}

/// The next frame number.
pub open spec fn next_seq(seq: u64) -> u64 {
    if seq == u64::MAX {
        0
    } else {
        (seq + 1) as u64
    }
}

/// Where pixel `(x, y)` starts, seen from its bytes.
proof fn lemma_pixel(w: int, x: int, y: int, c: int)
    requires
        0 <= x < w,
        0 <= y,
        0 <= c < 4,
    ensures
        ((y * w + x) * 4 + c) / 4 == y * w + x,
        ((y * w + x) * 4 + c) % 4 == c,
        (y * w + x) / w == y,
        (y * w + x) % w == x,
{
    vstd::arithmetic::div_mod::lemma_fundamental_div_mod_converse(y * w + x, w, y, x);
}

impl CaptureRenderer {
    /// A renderer that captures into `sink`.
    pub fn new(sink: FrameSink) -> (r: Self)
        ensures
            r.sink == sink,
            r.seq == 0,
    {
        CaptureRenderer { sink, seq: 0 }
    }

    /// Captures a picture of `width` by `height` pixels from the display buffer and
    /// gives it the next number. A picture without pixels changes nothing.
    pub fn present(&mut self, width: usize, height: usize, buffer: &[u32])
        requires
            old(self).sink.well_formed(),
        ensures
            final(self).sink.well_formed(),
            !has_picture(width as int, height as int) ==> *final(self) == *old(self),
            has_picture(width as int, height as int) ==> {
                &&& final(self).seq == next_seq(old(self).seq)
                &&& final(self).sink.seq == final(self).seq
                &&& final(self).sink.frame.width == width
                &&& final(self).sink.frame.height == height
                &&& final(self).sink.frame.rgba@ == packed(
                    buffer@,
                    width as int,
                    height as int,
                    old(self).sink.frame.rgba@,
                )
            },
    {
        if width == 0 || height == 0 {
            return;
        }
        proof {
            assert(width * height >= 1) by (nonlinear_arith)
                requires
                    width >= 1,
                    height >= 1,
            ;
        }
        let pixels: usize = match width.checked_mul(height) {
            Some(n) => n,
            None => {
                return;
            },
        };
        let needed: usize = match pixels.checked_mul(4) {
            Some(n) => n,
            None => {
                return;
            },
        };
        let ghost before = starting_bytes(self.sink.frame.rgba@, needed as nat);
        let mut rgba: Vec<u8> = Vec::new();
        std::mem::swap(&mut rgba, &mut self.sink.frame.rgba);
        if rgba.len() != needed {
            rgba = vec![0u8; needed];
            assert(rgba@ =~= before);
        }
        let len: usize = buffer.len();
        let rows: usize = if width > len {
            0
        } else if (len - width) / STRIDE < height - 1 {
            (len - width) / STRIDE + 1
        } else {
            height
        };
        assert(rows == whole_rows(len as int, width as int, height as int));
        let mut y: usize = 0;
        while y < rows
            invariant
                y <= rows <= height,
                rows == whole_rows(len as int, width as int, height as int),
                len == buffer@.len(),
                width > 0,
                needed == width * height * 4,
                rgba@.len() == needed,
                before.len() == needed,
                forall|p: int|
                    0 <= p < (y * width) * 4 ==> #[trigger] rgba@[p] == packed_at(
                        buffer@,
                        width as int,
                        height as int,
                        before,
                        p,
                    ),
                forall|p: int| (y * width) * 4 <= p < needed ==> #[trigger] rgba@[p] == before[p],
            decreases rows - y,
        {
            proof {
                assert((y + 1) * width <= height * width) by (nonlinear_arith)
                    requires
                        y + 1 <= height,
                        width > 0,
                ;
                assert((y + 1) * width == y * width + width) by (nonlinear_arith);
                assert(height * width == width * height) by (nonlinear_arith);
                assert(0 <= y * width) by (nonlinear_arith)
                    requires
                        0 <= y,
                        0 <= width,
                ;
            }
            let mut x: usize = 0;
            while x < width
                invariant
                    x <= width,
                    y < rows <= height,
                    rows == whole_rows(len as int, width as int, height as int),
                    len == buffer@.len(),
                    needed == width * height * 4,
                    0 <= y * width,
                    y * width + width <= width * height,
                    rgba@.len() == needed,
                    before.len() == needed,
                    forall|p: int|
                        0 <= p < (y * width + x) * 4 ==> #[trigger] rgba@[p] == packed_at(
                            buffer@,
                            width as int,
                            height as int,
                            before,
                            p,
                        ),
                    forall|p: int| (y * width + x) * 4 <= p < needed ==> #[trigger] rgba@[p] == before[p],
                decreases width - x,
            {
                let word: u32 = buffer[y * STRIDE + x];
                let at: usize = (y * width + x) * 4;
                proof {
                    lemma_pixel(width as int, x as int, y as int, 0);
                    lemma_pixel(width as int, x as int, y as int, 1);
                    lemma_pixel(width as int, x as int, y as int, 2);
                    lemma_pixel(width as int, x as int, y as int, 3);
                }
                rgba[at] = (word % 256) as u8;
                rgba[at + 1] = (word / 256 % 256) as u8;
                rgba[at + 2] = (word / 65536 % 256) as u8;
                rgba[at + 3] = 255;
                x += 1;
            }
            y += 1;
        }
        proof {
            let full = packed(buffer@, width as int, height as int, old(self).sink.frame.rgba@);
            assert forall|p: int| 0 <= p < needed implies #[trigger] rgba@[p] == full[p] by {
                if p >= (rows * width) * 4 {
                    assert(p / 4 >= rows * width);
                    assert(p / 4 / width as int >= rows) by (nonlinear_arith)
                        requires
                            p / 4 >= rows * width,
                            width > 0,
                    ;
                }
            }
            assert(rgba@ =~= full);
        }
        self.sink.frame.rgba = rgba;
        self.sink.frame.width = width;
        self.sink.frame.height = height;
        self.seq = if self.seq == u64::MAX {
            0
        } else {
            self.seq + 1
        };
        self.sink.frame.seq = self.seq;
        self.sink.seq = self.seq;
    }
}

/// Every pixel whose row lies whole in the display buffer shows the word at its place:
/// red in the low byte, then green, then blue. It is opaque. Rows are 2048 words apart.
pub proof fn law_captured_pixels(buffer: Seq<u32>, width: int, height: int, old_rgba: Seq<u8>, x: int, y: int)
    requires
        0 <= x < width,
        0 <= y < height,
        y * 2048 + width <= buffer.len(),
    ensures
        ({
            let rgba = packed(buffer, width, height, old_rgba);
            let at = (y * width + x) * 4;
            let word = buffer[y * 2048 + x];
            &&& rgba.len() == width * height * 4
            &&& 0 <= at && at + 3 < rgba.len()
            &&& rgba[at] == word % 256
            &&& rgba[at + 1] == word / 256 % 256
            &&& rgba[at + 2] == word / 65536 % 256
            &&& rgba[at + 3] == 255
        }),
{
    lemma_pixel_inside(width, height, x, y);
    lemma_pixel(width, x, y, 0);
    lemma_pixel(width, x, y, 1);
    lemma_pixel(width, x, y, 2);
    lemma_pixel(width, x, y, 3);
}

proof fn lemma_pixel_inside(width: int, height: int, x: int, y: int)
    requires
        0 <= x < width,
        0 <= y < height,
    ensures
        0 <= y * width + x < width * height,
{
    assert((y + 1) * width <= height * width) by (nonlinear_arith)
        requires
            y + 1 <= height,
            width > 0,
    ;
    assert((y + 1) * width == y * width + width) by (nonlinear_arith);
    assert(height * width == width * height) by (nonlinear_arith);
    assert(0 <= y * width) by (nonlinear_arith)
        requires
            0 <= y,
            0 <= width,
    ;
}

/// A pixel whose row does not lie whole in the display buffer is not taken from it: it
/// keeps what the frame before held there, and is zero where that had another size.
pub proof fn law_pixels_that_are_not_captured(
    buffer: Seq<u32>,
    width: int,
    height: int,
    old_rgba: Seq<u8>,
    x: int,
    y: int,
    c: int,
)
    requires
        0 <= x < width,
        0 <= y < height,
        0 <= c < 4,
        y * 2048 + width > buffer.len(),
    ensures
        ({
            let now = packed(buffer, width, height, old_rgba)[(y * width + x) * 4 + c];
            &&& old_rgba.len() == width * height * 4 ==> now == old_rgba[(y * width + x) * 4 + c]
            &&& old_rgba.len() != width * height * 4 ==> now == 0
        }),
{
    lemma_pixel_inside(width, height, x, y);
    lemma_pixel(width, x, y, c);
    let before = starting_bytes(old_rgba, (width * height * 4) as nat);
    assert(packed(buffer, width, height, old_rgba)[(y * width + x) * 4 + c] == before[(y * width + x) * 4 + c]);
}

/// Every size that has pixels, and whose bytes can be counted, has a picture; the number
/// of a frame is one more than that of the frame before, from the largest back to zero.
pub proof fn law_every_picture_is_captured_and_counted(width: int, height: int, seq: u64)
    ensures
        has_picture(width, height) <==> (width >= 1 && height >= 1 && width * height * 4 <= usize::MAX),
        next_seq(seq) != seq,
        seq < 0xffff_ffff_ffff_ffff ==> next_seq(seq) == seq + 1,
        seq == 0xffff_ffff_ffff_ffff ==> next_seq(seq) == 0,
{
}

/// A frame is whole with four bytes for each of its pixels, and a slot is well formed with a
/// whole frame of the same number.
pub proof fn law_whole_frames(f: Frame, s: FrameSink)
    ensures
        f.well_formed() <==> f.rgba@.len() == f.width * f.height * 4,
        s.well_formed() <==> s.seq == s.frame.seq && s.frame.rgba@.len() == s.frame.width * s.frame.height * 4,
{
}

}
