//! A picture of the display as a PNG file.
use vstd::prelude::*;

verus! {

/// The words from one row of the display buffer to the next.
pub const STRIDE: usize = 2048;

/// Byte `c` of a pixel whose word holds B in its low byte, then G, then R: R, G, B.
pub open spec fn channel(word: u32, c: int) -> u8 {
    if c == 0 {
        (word / 65536 % 256) as u8
    } else if c == 1 {
        (word / 256 % 256) as u8
    } else {
        (word % 256) as u8
    }
}

/// The visible part of the display buffer, three bytes to the pixel.
pub open spec fn rgb_bytes(screen: Seq<u32>, width: int, height: int) -> Seq<u8> {
    Seq::new(
        (width * height * 3) as nat,
        |p: int| channel(screen[p / 3 / width * STRIDE + p / 3 % width], p % 3),
    )
}

/// Whether the visible rows all lie in the buffer, and their bytes can be counted.
pub open spec fn rows_fit(len: int, width: int, height: int) -> bool {
    &&& height > 0 ==> (height - 1) * STRIDE + width <= len
    &&& width * height * 3 < usize::MAX
}

/// What byte of which pixel stands where.
proof fn lemma_pixel(w: int, x: int, y: int, c: int)
    requires
        0 <= x < w,
        0 <= y,
        0 <= c < 3,
    ensures
        ((y * w + x) * 3 + c) / 3 == y * w + x,
        ((y * w + x) * 3 + c) % 3 == c,
        (y * w + x) / w == y,
        (y * w + x) % w == x,
{
    vstd::arithmetic::div_mod::lemma_fundamental_div_mod_converse(y * w + x, w, y, x);
}

/// The visible part of the display buffer, three bytes to the pixel.
pub fn screen_rgb(screen: &[u32], width: usize, height: usize) -> (r: Vec<u8>)
    requires
        rows_fit(screen@.len() as int, width as int, height as int),
    ensures
        r@ == rgb_bytes(screen@, width as int, height as int),
{
    let len: usize = screen.len();
    let ghost all = rgb_bytes(screen@, width as int, height as int);
    let mut r: Vec<u8> = Vec::new();
    let mut y: usize = 0;
    proof {
        assert(0 <= width * height) by (nonlinear_arith);
        assert(0 * width == 0);
    }
    while y < height
        invariant
            y <= height,
            len == screen@.len(),
            rows_fit(len as int, width as int, height as int),
            all == rgb_bytes(screen@, width as int, height as int),
            all.len() == width * height * 3,
            r@.len() == (y * width) * 3,
            forall|p: int| 0 <= p < r@.len() ==> #[trigger] r@[p] == all[p],
        decreases height - y,
    {
        proof {
            assert((y + 1) * width <= height * width) by (nonlinear_arith)
                requires
                    y + 1 <= height,
                    width >= 0,
            ;
            assert((y + 1) * width == y * width + width) by (nonlinear_arith);
            assert(height * width == width * height) by (nonlinear_arith);
            assert(0 <= y * width) by (nonlinear_arith)
                requires
                    0 <= y,
                    0 <= width,
            ;
        }
        let mut x: usize = 0;
        while x < width
            invariant
                x <= width,
                y < height,
                len == screen@.len(),
                rows_fit(len as int, width as int, height as int),
                all == rgb_bytes(screen@, width as int, height as int),
                all.len() == width * height * 3,
                0 <= y * width,
                y * width + width <= width * height,
                r@.len() == (y * width + x) * 3,
                forall|p: int| 0 <= p < r@.len() ==> #[trigger] r@[p] == all[p],
            decreases width - x,
        {
            let word: u32 = screen[y * STRIDE + x];
            proof {
                lemma_pixel(width as int, x as int, y as int, 0);
                lemma_pixel(width as int, x as int, y as int, 1);
                lemma_pixel(width as int, x as int, y as int, 2);
            }
            r.push((word / 65536 % 256) as u8);
            r.push((word / 256 % 256) as u8);
            r.push((word % 256) as u8);
            x += 1;
        }
        y += 1;
    }
    assert(height * width == width * height) by (nonlinear_arith);
    assert(r@ =~= all);
    r
}

/// The PNG file that `png::Encoder` writes for the pixels of a picture, in 8-bit RGB
/// and with its default settings.
pub uninterp spec fn png_file(rgb: Seq<u8>, width: int, height: int) -> Seq<u8>;

/// `png::Encoder` for 8-bit RGB, writing into memory: the header, then the image
/// data. A picture with pixels is encoded, and the file is named by [`png_file`];
/// one without is refused by the header.
#[verifier::external_body]
fn encode(rgb: &[u8], width: u32, height: u32) -> (r: Result<Vec<u8>, String>)
    requires
        rgb@.len() == width * height * 3,
        rgb@.len() < usize::MAX,
    ensures
        match r {
            Ok(file) => width > 0 && height > 0 && file@ == png_file(rgb@, width as int, height as int),
            Err(e) => (width == 0 && e@ == "Zero width not allowed"@) || (width > 0 && height == 0 && e@
                == "Zero height not allowed"@),
        },
{
    let mut out = Vec::new();
    let mut enc = png::Encoder::new(&mut out, width, height);
    enc.set_color(png::ColorType::Rgb);
    enc.set_depth(png::BitDepth::Eight);
    let mut writer = enc.write_header().map_err(|e| e.to_string())?;
    writer.write_image_data(rgb).map_err(|e| e.to_string())?;
    drop(writer);
    Ok(out)
}

/// The PNG file of a picture, or why there is none.
pub open spec fn png_outcome(rgb: Seq<u8>, width: int, height: int) -> Result<Seq<u8>, Seq<char>> {
    if width == 0 {
        Err("Zero width not allowed"@)
    } else if height == 0 {
        Err("Zero height not allowed"@)
    } else {
        Ok(png_file(rgb, width, height))
    }
}

/// The PNG file of a picture, three bytes to the pixel.
pub fn png_of(rgb: &Vec<u8>, width: u32, height: u32) -> (r: Result<Vec<u8>, String>)
    requires
        rgb@.len() == width * height * 3,
        rgb@.len() < usize::MAX,
    ensures
        match r {
            Ok(file) => png_outcome(rgb@, width as int, height as int) == Ok::<Seq<u8>, Seq<char>>(file@),
            Err(e) => png_outcome(rgb@, width as int, height as int) == Err::<Seq<u8>, Seq<char>>(e@),
        },
{
    encode(rgb.as_slice(), width, height)
}

/// A pixel of the picture shows the word at its place in the display buffer: blue in the
/// low byte, then green, then red. Rows are 2048 words apart.
pub proof fn law_screenshot_pixel(screen: Seq<u32>, width: int, height: int, x: int, y: int)
    requires
        0 <= x < width,
        0 <= y < height,
    ensures
        ({
            let rgb = rgb_bytes(screen, width, height);
            let at = (y * width + x) * 3;
            let word = screen[y * 2048 + x];
            &&& rgb.len() == width * height * 3
            &&& 0 <= at && at + 2 < rgb.len()
            &&& rgb[at] == word / 65536 % 256
            &&& rgb[at + 1] == word / 256 % 256
            &&& rgb[at + 2] == word % 256
        }),
{
    assert((y + 1) * width <= height * width) by (nonlinear_arith)
        requires
            y + 1 <= height,
            width > 0,
    ;
    assert((y + 1) * width == y * width + width) by (nonlinear_arith);
    assert(height * width == width * height) by (nonlinear_arith);
    assert(0 <= y * width) by (nonlinear_arith)
        requires
            0 <= y,
            0 <= width,
    ;
    lemma_pixel(width, x, y, 0);
    lemma_pixel(width, x, y, 1);
    lemma_pixel(width, x, y, 2);
}

/// A picture can be taken as soon as its last row lies whole in the display buffer, and has a
/// file unless it has no pixels.
pub proof fn law_every_picture_has_a_file(len: int, rgb: Seq<u8>, width: int, height: int)
    ensures
        height > 0 && (height - 1) * 2048 + width <= len && width * height * 3 < usize::MAX ==> rows_fit(
            len,
            width,
            height,
        ),
        width > 0 && height > 0 ==> png_outcome(rgb, width, height) == Ok::<Seq<u8>, Seq<char>>(
            png_file(rgb, width, height),
        ),
        width == 0 ==> png_outcome(rgb, width, height) == Err::<Seq<u8>, Seq<char>>("Zero width not allowed"@),
        width > 0 && height == 0 ==> png_outcome(rgb, width, height) == Err::<Seq<u8>, Seq<char>>(
            "Zero height not allowed"@,
        ),
{
}

}
