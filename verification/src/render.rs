//! Pixels: the frame shown to human observers and the conversion of rendered
//! buffers into PNG images.

use vstd::prelude::*;

verus! {

/// A composited frame, four bytes per pixel.
pub struct FrameData {
    pub rgba: Vec<u8>,
    pub width: i32,
    pub height: i32,
    /// Counts the frames stored so far.
    pub seq: u64,
}

/// Latest composited frame.
pub struct FrameStore {
    pub inner: FrameData,
}

/// The PNG file of the image with these RGBA pixels, if there is one.
pub uninterp spec fn png_file(rgba: Seq<u8>, width: u32, height: u32) -> Option<Seq<u8>>;

/// Calls `image::RgbaImage::from_raw` and `write_to` with the PNG format. What
/// is written depends on the pixels and the size alone and is known by name
/// only, except that there is no image without pixels nor one with more pixels
/// than the buffer holds. That the file decodes to the same pixels is not said,
/// as nothing here decodes one.
#[verifier::external_body]
fn write_png(rgba: &Vec<u8>, width: u32, height: u32) -> (r: Option<Vec<u8>>)
    ensures
        match png_file(rgba@, width, height) {
            Some(bytes) => r is Some && r->Some_0@ == bytes,
            None => r is None,
        },
        r is Some ==> width > 0 && height > 0 && 4 * width * height <= rgba@.len(),
{
    let img = image::RgbaImage::from_raw(width, height, rgba.clone())?;
    let mut out = std::io::Cursor::new(Vec::new());
    img.write_to(&mut out, image::ImageFormat::Png).ok()?;
    Some(out.into_inner())
}

/// Whether an optional image is the given one.
pub open spec fn image_is(r: Option<Vec<u8>>, image: Option<Seq<u8>>) -> bool {
    match image {
        Some(bytes) => r is Some && r->Some_0@ == bytes,
        None => r is None,
    }
}

/// Encodes RGBA pixels as PNG.
pub fn encode_png(rgba: &Vec<u8>, width: i32, height: i32) -> (r: Option<Vec<u8>>)
    ensures
        image_is(r, png_file(rgba@, width as u32, height as u32)),
        r is Some ==> width != 0 && height != 0 && 4 * (width as u32) * (height as u32)
            <= rgba@.len(),
{
    write_png(rgba, width as u32, height as u32)
}

impl FrameStore {
    /// The latest frame as PNG; none before the first frame.
    pub open spec fn image(self) -> Option<Seq<u8>> {
        if self.inner.rgba@.len() == 0 {
            None
        } else {
            png_file(self.inner.rgba@, self.inner.width as u32, self.inner.height as u32)
        }
    }

    pub fn new() -> (r: Self)
        ensures
            r.inner.rgba@.len() == 0,
            r.inner.width == 0,
            r.inner.height == 0,
            r.inner.seq == 0,
    {
        FrameStore { inner: FrameData { rgba: Vec::new(), width: 0, height: 0, seq: 0 } }
    }

    /// Replaces the frame and counts it.
    pub fn store(&mut self, rgba: Vec<u8>, width: i32, height: i32)
        requires
            old(self).inner.seq < u64::MAX,
        ensures
            final(self).inner == (FrameData {
                rgba,
                width,
                height,
                seq: (old(self).inner.seq + 1) as u64,
            }),
    {
        let seq = self.inner.seq + 1;
        self.inner = FrameData { rgba, width, height, seq };
    }

    /// How many frames have been stored.
    pub fn seq(&self) -> (r: u64)
        ensures
            r == self.inner.seq,
    {
        self.inner.seq
    }

    /// The latest frame as PNG, if there is one and its buffer holds all of its
    /// pixels.
    pub fn png(&self) -> (r: Option<Vec<u8>>)
        ensures
            image_is(r, self.image()),
            r is Some ==> self.inner.width != 0 && self.inner.height != 0 && 4 * (
            self.inner.width as u32) * (self.inner.height as u32) <= self.inner.rgba@.len(),
    {
        if self.inner.rgba.is_empty() {
            return None;
        }
        encode_png(&self.inner.rgba, self.inner.width, self.inner.height)
    }
}

/// The byte at position `i` once blue and red are swapped and the pixels are
/// made opaque. Bytes behind the last whole pixel are kept.
pub open spec fn opaque_rgba_byte(bgra: Seq<u8>, i: int) -> u8 {
    if i >= bgra.len() / 4 * 4 {
        bgra[i]
    } else if i % 4 == 0 {
        bgra[i + 2]
    } else if i % 4 == 1 {
        bgra[i]
    } else if i % 4 == 2 {
        bgra[i - 2]
    } else {
        255
    }
}

/// Pixels in RGBA order without transparency.
pub open spec fn opaque_rgba(bgra: Seq<u8>) -> Seq<u8> {
    Seq::new(bgra.len(), |i: int| opaque_rgba_byte(bgra, i))
}

/// Swaps blue and red and discards alpha; the desktop is opaque.
pub fn bgra_to_rgba(bytes: &[u8]) -> (r: Vec<u8>)
    ensures
        r@ == opaque_rgba(bytes@),
{
    let whole: usize = bytes.len() / 4 * 4;
    let mut out: Vec<u8> = Vec::new();
    for i in 0..bytes.len()
        invariant
            whole == bytes@.len() / 4 * 4,
            whole <= bytes@.len(),
            bytes@.len() <= usize::MAX,
            out@.len() == i,
            forall|j: int| 0 <= j < i ==> #[trigger] out@[j] == opaque_rgba_byte(bytes@, j),
    {
        let b: u8 = if i >= whole {
            bytes[i]
        } else if i % 4 == 0 {
            bytes[i + 2]
        } else if i % 4 == 1 {
            bytes[i]
        } else if i % 4 == 2 {
            bytes[i - 2]
        } else {
            255
        };
        out.push(b);
    }
    assert(out@ =~= opaque_rgba(bytes@));
    out
}

/// The screenshot of a window from its rendered buffer, as PNG. A window
/// without an extent has none.
pub fn encode_capture(bgra: &[u8], width: i32, height: i32) -> (r: Option<Vec<u8>>)
    ensures
        width <= 0 || height <= 0 ==> r is None,
        width > 0 && height > 0 ==> image_is(
            r,
            png_file(opaque_rgba(bgra@), width as u32, height as u32),
        ),
        r is Some ==> 4 * width * height <= bgra@.len(),
{
    if width <= 0 || height <= 0 {
        return None;
    }
    encode_png(&bgra_to_rgba(bgra), width, height)
}

/// How far the crosshair reaches from its centre.
pub const CROSSHAIR_ARM: i64 = 8;

/// Whether a point lies on the arms of a crosshair whose arms have been drawn
/// from -8 up to, but not including, `end`.
pub open spec fn on_arms(cx: int, cy: int, x: int, y: int, end: int) -> bool {
    ||| y == cy && -CROSSHAIR_ARM <= x - cx < end
    ||| x == cx && -CROSSHAIR_ARM <= y - cy < end
}

/// Whether a point lies on the crosshair around (cx, cy).
pub open spec fn on_crosshair(cx: int, cy: int, x: int, y: int) -> bool {
    on_arms(cx, cy, x, y, CROSSHAIR_ARM + 1)
}

/// Whether a point lies in a frame of this size.
pub open spec fn in_frame(w: int, h: int, x: int, y: int) -> bool {
    0 <= x < w && 0 <= y < h
}

/// The bytes of a red pixel.
pub open spec fn red(channel: int) -> u8 {
    if channel == 0 || channel == 3 {
        255
    } else {
        60
    }
}

/// A frame of rows of `w` pixels in which the pixels that `paint` selects are
/// red.
pub open spec fn painted(
    rgba: Seq<u8>,
    w: int,
    h: int,
    paint: spec_fn(int, int) -> bool,
) -> Seq<u8> {
    Seq::new(
        rgba.len(),
        |i: int|
            {
                let x = (i / 4) % w;
                let y = (i / 4) / w;
                if w > 0 && in_frame(w, h, x, y) && paint(x, y) {
                    red(i % 4)
                } else {
                    rgba[i]
                }
            },
    )
}

/// Whether all pixels of a crosshair that lie in the frame lie in the buffer.
pub open spec fn crosshair_fits(len: int, w: int, h: int, cx: int, cy: int) -> bool {
    forall|x: int, y: int| #[trigger]
        in_frame(w, h, x, y) && on_crosshair(cx, cy, x, y) ==> 4 * (y * w + x) + 4 <= len
}

/// Draws one red pixel if it lies in the frame.
fn put(
    rgba: &mut Vec<u8>,
    w: i32,
    h: i32,
    x: i64,
    y: i64,
    Ghost(original): Ghost<Seq<u8>>,
    Ghost(paint): Ghost<spec_fn(int, int) -> bool>,
)
    requires
        in_frame(w as int, h as int, x as int, y as int) ==> 4 * (y * w + x) + 4 <= old(
            rgba,
        )@.len(),
        old(rgba)@ == painted(original, w as int, h as int, paint),
    ensures
        final(rgba)@ == painted(
            original,
            w as int,
            h as int,
            |a: int, b: int| paint(a, b) || (a == x && b == y),
        ),
{
    let ghost more = |a: int, b: int| paint(a, b) || (a == x && b == y);
    if 0 <= x && x < w as i64 && 0 <= y && y < h as i64 {
        assert(0 <= y * w <= 0x7fff_ffff * 0x7fff_ffff) by (nonlinear_arith)
            requires
                0 <= y < 0x7fff_ffff,
                0 <= w <= 0x7fff_ffff,
        ;
        let pixel: i64 = y * (w as i64) + x;
        let len = rgba.len();
        assert(4 * pixel + 4 <= len);
        let i: usize = (pixel as usize) * 4;
        rgba[i] = 255;
        rgba[i + 1] = 60;
        rgba[i + 2] = 60;
        rgba[i + 3] = 255;
        proof {
            assert(y * w == w * y) by (nonlinear_arith);
            vstd::arithmetic::div_mod::lemma_fundamental_div_mod_converse(
                pixel as int,
                w as int,
                y as int,
                x as int,
            );
            let target = painted(original, w as int, h as int, more);
            assert forall|k: int| 0 <= k < rgba@.len() implies rgba@[k] == target[k] by {
                let p = k / 4;
                if p != pixel {
                    vstd::arithmetic::div_mod::lemma_fundamental_div_mod(p, w as int);
                    assert(!(p % (w as int) == x && p / (w as int) == y));
                }
            }
            assert(rgba@ =~= target);
        }
    } else {
        assert(rgba@ =~= painted(original, w as int, h as int, more));
    }
}

/// Draws a small red crosshair around (cx, cy), as far as it lies in the frame
/// of `w` times `h` pixels.
pub fn draw_crosshair(rgba: &mut Vec<u8>, w: i32, h: i32, cx: i32, cy: i32)
    requires
        crosshair_fits(old(rgba)@.len() as int, w as int, h as int, cx as int, cy as int),
    ensures
        final(rgba)@ == painted(
            old(rgba)@,
            w as int,
            h as int,
            |x: int, y: int| on_crosshair(cx as int, cy as int, x, y),
        ),
{
    let ghost original = rgba@;
    let ghost mut paint = |x: int, y: int| on_arms(cx as int, cy as int, x, y, -CROSSHAIR_ARM as int);
    assert(rgba@ =~= painted(original, w as int, h as int, paint));
    let mut d: i64 = -CROSSHAIR_ARM;
    while d <= CROSSHAIR_ARM
        invariant
            -CROSSHAIR_ARM <= d <= CROSSHAIR_ARM + 1,
            crosshair_fits(original.len() as int, w as int, h as int, cx as int, cy as int),
            rgba@.len() == original.len(),
            paint == (|x: int, y: int| on_arms(cx as int, cy as int, x, y, d as int)),
            rgba@ == painted(original, w as int, h as int, paint),
        decreases CROSSHAIR_ARM + 1 - d,
    {
        let px: i64 = cx as i64 + d;
        let py: i64 = cy as i64 + d;
        assert(on_crosshair(cx as int, cy as int, px as int, cy as int));
        assert(on_crosshair(cx as int, cy as int, cx as int, py as int));
        put(rgba, w, h, px, cy as i64, Ghost(original), Ghost(paint));
        let ghost half = |a: int, b: int| paint(a, b) || (a == px && b == cy);
        put(rgba, w, h, cx as i64, py, Ghost(original), Ghost(half));
        proof {
            let all = |a: int, b: int| half(a, b) || (a == cx && b == py);
            let next = |x: int, y: int| on_arms(cx as int, cy as int, x, y, d + 1);
            assert forall|a: int, b: int| #[trigger] all(a, b) == next(a, b) by {}
            assert(all =~= next);
            paint = next;
        }
        d = d + 1;
    }
    assert(paint =~= (|x: int, y: int| on_crosshair(cx as int, cy as int, x, y)));
}

/// Whether a buffer of this length holds all pixels of a frame.
pub open spec fn holds_frame(len: int, w: int, h: int) -> bool {
    w <= 0 || h <= 0 || 4 * (w * h) <= len
}

proof fn lemma_crosshair_fits(len: int, w: int, h: int, cx: int, cy: int)
    requires
        holds_frame(len, w, h),
    ensures
        crosshair_fits(len, w, h, cx, cy),
{
    assert forall|x: int, y: int| #[trigger]
        in_frame(w, h, x, y) && on_crosshair(cx, cy, x, y) implies 4 * (y * w + x) + 4 <= len by {
        assert(y * w + x + 1 <= w * h) by (nonlinear_arith)
            requires
                0 <= x < w,
                0 <= y < h,
        ;
    }
}

impl FrameStore {
    /// Stores the rendered desktop, with a crosshair at the pointer.
    pub fn show_desktop(&mut self, bgra: &[u8], width: i32, height: i32, cx: i32, cy: i32)
        requires
            old(self).inner.seq < u64::MAX,
            holds_frame(bgra@.len() as int, width as int, height as int),
        ensures
            final(self).inner.rgba@ == painted(
                opaque_rgba(bgra@),
                width as int,
                height as int,
                |x: int, y: int| on_crosshair(cx as int, cy as int, x, y),
            ),
            final(self).inner.width == width,
            final(self).inner.height == height,
            final(self).inner.seq == old(self).inner.seq + 1,
    {
        let mut rgba = bgra_to_rgba(bgra);
        proof {
            lemma_crosshair_fits(
                rgba@.len() as int,
                width as int,
                height as int,
                cx as int,
                cy as int,
            );
        }
        draw_crosshair(&mut rgba, width, height, cx, cy);
        self.store(rgba, width, height);
    }
}

/// Law: the conversion makes every whole pixel opaque, and done twice it gives
/// back the colours.
pub proof fn law_conversion_is_opaque_and_keeps_colours(bgra: Seq<u8>, i: int)
    requires
        0 <= i < bgra.len(),
    ensures
        i < bgra.len() / 4 * 4 && i % 4 == 3 ==> opaque_rgba(bgra)[i] == 255,
        i >= bgra.len() / 4 * 4 || i % 4 != 3 ==> opaque_rgba(opaque_rgba(bgra))[i] == bgra[i],
{
    let once = opaque_rgba(bgra);
    assert(once.len() == bgra.len());
    if i < bgra.len() / 4 * 4 {
        if i % 4 == 0 {
            assert(once[i + 2] == bgra[i]);
        } else if i % 4 == 2 {
            assert(once[i - 2] == bgra[i]);
        }
    }
}

/// Law: the crosshair keeps the size of a frame and every pixel that is not on
/// it.
pub proof fn law_crosshair_keeps_other_pixels(rgba: Seq<u8>, w: int, h: int, cx: int, cy: int, i: int)
    requires
        w > 0,
        0 <= i < rgba.len(),
        !on_crosshair(cx, cy, (i / 4) % w, (i / 4) / w),
    ensures
        ({
            let after = painted(rgba, w, h, |x: int, y: int| on_crosshair(cx, cy, x, y));
            &&& after.len() == rgba.len()
            &&& after[i] == rgba[i]
        }),
{
}

/// Law: every whole pixel keeps its green and swaps its blue and red, and bytes
/// behind the last whole pixel stay as they are.
pub proof fn law_pixels_are_reordered(bgra: Seq<u8>, p: int, i: int)
    ensures
        opaque_rgba(bgra).len() == bgra.len(),
        0 <= p && 4 * p + 4 <= bgra.len() ==> {
            &&& opaque_rgba(bgra)[4 * p] == bgra[4 * p + 2]
            &&& opaque_rgba(bgra)[4 * p + 1] == bgra[4 * p + 1]
            &&& opaque_rgba(bgra)[4 * p + 2] == bgra[4 * p]
            &&& opaque_rgba(bgra)[4 * p + 3] == 255
        },
        bgra.len() - bgra.len() % 4 <= i < bgra.len() ==> opaque_rgba(bgra)[i] == bgra[i],
{
}

/// Law: the crosshair paints exactly the pixels of the frame in the row and in
/// the column of its centre that are at most eight pixels away, in red; every
/// other byte stays as it is.
pub proof fn law_crosshair_is_a_red_cross(
    rgba: Seq<u8>,
    w: int,
    h: int,
    cx: int,
    cy: int,
    x: int,
    y: int,
    channel: int,
)
    requires
        0 <= x < w,
        0 <= y,
        0 <= channel < 4,
        4 * (y * w + x) + channel < rgba.len(),
    ensures
        ({
            let i = 4 * (y * w + x) + channel;
            let after = painted(rgba, w, h, |x: int, y: int| on_crosshair(cx, cy, x, y));
            let hit = y < h && ((y == cy && cx - 8 <= x <= cx + 8) || (x == cx && cy - 8 <= y <= cy
                + 8));
            &&& after.len() == rgba.len()
            &&& hit ==> after[i] == (if channel == 0 || channel == 3 { 255u8 } else { 60u8 })
            &&& !hit ==> after[i] == rgba[i]
        }),
{
    let pixel = y * w + x;
    let i = 4 * pixel + channel;
    assert(0 <= y * w) by (nonlinear_arith)
        requires
            0 <= y,
            0 < w,
    ;
    assert(i / 4 == pixel && i % 4 == channel);
    assert(y * w == w * y) by (nonlinear_arith);
    vstd::arithmetic::div_mod::lemma_fundamental_div_mod_converse(pixel, w, y, x);
}

/// Law: the image of the frame is the file of exactly its pixels and its size;
/// before the first frame there is none. An optional image is the given one if
/// both have the same bytes or neither is there.
pub proof fn law_image_is_that_of_the_frame(
    frames: FrameStore,
    r: Option<Vec<u8>>,
    image: Option<Seq<u8>>,
)
    ensures
        frames.inner.rgba@.len() == 0 ==> frames.image() is None,
        frames.inner.rgba@.len() > 0 ==> frames.image() == png_file(
            frames.inner.rgba@,
            frames.inner.width as u32,
            frames.inner.height as u32,
        ),
        image_is(r, image) <==> (r is None && image is None) || (r is Some && image is Some
            && r->Some_0@ == image->Some_0),
{
}

/// Law: a frame without an extent gets no crosshair.
pub proof fn law_no_crosshair_without_a_frame(rgba: Seq<u8>, w: int, h: int, cx: int, cy: int)
    requires
        w <= 0 || h <= 0,
    ensures
        painted(rgba, w, h, |x: int, y: int| on_crosshair(cx, cy, x, y)) == rgba,
{
    assert(painted(rgba, w, h, |x: int, y: int| on_crosshair(cx, cy, x, y)) =~= rgba);
}

} // verus!
