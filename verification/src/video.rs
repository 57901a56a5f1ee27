//! Decoded video frames, the stand-in H.264 decoder (it draws a test pattern
//! for every key frame) and the bounded frame buffer.

use vstd::prelude::*;

verus! {

/// Why decoding failed.
#[derive(Debug)]
pub enum DecodeError {
    NotInitialized,
    InvalidFrame(String),
    DecodeFailed(String),
    BufferOverflow,
}

/// Layout of the bytes of a frame.
#[derive(Clone, Copy, Debug, PartialEq, Eq, Structural)]
pub enum PixelFormat {
    /// Four bytes per pixel: red, green, blue, alpha.
    RGBA,
    /// Three bytes per pixel: red, green, blue.
    RGB,
    /// A full-size luma plane followed by two quarter-size chroma planes.
    YUV420P,
}

/// What a decoder produces.
#[derive(Clone, Debug)]
pub struct FrameInfo {
    pub width: u32,
    pub height: u32,
    pub stride: u32,
    pub format: PixelFormat,
}

/// One decoded picture.
#[derive(Clone, Debug)]
pub struct DecodedFrame {
    pub width: u32,
    pub height: u32,
    pub data: Vec<u8>,
    pub format: PixelFormat,
    pub timestamp: u64,
}

/// The byte count of a `width` x `height` frame before YUV 4:2:0 halving
/// (the `u32` product that `DecodedFrame::new` computes).
pub open spec fn raw_frame_len(width: u32, height: u32, format: PixelFormat) -> int {
    match format {
        PixelFormat::RGBA => width * height * 4,
        PixelFormat::RGB => width * height * 3,
        PixelFormat::YUV420P => width * height * 3,
    }
}

/// The byte count of a `width` x `height` frame in `format`.
pub open spec fn frame_len(width: u32, height: u32, format: PixelFormat) -> int {
    match format {
        PixelFormat::YUV420P => raw_frame_len(width, height, format) / 2,
        _ => raw_frame_len(width, height, format),
    }
}

fn zeroed(n: usize) -> (v: Vec<u8>)
    ensures
        v@ == Seq::new(n as nat, |i: int| 0u8),
{
    let mut v: Vec<u8> = Vec::new();
    let mut i: usize = 0;
    while i < n
        invariant
            i <= n,
            v@ == Seq::new(i as nat, |k: int| 0u8),
        decreases n - i,
    {
        v.push(0u8);
        i = i + 1;
        assert(v@ =~= Seq::new(i as nat, |k: int| 0u8));
    }
    v
}

impl DecodedFrame {
    /// A black (all-zero) frame of the given size and format, timestamp 0.
    pub fn new(width: u32, height: u32, format: PixelFormat) -> (f: Self)
        requires
            raw_frame_len(width, height, format) <= u32::MAX,
        ensures
            f.width == width,
            f.height == height,
            f.format == format,
            f.timestamp == 0,
            f.data@ == Seq::new(frame_len(width, height, format) as nat, |i: int| 0u8),
    {
        assert(width * height <= width * height * 3 <= width * height * 4) by (nonlinear_arith);
        let data_size: u32 = match format {
            PixelFormat::RGBA => width * height * 4,
            PixelFormat::RGB => width * height * 3,
            PixelFormat::YUV420P => (width * height * 3) / 2,
        };
        DecodedFrame { width, height, data: zeroed(data_size as usize), format, timestamp: 0 }
    }

    /// The number of bytes the frame holds.
    pub fn size(&self) -> (n: usize)
        ensures
            n == self.data@.len(),
    {
        self.data.len()
    }
}

/// Pixels of `data`, read as RGB triples, with an opaque alpha byte added.
pub open spec fn rgb_to_rgba(data: Seq<u8>) -> Seq<u8> {
    Seq::new(
        ((data.len() / 3) * 4) as nat,
        |k: int|
            if k % 4 == 3 {
                255u8
            } else {
                data[(k / 4) * 3 + k % 4]
            },
    )
}

/// Index, within each chroma plane, of the sample shared by pixel (`j`, `i`):
/// `i / 2 * width / 2 + j / 2` in the frame's `u32` arithmetic.
pub open spec fn chroma_index(width: int, i: int, j: int) -> int {
    ((i / 2) * width) / 2 + j / 2
}

/// The size of each chroma plane of a `width` x `height` YUV 4:2:0 frame.
pub open spec fn chroma_len(width: u32, height: u32) -> int {
    (width * height) / 4
}

/// `data` holds a luma plane and two chroma planes for the frame size.
pub open spec fn yuv_planes_present(data: Seq<u8>, width: u32, height: u32) -> bool {
    data.len() >= width * height + chroma_len(width, height) * 2
}

/// Every pixel's chroma sample lies inside the chroma planes (true of even
/// sizes; some odd sizes reach past them).
pub open spec fn chroma_fits(width: u32, height: u32) -> bool {
    forall|i: int, j: int|
        0 <= i < height && 0 <= j < width ==> #[trigger] chroma_index(width as int, i, j)
            < chroma_len(width, height)
}

/// Pixel (`j`, `i`) of `out` is what `convert` makes of the pixel's luma
/// sample and its two chroma samples, followed by an opaque alpha byte.
pub open spec fn yuv_pixel_converted<F: Fn(u8, u8, u8) -> (u8, u8, u8)>(
    convert: F,
    data: Seq<u8>,
    out: Seq<u8>,
    width: u32,
    height: u32,
    i: int,
    j: int,
) -> bool {
    let w = width as int;
    let y_size = width * height;
    let uv_size = chroma_len(width, height);
    let uv = chroma_index(w, i, j);
    &&& out[pixel_index(w, j, i, 3)] == 255u8
    &&& call_ensures(
        convert,
        (data[i * w + j], data[y_size + uv], data[y_size + uv_size + uv]),
        (out[pixel_index(w, j, i, 0)], out[pixel_index(w, j, i, 1)], out[pixel_index(w, j, i, 2)]),
    )
}

/// The frame as RGBA bytes, with `convert` turning a YUV sample triple
/// (luma, blue-difference, red-difference) into red, green and blue.
pub open spec fn rgba_result<F: Fn(u8, u8, u8) -> (u8, u8, u8)>(
    f: DecodedFrame,
    convert: F,
    r: Result<Vec<u8>, DecodeError>,
) -> bool {
    match f.format {
        PixelFormat::RGBA => r matches Ok(out) && out@ == f.data@,
        PixelFormat::RGB => r matches Ok(out) && out@ == rgb_to_rgba(f.data@),
        PixelFormat::YUV420P => if !yuv_planes_present(f.data@, f.width, f.height) {
            r matches Err(DecodeError::InvalidFrame(m)) && m@ == "Invalid YUV420P data"@
        } else {
            r matches Ok(out) && out@.len() == f.width * f.height * 4 && forall|i: int, j: int|
                0 <= i < f.height && 0 <= j < f.width ==> #[trigger] yuv_pixel_converted(
                    convert,
                    f.data@,
                    out@,
                    f.width,
                    f.height,
                    i,
                    j,
                )
        },
    }
}

/// The inputs on which `to_rgba` does its arithmetic and indexing without
/// overflow or reading past a plane.
pub open spec fn rgba_convertible(f: DecodedFrame) -> bool {
    match f.format {
        PixelFormat::RGBA => true,
        PixelFormat::RGB => f.width * f.height * 4 <= u32::MAX,
        PixelFormat::YUV420P => f.width * f.height <= u32::MAX && f.width * f.height + chroma_len(
            f.width,
            f.height,
        ) * 2 <= usize::MAX && (yuv_planes_present(
            f.data@,
            f.width,
            f.height,
        ) ==> f.width * f.height * 4 <= u32::MAX && chroma_fits(f.width, f.height)),
    }
}

impl DecodedFrame {
    /// The frame as RGBA bytes. The YUV colour transform is floating-point
    /// work, handed in as `convert`; this function lays the planes out.
    pub fn to_rgba<F: Fn(u8, u8, u8) -> (u8, u8, u8)>(&self, convert: F) -> (r: Result<
        Vec<u8>,
        DecodeError,
    >)
        requires
            rgba_convertible(*self),
            forall|y: u8, u: u8, v: u8| call_requires(convert, (y, u, v)),
        ensures
            rgba_result(*self, convert, r),
    {
        match self.format {
            PixelFormat::RGBA => Ok(self.data.clone()),
            PixelFormat::RGB => {
                assert(self.width * self.height <= self.width * self.height * 4) by (nonlinear_arith);
                let mut rgba: Vec<u8> = Vec::with_capacity((self.width * self.height * 4) as usize);
                let n = self.data.len() / 3;
                let mut k: usize = 0;
                while k < n
                    invariant
                        n == self.data@.len() / 3,
                        self.data@.len() <= usize::MAX,
                        k <= n,
                        rgba@ =~= rgb_to_rgba(self.data@).take((k * 4) as int),
                    decreases n - k,
                {
                    let ghost before = rgba@;
                    assert(3 * k + 2 < self.data@.len()) by (nonlinear_arith)
                        requires
                            k < n,
                            n == self.data@.len() / 3,
                    ;
                    rgba.push(self.data[3 * k]);
                    rgba.push(self.data[3 * k + 1]);
                    rgba.push(self.data[3 * k + 2]);
                    rgba.push(255u8);
                    k = k + 1;
                    assert(rgba@ =~= rgb_to_rgba(self.data@).take((k * 4) as int)) by {
                        assert forall|t: int| 0 <= t < k * 4 implies #[trigger] rgba@[t]
                            == rgb_to_rgba(self.data@)[t] by {
                            if t < (k - 1) * 4 {
                                assert(rgba@[t] == before[t]);
                            }
                        }
                    }
                }
                assert(rgb_to_rgba(self.data@).take((n * 4) as int) =~= rgb_to_rgba(self.data@));
                Ok(rgba)
            },
            PixelFormat::YUV420P => self.yuv420p_to_rgba(convert),
        }
    }

    fn yuv420p_to_rgba<F: Fn(u8, u8, u8) -> (u8, u8, u8)>(&self, convert: F) -> (r: Result<
        Vec<u8>,
        DecodeError,
    >)
        requires
            self.format == PixelFormat::YUV420P,
            rgba_convertible(*self),
            forall|y: u8, u: u8, v: u8| call_requires(convert, (y, u, v)),
        ensures
            rgba_result(*self, convert, r),
    {
        let width = self.width;
        let height = self.height;
        let y_size = (width * height) as usize;
        let uv_size = y_size / 4;
        if self.data.len() < y_size + uv_size * 2 {
            return Err(DecodeError::InvalidFrame(String::from_str("Invalid YUV420P data")));
        }
        let ghost w = width as int;
        let ghost h = height as int;
        let ghost data = self.data@;
        assert(w * h <= w * h * 4) by (nonlinear_arith)
            requires
                0 <= w,
                0 <= h,
        ;
        let mut rgba: Vec<u8> = Vec::with_capacity((width * height * 4) as usize);
        let mut i: u32 = 0;
        while i < height
            invariant
                w == width,
                h == height,
                data == self.data@,
                y_size == w * h,
                uv_size == chroma_len(width, height),
                data.len() >= y_size + uv_size * 2,
                w * h * 4 <= u32::MAX,
                chroma_fits(width, height),
                forall|a: u8, b: u8, c: u8| call_requires(convert, (a, b, c)),
                i <= height,
                rgba@.len() == i * w * 4,
                forall|ii: int, jj: int|
                    0 <= ii < i && 0 <= jj < w ==> #[trigger] yuv_pixel_converted(
                        convert,
                        data,
                        rgba@,
                        width,
                        height,
                        ii,
                        jj,
                    ),
            decreases height - i,
        {
            let mut j: u32 = 0;
            while j < width
                invariant
                    w == width,
                    h == height,
                    data == self.data@,
                    y_size == w * h,
                    uv_size == chroma_len(width, height),
                    data.len() >= y_size + uv_size * 2,
                    w * h * 4 <= u32::MAX,
                    chroma_fits(width, height),
                    forall|a: u8, b: u8, c: u8| call_requires(convert, (a, b, c)),
                    i < height,
                    j <= width,
                    rgba@.len() == (i * w + j) * 4,
                    forall|ii: int, jj: int|
                        0 <= ii < h && 0 <= jj < w && (ii < i || (ii == i && jj < j))
                            ==> #[trigger] yuv_pixel_converted(convert, data, rgba@, width, height, ii, jj),
                decreases width - j,
            {
                proof {
                    lemma_pixel_bounds(w, h, j as int, i as int, 0);
                    assert(chroma_index(w, i as int, j as int) < chroma_len(width, height));
                    assert(0 <= chroma_index(w, i as int, j as int)) by (nonlinear_arith)
                        requires
                            0 <= i,
                            0 <= j,
                            0 <= w,
                    ;
                    assert(((i / 2) as int) * w <= i * w) by (nonlinear_arith)
                        requires
                            0 <= i,
                            0 <= w,
                    ;
                    assert(i * w + j == i * w + j);
                }
                let y_idx = (i * width + j) as usize;
                let uv_idx = (i / 2 * width / 2 + j / 2) as usize;
                let yv = self.data[y_idx];
                let uv = self.data[y_size + uv_idx];
                let vv = self.data[y_size + uv_size + uv_idx];
                let (r, g, b) = convert(yv, uv, vv);
                let ghost before = rgba@;
                rgba.push(r);
                rgba.push(g);
                rgba.push(b);
                rgba.push(255u8);
                proof {
                    let p = i * w + j;
                    assert(pixel_index(w, j as int, i as int, 0) == p * 4);
                    assert forall|ii: int, jj: int|
                        0 <= ii < h && 0 <= jj < w && (ii < i || (ii == i && jj < j + 1))
                            implies #[trigger] yuv_pixel_converted(convert, data, rgba@, width, height, ii, jj) by {
                        if ii == i && jj == j {
                        } else {
                            assert(yuv_pixel_converted(convert, data, before, width, height, ii, jj));
                            assert(ii * w + jj < p) by (nonlinear_arith)
                                requires
                                    p == i * w + j,
                                    0 <= jj < w,
                                    ii < i || (ii == i && jj < j),
                            ;
                            lemma_pixel_bounds(w, h, jj, ii, 3);
                            assert(pixel_index(w, jj, ii, 3) < p * 4);
                        }
                    }
                }
                j = j + 1;
            }
            proof {
                assert((i + 1) * w == i * w + w) by (nonlinear_arith);
            }
            i = i + 1;
        }
        assert(rgba@.len() == w * h * 4) by (nonlinear_arith)
            requires
                rgba@.len() == i * w * 4,
                i == h,
        ;
        Ok(rgba)
    }
}

/// Settings of the decoder.
#[derive(Clone, Debug)]
pub struct DecoderConfig {
    pub width: u32,
    pub height: u32,
    pub enable_hardware_acceleration: bool,
    pub thread_count: usize,
}

impl Default for DecoderConfig {
    /// 1920x1080, software decoding on four threads.
    fn default() -> (c: Self)
        ensures
            c.width == 1920,
            c.height == 1080,
            !c.enable_hardware_acceleration,
            c.thread_count == 4,
    {
        DecoderConfig { width: 1920, height: 1080, enable_hardware_acceleration: false, thread_count: 4 }
    }
}

/// The stand-in H.264 decoder.
pub struct H264Decoder {
    pub config: DecoderConfig,
    pub initialized: bool,
    pub frame_count: u64,
}

/// Side of the square blocks of the test pattern.
pub const PATTERN_BLOCK: u32 = 64;

/// Channel `c` of test-pattern colour `k`: blue, green, orange, red.
pub open spec fn pattern_color(k: int, c: int) -> u8 {
    if k == 0 {
        seq![0x1Eu8, 0x88u8, 0xE5u8, 0xFFu8][c]
    } else if k == 1 {
        seq![0x43u8, 0xA0u8, 0x47u8, 0xFFu8][c]
    } else if k == 2 {
        seq![0xFFu8, 0x98u8, 0x00u8, 0xFFu8][c]
    } else {
        seq![0xE9u8, 0x1Eu8, 0x63u8, 0xFFu8][c]
    }
}

/// The colour index of the block that holds pixel (`x`, `y`).
pub open spec fn block_index(x: int, y: int) -> int {
    ((x / 64) % 4 + (y / 64) % 4) % 4
}

/// Pixel (`x`, `y`) lies in the 200x40 white bar centred on the frame.
pub open spec fn in_banner(width: u32, height: u32, x: int, y: int) -> bool {
    width / 2 - 100 <= x < width / 2 + 100 && height / 2 - 20 <= y < height / 2 + 20
}

/// Channel `c` of pixel (`x`, `y`) of the test pattern.
pub open spec fn pattern_byte(width: u32, height: u32, x: int, y: int, c: int) -> u8 {
    if in_banner(width, height, x, y) {
        255u8
    } else {
        pattern_color(block_index(x, y), c)
    }
}

/// Index of channel `c` of pixel (`x`, `y`) in a four-byte-per-pixel frame.
pub open spec fn pixel_index(width: int, x: int, y: int, c: int) -> int {
    (y * width + x) * 4 + c
}

/// `data` is exactly the RGBA test pattern for a `width` x `height` frame.
pub open spec fn is_test_pattern(data: Seq<u8>, width: u32, height: u32) -> bool {
    &&& data.len() == width * height * 4
    &&& forall|x: int, y: int, c: int|
        0 <= x < width && 0 <= y < height && 0 <= c < 4 ==> #[trigger] data[pixel_index(
            width as int,
            x,
            y,
            c,
        )] == pattern_byte(width, height, x, y, c)
}

/// A frame size the test pattern can be drawn on without the arithmetic of
/// the drawing overflowing or the banner leaving the frame.
pub open spec fn pattern_fits(width: u32, height: u32) -> bool {
    200 <= width && 40 <= height && width * height * 4 <= u32::MAX
}

/// The frame a key frame decodes to: the test pattern at the configured size.
pub open spec fn is_test_frame(f: DecodedFrame, config: DecoderConfig, timestamp: u64) -> bool {
    &&& f.width == config.width
    &&& f.height == config.height
    &&& f.format == PixelFormat::RGBA
    &&& f.timestamp == timestamp
    &&& is_test_pattern(f.data@, config.width, config.height)
}

/// `initialize` took the decoder from `d` to `e`: ready, same settings and count.
pub open spec fn initialize_step(d: H264Decoder, e: H264Decoder) -> bool {
    e.initialized && e.config == d.config && e.frame_count == d.frame_count
}

/// `reset` took the decoder from `d` to `e`: not ready, count back to 0.
pub open spec fn reset_step(d: H264Decoder, e: H264Decoder) -> bool {
    !e.initialized && e.frame_count == 0 && e.config == d.config
}

/// `flush` on `d` left `e` and returned `r`: nothing held back when ready,
/// `NotInitialized` otherwise; the decoder is unchanged.
pub open spec fn flush_step(d: H264Decoder, e: H264Decoder, r: Result<Option<DecodedFrame>, DecodeError>) -> bool {
    &&& e == d
    &&& d.initialized <==> (r matches Ok(None))
    &&& !d.initialized <==> (r matches Err(DecodeError::NotInitialized))
}

/// `decode_frame` on `d` left `e` and returned `r`: a ready decoder yields
/// the test frame stamped with its count and counts it; one that is not
/// ready fails with `NotInitialized` and counts nothing.
pub open spec fn decode_frame_step(d: H264Decoder, e: H264Decoder, r: Result<DecodedFrame, DecodeError>) -> bool {
    &&& e.config == d.config
    &&& e.initialized == d.initialized
    &&& !d.initialized ==> (r matches Err(DecodeError::NotInitialized) && e.frame_count == d.frame_count)
    &&& d.initialized ==> (r matches Ok(f) && is_test_frame(f, d.config, d.frame_count) && e.frame_count
        == d.frame_count + 1)
}

/// A NAL unit the decoder treats as a key frame: its fifth byte is 0x67
/// (sequence parameter set) or 0x65 (IDR slice).
pub open spec fn is_key_nal(nal: Seq<u8>) -> bool {
    nal.len() > 4 && (nal[4] == 0x67 || nal[4] == 0x65)
}

proof fn lemma_pixel_bounds(width: int, height: int, x: int, y: int, c: int)
    requires
        0 <= x < width,
        0 <= y < height,
        0 <= c < 4,
    ensures
        0 <= y * width + x < width * height,
        0 <= pixel_index(width, x, y, c) < width * height * 4,
{
    assert(0 <= y * width) by (nonlinear_arith)
        requires
            0 <= y,
            0 <= width,
    ;
    assert(y * width + x < width * height) by (nonlinear_arith)
        requires
            0 <= x < width,
            0 <= y < height,
    ;
}

proof fn lemma_pixel_distinct(width: int, x: int, y: int, c: int, x2: int, y2: int, c2: int)
    requires
        0 <= x < width,
        0 <= x2 < width,
        0 <= y,
        0 <= y2,
        0 <= c < 4,
        0 <= c2 < 4,
        pixel_index(width, x, y, c) == pixel_index(width, x2, y2, c2),
    ensures
        x == x2 && y == y2 && c == c2,
{
    let p = y * width + x;
    let p2 = y2 * width + x2;
    assert(p == p2 && c == c2);
    if y < y2 {
        assert(p < p2) by (nonlinear_arith)
            requires
                p == y * width + x,
                p2 == y2 * width + x2,
                0 <= x < width,
                0 <= x2,
                y < y2,
        ;
    } else if y2 < y {
        assert(p2 < p) by (nonlinear_arith)
            requires
                p == y * width + x,
                p2 == y2 * width + x2,
                0 <= x2 < width,
                0 <= x,
                y2 < y,
        ;
    }
}

fn block_color(k: usize) -> (px: [u8; 4])
    requires
        k < 4,
    ensures
        forall|c: int| 0 <= c < 4 ==> px[c] == pattern_color(k as int, c),
{
    if k == 0 {
        [0x1E, 0x88, 0xE5, 0xFF]
    } else if k == 1 {
        [0x43, 0xA0, 0x47, 0xFF]
    } else if k == 2 {
        [0xFF, 0x98, 0x00, 0xFF]
    } else {
        [0xE9, 0x1E, 0x63, 0xFF]
    }
}

/// Writes one four-byte pixel at `idx`.
fn put_pixel(data: &mut [u8], idx: usize, px: [u8; 4])
    requires
        idx + 4 <= old(data)@.len(),
    ensures
        final(data)@.len() == old(data)@.len(),
        forall|i: int|
            0 <= i < old(data)@.len() ==> #[trigger] final(data)@[i] == if idx <= i < idx + 4 {
                px[i - idx]
            } else {
                old(data)@[i]
            },
{
    data[idx] = px[0];
    data[idx + 1] = px[1];
    data[idx + 2] = px[2];
    data[idx + 3] = px[3];
}

impl H264Decoder {
    pub fn new(config: DecoderConfig) -> (d: Self)
        ensures
            d.config == config,
            !d.initialized,
            d.frame_count == 0,
    {
        H264Decoder { config, initialized: false, frame_count: 0 }
    }

    /// Readies the decoder; always succeeds.
    pub fn initialize(&mut self) -> (r: Result<(), DecodeError>)
        ensures
            r is Ok,
            initialize_step(*old(self), *final(self)),
    {
        self.initialized = true;
        Ok(())
    }

    /// Decodes one NAL unit: a key frame yields a test-pattern frame stamped
    /// with the running frame count; anything else yields nothing.
    pub fn decode_nal(&mut self, nal_data: &[u8]) -> (r: Result<Option<DecodedFrame>, DecodeError>)
        requires
            old(self).initialized && is_key_nal(nal_data@) ==> pattern_fits(
                old(self).config.width,
                old(self).config.height,
            ) && old(self).frame_count < u64::MAX,
        ensures
            final(self).config == old(self).config,
            final(self).initialized == old(self).initialized,
            !old(self).initialized ==> (r matches Err(DecodeError::NotInitialized)
                && final(self).frame_count == old(self).frame_count),
            old(self).initialized && !is_key_nal(nal_data@) ==> (r matches Ok(None)
                && final(self).frame_count == old(self).frame_count),
            old(self).initialized && is_key_nal(nal_data@) ==> (r matches Ok(Some(f))
                && is_test_frame(f, old(self).config, old(self).frame_count)
                && final(self).frame_count == old(self).frame_count + 1),
    {
        if !self.initialized {
            return Err(DecodeError::NotInitialized);
        }
        let is_key_frame = nal_data.len() > 4 && (nal_data[4] == 0x67 || nal_data[4] == 0x65);
        if is_key_frame {
            let frame = self.test_frame();
            Ok(Some(frame))
        } else {
            Ok(None)
        }
    }

    /// Decodes a whole frame; the stand-in always yields the test pattern.
    pub fn decode_frame(&mut self, frame_data: &[u8]) -> (r: Result<DecodedFrame, DecodeError>)
        requires
            old(self).initialized ==> pattern_fits(old(self).config.width, old(self).config.height)
                && old(self).frame_count < u64::MAX,
        ensures
            decode_frame_step(*old(self), *final(self), r),
    {
        if !self.initialized {
            return Err(DecodeError::NotInitialized);
        }
        Ok(self.test_frame())
    }

    fn test_frame(&mut self) -> (f: DecodedFrame)
        requires
            pattern_fits(old(self).config.width, old(self).config.height),
            old(self).frame_count < u64::MAX,
        ensures
            final(self).config == old(self).config,
            final(self).initialized == old(self).initialized,
            final(self).frame_count == old(self).frame_count + 1,
            is_test_frame(f, old(self).config, old(self).frame_count),
    {
        let width = self.config.width;
        let height = self.config.height;
        let mut frame = DecodedFrame::new(width, height, PixelFormat::RGBA);
        self.generate_test_pattern(frame.data.as_mut_slice(), width, height);
        frame.timestamp = self.frame_count;
        self.frame_count = self.frame_count + 1;
        frame
    }

    /// Drains the decoder; the stand-in holds nothing back.
    pub fn flush(&mut self) -> (r: Result<Option<DecodedFrame>, DecodeError>)
        ensures
            flush_step(*old(self), *final(self), r),
    {
        if !self.initialized {
            return Err(DecodeError::NotInitialized);
        }
        Ok(None)
    }

    /// The size and layout of the frames the decoder produces.
    pub fn get_info(&self) -> (info: FrameInfo)
        ensures
            info.width == self.config.width,
            info.height == self.config.height,
            info.stride == self.config.width,
            info.format == PixelFormat::RGBA,
    {
        FrameInfo {
            width: self.config.width,
            height: self.config.height,
            stride: self.config.width,
            format: PixelFormat::RGBA,
        }
    }

    /// Paints 64-pixel colour blocks over the frame, then a white 200x40 bar
    /// in its centre.
    fn generate_test_pattern(&self, data: &mut [u8], width: u32, height: u32)
        requires
            pattern_fits(width, height),
            old(data)@.len() == width * height * 4,
        ensures
            is_test_pattern(final(data)@, width, height),
    {
        let block_size: u32 = PATTERN_BLOCK;
        let ghost w = width as int;
        let ghost h = height as int;
        let mut y: u32 = 0;
        while y < height
            invariant
                pattern_fits(width, height),
                w == width,
                h == height,
                block_size == 64,
                y <= height,
                data@.len() == w * h * 4,
                forall|xx: int, yy: int, c: int|
                    0 <= xx < w && 0 <= yy < y && 0 <= c < 4 ==> #[trigger] data@[pixel_index(
                        w,
                        xx,
                        yy,
                        c,
                    )] == pattern_color(block_index(xx, yy), c),
            decreases height - y,
        {
            let mut x: u32 = 0;
            while x < width
                invariant
                    pattern_fits(width, height),
                    w == width,
                    h == height,
                    block_size == 64,
                    x <= width,
                    y < height,
                    data@.len() == w * h * 4,
                    forall|xx: int, yy: int, c: int|
                        0 <= xx < w && 0 <= yy < h && 0 <= c < 4 && (yy < y || (yy == y && xx < x))
                            ==> #[trigger] data@[pixel_index(w, xx, yy, c)] == pattern_color(
                            block_index(xx, yy),
                            c,
                        ),
                decreases width - x,
            {
                let block_x = ((x / block_size) % 4) as usize;
                let block_y = ((y / block_size) % 4) as usize;
                let color_index = (block_x + block_y) % 4;
                proof {
                    lemma_pixel_bounds(w, h, x as int, y as int, 0);
                    lemma_pixel_bounds(w, h, x as int, y as int, 3);
                }
                let idx = ((y * width + x) * 4) as usize;
                if idx + 4 <= data.len() {
                    let ghost before = data@;
                    put_pixel(data, idx, block_color(color_index));
                    assert forall|xx: int, yy: int, c: int|
                        0 <= xx < w && 0 <= yy < h && 0 <= c < 4 && (yy < y || (yy == y && xx < x
                            + 1)) implies #[trigger] data@[pixel_index(w, xx, yy, c)] == pattern_color(
                        block_index(xx, yy),
                        c,
                    ) by {
                        lemma_pixel_bounds(w, h, xx, yy, c);
                        let i = pixel_index(w, xx, yy, c);
                        if idx <= i < idx + 4 {
                            lemma_pixel_distinct(w, xx, yy, c, x as int, y as int, i - idx);
                        } else {
                            assert(data@[i] == before[i]);
                            if yy == y && xx == x {
                                assert(pixel_index(w, xx, yy, c) == idx + c);
                            }
                        }
                    }
                }
                x = x + 1;
            }
            y = y + 1;
        }
        let center_x = width / 2 - 100;
        let center_y = height / 2 - 20;
        let mut y: u32 = center_y;
        while y < center_y + 40
            invariant
                pattern_fits(width, height),
                w == width,
                h == height,
                center_x == width / 2 - 100,
                center_y == height / 2 - 20,
                center_y <= y <= center_y + 40,
                data@.len() == w * h * 4,
                forall|xx: int, yy: int, c: int|
                    0 <= xx < w && 0 <= yy < h && 0 <= c < 4 ==> #[trigger] data@[pixel_index(
                        w,
                        xx,
                        yy,
                        c,
                    )] == if in_banner(width, height, xx, yy) && yy < y {
                        255u8
                    } else {
                        pattern_color(block_index(xx, yy), c)
                    },
            decreases center_y + 40 - y,
        {
            let mut x: u32 = center_x;
            while x < center_x + 200
                invariant
                    pattern_fits(width, height),
                    w == width,
                    h == height,
                    center_x == width / 2 - 100,
                    center_y == height / 2 - 20,
                    center_y <= y < center_y + 40,
                    center_x <= x <= center_x + 200,
                    data@.len() == w * h * 4,
                    forall|xx: int, yy: int, c: int|
                        0 <= xx < w && 0 <= yy < h && 0 <= c < 4 ==> #[trigger] data@[pixel_index(
                            w,
                            xx,
                            yy,
                            c,
                        )] == if in_banner(width, height, xx, yy) && (yy < y || (yy == y && xx
                            < x)) {
                            255u8
                        } else {
                            pattern_color(block_index(xx, yy), c)
                        },
                decreases center_x + 200 - x,
            {
                proof {
                    lemma_pixel_bounds(w, h, x as int, y as int, 0);
                    lemma_pixel_bounds(w, h, x as int, y as int, 3);
                }
                let idx = ((y * width + x) as usize) * 4;
                if idx + 4 <= data.len() {
                    let ghost before = data@;
                    put_pixel(data, idx, [255, 255, 255, 255]);
                    assert forall|xx: int, yy: int, c: int|
                        0 <= xx < w && 0 <= yy < h && 0 <= c < 4 implies #[trigger] data@[pixel_index(
                        w,
                        xx,
                        yy,
                        c,
                    )] == if in_banner(width, height, xx, yy) && (yy < y || (yy == y && xx < x
                        + 1)) {
                        255u8
                    } else {
                        pattern_color(block_index(xx, yy), c)
                    } by {
                        lemma_pixel_bounds(w, h, xx, yy, c);
                        let i = pixel_index(w, xx, yy, c);
                        if idx <= i < idx + 4 {
                            lemma_pixel_distinct(w, xx, yy, c, x as int, y as int, i - idx);
                        } else {
                            assert(data@[i] == before[i]);
                            if yy == y && xx == x {
                                assert(pixel_index(w, xx, yy, c) == idx + c);
                            }
                        }
                    }
                }
                x = x + 1;
            }
            y = y + 1;
        }
    }

    /// Forgets all decoding state.
    pub fn reset(&mut self) -> (r: Result<(), DecodeError>)
        ensures
            r is Ok,
            reset_step(*old(self), *final(self)),
    {
        self.initialized = false;
        self.frame_count = 0;
        Ok(())
    }
}

/// Successive decodes on a ready decoder, with no reset between, yield
/// test frames of the configured size numbered on from the count the
/// decoder had: the `i`-th has timestamp `count + i`.
pub proof fn lemma_decode_frames_numbered(
    ds: Seq<H264Decoder>,
    rs: Seq<Result<DecodedFrame, DecodeError>>,
)
    requires
        ds.len() == rs.len() + 1,
        ds[0].initialized,
        forall|i: int| 0 <= i < rs.len() ==> #[trigger] decode_frame_step(ds[i], ds[i + 1], rs[i]),
    ensures
        forall|i: int|
            0 <= i < rs.len() ==> (#[trigger] rs[i] matches Ok(f) && is_test_frame(
                f,
                ds[0].config,
                (ds[0].frame_count + i) as u64,
            ) && f.data@.len() == 4 * ds[0].config.width * ds[0].config.height),
        forall|i: int|
            #![trigger ds[i]]
            0 <= i < ds.len() ==> ds[i].frame_count == ds[0].frame_count + i && ds[i].initialized
                && ds[i].config == ds[0].config,
    decreases rs.len(),
{
    if rs.len() > 0 {
        let n = rs.len() - 1;
        lemma_decode_frames_numbered(ds.take(n + 1), rs.take(n));
        assert forall|i: int| #![trigger ds[i]] 0 <= i < ds.len() implies ds[i].frame_count == ds[0].frame_count + i
            && ds[i].initialized && ds[i].config == ds[0].config by {
            if i <= n {
                assert(ds.take(n + 1)[i] == ds[i]);
            } else {
                assert(ds.take(n + 1)[n] == ds[n]);
                assert(decode_frame_step(ds[n], ds[n + 1], rs[n]));
            }
        }
        assert forall|i: int| 0 <= i < rs.len() implies (#[trigger] rs[i] matches Ok(f) && is_test_frame(
            f,
            ds[0].config,
            (ds[0].frame_count + i) as u64,
        ) && f.data@.len() == 4 * ds[0].config.width * ds[0].config.height) by {
            assert(ds[i].frame_count == ds[0].frame_count + i && ds[i].initialized && ds[i].config == ds[0].config);
            assert(decode_frame_step(ds[i], ds[i + 1], rs[i]));
            if let Ok(f) = rs[i] {
                assert(f.data@.len() == ds[0].config.width * ds[0].config.height * 4);
                assert(4 * ds[0].config.width * ds[0].config.height == ds[0].config.width * ds[0].config.height
                    * 4) by (nonlinear_arith);
            }
        }
    }
}

/// After a reset, decoding and flushing fail with `NotInitialized` until the
/// decoder is initialized again; the next frame then has timestamp 0.
pub proof fn lemma_reset_restarts(
    d0: H264Decoder,
    d1: H264Decoder,
    d2: H264Decoder,
    d3: H264Decoder,
    r: Result<DecodedFrame, DecodeError>,
    e2: H264Decoder,
    rf: Result<Option<DecodedFrame>, DecodeError>,
    e3: H264Decoder,
    rd: Result<DecodedFrame, DecodeError>,
)
    requires
        reset_step(d0, d1),
    ensures
        decode_frame_step(d1, e2, rd) ==> (rd matches Err(DecodeError::NotInitialized) && e2.frame_count == 0),
        flush_step(d1, e3, rf) ==> (rf matches Err(DecodeError::NotInitialized)),
        initialize_step(d1, d2) && decode_frame_step(d2, d3, r) ==> (r matches Ok(f) && f.timestamp == 0
            && is_test_frame(f, d0.config, 0)),
{
}

/// The most recent decoded frames, oldest first, at most `max_size` of them.
pub struct FrameBuffer {
    frames: Vec<DecodedFrame>,
    max_size: usize,
}

impl View for FrameBuffer {
    type V = Seq<DecodedFrame>;

    closed spec fn view(&self) -> Seq<DecodedFrame> {
        self.frames@
    }
}

impl FrameBuffer {
    /// How many frames the buffer keeps.
    pub closed spec fn capacity(&self) -> nat {
        self.max_size as nat
    }

    /// The buffer holds no more frames than it keeps.
    pub closed spec fn wf(&self) -> bool {
        self.frames@.len() <= self.max_size
    }

    pub fn new(max_size: usize) -> (b: Self)
        ensures
            b.wf(),
            b@ == Seq::<DecodedFrame>::empty(),
            b.capacity() == max_size,
    {
        FrameBuffer { frames: Vec::with_capacity(max_size), max_size }
    }

    /// Appends `frame`, dropping the oldest frame when the buffer is full.
    pub fn push(&mut self, frame: DecodedFrame)
        requires
            old(self).wf(),
            old(self).capacity() > 0,
        ensures
            final(self).wf(),
            final(self).capacity() == old(self).capacity(),
            old(self)@.len() < old(self).capacity() ==> final(self)@ == old(self)@.push(frame),
            old(self)@.len() >= old(self).capacity() ==> final(self)@ == old(self)@.drop_first().push(
                frame,
            ),
    {
        if self.frames.len() >= self.max_size {
            self.frames.remove(0);
        }
        self.frames.push(frame);
        assert(self.frames@ =~= old(self).frames@.push(frame) || self.frames@ =~= old(
            self,
        ).frames@.drop_first().push(frame));
    }

    /// The newest frame, if any.
    pub fn get_latest(&self) -> (r: Option<&DecodedFrame>)
        ensures
            self@.len() == 0 ==> r is None,
            self@.len() > 0 ==> r == Some(&self@.last()),
    {
        self.frames.last()
    }

    /// The frame at `index`, counting from the oldest.
    pub fn get(&self, index: usize) -> (r: Option<&DecodedFrame>)
        ensures
            index < self@.len() ==> r == Some(&self@[index as int]),
            index >= self@.len() ==> r is None,
    {
        if index < self.frames.len() {
            Some(&self.frames[index])
        } else {
            None
        }
    }

    /// Drops every frame.
    pub fn clear(&mut self)
        requires
            old(self).wf(),
        ensures
            final(self).wf(),
            final(self)@ == Seq::<DecodedFrame>::empty(),
            final(self).capacity() == old(self).capacity(),
    {
        self.frames.clear();
    }

    pub fn len(&self) -> (n: usize)
        ensures
            n == self@.len(),
    {
        self.frames.len()
    }

    pub fn is_empty(&self) -> (b: bool)
        ensures
            b == (self@.len() == 0),
    {
        self.frames.is_empty()
    }
}

/// A well-formed buffer holds no more frames than its capacity.
pub proof fn lemma_frame_buffer_within_capacity(b: &FrameBuffer)
    requires
        b.wf(),
    ensures
        b@.len() <= b.capacity(),
{
}

/// A buffer never holds more frames than its capacity, and after a push the
/// newest frame is the one pushed, with the frames before it in order.
pub proof fn lemma_frame_buffer_push(before: Seq<DecodedFrame>, cap: nat, frame: DecodedFrame)
    requires
        before.len() <= cap,
        cap > 0,
    ensures
        ({
            let after = if before.len() < cap {
                before.push(frame)
            } else {
                before.drop_first().push(frame)
            };
            &&& after.len() <= cap
            &&& after.last() == frame
            &&& after.drop_last() == before.subrange(before.len() - after.drop_last().len(), before.len() as int)
        }),
{
    let after = if before.len() < cap {
        before.push(frame)
    } else {
        before.drop_first().push(frame)
    };
    assert(after.drop_last() =~= before.subrange(before.len() - after.drop_last().len(), before.len() as int));
}

} // verus!
