//! Screen sharing: turning a captured frame into a small RGB picture, the
//! share picker's entries, and the switch that keeps a capture running.

use vstd::prelude::*;

use std::io::Cursor;

use base64::Engine;
use image::codecs::jpeg::JpegEncoder;
use image::ColorType;

use crate::text::{decimal_string, decimal_text, push_str, trimmed, trim_str};
use vstd::arithmetic::div_mod::lemma_fundamental_div_mod_converse;

verus! {

/// The long edge of a `width` x `height` frame.
pub open spec fn long_edge(width: u32, height: u32) -> int {
    if width > height { width as int } else { height as int }
}

/// The factor a frame is shrunk by is `scale_num / scale_den`: the long edge
/// over `max_edge` where the long edge is longer, else one.
pub open spec fn scale_num(width: u32, height: u32, max_edge: u32) -> int {
    if long_edge(width, height) > max_edge { long_edge(width, height) } else { 1 }
}

/// See `scale_num`.
pub open spec fn scale_den(width: u32, height: u32, max_edge: u32) -> int {
    if long_edge(width, height) > max_edge { max_edge as int } else { 1 }
}

/// An edge of `len` pixels shrunk by `num / den`, at least one pixel.
pub open spec fn scaled_edge(len: int, num: int, den: int) -> int {
    if len * den / num < 1 {
        1
    } else {
        len * den / num
    }
}

/// The source coordinate sampled for output coordinate `i`.
pub open spec fn source_coord(i: int, num: int, den: int, len: int) -> int {
    if i * num / den > len - 1 {
        len - 1
    } else {
        i * num / den
    }
}

/// Byte `k` of the RGB picture: channel `k % 3` of output pixel `k / 3`.
pub open spec fn rgb_byte(rgba: Seq<u8>, width: u32, height: u32, max_edge: u32, k: int) -> u8 {
    let num = scale_num(width, height, max_edge);
    let den = scale_den(width, height, max_edge);
    let ow = scaled_edge(width as int, num, den);
    let p = k / 3;
    let sy = source_coord(p / ow, num, den, height as int);
    let sx = source_coord(p % ow, num, den, width as int);
    rgba[(sy * width + sx) * 4 + k % 3]
}

/// An RGBA frame as RGB, shrunk so its long edge is at most `max_edge`
/// pixels, sampling the nearest source pixel, in exact arithmetic.
/// A long edge of at most 0 pixels leaves one pixel, the frame's first.
pub open spec fn spec_to_rgb(rgba: Seq<u8>, width: u32, height: u32, max_edge: u32) -> (Seq<u8>, int, int) {
    if max_edge == 0 {
        (rgba.take(3), 1, 1)
    } else {
        let num = scale_num(width, height, max_edge);
        let den = scale_den(width, height, max_edge);
        let ow = scaled_edge(width as int, num, den);
        let oh = scaled_edge(height as int, num, den);
        (Seq::new((ow * oh * 3) as nat, |k: int| rgb_byte(rgba, width, height, max_edge, k)), ow, oh)
    }
}

proof fn lemma_edge_bounds(len: int, num: int, den: int)
    requires
        len >= 1,
        num >= den >= 1,
    ensures
        1 <= scaled_edge(len, num, den) <= len,
{
    assert(len * den / num <= len) by (nonlinear_arith)
        requires len >= 1, num >= den >= 1;
}

proof fn lemma_coord_bounds(i: int, num: int, den: int, len: int)
    requires
        i >= 0,
        num >= 1,
        den >= 1,
        len >= 1,
    ensures
        0 <= source_coord(i, num, den, len) <= len - 1,
{
    assert(i * num / den >= 0) by (nonlinear_arith)
        requires i >= 0, num >= 1, den >= 1;
}

/// Converts RGBA to RGB, downsampling so the long edge is at most `max_edge`.
pub fn to_rgb_scaled(rgba: &[u8], width: u32, height: u32, max_edge: u32) -> (res: (Vec<u8>, u32, u32))
    requires
        width > 0,
        height > 0,
        width * height * 4 <= u32::MAX,
        rgba@.len() >= width * height * 4,
    ensures
        res.0@ == spec_to_rgb(rgba@, width, height, max_edge).0,
        res.1 == spec_to_rgb(rgba@, width, height, max_edge).1,
        res.2 == spec_to_rgb(rgba@, width, height, max_edge).2,
{
    if max_edge == 0 {
        proof {
            assert(width * height >= 1) by (nonlinear_arith)
                requires width > 0, height > 0;
        }
        let mut one: Vec<u8> = Vec::new();
        one.push(rgba[0]);
        one.push(rgba[1]);
        one.push(rgba[2]);
        assert(one@ =~= rgba@.take(3));
        return (one, 1, 1);
    }
    let m: u32 = if width > height { width } else { height };
    let num: u64 = if m > max_edge { m as u64 } else { 1 };
    let den: u64 = if m > max_edge { max_edge as u64 } else { 1 };
    proof {
        assert(width * den <= 0xffff_ffff * 0xffff_ffffu64) by (nonlinear_arith)
            requires width <= 0xffff_ffffu64, den <= 0xffff_ffffu64;
        assert(height * den <= 0xffff_ffff * 0xffff_ffffu64) by (nonlinear_arith)
            requires height <= 0xffff_ffffu64, den <= 0xffff_ffffu64;
    }
    let ow_raw: u64 = (width as u64) * den / num;
    let ow: u64 = if ow_raw < 1 { 1 } else { ow_raw };
    let oh_raw: u64 = (height as u64) * den / num;
    let oh: u64 = if oh_raw < 1 { 1 } else { oh_raw };
    proof {
        lemma_edge_bounds(width as int, num as int, den as int);
        lemma_edge_bounds(height as int, num as int, den as int);
        assert(ow * oh <= width * height) by (nonlinear_arith)
            requires 1 <= ow <= width, 1 <= oh <= height;
    }
    let mut rgb: Vec<u8> = Vec::new();
    let mut y: u64 = 0;
    while y < oh
        invariant
            num == scale_num(width, height, max_edge),
            den == scale_den(width, height, max_edge),
            num >= den >= 1,
            num <= u32::MAX,
            ow == scaled_edge(width as int, num as int, den as int),
            oh == scaled_edge(height as int, num as int, den as int),
            1 <= ow <= width,
            1 <= oh <= height,
            ow * oh <= width * height,
            width * height * 4 <= u32::MAX,
            rgba@.len() >= width * height * 4,
            y <= oh,
            rgb@.len() == y * ow * 3,
            forall|k: int| 0 <= k < rgb@.len() ==> #[trigger] rgb@[k] == rgb_byte(rgba@, width, height, max_edge, k),
        decreases oh - y,
    {
        proof {
            assert(y * num <= 0xffff_ffff * 0xffff_ffffu64) by (nonlinear_arith)
                requires y <= 0xffff_ffffu64, num <= 0xffff_ffffu64;
        }
        let sy_raw: u64 = y * num / den;
        let sy: u64 = if sy_raw > (height as u64) - 1 { (height as u64) - 1 } else { sy_raw };
        proof {
            lemma_coord_bounds(y as int, num as int, den as int, height as int);
        }
        let mut x: u64 = 0;
        while x < ow
            invariant
                num == scale_num(width, height, max_edge),
                den == scale_den(width, height, max_edge),
                num >= den >= 1,
                num <= u32::MAX,
                ow == scaled_edge(width as int, num as int, den as int),
                1 <= ow <= width,
                y < oh,
                1 <= oh <= height,
                ow * oh <= width * height,
                width * height * 4 <= u32::MAX,
                rgba@.len() >= width * height * 4,
                sy == source_coord(y as int, num as int, den as int, height as int),
                sy <= height - 1,
                x <= ow,
                rgb@.len() == (y * ow + x) * 3,
                forall|k: int| 0 <= k < rgb@.len() ==> #[trigger] rgb@[k] == rgb_byte(rgba@, width, height, max_edge, k),
            decreases ow - x,
        {
            proof {
                assert(x * num <= 0xffff_ffff * 0xffff_ffffu64) by (nonlinear_arith)
                    requires x <= 0xffff_ffffu64, num <= 0xffff_ffffu64;
            }
            let sx_raw: u64 = x * num / den;
            let sx: u64 = if sx_raw > (width as u64) - 1 { (width as u64) - 1 } else { sx_raw };
            proof {
                lemma_coord_bounds(x as int, num as int, den as int, width as int);
                assert(sy * width + sx <= width * height - 1) by (nonlinear_arith)
                    requires sy <= height - 1, sx <= width - 1, width >= 1, height >= 1;
                assert((y * ow + x + 1) * 3 <= ow * oh * 3) by (nonlinear_arith)
                    requires y < oh, x < ow, ow >= 1;
            }
            let base: usize = ((sy * (width as u64) + sx) * 4) as usize;
            let ghost k0 = rgb@.len() as int;
            proof {
                let p = y * ow + x;
                lemma_fundamental_div_mod_converse(p as int, ow as int, y as int, x as int);
                assert forall|c: int| 0 <= c < 3 implies #[trigger] rgb_byte(rgba@, width, height, max_edge, k0 + c) == rgba@[base + c] by {
                    lemma_fundamental_div_mod_converse(k0 + c, 3, p as int, c);
                }
            }
            rgb.push(rgba[base]);
            rgb.push(rgba[base + 1]);
            rgb.push(rgba[base + 2]);
            proof {
                assert forall|k: int| 0 <= k < rgb@.len() implies #[trigger] rgb@[k] == rgb_byte(rgba@, width, height, max_edge, k) by {
                    if k >= k0 {
                        assert(rgb_byte(rgba@, width, height, max_edge, k0 + (k - k0)) == rgba@[base + (k - k0)]);
                    }
                }
                assert(rgb@.len() == (y * ow + x + 1) * 3) by (nonlinear_arith)
                    requires rgb@.len() == (y * ow + x) * 3 + 3;
            }
            x = x + 1;
        }
        proof {
            assert((y * ow + ow) * 3 == (y + 1) * ow * 3) by (nonlinear_arith);
        }
        y = y + 1;
    }
    proof {
        assert(y * ow * 3 == ow * oh * 3) by (nonlinear_arith)
            requires y == oh;
        assert(rgb@ =~= spec_to_rgb(rgba@, width, height, max_edge).0);
    }
    (rgb, ow as u32, oh as u32)
}

/// A shrunk frame's edges are at least one pixel and at most `max_edge`
/// pixels, and never longer than the frame's own.
pub proof fn law_long_edge_bounded(rgba: Seq<u8>, width: u32, height: u32, max_edge: u32)
    requires
        width > 0,
        height > 0,
        max_edge > 0,
    ensures
        1 <= spec_to_rgb(rgba, width, height, max_edge).1 <= max_edge,
        1 <= spec_to_rgb(rgba, width, height, max_edge).2 <= max_edge,
        spec_to_rgb(rgba, width, height, max_edge).1 <= width,
        spec_to_rgb(rgba, width, height, max_edge).2 <= height,
{
    let num = scale_num(width, height, max_edge);
    let den = scale_den(width, height, max_edge);
    let m = long_edge(width, height);
    lemma_edge_bounds(width as int, num, den);
    lemma_edge_bounds(height as int, num, den);
    if m > max_edge {
        assert(width as int * max_edge / m <= max_edge) by (nonlinear_arith)
            requires width <= m, m > 0, max_edge > 0;
        assert(height as int * max_edge / m <= max_edge) by (nonlinear_arith)
            requires height <= m, m > 0, max_edge > 0;
    }
}

/// A frame whose long edge is within `max_edge` keeps its size, and only
/// loses its alpha channel: byte `k` of the picture is channel `k % 3` of
/// pixel `k / 3` of the frame.
pub proof fn law_small_frames_untouched(rgba: Seq<u8>, width: u32, height: u32, max_edge: u32)
    requires
        width > 0,
        height > 0,
        width <= max_edge,
        height <= max_edge,
    ensures
        spec_to_rgb(rgba, width, height, max_edge).1 == width,
        spec_to_rgb(rgba, width, height, max_edge).2 == height,
        spec_to_rgb(rgba, width, height, max_edge).0.len() == width * height * 3,
        forall|k: int| 0 <= k < width * height * 3 ==>
            #[trigger] spec_to_rgb(rgba, width, height, max_edge).0[k] == rgba[(k / 3) * 4 + k % 3],
{
    assert(scale_num(width, height, max_edge) == 1);
    assert(scale_den(width, height, max_edge) == 1);
    assert forall|k: int| 0 <= k < width * height * 3 implies
        #[trigger] spec_to_rgb(rgba, width, height, max_edge).0[k] == rgba[(k / 3) * 4 + k % 3] by {
        let p = k / 3;
        assert(p < width * height) by (nonlinear_arith)
            requires 0 <= k < width * height * 3, p == k / 3;
        vstd::arithmetic::div_mod::lemma_fundamental_div_mod(p, width as int);
        assert(p / (width as int) < height) by (nonlinear_arith)
            requires 0 <= p < width * height, width > 0;
        assert(p / (width as int) >= 0) by (nonlinear_arith)
            requires 0 <= p, width > 0;
        assert((p / (width as int)) * width + p % (width as int) == p) by (nonlinear_arith)
            requires p == width * (p / (width as int)) + p % (width as int);
    }
}

/// Every output pixel of a frame, shrunk or not, is a pixel of the frame: with
/// `L` the long edge and `E` the bound (both taken as one where `L <= E`),
/// output pixel `(x, y)` is the frame's pixel at column
/// `sx = min(x * L / E, width - 1)` and row `sy = min(y * L / E, height - 1)`,
/// read with the frame's width as row stride: channel `c` of output byte
/// `(y * ow + x) * 3 + c` is byte `(sy * width + sx) * 4 + c` of the frame.
pub proof fn law_output_pixel_samples_the_frame(
    rgba: Seq<u8>,
    width: u32,
    height: u32,
    max_edge: u32,
    x: int,
    y: int,
    c: int,
)
    requires
        width > 0,
        height > 0,
        max_edge > 0,
        0 <= x < spec_to_rgb(rgba, width, height, max_edge).1,
        0 <= y < spec_to_rgb(rgba, width, height, max_edge).2,
        0 <= c < 3,
    ensures
        ({
            let l: int = if width > height { width as int } else { height as int };
            let num: int = if l > max_edge { l } else { 1 };
            let den: int = if l > max_edge { max_edge as int } else { 1 };
            let sx: int = if x * num / den > width - 1 { width - 1 } else { x * num / den };
            let sy: int = if y * num / den > height - 1 { height - 1 } else { y * num / den };
            let ow = spec_to_rgb(rgba, width, height, max_edge).1;
            spec_to_rgb(rgba, width, height, max_edge).0[(y * ow + x) * 3 + c] == rgba[(sy * width + sx) * 4 + c]
        }),
{
    let num = scale_num(width, height, max_edge);
    let den = scale_den(width, height, max_edge);
    let ow = spec_to_rgb(rgba, width, height, max_edge).1;
    let oh = spec_to_rgb(rgba, width, height, max_edge).2;
    lemma_edge_bounds(width as int, num, den);
    lemma_edge_bounds(height as int, num, den);
    let p = y * ow + x;
    let k = p * 3 + c;
    assert((y * ow + x) * 3 + c == k);
    assert(k < ow * oh * 3) by (nonlinear_arith)
        requires k == (y * ow + x) * 3 + c, 0 <= x < ow, 0 <= y < oh, 0 <= c < 3, ow >= 1;
    assert(p >= 0) by (nonlinear_arith)
        requires p == y * ow + x, y >= 0, x >= 0, ow >= 1;
    lemma_fundamental_div_mod_converse(k, 3, p, c);
    lemma_fundamental_div_mod_converse(p, ow, y, x);
    assert(spec_to_rgb(rgba, width, height, max_edge).0[k] == rgb_byte(rgba, width, height, max_edge, k));
}

/// Converts a captured RGBA frame to RGB, downsampling so the long edge is at
/// most 1280 pixels.
pub fn to_rgb_720p(rgba: &[u8], width: u32, height: u32) -> (res: (Vec<u8>, u32, u32))
    requires
        width > 0,
        height > 0,
        width * height * 4 <= u32::MAX,
        rgba@.len() >= width * height * 4,
    ensures
        res.0@ == spec_to_rgb(rgba@, width, height, 1280).0,
        res.1 == spec_to_rgb(rgba@, width, height, 1280).1,
        res.2 == spec_to_rgb(rgba@, width, height, 1280).2,
{
    to_rgb_scaled(rgba, width, height, 1280)
}

/// The bytes held by an optional buffer.
pub open spec fn bytes_view(r: Option<Vec<u8>>) -> Option<Seq<u8>> {
    match r {
        Some(v) => Some(v@),
        None => None,
    }
}

/// The characters held by an optional string.
pub open spec fn text_view(r: Option<String>) -> Option<Seq<char>> {
    match r {
        Some(s) => Some(s@),
        None => None,
    }
}

/// The JPEG file that `image`'s baseline encoder writes for an RGB picture of
/// `width` x `height` pixels at `quality`, or `None` where it refuses one.
pub uninterp spec fn spec_jpeg(rgb: Seq<u8>, width: u32, height: u32, quality: u8) -> Option<Seq<u8>>;

/// `image::codecs::jpeg::JpegEncoder::new_with_quality(..).encode(.., Rgb8)`
/// into a fresh buffer. The file is named by `spec_jpeg`; the encoder refuses a
/// picture with an edge of zero or of more than 65535 pixels (the source checks
/// both edges against `u16` before writing); a `Vec` never holds more than
/// `isize::MAX` bytes. The encoder panics on a buffer of another length than
/// three bytes a pixel, which `requires` leaves out.
#[verifier::external_body]
fn jpeg_encode_rgb(rgb: &[u8], width: u32, height: u32, quality: u8) -> (r: Option<Vec<u8>>)
    requires
        rgb@.len() == width * height * 3,
    ensures
        bytes_view(r) == spec_jpeg(rgb@, width, height, quality),
        (width == 0 || height == 0 || width > 65535 || height > 65535) ==> r is None,
        r matches Some(v) ==> v@.len() <= isize::MAX,
{
    let mut jpeg: Vec<u8> = Vec::new();
    let res = JpegEncoder::new_with_quality(&mut Cursor::new(&mut jpeg), quality).encode(
        rgb,
        width,
        height,
        ColorType::Rgb8.into(),
    );
    match res {
        Ok(()) => Some(jpeg),
        Err(_) => None,
    }
}

/// The character of the standard base64 alphabet for a 6-bit value.
pub open spec fn base64_digit(v: int) -> char {
    if v < 26 {
        ((65 + v) as u32) as char
    } else if v < 52 {
        ((97 + v - 26) as u32) as char
    } else if v < 62 {
        ((48 + v - 52) as u32) as char
    } else if v == 62 {
        '+'
    } else {
        '/'
    }
}

/// Standard base64 (RFC 4648, `+` and `/`, padded with `=`): each group of three
/// bytes becomes four characters, a last group of one or two bytes is padded.
pub open spec fn base64_text(b: Seq<u8>) -> Seq<char>
    decreases b.len(),
{
    if b.len() == 0 {
        Seq::empty()
    } else if b.len() == 1 {
        seq![base64_digit(b[0] as int / 4), base64_digit((b[0] as int % 4) * 16), '=', '=']
    } else if b.len() == 2 {
        seq![
            base64_digit(b[0] as int / 4),
            base64_digit((b[0] as int % 4) * 16 + b[1] as int / 16),
            base64_digit((b[1] as int % 16) * 4),
            '=',
        ]
    } else {
        seq![
            base64_digit(b[0] as int / 4),
            base64_digit((b[0] as int % 4) * 16 + b[1] as int / 16),
            base64_digit((b[1] as int % 16) * 4 + b[2] as int / 64),
            base64_digit(b[2] as int % 64),
        ] + base64_text(b.skip(3))
    }
}

/// `base64::engine::general_purpose::STANDARD.encode`: the standard alphabet
/// with padding, as the crate documents. The engine panics where the length of
/// the text would overflow `usize`, which `requires` leaves out.
#[verifier::external_body]
fn base64_standard(bytes: &[u8]) -> (s: String)
    requires
        (bytes@.len() / 3) * 4 + 4 <= usize::MAX,
    ensures
        s@ == base64_text(bytes@),
{
    base64::engine::general_purpose::STANDARD.encode(bytes)
}

/// What a JPEG preview is served as.
pub open spec fn jpeg_data_url_prefix() -> Seq<char> {
    "data:image/jpeg;base64,"@
}

/// A JPEG file as a data URL, the form the shell shows pictures in.
pub fn jpeg_data_url(jpeg: &[u8]) -> (url: String)
    requires
        jpeg@.len() <= isize::MAX,
    ensures
        url@ == jpeg_data_url_prefix() + base64_text(jpeg@),
{
    proof {
        assert((jpeg@.len() / 3) * 4 + 4 <= usize::MAX) by (nonlinear_arith)
            requires jpeg@.len() <= isize::MAX, usize::MAX == 2 * isize::MAX + 1;
    }
    let mut url = String::new();
    push_str(&mut url, "data:image/jpeg;base64,");
    let text = base64_standard(jpeg);
    push_str(&mut url, &text);
    url
}

/// The preview of a `width` x `height` RGBA frame: shrunk to a long edge of at
/// most 320 pixels, JPEG at quality 55, as a data URL; none for an empty frame
/// or where the encoder refuses the picture.
pub open spec fn spec_thumbnail(rgba: Seq<u8>, width: u32, height: u32) -> Option<Seq<char>> {
    if width == 0 || height == 0 {
        None
    } else {
        let small = spec_to_rgb(rgba, width, height, 320);
        match spec_jpeg(small.0, small.1 as u32, small.2 as u32, 55) {
            Some(jpeg) => Some(jpeg_data_url_prefix() + base64_text(jpeg)),
            None => None,
        }
    }
}

/// Encodes a preview small enough to sit in a picker grid.
pub fn thumbnail_data_url(rgba: &[u8], width: u32, height: u32) -> (r: Option<String>)
    requires
        width * height * 4 <= u32::MAX,
        rgba@.len() >= width * height * 4,
    ensures
        text_view(r) == spec_thumbnail(rgba@, width, height),
{
    if width == 0 || height == 0 {
        return None;
    }
    let (rgb, w, h) = to_rgb_scaled(rgba, width, height, 320);
    proof {
        lemma_rgb_len(rgba@, width, height, 320);
    }
    let jpeg = match jpeg_encode_rgb(&rgb, w, h, 55) {
        Some(j) => j,
        None => return None,
    };
    Some(jpeg_data_url(&jpeg))
}

proof fn lemma_rgb_len(rgba: Seq<u8>, width: u32, height: u32, max_edge: u32)
    requires
        width > 0,
        height > 0,
        max_edge > 0,
    ensures
        spec_to_rgb(rgba, width, height, max_edge).0.len()
            == spec_to_rgb(rgba, width, height, max_edge).1 * spec_to_rgb(rgba, width, height, max_edge).2 * 3,
        1 <= spec_to_rgb(rgba, width, height, max_edge).1 <= width,
        1 <= spec_to_rgb(rgba, width, height, max_edge).2 <= height,
{
    let num = scale_num(width, height, max_edge);
    let den = scale_den(width, height, max_edge);
    lemma_edge_bounds(width as int, num, den);
    lemma_edge_bounds(height as int, num, den);
    let ow = scaled_edge(width as int, num, den);
    let oh = scaled_edge(height as int, num, den);
    assert(ow * oh * 3 >= 0) by (nonlinear_arith)
        requires ow >= 1, oh >= 1;
}

/// The JPEG of one shared frame: shrunk to a long edge of at most 1280
/// pixels, at quality 60.
pub open spec fn spec_frame_jpeg(rgba: Seq<u8>, width: u32, height: u32) -> Option<Seq<u8>> {
    let small = spec_to_rgb(rgba, width, height, 1280);
    spec_jpeg(small.0, small.1 as u32, small.2 as u32, 60)
}

/// Encodes one captured frame for the stream; `None` where the encoder
/// refuses it.
pub fn encode_frame(rgba: &[u8], width: u32, height: u32) -> (r: Option<Vec<u8>>)
    requires
        width > 0,
        height > 0,
        width * height * 4 <= u32::MAX,
        rgba@.len() >= width * height * 4,
    ensures
        bytes_view(r) == spec_frame_jpeg(rgba@, width, height),
{
    let (rgb, w, h) = to_rgb_720p(rgba, width, height);
    proof {
        lemma_rgb_len(rgba@, width, height, 1280);
    }
    jpeg_encode_rgb(&rgb, w, h, 60)
}

/// What the user picked to share: a whole monitor, or one application window.
#[derive(Debug, Clone, Copy, PartialEq, Eq, Structural)]
pub enum CaptureTarget {
    Monitor(u32),
    Window(u32),
}

/// One entry in the share picker.
#[derive(Debug, Clone)]
pub struct ShareSource {
    pub target: CaptureTarget,
    pub title: String,
    pub app_name: String,
    /// A small JPEG preview as a data URL, or `None` if the preview failed.
    pub thumbnail: Option<String>,
}

/// A share source as values.
pub struct ShareSourceView {
    pub target: CaptureTarget,
    pub title: Seq<char>,
    pub app_name: Seq<char>,
    pub thumbnail: Option<Seq<char>>,
}

impl View for ShareSource {
    type V = ShareSourceView;

    open spec fn view(&self) -> ShareSourceView {
        ShareSourceView {
            target: self.target,
            title: self.title@,
            app_name: self.app_name@,
            thumbnail: text_view(self.thumbnail),
        }
    }
}

/// What the platform reports of one monitor: its id and name where it could
/// read them, whether it is the primary one, and its preview.
pub struct MonitorInfo {
    pub id: Option<u32>,
    pub name: Option<String>,
    pub is_primary: bool,
    pub thumbnail: Option<String>,
}

/// What the platform reports of one window: its id where it could read it,
/// its title and application name (empty where unknown), whether it is
/// minimised, and its preview.
pub struct WindowInfo {
    pub id: Option<u32>,
    pub title: String,
    pub app_name: String,
    pub is_minimized: bool,
    pub thumbnail: Option<String>,
}

/// The id sharing uses with no explicit choice: the primary monitor's, else
/// the first monitor's; 0 where there is none or its id could not be read.
pub open spec fn spec_default_monitor(monitors: Seq<MonitorInfo>) -> u32 {
    if exists|i: int| 0 <= i < monitors.len() && monitors[i].is_primary {
        let i = choose|i: int|
            0 <= i < monitors.len() && monitors[i].is_primary && (forall|j: int|
                0 <= j < i ==> !monitors[j].is_primary);
        match monitors[i].id {
            Some(id) => id,
            None => 0,
        }
    } else if monitors.len() > 0 {
        match monitors[0].id {
            Some(id) => id,
            None => 0,
        }
    } else {
        0
    }
}

/// Sharing with no explicit choice means the primary monitor.
pub fn default_target(monitors: &Vec<MonitorInfo>) -> (t: CaptureTarget)
    ensures
        t == CaptureTarget::Monitor(spec_default_monitor(monitors@)),
{
    let mut i: usize = 0;
    while i < monitors.len()
        invariant
            i <= monitors.len(),
            forall|j: int| 0 <= j < i ==> !(#[trigger] monitors@[j]).is_primary,
        decreases monitors.len() - i,
    {
        if monitors[i].is_primary {
            let id = match monitors[i].id {
                Some(id) => id,
                None => 0,
            };
            proof {
                let w = choose|k: int|
                    0 <= k < monitors@.len() && monitors@[k].is_primary && (forall|j: int|
                        0 <= j < k ==> !monitors@[j].is_primary);
                if w > i {
                    assert(!monitors@[i as int].is_primary);
                }
            }
            return CaptureTarget::Monitor(id);
        }
        i = i + 1;
    }
    if monitors.len() > 0 {
        match monitors[0].id {
            Some(id) => CaptureTarget::Monitor(id),
            None => CaptureTarget::Monitor(0),
        }
    } else {
        CaptureTarget::Monitor(0)
    }
}

/// The picker's title of a monitor: its name, or `Display <id>` where it has
/// none, marked ` (primary)` for the primary one.
pub open spec fn monitor_title(id: u32, name: Option<String>, is_primary: bool) -> Seq<char> {
    let name = match name {
        Some(n) => n@,
        None => "Display "@ + decimal_text(id as nat),
    };
    if is_primary {
        name + " (primary)"@
    } else {
        name
    }
}

/// The picker entry of a monitor whose id could be read.
pub open spec fn monitor_entry(m: MonitorInfo) -> ShareSourceView {
    ShareSourceView {
        target: CaptureTarget::Monitor(m.id.unwrap()),
        title: monitor_title(m.id.unwrap(), m.name, m.is_primary),
        app_name: "Entire screen"@,
        thumbnail: text_view(m.thumbnail),
    }
}

/// A window is offered when its id could be read, it is not minimised, and
/// its title or application name holds more than white space.
pub open spec fn window_listed(w: WindowInfo) -> bool {
    &&& w.id is Some
    &&& !w.is_minimized
    &&& !(trimmed(w.title@).len() == 0 && trimmed(w.app_name@).len() == 0)
}

/// The picker entry of a listed window: titled by its application where its
/// own title is blank.
pub open spec fn window_entry(w: WindowInfo) -> ShareSourceView {
    ShareSourceView {
        target: CaptureTarget::Window(w.id.unwrap()),
        title: if trimmed(w.title@).len() == 0 { w.app_name@ } else { w.title@ },
        app_name: w.app_name@,
        thumbnail: text_view(w.thumbnail),
    }
}

/// The picker's entries for the monitors whose id could be read, in order.
pub open spec fn monitor_entries(ms: Seq<MonitorInfo>) -> Seq<ShareSourceView>
    decreases ms.len(),
{
    if ms.len() == 0 {
        Seq::empty()
    } else {
        let rest = monitor_entries(ms.drop_last());
        if ms.last().id is Some {
            rest.push(monitor_entry(ms.last()))
        } else {
            rest
        }
    }
}

/// The picker's entries for the listed windows, in order.
pub open spec fn window_entries(ws: Seq<WindowInfo>) -> Seq<ShareSourceView>
    decreases ws.len(),
{
    if ws.len() == 0 {
        Seq::empty()
    } else {
        let rest = window_entries(ws.drop_last());
        if window_listed(ws.last()) {
            rest.push(window_entry(ws.last()))
        } else {
            rest
        }
    }
}

/// The views of a list of share sources.
pub open spec fn sources_view(v: Seq<ShareSource>) -> Seq<ShareSourceView> {
    v.map_values(|s: ShareSource| s@)
}

fn clone_text(t: &Option<String>) -> (r: Option<String>)
    ensures
        text_view(r) == text_view(*t),
{
    match t {
        Some(s) => Some(s.clone()),
        None => None,
    }
}

/// The picker entry of one monitor whose id is `id`.
fn monitor_source(m: &MonitorInfo, id: u32) -> (s: ShareSource)
    requires
        m.id == Some(id),
    ensures
        s@ == monitor_entry(*m),
{
    let mut title = match &m.name {
        Some(n) => n.clone(),
        None => {
            let mut t = String::new();
            push_str(&mut t, "Display ");
            let digits = decimal_string(id as u64);
            push_str(&mut t, &digits);
            t
        },
    };
    if m.is_primary {
        push_str(&mut title, " (primary)");
    }
    ShareSource {
        target: CaptureTarget::Monitor(id),
        title,
        app_name: String::from_str("Entire screen"),
        thumbnail: clone_text(&m.thumbnail),
    }
}

/// Whether the picker offers a window (see `window_listed`).
pub fn is_window_listed(w: &WindowInfo) -> (r: bool)
    ensures
        r == window_listed(*w),
{
    if w.id.is_none() || w.is_minimized {
        return false;
    }
    let title = trim_str(w.title.as_str());
    let app = trim_str(w.app_name.as_str());
    !(title.as_str().is_empty() && app.as_str().is_empty())
}

/// Lists every monitor and visible application window the user can share:
/// first the monitors, then the windows, each in the order reported.
pub fn share_sources(monitors: &Vec<MonitorInfo>, windows: &Vec<WindowInfo>) -> (r: Vec<ShareSource>)
    ensures
        sources_view(r@) == monitor_entries(monitors@) + window_entries(windows@),
{
    let mut out: Vec<ShareSource> = Vec::new();
    let mut i: usize = 0;
    while i < monitors.len()
        invariant
            i <= monitors.len(),
            sources_view(out@) == monitor_entries(monitors@.take(i as int)),
        decreases monitors.len() - i,
    {
        let m = &monitors[i];
        assert(monitors@.take(i + 1).drop_last() =~= monitors@.take(i as int));
        if let Some(id) = m.id {
            let entry = monitor_source(m, id);
            out.push(entry);
        }
        assert(sources_view(out@) =~= monitor_entries(monitors@.take(i + 1)));
        i = i + 1;
    }
    assert(monitors@.take(monitors.len() as int) =~= monitors@);
    let ghost mine = sources_view(out@);
    let mut k: usize = 0;
    while k < windows.len()
        invariant
            k <= windows.len(),
            mine == monitor_entries(monitors@),
            sources_view(out@) == mine + window_entries(windows@.take(k as int)),
        decreases windows.len() - k,
    {
        let w = &windows[k];
        let ghost old_out = out@;
        assert(windows@.take(k + 1).drop_last() =~= windows@.take(k as int));
        if is_window_listed(w) {
            let id = match w.id {
                Some(id) => id,
                None => 0,
            };
            let title = trim_str(w.title.as_str());
            let shown = if title.as_str().is_empty() { w.app_name.clone() } else { w.title.clone() };
            let entry = ShareSource {
                target: CaptureTarget::Window(id),
                title: shown,
                app_name: w.app_name.clone(),
                thumbnail: clone_text(&w.thumbnail),
            };
            assert(windows@.take(k + 1).last() == *w);
            assert(window_entries(windows@.take(k + 1)) == window_entries(windows@.take(k as int)).push(entry@));
            out.push(entry);
            assert(sources_view(out@) =~= sources_view(out@.drop_last()).push(entry@));
            assert(out@.drop_last() =~= old_out);
        } else {
            assert(windows@.take(k + 1).last() == *w);
            assert(window_entries(windows@.take(k + 1)) == window_entries(windows@.take(k as int)));
        }
        assert(sources_view(out@) =~= mine + window_entries(windows@.take(k + 1)));
        k = k + 1;
    }
    assert(windows@.take(windows.len() as int) =~= windows@);
    out
}

/// The id a capture target names.
pub open spec fn target_id(target: CaptureTarget) -> u32 {
    match target {
        CaptureTarget::Monitor(id) => id,
        CaptureTarget::Window(id) => id,
    }
}

/// Whether `i` is the first position of `ids` that holds `id`.
pub open spec fn is_first_match(ids: Seq<Option<u32>>, id: u32, i: int) -> bool {
    &&& 0 <= i < ids.len()
    &&& ids[i] == Some(id)
    &&& forall|j: int| 0 <= j < i ==> ids[j] != Some(id)
}

/// Which of the platform's monitors or windows a capture of `target` reads,
/// given their ids in order: the first whose id matches; for a monitor that
/// is gone, the first monitor; for a window that is gone, none.
pub open spec fn spec_capture_source(target: CaptureTarget, ids: Seq<Option<u32>>) -> Option<int> {
    if exists|i: int| is_first_match(ids, target_id(target), i) {
        Some(choose|i: int| is_first_match(ids, target_id(target), i))
    } else if target is Monitor && ids.len() > 0 {
        Some(0)
    } else {
        None
    }
}

/// Resolves the chosen source once, before the capture loop grabs frames.
pub fn capture_source(target: CaptureTarget, ids: &Vec<Option<u32>>) -> (r: Option<usize>)
    ensures
        match r {
            Some(i) => spec_capture_source(target, ids@) == Some(i as int),
            None => spec_capture_source(target, ids@) is None,
        },
{
    let id = match target {
        CaptureTarget::Monitor(id) => id,
        CaptureTarget::Window(id) => id,
    };
    let mut i: usize = 0;
    while i < ids.len()
        invariant
            i <= ids.len(),
            id == target_id(target),
            forall|j: int| 0 <= j < i ==> #[trigger] ids@[j] != Some(id),
        decreases ids.len() - i,
    {
        if ids[i] == Some(id) {
            proof {
                assert(is_first_match(ids@, id, i as int));
                let w = choose|k: int| is_first_match(ids@, target_id(target), k);
                if w > i {
                    assert(ids@[i as int] != Some(id));
                } else if w < i {
                    assert(ids@[w] != Some(id));
                }
            }
            return Some(i);
        }
        i = i + 1;
    }
    proof {
        assert forall|k: int| !is_first_match(ids@, target_id(target), k) by {
            if 0 <= k < ids@.len() {
                assert(ids@[k] != Some(id));
            }
        }
    }
    match target {
        CaptureTarget::Monitor(_) => {
            if ids.len() > 0 {
                Some(0)
            } else {
                None
            }
        },
        CaptureTarget::Window(_) => None,
    }
}

/// The switch of a screen capture. The shell keeps one per meeting, shared
/// by the commands that start and stop sharing and the loop that grabs frames
/// (behind a lock), so all of them see the same state.
pub struct ScreenCapturer {
    is_capturing: bool,
}

impl View for ScreenCapturer {
    type V = bool;

    /// Whether a capture is running.
    closed spec fn view(&self) -> bool {
        self.is_capturing
    }
}

impl ScreenCapturer {
    /// A capturer that is not capturing.
    pub fn new() -> (c: Self)
        ensures
            !c@,
    {
        ScreenCapturer { is_capturing: false }
    }

    /// Whether a capture is running.
    pub fn is_capturing(&self) -> (r: bool)
        ensures
            r == self@,
    {
        self.is_capturing
    }

    /// Marks a capture as running, and says whether one already was: starting
    /// a capture that runs does nothing more.
    pub fn begin_capture(&mut self) -> (already: bool)
        ensures
            already == old(self)@,
            final(self)@,
    {
        let already = self.is_capturing;
        self.is_capturing = true;
        already
    }

    /// Stops screen capture immediately: the capture loop sees the switch off
    /// before it grabs its next frame.
    pub fn stop_capture(&mut self)
        ensures
            !final(self)@,
    {
        self.is_capturing = false;
    }
}

} // verus!
