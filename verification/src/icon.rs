//! Turning an executable's icon bitmap into a PNG data URL for the process
//! list.
use vstd::prelude::*;
use base64::Engine;
use image::{ImageBuffer, Rgba};

verus! {

/// An RGBA image of the `image` crate (`ImageBuffer<Rgba<u8>, Vec<u8>>`),
/// seen through `image_samples` and `image_extent`.
#[verifier::external_body]
pub struct RgbaPixels {
    inner: ImageBuffer<Rgba<u8>, Vec<u8>>,
}

/// The subpixel bytes an RGBA image holds, as it was made.
pub uninterp spec fn image_samples(img: RgbaPixels) -> Seq<u8>;

/// The width and height an RGBA image was made with.
pub uninterp spec fn image_extent(img: RgbaPixels) -> (u32, u32);

/// What the PNG encoder of the `image` crate writes for a `width` x `height`
/// RGBA image with the subpixels `samples` (`None` when it refuses).
pub uninterp spec fn png_encoding(width: u32, height: u32, samples: Seq<u8>) -> Option<Seq<u8>>;

/// The character of the 6-bit value `v` in the standard base64 alphabet
/// (`A-Z`, `a-z`, `0-9`, `+`, `/`).
pub open spec fn base64_char(v: nat) -> char {
    if v < 26 {
        (65 + v) as char
    } else if v < 52 {
        (71 + v) as char
    } else if v < 62 {
        (v - 4) as char
    } else if v == 62 {
        '+'
    } else {
        '/'
    }
}

/// The standard padded base64 text of `bytes` (RFC 4648): every three bytes
/// become four characters of six bits each; a final one or two bytes become
/// two or three characters followed by `=` padding to four.
pub open spec fn base64_standard(bytes: Seq<u8>) -> Seq<char>
    decreases bytes.len(),
{
    if bytes.len() == 0 {
        seq![]
    } else if bytes.len() == 1 {
        let x = bytes[0] as nat;
        seq![base64_char(x / 4), base64_char((x % 4) * 16), '=', '=']
    } else if bytes.len() == 2 {
        let x = bytes[0] as nat;
        let y = bytes[1] as nat;
        seq![base64_char(x / 4), base64_char((x % 4) * 16 + y / 16), base64_char((y % 16) * 4), '=']
    } else {
        let x = bytes[0] as nat;
        let y = bytes[1] as nat;
        let z = bytes[2] as nat;
        seq![
            base64_char(x / 4),
            base64_char((x % 4) * 16 + y / 16),
            base64_char((y % 16) * 4 + z / 64),
            base64_char(z % 64),
        ] + base64_standard(bytes.skip(3))
    }
}

/// `ImageBuffer::from_raw`: an RGBA image over `rgba`, which it accepts when
/// the buffer holds at least `4 * width * height` bytes (a size that must fit
/// in `usize`). The image keeps `rgba` and its dimensions as given.
#[verifier::external_body]
fn image_from_raw(width: u32, height: u32, rgba: Vec<u8>) -> (img: Option<RgbaPixels>)
    ensures
        img is Some <==> (4 * width <= usize::MAX && 4 * width * height <= rgba@.len()),
        img matches Some(i) ==> image_samples(i) == rgba@ && image_extent(i) == (width, height),
{
    match ImageBuffer::from_raw(width, height, rgba) {
        Some(inner) => Some(RgbaPixels { inner }),
        None => None,
    }
}

/// `ImageBuffer::write_to` with `ImageFormat::Png` into an in-memory buffer:
/// the PNG bytes, named `png_encoding` of the image's dimensions and samples,
/// or `None` when encoding fails, which the PNG writer does exactly for a
/// zero width or height. A `Vec` never holds more than `isize::MAX` bytes.
#[verifier::external_body]
fn encode_png(img: &RgbaPixels) -> (png: Option<Vec<u8>>)
    ensures
        match png {
            Some(b) => png_encoding(image_extent(*img).0, image_extent(*img).1, image_samples(*img))
                == Some(b@),
            None => png_encoding(
                image_extent(*img).0,
                image_extent(*img).1,
                image_samples(*img),
            ) is None,
        },
        png is Some <==> (image_extent(*img).0 != 0 && image_extent(*img).1 != 0),
        png matches Some(b) ==> b@.len() <= isize::MAX,
{
    let mut bytes: Vec<u8> = Vec::new();
    match img.inner.write_to(&mut std::io::Cursor::new(&mut bytes), image::ImageFormat::Png) {
        Ok(()) => Some(bytes),
        Err(_) => None,
    }
}

/// `base64::engine::general_purpose::STANDARD.encode`: the padded base64 text
/// of `bytes`. Encoding panics when the text's length
/// would overflow `usize`, which no input of at most `isize::MAX` bytes does.
#[verifier::external_body]
fn encode_base64(bytes: &[u8]) -> (text: String)
    requires
        bytes@.len() <= isize::MAX,
    ensures
        text@ == base64_standard(bytes@),
{
    base64::engine::general_purpose::STANDARD.encode(bytes)
}

/// The data URL prefix of a base64 PNG.
pub open spec fn png_data_url_prefix() -> Seq<char> {
    "data:image/png;base64,"@
}

/// The buffer holds a whole `width` x `height` RGBA image.
pub open spec fn holds_rgba_image(width: u32, height: u32, len: nat) -> bool {
    4 * width <= usize::MAX && 4 * width * height <= len
}

/// The data URL of a PNG whose base64 text is `base64_text`.
pub fn png_data_url(base64_text: &str) -> (url: String)
    ensures
        url@ == png_data_url_prefix() + base64_text@,
{
    let mut url = String::from_str("data:image/png;base64,");
    url.append(base64_text);
    url
}

/// An RGBA bitmap as a `data:image/png;base64,...` URL: `None` when the buffer
/// is too small for the dimensions or either dimension is zero.
pub fn rgba_to_png_base64(rgba: Vec<u8>, width: u32, height: u32) -> (r: Option<String>)
    ensures
        r is Some <==> (holds_rgba_image(width, height, rgba@.len()) && width != 0 && height
            != 0),
        r matches Some(url) ==> url@ == png_data_url_prefix() + base64_standard(
            png_encoding(width, height, rgba@)->0,
        ),
{
    let ghost samples = rgba@;
    let img = match image_from_raw(width, height, rgba) {
        Some(i) => i,
        None => return None,
    };
    let png = match encode_png(&img) {
        Some(b) => b,
        None => return None,
    };
    let text = encode_base64(png.as_slice());
    Some(png_data_url(text.as_str()))
}

/// Byte `i` of `b` once the first and third byte of every whole 4-byte
/// pixel are exchanged; bytes after the last whole pixel stay.
pub open spec fn swapped_byte(b: Seq<u8>, i: int) -> u8 {
    if i < b.len() - b.len() % 4 {
        if i % 4 == 0 {
            b[i + 2]
        } else if i % 4 == 2 {
            b[i - 2]
        } else {
            b[i]
        }
    } else {
        b[i]
    }
}

/// The bitmap `b` with red and blue exchanged in every whole pixel (BGRA to
/// RGBA, or back).
pub open spec fn swapped_red_blue(b: Seq<u8>) -> Seq<u8> {
    Seq::new(b.len(), |i: int| swapped_byte(b, i))
}

/// Converts a 32-bit BGRA bitmap to RGBA in place by exchanging the first and
/// third byte of every whole 4-byte pixel.
pub fn bgra_to_rgba(buffer: &mut Vec<u8>)
    ensures
        final(buffer)@ == swapped_red_blue(old(buffer)@),
        final(buffer)@.len() == old(buffer)@.len(),
        forall|p: int|
            0 <= p && 4 * p + 3 < old(buffer)@.len() ==> {
                &&& #[trigger] final(buffer)@[4 * p] == old(buffer)@[4 * p + 2]
                &&& final(buffer)@[4 * p + 1] == old(buffer)@[4 * p + 1]
                &&& final(buffer)@[4 * p + 2] == old(buffer)@[4 * p]
                &&& final(buffer)@[4 * p + 3] == old(buffer)@[4 * p + 3]
            },
        forall|j: int|
            old(buffer)@.len() - old(buffer)@.len() % 4 <= j < old(buffer)@.len() ==> {
                #[trigger] final(buffer)@[j] == old(buffer)@[j]
            },
{
    let ghost orig = buffer@;
    let n = buffer.len();
    let whole = n - n % 4;
    assert(whole % 4 == 0);
    let mut i: usize = 0;
    while i < whole
        invariant
            whole == orig.len() - orig.len() % 4,
            whole % 4 == 0,
            n == orig.len(),
            buffer@.len() == n,
            i <= whole,
            i % 4 == 0,
            forall|j: int| 0 <= j < i ==> #[trigger] buffer@[j] == swapped_byte(orig, j),
            forall|j: int| i <= j < n ==> #[trigger] buffer@[j] == orig[j],
        decreases whole - i,
    {
        assert(i + 4 <= whole);
        let b = buffer[i];
        let r = buffer[i + 2];
        buffer.set(i, r);
        buffer.set(i + 2, b);
        proof {
            assert forall|j: int| 0 <= j < i + 4 implies #[trigger] buffer@[j] == swapped_byte(
                orig,
                j,
            ) by {
                if j >= i {
                    assert(j % 4 == j - i);
                }
            }
        }
        i = i + 4;
    }
    assert(buffer@ =~= swapped_red_blue(orig));
    proof {
        assert forall|p: int| 0 <= p && 4 * p + 3 < n implies {
            &&& #[trigger] buffer@[4 * p] == orig[4 * p + 2]
            &&& buffer@[4 * p + 1] == orig[4 * p + 1]
            &&& buffer@[4 * p + 2] == orig[4 * p]
            &&& buffer@[4 * p + 3] == orig[4 * p + 3]
        } by {
            assert(4 * p + 3 < whole);
            assert((4 * p) % 4 == 0);
            assert((4 * p + 1) % 4 == 1);
            assert((4 * p + 2) % 4 == 2);
            assert((4 * p + 3) % 4 == 3);
        }
    }
}

/// Exchanging red and blue twice gives back the bitmap: BGRA to RGBA and
/// back is the identity.
pub proof fn lemma_swap_red_blue_involutive(b: Seq<u8>)
    ensures
        swapped_red_blue(swapped_red_blue(b)) == b,
{
    let s = swapped_red_blue(b);
    assert forall|i: int| 0 <= i < b.len() implies #[trigger] swapped_red_blue(s)[i] == b[i] by {
        if i < b.len() - b.len() % 4 {
            if i % 4 == 0 {
                assert((i + 2) % 4 == 2);
            } else if i % 4 == 2 {
                assert((i - 2) % 4 == 0);
            }
        }
    }
    assert(swapped_red_blue(s) =~= b);
}

} // verus!
