//! Pictures: what kind of file they are, how they are cut and encoded for a
//! model, and base64.

use crate::chars::{
    cat, cat3, chars_of, number_text, push_text, str_eq, string_of, text_from,
};
use crate::chars::decimal;
use crate::json::{flag_at, member, number_at, Json, JsonV};
use crate::stream::{wrap_sum, wrapped};
use vstd::prelude::*;

verus! {

/// The largest file that is read as a picture.
pub const MAX_MEDIA_FILE_BYTES: u64 = 104_857_600;

/// The most pixels that a picture may have.
pub const MAX_MEDIA_PIXELS: u64 = 100_000_000;

/// The longest edge of a picture that goes to a model.
pub const MEDIA_MAX_EDGE: u32 = 2000;

/// A PNG that is longer becomes a JPEG, if nothing in it is transparent.
pub const MAX_PNG_BYTES: usize = 4_194_304;

/// The quality of the JPEG files that are made for a model.
pub const JPEG_QUALITY: u8 = 85;

// ---------------------------------------------------------------------------
// The kind of a file
// ---------------------------------------------------------------------------

/// Whether bytes begin with others.
pub open spec fn begins_with(b: Seq<u8>, p: Seq<u8>) -> bool {
    b.len() >= p.len() && b.take(p.len() as int) == p
}

/// Whether bytes hold others at a place.
pub open spec fn holds_at(b: Seq<u8>, p: Seq<u8>, i: int) -> bool {
    b.len() >= i + p.len() && b.subrange(i, i + p.len()) == p
}

/// The kind of picture that the first bytes of a file tell.
pub open spec fn picture_kind(b: Seq<u8>) -> Option<Seq<char>> {
    if begins_with(b, seq![0x89u8, 0x50, 0x4E, 0x47, 0x0D, 0x0A, 0x1A, 0x0A]) {
        Some("image/png"@)
    } else if begins_with(b, seq![0xFFu8, 0xD8, 0xFF]) {
        Some("image/jpeg"@)
    } else if begins_with(b, seq![0x47u8, 0x49, 0x46, 0x38, 0x37, 0x61]) || begins_with(
        b,
        seq![0x47u8, 0x49, 0x46, 0x38, 0x39, 0x61],
    ) {
        Some("image/gif"@)
    } else if holds_at(b, seq![0x52u8, 0x49, 0x46, 0x46], 0) && holds_at(
        b,
        seq![0x57u8, 0x45, 0x42, 0x50],
        8,
    ) {
        Some("image/webp"@)
    } else {
        None
    }
}

fn found_at(b: &[u8], p: &[u8], i: usize) -> (r: bool)
    requires
        i <= 8,
        p@.len() <= 8,
    ensures
        r == holds_at(b@, p@, i as int),
{
    if b.len() < i + p.len() {
        return false;
    }
    let ghost part = b@.subrange(i as int, i as int + p@.len());
    for k in 0..p.len()
        invariant
            i <= 8,
            p@.len() <= 8,
            b@.len() >= i + p@.len(),
            part == b@.subrange(i as int, i as int + p@.len()),
            forall|j: int| 0 <= j < k ==> part[j] == p@[j],
    {
        if b[i + k] != p[k] {
            proof {
                assert(part[k as int] != p@[k as int]);
            }
            return false;
        }
    }
    proof {
        assert(part =~= p@);
    }
    true
}

/// Tells the kind of picture from the first bytes of a file, whatever its
/// name.
pub fn sniff_image(bytes: &[u8]) -> (r: Option<&'static str>)
    ensures
        match r {
            Some(m) => picture_kind(bytes@) == Some(m@),
            None => picture_kind(bytes@) is None,
        },
{
    let png: [u8; 8] = [0x89, 0x50, 0x4E, 0x47, 0x0D, 0x0A, 0x1A, 0x0A];
    let jpeg: [u8; 3] = [0xFF, 0xD8, 0xFF];
    let gif87: [u8; 6] = [0x47, 0x49, 0x46, 0x38, 0x37, 0x61];
    let gif89: [u8; 6] = [0x47, 0x49, 0x46, 0x38, 0x39, 0x61];
    let riff: [u8; 4] = [0x52, 0x49, 0x46, 0x46];
    let webp: [u8; 4] = [0x57, 0x45, 0x42, 0x50];
    proof {
        assert(png@ =~= seq![0x89u8, 0x50, 0x4E, 0x47, 0x0D, 0x0A, 0x1A, 0x0A]);
        assert(jpeg@ =~= seq![0xFFu8, 0xD8, 0xFF]);
        assert(gif87@ =~= seq![0x47u8, 0x49, 0x46, 0x38, 0x37, 0x61]);
        assert(gif89@ =~= seq![0x47u8, 0x49, 0x46, 0x38, 0x39, 0x61]);
        assert(riff@ =~= seq![0x52u8, 0x49, 0x46, 0x46]);
        assert(webp@ =~= seq![0x57u8, 0x45, 0x42, 0x50]);
        assert(forall|p: Seq<u8>| #[trigger] begins_with(bytes@, p) == holds_at(bytes@, p, 0)) by {
            assert forall|p: Seq<u8>| #[trigger]
                begins_with(bytes@, p) == holds_at(bytes@, p, 0) by {
                if bytes@.len() >= p.len() {
                    assert(bytes@.take(p.len() as int) =~= bytes@.subrange(0, p.len() as int));
                }
            }
        }
    }
    if found_at(bytes, png.as_slice(), 0) {
        Some("image/png")
    } else if found_at(bytes, jpeg.as_slice(), 0) {
        Some("image/jpeg")
    } else if found_at(bytes, gif87.as_slice(), 0) || found_at(bytes, gif89.as_slice(), 0) {
        Some("image/gif")
    } else if found_at(bytes, riff.as_slice(), 0) && found_at(bytes, webp.as_slice(), 8) {
        Some("image/webp")
    } else {
        None
    }
}

// ---------------------------------------------------------------------------
// Base64
// ---------------------------------------------------------------------------

/// The digit of a number below sixty-four.
pub open spec fn digit64(n: int) -> char {
    if n < 26 {
        ('A' as u32 + n) as char
    } else if n < 52 {
        ('a' as u32 + n - 26) as char
    } else if n < 62 {
        ('0' as u32 + n - 52) as char
    } else if n == 62 {
        '+'
    } else {
        '/'
    }
}

/// Four digits for every three bytes; what is missing at the end is `=`.
pub open spec fn base64(b: Seq<u8>) -> Seq<char>
    decreases b.len(),
{
    if b.len() == 0 {
        Seq::empty()
    } else if b.len() == 1 {
        seq![digit64(b[0] as int / 4), digit64(b[0] as int % 4 * 16), '=', '=']
    } else if b.len() == 2 {
        seq![
            digit64(b[0] as int / 4),
            digit64(b[0] as int % 4 * 16 + b[1] as int / 16),
            digit64(b[1] as int % 16 * 4),
            '=',
        ]
    } else {
        seq![
            digit64(b[0] as int / 4),
            digit64(b[0] as int % 4 * 16 + b[1] as int / 16),
            digit64(b[1] as int % 16 * 4 + b[2] as int / 64),
            digit64(b[2] as int % 64),
        ] + base64(b.skip(3))
    }
}

fn digit_of(n: u8) -> (r: char)
    requires
        n < 64,
    ensures
        r == digit64(n as int),
{
    let c: u8 = if n < 26 {
        65 + n
    } else if n < 52 {
        71 + n
    } else if n < 62 {
        n - 4
    } else if n == 62 {
        43
    } else {
        47
    };
    c as char
}

/// Writes bytes in base64.
pub fn base64_encode(bytes: &[u8]) -> (r: String)
    ensures
        r@ == base64(bytes@),
{
    let mut out: Vec<char> = Vec::new();
    let n: usize = bytes.len();
    let mut i: usize = 0;
    proof {
        assert(bytes@.skip(0) =~= bytes@);
        assert(out@ + base64(bytes@) =~= base64(bytes@));
    }
    while n - i >= 3
        invariant
            i <= n,
            n == bytes@.len(),
            out@ + base64(bytes@.skip(i as int)) == base64(bytes@),
        decreases n - i,
    {
        let ghost before = out@;
        let ghost rest = bytes@.skip(i as int);
        let a = bytes[i];
        let b = bytes[i + 1];
        let c = bytes[i + 2];
        out.push(digit_of(a / 4));
        out.push(digit_of(a % 4 * 16 + b / 16));
        out.push(digit_of(b % 16 * 4 + c / 64));
        out.push(digit_of(c % 64));
        i = i + 3;
        proof {
            assert(rest[0] == a && rest[1] == b && rest[2] == c);
            assert(rest.skip(3) =~= bytes@.skip(i as int));
            assert(out@ + base64(bytes@.skip(i as int)) =~= before + base64(rest));
        }
    }
    let ghost before = out@;
    let ghost rest = bytes@.skip(i as int);
    if n - i == 1 {
        let a = bytes[i];
        out.push(digit_of(a / 4));
        out.push(digit_of(a % 4 * 16));
        out.push('=');
        out.push('=');
        proof {
            assert(rest[0] == a);
            assert(out@ =~= before + base64(rest));
        }
    } else if n - i == 2 {
        let a = bytes[i];
        let b = bytes[i + 1];
        out.push(digit_of(a / 4));
        out.push(digit_of(a % 4 * 16 + b / 16));
        out.push(digit_of(b % 16 * 4));
        out.push('=');
        proof {
            assert(rest[0] == a && rest[1] == b);
            assert(out@ =~= before + base64(rest));
        }
    } else {
        proof {
            assert(out@ =~= before + base64(rest));
        }
    }
    string_of(out.as_slice())
}

// ---------------------------------------------------------------------------
// The image library
// ---------------------------------------------------------------------------

/// The width and height that `image::ImageReader` reads from a file's head, or
/// the message of its error.
pub uninterp spec fn image_size(bytes: Seq<u8>) -> Result<(u32, u32), Seq<char>>;

/// Whether the picture that `image::ImageReader` decodes from a file has
/// transparency, or the message of its error.
pub uninterp spec fn image_alpha(bytes: Seq<u8>) -> Result<bool, Seq<char>>;

/// The PNG file that `image` makes of a file: the part of the picture at
/// `(x, y)` of size `w` by `h`; or the message of its error.
pub uninterp spec fn png_of(bytes: Seq<u8>, x: u32, y: u32, w: u32, h: u32) -> Result<
    Seq<u8>,
    Seq<char>,
>;

/// The PNG file that `image` makes of a file: the part of the picture at
/// `(x, y)` of size `w` by `h`, scaled to fit into `tw` by `th`; or the message
/// of its error.
pub uninterp spec fn scaled_png_of(
    bytes: Seq<u8>,
    x: u32,
    y: u32,
    w: u32,
    h: u32,
    tw: u32,
    th: u32,
) -> Result<Seq<u8>, Seq<char>>;

/// The JPEG file of a quality, without transparency, that `image` makes of a
/// file: the part of the picture at `(x, y)` of size `w` by `h`; or the message
/// of its error.
pub uninterp spec fn jpeg_of(
    bytes: Seq<u8>,
    x: u32,
    y: u32,
    w: u32,
    h: u32,
    quality: u8,
) -> Result<Seq<u8>, Seq<char>>;

/// The JPEG file of a quality, without transparency, that `image` makes of a
/// file: the part of the picture at `(x, y)` of size `w` by `h`, scaled to fit
/// into `tw` by `th`; or the message of its error.
pub uninterp spec fn scaled_jpeg_of(
    bytes: Seq<u8>,
    x: u32,
    y: u32,
    w: u32,
    h: u32,
    tw: u32,
    th: u32,
    quality: u8,
) -> Result<Seq<u8>, Seq<char>>;

/// Calls `image::ImageReader::into_dimensions` on the format that the bytes
/// tell: the size that the file's head gives. It depends on the bytes alone
/// and is named `image_size`.
#[verifier::external_body]
fn read_size(bytes: &[u8]) -> (r: Result<(u32, u32), String>)
    ensures
        match r {
            Ok(p) => image_size(bytes@) == Ok::<(u32, u32), Seq<char>>(p),
            Err(e) => image_size(bytes@) == Err::<(u32, u32), Seq<char>>(e@),
        },
{
    image::ImageReader::new(std::io::Cursor::new(bytes))
        .with_guessed_format()
        .map_err(|e| e.to_string())?
        .into_dimensions()
        .map_err(|e| e.to_string())
}

/// Calls `image::ImageReader::decode` on the format that the bytes tell, and
/// `has_alpha` on the colour type of the picture. It depends on the bytes
/// alone and is named `image_alpha`.
#[verifier::external_body]
fn read_alpha(bytes: &[u8]) -> (r: Result<bool, String>)
    ensures
        match r {
            Ok(b) => image_alpha(bytes@) == Ok::<bool, Seq<char>>(b),
            Err(e) => image_alpha(bytes@) == Err::<bool, Seq<char>>(e@),
        },
{
    image::ImageReader::new(std::io::Cursor::new(bytes))
        .with_guessed_format()
        .map_err(|e| e.to_string())?
        .decode()
        .map(|image| image.color().has_alpha())
        .map_err(|e| e.to_string())
}

/// Calls `image::DynamicImage::crop_imm` and `write_to` as PNG on the picture
/// that the bytes hold. The file that comes out, or the error's message,
/// depends on the arguments alone and is named `png_of`.
#[verifier::external_body]
fn write_png(bytes: &[u8], x: u32, y: u32, w: u32, h: u32) -> (r: Result<Vec<u8>, String>)
    ensures
        match r {
            Ok(v) => png_of(bytes@, x, y, w, h) == Ok::<Seq<u8>, Seq<char>>(v@),
            Err(e) => png_of(bytes@, x, y, w, h) == Err::<Seq<u8>, Seq<char>>(e@),
        },
{
    let mut out = std::io::Cursor::new(Vec::new());
    image::load_from_memory(bytes)
        .map_err(|e| e.to_string())?
        .crop_imm(x, y, w, h)
        .write_to(&mut out, image::ImageFormat::Png)
        .map_err(|e| e.to_string())?;
    Ok(out.into_inner())
}

/// Calls `image::DynamicImage::crop_imm`, `resize` with the triangle filter and
/// `write_to` as PNG on the picture that the bytes hold. The file that comes
/// out, or the error's message, depends on the arguments alone and is named
/// `scaled_png_of`.
#[verifier::external_body]
fn write_scaled_png(bytes: &[u8], x: u32, y: u32, w: u32, h: u32, tw: u32, th: u32) -> (r: Result<
    Vec<u8>,
    String,
>)
    requires
        tw >= 1,
        th >= 1,
        tw * th <= MAX_MEDIA_PIXELS,
    ensures
        match r {
            Ok(v) => scaled_png_of(bytes@, x, y, w, h, tw, th) == Ok::<Seq<u8>, Seq<char>>(v@),
            Err(e) => scaled_png_of(bytes@, x, y, w, h, tw, th) == Err::<Seq<u8>, Seq<char>>(e@),
        },
{
    let mut out = std::io::Cursor::new(Vec::new());
    image::load_from_memory(bytes)
        .map_err(|e| e.to_string())?
        .crop_imm(x, y, w, h)
        .resize(tw, th, image::imageops::FilterType::Triangle)
        .write_to(&mut out, image::ImageFormat::Png)
        .map_err(|e| e.to_string())?;
    Ok(out.into_inner())
}

/// Calls `image::DynamicImage::crop_imm` and `to_rgb8`, and encodes with
/// `image`'s `JpegEncoder` of the given quality. The file that comes out, or the
/// error's message, depends on the arguments alone and is named `jpeg_of`.
#[verifier::external_body]
fn write_jpeg(bytes: &[u8], x: u32, y: u32, w: u32, h: u32, quality: u8) -> (r: Result<
    Vec<u8>,
    String,
>)
    ensures
        match r {
            Ok(v) => jpeg_of(bytes@, x, y, w, h, quality) == Ok::<Seq<u8>, Seq<char>>(v@),
            Err(e) => jpeg_of(bytes@, x, y, w, h, quality) == Err::<Seq<u8>, Seq<char>>(e@),
        },
{
    let mut out = std::io::Cursor::new(Vec::new());
    let image = image::load_from_memory(bytes)
        .map_err(|e| e.to_string())?
        .crop_imm(x, y, w, h)
        .to_rgb8();
    image::codecs::jpeg::JpegEncoder::new_with_quality(&mut out, quality)
        .encode_image(&image)
        .map_err(|e| e.to_string())?;
    Ok(out.into_inner())
}

/// Calls `image::DynamicImage::crop_imm`, `resize` with the triangle filter and
/// `to_rgb8`, and encodes with `image`'s `JpegEncoder` of the given quality. The file
/// that comes out, or the error's message, depends on the arguments alone and
/// is named `scaled_jpeg_of`.
#[verifier::external_body]
fn write_scaled_jpeg(
    bytes: &[u8],
    x: u32,
    y: u32,
    w: u32,
    h: u32,
    tw: u32,
    th: u32,
    quality: u8,
) -> (r: Result<Vec<u8>, String>)
    requires
        tw >= 1,
        th >= 1,
        tw * th <= MAX_MEDIA_PIXELS,
    ensures
        match r {
            Ok(v) => scaled_jpeg_of(bytes@, x, y, w, h, tw, th, quality) == Ok::<Seq<u8>, Seq<char>>(v@),
            Err(e) => scaled_jpeg_of(bytes@, x, y, w, h, tw, th, quality) == Err::<Seq<u8>, Seq<char>>(e@),
        },
{
    let mut out = std::io::Cursor::new(Vec::new());
    let image = image::load_from_memory(bytes)
        .map_err(|e| e.to_string())?
        .crop_imm(x, y, w, h)
        .resize(tw, th, image::imageops::FilterType::Triangle)
        .to_rgb8();
    image::codecs::jpeg::JpegEncoder::new_with_quality(&mut out, quality)
        .encode_image(&image)
        .map_err(|e| e.to_string())?;
    Ok(out.into_inner())
}

/// The width and height of a picture; none where the bytes are no picture.
pub fn image_dimensions(bytes: &[u8]) -> (r: Option<(u32, u32)>)
    ensures
        r == match image_size(bytes@) {
            Ok(p) => Some(p),
            Err(_) => None,
        },
{
    match read_size(bytes) {
        Ok(p) => Some(p),
        Err(_) => None,
    }
}

// ---------------------------------------------------------------------------
// Encoding for a model
// ---------------------------------------------------------------------------

/// A part of a picture.
#[derive(Clone, Copy, Debug, PartialEq, Eq, Structural)]
pub struct Part {
    pub x: u32,
    pub y: u32,
    pub width: u32,
    pub height: u32,
}

/// A picture as it goes to a model.
#[derive(Debug, PartialEq)]
pub struct CompressedImage {
    pub bytes: Vec<u8>,
    pub media_type: String,
    pub width: u32,
    pub height: u32,
}

/// What a `CompressedImage` says.
#[verifier::ext_equal]
pub struct CompressedImageV {
    pub bytes: Seq<u8>,
    pub media_type: Seq<char>,
    pub width: u32,
    pub height: u32,
}

impl View for CompressedImage {
    type V = CompressedImageV;

    open spec fn view(&self) -> CompressedImageV {
        CompressedImageV {
            bytes: self.bytes@,
            media_type: self.media_type@,
            width: self.width,
            height: self.height,
        }
    }
}

/// A picture that a tool hands to the model.
#[derive(Debug, PartialEq)]
pub struct ToolImage {
    pub media_type: String,
    pub data_base64: String,
    pub width: u32,
    pub height: u32,
}

/// What a `ToolImage` says.
#[verifier::ext_equal]
pub struct ToolImageV {
    pub media_type: Seq<char>,
    pub data_base64: Seq<char>,
    pub width: u32,
    pub height: u32,
}

impl View for ToolImage {
    type V = ToolImageV;

    open spec fn view(&self) -> ToolImageV {
        ToolImageV {
            media_type: self.media_type@,
            data_base64: self.data_base64@,
            width: self.width,
            height: self.height,
        }
    }
}

/// Whether a picture is too large for a model without being scaled.
pub open spec fn is_large(width: u32, height: u32) -> bool {
    width > MEDIA_MAX_EDGE || height > MEDIA_MAX_EDGE
}

/// Whether a picture is too large for a model without being scaled.
pub fn needs_scaling(width: u32, height: u32) -> (r: bool)
    ensures
        r == is_large(width, height),
{
    width > MEDIA_MAX_EDGE || height > MEDIA_MAX_EDGE
}

/// A size in words.
pub open spec fn size_text(w: u32, h: u32) -> Seq<char> {
    decimal(w as nat) + "×"@ + decimal(h as nat)
}

fn size_words(w: u32, h: u32) -> (r: String)
    ensures
        r@ == size_text(w, h),
{
    cat3(number_text(w as u64).as_str(), "×", number_text(h as u64).as_str())
}

/// Whether a picture becomes a PNG: it does where something in it is
/// transparent, or where it comes from a format without loss.
pub open spec fn wants_png(alpha: bool, mime: Seq<char>) -> bool {
    alpha || mime == "image/png"@ || mime == "image/gif"@ || mime == "image/webp"@
}

/// The size of a part of a picture after it is scaled, if it is.
pub open spec fn size_at(part: Part, scaled: Option<(u32, u32)>) -> (u32, u32) {
    match scaled {
        Some(s) => s,
        None => (part.width, part.height),
    }
}

/// A part of a picture as a PNG file, scaled or as it is.
pub open spec fn png_at(bytes: Seq<u8>, p: Part, scaled: Option<(u32, u32)>) -> Result<
    Seq<u8>,
    Seq<char>,
> {
    match scaled {
        Some(s) => scaled_png_of(bytes, p.x, p.y, p.width, p.height, s.0, s.1),
        None => png_of(bytes, p.x, p.y, p.width, p.height),
    }
}

/// A part of a picture as a JPEG file, scaled or as it is.
pub open spec fn jpeg_at(bytes: Seq<u8>, p: Part, scaled: Option<(u32, u32)>) -> Result<
    Seq<u8>,
    Seq<char>,
> {
    match scaled {
        Some(s) => scaled_jpeg_of(
            bytes,
            p.x,
            p.y,
            p.width,
            p.height,
            s.0,
            s.1,
            JPEG_QUALITY,
        ),
        None => jpeg_of(bytes, p.x, p.y, p.width, p.height, JPEG_QUALITY),
    }
}

/// A picture in the format that suits it, scaled or as it is.
pub open spec fn encoded(
    bytes: Seq<u8>,
    part: Part,
    alpha: bool,
    mime: Seq<char>,
    scaled: Option<(u32, u32)>,
) -> Result<CompressedImageV, Seq<char>> {
    let png = png_at(bytes, part, scaled);
    let jpeg = jpeg_at(bytes, part, scaled);
    let (width, height) = size_at(part, scaled);
    if wants_png(alpha, mime) && png is Err {
        Err("图片编码失败: "@ + png->Err_0)
    } else if wants_png(alpha, mime) && (alpha || png->Ok_0.len() <= MAX_PNG_BYTES) {
        Ok(CompressedImageV { bytes: png->Ok_0, media_type: "image/png"@, width, height })
    } else {
        match jpeg {
            Err(e) => Err("图片编码失败: "@ + e),
            Ok(b) => Ok(CompressedImageV { bytes: b, media_type: "image/jpeg"@, width, height }),
        }
    }
}

/// How a part of a picture is scaled for a model: only where it is large.
pub open spec fn scaling(part: Part, scaled: (u32, u32)) -> Option<(u32, u32)> {
    if is_large(part.width, part.height) {
        Some(scaled)
    } else {
        None
    }
}

/// A picture for a model. `scaled` is the size that it is scaled to where it
/// is large.
pub open spec fn for_model(
    bytes: Seq<u8>,
    part: Part,
    alpha: bool,
    mime: Seq<char>,
    scaled: (u32, u32),
) -> Result<CompressedImageV, Seq<char>> {
    let (tw, th) = size_at(part, scaling(part, scaled));
    if tw * th > MAX_MEDIA_PIXELS {
        Err("图片过大（"@ + size_text(tw, th) + "），请用 region 参数裁剪局部"@)
    } else {
        encoded(bytes, part, alpha, mime, scaling(part, scaled))
    }
}

fn encode_at(
    bytes: &[u8],
    part: Part,
    alpha: bool,
    mime: &str,
    scaled: Option<(u32, u32)>,
) -> (r: Result<CompressedImage, String>)
    requires
        scaled matches Some(s) ==> s.0 >= 1 && s.1 >= 1 && s.0 * s.1 <= MAX_MEDIA_PIXELS,
    ensures
        match r {
            Ok(c) => encoded(bytes@, part, alpha, mime@, scaled) == Ok::<CompressedImageV, Seq<char>>(
                c@,
            ),
            Err(e) => encoded(bytes@, part, alpha, mime@, scaled) == Err::<CompressedImageV, Seq<char>>(
                e@,
            ),
        },
{
    let png = alpha || str_eq(mime, "image/png") || str_eq(mime, "image/gif") || str_eq(
        mime,
        "image/webp",
    );
    let (width, height) = match scaled {
        Some(s) => s,
        None => (part.width, part.height),
    };
    if png {
        let file = match scaled {
            Some(s) => write_scaled_png(
                bytes,
                part.x,
                part.y,
                part.width,
                part.height,
                s.0,
                s.1,
            ),
            None => write_png(bytes, part.x, part.y, part.width, part.height),
        };
        match file {
            Err(e) => return Err(cat("图片编码失败: ", e.as_str())),
            Ok(v) => {
                if alpha || v.len() <= MAX_PNG_BYTES {
                    return Ok(
                        CompressedImage {
                            bytes: v,
                            media_type: text_from("image/png"),
                            width,
                            height,
                        },
                    );
                }
            },
        }
    }
    let file = match scaled {
        Some(s) => write_scaled_jpeg(
            bytes,
            part.x,
            part.y,
            part.width,
            part.height,
            s.0,
            s.1,
            JPEG_QUALITY,
        ),
        None => write_jpeg(bytes, part.x, part.y, part.width, part.height, JPEG_QUALITY),
    };
    match file {
        Err(e) => Err(cat("图片编码失败: ", e.as_str())),
        Ok(v) => Ok(
            CompressedImage { bytes: v, media_type: text_from("image/jpeg"), width, height },
        ),
    }
}

/// Encodes a part of a picture for a model. `alpha` says whether the picture
/// has transparency, and `scaled` is the size to which it is scaled where its
/// longest edge exceeds the limit.
pub fn encode_image_for_model(
    bytes: &[u8],
    part: Part,
    alpha: bool,
    source_mime: &str,
    scaled: (u32, u32),
) -> (r: Result<CompressedImage, String>)
    requires
        scaled.0 >= 1,
        scaled.1 >= 1,
    ensures
        match r {
            Ok(c) => for_model(bytes@, part, alpha, source_mime@, scaled) == Ok::<CompressedImageV, Seq<char>>(
                c@,
            ),
            Err(e) => for_model(bytes@, part, alpha, source_mime@, scaled) == Err::<CompressedImageV, Seq<char>>(
                e@,
            ),
        },
{
    let at: Option<(u32, u32)> = if needs_scaling(part.width, part.height) {
        Some(scaled)
    } else {
        None
    };
    let (tw, th) = match at {
        Some(s) => s,
        None => (part.width, part.height),
    };
    proof {
        assert(tw * th <= u32::MAX * u32::MAX) by (nonlinear_arith)
            requires
                tw <= u32::MAX,
                th <= u32::MAX,
        ;
        assert(u32::MAX * u32::MAX <= u64::MAX);
    }
    if tw as u64 * th as u64 > MAX_MEDIA_PIXELS {
        return Err(
            cat3("图片过大（", size_words(tw, th).as_str(), "），请用 region 参数裁剪局部"),
        );
    }
    encode_at(bytes, part, alpha, source_mime, at)
}

/// What is known of a picture before it is encoded.
#[derive(Debug, PartialEq)]
pub struct Picture {
    pub mime: String,
    pub width: u32,
    pub height: u32,
    pub alpha: bool,
}

/// What a `Picture` says.
#[verifier::ext_equal]
pub struct PictureV {
    pub mime: Seq<char>,
    pub width: u32,
    pub height: u32,
    pub alpha: bool,
}

impl View for Picture {
    type V = PictureV;

    open spec fn view(&self) -> PictureV {
        PictureV { mime: self.mime@, width: self.width, height: self.height, alpha: self.alpha }
    }
}

/// What is known of a picture of a kind; `hint` ends the note on one that is
/// too large.
pub open spec fn known(bytes: Seq<u8>, mime: Seq<char>, hint: Seq<char>) -> Result<
    PictureV,
    Seq<char>,
> {
    match image_size(bytes) {
        Err(e) => Err("图片解析失败: "@ + e),
        Ok((w, h)) => if w * h > MAX_MEDIA_PIXELS {
            Err("图片过大（"@ + size_text(w, h) + hint)
        } else {
            match image_alpha(bytes) {
                Err(e) => Err("图片解码失败: "@ + e),
                Ok(alpha) => Ok(PictureV { mime, width: w, height: h, alpha }),
            }
        },
    }
}

fn examine(bytes: &[u8], mime: &str, hint: &str) -> (r: Result<Picture, String>)
    ensures
        match r {
            Ok(p) => known(bytes@, mime@, hint@) == Ok::<PictureV, Seq<char>>(p@),
            Err(e) => known(bytes@, mime@, hint@) == Err::<PictureV, Seq<char>>(e@),
        },
{
    let (w, h) = match read_size(bytes) {
        Ok(p) => p,
        Err(e) => return Err(cat("图片解析失败: ", e.as_str())),
    };
    proof {
        assert(w * h <= u32::MAX * u32::MAX) by (nonlinear_arith)
            requires
                w <= u32::MAX,
                h <= u32::MAX,
        ;
    }
    if w as u64 * h as u64 > MAX_MEDIA_PIXELS {
        return Err(cat3("图片过大（", size_words(w, h).as_str(), hint));
    }
    match read_alpha(bytes) {
        Err(e) => Err(cat("图片解码失败: ", e.as_str())),
        Ok(alpha) => Ok(Picture { mime: text_from(mime), width: w, height: h, alpha }),
    }
}

/// The kind of a picture that was pasted: the one that is said, or else the
/// one that its bytes tell.
pub open spec fn pasted(bytes: Seq<u8>, mime: Seq<char>) -> Result<PictureV, Seq<char>> {
    if mime.len() > 0 {
        known(bytes, mime, "）"@)
    } else {
        match picture_kind(bytes) {
            Some(m) => known(bytes, m, "）"@),
            None => Err("不是可识别的图片（支持 PNG/JPEG/GIF/WebP）"@),
        }
    }
}

/// Examines a picture that was pasted, before it is encoded for a model.
pub fn examine_pasted(bytes: &[u8], source_mime: &str) -> (r: Result<Picture, String>)
    ensures
        match r {
            Ok(p) => pasted(bytes@, source_mime@) == Ok::<PictureV, Seq<char>>(p@),
            Err(e) => pasted(bytes@, source_mime@) == Err::<PictureV, Seq<char>>(e@),
        },
{
    if chars_of(source_mime).len() > 0 {
        return examine(bytes, source_mime, "）");
    }
    match sniff_image(bytes) {
        Some(m) => examine(bytes, m, "）"),
        None => Err(text_from("不是可识别的图片（支持 PNG/JPEG/GIF/WebP）")),
    }
}

/// The whole of a picture.
pub open spec fn whole(p: PictureV) -> Part {
    Part { x: 0, y: 0, width: p.width, height: p.height }
}

/// A pasted picture for a model; `scaled` is the size to which a large one is
/// scaled.
pub open spec fn pasted_for_model(bytes: Seq<u8>, mime: Seq<char>, scaled: (u32, u32)) -> Result<
    CompressedImageV,
    Seq<char>,
> {
    match pasted(bytes, mime) {
        Err(e) => Err(e),
        Ok(p) => for_model(bytes, whole(p), p.alpha, p.mime, scaled),
    }
}

/// Encodes a pasted picture for a model; `scaled` is the size to which a large
/// one is scaled.
pub fn compress_image_for_model(bytes: &[u8], source_mime: &str, scaled: (u32, u32)) -> (r: Result<
    CompressedImage,
    String,
>)
    requires
        scaled.0 >= 1,
        scaled.1 >= 1,
    ensures
        match r {
            Ok(c) => pasted_for_model(bytes@, source_mime@, scaled) == Ok::<
                CompressedImageV,
                Seq<char>,
            >(c@),
            Err(e) => pasted_for_model(bytes@, source_mime@, scaled) == Err::<
                CompressedImageV,
                Seq<char>,
            >(e@),
        },
{
    match examine_pasted(bytes, source_mime) {
        Err(e) => Err(e),
        Ok(p) => {
            let part = Part { x: 0, y: 0, width: p.width, height: p.height };
            encode_image_for_model(bytes, part, p.alpha, p.mime.as_str(), scaled)
        },
    }
}

// ---------------------------------------------------------------------------
// The tool that reads pictures
// ---------------------------------------------------------------------------

/// What a picture file is, or why it is not read.
pub open spec fn media_file(bytes: Seq<u8>) -> Result<PictureV, Seq<char>> {
    if bytes.len() > MAX_MEDIA_FILE_BYTES {
        Err("文件超过 100MB 上限（"@ + decimal(bytes.len() / 1024 / 1024) + "MB）"@)
    } else {
        match picture_kind(bytes) {
            None => Err("不是可识别的图片（支持 PNG/JPEG/GIF/WebP）；视频暂不支持"@),
            Some(m) => known(bytes, m, "），请用 region 参数裁剪局部"@),
        }
    }
}

/// A number that may be missing; zero then.
pub open spec fn or_zero(v: Option<u64>) -> u64 {
    match v {
        Some(n) => n,
        None => 0,
    }
}

/// A number, but at most `max`.
pub open spec fn at_most(n: u64, max: u32) -> u32 {
    if n <= max {
        n as u32
    } else {
        max
    }
}

/// The part of a picture that the arguments ask for, and the note on it: the
/// whole where they name no region, else what the region and the picture have
/// in common.
pub open spec fn asked_part(args: JsonV, width: u32, height: u32) -> Result<
    (Part, Seq<char>),
    Seq<char>,
> {
    match member(args, "region"@) {
        None => Ok((Part { x: 0, y: 0, width, height }, Seq::empty())),
        Some(region) => {
            let x = or_zero(number_at(region, "x"@));
            let y = or_zero(number_at(region, "y"@));
            let w = or_zero(number_at(region, "width"@));
            let h = or_zero(number_at(region, "height"@));
            let left = at_most(x, width);
            let top = at_most(y, height);
            let right = at_most(wrapped(x, w), width);
            let bottom = at_most(wrapped(y, h), height);
            if left >= right || top >= bottom {
                Err(
                    "裁剪区域（x="@ + decimal(x as nat) + ", y="@ + decimal(y as nat) + ", "@
                        + decimal(w as nat) + "×"@ + decimal(h as nat) + "）与图片（"@ + size_text(
                        width,
                        height,
                    ) + "）不相交"@,
                )
            } else {
                Ok(
                    (
                        Part {
                            x: left,
                            y: top,
                            width: (right - left) as u32,
                            height: (bottom - top) as u32,
                        },
                        "，裁剪 ("@ + decimal(x as nat) + ","@ + decimal(y as nat) + ")→("@ + decimal(
                            right as nat,
                        ) + ","@ + decimal(bottom as nat) + ")"@,
                    ),
                )
            }
        },
    }
}

fn zero_or(v: Option<u64>) -> (r: u64)
    ensures
        r == or_zero(v),
{
    match v {
        Some(n) => n,
        None => 0,
    }
}

fn capped(n: u64, max: u32) -> (r: u32)
    ensures
        r == at_most(n, max),
{
    if n <= max as u64 {
        n as u32
    } else {
        max
    }
}

/// Finds the part of a picture that the arguments ask for, and the note on it.
pub fn part_asked(args: &Json, width: u32, height: u32) -> (r: Result<(Part, String), String>)
    ensures
        match r {
            Ok((p, n)) => asked_part(args.says(), width, height) == Ok::<
                (Part, Seq<char>),
                Seq<char>,
            >((p, n@)),
            Err(e) => asked_part(args.says(), width, height) == Err::<
                (Part, Seq<char>),
                Seq<char>,
            >(e@),
        },
{
    let region = match args.get("region") {
        None => {
            let note = String::new();
            proof {
                assert(note@ =~= Seq::<char>::empty());
            }
            return Ok((Part { x: 0, y: 0, width, height }, note));
        },
        Some(r) => r,
    };
    let x = zero_or(region.u64_at("x"));
    let y = zero_or(region.u64_at("y"));
    let w = zero_or(region.u64_at("width"));
    let h = zero_or(region.u64_at("height"));
    let left = capped(x, width);
    let top = capped(y, height);
    let right = capped(wrap_sum(x, w), width);
    let bottom = capped(wrap_sum(y, h), height);
    if left >= right || top >= bottom {
        let mut out = chars_of("裁剪区域（x=");
        push_text(&mut out, number_text(x).as_str());
        push_text(&mut out, ", y=");
        push_text(&mut out, number_text(y).as_str());
        push_text(&mut out, ", ");
        push_text(&mut out, number_text(w).as_str());
        push_text(&mut out, "×");
        push_text(&mut out, number_text(h).as_str());
        push_text(&mut out, "）与图片（");
        push_text(&mut out, size_words(width, height).as_str());
        push_text(&mut out, "）不相交");
        return Err(string_of(out.as_slice()));
    }
    let mut note = chars_of("，裁剪 (");
    push_text(&mut note, number_text(x).as_str());
    push_text(&mut note, ",");
    push_text(&mut note, number_text(y).as_str());
    push_text(&mut note, ")→(");
    push_text(&mut note, number_text(right as u64).as_str());
    push_text(&mut note, ",");
    push_text(&mut note, number_text(bottom as u64).as_str());
    push_text(&mut note, ")");
    Ok(
        (
            Part { x: left, y: top, width: right - left, height: bottom - top },
            string_of(note.as_slice()),
        ),
    )
}

/// A picture file that is about to be read.
#[derive(Debug)]
pub struct MediaPlan {
    pub picture: Picture,
    pub part: Part,
    pub note: String,
    pub full_resolution: bool,
}

/// What a `MediaPlan` says.
#[verifier::ext_equal]
pub struct MediaPlanV {
    pub picture: PictureV,
    pub part: Part,
    pub note: Seq<char>,
    pub full_resolution: bool,
}

impl View for MediaPlan {
    type V = MediaPlanV;

    open spec fn view(&self) -> MediaPlanV {
        MediaPlanV {
            picture: self.picture@,
            part: self.part,
            note: self.note@,
            full_resolution: self.full_resolution,
        }
    }
}

/// What is to be read of a picture file.
pub open spec fn media_plan(args: JsonV, bytes: Seq<u8>) -> Result<MediaPlanV, Seq<char>> {
    match media_file(bytes) {
        Err(e) => Err(e),
        Ok(p) => match asked_part(args, p.width, p.height) {
            Err(e) => Err(e),
            Ok((part, note)) => Ok(
                MediaPlanV {
                    picture: p,
                    part,
                    note,
                    full_resolution: flag_at(args, "full_resolution"@) == Some(true),
                },
            ),
        },
    }
}

/// Decides what is to be read of a picture file.
pub fn plan_media(args: &Json, bytes: &[u8]) -> (r: Result<MediaPlan, String>)
    ensures
        match r {
            Ok(p) => media_plan(args.says(), bytes@) == Ok::<MediaPlanV, Seq<char>>(p@),
            Err(e) => media_plan(args.says(), bytes@) == Err::<MediaPlanV, Seq<char>>(e@),
        },
{
    let n: usize = bytes.len();
    if n as u64 > MAX_MEDIA_FILE_BYTES {
        return Err(
            cat3(
                "文件超过 100MB 上限（",
                number_text((n / 1024 / 1024) as u64).as_str(),
                "MB）",
            ),
        );
    }
    let mime = match sniff_image(bytes) {
        None => return Err(text_from("不是可识别的图片（支持 PNG/JPEG/GIF/WebP）；视频暂不支持")),
        Some(m) => m,
    };
    let picture = match examine(bytes, mime, "），请用 region 参数裁剪局部") {
        Err(e) => return Err(e),
        Ok(p) => p,
    };
    let (part, note) = match part_asked(args, picture.width, picture.height) {
        Err(e) => return Err(e),
        Ok(p) => p,
    };
    let full_resolution = match args.bool_at("full_resolution") {
        Some(b) => b,
        None => false,
    };
    Ok(MediaPlan { picture, part, note, full_resolution })
}

/// The picture that a plan gives; `scaled` is the size to which a large part
/// is scaled.
pub open spec fn planned_image(p: MediaPlanV, bytes: Seq<u8>, scaled: (u32, u32)) -> Result<
    CompressedImageV,
    Seq<char>,
> {
    if p.full_resolution {
        encoded(bytes, p.part, p.picture.alpha, p.picture.mime, None)
    } else {
        for_model(bytes, p.part, p.picture.alpha, p.picture.mime, scaled)
    }
}

/// What the tool reports of a picture that it read.
pub open spec fn media_report(p: MediaPlanV, path: Seq<char>, c: CompressedImageV) -> Seq<char> {
    "已读取图片 "@ + path + "（原始 "@ + size_text(p.picture.width, p.picture.height) + p.note
        + " → 输出 "@ + size_text(c.width, c.height) + "，"@ + c.media_type + "，"@ + decimal(
        c.bytes.len() / 1024,
    ) + "KB）"@
}

/// The picture as it goes to the model.
pub open spec fn tool_image(c: CompressedImageV) -> ToolImageV {
    ToolImageV {
        media_type: c.media_type,
        data_base64: base64(c.bytes),
        width: c.width,
        height: c.height,
    }
}

/// Reads a picture file: what the tool reports and the picture for the model.
pub fn read_media(plan: &MediaPlan, path: &str, bytes: &[u8], scaled: (u32, u32)) -> (r: Result<
    (String, ToolImage),
    String,
>)
    requires
        scaled.0 >= 1,
        scaled.1 >= 1,
    ensures
        match planned_image(plan@, bytes@, scaled) {
            Err(e) => r is Err && r->Err_0@ == e,
            Ok(c) => r is Ok && r->Ok_0.0@ == media_report(plan@, path@, c) && r->Ok_0.1@
                == tool_image(c),
        },
{
    let result = if plan.full_resolution {
        encode_at(bytes, plan.part, plan.picture.alpha, plan.picture.mime.as_str(), None)
    } else {
        encode_image_for_model(
            bytes,
            plan.part,
            plan.picture.alpha,
            plan.picture.mime.as_str(),
            scaled,
        )
    };
    let c = match result {
        Err(e) => return Err(e),
        Ok(c) => c,
    };
    let mut out = chars_of("已读取图片 ");
    push_text(&mut out, path);
    push_text(&mut out, "（原始 ");
    push_text(&mut out, size_words(plan.picture.width, plan.picture.height).as_str());
    push_text(&mut out, plan.note.as_str());
    push_text(&mut out, " → 输出 ");
    push_text(&mut out, size_words(c.width, c.height).as_str());
    push_text(&mut out, "，");
    push_text(&mut out, c.media_type.as_str());
    push_text(&mut out, "，");
    let n: usize = c.bytes.len();
    push_text(&mut out, number_text((n / 1024) as u64).as_str());
    push_text(&mut out, "KB）");
    let image = ToolImage {
        media_type: c.media_type.clone(),
        data_base64: base64_encode(c.bytes.as_slice()),
        width: c.width,
        height: c.height,
    };
    Ok((string_of(out.as_slice()), image))
}

// ---------------------------------------------------------------------------
// Laws
// ---------------------------------------------------------------------------

/// The number of a digit of base64.
pub open spec fn value64(c: char) -> int {
    if 'A' <= c && c <= 'Z' {
        c as u32 - 'A' as u32
    } else if 'a' <= c && c <= 'z' {
        c as u32 - 'a' as u32 + 26
    } else if '0' <= c && c <= '9' {
        c as u32 - '0' as u32 + 52
    } else if c == '+' {
        62
    } else {
        63
    }
}

/// The bytes that digits of base64 write, four digits at a time.
pub open spec fn unbase64(s: Seq<char>) -> Seq<u8>
    decreases s.len(),
{
    if s.len() < 4 {
        Seq::empty()
    } else {
        let a = value64(s[0]);
        let b = value64(s[1]);
        let c = value64(s[2]);
        let d = value64(s[3]);
        if s[2] == '=' {
            seq![(a * 4 + b / 16) as u8]
        } else if s[3] == '=' {
            seq![(a * 4 + b / 16) as u8, (b % 16 * 16 + c / 4) as u8]
        } else {
            seq![(a * 4 + b / 16) as u8, (b % 16 * 16 + c / 4) as u8, (c % 4 * 64 + d) as u8]
                + unbase64(s.skip(4))
        }
    }
}

proof fn lemma_digit64(n: int)
    requires
        0 <= n < 64,
    ensures
        value64(digit64(n)) == n,
        digit64(n) != '=',
{
}

// ---------------------------------------------------------------------------
// Pictures that the user pastes
// ---------------------------------------------------------------------------

/// What the name of the file of a picture ends in.
pub open spec fn kept_ending(media_type: Seq<char>) -> Seq<char> {
    if media_type == "image/png"@ {
        "png"@
    } else {
        "jpg"@
    }
}

/// Names the file in which the picture `n` is kept as the model gets it.
pub fn kept_name(n: u64, media_type: &str) -> (r: String)
    ensures
        r@ == decimal(n as nat) + "."@ + kept_ending(media_type@),
{
    let ending = if str_eq(media_type, "image/png") {
        "png"
    } else {
        "jpg"
    };
    cat3(number_text(n).as_str(), ".", ending)
}

/// What the name of the file of a picture as it was pasted ends in.
pub open spec fn pasted_ending(mime: Seq<char>) -> Seq<char> {
    if mime == "image/jpeg"@ {
        "jpg"@
    } else if mime == "image/gif"@ {
        "gif"@
    } else if mime == "image/webp"@ {
        "webp"@
    } else {
        "png"@
    }
}

/// Names the file in which the picture `n` is kept as it was pasted.
pub fn pasted_name(n: u64, mime: &str) -> (r: String)
    ensures
        r@ == decimal(n as nat) + ".orig."@ + pasted_ending(mime@),
{
    let ending = if str_eq(mime, "image/jpeg") {
        "jpg"
    } else if str_eq(mime, "image/gif") {
        "gif"
    } else if str_eq(mime, "image/webp") {
        "webp"
    } else {
        "png"
    };
    cat3(number_text(n).as_str(), ".orig.", ending)
}

/// The kind of a pasted picture: by its bytes, or as it was said.
pub open spec fn pasted_kind(bytes: Seq<u8>, mime: Seq<char>) -> Seq<char> {
    match picture_kind(bytes) {
        Some(k) => k,
        None => mime,
    }
}

/// The size of a pasted picture; zero where it cannot be told.
pub open spec fn pasted_size(bytes: Seq<u8>) -> (u32, u32) {
    match image_size(bytes) {
        Ok(p) => p,
        Err(_) => (0, 0),
    }
}

/// A pasted picture that the model does not get as it was.
#[derive(Debug, PartialEq)]
pub struct Pasted {
    pub mime: String,
    pub width: u32,
    pub height: u32,
}

/// Finds what a pasted picture was, where the model does not get it as it was.
pub fn changed_picture(bytes: &[u8], mime: &str, sent: &CompressedImage) -> (r: Option<Pasted>)
    ensures
        ({
            let kind = pasted_kind(bytes@, mime@);
            let size = pasted_size(bytes@);
            match r {
                Some(p) => (size != (sent.width, sent.height) || kind != sent.media_type@)
                    && p.mime@ == kind && (p.width, p.height) == size,
                None => size == (sent.width, sent.height) && kind == sent.media_type@,
            }
        }),
{
    let kind = match sniff_image(bytes) {
        Some(k) => text_from(k),
        None => text_from(mime),
    };
    let (width, height): (u32, u32) = match image_dimensions(bytes) {
        Some(p) => p,
        None => (0, 0),
    };
    if width == sent.width && height == sent.height && str_eq(
        kind.as_str(),
        sent.media_type.as_str(),
    ) {
        return None;
    }
    Some(Pasted { mime: kind, width, height })
}

/// What the model is told of a picture that it does not get as it was pasted.
pub open spec fn changed_note(
    index: u64,
    mime: Seq<char>,
    size: (u32, u32),
    sent: CompressedImageV,
    kept: Option<Seq<char>>,
) -> Seq<char> {
    "\n[图片 "@ + decimal(index as nat) + " 已压缩以适应模型限制：原始 "@ + decimal(size.0 as nat)
        + "×"@ + decimal(size.1 as nat) + " "@ + mime + " → 发送 "@ + decimal(sent.width as nat)
        + "×"@ + decimal(sent.height as nat) + " "@ + sent.media_type + "（"@ + decimal(
        sent.bytes.len() / 1024,
    ) + "KB），细节可能丢失"@ + (match kept {
        Some(path) => "；原图已存到 "@ + path
            + "，需要看清细节（例如小字）可用 ReadMediaFile 对该路径用 region 裁剪查看"@,
        None => "；原图未保留"@,
    }) + "]"@
}

/// Tells the model of a picture that it does not get as it was pasted. `kept`
/// is where the pasted one lies, where it could be kept.
pub fn compression_note(index: u64, was: &Pasted, sent: &CompressedImage, kept: Option<&str>) -> (r:
    String)
    ensures
        r@ == changed_note(
            index,
            was.mime@,
            (was.width, was.height),
            sent@,
            match kept {
                Some(p) => Some(p@),
                None => None,
            },
        ),
{
    let mut out = chars_of("\n[图片 ");
    push_text(&mut out, number_text(index).as_str());
    push_text(&mut out, " 已压缩以适应模型限制：原始 ");
    push_text(&mut out, number_text(was.width as u64).as_str());
    push_text(&mut out, "×");
    push_text(&mut out, number_text(was.height as u64).as_str());
    push_text(&mut out, " ");
    push_text(&mut out, was.mime.as_str());
    push_text(&mut out, " → 发送 ");
    push_text(&mut out, number_text(sent.width as u64).as_str());
    push_text(&mut out, "×");
    push_text(&mut out, number_text(sent.height as u64).as_str());
    push_text(&mut out, " ");
    push_text(&mut out, sent.media_type.as_str());
    push_text(&mut out, "（");
    push_text(&mut out, number_text((sent.bytes.len() / 1024) as u64).as_str());
    push_text(&mut out, "KB），细节可能丢失");
    match kept {
        Some(path) => {
            push_text(&mut out, "；原图已存到 ");
            push_text(&mut out, path);
            push_text(
                &mut out,
                "，需要看清细节（例如小字）可用 ReadMediaFile 对该路径用 region 裁剪查看",
            );
        },
        None => {
            push_text(&mut out, "；原图未保留");
        },
    }
    push_text(&mut out, "]");
    let r = string_of(out.as_slice());
    proof {
        assert(r@ =~= changed_note(
            index,
            was.mime@,
            (was.width, was.height),
            sent@,
            match kept {
                Some(p) => Some(p@),
                None => None,
            },
        ));
    }
    r
}

/// Base64 gives back the bytes that were written in it, and its length is a
/// multiple of four, one group for every three bytes that were begun.
pub proof fn law_base64_reads_back(b: Seq<u8>)
    ensures
        unbase64(base64(b)) == b,
        base64(b).len() == 4 * ((b.len() + 2) / 3),
    decreases b.len(),
{
    let s = base64(b);
    if b.len() == 1 {
        lemma_digit64(b[0] as int / 4);
        lemma_digit64(b[0] as int % 4 * 16);
        assert(unbase64(s) =~= b);
    } else if b.len() == 2 {
        lemma_digit64(b[0] as int / 4);
        lemma_digit64(b[0] as int % 4 * 16 + b[1] as int / 16);
        lemma_digit64(b[1] as int % 16 * 4);
        assert(unbase64(s) =~= b);
    } else if b.len() >= 3 {
        lemma_digit64(b[0] as int / 4);
        lemma_digit64(b[0] as int % 4 * 16 + b[1] as int / 16);
        lemma_digit64(b[1] as int % 16 * 4 + b[2] as int / 64);
        lemma_digit64(b[2] as int % 64);
        law_base64_reads_back(b.skip(3));
        assert(s.skip(4) =~= base64(b.skip(3)));
        assert(unbase64(s) =~= b);
    } else {
        assert(unbase64(s) =~= b);
    }
}

/// The part that is cut out lies in the picture and is not empty, unless the
/// picture is.
pub proof fn law_part_lies_inside(args: JsonV, width: u32, height: u32)
    ensures
        match asked_part(args, width, height) {
            Ok((p, _)) => p.x + p.width <= width && p.y + p.height <= height && (member(
                args,
                "region"@,
            ) is Some ==> p.width > 0 && p.height > 0),
            Err(_) => member(args, "region"@) is Some,
        },
{
}

/// A region that lies within a picture is cut out just so; no region means the
/// whole.
pub proof fn law_region_is_cut_out(
    args: JsonV,
    region: JsonV,
    x: u32,
    y: u32,
    w: u32,
    h: u32,
    width: u32,
    height: u32,
)
    requires
        w > 0,
        h > 0,
        x + w <= width,
        y + h <= height,
    ensures
        member(args, "region"@) == Some(region) && number_at(region, "x"@) == Some(x as u64)
            && number_at(region, "y"@) == Some(y as u64) && number_at(region, "width"@) == Some(
            w as u64,
        ) && number_at(region, "height"@) == Some(h as u64) ==> (asked_part(args, width, height)
            matches Ok((p, _)) && p.x == x && p.y == y && p.width == w && p.height == h),
        member(args, "region"@) is None ==> (asked_part(args, width, height) matches Ok((p, note))
            && p.x == 0 && p.y == 0 && p.width == width && p.height == height && note.len() == 0),
{
}

/// A picture with transparency is always given as PNG; where it is not large it
/// is given in its own size, and a large one in the size that it is scaled to.
pub proof fn law_picture_is_given(
    bytes: Seq<u8>,
    part: Part,
    alpha: bool,
    mime: Seq<char>,
    scaled: (u32, u32),
)
    ensures
        for_model(bytes, part, alpha, mime, scaled) matches Ok(c) ==> {
            &&& part.width <= 2000 && part.height <= 2000 ==> c.width == part.width && c.height
                == part.height
            &&& part.width > 2000 || part.height > 2000 ==> (c.width, c.height) == scaled
            &&& alpha ==> c.media_type == "image/png"@
            &&& c.media_type == "image/png"@ || c.media_type == "image/jpeg"@
            &&& c.width * c.height <= 100_000_000
            &&& tool_image(c).media_type == c.media_type && tool_image(c).width == c.width
                && tool_image(c).height == c.height && unbase64(tool_image(c).data_base64)
                == c.bytes
        },
{
    match for_model(bytes, part, alpha, mime, scaled) {
        Ok(c) => {
            law_base64_reads_back(c.bytes);
        },
        Err(_e) => {},
    }
}

} // verus!
