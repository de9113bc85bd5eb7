//! Bounding the size of downloaded screenshots.
//!
//! Screenshots are served at full size, some 4000px wide or more: a
//! 14-megapixel decode every time one scrolls into view. Each is decoded,
//! narrowed to the widest size ever drawn, and re-encoded as PNG once, when
//! it is fetched; every later decode is then cheap. The download and the
//! cache live outside; the decisions and the image work are here.

use vstd::prelude::*;
use vstd::std_specs::hash::DefaultHasherAdditionalSpecFns;

verus! {

/// Refuse absurdly large images rather than fill the cache with one file.
pub const MAX_BYTES: u64 = 12 * 1024 * 1024;

/// Widest a screenshot is ever drawn.
pub const MAX_WIDTH: u32 = 1600;

/// Whether a download of `len` bytes may be kept.
pub fn within_download_limit(len: u64) -> (b: bool)
    ensures
        b == (len <= MAX_BYTES),
{
    len <= MAX_BYTES
}

/// Whether a declared content length already rules a download out.
pub fn declared_too_large(declared: Option<u64>) -> (b: bool)
    ensures
        b == (declared matches Some(n) && n > MAX_BYTES),
{
    match declared {
        Some(n) => n > MAX_BYTES,
        None => false,
    }
}

/// The size an image of `width` by `height` is narrowed to: the maximum
/// width, with the height scaled in proportion; `None` when it is narrow
/// enough already.
pub open spec fn scaled(width: u32, height: u32) -> Option<(u32, u32)> {
    if width > MAX_WIDTH {
        Some((MAX_WIDTH, ((height as int * MAX_WIDTH as int) / width as int) as u32))
    } else {
        None
    }
}

/// The bounds an image is resized to, if it needs resizing at all.
pub fn scaled_size(width: u32, height: u32) -> (r: Option<(u32, u32)>)
    ensures
        r == scaled(width, height),
{
    if width > MAX_WIDTH {
        let hh: u64 = height as u64;
        assert(hh * 1600 <= 0xffff_ffff * 1600) by (nonlinear_arith)
            requires
                hh <= 0xffff_ffff,
        ;
        let h = hh * 1600 / (width as u64);
        assert(h <= height) by (nonlinear_arith)
            requires
                width > 1600,
                h == (height as int * 1600) / width as int,
        ;
        Some((MAX_WIDTH, h as u32))
    } else {
        None
    }
}

/// Whether `bytes` hold an image in a format the `image` crate decodes.
pub uninterp spec fn decodes(bytes: Seq<u8>) -> bool;

/// Width and height of the image `bytes` decode to.
pub uninterp spec fn image_size(bytes: Seq<u8>) -> (u32, u32);

/// The PNG encoding of the image `bytes` decode to; `None` when the bytes
/// do not decode or the encoder fails.
pub uninterp spec fn png_plain(bytes: Seq<u8>) -> Option<Seq<u8>>;

/// The PNG encoding of the image `bytes` decode to, resized with the
/// Lanczos filter to the largest size within `width` by `height` that
/// keeps its aspect ratio; `None` when the bytes do not decode or the
/// encoder fails.
pub uninterp spec fn png_scaled(bytes: Seq<u8>, width: u32, height: u32) -> Option<Seq<u8>>;

/// The bytes an optional buffer holds.
pub open spec fn opt_bytes(v: Option<Vec<u8>>) -> Option<Seq<u8>> {
    match v {
        Some(b) => Some(b@),
        None => None,
    }
}

/// `image::load_from_memory`, then `DynamicImage::width` and `height`: the
/// size of the image `bytes` decode to. The format is guessed from the
/// bytes, under the crate's default limits, so both whether it decodes and
/// the size depend on the bytes alone.
#[verifier::external_body]
fn decoded_size(bytes: &[u8]) -> (r: Option<(u32, u32)>)
    ensures
        r is Some <==> decodes(bytes@),
        r matches Some(size) ==> size == image_size(bytes@),
{
    image::load_from_memory(bytes).ok().map(|img| (img.width(), img.height()))
}

/// `image::load_from_memory`, then `DynamicImage::write_to` in PNG format
/// into a fresh buffer: the image re-encoded as it is.
#[verifier::external_body]
fn png_reencoded(bytes: &[u8]) -> (r: Option<Vec<u8>>)
    ensures
        opt_bytes(r) == png_plain(bytes@),
{
    let img = image::load_from_memory(bytes).ok()?;
    let mut out = std::io::Cursor::new(Vec::new());
    img.write_to(&mut out, image::ImageFormat::Png).ok()?;
    Some(out.into_inner())
}

/// `image::load_from_memory`, then `DynamicImage::resize` with the Lanczos
/// filter to fit `width` by `height` (which clamps each side to at least
/// one pixel), then `write_to` in PNG format into a fresh buffer.
#[verifier::external_body]
fn png_resized(bytes: &[u8], width: u32, height: u32) -> (r: Option<Vec<u8>>)
    ensures
        opt_bytes(r) == png_scaled(bytes@, width, height),
{
    let img = image::load_from_memory(bytes).ok()?;
    let resized = img.resize(width, height, image::imageops::FilterType::Lanczos3);
    let mut out = std::io::Cursor::new(Vec::new());
    resized.write_to(&mut out, image::ImageFormat::Png).ok()?;
    Some(out.into_inner())
}

/// What a screenshot is cached as: the PNG of the image narrowed to the
/// maximum width when it is wider, else the PNG of the image as it is.
pub open spec fn downscaled(bytes: Seq<u8>) -> Option<Seq<u8>> {
    let (width, height) = image_size(bytes);
    match scaled(width, height) {
        Some((w, h)) => png_scaled(bytes, w, h),
        None => png_plain(bytes),
    }
}

/// Decode, bound the width, and re-encode as PNG. PNG rather than JPEG:
/// these are screenshots of interfaces, where JPEG ringing shows. Images
/// already narrow enough are re-encoded too, so every cached file is known
/// to decode. Nothing comes back for bytes that do not decode.
pub fn downscale(bytes: &[u8]) -> (r: Option<Vec<u8>>)
    ensures
        !decodes(bytes@) ==> r is None,
        decodes(bytes@) ==> opt_bytes(r) == downscaled(bytes@),
{
    let (width, height) = match decoded_size(bytes) {
        Some(size) => size,
        None => {
            return None;
        },
    };
    match scaled_size(width, height) {
        Some((w, h)) => png_resized(bytes, w, h),
        None => png_reencoded(bytes),
    }
}

/// Lower-case hexadecimal digit for `d < 16`.
pub open spec fn hex_digit(d: nat) -> char {
    if d < 10 {
        ((d + '0' as nat) as u32) as char
    } else {
        ((d - 10 + 'a' as nat) as u32) as char
    }
}

/// The last `width` hexadecimal digits of `n`, zero-padded: `{:0width$x}`
/// for any `n` below `16^width`.
pub open spec fn hex_padded(n: nat, width: nat) -> Seq<char>
    decreases width,
{
    if width == 0 {
        Seq::empty()
    } else {
        hex_padded(n / 16, (width - 1) as nat).push(hex_digit(n % 16))
    }
}

/// Append the last `width` hexadecimal digits of `n`.
fn push_hex(s: &mut String, n: u64, width: u32)
    ensures
        final(s)@ == old(s)@ + hex_padded(n as nat, width as nat),
    decreases width,
{
    if width > 0 {
        push_hex(s, n / 16, width - 1);
        let d = n % 16;
        let c = if d == 0 { '0' } else if d == 1 { '1' } else if d == 2 { '2' } else if d == 3 {
            '3'
        } else if d == 4 { '4' } else if d == 5 { '5' } else if d == 6 { '6' } else if d == 7 {
            '7'
        } else if d == 8 { '8' } else if d == 9 { '9' } else if d == 10 { 'a' } else if d == 11 {
            'b'
        } else if d == 12 { 'c' } else if d == 13 { 'd' } else if d == 14 { 'e' } else { 'f' };
        assert(c == hex_digit((n % 16) as nat));
        crate::text::push_char(s, c);
    }
}

/// The writes `<str as Hash>::hash` makes to a hasher for a text: its
/// bytes, then a terminating byte.
pub uninterp spec fn str_hash_writes(text: Seq<char>) -> Seq<Seq<u8>>;

/// `<str as Hash>::hash` into a `DefaultHasher`: the writes it makes are
/// appended to the hasher's record of writes, and they depend on the text
/// alone.
#[verifier::external_body]
fn hash_text(hasher: &mut std::hash::DefaultHasher, text: &str)
    ensures
        final(hasher)@ == old(hasher)@ + str_hash_writes(text@),
{
    std::hash::Hash::hash(text, hasher)
}

/// The hash a fresh `DefaultHasher` gives a text.
pub open spec fn text_hash(text: Seq<char>) -> u64 {
    std::hash::DefaultHasher::spec_finish(str_hash_writes(text))
}

/// The cache file name of a screenshot URL: its hash under a fresh
/// `DefaultHasher`, as sixteen hexadecimal digits. A hash rather than the
/// URL itself, since URLs exceed the file name limit and hold path
/// separators.
pub fn cache_file_name(url: &str) -> (name: String)
    ensures
        name@ == hex_padded(text_hash(url@) as nat, 16),
        name@.len() == 16,
{
    let mut hasher = std::hash::DefaultHasher::new();
    hash_text(&mut hasher, url);
    assert(hasher@ =~= str_hash_writes(url@));
    let h = std::hash::Hasher::finish(&hasher);
    let mut name = String::new();
    push_hex(&mut name, h, 16);
    proof {
        lemma_hex_len(h as nat, 16);
    }
    name
}

proof fn lemma_hex_len(n: nat, width: nat)
    ensures
        hex_padded(n, width).len() == width,
    decreases width,
{
    if width > 0 {
        lemma_hex_len(n / 16, (width - 1) as nat);
    }
}

} // verus!
