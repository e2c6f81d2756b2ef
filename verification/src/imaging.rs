//! Pictures: PNG files from pixels and pixels from image files, Base64 text.

use base64::engine::general_purpose::STANDARD;
use base64::Engine;
use vstd::prelude::*;

verus! {

/// The bytes of an optional list of bytes.
pub open spec fn opt_bytes(o: Option<Vec<u8>>) -> Option<Seq<u8>> {
    match o {
        Some(b) => Some(b@),
        None => None,
    }
}

/// A picture as a triple of its bytes, width and height.
pub open spec fn opt_picture(o: Option<(Vec<u8>, u32, u32)>) -> Option<(Seq<u8>, u32, u32)> {
    match o {
        Some((b, w, h)) => Some((b@, w, h)),
        None => None,
    }
}

/// The PNG file that the `image` crate makes of the pixels of a picture of the
/// given width and height; `None` where it makes none.
pub uninterp spec fn png_file(rgba: Seq<u8>, w: u32, h: u32) -> Option<Seq<u8>>;

/// `RgbaImage::from_raw` and `ImageBuffer::write_to` with the PNG format: a
/// buffer with less than four bytes for each pixel makes no picture; otherwise
/// the file depends on the pixels and the size alone.
#[verifier::external_body]
fn image_png(rgba: Vec<u8>, w: u32, h: u32) -> (r: Option<Vec<u8>>)
    ensures
        opt_bytes(r) == png_file(rgba@, w, h),
        rgba@.len() < 4 * w * h ==> r is None,
{
    let picture = image::RgbaImage::from_raw(w, h, rgba)?;
    let mut out = std::io::Cursor::new(Vec::new());
    picture.write_to(&mut out, image::ImageFormat::Png).ok()?;
    Some(out.into_inner())
}

/// What the `image` crate reads in an image file: the pixels with the width and
/// the height, or its message.
pub uninterp spec fn image_pixels(file: Seq<u8>) -> Result<(Seq<u8>, u32, u32), Seq<char>>;

/// The views of a reading of an image file.
pub open spec fn pixels_view(r: Result<(Vec<u8>, u32, u32), String>) -> Result<
    (Seq<u8>, u32, u32),
    Seq<char>,
> {
    match r {
        Ok((px, w, h)) => Ok((px@, w, h)),
        Err(e) => Err(e@),
    }
}

/// `image::load_from_memory`, turned into pixels by `DynamicImage::to_rgba8`:
/// pixels, size or message depend on the bytes of the file alone.
#[verifier::external_body]
fn image_load(file: &[u8]) -> (r: Result<(Vec<u8>, u32, u32), String>)
    ensures
        pixels_view(r) == image_pixels(file@),
{
    let picture = image::load_from_memory(file).map_err(|e| e.to_string())?.to_rgba8();
    let (w, h) = picture.dimensions();
    Ok((picture.into_raw(), w, h))
}

/// The PNG file of a picture with its size.
pub open spec fn png_picture(rgba: Seq<u8>, w: u32, h: u32) -> Option<(Seq<u8>, u32, u32)> {
    match png_file(rgba, w, h) {
        Some(f) => Some((f, w, h)),
        None => None,
    }
}

/// Makes a PNG file of the pixels of a picture.
pub fn encode_png(rgba: Vec<u8>, w: u32, h: u32) -> (r: Option<(Vec<u8>, u32, u32)>)
    ensures
        opt_picture(r) == png_picture(rgba@, w, h),
        rgba@.len() < 4 * w * h ==> r is None,
{
    match image_png(rgba, w, h) {
        Some(f) => Some((f, w, h)),
        None => None,
    }
}

/// Reads the pixels of an image file.
pub fn decode_image(file: &[u8]) -> (r: Result<(Vec<u8>, u32, u32), String>)
    ensures
        pixels_view(r) == image_pixels(file@),
{
    image_load(file)
}

/// An image file of any kind, as a PNG file of the same picture.
pub open spec fn as_png(file: Seq<u8>) -> Option<(Seq<u8>, u32, u32)> {
    match image_pixels(file) {
        Ok((px, w, h)) => png_picture(px, w, h),
        Err(_) => None,
    }
}

/// Turns an image file of any kind into a PNG file of the same picture.
pub fn transcode_png(file: &[u8]) -> (r: Option<(Vec<u8>, u32, u32)>)
    ensures
        opt_picture(r) == as_png(file@),
{
    match decode_image(file) {
        Ok((px, w, h)) => encode_png(px, w, h),
        Err(_) => None,
    }
}

// ---------- Base64 ----------

/// The character for six bits.
pub open spec fn base64_digit(n: int) -> char {
    if n < 26 {
        (65 + n) as char
    } else if n < 52 {
        (97 + n - 26) as char
    } else if n < 62 {
        (48 + n - 52) as char
    } else if n == 62 {
        '+'
    } else {
        '/'
    }
}

/// The Base64 text of some bytes: four characters for three bytes, and `=` for what is
/// missing at the end.
pub open spec fn base64_text(data: Seq<u8>) -> Seq<char>
    decreases data.len(),
{
    if data.len() == 0 {
        seq![]
    } else if data.len() == 1 {
        let n = data[0] * 16;
        seq![base64_digit(n / 64), base64_digit(n % 64), '=', '=']
    } else if data.len() == 2 {
        let n = data[0] * 1024 + data[1] * 4;
        seq![base64_digit(n / 4096), base64_digit(n / 64 % 64), base64_digit(n % 64), '=']
    } else {
        let n = data[0] * 65536 + data[1] * 256 + data[2];
        seq![
            base64_digit(n / 262144),
            base64_digit(n / 4096 % 64),
            base64_digit(n / 64 % 64),
            base64_digit(n % 64),
        ] + base64_text(data.skip(3))
    }
}

/// The bytes that a Base64 text stands for; `None` where it stands for none.
pub open spec fn base64_bytes(text: Seq<char>) -> Option<Seq<u8>> {
    if exists|b: Seq<u8>| #[trigger] base64_text(b) == text {
        Some(choose|b: Seq<u8>| #[trigger] base64_text(b) == text)
    } else {
        None
    }
}

proof fn lemma_base64_digit(a: int, b: int)
    requires
        0 <= a < 64,
        0 <= b < 64,
    ensures
        base64_digit(a) == base64_digit(b) ==> a == b,
        base64_digit(a) != '=',
{
}

proof fn lemma_base64_single(a: u8, b: u8)
    requires
        base64_digit(a * 16 / 64) == base64_digit(b * 16 / 64),
        base64_digit(a * 16 % 64) == base64_digit(b * 16 % 64),
    ensures
        a == b,
{
    lemma_base64_digit(a * 16 / 64, b * 16 / 64);
    lemma_base64_digit(a * 16 % 64, b * 16 % 64);
}

proof fn lemma_base64_pair(m: int, n: int)
    requires
        0 <= m < 262144,
        0 <= n < 262144,
        base64_digit(m / 4096) == base64_digit(n / 4096),
        base64_digit(m / 64 % 64) == base64_digit(n / 64 % 64),
        base64_digit(m % 64) == base64_digit(n % 64),
    ensures
        m == n,
{
    lemma_base64_digit(m / 4096, n / 4096);
    lemma_base64_digit(m / 64 % 64, n / 64 % 64);
    lemma_base64_digit(m % 64, n % 64);
    assert(m / 4096 == m / 64 / 64);
    assert(n / 4096 == n / 64 / 64);
}

proof fn lemma_base64_triple(m: int, n: int)
    requires
        0 <= m < 16777216,
        0 <= n < 16777216,
        base64_digit(m / 262144) == base64_digit(n / 262144),
        base64_digit(m / 4096 % 64) == base64_digit(n / 4096 % 64),
        base64_digit(m / 64 % 64) == base64_digit(n / 64 % 64),
        base64_digit(m % 64) == base64_digit(n % 64),
    ensures
        m == n,
{
    lemma_base64_digit(m / 262144, n / 262144);
    lemma_base64_digit(m / 4096 % 64, n / 4096 % 64);
    lemma_base64_digit(m / 64 % 64, n / 64 % 64);
    lemma_base64_digit(m % 64, n % 64);
    assert(m / 262144 == m / 4096 / 64 && m / 4096 == m / 64 / 64);
    assert(n / 262144 == n / 4096 / 64 && n / 4096 == n / 64 / 64);
}

/// How the text of some bytes starts, by the number of the bytes.
proof fn lemma_base64_start(a: Seq<u8>)
    requires
        a.len() > 0,
    ensures
        base64_text(a).len() >= 4,
        base64_text(a)[3] == '=' <==> a.len() < 3,
        base64_text(a)[2] == '=' <==> a.len() < 2,
{
    if a.len() == 2 {
        let n = a[0] * 1024 + a[1] * 4;
        lemma_base64_digit(n % 64, 0);
    } else if a.len() > 2 {
        let n = a[0] * 65536 + a[1] * 256 + a[2];
        lemma_base64_digit(n % 64, 0);
        lemma_base64_digit(n / 64 % 64, 0);
    }
}

proof fn lemma_base64_one(a: Seq<u8>, b: Seq<u8>)
    requires
        base64_text(a) == base64_text(b),
    ensures
        a == b,
    decreases a.len(),
{
    let s = base64_text(a);
    let t = base64_text(b);
    if a.len() > 0 {
        lemma_base64_start(a);
    }
    if b.len() > 0 {
        lemma_base64_start(b);
    }
    if a.len() == 0 {
        assert(a =~= b);
    } else if a.len() == 1 {
        assert(s[0] == t[0] && s[1] == t[1]);
        lemma_base64_single(a[0], b[0]);
        assert(a =~= b);
    } else if a.len() == 2 {
        assert(s[0] == t[0] && s[1] == t[1] && s[2] == t[2]);
        lemma_base64_pair(a[0] * 1024 + a[1] * 4, b[0] * 1024 + b[1] * 4);
        assert(a =~= b);
    } else {
        assert(s[0] == t[0] && s[1] == t[1] && s[2] == t[2] && s[3] == t[3]);
        lemma_base64_triple(
            a[0] * 65536 + a[1] * 256 + a[2],
            b[0] * 65536 + b[1] * 256 + b[2],
        );
        assert(a[0] == b[0] && a[1] == b[1] && a[2] == b[2]);
        assert(s.skip(4) =~= base64_text(a.skip(3)));
        assert(t.skip(4) =~= base64_text(b.skip(3)));
        lemma_base64_one(a.skip(3), b.skip(3));
        assert(a =~= seq![a[0], a[1], a[2]] + a.skip(3));
        assert(b =~= seq![b[0], b[1], b[2]] + b.skip(3));
    }
}

/// What is written in Base64 reads back as it was.
pub proof fn base64_reads_back(data: Seq<u8>)
    ensures
        base64_bytes(base64_text(data)) == Some(data),
{
    let b = choose|b: Seq<u8>| #[trigger] base64_text(b) == base64_text(data);
    lemma_base64_one(b, data);
}

/// `Engine::encode` with the standard alphabet and padding.
#[verifier::external_body]
pub(crate) fn base64_encode(data: &[u8]) -> (r: String)
    requires
        data@.len() <= isize::MAX / 2,
    ensures
        r@ == base64_text(data@),
{
    STANDARD.encode(data)
}

/// `Engine::decode` with the standard alphabet and padding: exactly the texts that
/// encoding gives are read, and each as the bytes that it was made of.
#[verifier::external_body]
pub(crate) fn base64_decode(text: &str) -> (r: Option<Vec<u8>>)
    ensures
        opt_bytes(r) == base64_bytes(text@),
{
    STANDARD.decode(text).ok()
}

/// A file is turned into a PNG file by way of its pixels: of the same size, and only
/// where it can be read.
pub proof fn pictures_keep_their_size(file: Seq<u8>)
    ensures
        image_pixels(file) is Err ==> as_png(file) is None,
        image_pixels(file) matches Ok((px, w, h)) ==> {
            &&& png_file(px, w, h) is None ==> as_png(file) is None
            &&& png_file(px, w, h) matches Some(f) ==> as_png(file) == Some((f, w, h))
        },
{
}

} // verus!
