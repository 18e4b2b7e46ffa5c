//! Thumbnail sizes and filters, and the thumbnails made from covers and pages.
use vstd::prelude::*;
use crate::text::{chars_of, string_of, push_all, push_str, all_digits, all_ascii_digits};
use crate::pathutil::{file_name, file_name_of, join_path, join};

verus! {

// ── reader filter ─────────────────────────────────────────────────────────

/// Scaling filter used for the reader's page thumbnails.
#[derive(Clone, Copy, Debug, PartialEq, Eq, Structural)]
pub enum ReaderFilter {
    Nearest,
    Triangle,
    CatmullRom,
    Lanczos3,
}

/// The filter a stored value stands for (`Lanczos3` for unknown values).
pub open spec fn filter_from_db(val: i64) -> ReaderFilter {
    if val == 0 {
        ReaderFilter::Nearest
    } else if val == 1 {
        ReaderFilter::Triangle
    } else if val == 2 {
        ReaderFilter::CatmullRom
    } else {
        ReaderFilter::Lanczos3
    }
}

/// The value a filter is stored as.
pub open spec fn filter_db_value(f: ReaderFilter) -> i64 {
    match f {
        ReaderFilter::Nearest => 0,
        ReaderFilter::Triangle => 1,
        ReaderFilter::CatmullRom => 2,
        ReaderFilter::Lanczos3 => 3,
    }
}

impl Default for ReaderFilter {
    fn default() -> (r: Self)
        ensures
            r == ReaderFilter::Lanczos3,
    {
        ReaderFilter::Lanczos3
    }
}

impl ReaderFilter {
    /// The filter stored in the settings table; unknown values give `Lanczos3`.
    pub fn from_db(val: i64) -> (r: Self)
        ensures
            r == filter_from_db(val),
    {
        match val {
            0 => ReaderFilter::Nearest,
            1 => ReaderFilter::Triangle,
            2 => ReaderFilter::CatmullRom,
            _ => ReaderFilter::Lanczos3,
        }
    }

    /// The value stored in the settings table.
    pub fn to_db(self) -> (r: i64)
        ensures
            r == filter_db_value(self),
    {
        match self {
            ReaderFilter::Nearest => 0,
            ReaderFilter::Triangle => 1,
            ReaderFilter::CatmullRom => 2,
            ReaderFilter::Lanczos3 => 3,
        }
    }

    /// Position in the preferences combo box.
    pub fn combo_index(self) -> (r: u32)
        ensures
            r as i64 == filter_db_value(self),
    {
        self.to_db() as u32
    }

    /// The filter at a position of the preferences combo box.
    pub fn from_combo_index(idx: u32) -> (r: Self)
        ensures
            r == filter_from_db(idx as i64),
    {
        Self::from_db(idx as i64)
    }
}

// ── card size ─────────────────────────────────────────────────────────────

/// The three card sizes: each fixes the card in the UI and the thumbnail on disk.
#[derive(Clone, Copy, Debug, PartialEq, Eq, Structural)]
pub enum CardSize {
    Small,
    Medium,
    Large,
}

/// The size a stored value stands for; legacy values (such as a pixel size) give `Medium`.
pub open spec fn size_from_db(val: i64) -> CardSize {
    if val == 0 {
        CardSize::Small
    } else if val == 2 {
        CardSize::Large
    } else {
        CardSize::Medium
    }
}

/// The value a size is stored as.
pub open spec fn size_db_value(s: CardSize) -> i64 {
    match s {
        CardSize::Small => 0,
        CardSize::Medium => 1,
        CardSize::Large => 2,
    }
}

/// Width and height in pixels of a card (and of its thumbnail).
pub open spec fn size_dims(s: CardSize) -> (u32, u32) {
    match s {
        CardSize::Small => (160, 220),
        CardSize::Medium => (240, 320),
        CardSize::Large => (320, 430),
    }
}

/// The subdirectory of a size's thumbnails.
pub open spec fn size_dir_name(s: CardSize) -> Seq<char> {
    match s {
        CardSize::Small => "small"@,
        CardSize::Medium => "medium"@,
        CardSize::Large => "large"@,
    }
}

impl Default for CardSize {
    fn default() -> (r: Self)
        ensures
            r == CardSize::Medium,
    {
        CardSize::Medium
    }
}

impl CardSize {
    /// Width and height in pixels, the same for the card and its thumbnail.
    pub fn dims(self) -> (r: (u32, u32))
        ensures
            r == size_dims(self),
    {
        match self {
            CardSize::Small => (160, 220),
            CardSize::Medium => (240, 320),
            CardSize::Large => (320, 430),
        }
    }

    /// The size stored in the settings table; legacy values give `Medium`.
    pub fn from_db(val: i64) -> (r: Self)
        ensures
            r == size_from_db(val),
    {
        match val {
            0 => CardSize::Small,
            2 => CardSize::Large,
            _ => CardSize::Medium,
        }
    }

    /// The value stored in the settings table.
    pub fn to_db(self) -> (r: i64)
        ensures
            r == size_db_value(self),
    {
        match self {
            CardSize::Small => 0,
            CardSize::Medium => 1,
            CardSize::Large => 2,
        }
    }

    /// Position in the preferences combo box (Small 0, Medium 1, Large 2).
    pub fn combo_index(self) -> (r: u32)
        ensures
            r as i64 == size_db_value(self),
    {
        self.to_db() as u32
    }

    /// The size at a position of the preferences combo box.
    pub fn from_combo_index(idx: u32) -> (r: Self)
        ensures
            r == size_from_db(idx as i64),
    {
        match idx {
            0 => CardSize::Small,
            2 => CardSize::Large,
            _ => CardSize::Medium,
        }
    }

    /// The subdirectory that keeps this size's thumbnails apart.
    pub fn dir_name(self) -> (r: &'static str)
        ensures
            r@ == size_dir_name(self),
    {
        match self {
            CardSize::Small => "small",
            CardSize::Medium => "medium",
            CardSize::Large => "large",
        }
    }
}

/// All sizes, in the order thumbnails are generated.
pub fn all_sizes() -> (r: Vec<CardSize>)
    ensures
        r@ == seq![CardSize::Small, CardSize::Medium, CardSize::Large],
{
    let mut v = Vec::new();
    v.push(CardSize::Small);
    v.push(CardSize::Medium);
    v.push(CardSize::Large);
    v
}

// ── pages ─────────────────────────────────────────────────────────────────

/// Raw RGB pixels of a scaled page, ready for a pixbuf.
#[derive(Clone, Debug)]
pub struct PageThumb {
    pub data: Vec<u8>,
    pub width: i32,
    pub height: i32,
    pub rowstride: i32,
}

/// The file a page is cached as in a directory: `page-{n}.jpg` for a page
/// number (a name of ASCII digits), else the file name of the page.
pub open spec fn page_file_name(page: Seq<char>) -> Seq<char> {
    if all_digits(page) {
        "page-"@ + page + ".jpg"@
    } else {
        match file_name_of(page) {
            Some(n) => n,
            None => Seq::empty(),
        }
    }
}

/// The canonical path of an extracted page inside `dir`.
pub fn page_path_in(page_name: &str, dir: &str) -> (r: String)
    ensures
        r@ == join_path(dir@, page_file_name(page_name@)),
{
    let p = chars_of(page_name);
    let name: Vec<char> = if all_ascii_digits(p.as_slice()) {
        let mut v = chars_of("page-");
        push_all(&mut v, p.as_slice());
        push_str(&mut v, ".jpg");
        v
    } else {
        match file_name(p.as_slice()) {
            Some(n) => n,
            None => Vec::new(),
        }
    };
    assert(name@ =~= page_file_name(page_name@));
    let d = chars_of(dir);
    let j = join(d.as_slice(), name.as_slice());
    string_of(j.as_slice())
}

// ── images ────────────────────────────────────────────────────────────────

/// The JPEG that the `image` crate makes of the encoded image `bytes` scaled
/// with `filter` (aspect kept) to `height` pixels high; `None` when the bytes
/// do not decode or the result does not encode.
pub uninterp spec fn jpeg_at_height_of(bytes: Seq<u8>, height: u32, filter: ReaderFilter) -> Option<Seq<u8>>;

/// `image::load_from_memory`, `DynamicImage::resize(u32::MAX, height, filter)`
/// and `write_to` with the JPEG encoder. The result is named by
/// `jpeg_at_height_of`.
#[verifier::external_body]
fn encode_jpeg_at_height(bytes: &[u8], height: u32, filter: ReaderFilter) -> (r: Option<Vec<u8>>)
    ensures
        match r {
            Some(v) => jpeg_at_height_of(bytes@, height, filter) == Some(v@),
            None => jpeg_at_height_of(bytes@, height, filter) is None,
        },
{
    let f = match filter {
        ReaderFilter::Nearest => image::imageops::FilterType::Nearest,
        ReaderFilter::Triangle => image::imageops::FilterType::Triangle,
        ReaderFilter::CatmullRom => image::imageops::FilterType::CatmullRom,
        ReaderFilter::Lanczos3 => image::imageops::FilterType::Lanczos3,
    };
    let scaled = image::load_from_memory(bytes).ok()?.resize(u32::MAX, height, f);
    let mut out = Vec::new();
    scaled.write_to(&mut std::io::Cursor::new(&mut out), image::ImageFormat::Jpeg).ok()?;
    Some(out)
}

/// An encoded image scaled to `height` pixels high (aspect kept, Lanczos3)
/// and encoded as JPEG; `None` when it does not decode or encode.
pub fn resize_to_height_jpeg(bytes: &[u8], height: u32) -> (r: Option<Vec<u8>>)
    ensures
        match r {
            Some(v) => jpeg_at_height_of(bytes@, height, ReaderFilter::Lanczos3) == Some(v@),
            None => jpeg_at_height_of(bytes@, height, ReaderFilter::Lanczos3) is None,
        },
{
    encode_jpeg_at_height(bytes, height, ReaderFilter::Lanczos3)
}

/// The RGB8 pixels that the `image` crate makes of the encoded image `bytes`
/// scaled with `filter` (aspect kept) to fit `max_w` × `max_h`, with the
/// width and height of the result; `None` when the bytes do not decode.
pub uninterp spec fn rgb_scaled_of(bytes: Seq<u8>, max_w: u32, max_h: u32, filter: ReaderFilter) -> Option<(Seq<u8>, u32, u32)>;

/// `image::load_from_memory`, `DynamicImage::resize(max_w, max_h, filter)`
/// and `into_rgb8`, handed out as raw bytes with the width and height. The
/// result is named by `rgb_scaled_of`; the buffer of an RGB8 image holds three
/// bytes for each pixel.
#[verifier::external_body]
fn decode_scaled_rgb(bytes: &[u8], max_w: u32, max_h: u32, filter: ReaderFilter) -> (r: Option<(Vec<u8>, u32, u32)>)
    ensures
        match r {
            Some((d, w, h)) => rgb_scaled_of(bytes@, max_w, max_h, filter) == Some((d@, w, h))
                && d@.len() == 3 * w * h,
            None => rgb_scaled_of(bytes@, max_w, max_h, filter) is None,
        },
{
    let f = match filter {
        ReaderFilter::Nearest => image::imageops::FilterType::Nearest,
        ReaderFilter::Triangle => image::imageops::FilterType::Triangle,
        ReaderFilter::CatmullRom => image::imageops::FilterType::CatmullRom,
        ReaderFilter::Lanczos3 => image::imageops::FilterType::Lanczos3,
    };
    let rgb = image::load_from_memory(bytes).ok()?.resize(max_w, max_h, f).into_rgb8();
    let (w, h) = (rgb.width(), rgb.height());
    Some((rgb.into_raw(), w, h))
}

/// Whether an image of `w` × `h` pixels has a row stride and a height that
/// fit a pixbuf's `i32` fields.
pub open spec fn fits_pixbuf(w: u32, h: u32) -> bool {
    3 * w <= i32::MAX && h <= i32::MAX
}

/// The scaled pixels as a pixbuf's fields, when their sizes fit in `i32`.
fn as_pixbuf(d: Vec<u8>, w: u32, h: u32) -> (r: Option<(Vec<u8>, i32, i32, i32)>)
    ensures
        match r {
            Some((d2, w2, h2, stride)) => fits_pixbuf(w, h) && d2@ == d@ && w2 == w && h2 == h
                && stride == 3 * w,
            None => !fits_pixbuf(w, h),
        },
{
    if w > 715827882 || h > 2147483647 {
        None
    } else {
        let wi = w as i32;
        Some((d, wi, h as i32, wi * 3))
    }
}

/// An encoded image scaled to `height` pixels high (aspect kept, Lanczos3) as
/// raw RGB pixels with their width, height and row stride; `None` when it does
/// not decode, or when the row stride or the height does not fit in `i32`.
pub fn resize_to_height_rgb(bytes: &[u8], height: u32) -> (r: Option<(Vec<u8>, i32, i32, i32)>)
    ensures
        match r {
            Some((d, w, h, stride)) => w >= 0 && h >= 0 && stride == 3 * w
                && rgb_scaled_of(bytes@, u32::MAX, height, ReaderFilter::Lanczos3)
                    == Some((d@, w as u32, h as u32)),
            None => match rgb_scaled_of(bytes@, u32::MAX, height, ReaderFilter::Lanczos3) {
                None => true,
                Some((_, w, h)) => !fits_pixbuf(w, h),
            },
        },
{
    match decode_scaled_rgb(bytes, u32::MAX, height, ReaderFilter::Lanczos3) {
        None => None,
        Some((d, w, h)) => as_pixbuf(d, w, h),
    }
}

/// A page thumbnail: the encoded page scaled with `filter` to 160 pixels wide
/// (aspect kept) as raw RGB pixels; `None` when it does not decode, or when
/// the row stride or the height does not fit in `i32`.
pub fn page_thumb_of(bytes: &[u8], filter: ReaderFilter) -> (r: Option<PageThumb>)
    ensures
        match r {
            Some(t) => t.width >= 0 && t.height >= 0 && t.rowstride == 3 * t.width
                && rgb_scaled_of(bytes@, 160, u32::MAX, filter)
                    == Some((t.data@, t.width as u32, t.height as u32)),
            None => match rgb_scaled_of(bytes@, 160, u32::MAX, filter) {
                None => true,
                Some((_, w, h)) => !fits_pixbuf(w, h),
            },
        },
{
    match decode_scaled_rgb(bytes, 160, u32::MAX, filter) {
        None => None,
        Some((d, w, h)) => match as_pixbuf(d, w, h) {
            None => None,
            Some((data, width, height, rowstride)) => Some(PageThumb { data, width, height, rowstride }),
        },
    }
}

// ── laws ──────────────────────────────────────────────────────────────────

/// A card size reads back from its stored value and from its combo position.
pub proof fn card_size_round_trip(s: CardSize)
    ensures
        size_from_db(size_db_value(s)) == s,
        size_db_value(s) >= 0,
{
}

/// A reader filter reads back from its stored value and from its combo position.
pub proof fn reader_filter_round_trip(f: ReaderFilter)
    ensures
        filter_from_db(filter_db_value(f)) == f,
        filter_db_value(f) >= 0,
{
}

/// Each card size has its own pixel size, growing with the size: Small is
/// 160 × 220, Medium 240 × 320 and Large 320 × 430, so two different sizes
/// never share dimensions and a larger size is wider and taller.
pub proof fn card_sizes_grow(a: CardSize, b: CardSize)
    ensures
        size_dims(CardSize::Small) == (160u32, 220u32),
        size_dims(CardSize::Medium) == (240u32, 320u32),
        size_dims(CardSize::Large) == (320u32, 430u32),
        a != b ==> size_dims(a) != size_dims(b),
        size_db_value(a) < size_db_value(b) ==> size_dims(a).0 < size_dims(b).0 && size_dims(a).1 < size_dims(b).1,
{
}

/// The thumbnails of each size live in their own folder: `small`, `medium`
/// and `large`.
pub proof fn card_sizes_have_their_own_folders(a: CardSize, b: CardSize)
    ensures
        size_dir_name(CardSize::Small) == "small"@,
        size_dir_name(CardSize::Medium) == "medium"@,
        size_dir_name(CardSize::Large) == "large"@,
        a != b ==> size_dir_name(a) != size_dir_name(b),
{
    reveal_strlit("small");
    reveal_strlit("medium");
    reveal_strlit("large");
    assert("small"@.len() != "medium"@.len());
    assert("large"@.len() != "medium"@.len());
    assert("small"@[0] != "large"@[0]);
}

} // verus!
