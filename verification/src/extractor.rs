//! Which entries of a comic archive are pages, in which order they are read,
//! and which entry is the cover.
use vstd::prelude::*;
use crate::natural::{natural_compare_value, natural_order, natural_order_antisymmetric, lex_compare, lex_order, lemma_lex_trans};
use crate::pathutil::{extension, extension_of, file_name, file_name_of};
use crate::scanner::{format_of_path, ComicFormat};
use crate::text::{
    chars_eq_str, chars_of, contains, contains_block, dec, fmt_u64_padded, is_prefix, is_space,
    is_whitespace, lowercase_of, parse_unsigned, starts_with, string_of, to_lowercase, zero_pad,
};

verus! {

broadcast use vstd::seq_lib::group_to_multiset_ensures;

/// Whether a (lower-case) extension is an image extension.
pub open spec fn is_image_extension(e: Seq<char>) -> bool {
    ||| e == "jpg"@
    ||| e == "jpeg"@
    ||| e == "png"@
    ||| e == "webp"@
    ||| e == "gif"@
    ||| e == "bmp"@
}

/// Whether an archive entry name is a page image: not macOS metadata, not a
/// hidden file, and with an image extension.
pub open spec fn image_name(n: Seq<char>) -> bool {
    &&& !contains_block(n, "__MACOSX"@)
    &&& !(n.len() > 0 && n[0] == '.')
    &&& match extension_of(n) {
        Some(e) => is_image_extension(e),
        None => false,
    }
}

/// Whether an archive entry name is a page image (the name is expected in lower case).
pub fn is_image_name(name: &str) -> (r: bool)
    ensures
        r == image_name(name@),
{
    let n = chars_of(name);
    let mac = chars_of("__MACOSX");
    if contains(n.as_slice(), mac.as_slice()) || (n.len() > 0 && n[0] == '.') {
        return false;
    }
    match extension(n.as_slice()) {
        Some(e) => {
            let s = e.as_slice();
            chars_eq_str(s, "jpg") || chars_eq_str(s, "jpeg") || chars_eq_str(s, "png")
                || chars_eq_str(s, "webp") || chars_eq_str(s, "gif") || chars_eq_str(s, "bmp")
        },
        None => false,
    }
}

/// The entries whose lower-cased name is a page image, in archive order.
pub open spec fn image_entries(s: Seq<String>) -> Seq<String>
    decreases s.len(),
{
    if s.len() == 0 {
        Seq::empty()
    } else if image_name(lowercase_of(s.last()@)) {
        image_entries(s.drop_last()).push(s.last())
    } else {
        image_entries(s.drop_last())
    }
}

/// The name by which pages are ordered: the entry's file name (empty when it has none).
pub open spec fn page_key(name: Seq<char>) -> Seq<char> {
    match file_name_of(name) {
        Some(f) => f,
        None => Seq::empty(),
    }
}

/// Adjacent entries are in natural order of their file names.
pub open spec fn naturally_sorted(s: Seq<String>) -> bool {
    forall|i: int| 0 <= i < s.len() - 1 ==> natural_order(page_key(#[trigger] s[i]@), page_key(s[i + 1]@)) <= 0
}

fn page_key_chars(name: &String) -> (r: Vec<char>)
    ensures
        r@ == page_key(name@),
{
    let v = chars_of(name.as_str());
    match file_name(v.as_slice()) {
        Some(f) => f,
        None => Vec::new(),
    }
}

/// Keeps the page images of `names` (judged on their lower-cased names), in order.
pub fn filter_image_entries(names: &Vec<String>) -> (r: Vec<String>)
    ensures
        r@ == image_entries(names@),
{
    let mut r: Vec<String> = Vec::new();
    let mut i: usize = 0;
    while i < names.len()
        invariant
            i <= names@.len(),
            r@ == image_entries(names@.subrange(0, i as int)),
        decreases names@.len() - i,
    {
        let ghost pre = names@.subrange(0, i + 1);
        assert(pre.drop_last() =~= names@.subrange(0, i as int));
        let lower = to_lowercase(names[i].as_str());
        if is_image_name(lower.as_str()) {
            r.push(names[i].clone());
        }
        i = i + 1;
    }
    assert(names@.subrange(0, names@.len() as int) =~= names@);
    r
}

/// Sorts names by the natural order of their file names; the sort is stable
/// and keeps every name.
#[verifier::spinoff_prover]
#[verifier::rlimit(40)]
pub fn sort_pages_natural(names: Vec<String>) -> (r: Vec<String>)
    ensures
        r@.to_multiset() == names@.to_multiset(),
        naturally_sorted(r@),
{
    let mut out: Vec<String> = Vec::new();
    let mut i: usize = 0;
    while i < names.len()
        invariant
            i <= names@.len(),
            out@.to_multiset() == names@.subrange(0, i as int).to_multiset(),
            naturally_sorted(out@),
        decreases names@.len() - i,
    {
        let x = names[i].clone();
        let kx = page_key_chars(&x);
        let mut p = out.len();
        while p > 0 && natural_compare_value(page_key_chars(&out[p - 1]).as_slice(), kx.as_slice()) > 0
            invariant
                p <= out@.len(),
                kx@ == page_key(x@),
                forall|j: int| p <= j < out@.len() ==> natural_order(page_key(#[trigger] out@[j]@), kx@) > 0,
            decreases p,
        {
            p = p - 1;
        }
        let ghost old_out = out@;
        out.insert(p, x);
        proof {
            assert(names@.subrange(0, i + 1) =~= names@.subrange(0, i as int).push(names@[i as int]));
            assert forall|j: int| 0 <= j < out@.len() - 1 implies natural_order(
                page_key(#[trigger] out@[j]@),
                page_key(out@[j + 1]@),
            ) <= 0 by {
                if j + 1 < p {
                    assert(out@[j] == old_out[j]);
                    assert(out@[j + 1] == old_out[j + 1]);
                } else if j + 1 == p {
                    assert(out@[j] == old_out[j]);
                } else if j == p {
                    assert(out@[j + 1] == old_out[j]);
                    natural_order_antisymmetric(page_key(old_out[j]@), page_key(x@));
                } else {
                    assert(out@[j] == old_out[j - 1]);
                    assert(out@[j + 1] == old_out[j]);
                    assert(naturally_sorted(old_out));
                    assert(natural_order(page_key(old_out[j - 1]@), page_key(old_out[j - 1 + 1]@)) <= 0);
                }
            }
        }
        i = i + 1;
    }
    assert(names@.subrange(0, names@.len() as int) =~= names@);
    out
}

/// The page images of an archive listing, in reading order: entries whose
/// lower-cased name is an image, sorted naturally by file name.
pub fn order_page_names(names: &Vec<String>) -> (r: Vec<String>)
    ensures
        r@.to_multiset() == image_entries(names@).to_multiset(),
        naturally_sorted(r@),
{
    let images = filter_image_entries(names);
    sort_pages_natural(images)
}

/// `m` is the least entry of `s` in code-point order.
pub open spec fn is_least(m: Seq<char>, s: Seq<String>) -> bool {
    &&& exists|i: int| 0 <= i < s.len() && #[trigger] s[i]@ == m
    &&& forall|i: int| 0 <= i < s.len() ==> lex_order(m, #[trigger] s[i]@) <= 0
}

/// The least name in code-point order (`sort()` then take the first).
pub fn least_name(names: &Vec<String>) -> (r: Option<String>)
    ensures
        r is None <==> names@.len() == 0,
        r matches Some(m) ==> is_least(m@, names@),
{
    if names.len() == 0 {
        return None;
    }
    let mut best: usize = 0;
    let mut bv = chars_of(names[0].as_str());
    let mut i: usize = 1;
    proof {
        crate::natural::lemma_lex_refl(bv@);
    }
    while i < names.len()
        invariant
            1 <= i <= names@.len(),
            best < i,
            bv@ == names@[best as int]@,
            forall|j: int| 0 <= j < i ==> lex_order(bv@, #[trigger] names@[j]@) <= 0,
        decreases names@.len() - i,
    {
        let cv = chars_of(names[i].as_str());
        let c = lex_compare(cv.as_slice(), bv.as_slice());
        if c < 0 {
            proof {
                crate::natural::lemma_lex_antisym(cv@, bv@);
                assert forall|j: int| 0 <= j < i + 1 implies lex_order(cv@, #[trigger] names@[j]@) <= 0 by {
                    if j < i {
                        lemma_lex_trans(cv@, bv@, names@[j]@);
                    } else {
                        crate::natural::lemma_lex_refl(cv@);
                    }
                }
            }
            best = i;
            bv = cv;
        } else {
            proof {
                crate::natural::lemma_lex_antisym(cv@, bv@);
            }
        }
        i = i + 1;
    }
    assert(names@[best as int]@ == bv@);
    Some(names[best].clone())
}

// ── pdfinfo output ────────────────────────────────────────────────────────

/// The segments of `s` between `\n` characters (one more than the number of newlines).
pub open spec fn split_newlines(s: Seq<char>) -> Seq<Seq<char>>
    decreases s.len(),
{
    if s.len() == 0 {
        seq![Seq::empty()]
    } else {
        let r = split_newlines(s.drop_last());
        if s.last() == '\n' {
            r.push(Seq::empty())
        } else {
            r.update(r.len() - 1, r.last().push(s.last()))
        }
    }
}

proof fn lemma_split_newlines_nonempty(s: Seq<char>)
    ensures
        split_newlines(s).len() >= 1,
    decreases s.len(),
{
    if s.len() > 0 {
        lemma_split_newlines_nonempty(s.drop_last());
    }
}

/// A line without its trailing `\r`.
pub open spec fn strip_cr(l: Seq<char>) -> Seq<char> {
    if l.len() > 0 && l.last() == '\r' {
        l.drop_last()
    } else {
        l
    }
}

/// `str::lines`: the segments between newlines, a final empty segment
/// dropped, each without a trailing `\r`.
pub open spec fn lines_of(s: Seq<char>) -> Seq<Seq<char>> {
    let segs = split_newlines(s);
    let kept = if segs.last().len() == 0 { segs.drop_last() } else { segs };
    Seq::new(kept.len(), |i: int| strip_cr(kept[i]))
}

/// The first line starting with `p`.
pub open spec fn first_with_prefix(ls: Seq<Seq<char>>, p: Seq<char>) -> Option<Seq<char>>
    decreases ls.len(),
{
    if ls.len() == 0 {
        None
    } else if is_prefix(p, ls[0]) {
        Some(ls[0])
    } else {
        first_with_prefix(ls.drop_first(), p)
    }
}

/// The run of non-whitespace characters that ends `s`.
pub open spec fn word_ending(s: Seq<char>) -> Seq<char>
    decreases s.len(),
{
    if s.len() == 0 || is_space(s.last()) {
        Seq::empty()
    } else {
        word_ending(s.drop_last()).push(s.last())
    }
}

/// The last whitespace-separated word of `s`, if any (`split_whitespace().last()`).
pub open spec fn last_word(s: Seq<char>) -> Option<Seq<char>>
    decreases s.len(),
{
    if s.len() == 0 {
        None
    } else if is_space(s.last()) {
        last_word(s.drop_last())
    } else {
        Some(word_ending(s))
    }
}

/// The number of pages that `pdfinfo` reports: the last word of the first
/// line starting with `Pages:`, read as a number; 0 when missing or unreadable.
pub open spec fn pdf_page_count_of(text: Seq<char>) -> nat {
    match first_with_prefix(lines_of(text), "Pages:"@) {
        Some(line) => match last_word(line) {
            Some(w) => match parse_unsigned(w, usize::MAX as nat) {
                Some(n) => n,
                None => 0,
            },
            None => 0,
        },
        None => 0,
    }
}

/// The segments of the text between newlines.
fn split_newlines_vec(s: &[char]) -> (r: Vec<Vec<char>>)
    ensures
        crate::natural::view_all(r@) == split_newlines(s@),
{
    let mut done: Vec<Vec<char>> = Vec::new();
    let mut current: Vec<char> = Vec::new();
    let mut i: usize = 0;
    assert(split_newlines(s@.subrange(0, 0)) =~= crate::natural::view_all(done@).push(current@));
    while i < s.len()
        invariant
            i <= s@.len(),
            split_newlines(s@.subrange(0, i as int)) == crate::natural::view_all(done@).push(current@),
        decreases s@.len() - i,
    {
        let ghost prev = s@.subrange(0, i as int);
        assert(s@.subrange(0, i + 1).drop_last() =~= prev);
        let ghost old_done = crate::natural::view_all(done@);
        let ghost old_cur = current@;
        if s[i] == '\n' {
            done.push(current);
            current = Vec::new();
            assert(crate::natural::view_all(done@) =~= old_done.push(old_cur));
        } else {
            current.push(s[i]);
        }
        assert(split_newlines(s@.subrange(0, i + 1)) =~= crate::natural::view_all(done@).push(current@));
        i = i + 1;
    }
    assert(s@.subrange(0, s@.len() as int) =~= s@);
    let ghost old_done = crate::natural::view_all(done@);
    let ghost old_cur = current@;
    done.push(current);
    assert(crate::natural::view_all(done@) =~= old_done.push(old_cur));
    done
}

/// The last whitespace-separated word of a line.
fn last_word_of(l: &[char]) -> (r: Option<Vec<char>>)
    ensures
        match r {
            Some(w) => last_word(l@) == Some(w@),
            None => last_word(l@) is None,
        },
{
    let mut e = l.len();
    assert(l@.subrange(0, e as int) =~= l@);
    while e > 0 && is_whitespace(l[e - 1])
        invariant
            e <= l@.len(),
            last_word(l@) == last_word(l@.subrange(0, e as int)),
        decreases e,
    {
        assert(l@.subrange(0, e as int).drop_last() =~= l@.subrange(0, e - 1));
        e = e - 1;
    }
    if e == 0 {
        return None;
    }
    let mut b = e;
    assert(l@.subrange(b as int, e as int) =~= Seq::<char>::empty());
    while b > 0 && !is_whitespace(l[b - 1])
        invariant
            b <= e,
            e <= l@.len(),
            word_ending(l@.subrange(0, e as int)) == word_ending(l@.subrange(0, b as int)) + l@.subrange(b as int, e as int),
        decreases b,
    {
        let ghost pre = l@.subrange(0, b as int);
        assert(pre.drop_last() =~= l@.subrange(0, b - 1));
        assert(word_ending(pre) == word_ending(l@.subrange(0, b - 1)).push(l@[b - 1]));
        assert(l@.subrange(b - 1, e as int) =~= seq![l@[b - 1]] + l@.subrange(b as int, e as int));
        assert(word_ending(l@.subrange(0, e as int)) =~= word_ending(l@.subrange(0, b - 1)) + l@.subrange(b - 1, e as int));
        b = b - 1;
    }
    let ghost pre = l@.subrange(0, b as int);
    if b > 0 {
        assert(pre.last() == l@[b - 1]);
    }
    assert(word_ending(pre) =~= Seq::<char>::empty());
    assert(word_ending(l@.subrange(0, e as int)) =~= l@.subrange(b as int, e as int));
    Some(crate::text::slice_chars(l, b, e))
}

/// The page count reported in `pdfinfo`'s output (0 when there is none).
pub fn pdf_page_count(text: &str) -> (r: usize)
    ensures
        r == pdf_page_count_of(text@),
{
    let s = chars_of(text);
    let segs = split_newlines_vec(s.as_slice());
    let ghost sv = split_newlines(text@);
    proof {
        lemma_split_newlines_nonempty(text@);
    }
    let n = if segs[segs.len() - 1].len() == 0 { segs.len() - 1 } else { segs.len() };
    let ghost kept = if sv.last().len() == 0 { sv.drop_last() } else { sv };
    let ghost ls = lines_of(text@);
    assert(kept.len() == n);
    let pages = chars_of("Pages:");
    let mut i: usize = 0;
    assert(ls.subrange(0, ls.len() as int) =~= ls);
    while i < n
        invariant
            n <= segs@.len(),
            crate::natural::view_all(segs@) == sv,
            kept.len() == n,
            forall|k: int| 0 <= k < n ==> #[trigger] kept[k] == sv[k],
            ls == Seq::new(kept.len(), |k: int| strip_cr(kept[k])),
            ls == lines_of(text@),
            i <= n,
            pages@ == "Pages:"@,
            first_with_prefix(ls, "Pages:"@) == first_with_prefix(ls.subrange(i as int, n as int), "Pages:"@),
        decreases n - i,
    {
        let seg = &segs[i];
        let line: Vec<char> = if seg.len() > 0 && seg[seg.len() - 1] == '\r' {
            crate::text::slice_chars(seg.as_slice(), 0, seg.len() - 1)
        } else {
            crate::text::slice_chars(seg.as_slice(), 0, seg.len())
        };
        let ghost rest = ls.subrange(i as int, n as int);
        assert(seg@ == kept[i as int]);
        assert(line@ =~= strip_cr(kept[i as int]));
        assert(rest[0] == line@);
        if starts_with(line.as_slice(), pages.as_slice()) {
            assert(rest.len() > 0);
            assert(is_prefix("Pages:"@, rest[0]));
            assert(first_with_prefix(rest, "Pages:"@) == Some(line@));
            return match last_word_of(line.as_slice()) {
                Some(w) => match crate::text::parse_usize(w.as_slice()) {
                    Some(v) => v,
                    None => 0,
                },
                None => 0,
            };
        }
        assert(rest.drop_first() =~= ls.subrange(i + 1, n as int));
        i = i + 1;
    }
    0
}

/// Names of the pages of a PDF with `count` pages: `0001`, `0002`, ….
pub fn pdf_page_names(count: usize) -> (r: Vec<String>)
    ensures
        r@.len() == count,
        forall|k: int| 0 <= k < count ==> #[trigger] r@[k]@ == zero_pad(dec((k + 1) as nat), 4),
{
    let mut r: Vec<String> = Vec::new();
    let mut i: usize = 0;
    while i < count
        invariant
            i <= count,
            r@.len() == i,
            forall|k: int| 0 <= k < i ==> #[trigger] r@[k]@ == zero_pad(dec((k + 1) as nat), 4),
        decreases count - i,
    {
        let v = fmt_u64_padded((i + 1) as u64, 4);
        r.push(string_of(v.as_slice()));
        i = i + 1;
    }
    r
}

// ── format dispatch ───────────────────────────────────────────────────────

/// Why pages cannot be listed or read.
#[derive(Debug)]
pub enum ExtractError {
    /// The file's extension is not a comic format.
    UnsupportedFormat(String),
    /// `pdfinfo` reported no page count for the PDF.
    PdfPageCount(String),
    /// The archive holds no page image.
    NoImages(String),
    /// A PDF page name is not a page number.
    InvalidPdfPage,
}

/// Where the cover of a comic comes from.
#[derive(Debug)]
pub enum CoverSource {
    /// The archive entry of that name.
    Entry(String),
    /// The first page of the PDF.
    PdfFirstPage,
}

/// Where one page of a comic comes from.
#[derive(Debug)]
pub enum PageSource {
    /// The archive entry of that name.
    Entry(String),
    /// That page number of the PDF (1-based).
    PdfPage(u32),
}

/// The pages of the comic at `path`, given what was read from it: for an
/// archive, its entry names; for a PDF, the output of `pdfinfo`.
pub fn list_pages(path: &str, pdfinfo: &str, entries: &Vec<String>) -> (r: Result<Vec<String>, ExtractError>)
    ensures
        match format_of_path(path@) {
            ComicFormat::Unknown => r matches Err(ExtractError::UnsupportedFormat(p)) && p@ == path@,
            ComicFormat::Pdf => if pdf_page_count_of(pdfinfo@) == 0 {
                r matches Err(ExtractError::PdfPageCount(p)) && p@ == path@
            } else {
                r matches Ok(v) && v@.len() == pdf_page_count_of(pdfinfo@) && forall|k: int|
                    0 <= k < v@.len() ==> #[trigger] v@[k]@ == zero_pad(dec((k + 1) as nat), 4)
            },
            _ => r matches Ok(v) && v@.to_multiset() == image_entries(entries@).to_multiset()
                && naturally_sorted(v@),
        },
{
    match ComicFormat::from_path(path) {
        ComicFormat::Unknown => Err(ExtractError::UnsupportedFormat(path.to_owned())),
        ComicFormat::Pdf => {
            let count = pdf_page_count(pdfinfo);
            if count == 0 {
                Err(ExtractError::PdfPageCount(path.to_owned()))
            } else {
                Ok(pdf_page_names(count))
            }
        },
        _ => Ok(order_page_names(entries)),
    }
}

/// The cover of the comic at `path`, given its archive entry names: the
/// least page image by name, or the first page of a PDF.
pub fn extract_cover(path: &str, entries: &Vec<String>) -> (r: Result<CoverSource, ExtractError>)
    ensures
        match format_of_path(path@) {
            ComicFormat::Unknown => r matches Err(ExtractError::UnsupportedFormat(p)) && p@ == path@,
            ComicFormat::Pdf => r matches Ok(CoverSource::PdfFirstPage),
            _ => if image_entries(entries@).len() == 0 {
                r matches Err(ExtractError::NoImages(p)) && p@ == path@
            } else {
                r matches Ok(CoverSource::Entry(m)) && is_least(m@, image_entries(entries@))
            },
        },
{
    match ComicFormat::from_path(path) {
        ComicFormat::Unknown => Err(ExtractError::UnsupportedFormat(path.to_owned())),
        ComicFormat::Pdf => Ok(CoverSource::PdfFirstPage),
        _ => {
            let images = filter_image_entries(entries);
            match least_name(&images) {
                Some(m) => Ok(CoverSource::Entry(m)),
                None => Err(ExtractError::NoImages(path.to_owned())),
            }
        },
    }
}

/// Where to read the page `page_name` of the comic at `path`: the archive
/// entry itself, or the PDF page whose number the name spells.
pub fn extract_page_to_memory(path: &str, page_name: &str) -> (r: Result<PageSource, ExtractError>)
    ensures
        match format_of_path(path@) {
            ComicFormat::Unknown => r matches Err(ExtractError::UnsupportedFormat(p)) && p@ == path@,
            ComicFormat::Pdf => match parse_unsigned(page_name@, u32::MAX as nat) {
                Some(n) => r matches Ok(PageSource::PdfPage(k)) && k == n,
                None => r matches Err(ExtractError::InvalidPdfPage),
            },
            _ => r matches Ok(PageSource::Entry(e)) && e@ == page_name@,
        },
{
    match ComicFormat::from_path(path) {
        ComicFormat::Unknown => Err(ExtractError::UnsupportedFormat(path.to_owned())),
        ComicFormat::Pdf => {
            let v = chars_of(page_name);
            match crate::text::parse_u32(v.as_slice()) {
                Some(n) => Ok(PageSource::PdfPage(n)),
                None => Err(ExtractError::InvalidPdfPage),
            }
        },
        _ => Ok(PageSource::Entry(page_name.to_owned())),
    }
}

/// The file name under which a PDF page is rendered: `page-NNNN.jpg`.
pub fn pdf_page_file_name(page_num: u32) -> (r: String)
    ensures
        r@ == "page-"@ + zero_pad(dec(page_num as nat), 4) + ".jpg"@,
{
    let mut v = chars_of("page-");
    let d = fmt_u64_padded(page_num as u64, 4);
    crate::text::push_all(&mut v, d.as_slice());
    crate::text::push_str(&mut v, ".jpg");
    string_of(v.as_slice())
}

impl ExtractError {
    /// The message shown for the error.
    pub fn message(&self) -> (r: String)
        ensures
            match self {
                ExtractError::UnsupportedFormat(p) => r@ == "Formato no soportado: "@ + p@,
                ExtractError::PdfPageCount(p) => r@ == "No se pudo determinar el número de páginas del PDF: "@ + p@,
                ExtractError::NoImages(p) => r@ == "No se encontraron imágenes en: "@ + p@,
                ExtractError::InvalidPdfPage => r@ == "Número de página PDF inválido"@,
            },
    {
        let mut v: Vec<char> = Vec::new();
        match self {
            ExtractError::UnsupportedFormat(p) => {
                crate::text::push_str(&mut v, "Formato no soportado: ");
                crate::text::push_str(&mut v, p.as_str());
            },
            ExtractError::PdfPageCount(p) => {
                crate::text::push_str(&mut v, "No se pudo determinar el número de páginas del PDF: ");
                crate::text::push_str(&mut v, p.as_str());
            },
            ExtractError::NoImages(p) => {
                crate::text::push_str(&mut v, "No se encontraron imágenes en: ");
                crate::text::push_str(&mut v, p.as_str());
            },
            ExtractError::InvalidPdfPage => {
                crate::text::push_str(&mut v, "Número de página PDF inválido");
            },
        }
        assert(v@ =~= match self {
            ExtractError::UnsupportedFormat(p) => "Formato no soportado: "@ + p@,
            ExtractError::PdfPageCount(p) => "No se pudo determinar el número de páginas del PDF: "@ + p@,
            ExtractError::NoImages(p) => "No se encontraron imágenes en: "@ + p@,
            ExtractError::InvalidPdfPage => "Número de página PDF inválido"@,
        });
        string_of(v.as_slice())
    }
}

/// A visible entry name outside macOS metadata is a page exactly when its
/// extension is one of `jpg`, `jpeg`, `png`, `webp`, `gif` or `bmp`.
pub proof fn pages_are_the_image_extensions(n: Seq<char>)
    requires
        !contains_block(n, "__MACOSX"@),
        !(n.len() > 0 && n[0] == '.'),
    ensures
        image_name(n) <==> (extension_of(n) == Some("jpg"@) || extension_of(n) == Some("jpeg"@) || extension_of(n)
            == Some("png"@) || extension_of(n) == Some("webp"@) || extension_of(n) == Some("gif"@) || extension_of(
            n,
        ) == Some("bmp"@)),
{
}

/// When every entry of a listing is a page image, the filter keeps them all,
/// in order.
pub proof fn image_listing_keeps_every_page(names: Seq<String>)
    requires
        forall|i: int| 0 <= i < names.len() ==> image_name(lowercase_of(#[trigger] names[i]@)),
    ensures
        image_entries(names) == names,
    decreases names.len(),
{
    if names.len() > 0 {
        let p = names.drop_last();
        assert forall|i: int| 0 <= i < p.len() implies image_name(lowercase_of(#[trigger] p[i]@)) by {
            assert(p[i] == names[i]);
        }
        image_listing_keeps_every_page(p);
        assert(image_name(lowercase_of(names[names.len() - 1]@)));
        assert(p.push(names.last()) =~= names);
    }
}

/// macOS metadata and hidden entries are never pages, whatever their extension.
pub proof fn metadata_and_hidden_entries_are_not_pages(n: Seq<char>)
    ensures
        contains_block(n, "__MACOSX"@) ==> !image_name(n),
        n.len() > 0 && n[0] == '.' ==> !image_name(n),
{
}

} // verus!
