//! Texts and small decisions of the library pages: issue labels, the
//! collection counts of a volume, where a volume's cover is shown from, and
//! the figures of the statistics popover.
use vstd::prelude::*;
use crate::text::{chars_of, string_of, push_str, push_all, fmt_u64, fmt_i64, dec, dec_int};

verus! {

/// `#{number}`, with `?` for an issue without a number.
pub fn issue_number_label(numero: Option<&str>) -> (r: String)
    ensures
        r@ == seq!['#'] + match numero { Some(n) => n@, None => seq!['?'] },
{
    let mut v: Vec<char> = Vec::new();
    v.push('#');
    match numero {
        Some(n) => push_str(&mut v, n),
        None => v.push('?'),
    }
    assert(v@ =~= seq!['#'] + match numero { Some(n) => n@, None => seq!['?'] });
    string_of(v.as_slice())
}

/// The badge of an issue card: how many copies are on disk, none when there
/// is no copy.
pub fn physical_count_label(count: i64) -> (r: Option<String>)
    ensures
        match r {
            Some(s) => count > 0 && s@ == dec_int(count as int) + " físico"@,
            None => count <= 0,
        },
{
    if count > 0 {
        let mut v = fmt_i64(count);
        push_str(&mut v, " físico");
        Some(string_of(v.as_slice()))
    } else {
        None
    }
}

/// The issue line of a match candidate: `#{number} — {title}`, or the title
/// alone when the issue has no number.
pub fn candidate_issue_text(numero: Option<&str>, titulo: &str) -> (r: String)
    ensures
        r@ == match numero {
            Some(n) => seq!['#'] + n@ + " — "@ + titulo@,
            None => titulo@,
        },
{
    match numero {
        Some(n) => {
            let mut v: Vec<char> = Vec::new();
            v.push('#');
            push_str(&mut v, n);
            push_str(&mut v, " — ");
            push_str(&mut v, titulo);
            string_of(v.as_slice())
        },
        None => titulo.to_owned(),
    }
}

/// The caption of a page card: pages count from one.
pub fn page_label(index: usize) -> (r: String)
    requires
        index < u64::MAX,
    ensures
        r@ == "Página "@ + dec(index as nat + 1),
{
    let mut v = chars_of("Página ");
    let d = fmt_u64(index as u64 + 1);
    push_all(&mut v, d.as_slice());
    string_of(v.as_slice())
}

// ── a volume's collection ─────────────────────────────────────────────────

/// How many issues of a list have at least one copy on disk.
pub open spec fn owned_of(counts: Seq<i64>) -> nat
    decreases counts.len(),
{
    if counts.len() == 0 {
        0
    } else {
        owned_of(counts.drop_last()) + if counts.last() > 0 { 1nat } else { 0nat }
    }
}

/// The issues of a volume that the library holds, given each issue's count
/// of copies on disk.
pub fn owned_issues(physical_counts: &Vec<i64>) -> (r: usize)
    ensures
        r == owned_of(physical_counts@),
{
    let mut n: usize = 0;
    let mut i: usize = 0;
    while i < physical_counts.len()
        invariant
            i <= physical_counts@.len(),
            n == owned_of(physical_counts@.subrange(0, i as int)),
            n <= i,
        decreases physical_counts@.len() - i,
    {
        assert(physical_counts@.subrange(0, i + 1).drop_last() =~= physical_counts@.subrange(0, i as int));
        if physical_counts[i] > 0 {
            n = n + 1;
        }
        i = i + 1;
    }
    assert(physical_counts@.subrange(0, physical_counts@.len() as int) =~= physical_counts@);
    n
}

/// The first cover path among the issues of a volume, in order.
pub open spec fn first_cover_of(covers: Seq<Option<String>>) -> Option<Seq<char>>
    decreases covers.len(),
{
    if covers.len() == 0 {
        None
    } else {
        match covers[0] {
            Some(c) => Some(c@),
            None => first_cover_of(covers.drop_first()),
        }
    }
}

proof fn lemma_first_cover_skip(covers: Seq<Option<String>>, i: int)
    requires
        0 <= i <= covers.len(),
        forall|j: int| 0 <= j < i ==> covers[j] is None,
    ensures
        first_cover_of(covers) == first_cover_of(covers.subrange(i, covers.len() as int)),
    decreases i,
{
    if i > 0 {
        lemma_first_cover_skip(covers.drop_first(), i - 1);
        assert(covers.drop_first().subrange(i - 1, covers.drop_first().len() as int) =~= covers.subrange(
            i,
            covers.len() as int,
        ));
    } else {
        assert(covers.subrange(0, covers.len() as int) =~= covers);
    }
}

/// The cover of the first issue that has one.
pub fn first_issue_cover(covers: &Vec<Option<String>>) -> (r: Option<String>)
    ensures
        match r {
            Some(c) => first_cover_of(covers@) == Some(c@),
            None => first_cover_of(covers@) is None,
        },
{
    let mut i: usize = 0;
    while i < covers.len()
        invariant
            i <= covers@.len(),
            forall|j: int| 0 <= j < i ==> covers@[j] is None,
        decreases covers@.len() - i,
    {
        if let Some(c) = &covers[i] {
            proof {
                lemma_first_cover_skip(covers@, i as int);
            }
            return Some(c.clone());
        }
        i = i + 1;
    }
    proof {
        lemma_first_cover_skip(covers@, i as int);
    }
    None
}

/// Where the cover of a volume page is shown from.
#[derive(Clone, Debug, PartialEq, Eq)]
pub enum VolumeCoverSource {
    /// The volume's own thumbnail.
    Thumbnail,
    /// The cover of its first issue that has one.
    IssueCover(String),
    /// Downloaded from the volume's image URL (and kept as its thumbnail).
    Download(String),
    /// No cover.
    Nothing,
}

/// The volume's thumbnail when it is on disk, else the first issue cover,
/// else its image URL when there is one.
pub fn volume_cover_source(thumb_exists: bool, first_issue_cover: Option<String>, image_url: &str) -> (r: VolumeCoverSource)
    ensures
        thumb_exists ==> r == VolumeCoverSource::Thumbnail,
        !thumb_exists && first_issue_cover is Some ==> (r matches VolumeCoverSource::IssueCover(p) && p@
            == first_issue_cover->0@),
        !thumb_exists && first_issue_cover is None && image_url@.len() > 0 ==> (r matches VolumeCoverSource::Download(
            u,
        ) && u@ == image_url@),
        !thumb_exists && first_issue_cover is None && image_url@.len() == 0 ==> r == VolumeCoverSource::Nothing,
{
    if thumb_exists {
        VolumeCoverSource::Thumbnail
    } else if let Some(p) = first_issue_cover {
        VolumeCoverSource::IssueCover(p)
    } else if !image_url.is_empty() {
        VolumeCoverSource::Download(image_url.to_owned())
    } else {
        VolumeCoverSource::Nothing
    }
}

// ── statistics ────────────────────────────────────────────────────────────

/// The figures of the statistics popover, in its order: comics, catalogued,
/// uncatalogued, with errors, without thumbnail; series, completed series;
/// publishers.
pub fn library_figures(
    comics: i64,
    uncatalogued: i64,
    with_errors: i64,
    without_thumbnail: i64,
    volumes: i64,
    completed: i64,
    publishers: i64,
) -> (r: [String; 8])
    requires
        i64::MIN <= comics - uncatalogued <= i64::MAX,
    ensures
        r[0]@ == dec_int(comics as int),
        r[1]@ == dec_int(comics - uncatalogued),
        r[2]@ == dec_int(uncatalogued as int),
        r[3]@ == dec_int(with_errors as int),
        r[4]@ == dec_int(without_thumbnail as int),
        r[5]@ == dec_int(volumes as int),
        r[6]@ == dec_int(completed as int),
        r[7]@ == dec_int(publishers as int),
{
    let catalogued = comics - uncatalogued;
    let a = fmt_i64(comics);
    let b = fmt_i64(catalogued);
    let c = fmt_i64(uncatalogued);
    let d = fmt_i64(with_errors);
    let e = fmt_i64(without_thumbnail);
    let f = fmt_i64(volumes);
    let g = fmt_i64(completed);
    let h = fmt_i64(publishers);
    [
        string_of(a.as_slice()),
        string_of(b.as_slice()),
        string_of(c.as_slice()),
        string_of(d.as_slice()),
        string_of(e.as_slice()),
        string_of(f.as_slice()),
        string_of(g.as_slice()),
        string_of(h.as_slice()),
    ]
}

} // verus!
