//! Scanning the library folders and preparing the work that follows a scan:
//! which files are comics, which comics still need a thumbnail, where the
//! cover of a catalogued issue is on disk, and the texts shown for a scan.
use vstd::prelude::*;
use crate::text::{chars_of, string_of, push_all, push_str, fmt_u64, fmt_i64, dec, dec_int};
use crate::scanner::{comic_file, is_comic_file};
use crate::pathutil::{file_stem, file_stem_of};
use crate::paths::{ThumbnailPaths, url_file_name, cover_file_name, strip_unsafe};
use crate::pathutil::join_path;
use crate::models::ScanResult;

verus! {

// ── walking the folders ───────────────────────────────────────────────────

/// An entry met while walking a folder: its path and whether it is a file.
#[derive(Clone, Debug)]
pub struct WalkEntry {
    pub path: String,
    pub is_file: bool,
}

/// The comic files among walked entries, in walking order.
pub open spec fn comic_paths(entries: Seq<WalkEntry>) -> Seq<Seq<char>>
    decreases entries.len(),
{
    if entries.len() == 0 {
        Seq::empty()
    } else if entries.last().is_file && comic_file(entries.last().path@) {
        comic_paths(entries.drop_last()).push(entries.last().path@)
    } else {
        comic_paths(entries.drop_last())
    }
}

/// The views of a vector of strings.
pub open spec fn views_of(v: Seq<String>) -> Seq<Seq<char>> {
    Seq::new(v.len(), |i: int| v[i]@)
}

/// The comic files found while walking a folder (files with a comic extension).
pub fn scan_directory(entries: &Vec<WalkEntry>) -> (r: Vec<String>)
    ensures
        views_of(r@) == comic_paths(entries@),
{
    let mut r: Vec<String> = Vec::new();
    let mut i: usize = 0;
    while i < entries.len()
        invariant
            i <= entries@.len(),
            views_of(r@) == comic_paths(entries@.subrange(0, i as int)),
        decreases entries@.len() - i,
    {
        assert(entries@.subrange(0, i + 1).drop_last() =~= entries@.subrange(0, i as int));
        let ghost before = views_of(r@);
        if entries[i].is_file && is_comic_file(entries[i].path.as_str()) {
            r.push(entries[i].path.clone());
            assert(views_of(r@) =~= before.push(entries@[i as int].path@));
        }
        i = i + 1;
    }
    assert(entries@.subrange(0, entries@.len() as int) =~= entries@);
    r
}

// ── thumbnails still to make ──────────────────────────────────────────────

/// A comic of the library as the thumbnail pass sees it.
#[derive(Clone, Debug)]
pub struct ThumbnailCandidate {
    pub id_comicbook: i64,
    pub path: String,
    /// The error of the last scan of this comic, if any.
    pub error_ultimo_escaneo: Option<String>,
    /// Whether its thumbnail is already on disk.
    pub thumbnail_exists: bool,
    /// Whether the current scan found the file.
    pub scanned: bool,
}

/// The candidate needs a thumbnail: none on disk, no known error, and found
/// by the scan when only scanned comics count.
pub open spec fn needs_thumbnail(c: ThumbnailCandidate, only_scanned: bool) -> bool {
    (!only_scanned || c.scanned) && !c.thumbnail_exists && c.error_ultimo_escaneo is None
}

/// The comics that need a thumbnail, by id and path, in order.
pub open spec fn pending_of(cs: Seq<ThumbnailCandidate>, only_scanned: bool) -> Seq<(i64, Seq<char>)>
    decreases cs.len(),
{
    if cs.len() == 0 {
        Seq::empty()
    } else if needs_thumbnail(cs.last(), only_scanned) {
        pending_of(cs.drop_last(), only_scanned).push((cs.last().id_comicbook, cs.last().path@))
    } else {
        pending_of(cs.drop_last(), only_scanned)
    }
}

/// The comics whose thumbnail is still to be made: after a scan only the
/// files it found (`only_scanned`); comics with a known error are not retried.
pub fn pending_thumbnails(candidates: &Vec<ThumbnailCandidate>, only_scanned: bool) -> (r: Vec<(i64, String)>)
    ensures
        Seq::new(r@.len(), |i: int| (r@[i].0, r@[i].1@)) == pending_of(candidates@, only_scanned),
{
    let mut r: Vec<(i64, String)> = Vec::new();
    let mut i: usize = 0;
    while i < candidates.len()
        invariant
            i <= candidates@.len(),
            Seq::new(r@.len(), |k: int| (r@[k].0, r@[k].1@)) == pending_of(candidates@.subrange(0, i as int), only_scanned),
        decreases candidates@.len() - i,
    {
        assert(candidates@.subrange(0, i + 1).drop_last() =~= candidates@.subrange(0, i as int));
        let c = &candidates[i];
        let ghost before = Seq::new(r@.len(), |k: int| (r@[k].0, r@[k].1@));
        if (!only_scanned || c.scanned) && !c.thumbnail_exists && c.error_ultimo_escaneo.is_none() {
            r.push((c.id_comicbook, c.path.clone()));
            assert(Seq::new(r@.len(), |k: int| (r@[k].0, r@[k].1@)) =~= before.push((c.id_comicbook, c.path@)));
        }
        i = i + 1;
    }
    assert(candidates@.subrange(0, candidates@.len() as int) =~= candidates@);
    r
}

/// The error recorded for a comic whose thumbnail could not be made.
pub fn thumbnail_error(path: &str, message: &str) -> (r: String)
    ensures
        r@ == "Error en '"@ + path@ + "': "@ + message@,
{
    let mut v = chars_of("Error en '");
    push_str(&mut v, path);
    push_str(&mut v, "': ");
    push_str(&mut v, message);
    string_of(v.as_slice())
}

// ── covers of catalogued issues ───────────────────────────────────────────

/// Where the cover of a catalogued issue is read from for indexing: its
/// local path when set, else the file named after its URL in the volume's
/// cover folder; none when the URL names no file.
pub open spec fn cover_source_of(base: Seq<char>, ruta_local: Seq<char>, url: Seq<char>, volume: Seq<char>, volume_id: i64) -> Option<Seq<char>> {
    if ruta_local.len() > 0 {
        Some(ruta_local)
    } else if url_file_name(url).len() == 0 {
        None
    } else {
        Some(
            join_path(
                join_path(join_path(base, "comicbook_info"@), strip_unsafe(volume) + seq!['_'] + dec_int(volume_id as int)),
                url_file_name(url),
            ),
        )
    }
}

/// The file to read the cover of a catalogued issue from.
pub fn clip_cover_path(paths: &ThumbnailPaths, ruta_local: &str, url_original: &str, volume_name: &str, id_volume: i64) -> (r: Option<String>)
    ensures
        match r {
            Some(p) => cover_source_of(paths.base@, ruta_local@, url_original@, volume_name@, id_volume) == Some(p@),
            None => cover_source_of(paths.base@, ruta_local@, url_original@, volume_name@, id_volume) is None,
        },
{
    if !ruta_local.is_empty() {
        return Some(ruta_local.to_owned());
    }
    let name = cover_file_name(url_original);
    if name.as_str().is_empty() {
        return None;
    }
    Some(paths.comicbook_info_thumbnail_path(volume_name, id_volume, name.as_str()))
}

/// The error recorded for a cover that could not be indexed.
pub fn clip_error(cover_id: i64, stage: &str, message: &str) -> (r: String)
    ensures
        r@ == "cover "@ + dec_int(cover_id as int) + ": "@ + stage@ + ": "@ + message@,
{
    let mut v = chars_of("cover ");
    let d = fmt_i64(cover_id);
    push_all(&mut v, d.as_slice());
    push_str(&mut v, ": ");
    push_str(&mut v, stage);
    push_str(&mut v, ": ");
    push_str(&mut v, message);
    string_of(v.as_slice())
}

// ── texts ─────────────────────────────────────────────────────────────────

/// The summary of a scan: found, new and generated counts, and the errors
/// when there are any, separated by ` · `.
pub open spec fn scan_summary(found: nat, new: nat, generated: nat, errors: nat) -> Seq<char> {
    let base = dec(found) + " cómics encontrados · "@ + dec(new) + " nuevos · "@ + dec(generated)
        + " miniaturas generadas"@;
    if errors > 0 {
        base + " · "@ + dec(errors) + " errores"@
    } else {
        base
    }
}

/// The summary of a scan shown in the preferences.
pub fn format_scan_summary(result: &ScanResult) -> (r: String)
    ensures
        r@ == scan_summary(
            result.total_found as nat,
            result.new_inserted as nat,
            result.covers_generated as nat,
            result.errors@.len(),
        ),
{
    let a = fmt_u64(result.total_found as u64);
    let mut v = a;
    push_str(&mut v, " cómics encontrados · ");
    let b = fmt_u64(result.new_inserted);
    push_all(&mut v, b.as_slice());
    push_str(&mut v, " nuevos · ");
    let c = fmt_u64(result.covers_generated as u64);
    push_all(&mut v, c.as_slice());
    push_str(&mut v, " miniaturas generadas");
    if result.errors.len() > 0 {
        push_str(&mut v, " · ");
        let e = fmt_u64(result.errors.len() as u64);
        push_all(&mut v, e.as_slice());
        push_str(&mut v, " errores");
    }
    string_of(v.as_slice())
}

/// The title shown for a comic: its catalogue title, else the stem of its
/// file name, else its path.
pub open spec fn display_title_of(titulo: Option<Seq<char>>, path: Seq<char>) -> Seq<char> {
    match titulo {
        Some(t) => t,
        None => match file_stem_of(path) {
            Some(s) => s,
            None => path,
        },
    }
}

/// The title shown for a comic in the lists.
pub fn comic_title(titulo: Option<&str>, path: &str) -> (r: String)
    ensures
        r@ == display_title_of(match titulo { Some(t) => Some(t@), None => None }, path@),
{
    match titulo {
        Some(t) => t.to_owned(),
        None => {
            let p = chars_of(path);
            match file_stem(p.as_slice()) {
                Some(s) => string_of(s.as_slice()),
                None => path.to_owned(),
            }
        },
    }
}

/// Counts behind the CLIP indexing dialog of a volume.
#[derive(Clone, Copy, Debug, PartialEq, Eq, Structural)]
pub struct ClipDialogStats {
    pub total_db: i64,
    pub con_archivo: i64,
    pub indexadas: i64,
    pub total_missing_candidates: i64,
    pub total_all_candidates: i64,
}

/// The text of the CLIP indexing dialog of a volume.
pub fn build_clip_dialog_body(stats: ClipDialogStats) -> (r: String)
    ensures
        r@ == if stats.total_all_candidates == 0 {
            "Este volumen no tiene portadas candidatas para indexar.\nHay "@ + dec_int(stats.total_db as int)
                + " issues en BD y "@ + dec_int(stats.indexadas as int) + " embeddings ya guardados."@
        } else if stats.total_missing_candidates == 0 {
            "No quedan faltantes en este volumen.\nYa hay "@ + dec_int(stats.indexadas as int)
                + " portadas indexadas.\nPuedes reindexar "@ + dec_int(stats.total_all_candidates as int)
                + " portadas candidatas si quieres regenerarlas."@
        } else {
            "Faltan "@ + dec_int(stats.total_missing_candidates as int) + " portadas por indexar.\nYa hay "@
                + dec_int(stats.indexadas as int) + " indexadas de "@ + dec_int(stats.con_archivo as int)
                + " con archivo local.\nSi eliges reindexar, se procesarán "@ + dec_int(
                stats.total_all_candidates as int,
            ) + " portadas candidatas."@
        },
{
    let mut v: Vec<char>;
    if stats.total_all_candidates == 0 {
        v = chars_of("Este volumen no tiene portadas candidatas para indexar.\nHay ");
        let a = fmt_i64(stats.total_db);
        push_all(&mut v, a.as_slice());
        push_str(&mut v, " issues en BD y ");
        let b = fmt_i64(stats.indexadas);
        push_all(&mut v, b.as_slice());
        push_str(&mut v, " embeddings ya guardados.");
    } else if stats.total_missing_candidates == 0 {
        v = chars_of("No quedan faltantes en este volumen.\nYa hay ");
        let a = fmt_i64(stats.indexadas);
        push_all(&mut v, a.as_slice());
        push_str(&mut v, " portadas indexadas.\nPuedes reindexar ");
        let b = fmt_i64(stats.total_all_candidates);
        push_all(&mut v, b.as_slice());
        push_str(&mut v, " portadas candidatas si quieres regenerarlas.");
    } else {
        v = chars_of("Faltan ");
        let a = fmt_i64(stats.total_missing_candidates);
        push_all(&mut v, a.as_slice());
        push_str(&mut v, " portadas por indexar.\nYa hay ");
        let b = fmt_i64(stats.indexadas);
        push_all(&mut v, b.as_slice());
        push_str(&mut v, " indexadas de ");
        let c = fmt_i64(stats.con_archivo);
        push_all(&mut v, c.as_slice());
        push_str(&mut v, " con archivo local.\nSi eliges reindexar, se procesarán ");
        let d = fmt_i64(stats.total_all_candidates);
        push_all(&mut v, d.as_slice());
        push_str(&mut v, " portadas candidatas.");
    }
    string_of(v.as_slice())
}

// ── the reader ────────────────────────────────────────────────────────────

/// The page shown after "next": the following one, unless at the last page.
pub fn next_page_index(current: usize, page_count: usize) -> (r: usize)
    ensures
        r == if current < usize::MAX && current + 1 < page_count { (current + 1) as usize } else { current },
{
    if current < usize::MAX && current + 1 < page_count {
        current + 1
    } else {
        current
    }
}

/// The page shown after "previous": the preceding one, unless at the first page.
pub fn prev_page_index(current: usize) -> (r: usize)
    ensures
        r == if current > 0 { (current - 1) as usize } else { current },
{
    if current > 0 {
        current - 1
    } else {
        current
    }
}

} // verus!
