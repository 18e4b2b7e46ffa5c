//! Cover-hash suggestions: the `max_results` catalogued issues whose stored
//! difference hash is closest to the hash of a comic's cover.
//!
//! Rows are offered one at a time (as they stream out of the database). A row
//! whose hash does not parse is ignored; an issue already in the list is not
//! added twice; otherwise the row is inserted after every kept result at a distance not
//! above its own (a stable sort by distance), and the list is cut back to
//! `max_results`.
use vstd::prelude::*;
use crate::cover_hash::{compute_hash, distance, hash_distance, grey_9x8_of, is_hash_of};
use crate::thumbnail::CardSize;

verus! {

/// How a suggestion was found.
#[derive(Clone, Copy, Debug, PartialEq, Eq, Structural)]
pub enum SuggestionMethod {
    Clip,
    Hash,
}

/// A catalogued issue proposed for a comic, with the Hamming distance between
/// the two cover hashes.
#[derive(Clone, Debug)]
pub struct SuggestionResult {
    pub id_comicbook_info: i64,
    pub titulo: String,
    pub numero: Option<String>,
    pub id_volume: Option<i64>,
    pub nombre_volume: Option<String>,
    pub distance: u32,
    pub ruta_cover: Option<String>,
    /// Original ComicVine cover URL (to rebuild the local path when `ruta_cover` is unset).
    pub url_original: Option<String>,
}

/// One row of the candidate query: the stored hash of a catalogued comic and
/// the data of its issue.
#[derive(Clone, Debug)]
pub struct HashCandidate {
    pub embedding: String,
    pub id_comicbook_info: i64,
    pub titulo: String,
    pub numero: Option<String>,
    pub id_volume: Option<i64>,
    pub nombre_volume: Option<String>,
    pub ruta_cover: Option<String>,
    pub url_original: Option<String>,
}

/// `cover_hash::distance`, as an optional `u32`.
pub open spec fn distance_of(a: Seq<char>, b: Seq<char>) -> Option<u32> {
    match hash_distance(a, b) {
        Some(d) => Some(d as u32),
        None => None,
    }
}

/// The suggestion made from a row at distance `d`.
pub open spec fn result_of(row: HashCandidate, d: u32) -> SuggestionResult {
    SuggestionResult {
        id_comicbook_info: row.id_comicbook_info,
        titulo: row.titulo,
        numero: row.numero,
        id_volume: row.id_volume,
        nombre_volume: row.nombre_volume,
        distance: d,
        ruta_cover: row.ruta_cover,
        url_original: row.url_original,
    }
}

/// Where a stable sort by distance puts a new entry at distance `d` in a list
/// sorted by distance: after every entry whose distance is not above `d`.
pub open spec fn insert_pos(s: Seq<SuggestionResult>, d: u32) -> int
    decreases s.len(),
{
    if s.len() == 0 {
        0
    } else if s.last().distance <= d {
        s.len() as int
    } else {
        insert_pos(s.drop_last(), d)
    }
}

/// The issue `id` is already in the list.
pub open spec fn has_issue(s: Seq<SuggestionResult>, id: i64) -> bool {
    exists|i: int| 0 <= i < s.len() && s[i].id_comicbook_info == id
}

/// The list after offering one row whose distance to the target is `dist`.
pub open spec fn offer_step(s: Seq<SuggestionResult>, max: nat, dist: Option<u32>, row: HashCandidate) -> Seq<SuggestionResult> {
    match dist {
        None => s,
        Some(d) => if has_issue(s, row.id_comicbook_info) {
            s
        } else {
            let t = s.insert(insert_pos(s, d), result_of(row, d));
            if t.len() > max {
                t.drop_last()
            } else {
                t
            }
        },
    }
}

/// The list after offering every row of `rows`, in order, starting empty.
pub open spec fn select_spec(target: Seq<char>, rows: Seq<HashCandidate>, max: nat) -> Seq<SuggestionResult>
    decreases rows.len(),
{
    if rows.len() == 0 {
        Seq::empty()
    } else {
        offer_step(
            select_spec(target, rows.drop_last(), max),
            max,
            distance_of(target, rows.last().embedding@),
            rows.last(),
        )
    }
}

/// Sorted by distance, no issue twice, at most `max` entries.
pub open spec fn well_formed(s: Seq<SuggestionResult>, max: nat) -> bool {
    &&& forall|i: int, j: int| 0 <= i <= j < s.len() ==> s[i].distance <= s[j].distance
    &&& forall|i: int, j: int| 0 <= i < j < s.len() ==> s[i].id_comicbook_info != s[j].id_comicbook_info
    &&& s.len() <= max
}

/// An ongoing selection: the target hash, the size limit and the best results so far.
pub struct SuggestionSelection {
    pub target_hash: String,
    pub max_results: usize,
    pub best: Vec<SuggestionResult>,
}

impl SuggestionSelection {
    /// An empty selection against `target_hash`.
    pub fn new(target_hash: String, max_results: usize) -> (r: Self)
        ensures
            r.target_hash@ == target_hash@,
            r.max_results == max_results,
            r.best@ == Seq::<SuggestionResult>::empty(),
    {
        SuggestionSelection { target_hash, max_results, best: Vec::new() }
    }

    /// Offers one candidate row to the selection.
    pub fn offer(&mut self, row: HashCandidate)
        ensures
            final(self).target_hash == old(self).target_hash,
            final(self).max_results == old(self).max_results,
            final(self).best@ == offer_step(
                old(self).best@,
                old(self).max_results as nat,
                distance_of(old(self).target_hash@, row.embedding@),
                row,
            ),
    {
        let dist = match distance(self.target_hash.as_str(), row.embedding.as_str()) {
            Some(d) => d,
            None => return,
        };
        let n = self.best.len();
        let mut i: usize = 0;
        while i < n
            invariant
                n == self.best@.len(),
                i <= n,
                self.best@ == old(self).best@,
                self.target_hash == old(self).target_hash,
                self.max_results == old(self).max_results,
                forall|j: int| 0 <= j < i ==> self.best@[j].id_comicbook_info != row.id_comicbook_info,
            decreases n - i,
        {
            if self.best[i].id_comicbook_info == row.id_comicbook_info {
                return;
            }
            i = i + 1;
        }
        let ghost s = self.best@;
        let mut p: usize = n;
        assert(s.subrange(0, n as int) =~= s);
        while p > 0 && self.best[p - 1].distance > dist
            invariant
                p <= n,
                n == s.len(),
                self.best@ == s,
                insert_pos(s, dist) == insert_pos(s.subrange(0, p as int), dist),
            decreases p,
        {
            assert(s.subrange(0, p as int).drop_last() =~= s.subrange(0, p - 1));
            p = p - 1;
        }
        proof {
            if p == 0 {
                assert(s.subrange(0, 0) =~= Seq::<SuggestionResult>::empty());
            } else {
                assert(s.subrange(0, p as int).last() == s[p - 1]);
            }
        }
        let result = SuggestionResult {
            id_comicbook_info: row.id_comicbook_info,
            titulo: row.titulo,
            numero: row.numero,
            id_volume: row.id_volume,
            nombre_volume: row.nombre_volume,
            distance: dist,
            ruta_cover: row.ruta_cover,
            url_original: row.url_original,
        };
        self.best.insert(p, result);
        if self.best.len() > self.max_results {
            self.best.pop();
        }
    }
}

/// Selects, from candidate rows in query order, the `max_results` issues whose
/// stored hash is closest to `target_hash`.
pub fn select_suggestions(target_hash: &str, rows: Vec<HashCandidate>, max_results: usize) -> (r: Vec<SuggestionResult>)
    ensures
        r@ == select_spec(target_hash@, rows@, max_results as nat),
{
    let mut sel = SuggestionSelection::new(target_hash.to_string(), max_results);
    let ghost all = rows@;
    let n = rows.len();
    let mut rows = rows;
    // Reverse the rows so that popping yields them in query order.
    let mut pending: Vec<HashCandidate> = Vec::new();
    while rows.len() > 0
        invariant
            n == all.len(),
            rows@ == all.subrange(0, rows@.len() as int),
            pending@.len() == n - rows@.len(),
            forall|j: int| 0 <= j < pending@.len() ==> pending@[j] == all[n - 1 - j],
        decreases rows.len(),
    {
        let row = rows.pop().unwrap();
        pending.push(row);
    }
    assert(all.subrange(0, 0) =~= Seq::<HashCandidate>::empty());
    while pending.len() > 0
        invariant
            n == all.len(),
            pending@.len() <= n,
            forall|j: int| 0 <= j < pending@.len() ==> pending@[j] == all[n - 1 - j],
            sel.target_hash@ == target_hash@,
            sel.max_results == max_results,
            sel.best@ == select_spec(target_hash@, all.subrange(0, n - pending@.len()), max_results as nat),
        decreases pending.len(),
    {
        let ghost k = n - pending@.len();
        let row = pending.pop().unwrap();
        assert(row == all[k]);
        assert(all.subrange(0, k + 1).drop_last() =~= all.subrange(0, k));
        sel.offer(row);
    }
    assert(all.subrange(0, n as int) =~= all);
    sel.best
}

proof fn lemma_insert_pos(s: Seq<SuggestionResult>, d: u32)
    requires
        forall|i: int, j: int| 0 <= i <= j < s.len() ==> s[i].distance <= s[j].distance,
    ensures
        0 <= insert_pos(s, d) <= s.len(),
        forall|j: int| 0 <= j < insert_pos(s, d) ==> s[j].distance <= d,
        forall|j: int| insert_pos(s, d) <= j < s.len() ==> s[j].distance > d,
    decreases s.len(),
{
    if s.len() > 0 {
        if s.last().distance > d {
            let t = s.drop_last();
            lemma_insert_pos(t, d);
            assert forall|j: int| 0 <= j < insert_pos(s, d) implies s[j].distance <= d by {
                assert(s[j] == t[j]);
            }
            assert forall|j: int| insert_pos(s, d) <= j < s.len() implies s[j].distance > d by {
                if j < s.len() - 1 {
                    assert(s[j] == t[j]);
                }
            }
        } else {
            assert forall|j: int| 0 <= j < insert_pos(s, d) implies s[j].distance <= d by {
                assert(s[j].distance <= s[s.len() - 1].distance);
            }
        }
    }
}

/// Offering a row keeps the list sorted by distance, free of repeated issues
/// and within `max` entries.
pub proof fn offer_keeps_well_formed(s: Seq<SuggestionResult>, max: nat, dist: Option<u32>, row: HashCandidate)
    requires
        well_formed(s, max),
    ensures
        well_formed(offer_step(s, max, dist, row), max),
{
    if let Some(d) = dist {
        if !has_issue(s, row.id_comicbook_info) {
            lemma_insert_pos(s, d);
            let p = insert_pos(s, d);
            let t = s.insert(p, result_of(row, d));
            assert forall|i: int, j: int| 0 <= i <= j < t.len() implies t[i].distance <= t[j].distance by {
                if i < p && j > p {
                    assert(t[i] == s[i] && t[j] == s[j - 1]);
                } else if i < p && j == p {
                    assert(t[i] == s[i]);
                } else if i < p {
                    assert(t[i] == s[i] && t[j] == s[j]);
                } else if i == p && j > p {
                    assert(t[j] == s[j - 1]);
                } else if i > p {
                    assert(t[i] == s[i - 1] && t[j] == s[j - 1]);
                }
            }
            assert forall|i: int, j: int| 0 <= i < j < t.len() implies t[i].id_comicbook_info != t[j].id_comicbook_info by {
                if i < p && j > p {
                    assert(t[i] == s[i] && t[j] == s[j - 1]);
                } else if i < p && j == p {
                    assert(t[i] == s[i]);
                } else if i < p {
                    assert(t[i] == s[i] && t[j] == s[j]);
                } else if i == p {
                    assert(t[j] == s[j - 1]);
                } else {
                    assert(t[i] == s[i - 1] && t[j] == s[j - 1]);
                }
            }
        }
    }
}

/// Whatever the rows, the selection is sorted by distance, holds each issue at
/// most once and has at most `max` entries.
pub proof fn selection_well_formed(target: Seq<char>, rows: Seq<HashCandidate>, max: nat)
    ensures
        well_formed(select_spec(target, rows, max), max),
    decreases rows.len(),
{
    if rows.len() > 0 {
        selection_well_formed(target, rows.drop_last(), max);
        offer_keeps_well_formed(
            select_spec(target, rows.drop_last(), max),
            max,
            distance_of(target, rows.last().embedding@),
            rows.last(),
        );
    }
}

/// The thumbnails tried, in order, for the hash of a comic's cover.
pub fn hash_thumbnail_order() -> (r: Vec<CardSize>)
    ensures
        r@ == seq![CardSize::Medium, CardSize::Large, CardSize::Small],
{
    let mut v = Vec::new();
    v.push(CardSize::Medium);
    v.push(CardSize::Large);
    v.push(CardSize::Small);
    v
}

/// The hash of the first of the given thumbnails (the ones that could be
/// read, in the order tried) that decodes as an image.
pub fn first_cover_hash(thumbnails: &Vec<Vec<u8>>) -> (r: Option<String>)
    ensures
        match r {
            Some(s) => exists|i: int| {
                &&& 0 <= i < thumbnails@.len()
                &&& forall|j: int| 0 <= j < i ==> grey_9x8_of(#[trigger] thumbnails@[j]@) is None
                &&& grey_9x8_of(#[trigger] thumbnails@[i]@) matches Some(px) && is_hash_of(s@, px)
            },
            None => forall|j: int| 0 <= j < thumbnails@.len() ==> grey_9x8_of(#[trigger] thumbnails@[j]@) is None,
        },
{
    let mut i: usize = 0;
    while i < thumbnails.len()
        invariant
            i <= thumbnails@.len(),
            forall|j: int| 0 <= j < i ==> grey_9x8_of(#[trigger] thumbnails@[j]@) is None,
        decreases thumbnails@.len() - i,
    {
        match compute_hash(thumbnails[i].as_slice()) {
            Some(h) => {
                return Some(h);
            },
            None => {},
        }
        i = i + 1;
    }
    None
}

// ── the closest results are kept ──────────────────────────────────────────

/// A row that can be compared: its hash parses as a hash.
pub open spec fn eligible(target: Seq<char>, row: HashCandidate) -> bool {
    distance_of(target, row.embedding@) is Some
}

/// No two rows are of the same issue.
pub open spec fn distinct_issues(rows: Seq<HashCandidate>) -> bool {
    forall|i: int, j: int| 0 <= i < j < rows.len() ==> rows[i].id_comicbook_info != rows[j].id_comicbook_info
}

/// Every kept result is at distance at most `d`.
pub open spec fn all_within(s: Seq<SuggestionResult>, d: u32) -> bool {
    forall|k: int| 0 <= k < s.len() ==> s[k].distance <= d
}

/// The result came from some row of `rows`, at that row's distance.
pub open spec fn from_rows(target: Seq<char>, rows: Seq<HashCandidate>, e: SuggestionResult) -> bool {
    exists|j: int| 0 <= j < rows.len() && #[trigger] rows[j].id_comicbook_info == e.id_comicbook_info
        && distance_of(target, rows[j].embedding@) == Some(e.distance)
}

proof fn lemma_insert_sorted(s: Seq<SuggestionResult>, d: u32, e: SuggestionResult)
    requires
        forall|i: int, j: int| 0 <= i <= j < s.len() ==> s[i].distance <= s[j].distance,
        e.distance == d,
    ensures
        forall|i: int, j: int| 0 <= i <= j < s.insert(insert_pos(s, d), e).len() ==> s.insert(insert_pos(s, d), e)[i].distance
            <= s.insert(insert_pos(s, d), e)[j].distance,
{
    lemma_insert_pos(s, d);
    let p = insert_pos(s, d);
    let t = s.insert(p, e);
    assert forall|i: int, j: int| 0 <= i <= j < t.len() implies t[i].distance <= t[j].distance by {
        if i < p && j > p {
            assert(t[i] == s[i] && t[j] == s[j - 1]);
        } else if i < p && j == p {
            assert(t[i] == s[i]);
        } else if i < p {
            assert(t[i] == s[i] && t[j] == s[j]);
        } else if i == p && j > p {
            assert(t[j] == s[j - 1]);
        } else if i > p {
            assert(t[i] == s[i - 1] && t[j] == s[j - 1]);
        }
    }
}

/// What holds after every prefix of the rows: the list is well formed, each
/// result comes from a row, and each eligible row left out faces a full list
/// of results at least as close.
pub open spec fn selection_invariant(target: Seq<char>, rows: Seq<HashCandidate>, max: nat, s: Seq<SuggestionResult>) -> bool {
    &&& well_formed(s, max)
    &&& forall|k: int| 0 <= k < s.len() ==> from_rows(target, rows, #[trigger] s[k])
    &&& forall|j: int| 0 <= j < rows.len() && eligible(target, #[trigger] rows[j]) && !has_issue(s, rows[j].id_comicbook_info)
        ==> s.len() == max && all_within(s, distance_of(target, rows[j].embedding@).unwrap())
}

/// Facts about the rows before the last one, carried into the whole rows.
proof fn lemma_prefix_in_rows(target: Seq<char>, rows: Seq<HashCandidate>, max: nat, s0: Seq<SuggestionResult>)
    requires
        rows.len() > 0,
        distinct_issues(rows),
        selection_invariant(target, rows.drop_last(), max, s0),
    ensures
        forall|k: int| 0 <= k < s0.len() ==> from_rows(target, rows, #[trigger] s0[k]),
        !has_issue(s0, rows.last().id_comicbook_info),
{
    let pre = rows.drop_last();
    let n = rows.len() - 1;
    assert forall|k: int| 0 <= k < s0.len() implies from_rows(target, rows, #[trigger] s0[k]) by {
        assert(from_rows(target, pre, s0[k]));
        let j = choose|j: int| 0 <= j < pre.len() && #[trigger] pre[j].id_comicbook_info == s0[k].id_comicbook_info
            && distance_of(target, pre[j].embedding@) == Some(s0[k].distance);
        assert(rows[j] == pre[j]);
    }
    if has_issue(s0, rows.last().id_comicbook_info) {
        let k = choose|k: int| 0 <= k < s0.len() && s0[k].id_comicbook_info == rows.last().id_comicbook_info;
        assert(from_rows(target, pre, s0[k]));
        let j = choose|j: int| 0 <= j < pre.len() && #[trigger] pre[j].id_comicbook_info == s0[k].id_comicbook_info
            && distance_of(target, pre[j].embedding@) == Some(s0[k].distance);
        assert(rows[j] == pre[j]);
        assert(rows[n] == rows.last());
        assert(false);
    }
}

/// The distance kept with a result is the distance of the row of its issue.
proof fn lemma_distance_of_issue(target: Seq<char>, rows: Seq<HashCandidate>, e: SuggestionResult, j: int)
    requires
        distinct_issues(rows),
        from_rows(target, rows, e),
        0 <= j < rows.len(),
        rows[j].id_comicbook_info == e.id_comicbook_info,
    ensures
        distance_of(target, rows[j].embedding@) == Some(e.distance),
{
    let j2 = choose|j2: int| 0 <= j2 < rows.len() && #[trigger] rows[j2].id_comicbook_info == e.id_comicbook_info
        && distance_of(target, rows[j2].embedding@) == Some(e.distance);
    if j2 != j {
        if j2 < j {
            assert(rows[j2].id_comicbook_info != rows[j].id_comicbook_info);
        } else {
            assert(rows[j].id_comicbook_info != rows[j2].id_comicbook_info);
        }
    }
}

/// The step that leaves the list as it is keeps the invariant.
proof fn lemma_step_unchanged(target: Seq<char>, rows: Seq<HashCandidate>, max: nat, s0: Seq<SuggestionResult>)
    requires
        rows.len() > 0,
        distinct_issues(rows),
        selection_invariant(target, rows.drop_last(), max, s0),
        !eligible(target, rows.last()) || has_issue(s0, rows.last().id_comicbook_info),
    ensures
        selection_invariant(target, rows, max, s0),
{
    lemma_prefix_in_rows(target, rows, max, s0);
    let pre = rows.drop_last();
    assert forall|j: int| 0 <= j < rows.len() && eligible(target, #[trigger] rows[j]) && !has_issue(s0, rows[j].id_comicbook_info)
        implies s0.len() == max && all_within(s0, distance_of(target, rows[j].embedding@).unwrap()) by {
        if j < rows.len() - 1 {
            assert(pre[j] == rows[j]);
        }
    }
}

/// Inserting into a list that stays within `max` keeps the invariant.
proof fn lemma_step_grow(target: Seq<char>, rows: Seq<HashCandidate>, max: nat, s0: Seq<SuggestionResult>, d: u32)
    requires
        rows.len() > 0,
        distinct_issues(rows),
        selection_invariant(target, rows.drop_last(), max, s0),
        distance_of(target, rows.last().embedding@) == Some(d),
        s0.len() + 1 <= max,
    ensures
        selection_invariant(target, rows, max, s0.insert(insert_pos(s0, d), result_of(rows.last(), d))),
{
    lemma_prefix_in_rows(target, rows, max, s0);
    let pre = rows.drop_last();
    let n = rows.len() - 1;
    let e = result_of(rows.last(), d);
    let p = insert_pos(s0, d);
    let t = s0.insert(p, e);
    lemma_insert_pos(s0, d);
    lemma_insert_sorted(s0, d, e);
    assert(offer_step(s0, max, Some(d), rows.last()) == t);
    offer_keeps_well_formed(s0, max, Some(d), rows.last());
    assert(from_rows(target, rows, e)) by {
        assert(rows[n] == rows.last());
    }
    assert forall|k: int| 0 <= k < t.len() implies from_rows(target, rows, #[trigger] t[k]) by {
        if k < p {
            assert(t[k] == s0[k]);
        } else if k > p {
            assert(t[k] == s0[k - 1]);
        }
    }
    assert forall|j: int| 0 <= j < rows.len() && eligible(target, #[trigger] rows[j]) && !has_issue(t, rows[j].id_comicbook_info)
        implies t.len() == max && all_within(t, distance_of(target, rows[j].embedding@).unwrap()) by {
        if j < n {
            assert(pre[j] == rows[j]);
            if has_issue(s0, rows[j].id_comicbook_info) {
                let k = choose|k: int| 0 <= k < s0.len() && s0[k].id_comicbook_info == rows[j].id_comicbook_info;
                if k < p {
                    assert(t[k] == s0[k]);
                } else {
                    assert(t[k + 1] == s0[k]);
                }
            }
        } else {
            assert(t[p] == e);
        }
    }
}

/// Inserting into a full list and dropping its last result keeps the invariant.
#[verifier::spinoff_prover]
proof fn lemma_step_full(target: Seq<char>, rows: Seq<HashCandidate>, max: nat, s0: Seq<SuggestionResult>, d: u32)
    requires
        rows.len() > 0,
        distinct_issues(rows),
        selection_invariant(target, rows.drop_last(), max, s0),
        distance_of(target, rows.last().embedding@) == Some(d),
        s0.len() == max,
    ensures
        selection_invariant(target, rows, max, s0.insert(insert_pos(s0, d), result_of(rows.last(), d)).drop_last()),
{
    lemma_prefix_in_rows(target, rows, max, s0);
    let pre = rows.drop_last();
    let n = rows.len() - 1;
    let e = result_of(rows.last(), d);
    let p = insert_pos(s0, d);
    let t = s0.insert(p, e);
    let s1 = t.drop_last();
    lemma_insert_pos(s0, d);
    lemma_insert_sorted(s0, d, e);
    assert(offer_step(s0, max, Some(d), rows.last()) == s1);
    offer_keeps_well_formed(s0, max, Some(d), rows.last());
    assert(from_rows(target, rows, e)) by {
        assert(rows[n] == rows.last());
    }
    assert forall|k: int| 0 <= k < t.len() implies from_rows(target, rows, #[trigger] t[k]) by {
        if k < p {
            assert(t[k] == s0[k]);
        } else if k > p {
            assert(t[k] == s0[k - 1]);
        }
    }
    assert forall|k: int| 0 <= k < s1.len() implies from_rows(target, rows, #[trigger] s1[k]) by {
        assert(s1[k] == t[k]);
    }
    assert forall|j: int| 0 <= j < rows.len() && eligible(target, #[trigger] rows[j]) && !has_issue(s1, rows[j].id_comicbook_info)
        implies s1.len() == max && all_within(s1, distance_of(target, rows[j].embedding@).unwrap()) by {
        let dj = distance_of(target, rows[j].embedding@).unwrap();
        if has_issue(t, rows[j].id_comicbook_info) {
            let k = choose|k: int| 0 <= k < t.len() && t[k].id_comicbook_info == rows[j].id_comicbook_info;
            if k < t.len() - 1 {
                assert(s1[k] == t[k]);
            }
            lemma_distance_of_issue(target, rows, t[k], j);
            assert forall|m: int| 0 <= m < s1.len() implies s1[m].distance <= dj by {
                assert(s1[m] == t[m]);
            }
        } else {
            if j < n {
                assert(pre[j] == rows[j]);
                assert(!has_issue(s0, rows[j].id_comicbook_info)) by {
                    if has_issue(s0, rows[j].id_comicbook_info) {
                        let k = choose|k: int| 0 <= k < s0.len() && s0[k].id_comicbook_info == rows[j].id_comicbook_info;
                        if k < p {
                            assert(t[k] == s0[k]);
                        } else {
                            assert(t[k + 1] == s0[k]);
                        }
                    }
                }
                assert(all_within(s0, dj));
                assert forall|m: int| 0 <= m < s1.len() implies s1[m].distance <= dj by {
                    assert(s1[m] == t[m]);
                    assert(t[m].distance <= t[t.len() - 1].distance);
                    if p < s0.len() {
                        assert(t[t.len() - 1] == s0[s0.len() - 1]);
                    } else {
                        assert(t[m] == s0[m]);
                    }
                }
            } else {
                assert(t[p] == e);
                assert(rows[j] == rows.last());
            }
        }
    }
}

proof fn lemma_selection_invariant(target: Seq<char>, rows: Seq<HashCandidate>, max: nat)
    requires
        distinct_issues(rows),
    ensures
        selection_invariant(target, rows, max, select_spec(target, rows, max)),
    decreases rows.len(),
{
    if rows.len() == 0 {
        assert(select_spec(target, rows, max) == Seq::<SuggestionResult>::empty());
        return;
    }
    let pre = rows.drop_last();
    let x = rows.last();
    assert forall|i: int, j: int| 0 <= i < j < pre.len() implies pre[i].id_comicbook_info != pre[j].id_comicbook_info by {
        assert(pre[i] == rows[i] && pre[j] == rows[j]);
    }
    lemma_selection_invariant(target, pre, max);
    let s0 = select_spec(target, pre, max);
    lemma_prefix_in_rows(target, rows, max, s0);
    let dist = distance_of(target, x.embedding@);
    assert(select_spec(target, rows, max) == offer_step(s0, max, dist, x));
    match dist {
        None => {
            assert(offer_step(s0, max, dist, x) == s0);
            assert(!eligible(target, rows.last()));
            lemma_step_unchanged(target, rows, max, s0);
            assert(selection_invariant(target, rows, max, s0));
        },
        Some(d) => {
            if s0.len() + 1 <= max {
                lemma_step_grow(target, rows, max, s0, d);
            } else {
                lemma_step_full(target, rows, max, s0, d);
                let t = s0.insert(insert_pos(s0, d), result_of(x, d));
                lemma_insert_pos(s0, d);
                assert(t.len() == s0.len() + 1);
                assert(offer_step(s0, max, Some(d), x) == t.drop_last());
            }
        },
    }
}

/// The selection keeps the closest issues: when the rows are of distinct
/// issues, any row whose hash parses and that is not in the selection faces a
/// full list whose results are all at least as close to the target, whatever
/// its distance.
pub proof fn selection_keeps_the_closest(target: Seq<char>, rows: Seq<HashCandidate>, max: nat, j: int)
    requires
        distinct_issues(rows),
        0 <= j < rows.len(),
        eligible(target, rows[j]),
        !has_issue(select_spec(target, rows, max), rows[j].id_comicbook_info),
    ensures
        select_spec(target, rows, max).len() == max,
        all_within(select_spec(target, rows, max), distance_of(target, rows[j].embedding@).unwrap()),
{
    lemma_selection_invariant(target, rows, max);
}

} // verus!
