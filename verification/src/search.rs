//! The search box: a query of words to include and words to exclude, and the
//! SQL fragments that filter comics and volumes by it.
//!
//! The text is cut into words at whitespace, `+` and `-`. `batman robin` and
//! `batman + robin` include both words; `hulk -thor`, `hulk - thor` and
//! `hulk-thor` include `hulk` and exclude `thor`.
use vstd::prelude::*;
use crate::text::{
    chars_of, string_of, push_all, push_str, is_space, is_whitespace, lowercase_of, lowercase_chars, all_ascii,
    is_ascii_char, ascii_lower_seq,
};
use crate::natural::view_all;

verus! {

/// The words of a search query.
#[derive(Clone, Debug)]
pub struct ParsedQuery {
    pub must_include: Vec<String>,
    pub must_exclude: Vec<String>,
}

impl Default for ParsedQuery {
    fn default() -> (r: Self)
        ensures
            r.must_include@.len() == 0,
            r.must_exclude@.len() == 0,
    {
        ParsedQuery { must_include: Vec::new(), must_exclude: Vec::new() }
    }
}

impl ParsedQuery {
    /// No word to include or exclude.
    pub fn is_empty(&self) -> (r: bool)
        ensures
            r == (self.must_include@.len() == 0 && self.must_exclude@.len() == 0),
    {
        self.must_include.len() == 0 && self.must_exclude.len() == 0
    }
}

/// The views of a vector of strings.
pub open spec fn string_views(v: Seq<String>) -> Seq<Seq<char>> {
    Seq::new(v.len(), |i: int| v[i]@)
}

/// A character that separates the words of a query: whitespace, `+` or `-`.
pub open spec fn is_separator(c: char) -> bool {
    is_space(c) || c == '+' || c == '-'
}

/// The state of reading a query: the words to include and to exclude so far,
/// the word being read, whether that word is excluded, and whether the next
/// word is excluded (a `-` was read since the last word, and no `+` after it).
pub type ScanState = (Seq<Seq<char>>, Seq<Seq<char>>, Seq<char>, bool, bool);

/// The lists once the word `cur` is complete: its lower-cased form joins the
/// excluded words when `minus`, else the included ones (an empty word joins none).
pub open spec fn flush(inc: Seq<Seq<char>>, exc: Seq<Seq<char>>, cur: Seq<char>, minus: bool) -> (
    Seq<Seq<char>>,
    Seq<Seq<char>>,
) {
    if cur.len() == 0 || lowercase_of(cur).len() == 0 {
        (inc, exc)
    } else if minus {
        (inc, exc.push(lowercase_of(cur)))
    } else {
        (inc.push(lowercase_of(cur)), exc)
    }
}

/// The state after reading the characters of `s`, one by one.
pub open spec fn scan_query(s: Seq<char>) -> ScanState
    decreases s.len(),
{
    if s.len() == 0 {
        (Seq::empty(), Seq::empty(), Seq::empty(), false, false)
    } else {
        let (inc, exc, cur, minus, pending) = scan_query(s.drop_last());
        let c = s.last();
        if is_separator(c) {
            let (i2, e2) = flush(inc, exc, cur, minus);
            let next = if c == '-' {
                true
            } else if c == '+' {
                false
            } else if cur.len() > 0 {
                false
            } else {
                pending
            };
            (i2, e2, Seq::empty(), false, next)
        } else if cur.len() == 0 {
            (inc, exc, seq![c], pending, false)
        } else {
            (inc, exc, cur.push(c), minus, false)
        }
    }
}

/// The words a query includes and excludes: the query is cut at whitespace,
/// `+` and `-`; a word preceded by `-` (with no `+` between) is excluded.
pub open spec fn parsed_query(raw: Seq<char>) -> (Seq<Seq<char>>, Seq<Seq<char>>) {
    let st = scan_query(raw);
    flush(st.0, st.1, st.2, st.3)
}

/// A word free of separators and of upper-case ASCII letters.
pub open spec fn plain_word(w: Seq<char>) -> bool {
    &&& w.len() > 0
    &&& forall|k: int| 0 <= k < w.len() ==> !is_separator(#[trigger] w[k]) && !('A' <= w[k] && w[k] <= 'Z')
}

/// Every word of the list is plain.
pub open spec fn all_plain(ws: Seq<Seq<char>>) -> bool {
    forall|i: int| 0 <= i < ws.len() ==> plain_word(#[trigger] ws[i])
}

/// The characters of a word being read: ASCII and no separator.
pub open spec fn ascii_token(w: Seq<char>) -> bool {
    forall|k: int| 0 <= k < w.len() ==> is_ascii_char(#[trigger] w[k]) && !is_separator(w[k])
}

proof fn lemma_ascii_lower_plain(w: Seq<char>)
    requires
        w.len() > 0,
        ascii_token(w),
    ensures
        plain_word(ascii_lower_seq(w)),
{
    let l = ascii_lower_seq(w);
    assert forall|k: int| 0 <= k < l.len() implies !is_separator(#[trigger] l[k]) && !('A' <= l[k] && l[k] <= 'Z') by {
        let c = w[k];
        if 'A' <= c && c <= 'Z' {
            assert(65 <= (c as u32) <= 90);
            assert(l[k] == ((c as u32) + 32) as char);
            assert((l[k] as u32) == (c as u32) + 32);
        }
    }
}

fn flush_word(inc: &mut Vec<String>, exc: &mut Vec<String>, cur: &Vec<char>, minus: bool)
    ensures
        (string_views(final(inc)@), string_views(final(exc)@)) == flush(
            string_views(old(inc)@),
            string_views(old(exc)@),
            cur@,
            minus,
        ),
        all_ascii(cur@) && ascii_token(cur@) && all_plain(string_views(old(inc)@)) && all_plain(
            string_views(old(exc)@),
        ) ==> all_plain(string_views(final(inc)@)) && all_plain(string_views(final(exc)@)),
{
    if cur.len() == 0 {
        return;
    }
    let word = lowercase_chars(cur.as_slice());
    if word.len() == 0 {
        return;
    }
    proof {
        if all_ascii(cur@) && ascii_token(cur@) {
            lemma_ascii_lower_plain(cur@);
        }
    }
    let ghost i0 = string_views(inc@);
    let ghost e0 = string_views(exc@);
    if minus {
        exc.push(string_of(word.as_slice()));
        assert(string_views(exc@) =~= e0.push(word@));
    } else {
        inc.push(string_of(word.as_slice()));
        assert(string_views(inc@) =~= i0.push(word@));
    }
}

/// Splits the search text into words to include and words to exclude
/// (lower-cased). The text is cut at whitespace, `+` and `-`; a word
/// preceded by `-` is excluded unless a `+` comes between, every other word
/// is included. On ASCII text every word is free of separators and of
/// upper-case letters.
pub fn parse_search_query(raw: &str) -> (r: ParsedQuery)
    ensures
        string_views(r.must_include@) == parsed_query(raw@).0,
        string_views(r.must_exclude@) == parsed_query(raw@).1,
        all_ascii(raw@) ==> all_plain(string_views(r.must_include@)) && all_plain(string_views(r.must_exclude@)),
{
    let v = chars_of(raw);
    let mut inc: Vec<String> = Vec::new();
    let mut exc: Vec<String> = Vec::new();
    let mut cur: Vec<char> = Vec::new();
    let mut minus = false;
    let mut pending = false;
    let mut i: usize = 0;
    assert(v@.subrange(0, 0) =~= Seq::<char>::empty());
    while i < v.len()
        invariant
            i <= v@.len(),
            v@ == raw@,
            scan_query(v@.subrange(0, i as int)) == (
                string_views(inc@),
                string_views(exc@),
                cur@,
                minus,
                pending,
            ),
            all_ascii(raw@) ==> all_plain(string_views(inc@)) && all_plain(string_views(exc@)) && all_ascii(cur@)
                && ascii_token(cur@),
        decreases v@.len() - i,
    {
        let ghost pre = v@.subrange(0, i + 1);
        assert(pre.drop_last() =~= v@.subrange(0, i as int));
        assert(pre.last() == v@[i as int]);
        let c = v[i];
        if is_whitespace(c) || c == '+' || c == '-' {
            flush_word(&mut inc, &mut exc, &cur, minus);
            pending = if c == '-' {
                true
            } else if c == '+' {
                false
            } else if cur.len() > 0 {
                false
            } else {
                pending
            };
            cur = Vec::new();
            minus = false;
            assert(cur@ =~= Seq::<char>::empty());
        } else if cur.len() == 0 {
            cur.push(c);
            assert(cur@ =~= seq![c]);
            minus = pending;
            pending = false;
            proof {
                if all_ascii(raw@) {
                    assert(is_ascii_char(raw@[i as int]));
                }
            }
        } else {
            let ghost c0 = cur@;
            cur.push(c);
            pending = false;
            proof {
                if all_ascii(raw@) {
                    assert(is_ascii_char(raw@[i as int]));
                    assert forall|k: int| 0 <= k < cur@.len() implies is_ascii_char(#[trigger] cur@[k])
                        && !is_separator(cur@[k]) by {
                        if k < c0.len() {
                            assert(cur@[k] == c0[k]);
                        }
                    }
                }
            }
        }
        i = i + 1;
    }
    assert(v@.subrange(0, v@.len() as int) =~= v@);
    flush_word(&mut inc, &mut exc, &cur, minus);
    ParsedQuery { must_include: inc, must_exclude: exc }
}

// ── SQL fragments ─────────────────────────────────────────────────────────

/// The separator between clauses of a fragment.
pub open spec fn clause_separator() -> Seq<char> {
    "\n                 "@
}

/// `LIKE` pattern of a word: `%word%`.
pub open spec fn like_pattern(w: Seq<char>) -> Seq<char> {
    seq!['%'] + w + seq!['%']
}

/// `AND (cols)` once per word.
pub open spec fn clauses(n: nat, cols: Seq<char>) -> Seq<Seq<char>>
    decreases n,
{
    if n == 0 {
        Seq::empty()
    } else {
        clauses((n - 1) as nat, cols).push("AND ("@ + cols + ")"@)
    }
}

/// The pattern of each word, `copies` times in a row.
pub open spec fn bind_patterns(ws: Seq<Seq<char>>, copies: nat) -> Seq<Seq<char>>
    decreases ws.len(),
{
    if ws.len() == 0 {
        Seq::empty()
    } else {
        bind_patterns(ws.drop_last(), copies) + Seq::new(copies, |_i: int| like_pattern(ws.last()))
    }
}

/// Pieces joined with a separator.
pub open spec fn joined(parts: Seq<Seq<char>>, sep: Seq<char>) -> Seq<char>
    decreases parts.len(),
{
    if parts.len() == 0 {
        Seq::empty()
    } else if parts.len() == 1 {
        parts[0]
    } else {
        joined(parts.drop_last(), sep) + sep + parts.last()
    }
}

/// The fragment and its bound values for a query over columns `cols`
/// (`copies` placeholders per word; `not_cols` for excluded words).
pub open spec fn fragment(
    inc: Seq<Seq<char>>,
    exc: Seq<Seq<char>>,
    cols: Seq<char>,
    not_cols: Seq<char>,
    copies: nat,
) -> (Seq<char>, Seq<Seq<char>>) {
    if inc.len() == 0 && exc.len() == 0 {
        (Seq::empty(), Seq::empty())
    } else {
        (
            joined(clauses(inc.len(), cols) + clauses(exc.len(), not_cols), clause_separator()),
            bind_patterns(inc, copies) + bind_patterns(exc, copies),
        )
    }
}

fn push_clauses(parts: &mut Vec<Vec<char>>, n: usize, cols: &str)
    ensures
        view_all(final(parts)@) == view_all(old(parts)@) + clauses(n as nat, cols@),
{
    let ghost start = view_all(parts@);
    let mut k: usize = 0;
    while k < n
        invariant
            k <= n,
            view_all(parts@) == start + clauses(k as nat, cols@),
        decreases n - k,
    {
        let ghost before = view_all(parts@);
        let mut c = chars_of("AND (");
        push_str(&mut c, cols);
        push_str(&mut c, ")");
        parts.push(c);
        assert(view_all(parts@) =~= before.push("AND ("@ + cols@ + ")"@));
        k = k + 1;
        assert(start + clauses(k as nat, cols@) =~= (start + clauses((k - 1) as nat, cols@)).push("AND ("@ + cols@ + ")"@));
    }
}

fn push_patterns(binds: &mut Vec<String>, ws: &Vec<String>, copies: usize)
    ensures
        string_views(final(binds)@) == string_views(old(binds)@) + bind_patterns(string_views(ws@), copies as nat),
{
    let ghost start = string_views(binds@);
    let mut i: usize = 0;
    while i < ws.len()
        invariant
            i <= ws@.len(),
            string_views(binds@) == start + bind_patterns(string_views(ws@).subrange(0, i as int), copies as nat),
        decreases ws@.len() - i,
    {
        let ghost pre = string_views(ws@).subrange(0, i + 1);
        assert(pre.drop_last() =~= string_views(ws@).subrange(0, i as int));
        let mut p = chars_of("%");
        push_str(&mut p, ws[i].as_str());
        p.push('%');
        proof {
            reveal_strlit("%");
        }
        assert(p@ =~= like_pattern(ws@[i as int]@));
        let ghost mid = string_views(binds@);
        let mut c: usize = 0;
        while c < copies
            invariant
                c <= copies,
                i < ws@.len(),
                p@ == like_pattern(ws@[i as int]@),
                string_views(binds@) == mid + Seq::new(c as nat, |_j: int| like_pattern(ws@[i as int]@)),
            decreases copies - c,
        {
            let ghost b0 = string_views(binds@);
            binds.push(string_of(p.as_slice()));
            assert(string_views(binds@) =~= b0.push(p@));
            c = c + 1;
            assert(mid + Seq::new(c as nat, |_j: int| like_pattern(ws@[i as int]@)) =~= (mid + Seq::new(
                (c - 1) as nat,
                |_j: int| like_pattern(ws@[i as int]@),
            )).push(like_pattern(ws@[i as int]@)));
        }
        assert(pre.last() == ws@[i as int]@);
        assert(start + bind_patterns(pre, copies as nat) =~= mid + Seq::new(
            copies as nat,
            |_j: int| like_pattern(ws@[i as int]@),
        ));
        i = i + 1;
    }
    assert(string_views(ws@).subrange(0, ws@.len() as int) =~= string_views(ws@));
}

fn join_parts(parts: &Vec<Vec<char>>, sep: &str) -> (r: String)
    ensures
        r@ == joined(view_all(parts@), sep@),
{
    let mut out: Vec<char> = Vec::new();
    let mut i: usize = 0;
    while i < parts.len()
        invariant
            i <= parts@.len(),
            out@ == joined(view_all(parts@).subrange(0, i as int), sep@),
        decreases parts@.len() - i,
    {
        let ghost pre = view_all(parts@).subrange(0, i + 1);
        assert(pre.drop_last() =~= view_all(parts@).subrange(0, i as int));
        if i > 0 {
            push_str(&mut out, sep);
        }
        push_all(&mut out, parts[i].as_slice());
        proof {
            if i == 0 {
                assert(view_all(parts@).subrange(0, 0) =~= Seq::<Seq<char>>::empty());
                assert(out@ =~= parts@[0]@);
            }
        }
        i = i + 1;
    }
    assert(view_all(parts@).subrange(0, parts@.len() as int) =~= view_all(parts@));
    string_of(out.as_slice())
}

fn search_fragment(parsed: &ParsedQuery, cols: &str, not_cols: &str, copies: usize) -> (r: (String, Vec<String>))
    ensures
        (r.0@, string_views(r.1@)) == fragment(
            string_views(parsed.must_include@),
            string_views(parsed.must_exclude@),
            cols@,
            not_cols@,
            copies as nat,
        ),
{
    if parsed.is_empty() {
        let b: Vec<String> = Vec::new();
        assert(string_views(b@) =~= Seq::<Seq<char>>::empty());
        return (String::new(), b);
    }
    let mut parts: Vec<Vec<char>> = Vec::new();
    assert(view_all(parts@) =~= Seq::<Seq<char>>::empty());
    push_clauses(&mut parts, parsed.must_include.len(), cols);
    push_clauses(&mut parts, parsed.must_exclude.len(), not_cols);
    let mut binds: Vec<String> = Vec::new();
    assert(string_views(binds@) =~= Seq::<Seq<char>>::empty());
    push_patterns(&mut binds, &parsed.must_include, copies);
    push_patterns(&mut binds, &parsed.must_exclude, copies);
    let sep = "\n                 ";
    let text = join_parts(&parts, sep);
    proof {
        reveal_strlit("\n                 ");
    }
    assert(view_all(parts@) =~= clauses(parsed.must_include@.len() as nat, cols@) + clauses(
        parsed.must_exclude@.len() as nat,
        not_cols@,
    ));
    (text, binds)
}

/// The comic search filter: for each included word
/// `AND (title LIKE ? OR path LIKE ? OR volume LIKE ?)`, for each excluded
/// word the same with `NOT LIKE` and `AND`; three `%word%` values per word.
pub fn build_search_fragment(parsed: &ParsedQuery) -> (r: (String, Vec<String>))
    ensures
        (r.0@, string_views(r.1@)) == fragment(
            string_views(parsed.must_include@),
            string_views(parsed.must_exclude@),
            "COALESCE(ci.titulo, '') LIKE ? OR cb.path LIKE ? OR COALESCE(v.nombre, '') LIKE ?"@,
            "COALESCE(ci.titulo, '') NOT LIKE ? AND cb.path NOT LIKE ? AND COALESCE(v.nombre, '') NOT LIKE ?"@,
            3,
        ),
{
    search_fragment(
        parsed,
        "COALESCE(ci.titulo, '') LIKE ? OR cb.path LIKE ? OR COALESCE(v.nombre, '') LIKE ?",
        "COALESCE(ci.titulo, '') NOT LIKE ? AND cb.path NOT LIKE ? AND COALESCE(v.nombre, '') NOT LIKE ?",
        3,
    )
}

/// The volume search filter: name or deck, two `%word%` values per word.
pub fn build_volume_search_fragment(parsed: &ParsedQuery) -> (r: (String, Vec<String>))
    ensures
        (r.0@, string_views(r.1@)) == fragment(
            string_views(parsed.must_include@),
            string_views(parsed.must_exclude@),
            "v.nombre LIKE ? OR v.deck LIKE ?"@,
            "v.nombre NOT LIKE ? AND v.deck NOT LIKE ?"@,
            2,
        ),
{
    search_fragment(parsed, "v.nombre LIKE ? OR v.deck LIKE ?", "v.nombre NOT LIKE ? AND v.deck NOT LIKE ?", 2)
}

/// Order of the volumes grid.
#[derive(Clone, Copy, Debug, PartialEq, Eq, Structural)]
pub enum VolumeSortOrder {
    NombreAsc,
    NombreDesc,
    AnioAsc,
    AnioDesc,
    IssuesAsc,
    IssuesDesc,
}

impl Default for VolumeSortOrder {
    fn default() -> (r: Self)
        ensures
            r == VolumeSortOrder::NombreAsc,
    {
        VolumeSortOrder::NombreAsc
    }
}

impl VolumeSortOrder {
    /// The `ORDER BY` terms of the order.
    pub fn to_sql(self) -> (r: &'static str)
        ensures
            r@ == match self {
                VolumeSortOrder::NombreAsc => "v.nombre COLLATE NOCASE ASC"@,
                VolumeSortOrder::NombreDesc => "v.nombre COLLATE NOCASE DESC"@,
                VolumeSortOrder::AnioAsc => "v.anio_inicio ASC, v.nombre COLLATE NOCASE ASC"@,
                VolumeSortOrder::AnioDesc => "v.anio_inicio DESC, v.nombre COLLATE NOCASE ASC"@,
                VolumeSortOrder::IssuesAsc => "v.cantidad_numeros ASC, v.nombre COLLATE NOCASE ASC"@,
                VolumeSortOrder::IssuesDesc => "v.cantidad_numeros DESC, v.nombre COLLATE NOCASE ASC"@,
            },
    {
        match self {
            VolumeSortOrder::NombreAsc => "v.nombre COLLATE NOCASE ASC",
            VolumeSortOrder::NombreDesc => "v.nombre COLLATE NOCASE DESC",
            VolumeSortOrder::AnioAsc => "v.anio_inicio ASC, v.nombre COLLATE NOCASE ASC",
            VolumeSortOrder::AnioDesc => "v.anio_inicio DESC, v.nombre COLLATE NOCASE ASC",
            VolumeSortOrder::IssuesAsc => "v.cantidad_numeros ASC, v.nombre COLLATE NOCASE ASC",
            VolumeSortOrder::IssuesDesc => "v.cantidad_numeros DESC, v.nombre COLLATE NOCASE ASC",
        }
    }
}

// ── laws ──────────────────────────────────────────────────────────────────

proof fn lemma_scan_nonempty(s: Seq<char>)
    ensures
        forall|i: int| 0 <= i < scan_query(s).0.len() ==> #[trigger] scan_query(s).0[i].len() > 0,
        forall|i: int| 0 <= i < scan_query(s).1.len() ==> #[trigger] scan_query(s).1[i].len() > 0,
    decreases s.len(),
{
    if s.len() > 0 {
        lemma_scan_nonempty(s.drop_last());
        let p = scan_query(s.drop_last());
        let q = scan_query(s);
        assert forall|i: int| 0 <= i < q.0.len() implies #[trigger] q.0[i].len() > 0 by {
            if i < p.0.len() {
                assert(q.0[i] == p.0[i]);
            }
        }
        assert forall|i: int| 0 <= i < q.1.len() implies #[trigger] q.1[i].len() > 0 by {
            if i < p.1.len() {
                assert(q.1[i] == p.1[i]);
            }
        }
    }
}

/// A parsed query never holds an empty word.
pub proof fn parsed_words_are_nonempty(raw: Seq<char>)
    ensures
        forall|i: int| 0 <= i < parsed_query(raw).0.len() ==> #[trigger] parsed_query(raw).0[i].len() > 0,
        forall|i: int| 0 <= i < parsed_query(raw).1.len() ==> #[trigger] parsed_query(raw).1[i].len() > 0,
{
    lemma_scan_nonempty(raw);
    let st = scan_query(raw);
    let q = parsed_query(raw);
    assert forall|i: int| 0 <= i < q.0.len() implies #[trigger] q.0[i].len() > 0 by {
        if i < st.0.len() {
            assert(q.0[i] == st.0[i]);
        }
    }
    assert forall|i: int| 0 <= i < q.1.len() implies #[trigger] q.1[i].len() > 0 by {
        if i < st.1.len() {
            assert(q.1[i] == st.1[i]);
        }
    }
}

proof fn lemma_bind_count(ws: Seq<Seq<char>>, copies: nat)
    ensures
        bind_patterns(ws, copies).len() == ws.len() * copies,
    decreases ws.len(),
{
    if ws.len() > 0 {
        lemma_bind_count(ws.drop_last(), copies);
        assert((ws.len() - 1) * copies + copies == ws.len() * copies) by (nonlinear_arith);
    }
}

proof fn lemma_clause_count(n: nat, cols: Seq<char>)
    ensures
        clauses(n, cols).len() == n,
    decreases n,
{
    if n > 0 {
        lemma_clause_count((n - 1) as nat, cols);
    }
}

/// A fragment binds `copies` values per word, and has one clause per word.
pub proof fn fragment_binds_every_word(
    inc: Seq<Seq<char>>,
    exc: Seq<Seq<char>>,
    cols: Seq<char>,
    not_cols: Seq<char>,
    copies: nat,
)
    ensures
        fragment(inc, exc, cols, not_cols, copies).1.len() == (inc.len() + exc.len()) * copies,
        (clauses(inc.len(), cols) + clauses(exc.len(), not_cols)).len() == inc.len() + exc.len(),
{
    lemma_bind_count(inc, copies);
    lemma_bind_count(exc, copies);
    lemma_clause_count(inc.len(), cols);
    lemma_clause_count(exc.len(), not_cols);
    assert(inc.len() * copies + exc.len() * copies == (inc.len() + exc.len()) * copies) by (nonlinear_arith);
}


// ── placeholders ──────────────────────────────────────────────────────────

/// Number of `?` placeholders in a text.
pub open spec fn placeholders(s: Seq<char>) -> nat
    decreases s.len(),
{
    if s.len() == 0 {
        0
    } else {
        placeholders(s.drop_last()) + if s.last() == '?' { 1nat } else { 0nat }
    }
}

proof fn lemma_placeholders_concat(a: Seq<char>, b: Seq<char>)
    ensures
        placeholders(a + b) == placeholders(a) + placeholders(b),
    decreases b.len(),
{
    if b.len() == 0 {
        assert(a + b =~= a);
    } else {
        lemma_placeholders_concat(a, b.drop_last());
        assert((a + b).drop_last() =~= a + b.drop_last());
    }
}

proof fn lemma_clauses_placeholders(n: nat, cols: Seq<char>, k: nat, sep: Seq<char>)
    requires
        placeholders(cols) == k,
        placeholders(sep) == 0,
    ensures
        forall|i: int| 0 <= i < clauses(n, cols).len() ==> placeholders(#[trigger] clauses(n, cols)[i]) == k,
        clauses(n, cols).len() == n,
    decreases n,
{
    reveal_strlit("AND (");
    reveal_strlit(")");
    if n > 0 {
        lemma_clauses_placeholders((n - 1) as nat, cols, k, sep);
        let c = "AND ("@ + cols + ")"@;
        lemma_placeholders_concat("AND ("@, cols);
        lemma_placeholders_concat("AND ("@ + cols, ")"@);
        assert(placeholders("AND ("@) == 0) by {
            reveal_with_fuel(placeholders, 6);
        }
        assert(placeholders(")"@) == 0) by {
            reveal_with_fuel(placeholders, 2);
        }
        let p = clauses((n - 1) as nat, cols);
        assert forall|i: int| 0 <= i < p.push(c).len() implies placeholders(#[trigger] p.push(c)[i]) == k by {
            if i < p.len() {
                assert(p.push(c)[i] == p[i]);
            }
        }
    }
}

proof fn lemma_joined_placeholders(parts: Seq<Seq<char>>, sep: Seq<char>, k: nat)
    requires
        forall|i: int| 0 <= i < parts.len() ==> placeholders(#[trigger] parts[i]) == k,
        placeholders(sep) == 0,
    ensures
        placeholders(joined(parts, sep)) == parts.len() * k,
    decreases parts.len(),
{
    if parts.len() == 1 {
        assert(parts[0] == parts[0]);
    } else if parts.len() > 1 {
        let p = parts.drop_last();
        assert forall|i: int| 0 <= i < p.len() implies placeholders(#[trigger] p[i]) == k by {
            assert(p[i] == parts[i]);
        }
        lemma_joined_placeholders(p, sep, k);
        lemma_placeholders_concat(joined(p, sep), sep);
        lemma_placeholders_concat(joined(p, sep) + sep, parts.last());
        assert(placeholders(parts[parts.len() - 1]) == k);
        assert((p.len() * k) + k == parts.len() * k) by (nonlinear_arith)
            requires
                p.len() + 1 == parts.len(),
        ;
    }
}

/// In a fragment whose column lists hold `copies` placeholders each, the
/// text has exactly as many `?` placeholders as there are bound values.
pub proof fn placeholders_match_binds(
    inc: Seq<Seq<char>>,
    exc: Seq<Seq<char>>,
    cols: Seq<char>,
    not_cols: Seq<char>,
    copies: nat,
)
    requires
        placeholders(cols) == copies,
        placeholders(not_cols) == copies,
    ensures
        placeholders(fragment(inc, exc, cols, not_cols, copies).0) == fragment(inc, exc, cols, not_cols, copies).1.len(),
{
    fragment_binds_every_word(inc, exc, cols, not_cols, copies);
    if inc.len() + exc.len() > 0 {
        let sep = clause_separator();
        reveal_strlit("\n                 ");
        lemma_no_placeholder(sep);
        lemma_clauses_placeholders(inc.len(), cols, copies, sep);
        lemma_clauses_placeholders(exc.len(), not_cols, copies, sep);
        let all = clauses(inc.len(), cols) + clauses(exc.len(), not_cols);
        assert forall|i: int| 0 <= i < all.len() implies placeholders(#[trigger] all[i]) == copies by {
            if i < inc.len() {
                assert(all[i] == clauses(inc.len(), cols)[i]);
            } else {
                assert(all[i] == clauses(exc.len(), not_cols)[i - inc.len()]);
            }
        }
        lemma_joined_placeholders(all, sep, copies);
    } else {
        reveal_with_fuel(placeholders, 1);
    }
}

proof fn lemma_no_placeholder(s: Seq<char>)
    requires
        forall|k: int| 0 <= k < s.len() ==> #[trigger] s[k] != '?',
    ensures
        placeholders(s) == 0,
    decreases s.len(),
{
    if s.len() > 0 {
        assert(s[s.len() - 1] != '?');
        lemma_no_placeholder(s.drop_last());
    }
}

/// `a ? b ? c ?` with `a`, `b`, `c` free of placeholders holds three.
proof fn lemma_three_placeholders(a: Seq<char>, b: Seq<char>, c: Seq<char>)
    requires
        forall|k: int| 0 <= k < a.len() ==> #[trigger] a[k] != '?',
        forall|k: int| 0 <= k < b.len() ==> #[trigger] b[k] != '?',
        forall|k: int| 0 <= k < c.len() ==> #[trigger] c[k] != '?',
    ensures
        placeholders(a + seq!['?'] + b + seq!['?'] + c + seq!['?']) == 3,
{
    lemma_no_placeholder(a);
    lemma_no_placeholder(b);
    lemma_no_placeholder(c);
    let q = seq!['?'];
    assert(placeholders(q) == 1) by {
        assert(q.drop_last() =~= Seq::<char>::empty());
        reveal_with_fuel(placeholders, 2);
    }
    lemma_placeholders_concat(a, q);
    lemma_placeholders_concat(a + q, b);
    lemma_placeholders_concat(a + q + b, q);
    lemma_placeholders_concat(a + q + b + q, c);
    lemma_placeholders_concat(a + q + b + q + c, q);
}

/// `a ? b ?` with `a`, `b` free of placeholders holds two.
proof fn lemma_two_placeholders(a: Seq<char>, b: Seq<char>)
    requires
        forall|k: int| 0 <= k < a.len() ==> #[trigger] a[k] != '?',
        forall|k: int| 0 <= k < b.len() ==> #[trigger] b[k] != '?',
    ensures
        placeholders(a + seq!['?'] + b + seq!['?']) == 2,
{
    lemma_no_placeholder(a);
    lemma_no_placeholder(b);
    let q = seq!['?'];
    assert(placeholders(q) == 1) by {
        assert(q.drop_last() =~= Seq::<char>::empty());
        reveal_with_fuel(placeholders, 2);
    }
    lemma_placeholders_concat(a, q);
    lemma_placeholders_concat(a + q, b);
    lemma_placeholders_concat(a + q + b, q);
}

#[verifier::spinoff_prover]
proof fn lemma_comic_cols()
    ensures
        placeholders("COALESCE(ci.titulo, '') LIKE ? OR cb.path LIKE ? OR COALESCE(v.nombre, '') LIKE ?"@) == 3,
{
    reveal_strlit("COALESCE(ci.titulo, '') LIKE ? OR cb.path LIKE ? OR COALESCE(v.nombre, '') LIKE ?");
    reveal_strlit("COALESCE(ci.titulo, '') LIKE ");
    reveal_strlit(" OR cb.path LIKE ");
    reveal_strlit(" OR COALESCE(v.nombre, '') LIKE ");
    let a = "COALESCE(ci.titulo, '') LIKE "@;
    let b = " OR cb.path LIKE "@;
    let c = " OR COALESCE(v.nombre, '') LIKE "@;
    assert("COALESCE(ci.titulo, '') LIKE ? OR cb.path LIKE ? OR COALESCE(v.nombre, '') LIKE ?"@ =~= a + seq!['?'] + b
        + seq!['?'] + c + seq!['?']);
    lemma_three_placeholders(a, b, c);
}

#[verifier::spinoff_prover]
proof fn lemma_comic_not_cols()
    ensures
        placeholders(
            "COALESCE(ci.titulo, '') NOT LIKE ? AND cb.path NOT LIKE ? AND COALESCE(v.nombre, '') NOT LIKE ?"@,
        ) == 3,
{
    reveal_strlit("COALESCE(ci.titulo, '') NOT LIKE ? AND cb.path NOT LIKE ? AND COALESCE(v.nombre, '') NOT LIKE ?");
    reveal_strlit("COALESCE(ci.titulo, '') NOT LIKE ");
    reveal_strlit(" AND cb.path NOT LIKE ");
    reveal_strlit(" AND COALESCE(v.nombre, '') NOT LIKE ");
    let a = "COALESCE(ci.titulo, '') NOT LIKE "@;
    let b = " AND cb.path NOT LIKE "@;
    let c = " AND COALESCE(v.nombre, '') NOT LIKE "@;
    assert("COALESCE(ci.titulo, '') NOT LIKE ? AND cb.path NOT LIKE ? AND COALESCE(v.nombre, '') NOT LIKE ?"@
        =~= a + seq!['?'] + b + seq!['?'] + c + seq!['?']);
    lemma_three_placeholders(a, b, c);
}

#[verifier::spinoff_prover]
proof fn lemma_volume_cols()
    ensures
        placeholders("v.nombre LIKE ? OR v.deck LIKE ?"@) == 2,
        placeholders("v.nombre NOT LIKE ? AND v.deck NOT LIKE ?"@) == 2,
{
    reveal_strlit("v.nombre LIKE ? OR v.deck LIKE ?");
    reveal_strlit("v.nombre NOT LIKE ? AND v.deck NOT LIKE ?");
    reveal_strlit("v.nombre LIKE ");
    reveal_strlit(" OR v.deck LIKE ");
    reveal_strlit("v.nombre NOT LIKE ");
    reveal_strlit(" AND v.deck NOT LIKE ");
    assert("v.nombre LIKE ? OR v.deck LIKE ?"@ =~= "v.nombre LIKE "@ + seq!['?'] + " OR v.deck LIKE "@ + seq!['?']);
    assert("v.nombre NOT LIKE ? AND v.deck NOT LIKE ?"@ =~= "v.nombre NOT LIKE "@ + seq!['?'] + " AND v.deck NOT LIKE "@
        + seq!['?']);
    lemma_two_placeholders("v.nombre LIKE "@, " OR v.deck LIKE "@);
    lemma_two_placeholders("v.nombre NOT LIKE "@, " AND v.deck NOT LIKE "@);
}

/// The column lists of the comic and volume filters hold three and two
/// placeholders, so their fragments have one `?` per bound value.
pub proof fn search_fragments_bind_every_placeholder(inc: Seq<Seq<char>>, exc: Seq<Seq<char>>)
    ensures
        placeholders(
            fragment(
                inc,
                exc,
                "COALESCE(ci.titulo, '') LIKE ? OR cb.path LIKE ? OR COALESCE(v.nombre, '') LIKE ?"@,
                "COALESCE(ci.titulo, '') NOT LIKE ? AND cb.path NOT LIKE ? AND COALESCE(v.nombre, '') NOT LIKE ?"@,
                3,
            ).0,
        ) == (inc.len() + exc.len()) * 3,
        placeholders(
            fragment(inc, exc, "v.nombre LIKE ? OR v.deck LIKE ?"@, "v.nombre NOT LIKE ? AND v.deck NOT LIKE ?"@, 2).0,
        ) == (inc.len() + exc.len()) * 2,
{
    lemma_comic_cols();
    lemma_comic_not_cols();
    lemma_volume_cols();
    fragment_binds_every_word(
        inc,
        exc,
        "COALESCE(ci.titulo, '') LIKE ? OR cb.path LIKE ? OR COALESCE(v.nombre, '') LIKE ?"@,
        "COALESCE(ci.titulo, '') NOT LIKE ? AND cb.path NOT LIKE ? AND COALESCE(v.nombre, '') NOT LIKE ?"@,
        3,
    );
    fragment_binds_every_word(inc, exc, "v.nombre LIKE ? OR v.deck LIKE ?"@, "v.nombre NOT LIKE ? AND v.deck NOT LIKE ?"@, 2);
    placeholders_match_binds(
        inc,
        exc,
        "COALESCE(ci.titulo, '') LIKE ? OR cb.path LIKE ? OR COALESCE(v.nombre, '') LIKE ?"@,
        "COALESCE(ci.titulo, '') NOT LIKE ? AND cb.path NOT LIKE ? AND COALESCE(v.nombre, '') NOT LIKE ?"@,
        3,
    );
    placeholders_match_binds(
        inc,
        exc,
        "v.nombre LIKE ? OR v.deck LIKE ?"@,
        "v.nombre NOT LIKE ? AND v.deck NOT LIKE ?"@,
        2,
    );
}

// ── words and runs ────────────────────────────────────────────────────────

/// The runs of non-separator characters read so far, and the run being read.
pub open spec fn run_scan(s: Seq<char>) -> (Seq<Seq<char>>, Seq<char>)
    decreases s.len(),
{
    if s.len() == 0 {
        (Seq::empty(), Seq::empty())
    } else {
        let (done, cur) = run_scan(s.drop_last());
        let c = s.last();
        if is_separator(c) {
            (if cur.len() > 0 { done.push(cur) } else { done }, Seq::empty())
        } else {
            (done, cur.push(c))
        }
    }
}

/// The maximal runs of non-separator characters of a text, in order.
pub open spec fn runs(s: Seq<char>) -> Seq<Seq<char>> {
    let (done, cur) = run_scan(s);
    if cur.len() > 0 { done.push(cur) } else { done }
}

/// The lower-cased form of each word.
pub open spec fn lowered(ws: Seq<Seq<char>>) -> Seq<Seq<char>> {
    ws.map_values(|w: Seq<char>| lowercase_of(w))
}

/// `f` picks the items of `a` out of `b`, in order: `a[i] == b[f[i]]` with
/// `f` strictly increasing.
pub open spec fn picks(f: Seq<int>, a: Seq<Seq<char>>, b: Seq<Seq<char>>) -> bool {
    &&& f.len() == a.len()
    &&& forall|i: int| 0 <= i < f.len() ==> 0 <= #[trigger] f[i] < b.len() && a[i] == b[f[i]]
    &&& forall|i: int, j: int| 0 <= i < j < f.len() ==> #[trigger] f[i] < #[trigger] f[j]
}

/// `a` is `b` with some items left out, the others kept in order.
pub open spec fn is_subsequence(a: Seq<Seq<char>>, b: Seq<Seq<char>>) -> bool {
    exists|f: Seq<int>| picks(f, a, b)
}

/// Where each included and each excluded word was taken from among the runs.
spec fn scan_picks(s: Seq<char>) -> (Seq<int>, Seq<int>)
    decreases s.len(),
{
    if s.len() == 0 {
        (Seq::empty(), Seq::empty())
    } else {
        let (fi, fe) = scan_picks(s.drop_last());
        let st = scan_query(s.drop_last());
        let at = run_scan(s.drop_last()).0.len() as int;
        if is_separator(s.last()) && st.2.len() > 0 && lowercase_of(st.2).len() > 0 {
            if st.3 {
                (fi, fe.push(at))
            } else {
                (fi.push(at), fe)
            }
        } else {
            (fi, fe)
        }
    }
}

proof fn lemma_picks_grow(f: Seq<int>, a: Seq<Seq<char>>, b: Seq<Seq<char>>, x: Seq<char>)
    requires
        picks(f, a, b),
    ensures
        picks(f, a, b.push(x)),
{
    assert forall|i: int| 0 <= i < f.len() implies 0 <= #[trigger] f[i] < b.push(x).len() && a[i] == b.push(x)[f[i]] by {
        assert(b.push(x)[f[i]] == b[f[i]]);
    }
}

proof fn lemma_picks_push(f: Seq<int>, a: Seq<Seq<char>>, b: Seq<Seq<char>>, x: Seq<char>)
    requires
        picks(f, a, b),
    ensures
        picks(f.push(b.len() as int), a.push(x), b.push(x)),
{
    let f2 = f.push(b.len() as int);
    let a2 = a.push(x);
    let b2 = b.push(x);
    assert forall|i: int| 0 <= i < f2.len() implies 0 <= #[trigger] f2[i] < b2.len() && a2[i] == b2[f2[i]] by {
        if i < f.len() {
            assert(f2[i] == f[i]);
            assert(a2[i] == a[i]);
            assert(b2[f[i]] == b[f[i]]);
        }
    }
    assert forall|i: int, j: int| 0 <= i < j < f2.len() implies #[trigger] f2[i] < #[trigger] f2[j] by {
        if j < f.len() {
            assert(f2[i] == f[i] && f2[j] == f[j]);
        } else {
            assert(f2[i] == f[i]);
        }
    }
}

proof fn lemma_scan_runs(s: Seq<char>)
    ensures
        scan_query(s).2 == run_scan(s).1,
        scan_query(s).0.len() + scan_query(s).1.len() <= run_scan(s).0.len(),
        picks(scan_picks(s).0, scan_query(s).0, lowered(run_scan(s).0)),
        picks(scan_picks(s).1, scan_query(s).1, lowered(run_scan(s).0)),
    decreases s.len(),
{
    if s.len() > 0 {
        let p = s.drop_last();
        lemma_scan_runs(p);
        let st = scan_query(p);
        let (done, cur) = run_scan(p);
        let (fi, fe) = scan_picks(p);
        let c = s.last();
        if is_separator(c) && cur.len() > 0 {
            let d2 = done.push(cur);
            assert(lowered(d2) =~= lowered(done).push(lowercase_of(cur)));
            if lowercase_of(cur).len() > 0 {
                if st.3 {
                    lemma_picks_grow(fi, st.0, lowered(done), lowercase_of(cur));
                    lemma_picks_push(fe, st.1, lowered(done), lowercase_of(cur));
                } else {
                    lemma_picks_push(fi, st.0, lowered(done), lowercase_of(cur));
                    lemma_picks_grow(fe, st.1, lowered(done), lowercase_of(cur));
                }
            } else {
                lemma_picks_grow(fi, st.0, lowered(done), lowercase_of(cur));
                lemma_picks_grow(fe, st.1, lowered(done), lowercase_of(cur));
            }
        } else if !is_separator(c) {
            if cur.len() == 0 {
                assert(cur.push(c) =~= seq![c]);
            }
        }
    }
}

/// The words of a parsed query come from the runs of non-separator
/// characters of the query: each list holds lower-cased runs in the order in
/// which they occur, and the two lists together hold no more words than there
/// are runs. Every run is non-empty and free of separators.
pub proof fn parsed_words_follow_the_query(raw: Seq<char>)
    ensures
        parsed_query(raw).0.len() + parsed_query(raw).1.len() <= runs(raw).len(),
        is_subsequence(parsed_query(raw).0, lowered(runs(raw))),
        is_subsequence(parsed_query(raw).1, lowered(runs(raw))),
        forall|i: int| 0 <= i < runs(raw).len() ==> (#[trigger] runs(raw)[i]).len() > 0,
        forall|i: int, k: int|
            0 <= i < runs(raw).len() && 0 <= k < runs(raw)[i].len() ==> !is_separator(#[trigger] runs(raw)[i][k]),
{
    lemma_scan_runs(raw);
    lemma_runs_shape(raw);
    let st = scan_query(raw);
    let (done, cur) = run_scan(raw);
    let (fi, fe) = scan_picks(raw);
    if cur.len() > 0 {
        assert(lowered(done.push(cur)) =~= lowered(done).push(lowercase_of(cur)));
        if lowercase_of(cur).len() > 0 {
            if st.3 {
                lemma_picks_grow(fi, st.0, lowered(done), lowercase_of(cur));
                lemma_picks_push(fe, st.1, lowered(done), lowercase_of(cur));
                assert(picks(fi, parsed_query(raw).0, lowered(runs(raw))));
                assert(picks(fe.push(done.len() as int), parsed_query(raw).1, lowered(runs(raw))));
            } else {
                lemma_picks_push(fi, st.0, lowered(done), lowercase_of(cur));
                lemma_picks_grow(fe, st.1, lowered(done), lowercase_of(cur));
                assert(picks(fi.push(done.len() as int), parsed_query(raw).0, lowered(runs(raw))));
                assert(picks(fe, parsed_query(raw).1, lowered(runs(raw))));
            }
        } else {
            lemma_picks_grow(fi, st.0, lowered(done), lowercase_of(cur));
            lemma_picks_grow(fe, st.1, lowered(done), lowercase_of(cur));
            assert(picks(fi, parsed_query(raw).0, lowered(runs(raw))));
            assert(picks(fe, parsed_query(raw).1, lowered(runs(raw))));
        }
    } else {
        assert(picks(fi, parsed_query(raw).0, lowered(runs(raw))));
        assert(picks(fe, parsed_query(raw).1, lowered(runs(raw))));
    }
}

proof fn lemma_runs_shape(s: Seq<char>)
    ensures
        forall|i: int| 0 <= i < run_scan(s).0.len() ==> (#[trigger] run_scan(s).0[i]).len() > 0,
        forall|i: int, k: int|
            0 <= i < run_scan(s).0.len() && 0 <= k < run_scan(s).0[i].len() ==> !is_separator(
                #[trigger] run_scan(s).0[i][k],
            ),
        forall|k: int| 0 <= k < run_scan(s).1.len() ==> !is_separator(#[trigger] run_scan(s).1[k]),
        forall|i: int| 0 <= i < runs(s).len() ==> (#[trigger] runs(s)[i]).len() > 0,
        forall|i: int, k: int|
            0 <= i < runs(s).len() && 0 <= k < runs(s)[i].len() ==> !is_separator(#[trigger] runs(s)[i][k]),
    decreases s.len(),
{
    if s.len() > 0 {
        lemma_runs_shape(s.drop_last());
        let (done, cur) = run_scan(s.drop_last());
        let c = s.last();
        if !is_separator(c) {
            let c2 = cur.push(c);
            assert forall|k: int| 0 <= k < c2.len() implies !is_separator(#[trigger] c2[k]) by {
                if k < cur.len() {
                    assert(c2[k] == cur[k]);
                }
            }
        } else if cur.len() > 0 {
            let d2 = done.push(cur);
            assert forall|i: int| 0 <= i < d2.len() implies (#[trigger] d2[i]).len() > 0 by {
                if i < done.len() {
                    assert(d2[i] == done[i]);
                }
            }
            assert forall|i: int, k: int| 0 <= i < d2.len() && 0 <= k < d2[i].len() implies !is_separator(
                #[trigger] d2[i][k],
            ) by {
                if i < done.len() {
                    assert(d2[i] == done[i]);
                }
            }
        }
    }
    let (done, cur) = run_scan(s);
    if cur.len() > 0 {
        let d2 = done.push(cur);
        assert forall|i: int| 0 <= i < d2.len() implies (#[trigger] d2[i]).len() > 0 by {
            if i < done.len() {
                assert(d2[i] == done[i]);
            }
        }
        assert forall|i: int, k: int| 0 <= i < d2.len() && 0 <= k < d2[i].len() implies !is_separator(
            #[trigger] d2[i][k],
        ) by {
            if i < done.len() {
                assert(d2[i] == done[i]);
            }
        }
    }
}

// ── the shape of a fragment ───────────────────────────────────────────────

proof fn lemma_bind_index(ws: Seq<Seq<char>>, copies: nat)
    requires
        copies > 0,
    ensures
        bind_patterns(ws, copies).len() == ws.len() * copies,
        forall|k: int|
            0 <= k < ws.len() * copies ==> #[trigger] bind_patterns(ws, copies)[k] == like_pattern(ws[k / copies as int]),
    decreases ws.len(),
{
    lemma_bind_count(ws, copies);
    if ws.len() > 0 {
        let p = ws.drop_last();
        lemma_bind_index(p, copies);
        let n = ws.len() as int;
        let c = copies as int;
        let b = bind_patterns(ws, copies);
        assert forall|k: int| 0 <= k < ws.len() * copies implies #[trigger] b[k] == like_pattern(ws[k / c]) by {
            assert((n - 1) * c + c == n * c) by (nonlinear_arith);
            if k < (n - 1) * c {
                assert(b[k] == bind_patterns(p, copies)[k]);
                assert(0 <= k / c < n - 1) by (nonlinear_arith)
                    requires
                        0 <= k < (n - 1) * c,
                        c > 0,
                ;
                assert(p[k / c] == ws[k / c]);
            } else {
                assert(k / c == n - 1) by (nonlinear_arith)
                    requires
                        (n - 1) * c <= k < n * c,
                        c > 0,
                ;
            }
        }
    }
}

proof fn lemma_clause_items(n: nat, cols: Seq<char>)
    ensures
        clauses(n, cols).len() == n,
        forall|j: int| 0 <= j < n ==> #[trigger] clauses(n, cols)[j] == "AND ("@ + cols + ")"@,
    decreases n,
{
    if n > 0 {
        lemma_clause_items((n - 1) as nat, cols);
        let p = clauses((n - 1) as nat, cols);
        assert forall|j: int| 0 <= j < n implies #[trigger] clauses(n, cols)[j] == "AND ("@ + cols + ")"@ by {
            if j < n - 1 {
                assert(clauses(n, cols)[j] == p[j]);
            }
        }
    }
}

/// The shape of a fragment with `copies` values per word: no word gives no
/// text and no values; otherwise the text joins one `AND (cols)` clause per
/// included word and then one `AND (not_cols)` clause per excluded word, and
/// the values are `%w%`, `copies` times for each included word `w` in order,
/// then the same for each excluded word.
pub proof fn fragment_shape(
    inc: Seq<Seq<char>>,
    exc: Seq<Seq<char>>,
    cols: Seq<char>,
    not_cols: Seq<char>,
    copies: nat,
)
    requires
        copies > 0,
    ensures
        ({
            let (sql, binds) = fragment(inc, exc, cols, not_cols, copies);
            let i = inc.len() as int;
            let e = exc.len() as int;
            let c = copies as int;
            let parts = clauses(inc.len(), cols) + clauses(exc.len(), not_cols);
            &&& i + e == 0 ==> sql.len() == 0 && binds.len() == 0
            &&& i + e > 0 ==> sql == joined(parts, clause_separator())
            &&& parts.len() == i + e
            &&& forall|j: int| 0 <= j < i ==> #[trigger] parts[j] == "AND ("@ + cols + ")"@
            &&& forall|j: int| i <= j < i + e ==> #[trigger] parts[j] == "AND ("@ + not_cols + ")"@
            &&& binds.len() == (i + e) * c
            &&& forall|k: int| 0 <= k < i * c ==> #[trigger] binds[k] == like_pattern(inc[k / c])
            &&& forall|k: int| i * c <= k < (i + e) * c ==> #[trigger] binds[k] == like_pattern(exc[(k - i * c) / c])
        }),
{
    lemma_bind_index(inc, copies);
    lemma_bind_index(exc, copies);
    lemma_clause_items(inc.len(), cols);
    lemma_clause_items(exc.len(), not_cols);
    let i = inc.len() as int;
    let e = exc.len() as int;
    let c = copies as int;
    assert(i * c + e * c == (i + e) * c) by (nonlinear_arith);
    let parts = clauses(inc.len(), cols) + clauses(exc.len(), not_cols);
    assert forall|j: int| i <= j < i + e implies #[trigger] parts[j] == "AND ("@ + not_cols + ")"@ by {
        assert(parts[j] == clauses(exc.len(), not_cols)[j - i]);
    }
    if i + e > 0 {
        let binds = bind_patterns(inc, copies) + bind_patterns(exc, copies);
        assert forall|k: int| i * c <= k < (i + e) * c implies #[trigger] binds[k] == like_pattern(exc[(k - i * c) / c]) by {
            assert(binds[k] == bind_patterns(exc, copies)[k - i * c]);
        }
    }
}

} // verus!
