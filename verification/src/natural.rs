//! Natural ("human") ordering of page names: digit runs compare by value,
//! other runs compare case-insensitively, so `page2` comes before `page10`.
use vstd::prelude::*;
use std::cmp::Ordering;
use crate::text::{is_ascii_digit, is_digit, lowercase_chars, lowercase_of, parse_unsigned, parse_u64};

verus! {

/// The maximal runs of ASCII digits and of other characters, in order.
pub open spec fn runs(s: Seq<char>) -> Seq<Seq<char>>
    decreases s.len(),
{
    if s.len() == 0 {
        Seq::empty()
    } else {
        let r = runs(s.drop_last());
        let c = s.last();
        if r.len() > 0 && is_digit(r.last().last()) == is_digit(c) {
            r.update(r.len() - 1, r.last().push(c))
        } else {
            r.push(seq![c])
        }
    }
}

/// The views of a vector of character vectors.
pub open spec fn view_all(v: Seq<Vec<char>>) -> Seq<Seq<char>> {
    Seq::new(v.len(), |i: int| v[i]@)
}

/// Sign of the comparison of two integers: -1, 0 or 1.
pub open spec fn sign_of(a: int, b: int) -> int {
    if a < b {
        -1
    } else if a == b {
        0
    } else {
        1
    }
}

/// Lexicographic order of character sequences by code point (the order of
/// `String`, since UTF-8 preserves code point order).
pub open spec fn lex_order(s: Seq<char>, t: Seq<char>) -> int
    decreases s.len(),
{
    if s.len() == 0 || t.len() == 0 {
        sign_of(s.len() as int, t.len() as int)
    } else if s[0] != t[0] {
        if s[0] < t[0] {
            -1
        } else {
            1
        }
    } else {
        lex_order(s.drop_first(), t.drop_first())
    }
}

/// Order of two runs: by value when both read as `u64`, otherwise by their
/// lower-case forms.
pub open spec fn run_order(x: Seq<char>, y: Seq<char>) -> int {
    match (parse_unsigned(x, u64::MAX as nat), parse_unsigned(y, u64::MAX as nat)) {
        (Some(a), Some(b)) => sign_of(a as int, b as int),
        _ => lex_order(lowercase_of(x), lowercase_of(y)),
    }
}

/// Order of two run lists: the first pair of runs that differ decides,
/// otherwise the shorter list comes first.
pub open spec fn runs_order(a: Seq<Seq<char>>, b: Seq<Seq<char>>) -> int
    decreases a.len(),
{
    if a.len() == 0 || b.len() == 0 {
        sign_of(a.len() as int, b.len() as int)
    } else if run_order(a[0], b[0]) != 0 {
        run_order(a[0], b[0])
    } else {
        runs_order(a.drop_first(), b.drop_first())
    }
}

/// The natural order of two names: -1, 0 or 1.
pub open spec fn natural_order(a: Seq<char>, b: Seq<char>) -> int {
    runs_order(runs(a), runs(b))
}

/// The value -1, 0, 1 of an `Ordering`.
pub open spec fn ordering_value(o: Ordering) -> int {
    match o {
        Ordering::Less => -1,
        Ordering::Equal => 0,
        Ordering::Greater => 1,
    }
}

// ── laws ──────────────────────────────────────────────────────────────────

proof fn lemma_lex_range(s: Seq<char>, t: Seq<char>)
    ensures
        -1 <= lex_order(s, t) <= 1,
    decreases s.len(),
{
    if s.len() > 0 && t.len() > 0 && s[0] == t[0] {
        lemma_lex_range(s.drop_first(), t.drop_first());
    }
}

proof fn lemma_runs_order_range(a: Seq<Seq<char>>, b: Seq<Seq<char>>)
    ensures
        -1 <= runs_order(a, b) <= 1,
    decreases a.len(),
{
    if a.len() > 0 && b.len() > 0 {
        lemma_lex_range(lowercase_of(a[0]), lowercase_of(b[0]));
        lemma_runs_order_range(a.drop_first(), b.drop_first());
    }
}

pub proof fn lemma_lex_refl(s: Seq<char>)
    ensures
        lex_order(s, s) == 0,
    decreases s.len(),
{
    if s.len() > 0 {
        lemma_lex_refl(s.drop_first());
    }
}

pub proof fn lemma_lex_antisym(s: Seq<char>, t: Seq<char>)
    ensures
        lex_order(s, t) == -lex_order(t, s),
    decreases s.len(),
{
    if s.len() > 0 && t.len() > 0 && s[0] == t[0] {
        lemma_lex_antisym(s.drop_first(), t.drop_first());
    }
}

/// Lexicographic order only calls equal sequences equal.
pub proof fn lemma_lex_equal(s: Seq<char>, t: Seq<char>)
    requires
        lex_order(s, t) == 0,
    ensures
        s == t,
    decreases s.len(),
{
    if s.len() > 0 && t.len() > 0 {
        lemma_lex_equal(s.drop_first(), t.drop_first());
        assert(s =~= seq![s[0]] + s.drop_first());
        assert(t =~= seq![t[0]] + t.drop_first());
    } else {
        assert(s.len() == 0 && t.len() == 0);
        assert(s =~= t);
    }
}

/// Lexicographic order is transitive.
pub proof fn lemma_lex_trans(s: Seq<char>, t: Seq<char>, u: Seq<char>)
    requires
        lex_order(s, t) <= 0,
        lex_order(t, u) <= 0,
    ensures
        lex_order(s, u) <= 0,
    decreases s.len(),
{
    if s.len() > 0 && t.len() > 0 && u.len() > 0 && s[0] == t[0] && t[0] == u[0] {
        lemma_lex_trans(s.drop_first(), t.drop_first(), u.drop_first());
    }
}

proof fn lemma_run_order_refl(x: Seq<char>)
    ensures
        run_order(x, x) == 0,
{
    lemma_lex_refl(lowercase_of(x));
}

proof fn lemma_run_order_antisym(x: Seq<char>, y: Seq<char>)
    ensures
        run_order(x, y) == -run_order(y, x),
{
    lemma_lex_antisym(lowercase_of(x), lowercase_of(y));
}

proof fn lemma_runs_order_refl(a: Seq<Seq<char>>)
    ensures
        runs_order(a, a) == 0,
    decreases a.len(),
{
    if a.len() > 0 {
        lemma_run_order_refl(a[0]);
        lemma_runs_order_refl(a.drop_first());
    }
}

proof fn lemma_runs_order_antisym(a: Seq<Seq<char>>, b: Seq<Seq<char>>)
    ensures
        runs_order(a, b) == -runs_order(b, a),
    decreases a.len(),
{
    if a.len() > 0 && b.len() > 0 {
        lemma_run_order_antisym(a[0], b[0]);
        lemma_runs_order_antisym(a.drop_first(), b.drop_first());
    }
}

/// Every name is equal to itself in the natural order.
pub proof fn natural_order_reflexive(a: Seq<char>)
    ensures
        natural_order(a, a) == 0,
{
    lemma_runs_order_refl(runs(a));
}

/// Swapping the two names reverses the natural order.
pub proof fn natural_order_antisymmetric(a: Seq<char>, b: Seq<char>)
    ensures
        natural_order(a, b) == -natural_order(b, a),
{
    lemma_runs_order_antisym(runs(a), runs(b));
}

// ── executable comparison ─────────────────────────────────────────────────

/// Splits a name into its maximal runs of digits and non-digits.
pub fn split_natural(s: &[char]) -> (parts: Vec<Vec<char>>)
    ensures
        view_all(parts@) == runs(s@),
{
    let mut parts: Vec<Vec<char>> = Vec::new();
    let mut current: Vec<char> = Vec::new();
    let mut is_digit_run = false;
    let mut i: usize = 0;
    while i < s.len()
        invariant
            i <= s@.len(),
            current@.len() > 0 ==> is_digit(current@.last()) == is_digit_run,
            i > 0 ==> current@.len() > 0,
            i == 0 ==> current@.len() == 0 && parts@.len() == 0,
            runs(s@.subrange(0, i as int)) == if current@.len() > 0 {
                view_all(parts@).push(current@)
            } else {
                view_all(parts@)
            },
        decreases s@.len() - i,
    {
        let c = s[i];
        let ghost prev = s@.subrange(0, i as int);
        let ghost next = s@.subrange(0, i + 1);
        assert(next.drop_last() =~= prev);
        assert(next.last() == c);
        let d = is_ascii_digit(c);
        let ghost class_changed = d != is_digit_run;
        if d != is_digit_run {
            if current.len() > 0 {
                let ghost old_parts = view_all(parts@);
                let ghost old_cur = current@;
                parts.push(current);
                current = Vec::new();
                proof {
                    assert(view_all(parts@) =~= old_parts.push(old_cur));
                    assert(view_all(parts@) == runs(prev));
                }
            }
            is_digit_run = d;
        }
        let ghost cur_before = current@;
        current.push(c);
        proof {
            let r = runs(prev);
            if cur_before.len() > 0 {
                assert(r.len() > 0 && r.last() == cur_before);
                assert(runs(next) == r.update(r.len() - 1, cur_before.push(c)));
                assert(runs(next) =~= view_all(parts@).push(current@));
            } else {
                assert(current@ =~= seq![c]);
                assert(r == view_all(parts@));
                if r.len() > 0 {
                    assert(!is_digit(r.last().last()) == is_digit(c));
                }
                assert(runs(next) =~= view_all(parts@).push(current@));
            }
        }
        i = i + 1;
    }
    assert(s@.subrange(0, s@.len() as int) =~= s@);
    if current.len() > 0 {
        let ghost old_parts = view_all(parts@);
        let ghost old_cur = current@;
        parts.push(current);
        assert(view_all(parts@) =~= old_parts.push(old_cur));
    }
    parts
}

/// Lexicographic comparison by code point: -1, 0 or 1.
pub fn lex_compare(s: &[char], t: &[char]) -> (r: i8)
    ensures
        r as int == lex_order(s@, t@),
{
    let mut i: usize = 0;
    assert(s@.subrange(0, s@.len() as int) =~= s@);
    assert(t@.subrange(0, t@.len() as int) =~= t@);
    while i < s.len() && i < t.len()
        invariant
            i <= s@.len(),
            i <= t@.len(),
            lex_order(s@, t@) == lex_order(s@.subrange(i as int, s@.len() as int), t@.subrange(i as int, t@.len() as int)),
        decreases s@.len() - i,
    {
        let ghost ss = s@.subrange(i as int, s@.len() as int);
        let ghost tt = t@.subrange(i as int, t@.len() as int);
        assert(ss[0] == s@[i as int]);
        assert(tt[0] == t@[i as int]);
        if s[i] != t[i] {
            if s[i] < t[i] {
                return -1;
            } else {
                return 1;
            }
        }
        assert(ss.drop_first() =~= s@.subrange(i + 1, s@.len() as int));
        assert(tt.drop_first() =~= t@.subrange(i + 1, t@.len() as int));
        i = i + 1;
    }
    if s.len() < t.len() {
        -1
    } else if s.len() == t.len() {
        0
    } else {
        1
    }
}

/// Compares two runs of a name.
fn compare_runs(x: &[char], y: &[char]) -> (r: i8)
    ensures
        r as int == run_order(x@, y@),
{
    match (parse_u64(x), parse_u64(y)) {
        (Some(a), Some(b)) => {
            if a < b {
                -1
            } else if a == b {
                0
            } else {
                1
            }
        },
        _ => {
            let lx = lowercase_chars(x);
            let ly = lowercase_chars(y);
            lex_compare(lx.as_slice(), ly.as_slice())
        },
    }
}

/// Compares two names in natural order: -1, 0 or 1.
pub fn natural_compare_value(a: &[char], b: &[char]) -> (r: i8)
    ensures
        r as int == natural_order(a@, b@),
{
    let pa = split_natural(a);
    let pb = split_natural(b);
    let ghost ra = runs(a@);
    let ghost rb = runs(b@);
    let mut i: usize = 0;
    assert(ra.subrange(0, ra.len() as int) =~= ra);
    assert(rb.subrange(0, rb.len() as int) =~= rb);
    while i < pa.len() && i < pb.len()
        invariant
            view_all(pa@) == ra,
            view_all(pb@) == rb,
            i <= ra.len(),
            i <= rb.len(),
            natural_order(a@, b@) == runs_order(ra.subrange(i as int, ra.len() as int), rb.subrange(i as int, rb.len() as int)),
        decreases ra.len() - i,
    {
        let ghost sa = ra.subrange(i as int, ra.len() as int);
        let ghost sb = rb.subrange(i as int, rb.len() as int);
        assert(sa[0] == pa[i as int]@);
        assert(sb[0] == pb[i as int]@);
        let c = compare_runs(pa[i].as_slice(), pb[i].as_slice());
        if c != 0 {
            return c;
        }
        assert(sa.drop_first() =~= ra.subrange(i + 1, ra.len() as int));
        assert(sb.drop_first() =~= rb.subrange(i + 1, rb.len() as int));
        i = i + 1;
    }
    if pa.len() < pb.len() {
        -1
    } else if pa.len() == pb.len() {
        0
    } else {
        1
    }
}

/// Natural order of two names as an `Ordering`.
pub fn natural_sort_compare(a: &str, b: &str) -> (r: Ordering)
    ensures
        ordering_value(r) == natural_order(a@, b@),
{
    let va = crate::text::chars_of(a);
    let vb = crate::text::chars_of(b);
    let v = natural_compare_value(va.as_slice(), vb.as_slice());
    proof {
        lemma_runs_order_range(runs(a@), runs(b@));
    }
    if v < 0 {
        Ordering::Less
    } else if v == 0 {
        Ordering::Equal
    } else {
        Ordering::Greater
    }
}


// ── the runs put back together ────────────────────────────────────────────

/// The runs written one after the other.
pub open spec fn concat_runs(rs: Seq<Seq<char>>) -> Seq<char>
    decreases rs.len(),
{
    if rs.len() == 0 {
        Seq::empty()
    } else {
        concat_runs(rs.drop_last()) + rs.last()
    }
}

/// Every character of the run is of the kind (digit or not) of its first.
pub open spec fn uniform_run(r: Seq<char>) -> bool {
    &&& r.len() > 0
    &&& forall|k: int| 0 <= k < r.len() ==> is_digit(#[trigger] r[k]) == is_digit(r[0])
}

/// Runs of one kind follow runs of the other kind.
pub open spec fn alternating(rs: Seq<Seq<char>>) -> bool {
    forall|i: int| 0 <= i < rs.len() - 1 ==> is_digit(#[trigger] rs[i][0]) != is_digit(rs[i + 1][0])
}

/// Splitting a name into runs loses nothing: the runs put back together give
/// the name, none is empty, each is all digits or free of digits, and the
/// two kinds alternate.
pub proof fn runs_rebuild_the_name(s: Seq<char>)
    ensures
        concat_runs(runs(s)) == s,
        forall|i: int| 0 <= i < runs(s).len() ==> uniform_run(#[trigger] runs(s)[i]),
        alternating(runs(s)),
    decreases s.len(),
{
    if s.len() > 0 {
        let p = s.drop_last();
        runs_rebuild_the_name(p);
        let r = runs(p);
        let c = s.last();
        if r.len() > 0 && is_digit(r.last().last()) == is_digit(c) {
            let l = r.last().push(c);
            let q = r.update(r.len() - 1, l);
            assert(uniform_run(r[r.len() - 1]));
            assert(q.drop_last() =~= r.drop_last());
            assert(concat_runs(r) == concat_runs(r.drop_last()) + r.last());
            assert(concat_runs(q) =~= concat_runs(r) + seq![c]);
            assert(p + seq![c] =~= s);
            assert(uniform_run(l)) by {
                assert(l[0] == r.last()[0]);
                assert(is_digit(r.last()[r.last().len() - 1]) == is_digit(r.last()[0]));
                assert forall|k: int| 0 <= k < l.len() implies is_digit(#[trigger] l[k]) == is_digit(l[0]) by {
                    if k < r.last().len() {
                        assert(l[k] == r.last()[k]);
                    }
                }
            }
            assert forall|i: int| 0 <= i < q.len() implies uniform_run(#[trigger] q[i]) by {
                if i < q.len() - 1 {
                    assert(q[i] == r[i]);
                }
            }
            assert forall|i: int| 0 <= i < q.len() - 1 implies is_digit(#[trigger] q[i][0]) != is_digit(q[i + 1][0]) by {
                assert(q[i] == r[i]);
                if i + 1 == q.len() - 1 {
                    assert(q[i + 1][0] == r[i + 1][0]);
                } else {
                    assert(q[i + 1] == r[i + 1]);
                }
            }
        } else {
            let q = r.push(seq![c]);
            assert(q.drop_last() =~= r);
            assert(p + seq![c] =~= s);
            assert forall|i: int| 0 <= i < q.len() implies uniform_run(#[trigger] q[i]) by {
                if i < r.len() {
                    assert(q[i] == r[i]);
                }
            }
            assert forall|i: int| 0 <= i < q.len() - 1 implies is_digit(#[trigger] q[i][0]) != is_digit(q[i + 1][0]) by {
                assert(q[i] == r[i]);
                if i + 1 == r.len() {
                    assert(uniform_run(r[i]));
                    assert(is_digit(r.last()[r.last().len() - 1]) == is_digit(r.last()[0]));
                } else {
                    assert(q[i + 1] == r[i + 1]);
                }
            }
        }
    }
}

} // verus!
