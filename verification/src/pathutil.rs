//! Unix path handling on character sequences: the final component of a
//! path, its extension and stem, and joining.
use vstd::prelude::*;
use crate::text::{chars_of, push_all, slice_chars};

verus! {

/// Index of the last occurrence of `c` in `s`, or `-1`.
pub open spec fn last_index_of(s: Seq<char>, c: char) -> int
    decreases s.len(),
{
    if s.len() == 0 {
        -1
    } else if s.last() == c {
        s.len() - 1
    } else {
        last_index_of(s.drop_last(), c)
    }
}

/// The part of `s` after its last `/`.
pub open spec fn after_last_slash(s: Seq<char>) -> Seq<char> {
    s.subrange(last_index_of(s, '/') + 1, s.len() as int)
}

/// The final component of a path (`Path::file_name`): trailing separators
/// and `.` components are ignored; the root, an empty path, `.` and `..` have
/// no file name.
pub open spec fn file_name_of(p: Seq<char>) -> Option<Seq<char>>
    decreases p.len(),
{
    if p.len() == 0 {
        None
    } else if p.last() == '/' {
        file_name_of(p.drop_last())
    } else if p == seq!['.'] {
        None
    } else if p.len() >= 2 && p[p.len() - 1] == '.' && p[p.len() - 2] == '/' {
        file_name_of(p.drop_last())
    } else if after_last_slash(p) == seq!['.', '.'] {
        None
    } else {
        Some(after_last_slash(p))
    }
}

/// The extension of a file name (`Path::extension` on the name): the part after
/// the last `.`, when that dot is not the first character.
pub open spec fn extension_of_name(name: Seq<char>) -> Option<Seq<char>> {
    let k = last_index_of(name, '.');
    if k <= 0 {
        None
    } else {
        Some(name.subrange(k + 1, name.len() as int))
    }
}

/// `Path::extension`.
pub open spec fn extension_of(p: Seq<char>) -> Option<Seq<char>> {
    match file_name_of(p) {
        Some(name) => extension_of_name(name),
        None => None,
    }
}

/// `Path::file_stem`: the file name without its extension.
pub open spec fn file_stem_of(p: Seq<char>) -> Option<Seq<char>> {
    match file_name_of(p) {
        Some(name) => {
            let k = last_index_of(name, '.');
            if k <= 0 {
                Some(name)
            } else {
                Some(name.subrange(0, k))
            }
        },
        None => None,
    }
}

/// A path without its trailing separators and trailing `.` components
/// (`Components::trim_right`); a lone `/` or `.` is kept.
pub open spec fn trim_right_path(p: Seq<char>) -> Seq<char>
    decreases p.len(),
{
    if p.len() > 1 && p.last() == '/' {
        trim_right_path(p.drop_last())
    } else if p.len() >= 2 && p.last() == '.' && p[p.len() - 2] == '/' {
        trim_right_path(p.drop_last())
    } else {
        p
    }
}

/// `Path::parent` on Unix: the path without its final component; `None` for
/// the root and the empty path, the empty path for a single relative component.
pub open spec fn parent_of(p: Seq<char>) -> Option<Seq<char>> {
    let q = trim_right_path(p);
    if q.len() == 0 || q == seq!['/'] {
        None
    } else if last_index_of(q, '/') < 0 {
        Some(Seq::empty())
    } else {
        Some(trim_right_path(q.subrange(0, last_index_of(q, '/') + 1)))
    }
}

fn trim_right(p: &[char], end: usize) -> (r: usize)
    requires
        end <= p@.len(),
    ensures
        r <= end,
        trim_right_path(p@.subrange(0, end as int)) == p@.subrange(0, r as int),
{
    let mut e = end;
    loop
        invariant
            e <= end,
            end <= p@.len(),
            trim_right_path(p@.subrange(0, end as int)) == trim_right_path(p@.subrange(0, e as int)),
        decreases e,
    {
        let ghost q = p@.subrange(0, e as int);
        if e > 1 && p[e - 1] == '/' {
            assert(q.drop_last() =~= p@.subrange(0, e - 1));
            e = e - 1;
        } else if e >= 2 && p[e - 1] == '.' && p[e - 2] == '/' {
            assert(q.drop_last() =~= p@.subrange(0, e - 1));
            e = e - 1;
        } else {
            return e;
        }
    }
}

/// `Path::parent`.
pub fn parent(p: &[char]) -> (r: Option<Vec<char>>)
    ensures
        match r {
            Some(v) => parent_of(p@) == Some(v@),
            None => parent_of(p@) is None,
        },
{
    assert(p@.subrange(0, p@.len() as int) =~= p@);
    let e = trim_right(p, p.len());
    let ghost q = p@.subrange(0, e as int);
    if e == 0 || (e == 1 && p[0] == '/') {
        assert(e == 1 ==> q =~= seq!['/']);
        return None;
    }
    assert(q != seq!['/']) by {
        if q == seq!['/'] {
            assert(q.len() == 1 && q[0] == '/');
        }
    }
    let k = after_last(p, e, '/');
    if k == 0 {
        let v: Vec<char> = Vec::new();
        assert(v@ =~= Seq::<char>::empty());
        return Some(v);
    }
    let e2 = trim_right(p, k);
    assert(q.subrange(0, k as int) =~= p@.subrange(0, k as int));
    Some(slice_chars(p, 0, e2))
}

/// `Path::join` on Unix: an absolute right-hand side replaces the base;
/// otherwise a separator is inserted unless the base is empty or already ends
/// with one.
pub open spec fn join_path(base: Seq<char>, rel: Seq<char>) -> Seq<char> {
    if rel.len() > 0 && rel[0] == '/' {
        rel
    } else if base.len() == 0 || base.last() == '/' {
        base + rel
    } else {
        base + seq!['/'] + rel
    }
}

proof fn lemma_last_index_skip(s: Seq<char>, c: char, i: int, end: int)
    requires
        0 <= i <= end <= s.len(),
        forall|j: int| i <= j < end ==> s[j] != c,
    ensures
        last_index_of(s.subrange(0, end), c) == last_index_of(s.subrange(0, i), c),
    decreases end - i,
{
    if i < end {
        assert(s.subrange(0, end).drop_last() =~= s.subrange(0, end - 1));
        lemma_last_index_skip(s, c, i, end - 1);
    }
}

proof fn lemma_last_index_bounds(s: Seq<char>, c: char)
    ensures
        -1 <= last_index_of(s, c) < s.len(),
        last_index_of(s, c) >= 0 ==> s[last_index_of(s, c)] == c,
    decreases s.len(),
{
    if s.len() > 0 && s.last() != c {
        lemma_last_index_bounds(s.drop_last(), c);
    }
}

/// Index just after the last `c` in `s[..end]` (0 when there is none).
pub fn after_last(s: &[char], end: usize, c: char) -> (r: usize)
    requires
        end <= s@.len(),
    ensures
        r == last_index_of(s@.subrange(0, end as int), c) + 1,
        r <= end,
{
    let mut i = end;
    while i > 0 && s[i - 1] != c
        invariant
            i <= end,
            end <= s@.len(),
            forall|j: int| i <= j < end ==> s@[j] != c,
        decreases i,
    {
        i = i - 1;
    }
    proof {
        lemma_last_index_skip(s@, c, i as int, end as int);
        if i > 0 {
            assert(s@.subrange(0, i as int).last() == c);
        }
    }
    i
}

/// `Path::file_name`.
pub fn file_name(p: &[char]) -> (r: Option<Vec<char>>)
    ensures
        match r {
            Some(v) => file_name_of(p@) == Some(v@),
            None => file_name_of(p@) is None,
        },
{
    let mut end = p.len();
    assert(p@.subrange(0, end as int) =~= p@);
    loop
        invariant
            end <= p@.len(),
            file_name_of(p@) == file_name_of(p@.subrange(0, end as int)),
        decreases end,
    {
        let ghost q = p@.subrange(0, end as int);
        if end == 0 {
            return None;
        }
        if p[end - 1] == '/' {
            assert(q.drop_last() =~= p@.subrange(0, end - 1));
            end = end - 1;
        } else if end == 1 && p[0] == '.' {
            assert(q =~= seq!['.']);
            return None;
        } else if end >= 2 && p[end - 1] == '.' && p[end - 2] == '/' {
            assert(q.drop_last() =~= p@.subrange(0, end - 1));
            assert(q != seq!['.']);
            end = end - 1;
        } else {
            assert(q != seq!['.']) by {
                if q =~= seq!['.'] {
                    assert(q[0] == p@[0]);
                }
            }
            let start = after_last(p, end, '/');
            let seg = slice_chars(p, start, end);
            proof {
                lemma_last_index_bounds(q, '/');
                assert(seg@ =~= after_last_slash(q));
            }
            if seg.len() == 2 && seg[0] == '.' && seg[1] == '.' {
                assert(seg@ =~= seq!['.', '.']);
                return None;
            }
            assert(seg@ != seq!['.', '.']) by {
                if seg@ =~= seq!['.', '.'] {
                    assert(seg@[0] == '.' && seg@[1] == '.');
                }
            }
            return Some(seg);
        }
    }
}

/// The extension of a file name.
pub fn extension_of_file_name(name: &[char]) -> (r: Option<Vec<char>>)
    ensures
        match r {
            Some(v) => extension_of_name(name@) == Some(v@),
            None => extension_of_name(name@) is None,
        },
{
    let k = after_last(name, name.len(), '.');
    assert(name@.subrange(0, name@.len() as int) =~= name@);
    proof {
        lemma_last_index_bounds(name@, '.');
    }
    if k <= 1 {
        None
    } else {
        Some(slice_chars(name, k, name.len()))
    }
}

/// `Path::extension`.
pub fn extension(p: &[char]) -> (r: Option<Vec<char>>)
    ensures
        match r {
            Some(v) => extension_of(p@) == Some(v@),
            None => extension_of(p@) is None,
        },
{
    match file_name(p) {
        Some(name) => extension_of_file_name(name.as_slice()),
        None => None,
    }
}

/// `Path::file_stem`.
pub fn file_stem(p: &[char]) -> (r: Option<Vec<char>>)
    ensures
        match r {
            Some(v) => file_stem_of(p@) == Some(v@),
            None => file_stem_of(p@) is None,
        },
{
    match file_name(p) {
        Some(name) => {
            let k = after_last(name.as_slice(), name.len(), '.');
            assert(name@.subrange(0, name@.len() as int) =~= name@);
            proof {
                lemma_last_index_bounds(name@, '.');
            }
            if k <= 1 {
                Some(name)
            } else {
                Some(slice_chars(name.as_slice(), 0, k - 1))
            }
        },
        None => None,
    }
}

/// `Path::join`.
pub fn join(base: &[char], rel: &[char]) -> (r: Vec<char>)
    ensures
        r@ == join_path(base@, rel@),
{
    if rel.len() > 0 && rel[0] == '/' {
        let mut r: Vec<char> = Vec::new();
        push_all(&mut r, rel);
        assert(r@ =~= rel@);
        return r;
    }
    let mut r: Vec<char> = Vec::new();
    push_all(&mut r, base);
    if base.len() > 0 && base[base.len() - 1] != '/' {
        r.push('/');
    }
    push_all(&mut r, rel);
    assert(r@ =~= join_path(base@, rel@));
    r
}

/// `Path::join` with a string right-hand side.
pub fn join_str(base: &[char], rel: &str) -> (r: Vec<char>)
    ensures
        r@ == join_path(base@, rel@),
{
    let v = chars_of(rel);
    join(base, v.as_slice())
}

} // verus!
