//! Reorganisation of the library on disk: every catalogued comic gets the
//! path `{Publisher}/{Volume[-Year]}/{Volume} {NNN}[_verXX].ext` under the base
//! folder. This module holds the naming rules, the plan of each comic and the
//! bookkeeping of a run; reading the database, listing directories and moving
//! files is left to the caller.
use vstd::prelude::*;
use crate::text::{chars_of, string_of, push_all, push_str, is_space, is_whitespace, is_digit, is_ascii_digit, parse_unsigned, parse_u32, dec, dec_int, zero_pad, fmt_u64_padded, fmt_i64, lowercase_of, lowercase_chars, contains_block, contains, is_prefix, is_suffix, starts_with, ends_with, slice_chars};
use crate::pathutil::{join_path, join, last_index_of, after_last, extension, extension_of};
use crate::natural::view_all;

verus! {

broadcast use vstd::seq_lib::group_to_multiset_ensures;

// ── file-name sanitising ──────────────────────────────────────────────────

/// What one character becomes in a file name: separators and `:` turn into
/// `-`, the characters `* ? " < > |` are dropped, line breaks and tabs turn
/// into spaces.
pub open spec fn sanitize_char(c: char) -> Seq<char> {
    if c == '/' || c == '\\' || c == ':' {
        seq!['-']
    } else if c == '*' || c == '?' || c == '"' || c == '<' || c == '>' || c == '|' {
        Seq::empty()
    } else if c == '\n' || c == '\r' || c == '\t' {
        seq![' ']
    } else {
        seq![c]
    }
}

/// `sanitize_char` applied to every character.
pub open spec fn replace_invalid(s: Seq<char>) -> Seq<char>
    decreases s.len(),
{
    if s.len() == 0 {
        s
    } else {
        replace_invalid(s.drop_last()) + sanitize_char(s.last())
    }
}

/// Runs of spaces reduced to one space.
pub open spec fn collapse_spaces(s: Seq<char>) -> Seq<char>
    decreases s.len(),
{
    if s.len() == 0 {
        s
    } else if s.last() == ' ' && s.len() >= 2 && s[s.len() - 2] == ' ' {
        collapse_spaces(s.drop_last())
    } else {
        collapse_spaces(s.drop_last()).push(s.last())
    }
}

/// `s` without its leading whitespace.
pub open spec fn trim_start(s: Seq<char>) -> Seq<char>
    decreases s.len(),
{
    if s.len() > 0 && is_space(s[0]) {
        trim_start(s.drop_first())
    } else {
        s
    }
}

/// `s` without its trailing whitespace.
pub open spec fn trim_end(s: Seq<char>) -> Seq<char>
    decreases s.len(),
{
    if s.len() > 0 && is_space(s.last()) {
        trim_end(s.drop_last())
    } else {
        s
    }
}

/// `str::trim`.
pub open spec fn trim(s: Seq<char>) -> Seq<char> {
    trim_end(trim_start(s))
}

/// A name made safe for a file or folder.
pub open spec fn sanitized(s: Seq<char>) -> Seq<char> {
    trim(collapse_spaces(replace_invalid(s)))
}

fn replace_invalid_chars(s: &[char]) -> (r: Vec<char>)
    ensures
        r@ == replace_invalid(s@),
{
    let mut r: Vec<char> = Vec::new();
    let mut i: usize = 0;
    while i < s.len()
        invariant
            i <= s@.len(),
            r@ == replace_invalid(s@.subrange(0, i as int)),
        decreases s@.len() - i,
    {
        let ghost pre = s@.subrange(0, i + 1);
        assert(pre.drop_last() =~= s@.subrange(0, i as int));
        let c = s[i];
        if c == '/' || c == '\\' || c == ':' {
            r.push('-');
        } else if c == '*' || c == '?' || c == '"' || c == '<' || c == '>' || c == '|' {
        } else if c == '\n' || c == '\r' || c == '\t' {
            r.push(' ');
        } else {
            r.push(c);
        }
        assert(r@ =~= replace_invalid(pre));
        i = i + 1;
    }
    assert(s@.subrange(0, s@.len() as int) =~= s@);
    r
}

fn collapse_space_runs(s: &[char]) -> (r: Vec<char>)
    ensures
        r@ == collapse_spaces(s@),
{
    let mut r: Vec<char> = Vec::new();
    let mut prev_space = false;
    let mut i: usize = 0;
    while i < s.len()
        invariant
            i <= s@.len(),
            r@ == collapse_spaces(s@.subrange(0, i as int)),
            prev_space == (i > 0 && s@[i - 1] == ' '),
        decreases s@.len() - i,
    {
        let ghost pre = s@.subrange(0, i + 1);
        assert(pre.drop_last() =~= s@.subrange(0, i as int));
        let c = s[i];
        if c == ' ' {
            if !prev_space {
                r.push(' ');
            }
            prev_space = true;
        } else {
            r.push(c);
            prev_space = false;
        }
        assert(r@ =~= collapse_spaces(pre));
        i = i + 1;
    }
    assert(s@.subrange(0, s@.len() as int) =~= s@);
    r
}

/// `str::trim` on characters.
pub fn trim_chars(s: &[char]) -> (r: Vec<char>)
    ensures
        r@ == trim(s@),
{
    let n = s.len();
    let mut a: usize = 0;
    assert(s@.subrange(0, n as int) =~= s@);
    while a < n && is_whitespace(s[a])
        invariant
            a <= n,
            n == s@.len(),
            trim_start(s@) == trim_start(s@.subrange(a as int, n as int)),
        decreases n - a,
    {
        assert(s@.subrange(a as int, n as int).drop_first() =~= s@.subrange(a + 1, n as int));
        a = a + 1;
    }
    let ghost t = s@.subrange(a as int, n as int);
    assert(trim_start(t) == t);
    let mut b: usize = n;
    assert(t.subrange(0, (n - a) as int) =~= t);
    while b > a && is_whitespace(s[b - 1])
        invariant
            a <= b <= n,
            n == s@.len(),
            t == s@.subrange(a as int, n as int),
            trim_end(t) == trim_end(t.subrange(0, b - a)),
        decreases b,
    {
        assert(t.subrange(0, b - a).drop_last() =~= t.subrange(0, b - a - 1));
        b = b - 1;
    }
    assert(t.subrange(0, b - a) =~= s@.subrange(a as int, b as int));
    slice_chars(s, a, b)
}

/// `sanitize_filename` on characters.
pub fn sanitize_chars(name: &[char]) -> (r: Vec<char>)
    ensures
        r@ == sanitized(name@),
{
    let replaced = replace_invalid_chars(name);
    let collapsed = collapse_space_runs(replaced.as_slice());
    trim_chars(collapsed.as_slice())
}

// ── the first number of an issue label ────────────────────────────────────

/// `s` from its first ASCII digit on (empty when it has none).
pub open spec fn skip_non_digits(s: Seq<char>) -> Seq<char>
    decreases s.len(),
{
    if s.len() > 0 && !is_digit(s[0]) {
        skip_non_digits(s.drop_first())
    } else {
        s
    }
}

/// The ASCII digits at the start of `s`.
pub open spec fn digit_prefix(s: Seq<char>) -> Seq<char>
    decreases s.len(),
{
    if s.len() > 0 && is_digit(s[0]) {
        seq![s[0]] + digit_prefix(s.drop_first())
    } else {
        Seq::empty()
    }
}

/// The first run of ASCII digits of `s`, read as a `u32`; `None` when there is
/// no digit or the number does not fit.
pub open spec fn first_number(s: Seq<char>) -> Option<nat> {
    let run = digit_prefix(skip_non_digits(s));
    if run.len() == 0 {
        None
    } else {
        parse_unsigned(run, u32::MAX as nat)
    }
}

proof fn lemma_digit_prefix_all(s: Seq<char>, k: int)
    requires
        0 <= k <= s.len(),
        forall|j: int| 0 <= j < k ==> is_digit(s[j]),
        k == s.len() || !is_digit(s[k]),
    ensures
        digit_prefix(s) == s.subrange(0, k),
    decreases k,
{
    if k > 0 {
        lemma_digit_prefix_all(s.drop_first(), k - 1);
        assert(s.subrange(0, k) =~= seq![s[0]] + s.drop_first().subrange(0, k - 1));
    } else {
        assert(s.subrange(0, 0) =~= Seq::<char>::empty());
    }
}

/// The first number in an issue label (`re.search(r'(\d+)', s)`), as a `u32`.
pub fn first_number_in(s: &str) -> (r: Option<u32>)
    ensures
        match r {
            Some(n) => first_number(s@) == Some(n as nat),
            None => first_number(s@) is None,
        },
{
    let v = chars_of(s);
    let n = v.len();
    let mut a: usize = 0;
    assert(v@.subrange(0, n as int) =~= v@);
    while a < n && !is_ascii_digit(v[a])
        invariant
            a <= n,
            n == v@.len(),
            skip_non_digits(v@) == skip_non_digits(v@.subrange(a as int, n as int)),
        decreases n - a,
    {
        assert(v@.subrange(a as int, n as int).drop_first() =~= v@.subrange(a + 1, n as int));
        a = a + 1;
    }
    let ghost t = v@.subrange(a as int, n as int);
    let mut b: usize = a;
    while b < n && is_ascii_digit(v[b])
        invariant
            a <= b <= n,
            n == v@.len(),
            forall|j: int| a <= j < b ==> is_digit(v@[j]),
        decreases n - b,
    {
        b = b + 1;
    }
    proof {
        lemma_digit_prefix_all(t, b - a);
        assert(t.subrange(0, b - a) =~= v@.subrange(a as int, b as int));
    }
    if a == b {
        return None;
    }
    let run = slice_chars(v.as_slice(), a, b);
    parse_u32(run.as_slice())
}

// ── names and paths ───────────────────────────────────────────────────────

/// The number part of a normalized name: the first number on three digits,
/// or the sanitised label when it has no number.
pub open spec fn issue_part(issue: Seq<char>) -> Seq<char> {
    match first_number(issue) {
        Some(n) => zero_pad(dec(n), 3),
        None => sanitized(issue),
    }
}

/// `{Volume} {NNN}[_verXX]{ext}`.
pub open spec fn normalized_filename(volume: Seq<char>, issue: Seq<char>, ext: Seq<char>, version: u32) -> Seq<char> {
    let base = sanitized(volume) + seq![' '] + issue_part(issue);
    if version > 0 {
        base + "_ver"@ + zero_pad(dec(version as nat), 2) + ext
    } else {
        base + ext
    }
}

/// The publisher folder: the sanitised name, or `Sin Editorial`.
pub open spec fn publisher_folder(publisher: Option<Seq<char>>) -> Seq<char> {
    match publisher {
        Some(p) => sanitized(p),
        None => "Sin Editorial"@,
    }
}

/// The volume folder: `{Volume}-{Year}` when the year is positive, sanitised.
pub open spec fn volume_folder(volume: Seq<char>, year: Option<i64>) -> Seq<char> {
    match year {
        Some(y) => if y > 0 {
            sanitized(volume + seq!['-'] + dec_int(y as int))
        } else {
            sanitized(volume)
        },
        None => sanitized(volume),
    }
}

/// `{Publisher}/{Volume[-Year]}/{filename}`.
pub open spec fn relative_target(publisher: Option<Seq<char>>, volume: Seq<char>, year: Option<i64>, filename: Seq<char>) -> Seq<char> {
    publisher_folder(publisher) + seq!['/'] + volume_folder(volume, year) + seq!['/'] + filename
}

/// `make_absolute`: an absolute path stays, a relative one is joined to the base.
pub open spec fn absolute_of(path: Seq<char>, base: Seq<char>) -> Seq<char> {
    if path.len() > 0 && path[0] == '/' {
        path
    } else {
        join_path(base, path)
    }
}

/// Organises comics under `base_folder`.
pub struct ComicOrganizer {
    pub base_folder: String,
}

impl ComicOrganizer {
    /// An organiser for the library rooted at `base_folder`.
    pub fn new(base_folder: String) -> (r: Self)
        ensures
            r.base_folder@ == base_folder@,
    {
        ComicOrganizer { base_folder }
    }

    /// Cleans a name for use as a file or folder name: separators and `:`
    /// become `-`, `* ? " < > |` are removed, line breaks and tabs become
    /// spaces, runs of spaces collapse and the ends are trimmed.
    pub fn sanitize_filename(name: &str) -> (r: String)
        ensures
            r@ == sanitized(name@),
    {
        let v = chars_of(name);
        let s = sanitize_chars(v.as_slice());
        string_of(s.as_slice())
    }

    /// The normalized name `{Volume} {NNN}[_verXX].ext` of an issue.
    pub fn generate_normalized_filename(volume_name: &str, issue_number: &str, extension: &str, version: u32) -> (r: String)
        ensures
            r@ == normalized_filename(volume_name@, issue_number@, extension@, version),
    {
        let vol = chars_of(volume_name);
        let mut out = sanitize_chars(vol.as_slice());
        out.push(' ');
        match first_number_in(issue_number) {
            Some(n) => {
                let d = fmt_u64_padded(n as u64, 3);
                push_all(&mut out, d.as_slice());
            },
            None => {
                let iv = chars_of(issue_number);
                let s = sanitize_chars(iv.as_slice());
                push_all(&mut out, s.as_slice());
            },
        }
        if version > 0 {
            push_str(&mut out, "_ver");
            let d = fmt_u64_padded(version as u64, 2);
            push_all(&mut out, d.as_slice());
        }
        push_str(&mut out, extension);
        proof {
            reveal_strlit("_ver");
        }
        assert(out@ =~= normalized_filename(volume_name@, issue_number@, extension@, version));
        string_of(out.as_slice())
    }

    /// The target of a file named `filename`: the path relative to the base
    /// folder and the absolute one.
    pub fn generate_target_path(
        &self,
        publisher_name: Option<&str>,
        volume_name: &str,
        volume_year: Option<i64>,
        filename: &str,
    ) -> (r: (String, String))
        ensures
            r.0@ == relative_target(
                match publisher_name { Some(p) => Some(p@), None => None },
                volume_name@,
                volume_year,
                filename@,
            ),
            r.1@ == join_path(self.base_folder@, r.0@),
    {
        let mut rel: Vec<char> = match publisher_name {
            Some(p) => {
                let pv = chars_of(p);
                sanitize_chars(pv.as_slice())
            },
            None => chars_of("Sin Editorial"),
        };
        rel.push('/');
        let mut vol = chars_of(volume_name);
        let year_ok = match volume_year {
            Some(y) => y > 0,
            None => false,
        };
        if year_ok {
            let y = volume_year.unwrap();
            vol.push('-');
            let d = fmt_i64(y);
            push_all(&mut vol, d.as_slice());
        }
        let vf = sanitize_chars(vol.as_slice());
        assert(vf@ == volume_folder(volume_name@, volume_year)) by {
            if year_ok {
                assert(vol@ =~= volume_name@ + seq!['-'] + dec_int(volume_year.unwrap() as int));
            } else {
                assert(vol@ =~= volume_name@);
            }
        }
        let ghost pf = rel@.drop_last();
        assert(pf == publisher_folder(match publisher_name { Some(p) => Some(p@), None => None })) by {
            reveal_strlit("Sin Editorial");
        }
        push_all(&mut rel, vf.as_slice());
        rel.push('/');
        push_str(&mut rel, filename);
        assert(rel@ =~= relative_target(
            match publisher_name { Some(p) => Some(p@), None => None },
            volume_name@,
            volume_year,
            filename@,
        ));
        let base = chars_of(self.base_folder.as_str());
        let abs = join(base.as_slice(), rel.as_slice());
        (string_of(rel.as_slice()), string_of(abs.as_slice()))
    }
}

/// `make_absolute`: an absolute path as it is, a relative one under `base`.
pub fn make_absolute(path: &str, base: &str) -> (r: String)
    ensures
        r@ == absolute_of(path@, base@),
{
    let p = chars_of(path);
    if p.len() > 0 && p[0] == '/' {
        return path.to_owned();
    }
    let b = chars_of(base);
    let j = join(b.as_slice(), p.as_slice());
    string_of(j.as_slice())
}

// ── path equality ─────────────────────────────────────────────────────────

/// The pieces of `p` between slashes (empty pieces included).
pub open spec fn split_slash(p: Seq<char>) -> Seq<Seq<char>>
    decreases p.len(),
{
    if p.len() == 0 {
        seq![Seq::<char>::empty()]
    } else if p.last() == '/' {
        split_slash(p.drop_last()).push(Seq::<char>::empty())
    } else {
        let s = split_slash(p.drop_last());
        s.update(s.len() - 1, s.last().push(p.last()))
    }
}

/// A piece is a component unless it is empty, or a `.` after the first piece.
pub open spec fn is_component(piece: Seq<char>, k: int) -> bool {
    piece.len() > 0 && (piece != seq!['.'] || k == 0)
}

/// The pieces that are components, in order.
pub open spec fn components_of(ps: Seq<Seq<char>>) -> Seq<Seq<char>>
    decreases ps.len(),
{
    if ps.len() == 0 {
        ps
    } else if is_component(ps.last(), ps.len() - 1) {
        components_of(ps.drop_last()).push(ps.last())
    } else {
        components_of(ps.drop_last())
    }
}

/// `Path` equality on Unix: same root and same components (repeated
/// separators and `.` components after the first do not count).
pub open spec fn same_path(a: Seq<char>, b: Seq<char>) -> bool {
    &&& (a.len() > 0 && a[0] == '/') == (b.len() > 0 && b[0] == '/')
    &&& components_of(split_slash(a)) == components_of(split_slash(b))
}

proof fn lemma_split_len(p: Seq<char>)
    ensures
        split_slash(p).len() >= 1,
    decreases p.len(),
{
    if p.len() > 0 {
        lemma_split_len(p.drop_last());
    }
}

/// The components of a path, as character vectors.
fn path_components(p: &[char]) -> (r: Vec<Vec<char>>)
    ensures
        view_all(r@) == components_of(split_slash(p@)),
{
    let mut parts: Vec<Vec<char>> = Vec::new();
    parts.push(Vec::new());
    let mut i: usize = 0;
    assert(view_all(parts@) =~= split_slash(p@.subrange(0, 0)));
    while i < p.len()
        invariant
            i <= p@.len(),
            view_all(parts@) == split_slash(p@.subrange(0, i as int)),
            parts@.len() >= 1,
        decreases p@.len() - i,
    {
        let ghost pre = p@.subrange(0, i + 1);
        assert(pre.drop_last() =~= p@.subrange(0, i as int));
        let ghost before = parts@;
        if p[i] == '/' {
            parts.push(Vec::new());
            assert(view_all(parts@) =~= view_all(before).push(Seq::<char>::empty()));
        } else {
            let mut last = parts.pop().unwrap();
            last.push(p[i]);
            parts.push(last);
            assert(view_all(parts@) =~= view_all(before).update(
                view_all(before).len() - 1,
                view_all(before).last().push(p@[i as int]),
            ));
        }
        i = i + 1;
    }
    assert(p@.subrange(0, p@.len() as int) =~= p@);
    let ghost all = view_all(parts@);
    let mut out: Vec<Vec<char>> = Vec::new();
    let mut pending: Vec<Vec<char>> = Vec::new();
    let n = parts.len();
    while parts.len() > 0
        invariant
            n == all.len(),
            view_all(parts@) == all.subrange(0, parts@.len() as int),
            pending@.len() == n - parts@.len(),
            forall|j: int| 0 <= j < pending@.len() ==> pending@[j]@ == all[n - 1 - j],
        decreases parts.len(),
    {
        let ghost before = parts@;
        assert(view_all(before)[before.len() - 1] == before[before.len() - 1]@);
        assert(all.subrange(0, before.len() as int)[before.len() - 1] == all[before.len() - 1]);
        let x = parts.pop().unwrap();
        assert(x@ == all[parts@.len() as int]);
        assert(view_all(parts@) =~= all.subrange(0, parts@.len() as int));
        pending.push(x);
    }
    assert(all.subrange(0, 0) =~= Seq::<Seq<char>>::empty());
    assert(view_all(out@) =~= components_of(all.subrange(0, 0)));
    while pending.len() > 0
        invariant
            n == all.len(),
            pending@.len() <= n,
            forall|j: int| 0 <= j < pending@.len() ==> pending@[j]@ == all[n - 1 - j],
            view_all(out@) == components_of(all.subrange(0, n - pending@.len())),
        decreases pending.len(),
    {
        let ghost k = n - pending@.len();
        let x = pending.pop().unwrap();
        assert(x@ == all[k]);
        assert(all.subrange(0, k + 1).drop_last() =~= all.subrange(0, k));
        proof {
            assert((x@ == seq!['.']) == (x@.len() == 1 && x@[0] == '.')) by {
                if x@.len() == 1 && x@[0] == '.' {
                    assert(x@ =~= seq!['.']);
                }
            }
        }
        let ghost before = out@;
        let idx = n - pending.len() - 1;
        if x.len() > 0 && !(x.len() == 1 && x[0] == '.' && idx != 0) {
            out.push(x);
            assert(view_all(out@) =~= view_all(before).push(all[k]));
        }
    }
    assert(all.subrange(0, n as int) =~= all);
    out
}

fn components_eq(a: &Vec<Vec<char>>, b: &Vec<Vec<char>>) -> (r: bool)
    ensures
        r == (view_all(a@) == view_all(b@)),
{
    if a.len() != b.len() {
        assert(view_all(a@).len() != view_all(b@).len());
        return false;
    }
    let mut i: usize = 0;
    while i < a.len()
        invariant
            i <= a@.len(),
            a@.len() == b@.len(),
            forall|j: int| 0 <= j < i ==> a@[j]@ == b@[j]@,
        decreases a@.len() - i,
    {
        if !crate::text::chars_eq(a[i].as_slice(), b[i].as_slice()) {
            assert(view_all(a@)[i as int] != view_all(b@)[i as int]);
            return false;
        }
        i = i + 1;
    }
    assert(view_all(a@) =~= view_all(b@));
    true
}

/// Whether two paths name the same place (`Path` equality).
pub fn paths_equal(a: &str, b: &str) -> (r: bool)
    ensures
        r == same_path(a@, b@),
{
    let av = chars_of(a);
    let bv = chars_of(b);
    let ar = av.len() > 0 && av[0] == '/';
    let br = bv.len() > 0 && bv[0] == '/';
    if ar != br {
        return false;
    }
    let ac = path_components(av.as_slice());
    let bc = path_components(bv.as_slice());
    components_eq(&ac, &bc)
}

// ── the real type of a file ───────────────────────────────────────────────

/// The extension that a `file --mime-type` answer calls for, if any.
pub open spec fn mime_extension(mime: Seq<char>) -> Option<Seq<char>> {
    if contains_block(mime, "zip"@) {
        Some(".cbz"@)
    } else if contains_block(mime, "rar"@) {
        Some(".cbr"@)
    } else if contains_block(mime, "7z"@) {
        Some(".cb7"@)
    } else if contains_block(mime, "pdf"@) {
        Some(".pdf"@)
    } else {
        None
    }
}

/// The extension kept for a file: the one its MIME type calls for when that
/// differs from the lower-cased original, else the original. `file_output` is
/// what `file -b --mime-type` printed, `None` when it could not run.
pub open spec fn fixed_extension(file_output: Option<Seq<char>>, original: Seq<char>) -> Seq<char> {
    match file_output {
        None => original,
        Some(out) => match mime_extension(lowercase_of(trim(out))) {
            None => original,
            Some(e) => if e != lowercase_of(original) {
                e
            } else {
                original
            },
        },
    }
}

/// Corrects an extension from the MIME type reported by `file`.
pub fn fix_extension_for_mime(file_output: Option<&str>, original_ext: &str) -> (r: String)
    ensures
        r@ == fixed_extension(
            match file_output { Some(o) => Some(o@), None => None },
            original_ext@,
        ),
{
    let out = match file_output {
        Some(o) => o,
        None => return original_ext.to_owned(),
    };
    let ov = chars_of(out);
    let trimmed = trim_chars(ov.as_slice());
    let mime = lowercase_chars(trimmed.as_slice());
    let zip = chars_of("zip");
    let rar = chars_of("rar");
    let sz = chars_of("7z");
    let pdf = chars_of("pdf");
    let correct: &str = if contains(mime.as_slice(), zip.as_slice()) {
        ".cbz"
    } else if contains(mime.as_slice(), rar.as_slice()) {
        ".cbr"
    } else if contains(mime.as_slice(), sz.as_slice()) {
        ".cb7"
    } else if contains(mime.as_slice(), pdf.as_slice()) {
        ".pdf"
    } else {
        return original_ext.to_owned();
    };
    let orig = chars_of(original_ext);
    let lower = lowercase_chars(orig.as_slice());
    if crate::text::chars_eq_str(lower.as_slice(), correct) {
        original_ext.to_owned()
    } else {
        correct.to_owned()
    }
}

// ── versions already on disk ──────────────────────────────────────────────

/// Where a file name splits into name and extension: its last `.`, or its end.
pub open spec fn dot_index(base: Seq<char>) -> int {
    let k = last_index_of(base, '.');
    if k < 0 {
        base.len() as int
    } else {
        k
    }
}

/// The prefix of versioned copies of `base`: `{name}_ver`.
pub open spec fn version_prefix(base: Seq<char>) -> Seq<char> {
    base.subrange(0, dot_index(base)) + "_ver"@
}

/// The extension part of `base` (from its last `.`, or empty).
pub open spec fn extension_part(base: Seq<char>) -> Seq<char> {
    base.subrange(dot_index(base), base.len() as int)
}

/// The version a directory entry is, if it is `{name}_ver{N}{ext}` with `N` a `u32`.
pub open spec fn version_of_entry(entry: Seq<char>, prefix: Seq<char>, ext: Seq<char>) -> Option<nat> {
    if is_prefix(prefix, entry) && is_suffix(ext, entry) {
        parse_unsigned(entry.subrange(prefix.len() as int, entry.len() - ext.len()), u32::MAX as nat)
    } else {
        None
    }
}

/// The versions found among directory entries, in listing order.
pub open spec fn entry_versions(names: Seq<String>, prefix: Seq<char>, ext: Seq<char>) -> Seq<u32>
    decreases names.len(),
{
    if names.len() == 0 {
        Seq::empty()
    } else {
        match version_of_entry(names.last()@, prefix, ext) {
            Some(v) => entry_versions(names.drop_last(), prefix, ext).push(v as u32),
            None => entry_versions(names.drop_last(), prefix, ext),
        }
    }
}

/// Versions of `base` in a directory: 0 for the file itself, then the `_verN` copies.
pub open spec fn listed_versions(base: Seq<char>, base_exists: bool, names: Seq<String>) -> Seq<u32> {
    let found = entry_versions(names, version_prefix(base), extension_part(base));
    if base_exists {
        seq![0u32] + found
    } else {
        found
    }
}

/// No entry both starts with the prefix and ends with the extension while
/// being shorter than the two together (slicing such a name out of range panics).
pub open spec fn entries_sliceable(names: Seq<String>, base: Seq<char>) -> bool {
    forall|i: int| 0 <= i < names.len() ==> {
        let e = #[trigger] names[i]@;
        (is_prefix(version_prefix(base), e) && is_suffix(extension_part(base), e)) ==> e.len()
            >= version_prefix(base).len() + extension_part(base).len()
    }
}

/// Ascending order.
pub open spec fn ascending(s: Seq<u32>) -> bool {
    forall|i: int, j: int| 0 <= i <= j < s.len() ==> s[i] <= s[j]
}

fn sort_versions(v: Vec<u32>) -> (r: Vec<u32>)
    ensures
        r@.to_multiset() == v@.to_multiset(),
        ascending(r@),
{
    let mut out: Vec<u32> = Vec::new();
    let mut i: usize = 0;
    while i < v.len()
        invariant
            i <= v@.len(),
            out@.to_multiset() == v@.subrange(0, i as int).to_multiset(),
            ascending(out@),
        decreases v@.len() - i,
    {
        let x = v[i];
        let mut p = out.len();
        while p > 0 && out[p - 1] > x
            invariant
                p <= out@.len(),
                forall|j: int| p <= j < out@.len() ==> out@[j] > x,
            decreases p,
        {
            p = p - 1;
        }
        let ghost before = out@;
        out.insert(p, x);
        proof {
            assert(v@.subrange(0, i + 1) =~= v@.subrange(0, i as int).push(v@[i as int]));
            assert forall|a: int, b: int| 0 <= a <= b < out@.len() implies out@[a] <= out@[b] by {
                if a < p && b > p {
                    assert(out@[a] == before[a] && out@[b] == before[b - 1]);
                } else if a < p && b == p {
                    assert(out@[a] == before[a]);
                    assert(before[a] <= before[p - 1]);
                } else if a < p {
                    assert(out@[a] == before[a] && out@[b] == before[b]);
                } else if a == p && b > p {
                    assert(out@[b] == before[b - 1]);
                } else if a > p {
                    assert(out@[a] == before[a - 1] && out@[b] == before[b - 1]);
                }
            }
        }
        i = i + 1;
    }
    assert(v@.subrange(0, v@.len() as int) =~= v@);
    out
}

/// Versions of `base_filename` already present in its directory, ascending:
/// 0 when the file itself exists, `N` for each `{name}_ver{N}{ext}` entry.
/// `names` is the directory listing (empty when it could not be read).
pub fn find_existing_versions(base_filename: &str, dir_exists: bool, base_exists: bool, names: &Vec<String>) -> (r: Vec<u32>)
    requires
        entries_sliceable(names@, base_filename@),
    ensures
        !dir_exists ==> r@ == Seq::<u32>::empty(),
        dir_exists ==> r@.to_multiset() == listed_versions(base_filename@, base_exists, names@).to_multiset(),
        ascending(r@),
{
    if !dir_exists {
        return Vec::new();
    }
    let b = chars_of(base_filename);
    let k = after_last(b.as_slice(), b.len(), '.');
    assert(b@.subrange(0, b@.len() as int) =~= b@);
    let dot: usize = if k == 0 { b.len() } else { k - 1 };
    assert(dot == dot_index(b@));
    let mut prefix = slice_chars(b.as_slice(), 0, dot);
    push_str(&mut prefix, "_ver");
    let ext = slice_chars(b.as_slice(), dot, b.len());
    assert(prefix@ == version_prefix(base_filename@));
    assert(ext@ == extension_part(base_filename@));
    let mut found: Vec<u32> = Vec::new();
    if base_exists {
        found.push(0);
    }
    let ghost start = found@;
    let mut i: usize = 0;
    while i < names.len()
        invariant
            i <= names@.len(),
            prefix@ == version_prefix(base_filename@),
            ext@ == extension_part(base_filename@),
            entries_sliceable(names@, base_filename@),
            found@ == start + entry_versions(names@.subrange(0, i as int), prefix@, ext@),
        decreases names@.len() - i,
    {
        let ghost pre = names@.subrange(0, i + 1);
        assert(pre.drop_last() =~= names@.subrange(0, i as int));
        assert(pre.last() == names@[i as int]);
        let f = chars_of(names[i].as_str());
        if starts_with(f.as_slice(), prefix.as_slice()) && ends_with(f.as_slice(), ext.as_slice()) {
            assert(f@ == names@[i as int]@);
            let mid = slice_chars(f.as_slice(), prefix.len(), f.len() - ext.len());
            match parse_u32(mid.as_slice()) {
                Some(n) => {
                    found.push(n);
                    assert(found@ =~= start + entry_versions(pre, prefix@, ext@));
                },
                None => {},
            }
        }
        i = i + 1;
    }
    assert(names@.subrange(0, names@.len() as int) =~= names@);
    proof {
        reveal_strlit("_ver");
        if base_exists {
            assert(start =~= seq![0u32]);
        } else {
            assert(start =~= Seq::<u32>::empty());
            assert(found@ =~= entry_versions(names@, prefix@, ext@));
        }
    }
    sort_versions(found)
}

// ── plans ─────────────────────────────────────────────────────────────────

/// Outcome of planning one comic.
#[derive(Clone, Copy, Debug, PartialEq, Eq, Structural)]
pub enum OrganizationStatus {
    Ready,
    Duplicate,
    AlreadyInPlace,
    NoInfo,
    Error,
}

impl OrganizationStatus {
    /// The status code shown to the user.
    pub fn as_str(&self) -> (r: &'static str)
        ensures
            r@ == match *self {
                OrganizationStatus::Ready => "OK"@,
                OrganizationStatus::Duplicate => "DUPLICATE"@,
                OrganizationStatus::AlreadyInPlace => "ALREADY_IN_PLACE"@,
                OrganizationStatus::NoInfo => "NO_INFO"@,
                OrganizationStatus::Error => "ERROR"@,
            },
    {
        match self {
            OrganizationStatus::Ready => "OK",
            OrganizationStatus::Duplicate => "DUPLICATE",
            OrganizationStatus::AlreadyInPlace => "ALREADY_IN_PLACE",
            OrganizationStatus::NoInfo => "NO_INFO",
            OrganizationStatus::Error => "ERROR",
        }
    }
}

/// Where one comic is to go.
#[derive(Clone, Debug)]
pub struct ComicOrganizationPlan {
    pub comicbook_id: i64,
    pub current_path: String,
    pub new_path_relative: String,
    pub new_path_absolute: String,
    pub filename_normalized: String,
    pub status: OrganizationStatus,
    pub message: String,
    /// 0 = original, 1+ = duplicated version.
    pub version: u32,
    pub volume_id: i64,
    pub volume_name: String,
}

/// What the catalogue says of a comic, as far as its name and place go.
#[derive(Clone, Debug)]
pub struct ComicMetadata {
    pub issue_number: Option<String>,
    pub volume_id: i64,
    pub volume_name: String,
    pub volume_year: i64,
    pub publisher_name: Option<String>,
}

/// Counts of a run over several plans.
#[derive(Clone, Copy, Debug, PartialEq, Eq, Structural)]
pub struct ExecuteStats {
    pub success: usize,
    pub failed: usize,
    pub skipped: usize,
}

/// A plan as plain values: id, current path, relative and absolute target,
/// file name, status, message, version, volume id and name.
pub open spec fn plan_view(p: ComicOrganizationPlan) -> (i64, Seq<char>, Seq<char>, Seq<char>, Seq<char>, OrganizationStatus, Seq<char>, u32, i64, Seq<char>) {
    (
        p.comicbook_id,
        p.current_path@,
        p.new_path_relative@,
        p.new_path_absolute@,
        p.filename_normalized@,
        p.status,
        p.message@,
        p.version,
        p.volume_id,
        p.volume_name@,
    )
}

/// The extension of a path as the plan writes it: `.` and the lower-cased
/// extension, or nothing.
pub open spec fn dotted_extension(path: Seq<char>) -> Seq<char> {
    match extension_of(path) {
        Some(e) => seq!['.'] + lowercase_of(e),
        None => Seq::empty(),
    }
}

/// The issue label used for the name (`0` when the issue has none).
pub open spec fn issue_label(m: ComicMetadata) -> Seq<char> {
    match m.issue_number {
        Some(n) => n@,
        None => "0"@,
    }
}

/// The publisher name, as a view.
pub open spec fn publisher_of(m: ComicMetadata) -> Option<Seq<char>> {
    match m.publisher_name {
        Some(p) => Some(p@),
        None => None,
    }
}

/// The normalized file name of a comic for a version.
pub open spec fn plan_filename(m: ComicMetadata, ext: Seq<char>, version: u32) -> Seq<char> {
    normalized_filename(m.volume_name@, issue_label(m), ext, version)
}

/// The relative target of a comic for a version.
pub open spec fn plan_relative(m: ComicMetadata, ext: Seq<char>, version: u32) -> Seq<char> {
    relative_target(publisher_of(m), m.volume_name@, Some(m.volume_year), plan_filename(m, ext, version))
}

/// The largest value of a sequence (0 for an empty one).
pub open spec fn seq_max(s: Seq<u32>) -> nat
    decreases s.len(),
{
    if s.len() == 0 {
        0
    } else if seq_max(s.drop_last()) >= s.last() {
        seq_max(s.drop_last())
    } else {
        s.last() as nat
    }
}

/// The plan of one comic: not catalogued, already in place, ready to move, or
/// a duplicate of what is at the target (then the next free version).
/// `existing` are the versions already in the target directory.
pub open spec fn planned(
    base: Seq<char>,
    id: i64,
    path: Seq<char>,
    meta: Option<ComicMetadata>,
    file_output: Option<Seq<char>>,
    existing: Seq<u32>,
) -> (i64, Seq<char>, Seq<char>, Seq<char>, Seq<char>, OrganizationStatus, Seq<char>, u32, i64, Seq<char>) {
    let cur = absolute_of(path, base);
    match meta {
        None => (
            id,
            cur,
            Seq::empty(),
            Seq::empty(),
            Seq::empty(),
            OrganizationStatus::NoInfo,
            "Cómic sin catalogar (no tiene ComicbookInfo asociado)"@,
            0,
            0,
            Seq::empty(),
        ),
        Some(m) => {
            let ext = fixed_extension(file_output, dotted_extension(cur));
            let rel = plan_relative(m, ext, 0);
            let abs = join_path(base, rel);
            if same_path(absolute_of(cur, base), absolute_of(abs, base)) {
                (
                    id,
                    cur,
                    rel,
                    abs,
                    plan_filename(m, ext, 0),
                    OrganizationStatus::AlreadyInPlace,
                    "Ya está en la ubicación correcta"@,
                    0,
                    m.volume_id,
                    m.volume_name@,
                )
            } else if existing.len() == 0 {
                (
                    id,
                    cur,
                    rel,
                    abs,
                    plan_filename(m, ext, 0),
                    OrganizationStatus::Ready,
                    "Listo para mover"@,
                    0,
                    m.volume_id,
                    m.volume_name@,
                )
            } else {
                let next = (seq_max(existing) + 1) as u32;
                let rel_v = plan_relative(m, ext, next);
                (
                    id,
                    cur,
                    rel_v,
                    join_path(base, rel_v),
                    plan_filename(m, ext, next),
                    OrganizationStatus::Duplicate,
                    "Duplicado detectado, se creará versión "@ + zero_pad(dec(next as nat), 2),
                    next,
                    m.volume_id,
                    m.volume_name@,
                )
            }
        },
    }
}

fn max_version(v: &Vec<u32>) -> (r: u32)
    ensures
        r == seq_max(v@),
{
    let mut m: u32 = 0;
    let mut i: usize = 0;
    while i < v.len()
        invariant
            i <= v@.len(),
            m == seq_max(v@.subrange(0, i as int)),
        decreases v@.len() - i,
    {
        assert(v@.subrange(0, i + 1).drop_last() =~= v@.subrange(0, i as int));
        if v[i] > m {
            m = v[i];
        }
        i = i + 1;
    }
    assert(v@.subrange(0, v@.len() as int) =~= v@);
    m
}

impl ComicOrganizer {
    /// The extension a comic keeps: the lower-cased one of its path,
    /// corrected by what `file` reports.
    pub fn plan_extension(&self, path: &str, file_output: Option<&str>) -> (r: String)
        ensures
            r@ == fixed_extension(
                match file_output { Some(o) => Some(o@), None => None },
                dotted_extension(absolute_of(path@, self.base_folder@)),
            ),
    {
        let cur = make_absolute(path, self.base_folder.as_str());
        let cv = chars_of(cur.as_str());
        let orig: Vec<char> = match extension(cv.as_slice()) {
            Some(e) => {
                let mut d: Vec<char> = Vec::new();
                d.push('.');
                let l = lowercase_chars(e.as_slice());
                push_all(&mut d, l.as_slice());
                d
            },
            None => Vec::new(),
        };
        assert(orig@ =~= dotted_extension(cur@));
        let o = string_of(orig.as_slice());
        fix_extension_for_mime(file_output, o.as_str())
    }

    /// The normalized name and the relative and absolute targets of a comic
    /// for a version.
    pub fn versioned_target(&self, meta: &ComicMetadata, ext: &str, version: u32) -> (r: (String, String, String))
        ensures
            r.0@ == plan_filename(*meta, ext@, version),
            r.1@ == plan_relative(*meta, ext@, version),
            r.2@ == join_path(self.base_folder@, r.1@),
    {
        let issue: &str = match &meta.issue_number {
            Some(n) => n.as_str(),
            None => "0",
        };
        let name = Self::generate_normalized_filename(meta.volume_name.as_str(), issue, ext, version);
        let publisher: Option<&str> = match &meta.publisher_name {
            Some(p) => Some(p.as_str()),
            None => None,
        };
        let (rel, abs) = self.generate_target_path(publisher, meta.volume_name.as_str(), Some(meta.volume_year), name.as_str());
        (name, rel, abs)
    }

    /// The plan of one comic. `meta` is its catalogue data (`None` when it is
    /// not catalogued), `file_output` what `file --mime-type` printed for it,
    /// and `existing` the versions already in the target directory.
    pub fn create_plan_for_comic(
        &self,
        comicbook_id: i64,
        path: &str,
        meta: Option<ComicMetadata>,
        file_output: Option<&str>,
        existing: &Vec<u32>,
    ) -> (r: ComicOrganizationPlan)
        requires
            seq_max(existing@) < u32::MAX,
        ensures
            plan_view(r) == planned(
                self.base_folder@,
                comicbook_id,
                path@,
                meta,
                match file_output { Some(o) => Some(o@), None => None },
                existing@,
            ),
    {
        let cur = make_absolute(path, self.base_folder.as_str());
        let m = match meta {
            None => {
                return ComicOrganizationPlan {
                    comicbook_id,
                    current_path: cur,
                    new_path_relative: String::new(),
                    new_path_absolute: String::new(),
                    filename_normalized: String::new(),
                    status: OrganizationStatus::NoInfo,
                    message: "Cómic sin catalogar (no tiene ComicbookInfo asociado)".to_owned(),
                    version: 0,
                    volume_id: 0,
                    volume_name: String::new(),
                };
            },
            Some(m) => m,
        };
        let ext = self.plan_extension(path, file_output);
        let (name, rel, abs) = self.versioned_target(&m, ext.as_str(), 0);
        let a = make_absolute(cur.as_str(), self.base_folder.as_str());
        let b = make_absolute(abs.as_str(), self.base_folder.as_str());
        if paths_equal(a.as_str(), b.as_str()) {
            return ComicOrganizationPlan {
                comicbook_id,
                current_path: cur,
                new_path_relative: rel,
                new_path_absolute: abs,
                filename_normalized: name,
                status: OrganizationStatus::AlreadyInPlace,
                message: "Ya está en la ubicación correcta".to_owned(),
                version: 0,
                volume_id: m.volume_id,
                volume_name: m.volume_name,
            };
        }
        if existing.len() == 0 {
            return ComicOrganizationPlan {
                comicbook_id,
                current_path: cur,
                new_path_relative: rel,
                new_path_absolute: abs,
                filename_normalized: name,
                status: OrganizationStatus::Ready,
                message: "Listo para mover".to_owned(),
                version: 0,
                volume_id: m.volume_id,
                volume_name: m.volume_name,
            };
        }
        let next = max_version(existing) + 1;
        let (vname, vrel, vabs) = self.versioned_target(&m, ext.as_str(), next);
        let mut msg = chars_of("Duplicado detectado, se creará versión ");
        let d = fmt_u64_padded(next as u64, 2);
        push_all(&mut msg, d.as_slice());
        ComicOrganizationPlan {
            comicbook_id,
            current_path: cur,
            new_path_relative: vrel,
            new_path_absolute: vabs,
            filename_normalized: vname,
            status: OrganizationStatus::Duplicate,
            message: string_of(msg.as_slice()),
            version: next,
            volume_id: m.volume_id,
            volume_name: m.volume_name,
        }
    }
}

// ── duplicates within a batch ─────────────────────────────────────────────

/// A plan that will move a file (ready or duplicate).
pub open spec fn is_movable(p: ComicOrganizationPlan) -> bool {
    p.status == OrganizationStatus::Ready || p.status == OrganizationStatus::Duplicate
}

/// Plan `j` moves a file to the target `t`.
pub open spec fn moves_to(plans: Seq<ComicOrganizationPlan>, t: Seq<char>, j: int) -> bool {
    0 <= j < plans.len() && is_movable(plans[j]) && plans[j].new_path_absolute@ == t
}

/// The plans among the first `n` that move a file to `t`, by index.
pub open spec fn batch_upto(plans: Seq<ComicOrganizationPlan>, t: Seq<char>, n: int) -> Seq<usize>
    decreases n,
{
    if n <= 0 {
        Seq::empty()
    } else if moves_to(plans, t, n - 1) {
        batch_upto(plans, t, n - 1).push((n - 1) as usize)
    } else {
        batch_upto(plans, t, n - 1)
    }
}

/// Plan `i` is the first to move a file to its target.
pub open spec fn first_of_batch(plans: Seq<ComicOrganizationPlan>, i: int) -> bool {
    moves_to(plans, plans[i].new_path_absolute@, i) && batch_upto(plans, plans[i].new_path_absolute@, i).len() == 0
}

/// The batches (two plans or more with one target) among the first `n` plans,
/// in the order of their first plan.
pub open spec fn batches_upto(plans: Seq<ComicOrganizationPlan>, n: int) -> Seq<Seq<usize>>
    decreases n,
{
    if n <= 0 {
        Seq::empty()
    } else {
        let i = n - 1;
        let b = batch_upto(plans, plans[i].new_path_absolute@, plans.len() as int);
        if first_of_batch(plans, i) && b.len() >= 2 {
            batches_upto(plans, n - 1).push(b)
        } else {
            batches_upto(plans, n - 1)
        }
    }
}

/// The views of a vector of index vectors.
pub open spec fn index_views(v: Seq<Vec<usize>>) -> Seq<Seq<usize>> {
    Seq::new(v.len(), |i: int| v[i]@)
}

fn plans_moving_to(plans: &Vec<ComicOrganizationPlan>, target: &String, n: usize) -> (r: Vec<usize>)
    requires
        n <= plans@.len(),
    ensures
        r@ == batch_upto(plans@, target@, n as int),
{
    let mut r: Vec<usize> = Vec::new();
    let mut j: usize = 0;
    while j < n
        invariant
            j <= n <= plans@.len(),
            r@ == batch_upto(plans@, target@, j as int),
        decreases n - j,
    {
        let movable = match plans[j].status {
            OrganizationStatus::Ready => true,
            OrganizationStatus::Duplicate => true,
            _ => false,
        };
        if movable && plans[j].new_path_absolute == *target {
            r.push(j);
        }
        j = j + 1;
    }
    r
}

/// The batches of plans that move files to the same target: for each target
/// shared by two movable plans or more, their indices in plan order; batches
/// come in the order of their first plan.
pub fn duplicate_groups(plans: &Vec<ComicOrganizationPlan>) -> (r: Vec<Vec<usize>>)
    ensures
        index_views(r@) == batches_upto(plans@, plans@.len() as int),
{
    let mut r: Vec<Vec<usize>> = Vec::new();
    let mut i: usize = 0;
    while i < plans.len()
        invariant
            i <= plans@.len(),
            index_views(r@) == batches_upto(plans@, i as int),
        decreases plans@.len() - i,
    {
        let t = &plans[i].new_path_absolute;
        let earlier = plans_moving_to(plans, t, i);
        let all = plans_moving_to(plans, t, plans.len());
        let movable = match plans[i].status {
            OrganizationStatus::Ready => true,
            OrganizationStatus::Duplicate => true,
            _ => false,
        };
        let ghost before = r@;
        if movable && earlier.len() == 0 && all.len() >= 2 {
            r.push(all);
            assert(index_views(r@) =~= index_views(before).push(batch_upto(plans@, plans@[i as int].new_path_absolute@, plans@.len() as int)));
        }
        i = i + 1;
    }
    r
}

/// The version given to the `k`-th plan of a batch: when nothing is on disk
/// the first plan keeps the plain name and the others get 1, 2, …; otherwise
/// they all get versions after the largest one on disk.
pub open spec fn batch_version(existing: Seq<u32>, k: int) -> Option<u32> {
    if existing.len() == 0 {
        if k == 0 {
            None
        } else {
            Some(k as u32)
        }
    } else {
        Some((seq_max(existing) + 1 + k) as u32)
    }
}

/// The versions of the `count` plans of a batch (`None`: left as it is).
pub fn batch_versions(existing: &Vec<u32>, count: usize) -> (r: Vec<Option<u32>>)
    requires
        existing@.len() == 0 ==> count <= u32::MAX,
        existing@.len() > 0 ==> seq_max(existing@) < u32::MAX,
        existing@.len() > 0 ==> seq_max(existing@) + count <= u32::MAX,
    ensures
        r@.len() == count,
        forall|k: int| 0 <= k < count ==> r@[k] == batch_version(existing@, k),
{
    let mut r: Vec<Option<u32>> = Vec::new();
    let empty = existing.len() == 0;
    let start: u32 = if empty { 1 } else { max_version(existing) + 1 };
    let mut k: usize = 0;
    while k < count
        invariant
            k <= count,
            r@.len() == k,
            empty == (existing@.len() == 0),
            empty ==> start == 1 && count <= u32::MAX,
            !empty ==> start == seq_max(existing@) + 1 && seq_max(existing@) + count <= u32::MAX,
            forall|j: int| 0 <= j < k ==> r@[j] == batch_version(existing@, j),
        decreases count - k,
    {
        if empty {
            if k == 0 {
                r.push(None);
            } else {
                r.push(Some(start + (k as u32) - 1));
            }
        } else {
            r.push(Some(start + (k as u32)));
        }
        k = k + 1;
    }
    r
}

/// The plan after it was given version `version` within its batch.
pub open spec fn rebatched(p: ComicOrganizationPlan, base: Seq<char>, m: ComicMetadata, version: u32) -> (i64, Seq<char>, Seq<char>, Seq<char>, Seq<char>, OrganizationStatus, Seq<char>, u32, i64, Seq<char>) {
    let ext = dotted_extension(p.current_path@);
    let rel = plan_relative(m, ext, version);
    (
        p.comicbook_id,
        p.current_path@,
        rel,
        join_path(base, rel),
        plan_filename(m, ext, version),
        OrganizationStatus::Duplicate,
        "Duplicado en el lote, se creará versión "@ + zero_pad(dec(version as nat), 2),
        version,
        p.volume_id,
        p.volume_name@,
    )
}

impl ComicOrganizer {
    /// Gives a plan of a batch its own version: new name and targets from
    /// `meta` and the extension of its current path, status duplicate.
    pub fn apply_batch_version(&self, plan: &mut ComicOrganizationPlan, meta: &ComicMetadata, version: u32)
        ensures
            plan_view(*final(plan)) == rebatched(*old(plan), self.base_folder@, *meta, version),
    {
        let cv = chars_of(plan.current_path.as_str());
        let ext: Vec<char> = match extension(cv.as_slice()) {
            Some(e) => {
                let mut d: Vec<char> = Vec::new();
                d.push('.');
                let l = lowercase_chars(e.as_slice());
                push_all(&mut d, l.as_slice());
                d
            },
            None => Vec::new(),
        };
        assert(ext@ =~= dotted_extension(plan.current_path@));
        let e = string_of(ext.as_slice());
        let (name, rel, abs) = self.versioned_target(meta, e.as_str(), version);
        let mut msg = chars_of("Duplicado en el lote, se creará versión ");
        let d = fmt_u64_padded(version as u64, 2);
        push_all(&mut msg, d.as_slice());
        plan.new_path_relative = rel;
        plan.new_path_absolute = abs;
        plan.filename_normalized = name;
        plan.status = OrganizationStatus::Duplicate;
        plan.message = string_of(msg.as_slice());
        plan.version = version;
    }
}

// ── running the plans ─────────────────────────────────────────────────────

/// How the run went for one plan.
#[derive(Clone, Copy, Debug, PartialEq, Eq, Structural)]
pub enum PlanOutcome {
    Skipped,
    Succeeded,
    Failed,
}

/// What a plan's run starts with: refused (with the message) when the plan
/// does not move a file or its source is missing, the dry-run message, or
/// `None` when the move is to be made.
pub open spec fn precheck(p: ComicOrganizationPlan, source_exists: bool, dry_run: bool) -> Result<Option<Seq<char>>, Seq<char>> {
    if !is_movable(p) {
        Err("No se puede ejecutar: "@ + p.message@)
    } else if !source_exists {
        Err("Archivo origen no existe: "@ + p.current_path@)
    } else if dry_run {
        Ok(Some("[DRY RUN] Movería: "@ + p.current_path@ + " → "@ + p.new_path_absolute@))
    } else {
        Ok(None)
    }
}

/// The checks that precede moving a plan's file.
pub fn execute_precheck(plan: &ComicOrganizationPlan, source_exists: bool, dry_run: bool) -> (r: Result<Option<String>, String>)
    ensures
        match (r, precheck(*plan, source_exists, dry_run)) {
            (Ok(Some(m)), Ok(Some(e))) => m@ == e,
            (Ok(None), Ok(None)) => true,
            (Err(m), Err(e)) => m@ == e,
            _ => false,
        },
{
    let movable = match plan.status {
        OrganizationStatus::Ready => true,
        OrganizationStatus::Duplicate => true,
        _ => false,
    };
    if !movable {
        let mut v = chars_of("No se puede ejecutar: ");
        push_str(&mut v, plan.message.as_str());
        return Err(string_of(v.as_slice()));
    }
    if !source_exists {
        let mut v = chars_of("Archivo origen no existe: ");
        push_str(&mut v, plan.current_path.as_str());
        return Err(string_of(v.as_slice()));
    }
    if dry_run {
        let mut v = chars_of("[DRY RUN] Movería: ");
        push_str(&mut v, plan.current_path.as_str());
        push_str(&mut v, " → ");
        push_str(&mut v, plan.new_path_absolute.as_str());
        return Ok(Some(string_of(v.as_slice())));
    }
    Ok(None)
}

/// The message of a plan whose file was moved.
pub fn moved_message(plan: &ComicOrganizationPlan) -> (r: String)
    ensures
        r@ == "Movido: "@ + plan.filename_normalized@,
{
    let mut v = chars_of("Movido: ");
    push_str(&mut v, plan.filename_normalized.as_str());
    string_of(v.as_slice())
}

impl ComicOrganizer {
    /// Gives the plans of one batch (`group`, the indices of plans aimed at one
    /// target, in plan order) their own versions: the `k`-th plan of the batch
    /// gets version `batch_version(existing, k)` when it has one and its
    /// metadata `metas[k]` is known; every other plan is left as it is.
    pub fn resolve_duplicate_group(
        &self,
        plans: &mut Vec<ComicOrganizationPlan>,
        group: &Vec<usize>,
        existing: &Vec<u32>,
        metas: &Vec<Option<ComicMetadata>>,
    )
        requires
            metas@.len() == group@.len(),
            forall|k: int| 0 <= k < group@.len() ==> #[trigger] group@[k] < old(plans)@.len(),
            forall|a: int, b: int| 0 <= a < b < group@.len() ==> group@[a] != group@[b],
            existing@.len() == 0 ==> group@.len() <= u32::MAX,
            existing@.len() > 0 ==> seq_max(existing@) < u32::MAX,
            existing@.len() > 0 ==> seq_max(existing@) + group@.len() <= u32::MAX,
        ensures
            final(plans)@.len() == old(plans)@.len(),
            forall|k: int|
                0 <= k < group@.len() ==> plan_view(#[trigger] final(plans)@[group@[k] as int]) == match (
                    batch_version(existing@, k),
                    metas@[k],
                ) {
                    (Some(v), Some(m)) => rebatched(old(plans)@[group@[k] as int], self.base_folder@, m, v),
                    _ => plan_view(old(plans)@[group@[k] as int]),
                },
            forall|i: int|
                0 <= i < old(plans)@.len() && !group@.contains(i as usize) ==> plan_view(#[trigger] final(plans)@[i])
                    == plan_view(old(plans)@[i]),
            forall|k: int|
                0 <= k < group@.len() ==> (#[trigger] final(plans)@[group@[k] as int]).comicbook_id == old(plans)@[group@[k] as int].comicbook_id && final(plans)@[group@[k] as int].current_path@ == old(plans)@[group@[k] as int].current_path@,
            forall|k: int|
                0 <= k < group@.len() && retargeted(existing@, metas@, k) ==> {
                    let p = #[trigger] final(plans)@[group@[k] as int];
                    &&& p.status == OrganizationStatus::Duplicate
                    &&& p.version > 0
                    &&& !existing@.contains(p.version)
                },
            forall|a: int, b: int|
                0 <= a < b < group@.len() && retargeted(existing@, metas@, a) && retargeted(existing@, metas@, b)
                    ==> (#[trigger] final(plans)@[group@[a] as int]).version != (#[trigger] final(plans)@[group@[b] as int]).version,
    {
        let versions = batch_versions(existing, group.len());
        let mut k: usize = 0;
        while k < group.len()
            invariant
                k <= group@.len(),
                versions@.len() == group@.len(),
                metas@.len() == group@.len(),
                forall|j: int| 0 <= j < group@.len() ==> versions@[j] == batch_version(existing@, j),
                forall|j: int| 0 <= j < group@.len() ==> #[trigger] group@[j] < old(plans)@.len(),
                forall|a: int, b: int| 0 <= a < b < group@.len() ==> group@[a] != group@[b],
                plans@.len() == old(plans)@.len(),
                forall|j: int|
                    0 <= j < k ==> plan_view(#[trigger] plans@[group@[j] as int]) == match (
                        batch_version(existing@, j),
                        metas@[j],
                    ) {
                        (Some(v), Some(m)) => rebatched(old(plans)@[group@[j] as int], self.base_folder@, m, v),
                        _ => plan_view(old(plans)@[group@[j] as int]),
                    },
                forall|i: int|
                    0 <= i < old(plans)@.len() && !group@.subrange(0, k as int).contains(i as usize) ==> plans@[i]
                        == old(plans)@[i],
            decreases group@.len() - k,
        {
            let idx = group[k];
            let ghost before = plans@;
            assert(!group@.subrange(0, k as int).contains(idx)) by {
                if group@.subrange(0, k as int).contains(idx) {
                    let j = choose|j: int| 0 <= j < k && group@.subrange(0, k as int)[j] == idx;
                    assert(group@[j] == group@[k as int]);
                }
            }
            match (versions[k], &metas[k]) {
                (Some(v), Some(m)) => {
                    let mut plan = plans.remove(idx);
                    self.apply_batch_version(&mut plan, m, v);
                    plans.insert(idx, plan);
                    assert(plans@ =~= before.update(idx as int, plans@[idx as int]));
                },
                _ => {},
            }
            assert forall|i: int|
                0 <= i < old(plans)@.len() && !group@.subrange(0, k + 1).contains(i as usize) implies plans@[i]
                == old(plans)@[i] by {
                assert(group@.subrange(0, k + 1)[k as int] == idx);
                if i == idx as int {
                    assert(group@.subrange(0, k + 1).contains(idx));
                }
                if group@.subrange(0, k as int).contains(i as usize) {
                    let j = choose|j: int| 0 <= j < k && group@.subrange(0, k as int)[j] == i as usize;
                    assert(group@.subrange(0, k + 1)[j] == i as usize);
                }
            }
            assert forall|j: int| 0 <= j < k + 1 implies plan_view(#[trigger] plans@[group@[j] as int]) == match (
                batch_version(existing@, j),
                metas@[j],
            ) {
                (Some(v), Some(m)) => rebatched(old(plans)@[group@[j] as int], self.base_folder@, m, v),
                _ => plan_view(old(plans)@[group@[j] as int]),
            } by {
                if j < k {
                    assert(group@[j] != group@[k as int]);
                } else {
                    assert(!group@.subrange(0, k as int).contains(idx));
                    assert(before[idx as int] == old(plans)@[idx as int]);
                }
            }
            k = k + 1;
        }
        assert forall|i: int|
            0 <= i < old(plans)@.len() && !group@.contains(i as usize) implies plan_view(#[trigger] plans@[i])
            == plan_view(old(plans)@[i]) by {
            assert(group@.subrange(0, group@.len() as int) =~= group@);
        }
        proof {
            let n = group@.len();
            assert forall|k: int| 0 <= k < n && retargeted(existing@, metas@, k) implies {
                let p = #[trigger] plans@[group@[k] as int];
                &&& p.status == OrganizationStatus::Duplicate
                &&& p.version > 0
                &&& !existing@.contains(p.version)
            } by {
                lemma_version_fresh(existing@, k);
            }
            assert forall|a: int, b: int|
                0 <= a < b < n && retargeted(existing@, metas@, a) && retargeted(existing@, metas@, b) implies (
                #[trigger] plans@[group@[a] as int]).version != (#[trigger] plans@[group@[b] as int]).version by {
                batch_versions_are_fresh(existing@, n as nat, a, b);
            }
        }
    }
}

/// The `k`-th plan of a batch is given a new target: it has a version and
/// its metadata is known.
pub open spec fn retargeted(existing: Seq<u32>, metas: Seq<Option<ComicMetadata>>, k: int) -> bool {
    batch_version(existing, k) is Some && metas[k] is Some
}

proof fn lemma_version_fresh(existing: Seq<u32>, k: int)
    requires
        0 <= k <= u32::MAX,
        existing.len() > 0 ==> seq_max(existing) + k + 1 <= u32::MAX,
    ensures
        batch_version(existing, k) is Some ==> batch_version(existing, k).unwrap() > 0 && !existing.contains(
            batch_version(existing, k).unwrap(),
        ),
{
    lemma_seq_max(existing);
}

/// Number of `o` in `s`.
pub open spec fn count_outcome(s: Seq<PlanOutcome>, o: PlanOutcome) -> nat
    decreases s.len(),
{
    if s.len() == 0 {
        0
    } else {
        count_outcome(s.drop_last(), o) + if s.last() == o { 1nat } else { 0nat }
    }
}

impl ExecuteStats {
    /// All counts at zero.
    pub fn new() -> (r: Self)
        ensures
            r.success == 0 && r.failed == 0 && r.skipped == 0,
    {
        ExecuteStats { success: 0, failed: 0, skipped: 0 }
    }

    /// The counts of a run whose plans ended as `outcomes`.
    pub fn tally(outcomes: &Vec<PlanOutcome>) -> (r: Self)
        ensures
            r.success == count_outcome(outcomes@, PlanOutcome::Succeeded),
            r.failed == count_outcome(outcomes@, PlanOutcome::Failed),
            r.skipped == count_outcome(outcomes@, PlanOutcome::Skipped),
    {
        let mut st = ExecuteStats::new();
        let mut i: usize = 0;
        while i < outcomes.len()
            invariant
                i <= outcomes@.len(),
                st.success == count_outcome(outcomes@.subrange(0, i as int), PlanOutcome::Succeeded),
                st.failed == count_outcome(outcomes@.subrange(0, i as int), PlanOutcome::Failed),
                st.skipped == count_outcome(outcomes@.subrange(0, i as int), PlanOutcome::Skipped),
                st.success + st.failed + st.skipped == i,
            decreases outcomes@.len() - i,
        {
            assert(outcomes@.subrange(0, i + 1).drop_last() =~= outcomes@.subrange(0, i as int));
            match outcomes[i] {
                PlanOutcome::Skipped => st.skipped = st.skipped + 1,
                PlanOutcome::Succeeded => st.success = st.success + 1,
                PlanOutcome::Failed => st.failed = st.failed + 1,
            }
            i = i + 1;
        }
        assert(outcomes@.subrange(0, outcomes@.len() as int) =~= outcomes@);
        st
    }
}

/// Whether a plan is run at all (plans with nothing to move are skipped).
pub fn is_executable(status: OrganizationStatus) -> (r: bool)
    ensures
        r == (status == OrganizationStatus::Ready || status == OrganizationStatus::Duplicate),
{
    match status {
        OrganizationStatus::Ready => true,
        OrganizationStatus::Duplicate => true,
        _ => false,
    }
}

// ── the run over all plans ────────────────────────────────────────────────

/// Number of plans among the first `n` that are skipped (move no file).
pub open spec fn skipped_upto(plans: Seq<ComicOrganizationPlan>, n: int) -> nat
    decreases n,
{
    if n <= 0 {
        0
    } else {
        skipped_upto(plans, n - 1) + if is_movable(plans[n - 1]) { 0nat } else { 1nat }
    }
}

/// A run over a list of plans: the plan it stands at, the counts so far, and
/// whether the current plan was handed out to be executed.
#[derive(Clone, Copy, Debug, PartialEq, Eq, Structural)]
pub struct ExecuteRun {
    pub index: usize,
    pub stats: ExecuteStats,
    pub executing: bool,
}

/// What the caller of a run does next.
#[derive(Clone, Debug)]
pub enum ExecuteAction {
    /// Execute the plan at this index and hand its result to the next step.
    Execute(usize),
    /// Report the plan at `index` of `total`: whether it succeeded, and its message.
    Report { index: usize, total: usize, ok: bool, message: String },
    /// Every plan was reported; these are the counts.
    Done(ExecuteStats),
}

impl ExecuteRun {
    /// Every plan before `index` was counted once: the skipped ones as
    /// skipped, the others as succeeded or failed.
    pub open spec fn wf(self, plans: Seq<ComicOrganizationPlan>) -> bool {
        &&& self.index <= plans.len()
        &&& self.stats.skipped == skipped_upto(plans, self.index as int)
        &&& self.stats.success + self.stats.failed + self.stats.skipped == self.index
        &&& self.executing ==> self.index < plans.len() && is_movable(plans[self.index as int])
    }

    /// A run before the first plan.
    pub fn start() -> (r: Self)
        ensures
            r.index == 0 && !r.executing,
            r.stats == (ExecuteStats { success: 0, failed: 0, skipped: 0 }),
            forall|plans: Seq<ComicOrganizationPlan>| r.wf(plans),
    {
        ExecuteRun { index: 0, stats: ExecuteStats::new(), executing: false }
    }

    /// One step of the run. `result` is what executing the current plan gave,
    /// when the last step asked for it (it is ignored otherwise). A plan that
    /// moves no file is reported as failed with its own message and counted
    /// as skipped; a plan that moves one is handed out to be executed, then
    /// reported with the result's message and counted as succeeded when the
    /// result is `Ok`, as failed otherwise. After the last plan the counts
    /// come out.
    pub fn step(&mut self, plans: &Vec<ComicOrganizationPlan>, result: Option<Result<String, String>>) -> (r: ExecuteAction)
        requires
            old(self).wf(plans@),
        ensures
            final(self).wf(plans@),
            match r {
                ExecuteAction::Execute(i) => {
                    &&& i == old(self).index && i < plans@.len() && is_movable(plans@[i as int])
                    &&& final(self).index == old(self).index && final(self).stats == old(self).stats
                    &&& final(self).executing
                },
                ExecuteAction::Report { index, total, ok, message } => {
                    &&& index == old(self).index && total == plans@.len() && index < total
                    &&& final(self).index == index + 1 && !final(self).executing
                    &&& match (old(self).executing, result) {
                        (true, Some(Ok(m))) => ok && message@ == m@ && final(self).stats == (ExecuteStats {
                            success: (old(self).stats.success + 1) as usize,
                            ..old(self).stats
                        }),
                        (true, Some(Err(m))) => !ok && message@ == m@ && final(self).stats == (ExecuteStats {
                            failed: (old(self).stats.failed + 1) as usize,
                            ..old(self).stats
                        }),
                        _ => !is_movable(plans@[index as int]) && !ok && message@ == plans@[index as int].message@
                            && final(self).stats == (ExecuteStats {
                            skipped: (old(self).stats.skipped + 1) as usize,
                            ..old(self).stats
                        }),
                    }
                },
                ExecuteAction::Done(stats) => {
                    &&& old(self).index == plans@.len() && !old(self).executing
                    &&& stats == old(self).stats && *final(self) == *old(self)
                },
            },
            old(self).index < plans@.len() ==> !(r is Done),
            old(self).executing && result is Some ==> r is Report,
    {
        let n = plans.len();
        if self.executing {
            match result {
                Some(Ok(m)) => {
                    let index = self.index;
                    self.stats.success = self.stats.success + 1;
                    self.index = index + 1;
                    self.executing = false;
                    return ExecuteAction::Report { index, total: n, ok: true, message: m };
                },
                Some(Err(m)) => {
                    let index = self.index;
                    self.stats.failed = self.stats.failed + 1;
                    self.index = index + 1;
                    self.executing = false;
                    return ExecuteAction::Report { index, total: n, ok: false, message: m };
                },
                None => {
                    return ExecuteAction::Execute(self.index);
                },
            }
        }
        if self.index >= n {
            return ExecuteAction::Done(self.stats);
        }
        let index = self.index;
        if is_executable(plans[index].status) {
            self.executing = true;
            ExecuteAction::Execute(index)
        } else {
            self.stats.skipped = self.stats.skipped + 1;
            self.index = index + 1;
            ExecuteAction::Report { index, total: n, ok: false, message: plans[index].message.clone() }
        }
    }
}

// ── laws ──────────────────────────────────────────────────────────────────

/// Every plan of a run is counted exactly once.
pub proof fn tally_counts_every_plan(s: Seq<PlanOutcome>)
    ensures
        count_outcome(s, PlanOutcome::Succeeded) + count_outcome(s, PlanOutcome::Failed) + count_outcome(
            s,
            PlanOutcome::Skipped,
        ) == s.len(),
    decreases s.len(),
{
    if s.len() > 0 {
        tally_counts_every_plan(s.drop_last());
    }
}

proof fn lemma_skipped_filter(plans: Seq<ComicOrganizationPlan>, n: int)
    requires
        0 <= n <= plans.len(),
    ensures
        skipped_upto(plans, n) == plans.take(n).filter(|p: ComicOrganizationPlan| !is_movable(p)).len(),
    decreases n,
{
    reveal(Seq::filter);
    if n > 0 {
        lemma_skipped_filter(plans, n - 1);
        assert(plans.take(n).drop_last() =~= plans.take(n - 1));
        assert(plans.take(n).last() == plans[n - 1]);
    }
}

/// A run that has stepped past the last plan counted every plan once: the
/// counts add up to the number of plans, and the skipped ones are exactly the
/// plans that move no file (no information, already in place, or in error).
pub proof fn finished_run_counts_every_plan(run: ExecuteRun, plans: Seq<ComicOrganizationPlan>)
    requires
        run.wf(plans),
        run.index == plans.len(),
    ensures
        run.stats.success + run.stats.failed + run.stats.skipped == plans.len(),
        run.stats.skipped == plans.filter(|p: ComicOrganizationPlan| !is_movable(p)).len(),
{
    lemma_skipped_filter(plans, plans.len() as int);
    assert(plans.take(plans.len() as int) =~= plans);
}

proof fn lemma_seq_max(s: Seq<u32>)
    ensures
        forall|i: int| 0 <= i < s.len() ==> s[i] <= seq_max(s),
    decreases s.len(),
{
    if s.len() > 0 {
        lemma_seq_max(s.drop_last());
        assert forall|i: int| 0 <= i < s.len() implies s[i] <= seq_max(s) by {
            if i < s.len() - 1 {
                assert(s[i] == s.drop_last()[i]);
            }
        }
    }
}

/// Within a batch, the plans that get a version get distinct ones, none of
/// them already on disk and none of them 0.
pub proof fn batch_versions_are_fresh(existing: Seq<u32>, count: nat, a: int, b: int)
    requires
        existing.len() == 0 ==> count <= u32::MAX,
        existing.len() > 0 ==> seq_max(existing) + count <= u32::MAX,
        0 <= a < b < count,
    ensures
        batch_version(existing, a) is Some ==> batch_version(existing, a) != batch_version(existing, b),
        batch_version(existing, b) is Some,
        forall|k: int| #![auto] 0 <= k < count && batch_version(existing, k) is Some ==> {
            &&& batch_version(existing, k).unwrap() > 0
            &&& !existing.contains(batch_version(existing, k).unwrap())
        },
{
    lemma_seq_max(existing);
}


// ── what a sanitized name looks like ──────────────────────────────────────

/// A character that never appears in a sanitized name.
pub open spec fn forbidden_char(c: char) -> bool {
    c == '/' || c == '\\' || c == ':' || c == '*' || c == '?' || c == '"' || c == '<' || c == '>' || c == '|'
        || c == '\n' || c == '\r' || c == '\t'
}

/// No forbidden character.
pub open spec fn no_forbidden(s: Seq<char>) -> bool {
    forall|k: int| 0 <= k < s.len() ==> !forbidden_char(#[trigger] s[k])
}

/// No two spaces in a row.
pub open spec fn no_double_space(s: Seq<char>) -> bool {
    forall|k: int| 0 <= k < s.len() - 1 ==> !(#[trigger] s[k] == ' ' && s[k + 1] == ' ')
}

/// Neither end is whitespace.
pub open spec fn trimmed(s: Seq<char>) -> bool {
    s.len() == 0 || (!is_space(s[0]) && !is_space(s.last()))
}

proof fn lemma_replace_clean(s: Seq<char>)
    ensures
        no_forbidden(replace_invalid(s)),
        no_forbidden(s) ==> replace_invalid(s) == s,
    decreases s.len(),
{
    if s.len() > 0 {
        lemma_replace_clean(s.drop_last());
        let r = replace_invalid(s.drop_last());
        let c = sanitize_char(s.last());
        assert forall|k: int| 0 <= k < (r + c).len() implies !forbidden_char(#[trigger] (r + c)[k]) by {
            if k < r.len() {
                assert((r + c)[k] == r[k]);
            }
        }
        if no_forbidden(s) {
            assert(!forbidden_char(s[s.len() - 1]));
            assert(no_forbidden(s.drop_last())) by {
                assert forall|k: int| 0 <= k < s.drop_last().len() implies !forbidden_char(#[trigger] s.drop_last()[k]) by {
                    assert(s.drop_last()[k] == s[k]);
                }
            }
            assert(s.drop_last() + seq![s.last()] =~= s);
        }
    }
}

proof fn lemma_collapse_clean(s: Seq<char>)
    ensures
        no_double_space(collapse_spaces(s)),
        s.len() > 0 ==> collapse_spaces(s).len() > 0 && collapse_spaces(s).last() == s.last(),
        no_forbidden(s) ==> no_forbidden(collapse_spaces(s)),
        no_double_space(s) ==> collapse_spaces(s) == s,
        collapse_spaces(s).len() <= s.len(),
    decreases s.len(),
{
    if s.len() > 0 {
        let p = s.drop_last();
        lemma_collapse_clean(p);
        let cp = collapse_spaces(p);
        if no_forbidden(s) {
            assert forall|k: int| 0 <= k < p.len() implies !forbidden_char(#[trigger] p[k]) by {
                assert(p[k] == s[k]);
            }
        }
        if !(s.last() == ' ' && s.len() >= 2 && s[s.len() - 2] == ' ') {
            let q = cp.push(s.last());
            assert forall|k: int| 0 <= k < q.len() - 1 implies !(#[trigger] q[k] == ' ' && q[k + 1] == ' ') by {
                if k < cp.len() - 1 {
                    assert(q[k] == cp[k] && q[k + 1] == cp[k + 1]);
                } else {
                    assert(q[k] == cp.last());
                    assert(cp.last() == p.last());
                    assert(p.last() == s[s.len() - 2]);
                }
            }
            if no_forbidden(s) {
                assert forall|k: int| 0 <= k < q.len() implies !forbidden_char(#[trigger] q[k]) by {
                    if k < cp.len() {
                        assert(q[k] == cp[k]);
                    } else {
                        assert(q[k] == s[s.len() - 1]);
                    }
                }
            }
            if no_double_space(s) {
                assert forall|k: int| 0 <= k < p.len() - 1 implies !(#[trigger] p[k] == ' ' && p[k + 1] == ' ') by {
                    assert(p[k] == s[k] && p[k + 1] == s[k + 1]);
                }
                assert(p.push(s.last()) =~= s);
            }
        } else {
            if no_double_space(s) {
                assert(s[s.len() - 2] == ' ' && s[s.len() - 2 + 1] == ' ');
            }
        }
    }
}

proof fn lemma_trim_start_sub(s: Seq<char>) -> (i: int)
    ensures
        0 <= i <= s.len(),
        trim_start(s) == s.subrange(i, s.len() as int),
        trim_start(s).len() > 0 ==> !is_space(trim_start(s)[0]),
        no_forbidden(s) ==> no_forbidden(trim_start(s)),
    decreases s.len(),
{
    if s.len() > 0 && is_space(s[0]) {
        let j = lemma_trim_start_sub(s.drop_first());
        assert(s.drop_first().subrange(j, s.drop_first().len() as int) =~= s.subrange(j + 1, s.len() as int));
        if no_forbidden(s) {
            assert forall|k: int| 0 <= k < s.drop_first().len() implies !forbidden_char(#[trigger] s.drop_first()[k]) by {
                assert(s.drop_first()[k] == s[k + 1]);
            }
        }
        j + 1
    } else {
        assert(s.subrange(0, s.len() as int) =~= s);
        0
    }
}

proof fn lemma_trim_end_sub(s: Seq<char>) -> (j: int)
    ensures
        0 <= j <= s.len(),
        trim_end(s) == s.subrange(0, j),
        trim_end(s).len() > 0 ==> !is_space(trim_end(s).last()),
    decreases s.len(),
{
    if s.len() > 0 && is_space(s.last()) {
        let j = lemma_trim_end_sub(s.drop_last());
        assert(s.drop_last().subrange(0, j) =~= s.subrange(0, j));
        j
    } else {
        assert(s.subrange(0, s.len() as int) =~= s);
        s.len() as int
    }
}

proof fn lemma_trim_clean(s: Seq<char>)
    ensures
        trimmed(trim(s)),
        no_forbidden(s) ==> no_forbidden(trim(s)),
        no_double_space(s) ==> no_double_space(trim(s)),
        trimmed(s) ==> trim(s) == s,
{
    let i = lemma_trim_start_sub(s);
    let u = trim_start(s);
    let j = lemma_trim_end_sub(u);
    let r = trim(s);
    assert(r =~= s.subrange(i, i + j));
    if r.len() > 0 {
        assert(r[0] == u[0]);
    }
    if no_forbidden(s) {
        assert forall|k: int| 0 <= k < r.len() implies !forbidden_char(#[trigger] r[k]) by {
            assert(r[k] == s[i + k]);
        }
    }
    if no_double_space(s) {
        assert forall|k: int| 0 <= k < r.len() - 1 implies !(#[trigger] r[k] == ' ' && r[k + 1] == ' ') by {
            assert(r[k] == s[i + k] && r[k + 1] == s[i + k + 1]);
        }
    }
    if trimmed(s) && s.len() > 0 {
        assert(i == 0);
        assert(u =~= s);
        assert(j == s.len());
    }
    if s.len() == 0 {
        assert(r =~= s);
    }
}

/// A sanitized name holds none of `/ \ : * ? " < > |`, line breaks or tabs,
/// never two spaces in a row, has no whitespace at either end, and
/// sanitizing it again changes nothing.
pub proof fn sanitized_name_is_clean(s: Seq<char>)
    ensures
        no_forbidden(sanitized(s)),
        no_double_space(sanitized(s)),
        trimmed(sanitized(s)),
        sanitized(sanitized(s)) == sanitized(s),
{
    let a = replace_invalid(s);
    lemma_replace_clean(s);
    lemma_collapse_clean(a);
    let b = collapse_spaces(a);
    lemma_trim_clean(b);
    let r = trim(b);
    lemma_replace_clean(r);
    lemma_collapse_clean(r);
    lemma_trim_clean(r);
}

} // verus!
