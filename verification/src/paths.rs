//! Where thumbnails live under the thumbnails folder:
//! `comics/{size}/{bucket}/{id}.jpg`, `volumes/{id}.jpg`, `publishers/{id}.jpg`,
//! `comic_pages/{comic}/page_{n}.jpg` and `comicbook_info/{volume}_{id}/{file}`.
use vstd::prelude::*;
use crate::text::{chars_of, string_of, push_all, push_str, fmt_i64, dec_int, all_digits, all_ascii_digits};
use crate::pathutil::{join_path, join, join_str, last_index_of, after_last};
use crate::thumbnail::{CardSize, size_dir_name};

verus! {

/// Comics per thumbnail folder: a comic goes to the folder of its id rounded
/// down to a multiple of this (toward zero).
pub const SHARD_SIZE: i64 = 1000;

/// Integer division rounding toward zero, as Rust's `/` on `i64`.
pub open spec fn div_trunc(a: int, b: int) -> int {
    if a >= 0 {
        a / b
    } else {
        -((-a) / b)
    }
}

/// The folder bucket of a comic id.
pub open spec fn bucket_of(id: i64) -> int {
    div_trunc(id as int, SHARD_SIZE as int) * SHARD_SIZE
}

/// The folder bucket of a comic id: `(id / 1000) * 1000`.
pub fn shard_bucket(id: i64) -> (r: i64)
    ensures
        r == bucket_of(id),
{
    let a = id as i128;
    let r: i128 = if a >= 0 {
        (a / 1000) * 1000
    } else {
        -(((-a) / 1000) * 1000)
    };
    let ghost m: int = if a >= 0 { a as int } else { -(a as int) };
    assert(0 <= m / 1000 * 1000 <= m) by (nonlinear_arith)
        requires
            m >= 0,
    ;
    r as i64
}

/// The default thumbnails folder under a home directory (`.` when there is none).
pub open spec fn default_base(home: Option<Seq<char>>) -> Seq<char> {
    let h = match home {
        Some(h) => h,
        None => "."@,
    };
    join_path(h, ".local/share/babelcomics/thumbnails"@)
}

/// The characters dropped from a volume name in the cover folder name.
pub open spec fn unsafe_in_folder(c: char) -> bool {
    c == '.' || c == ':' || c == '/' || c == '\\' || c == '?' || c == '*' || c == '"' || c == '<' || c
        == '>' || c == '|'
}

/// `s` without the characters that are unsafe in a folder name.
pub open spec fn strip_unsafe(s: Seq<char>) -> Seq<char>
    decreases s.len(),
{
    if s.len() == 0 {
        s
    } else if unsafe_in_folder(s.last()) {
        strip_unsafe(s.drop_last())
    } else {
        strip_unsafe(s.drop_last()).push(s.last())
    }
}

/// The thumbnails folder and the paths below it.
pub struct ThumbnailPaths {
    pub base: String,
}

/// `{id}.jpg`.
pub open spec fn jpg_name(id: i64) -> Seq<char> {
    dec_int(id as int) + ".jpg"@
}

fn jpg_file(id: i64) -> (r: Vec<char>)
    ensures
        r@ == jpg_name(id),
{
    let mut v = fmt_i64(id);
    push_str(&mut v, ".jpg");
    v
}

impl ThumbnailPaths {
    /// The folder configured in the settings, or the default one under `home`
    /// when none (or an empty one) is configured.
    pub fn initialize_thumbnails_base(path: Option<String>, home: Option<String>) -> (r: Self)
        ensures
            r.base@ == match path {
                Some(p) => if p@.len() > 0 {
                    p@
                } else {
                    default_base(match home { Some(h) => Some(h@), None => None })
                },
                None => default_base(match home { Some(h) => Some(h@), None => None }),
            },
    {
        if let Some(p) = &path {
            if !p.as_str().is_empty() {
                return ThumbnailPaths { base: p.clone() };
            }
        }
        let h: Vec<char> = match &home {
            Some(h) => chars_of(h.as_str()),
            None => chars_of("."),
        };
        let j = join_str(h.as_slice(), ".local/share/babelcomics/thumbnails");
        ThumbnailPaths { base: string_of(j.as_slice()) }
    }

    /// Changes the thumbnails folder.
    pub fn set_thumbnails_base(&mut self, path: String)
        ensures
            final(self).base@ == path@,
    {
        self.base = path;
    }

    /// The thumbnails folder.
    pub fn thumbnails_dir(&self) -> (r: String)
        ensures
            r@ == self.base@,
    {
        self.base.clone()
    }

    /// `comics/{size}/{bucket}/{id}.jpg`, at most a thousand files per folder.
    pub fn comic_thumbnail_path(&self, id: i64, size: CardSize) -> (r: String)
        ensures
            r@ == join_path(
                join_path(join_path(join_path(self.base@, "comics"@), size_dir_name(size)), dec_int(bucket_of(id))),
                jpg_name(id),
            ),
    {
        let b = chars_of(self.base.as_str());
        let p1 = join_str(b.as_slice(), "comics");
        let p2 = join_str(p1.as_slice(), size.dir_name());
        let bucket = fmt_i64(shard_bucket(id));
        let p3 = join(p2.as_slice(), bucket.as_slice());
        let f = jpg_file(id);
        let p4 = join(p3.as_slice(), f.as_slice());
        string_of(p4.as_slice())
    }

    /// `volumes/{id}.jpg`.
    pub fn volume_thumbnail_path(&self, id: i64) -> (r: String)
        ensures
            r@ == join_path(join_path(self.base@, "volumes"@), jpg_name(id)),
    {
        let b = chars_of(self.base.as_str());
        let p1 = join_str(b.as_slice(), "volumes");
        let f = jpg_file(id);
        let p2 = join(p1.as_slice(), f.as_slice());
        string_of(p2.as_slice())
    }

    /// `publishers/{id}.jpg`.
    pub fn publisher_thumbnail_path(&self, id: i64) -> (r: String)
        ensures
            r@ == join_path(join_path(self.base@, "publishers"@), jpg_name(id)),
    {
        let b = chars_of(self.base.as_str());
        let p1 = join_str(b.as_slice(), "publishers");
        let f = jpg_file(id);
        let p2 = join(p1.as_slice(), f.as_slice());
        string_of(p2.as_slice())
    }

    /// `comic_pages/{comicbook_id}/page_{index}.jpg`.
    pub fn comic_page_thumbnail_path(&self, comicbook_id: i64, indice_pagina: i64) -> (r: String)
        ensures
            r@ == join_path(
                join_path(join_path(self.base@, "comic_pages"@), dec_int(comicbook_id as int)),
                "page_"@ + jpg_name(indice_pagina),
            ),
    {
        let b = chars_of(self.base.as_str());
        let p1 = join_str(b.as_slice(), "comic_pages");
        let c = fmt_i64(comicbook_id);
        let p2 = join(p1.as_slice(), c.as_slice());
        let mut f = chars_of("page_");
        let n = jpg_file(indice_pagina);
        push_all(&mut f, n.as_slice());
        let p3 = join(p2.as_slice(), f.as_slice());
        string_of(p3.as_slice())
    }

    /// `comicbook_info/{volume}_{volume_id}/{filename}`, the volume name
    /// stripped of `. : / \ ? * " < > |`.
    pub fn comicbook_info_thumbnail_path(&self, volume_name: &str, volume_id: i64, filename: &str) -> (r: String)
        ensures
            r@ == join_path(
                join_path(
                    join_path(self.base@, "comicbook_info"@),
                    strip_unsafe(volume_name@) + seq!['_'] + dec_int(volume_id as int),
                ),
                filename@,
            ),
    {
        let v = chars_of(volume_name);
        let mut folder: Vec<char> = Vec::new();
        let mut i: usize = 0;
        while i < v.len()
            invariant
                i <= v@.len(),
                folder@ == strip_unsafe(v@.subrange(0, i as int)),
            decreases v@.len() - i,
        {
            assert(v@.subrange(0, i + 1).drop_last() =~= v@.subrange(0, i as int));
            let c = v[i];
            if !(c == '.' || c == ':' || c == '/' || c == '\\' || c == '?' || c == '*' || c == '"' || c
                == '<' || c == '>' || c == '|') {
                folder.push(c);
            }
            i = i + 1;
        }
        assert(v@.subrange(0, v@.len() as int) =~= v@);
        folder.push('_');
        let d = fmt_i64(volume_id);
        push_all(&mut folder, d.as_slice());
        let b = chars_of(self.base.as_str());
        let p1 = join_str(b.as_slice(), "comicbook_info");
        let p2 = join(p1.as_slice(), folder.as_slice());
        let p3 = join_str(p2.as_slice(), filename);
        string_of(p3.as_slice())
    }

    /// The folders that must exist for thumbnails: one per card size under
    /// `comics`, then `volumes`, `publishers`, `comicbook_info`, `comic_pages`.
    pub fn thumbnail_dirs(&self) -> (r: Vec<String>)
        ensures
            r@.len() == 7,
            r@[0]@ == join_path(join_path(self.base@, "comics"@), "small"@),
            r@[1]@ == join_path(join_path(self.base@, "comics"@), "medium"@),
            r@[2]@ == join_path(join_path(self.base@, "comics"@), "large"@),
            r@[3]@ == join_path(self.base@, "volumes"@),
            r@[4]@ == join_path(self.base@, "publishers"@),
            r@[5]@ == join_path(self.base@, "comicbook_info"@),
            r@[6]@ == join_path(self.base@, "comic_pages"@),
    {
        let b = chars_of(self.base.as_str());
        let c = join_str(b.as_slice(), "comics");
        let mut r: Vec<String> = Vec::new();
        let s = join_str(c.as_slice(), "small");
        r.push(string_of(s.as_slice()));
        let m = join_str(c.as_slice(), "medium");
        r.push(string_of(m.as_slice()));
        let l = join_str(c.as_slice(), "large");
        r.push(string_of(l.as_slice()));
        let v = join_str(b.as_slice(), "volumes");
        r.push(string_of(v.as_slice()));
        let p = join_str(b.as_slice(), "publishers");
        r.push(string_of(p.as_slice()));
        let ci = join_str(b.as_slice(), "comicbook_info");
        r.push(string_of(ci.as_slice()));
        let cp = join_str(b.as_slice(), "comic_pages");
        r.push(string_of(cp.as_slice()));
        r
    }
}

/// The subfolders moved when the thumbnails folder changes.
pub fn migrated_subdirs() -> (r: Vec<&'static str>)
    ensures
        r@.len() == 5,
        r@[0]@ == "comics"@,
        r@[1]@ == "volumes"@,
        r@[2]@ == "publishers"@,
        r@[3]@ == "comicbook_info"@,
        r@[4]@ == "comic_pages"@,
{
    let mut r = Vec::new();
    r.push("comics");
    r.push("volumes");
    r.push("publishers");
    r.push("comicbook_info");
    r.push("comic_pages");
    r
}

// ── covers of catalogued issues ───────────────────────────────────────────

/// The last `/`-separated piece of a URL (the whole URL when it has no `/`).
pub open spec fn url_file_name(url: Seq<char>) -> Seq<char> {
    url.subrange(last_index_of(url, '/') + 1, url.len() as int)
}

/// The file name a cover URL is stored under.
pub fn cover_file_name(url: &str) -> (r: String)
    ensures
        r@ == url_file_name(url@),
{
    let u = chars_of(url);
    let k = after_last(u.as_slice(), u.len(), '/');
    assert(u@.subrange(0, u@.len() as int) =~= u@);
    let s = crate::text::slice_chars(u.as_slice(), k, u.len());
    string_of(s.as_slice())
}

/// The text before the first `-` (the whole name when it has none).
pub open spec fn before_first_dash(s: Seq<char>) -> Seq<char>
    decreases s.len(),
{
    if s.len() == 0 || s[0] == '-' {
        Seq::empty()
    } else {
        seq![s[0]] + before_first_dash(s.drop_first())
    }
}

/// The prefix `{id}-` shared by the cover files of a ComicVine issue, when the
/// file name starts with a number before its first `-`.
pub open spec fn cover_id_prefix_of(name: Seq<char>) -> Option<Seq<char>> {
    let id = before_first_dash(name);
    if all_digits(id) {
        Some(id + seq!['-'])
    } else {
        None
    }
}

proof fn lemma_before_first_dash(s: Seq<char>, k: int)
    requires
        0 <= k <= s.len(),
        forall|j: int| 0 <= j < k ==> s[j] != '-',
        k == s.len() || s[k] == '-',
    ensures
        before_first_dash(s) == s.subrange(0, k),
    decreases k,
{
    if k > 0 {
        lemma_before_first_dash(s.drop_first(), k - 1);
        assert(s.subrange(0, k) =~= seq![s[0]] + s.drop_first().subrange(0, k - 1));
    } else {
        assert(s.subrange(0, 0) =~= Seq::<char>::empty());
    }
}

/// `{id}-` for a cover file named `{id}-…`.
pub fn cover_id_prefix(file_name: &str) -> (r: Option<String>)
    ensures
        match r {
            Some(p) => cover_id_prefix_of(file_name@) == Some(p@),
            None => cover_id_prefix_of(file_name@) is None,
        },
{
    let v = chars_of(file_name);
    let mut k: usize = 0;
    while k < v.len() && v[k] != '-'
        invariant
            k <= v@.len(),
            forall|j: int| 0 <= j < k ==> v@[j] != '-',
        decreases v@.len() - k,
    {
        k = k + 1;
    }
    proof {
        lemma_before_first_dash(v@, k as int);
    }
    let id = crate::text::slice_chars(v.as_slice(), 0, k);
    if all_ascii_digits(id.as_slice()) {
        let mut p = id;
        p.push('-');
        Some(string_of(p.as_slice()))
    } else {
        None
    }
}

/// A comic with a non-negative id lands in the folder `N * 1000` with
/// `N * 1000 <= id < (N + 1) * 1000`: no folder holds more than a thousand ids.
pub proof fn bucket_holds_its_thousand(id: i64)
    requires
        id >= 0,
    ensures
        bucket_of(id) % (SHARD_SIZE as int) == 0,
        bucket_of(id) <= id < bucket_of(id) + SHARD_SIZE,
{
    let q = id as int / 1000;
    assert(q * 1000 <= id < q * 1000 + 1000) by (nonlinear_arith)
        requires
            q == id as int / 1000,
            id >= 0,
    ;
    assert((q * 1000) % 1000 == 0) by (nonlinear_arith);
}

} // verus!
