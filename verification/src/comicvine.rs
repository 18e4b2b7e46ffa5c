//! The ComicVine API as this library uses it: resource ids, request URLs,
//! filters, paging, and the typed results of searches.
//!
//! Sending the requests is the caller's work; this module says what to ask
//! for and what to make of the answers.
use vstd::prelude::*;
use crate::text::{chars_of, string_of, push_all, push_str, fmt_u64, dec, starts_with, is_prefix, chars_eq_str};
use crate::search::joined;

verus! {

/// The API root used when none is configured.
pub open spec fn default_base_url() -> Seq<char> {
    "https://comicvine.gamespot.com/api/"@
}

/// Results per page of the API.
pub const API_RESULTS_LIMIT: usize = 100;

/// Minimum time between two requests, in milliseconds.
pub const REQUEST_INTERVAL_MS: u64 = 500;

/// Requests in flight at once when fetching pages in parallel.
pub const MAX_CONCURRENT: usize = 5;

/// A volume found by a search.
#[derive(Clone, Debug)]
pub struct CvVolumeResult {
    pub cv_id: i64,
    pub name: String,
    pub publisher_name: String,
    pub image_url: String,
    pub start_year: String,
    pub count_of_issues: i64,
}

/// A publisher found by a search.
#[derive(Clone, Debug)]
pub struct CvPublisherResult {
    pub cv_id: i64,
    pub name: String,
    pub image_url: String,
    pub deck: String,
    pub location_city: String,
    pub count_of_issues: i64,
}

/// The text of an optional string field, or `default`.
pub open spec fn or_default(v: Option<String>, default: Seq<char>) -> Seq<char> {
    match v {
        Some(s) => s@,
        None => default,
    }
}

fn text_or(v: Option<String>, default: &str) -> (r: String)
    ensures
        r@ == or_default(v, default@),
{
    match v {
        Some(s) => s,
        None => default.to_owned(),
    }
}

impl CvVolumeResult {
    /// A result from the fields of a search hit (each `None` when the field is
    /// missing or not of the expected JSON type); no result without an id.
    pub fn from_fields(
        id: Option<i64>,
        name: Option<String>,
        publisher_name: Option<String>,
        image_url: Option<String>,
        start_year: Option<String>,
        count_of_issues: Option<i64>,
    ) -> (r: Option<Self>)
        ensures
            id is None ==> r is None,
            id matches Some(i) ==> r matches Some(v) && {
                &&& v.cv_id == i
                &&& v.name@ == or_default(name, ""@)
                &&& v.publisher_name@ == or_default(publisher_name, ""@)
                &&& v.image_url@ == or_default(image_url, ""@)
                &&& v.start_year@ == or_default(start_year, "N/A"@)
                &&& v.count_of_issues == match count_of_issues { Some(c) => c, None => 0 }
            },
    {
        let cv_id = match id {
            Some(i) => i,
            None => return None,
        };
        Some(CvVolumeResult {
            cv_id,
            name: text_or(name, ""),
            publisher_name: text_or(publisher_name, ""),
            image_url: text_or(image_url, ""),
            start_year: text_or(start_year, "N/A"),
            count_of_issues: match count_of_issues {
                Some(c) => c,
                None => 0,
            },
        })
    }
}

impl CvPublisherResult {
    /// A result from the fields of a search hit; the issue count is
    /// `count_of_issues` when it is an unsigned number, else the number of
    /// volume credits when they are a list, else 0.
    pub fn from_fields(
        id: Option<i64>,
        name: Option<String>,
        image_url: Option<String>,
        deck: Option<String>,
        location_city: Option<String>,
        count_of_issues: Option<u64>,
        volume_credits: Option<usize>,
    ) -> (r: Option<Self>)
        ensures
            id is None ==> r is None,
            id matches Some(i) ==> r matches Some(v) && {
                &&& v.cv_id == i
                &&& v.name@ == or_default(name, ""@)
                &&& v.image_url@ == or_default(image_url, ""@)
                &&& v.deck@ == or_default(deck, ""@)
                &&& v.location_city@ == or_default(location_city, ""@)
                &&& v.count_of_issues == match count_of_issues {
                    Some(c) => c as i64,
                    None => match volume_credits {
                        Some(n) => n as u64 as i64,
                        None => 0,
                    },
                }
            },
    {
        let count: u64 = match count_of_issues {
            Some(c) => c,
            None => match volume_credits {
                Some(n) => n as u64,
                None => 0,
            },
        };
        let cv_id = match id {
            Some(i) => i,
            None => return None,
        };
        Some(CvPublisherResult {
            cv_id,
            name: text_or(name, ""),
            image_url: text_or(image_url, ""),
            deck: text_or(deck, ""),
            location_city: text_or(location_city, ""),
            count_of_issues: count as i64,
        })
    }
}

// ── resource ids ──────────────────────────────────────────────────────────

/// The prefix of a resource type's ids.
pub open spec fn prefix_of(resource_type: Seq<char>) -> Option<Seq<char>> {
    if resource_type == "volume"@ {
        Some("4050-"@)
    } else if resource_type == "publisher"@ {
        Some("4010-"@)
    } else if resource_type == "character"@ {
        Some("4005-"@)
    } else if resource_type == "issue"@ {
        Some("4000-"@)
    } else {
        None
    }
}

/// The prefix of a resource type's ids (`4050-` for volumes, …).
pub fn resource_prefix(resource_type: &str) -> (r: Option<&'static str>)
    ensures
        match r {
            Some(p) => prefix_of(resource_type@) == Some(p@),
            None => prefix_of(resource_type@) is None,
        },
{
    let t = chars_of(resource_type);
    if chars_eq_str(t.as_slice(), "volume") {
        Some("4050-")
    } else if chars_eq_str(t.as_slice(), "publisher") {
        Some("4010-")
    } else if chars_eq_str(t.as_slice(), "character") {
        Some("4005-")
    } else if chars_eq_str(t.as_slice(), "issue") {
        Some("4000-")
    } else {
        None
    }
}

/// An id with its type's prefix (added unless already there).
pub open spec fn resource_id(id: Seq<char>, resource_type: Seq<char>) -> Seq<char> {
    match prefix_of(resource_type) {
        Some(p) => if is_prefix(p, id) {
            id
        } else {
            p + id
        },
        None => id,
    }
}

/// The id of a resource as the detail endpoints want it.
pub fn format_resource_id(id: &str, resource_type: &str) -> (r: String)
    ensures
        r@ == resource_id(id@, resource_type@),
{
    match resource_prefix(resource_type) {
        Some(prefix) => {
            let v = chars_of(id);
            let p = chars_of(prefix);
            if !starts_with(v.as_slice(), p.as_slice()) {
                let mut out = p;
                push_all(&mut out, v.as_slice());
                return string_of(out.as_slice());
            }
            id.to_owned()
        },
        None => id.to_owned(),
    }
}

// ── query text ────────────────────────────────────────────────────────────

/// How a character of a search term is written in a URL: space `%20`,
/// `%` `%25`, `#` `%23`, `&` `%26`, `+` `%2B`, `?` `%3F`; others as they are.
pub open spec fn encode_char(c: char) -> Seq<char> {
    if c == ' ' {
        "%20"@
    } else if c == '%' {
        "%25"@
    } else if c == '#' {
        "%23"@
    } else if c == '&' {
        "%26"@
    } else if c == '+' {
        "%2B"@
    } else if c == '?' {
        "%3F"@
    } else {
        seq![c]
    }
}

/// `encode_char` over a whole term.
pub open spec fn encoded_query(s: Seq<char>) -> Seq<char>
    decreases s.len(),
{
    if s.len() == 0 {
        s
    } else {
        encoded_query(s.drop_last()) + encode_char(s.last())
    }
}

/// Encodes the characters of a search term that are unsafe in a URL, leaving
/// the filter separators (`:`, `|`, `,`) as they are.
pub fn sanitize_query(s: &str) -> (r: String)
    ensures
        r@ == encoded_query(s@),
{
    let v = chars_of(s);
    let mut out: Vec<char> = Vec::new();
    let mut i: usize = 0;
    while i < v.len()
        invariant
            i <= v@.len(),
            out@ == encoded_query(v@.subrange(0, i as int)),
        decreases v@.len() - i,
    {
        assert(v@.subrange(0, i + 1).drop_last() =~= v@.subrange(0, i as int));
        let c = v[i];
        if c == ' ' {
            push_str(&mut out, "%20");
        } else if c == '%' {
            push_str(&mut out, "%25");
        } else if c == '#' {
            push_str(&mut out, "%23");
        } else if c == '&' {
            push_str(&mut out, "%26");
        } else if c == '+' {
            push_str(&mut out, "%2B");
        } else if c == '?' {
            push_str(&mut out, "%3F");
        } else {
            out.push(c);
        }
        i = i + 1;
    }
    assert(v@.subrange(0, v@.len() as int) =~= v@);
    string_of(out.as_slice())
}

/// The values that are present, in order.
pub open spec fn present(parts: Seq<Option<String>>) -> Seq<Seq<char>>
    decreases parts.len(),
{
    if parts.len() == 0 {
        Seq::empty()
    } else {
        match parts.last() {
            Some(s) => present(parts.drop_last()).push(s@),
            None => present(parts.drop_last()),
        }
    }
}

/// The filter string: the present parts joined with `,`.
pub fn build_filter(parts: &Vec<Option<String>>) -> (r: String)
    ensures
        r@ == joined(present(parts@), seq![',']),
{
    let mut out: Vec<char> = Vec::new();
    let mut count: usize = 0;
    let mut i: usize = 0;
    while i < parts.len()
        invariant
            i <= parts@.len(),
            out@ == joined(present(parts@.subrange(0, i as int)), seq![',']),
            count == present(parts@.subrange(0, i as int)).len(),
            count <= i,
        decreases parts@.len() - i,
    {
        let ghost pre = parts@.subrange(0, i + 1);
        assert(pre.drop_last() =~= parts@.subrange(0, i as int));
        match &parts[i] {
            Some(s) => {
                if count > 0 {
                    out.push(',');
                }
                push_str(&mut out, s.as_str());
                proof {
                    let prev = present(parts@.subrange(0, i as int));
                    assert(present(pre) == prev.push(s@));
                    assert(prev.push(s@).drop_last() =~= prev);
                    if count == 0 {
                        assert(out@ =~= s@);
                    } else {
                        assert(out@ =~= joined(prev, seq![',']) + seq![','] + s@);
                    }
                }
                count = count + 1;
            },
            None => {},
        }
        i = i + 1;
    }
    assert(parts@.subrange(0, parts@.len() as int) =~= parts@);
    string_of(out.as_slice())
}

/// Query parameters, as (key, value) pairs.
pub open spec fn pair_views(v: Seq<(String, String)>) -> Seq<(Seq<char>, Seq<char>)> {
    Seq::new(v.len(), |i: int| (v[i].0@, v[i].1@))
}

fn number_text(n: usize) -> (r: String)
    ensures
        r@ == dec(n as nat),
{
    let v = fmt_u64(n as u64);
    string_of(v.as_slice())
}

/// `limit`, `offset`, and `filter` when the filter is not empty.
pub fn page_params(limit: usize, offset: usize, filter: &str) -> (r: Vec<(String, String)>)
    ensures
        pair_views(r@) == if filter@.len() == 0 {
            seq![("limit"@, dec(limit as nat)), ("offset"@, dec(offset as nat))]
        } else {
            seq![("limit"@, dec(limit as nat)), ("offset"@, dec(offset as nat)), ("filter"@, filter@)]
        },
{
    let mut p: Vec<(String, String)> = Vec::new();
    p.push(("limit".to_owned(), number_text(limit)));
    p.push(("offset".to_owned(), number_text(offset)));
    if !filter.is_empty() {
        p.push(("filter".to_owned(), filter.to_owned()));
    }
    assert(pair_views(p@) =~= if filter@.len() == 0 {
        seq![("limit"@, dec(limit as nat)), ("offset"@, dec(offset as nat))]
    } else {
        seq![("limit"@, dec(limit as nat)), ("offset"@, dec(offset as nat)), ("filter"@, filter@)]
    });
    p
}

// ── the client configuration ──────────────────────────────────────────────

/// Why a client could not be made.
#[derive(Clone, Debug, PartialEq, Eq, Structural)]
pub enum ComicVineError {
    EmptyApiKey,
}

impl ComicVineError {
    /// The message shown to the user.
    pub fn message(&self) -> (r: String)
        ensures
            r@ == "La API Key no puede estar vacía."@,
    {
        "La API Key no puede estar vacía.".to_owned()
    }
}

/// The key and root URL the requests are made with.
#[derive(Clone, Debug)]
pub struct ComicVineClient {
    pub api_key: String,
    pub base_url: String,
}

/// `s` with a trailing `/` (added unless already there).
pub open spec fn with_slash(s: Seq<char>) -> Seq<char> {
    if s.len() > 0 && s.last() == '/' {
        s
    } else {
        s.push('/')
    }
}

/// Replaces every space by `%20`.
pub open spec fn encode_spaces(s: Seq<char>) -> Seq<char>
    decreases s.len(),
{
    if s.len() == 0 {
        s
    } else if s.last() == ' ' {
        encode_spaces(s.drop_last()) + "%20"@
    } else {
        encode_spaces(s.drop_last()).push(s.last())
    }
}

/// `&key=value` for every parameter, spaces of values written `%20`.
pub open spec fn query_string(params: Seq<(Seq<char>, Seq<char>)>) -> Seq<char>
    decreases params.len(),
{
    if params.len() == 0 {
        Seq::empty()
    } else {
        query_string(params.drop_last()) + seq!['&'] + params.last().0 + seq!['='] + encode_spaces(params.last().1)
    }
}

/// The URL of a request: root, endpoint (with a trailing `/` unless empty),
/// the key, the parameters and `format=json`.
pub open spec fn request_url(base: Seq<char>, key: Seq<char>, endpoint: Seq<char>, params: Seq<(Seq<char>, Seq<char>)>) -> Seq<char> {
    let ep = if endpoint.len() == 0 || endpoint.last() == '/' { endpoint } else { endpoint.push('/') };
    base + ep + "?api_key="@ + key + query_string(params) + "&format=json"@
}

impl ComicVineClient {
    /// A client for `api_key`, on `base_url` (the public API when `None`),
    /// the root always ending in `/`. An empty key is refused.
    pub fn new(api_key: String, base_url: Option<String>) -> (r: Result<Self, ComicVineError>)
        ensures
            api_key@.len() == 0 <==> r is Err,
            r matches Ok(c) ==> c.api_key@ == api_key@ && c.base_url@ == with_slash(
                match base_url { Some(b) => b@, None => default_base_url() },
            ),
    {
        if api_key.as_str().is_empty() {
            return Err(ComicVineError::EmptyApiKey);
        }
        let mut base: Vec<char> = match &base_url {
            Some(b) => chars_of(b.as_str()),
            None => chars_of("https://comicvine.gamespot.com/api/"),
        };
        if !(base.len() > 0 && base[base.len() - 1] == '/') {
            base.push('/');
        }
        Ok(ComicVineClient { api_key, base_url: string_of(base.as_slice()) })
    }

    /// The URL of a request to `endpoint` with `params`. `:` and `+` in the
    /// values are left as they are: the filters need them.
    pub fn build_url(&self, endpoint: &str, params: &Vec<(String, String)>) -> (r: String)
        ensures
            r@ == request_url(self.base_url@, self.api_key@, endpoint@, pair_views(params@)),
    {
        let mut url = chars_of(self.base_url.as_str());
        let ep = chars_of(endpoint);
        push_all(&mut url, ep.as_slice());
        if !(ep.len() == 0 || ep[ep.len() - 1] == '/') {
            url.push('/');
        }
        push_str(&mut url, "?api_key=");
        push_str(&mut url, self.api_key.as_str());
        let ghost head = url@;
        let mut i: usize = 0;
        while i < params.len()
            invariant
                i <= params@.len(),
                url@ == head + query_string(pair_views(params@).subrange(0, i as int)),
            decreases params@.len() - i,
        {
            let ghost pre = pair_views(params@).subrange(0, i + 1);
            assert(pre.drop_last() =~= pair_views(params@).subrange(0, i as int));
            url.push('&');
            push_str(&mut url, params[i].0.as_str());
            url.push('=');
            let v = chars_of(params[i].1.as_str());
            let ghost before = url@;
            let mut j: usize = 0;
            while j < v.len()
                invariant
                    j <= v@.len(),
                    url@ == before + encode_spaces(v@.subrange(0, j as int)),
                decreases v@.len() - j,
            {
                assert(v@.subrange(0, j + 1).drop_last() =~= v@.subrange(0, j as int));
                if v[j] == ' ' {
                    push_str(&mut url, "%20");
                } else {
                    url.push(v[j]);
                }
                j = j + 1;
            }
            assert(v@.subrange(0, v@.len() as int) =~= v@);
            assert(url@ =~= head + query_string(pre));
            i = i + 1;
        }
        assert(pair_views(params@).subrange(0, params@.len() as int) =~= pair_views(params@));
        push_str(&mut url, "&format=json");
        string_of(url.as_slice())
    }
}

// ── answers and paging ────────────────────────────────────────────────────

/// An answer is usable unless its `error` field is a string other than `OK`.
pub fn api_error_is_ok(error: Option<&str>) -> (r: bool)
    ensures
        r == match error {
            Some(e) => e@ == "OK"@,
            None => true,
        },
{
    match error {
        Some(e) => {
            let v = chars_of(e);
            chars_eq_str(v.as_slice(), "OK")
        },
        None => true,
    }
}

/// Offsets of the pages still to fetch once the first page returned
/// `first_len` results out of `total`.
pub open spec fn remaining_offsets(total: nat, first_len: nat) -> Seq<nat> {
    if total <= first_len {
        Seq::empty()
    } else {
        let pages = (total + 99) / 100;
        Seq::new((pages - 1) as nat, |p: int| ((p + 1) * 100) as nat)
    }
}

/// The offsets of the pages after the first, when more results remain.
pub fn remaining_page_offsets(total: usize, first_len: usize) -> (r: Vec<usize>)
    requires
        total <= usize::MAX - 100,
    ensures
        r@.len() == remaining_offsets(total as nat, first_len as nat).len(),
        forall|k: int| 0 <= k < r@.len() ==> r@[k] == remaining_offsets(total as nat, first_len as nat)[k],
{
    let mut r: Vec<usize> = Vec::new();
    if total <= first_len {
        return r;
    }
    let num_pages = (total + API_RESULTS_LIMIT - 1) / API_RESULTS_LIMIT;
    let mut page: usize = 1;
    while page < num_pages
        invariant
            1 <= page <= num_pages || num_pages == 0,
            num_pages == (total + 99) / 100,
            total <= usize::MAX - 100,
            page >= 1,
            r@.len() == page - 1,
            forall|k: int| 0 <= k < r@.len() ==> r@[k] == (k + 1) * 100,
        decreases num_pages - page,
    {
        assert(page * 100 < total + 100) by (nonlinear_arith)
            requires
                page < num_pages,
                num_pages == (total + 99) / 100,
        ;
        let offset = page * API_RESULTS_LIMIT;
        r.push(offset);
        page = page + 1;
    }
    r
}

/// Whether another page of a volume's issues must be fetched, and at which
/// offset: not when the last page was empty or every result is in.
pub fn next_issues_offset(collected: usize, batch_len: usize, total: usize, offset: usize) -> (r: Option<usize>)
    requires
        offset <= usize::MAX - 100,
    ensures
        r == if batch_len == 0 || collected >= total { None::<usize> } else { Some((offset + 100) as usize) },
{
    if batch_len == 0 || collected >= total {
        None
    } else {
        Some(offset + API_RESULTS_LIMIT)
    }
}

/// `id:a|b|c` for a group of issue ids.
pub open spec fn id_filter(ids: Seq<u64>) -> Seq<char> {
    "id:"@ + joined(Seq::new(ids.len(), |i: int| dec(ids[i] as nat)), seq!['|'])
}

/// The end of the `k`-th group of a hundred among `n` ids.
pub open spec fn group_end(k: int, n: int) -> int {
    if (k + 1) * 100 < n {
        (k + 1) * 100
    } else {
        n
    }
}

/// The filters that fetch `ids` a hundred at a time.
pub fn id_filters(ids: &Vec<u64>) -> (r: Vec<String>)
    requires
        ids@.len() <= usize::MAX - 100,
    ensures
        r@.len() == (ids@.len() + 99) / 100,
        forall|k: int| 0 <= k < r@.len() ==> #[trigger] r@[k]@ == id_filter(ids@.subrange(k * 100, group_end(k, ids@.len() as int))),
{
    let n = ids.len();
    let groups = (n + 99) / 100;
    let mut r: Vec<String> = Vec::new();
    let mut c: usize = 0;
    while c < groups
        invariant
            c <= groups,
            groups == (n + 99) / 100,
            n == ids@.len(),
            n <= usize::MAX - 100,
            r@.len() == c,
            forall|k: int| 0 <= k < c ==> #[trigger] r@[k]@ == id_filter(ids@.subrange(k * 100, group_end(k, n as int))),
        decreases groups - c,
    {
        assert(c * 100 < n) by (nonlinear_arith)
            requires
                c < groups,
                groups == (n + 99) / 100,
        ;
        let start = c * 100;
        let end = if n - start > 100 { start + 100 } else { n };
        assert(end == group_end(c as int, n as int));
        let mut f = chars_of("id:");
        let ghost head = f@;
        let ghost chunk = ids@.subrange(start as int, end as int);
        let mut j = start;
        assert(Seq::new(0, |i: int| dec(chunk[i] as nat)) =~= Seq::<Seq<char>>::empty());
        while j < end
            invariant
                start <= j <= end <= n,
                n == ids@.len(),
                chunk == ids@.subrange(start as int, end as int),
                f@ == head + joined(Seq::new((j - start) as nat, |i: int| dec(chunk[i] as nat)), seq!['|']),
            decreases end - j,
        {
            let ghost ds = Seq::new((j + 1 - start) as nat, |i: int| dec(chunk[i] as nat));
            assert(ds.drop_last() =~= Seq::new((j - start) as nat, |i: int| dec(chunk[i] as nat)));
            assert(ds.last() == dec(ids@[j as int] as nat));
            if j > start {
                f.push('|');
            }
            let d = fmt_u64(ids[j]);
            push_all(&mut f, d.as_slice());
            proof {
                if j == start {
                    assert(ds.drop_last() =~= Seq::<Seq<char>>::empty());
                }
            }
            assert(f@ =~= head + joined(ds, seq!['|']));
            j = j + 1;
        }
        proof {
            reveal_strlit("id:");
        }
        assert(Seq::new((end - start) as nat, |i: int| dec(chunk[i] as nat)) =~= Seq::new(
            chunk.len(),
            |i: int| dec(chunk[i] as nat),
        ));
        r.push(string_of(f.as_slice()));
        c = c + 1;
    }
    r
}

/// How long to wait before the next request, `elapsed_ms` after the last one.
pub fn rate_limit_wait(elapsed_ms: u64) -> (r: u64)
    ensures
        r == if elapsed_ms < REQUEST_INTERVAL_MS { (REQUEST_INTERVAL_MS - elapsed_ms) as u64 } else { 0u64 },
{
    if elapsed_ms < REQUEST_INTERVAL_MS {
        REQUEST_INTERVAL_MS - elapsed_ms
    } else {
        0
    }
}

// ── laws ──────────────────────────────────────────────────────────────────

/// Formatting an id twice is formatting it once: a prefixed id is left alone.
pub proof fn resource_id_idempotent(id: Seq<char>, resource_type: Seq<char>)
    ensures
        resource_id(resource_id(id, resource_type), resource_type) == resource_id(id, resource_type),
{
    if let Some(p) = prefix_of(resource_type) {
        if !is_prefix(p, id) {
            assert((p + id).subrange(0, p.len() as int) =~= p);
        }
    }
}

/// A detail id carries the prefix of its resource type: `4050-` for volumes,
/// `4010-` for publishers, `4005-` for characters and `4000-` for issues. An
/// id that lacks it gets it in front (issue `123` is `4000-123`), one that has
/// it is kept; the ids of other resource types are kept as they are.
pub proof fn resource_ids_carry_their_prefix(id: Seq<char>, t: Seq<char>)
    ensures
        t == "volume"@ ==> resource_id(id, t) == (if is_prefix("4050-"@, id) { id } else { "4050-"@ + id }),
        t == "volume"@ ==> is_prefix("4050-"@, resource_id(id, t)),
        t == "publisher"@ ==> resource_id(id, t) == (if is_prefix("4010-"@, id) { id } else { "4010-"@ + id }),
        t == "publisher"@ ==> is_prefix("4010-"@, resource_id(id, t)),
        t == "character"@ ==> resource_id(id, t) == (if is_prefix("4005-"@, id) { id } else { "4005-"@ + id }),
        t == "character"@ ==> is_prefix("4005-"@, resource_id(id, t)),
        t == "issue"@ ==> resource_id(id, t) == (if is_prefix("4000-"@, id) { id } else { "4000-"@ + id }),
        t == "issue"@ ==> is_prefix("4000-"@, resource_id(id, t)),
        t != "volume"@ && t != "publisher"@ && t != "character"@ && t != "issue"@ ==> resource_id(id, t) == id,
{
    reveal_strlit("volume");
    reveal_strlit("publisher");
    reveal_strlit("character");
    reveal_strlit("issue");
    reveal_strlit("4050-");
    reveal_strlit("4010-");
    reveal_strlit("4005-");
    reveal_strlit("4000-");
    assert("publisher"@.len() != "volume"@.len());
    assert("character"@.len() != "volume"@.len());
    assert("character"@[0] != "publisher"@[0]);
    assert("issue"@.len() != "volume"@.len());
    assert("issue"@.len() != "publisher"@.len());
    assert("issue"@.len() != "character"@.len());
    if let Some(p) = prefix_of(t) {
        if !is_prefix(p, id) {
            assert((p + id).subrange(0, p.len() as int) =~= p);
        }
    }
}

/// The remaining pages start inside the results, a page apart, after the first page.
pub proof fn remaining_offsets_within_results(total: nat, first_len: nat)
    ensures
        forall|k: int| 0 <= k < remaining_offsets(total, first_len).len() ==> {
            &&& 100 <= #[trigger] remaining_offsets(total, first_len)[k] < total
            &&& remaining_offsets(total, first_len)[k] == (k + 1) * 100
        },
{
    if total > first_len {
        let pages = (total + 99) / 100;
        let offs = remaining_offsets(total, first_len);
        assert forall|k: int| 0 <= k < offs.len() implies 100 <= #[trigger] offs[k] < total by {
            assert((k + 1) * 100 < total) by (nonlinear_arith)
                requires
                    0 <= k < pages - 1,
                    pages == (total + 99) / 100,
            ;
        }
    }
}


// ── decoding a query back ─────────────────────────────────────────────────

/// The value of a hexadecimal digit, -1 for another character.
pub open spec fn hex_val(c: char) -> int {
    if '0' <= c && c <= '9' {
        c as int - '0' as int
    } else if 'A' <= c && c <= 'F' {
        c as int - 'A' as int + 10
    } else if 'a' <= c && c <= 'f' {
        c as int - 'a' as int + 10
    } else {
        -1
    }
}

/// Percent-decoding: each `%` followed by two hexadecimal digits stands for
/// the character with that code; every other character stands for itself.
pub open spec fn percent_decode(s: Seq<char>) -> Seq<char>
    decreases s.len(),
{
    if s.len() == 0 {
        s
    } else if s[0] == '%' && s.len() >= 3 && hex_val(s[1]) >= 0 && hex_val(s[2]) >= 0 {
        seq![(hex_val(s[1]) * 16 + hex_val(s[2])) as char] + percent_decode(s.subrange(3, s.len() as int))
    } else {
        seq![s[0]] + percent_decode(s.drop_first())
    }
}

/// `encoded_query` from the front.
spec fn encoded_front(s: Seq<char>) -> Seq<char>
    decreases s.len(),
{
    if s.len() == 0 {
        s
    } else {
        encode_char(s[0]) + encoded_front(s.drop_first())
    }
}

proof fn lemma_encoded_front_push(s: Seq<char>, c: char)
    ensures
        encoded_front(s.push(c)) == encoded_front(s) + encode_char(c),
    decreases s.len(),
{
    if s.len() == 0 {
        assert(s.push(c).drop_first() =~= Seq::<char>::empty());
        assert(s.push(c)[0] == c);
        assert(encoded_front(Seq::<char>::empty()) =~= Seq::<char>::empty());
        assert(encoded_front(s.push(c)) == encode_char(c) + Seq::<char>::empty());
        assert(encoded_front(s) =~= Seq::<char>::empty());
        assert(encode_char(c) + Seq::<char>::empty() =~= encode_char(c));
    } else {
        assert(s.push(c).drop_first() =~= s.drop_first().push(c));
        lemma_encoded_front_push(s.drop_first(), c);
        assert(encoded_front(s.push(c)) =~= encoded_front(s) + encode_char(c));
    }
}

proof fn lemma_encoded_same(s: Seq<char>)
    ensures
        encoded_query(s) == encoded_front(s),
    decreases s.len(),
{
    if s.len() > 0 {
        lemma_encoded_same(s.drop_last());
        lemma_encoded_front_push(s.drop_last(), s.last());
        assert(s.drop_last().push(s.last()) =~= s);
    }
}

proof fn lemma_decode_chunk(c: char, rest: Seq<char>)
    ensures
        percent_decode(encode_char(c) + rest) == seq![c] + percent_decode(rest),
{
    let e = encode_char(c);
    let x = e + rest;
    reveal_strlit("%20");
    reveal_strlit("%25");
    reveal_strlit("%23");
    reveal_strlit("%26");
    reveal_strlit("%2B");
    reveal_strlit("%3F");
    if e.len() == 3 {
        assert(x[0] == '%');
        assert(x.subrange(3, x.len() as int) =~= rest);
        assert(x[1] == e[1] && x[2] == e[2]);
        assert((hex_val(e[1]) * 16 + hex_val(e[2])) as char == c) by {
            if c == ' ' {
                assert((2int * 16 + 0) as char == ' ');
            } else if c == '%' {
                assert((2int * 16 + 5) as char == '%');
            } else if c == '#' {
                assert((2int * 16 + 3) as char == '#');
            } else if c == '&' {
                assert((2int * 16 + 6) as char == '&');
            } else if c == '+' {
                assert((2int * 16 + 11) as char == '+');
            } else {
                assert((3int * 16 + 15) as char == '?');
            }
        }
    } else {
        assert(e == seq![c]);
        assert(c != '%');
        assert(x[0] == c);
        assert(x.drop_first() =~= rest);
    }
}

proof fn lemma_decode_front(s: Seq<char>)
    ensures
        percent_decode(encoded_front(s)) == s,
    decreases s.len(),
{
    if s.len() > 0 {
        lemma_decode_front(s.drop_first());
        lemma_decode_chunk(s[0], encoded_front(s.drop_first()));
        assert(seq![s[0]] + s.drop_first() =~= s);
    }
}

/// Percent-decoding an encoded search term gives the term back.
pub proof fn decoding_gives_the_query_back(s: Seq<char>)
    ensures
        percent_decode(encoded_query(s)) == s,
{
    lemma_encoded_same(s);
    lemma_decode_front(s);
}

/// A character that a search term cannot hold as it is in a URL.
pub open spec fn needs_escape(c: char) -> bool {
    c == ' ' || c == '%' || c == '#' || c == '&' || c == '+' || c == '?'
}

/// A character that never appears in an encoded term.
pub open spec fn unsafe_in_query(c: char) -> bool {
    c == ' ' || c == '#' || c == '&' || c == '+' || c == '?'
}

proof fn lemma_encode_char_safe(c: char)
    ensures
        forall|k: int| 0 <= k < encode_char(c).len() ==> !unsafe_in_query(#[trigger] encode_char(c)[k]),
        !needs_escape(c) ==> encode_char(c) == seq![c],
{
    reveal_strlit("%20");
    reveal_strlit("%25");
    reveal_strlit("%23");
    reveal_strlit("%26");
    reveal_strlit("%2B");
    reveal_strlit("%3F");
}

/// An encoded search term holds no space, `#`, `&`, `+` or `?`, and a term
/// with no character to escape (its `:`, `|` and `,` included) comes out as
/// it is.
pub proof fn encoded_query_is_url_safe(s: Seq<char>)
    ensures
        forall|k: int| 0 <= k < encoded_query(s).len() ==> !unsafe_in_query(#[trigger] encoded_query(s)[k]),
        (forall|k: int| 0 <= k < s.len() ==> !needs_escape(#[trigger] s[k])) ==> encoded_query(s) == s,
    decreases s.len(),
{
    if s.len() > 0 {
        let p = s.drop_last();
        encoded_query_is_url_safe(p);
        lemma_encode_char_safe(s.last());
        let e = encoded_query(s);
        let a = encoded_query(p);
        let b = encode_char(s.last());
        assert forall|k: int| 0 <= k < e.len() implies !unsafe_in_query(#[trigger] e[k]) by {
            if k < a.len() {
                assert(e[k] == a[k]);
            } else {
                assert(e[k] == b[k - a.len()]);
            }
        }
        if forall|k: int| 0 <= k < s.len() ==> !needs_escape(#[trigger] s[k]) {
            assert forall|k: int| 0 <= k < p.len() implies !needs_escape(#[trigger] p[k]) by {
                assert(p[k] == s[k]);
            }
            assert(!needs_escape(s[s.len() - 1]));
            assert(p.push(s.last()) =~= s);
        }
    }
}

} // verus!
