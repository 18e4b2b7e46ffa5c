//! Downloading a volume from ComicVine: the queue of downloads and their
//! background jobs, and the decisions taken for each issue (titles, covers,
//! progress and messages). The requests, the database and the files are the
//! caller's.
use vstd::prelude::*;
use crate::text::{
    chars_of, string_of, push_all, push_str, fmt_u64, fmt_i64, dec, dec_int, is_prefix, parse_signed,
    parse_i64,
};
use crate::pathutil::last_index_of;
use crate::background_jobs::{
    JobRegistry, JobKind, BackgroundJob, BackgroundJobStatus, job_id, index_of_id, clamp_progress, next_counter, inserted,
    registry_wf,
};
use crate::models::{ComicbookInfoCover, NewPublisher, NewVolume, NewComicbookInfo, ClipGenerationProgress};

verus! {

// ── the queue ─────────────────────────────────────────────────────────────

/// Where a download stands.
#[derive(Clone, Debug)]
pub enum DownloadStatus {
    Queued,
    Downloading,
    Completed,
    Error(String),
}

/// A volume being downloaded. Progress is in millionths.
#[derive(Clone, Debug)]
pub struct DownloadInfo {
    pub volume_cv_id: String,
    pub title: String,
    pub total_issues: i64,
    pub progress: u32,
    pub message: String,
    pub status: DownloadStatus,
    pub download_covers: bool,
    pub background_job_id: String,
}

/// The downloads that were queued, by ComicVine volume id.
pub struct DownloadState {
    pub active: Vec<DownloadInfo>,
}

/// Index of the download of volume `key`, or -1.
pub open spec fn index_of_download(s: Seq<DownloadInfo>, key: Seq<char>) -> int
    decreases s.len(),
{
    if s.len() == 0 {
        -1
    } else if index_of_download(s.drop_last(), key) >= 0 {
        index_of_download(s.drop_last(), key)
    } else if s.last().volume_cv_id@ == key {
        s.len() - 1
    } else {
        -1
    }
}

proof fn lemma_index_of_download(s: Seq<DownloadInfo>, key: Seq<char>)
    ensures
        -1 <= index_of_download(s, key) < s.len(),
        index_of_download(s, key) >= 0 ==> s[index_of_download(s, key)].volume_cv_id@ == key,
        index_of_download(s, key) >= 0 ==> forall|j: int| 0 <= j < index_of_download(s, key) ==> s[j].volume_cv_id@ != key,
        index_of_download(s, key) == -1 ==> forall|j: int| 0 <= j < s.len() ==> s[j].volume_cv_id@ != key,
    decreases s.len(),
{
    if s.len() > 0 {
        lemma_index_of_download(s.drop_last(), key);
        assert forall|j: int| 0 <= j < s.len() - 1 implies s[j] == s.drop_last()[j] by {}
    }
}

fn find_download(active: &Vec<DownloadInfo>, key: &str) -> (r: Option<usize>)
    ensures
        r matches Some(i) ==> i < active@.len(),
        match r {
            Some(i) => index_of_download(active@, key@) == i as int,
            None => index_of_download(active@, key@) == -1,
        },
{
    let k = key.to_owned();
    proof {
        lemma_index_of_download(active@, key@);
    }
    let mut i: usize = 0;
    while i < active.len()
        invariant
            k@ == key@,
            i <= active@.len(),
            forall|j: int| 0 <= j < i ==> active@[j].volume_cv_id@ != key@,
            -1 <= index_of_download(active@, key@) < active@.len(),
            index_of_download(active@, key@) >= 0 ==> active@[index_of_download(active@, key@)].volume_cv_id@ == key@,
            index_of_download(active@, key@) >= 0 ==> forall|j: int|
                0 <= j < index_of_download(active@, key@) ==> active@[j].volume_cv_id@ != key@,
            index_of_download(active@, key@) == -1 ==> forall|j: int| 0 <= j < active@.len() ==> active@[j].volume_cv_id@ != key@,
        decreases active@.len() - i,
    {
        if active[i].volume_cv_id == k {
            return Some(i);
        }
        i = i + 1;
    }
    None
}

/// The message of a queued download.
pub open spec fn queued_message() -> Seq<char> {
    "En cola..."@
}

impl DownloadState {
    /// No download yet.
    pub fn new() -> (r: Self)
        ensures
            r.active@.len() == 0,
    {
        DownloadState { active: Vec::new() }
    }

    /// Whether volume `cv_id` was queued.
    pub fn contains(&self, cv_id: &str) -> (r: bool)
        ensures
            r == (index_of_download(self.active@, cv_id@) >= 0),
    {
        find_download(&self.active, cv_id).is_some()
    }

    /// Queues the download of a volume: a running job is registered for it
    /// and its id returned. Volume 0 and a volume already queued are ignored.
    pub fn add_download(
        &mut self,
        jobs: &mut JobRegistry,
        cv_id: i64,
        name: &str,
        count_of_issues: i64,
        download_covers: bool,
        now: u64,
    ) -> (r: Option<String>)
        ensures
            cv_id == 0 ==> r is None,
            cv_id != 0 && index_of_download(old(self).active@, dec_int(cv_id as int)) >= 0 ==> r is None,
            r is None ==> final(self).active@ == old(self).active@ && *final(jobs) == *old(jobs),
            registry_wf(old(jobs).next_id, old(jobs).jobs@) && old(jobs).next_id < u64::MAX ==> registry_wf(
                final(jobs).next_id,
                final(jobs).jobs@,
            ),
            cv_id != 0 && index_of_download(old(self).active@, dec_int(cv_id as int)) < 0 ==> {
                &&& r matches Some(k) && k@ == dec_int(cv_id as int)
                &&& final(jobs).next_id == next_counter(old(jobs).next_id)
                &&& exists|t: String, m: String|
                    #![trigger inserted(old(jobs).jobs@, final(self).active@.last().background_job_id, BackgroundJob { title: t, message: m, progress: 0, status: BackgroundJobStatus::Running, kind: JobKind::Download, created_at: now, finished_at: None })]
                    t@ == name@ && m@ == queued_message() && final(jobs).jobs@ == inserted(
                        old(jobs).jobs@,
                        final(self).active@.last().background_job_id,
                        BackgroundJob {
                            title: t,
                            message: m,
                            progress: 0,
                            status: BackgroundJobStatus::Running,
                            kind: JobKind::Download,
                            created_at: now,
                            finished_at: None,
                        },
                    )
                &&& final(self).active@.len() == old(self).active@.len() + 1
                &&& final(self).active@.drop_last() == old(self).active@
                &&& final(self).active@.last().volume_cv_id@ == dec_int(cv_id as int)
                &&& final(self).active@.last().title@ == name@
                &&& final(self).active@.last().total_issues == count_of_issues
                &&& final(self).active@.last().progress == 0
                &&& final(self).active@.last().message@ == queued_message()
                &&& final(self).active@.last().status is Queued
                &&& final(self).active@.last().download_covers == download_covers
                &&& final(self).active@.last().background_job_id@ == job_id(old(jobs).next_id as nat)
            },
    {
        if cv_id == 0 {
            return None;
        }
        let kv = fmt_i64(cv_id);
        let key = string_of(kv.as_slice());
        if find_download(&self.active, key.as_str()).is_some() {
            return None;
        }
        let job = jobs.start_job(name.to_owned(), "En cola...".to_owned(), JobKind::Download, now);
        let info = DownloadInfo {
            volume_cv_id: key.clone(),
            title: name.to_owned(),
            total_issues: count_of_issues,
            progress: 0,
            message: "En cola...".to_owned(),
            status: DownloadStatus::Queued,
            download_covers,
            background_job_id: job,
        };
        self.active.push(info);
        assert(self.active@.drop_last() =~= old(self).active@);
        Some(key)
    }

    /// Records a new status, progress and message for a download, and
    /// passes them on to its job: finished when completed or failed, updated
    /// otherwise. Returns whether the download was found.
    pub fn update_status(
        &mut self,
        jobs: &mut JobRegistry,
        cv_id: &str,
        status: DownloadStatus,
        progress: u32,
        msg: &str,
        now: u64,
    ) -> (found: bool)
        ensures
            found == (index_of_download(old(self).active@, cv_id@) >= 0),
            !found ==> final(self).active@ == old(self).active@ && *final(jobs) == *old(jobs),
            found ==> {
                let i = index_of_download(old(self).active@, cv_id@);
                let d = final(self).active@[i];
                let job = old(self).active@[i].background_job_id@;
                let j = index_of_id(old(jobs).jobs@, job);
                &&& final(self).active@.len() == old(self).active@.len()
                &&& forall|k: int| 0 <= k < old(self).active@.len() && k != i ==> final(self).active@[k] == old(self).active@[k]
                &&& d.volume_cv_id == old(self).active@[i].volume_cv_id
                &&& d.title == old(self).active@[i].title
                &&& d.total_issues == old(self).active@[i].total_issues
                &&& d.download_covers == old(self).active@[i].download_covers
                &&& d.background_job_id == old(self).active@[i].background_job_id
                &&& d.status == status
                &&& d.progress == progress
                &&& d.message@ == msg@
                &&& final(jobs).next_id == old(jobs).next_id
                &&& j < 0 ==> final(jobs).jobs@ == old(jobs).jobs@
                &&& j >= 0 ==> final(jobs).jobs@.len() == old(jobs).jobs@.len()
                &&& j >= 0 ==> final(jobs).jobs@[j].0 == old(jobs).jobs@[j].0
                &&& j >= 0 ==> final(jobs).jobs@[j].1.message@ == msg@
                &&& j >= 0 ==> match status {
                    DownloadStatus::Completed => final(jobs).jobs@[j].1.status == BackgroundJobStatus::Completed
                        && final(jobs).jobs@[j].1.finished_at == Some(now),
                    DownloadStatus::Error(_) => final(jobs).jobs@[j].1.status == BackgroundJobStatus::Error
                        && final(jobs).jobs@[j].1.finished_at == Some(now),
                    _ => final(jobs).jobs@[j].1.status == BackgroundJobStatus::Running
                        && final(jobs).jobs@[j].1.progress == clamp_progress(progress as i64),
                }
            },
    {
        let i = match find_download(&self.active, cv_id) {
            Some(i) => i,
            None => return false,
        };
        let mut info = self.active.remove(i);
        let job_id_text = info.background_job_id.clone();
        let kind = match &status {
            DownloadStatus::Completed => 1u8,
            DownloadStatus::Error(_) => 2u8,
            _ => 0u8,
        };
        info.status = status;
        info.progress = progress;
        info.message = msg.to_owned();
        self.active.insert(i, info);
        assert forall|k: int| 0 <= k < old(self).active@.len() && k != i implies self.active@[k] == old(self).active@[k] by {}
        let ghost j = index_of_id(jobs.jobs@, job_id_text@);
        assert(job_id_text@ == old(self).active@[i as int].background_job_id@);
        let ghost jobs0 = jobs.jobs@;
        proof {
            crate::background_jobs::lemma_index_of_id(jobs0, job_id_text@);
        }
        if kind == 1 {
            jobs.finish_job(job_id_text.as_str(), msg.to_owned(), false, now);
        } else if kind == 2 {
            jobs.finish_job(job_id_text.as_str(), msg.to_owned(), true, now);
        } else {
            jobs.update_job(job_id_text.as_str(), msg.to_owned(), progress as i64);
        }
        true
    }
}

// ── one download ──────────────────────────────────────────────────────────

/// Why a download could not start.
#[derive(Clone, Debug, PartialEq, Eq, Structural)]
pub enum DownloadError {
    NoApiKey,
}

impl DownloadError {
    /// The message shown to the user.
    pub fn message(&self) -> (r: String)
        ensures
            r@ == "No hay API key configurada"@,
    {
        "No hay API key configurada".to_owned()
    }
}

/// The configured API key, unless it is missing or empty.
pub fn api_key_from_setup(key: Option<&str>) -> (r: Result<String, DownloadError>)
    ensures
        match key {
            Some(k) => if k@.len() > 0 { r matches Ok(s) && s@ == k@ } else { r == Err::<String, DownloadError>(DownloadError::NoApiKey) },
            None => r == Err::<String, DownloadError>(DownloadError::NoApiKey),
        },
{
    match key {
        Some(k) => {
            if k.is_empty() {
                Err(DownloadError::NoApiKey)
            } else {
                Ok(k.to_owned())
            }
        },
        None => Err(DownloadError::NoApiKey),
    }
}

/// Progress (millionths) before issue `i` of `total`: 10% once the volume is
/// saved, the other 90% spread over the issues.
pub open spec fn issue_progress_of(i: nat, total: nat) -> nat {
    100_000 + (900_000 * i) / (if total > 0 { total } else { 1 })
}

/// Progress before processing issue `i` of `total`.
pub fn issue_progress(i: usize, total: usize) -> (r: u32)
    requires
        i <= total,
    ensures
        r == issue_progress_of(i as nat, total as nat),
        r <= 1_000_000,
{
    let t: u128 = if total > 0 { total as u128 } else { 1 };
    let x: u128 = 900_000u128 * (i as u128);
    assert(x / t <= 900_000) by (nonlinear_arith)
        requires
            x == 900_000 * i,
            i <= total,
            t == (if total > 0 { total } else { 1 }),
            t >= 1,
    ;
    (100_000u128 + x / t) as u32
}

/// `Número {n} ({i + 1}/{total})`, `?` for an issue without number.
pub open spec fn issue_message_of(number: Option<Seq<char>>, i: nat, total: nat) -> Seq<char> {
    "Número "@ + (match number { Some(n) => n, None => "?"@ }) + " ("@ + dec(i + 1) + seq!['/'] + dec(total) + seq![')']
}

/// The progress message of an issue.
pub fn issue_message(number: Option<&str>, i: usize, total: usize) -> (r: String)
    requires
        i < usize::MAX,
    ensures
        r@ == issue_message_of(match number { Some(n) => Some(n@), None => None }, i as nat, total as nat),
{
    let mut v = chars_of("Número ");
    match number {
        Some(n) => push_str(&mut v, n),
        None => push_str(&mut v, "?"),
    }
    push_str(&mut v, " (");
    let a = fmt_u64((i + 1) as u64);
    push_all(&mut v, a.as_slice());
    v.push('/');
    let b = fmt_u64(total as u64);
    push_all(&mut v, b.as_slice());
    v.push(')');
    string_of(v.as_slice())
}

/// The title of an issue inserted from ComicVine: its name, or
/// `{volume} #{number}` when it has none.
pub open spec fn issue_title_of(name: Option<Seq<char>>, volume: Seq<char>, number: Option<Seq<char>>) -> Seq<char> {
    let t = match name { Some(n) => n, None => Seq::empty() };
    if t.len() == 0 {
        volume + " #"@ + match number { Some(n) => n, None => "?"@ }
    } else {
        t
    }
}

/// The title of an issue inserted from ComicVine.
pub fn issue_title(name: Option<&str>, volume_name: &str, number: Option<&str>) -> (r: String)
    ensures
        r@ == issue_title_of(
            match name { Some(n) => Some(n@), None => None },
            volume_name@,
            match number { Some(n) => Some(n@), None => None },
        ),
{
    let t: &str = match name {
        Some(n) => n,
        None => "",
    };
    proof {
        reveal_strlit("");
    }
    if !t.is_empty() {
        return t.to_owned();
    }
    let mut v = chars_of(volume_name);
    push_str(&mut v, " #");
    match number {
        Some(n) => push_str(&mut v, n),
        None => push_str(&mut v, "?"),
    }
    string_of(v.as_slice())
}

/// The issue record inserted for an issue of a downloaded volume: its title
/// (see [`issue_title`]), number, description stripped of HTML, ComicVine id
/// and detail URL, in the volume `volume_id`.
pub fn new_issue_info(
    name: Option<&str>,
    number: Option<&str>,
    description: Option<&str>,
    api_detail_url: Option<&str>,
    issue_cv_id: i64,
    volume_name: &str,
    volume_id: i64,
) -> (r: NewComicbookInfo)
    ensures
        r.titulo@ == issue_title_of(
            match name { Some(n) => Some(n@), None => None },
            volume_name@,
            match number { Some(n) => Some(n@), None => None },
        ),
        r.id_volume == Some(volume_id),
        match number { Some(n) => r.numero matches Some(x) && x@ == n@, None => r.numero is None },
        match description { Some(d) => r.resumen matches Some(x) && x@ == html_text(d@), None => r.resumen is None },
        r.id_comicvine == Some(issue_cv_id),
        match api_detail_url {
            Some(u) => r.url_api_detalle matches Some(x) && x@ == u@,
            None => r.url_api_detalle is None,
        },
{
    NewComicbookInfo {
        titulo: issue_title(name, volume_name, number),
        id_volume: Some(volume_id),
        numero: match number { Some(n) => Some(n.to_owned()), None => None },
        resumen: match description { Some(d) => Some(strip_html(d)), None => None },
        id_comicvine: Some(issue_cv_id),
        url_api_detalle: match api_detail_url { Some(u) => Some(u.to_owned()), None => None },
    }
}

/// What to do with the cover URL of an issue.
#[derive(Clone, Debug)]
pub enum CoverAction {
    /// Record the cover, downloading it first when asked to.
    Insert { download: bool },
    /// Download the image of these recorded covers, which have no local file.
    DownloadMissing(Vec<i64>),
    /// Nothing to do.
    Nothing,
}

/// The covers recorded with URL `url` and no local file, by id.
pub open spec fn missing_files(covers: Seq<ComicbookInfoCover>, url: Seq<char>) -> Seq<i64>
    decreases covers.len(),
{
    if covers.len() == 0 {
        Seq::empty()
    } else {
        let c = covers.last();
        if c.url_original@ == url && c.ruta_local is None {
            missing_files(covers.drop_last(), url).push(c.id)
        } else {
            missing_files(covers.drop_last(), url)
        }
    }
}

/// Some recorded cover has URL `url`.
pub open spec fn has_url(covers: Seq<ComicbookInfoCover>, url: Seq<char>) -> bool {
    exists|i: int| 0 <= i < covers.len() && covers[i].url_original@ == url
}

/// What to do with an issue's cover: record it when it is new (downloading
/// it when covers are wanted); when it is known and covers are wanted,
/// download the files it lacks; otherwise nothing.
pub fn cover_action(existing: &Vec<ComicbookInfoCover>, url: &str, download_covers: bool) -> (r: CoverAction)
    ensures
        !has_url(existing@, url@) ==> (r matches CoverAction::Insert { download } && download == download_covers),
        has_url(existing@, url@) && download_covers ==> (r matches CoverAction::DownloadMissing(ids) && ids@ == missing_files(existing@, url@)),
        has_url(existing@, url@) && !download_covers ==> r is Nothing,
{
    let u = url.to_owned();
    let mut found = false;
    let mut missing: Vec<i64> = Vec::new();
    let mut i: usize = 0;
    while i < existing.len()
        invariant
            u@ == url@,
            i <= existing@.len(),
            found == exists|j: int| 0 <= j < i && existing@[j].url_original@ == url@,
            missing@ == missing_files(existing@.subrange(0, i as int), url@),
        decreases existing@.len() - i,
    {
        assert(existing@.subrange(0, i + 1).drop_last() =~= existing@.subrange(0, i as int));
        if existing[i].url_original == u {
            found = true;
            if existing[i].ruta_local.is_none() {
                missing.push(existing[i].id);
            }
        }
        i = i + 1;
    }
    assert(existing@.subrange(0, existing@.len() as int) =~= existing@);
    if !found {
        CoverAction::Insert { download: download_covers }
    } else if download_covers {
        CoverAction::DownloadMissing(missing)
    } else {
        CoverAction::Nothing
    }
}

/// The extension of a cover URL: what follows its last `.` (the whole URL
/// when it has none).
pub open spec fn url_extension(url: Seq<char>) -> Seq<char> {
    url.subrange(last_index_of(url, '.') + 1, url.len() as int)
}

/// `issue_{id}.{ext}`, the file a downloaded cover is saved as.
pub fn cover_download_name(url: &str, issue_cv_id: i64) -> (r: String)
    ensures
        r@ == "issue_"@ + dec_int(issue_cv_id as int) + seq!['.'] + url_extension(url@),
{
    let u = chars_of(url);
    let k = crate::pathutil::after_last(u.as_slice(), u.len(), '.');
    assert(u@.subrange(0, u@.len() as int) =~= u@);
    let ext = crate::text::slice_chars(u.as_slice(), k, u.len());
    let mut v = chars_of("issue_");
    let d = fmt_i64(issue_cv_id);
    push_all(&mut v, d.as_slice());
    v.push('.');
    push_all(&mut v, ext.as_slice());
    string_of(v.as_slice())
}

/// `Completado: {downloaded}/{total} números`.
pub fn completed_message(downloaded: usize, total: usize) -> (r: String)
    ensures
        r@ == "Completado: "@ + dec(downloaded as nat) + seq!['/'] + dec(total as nat) + " números"@,
{
    let mut v = chars_of("Completado: ");
    let a = fmt_u64(downloaded as u64);
    push_all(&mut v, a.as_slice());
    v.push('/');
    let b = fmt_u64(total as u64);
    push_all(&mut v, b.as_slice());
    push_str(&mut v, " números");
    string_of(v.as_slice())
}

// ── HTML of descriptions ──────────────────────────────────────────────────

/// The text outside tags (`<` … `>`), reading from the start of `s` with
/// `in_tag` telling whether a tag is open.
pub open spec fn outside_tags(s: Seq<char>, in_tag: bool) -> Seq<char>
    decreases s.len(),
{
    if s.len() == 0 {
        Seq::empty()
    } else if s[0] == '<' {
        outside_tags(s.drop_first(), true)
    } else if s[0] == '>' {
        outside_tags(s.drop_first(), false)
    } else if !in_tag {
        seq![s[0]] + outside_tags(s.drop_first(), in_tag)
    } else {
        outside_tags(s.drop_first(), in_tag)
    }
}

/// `str::replace`: every non-overlapping occurrence of `pat`, from the left,
/// replaced by `rep`.
pub open spec fn replace_all(s: Seq<char>, pat: Seq<char>, rep: Seq<char>) -> Seq<char>
    decreases s.len(),
{
    if pat.len() == 0 || s.len() == 0 {
        s
    } else if is_prefix(pat, s) {
        rep + replace_all(s.subrange(pat.len() as int, s.len() as int), pat, rep)
    } else {
        seq![s[0]] + replace_all(s.drop_first(), pat, rep)
    }
}

/// The text of an HTML description: tags removed, then the common entities
/// decoded (`&amp;`, `&lt;`, `&gt;`, `&quot;`, `&#39;`, `&nbsp;`, in that order).
pub open spec fn html_text(html: Seq<char>) -> Seq<char> {
    let t = outside_tags(html, false);
    let t1 = replace_all(t, "&amp;"@, "&"@);
    let t2 = replace_all(t1, "&lt;"@, "<"@);
    let t3 = replace_all(t2, "&gt;"@, ">"@);
    let t4 = replace_all(t3, "&quot;"@, "\""@);
    let t5 = replace_all(t4, "&#39;"@, "'"@);
    replace_all(t5, "&nbsp;"@, " "@)
}

fn replace_chars(s: &[char], pat: &str, rep: &str) -> (r: Vec<char>)
    ensures
        r@ == replace_all(s@, pat@, rep@),
{
    let p = chars_of(pat);
    if p.len() == 0 {
        let mut r: Vec<char> = Vec::new();
        push_all(&mut r, s);
        assert(r@ =~= s@);
        return r;
    }
    let mut out: Vec<char> = Vec::new();
    let mut i: usize = 0;
    assert(s@.subrange(0, s@.len() as int) =~= s@);
    while i < s.len()
        invariant
            i <= s@.len(),
            p@ == pat@,
            p@.len() > 0,
            replace_all(s@, pat@, rep@) == out@ + replace_all(s@.subrange(i as int, s@.len() as int), pat@, rep@),
        decreases s@.len() - i,
    {
        let ghost rest = s@.subrange(i as int, s@.len() as int);
        if crate::text::matches_at(s, i, p.as_slice()) {
            assert(is_prefix(pat@, rest)) by {
                assert(rest.subrange(0, pat@.len() as int) =~= s@.subrange(i as int, i + pat@.len()));
            }
            assert(rest.subrange(pat@.len() as int, rest.len() as int) =~= s@.subrange(i + pat@.len(), s@.len() as int));
            push_str(&mut out, rep);
            i = i + p.len();
        } else {
            assert(!is_prefix(pat@, rest)) by {
                if is_prefix(pat@, rest) {
                    assert(rest.subrange(0, pat@.len() as int) =~= s@.subrange(i as int, i + pat@.len()));
                }
            }
            assert(rest.drop_first() =~= s@.subrange(i + 1, s@.len() as int));
            out.push(s[i]);
            i = i + 1;
        }
    }
    assert(s@.subrange(i as int, s@.len() as int) =~= Seq::<char>::empty());
    assert(out@ + Seq::<char>::empty() =~= out@);
    out
}

/// The plain text of an HTML fragment (tags dropped, common entities decoded).
pub fn strip_html(html: &str) -> (r: String)
    ensures
        r@ == html_text(html@),
{
    let h = chars_of(html);
    let mut out: Vec<char> = Vec::new();
    let mut in_tag = false;
    let mut i: usize = 0;
    assert(h@.subrange(0, h@.len() as int) =~= h@);
    while i < h.len()
        invariant
            i <= h@.len(),
            outside_tags(h@, false) == out@ + outside_tags(h@.subrange(i as int, h@.len() as int), in_tag),
        decreases h@.len() - i,
    {
        let ghost rest = h@.subrange(i as int, h@.len() as int);
        assert(rest.drop_first() =~= h@.subrange(i + 1, h@.len() as int));
        let c = h[i];
        if c == '<' {
            in_tag = true;
        } else if c == '>' {
            in_tag = false;
        } else if !in_tag {
            let ghost out0 = out@;
            out.push(c);
            assert(out0 + (seq![c] + outside_tags(rest.drop_first(), in_tag)) =~= out@ + outside_tags(
                rest.drop_first(),
                in_tag,
            ));
        }
        i = i + 1;
    }
    assert(h@.subrange(i as int, h@.len() as int) =~= Seq::<char>::empty());
    assert(out@ + Seq::<char>::empty() =~= out@);
    let t1 = replace_chars(out.as_slice(), "&amp;", "&");
    let t2 = replace_chars(t1.as_slice(), "&lt;", "<");
    let t3 = replace_chars(t2.as_slice(), "&gt;", ">");
    let t4 = replace_chars(t3.as_slice(), "&quot;", "\"");
    let t5 = replace_chars(t4.as_slice(), "&#39;", "'");
    let t6 = replace_chars(t5.as_slice(), "&nbsp;", " ");
    string_of(t6.as_slice())
}

// ── what the plain text of a description is ──────────────────────────────

/// Text that holds no tag bracket, no `&` and no `;`.
pub open spec fn plain_text(s: Seq<char>) -> bool {
    forall|k: int| 0 <= k < s.len() ==> #[trigger] s[k] != '<' && s[k] != '>' && s[k] != '&' && s[k] != ';'
}

/// Text that holds no tag bracket.
pub open spec fn no_brackets(s: Seq<char>) -> bool {
    forall|k: int| 0 <= k < s.len() ==> #[trigger] s[k] != '<' && s[k] != '>'
}

proof fn lemma_tags_prefix(a: Seq<char>, rest: Seq<char>, in_tag: bool)
    requires
        no_brackets(a),
    ensures
        outside_tags(a + rest, in_tag) == (if in_tag { Seq::empty() } else { a }) + outside_tags(rest, in_tag),
    decreases a.len(),
{
    if a.len() == 0 {
        assert(a + rest =~= rest);
        assert(Seq::<char>::empty() + outside_tags(rest, in_tag) =~= outside_tags(rest, in_tag));
    } else {
        let x = a + rest;
        assert(x[0] == a[0]);
        assert(x.drop_first() =~= a.drop_first() + rest);
        lemma_tags_prefix(a.drop_first(), rest, in_tag);
        if !in_tag {
            assert(seq![a[0]] + (a.drop_first() + outside_tags(rest, in_tag)) =~= a + outside_tags(rest, in_tag));
        }
    }
}

proof fn lemma_tags_none(a: Seq<char>)
    requires
        no_brackets(a),
    ensures
        outside_tags(a, false) == a,
{
    lemma_tags_prefix(a, Seq::empty(), false);
    assert(a + Seq::<char>::empty() =~= a);
    assert(outside_tags(Seq::<char>::empty(), false) =~= Seq::<char>::empty());
    assert(a + Seq::<char>::empty() =~= a);
}

/// `s` has no occurrence of `pat` at any position.
spec fn nowhere(pat: Seq<char>, s: Seq<char>) -> bool {
    forall|k: int| 0 <= k < s.len() ==> !is_prefix(pat, #[trigger] s.subrange(k, s.len() as int))
}

proof fn lemma_replace_nowhere(s: Seq<char>, pat: Seq<char>, rep: Seq<char>)
    requires
        pat.len() > 0,
        nowhere(pat, s),
    ensures
        replace_all(s, pat, rep) == s,
    decreases s.len(),
{
    if s.len() > 0 {
        assert(s.subrange(0, s.len() as int) =~= s);
        let d = s.drop_first();
        assert forall|k: int| 0 <= k < d.len() implies !is_prefix(pat, #[trigger] d.subrange(k, d.len() as int)) by {
            assert(d.subrange(k, d.len() as int) =~= s.subrange(k + 1, s.len() as int));
        }
        lemma_replace_nowhere(d, pat, rep);
        assert(seq![s[0]] + d =~= s);
    }
}

proof fn lemma_no_amp_nowhere(s: Seq<char>, pat: Seq<char>)
    requires
        pat.len() > 0,
        pat[0] == '&',
        forall|k: int| 0 <= k < s.len() ==> #[trigger] s[k] != '&',
    ensures
        nowhere(pat, s),
{
    assert forall|k: int| 0 <= k < s.len() implies !is_prefix(pat, #[trigger] s.subrange(k, s.len() as int)) by {
        assert(s.subrange(k, s.len() as int)[0] == s[k]);
        if is_prefix(pat, s.subrange(k, s.len() as int)) {
            assert(s.subrange(k, s.len() as int).subrange(0, pat.len() as int)[0] == s[k]);
        }
    }
}

proof fn lemma_replace_skip(a: Seq<char>, rest: Seq<char>, pat: Seq<char>, rep: Seq<char>)
    requires
        pat.len() > 0,
        pat[0] == '&',
        forall|k: int| 0 <= k < a.len() ==> #[trigger] a[k] != '&',
    ensures
        replace_all(a + rest, pat, rep) == a + replace_all(rest, pat, rep),
    decreases a.len(),
{
    if a.len() == 0 {
        assert(a + rest =~= rest);
        assert(a + replace_all(rest, pat, rep) =~= replace_all(rest, pat, rep));
    } else {
        let x = a + rest;
        assert(x[0] == a[0]);
        if is_prefix(pat, x) {
            assert(x.subrange(0, pat.len() as int)[0] == x[0]);
        }
        assert(x.drop_first() =~= a.drop_first() + rest);
        lemma_replace_skip(a.drop_first(), rest, pat, rep);
        assert(seq![a[0]] + (a.drop_first() + replace_all(rest, pat, rep)) =~= a + replace_all(rest, pat, rep));
    }
}

/// One replacement pass over `a + m + b`, with `a` and `b` plain: `m` is
/// replaced when it is the pattern, and left alone when the pattern does not
/// start it (it differs from `m + b` at index `i`).
proof fn lemma_pass(a: Seq<char>, m: Seq<char>, b: Seq<char>, pat: Seq<char>, rep: Seq<char>, i: int)
    requires
        plain_text(a),
        plain_text(b),
        pat.len() > 0,
        pat[0] == '&',
        m.len() > 0,
        forall|k: int| 1 <= k < m.len() ==> #[trigger] m[k] != '&',
        pat != m ==> 0 <= i < pat.len() && (i >= (m + b).len() || (m + b)[i] != pat[i]),
    ensures
        replace_all(a + m + b, pat, rep) == if pat == m { a + rep + b } else { a + m + b },
{
    assert(a + m + b =~= a + (m + b));
    lemma_replace_skip(a, m + b, pat, rep);
    let x = m + b;
    lemma_no_amp_nowhere(b, pat);
    lemma_replace_nowhere(b, pat, rep);
    if pat == m {
        assert(x.subrange(0, pat.len() as int) =~= m);
        assert(x.subrange(pat.len() as int, x.len() as int) =~= b);
        assert(a + (rep + b) =~= a + rep + b);
    } else {
        if is_prefix(pat, x) {
            assert(x.subrange(0, pat.len() as int)[i] == x[i]);
        }
        let tail = m.drop_first() + b;
        assert(x.drop_first() =~= tail);
        assert forall|k: int| 0 <= k < tail.len() implies #[trigger] tail[k] != '&' by {
            if k < m.len() - 1 {
                assert(tail[k] == m[k + 1]);
            } else {
                assert(tail[k] == b[k - (m.len() - 1)]);
            }
        }
        lemma_no_amp_nowhere(tail, pat);
        lemma_replace_nowhere(tail, pat, rep);
        assert(seq![x[0]] + tail =~= x);
    }
}

proof fn lemma_plain_pass(a: Seq<char>, pat: Seq<char>, rep: Seq<char>)
    requires
        plain_text(a),
        pat.len() > 0,
        pat[0] == '&',
    ensures
        replace_all(a, pat, rep) == a,
{
    lemma_no_amp_nowhere(a, pat);
    lemma_replace_nowhere(a, pat, rep);
}

proof fn lemma_entities()
    ensures
        "&amp;"@ =~= seq!['&', 'a', 'm', 'p', ';'],
        "&lt;"@ =~= seq!['&', 'l', 't', ';'],
        "&gt;"@ =~= seq!['&', 'g', 't', ';'],
        "&quot;"@ =~= seq!['&', 'q', 'u', 'o', 't', ';'],
        "&#39;"@ =~= seq!['&', '#', '3', '9', ';'],
        "&nbsp;"@ =~= seq!['&', 'n', 'b', 's', 'p', ';'],
        "&"@ =~= seq!['&'],
        "<"@ =~= seq!['<'],
        ">"@ =~= seq!['>'],
        "\""@ =~= seq!['"'],
        "'"@ =~= seq!['\''],
        " "@ =~= seq![' '],
{
    reveal_strlit("&amp;");
    reveal_strlit("&lt;");
    reveal_strlit("&gt;");
    reveal_strlit("&quot;");
    reveal_strlit("&#39;");
    reveal_strlit("&nbsp;");
    reveal_strlit("&");
    reveal_strlit("<");
    reveal_strlit(">");
    reveal_strlit("\"");
    reveal_strlit("'");
    reveal_strlit(" ");
}

/// The passes after an entity was decoded to the character `c` (not `&`,
/// or `&` when `b` has no `;`) leave `a + c + b` alone.
proof fn lemma_passes_after(a: Seq<char>, c: char, b: Seq<char>, pat: Seq<char>, rep: Seq<char>)
    requires
        plain_text(a),
        plain_text(b),
        pat.len() >= 4,
        pat[0] == '&',
        pat[pat.len() - 1] == ';',
    ensures
        replace_all(a + seq![c] + b, pat, rep) == a + seq![c] + b,
{
    let m = seq![c];
    if c != '&' {
        lemma_pass(a, m, b, pat, rep, 0);
    } else {
        let i = pat.len() - 1;
        if i < (m + b).len() {
            assert((m + b)[i] == b[i - 1]);
        }
        lemma_pass(a, m, b, pat, rep, i);
    }
}

/// Plain text comes out of `html_text` as it is, and a single entity inside
/// plain text decodes to its own character: `&amp;` to `&`, `&lt;` to `<`,
/// `&gt;` to `>`, `&quot;` to `"`, `&#39;` to `'` and `&nbsp;` to a space.
pub proof fn html_entities_decode(a: Seq<char>, b: Seq<char>)
    requires
        plain_text(a),
        plain_text(b),
    ensures
        html_text(a) == a,
        html_text(a + "&amp;"@ + b) == a + seq!['&'] + b,
        html_text(a + "&lt;"@ + b) == a + seq!['<'] + b,
        html_text(a + "&gt;"@ + b) == a + seq!['>'] + b,
        html_text(a + "&quot;"@ + b) == a + seq!['"'] + b,
        html_text(a + "&#39;"@ + b) == a + seq!['\''] + b,
        html_text(a + "&nbsp;"@ + b) == a + seq![' '] + b,
{
    lemma_entities();
    let amp = "&amp;"@;
    let lt = "&lt;"@;
    let gt = "&gt;"@;
    let quot = "&quot;"@;
    let apos = "&#39;"@;
    let nbsp = "&nbsp;"@;
    // plain text
    lemma_tags_none(a);
    lemma_plain_pass(a, amp, "&"@);
    lemma_plain_pass(a, lt, "<"@);
    lemma_plain_pass(a, gt, ">"@);
    lemma_plain_pass(a, quot, "\""@);
    lemma_plain_pass(a, apos, "'"@);
    lemma_plain_pass(a, nbsp, " "@);
    // each entity: the tags pass keeps it, the passes before its own leave
    // it, its own decodes it, the passes after leave the character
    assert forall|m: Seq<char>|
        m == amp || m == lt || m == gt || m == quot || m == apos || m == nbsp implies outside_tags(
        #[trigger] (a + m + b),
        false,
    ) == a + m + b by {
        assert(no_brackets(a + m + b)) by {
            assert forall|k: int| 0 <= k < (a + m + b).len() implies #[trigger] (a + m + b)[k] != '<' && (a + m
                + b)[k] != '>' by {
                if k < a.len() {
                    assert((a + m + b)[k] == a[k]);
                } else if k < a.len() + m.len() {
                    assert((a + m + b)[k] == m[k - a.len()]);
                } else {
                    assert((a + m + b)[k] == b[k - a.len() - m.len()]);
                }
            }
        }
        lemma_tags_none(a + m + b);
    }
    // &amp;
    assert(outside_tags(a + amp + b, false) == a + amp + b);
    lemma_pass(a, amp, b, amp, "&"@, 0);
    lemma_passes_after(a, '&', b, lt, "<"@);
    lemma_passes_after(a, '&', b, gt, ">"@);
    lemma_passes_after(a, '&', b, quot, "\""@);
    lemma_passes_after(a, '&', b, apos, "'"@);
    lemma_passes_after(a, '&', b, nbsp, " "@);
    // &lt;
    assert(outside_tags(a + lt + b, false) == a + lt + b);
    lemma_pass(a, lt, b, amp, "&"@, 1);
    lemma_pass(a, lt, b, lt, "<"@, 0);
    lemma_passes_after(a, '<', b, gt, ">"@);
    lemma_passes_after(a, '<', b, quot, "\""@);
    lemma_passes_after(a, '<', b, apos, "'"@);
    lemma_passes_after(a, '<', b, nbsp, " "@);
    // &gt;
    assert(outside_tags(a + gt + b, false) == a + gt + b);
    lemma_pass(a, gt, b, amp, "&"@, 1);
    lemma_pass(a, gt, b, lt, "<"@, 1);
    lemma_pass(a, gt, b, gt, ">"@, 0);
    lemma_passes_after(a, '>', b, quot, "\""@);
    lemma_passes_after(a, '>', b, apos, "'"@);
    lemma_passes_after(a, '>', b, nbsp, " "@);
    // &quot;
    assert(outside_tags(a + quot + b, false) == a + quot + b);
    lemma_pass(a, quot, b, amp, "&"@, 1);
    lemma_pass(a, quot, b, lt, "<"@, 1);
    lemma_pass(a, quot, b, gt, ">"@, 1);
    lemma_pass(a, quot, b, quot, "\""@, 0);
    lemma_passes_after(a, '"', b, apos, "'"@);
    lemma_passes_after(a, '"', b, nbsp, " "@);
    // &#39;
    assert(outside_tags(a + apos + b, false) == a + apos + b);
    lemma_pass(a, apos, b, amp, "&"@, 1);
    lemma_pass(a, apos, b, lt, "<"@, 1);
    lemma_pass(a, apos, b, gt, ">"@, 1);
    lemma_pass(a, apos, b, quot, "\""@, 1);
    lemma_pass(a, apos, b, apos, "'"@, 0);
    lemma_passes_after(a, '\'', b, nbsp, " "@);
    // &nbsp;
    assert(outside_tags(a + nbsp + b, false) == a + nbsp + b);
    lemma_pass(a, nbsp, b, amp, "&"@, 1);
    lemma_pass(a, nbsp, b, lt, "<"@, 1);
    lemma_pass(a, nbsp, b, gt, ">"@, 1);
    lemma_pass(a, nbsp, b, quot, "\""@, 1);
    lemma_pass(a, nbsp, b, apos, "'"@, 1);
    lemma_pass(a, nbsp, b, nbsp, " "@, 0);
}

/// A tag inside plain text is dropped whole: `a<t>b` reads as `ab`.
pub proof fn html_tags_are_dropped(a: Seq<char>, t: Seq<char>, b: Seq<char>)
    requires
        plain_text(a),
        plain_text(b),
        no_brackets(t),
    ensures
        html_text(a + seq!['<'] + t + seq!['>'] + b) == a + b,
{
    lemma_entities();
    let x = a + seq!['<'] + t + seq!['>'] + b;
    let r1 = seq!['<'] + t + seq!['>'] + b;
    let r2 = t + (seq!['>'] + b);
    assert(x =~= a + r1);
    assert(no_brackets(a));
    lemma_tags_prefix(a, r1, false);
    assert(r1.drop_first() =~= r2);
    lemma_tags_prefix(t, seq!['>'] + b, true);
    assert((seq!['>'] + b).drop_first() =~= b);
    assert(no_brackets(b));
    lemma_tags_none(b);
    assert(Seq::<char>::empty() + outside_tags(seq!['>'] + b, true) =~= outside_tags(seq!['>'] + b, true));
    let ab = a + b;
    assert(plain_text(ab)) by {
        assert forall|k: int| 0 <= k < ab.len() implies #[trigger] ab[k] != '<' && ab[k] != '>' && ab[k] != '&'
            && ab[k] != ';' by {
            if k < a.len() {
                assert(ab[k] == a[k]);
            } else {
                assert(ab[k] == b[k - a.len()]);
            }
        }
    }
    assert(outside_tags(x, false) == ab);
    lemma_plain_pass(ab, "&amp;"@, "&"@);
    lemma_plain_pass(ab, "&lt;"@, "<"@);
    lemma_plain_pass(ab, "&gt;"@, ">"@);
    lemma_plain_pass(ab, "&quot;"@, "\""@);
    lemma_plain_pass(ab, "&#39;"@, "'"@);
    lemma_plain_pass(ab, "&nbsp;"@, " "@);
}

// ── the volume and its publisher ──────────────────────────────────────────

/// What a download reads from a volume's details.
#[derive(Clone, Debug)]
pub struct VolumeDetails {
    pub name: String,
    pub cv_id: i64,
    pub deck: String,
    pub description: String,
    pub url: String,
    pub start_year: i64,
    pub count_of_issues: i64,
    pub image_url: String,
}

/// The text of an optional field, or `default`.
pub open spec fn text_or_default(v: Option<String>, default: Seq<char>) -> Seq<char> {
    match v {
        Some(s) => s@,
        None => default,
    }
}

fn owned_or(v: Option<String>, default: &str) -> (r: String)
    ensures
        r@ == text_or_default(v, default@),
{
    match v {
        Some(s) => s,
        None => default.to_owned(),
    }
}

impl VolumeDetails {
    /// The details from the fields of the API answer (each `None` when missing
    /// or of another JSON type): name `Desconocido`, id 0, texts empty, year
    /// and count 0 by default; deck and description stripped of HTML; the year
    /// parsed from its text.
    pub fn from_fields(
        name: Option<String>,
        cv_id: Option<i64>,
        deck: Option<String>,
        description: Option<String>,
        site_detail_url: Option<String>,
        start_year: Option<String>,
        count_of_issues: Option<i64>,
        image_medium_url: Option<String>,
    ) -> (r: Self)
        ensures
            r.name@ == text_or_default(name, "Desconocido"@),
            r.cv_id == match cv_id { Some(i) => i, None => 0 },
            r.deck@ == html_text(text_or_default(deck, ""@)),
            r.description@ == html_text(text_or_default(description, ""@)),
            r.url@ == text_or_default(site_detail_url, ""@),
            r.start_year == match start_year {
                Some(y) => match parse_signed(y@) { Some(v) => v as i64, None => 0 },
                None => 0,
            },
            r.count_of_issues == match count_of_issues { Some(c) => c, None => 0 },
            r.image_url@ == text_or_default(image_medium_url, ""@),
    {
        let d = owned_or(deck, "");
        let ds = strip_html(d.as_str());
        let e = owned_or(description, "");
        let es = strip_html(e.as_str());
        let year: i64 = match &start_year {
            Some(y) => {
                let yv = chars_of(y.as_str());
                match parse_i64(yv.as_slice()) {
                    Some(v) => v,
                    None => 0,
                }
            },
            None => 0,
        };
        VolumeDetails {
            name: owned_or(name, "Desconocido"),
            cv_id: match cv_id {
                Some(i) => i,
                None => 0,
            },
            deck: ds,
            description: es,
            url: owned_or(site_detail_url, ""),
            start_year: year,
            count_of_issues: match count_of_issues {
                Some(c) => c,
                None => 0,
            },
            image_url: owned_or(image_medium_url, ""),
        }
    }
}

/// The ComicVine id to look a publisher (or volume) up by: only a positive one.
pub fn lookup_id(cv_id: i64) -> (r: Option<i64>)
    ensures
        r == if cv_id > 0 { Some(cv_id) } else { None::<i64> },
{
    if cv_id > 0 {
        Some(cv_id)
    } else {
        None
    }
}

/// The publisher inserted for a volume whose publisher is not known yet.
pub fn new_publisher_for(pub_cv_id: i64, name: Option<String>) -> (r: NewPublisher)
    ensures
        r.nombre@ == text_or_default(name, "Desconocido"@),
        r.descripcion is None,
        r.id_comicvine == if pub_cv_id > 0 { Some(pub_cv_id) } else { None::<i64> },
        r.image_url is None,
{
    NewPublisher {
        nombre: owned_or(name, "Desconocido"),
        descripcion: None,
        id_comicvine: lookup_id(pub_cv_id),
        image_url: None,
    }
}

/// The volume inserted for downloaded details.
pub fn new_volume_for(details: &VolumeDetails, id_publisher: i64) -> (r: NewVolume)
    ensures
        r.nombre@ == details.name@,
        r.deck@ == details.deck@,
        r.descripcion@ == details.description@,
        r.url@ == details.url@,
        r.image_url@ == details.image_url@,
        r.id_publisher == id_publisher,
        r.anio_inicio == details.start_year,
        r.cantidad_numeros == details.count_of_issues,
        r.id_comicvine == if details.cv_id > 0 { Some(details.cv_id) } else { None::<i64> },
{
    NewVolume {
        nombre: details.name.clone(),
        deck: details.deck.clone(),
        descripcion: details.description.clone(),
        url: details.url.clone(),
        image_url: details.image_url.clone(),
        id_publisher,
        anio_inicio: details.start_year,
        cantidad_numeros: details.count_of_issues,
        id_comicvine: lookup_id(details.cv_id),
    }
}

/// Whether the number of issues fetched differs from the volume's count
/// (the volume's count is then corrected).
pub fn issue_count_differs(fetched: usize, volume_count: i64) -> (r: bool)
    ensures
        r == (fetched as int != volume_count as int),
{
    if volume_count < 0 {
        true
    } else {
        (fetched as u64) != (volume_count as u64)
    }
}

// ── indexing the downloaded covers ────────────────────────────────────────

/// The title of the indexing job started after a download.
pub fn clip_job_title(volume_title: &str) -> (r: String)
    ensures
        r@ == "Embeddings CLIP — "@ + volume_title@,
{
    let mut v = chars_of("Embeddings CLIP — ");
    push_str(&mut v, volume_title);
    string_of(v.as_slice())
}

/// The title of a finished download: the one it was queued with, else `Volumen {id}`.
pub fn downloaded_title(title: Option<&str>, volume_id: i64) -> (r: String)
    ensures
        r@ == match title { Some(t) => t@, None => "Volumen "@ + dec_int(volume_id as int) },
{
    match title {
        Some(t) => t.to_owned(),
        None => {
            let mut v = chars_of("Volumen ");
            let d = fmt_i64(volume_id);
            push_all(&mut v, d.as_slice());
            string_of(v.as_slice())
        },
    }
}

/// The indexing job's message and progress (millionths) for a progress
/// report: `{processed}/{total} portadas indexadas`, complete when there is
/// nothing to index.
pub fn clip_progress_update(p: ClipGenerationProgress) -> (r: (String, i64))
    ensures
        r.0@ == dec(p.processed as nat) + seq!['/'] + dec(p.total as nat) + " portadas indexadas"@,
        r.1 == if p.total > 0 { (1_000_000 * p.processed as int) / (p.total as int) } else { 1_000_000 },
{
    let mut v = fmt_u64(p.processed as u64);
    v.push('/');
    let t = fmt_u64(p.total as u64);
    push_all(&mut v, t.as_slice());
    push_str(&mut v, " portadas indexadas");
    let frac: i64 = if p.total > 0 {
        ((1_000_000u64 * p.processed as u64) / (p.total as u64)) as i64
    } else {
        1_000_000
    };
    (string_of(v.as_slice()), frac)
}

/// The final message of the indexing job and whether it ended in error.
pub fn clip_finish(indexed: usize, errors: usize) -> (r: (String, bool))
    ensures
        r.0@ == if errors == 0 {
            dec(indexed as nat) + " portadas indexadas"@
        } else {
            dec(indexed as nat) + " indexadas, "@ + dec(errors as nat) + " errores"@
        },
        r.1 == (errors > 0),
{
    let mut v = fmt_u64(indexed as u64);
    if errors == 0 {
        push_str(&mut v, " portadas indexadas");
    } else {
        push_str(&mut v, " indexadas, ");
        let e = fmt_u64(errors as u64);
        push_all(&mut v, e.as_slice());
        push_str(&mut v, " errores");
    }
    (string_of(v.as_slice()), errors > 0)
}

// ── laws ──────────────────────────────────────────────────────────────────

/// No volume is queued twice.
pub open spec fn keys_distinct(s: Seq<DownloadInfo>) -> bool {
    forall|i: int, j: int| 0 <= i < j < s.len() ==> s[i].volume_cv_id@ != s[j].volume_cv_id@
}

/// Once a volume is queued it is found, so queueing it again is ignored.
pub proof fn queued_volume_is_found(s: Seq<DownloadInfo>, info: DownloadInfo)
    ensures
        index_of_download(s.push(info), info.volume_cv_id@) >= 0,
{
    assert(s.push(info).drop_last() =~= s);
}

/// Queueing a volume that is not queued keeps the queue free of repeats.
pub proof fn queueing_keeps_keys_distinct(s: Seq<DownloadInfo>, info: DownloadInfo)
    requires
        keys_distinct(s),
        index_of_download(s, info.volume_cv_id@) < 0,
    ensures
        keys_distinct(s.push(info)),
{
    lemma_index_of_download(s, info.volume_cv_id@);
    let t = s.push(info);
    assert forall|i: int, j: int| 0 <= i < j < t.len() implies t[i].volume_cv_id@ != t[j].volume_cv_id@ by {
        if j == s.len() {
            assert(t[i] == s[i]);
        } else {
            assert(t[i] == s[i] && t[j] == s[j]);
        }
    }
}

/// Updating a download's status leaves the set of queued volumes as it was.
pub proof fn status_update_keeps_keys(s: Seq<DownloadInfo>, i: int, d: DownloadInfo)
    requires
        keys_distinct(s),
        0 <= i < s.len(),
        d.volume_cv_id == s[i].volume_cv_id,
    ensures
        keys_distinct(s.update(i, d)),
{
    let t = s.update(i, d);
    assert forall|a: int, b: int| 0 <= a < b < t.len() implies t[a].volume_cv_id@ != t[b].volume_cv_id@ by {
        assert(t[a].volume_cv_id == s[a].volume_cv_id && t[b].volume_cv_id == s[b].volume_cv_id);
    }
}

} // verus!
