//! Registry of background jobs (downloads, CLIP indexing, scans, thumbnails,
//! imports) shown in the downloads page.
//!
//! Ids are `job-1`, `job-2`, … in creation order. Progress is kept in
//! millionths (0 to `PROGRESS_FULL`); times are milliseconds of a monotonic
//! clock supplied by the caller. Completed jobs are dropped five minutes after
//! they finish; jobs that ended in error stay.
use vstd::prelude::*;
use crate::text::{chars_of, string_of, fmt_u64, push_all, dec, lemma_dec_digits};

verus! {

broadcast use vstd::seq_lib::group_to_multiset_ensures;

/// What a job is doing.
#[derive(Clone, Copy, Debug, PartialEq, Eq, Structural)]
pub enum JobKind {
    Download,
    Clip,
    Scan,
    Thumbnail,
    Import,
}

/// Where a job stands.
#[derive(Clone, Copy, Debug, PartialEq, Eq, Structural)]
pub enum BackgroundJobStatus {
    Running,
    Completed,
    Error,
}

/// Progress of a finished job (1.0).
pub const PROGRESS_FULL: u32 = 1_000_000;

/// Completed jobs are kept this long after finishing (five minutes).
pub const COMPLETED_TTL_MS: u64 = 300_000;

/// A job as the registry holds it.
#[derive(Clone, Debug)]
pub struct BackgroundJob {
    pub title: String,
    pub message: String,
    pub progress: u32,
    pub status: BackgroundJobStatus,
    pub kind: JobKind,
    pub created_at: u64,
    pub finished_at: Option<u64>,
}

/// An immutable view of a job, as `snapshot` hands it out.
#[derive(Clone, Debug)]
pub struct BackgroundJobSnapshot {
    pub id: String,
    pub title: String,
    pub message: String,
    pub progress: u32,
    pub status: BackgroundJobStatus,
    pub kind: JobKind,
    pub created_at: u64,
    pub finished_at: Option<u64>,
}

/// All jobs by id, and the number the next job will get.
pub struct JobRegistry {
    pub next_id: u64,
    pub jobs: Vec<(String, BackgroundJob)>,
}

/// The id of the job numbered `n`.
pub open spec fn job_id(n: nat) -> Seq<char> {
    "job-"@ + dec(n)
}

/// Index of the job with id `id`, or -1.
pub open spec fn index_of_id(s: Seq<(String, BackgroundJob)>, id: Seq<char>) -> int
    decreases s.len(),
{
    if s.len() == 0 {
        -1
    } else if index_of_id(s.drop_last(), id) >= 0 {
        index_of_id(s.drop_last(), id)
    } else if s.last().0@ == id {
        s.len() - 1
    } else {
        -1
    }
}

/// `id` is the id of a number below `next_id` (one already handed out).
pub open spec fn issued(id: Seq<char>, next_id: u64) -> bool {
    exists|k: nat| 1 <= k < next_id && id == job_id(k)
}

/// Every job has the id of a number already handed out, and ids are distinct.
pub open spec fn registry_wf(next_id: u64, s: Seq<(String, BackgroundJob)>) -> bool {
    &&& next_id >= 1
    &&& forall|i: int| 0 <= i < s.len() ==> #[trigger] issued(s[i].0@, next_id)
    &&& forall|i: int, j: int| 0 <= i < j < s.len() ==> s[i].0@ != s[j].0@
}

/// The job counter after one job: one more, wrapping to 0 after `u64::MAX`.
pub open spec fn next_counter(n: u64) -> u64 {
    if n == u64::MAX { 0 } else { (n + 1) as u64 }
}

/// The jobs after registering `job` under `id` (`HashMap::insert`): the job
/// under that id is replaced, keeping its key, or the job is added.
pub open spec fn inserted(s: Seq<(String, BackgroundJob)>, id: String, job: BackgroundJob) -> Seq<(String, BackgroundJob)> {
    if index_of_id(s, id@) >= 0 {
        s.update(index_of_id(s, id@), (s[index_of_id(s, id@)].0, job))
    } else {
        s.push((id, job))
    }
}

/// Clamps a progress value (millionths) to `[0, PROGRESS_FULL]`.
pub open spec fn clamp_progress(p: i64) -> u32 {
    if p < 0 {
        0
    } else if p > PROGRESS_FULL as i64 {
        PROGRESS_FULL
    } else {
        p as u32
    }
}

/// The job after `update_job`.
pub open spec fn updated(job: BackgroundJob, message: String, progress: i64) -> BackgroundJob {
    BackgroundJob {
        message,
        progress: clamp_progress(progress),
        status: BackgroundJobStatus::Running,
        ..job
    }
}

/// The job after `finish_job` at time `now`.
pub open spec fn finished(job: BackgroundJob, message: String, has_error: bool, now: u64) -> BackgroundJob {
    BackgroundJob {
        message,
        progress: if has_error { job.progress } else { PROGRESS_FULL },
        status: if has_error { BackgroundJobStatus::Error } else { BackgroundJobStatus::Completed },
        finished_at: Some(now),
        ..job
    }
}

/// A job survives a snapshot at `now` unless it completed at least the TTL ago.
pub open spec fn retained(job: BackgroundJob, now: u64) -> bool {
    match job.status {
        BackgroundJobStatus::Completed => match job.finished_at {
            Some(t) => (if now >= t { now - t } else { 0 }) < COMPLETED_TTL_MS,
            None => true,
        },
        _ => true,
    }
}

/// The jobs that survive a snapshot at `now`, in registry order.
pub open spec fn kept(s: Seq<(String, BackgroundJob)>, now: u64) -> Seq<(String, BackgroundJob)>
    decreases s.len(),
{
    if s.len() == 0 {
        s
    } else if retained(s.last().1, now) {
        kept(s.drop_last(), now).push(s.last())
    } else {
        kept(s.drop_last(), now)
    }
}

/// The snapshot of one registry entry.
pub open spec fn snapshot_of(e: (String, BackgroundJob)) -> BackgroundJobSnapshot {
    BackgroundJobSnapshot {
        id: e.0,
        title: e.1.title,
        message: e.1.message,
        progress: e.1.progress,
        status: e.1.status,
        kind: e.1.kind,
        created_at: e.1.created_at,
        finished_at: e.1.finished_at,
    }
}

/// Sorted by creation time.
pub open spec fn chronological(s: Seq<BackgroundJobSnapshot>) -> bool {
    forall|i: int, j: int| 0 <= i <= j < s.len() ==> s[i].created_at <= s[j].created_at
}

/// The icon of a job row: its status when finished, its kind while running.
pub fn icon_name(kind: &JobKind, status: &BackgroundJobStatus) -> (r: &'static str)
    ensures
        r@ == match *status {
            BackgroundJobStatus::Completed => "emblem-ok-symbolic"@,
            BackgroundJobStatus::Error => "dialog-error-symbolic"@,
            BackgroundJobStatus::Running => match *kind {
                JobKind::Download => "folder-download-symbolic"@,
                JobKind::Clip => "brain-augemnted-symbolic"@,
                JobKind::Scan => "folder-open-symbolic"@,
                JobKind::Thumbnail => "image-x-generic-symbolic"@,
                JobKind::Import => "document-import-symbolic"@,
            },
        },
{
    match status {
        BackgroundJobStatus::Completed => "emblem-ok-symbolic",
        BackgroundJobStatus::Error => "dialog-error-symbolic",
        BackgroundJobStatus::Running => match kind {
            JobKind::Download => "folder-download-symbolic",
            JobKind::Clip => "brain-augemnted-symbolic",
            JobKind::Scan => "folder-open-symbolic",
            JobKind::Thumbnail => "image-x-generic-symbolic",
            JobKind::Import => "document-import-symbolic",
        },
    }
}

proof fn lemma_job_id_injective(a: nat, b: nat)
    requires
        job_id(a) == job_id(b),
    ensures
        a == b,
{
    reveal_strlit("job-");
    assert(job_id(a).subrange(4, job_id(a).len() as int) =~= dec(a));
    assert(job_id(b).subrange(4, job_id(b).len() as int) =~= dec(b));
    lemma_dec_digits(a);
    lemma_dec_digits(b);
}

/// Where `index_of_id` points: the first job with the id, or -1 when none has it.
pub proof fn lemma_index_of_id(s: Seq<(String, BackgroundJob)>, id: Seq<char>)
    ensures
        -1 <= index_of_id(s, id) < s.len(),
        index_of_id(s, id) >= 0 ==> s[index_of_id(s, id)].0@ == id,
        index_of_id(s, id) >= 0 ==> forall|j: int| 0 <= j < index_of_id(s, id) ==> s[j].0@ != id,
        index_of_id(s, id) == -1 ==> forall|j: int| 0 <= j < s.len() ==> s[j].0@ != id,
    decreases s.len(),
{
    if s.len() > 0 {
        lemma_index_of_id(s.drop_last(), id);
        assert forall|j: int| 0 <= j < s.len() - 1 implies s[j] == s.drop_last()[j] by {}
    }
}

/// Index of the job with id `id` in `jobs`, if any.
fn find_job(jobs: &Vec<(String, BackgroundJob)>, id: &str) -> (r: Option<usize>)
    ensures
        r matches Some(i) ==> i < jobs@.len(),
        match r {
            Some(i) => index_of_id(jobs@, id@) == i as int,
            None => index_of_id(jobs@, id@) == -1,
        },
{
    let key = id.to_owned();
    let mut i: usize = 0;
    proof {
        lemma_index_of_id(jobs@, id@);
    }
    while i < jobs.len()
        invariant
            key@ == id@,
            i <= jobs@.len(),
            forall|j: int| 0 <= j < i ==> jobs@[j].0@ != id@,
            -1 <= index_of_id(jobs@, id@) < jobs@.len(),
            index_of_id(jobs@, id@) >= 0 ==> jobs@[index_of_id(jobs@, id@)].0@ == id@,
            index_of_id(jobs@, id@) >= 0 ==> forall|j: int| 0 <= j < index_of_id(jobs@, id@) ==> jobs@[j].0@ != id@,
            index_of_id(jobs@, id@) == -1 ==> forall|j: int| 0 <= j < jobs@.len() ==> jobs@[j].0@ != id@,
        decreases jobs@.len() - i,
    {
        if jobs[i].0 == key {
            return Some(i);
        }
        i = i + 1;
    }
    None
}

impl JobRegistry {
    /// An empty registry; the first job gets `job-1`.
    pub fn new() -> (r: Self)
        ensures
            r.next_id == 1,
            r.jobs@ == Seq::<(String, BackgroundJob)>::empty(),
            registry_wf(r.next_id, r.jobs@),
    {
        JobRegistry { next_id: 1, jobs: Vec::new() }
    }

    /// Registers a running job created at `now` and returns its id. The
    /// counter wraps around after `u64::MAX`; a job registered under an id
    /// already present replaces that job (the id is kept).
    pub fn start_job(&mut self, title: String, message: String, kind: JobKind, now: u64) -> (id: String)
        ensures
            id@ == job_id(old(self).next_id as nat),
            final(self).next_id == next_counter(old(self).next_id),
            final(self).jobs@ == inserted(
                old(self).jobs@,
                id,
                BackgroundJob {
                    title,
                    message,
                    progress: 0,
                    status: BackgroundJobStatus::Running,
                    kind,
                    created_at: now,
                    finished_at: None,
                },
            ),
            registry_wf(old(self).next_id, old(self).jobs@) && old(self).next_id < u64::MAX ==> registry_wf(
                final(self).next_id,
                final(self).jobs@,
            ),
    {
        let n = self.next_id;
        let mut v = chars_of("job-");
        let d = fmt_u64(n);
        push_all(&mut v, d.as_slice());
        let id = string_of(v.as_slice());
        self.next_id = n.wrapping_add(1);
        let job = BackgroundJob {
            title,
            message,
            progress: 0,
            status: BackgroundJobStatus::Running,
            kind,
            created_at: now,
            finished_at: None,
        };
        proof {
            if registry_wf(n, old(self).jobs@) && n < u64::MAX {
                start_job_id_is_fresh(n, old(self).jobs@, id, job);
                lemma_index_of_id(old(self).jobs@, id@);
            }
        }
        match find_job(&self.jobs, id.as_str()) {
            Some(i) => {
                let (key, _old_job) = self.jobs.remove(i);
                self.jobs.insert(i, (key, job));
                assert(self.jobs@ =~= old(self).jobs@.update(i as int, (old(self).jobs@[i as int].0, job)));
            },
            None => {
                self.jobs.push((id.clone(), job));
            },
        }
        id
    }

    /// Sets the message and the (clamped) progress of a job and marks it
    /// running; an unknown id changes nothing. Returns whether a job changed.
    pub fn update_job(&mut self, id: &str, message: String, progress: i64) -> (changed: bool)
        ensures
            final(self).next_id == old(self).next_id,
            changed == (index_of_id(old(self).jobs@, id@) >= 0),
            changed ==> final(self).jobs@ == old(self).jobs@.update(
                index_of_id(old(self).jobs@, id@),
                (
                    old(self).jobs@[index_of_id(old(self).jobs@, id@)].0,
                    updated(old(self).jobs@[index_of_id(old(self).jobs@, id@)].1, message, progress),
                ),
            ),
            !changed ==> final(self).jobs@ == old(self).jobs@,
    {
        match find_job(&self.jobs, id) {
            None => false,
            Some(i) => {
                let p: u32 = if progress < 0 {
                    0
                } else if progress > PROGRESS_FULL as i64 {
                    PROGRESS_FULL
                } else {
                    progress as u32
                };
                let (key, old_job) = self.jobs.remove(i);
                let job = BackgroundJob {
                    message,
                    progress: p,
                    status: BackgroundJobStatus::Running,
                    ..old_job
                };
                self.jobs.insert(i, (key, job));
                true
            },
        }
    }

    /// Marks a job finished at `now`: completed (progress full) or in error
    /// (progress kept). An unknown id changes nothing. Returns whether a job changed.
    pub fn finish_job(&mut self, id: &str, message: String, has_error: bool, now: u64) -> (changed: bool)
        ensures
            final(self).next_id == old(self).next_id,
            changed == (index_of_id(old(self).jobs@, id@) >= 0),
            changed ==> final(self).jobs@ == old(self).jobs@.update(
                index_of_id(old(self).jobs@, id@),
                (
                    old(self).jobs@[index_of_id(old(self).jobs@, id@)].0,
                    finished(old(self).jobs@[index_of_id(old(self).jobs@, id@)].1, message, has_error, now),
                ),
            ),
            !changed ==> final(self).jobs@ == old(self).jobs@,
    {
        match find_job(&self.jobs, id) {
            None => false,
            Some(i) => {
                let (key, old_job) = self.jobs.remove(i);
                let progress = if has_error { old_job.progress } else { PROGRESS_FULL };
                let status = if has_error { BackgroundJobStatus::Error } else { BackgroundJobStatus::Completed };
                let job = BackgroundJob {
                    message,
                    progress,
                    status,
                    finished_at: Some(now),
                    ..old_job
                };
                self.jobs.insert(i, (key, job));
                true
            },
        }
    }

    /// Drops the completed jobs whose TTL has passed at `now` and returns the
    /// others, oldest first.
    pub fn snapshot(&mut self, now: u64) -> (r: Vec<BackgroundJobSnapshot>)
        ensures
            final(self).next_id == old(self).next_id,
            final(self).jobs@ == kept(old(self).jobs@, now),
            r@.to_multiset() == kept(old(self).jobs@, now).map_values(|e: (String, BackgroundJob)| snapshot_of(e)).to_multiset(),
            chronological(r@),
    {
        let ghost all = self.jobs@;
        let mut keep: Vec<(String, BackgroundJob)> = Vec::new();
        let mut out: Vec<BackgroundJobSnapshot> = Vec::new();
        let mut pending: Vec<(String, BackgroundJob)> = Vec::new();
        let n = self.jobs.len();
        while self.jobs.len() > 0
            invariant
                n == all.len(),
                self.jobs@ == all.subrange(0, self.jobs@.len() as int),
                pending@.len() == n - self.jobs@.len(),
                forall|j: int| 0 <= j < pending@.len() ==> pending@[j] == all[n - 1 - j],
                self.next_id == old(self).next_id,
            decreases self.jobs.len(),
        {
            let e = self.jobs.pop().unwrap();
            pending.push(e);
        }
        assert(all.subrange(0, 0) =~= Seq::<(String, BackgroundJob)>::empty());
        assert(keep@.map_values(|e: (String, BackgroundJob)| snapshot_of(e)) =~= Seq::<BackgroundJobSnapshot>::empty());
        while pending.len() > 0
            invariant
                n == all.len(),
                pending@.len() <= n,
                forall|j: int| 0 <= j < pending@.len() ==> pending@[j] == all[n - 1 - j],
                keep@ == kept(all.subrange(0, n - pending@.len()), now),
                out@.to_multiset() == keep@.map_values(|e: (String, BackgroundJob)| snapshot_of(e)).to_multiset(),
                chronological(out@),
                self.next_id == old(self).next_id,
                self.jobs@.len() == 0,
            decreases pending.len(),
        {
            let ghost k = n - pending@.len();
            let e = pending.pop().unwrap();
            assert(e == all[k]);
            assert(all.subrange(0, k + 1).drop_last() =~= all.subrange(0, k));
            let keep_it = match e.1.status {
                BackgroundJobStatus::Completed => match e.1.finished_at {
                    Some(t) => (if now >= t { now - t } else { 0 }) < COMPLETED_TTL_MS,
                    None => true,
                },
                _ => true,
            };
            if keep_it {
                let snap = BackgroundJobSnapshot {
                    id: e.0.clone(),
                    title: e.1.title.clone(),
                    message: e.1.message.clone(),
                    progress: e.1.progress,
                    status: e.1.status,
                    kind: e.1.kind,
                    created_at: e.1.created_at,
                    finished_at: e.1.finished_at,
                };
                assert(snap == snapshot_of(e));
                let mut p = out.len();
                while p > 0 && out[p - 1].created_at > snap.created_at
                    invariant
                        p <= out@.len(),
                        forall|j: int| p <= j < out@.len() ==> out@[j].created_at > snap.created_at,
                    decreases p,
                {
                    p = p - 1;
                }
                let ghost old_out = out@;
                let ghost old_keep = keep@;
                out.insert(p, snap);
                keep.push(e);
                proof {
                    assert(keep@.map_values(|e: (String, BackgroundJob)| snapshot_of(e)) =~= old_keep.map_values(
                        |e: (String, BackgroundJob)| snapshot_of(e),
                    ).push(snapshot_of(e)));
                    assert forall|i: int, j: int| 0 <= i <= j < out@.len() implies out@[i].created_at
                        <= out@[j].created_at by {
                        if i < p && j > p {
                            assert(out@[i] == old_out[i] && out@[j] == old_out[j - 1]);
                        } else if i < p && j == p {
                            assert(out@[i] == old_out[i]);
                            assert(p > 0 ==> old_out[p - 1].created_at <= snap.created_at);
                            assert(old_out[i].created_at <= old_out[p - 1].created_at);
                        } else if i < p {
                            assert(out@[i] == old_out[i] && out@[j] == old_out[j]);
                        } else if i == p && j > p {
                            assert(out@[j] == old_out[j - 1]);
                        } else if i > p {
                            assert(out@[i] == old_out[i - 1] && out@[j] == old_out[j - 1]);
                        }
                    }
                }
            }
        }
        assert(all.subrange(0, n as int) =~= all);
        self.jobs = keep;
        out
    }
}

// ── laws ──────────────────────────────────────────────────────────────────

/// A new job's id is not the id of any job in a well-formed registry, and
/// registering it keeps the registry well formed.
pub proof fn start_job_id_is_fresh(next_id: u64, s: Seq<(String, BackgroundJob)>, id: String, job: BackgroundJob)
    requires
        registry_wf(next_id, s),
        next_id < u64::MAX,
        id@ == job_id(next_id as nat),
    ensures
        forall|i: int| 0 <= i < s.len() ==> s[i].0@ != id@,
        registry_wf((next_id + 1) as u64, s.push((id, job))),
{
    assert forall|i: int| 0 <= i < s.len() implies s[i].0@ != id@ by {
        assert(issued(s[i].0@, next_id));
        let k = choose|k: nat| 1 <= k < next_id && s[i].0@ == job_id(k);
        if s[i].0@ == id@ {
            lemma_job_id_injective(k, next_id as nat);
        }
    }
    let t = s.push((id, job));
    assert forall|i: int| 0 <= i < t.len() implies #[trigger] issued(t[i].0@, (next_id + 1) as u64) by {
        if i < s.len() {
            assert(issued(s[i].0@, next_id));
            let k = choose|k: nat| 1 <= k < next_id && s[i].0@ == job_id(k);
            assert(t[i] == s[i]);
            assert(t[i].0@ == job_id(k));
        } else {
            assert(t[i].0@ == job_id(next_id as nat));
        }
    }
}

/// Updating or finishing a job (same id, new data) keeps the registry well formed.
pub proof fn replacing_a_job_keeps_wf(next_id: u64, s: Seq<(String, BackgroundJob)>, i: int, job: BackgroundJob)
    requires
        registry_wf(next_id, s),
        0 <= i < s.len(),
    ensures
        registry_wf(next_id, s.update(i, (s[i].0, job))),
{
    let t = s.update(i, (s[i].0, job));
    assert forall|j: int| 0 <= j < t.len() implies #[trigger] issued(t[j].0@, next_id) by {
        assert(t[j].0 == s[j].0);
        assert(issued(s[j].0@, next_id));
    }
    assert forall|a: int, b: int| 0 <= a < b < t.len() implies t[a].0@ != t[b].0@ by {
        assert(t[a].0 == s[a].0 && t[b].0 == s[b].0);
    }
}

/// A snapshot keeps exactly the jobs that are retained: running jobs and jobs
/// in error always, completed jobs until their TTL has passed.
pub proof fn snapshot_keeps_exactly_retained(s: Seq<(String, BackgroundJob)>, now: u64, e: (String, BackgroundJob))
    ensures
        kept(s, now).contains(e) <==> (s.contains(e) && retained(e.1, now)),
    decreases s.len(),
{
    if s.len() > 0 {
        snapshot_keeps_exactly_retained(s.drop_last(), now, e);
        let d = s.drop_last();
        if s.contains(e) && retained(e.1, now) {
            let i = choose|i: int| 0 <= i < s.len() && s[i] == e;
            if i < s.len() - 1 {
                assert(d[i] == e);
            }
            if retained(s.last().1, now) {
                let k = kept(d, now);
                if s.last() == e {
                    assert(k.push(s.last())[k.len() as int] == e);
                } else {
                    assert(d.contains(e));
                    let m = choose|m: int| 0 <= m < k.len() && k[m] == e;
                    assert(k.push(s.last())[m] == e);
                }
            } else {
                assert(d.contains(e));
            }
        }
        if kept(s, now).contains(e) {
            let k = kept(d, now);
            if retained(s.last().1, now) {
                let m = choose|m: int| 0 <= m < k.len() + 1 && k.push(s.last())[m] == e;
                if m < k.len() {
                    assert(k[m] == e);
                    assert(k.contains(e));
                    let i = choose|i: int| 0 <= i < d.len() && d[i] == e;
                    assert(s[i] == e);
                } else {
                    assert(s[s.len() - 1] == e);
                }
            } else {
                let i = choose|i: int| 0 <= i < d.len() && d[i] == e;
                assert(s[i] == e);
            }
        }
    }
}

} // verus!
