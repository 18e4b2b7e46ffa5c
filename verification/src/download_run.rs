//! The walk over the issues of a volume being downloaded, as a state machine:
//! the caller performs each action (status report, database lookup or
//! insertion, cover handling) and sends back what came of it.
//!
//! For each issue: its progress and message are reported; an issue without
//! ComicVine id is skipped; otherwise it is looked up by that id and inserted
//! only when the lookup found nothing; then its cover is handled (see
//! `downloads::cover_action`) and the issue counts as downloaded.
use vstd::prelude::*;
use crate::text::dec;
use crate::models::NewComicbookInfo;
use crate::downloads::{
    issue_progress, issue_progress_of, issue_message, issue_message_of, new_issue_info, issue_title_of, html_text,
    completed_message,
};

verus! {

/// The fields of an issue listed by ComicVine.
#[derive(Clone, Debug)]
pub struct IssueFields {
    pub cv_id: Option<i64>,
    pub number: Option<String>,
    pub name: Option<String>,
    pub description: Option<String>,
    pub api_detail_url: Option<String>,
    pub cover_url: Option<String>,
}

/// Where the walk stands on the current issue.
#[derive(Clone, Copy, Debug, PartialEq, Eq, Structural)]
pub enum IssuePhase {
    /// Before the current issue.
    Ready,
    /// Waiting for the lookup of the current issue by its ComicVine id.
    LookingUp,
    /// Waiting for the id of the inserted issue.
    Inserting,
    /// Waiting for the cover of the issue stored under this id to be handled.
    Covers(i64),
}

/// The walk: the current issue, how many issues were stored so far, and the phase.
#[derive(Clone, Copy, Debug, PartialEq, Eq, Structural)]
pub struct IssueRun {
    pub index: usize,
    pub downloaded: usize,
    pub phase: IssuePhase,
}

/// What came of the last action.
#[derive(Clone, Copy, Debug, PartialEq, Eq, Structural)]
pub enum IssueEvent {
    /// Go on with the walk.
    Next,
    /// The lookup by ComicVine id found this stored issue, or none.
    Found(Option<i64>),
    /// The issue was inserted under this id.
    Inserted(i64),
    /// The cover was handled.
    CoversDone,
}

/// What the caller does next.
#[derive(Clone, Debug)]
pub enum IssueAction {
    /// Report the progress and message, then send `Next` (the issue has no id).
    Skip { progress: u32, message: String },
    /// Report the progress and message, look the issue up by its ComicVine
    /// id and send `Found`.
    LookUp { progress: u32, message: String, issue_cv_id: i64 },
    /// Insert this issue and send `Inserted`.
    Insert(NewComicbookInfo),
    /// Handle the cover at `url` (when there is one) of the stored issue
    /// `info_id`, then send `CoversDone`.
    Covers { info_id: i64, url: Option<String> },
    /// Send `Next`.
    Continue,
    /// Every issue was walked: `downloaded` of `total` were stored.
    Finished { downloaded: usize, total: usize, message: String },
    /// The event does not fit the phase: nothing to do.
    Ignored,
}

impl IssueRun {
    /// The start of a walk.
    pub fn new() -> (r: Self)
        ensures
            r == (IssueRun { index: 0, downloaded: 0, phase: IssuePhase::Ready }),
    {
        IssueRun { index: 0, downloaded: 0, phase: IssuePhase::Ready }
    }

    /// A consistent walk over `issues`: none walked past the end, every
    /// walked issue with a ComicVine id stored (and only those), and the
    /// issue being handled has an id.
    pub open spec fn wf(self, issues: Seq<IssueFields>) -> bool {
        &&& self.downloaded <= self.index <= issues.len()
        &&& self.downloaded == with_id_upto(issues, self.index as int)
        &&& self.phase != IssuePhase::Ready ==> self.index < issues.len() && issues[self.index as int].cv_id is Some
    }

    /// One step of the walk over `issues` of the volume `volume_name`
    /// (stored under `volume_id`).
    pub fn step(&mut self, issues: &Vec<IssueFields>, volume_name: &str, volume_id: i64, event: IssueEvent) -> (a: IssueAction)
        requires
            old(self).wf(issues@),
        ensures
            final(self).wf(issues@),
            ({
                let s = *old(self);
                let n = issues@.len();
                match (s.phase, event) {
                    (IssuePhase::Ready, IssueEvent::Next) => if s.index >= n {
                        &&& *final(self) == s
                        &&& a matches IssueAction::Finished { downloaded, total, message }
                        &&& downloaded == s.downloaded
                        &&& total == n
                        &&& message@ == "Completado: "@ + dec(s.downloaded as nat) + seq!['/'] + dec(n) + " números"@
                    } else {
                        let f = issues@[s.index as int];
                        let number = match f.number { Some(x) => Some(x@), None => None };
                        match f.cv_id {
                            None => {
                                &&& *final(self) == (IssueRun { index: (s.index + 1) as usize, ..s })
                                &&& a matches IssueAction::Skip { progress, message }
                                &&& progress == issue_progress_of(s.index as nat, n)
                                &&& message@ == issue_message_of(number, s.index as nat, n)
                            },
                            Some(id) => {
                                &&& *final(self) == (IssueRun { phase: IssuePhase::LookingUp, ..s })
                                &&& a matches IssueAction::LookUp { progress, message, issue_cv_id }
                                &&& progress == issue_progress_of(s.index as nat, n)
                                &&& message@ == issue_message_of(number, s.index as nat, n)
                                &&& issue_cv_id == id
                            },
                        }
                    },
                    (IssuePhase::LookingUp, IssueEvent::Found(Some(info_id))) => {
                        &&& *final(self) == (IssueRun { phase: IssuePhase::Covers(info_id), ..s })
                        &&& a matches IssueAction::Covers { info_id: i, url }
                        &&& i == info_id
                        &&& url_matches(url, issues@[s.index as int].cover_url)
                    },
                    (IssuePhase::LookingUp, IssueEvent::Found(None)) => {
                        &&& *final(self) == (IssueRun { phase: IssuePhase::Inserting, ..s })
                        &&& a matches IssueAction::Insert(info)
                        &&& is_new_issue(info, issues@[s.index as int], volume_name@, volume_id)
                    },
                    (IssuePhase::Inserting, IssueEvent::Inserted(info_id)) => {
                        &&& *final(self) == (IssueRun { phase: IssuePhase::Covers(info_id), ..s })
                        &&& a matches IssueAction::Covers { info_id: i, url }
                        &&& i == info_id
                        &&& url_matches(url, issues@[s.index as int].cover_url)
                    },
                    (IssuePhase::Covers(_), IssueEvent::CoversDone) => {
                        &&& *final(self) == (IssueRun {
                            index: (s.index + 1) as usize,
                            downloaded: (s.downloaded + 1) as usize,
                            phase: IssuePhase::Ready,
                        })
                        &&& a is Continue
                    },
                    _ => *final(self) == s && a is Ignored,
                }
            }),
            a is Insert ==> old(self).phase == IssuePhase::LookingUp && event == IssueEvent::Found(None),
    {
        let n = issues.len();
        match (self.phase, event) {
            (IssuePhase::Ready, IssueEvent::Next) => {
                if self.index >= n {
                    return IssueAction::Finished {
                        downloaded: self.downloaded,
                        total: n,
                        message: completed_message(self.downloaded, n),
                    };
                }
                let i = self.index;
                let f = &issues[i];
                let number: Option<&str> = match &f.number {
                    Some(x) => Some(x.as_str()),
                    None => None,
                };
                let progress = issue_progress(i, n);
                let message = issue_message(number, i, n);
                match f.cv_id {
                    None => {
                        self.index = i + 1;
                        IssueAction::Skip { progress, message }
                    },
                    Some(id) => {
                        self.phase = IssuePhase::LookingUp;
                        IssueAction::LookUp { progress, message, issue_cv_id: id }
                    },
                }
            },
            (IssuePhase::LookingUp, IssueEvent::Found(Some(info_id))) => {
                self.phase = IssuePhase::Covers(info_id);
                IssueAction::Covers { info_id, url: copy_text(&issues[self.index].cover_url) }
            },
            (IssuePhase::LookingUp, IssueEvent::Found(None)) => {
                let f = &issues[self.index];
                let info = new_issue_info(
                    as_str(&f.name),
                    as_str(&f.number),
                    as_str(&f.description),
                    as_str(&f.api_detail_url),
                    f.cv_id.unwrap(),
                    volume_name,
                    volume_id,
                );
                self.phase = IssuePhase::Inserting;
                IssueAction::Insert(info)
            },
            (IssuePhase::Inserting, IssueEvent::Inserted(info_id)) => {
                self.phase = IssuePhase::Covers(info_id);
                IssueAction::Covers { info_id, url: copy_text(&issues[self.index].cover_url) }
            },
            (IssuePhase::Covers(_), IssueEvent::CoversDone) => {
                self.index = self.index + 1;
                self.downloaded = self.downloaded + 1;
                self.phase = IssuePhase::Ready;
                IssueAction::Continue
            },
            _ => IssueAction::Ignored,
        }
    }
}

/// Number of issues among the first `n` that have a ComicVine id.
pub open spec fn with_id_upto(issues: Seq<IssueFields>, n: int) -> nat
    decreases n,
{
    if n <= 0 {
        0
    } else {
        with_id_upto(issues, n - 1) + if issues[n - 1].cv_id is Some { 1nat } else { 0nat }
    }
}

proof fn lemma_with_id_filter(issues: Seq<IssueFields>, n: int)
    requires
        0 <= n <= issues.len(),
    ensures
        with_id_upto(issues, n) == issues.take(n).filter(|f: IssueFields| f.cv_id is Some).len(),
    decreases n,
{
    reveal(Seq::filter);
    if n > 0 {
        lemma_with_id_filter(issues, n - 1);
        assert(issues.take(n).drop_last() =~= issues.take(n - 1));
        assert(issues.take(n).last() == issues[n - 1]);
    }
}

/// A walk that has gone past the last issue stored exactly the issues that
/// have a ComicVine id: it reports that many as downloaded.
pub proof fn finished_walk_counts_issues_with_id(run: IssueRun, issues: Seq<IssueFields>)
    requires
        run.wf(issues),
        run.index == issues.len(),
    ensures
        run.downloaded == issues.filter(|f: IssueFields| f.cv_id is Some).len(),
{
    lemma_with_id_filter(issues, issues.len() as int);
    assert(issues.take(issues.len() as int) =~= issues);
}

/// The optional text `a` has the view of `b`.
pub open spec fn url_matches(a: Option<String>, b: Option<String>) -> bool {
    match (a, b) {
        (Some(x), Some(y)) => x@ == y@,
        (None, None) => true,
        _ => false,
    }
}

/// `info` is the record inserted for the issue `f` of the volume.
pub open spec fn is_new_issue(info: NewComicbookInfo, f: IssueFields, volume_name: Seq<char>, volume_id: i64) -> bool {
    &&& info.titulo@ == issue_title_of(
        match f.name { Some(x) => Some(x@), None => None },
        volume_name,
        match f.number { Some(x) => Some(x@), None => None },
    )
    &&& info.id_volume == Some(volume_id)
    &&& url_matches(info.numero, f.number)
    &&& match f.description {
        Some(d) => info.resumen matches Some(x) && x@ == html_text(d@),
        None => info.resumen is None,
    }
    &&& info.id_comicvine == f.cv_id
    &&& url_matches(info.url_api_detalle, f.api_detail_url)
}

fn as_str(o: &Option<String>) -> (r: Option<&str>)
    ensures
        match (r, *o) {
            (Some(x), Some(y)) => x@ == y@,
            (None, None) => true,
            _ => false,
        },
{
    match o {
        Some(s) => Some(s.as_str()),
        None => None,
    }
}

fn copy_text(o: &Option<String>) -> (r: Option<String>)
    ensures
        url_matches(r, *o),
{
    match o {
        Some(s) => Some(s.as_str().to_owned()),
        None => None,
    }
}

} // verus!
