//! The reader's page cursor: which page is shown, which page waits while
//! another one is being extracted, and which pages are fetched ahead.
//!
//! The reader extracts one page at a time. Asking for a page that is already
//! on disk shows it at once and fetches the next two ahead; asking while an
//! extraction runs remembers the page (the latest request wins) and shows it
//! when the running extraction ends.
use vstd::prelude::*;
use crate::text::{chars_of, string_of, push_str};
use crate::pathutil::{file_name, file_name_of, file_stem, file_stem_of, parent, parent_of, join, join_str, join_path};

verus! {

/// The reader's state: the number of pages, the page shown, whether an
/// extraction is running, and the page asked for meanwhile.
#[derive(Clone, Copy, Debug, PartialEq, Eq, Structural)]
pub struct PageCursor {
    pub count: usize,
    pub current: usize,
    pub extracting: bool,
    pub pending: Option<usize>,
}

/// What the reader does after a page was asked for.
#[derive(Clone, Copy, Debug, PartialEq, Eq, Structural)]
pub enum ShowAction {
    /// No such page: nothing happens.
    Ignore,
    /// The page is on disk: show it and fetch these two pages ahead.
    Display { index: usize, ahead_first: usize, ahead_second: usize },
    /// An extraction is running: the page is shown when it ends.
    Queued,
    /// Extract the page, then show it.
    Extract { index: usize },
}

/// After the extraction of a page ended: whether to show it (it came out and
/// is still the page asked for) and the page asked for meanwhile, if any.
#[derive(Clone, Copy, Debug, PartialEq, Eq, Structural)]
pub struct ExtractionEnd {
    pub display: bool,
    pub next: Option<usize>,
}

/// The cursor after a page was asked for, and what to do.
pub open spec fn show_step(c: PageCursor, index: usize, cached: bool) -> (PageCursor, ShowAction) {
    if index >= c.count {
        (c, ShowAction::Ignore)
    } else if cached {
        (
            PageCursor { current: index, ..c },
            ShowAction::Display { index, ahead_first: (index + 1) as usize, ahead_second: (index + 2) as usize },
        )
    } else if c.extracting {
        (PageCursor { current: index, pending: Some(index), ..c }, ShowAction::Queued)
    } else {
        (PageCursor { current: index, extracting: true, ..c }, ShowAction::Extract { index })
    }
}

impl PageCursor {
    /// A comic whose `count` pages were just listed, before its first page is asked for.
    pub fn listed(count: usize) -> (r: Self)
        ensures
            r == (PageCursor { count, current: 0, extracting: false, pending: None }),
    {
        PageCursor { count, current: 0, extracting: false, pending: None }
    }

    /// The page at `index` is asked for; `cached` tells whether it is already
    /// on disk.
    pub fn show_page(&mut self, index: usize, cached: bool) -> (a: ShowAction)
        requires
            old(self).count < usize::MAX - 1,
        ensures
            (*final(self), a) == show_step(*old(self), index, cached),
    {
        if index >= self.count {
            return ShowAction::Ignore;
        }
        self.current = index;
        if cached {
            return ShowAction::Display { index, ahead_first: index + 1, ahead_second: index + 2 };
        }
        if self.extracting {
            self.pending = Some(index);
            ShowAction::Queued
        } else {
            self.extracting = true;
            ShowAction::Extract { index }
        }
    }

    /// The extraction of the page at `requested` ended (`ok` when the page
    /// came out). The page asked for meanwhile, returned in `next`, is to be
    /// asked for again with [`PageCursor::show_page`].
    pub fn extraction_done(&mut self, requested: usize, ok: bool) -> (r: ExtractionEnd)
        ensures
            r == (ExtractionEnd { display: ok && old(self).current == requested, next: old(self).pending }),
            *final(self) == (PageCursor { extracting: false, pending: None, ..*old(self) }),
    {
        self.extracting = false;
        let next = self.pending;
        self.pending = None;
        ExtractionEnd { display: ok && self.current == requested, next }
    }
}

/// Whether the page at `index` is to be fetched ahead: it exists and is not
/// on disk yet.
pub fn should_prefetch(index: usize, count: usize, cached: bool) -> (r: bool)
    ensures
        r == (index < count && !cached),
{
    index < count && !cached
}

/// While an extraction runs, only the latest page asked for is kept: asking
/// for two pages in a row leaves the second one waiting.
pub proof fn latest_request_wins(c: PageCursor, i: usize, j: usize)
    requires
        c.extracting,
        i < c.count,
        j < c.count,
    ensures
        show_step(show_step(c, i, false).0, j, false).0.pending == Some(j),
        show_step(show_step(c, i, false).0, j, false).1 == ShowAction::Queued,
{
}

/// Asking for a page that does not exist changes nothing.
pub proof fn missing_page_changes_nothing(c: PageCursor, index: usize, cached: bool)
    requires
        index >= c.count,
    ensures
        show_step(c, index, cached) == (c, ShowAction::Ignore),
{
}


// ── where the reader works ────────────────────────────────────────────────

/// The window title and the extraction folders of the reader for a comic.
#[derive(Clone, Debug)]
pub struct ReaderFolders {
    /// `{file name} — Babelcomics` (`Lector` when the path has no file name).
    pub window_title: String,
    /// `{parent}/.babelcomics/{stem}` (`.` and `comic` when missing).
    pub base_dir: String,
    /// `{base_dir}/pages`, where the pages are extracted.
    pub pages_dir: String,
}

/// The extraction folder of a comic: `.babelcomics/{stem}` next to it.
pub open spec fn base_dir_of(path: Seq<char>) -> Seq<char> {
    join_path(
        join_path(
            match parent_of(path) { Some(p) => p, None => "."@ },
            ".babelcomics"@,
        ),
        match file_stem_of(path) { Some(s) => s, None => "comic"@ },
    )
}

/// The window title and extraction folders of the reader for `path`.
pub fn reader_folders(path: &str) -> (r: ReaderFolders)
    ensures
        r.window_title@ == match file_name_of(path@) { Some(n) => n, None => "Lector"@ } + " — Babelcomics"@,
        r.base_dir@ == base_dir_of(path@),
        r.pages_dir@ == join_path(base_dir_of(path@), "pages"@),
{
    let p = chars_of(path);
    let mut title = match file_name(p.as_slice()) {
        Some(n) => n,
        None => chars_of("Lector"),
    };
    push_str(&mut title, " — Babelcomics");
    let par = match parent(p.as_slice()) {
        Some(v) => v,
        None => chars_of("."),
    };
    let stem = match file_stem(p.as_slice()) {
        Some(v) => v,
        None => chars_of("comic"),
    };
    let hidden = join_str(par.as_slice(), ".babelcomics");
    let base = join(hidden.as_slice(), stem.as_slice());
    let pages = join_str(base.as_slice(), "pages");
    ReaderFolders {
        window_title: string_of(title.as_slice()),
        base_dir: string_of(base.as_slice()),
        pages_dir: string_of(pages.as_slice()),
    }
}

} // verus!
