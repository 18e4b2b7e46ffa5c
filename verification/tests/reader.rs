use babelcomics::reader::{should_prefetch, ExtractionEnd, PageCursor, ShowAction};

#[test]
fn cached_page_is_shown_and_next_two_fetched() {
    let mut c = PageCursor::listed(5);
    assert_eq!(
        c.show_page(2, true),
        ShowAction::Display { index: 2, ahead_first: 3, ahead_second: 4 }
    );
    assert_eq!(c.current, 2);
    assert!(!c.extracting);
}

#[test]
fn missing_page_is_ignored() {
    let mut c = PageCursor::listed(3);
    let before = c;
    assert_eq!(c.show_page(3, false), ShowAction::Ignore);
    assert_eq!(c, before);
}

#[test]
fn request_during_extraction_waits_and_latest_wins() {
    let mut c = PageCursor::listed(10);
    assert_eq!(c.show_page(0, false), ShowAction::Extract { index: 0 });
    assert!(c.extracting);
    assert_eq!(c.show_page(4, false), ShowAction::Queued);
    assert_eq!(c.show_page(6, false), ShowAction::Queued);
    assert_eq!(c.pending, Some(6));
    let end = c.extraction_done(0, true);
    assert_eq!(end, ExtractionEnd { display: false, next: Some(6) });
    assert!(!c.extracting);
    assert_eq!(c.pending, None);
    assert_eq!(c.show_page(6, false), ShowAction::Extract { index: 6 });
    assert_eq!(c.extraction_done(6, true), ExtractionEnd { display: true, next: None });
}

#[test]
fn failed_extraction_is_not_shown() {
    let mut c = PageCursor::listed(2);
    c.show_page(1, false);
    assert_eq!(c.extraction_done(1, false), ExtractionEnd { display: false, next: None });
}

#[test]
fn prefetch_only_existing_uncached_pages() {
    assert!(should_prefetch(3, 5, false));
    assert!(!should_prefetch(3, 5, true));
    assert!(!should_prefetch(5, 5, false));
}

#[test]
fn reader_folders_sit_next_to_the_comic() {
    let f = babelcomics::reader::reader_folders("/lib/Saga/Saga 01.cbz");
    assert_eq!(f.window_title, "Saga 01.cbz — Babelcomics");
    assert_eq!(f.base_dir, "/lib/Saga/.babelcomics/Saga 01");
    assert_eq!(f.pages_dir, "/lib/Saga/.babelcomics/Saga 01/pages");
    let g = babelcomics::reader::reader_folders("x.cbr");
    assert_eq!(g.base_dir, ".babelcomics/x");
    let h = babelcomics::reader::reader_folders("/");
    assert_eq!(h.window_title, "Lector — Babelcomics");
    assert_eq!(h.base_dir, "./.babelcomics/comic");
}

#[test]
fn parent_follows_path_parent() {
    for p in ["/a/b.cbz", "a/b/", "a/./", "./b", "/b", "//a", "/", "", ".", "..", "a/..", "a//b", "/.", "x"] {
        let chars: Vec<char> = p.chars().collect();
        let mine = babelcomics::pathutil::parent(&chars).map(|v| v.into_iter().collect::<String>());
        let std = std::path::Path::new(p).parent().map(|q| q.to_string_lossy().to_string());
        assert_eq!(mine, std, "path {:?}", p);
    }
}
