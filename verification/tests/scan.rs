use babelcomics::models::ScanResult;
use babelcomics::paths::{shard_bucket, ThumbnailPaths};
use babelcomics::scan::{
    build_clip_dialog_body, clip_cover_path, clip_error, comic_title, format_scan_summary,
    next_page_index, pending_thumbnails, prev_page_index, scan_directory, thumbnail_error,
    ClipDialogStats, ThumbnailCandidate, WalkEntry,
};

fn entry(path: &str, is_file: bool) -> WalkEntry {
    WalkEntry { path: path.to_string(), is_file }
}

#[test]
fn scan_keeps_only_comic_files_in_order() {
    let entries = vec![
        entry("/lib/a.cbz", true),
        entry("/lib/dir.cbr", false),
        entry("/lib/notes.txt", true),
        entry("/lib/B.CBR", true),
        entry("/lib/c.pdf", true),
    ];
    let found = scan_directory(&entries);
    assert_eq!(found, vec!["/lib/a.cbz".to_string(), "/lib/B.CBR".to_string(), "/lib/c.pdf".to_string()]);
}

#[test]
fn scan_of_nothing_finds_nothing() {
    assert!(scan_directory(&Vec::new()).is_empty());
}

fn candidate(id: i64, error: Option<&str>, exists: bool, scanned: bool) -> ThumbnailCandidate {
    ThumbnailCandidate {
        id_comicbook: id,
        path: format!("/c/{}.cbz", id),
        error_ultimo_escaneo: error.map(|e| e.to_string()),
        thumbnail_exists: exists,
        scanned,
    }
}

#[test]
fn pending_thumbnails_skip_existing_and_failed() {
    let cs = vec![
        candidate(1, None, false, true),
        candidate(2, None, true, true),
        candidate(3, Some("roto"), false, true),
        candidate(4, None, false, false),
    ];
    assert_eq!(
        pending_thumbnails(&cs, true),
        vec![(1, "/c/1.cbz".to_string())]
    );
    assert_eq!(
        pending_thumbnails(&cs, false),
        vec![(1, "/c/1.cbz".to_string()), (4, "/c/4.cbz".to_string())]
    );
}

#[test]
fn error_texts() {
    assert_eq!(thumbnail_error("/x.cbz", "boom"), "Error en '/x.cbz': boom");
    assert_eq!(clip_error(-7, "decode", "bad"), "cover -7: decode: bad");
}

#[test]
fn cover_path_prefers_local_file() {
    let paths = ThumbnailPaths { base: "/t".to_string() };
    assert_eq!(
        clip_cover_path(&paths, "/local/c.jpg", "http://x/y/z.jpg", "Vol", 5),
        Some("/local/c.jpg".to_string())
    );
    assert_eq!(clip_cover_path(&paths, "", "http://x/y/", "Vol", 5), None);
    let built = clip_cover_path(&paths, "", "http://x/y/z.jpg", "Vol", 5).unwrap();
    assert!(built.starts_with("/t/comicbook_info/Vol_5/"));
    assert!(built.ends_with("z.jpg"));
}

#[test]
fn scan_summary_mentions_errors_only_when_present() {
    let ok = ScanResult { total_found: 12, new_inserted: 3, covers_generated: 2, errors: Vec::new() };
    assert_eq!(
        format_scan_summary(&ok),
        "12 cómics encontrados · 3 nuevos · 2 miniaturas generadas"
    );
    let bad = ScanResult {
        total_found: 1,
        new_inserted: 0,
        covers_generated: 0,
        errors: vec!["a".to_string(), "b".to_string()],
    };
    assert_eq!(
        format_scan_summary(&bad),
        "1 cómics encontrados · 0 nuevos · 0 miniaturas generadas · 2 errores"
    );
}

#[test]
fn title_falls_back_to_file_stem() {
    assert_eq!(comic_title(Some("Watchmen"), "/c/w.cbz"), "Watchmen");
    assert_eq!(comic_title(None, "/c/Saga 01.cbz"), "Saga 01");
}

#[test]
fn clip_dialog_texts() {
    let none = ClipDialogStats { total_db: 4, con_archivo: 0, indexadas: 1, total_missing_candidates: 0, total_all_candidates: 0 };
    assert_eq!(
        build_clip_dialog_body(none),
        "Este volumen no tiene portadas candidatas para indexar.\nHay 4 issues en BD y 1 embeddings ya guardados."
    );
    let done = ClipDialogStats { total_db: 4, con_archivo: 4, indexadas: 4, total_missing_candidates: 0, total_all_candidates: 4 };
    assert_eq!(
        build_clip_dialog_body(done),
        "No quedan faltantes en este volumen.\nYa hay 4 portadas indexadas.\nPuedes reindexar 4 portadas candidatas si quieres regenerarlas."
    );
    let some = ClipDialogStats { total_db: 9, con_archivo: 6, indexadas: 2, total_missing_candidates: 4, total_all_candidates: 6 };
    assert_eq!(
        build_clip_dialog_body(some),
        "Faltan 4 portadas por indexar.\nYa hay 2 indexadas de 6 con archivo local.\nSi eliges reindexar, se procesarán 6 portadas candidatas."
    );
}

#[test]
fn reader_page_navigation_stays_in_range() {
    assert_eq!(next_page_index(0, 3), 1);
    assert_eq!(next_page_index(2, 3), 2);
    assert_eq!(prev_page_index(0), 0);
    assert_eq!(prev_page_index(2), 1);
}

#[test]
fn every_bucket_holds_a_thousand_ids() {
    for id in [0i64, 1, 999, 1000, 1999, 123_456] {
        let b = shard_bucket(id);
        assert_eq!(b % 1000, 0);
        assert!(b <= id && id < b + 1000);
    }
}
