use babelcomics::clip_report::{
    clip_finished_panel, clip_progress_panel, clip_run_target, clip_start_panel, clip_toast_message,
    ClipProgressStats,
};
use babelcomics::models::ClipGenerationProgress;
use babelcomics::scan::ClipDialogStats;

fn stats(total: i64, con_archivo: i64, indexadas: i64, pendientes: i64) -> ClipProgressStats {
    ClipProgressStats { total, con_archivo, indexadas, pendientes }
}

#[test]
fn dialog_response_picks_the_target() {
    let s = ClipDialogStats { total_db: 9, con_archivo: 6, indexadas: 2, total_missing_candidates: 4, total_all_candidates: 6 };
    assert_eq!(clip_run_target("cancel", s), None);
    assert_eq!(clip_run_target("all", s), Some((false, 6)));
    assert_eq!(clip_run_target("missing", s), Some((true, 4)));
}

#[test]
fn start_panel() {
    assert_eq!(
        clip_start_panel(4),
        ("0/4 procesados, 4 restantes".to_string(), "0/4".to_string(), false)
    );
    assert!(clip_start_panel(0).2);
}

#[test]
fn progress_panel_counts_remaining() {
    let p = ClipGenerationProgress { processed: 3, total: 4, generated: 2, errors: 1 };
    let (line, bar, frac) = clip_progress_panel(p);
    assert_eq!(line, "3/4 procesados, 1 restantes, 2 generados, 1 errores");
    assert_eq!(bar, "3/4");
    assert_eq!(frac, 750_000);
    let empty = ClipGenerationProgress { processed: 0, total: 0, generated: 0, errors: 0 };
    assert_eq!(clip_progress_panel(empty).2, 1_000_000);
}

#[test]
fn finished_panel_cases() {
    let none: Result<(u32, Vec<String>), String> = Ok((0, vec![]));
    assert_eq!(
        clip_finished_panel(&none, stats(7, 0, 0, 7)),
        (
            "Sin portadas descargadas".to_string(),
            "Hay 7 issues en BD, pero ninguna portada local para indexar.".to_string(),
            "0/0".to_string(),
            false
        )
    );
    let ok: Result<(u32, Vec<String>), String> = Ok((3, vec![]));
    assert_eq!(
        clip_finished_panel(&ok, stats(7, 5, 5, 4)),
        (
            "Embeddings CLIP actualizados".to_string(),
            "3 generados, 0 errores, 1 pendientes en el volumen".to_string(),
            "3".to_string(),
            true
        )
    );
    let bad: Result<(u32, Vec<String>), String> = Ok((1, vec!["x".to_string()]));
    assert_eq!(clip_finished_panel(&bad, stats(7, 5, 5, 0)).0, "Embeddings CLIP finalizados con errores");
    assert_eq!(clip_finished_panel(&bad, stats(7, 5, 5, 0)).1, "1 generados, 1 errores, -1 pendientes en el volumen");
    let err: Result<(u32, Vec<String>), String> = Err("sin modelo".to_string());
    assert_eq!(
        clip_finished_panel(&err, stats(0, 0, 0, 0)),
        ("Error generando embeddings CLIP".to_string(), "sin modelo".to_string(), "Error".to_string(), false)
    );
}

#[test]
fn toast_cases() {
    let s = stats(10, 6, 4, 6);
    assert_eq!(clip_toast_message(&Ok((0, vec![])), stats(10, 0, 0, 10)), "Sin portadas descargadas (10 issues en BD).");
    assert_eq!(clip_toast_message(&Ok((0, vec![])), s), "4 portadas ya indexadas de 6 con archivo local");
    assert_eq!(clip_toast_message(&Ok((2, vec![])), s), "CLIP: 2 portadas indexadas (10 total, 4 pendientes)");
    assert_eq!(
        clip_toast_message(&Ok((2, vec!["a".to_string(), "b".to_string()])), s),
        "CLIP: 2 indexadas, 2 errores (ver log)"
    );
    assert_eq!(clip_toast_message(&Err("boom".to_string()), s), "CLIP error: boom");
}
