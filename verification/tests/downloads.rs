use babelcomics::background_jobs::{BackgroundJobStatus, JobRegistry};
use babelcomics::downloads::{
    api_key_from_setup, clip_finish, clip_job_title, clip_progress_update, completed_message, cover_action,
    cover_download_name, downloaded_title, issue_count_differs, issue_message, issue_progress, issue_title,
    new_publisher_for, new_volume_for, strip_html, CoverAction, DownloadError, DownloadState, DownloadStatus,
    VolumeDetails,
};
use babelcomics::models::{ClipGenerationProgress, ComicbookInfoCover};

#[test]
fn queueing_a_volume_starts_a_job() {
    let mut jobs = JobRegistry::new();
    let mut st = DownloadState::new();
    assert_eq!(st.add_download(&mut jobs, 0, "x", 1, false, 0), None);
    let key = st.add_download(&mut jobs, 123, "Batman", 10, true, 5);
    assert_eq!(key, Some("123".to_string()));
    assert_eq!(st.active.len(), 1);
    assert_eq!(st.active[0].message, "En cola...");
    assert_eq!(st.active[0].background_job_id, "job-1");
    assert!(matches!(st.active[0].status, DownloadStatus::Queued));
    assert_eq!(jobs.jobs[0].1.title, "Batman");
    assert_eq!(jobs.jobs[0].1.message, "En cola...");
    assert_eq!(st.add_download(&mut jobs, 123, "Batman", 10, true, 6), None);
    assert_eq!(jobs.jobs.len(), 1);
    assert!(st.contains("123"));
    assert!(!st.contains("124"));
}

#[test]
fn status_updates_reach_the_job() {
    let mut jobs = JobRegistry::new();
    let mut st = DownloadState::new();
    st.add_download(&mut jobs, -7, "Spawn", 3, false, 0);
    assert!(st.update_status(&mut jobs, "-7", DownloadStatus::Downloading, 550_000, "Número 1 (1/3)", 1));
    assert_eq!(st.active[0].progress, 550_000);
    assert_eq!(jobs.jobs[0].1.progress, 550_000);
    assert_eq!(jobs.jobs[0].1.message, "Número 1 (1/3)");
    assert!(st.update_status(&mut jobs, "-7", DownloadStatus::Error("boom".into()), 0, "Error: boom", 2));
    assert_eq!(jobs.jobs[0].1.status, BackgroundJobStatus::Error);
    assert!(!st.update_status(&mut jobs, "8", DownloadStatus::Completed, 1_000_000, "x", 3));
}

#[test]
fn completed_download_finishes_its_job() {
    let mut jobs = JobRegistry::new();
    let mut st = DownloadState::new();
    st.add_download(&mut jobs, 9, "V", 1, false, 0);
    st.update_status(&mut jobs, "9", DownloadStatus::Completed, 1_000_000, &completed_message(1, 1), 4);
    assert_eq!(jobs.jobs[0].1.status, BackgroundJobStatus::Completed);
    assert_eq!(jobs.jobs[0].1.message, "Completado: 1/1 números");
    assert_eq!(jobs.jobs[0].1.finished_at, Some(4));
}

#[test]
fn api_key_must_be_set() {
    assert_eq!(api_key_from_setup(None), Err(DownloadError::NoApiKey));
    assert_eq!(api_key_from_setup(Some("")), Err(DownloadError::NoApiKey));
    assert_eq!(api_key_from_setup(Some("k")), Ok("k".to_string()));
    assert_eq!(DownloadError::NoApiKey.message(), "No hay API key configurada");
}

#[test]
fn issue_progress_and_messages() {
    assert_eq!(issue_progress(0, 10), 100_000);
    assert_eq!(issue_progress(5, 10), 550_000);
    assert_eq!(issue_progress(0, 0), 100_000);
    assert_eq!(issue_progress(10, 10), 1_000_000);
    assert_eq!(issue_message(Some("7"), 0, 3), "Número 7 (1/3)");
    assert_eq!(issue_message(None, 2, 3), "Número ? (3/3)");
}

#[test]
fn issue_titles() {
    assert_eq!(issue_title(Some(""), "Batman", Some("3")), "Batman #3");
    assert_eq!(issue_title(None, "Batman", None), "Batman #?");
    assert_eq!(issue_title(Some("Dark"), "Batman", Some("3")), "Dark");
}

#[test]
fn cover_decisions() {
    let covers = vec![
        ComicbookInfoCover { id: 1, id_comicbook_info: 9, url_original: "u".into(), ruta_local: None },
        ComicbookInfoCover { id: 2, id_comicbook_info: 9, url_original: "u".into(), ruta_local: Some("/x".into()) },
    ];
    match cover_action(&covers, "u", true) {
        CoverAction::DownloadMissing(ids) => assert_eq!(ids, vec![1]),
        _ => panic!("expected missing downloads"),
    }
    assert!(matches!(cover_action(&covers, "u", false), CoverAction::Nothing));
    assert!(matches!(cover_action(&covers, "v", true), CoverAction::Insert { download: true }));
    assert!(matches!(cover_action(&vec![], "v", false), CoverAction::Insert { download: false }));
    assert_eq!(cover_download_name("http://x/a/b.jpg", 42), "issue_42.jpg");
    assert_eq!(cover_download_name("noext", 42), "issue_42.noext");
}

#[test]
fn html_is_stripped_and_decoded() {
    assert_eq!(strip_html("<p>Tom &amp; Jerry</p>"), "Tom & Jerry");
    assert_eq!(strip_html("a&nbsp;b &quot;c&quot; &#39;d&#39;"), "a b \"c\" 'd'");
    assert_eq!(strip_html("&amp;lt;"), "<");
    assert_eq!(strip_html("1 < 2 > 0"), "1  0");
    assert_eq!(strip_html(""), "");
}

#[test]
fn volume_details_defaults() {
    let d = VolumeDetails::from_fields(None, None, Some("<b>d</b>".into()), None, None, Some("1999".into()), None, None);
    assert_eq!(d.name, "Desconocido");
    assert_eq!(d.cv_id, 0);
    assert_eq!(d.deck, "d");
    assert_eq!(d.description, "");
    assert_eq!(d.start_year, 1999);
    let d = VolumeDetails::from_fields(Some("V".into()), Some(4), None, None, None, Some("abc".into()), Some(12), None);
    assert_eq!(d.start_year, 0);
    let v = new_volume_for(&d, 3);
    assert_eq!(v.nombre, "V");
    assert_eq!(v.id_comicvine, Some(4));
    assert_eq!(v.cantidad_numeros, 12);
    assert_eq!(v.id_publisher, 3);
}

#[test]
fn publisher_and_counts() {
    let p = new_publisher_for(0, None);
    assert_eq!(p.nombre, "Desconocido");
    assert_eq!(p.id_comicvine, None);
    assert_eq!(new_publisher_for(7, Some("DC".into())).id_comicvine, Some(7));
    assert!(!issue_count_differs(3, 3));
    assert!(issue_count_differs(3, -1));
    assert!(issue_count_differs(2, 3));
}

#[test]
fn indexing_messages() {
    assert_eq!(clip_job_title("X"), "Embeddings CLIP — X");
    assert_eq!(downloaded_title(None, 9), "Volumen 9");
    assert_eq!(downloaded_title(Some("T"), 9), "T");
    let p = ClipGenerationProgress { processed: 1, total: 4, generated: 1, errors: 0 };
    assert_eq!(clip_progress_update(p), ("1/4 portadas indexadas".to_string(), 250_000));
    let p = ClipGenerationProgress { processed: 0, total: 0, generated: 0, errors: 0 };
    assert_eq!(clip_progress_update(p).1, 1_000_000);
    assert_eq!(clip_finish(5, 0), ("5 portadas indexadas".to_string(), false));
    assert_eq!(clip_finish(5, 2), ("5 indexadas, 2 errores".to_string(), true));
}

#[test]
fn issue_record_from_comicvine_fields() {
    let r = babelcomics::downloads::new_issue_info(
        Some(""),
        Some("7"),
        Some("<p>Una <b>gran</b> historia</p>"),
        Some("https://cv/issue/4000-9/"),
        9,
        "Saga",
        3,
    );
    assert_eq!(r.titulo, "Saga #7");
    assert_eq!(r.id_volume, Some(3));
    assert_eq!(r.numero.as_deref(), Some("7"));
    assert_eq!(r.resumen.as_deref(), Some("Una gran historia"));
    assert_eq!(r.id_comicvine, Some(9));
    assert_eq!(r.url_api_detalle.as_deref(), Some("https://cv/issue/4000-9/"));
    let named = babelcomics::downloads::new_issue_info(Some("El fin"), None, None, None, 1, "Saga", 3);
    assert_eq!(named.titulo, "El fin");
    assert!(named.numero.is_none() && named.resumen.is_none() && named.url_api_detalle.is_none());
}
