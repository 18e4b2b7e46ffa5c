use babelcomics::background_jobs::{icon_name, BackgroundJobStatus, JobKind, JobRegistry, PROGRESS_FULL};

#[test]
fn ids_count_up_from_one() {
    let mut reg = JobRegistry::new();
    let a = reg.start_job("A".into(), "m".into(), JobKind::Scan, 0);
    let b = reg.start_job("B".into(), "m".into(), JobKind::Clip, 1);
    assert_eq!(a, "job-1");
    assert_eq!(b, "job-2");
    assert_eq!(reg.jobs.len(), 2);
    assert_eq!(reg.jobs[0].1.status, BackgroundJobStatus::Running);
    assert_eq!(reg.jobs[0].1.progress, 0);
}

#[test]
fn update_clamps_progress() {
    let mut reg = JobRegistry::new();
    let id = reg.start_job("A".into(), "m".into(), JobKind::Download, 0);
    assert!(reg.update_job(&id, "half".into(), 500_000));
    assert_eq!(reg.jobs[0].1.progress, 500_000);
    assert_eq!(reg.jobs[0].1.message, "half");
    assert!(reg.update_job(&id, "over".into(), 3_000_000));
    assert_eq!(reg.jobs[0].1.progress, PROGRESS_FULL);
    assert!(reg.update_job(&id, "under".into(), -5));
    assert_eq!(reg.jobs[0].1.progress, 0);
}

#[test]
fn unknown_job_is_left_alone() {
    let mut reg = JobRegistry::new();
    reg.start_job("A".into(), "m".into(), JobKind::Import, 0);
    assert!(!reg.update_job("job-9", "x".into(), 1));
    assert!(!reg.finish_job("job-9", "x".into(), false, 5));
    assert_eq!(reg.jobs[0].1.message, "m");
}

#[test]
fn finishing_sets_status_and_progress() {
    let mut reg = JobRegistry::new();
    let ok = reg.start_job("A".into(), "m".into(), JobKind::Thumbnail, 0);
    let bad = reg.start_job("B".into(), "m".into(), JobKind::Thumbnail, 0);
    reg.update_job(&bad, "going".into(), 250_000);
    reg.finish_job(&ok, "done".into(), false, 10);
    reg.finish_job(&bad, "failed".into(), true, 11);
    assert_eq!(reg.jobs[0].1.status, BackgroundJobStatus::Completed);
    assert_eq!(reg.jobs[0].1.progress, PROGRESS_FULL);
    assert_eq!(reg.jobs[0].1.finished_at, Some(10));
    assert_eq!(reg.jobs[1].1.status, BackgroundJobStatus::Error);
    assert_eq!(reg.jobs[1].1.progress, 250_000);
}

#[test]
fn snapshot_drops_old_completed_jobs_only() {
    let mut reg = JobRegistry::new();
    let a = reg.start_job("A".into(), "m".into(), JobKind::Scan, 0);
    let b = reg.start_job("B".into(), "m".into(), JobKind::Scan, 0);
    let _c = reg.start_job("C".into(), "m".into(), JobKind::Scan, 0);
    reg.finish_job(&a, "ok".into(), false, 1_000);
    reg.finish_job(&b, "ko".into(), true, 1_000);
    let snap = reg.snapshot(200_000);
    assert_eq!(snap.len(), 3);
    let snap = reg.snapshot(301_000);
    let ids: Vec<&str> = snap.iter().map(|s| s.id.as_str()).collect();
    assert_eq!(ids, vec!["job-2", "job-3"]);
    assert_eq!(reg.jobs.len(), 2);
}

#[test]
fn snapshot_is_chronological() {
    let mut reg = JobRegistry::new();
    reg.start_job("late".into(), "m".into(), JobKind::Scan, 50);
    reg.start_job("early".into(), "m".into(), JobKind::Scan, 10);
    let snap = reg.snapshot(60);
    assert_eq!(snap[0].title, "early");
    assert_eq!(snap[1].title, "late");
}

#[test]
fn icons_by_status_and_kind() {
    assert_eq!(icon_name(&JobKind::Download, &BackgroundJobStatus::Completed), "emblem-ok-symbolic");
    assert_eq!(icon_name(&JobKind::Download, &BackgroundJobStatus::Error), "dialog-error-symbolic");
    assert_eq!(icon_name(&JobKind::Download, &BackgroundJobStatus::Running), "folder-download-symbolic");
    assert_eq!(icon_name(&JobKind::Clip, &BackgroundJobStatus::Running), "brain-augemnted-symbolic");
    assert_eq!(icon_name(&JobKind::Import, &BackgroundJobStatus::Running), "document-import-symbolic");
}
