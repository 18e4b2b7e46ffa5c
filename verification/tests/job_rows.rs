use babelcomics::job_rows::reconcile_rows;

fn ids(v: &[&str]) -> Vec<String> {
    v.iter().map(|s| s.to_string()).collect()
}

#[test]
fn new_jobs_get_rows_and_gone_jobs_lose_them() {
    let u = reconcile_rows(&ids(&["job-1", "job-2"]), &ids(&["job-2", "job-3"]));
    assert_eq!(u.added, ids(&["job-3"]));
    assert_eq!(u.removed, ids(&["job-1"]));
    assert!(u.show_list);
}

#[test]
fn empty_snapshot_clears_the_page() {
    let u = reconcile_rows(&ids(&["job-1"]), &Vec::new());
    assert!(u.added.is_empty());
    assert_eq!(u.removed, ids(&["job-1"]));
    assert!(!u.show_list);
}

#[test]
fn repeated_ids_get_one_row() {
    let u = reconcile_rows(&Vec::new(), &ids(&["job-4", "job-4", "job-5"]));
    assert_eq!(u.added, ids(&["job-4", "job-5"]));
}
