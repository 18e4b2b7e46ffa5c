use babelcomics::download_run::{IssueAction, IssueEvent, IssueFields, IssuePhase, IssueRun};

fn issue(id: Option<i64>, number: &str, cover: Option<&str>) -> IssueFields {
    IssueFields {
        cv_id: id,
        number: Some(number.to_string()),
        name: Some(String::new()),
        description: None,
        api_detail_url: None,
        cover_url: cover.map(|c| c.to_string()),
    }
}

#[test]
fn walk_skips_issues_without_id_and_inserts_only_unknown_ones() {
    let issues = vec![issue(None, "1", None), issue(Some(11), "2", Some("http://c/2.jpg")), issue(Some(12), "3", None)];
    let mut run = IssueRun::new();

    match run.step(&issues, "Saga", 5, IssueEvent::Next) {
        IssueAction::Skip { progress, message } => {
            assert_eq!(progress, 100_000);
            assert_eq!(message, "Número 1 (1/3)");
        }
        other => panic!("unexpected {:?}", other),
    }
    match run.step(&issues, "Saga", 5, IssueEvent::Next) {
        IssueAction::LookUp { progress, message, issue_cv_id } => {
            assert_eq!(progress, 400_000);
            assert_eq!(message, "Número 2 (2/3)");
            assert_eq!(issue_cv_id, 11);
        }
        other => panic!("unexpected {:?}", other),
    }
    // Known issue: no insertion, straight to its cover.
    match run.step(&issues, "Saga", 5, IssueEvent::Found(Some(70))) {
        IssueAction::Covers { info_id, url } => {
            assert_eq!(info_id, 70);
            assert_eq!(url.as_deref(), Some("http://c/2.jpg"));
        }
        other => panic!("unexpected {:?}", other),
    }
    assert!(matches!(run.step(&issues, "Saga", 5, IssueEvent::CoversDone), IssueAction::Continue));
    assert!(matches!(run.step(&issues, "Saga", 5, IssueEvent::Next), IssueAction::LookUp { issue_cv_id: 12, .. }));
    // Unknown issue: inserted.
    match run.step(&issues, "Saga", 5, IssueEvent::Found(None)) {
        IssueAction::Insert(info) => {
            assert_eq!(info.titulo, "Saga #3");
            assert_eq!(info.id_volume, Some(5));
            assert_eq!(info.id_comicvine, Some(12));
        }
        other => panic!("unexpected {:?}", other),
    }
    assert!(matches!(run.step(&issues, "Saga", 5, IssueEvent::Inserted(71)), IssueAction::Covers { info_id: 71, url: None }));
    assert!(matches!(run.step(&issues, "Saga", 5, IssueEvent::CoversDone), IssueAction::Continue));
    match run.step(&issues, "Saga", 5, IssueEvent::Next) {
        IssueAction::Finished { downloaded, total, message } => {
            assert_eq!((downloaded, total), (2, 3));
            assert_eq!(message, "Completado: 2/3 números");
        }
        other => panic!("unexpected {:?}", other),
    }
    assert_eq!(run.phase, IssuePhase::Ready);
}

#[test]
fn out_of_turn_events_are_ignored() {
    let issues = vec![issue(Some(1), "1", None)];
    let mut run = IssueRun::new();
    let before = run;
    assert!(matches!(run.step(&issues, "V", 1, IssueEvent::Inserted(3)), IssueAction::Ignored));
    assert!(matches!(run.step(&issues, "V", 1, IssueEvent::CoversDone), IssueAction::Ignored));
    assert_eq!(run, before);
}
