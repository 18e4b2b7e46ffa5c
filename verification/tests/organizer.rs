use babelcomics::organizer::{
    batch_versions, duplicate_groups, execute_precheck, find_existing_versions, first_number_in,
    fix_extension_for_mime, is_executable, make_absolute, moved_message, paths_equal, ComicMetadata,
    ComicOrganizationPlan, ComicOrganizer, ExecuteAction, ExecuteRun, ExecuteStats, OrganizationStatus, PlanOutcome,
};

fn meta() -> ComicMetadata {
    ComicMetadata {
        issue_number: Some("1".to_string()),
        volume_id: 3,
        volume_name: "Batman".to_string(),
        volume_year: 2011,
        publisher_name: Some("DC".to_string()),
    }
}

fn plan(id: i64, target: &str, status: OrganizationStatus) -> ComicOrganizationPlan {
    ComicOrganizationPlan {
        comicbook_id: id,
        current_path: format!("/in/{}.cbz", id),
        new_path_relative: String::new(),
        new_path_absolute: target.to_string(),
        filename_normalized: String::new(),
        status,
        message: "m".to_string(),
        version: 0,
        volume_id: 3,
        volume_name: "Batman".to_string(),
    }
}

#[test]
fn sanitize_cleans_names() {
    assert_eq!(ComicOrganizer::sanitize_filename("  Batman: Year/One  "), "Batman- Year-One");
    assert_eq!(ComicOrganizer::sanitize_filename("a*b?c"), "abc");
    assert_eq!(ComicOrganizer::sanitize_filename("x\ty"), "x y");
    assert_eq!(ComicOrganizer::sanitize_filename("a  \n b"), "a b");
    assert_eq!(ComicOrganizer::sanitize_filename("<|>"), "");
}

#[test]
fn first_number_of_labels() {
    assert_eq!(first_number_in("12"), Some(12));
    assert_eq!(first_number_in("Annual 3b 7"), Some(3));
    assert_eq!(first_number_in("special"), None);
    assert_eq!(first_number_in("99999999999"), None);
}

#[test]
fn normalized_names() {
    assert_eq!(ComicOrganizer::generate_normalized_filename("Batman", "12", ".cbz", 0), "Batman 012.cbz");
    assert_eq!(ComicOrganizer::generate_normalized_filename("Batman", "12", ".cbz", 2), "Batman 012_ver02.cbz");
    assert_eq!(ComicOrganizer::generate_normalized_filename("Batman", "1234", ".cbr", 0), "Batman 1234.cbr");
    assert_eq!(ComicOrganizer::generate_normalized_filename("Batman", "special", ".cbz", 0), "Batman special.cbz");
    assert_eq!(ComicOrganizer::generate_normalized_filename("Spawn", "99999999999", "", 0), "Spawn 99999999999");
}

#[test]
fn target_paths() {
    let org = ComicOrganizer::new("/comics".to_string());
    let (rel, abs) = org.generate_target_path(Some("DC"), "Batman", Some(2011), "Batman 012.cbz");
    assert_eq!(rel, "DC/Batman-2011/Batman 012.cbz");
    assert_eq!(abs, "/comics/DC/Batman-2011/Batman 012.cbz");
    let (rel, _) = org.generate_target_path(None, "Batman", Some(0), "f.cbz");
    assert_eq!(rel, "Sin Editorial/Batman/f.cbz");
    let (rel, _) = org.generate_target_path(Some("A/B"), "V: W", None, "f.cbz");
    assert_eq!(rel, "A-B/V- W/f.cbz");
}

#[test]
fn versions_on_disk() {
    let names: Vec<String> = vec![
        "Batman 012_ver03.cbz".into(),
        "Batman 012_ver01.cbz".into(),
        "other.cbz".into(),
        "Batman 012_verX.cbz".into(),
    ];
    assert_eq!(find_existing_versions("Batman 012.cbz", true, true, &names), vec![0, 1, 3]);
    assert_eq!(find_existing_versions("Batman 012.cbz", true, false, &names), vec![1, 3]);
    assert_eq!(find_existing_versions("Batman 012.cbz", false, true, &names), Vec::<u32>::new());
}

#[test]
fn absolute_paths_and_equality() {
    assert_eq!(make_absolute("rel/a.cbz", "/base"), "/base/rel/a.cbz");
    assert_eq!(make_absolute("/abs/a.cbz", "/base"), "/abs/a.cbz");
    assert!(paths_equal("/a//b/./c", "/a/b/c"));
    assert!(paths_equal("/a/b/", "/a/b"));
    assert!(!paths_equal("a/b", "/a/b"));
    assert!(!paths_equal("./a", "a"));
    assert!(!paths_equal("/a/b", "/a/c"));
}

#[test]
fn extension_follows_mime_type() {
    assert_eq!(fix_extension_for_mime(Some("application/zip\n"), ".cbr"), ".cbz");
    assert_eq!(fix_extension_for_mime(Some("application/x-rar"), ".CBR"), ".CBR");
    assert_eq!(fix_extension_for_mime(Some("application/x-7z-compressed"), ".cbz"), ".cb7");
    assert_eq!(fix_extension_for_mime(Some("application/pdf"), ".cbz"), ".pdf");
    assert_eq!(fix_extension_for_mime(Some("text/plain"), ".cbz"), ".cbz");
    assert_eq!(fix_extension_for_mime(None, ".cbz"), ".cbz");
}

#[test]
fn plan_ready_to_move() {
    let org = ComicOrganizer::new("/lib".to_string());
    let p = org.create_plan_for_comic(5, "/lib/old/Bat.cbz", Some(meta()), Some("application/zip"), &vec![]);
    assert_eq!(p.status, OrganizationStatus::Ready);
    assert_eq!(p.new_path_relative, "DC/Batman-2011/Batman 001.cbz");
    assert_eq!(p.new_path_absolute, "/lib/DC/Batman-2011/Batman 001.cbz");
    assert_eq!(p.filename_normalized, "Batman 001.cbz");
    assert_eq!(p.message, "Listo para mover");
    assert_eq!(p.version, 0);
    assert_eq!(p.volume_id, 3);
}

#[test]
fn plan_duplicate_takes_next_version() {
    let org = ComicOrganizer::new("/lib".to_string());
    let p = org.create_plan_for_comic(5, "old/Bat.CBZ", Some(meta()), None, &vec![0, 2]);
    assert_eq!(p.current_path, "/lib/old/Bat.CBZ");
    assert_eq!(p.status, OrganizationStatus::Duplicate);
    assert_eq!(p.filename_normalized, "Batman 001_ver03.cbz");
    assert_eq!(p.version, 3);
    assert_eq!(p.message, "Duplicado detectado, se creará versión 03");
}

#[test]
fn plan_already_in_place_and_not_catalogued() {
    let org = ComicOrganizer::new("/lib".to_string());
    let p = org.create_plan_for_comic(5, "/lib/DC/Batman-2011//Batman 001.cbz", Some(meta()), None, &vec![0]);
    assert_eq!(p.status, OrganizationStatus::AlreadyInPlace);
    assert_eq!(p.message, "Ya está en la ubicación correcta");
    let p = org.create_plan_for_comic(6, "/x/y.cbz", None, None, &vec![]);
    assert_eq!(p.status, OrganizationStatus::NoInfo);
    assert_eq!(p.message, "Cómic sin catalogar (no tiene ComicbookInfo asociado)");
    assert_eq!(p.new_path_absolute, "");
}

#[test]
fn status_codes() {
    assert_eq!(OrganizationStatus::Ready.as_str(), "OK");
    assert_eq!(OrganizationStatus::Duplicate.as_str(), "DUPLICATE");
    assert_eq!(OrganizationStatus::AlreadyInPlace.as_str(), "ALREADY_IN_PLACE");
    assert_eq!(OrganizationStatus::NoInfo.as_str(), "NO_INFO");
    assert_eq!(OrganizationStatus::Error.as_str(), "ERROR");
    assert!(is_executable(OrganizationStatus::Duplicate));
    assert!(!is_executable(OrganizationStatus::NoInfo));
}

#[test]
fn batches_group_shared_targets() {
    let plans = vec![
        plan(1, "/t/a", OrganizationStatus::Ready),
        plan(2, "/t/b", OrganizationStatus::Ready),
        plan(3, "/t/a", OrganizationStatus::Duplicate),
        plan(4, "/t/a", OrganizationStatus::NoInfo),
        plan(5, "/t/b", OrganizationStatus::Ready),
        plan(6, "/t/c", OrganizationStatus::Ready),
    ];
    assert_eq!(duplicate_groups(&plans), vec![vec![0, 2], vec![1, 4]]);
}

#[test]
fn batch_versions_are_distinct() {
    assert_eq!(batch_versions(&vec![], 3), vec![None, Some(1), Some(2)]);
    assert_eq!(batch_versions(&vec![0, 4], 2), vec![Some(5), Some(6)]);
}

#[test]
fn rebatched_plan_gets_its_version() {
    let org = ComicOrganizer::new("/lib".to_string());
    let mut p = plan(1, "/lib/DC/Batman-2011/Batman 001.cbz", OrganizationStatus::Ready);
    org.apply_batch_version(&mut p, &meta(), 2);
    assert_eq!(p.filename_normalized, "Batman 001_ver02.cbz");
    assert_eq!(p.new_path_absolute, "/lib/DC/Batman-2011/Batman 001_ver02.cbz");
    assert_eq!(p.status, OrganizationStatus::Duplicate);
    assert_eq!(p.message, "Duplicado en el lote, se creará versión 02");
}

#[test]
fn precheck_messages() {
    let p = plan(1, "/t/a", OrganizationStatus::NoInfo);
    assert_eq!(execute_precheck(&p, true, false), Err("No se puede ejecutar: m".to_string()));
    let p = plan(1, "/t/a", OrganizationStatus::Ready);
    assert_eq!(execute_precheck(&p, false, false), Err("Archivo origen no existe: /in/1.cbz".to_string()));
    assert_eq!(execute_precheck(&p, true, true), Ok(Some("[DRY RUN] Movería: /in/1.cbz → /t/a".to_string())));
    assert_eq!(execute_precheck(&p, true, false), Ok(None));
    let mut q = p.clone();
    q.filename_normalized = "X 001.cbz".into();
    assert_eq!(moved_message(&q), "Movido: X 001.cbz");
}

#[test]
fn stats_count_every_plan() {
    let st = ExecuteStats::tally(&vec![
        PlanOutcome::Skipped,
        PlanOutcome::Succeeded,
        PlanOutcome::Failed,
        PlanOutcome::Succeeded,
    ]);
    assert_eq!((st.success, st.failed, st.skipped), (2, 1, 1));
}

#[test]
fn a_duplicate_batch_gets_versions_after_the_first() {
    let org = ComicOrganizer::new("/lib".to_string());
    let t = "/lib/DC/Batman-2011/Batman 001.cbz";
    let mut plans = vec![
        plan(1, t, OrganizationStatus::Ready),
        plan(2, "/other", OrganizationStatus::Ready),
        plan(3, t, OrganizationStatus::Ready),
        plan(4, t, OrganizationStatus::Ready),
    ];
    let untouched = plans[1].clone();
    let first = plans[0].clone();
    org.resolve_duplicate_group(&mut plans, &vec![0, 2, 3], &Vec::new(), &vec![Some(meta()), Some(meta()), None]);
    assert_eq!((plans[0].version, &plans[0].new_path_absolute, &plans[0].message), (first.version, &first.new_path_absolute, &first.message));
    assert_eq!((plans[1].version, &plans[1].new_path_absolute), (untouched.version, &untouched.new_path_absolute));
    assert_eq!(plans[2].filename_normalized, "Batman 001_ver01.cbz");
    assert_eq!(plans[2].version, 1);
    assert_eq!(plans[2].status, OrganizationStatus::Duplicate);
    // No metadata: left as it is.
    assert_eq!(plans[3].version, 0);
    // With versions on disk, numbering continues after the highest.
    let mut more = vec![plan(5, t, OrganizationStatus::Ready), plan(6, t, OrganizationStatus::Ready)];
    org.resolve_duplicate_group(&mut more, &vec![0, 1], &vec![2, 1], &vec![Some(meta()), Some(meta())]);
    assert_eq!(more[0].version, 3);
    assert_eq!(more[1].version, 4);
}

#[test]
fn sanitizing_twice_changes_nothing() {
    for s in ["  Batman: Año *Uno*  ", "a\t\tb\n/c", "x  ??  y", "  "] {
        let once = ComicOrganizer::sanitize_filename(s);
        assert_eq!(ComicOrganizer::sanitize_filename(&once), once);
        assert!(!once.contains("  "));
        assert_eq!(once.trim(), once);
        assert!(!once.chars().any(|c| "/\\:*?\"<>|\n\r\t".contains(c)));
    }
}

#[test]
fn a_run_reports_every_plan_once() {
    let plans = vec![
        plan(1, "/t/a", OrganizationStatus::Ready),
        plan(2, "/t/b", OrganizationStatus::NoInfo),
        plan(3, "/t/c", OrganizationStatus::Duplicate),
        plan(4, "/t/d", OrganizationStatus::Error),
    ];
    let mut results = vec![Err("fallo".to_string()), Ok("Movido: a".to_string())];
    let mut run = ExecuteRun::start();
    let mut result = None;
    let mut executed = Vec::new();
    let mut reports = Vec::new();
    let stats = loop {
        match run.step(&plans, result.take()) {
            ExecuteAction::Execute(i) => {
                executed.push(i);
                result = Some(results.pop().unwrap());
            }
            ExecuteAction::Report { index, total, ok, message } => reports.push((index, total, ok, message)),
            ExecuteAction::Done(stats) => break stats,
        }
    };
    assert_eq!(executed, vec![0, 2]);
    assert_eq!(
        reports,
        vec![
            (0, 4, true, "Movido: a".to_string()),
            (1, 4, false, "m".to_string()),
            (2, 4, false, "fallo".to_string()),
            (3, 4, false, "m".to_string()),
        ]
    );
    assert_eq!(stats, ExecuteStats { success: 1, failed: 1, skipped: 2 });
    assert!(matches!(run.step(&plans, None), ExecuteAction::Done(s) if s == stats));
}
