use babelcomics::cv_search::{
    group_by_key, import_status_label, search_mode, volume_group_key, volume_info_label, SearchMode,
};

#[test]
fn search_mode_from_combo() {
    assert_eq!(search_mode(Some("publishers")), SearchMode::Publishers);
    assert_eq!(search_mode(Some("volumes")), SearchMode::Volumes);
    assert_eq!(search_mode(None), SearchMode::Volumes);
}

#[test]
fn group_keys_are_lowercase() {
    assert_eq!(volume_group_key(Some("Batman"), Some("DC Comics")), "batman|dc comics");
    assert_eq!(volume_group_key(Some("X"), None), "x|unknown");
    assert_eq!(volume_group_key(None, None), "|unknown");
}

#[test]
fn grouping_sorts_keys_and_keeps_arrival_order() {
    let keys: Vec<String> = ["saga|image", "batman|dc", "saga|image", "alpha|x", "batman|dc"]
        .iter()
        .map(|s| s.to_string())
        .collect();
    let (gk, gm) = group_by_key(&keys);
    assert_eq!(gk, vec!["alpha|x".to_string(), "batman|dc".to_string(), "saga|image".to_string()]);
    assert_eq!(gm, vec![vec![3], vec![1, 4], vec![0, 2]]);
    let (ek, em) = group_by_key(&Vec::new());
    assert!(ek.is_empty() && em.is_empty());
}

#[test]
fn volume_info_defaults() {
    assert_eq!(volume_info_label(Some("Marvel"), Some("1963")), "Marvel (1963)");
    assert_eq!(volume_info_label(None, None), "Editorial desconocida (N/A)");
}

#[test]
fn import_status_joins_names() {
    let names = vec!["Marvel".to_string(), "DC Comics".to_string()];
    assert_eq!(
        import_status_label(&names, 12, 3),
        "✓ Marvel, DC Comics importada(s). 12 volúmenes nuevos, 3 ya existían."
    );
    assert_eq!(import_status_label(&Vec::new(), 0, 0), "✓  importada(s). 0 volúmenes nuevos, 0 ya existían.");
}
