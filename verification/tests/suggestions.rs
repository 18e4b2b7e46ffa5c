use babelcomics::suggestions::{first_cover_hash, hash_thumbnail_order, select_suggestions, HashCandidate, SuggestionSelection};
use babelcomics::thumbnail::CardSize;

fn row(hash: &str, id: i64) -> HashCandidate {
    HashCandidate {
        embedding: hash.to_string(),
        id_comicbook_info: id,
        titulo: format!("issue {}", id),
        numero: Some(id.to_string()),
        id_volume: Some(1),
        nombre_volume: Some("vol".to_string()),
        ruta_cover: None,
        url_original: None,
    }
}

const TARGET: &str = "0000000000000000";

#[test]
fn closest_issues_come_first() {
    let rows = vec![
        row("00000000000000ff", 1), // 8
        row("0000000000000001", 2), // 1
        row("000000000000000f", 3), // 4
    ];
    let r = select_suggestions(TARGET, rows, 10);
    let ids: Vec<i64> = r.iter().map(|s| s.id_comicbook_info).collect();
    assert_eq!(ids, vec![2, 3, 1]);
    let d: Vec<u32> = r.iter().map(|s| s.distance).collect();
    assert_eq!(d, vec![1, 4, 8]);
}

#[test]
fn list_is_cut_to_max_results() {
    let rows = vec![row("00000000000000ff", 1), row("0000000000000001", 2), row("000000000000000f", 3)];
    let r = select_suggestions(TARGET, rows, 2);
    let ids: Vec<i64> = r.iter().map(|s| s.id_comicbook_info).collect();
    assert_eq!(ids, vec![2, 3]);
}

#[test]
fn repeated_issue_is_kept_once() {
    let rows = vec![row("000000000000000f", 7), row("0000000000000001", 7)];
    let r = select_suggestions(TARGET, rows, 5);
    assert_eq!(r.len(), 1);
    assert_eq!(r[0].distance, 4);
}

#[test]
fn invalid_hashes_are_ignored() {
    let rows = vec![row("not-hex", 1), row("0000000000000003", 2)];
    let r = select_suggestions(TARGET, rows, 5);
    assert_eq!(r.len(), 1);
    assert_eq!(r[0].id_comicbook_info, 2);
}

#[test]
fn a_far_row_still_replaces_a_farther_one() {
    // 60 bits away, then 40 bits away
    let rows = vec![row("0fffffffffffffff", 1), row("000000ffffffffff", 2)];
    let r = select_suggestions(TARGET, rows, 1);
    assert_eq!(r.len(), 1);
    assert_eq!(r[0].id_comicbook_info, 2);
    assert_eq!(r[0].distance, 40);
}

#[test]
fn far_rows_are_kept_by_distance() {
    // 40 bits away
    let far = "000000ffffffffff";
    let rows = vec![row("0000000000000001", 1), row(far, 2), row(far, 3)];
    let r = select_suggestions(TARGET, rows.clone(), 2);
    let ids: Vec<i64> = r.iter().map(|s| s.id_comicbook_info).collect();
    assert_eq!(ids, vec![1, 2]);
    let r = select_suggestions(TARGET, rows, 1);
    assert_eq!(r.len(), 1);
    assert_eq!(r[0].id_comicbook_info, 1);
}

#[test]
fn equal_distances_keep_arrival_order() {
    let rows = vec![row("0000000000000001", 1), row("0000000000000002", 2)];
    let r = select_suggestions(TARGET, rows, 5);
    assert_eq!(r[0].id_comicbook_info, 1);
    assert_eq!(r[1].id_comicbook_info, 2);
}

#[test]
fn zero_results_requested() {
    let r = select_suggestions(TARGET, vec![row("0000000000000001", 1)], 0);
    assert!(r.is_empty());
}

#[test]
fn streaming_selection_matches() {
    let mut sel = SuggestionSelection::new(TARGET.to_string(), 1);
    sel.offer(row("000000000000000f", 1));
    sel.offer(row("0000000000000001", 2));
    assert_eq!(sel.best.len(), 1);
    assert_eq!(sel.best[0].id_comicbook_info, 2);
}

#[test]
fn thumbnails_are_tried_medium_first() {
    assert_eq!(hash_thumbnail_order(), vec![CardSize::Medium, CardSize::Large, CardSize::Small]);
    assert_eq!(first_cover_hash(&vec![b"junk".to_vec()]), None);
}
