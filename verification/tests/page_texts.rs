use babelcomics::page_texts::{
    candidate_issue_text, first_issue_cover, issue_number_label, library_figures, owned_issues,
    page_label, physical_count_label, volume_cover_source, VolumeCoverSource,
};

#[test]
fn issue_labels() {
    assert_eq!(issue_number_label(Some("12")), "#12");
    assert_eq!(issue_number_label(None), "#?");
    assert_eq!(physical_count_label(2), Some("2 físico".to_string()));
    assert_eq!(physical_count_label(0), None);
    assert_eq!(candidate_issue_text(Some("3"), "El regreso"), "#3 — El regreso");
    assert_eq!(candidate_issue_text(None, "Especial"), "Especial");
    assert_eq!(page_label(0), "Página 1");
}

#[test]
fn volume_collection_counts() {
    assert_eq!(owned_issues(&vec![0, 2, 1, 0, -1]), 2);
    assert_eq!(owned_issues(&vec![]), 0);
    assert_eq!(
        first_issue_cover(&vec![None, Some("/a.jpg".to_string()), Some("/b.jpg".to_string())]),
        Some("/a.jpg".to_string())
    );
    assert_eq!(first_issue_cover(&vec![None, None]), None);
}

#[test]
fn volume_cover_fallbacks() {
    assert_eq!(volume_cover_source(true, Some("/a".to_string()), "http://u"), VolumeCoverSource::Thumbnail);
    assert_eq!(
        volume_cover_source(false, Some("/a".to_string()), "http://u"),
        VolumeCoverSource::IssueCover("/a".to_string())
    );
    assert_eq!(volume_cover_source(false, None, "http://u"), VolumeCoverSource::Download("http://u".to_string()));
    assert_eq!(volume_cover_source(false, None, ""), VolumeCoverSource::Nothing);
}

#[test]
fn statistics_figures() {
    let f = library_figures(10, 4, 1, 2, 3, 1, 5);
    assert_eq!(
        f,
        ["10", "6", "4", "1", "2", "3", "1", "5"].map(|s| s.to_string())
    );
}
