use babelcomics::tabs::{issue_tab_title, new_tab_choices, TabKind};

#[test]
fn tab_titles_and_icons() {
    assert_eq!(TabKind::Volumes.initial_title(), "Series");
    assert_eq!(TabKind::Volumes.icon_name(), "accessories-dictionary-symbolic");
    assert_eq!(TabKind::ComicDetail(3).initial_title(), "Detalle de cómic");
    assert_eq!(TabKind::VolumeDetail(3).icon_name(), "open-book-symbolic");
    assert_eq!(TabKind::CatalogacionInteligente(vec![1, 2]).initial_title(), "Catalogación Inteligente");
    assert_eq!(TabKind::Selector.icon_name(), "tab-new-symbolic");
}

#[test]
fn new_tab_menu() {
    let labels: Vec<&str> = new_tab_choices().iter().map(|(l, _)| *l).collect();
    assert_eq!(labels, vec!["Comics", "Series", "Editoriales", "Descargas", "ComicVine"]);
    assert_eq!(new_tab_choices()[4].1, TabKind::ComicVineSearch);
}

#[test]
fn issue_tab_title_uses_number() {
    assert_eq!(issue_tab_title(Some("7"), "La caída"), "#7 La caída");
    assert_eq!(issue_tab_title(None, "Anual"), "#? Anual");
}
