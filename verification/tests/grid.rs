use babelcomics::grid::{
    bulk_update_prompt, get_selected_ids, next_batch, page_limit, toggle_publisher, update_choice, CardGrid, GridView,
    Paging, CARD_BATCH, ISSUE_BATCH,
};

fn grid_of(n: usize) -> CardGrid {
    let mut g = CardGrid::new();
    for _ in 0..n {
        g.append();
    }
    g
}

#[test]
fn plain_click_selects_only_that_card() {
    let mut g = grid_of(4);
    g.click(1, false, false);
    g.click(2, false, false);
    assert_eq!(g.selected, vec![false, false, true, false]);
    assert_eq!(g.last_clicked, 2);
}

#[test]
fn ctrl_click_toggles_and_twice_restores() {
    let mut g = grid_of(3);
    g.click(0, false, false);
    let before = g.selected.clone();
    g.click(2, true, false);
    assert_eq!(g.selected, vec![true, false, true]);
    assert_eq!(g.last_clicked, 2);
    g.click(2, true, false);
    assert_eq!(g.selected, before);
}

#[test]
fn shift_click_selects_the_span_both_ways() {
    let mut g = grid_of(6);
    g.click(4, false, false);
    g.click(1, false, true);
    assert_eq!(g.selected, vec![false, true, true, true, true, false]);
    assert_eq!(g.last_clicked, 4);
    g.click(5, false, true);
    assert_eq!(g.selected, vec![false, false, false, false, true, true]);
}

#[test]
fn shift_click_without_earlier_click_acts_as_plain_click() {
    let mut g = grid_of(3);
    g.click(2, false, true);
    assert_eq!(g.selected, vec![false, false, true]);
    assert_eq!(g.last_clicked, 2);
}

#[test]
fn volume_ctrl_shift_adds_the_span() {
    let mut g = grid_of(6);
    g.volume_click(0, false, false);
    g.volume_click(3, true, false);
    assert_eq!(g.last_clicked, 3);
    g.volume_click(5, true, true);
    assert_eq!(g.selected, vec![true, false, false, true, true, true]);
    g.volume_click(4, false, true);
    assert_eq!(g.selected, vec![false, false, false, true, true, false]);
}

#[test]
fn volume_ctrl_unselect_still_remembers_card() {
    let mut g = grid_of(3);
    g.volume_click(1, false, false);
    g.volume_click(1, true, false);
    assert_eq!(g.selected, vec![false, false, false]);
    assert_eq!(g.last_clicked, 1);
}

#[test]
fn right_click_selects_unselected_card() {
    let mut g = grid_of(3);
    g.volume_click(0, false, false);
    g.context_click(0, false, false);
    assert_eq!(g.selected, vec![true, false, false]);
    g.context_click(2, false, false);
    assert_eq!(g.selected, vec![false, false, true]);
    g.context_click(1, true, false);
    assert_eq!(g.selected, vec![false, true, true]);
    assert_eq!(g.last_clicked, 0);
}

#[test]
fn selected_ids_follow_display_order() {
    let mut g = grid_of(4);
    g.click(0, false, false);
    g.click(3, true, false);
    assert_eq!(get_selected_ids(&g, &vec![10, 20, 30, 40]), vec![10, 40]);
    assert_eq!(get_selected_ids(&g, &vec![10, 20]), vec![10]);
}

#[test]
fn first_page_asks_for_at_least_fifty() {
    assert_eq!(page_limit(true, 20, 7), 50);
    assert_eq!(page_limit(true, 80, 7), 80);
    assert_eq!(page_limit(false, 80, 7), 7);
}

#[test]
fn paging_moves_offset_and_stops_on_short_page() {
    let mut p = Paging::new();
    assert!(p.begin_load());
    assert!(!p.begin_load());
    assert_eq!(p.finish_load(50, 50, true), GridView::Grid);
    assert_eq!(p.offset, 50);
    assert!(!p.all_loaded && !p.loading);
    assert!(p.begin_load());
    assert_eq!(p.finish_load(12, 50, false), GridView::Unchanged);
    assert_eq!(p.offset, 62);
    assert!(p.all_loaded);
}

#[test]
fn empty_first_page_shows_empty_view() {
    let mut p = Paging::new();
    p.begin_load();
    assert_eq!(p.finish_load(0, 50, true), GridView::Empty);
    assert!(p.all_loaded);
    assert_eq!(p.offset, 0);
}

#[test]
fn cards_are_added_in_batches_of_25() {
    assert_eq!(next_batch(0, 60, CARD_BATCH), (25, true));
    assert_eq!(next_batch(50, 60, CARD_BATCH), (60, false));
    assert_eq!(next_batch(0, 25, CARD_BATCH), (25, false));
    assert_eq!(next_batch(0, 0, CARD_BATCH), (0, false));
    assert_eq!(next_batch(0, 45, ISSUE_BATCH), (20, true));
    assert_eq!(next_batch(40, 45, ISSUE_BATCH), (45, false));
}

#[test]
fn bulk_update_dialog() {
    assert_eq!(bulk_update_prompt(1), "¿Actualizar este volumen desde ComicVine?");
    assert_eq!(bulk_update_prompt(3), "¿Actualizar 3 volúmenes seleccionados desde ComicVine?");
    assert_eq!(update_choice("cancel"), None);
    assert_eq!(update_choice("covers"), Some(true));
    assert_eq!(update_choice("meta"), Some(false));
}

#[test]
fn publisher_filter_toggles() {
    let mut ids = Vec::new();
    assert!(toggle_publisher(&mut ids, 4, true));
    assert!(toggle_publisher(&mut ids, 4, true));
    assert!(toggle_publisher(&mut ids, 9, true));
    assert_eq!(ids, vec![4, 9]);
    assert!(toggle_publisher(&mut ids, 4, false));
    assert_eq!(ids, vec![9]);
    assert!(!toggle_publisher(&mut ids, 9, false));
    assert!(ids.is_empty());
}
