//! The card grids of the comics and volumes pages: which cards are selected
//! after a click, which ids a selection stands for, and how the grid is paged
//! in from the database.
use vstd::prelude::*;
use crate::text::{chars_of, string_of, push_all, push_str, fmt_u64, dec};

verus! {

// ── selection ─────────────────────────────────────────────────────────────

/// The cards of a grid, in display order, each selected or not, and the
/// position of the card last clicked (`-1` before any click).
#[derive(Clone, Debug)]
pub struct CardGrid {
    pub selected: Vec<bool>,
    pub last_clicked: i32,
}

/// What a single click on a card does to the selection.
pub open spec fn clicked(sel: Seq<bool>, last: int, idx: int, ctrl: bool, shift: bool) -> (Seq<bool>, int) {
    if shift && last >= 0 {
        let lo = if last <= idx { last } else { idx };
        let hi = if last <= idx { idx } else { last };
        (Seq::new(sel.len(), |i: int| lo <= i <= hi), last)
    } else if ctrl {
        if sel[idx] {
            (sel.update(idx, false), last)
        } else {
            (sel.update(idx, true), idx)
        }
    } else {
        (Seq::new(sel.len(), |i: int| i == idx), idx)
    }
}

/// What a left click on a volume card does: as [`clicked`], except that
/// Shift together with Ctrl adds the span to the selection, Shift counts after
/// any earlier click (`last != -1`), and Ctrl always remembers the card.
pub open spec fn volume_clicked(sel: Seq<bool>, last: int, idx: int, ctrl: bool, shift: bool) -> (Seq<bool>, int) {
    if shift && last != -1 {
        let lo = if last <= idx { last } else { idx };
        let hi = if last <= idx { idx } else { last };
        (Seq::new(sel.len(), |i: int| (lo <= i <= hi) || (ctrl && sel[i])), last)
    } else if ctrl {
        (sel.update(idx, !sel[idx]), idx)
    } else {
        (Seq::new(sel.len(), |i: int| i == idx), idx)
    }
}

/// What a right click on a volume card does before its menu opens: an
/// unselected card becomes selected, alone unless Ctrl or Shift is held.
pub open spec fn context_clicked(sel: Seq<bool>, idx: int, ctrl: bool, shift: bool) -> Seq<bool> {
    if sel[idx] {
        sel
    } else if !ctrl && !shift {
        Seq::new(sel.len(), |i: int| i == idx)
    } else {
        sel.update(idx, true)
    }
}

impl CardGrid {
    /// An empty grid with no card clicked.
    pub fn new() -> (r: Self)
        ensures
            r.selected@.len() == 0,
            r.last_clicked == -1,
    {
        CardGrid { selected: Vec::new(), last_clicked: -1 }
    }

    /// Appends a card, not selected.
    pub fn append(&mut self)
        requires
            old(self).selected@.len() < i32::MAX,
        ensures
            final(self).selected@ == old(self).selected@.push(false),
            final(self).last_clicked == old(self).last_clicked,
    {
        self.selected.push(false);
    }

    /// Clears the selection.
    pub fn deselect_all(&mut self)
        ensures
            final(self).selected@ == Seq::new(old(self).selected@.len(), |i: int| false),
            final(self).last_clicked == old(self).last_clicked,
    {
        let n = self.selected.len();
        let mut i: usize = 0;
        while i < n
            invariant
                n == self.selected@.len(),
                n == old(self).selected@.len(),
                i <= n,
                self.last_clicked == old(self).last_clicked,
                forall|j: int| 0 <= j < i ==> !self.selected@[j],
            decreases n - i,
        {
            self.selected.set(i, false);
            i = i + 1;
        }
        assert(self.selected@ =~= Seq::new(old(self).selected@.len(), |i: int| false));
    }

    /// Selects the cards at positions `from..=to`, leaving the others as they are.
    pub fn select_range(&mut self, from: i32, to: i32)
        ensures
            final(self).selected@.len() == old(self).selected@.len(),
            forall|i: int|
                0 <= i < old(self).selected@.len() ==> #[trigger] final(self).selected@[i] == (old(
                    self,
                ).selected@[i] || (from <= i <= to)),
            final(self).last_clicked == old(self).last_clicked,
    {
        let n = self.selected.len();
        let mut i: usize = 0;
        while i < n
            invariant
                n == self.selected@.len(),
                n == old(self).selected@.len(),
                i <= n,
                self.last_clicked == old(self).last_clicked,
                forall|j: int|
                    0 <= j < i ==> #[trigger] self.selected@[j] == (old(self).selected@[j] || (from <= j
                        <= to)),
                forall|j: int| i <= j < n ==> #[trigger] self.selected@[j] == old(self).selected@[j],
            decreases n - i,
        {
            let after_from = from < 0 || (from as usize) <= i;
            let before_to = to >= 0 && i <= (to as usize);
            if after_from && before_to {
                self.selected.set(i, true);
            }
            i = i + 1;
        }
    }

    /// A single click on the card at `idx`: with Shift after an earlier
    /// click, exactly the cards between the two are selected; with Ctrl the
    /// card is toggled (and remembered when it becomes selected); otherwise
    /// it becomes the only selected card.
    pub fn click(&mut self, idx: i32, ctrl: bool, shift: bool)
        requires
            0 <= idx < old(self).selected@.len(),
            old(self).last_clicked < old(self).selected@.len(),
        ensures
            (final(self).selected@, final(self).last_clicked as int) == clicked(
                old(self).selected@,
                old(self).last_clicked as int,
                idx as int,
                ctrl,
                shift,
            ),
    {
        let i = idx as usize;
        if shift && self.last_clicked >= 0 {
            self.deselect_all();
            let last = self.last_clicked;
            if last <= idx {
                self.select_range(last, idx);
            } else {
                self.select_range(idx, last);
            }
            proof {
                let lo = if last <= idx { last as int } else { idx as int };
                let hi = if last <= idx { idx as int } else { last as int };
                assert(self.selected@ =~= Seq::new(old(self).selected@.len(), |k: int| lo <= k <= hi));
            }
        } else if ctrl {
            if self.selected[i] {
                self.selected.set(i, false);
            } else {
                self.selected.set(i, true);
                self.last_clicked = idx;
            }
        } else {
            self.deselect_all();
            self.selected.set(i, true);
            self.last_clicked = idx;
            assert(self.selected@ =~= Seq::new(old(self).selected@.len(), |k: int| k == idx as int));
        }
    }

    /// A left click on a volume card (see [`volume_clicked`]).
    pub fn volume_click(&mut self, idx: i32, ctrl: bool, shift: bool)
        requires
            0 <= idx < old(self).selected@.len(),
            old(self).last_clicked < old(self).selected@.len(),
        ensures
            (final(self).selected@, final(self).last_clicked as int) == volume_clicked(
                old(self).selected@,
                old(self).last_clicked as int,
                idx as int,
                ctrl,
                shift,
            ),
    {
        let i = idx as usize;
        if shift && self.last_clicked != -1 {
            let last = self.last_clicked;
            if !ctrl {
                self.deselect_all();
            }
            if last <= idx {
                self.select_range(last, idx);
            } else {
                self.select_range(idx, last);
            }
            proof {
                let lo = if last <= idx { last as int } else { idx as int };
                let hi = if last <= idx { idx as int } else { last as int };
                assert(self.selected@ =~= Seq::new(
                    old(self).selected@.len(),
                    |k: int| (lo <= k <= hi) || (ctrl && old(self).selected@[k]),
                ));
            }
        } else if ctrl {
            let was = self.selected[i];
            self.selected.set(i, !was);
            self.last_clicked = idx;
        } else {
            self.deselect_all();
            self.selected.set(i, true);
            self.last_clicked = idx;
            assert(self.selected@ =~= Seq::new(old(self).selected@.len(), |k: int| k == idx as int));
        }
    }

    /// A right click on a volume card (see [`context_clicked`]).
    pub fn context_click(&mut self, idx: i32, ctrl: bool, shift: bool)
        requires
            0 <= idx < old(self).selected@.len(),
        ensures
            final(self).selected@ == context_clicked(old(self).selected@, idx as int, ctrl, shift),
            final(self).last_clicked == old(self).last_clicked,
    {
        let i = idx as usize;
        if !self.selected[i] {
            if !ctrl && !shift {
                self.deselect_all();
                self.selected.set(i, true);
                assert(self.selected@ =~= Seq::new(old(self).selected@.len(), |k: int| k == idx as int));
            } else {
                self.selected.set(i, true);
            }
        }
    }
}

/// The ids of the selected cards, in display order; a card past the end of
/// `ids` stands for no id.
pub open spec fn selected_ids_of(sel: Seq<bool>, ids: Seq<i64>) -> Seq<i64>
    decreases sel.len(),
{
    if sel.len() == 0 {
        Seq::empty()
    } else {
        let k = sel.len() - 1;
        if sel[k] && k < ids.len() {
            selected_ids_of(sel.drop_last(), ids).push(ids[k])
        } else {
            selected_ids_of(sel.drop_last(), ids)
        }
    }
}

/// The ids of the selected cards, `ids` holding the id of each card in display order.
pub fn get_selected_ids(grid: &CardGrid, ids: &Vec<i64>) -> (r: Vec<i64>)
    ensures
        r@ == selected_ids_of(grid.selected@, ids@),
{
    let mut r: Vec<i64> = Vec::new();
    let mut i: usize = 0;
    while i < grid.selected.len()
        invariant
            i <= grid.selected@.len(),
            r@ == selected_ids_of(grid.selected@.subrange(0, i as int), ids@),
        decreases grid.selected@.len() - i,
    {
        assert(grid.selected@.subrange(0, i + 1).drop_last() =~= grid.selected@.subrange(0, i as int));
        if grid.selected[i] && i < ids.len() {
            r.push(ids[i]);
        }
        i = i + 1;
    }
    assert(grid.selected@.subrange(0, grid.selected@.len() as int) =~= grid.selected@);
    r
}

/// A Ctrl-click on a card and a second Ctrl-click on the same card leave the
/// selection as it was.
pub proof fn ctrl_click_twice_restores(sel: Seq<bool>, last: int, idx: int)
    requires
        0 <= idx < sel.len(),
    ensures
        clicked(clicked(sel, last, idx, true, false).0, clicked(sel, last, idx, true, false).1, idx, true, false).0
            == sel,
{
    let first = clicked(sel, last, idx, true, false);
    assert(first.0[idx] == !sel[idx]);
    assert(clicked(first.0, first.1, idx, true, false).0 =~= sel);
}

/// After a Shift-click following an earlier click, exactly the cards between
/// the two clicked positions (both included) are selected.
pub proof fn shift_click_selects_the_span(sel: Seq<bool>, last: int, idx: int, k: int)
    requires
        0 <= last < sel.len(),
        0 <= idx < sel.len(),
        0 <= k < sel.len(),
    ensures
        clicked(sel, last, idx, false, true).0[k] <==> ((last <= k <= idx) || (idx <= k <= last)),
{
}

// ── paging ────────────────────────────────────────────────────────────────

/// How many cards the next page asks for: the first page at least 50 (or the
/// configured page size when larger), the following ones as many as the first.
pub fn page_limit(is_first: bool, items_por_pagina: i64, page_size: i64) -> (r: i64)
    ensures
        r == if is_first {
            if items_por_pagina >= 50 { items_por_pagina } else { 50 }
        } else {
            page_size
        },
{
    if is_first {
        if items_por_pagina >= 50 { items_por_pagina } else { 50 }
    } else {
        page_size
    }
}

/// What the grid shows once a page came back.
#[derive(Clone, Copy, Debug, PartialEq, Eq, Structural)]
pub enum GridView {
    /// The page shows the "nothing here" message.
    Empty,
    /// The page shows the grid.
    Grid,
    /// The view stays as it is (a later page was appended).
    Unchanged,
}

/// The paging state of a grid.
#[derive(Clone, Copy, Debug, PartialEq, Eq, Structural)]
pub struct Paging {
    pub offset: i64,
    pub loading: bool,
    pub all_loaded: bool,
}

impl Paging {
    /// Before the first page.
    pub fn new() -> (r: Self)
        ensures
            r == (Paging { offset: 0, loading: false, all_loaded: false }),
    {
        Paging { offset: 0, loading: false, all_loaded: false }
    }

    /// Starts loading a page: refused (`false`, nothing changes) while another
    /// page is loading.
    pub fn begin_load(&mut self) -> (started: bool)
        ensures
            started == !old(self).loading,
            *final(self) == (Paging { loading: true, ..*old(self) }),
    {
        if self.loading {
            false
        } else {
            self.loading = true;
            true
        }
    }

    /// A page of `received` cards came back for a request of `limit`: an empty
    /// first page shows the empty message and ends paging; otherwise the
    /// offset moves past the received cards, and a short page ends paging.
    pub fn finish_load(&mut self, received: i64, limit: i64, is_first: bool) -> (view: GridView)
        requires
            0 <= received,
            old(self).offset + received <= i64::MAX,
        ensures
            !final(self).loading,
            is_first && received == 0 ==> view == GridView::Empty && final(self).all_loaded
                && final(self).offset == old(self).offset,
            !(is_first && received == 0) ==> {
                &&& final(self).offset == old(self).offset + received
                &&& final(self).all_loaded == (old(self).all_loaded || received < limit)
                &&& view == if is_first { GridView::Grid } else { GridView::Unchanged }
            },
    {
        self.loading = false;
        if is_first && received == 0 {
            self.all_loaded = true;
            return GridView::Empty;
        }
        if received < limit {
            self.all_loaded = true;
        }
        self.offset = self.offset + received;
        if is_first {
            GridView::Grid
        } else {
            GridView::Unchanged
        }
    }
}

/// Comic and volume cards are added in batches of this many per idle call.
pub const CARD_BATCH: usize = 25;

/// Issue cards of a volume's page are added in batches of this many.
pub const ISSUE_BATCH: usize = 20;

/// The end of the next batch of at most `batch` cards from `start` among
/// `len`, and whether another batch follows.
pub fn next_batch(start: usize, len: usize, batch: usize) -> (r: (usize, bool))
    requires
        start <= len,
    ensures
        r.0 == if start + batch < len { start + batch } else { len as int },
        r.1 == (r.0 < len),
{
    let end = if len - start > batch { start + batch } else { len };
    (end, end < len)
}

// ── the volumes page ──────────────────────────────────────────────────────

/// The question asked before updating the selected volumes from ComicVine.
pub fn bulk_update_prompt(count: usize) -> (r: String)
    ensures
        r@ == if count == 1 {
            "¿Actualizar este volumen desde ComicVine?"@
        } else {
            "¿Actualizar "@ + dec(count as nat) + " volúmenes seleccionados desde ComicVine?"@
        },
{
    if count == 1 {
        "¿Actualizar este volumen desde ComicVine?".to_owned()
    } else {
        let mut v = chars_of("¿Actualizar ");
        let d = fmt_u64(count as u64);
        push_all(&mut v, d.as_slice());
        push_str(&mut v, " volúmenes seleccionados desde ComicVine?");
        string_of(v.as_slice())
    }
}

/// The answer of the update dialog: none for `cancel`, else whether covers
/// are downloaded too (`covers`) or only the metadata.
pub fn update_choice(response: &str) -> (r: Option<bool>)
    ensures
        r == if response@ == "cancel"@ { None } else { Some(response@ == "covers"@) },
{
    let r = response.to_owned();
    if r == "cancel".to_owned() {
        None
    } else {
        Some(r == "covers".to_owned())
    }
}

/// The publisher filter after its box for `id` was ticked (`active`) or
/// unticked; returns whether any publisher filters the page.
pub fn toggle_publisher(ids: &mut Vec<i64>, id: i64, active: bool) -> (has_filter: bool)
    ensures
        active ==> final(ids)@ == if old(ids)@.contains(id) { old(ids)@ } else { old(ids)@.push(id) },
        !active ==> final(ids)@ == old(ids)@.filter(|x: i64| x != id),
        has_filter == (final(ids)@.len() > 0),
{
    if active {
        let mut found = false;
        let mut i: usize = 0;
        while i < ids.len()
            invariant
                i <= ids@.len(),
                ids@ == old(ids)@,
                found == (exists|j: int| 0 <= j < i && ids@[j] == id),
            decreases ids@.len() - i,
        {
            if ids[i] == id {
                found = true;
            }
            i = i + 1;
        }
        if !found {
            ids.push(id);
        } else {
            assert(old(ids)@.contains(id));
        }
    } else {
        let mut out: Vec<i64> = Vec::new();
        let mut i: usize = 0;
        while i < ids.len()
            invariant
                i <= ids@.len(),
                ids@ == old(ids)@,
                out@ == ids@.subrange(0, i as int).filter(|x: i64| x != id),
            decreases ids@.len() - i,
        {
            assert(ids@.subrange(0, i + 1).drop_last() =~= ids@.subrange(0, i as int));
            reveal(Seq::filter);
            if ids[i] != id {
                out.push(ids[i]);
            }
            i = i + 1;
        }
        assert(ids@.subrange(0, ids@.len() as int) =~= ids@);
        *ids = out;
    }
    ids.len() > 0
}

} // verus!
