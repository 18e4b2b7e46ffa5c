//! Topological statistics of binary images: 4-connected components and holes.
//!
//! A binary image of `width × height` cells is stored row-major in a byte
//! slice; the cell `(x, y)` lives at index `y * width + x`.
use vstd::prelude::*;
use crate::text::{chars_of, string_of, slice_chars};

verus! {

// ── the grid model ────────────────────────────────────────────────────────

/// Whether the cell `c = (x, y)` lies inside the `w × h` grid.
pub open spec fn in_grid(w: int, h: int, c: (int, int)) -> bool {
    0 <= c.0 < w && 0 <= c.1 < h
}

/// Row-major index of a cell.
pub open spec fn cell_index(w: int, c: (int, int)) -> int {
    c.1 * w + c.0
}

/// Whether `c` is a grid cell holding the value `t`.
pub open spec fn has_value(bin: Seq<u8>, w: int, h: int, t: u8, c: (int, int)) -> bool {
    in_grid(w, h, c) && bin[cell_index(w, c)] == t
}

/// Two cells that share a side.
pub open spec fn adjacent(a: (int, int), b: (int, int)) -> bool {
    ||| (a.1 == b.1 && (a.0 == b.0 + 1 || b.0 == a.0 + 1))
    ||| (a.0 == b.0 && (a.1 == b.1 + 1 || b.1 == a.1 + 1))
}

/// A walk through cells holding `t`, each step to a side neighbour.
pub open spec fn is_path(bin: Seq<u8>, w: int, h: int, t: u8, p: Seq<(int, int)>) -> bool {
    &&& p.len() >= 1
    &&& forall|i: int| 0 <= i < p.len() ==> has_value(bin, w, h, t, #[trigger] p[i])
    &&& forall|i: int| 0 <= i < p.len() - 1 ==> adjacent(#[trigger] p[i], p[i + 1])
}

/// `a` and `b` belong to the same 4-connected component of `t`-cells.
pub open spec fn connected(bin: Seq<u8>, w: int, h: int, t: u8, a: (int, int), b: (int, int)) -> bool {
    exists|p: Seq<(int, int)>| #[trigger] is_path(bin, w, h, t, p) && p[0] == a && p.last() == b
}

/// `r` comes before the cell `(x, y)` in row-major order.
pub open spec fn before(r: (int, int), x: int, y: int) -> bool {
    r.1 < y || (r.1 == y && r.0 < x)
}

/// The cell is the first cell (in row-major order) of its component.
pub open spec fn is_representative(bin: Seq<u8>, w: int, h: int, t: u8, c: (int, int)) -> bool {
    &&& has_value(bin, w, h, t, c)
    &&& forall|r: (int, int)| before(r, c.0, c.1) ==> !#[trigger] connected(bin, w, h, t, r, c)
}

/// Number of representatives among the first `x` cells of row `y`.
pub open spec fn reps_in_row(bin: Seq<u8>, w: int, h: int, t: u8, y: int, x: int) -> nat
    decreases x,
{
    if x <= 0 {
        0
    } else {
        reps_in_row(bin, w, h, t, y, x - 1) + if is_representative(bin, w, h, t, (x - 1, y)) {
            1nat
        } else {
            0nat
        }
    }
}

/// Number of representatives among the first `y` rows.
pub open spec fn reps_in_rows(bin: Seq<u8>, w: int, h: int, t: u8, y: int) -> nat
    decreases y,
{
    if y <= 0 {
        0
    } else {
        reps_in_rows(bin, w, h, t, y - 1) + reps_in_row(bin, w, h, t, y - 1, w)
    }
}

/// The number of 4-connected components of cells holding `t`: each component
/// is counted once, through its first cell in row-major order.
pub open spec fn num_components(bin: Seq<u8>, w: int, h: int, t: u8) -> nat {
    reps_in_rows(bin, w, h, t, h)
}

// ── lemmas on the grid ────────────────────────────────────────────────────

proof fn lemma_cell_index(w: int, h: int, c: (int, int))
    requires
        in_grid(w, h, c),
    ensures
        0 <= c.1 * w,
        0 <= cell_index(w, c) < w * h,
{
    let x = c.0;
    let y = c.1;
    assert(0 <= y * w) by (nonlinear_arith)
        requires
            0 <= y,
            0 <= w,
    ;
    assert(y * w + x < w * h) by (nonlinear_arith)
        requires
            0 <= x < w,
            0 <= y < h,
    ;
}

proof fn lemma_cell_index_injective(w: int, h: int, a: (int, int), b: (int, int))
    requires
        in_grid(w, h, a),
        in_grid(w, h, b),
        cell_index(w, a) == cell_index(w, b),
    ensures
        a == b,
{
    let (x1, y1) = a;
    let (x2, y2) = b;
    if y1 < y2 {
        assert(y1 * w + x1 < y2 * w + x2) by (nonlinear_arith)
            requires
                0 <= x1 < w,
                0 <= x2,
                y1 < y2,
        ;
    } else if y2 < y1 {
        assert(y2 * w + x2 < y1 * w + x1) by (nonlinear_arith)
            requires
                0 <= x2 < w,
                0 <= x1,
                y2 < y1,
        ;
    }
}

proof fn lemma_connected_refl(bin: Seq<u8>, w: int, h: int, t: u8, a: (int, int))
    requires
        has_value(bin, w, h, t, a),
    ensures
        connected(bin, w, h, t, a, a),
{
    let p = seq![a];
    assert(is_path(bin, w, h, t, p));
}

proof fn lemma_connected_extend(
    bin: Seq<u8>,
    w: int,
    h: int,
    t: u8,
    a: (int, int),
    b: (int, int),
    n: (int, int),
)
    requires
        connected(bin, w, h, t, a, b),
        adjacent(b, n),
        has_value(bin, w, h, t, n),
    ensures
        connected(bin, w, h, t, a, n),
{
    let p = choose|p: Seq<(int, int)>| #[trigger] is_path(bin, w, h, t, p) && p[0] == a && p.last() == b;
    let q = p.push(n);
    assert forall|i: int| 0 <= i < q.len() implies has_value(bin, w, h, t, #[trigger] q[i]) by {
        if i < p.len() {
            assert(q[i] == p[i]);
        }
    }
    assert forall|i: int| 0 <= i < q.len() - 1 implies adjacent(#[trigger] q[i], q[i + 1]) by {
        if i < p.len() - 1 {
            assert(q[i] == p[i]);
            assert(q[i + 1] == p[i + 1]);
        }
    }
    assert(is_path(bin, w, h, t, q));
}

proof fn lemma_connected_sym(bin: Seq<u8>, w: int, h: int, t: u8, a: (int, int), b: (int, int))
    requires
        connected(bin, w, h, t, a, b),
    ensures
        connected(bin, w, h, t, b, a),
{
    let p = choose|p: Seq<(int, int)>| #[trigger] is_path(bin, w, h, t, p) && p[0] == a && p.last() == b;
    let q = p.reverse();
    assert forall|i: int| 0 <= i < q.len() implies has_value(bin, w, h, t, #[trigger] q[i]) by {
        assert(q[i] == p[p.len() - 1 - i]);
    }
    assert forall|i: int| 0 <= i < q.len() - 1 implies adjacent(#[trigger] q[i], q[i + 1]) by {
        assert(q[i] == p[p.len() - 1 - i]);
        assert(q[i + 1] == p[p.len() - 2 - i]);
        assert(adjacent(p[p.len() - 2 - i], p[p.len() - 2 - i + 1]));
    }
    assert(is_path(bin, w, h, t, q));
}

proof fn lemma_connected_trans(
    bin: Seq<u8>,
    w: int,
    h: int,
    t: u8,
    a: (int, int),
    b: (int, int),
    c: (int, int),
)
    requires
        connected(bin, w, h, t, a, b),
        connected(bin, w, h, t, b, c),
    ensures
        connected(bin, w, h, t, a, c),
{
    let p1 = choose|p: Seq<(int, int)>| #[trigger] is_path(bin, w, h, t, p) && p[0] == a && p.last() == b;
    let p2 = choose|p: Seq<(int, int)>| #[trigger] is_path(bin, w, h, t, p) && p[0] == b && p.last() == c;
    let q = p1 + p2.drop_first();
    assert forall|i: int| 0 <= i < q.len() implies has_value(bin, w, h, t, #[trigger] q[i]) by {
        if i < p1.len() {
            assert(q[i] == p1[i]);
        } else {
            assert(q[i] == p2[i - p1.len() + 1]);
        }
    }
    assert forall|i: int| 0 <= i < q.len() - 1 implies adjacent(#[trigger] q[i], q[i + 1]) by {
        if i < p1.len() - 1 {
            assert(q[i] == p1[i]);
            assert(q[i + 1] == p1[i + 1]);
        } else if i == p1.len() - 1 {
            assert(q[i] == p1.last());
            assert(q[i + 1] == p2[1]);
            assert(p2[0] == b);
            assert(adjacent(p2[0int], p2[0int + 1]));
        } else {
            assert(q[i] == p2[i - p1.len() + 1]);
            assert(q[i + 1] == p2[i - p1.len() + 2]);
            assert(adjacent(p2[i - p1.len() + 1], p2[i - p1.len() + 1 + 1]));
        }
    }
    if p2.len() == 1 {
        assert(q =~= p1);
    } else {
        assert(q.last() == p2.last());
    }
    assert(is_path(bin, w, h, t, q));
}

/// A set of cells (given by flags indexed like the grid) that is closed under
/// stepping to neighbouring `t`-cells.
pub open spec fn closed_set(vis: Seq<bool>, bin: Seq<u8>, w: int, h: int, t: u8) -> bool {
    forall|c: (int, int), n: (int, int)|
        has_value(bin, w, h, t, c) && #[trigger] vis[cell_index(w, c)] && adjacent(c, n)
            && has_value(bin, w, h, t, n) ==> #[trigger] vis[cell_index(w, n)]
}

proof fn lemma_closed_reaches(
    vis: Seq<bool>,
    bin: Seq<u8>,
    w: int,
    h: int,
    t: u8,
    a: (int, int),
    b: (int, int),
)
    requires
        closed_set(vis, bin, w, h, t),
        vis[cell_index(w, a)],
        connected(bin, w, h, t, a, b),
    ensures
        vis[cell_index(w, b)],
{
    let p = choose|p: Seq<(int, int)>| #[trigger] is_path(bin, w, h, t, p) && p[0] == a && p.last() == b;
    lemma_closed_path(vis, bin, w, h, t, p, p.len() - 1);
}

proof fn lemma_closed_path(vis: Seq<bool>, bin: Seq<u8>, w: int, h: int, t: u8, p: Seq<(int, int)>, i: int)
    requires
        closed_set(vis, bin, w, h, t),
        is_path(bin, w, h, t, p),
        vis[cell_index(w, p[0])],
        0 <= i < p.len(),
    ensures
        vis[cell_index(w, p[i])],
    decreases i,
{
    if i > 0 {
        lemma_closed_path(vis, bin, w, h, t, p, i - 1);
        assert(has_value(bin, w, h, t, p[i - 1]));
        assert(has_value(bin, w, h, t, p[i]));
        assert(adjacent(p[i - 1], p[i - 1 + 1]));
    }
}

/// Number of `false` flags.
pub open spec fn falses(s: Seq<bool>) -> nat
    decreases s.len(),
{
    if s.len() == 0 {
        0
    } else {
        falses(s.drop_last()) + if s.last() {
            0nat
        } else {
            1nat
        }
    }
}

proof fn lemma_falses_set(s: Seq<bool>, i: int)
    requires
        0 <= i < s.len(),
        !s[i],
    ensures
        falses(s.update(i, true)) + 1 == falses(s),
    decreases s.len(),
{
    let u = s.update(i, true);
    if i == s.len() - 1 {
        assert(u.drop_last() =~= s.drop_last());
    } else {
        lemma_falses_set(s.drop_last(), i);
        assert(u.drop_last() =~= s.drop_last().update(i, true));
    }
}

// ── the count against the cells ───────────────────────────────────────────

/// Number of cells holding `t` among the first `x` cells of row `y`.
pub open spec fn cells_in_row(bin: Seq<u8>, w: int, h: int, t: u8, y: int, x: int) -> nat
    decreases x,
{
    if x <= 0 {
        0
    } else {
        cells_in_row(bin, w, h, t, y, x - 1) + if has_value(bin, w, h, t, (x - 1, y)) { 1nat } else { 0nat }
    }
}

/// Number of cells holding `t` in the first `y` rows.
pub open spec fn cells_in_rows(bin: Seq<u8>, w: int, h: int, t: u8, y: int) -> nat
    decreases y,
{
    if y <= 0 {
        0
    } else {
        cells_in_rows(bin, w, h, t, y - 1) + cells_in_row(bin, w, h, t, y - 1, w)
    }
}

/// Number of grid cells holding `t`.
pub open spec fn cell_count(bin: Seq<u8>, w: int, h: int, t: u8) -> nat {
    cells_in_rows(bin, w, h, t, h)
}

proof fn lemma_reps_le_cells_row(bin: Seq<u8>, w: int, h: int, t: u8, y: int, x: int)
    ensures
        reps_in_row(bin, w, h, t, y, x) <= cells_in_row(bin, w, h, t, y, x),
        (forall|c: (int, int)| !#[trigger] has_value(bin, w, h, t, c)) ==> cells_in_row(bin, w, h, t, y, x) == 0,
    decreases x,
{
    if x > 0 {
        lemma_reps_le_cells_row(bin, w, h, t, y, x - 1);
    }
}

proof fn lemma_reps_le_cells(bin: Seq<u8>, w: int, h: int, t: u8, y: int)
    ensures
        reps_in_rows(bin, w, h, t, y) <= cells_in_rows(bin, w, h, t, y),
        (forall|c: (int, int)| !#[trigger] has_value(bin, w, h, t, c)) ==> cells_in_rows(bin, w, h, t, y) == 0,
    decreases y,
{
    if y > 0 {
        lemma_reps_le_cells(bin, w, h, t, y - 1);
        lemma_reps_le_cells_row(bin, w, h, t, y - 1, w);
    }
}

proof fn lemma_before_index(w: int, h: int, r: (int, int), c: (int, int))
    requires
        in_grid(w, h, r),
        in_grid(w, h, c),
        before(r, c.0, c.1),
    ensures
        0 <= cell_index(w, r) < cell_index(w, c),
{
    assert(0 <= r.1 * w + r.0 < c.1 * w + c.0) by (nonlinear_arith)
        requires
            0 <= r.0 < w,
            0 <= c.0 < w,
            0 <= r.1,
            r.1 < c.1 || (r.1 == c.1 && r.0 < c.0),
    ;
}

proof fn lemma_rep_exists(bin: Seq<u8>, w: int, h: int, t: u8, c: (int, int))
    requires
        has_value(bin, w, h, t, c),
    ensures
        exists|r: (int, int)| #[trigger] is_representative(bin, w, h, t, r),
    decreases cell_index(w, c),
{
    if is_representative(bin, w, h, t, c) {
        return;
    }
    let r = choose|r: (int, int)| before(r, c.0, c.1) && #[trigger] connected(bin, w, h, t, r, c);
    lemma_connected_ends(bin, w, h, t, r, c);
    lemma_before_index(w, h, r, c);
    lemma_rep_exists(bin, w, h, t, r);
}

proof fn lemma_rep_counted_row(bin: Seq<u8>, w: int, h: int, t: u8, r: (int, int), x: int)
    requires
        is_representative(bin, w, h, t, r),
        r.0 < x,
    ensures
        reps_in_row(bin, w, h, t, r.1, x) >= 1,
    decreases x,
{
    if x - 1 > r.0 {
        lemma_rep_counted_row(bin, w, h, t, r, x - 1);
    }
}

proof fn lemma_rep_counted(bin: Seq<u8>, w: int, h: int, t: u8, r: (int, int), y: int)
    requires
        is_representative(bin, w, h, t, r),
        r.1 < y,
    ensures
        reps_in_rows(bin, w, h, t, y) >= 1,
    decreases y,
{
    if y - 1 > r.1 {
        lemma_rep_counted(bin, w, h, t, r, y - 1);
    } else {
        lemma_rep_counted_row(bin, w, h, t, r, w);
    }
}

/// There are never more components than cells holding the value, and there
/// are none exactly when no cell holds it.
pub proof fn components_bounded_by_cells(bin: Seq<u8>, w: int, h: int, t: u8)
    ensures
        num_components(bin, w, h, t) <= cell_count(bin, w, h, t),
        num_components(bin, w, h, t) == 0 <==> (forall|c: (int, int)| in_grid(w, h, c) ==> bin[
            #[trigger] cell_index(w, c)
        ] != t),
{
    lemma_reps_le_cells(bin, w, h, t, h);
    if exists|c: (int, int)| in_grid(w, h, c) && bin[#[trigger] cell_index(w, c)] == t {
        let c = choose|c: (int, int)| in_grid(w, h, c) && bin[#[trigger] cell_index(w, c)] == t;
        assert(has_value(bin, w, h, t, c));
        lemma_rep_exists(bin, w, h, t, c);
        let r = choose|r: (int, int)| #[trigger] is_representative(bin, w, h, t, r);
        lemma_rep_counted(bin, w, h, t, r, h);
    } else {
        assert forall|c: (int, int)| !#[trigger] has_value(bin, w, h, t, c) by {
            if has_value(bin, w, h, t, c) {
                assert(in_grid(w, h, c) && bin[cell_index(w, c)] == t);
            }
        }
        lemma_reps_le_cells(bin, w, h, t, h);
    }
}

// ── neighbours and flood fill ─────────────────────────────────────────────

/// The four side neighbours of `(x, y)`, clamped to the grid: a neighbour
/// that would fall outside is replaced by the cell itself.
pub fn neighbors4(x: usize, y: usize, width: usize, height: usize) -> (r: [(usize, usize); 4])
    requires
        width >= 1,
        height >= 1,
        x < usize::MAX,
        y < usize::MAX,
    ensures
        r@[0] == (if x > 0 { (x - 1) as usize } else { 0usize }, y),
        r@[1] == (if x + 1 < width - 1 { (x + 1) as usize } else { (width - 1) as usize }, y),
        r@[2] == (x, if y > 0 { (y - 1) as usize } else { 0usize }),
        r@[3] == (x, if y + 1 < height - 1 { (y + 1) as usize } else { (height - 1) as usize }),
{
    let left = if x > 0 { x - 1 } else { 0 };
    let right = if x + 1 < width - 1 { x + 1 } else { width - 1 };
    let up = if y > 0 { y - 1 } else { 0 };
    let down = if y + 1 < height - 1 { y + 1 } else { height - 1 };
    [(left, y), (right, y), (x, up), (x, down)]
}

/// Whether the queue holds the cell `c`.
pub open spec fn queued(queue: Seq<(usize, usize)>, c: (int, int)) -> bool {
    exists|k: int| 0 <= k < queue.len() && (#[trigger] queue[k].0 as int, queue[k].1 as int) == c
}

/// The state of a flood fill from `s`: every queued cell is a `t`-cell connected
/// to `s`, and the marked cells are the cells marked at the start plus the queued ones.
pub open spec fn fill_state(
    vis0: Seq<bool>,
    vis: Seq<bool>,
    queue: Seq<(usize, usize)>,
    bin: Seq<u8>,
    w: int,
    h: int,
    t: u8,
    s: (int, int),
) -> bool {
    &&& forall|k: int|
        0 <= k < queue.len() ==> in_grid(w, h, (#[trigger] queue[k].0 as int, queue[k].1 as int))
            && connected(bin, w, h, t, s, (queue[k].0 as int, queue[k].1 as int))
    &&& forall|c: (int, int)|
        in_grid(w, h, c) ==> (#[trigger] vis[cell_index(w, c)] <==> (vis0[cell_index(w, c)] || queued(queue, c)))
}

/// Marks `(nx, ny)` and queues it when it holds `target` and is not marked yet.
fn visit_cell(
    binary: &[u8],
    width: usize,
    height: usize,
    target: u8,
    visited: &mut Vec<bool>,
    queue: &mut Vec<(usize, usize)>,
    nx: usize,
    ny: usize,
    Ghost(vis0): Ghost<Seq<bool>>,
    Ghost(s): Ghost<(int, int)>,
    Ghost(from): Ghost<(int, int)>,
)
    requires
        width * height <= binary@.len(),
        old(visited)@.len() == binary@.len(),
        in_grid(width as int, height as int, (nx as int, ny as int)),
        from == (nx as int, ny as int) || adjacent(from, (nx as int, ny as int)),
        connected(binary@, width as int, height as int, target, s, from),
        fill_state(vis0, old(visited)@, old(queue)@, binary@, width as int, height as int, target, s),
    ensures
        final(visited)@.len() == binary@.len(),
        fill_state(vis0, final(visited)@, final(queue)@, binary@, width as int, height as int, target, s),
        final(queue)@.len() >= old(queue)@.len(),
        final(queue)@.subrange(0, old(queue)@.len() as int) == old(queue)@,
        forall|i: int| 0 <= i < old(visited)@.len() && old(visited)@[i] ==> #[trigger] final(visited)@[i],
        falses(final(visited)@) + final(queue)@.len() == falses(old(visited)@) + old(queue)@.len(),
        binary@[cell_index(width as int, (nx as int, ny as int))] == target ==> final(visited)@[cell_index(
            width as int,
            (nx as int, ny as int),
        )],
{
    let ghost w = width as int;
    let ghost h = height as int;
    let ghost n = (nx as int, ny as int);
    proof {
        lemma_cell_index(w, h, n);
        assert(binary@.len() == binary.len());
    }
    let nidx = ny * width + nx;
    if !visited[nidx] && binary[nidx] == target {
        let ghost v_old = visited@;
        let ghost q_old = queue@;
        visited.set(nidx, true);
        queue.push((nx, ny));
        proof {
            lemma_falses_set(v_old, cell_index(w, n));
            if from != n {
                lemma_connected_extend(binary@, w, h, target, s, from, n);
            }
            assert(queue@.subrange(0, q_old.len() as int) =~= q_old);
            assert forall|k: int| 0 <= k < queue@.len() implies in_grid(
                w,
                h,
                (#[trigger] queue@[k].0 as int, queue@[k].1 as int),
            ) && connected(binary@, w, h, target, s, (queue@[k].0 as int, queue@[k].1 as int)) by {
                if k < q_old.len() {
                    assert(queue@[k] == q_old[k]);
                }
            }
            assert forall|c: (int, int)| in_grid(w, h, c) implies (#[trigger] visited@[cell_index(w, c)]
                <==> (vis0[cell_index(w, c)] || queued(queue@, c))) by {
                lemma_cell_index(w, h, c);
                if c == n {
                    assert(queue@[q_old.len() as int] == (nx, ny));
                } else {
                    if cell_index(w, c) == cell_index(w, n) {
                        lemma_cell_index_injective(w, h, c, n);
                    }
                    assert(visited@[cell_index(w, c)] == v_old[cell_index(w, c)]);
                    if queued(q_old, c) {
                        let k = choose|k: int| 0 <= k < q_old.len() && (#[trigger] q_old[k].0 as int, q_old[k].1 as int) == c;
                        assert(queue@[k] == q_old[k]);
                    }
                    if queued(queue@, c) {
                        let k = choose|k: int| 0 <= k < queue@.len() && (#[trigger] queue@[k].0 as int, queue@[k].1 as int) == c;
                        assert(k < q_old.len());
                        assert(queue@[k] == q_old[k]);
                    }
                }
            }
        }
    } else {
        assert(queue@.subrange(0, queue@.len() as int) =~= queue@);
    }
}

/// Marks every cell of the component of `(sx, sy)`; nothing else changes.
fn flood_fill(
    binary: &[u8],
    width: usize,
    height: usize,
    target: u8,
    visited: &mut Vec<bool>,
    sx: usize,
    sy: usize,
)
    requires
        width * height <= binary@.len(),
        old(visited)@.len() == binary@.len(),
        in_grid(width as int, height as int, (sx as int, sy as int)),
        binary@[cell_index(width as int, (sx as int, sy as int))] == target,
        !old(visited)@[cell_index(width as int, (sx as int, sy as int))],
        closed_set(old(visited)@, binary@, width as int, height as int, target),
    ensures
        final(visited)@.len() == binary@.len(),
        closed_set(final(visited)@, binary@, width as int, height as int, target),
        forall|c: (int, int)|
            in_grid(width as int, height as int, c) ==> (#[trigger] final(visited)@[cell_index(width as int, c)]
                <==> (old(visited)@[cell_index(width as int, c)] || connected(
                binary@,
                width as int,
                height as int,
                target,
                (sx as int, sy as int),
                c,
            ))),
{
    let ghost w = width as int;
    let ghost h = height as int;
    let ghost bin = binary@;
    let ghost s = (sx as int, sy as int);
    let ghost vis0 = visited@;
    proof {
        lemma_cell_index(w, h, s);
        lemma_connected_refl(bin, w, h, target, s);
        assert(binary@.len() == binary.len());
    }
    let sidx = sy * width + sx;
    visited.set(sidx, true);
    let mut queue: Vec<(usize, usize)> = Vec::new();
    queue.push((sx, sy));
    let mut head: usize = 0;
    proof {
        assert forall|c: (int, int)| in_grid(w, h, c) implies (#[trigger] visited@[cell_index(w, c)]
            <==> (vis0[cell_index(w, c)] || queued(queue@, c))) by {
            lemma_cell_index(w, h, c);
            if c == s {
                assert(queue@[0] == (sx, sy));
            } else {
                if cell_index(w, c) == cell_index(w, s) {
                    lemma_cell_index_injective(w, h, c, s);
                }
                if queued(queue@, c) {
                    let k = choose|k: int| 0 <= k < queue@.len() && (#[trigger] queue@[k].0 as int, queue@[k].1 as int) == c;
                    assert(k == 0);
                }
            }
        }
    }
    while head < queue.len()
        invariant
            w == width,
            h == height,
            bin == binary@,
            s == (sx as int, sy as int),
            width * height <= binary@.len(),
            visited@.len() == binary@.len(),
            vis0.len() == binary@.len(),
            1 <= queue@.len(),
            queue@[0] == (sx, sy),
            head <= queue@.len(),
            closed_set(vis0, bin, w, h, target),
            fill_state(vis0, visited@, queue@, bin, w, h, target, s),
            forall|k: int, n: (int, int)|
                0 <= k < head && adjacent((#[trigger] queue@[k].0 as int, queue@[k].1 as int), n)
                    && has_value(bin, w, h, target, n) ==> #[trigger] visited@[cell_index(w, n)],
        decreases falses(visited@) * 5 + (queue@.len() - head),
    {
        let (cx, cy) = queue[head];
        let ghost c = (cx as int, cy as int);
        assert(in_grid(w, h, (queue@[head as int].0 as int, queue@[head as int].1 as int)));
        assert(connected(bin, w, h, target, s, c));
        let nb = neighbors4(cx, cy, width, height);
        let ghost q_before = queue@;
        let ghost v_before = visited@;
        visit_cell(binary, width, height, target, visited, &mut queue, nb[0].0, nb[0].1, Ghost(vis0), Ghost(s), Ghost(c));
        let ghost q1 = queue@;
        let ghost v1 = visited@;
        visit_cell(binary, width, height, target, visited, &mut queue, nb[1].0, nb[1].1, Ghost(vis0), Ghost(s), Ghost(c));
        let ghost q2 = queue@;
        let ghost v2 = visited@;
        visit_cell(binary, width, height, target, visited, &mut queue, nb[2].0, nb[2].1, Ghost(vis0), Ghost(s), Ghost(c));
        let ghost q3 = queue@;
        let ghost v3 = visited@;
        visit_cell(binary, width, height, target, visited, &mut queue, nb[3].0, nb[3].1, Ghost(vis0), Ghost(s), Ghost(c));
        proof {
            // the processed prefix of the queue is unchanged, marks only grow
            assert forall|k: int| 0 <= k < q_before.len() implies #[trigger] queue@[k] == q_before[k] by {
                assert(q1.subrange(0, q_before.len() as int)[k] == q_before[k]);
                assert(q2.subrange(0, q1.len() as int)[k] == q1[k]);
                assert(q3.subrange(0, q2.len() as int)[k] == q2[k]);
                assert(queue@.subrange(0, q3.len() as int)[k] == q3[k]);
            }
            assert forall|i: int| 0 <= i < v_before.len() && v_before[i] implies #[trigger] visited@[i] by {
                assert(v1[i]);
                assert(v2[i]);
                assert(v3[i]);
            }
            assert forall|k: int, n: (int, int)|
                0 <= k < head + 1 && adjacent((#[trigger] queue@[k].0 as int, queue@[k].1 as int), n)
                    && has_value(bin, w, h, target, n) implies #[trigger] visited@[cell_index(w, n)] by {
                assert(queue@[k] == q_before[k]);
                if k < head {
                    lemma_cell_index(w, h, n);
                    assert(v_before[cell_index(w, n)]);
                } else {
                    assert(k == head);
                    lemma_cell_index(w, h, n);
                    if n == (nb@[0].0 as int, nb@[0].1 as int) {
                        assert(v1[cell_index(w, n)]);
                        assert(v2[cell_index(w, n)]);
                        assert(v3[cell_index(w, n)]);
                    } else if n == (nb@[1].0 as int, nb@[1].1 as int) {
                        assert(v2[cell_index(w, n)]);
                        assert(v3[cell_index(w, n)]);
                    } else if n == (nb@[2].0 as int, nb@[2].1 as int) {
                        assert(v3[cell_index(w, n)]);
                    } else {
                        assert(n == (nb@[3].0 as int, nb@[3].1 as int));
                    }
                }
            }
            assert(queue@[0] == q_before[0]);
        }
        head = head + 1;
    }
    proof {
        assert forall|c: (int, int), n: (int, int)|
            has_value(bin, w, h, target, c) && #[trigger] visited@[cell_index(w, c)] && adjacent(c, n)
                && has_value(bin, w, h, target, n) implies #[trigger] visited@[cell_index(w, n)] by {
            lemma_cell_index(w, h, n);
            if vis0[cell_index(w, c)] {
                assert(vis0[cell_index(w, n)]);
            } else {
                assert(queued(queue@, c));
                let k = choose|k: int| 0 <= k < queue@.len() && (#[trigger] queue@[k].0 as int, queue@[k].1 as int) == c;
                assert(adjacent((queue@[k].0 as int, queue@[k].1 as int), n));
            }
        }
        assert forall|c: (int, int)| in_grid(w, h, c) implies (#[trigger] visited@[cell_index(w, c)]
            <==> (vis0[cell_index(w, c)] || connected(bin, w, h, target, s, c))) by {
            if connected(bin, w, h, target, s, c) {
                assert(visited@[cell_index(w, s)]) by {
                    assert(queued(queue@, s)) by {
                        assert((queue@[0].0 as int, queue@[0].1 as int) == s);
                    }
                }
                lemma_closed_reaches(visited@, bin, w, h, target, s, c);
            }
            if queued(queue@, c) {
                let k = choose|k: int| 0 <= k < queue@.len() && (#[trigger] queue@[k].0 as int, queue@[k].1 as int) == c;
            }
        }
    }
}

/// Some cell before `(x, y)` in row-major order is connected to `c`.
pub open spec fn reached(bin: Seq<u8>, w: int, h: int, t: u8, c: (int, int), x: int, y: int) -> bool {
    exists|r: (int, int)| before(r, x, y) && #[trigger] connected(bin, w, h, t, r, c)
}

proof fn lemma_connected_ends(bin: Seq<u8>, w: int, h: int, t: u8, a: (int, int), b: (int, int))
    requires
        connected(bin, w, h, t, a, b),
    ensures
        has_value(bin, w, h, t, a),
        has_value(bin, w, h, t, b),
{
    let p = choose|p: Seq<(int, int)>| #[trigger] is_path(bin, w, h, t, p) && p[0] == a && p.last() == b;
    assert(has_value(bin, w, h, t, p[0]));
    assert(has_value(bin, w, h, t, p[p.len() - 1]));
}

/// Counts the 4-connected components of the cells holding `target` in the
/// `width × height` image stored row-major in `binary` (breadth-first flood
/// fill from each unvisited cell, scanning rows top to bottom).
pub fn count_components(binary: &[u8], width: usize, height: usize, target: u8) -> (count: usize)
    requires
        width * height <= binary@.len(),
    ensures
        count == num_components(binary@, width as int, height as int, target),
{
    let ghost w = width as int;
    let ghost h = height as int;
    let ghost bin = binary@;
    let mut visited: Vec<bool> = vec![false; binary.len()];
    let mut count: usize = 0;
    let mut y: usize = 0;
    proof {
        assert forall|c: (int, int)| in_grid(w, h, c) implies (#[trigger] visited@[cell_index(w, c)]
            <==> reached(bin, w, h, target, c, 0, 0)) by {
            lemma_cell_index(w, h, c);
            if reached(bin, w, h, target, c, 0, 0) {
                let r = choose|r: (int, int)| before(r, 0, 0) && #[trigger] connected(bin, w, h, target, r, c);
                lemma_connected_ends(bin, w, h, target, r, c);
            }
        }
        assert forall|c: (int, int), n: (int, int)|
            has_value(bin, w, h, target, c) && #[trigger] visited@[cell_index(w, c)] && adjacent(c, n)
                && has_value(bin, w, h, target, n) implies #[trigger] visited@[cell_index(w, n)] by {
            lemma_cell_index(w, h, c);
        }
        assert(binary@.len() == binary.len());
    }
    while y < height
        invariant
            w == width,
            h == height,
            bin == binary@,
            width * height <= binary@.len(),
            binary@.len() <= usize::MAX,
            y <= height,
            visited@.len() == binary@.len(),
            closed_set(visited@, bin, w, h, target),
            forall|c: (int, int)|
                in_grid(w, h, c) ==> (#[trigger] visited@[cell_index(w, c)] <==> reached(
                    bin,
                    w,
                    h,
                    target,
                    c,
                    0,
                    y as int,
                )),
            count == reps_in_rows(bin, w, h, target, y as int),
            count <= y * width,
        decreases height - y,
    {
        let mut x: usize = 0;
        proof {
            assert(y * w + w <= w * h) by (nonlinear_arith)
                requires
                    0 <= y < h,
                    0 <= w,
            ;
        }
        while x < width
            invariant
                w == width,
                h == height,
                bin == binary@,
                width * height <= binary@.len(),
                binary@.len() <= usize::MAX,
                y < height,
                x <= width,
                y * w + w <= w * h,
                visited@.len() == binary@.len(),
                closed_set(visited@, bin, w, h, target),
                forall|c: (int, int)|
                    in_grid(w, h, c) ==> (#[trigger] visited@[cell_index(w, c)] <==> reached(
                        bin,
                        w,
                        h,
                        target,
                        c,
                        x as int,
                        y as int,
                    )),
                count == reps_in_rows(bin, w, h, target, y as int) + reps_in_row(
                    bin,
                    w,
                    h,
                    target,
                    y as int,
                    x as int,
                ),
                count <= y * width + x,
            decreases width - x,
        {
            let ghost a = (x as int, y as int);
            proof {
                lemma_cell_index(w, h, a);
            }
            let idx = y * width + x;
            if visited[idx] || binary[idx] != target {
                proof {
                    assert(!is_representative(bin, w, h, target, a)) by {
                        if visited@[cell_index(w, a)] {
                            let r = choose|r: (int, int)| before(r, x as int, y as int) && #[trigger] connected(bin, w, h, target, r, a);
                            assert(before(r, a.0, a.1));
                        }
                    }
                    assert forall|c: (int, int)| in_grid(w, h, c) implies (#[trigger] visited@[cell_index(w, c)]
                        <==> reached(bin, w, h, target, c, x + 1, y as int)) by {
                        if reached(bin, w, h, target, c, x + 1, y as int) {
                            let r = choose|r: (int, int)| before(r, x + 1, y as int) && #[trigger] connected(bin, w, h, target, r, c);
                            if r == a {
                                lemma_connected_ends(bin, w, h, target, r, c);
                                assert(visited@[cell_index(w, a)]);
                                let r0 = choose|r0: (int, int)| before(r0, x as int, y as int) && #[trigger] connected(bin, w, h, target, r0, a);
                                lemma_connected_trans(bin, w, h, target, r0, a, c);
                                assert(reached(bin, w, h, target, c, x as int, y as int));
                            } else {
                                assert(reached(bin, w, h, target, c, x as int, y as int));
                            }
                        }
                        if reached(bin, w, h, target, c, x as int, y as int) {
                            let r = choose|r: (int, int)| before(r, x as int, y as int) && #[trigger] connected(bin, w, h, target, r, c);
                            assert(before(r, x + 1, y as int));
                        }
                    }
                }
            } else {
                proof {
                    assert(is_representative(bin, w, h, target, a)) by {
                        assert forall|r: (int, int)| before(r, a.0, a.1) implies !#[trigger] connected(bin, w, h, target, r, a) by {
                            if connected(bin, w, h, target, r, a) {
                                assert(reached(bin, w, h, target, a, x as int, y as int));
                            }
                        }
                    }
                }
                count = count + 1;
                flood_fill(binary, width, height, target, &mut visited, x, y);
                proof {
                    assert forall|c: (int, int)| in_grid(w, h, c) implies (#[trigger] visited@[cell_index(w, c)]
                        <==> reached(bin, w, h, target, c, x + 1, y as int)) by {
                        if reached(bin, w, h, target, c, x + 1, y as int) {
                            let r = choose|r: (int, int)| before(r, x + 1, y as int) && #[trigger] connected(bin, w, h, target, r, c);
                            if r != a {
                                assert(reached(bin, w, h, target, c, x as int, y as int));
                            }
                        }
                        if reached(bin, w, h, target, c, x as int, y as int) {
                            let r = choose|r: (int, int)| before(r, x as int, y as int) && #[trigger] connected(bin, w, h, target, r, c);
                            assert(before(r, x + 1, y as int));
                        }
                        if connected(bin, w, h, target, a, c) {
                            assert(before(a, x + 1, y as int));
                        }
                    }
                }
            }
            x = x + 1;
        }
        proof {
            assert forall|c: (int, int)| in_grid(w, h, c) implies (#[trigger] visited@[cell_index(w, c)]
                <==> reached(bin, w, h, target, c, 0, y + 1)) by {
                if reached(bin, w, h, target, c, 0, y + 1) {
                    let r = choose|r: (int, int)| before(r, 0, y + 1) && #[trigger] connected(bin, w, h, target, r, c);
                    lemma_connected_ends(bin, w, h, target, r, c);
                    assert(before(r, w, y as int));
                }
                if reached(bin, w, h, target, c, w, y as int) {
                    let r = choose|r: (int, int)| before(r, w, y as int) && #[trigger] connected(bin, w, h, target, r, c);
                    assert(before(r, 0, y + 1));
                }
            }
            assert((y + 1) * w == y * w + w) by (nonlinear_arith);
        }
        y = y + 1;
    }
    count
}

/// Number of components and holes of a square binary image.
#[derive(Debug, Clone, Copy)]
pub struct BinaryStats {
    pub components: usize,
    pub holes: usize,
}

/// The number of cells of a square of side `s`.
pub open spec fn square(s: nat) -> nat {
    s * s
}

/// The side of a square with `n` cells, when `n` is a positive perfect square.
pub open spec fn square_side(n: nat) -> Option<nat> {
    if exists|s: nat| s > 0 && #[trigger] square(s) == n {
        Some(choose|s: nat| s > 0 && #[trigger] square(s) == n)
    } else {
        None
    }
}

proof fn lemma_square_unique(a: nat, b: nat)
    requires
        a * a == b * b,
    ensures
        a == b,
{
    if a < b {
        assert(a * a < b * b) by (nonlinear_arith)
            requires
                a < b,
        ;
    } else if b < a {
        assert(b * b < a * a) by (nonlinear_arith)
            requires
                b < a,
        ;
    }
}

/// Components of the `1`-cells and holes (background components beyond the
/// outer one) of a square binary image; an image that is not a non-empty
/// square has no components and no holes.
pub fn binary_topology_stats(binary: &[u8]) -> (r: BinaryStats)
    ensures
        match square_side(binary@.len()) {
            Some(side) => {
                &&& r.components == num_components(binary@, side as int, side as int, 1u8)
                &&& r.holes == if num_components(binary@, side as int, side as int, 0u8) >= 1 {
                    (num_components(binary@, side as int, side as int, 0u8) - 1) as nat
                } else {
                    0nat
                }
            },
            None => r.components == 0 && r.holes == 0,
        },
{
    let n = binary.len();
    let mut side: usize = 0;
    assert(n as int <= 0xffff_ffff_ffff_ffff);
    // largest `side` with side * side <= n
    loop
        invariant
            side * side <= n,
            side <= 0xffff_ffff,
            n == binary@.len(),
            n as int <= 0xffff_ffff_ffff_ffff,
        ensures
            side * side <= n,
            (side + 1) * (side + 1) > n,
            side <= 0xffff_ffff,
        decreases n - side,
    {
        let next: u128 = side as u128 + 1;
        proof {
            assert(next * next <= 0x1_0000_0000 * 0x1_0000_0000) by (nonlinear_arith)
                requires
                    0 <= next <= 0x1_0000_0000,
            ;
        }
        if next * next > n as u128 {
            break;
        }
        proof {
            assert(side + 1 <= 0xffff_ffff) by (nonlinear_arith)
                requires
                    (side + 1) * (side + 1) <= n,
                    n as int <= 0xffff_ffff_ffff_ffff,
            ;
            assert(side + 1 <= (side + 1) * (side + 1)) by (nonlinear_arith);
        }
        side = side + 1;
    }
    if side == 0 || side * side != n {
        proof {
            if exists|s: nat| s > 0 && #[trigger] square(s) == n {
                let s = choose|s: nat| s > 0 && #[trigger] square(s) == n;
                if s <= side {
                    if s < side {
                        assert(s * s < side * side) by (nonlinear_arith)
                            requires
                                s < side,
                        ;
                    }
                } else {
                    assert((side + 1) * (side + 1) <= s * s) by (nonlinear_arith)
                        requires
                            side + 1 <= s,
                    ;
                }
            }
        }
        return BinaryStats { components: 0, holes: 0 };
    }
    proof {
        assert(side > 0 && square(side as nat) == n);
        let s = choose|s: nat| s > 0 && #[trigger] square(s) == n;
        lemma_square_unique(s, side as nat);
    }
    let components = count_components(binary, side, side, 1);
    let background = count_components(binary, side, side, 0);
    let holes = if background >= 1 { background - 1 } else { 0 };
    BinaryStats { components, holes }
}

/// Marks the pixels at or below `threshold` with `1` (others `0`).
pub fn threshold_image_below(pixels: &[u8], threshold: u8) -> (r: Vec<u8>)
    ensures
        r@.len() == pixels@.len(),
        forall|i: int| 0 <= i < pixels@.len() ==> #[trigger] r@[i] == if pixels@[i] <= threshold { 1u8 } else { 0u8 },
{
    let mut r: Vec<u8> = Vec::new();
    let mut i: usize = 0;
    while i < pixels.len()
        invariant
            i <= pixels@.len(),
            r@.len() == i,
            forall|j: int| 0 <= j < i ==> #[trigger] r@[j] == if pixels@[j] <= threshold { 1u8 } else { 0u8 },
        decreases pixels@.len() - i,
    {
        r.push(if pixels[i] <= threshold { 1u8 } else { 0u8 });
        i = i + 1;
    }
    r
}

/// Marks the pixels at or above `threshold` with `1` (others `0`).
pub fn threshold_image_above(pixels: &[u8], threshold: u8) -> (r: Vec<u8>)
    ensures
        r@.len() == pixels@.len(),
        forall|i: int| 0 <= i < pixels@.len() ==> #[trigger] r@[i] == if pixels@[i] >= threshold { 1u8 } else { 0u8 },
{
    let mut r: Vec<u8> = Vec::new();
    let mut i: usize = 0;
    while i < pixels.len()
        invariant
            i <= pixels@.len(),
            r@.len() == i,
            forall|j: int| 0 <= j < i ==> #[trigger] r@[j] == if pixels@[j] >= threshold { 1u8 } else { 0u8 },
        decreases pixels@.len() - i,
    {
        r.push(if pixels[i] >= threshold { 1u8 } else { 0u8 });
        i = i + 1;
    }
    r
}

// ── configuration of the signature flow ───────────────────────────────────

/// Parameters of the topological signature of an image.
#[derive(Debug, Clone, Copy, PartialEq, Eq, Structural)]
pub struct TopologicalSignatureFlow {
    pub diffusion_steps: usize,
    pub n_landscape_functions: usize,
    pub n_landscape_samples: usize,
    pub embedding_dim: usize,
    pub resize_to: u32,
}

impl Default for TopologicalSignatureFlow {
    fn default() -> (r: Self)
        ensures
            r.diffusion_steps == 5,
            r.n_landscape_functions == 3,
            r.n_landscape_samples == 50,
            r.embedding_dim == 128,
            r.resize_to == 128,
    {
        TopologicalSignatureFlow {
            diffusion_steps: 5,
            n_landscape_functions: 3,
            n_landscape_samples: 50,
            embedding_dim: 128,
            resize_to: 128,
        }
    }
}

impl TopologicalSignatureFlow {
    /// Cuts the features to `embedding_dim` entries, or pads them with `fill`.
    pub fn fit_embedding_dim<T: Copy>(&self, features: Vec<T>, fill: T) -> (r: Vec<T>)
        ensures
            r@.len() == self.embedding_dim,
            forall|i: int| 0 <= i < r@.len() && i < features@.len() ==> r@[i] == features@[i],
            forall|i: int| features@.len() <= i < r@.len() ==> r@[i] == fill,
    {
        let mut f = features;
        let ghost orig = f@;
        if f.len() > self.embedding_dim {
            f.truncate(self.embedding_dim);
            return f;
        }
        while f.len() < self.embedding_dim
            invariant
                orig.len() <= f@.len() <= self.embedding_dim,
                forall|i: int| 0 <= i < orig.len() ==> f@[i] == orig[i],
                forall|i: int| orig.len() <= i < f@.len() ==> f@[i] == fill,
            decreases self.embedding_dim - f@.len(),
        {
            f.push(fill);
        }
        f
    }
}

/// The value after the first `flag` among consecutive arguments.
pub open spec fn flag_value(args: Seq<String>, flag: Seq<char>) -> Option<Seq<char>>
    decreases args.len(),
{
    if args.len() < 2 {
        None
    } else if args[0]@ == flag {
        Some(args[1]@)
    } else {
        flag_value(args.drop_first(), flag)
    }
}

/// The value given to a command-line flag (`--out file`): the argument that
/// follows its first occurrence.
pub fn parse_flag_value(args: &Vec<String>, flag: &str) -> (r: Option<String>)
    ensures
        match r {
            Some(v) => flag_value(args@, flag@) == Some(v@),
            None => flag_value(args@, flag@) is None,
        },
{
    let f = flag.to_owned();
    let mut i: usize = 0;
    assert(args@.subrange(0, args@.len() as int) =~= args@);
    while i < args.len() && args.len() - i >= 2
        invariant
            f@ == flag@,
            i <= args@.len(),
            flag_value(args@, flag@) == flag_value(args@.subrange(i as int, args@.len() as int), flag@),
        decreases args@.len() - i,
    {
        let ghost rest = args@.subrange(i as int, args@.len() as int);
        if args[i] == f {
            assert(rest[0] == args@[i as int] && rest[1] == args@[i + 1]);
            return Some(args[i + 1].clone());
        }
        assert(rest.drop_first() =~= args@.subrange(i + 1, args@.len() as int));
        i = i + 1;
    }
    None
}

/// The first nine characters of a label.
pub fn truncate_label(s: &str) -> (r: String)
    ensures
        r@ == if s@.len() <= 9 { s@ } else { s@.subrange(0, 9) },
{
    let v = chars_of(s);
    let n = if v.len() <= 9 { v.len() } else { 9 };
    let t = slice_chars(v.as_slice(), 0, n);
    assert(v@.len() <= 9 ==> t@ =~= v@);
    string_of(t.as_slice())
}

} // verus!
