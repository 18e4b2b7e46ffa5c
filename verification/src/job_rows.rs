//! Keeping the rows of the jobs page in step with the registry's snapshot:
//! a row is added for each job not shown yet, and the rows of jobs that left
//! the snapshot are removed.
use vstd::prelude::*;

verus! {

/// The views of a list of ids.
pub open spec fn ids_view(v: Seq<String>) -> Seq<Seq<char>> {
    Seq::new(v.len(), |i: int| v[i]@)
}

/// The ids of the snapshot that get a new row: those not shown yet, each once,
/// in snapshot order.
pub open spec fn added_of(shown: Seq<Seq<char>>, snap: Seq<Seq<char>>) -> Seq<Seq<char>>
    decreases snap.len(),
{
    if snap.len() == 0 {
        Seq::empty()
    } else {
        let rest = added_of(shown, snap.drop_last());
        if !shown.contains(snap.last()) && !snap.drop_last().contains(snap.last()) {
            rest.push(snap.last())
        } else {
            rest
        }
    }
}

/// The shown ids whose job left the snapshot, in display order.
pub open spec fn removed_of(shown: Seq<Seq<char>>, snap: Seq<Seq<char>>) -> Seq<Seq<char>>
    decreases shown.len(),
{
    if shown.len() == 0 {
        Seq::empty()
    } else {
        let rest = removed_of(shown.drop_last(), snap);
        if !snap.contains(shown.last()) {
            rest.push(shown.last())
        } else {
            rest
        }
    }
}

/// What to change on the jobs page.
#[derive(Clone, Debug)]
pub struct RowsUpdate {
    /// The jobs that get a row, in snapshot order.
    pub added: Vec<String>,
    /// The rows to remove.
    pub removed: Vec<String>,
    /// Whether the list is shown (else the "no jobs" page).
    pub show_list: bool,
}

fn contains_string(v: &Vec<String>, end: usize, x: &String) -> (r: bool)
    requires
        end <= v@.len(),
    ensures
        r == ids_view(v@).subrange(0, end as int).contains(x@),
{
    let mut i: usize = 0;
    while i < end
        invariant
            end <= v@.len(),
            i <= end,
            forall|j: int| 0 <= j < i ==> v@[j]@ != x@,
        decreases end - i,
    {
        if v[i] == *x {
            assert(ids_view(v@).subrange(0, end as int)[i as int] == x@);
            return true;
        }
        i = i + 1;
    }
    assert forall|j: int| 0 <= j < end implies ids_view(v@).subrange(0, end as int)[j] != x@ by {}
    false
}

/// The changes that bring the rows `shown` in step with the snapshot's job
/// ids `snapshot`.
pub fn reconcile_rows(shown: &Vec<String>, snapshot: &Vec<String>) -> (r: RowsUpdate)
    ensures
        ids_view(r.added@) == added_of(ids_view(shown@), ids_view(snapshot@)),
        ids_view(r.removed@) == removed_of(ids_view(shown@), ids_view(snapshot@)),
        r.show_list == (snapshot@.len() > 0),
{
    let ghost sh = ids_view(shown@);
    let ghost sn = ids_view(snapshot@);
    let mut added: Vec<String> = Vec::new();
    let mut i: usize = 0;
    while i < snapshot.len()
        invariant
            i <= snapshot@.len(),
            sh == ids_view(shown@),
            sn == ids_view(snapshot@),
            ids_view(added@) == added_of(sh, sn.subrange(0, i as int)),
        decreases snapshot@.len() - i,
    {
        let ghost pre = sn.subrange(0, i as int);
        assert(sn.subrange(0, i + 1).drop_last() =~= pre);
        assert(sn.subrange(0, i + 1).last() == snapshot@[i as int]@);
        let in_shown = contains_string(shown, shown.len(), &snapshot[i]);
        let earlier = contains_string(snapshot, i, &snapshot[i]);
        assert(sh.subrange(0, shown@.len() as int) =~= sh);
        assert(ids_view(snapshot@).subrange(0, i as int) =~= pre);
        if !in_shown && !earlier {
            let ghost before = ids_view(added@);
            added.push(snapshot[i].clone());
            assert(ids_view(added@) =~= before.push(snapshot@[i as int]@));
        }
        i = i + 1;
    }
    assert(sn.subrange(0, snapshot@.len() as int) =~= sn);
    let mut removed: Vec<String> = Vec::new();
    let mut k: usize = 0;
    while k < shown.len()
        invariant
            k <= shown@.len(),
            sh == ids_view(shown@),
            sn == ids_view(snapshot@),
            ids_view(removed@) == removed_of(sh.subrange(0, k as int), sn),
        decreases shown@.len() - k,
    {
        assert(sh.subrange(0, k + 1).drop_last() =~= sh.subrange(0, k as int));
        let in_snap = contains_string(snapshot, snapshot.len(), &shown[k]);
        assert(sn.subrange(0, snapshot@.len() as int) =~= sn);
        if !in_snap {
            let ghost before = ids_view(removed@);
            removed.push(shown[k].clone());
            assert(ids_view(removed@) =~= before.push(shown@[k as int]@));
        }
        k = k + 1;
    }
    assert(sh.subrange(0, shown@.len() as int) =~= sh);
    RowsUpdate { added, removed, show_list: snapshot.len() > 0 }
}

proof fn lemma_added_contains(shown: Seq<Seq<char>>, snap: Seq<Seq<char>>, x: Seq<char>)
    ensures
        added_of(shown, snap).contains(x) <==> (snap.contains(x) && !shown.contains(x)),
    decreases snap.len(),
{
    if snap.len() > 0 {
        let pre = snap.drop_last();
        lemma_added_contains(shown, pre, x);
        assert(snap =~= pre.push(snap.last()));
        if snap.contains(x) && !pre.contains(x) {
            let j = choose|j: int| 0 <= j < snap.len() && snap[j] == x;
            if j < pre.len() {
                assert(pre[j] == x);
            }
        }
        if pre.contains(x) {
            let j = choose|j: int| 0 <= j < pre.len() && pre[j] == x;
            assert(snap[j] == x);
        }
        let rest = added_of(shown, pre);
        if !shown.contains(snap.last()) && !pre.contains(snap.last()) {
            assert(added_of(shown, snap) == rest.push(snap.last()));
            if rest.push(snap.last()).contains(x) {
                let j = choose|j: int| 0 <= j < rest.len() + 1 && rest.push(snap.last())[j] == x;
                if j < rest.len() {
                    assert(rest[j] == x);
                }
            }
            if rest.contains(x) {
                let j = choose|j: int| 0 <= j < rest.len() && rest[j] == x;
                assert(rest.push(snap.last())[j] == x);
            }
            assert(rest.push(snap.last())[rest.len() as int] == snap.last());
        }
    }
}

proof fn lemma_removed_contains(shown: Seq<Seq<char>>, snap: Seq<Seq<char>>, x: Seq<char>)
    ensures
        removed_of(shown, snap).contains(x) <==> (shown.contains(x) && !snap.contains(x)),
    decreases shown.len(),
{
    if shown.len() > 0 {
        let pre = shown.drop_last();
        lemma_removed_contains(pre, snap, x);
        if shown.contains(x) && !pre.contains(x) {
            let j = choose|j: int| 0 <= j < shown.len() && shown[j] == x;
            if j < pre.len() {
                assert(pre[j] == x);
            }
        }
        if pre.contains(x) {
            let j = choose|j: int| 0 <= j < pre.len() && pre[j] == x;
            assert(shown[j] == x);
        }
        let rest = removed_of(pre, snap);
        if !snap.contains(shown.last()) {
            if rest.push(shown.last()).contains(x) {
                let j = choose|j: int| 0 <= j < rest.len() + 1 && rest.push(shown.last())[j] == x;
                if j < rest.len() {
                    assert(rest[j] == x);
                }
            }
            if rest.contains(x) {
                let j = choose|j: int| 0 <= j < rest.len() && rest[j] == x;
                assert(rest.push(shown.last())[j] == x);
            }
            assert(rest.push(shown.last())[rest.len() as int] == shown.last());
        }
    }
}

/// After the update, the rows shown are exactly the jobs of the snapshot:
/// a job has a row if and only if it is in the snapshot.
pub proof fn rows_follow_snapshot(shown: Seq<Seq<char>>, snap: Seq<Seq<char>>, x: Seq<char>)
    ensures
        ((shown.contains(x) && !removed_of(shown, snap).contains(x)) || added_of(shown, snap).contains(x))
            <==> snap.contains(x),
{
    lemma_added_contains(shown, snap, x);
    lemma_removed_contains(shown, snap, x);
}

/// A job gets at most one new row per update.
pub proof fn added_rows_are_distinct(shown: Seq<Seq<char>>, snap: Seq<Seq<char>>)
    ensures
        added_of(shown, snap).no_duplicates(),
    decreases snap.len(),
{
    if snap.len() > 0 {
        let pre = snap.drop_last();
        added_rows_are_distinct(shown, pre);
        let rest = added_of(shown, pre);
        if !shown.contains(snap.last()) && !pre.contains(snap.last()) {
            lemma_added_contains(shown, pre, snap.last());
            assert forall|a: int, b: int|
                0 <= a < b < rest.len() + 1 implies rest.push(snap.last())[a] != rest.push(snap.last())[b] by {
                if b == rest.len() {
                    if rest[a] == snap.last() {
                        assert(rest.contains(snap.last()));
                    }
                }
            }
        }
    }
}

} // verus!
