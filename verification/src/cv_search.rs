//! The ComicVine search page: what is searched, how the volumes found are
//! grouped into cards (one card per name and publisher, in key order), and
//! the texts shown for the results and the imports.
use vstd::prelude::*;
use crate::text::{chars_of, string_of, push_str, push_all, fmt_u64, dec, to_lowercase, lowercase_of};
use crate::natural::{lex_order, lex_compare, lemma_lex_antisym, lemma_lex_equal, lemma_lex_trans, lemma_lex_refl};

verus! {

/// What a search looks for.
#[derive(Clone, Copy, Debug, PartialEq, Eq, Structural)]
pub enum SearchMode {
    Volumes,
    Publishers,
}

/// The mode picked in the search combo: publishers when its active id is
/// `publishers`, else volumes.
pub fn search_mode(active_id: Option<&str>) -> (r: SearchMode)
    ensures
        r == match active_id {
            Some(id) => if id@ == "publishers"@ { SearchMode::Publishers } else { SearchMode::Volumes },
            None => SearchMode::Volumes,
        },
{
    match active_id {
        Some(id) => {
            if id.to_owned() == "publishers".to_owned() {
                SearchMode::Publishers
            } else {
                SearchMode::Volumes
            }
        },
        None => SearchMode::Volumes,
    }
}

/// The grouping key of a volume found: its lower-cased name and publisher
/// (`unknown` when it has none), joined by `|`.
pub open spec fn group_key_of(name: Option<Seq<char>>, publisher: Option<Seq<char>>) -> Seq<char> {
    lowercase_of(match name { Some(n) => n, None => ""@ }) + seq!['|'] + lowercase_of(
        match publisher { Some(p) => p, None => "unknown"@ },
    )
}

/// The grouping key of a volume found.
pub fn volume_group_key(name: Option<&str>, publisher: Option<&str>) -> (r: String)
    ensures
        r@ == group_key_of(
            match name { Some(n) => Some(n@), None => None },
            match publisher { Some(p) => Some(p@), None => None },
        ),
{
    let n = match name { Some(n) => to_lowercase(n), None => to_lowercase("") };
    let p = match publisher { Some(p) => to_lowercase(p), None => to_lowercase("unknown") };
    let mut v = chars_of(n.as_str());
    v.push('|');
    push_str(&mut v, p.as_str());
    string_of(v.as_slice())
}

// ── grouping ──────────────────────────────────────────────────────────────

/// The positions at which key `k` occurs, in increasing order.
pub open spec fn positions_of(keys: Seq<Seq<char>>, k: Seq<char>) -> Seq<int>
    decreases keys.len(),
{
    if keys.len() == 0 {
        Seq::empty()
    } else {
        let r = positions_of(keys.drop_last(), k);
        if keys.last() == k {
            r.push(keys.len() - 1)
        } else {
            r
        }
    }
}

/// `groups` groups `keys`: one group per distinct key, in increasing key
/// order, each with all the positions of its key in increasing order.
pub open spec fn grouped(keys: Seq<Seq<char>>, groups: Seq<(Seq<char>, Seq<int>)>) -> bool {
    &&& forall|a: int, b: int|
        0 <= a < b < groups.len() ==> lex_order(#[trigger] groups[a].0, #[trigger] groups[b].0) < 0
    &&& forall|g: int|
        0 <= g < groups.len() ==> #[trigger] groups[g].1 == positions_of(keys, groups[g].0) && groups[g].1.len()
            > 0
    &&& forall|i: int| 0 <= i < keys.len() ==> has_group(groups, #[trigger] keys[i])
}

/// Some group has key `k`.
pub open spec fn has_group(groups: Seq<(Seq<char>, Seq<int>)>, k: Seq<char>) -> bool {
    exists|g: int| 0 <= g < groups.len() && #[trigger] groups[g].0 == k
}

/// The views of keys.
pub open spec fn keys_view(keys: Seq<String>) -> Seq<Seq<char>> {
    Seq::new(keys.len(), |i: int| keys[i]@)
}

/// The positions of a group as integers.
pub open spec fn members_view(m: Seq<usize>) -> Seq<int> {
    Seq::new(m.len(), |j: int| m[j] as int)
}

/// The views of groups.
pub open spec fn groups_view(gk: Seq<String>, gm: Seq<Vec<usize>>) -> Seq<(Seq<char>, Seq<int>)> {
    Seq::new(gk.len(), |g: int| (gk[g]@, members_view(gm[g]@)))
}

proof fn lemma_positions_push(keys: Seq<Seq<char>>, x: Seq<char>, k: Seq<char>)
    ensures
        positions_of(keys.push(x), k) == if x == k {
            positions_of(keys, k).push(keys.len() as int)
        } else {
            positions_of(keys, k)
        },
{
    assert(keys.push(x).drop_last() =~= keys);
}

proof fn lemma_positions_absent(keys: Seq<Seq<char>>, k: Seq<char>)
    requires
        forall|i: int| 0 <= i < keys.len() ==> keys[i] != k,
    ensures
        positions_of(keys, k).len() == 0,
    decreases keys.len(),
{
    if keys.len() > 0 {
        lemma_positions_absent(keys.drop_last(), k);
    }
}

/// Groups equal keys: the distinct keys in increasing order, each with the
/// positions where it occurs.
pub fn group_by_key(keys: &Vec<String>) -> (r: (Vec<String>, Vec<Vec<usize>>))
    ensures
        r.0@.len() == r.1@.len(),
        grouped(keys_view(keys@), groups_view(r.0@, r.1@)),
{
    let mut gk: Vec<String> = Vec::new();
    let mut gm: Vec<Vec<usize>> = Vec::new();
    let mut gc: Vec<Vec<char>> = Vec::new();
    let ghost kv = keys_view(keys@);
    let mut i: usize = 0;
    while i < keys.len()
        invariant
            i <= keys@.len(),
            kv == keys_view(keys@),
            gk@.len() == gm@.len(),
            gk@.len() == gc@.len(),
            forall|g: int| 0 <= g < gk@.len() ==> #[trigger] gc@[g]@ == gk@[g]@,
            grouped(kv.subrange(0, i as int), groups_view(gk@, gm@)),
        decreases keys@.len() - i,
    {
        let ghost pre = kv.subrange(0, i as int);
        let ghost old_groups = groups_view(gk@, gm@);
        assert(kv.subrange(0, i + 1) =~= pre.push(kv[i as int]));
        let kc = chars_of(keys[i].as_str());
        let ghost k = kc@;
        assert(k == kv[i as int]);
        let mut p: usize = 0;
        let mut done = false;
        let mut c: i8 = 1;
        while !done && p < gc.len()
            invariant
                p <= gc@.len(),
                kc@ == k,
                forall|q: int| 0 <= q < p ==> lex_order(#[trigger] gc@[q]@, k) < 0,
                done ==> p < gc@.len() && c as int == lex_order(gc@[p as int]@, k) && c >= 0,
            decreases gc@.len() - p + if done { 0int } else { 1int },
        {
            c = lex_compare(gc[p].as_slice(), kc.as_slice());
            if c < 0 {
                p = p + 1;
            } else {
                done = true;
            }
        }
        let found = done && c == 0;
        if found {
            proof {
                lemma_lex_equal(gc@[p as int]@, k);
            }
            let ghost old_gm = gm@;
            let mut m: Vec<usize> = Vec::new();
            gm.set_and_swap(p, &mut m);
            let ghost mold = m@;
            assert(mold == old_gm[p as int]@);
            m.push(i);
            let ghost mnew = m;
            gm.set_and_swap(p, &mut m);
            proof {
                assert(gm@ =~= old_gm.update(p as int, mnew));
                let ng = groups_view(gk@, gm@);
                assert(old_groups[p as int].1 == members_view(mold));
                assert(members_view(gm@[p as int]@) =~= members_view(mold).push(i as int));
                assert forall|g: int| 0 <= g < ng.len() implies #[trigger] ng[g].1 == positions_of(
                    pre.push(k),
                    ng[g].0,
                ) && ng[g].1.len() > 0 by {
                    lemma_positions_push(pre, k, ng[g].0);
                    if g == p as int {
                        assert(ng[g].0 == k);
                    } else {
                        assert(ng[g] == old_groups[g]);
                    }
                }
                assert forall|a: int, b: int| 0 <= a < b < ng.len() implies lex_order(
                    #[trigger] ng[a].0,
                    #[trigger] ng[b].0,
                ) < 0 by {
                    assert(ng[a].0 == old_groups[a].0);
                    assert(ng[b].0 == old_groups[b].0);
                }
                assert forall|j: int| 0 <= j < pre.push(k).len() implies has_group(ng, #[trigger] pre.push(k)[j]) by {
                    if j < pre.len() {
                        assert(pre.push(k)[j] == pre[j]);
                        assert(has_group(old_groups, pre[j]));
                        let g = choose|g: int| 0 <= g < old_groups.len() && #[trigger] old_groups[g].0 == pre[j];
                        assert(ng[g].0 == old_groups[g].0);
                    } else {
                        assert(ng[p as int].0 == k);
                    }
                }
            }
        } else {
            proof {
                // The key is in no group, hence nowhere before position i.
                assert forall|g: int| 0 <= g < old_groups.len() implies #[trigger] old_groups[g].0 != k by {
                    if g < p {
                        assert(lex_order(gc@[g]@, k) < 0);
                        lemma_lex_refl(k);
                    } else {
                        assert(lex_order(gc@[p as int]@, k) > 0);
                        if g > p {
                            assert(lex_order(old_groups[p as int].0, old_groups[g].0) < 0);
                            if old_groups[g].0 == k {
                                lemma_lex_antisym(old_groups[p as int].0, k);
                            }
                        } else {
                            lemma_lex_refl(k);
                        }
                    }
                }
                assert forall|j: int| 0 <= j < pre.len() implies pre[j] != k by {
                    if pre[j] == k {
                        assert(has_group(old_groups, pre[j]));
                        let g = choose|g: int| 0 <= g < old_groups.len() && #[trigger] old_groups[g].0 == pre[j];
                    }
                }
                lemma_positions_absent(pre, k);
            }
            let ghost old_gc = gc@;
            let mut m: Vec<usize> = Vec::new();
            m.push(i);
            gk.insert(p, keys[i].clone());
            gm.insert(p, m);
            gc.insert(p, kc);
            proof {
                let ng = groups_view(gk@, gm@);
                assert(ng.len() == old_groups.len() + 1);
                assert forall|g: int| 0 <= g < ng.len() implies ng[g] == if g < p {
                    old_groups[g]
                } else if g == p {
                    (k, seq![i as int])
                } else {
                    old_groups[g - 1]
                } by {
                    if g == p as int {
                        assert(members_view(gm@[g]@) =~= seq![i as int]);
                    }
                }
                assert forall|g: int| 0 <= g < ng.len() implies #[trigger] ng[g].1 == positions_of(
                    pre.push(k),
                    ng[g].0,
                ) && ng[g].1.len() > 0 by {
                    lemma_positions_push(pre, k, ng[g].0);
                    if g == p as int {
                        assert(positions_of(pre, k) =~= Seq::<int>::empty());
                        assert(seq![i as int] =~= Seq::<int>::empty().push(i as int));
                    } else if g < p {
                        assert(ng[g] == old_groups[g]);
                    } else {
                        assert(ng[g] == old_groups[g - 1]);
                    }
                }
                assert forall|a: int, b: int| 0 <= a < b < ng.len() implies lex_order(
                    #[trigger] ng[a].0,
                    #[trigger] ng[b].0,
                ) < 0 by {
                    if b < p {
                    } else if b == p {
                        assert(lex_order(old_gc[a]@, k) < 0);
                    } else if a > p {
                        assert(ng[a] == old_groups[a - 1]);
                        assert(ng[b] == old_groups[b - 1]);
                    } else if a == p {
                        // k < old[p] <= old[b - 1]
                        assert(lex_order(old_gc[p as int]@, k) > 0);
                        lemma_lex_antisym(old_gc[p as int]@, k);
                        assert(old_groups[p as int].0 == old_gc[p as int]@);
                        if b - 1 > p {
                            assert(lex_order(old_groups[p as int].0, old_groups[b - 1].0) < 0);
                            lemma_lex_trans(k, old_groups[p as int].0, old_groups[b - 1].0);
                            if lex_order(k, old_groups[b - 1].0) == 0 {
                                lemma_lex_equal(k, old_groups[b - 1].0);
                                lemma_lex_antisym(old_groups[p as int].0, k);
                            }
                        }
                    } else {
                        // a < p < b
                        assert(ng[a] == old_groups[a]);
                        assert(ng[b] == old_groups[b - 1]);
                        assert(lex_order(old_groups[a].0, old_groups[b - 1].0) < 0);
                    }
                }
                assert forall|j: int| 0 <= j < pre.push(k).len() implies has_group(ng, #[trigger] pre.push(k)[j]) by {
                    if j < pre.len() {
                        assert(pre.push(k)[j] == pre[j]);
                        assert(has_group(old_groups, pre[j]));
                        let g = choose|g: int| 0 <= g < old_groups.len() && #[trigger] old_groups[g].0 == pre[j];
                        if g < p {
                            assert(ng[g].0 == old_groups[g].0);
                        } else {
                            assert(ng[g + 1].0 == old_groups[g].0);
                        }
                    } else {
                        assert(ng[p as int].0 == k);
                    }
                }
            }
        }
        i = i + 1;
    }
    assert(kv.subrange(0, keys@.len() as int) =~= kv);
    (gk, gm)
}

proof fn lemma_positions_contains(keys: Seq<Seq<char>>, k: Seq<char>, i: int)
    ensures
        positions_of(keys, k).contains(i) <==> (0 <= i < keys.len() && keys[i] == k),
    decreases keys.len(),
{
    if keys.len() > 0 {
        let pre = keys.drop_last();
        lemma_positions_contains(pre, k, i);
        let r = positions_of(pre, k);
        if keys.last() == k {
            let q = r.push(keys.len() - 1);
            if q.contains(i) {
                let j = choose|j: int| 0 <= j < q.len() && q[j] == i;
                if j < r.len() {
                    assert(r[j] == i);
                }
            }
            if r.contains(i) {
                let j = choose|j: int| 0 <= j < r.len() && r[j] == i;
                assert(q[j] == i);
            }
            assert(q[r.len() as int] == keys.len() - 1);
        }
    }
}

/// In a grouping, every volume found is on exactly one card: the card of its key.
pub proof fn each_volume_on_one_card(keys: Seq<Seq<char>>, groups: Seq<(Seq<char>, Seq<int>)>, i: int)
    requires
        grouped(keys, groups),
        0 <= i < keys.len(),
    ensures
        exists|g: int| 0 <= g < groups.len() && #[trigger] groups[g].1.contains(i),
        forall|g1: int, g2: int|
            0 <= g1 < groups.len() && 0 <= g2 < groups.len() && #[trigger] groups[g1].1.contains(i)
                && #[trigger] groups[g2].1.contains(i) ==> g1 == g2,
{
    assert(has_group(groups, keys[i]));
    let g = choose|g: int| 0 <= g < groups.len() && #[trigger] groups[g].0 == keys[i];
    lemma_positions_contains(keys, keys[i], i);
    assert(groups[g].1.contains(i));
    assert forall|g1: int, g2: int|
        0 <= g1 < groups.len() && 0 <= g2 < groups.len() && #[trigger] groups[g1].1.contains(i)
            && #[trigger] groups[g2].1.contains(i) implies g1 == g2 by {
        lemma_positions_contains(keys, groups[g1].0, i);
        lemma_positions_contains(keys, groups[g2].0, i);
        lemma_lex_refl(groups[g1].0);
        if g1 < g2 {
            assert(lex_order(groups[g1].0, groups[g2].0) < 0);
        } else if g2 < g1 {
            assert(lex_order(groups[g2].0, groups[g1].0) < 0);
        }
    }
}

// ── texts ─────────────────────────────────────────────────────────────────

/// The line under a volume found: `{publisher} ({year})`, with
/// `Editorial desconocida` and `N/A` for what is missing.
pub fn volume_info_label(publisher: Option<&str>, year: Option<&str>) -> (r: String)
    ensures
        r@ == match publisher { Some(p) => p@, None => "Editorial desconocida"@ } + " ("@ + match year {
            Some(y) => y@,
            None => "N/A"@,
        } + seq![')'],
{
    let mut v = match publisher { Some(p) => chars_of(p), None => chars_of("Editorial desconocida") };
    push_str(&mut v, " (");
    match year {
        Some(y) => push_str(&mut v, y),
        None => push_str(&mut v, "N/A"),
    }
    v.push(')');
    string_of(v.as_slice())
}

/// The names joined by `, `.
pub open spec fn joined(names: Seq<Seq<char>>) -> Seq<char>
    decreases names.len(),
{
    if names.len() == 0 {
        Seq::empty()
    } else if names.len() == 1 {
        names[0]
    } else {
        joined(names.drop_last()) + ", "@ + names.last()
    }
}

/// The views of names.
pub open spec fn names_view(v: Seq<String>) -> Seq<Seq<char>> {
    Seq::new(v.len(), |i: int| v[i]@)
}

/// The status line after publishers were imported.
pub fn import_status_label(names: &Vec<String>, inserted: usize, skipped: usize) -> (r: String)
    ensures
        r@ == "✓ "@ + joined(names_view(names@)) + " importada(s). "@ + dec(inserted as nat)
            + " volúmenes nuevos, "@ + dec(skipped as nat) + " ya existían."@,
{
    let mut j: Vec<char> = Vec::new();
    let mut i: usize = 0;
    while i < names.len()
        invariant
            i <= names@.len(),
            j@ == joined(names_view(names@).subrange(0, i as int)),
        decreases names@.len() - i,
    {
        let ghost pre = names_view(names@).subrange(0, i as int);
        assert(names_view(names@).subrange(0, i + 1).drop_last() =~= pre);
        if i > 0 {
            push_str(&mut j, ", ");
        } else {
            assert(j@ =~= Seq::<char>::empty());
        }
        push_str(&mut j, names[i].as_str());
        i = i + 1;
    }
    assert(names_view(names@).subrange(0, names@.len() as int) =~= names_view(names@));
    let mut v = chars_of("✓ ");
    push_all(&mut v, j.as_slice());
    push_str(&mut v, " importada(s). ");
    let a = fmt_u64(inserted as u64);
    push_all(&mut v, a.as_slice());
    push_str(&mut v, " volúmenes nuevos, ");
    let b = fmt_u64(skipped as u64);
    push_all(&mut v, b.as_slice());
    push_str(&mut v, " ya existían.");
    string_of(v.as_slice())
}

} // verus!
