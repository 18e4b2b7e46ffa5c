//! The registry of the reader's extraction folders.
//!
//! Opening a comic extracts its pages into a hidden folder next to it; closing
//! it deletes that folder. The registry (kept on disk by the caller) lists
//! the folders in use, so that a start after a crash can clean them up.
use vstd::prelude::*;

verus! {

/// A folder in use: the comic and its extraction folder.
#[derive(Clone, Debug)]
pub struct RegistryEntry {
    pub comic: String,
    pub cache: String,
}

/// Some entry has extraction folder `cache`.
pub open spec fn has_cache(entries: Seq<RegistryEntry>, cache: Seq<char>) -> bool {
    exists|i: int| 0 <= i < entries.len() && entries[i].cache@ == cache
}

/// The entries whose folder is not `cache`, in order.
pub open spec fn without_cache(entries: Seq<RegistryEntry>, cache: Seq<char>) -> Seq<RegistryEntry>
    decreases entries.len(),
{
    if entries.len() == 0 {
        entries
    } else if entries.last().cache@ == cache {
        without_cache(entries.drop_last(), cache)
    } else {
        without_cache(entries.drop_last(), cache).push(entries.last())
    }
}

fn find_cache(entries: &Vec<RegistryEntry>, cache: &str) -> (r: bool)
    ensures
        r == has_cache(entries@, cache@),
{
    let c = cache.to_owned();
    let mut i: usize = 0;
    while i < entries.len()
        invariant
            c@ == cache@,
            i <= entries@.len(),
            forall|j: int| 0 <= j < i ==> entries@[j].cache@ != cache@,
        decreases entries@.len() - i,
    {
        if entries[i].cache == c {
            return true;
        }
        i = i + 1;
    }
    false
}

/// Registers an extraction folder before pages are extracted into it. Returns
/// the new list to save, or `None` when the folder is already registered (a
/// comic opened twice) and nothing is to be written.
pub fn register(entries: Vec<RegistryEntry>, comic_path: &str, cache_dir: &str) -> (r: Option<Vec<RegistryEntry>>)
    ensures
        has_cache(entries@, cache_dir@) ==> r is None,
        !has_cache(entries@, cache_dir@) ==> (r matches Some(v) && {
            &&& v@.len() == entries@.len() + 1
            &&& v@.drop_last() == entries@
            &&& v@.last().comic@ == comic_path@
            &&& v@.last().cache@ == cache_dir@
        }),
{
    if find_cache(&entries, cache_dir) {
        return None;
    }
    let mut v = entries;
    let ghost before = v@;
    v.push(RegistryEntry { comic: comic_path.to_owned(), cache: cache_dir.to_owned() });
    assert(v@.drop_last() =~= before);
    Some(v)
}

/// The list without the entries of `cache_dir`, saved when the reader closes
/// (the folder itself is then deleted).
pub fn unregister(entries: &Vec<RegistryEntry>, cache_dir: &str) -> (r: Vec<RegistryEntry>)
    ensures
        r@ == without_cache(entries@, cache_dir@),
{
    let c = cache_dir.to_owned();
    let mut out: Vec<RegistryEntry> = Vec::new();
    let mut i: usize = 0;
    while i < entries.len()
        invariant
            c@ == cache_dir@,
            i <= entries@.len(),
            out@ == without_cache(entries@.subrange(0, i as int), cache_dir@),
        decreases entries@.len() - i,
    {
        assert(entries@.subrange(0, i + 1).drop_last() =~= entries@.subrange(0, i as int));
        if !(entries[i].cache == c) {
            out.push(RegistryEntry { comic: entries[i].comic.clone(), cache: entries[i].cache.clone() });
        }
        i = i + 1;
    }
    assert(entries@.subrange(0, entries@.len() as int) =~= entries@);
    out
}

// ── laws ──────────────────────────────────────────────────────────────────

/// After unregistering a folder, no entry names it.
pub proof fn unregistered_folder_is_gone(entries: Seq<RegistryEntry>, cache: Seq<char>)
    ensures
        !has_cache(without_cache(entries, cache), cache),
    decreases entries.len(),
{
    if entries.len() > 0 {
        unregistered_folder_is_gone(entries.drop_last(), cache);
        let w = without_cache(entries.drop_last(), cache);
        if entries.last().cache@ != cache {
            assert forall|i: int| 0 <= i < w.push(entries.last()).len() implies w.push(entries.last())[i].cache@ != cache by {
                if i < w.len() {
                    assert(w.push(entries.last())[i] == w[i]);
                }
            }
        }
    }
}

/// Registering a folder that is registered already changes nothing; a new
/// one is then found.
pub proof fn registered_folder_is_found(entries: Seq<RegistryEntry>, e: RegistryEntry)
    ensures
        has_cache(entries.push(e), e.cache@),
{
    assert(entries.push(e)[entries.len() as int] == e);
}

} // verus!
