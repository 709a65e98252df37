//! Keyed tables held as lists of entries: a later entry for a key hides the
//! earlier ones, as inserting into a map would.
use vstd::prelude::*;

verus! {

/// The value of the last entry whose key is `key`.
pub open spec fn lookup_last<V>(entries: Seq<(String, V)>, key: Seq<char>) -> Option<V>
    decreases entries.len(),
{
    if entries.len() == 0 {
        None
    } else if entries.last().0@ == key {
        Some(entries.last().1)
    } else {
        lookup_last(entries.drop_last(), key)
    }
}

/// The index of the last entry whose key is `key`.
pub fn find_last<V>(entries: &Vec<(String, V)>, key: &String) -> (r: Option<usize>)
    ensures
        match r {
            Some(i) => i < entries@.len() && entries@[i as int].0@ == key@ && lookup_last(
                entries@,
                key@,
            ) == Some(entries@[i as int].1),
            None => lookup_last(entries@, key@) is None,
        },
{
    let mut i: usize = entries.len();
    assert(entries@.subrange(0, i as int) =~= entries@);
    while i > 0
        invariant
            i <= entries@.len(),
            lookup_last(entries@, key@) == lookup_last(entries@.subrange(0, i as int), key@),
        decreases i,
    {
        let ghost prefix = entries@.subrange(0, i as int);
        i = i - 1;
        proof {
            assert(prefix.drop_last() =~= entries@.subrange(0, i as int));
            assert(prefix.last() == entries@[i as int]);
        }
        if entries[i].0 == *key {
            return Some(i);
        }
    }
    None
}

/// The entries with one more appended: its key now gives its value, every
/// other key what it gave before.
pub proof fn lemma_lookup_push<V>(entries: Seq<(String, V)>, entry: (String, V), key: Seq<char>)
    ensures
        lookup_last(entries.push(entry), key) == if entry.0@ == key {
            Some(entry.1)
        } else {
            lookup_last(entries, key)
        },
{
    assert(entries.push(entry).drop_last() =~= entries);
}

} // verus!
