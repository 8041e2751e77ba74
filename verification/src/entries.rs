//! Looking keys up among the entries of an object.

use vstd::prelude::*;

verus! {

/// The value of the first entry under `key`.
pub open spec fn entry<V>(entries: Seq<(Seq<char>, V)>, key: Seq<char>) -> Option<V>
    decreases entries.len(),
{
    if entries.len() == 0 {
        None
    } else if entries[0].0 == key {
        Some(entries[0].1)
    } else {
        entry(entries.drop_first(), key)
    }
}

/// Whether no key of `keys` is written twice.
pub open spec fn written_once<V>(
    entries: Seq<(Seq<char>, V)>,
    keys: Seq<Seq<char>>,
) -> bool {
    forall|i: int, j: int|
        0 <= i < j < entries.len() && (#[trigger] entries[i]).0 == (#[trigger] entries[j]).0
            ==> !keys.contains(entries[i].0)
}

/// There is an entry under `key` where [`entry`] finds one.
pub proof fn lemma_entry_found<V>(entries: Seq<(Seq<char>, V)>, key: Seq<char>)
    ensures
        entry(entries, key) is Some <==> exists|i: int|
            0 <= i < entries.len() && (#[trigger] entries[i]).0 == key,
    decreases entries.len(),
{
    if entries.len() > 0 {
        let rest = entries.drop_first();
        lemma_entry_found(rest, key);
        if entries[0].0 != key {
            if entry(rest, key) is Some {
                let i = choose|i: int| 0 <= i < rest.len() && (#[trigger] rest[i]).0 == key;
                assert(entries[i + 1].0 == key);
            }
            if exists|i: int| 0 <= i < entries.len() && (#[trigger] entries[i]).0 == key {
                let i = choose|i: int| 0 <= i < entries.len() && (#[trigger] entries[i]).0 == key;
                assert(rest[i - 1].0 == key);
            }
        }
    }
}

} // verus!
