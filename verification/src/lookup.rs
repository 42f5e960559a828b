//! Finding a record in a table by its key.

use vstd::prelude::*;

use crate::text;

verus! {

/// A record that has a key.
pub trait Keyed: View + Sized {
    /// The key of a record.
    spec fn key_of(record: Self::V) -> Seq<char>;

    /// Whether the record has a key.
    fn has_key(&self, key: &str) -> (r: bool)
        ensures
            r == (Self::key_of(self@) == key@),
    ;
}

/// The first record with a key, if there is one.
pub open spec fn found<T: Keyed>(table: Seq<T::V>, key: Seq<char>) -> Option<T::V>
    decreases table.len(),
{
    if table.len() == 0 {
        None
    } else if T::key_of(table[0]) == key {
        Some(table[0])
    } else {
        found::<T>(table.skip(1), key)
    }
}

/// The position of the first record with a key.
pub fn position<T: Keyed>(table: &Vec<T>, key: &str) -> (r: Option<usize>)
    ensures
        match r {
            Some(i) => {
                &&& i < table@.len()
                &&& found::<T>(text::views(table@), key@) == Some(table@[i as int]@)
                &&& T::key_of(table@[i as int]@) == key@
                &&& forall|k: int| 0 <= k < i ==> T::key_of(#[trigger] table@[k]@) != key@
            },
            None => {
                &&& found::<T>(text::views(table@), key@) is None
                &&& forall|k: int|
                    0 <= k < table@.len() ==> T::key_of(#[trigger] table@[k]@) != key@
            },
        },
{
    let ghost all = text::views(table@);
    let mut i: usize = 0;
    assert(all.skip(0) =~= all);
    while i < table.len()
        invariant
            i <= table@.len(),
            all == text::views(table@),
            found::<T>(all, key@) == found::<T>(all.skip(i as int), key@),
            forall|k: int| 0 <= k < i ==> T::key_of(#[trigger] table@[k]@) != key@,
        decreases table@.len() - i,
    {
        assert(all.skip(i as int)[0] == table@[i as int]@);
        if table[i].has_key(key) {
            return Some(i);
        }
        assert(all.skip(i as int).skip(1) =~= all.skip(i + 1));
        i = i + 1;
    }
    None
}

/// The first record with a key.
pub fn find<'a, T: Keyed>(table: &'a Vec<T>, key: &str) -> (r: Option<&'a T>)
    ensures
        match r {
            Some(record) => found::<T>(text::views(table@), key@) == Some(record@),
            None => found::<T>(text::views(table@), key@) is None,
        },
{
    match position(table, key) {
        Some(i) => Some(&table[i]),
        None => None,
    }
}

/// What is found stands in the table and has the key.
pub proof fn lemma_found<T: Keyed>(table: Seq<T::V>, key: Seq<char>)
    ensures
        match found::<T>(table, key) {
            Some(record) => T::key_of(record) == key && table.contains(record),
            None => forall|k: int| 0 <= k < table.len() ==> T::key_of(#[trigger] table[k]) != key,
        },
    decreases table.len(),
{
    if table.len() > 0 {
        if T::key_of(table[0]) == key {
            assert(table.contains(table[0]));
        } else {
            let rest = table.skip(1);
            lemma_found::<T>(rest, key);
            match found::<T>(rest, key) {
                Some(record) => {
                    let k = rest.index_of(record);
                    assert(table[k + 1] == record);
                },
                None => {
                    assert forall|k: int| 0 <= k < table.len() implies T::key_of(
                        #[trigger] table[k],
                    ) != key by {
                        if k > 0 {
                            assert(rest[k - 1] == table[k]);
                        }
                    }
                },
            }
        }
    }
}

/// Of the records with a key the first one is found.
pub proof fn law_first_with_key_is_found<T: Keyed>(table: Seq<T::V>, key: Seq<char>, i: int)
    requires
        0 <= i < table.len(),
        T::key_of(table[i]) == key,
        forall|j: int| 0 <= j < i ==> T::key_of(#[trigger] table[j]) != key,
    ensures
        found::<T>(table, key) == Some(table[i]),
    decreases i,
{
    if i > 0 {
        assert(T::key_of(table[0]) != key);
        let rest = table.skip(1);
        assert(rest[i - 1] == table[i]);
        assert forall|j: int| 0 <= j < i - 1 implies T::key_of(#[trigger] rest[j]) != key by {
            assert(rest[j] == table[j + 1]);
        }
        law_first_with_key_is_found::<T>(rest, key, i - 1);
    }
}

/// Nothing is found where no record has the key, and only there.
pub proof fn law_missing_key_is_not_found<T: Keyed>(table: Seq<T::V>, key: Seq<char>)
    ensures
        found::<T>(table, key) is None <==> forall|k: int|
            0 <= k < table.len() ==> T::key_of(#[trigger] table[k]) != key,
{
    lemma_found::<T>(table, key);
    match found::<T>(table, key) {
        Some(record) => {
            let k = table.index_of(record);
            assert(T::key_of(table[k]) == key);
        },
        None => {},
    }
}

} // verus!
