//! A map from texts to values, kept as a list of entries.

use vstd::prelude::*;

use crate::copying::Duplicate;
use crate::text;

verus! {

/// A map with text keys. Where a key stands in several entries, the last one
/// counts.
pub struct TextMap<V> {
    pub entries: Vec<(String, V)>,
}

/// What a list of entries maps: the last entry of a key counts.
pub open spec fn map_of<V: View>(s: Seq<(String, V)>) -> Map<Seq<char>, V::V>
    decreases s.len(),
{
    if s.len() == 0 {
        Map::empty()
    } else {
        map_of(s.drop_last()).insert(s.last().0@, s.last().1@)
    }
}

impl<V: View> View for TextMap<V> {
    type V = Map<Seq<char>, V::V>;

    open spec fn view(&self) -> Map<Seq<char>, V::V> {
        map_of(self.entries@)
    }
}

proof fn lemma_map_last<V: View>(s: Seq<(String, V)>, i: int)
    requires
        0 <= i < s.len(),
        forall|k: int| i < k < s.len() ==> (#[trigger] s[k]).0@ != s[i].0@,
    ensures
        map_of(s).contains_key(s[i].0@),
        map_of(s)[s[i].0@] == s[i].1@,
    decreases s.len(),
{
    if i < s.len() - 1 {
        assert(s[s.len() - 1].0@ != s[i].0@);
        lemma_map_last(s.drop_last(), i);
    }
}

proof fn lemma_map_absent<V: View>(s: Seq<(String, V)>, key: Seq<char>)
    requires
        forall|k: int| 0 <= k < s.len() ==> (#[trigger] s[k]).0@ != key,
    ensures
        !map_of(s).contains_key(key),
    decreases s.len(),
{
    if s.len() > 0 {
        assert(s[s.len() - 1].0@ != key);
        lemma_map_absent(s.drop_last(), key);
    }
}

proof fn lemma_map_update<V: View>(s: Seq<(String, V)>, i: int, entry: (String, V))
    requires
        0 <= i < s.len(),
        s[i].0@ == entry.0@,
        forall|k: int| i < k < s.len() ==> (#[trigger] s[k]).0@ != s[i].0@,
    ensures
        map_of(s.update(i, entry)) == map_of(s).insert(entry.0@, entry.1@),
    decreases s.len(),
{
    let t = s.update(i, entry);
    if i == s.len() - 1 {
        assert(t.drop_last() =~= s.drop_last());
        assert(map_of(t) =~= map_of(s).insert(entry.0@, entry.1@));
    } else {
        assert(s[s.len() - 1].0@ != entry.0@);
        assert(t.drop_last() =~= s.drop_last().update(i, entry));
        lemma_map_update(s.drop_last(), i, entry);
        assert(map_of(t) =~= map_of(s).insert(entry.0@, entry.1@));
    }
}

/// A map with each of some keys set to one value.
pub open spec fn marked(
    m: Map<Seq<char>, Seq<char>>,
    keys: Seq<Seq<char>>,
    value: Seq<char>,
) -> Map<Seq<char>, Seq<char>> {
    Map::new(
        |k: Seq<char>| m.contains_key(k) || keys.contains(k),
        |k: Seq<char>|
            if keys.contains(k) {
                value
            } else {
                m[k]
            },
    )
}

/// A map with each value above a limit set to the limit.
pub open spec fn capped(m: Map<Seq<char>, i64>, limit: i64) -> Map<Seq<char>, i64> {
    Map::new(
        |k: Seq<char>| m.contains_key(k),
        |k: Seq<char>|
            if m[k] <= limit {
                m[k]
            } else {
                limit
            },
    )
}

impl<V: View> TextMap<V> {
    /// The empty map.
    pub fn new() -> (r: Self)
        ensures
            r@ == Map::<Seq<char>, V::V>::empty(),
            r.entries@.len() == 0,
    {
        TextMap { entries: Vec::new() }
    }

    /// The position of the entry that counts for a key.
    fn position(&self, key: &str) -> (r: Option<usize>)
        ensures
            r is Some <==> self@.contains_key(key@),
            r matches Some(i) ==> {
                &&& i < self.entries@.len()
                &&& self.entries@[i as int].0@ == key@
                &&& forall|k: int|
                    i < k < self.entries@.len() ==> (#[trigger] self.entries@[k]).0@ != key@
                &&& self.entries@[i as int].1@ == self@[key@]
            },
    {
        let mut i: usize = self.entries.len();
        while i > 0
            invariant
                i <= self.entries@.len(),
                forall|k: int|
                    i <= k < self.entries@.len() ==> (#[trigger] self.entries@[k]).0@ != key@,
            decreases i,
        {
            i = i - 1;
            if text::same(self.entries[i].0.as_str(), key) {
                proof {
                    lemma_map_last(self.entries@, i as int);
                }
                return Some(i);
            }
        }
        proof {
            lemma_map_absent(self.entries@, key@);
        }
        None
    }

    /// The value of a key.
    pub fn get(&self, key: &str) -> (r: Option<&V>)
        ensures
            r is Some <==> self@.contains_key(key@),
            r matches Some(v) ==> v@ == self@[key@],
    {
        match self.position(key) {
            Some(i) => Some(&self.entries[i].1),
            None => None,
        }
    }

    /// Gives a key a value, in place of the one it had.
    pub fn insert(&mut self, key: String, value: V)
        ensures
            final(self)@ == old(self)@.insert(key@, value@),
    {
        match self.position(key.as_str()) {
            Some(i) => {
                let ghost before = self.entries@;
                let ghost entry = (key, value);
                proof {
                    lemma_map_update(before, i as int, entry);
                }
                self.entries.set(i, (key, value));
            },
            None => {
                let ghost before = self.entries@;
                let ghost entry = (key, value);
                self.entries.push((key, value));
                assert(self.entries@.drop_last() =~= before);
            },
        }
    }
}

impl TextMap<String> {
    /// Sets each of some keys to one value.
    pub fn mark(&mut self, keys: &Vec<String>, value: &str)
        ensures
            final(self)@ == marked(old(self)@, text::views(keys@), value@),
    {
        let ghost before = self@;
        let ghost all = text::views(keys@);
        let mut i: usize = 0;
        assert(self@ =~= marked(before, all.take(0), value@));
        while i < keys.len()
            invariant
                i <= keys@.len(),
                all == text::views(keys@),
                self@ == marked(before, all.take(i as int), value@),
            decreases keys@.len() - i,
        {
            self.insert(keys[i].clone(), value.to_string());
            proof {
                text::lemma_take_contains(all, i as int);
                let more = all.take(i + 1);
                assert(self@ =~= marked(before, more, value@));
            }
            i = i + 1;
        }
        assert(all.take(all.len() as int) =~= all);
    }
}

impl TextMap<i64> {
    /// Sets each value above a limit to the limit.
    pub fn cap(self, limit: i64) -> (r: Self)
        ensures
            r@ == capped(self@, limit),
    {
        let ghost all = self.entries@;
        let mut out: Vec<(String, i64)> = Vec::new();
        assert(map_of(out@) =~= capped(map_of(all.take(0)), limit));
        for entry in it: self.entries
            invariant
                it.seq() == all,
                map_of(out@) == capped(map_of(all.take(it.index() as int)), limit),
        {
            let (key, value) = entry;
            let kept: i64 = if value <= limit {
                value
            } else {
                limit
            };
            proof {
                let at = it.index() as int;
                assert(all.take(at + 1).drop_last() =~= all.take(at));
                assert(all.take(at + 1).last() == (key, value));
                assert(out@.push((key, kept)).drop_last() =~= out@);
                assert(map_of(out@.push((key, kept))) =~= capped(
                    map_of(all.take(at + 1)),
                    limit,
                ));
            }
            out.push((key, kept));
        }
        assert(all.take(all.len() as int) =~= all);
        TextMap { entries: out }
    }
}

impl<V: Duplicate> Duplicate for TextMap<V> {
    fn duplicate(&self) -> (r: Self) {
        let mut out: Vec<(String, V)> = Vec::new();
        let mut i: usize = 0;
        assert(self.entries@.take(0).len() == 0);
        while i < self.entries.len()
            invariant
                i <= self.entries@.len(),
                out@.len() == i,
                map_of(out@) == map_of(self.entries@.take(i as int)),
            decreases self.entries@.len() - i,
        {
            let ghost before = out@;
            out.push((self.entries[i].0.clone(), self.entries[i].1.duplicate()));
            proof {
                assert(out@.drop_last() =~= before);
                assert(self.entries@.take(i + 1).drop_last() =~= self.entries@.take(i as int));
            }
            i = i + 1;
        }
        assert(self.entries@.take(self.entries@.len() as int) =~= self.entries@);
        TextMap { entries: out }
    }
}

/// Capping a map keeps its keys, keeps each value that is not above the limit, and
/// puts the limit in the place of every other one.
pub proof fn law_capped_map_is_within_the_limit(
    m: Map<Seq<char>, i64>,
    limit: i64,
    key: Seq<char>,
)
    ensures
        capped(m, limit).contains_key(key) <==> m.contains_key(key),
        m.contains_key(key) && m[key] <= limit ==> capped(m, limit)[key] == m[key],
        m.contains_key(key) && m[key] > limit ==> capped(m, limit)[key] == limit,
{
}

/// Marking keys of a map sets each of them to the value, adds those that were not
/// there, and keeps the others.
pub proof fn law_marked_map_keeps_the_others(
    m: Map<Seq<char>, Seq<char>>,
    keys: Seq<Seq<char>>,
    value: Seq<char>,
    key: Seq<char>,
)
    ensures
        marked(m, keys, value).contains_key(key) <==> m.contains_key(key) || keys.contains(key),
        keys.contains(key) ==> marked(m, keys, value)[key] == value,
        m.contains_key(key) && !keys.contains(key) ==> marked(m, keys, value)[key] == m[key],
{
}

} // verus!
