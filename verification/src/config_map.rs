//! A map from text keys to text values.

use crate::text::eq_text;
use vstd::prelude::*;
use vstd::string::*;

verus! {

/// The last index at which a key stands.
pub open spec fn key_index(s: Seq<(String, String)>, k: Seq<char>) -> Option<int>
    decreases s.len(),
{
    if s.len() == 0 {
        None
    } else if s.last().0@ == k {
        Some(s.len() - 1)
    } else {
        key_index(s.drop_last(), k)
    }
}

/// `key_index` is the last index at which the key stands.
proof fn lemma_key_index(s: Seq<(String, String)>, k: Seq<char>)
    ensures
        key_index(s, k) matches Some(i) ==> 0 <= i < s.len() && s[i].0@ == k && forall|j: int|
            i < j < s.len() ==> s[j].0@ != k,
        key_index(s, k) is None ==> forall|j: int| 0 <= j < s.len() ==> s[j].0@ != k,
    decreases s.len(),
{
    if s.len() > 0 && s.last().0@ != k {
        let t = s.drop_last();
        lemma_key_index(t, k);
        assert forall|j: int| 0 <= j < t.len() implies s[j] == t[j] by {}
    }
}

/// `key_index` depends on the keys alone.
proof fn lemma_same_keys(s: Seq<(String, String)>, t: Seq<(String, String)>, k: Seq<char>)
    requires
        s.len() == t.len(),
        forall|j: int| 0 <= j < s.len() ==> s[j].0@ == t[j].0@,
    ensures
        key_index(s, k) == key_index(t, k),
    decreases s.len(),
{
    if s.len() > 0 {
        lemma_same_keys(s.drop_last(), t.drop_last(), k);
    }
}

/// A map from text keys to text values.
pub struct ConfigMap {
    entries: Vec<(String, String)>,
}

impl View for ConfigMap {
    type V = Map<Seq<char>, Seq<char>>;

    closed spec fn view(&self) -> Map<Seq<char>, Seq<char>> {
        Map::new(
            |k: Seq<char>| key_index(self.entries@, k) is Some,
            |k: Seq<char>| self.entries@[key_index(self.entries@, k)->0].1@,
        )
    }
}

impl ConfigMap {
    /// An empty map.
    pub fn new() -> (r: Self)
        ensures
            r@ == Map::<Seq<char>, Seq<char>>::empty(),
    {
        let r = ConfigMap { entries: Vec::new() };
        assert(r@ =~= Map::<Seq<char>, Seq<char>>::empty());
        r
    }

    /// The last index at which a key stands.
    fn find(&self, key: &str) -> (r: Option<usize>)
        ensures
            crate::text::index_option(r) == key_index(self.entries@, key@),
            r matches Some(i) ==> i < self.entries@.len(),
    {
        let mut i: usize = self.entries.len();
        assert(self.entries@.subrange(0, i as int) =~= self.entries@);
        while i > 0
            invariant
                i <= self.entries@.len(),
                key_index(self.entries@, key@) == key_index(
                    self.entries@.subrange(0, i as int),
                    key@,
                ),
            decreases i,
        {
            let ghost t = self.entries@.subrange(0, i as int);
            assert(t.drop_last() =~= self.entries@.subrange(0, i - 1));
            if eq_text(&self.entries[i - 1].0, key) {
                return Some(i - 1);
            }
            i = i - 1;
        }
        None
    }

    /// The value of a key.
    pub fn get(&self, key: &str) -> (r: Option<&String>)
        ensures
            r is Some <==> self@.contains_key(key@),
            r matches Some(v) ==> v@ == self@[key@],
    {
        match self.find(key) {
            Some(i) => Some(&self.entries[i].1),
            None => None,
        }
    }

    /// Whether a key has a value.
    pub fn contains_key(&self, key: &str) -> (r: bool)
        ensures
            r == self@.contains_key(key@),
    {
        self.find(key).is_some()
    }

    /// Gives a key a value, in place of the one it had.
    pub fn insert(&mut self, key: String, value: String)
        ensures
            final(self)@ == old(self)@.insert(key@, value@),
    {
        let ghost before = self.entries@;
        let ghost k = key@;
        let ghost v = value@;
        match self.find(&key) {
            Some(i) => {
                self.entries.set(i, (key, value));
                proof {
                    let after = self.entries@;
                    lemma_key_index(before, k);
                    assert forall|q: Seq<char>| key_index(before, q) == key_index(after, q) by {
                        lemma_same_keys(before, after, q);
                    }
                    assert forall|q: Seq<char>| q != k && key_index(before, q) is Some implies key_index(
                        before,
                        q,
                    )->0 != i && after[key_index(before, q)->0] == before[key_index(before, q)->0] by {
                        lemma_key_index(before, q);
                    }
                }
            },
            None => {
                self.entries.push((key, value));
                proof {
                    let after = self.entries@;
                    assert(after.drop_last() =~= before);
                    assert forall|q: Seq<char>| q != k implies key_index(before, q) == key_index(
                        after,
                        q,
                    ) by {}
                    assert forall|q: Seq<char>| q != k && key_index(before, q) is Some implies after[key_index(
                        before,
                        q,
                    )->0] == before[key_index(before, q)->0] by {
                        lemma_key_index(before, q);
                    }
                }
            },
        }
        assert(self@ =~= old(self)@.insert(k, v));
    }

    /// Takes over every entry of another map.
    pub fn extend(&mut self, other: &ConfigMap)
        ensures
            final(self)@ == old(self)@.union_prefer_right(other@),
    {
        let mut i: usize = 0;
        let ghost e = other.entries@;
        let ghost start = self@;
        assert(start =~= start.union_prefer_right(listed(e.subrange(0, 0))));
        while i < other.entries.len()
            invariant
                i <= e.len(),
                e == other.entries@,
                self@ == start.union_prefer_right(listed(e.subrange(0, i as int))),
            decreases e.len() - i,
        {
            let ghost t = e.subrange(0, i as int);
            let ghost u = e.subrange(0, i + 1);
            proof {
                lemma_listed_step(u);
                assert(u.drop_last() =~= t);
            }
            let key = other.entries[i].0.clone();
            let value = other.entries[i].1.clone();
            let ghost mid = self@;
            self.insert(key, value);
            assert(self@ =~= start.union_prefer_right(listed(u)));
            i = i + 1;
        }
        assert(e.subrange(0, e.len() as int) =~= e);
        assert(other@ =~= listed(e));
    }

    /// The entries, as a list.
    pub fn entries(&self) -> (r: Vec<(String, String)>)
        ensures
            listed(r@) == self@,
    {
        let mut out: Vec<(String, String)> = Vec::new();
        let mut i: usize = 0;
        let ghost e = self.entries@;
        assert(listed(out@) =~= listed(e.subrange(0, 0)));
        while i < self.entries.len()
            invariant
                i <= e.len(),
                e == self.entries@,
                listed(out@) == listed(e.subrange(0, i as int)),
            decreases e.len() - i,
        {
            let ghost u = e.subrange(0, i + 1);
            let ghost before = out@;
            out.push((self.entries[i].0.clone(), self.entries[i].1.clone()));
            proof {
                lemma_listed_step(u);
                lemma_listed_step(out@);
                assert(u.drop_last() =~= e.subrange(0, i as int));
                assert(out@.drop_last() =~= before);
            }
            i = i + 1;
        }
        assert(e.subrange(0, e.len() as int) =~= e);
        assert(self@ =~= listed(e));
        out
    }

    /// A copy of the map.
    pub fn copied(&self) -> (r: Self)
        ensures
            r@ == self@,
    {
        let mut r = ConfigMap::new();
        r.extend(self);
        assert(r@ =~= self@);
        r
    }
}

/// The map that a list of entries describes: the last entry of a key counts.
pub open spec fn listed(s: Seq<(String, String)>) -> Map<Seq<char>, Seq<char>> {
    Map::new(
        |k: Seq<char>| key_index(s, k) is Some,
        |k: Seq<char>| s[key_index(s, k)->0].1@,
    )
}

/// One more entry in the list is one more entry in the map.
proof fn lemma_listed_step(s: Seq<(String, String)>)
    requires
        s.len() > 0,
    ensures
        listed(s) == listed(s.drop_last()).insert(s.last().0@, s.last().1@),
{
    let t = s.drop_last();
    assert forall|q: Seq<char>| key_index(t, q) is Some implies s[key_index(t, q)->0]
        == t[key_index(t, q)->0] by {
        lemma_key_index(t, q);
    }
    assert(listed(s) =~= listed(t).insert(s.last().0@, s.last().1@));
}

// ── Laws ────────────────────────────────────────────────────────────────────

/// Law: of several entries under one key the last counts, and entries under other keys
/// do not matter.
pub proof fn law_the_last_entry_counts(s: Seq<(String, String)>, e: (String, String))
    ensures
        listed(s.push(e)) == listed(s).insert(e.0@, e.1@),
        listed(Seq::empty()) == Map::<Seq<char>, Seq<char>>::empty(),
{
    lemma_key_index(s, e.0@);
    let t = s.push(e);
    assert(t.drop_last() =~= s);
    assert forall|q: Seq<char>| #[trigger] key_index(s, q) is Some implies 0 <= key_index(s, q)->0
        < s.len() by {
        lemma_key_index(s, q);
    }
    assert(listed(t) =~= listed(s).insert(e.0@, e.1@));
    assert(listed(Seq::empty()) =~= Map::<Seq<char>, Seq<char>>::empty());
}

} // verus!
