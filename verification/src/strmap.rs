use vstd::prelude::*;

verus! {

/// An association list from string keys to values, read through its view as a
/// finite map. Later entries shadow earlier ones with the same key, so pushing
/// a pair is exactly `Map::insert` on the view, and concatenating two entry
/// lists is a right-preferring union of their views.
#[derive(Debug)]
pub struct StrMap<V> {
    entries: Vec<(String, V)>,
}

/// The finite map denoted by an entry sequence: entries are folded in order,
/// so the last entry with a given key wins.
pub open spec fn map_of<V: View>(es: Seq<(String, V)>) -> Map<Seq<char>, V::V>
    decreases es.len(),
{
    if es.len() == 0 {
        Map::empty()
    } else {
        map_of(es.drop_last()).insert(es.last().0@, es.last().1@)
    }
}

/// A key is in the map exactly when some entry carries it.
pub proof fn lemma_map_of_contains<V: View>(es: Seq<(String, V)>, k: Seq<char>)
    ensures
        map_of(es).contains_key(k) <==> exists|j: int|
            0 <= j < es.len() && (#[trigger] es[j]).0@ == k,
    decreases es.len(),
{
    if es.len() > 0 {
        lemma_map_of_contains(es.drop_last(), k);
        if es.last().0@ == k {
            assert((es[es.len() - 1]).0@ == k);
        } else {
            if map_of(es).contains_key(k) {
                let j = choose|j: int|
                    0 <= j < es.drop_last().len() && (#[trigger] es.drop_last()[j]).0@ == k;
                assert((es[j]).0@ == k);
            }
            if exists|j: int| 0 <= j < es.len() && (#[trigger] es[j]).0@ == k {
                let j = choose|j: int| 0 <= j < es.len() && (#[trigger] es[j]).0@ == k;
                assert(es.drop_last()[j] == es[j]);
            }
        }
    }
}

/// The value at a key is the one of the last entry carrying that key.
pub proof fn lemma_map_of_last_wins<V: View>(es: Seq<(String, V)>, i: int)
    requires
        0 <= i < es.len(),
        forall|j: int| i < j < es.len() ==> (#[trigger] es[j]).0@ != es[i].0@,
    ensures
        map_of(es).contains_key(es[i].0@),
        map_of(es)[es[i].0@] == es[i].1@,
    decreases es.len(),
{
    if i == es.len() - 1 {
    } else {
        assert(es.drop_last()[i] == es[i]);
        lemma_map_of_last_wins(es.drop_last(), i);
        assert(es.last().0@ != es[i].0@);
    }
}

/// Concatenating entry lists unions their maps, preferring the second.
pub proof fn lemma_map_of_concat<V: View>(es1: Seq<(String, V)>, es2: Seq<(String, V)>)
    ensures
        map_of(es1 + es2) == map_of(es1).union_prefer_right(map_of(es2)),
    decreases es2.len(),
{
    if es2.len() == 0 {
        assert(es1 + es2 =~= es1);
        assert(map_of(es1).union_prefer_right(map_of(es2)) =~= map_of(es1));
    } else {
        lemma_map_of_concat(es1, es2.drop_last());
        assert((es1 + es2).drop_last() =~= es1 + es2.drop_last());
        assert((es1 + es2).last() == es2.last());
        assert(map_of(es1).union_prefer_right(map_of(es2.drop_last())).insert(
            es2.last().0@,
            es2.last().1@,
        ) =~= map_of(es1).union_prefer_right(map_of(es2)));
    }
}

impl<V: View> View for StrMap<V> {
    type V = Map<Seq<char>, V::V>;

    closed spec fn view(&self) -> Map<Seq<char>, V::V> {
        map_of(self.entries@)
    }
}

impl<V: View> StrMap<V> {
    /// The entry list itself, in insertion order.
    pub closed spec fn pairs(&self) -> Seq<(String, V)> {
        self.entries@
    }

    /// The map view is the fold of the entry list.
    pub proof fn lemma_view_is_map_of(&self)
        ensures
            self@ == map_of(self.pairs()),
    {
    }

    pub fn new() -> (r: StrMap<V>)
        ensures
            r@ == Map::<Seq<char>, V::V>::empty(),
            r.pairs().len() == 0,
    {
        StrMap { entries: Vec::new() }
    }

    /// Binds `k` to `v`, shadowing any earlier binding of `k`.
    pub fn insert(&mut self, k: String, v: V)
        ensures
            final(self)@ == old(self)@.insert(k@, v@),
            final(self).pairs() == old(self).pairs().push((k, v)),
    {
        let ghost es0 = self.entries@;
        self.entries.push((k, v));
        proof {
            assert(self.entries@.drop_last() =~= es0);
        }
    }

    /// Looks a key up; the last binding of the key is the one returned.
    pub fn get<'a>(&'a self, k: &String) -> (r: Option<&'a V>)
        ensures
            match r {
                Some(v) => self@.contains_key(k@) && v@ == self@[k@],
                None => !self@.contains_key(k@),
            },
    {
        let mut i: usize = self.entries.len();
        while i > 0
            invariant
                i <= self.entries@.len(),
                forall|j: int| i <= j < self.entries@.len() ==> (#[trigger] self.entries@[j]).0@ != k@,
            decreases i,
        {
            i = i - 1;
            if self.entries[i].0 == *k {
                proof {
                    lemma_map_of_last_wins(self.entries@, i as int);
                }
                return Some(&self.entries[i].1);
            }
        }
        proof {
            lemma_map_of_contains(self.entries@, k@);
        }
        None
    }

    pub fn contains_key(&self, k: &String) -> (r: bool)
        ensures
            r == self@.contains_key(k@),
    {
        self.get(k).is_some()
    }

    /// True exactly when the map holds no binding at all.
    pub fn is_empty(&self) -> (r: bool)
        ensures
            r == (self@ == Map::<Seq<char>, V::V>::empty()),
    {
        proof {
            if self.entries@.len() > 0 {
                let last = self.entries@.last();
                assert(self@.contains_key(last.0@));
                assert(!Map::<Seq<char>, V::V>::empty().contains_key(last.0@));
            }
        }
        self.entries.len() == 0
    }

    /// Moves every binding of `other` into `self`; on a shared key the
    /// binding of `other` wins.
    pub fn extend_from(&mut self, other: StrMap<V>)
        ensures
            final(self)@ == old(self)@.union_prefer_right(other@),
            final(self).pairs() == old(self).pairs() + other.pairs(),
    {
        let mut o = other;
        proof {
            lemma_map_of_concat(self.entries@, o.entries@);
        }
        self.entries.append(&mut o.entries);
    }

    /// Number of stored entries (bindings shadowed by a later entry included).
    pub fn entry_count(&self) -> (r: usize)
        ensures
            r == self.pairs().len(),
    {
        self.entries.len()
    }

    /// The entry at a position of the insertion-ordered list.
    pub fn entry_at(&self, i: usize) -> (r: &(String, V))
        requires
            i < self.pairs().len(),
        ensures
            *r == self.pairs()[i as int],
    {
        &self.entries[i]
    }
}

} // verus!
