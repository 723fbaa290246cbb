use crate::outside::same_text;
use vstd::prelude::*;

verus! {

/// The value that a list of entries gives for a key: that of the first entry
/// with the key.
pub open spec fn first_value<V>(entries: Seq<(String, V)>, key: Seq<char>) -> Option<V>
    decreases entries.len(),
{
    if entries.len() == 0 {
        None
    } else {
        match first_value(entries.drop_last(), key) {
            Some(v) => Some(v),
            None => if entries.last().0@ == key {
                Some(entries.last().1)
            } else {
                None
            },
        }
    }
}

/// No entry carries the key: the list gives no value for it.
pub proof fn lemma_first_value_absent<V>(entries: Seq<(String, V)>, key: Seq<char>)
    requires
        forall|j: int| 0 <= j < entries.len() ==> (#[trigger] entries[j]).0@ != key,
    ensures
        first_value(entries, key) is None,
    decreases entries.len(),
{
    if entries.len() > 0 {
        lemma_first_value_absent(entries.drop_last(), key);
    }
}

/// The entry at `i` carries the key and none before it does: the list gives
/// that entry's value.
pub proof fn lemma_first_value_found<V>(entries: Seq<(String, V)>, key: Seq<char>, i: int)
    requires
        0 <= i < entries.len(),
        entries[i].0@ == key,
        forall|j: int| 0 <= j < i ==> (#[trigger] entries[j]).0@ != key,
    ensures
        first_value(entries, key) == Some(entries[i].1),
    decreases entries.len(),
{
    if i == entries.len() - 1 {
        lemma_first_value_absent(entries.drop_last(), key);
    } else {
        lemma_first_value_found(entries.drop_last(), key, i);
    }
}

/// Two lists that agree wherever an entry carries the key, and carry it at
/// the same places, give the same value for it.
pub proof fn lemma_first_value_same<V>(
    a: Seq<(String, V)>,
    b: Seq<(String, V)>,
    key: Seq<char>,
)
    requires
        a.len() == b.len(),
        forall|j: int|
            0 <= j < a.len() ==> ((#[trigger] a[j]).0@ == key <==> (#[trigger] b[j]).0@ == key),
        forall|j: int| 0 <= j < a.len() && (#[trigger] a[j]).0@ == key ==> a[j].1 == b[j].1,
    ensures
        first_value(a, key) == first_value(b, key),
    decreases a.len(),
{
    if a.len() > 0 {
        let n = a.len() - 1;
        assert(a[n].0@ == key <==> b[n].0@ == key);
        assert forall|j: int| 0 <= j < a.drop_last().len() implies ((#[trigger] a.drop_last()[j]).0@
            == key <==> (#[trigger] b.drop_last()[j]).0@ == key) by {
            assert(a[j].0@ == key <==> b[j].0@ == key);
        }
        assert forall|j: int|
            0 <= j < a.drop_last().len() && (#[trigger] a.drop_last()[j]).0@
                == key implies a.drop_last()[j].1 == b.drop_last()[j].1 by {
            assert(a[j].1 == b[j].1);
        }
        lemma_first_value_same(a.drop_last(), b.drop_last(), key);
    }
}

/// A mapping from keys of text to values. The order in which the keys were
/// set does not show in its view.
#[derive(Debug)]
pub struct Dictionary<V> {
    entries: Vec<(String, V)>,
}

impl<V> View for Dictionary<V> {
    type V = Map<Seq<char>, V>;

    open spec fn view(&self) -> Map<Seq<char>, V> {
        Map::new(
            |k: Seq<char>| first_value(self.listed(), k) is Some,
            |k: Seq<char>| first_value(self.listed(), k)->Some_0,
        )
    }
}

impl<V> Dictionary<V> {
    /// The entries held. Where two carry the same key, the first counts.
    pub closed spec fn listed(self) -> Seq<(String, V)> {
        self.entries@
    }

    /// The entries held. Where two carry the same key, the first counts.
    pub fn entries(&self) -> (r: &Vec<(String, V)>)
        ensures
            r@ == self.listed(),
    {
        &self.entries
    }

    /// The mapping that the entries give: for each key the value of the first
    /// entry that carries it.
    pub fn from_entries(entries: Vec<(String, V)>) -> (r: Self)
        ensures
            r.listed() == entries@,
    {
        Dictionary { entries }
    }

    /// The value that the mapping holds for a key, if any.
    pub open spec fn value_of(self, key: Seq<char>) -> Option<V> {
        if self@.dom().contains(key) {
            Some(self@[key])
        } else {
            None
        }
    }

    /// The empty mapping.
    pub fn new() -> (r: Self)
        ensures
            r@ == Map::<Seq<char>, V>::empty(),
    {
        let r = Dictionary { entries: Vec::new() };
        assert(r@ =~= Map::<Seq<char>, V>::empty());
        r
    }

    /// Whether the mapping holds no key.
    pub fn is_empty(&self) -> (r: bool)
        ensures
            r == (self@ == Map::<Seq<char>, V>::empty()),
    {
        let r = self.entries.len() == 0;
        proof {
            if r {
                assert(self@ =~= Map::<Seq<char>, V>::empty());
            } else {
                let k = self.entries@[0].0@;
                if first_value(self.entries@, k) is None {
                    lemma_first_value_found(self.entries@, k, 0);
                }
                assert(self@.dom().contains(k));
            }
        }
        r
    }

    /// Finds the first entry with the key.
    fn position(&self, key: &str) -> (r: Option<usize>)
        ensures
            match r {
                Some(i) => i < self.entries@.len() && self.entries@[i as int].0@ == key@
                    && forall|j: int| 0 <= j < i ==> (#[trigger] self.entries@[j]).0@ != key@,
                None => forall|j: int|
                    0 <= j < self.entries@.len() ==> (#[trigger] self.entries@[j]).0@ != key@,
            },
    {
        let mut i: usize = 0;
        while i < self.entries.len()
            invariant
                i <= self.entries@.len(),
                forall|j: int| 0 <= j < i ==> (#[trigger] self.entries@[j]).0@ != key@,
            decreases self.entries@.len() - i,
        {
            if same_text(self.entries[i].0.as_str(), key) {
                return Some(i);
            }
            i += 1;
        }
        None
    }

    /// Looks a key up.
    pub fn get(&self, key: &str) -> (r: Option<&V>)
        ensures
            match r {
                Some(v) => self.value_of(key@) == Some(*v),
                None => self.value_of(key@) is None,
            },
    {
        match self.position(key) {
            Some(i) => {
                proof {
                    lemma_first_value_found(self.entries@, key@, i as int);
                }
                Some(&self.entries[i].1)
            },
            None => {
                proof {
                    lemma_first_value_absent(self.entries@, key@);
                }
                None
            },
        }
    }

    /// Sets the value for a key, in place of any value it had.
    pub fn insert(&mut self, key: String, value: V)
        ensures
            final(self)@ == old(self)@.insert(key@, value),
    {
        let ghost before = self.entries@;
        let ghost k = key@;
        match self.position(key.as_str()) {
            Some(i) => {
                self.entries.set(i, (key, value));
                proof {
                    let after = self.entries@;
                    lemma_first_value_found(after, k, i as int);
                    assert forall|other: Seq<char>| other != k implies first_value(after, other)
                        == first_value(before, other) by {
                        lemma_first_value_same(before, after, other);
                    }
                }
            },
            None => {
                self.entries.push((key, value));
                proof {
                    let after = self.entries@;
                    assert(after.drop_last() =~= before);
                    lemma_first_value_absent(before, k);
                }
            },
        }
        assert(self@ =~= old(self)@.insert(k, value));
    }
}

} // verus!
