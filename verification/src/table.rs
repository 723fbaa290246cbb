use crate::outside::same_text;
use vstd::prelude::*;

verus! {

/// Something that is told apart by a key of text.
pub trait Key {
    /// The key.
    spec fn key(&self) -> Seq<char>;
}

/// A row that a table finds by its key.
pub trait Keyed: Key {
    /// The key of the row.
    fn key_text(&self) -> (r: &str)
        ensures
            r@ == self.key(),
    ;
}

/// No two rows share a key.
pub open spec fn distinct_keys<R: Key>(rows: Seq<R>) -> bool {
    forall|i: int, j: int|
        0 <= i < j < rows.len() ==> (#[trigger] rows[i]).key() != (#[trigger] rows[j]).key()
}

/// Some row carries the key.
pub open spec fn has_key<R: Key>(rows: Seq<R>, key: Seq<char>) -> bool {
    exists|i: int| 0 <= i < rows.len() && (#[trigger] rows[i]).key() == key
}

/// The row with the key, if there is one.
pub open spec fn row_with_key<R: Key>(rows: Seq<R>, key: Seq<char>) -> Option<R> {
    if has_key(rows, key) {
        Some(rows[choose|i: int| 0 <= i < rows.len() && (#[trigger] rows[i]).key() == key])
    } else {
        None
    }
}

/// With distinct keys, the row with a key is the one found at any place
/// where the key stands.
pub proof fn lemma_row_with_key<R: Key>(rows: Seq<R>, i: int)
    requires
        distinct_keys(rows),
        0 <= i < rows.len(),
    ensures
        row_with_key(rows, rows[i].key()) == Some(rows[i]),
{
    let key = rows[i].key();
    let j = choose|j: int| 0 <= j < rows.len() && (#[trigger] rows[j]).key() == key;
    if i < j {
        assert(rows[i].key() != rows[j].key());
    } else if j < i {
        assert(rows[j].key() != rows[i].key());
    }
}

/// The rows as they stand after an insert that leaves an existing key alone.
pub open spec fn inserted_or_ignored<R: Key>(rows: Seq<R>, row: R) -> Seq<R> {
    if has_key(rows, row.key()) {
        rows
    } else {
        rows.push(row)
    }
}

/// Finds the row with the key.
pub fn find_row<R: Keyed>(rows: &Vec<R>, key: &str) -> (r: Option<usize>)
    ensures
        match r {
            Some(i) => i < rows@.len() && rows@[i as int].key() == key@,
            None => !has_key(rows@, key@),
        },
{
    let mut i: usize = 0;
    while i < rows.len()
        invariant
            i <= rows@.len(),
            forall|j: int| 0 <= j < i ==> (#[trigger] rows@[j]).key() != key@,
        decreases rows@.len() - i,
    {
        if same_text(rows[i].key_text(), key) {
            return Some(i);
        }
        i += 1;
    }
    None
}

/// Adds the row unless a row with its key is there already. Says whether it
/// was added.
pub fn insert_or_ignore<R: Keyed>(rows: &mut Vec<R>, row: R) -> (added: bool)
    requires
        distinct_keys(old(rows)@),
    ensures
        distinct_keys(final(rows)@),
        added == !has_key(old(rows)@, row.key()),
        final(rows)@ == inserted_or_ignored(old(rows)@, row),
{
    match find_row(rows, row.key_text()) {
        Some(_) => false,
        None => {
            rows.push(row);
            true
        },
    }
}

/// With distinct keys, a key is found at one place only.
pub proof fn lemma_key_once<R: Key>(rows: Seq<R>, i: int, j: int)
    requires
        distinct_keys(rows),
        0 <= i < rows.len(),
        0 <= j < rows.len(),
        rows[i].key() == rows[j].key(),
    ensures
        i == j,
{
    if i < j {
        assert(rows[i].key() != rows[j].key());
    } else if j < i {
        assert(rows[j].key() != rows[i].key());
    }
}

/// What a table of rows holds.
pub open spec fn views_of<R: View>(rows: Seq<R>) -> Seq<R::V> {
    rows.map_values(|r: R| r@)
}

/// What a list of borrowed rows holds.
pub open spec fn views_of_borrowed<R: View>(rows: Seq<&R>) -> Seq<R::V> {
    rows.map_values(|r: &R| r@)
}

/// Filtering one row more either adds that row or changes nothing.
pub proof fn lemma_filter_next<T>(s: Seq<T>, p: spec_fn(T) -> bool, i: int)
    requires
        0 <= i < s.len(),
    ensures
        s.take(i + 1).filter(p) == if p(s[i]) {
            s.take(i).filter(p).push(s[i])
        } else {
            s.take(i).filter(p)
        },
{
    reveal(Seq::filter);
    assert(s.take(i + 1).drop_last() =~= s.take(i));
}

/// A table of rows and what it holds have the same keys.
pub proof fn lemma_views_keys<R: View + Key>(rows: Seq<R>) where R::V: Key
    requires
        forall|r: R| (#[trigger] r@).key() == r.key(),
    ensures
        distinct_keys(views_of(rows)) == distinct_keys(rows),
        forall|key: Seq<char>| has_key(views_of(rows), key) == has_key(rows, key),
{
    let views = views_of(rows);
    if distinct_keys(rows) {
        assert forall|i: int, j: int| 0 <= i < j < views.len() implies (#[trigger] views[i]).key()
            != (#[trigger] views[j]).key() by {
            assert(rows[i].key() != rows[j].key());
        }
    }
    if distinct_keys(views) {
        assert forall|i: int, j: int| 0 <= i < j < rows.len() implies (#[trigger] rows[i]).key()
            != (#[trigger] rows[j]).key() by {
            assert(views[i].key() != views[j].key());
        }
    }
    assert forall|key: Seq<char>| has_key(views, key) == has_key(rows, key) by {
        if has_key(rows, key) {
            let k = choose|k: int| 0 <= k < rows.len() && (#[trigger] rows[k]).key() == key;
            assert(views[k].key() == key);
        }
        if has_key(views, key) {
            let k = choose|k: int| 0 <= k < views.len() && (#[trigger] views[k]).key() == key;
            assert(rows[k].key() == key);
        }
    }
}

} // verus!
