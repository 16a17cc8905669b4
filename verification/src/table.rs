//! A table from texts to values that remembers the order of its rows.
use vstd::prelude::*;

use crate::text;

verus! {

/// A table with one row for each key. A new key goes to the end; a key that is there
/// already keeps its place and gets the new value.
pub struct Table<V> {
    rows: Vec<(String, V)>,
}

/// Whether one of the rows has the key.
pub open spec fn has_key<V>(rows: Seq<(Seq<char>, V)>, key: Seq<char>) -> bool {
    exists|i: int| 0 <= i < rows.len() && (#[trigger] rows[i]).0 == key
}

/// The number of a row with the key, where there is one.
pub open spec fn row_of<V>(rows: Seq<(Seq<char>, V)>, key: Seq<char>) -> int {
    choose|i: int| 0 <= i < rows.len() && (#[trigger] rows[i]).0 == key
}

/// Whether no key has two rows.
pub open spec fn unique<V>(rows: Seq<(Seq<char>, V)>) -> bool {
    forall|i: int, j: int|
        0 <= i < rows.len() && 0 <= j < rows.len() && (#[trigger] rows[i]).0 == (
        #[trigger] rows[j]).0 ==> i == j
}

/// The value of each key.
pub open spec fn content<V>(rows: Seq<(Seq<char>, V)>) -> Map<Seq<char>, V> {
    Map::new(|key: Seq<char>| has_key(rows, key), |key: Seq<char>| rows[row_of(rows, key)].1)
}

/// The rows with a value for a key.
pub open spec fn inserted<V>(rows: Seq<(Seq<char>, V)>, key: Seq<char>, value: V) -> Seq<
    (Seq<char>, V),
> {
    if has_key(rows, key) {
        rows.update(row_of(rows, key), (key, value))
    } else {
        rows.push((key, value))
    }
}

pub proof fn lemma_content<V>(rows: Seq<(Seq<char>, V)>, i: int)
    requires
        unique(rows),
        0 <= i < rows.len(),
    ensures
        content(rows).contains_key(rows[i].0),
        content(rows)[rows[i].0] == rows[i].1,
{
    assert(has_key(rows, rows[i].0));
    assert(row_of(rows, rows[i].0) == i);
}

proof fn lemma_push<V>(rows: Seq<(Seq<char>, V)>, key: Seq<char>, value: V)
    requires
        unique(rows),
        !has_key(rows, key),
    ensures
        unique(rows.push((key, value))),
        content(rows.push((key, value))) == content(rows).insert(key, value),
{
    let more = rows.push((key, value));
    assert(more[rows.len() as int].0 == key);
    assert(unique(more));
    assert forall|k: Seq<char>| #[trigger] content(more).contains_key(k) <==> content(
        rows,
    ).insert(key, value).contains_key(k) by {
        if has_key(rows, k) {
            assert(more[row_of(rows, k)].0 == k);
        }
        if has_key(more, k) && k != key {
            assert(rows[row_of(more, k)].0 == k);
        }
    }
    assert forall|k: Seq<char>| #[trigger] content(more).contains_key(k) implies content(more)[k]
        == content(rows).insert(key, value)[k] by {
        if k != key {
            let i = row_of(more, k);
            assert(rows[i].0 == k);
            lemma_content(rows, i);
        }
    }
    assert(content(more) =~= content(rows).insert(key, value));
}

proof fn lemma_update<V>(rows: Seq<(Seq<char>, V)>, i: int, value: V)
    requires
        unique(rows),
        0 <= i < rows.len(),
    ensures
        unique(rows.update(i, (rows[i].0, value))),
        content(rows.update(i, (rows[i].0, value))) == content(rows).insert(rows[i].0, value),
{
    let key = rows[i].0;
    let more = rows.update(i, (key, value));
    assert(forall|j: int| 0 <= j < rows.len() ==> (#[trigger] more[j]).0 == rows[j].0);
    assert(unique(more));
    assert forall|k: Seq<char>| #[trigger] content(more).contains_key(k) <==> content(
        rows,
    ).insert(key, value).contains_key(k) by {
        if has_key(rows, k) {
            assert(more[row_of(rows, k)].0 == k);
        }
        if has_key(more, k) {
            assert(rows[row_of(more, k)].0 == k);
        }
        assert(more[i].0 == key);
    }
    assert forall|k: Seq<char>| #[trigger] content(more).contains_key(k) implies content(more)[k]
        == content(rows).insert(key, value)[k] by {
        let j = row_of(more, k);
        assert(rows[j].0 == k);
        lemma_content(rows, j);
        assert(k == key ==> j == i);
    }
    assert(content(more) =~= content(rows).insert(key, value));
}

proof fn lemma_remove<V>(rows: Seq<(Seq<char>, V)>, i: int)
    requires
        unique(rows),
        0 <= i < rows.len(),
    ensures
        unique(rows.remove(i)),
        content(rows.remove(i)) == content(rows).remove(rows[i].0),
{
    let key = rows[i].0;
    let less = rows.remove(i);
    assert(forall|j: int|
        0 <= j < less.len() ==> #[trigger] less[j] == rows[if j < i { j } else { j + 1 }]);
    assert forall|a: int, b: int|
        0 <= a < less.len() && 0 <= b < less.len() && (#[trigger] less[a]).0 == (
        #[trigger] less[b]).0 implies a == b by {
        let ra = rows[if a < i { a } else { a + 1 }];
        let rb = rows[if b < i { b } else { b + 1 }];
        assert(ra.0 == rb.0);
    }
    assert forall|k: Seq<char>| #[trigger] content(less).contains_key(k) <==> content(
        rows,
    ).remove(key).contains_key(k) by {
        if has_key(rows, k) && k != key {
            let j = row_of(rows, k);
            assert(less[if j < i { j } else { j - 1 }].0 == k);
        }
        if has_key(less, k) {
            let j = row_of(less, k);
            let r = if j < i { j } else { j + 1 };
            assert(rows[r].0 == k);
            assert(k == key ==> r == i);
        }
    }
    assert forall|k: Seq<char>| #[trigger] content(less).contains_key(k) implies content(less)[k]
        == content(rows).remove(key)[k] by {
        let j = row_of(less, k);
        let r = if j < i { j } else { j + 1 };
        assert(less[j] == rows[r]);
        lemma_content(rows, r);
    }
    assert(content(less) =~= content(rows).remove(key));
}

impl<V> View for Table<V> {
    type V = Map<Seq<char>, V>;

    open spec fn view(&self) -> Map<Seq<char>, V> {
        content(self.rows())
    }
}

impl<V> Table<V> {
    /// The rows, in order.
    pub closed spec fn rows(&self) -> Seq<(Seq<char>, V)> {
        self.rows@.map_values(|row: (String, V)| (row.0@, row.1))
    }

    /// No key has two rows.
    pub open spec fn wf(&self) -> bool {
        unique(self.rows())
    }

    /// A table without rows.
    pub fn new() -> (r: Self)
        ensures
            r.wf(),
            r.rows() == Seq::<(Seq<char>, V)>::empty(),
            r@ == Map::<Seq<char>, V>::empty(),
    {
        let r = Table { rows: Vec::new() };
        assert(r.rows() =~= Seq::<(Seq<char>, V)>::empty());
        assert(r@ =~= Map::<Seq<char>, V>::empty());
        r
    }

    /// The number of rows.
    pub fn len(&self) -> (r: usize)
        ensures
            r == self.rows().len(),
    {
        self.rows.len()
    }

    /// The value of a row.
    pub fn value(&self, i: usize) -> (r: &V)
        requires
            i < self.rows().len(),
        ensures
            *r == self.rows()[i as int].1,
    {
        &self.rows[i].1
    }

    fn find(&self, key: &str) -> (r: Option<usize>)
        requires
            self.wf(),
        ensures
            match r {
                Some(i) => i < self.rows().len() && self.rows()[i as int].0 == key@,
                None => !has_key(self.rows(), key@),
            },
    {
        for i in 0..self.rows.len()
            invariant
                forall|j: int| 0 <= j < i ==> (#[trigger] self.rows()[j]).0 != key@,
        {
            if text::same(self.rows[i].0.as_str(), key) {
                return Some(i);
            }
        }
        None
    }

    /// Whether the key has a row.
    pub fn contains_key(&self, key: &str) -> (r: bool)
        requires
            self.wf(),
        ensures
            r == self@.contains_key(key@),
    {
        match self.find(key) {
            Some(i) => {
                assert(has_key(self.rows(), self.rows()[i as int].0));
                true
            },
            None => false,
        }
    }

    /// The value of a key.
    pub fn get(&self, key: &str) -> (r: Option<&V>)
        requires
            self.wf(),
        ensures
            match r {
                Some(value) => self@.contains_key(key@) && *value == self@[key@],
                None => !self@.contains_key(key@),
            },
    {
        match self.find(key) {
            Some(i) => {
                proof {
                    lemma_content(self.rows(), i as int);
                }
                Some(&self.rows[i].1)
            },
            None => None,
        }
    }

    /// Gives a key a value.
    pub fn insert(&mut self, key: String, value: V)
        requires
            old(self).wf(),
        ensures
            final(self).wf(),
            final(self).rows() == inserted(old(self).rows(), key@, value),
            final(self)@ == old(self)@.insert(key@, value),
    {
        match self.find(key.as_str()) {
            Some(i) => {
                assert(has_key(self.rows(), self.rows()[i as int].0));
                assert(row_of(self.rows(), key@) == i);
                proof {
                    lemma_update(self.rows(), i as int, value);
                }
                self.rows.set(i, (key, value));
                assert(self.rows() =~= old(self).rows().update(i as int, (key@, value)));
            },
            None => {
                proof {
                    lemma_push(self.rows(), key@, value);
                }
                self.rows.push((key, value));
                assert(self.rows() =~= old(self).rows().push((key@, value)));
            },
        }
    }

    /// Takes a key's row out.
    pub fn remove(&mut self, key: &str) -> (r: Option<V>)
        requires
            old(self).wf(),
        ensures
            final(self).wf(),
            final(self)@ == old(self)@.remove(key@),
            match r {
                Some(value) => old(self)@.contains_key(key@) && value == old(self)@[key@],
                None => !old(self)@.contains_key(key@),
            },
    {
        match self.find(key) {
            Some(i) => {
                proof {
                    lemma_content(self.rows(), i as int);
                    lemma_remove(self.rows(), i as int);
                }
                let row = self.rows.remove(i);
                assert(self.rows() =~= old(self).rows().remove(i as int));
                Some(row.1)
            },
            None => {
                assert(self@ =~= self@.remove(key@));
                None
            },
        }
    }
}

/// Giving a key a value changes that key's value and nothing else, and keeps the other rows
/// in their places: a new key goes to the end.
pub proof fn law_inserted<V>(rows: Seq<(Seq<char>, V)>, key: Seq<char>, value: V)
    requires
        unique(rows),
    ensures
        unique(inserted(rows, key, value)),
        content(inserted(rows, key, value)) == content(rows).insert(key, value),
        forall|i: int|
            0 <= i < rows.len() && (#[trigger] rows[i]).0 != key ==> inserted(rows, key, value)[i]
                == rows[i],
        inserted(rows, key, value).len() == rows.len() + (if exists|i: int|
            0 <= i < rows.len() && (#[trigger] rows[i]).0 == key {
            0nat
        } else {
            1
        }),
{
    if has_key(rows, key) {
        lemma_update(rows, row_of(rows, key), value);
    } else {
        lemma_push(rows, key, value);
    }
}

} // verus!
