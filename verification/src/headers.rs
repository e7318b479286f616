//! The header mapping: names to values, kept in the order in which the names
//! were first set. Names are compared byte for byte.

use crate::bytes::bytes_eq;
use vstd::prelude::*;

verus! {

/// The position of the entry under `name`; where the name stands more than
/// once, that of the last one.
pub open spec fn position(m: Seq<(Seq<u8>, Seq<u8>)>, name: Seq<u8>) -> Option<int>
    decreases m.len(),
{
    if m.len() == 0 {
        None
    } else if m.last().0 == name {
        Some(m.len() - 1)
    } else {
        position(m.drop_last(), name)
    }
}

/// The value stored under `name`, if there is one.
pub open spec fn lookup(m: Seq<(Seq<u8>, Seq<u8>)>, name: Seq<u8>) -> Option<Seq<u8>> {
    match position(m, name) {
        Some(i) => Some(m[i].1),
        None => None,
    }
}

/// The mapping after `value` is stored under `name`: an entry of that name
/// keeps its place and takes the new value, a new name goes to the end.
pub open spec fn put(m: Seq<(Seq<u8>, Seq<u8>)>, name: Seq<u8>, value: Seq<u8>) -> Seq<
    (Seq<u8>, Seq<u8>),
> {
    match position(m, name) {
        Some(i) => m.update(i, (name, value)),
        None => m.push((name, value)),
    }
}

/// Whether no name stands twice in `m`.
pub open spec fn distinct_names(m: Seq<(Seq<u8>, Seq<u8>)>) -> bool {
    forall|i: int, j: int| 0 <= i < j < m.len() ==> #[trigger] m[i].0 != #[trigger] m[j].0
}

/// Whether `name` stands at `i` in `m` and nowhere after it.
pub open spec fn last_at(m: Seq<(Seq<u8>, Seq<u8>)>, name: Seq<u8>, i: int) -> bool {
    &&& 0 <= i < m.len()
    &&& m[i].0 == name
    &&& forall|j: int| i < j < m.len() ==> (#[trigger] m[j]).0 != name
}

/// Whether `name` stands nowhere in `m`.
pub open spec fn unnamed(m: Seq<(Seq<u8>, Seq<u8>)>, name: Seq<u8>) -> bool {
    forall|j: int| 0 <= j < m.len() ==> (#[trigger] m[j]).0 != name
}

/// A name that stands at `i` and nowhere after it has the position `i`.
pub proof fn lemma_present(m: Seq<(Seq<u8>, Seq<u8>)>, name: Seq<u8>, i: int)
    requires
        last_at(m, name, i),
    ensures
        position(m, name) == Some(i),
    decreases m.len(),
{
    if i < m.len() - 1 {
        assert(m.last() == m[m.len() - 1]);
        lemma_present(m.drop_last(), name, i);
    }
}

/// A name that stands nowhere has no position.
pub proof fn lemma_missing(m: Seq<(Seq<u8>, Seq<u8>)>, name: Seq<u8>)
    requires
        unnamed(m, name),
    ensures
        position(m, name) is None,
    decreases m.len(),
{
    if m.len() > 0 {
        assert(m.last() == m[m.len() - 1]);
        lemma_missing(m.drop_last(), name);
    }
}

/// The position that `position` names holds the name, and nothing after it does.
pub proof fn lemma_position(m: Seq<(Seq<u8>, Seq<u8>)>, name: Seq<u8>)
    ensures
        match position(m, name) {
            Some(i) => last_at(m, name, i),
            None => unnamed(m, name),
        },
    decreases m.len(),
{
    if m.len() > 0 && m.last().0 != name {
        lemma_position(m.drop_last(), name);
        let front = m.drop_last();
        match position(front, name) {
            Some(i) => {
                assert(m[i] == front[i]);
                assert forall|j: int| i < j < m.len() implies (#[trigger] m[j]).0 != name by {
                    if j < front.len() {
                        assert(front[j] == m[j]);
                    }
                }
            },
            None => {
                assert forall|j: int| 0 <= j < m.len() implies (#[trigger] m[j]).0 != name by {
                    if j < front.len() {
                        assert(front[j] == m[j]);
                    }
                }
            },
        }
    }
}

/// Last wins: after `value` is stored under `name`, that name has that value,
/// and every other name has the value it had.
pub proof fn law_lookup_put(
    m: Seq<(Seq<u8>, Seq<u8>)>,
    name: Seq<u8>,
    value: Seq<u8>,
    other: Seq<u8>,
)
    ensures
        lookup(put(m, name, value), name) == Some(value),
        other != name ==> lookup(put(m, name, value), other) == lookup(m, other),
{
    let after = put(m, name, value);
    lemma_position(m, name);
    lemma_position(m, other);
    match position(m, name) {
        Some(i) => {
            assert(last_at(after, name, i)) by {
                assert forall|j: int| i < j < after.len() implies (#[trigger] after[j]).0
                    != name by {
                    assert(after[j] == m[j]);
                }
            }
            lemma_present(after, name, i);
            if other != name {
                match position(m, other) {
                    Some(k) => {
                        assert(last_at(after, other, k)) by {
                            assert forall|j: int| k < j < after.len() implies (
                            #[trigger] after[j]).0 != other by {
                                if j != i {
                                    assert(after[j] == m[j]);
                                }
                            }
                        }
                        lemma_present(after, other, k);
                    },
                    None => {
                        assert(unnamed(after, other)) by {
                            assert forall|j: int| 0 <= j < after.len() implies (
                            #[trigger] after[j]).0 != other by {
                                if j != i {
                                    assert(after[j] == m[j]);
                                }
                            }
                        }
                        lemma_missing(after, other);
                    },
                }
            }
        },
        None => {
            lemma_present(after, name, m.len() as int);
            if other != name {
                assert(after.drop_last() =~= m);
            }
        },
    }
}

/// Storing keeps names apart: where no name stood twice, none does after.
pub proof fn law_put_distinct(m: Seq<(Seq<u8>, Seq<u8>)>, name: Seq<u8>, value: Seq<u8>)
    requires
        distinct_names(m),
    ensures
        distinct_names(put(m, name, value)),
{
    lemma_position(m, name);
    let after = put(m, name, value);
    match position(m, name) {
        Some(k) => {
            assert forall|i: int, j: int| 0 <= i < j < after.len() implies #[trigger] after[i].0
                != #[trigger] after[j].0 by {
                assert(after[i].0 == m[i].0);
                assert(after[j].0 == m[j].0);
            }
        },
        None => {
            assert forall|i: int, j: int| 0 <= i < j < after.len() implies #[trigger] after[i].0
                != #[trigger] after[j].0 by {
                assert(after[i] == m[i]);
                if j < m.len() {
                    assert(after[j] == m[j]);
                } else {
                    assert(m[i].0 != name);
                }
            }
        },
    }
}

/// An ordered mapping from header names to values.
#[derive(Debug)]
pub struct Headers {
    entries: Vec<(Vec<u8>, Vec<u8>)>,
}

impl View for Headers {
    type V = Seq<(Seq<u8>, Seq<u8>)>;

    closed spec fn view(&self) -> Seq<(Seq<u8>, Seq<u8>)> {
        Seq::new(self.entries@.len(), |i: int| (self.entries@[i].0@, self.entries@[i].1@))
    }
}

impl Headers {
    /// The empty mapping.
    pub fn new() -> (h: Headers)
        ensures
            h@ == Seq::<(Seq<u8>, Seq<u8>)>::empty(),
    {
        Headers { entries: Vec::new() }
    }

    /// The number of names.
    pub fn len(&self) -> (n: usize)
        ensures
            n == self@.len(),
    {
        self.entries.len()
    }

    /// The position of the last entry under `name`.
    fn position(&self, name: &[u8]) -> (r: Option<usize>)
        ensures
            match r {
                Some(i) => last_at(self@, name@, i as int),
                None => unnamed(self@, name@),
            },
    {
        let mut i: usize = self.entries.len();
        while i > 0
            invariant
                i <= self.entries@.len(),
                self@.len() == self.entries@.len(),
                forall|j: int| i <= j < self@.len() ==> (#[trigger] self@[j]).0 != name@,
            decreases i,
        {
            i -= 1;
            if bytes_eq(self.entries[i].0.as_slice(), name) {
                return Some(i);
            }
        }
        None
    }

    /// The value stored under `name`.
    pub fn get(&self, name: &[u8]) -> (r: Option<&[u8]>)
        ensures
            match r {
                Some(v) => lookup(self@, name@) == Some(v@),
                None => lookup(self@, name@) is None,
            },
    {
        match self.position(name) {
            Some(i) => {
                proof {
                    lemma_present(self@, name@, i as int);
                }
                Some(self.entries[i].1.as_slice())
            },
            None => {
                proof {
                    lemma_missing(self@, name@);
                }
                None
            },
        }
    }

    /// Stores `value` under `name`, in place of the value that the name had.
    pub fn insert(&mut self, name: Vec<u8>, value: Vec<u8>)
        ensures
            final(self)@ == put(old(self)@, name@, value@),
            distinct_names(old(self)@) ==> distinct_names(final(self)@),
    {
        proof {
            if distinct_names(self@) {
                law_put_distinct(self@, name@, value@);
            }
        }
        match self.position(name.as_slice()) {
            Some(i) => {
                proof {
                    lemma_present(self@, name@, i as int);
                }
                self.entries.set(i, (name, value));
                assert(self@ =~= old(self)@.update(i as int, (name@, value@)));
            },
            None => {
                proof {
                    lemma_missing(self@, name@);
                }
                self.entries.push((name, value));
                assert(self@ =~= old(self)@.push((name@, value@)));
            },
        }
    }

    /// Name and value of the entry at position `i`, if there are that many.
    pub fn entry(&self, i: usize) -> (r: Option<(&[u8], &[u8])>)
        ensures
            match r {
                Some((name, value)) => {
                    &&& i < self@.len()
                    &&& name@ == self@[i as int].0
                    &&& value@ == self@[i as int].1
                },
                None => i >= self@.len(),
            },
    {
        if i < self.entries.len() {
            Some((self.entries[i].0.as_slice(), self.entries[i].1.as_slice()))
        } else {
            None
        }
    }
}

} // verus!
