//! A map from names to values that remembers the order of insertion.

use crate::text::str_eq;
use vstd::prelude::*;

verus! {

/// A map from names to values. What came first stays first.
#[derive(Debug)]
pub struct OrderedMap<V> {
    entries: Vec<(String, V)>,
}

impl<V> View for OrderedMap<V> {
    type V = Seq<(Seq<char>, V)>;

    closed spec fn view(&self) -> Seq<(Seq<char>, V)> {
        Seq::new(self.entries@.len(), |i: int| (self.entries@[i].0@, self.entries@[i].1))
    }
}

/// Whether no name stands twice.
pub open spec fn distinct<V>(e: Seq<(Seq<char>, V)>) -> bool {
    forall|i: int, j: int| 0 <= i < j < e.len() ==> (#[trigger] e[i]).0 != (#[trigger] e[j]).0
}

/// The value of `key`.
pub open spec fn lookup<V>(e: Seq<(Seq<char>, V)>, key: Seq<char>) -> Option<V>
    decreases e.len(),
{
    if e.len() == 0 {
        None
    } else if e[0].0 == key {
        Some(e[0].1)
    } else {
        lookup(e.skip(1), key)
    }
}

/// `e` with `key` set to `v`: in its place where it was there, else at the end.
pub open spec fn inserted<V>(e: Seq<(Seq<char>, V)>, key: Seq<char>, v: V) -> Seq<(Seq<char>, V)> {
    if lookup(e, key) is Some {
        Seq::new(
            e.len(),
            |i: int|
                if e[i].0 == key {
                    (key, v)
                } else {
                    e[i]
                },
        )
    } else {
        e.push((key, v))
    }
}

/// `e` without `key`.
pub open spec fn removed<V>(e: Seq<(Seq<char>, V)>, key: Seq<char>) -> Seq<(Seq<char>, V)>
    decreases e.len(),
{
    if e.len() == 0 {
        e
    } else if e[0].0 == key {
        removed(e.skip(1), key)
    } else {
        seq![e[0]] + removed(e.skip(1), key)
    }
}

/// The names, in order.
pub open spec fn keys<V>(e: Seq<(Seq<char>, V)>) -> Seq<Seq<char>> {
    Seq::new(e.len(), |i: int| e[i].0)
}

/// Where a name stands tells its value.
pub proof fn lemma_lookup_at<V>(e: Seq<(Seq<char>, V)>, i: int)
    requires
        distinct(e),
        0 <= i < e.len(),
    ensures
        lookup(e, e[i].0) == Some(e[i].1),
    decreases e.len(),
{
    if i > 0 {
        assert(e[0].0 != e[i].0);
        assert(e.skip(1)[i - 1] == e[i]);
        lemma_skip_distinct(e);
        lemma_lookup_at(e.skip(1), i - 1);
    }
}

/// A name that stands nowhere has no value, and one that has a value stands
/// somewhere.
pub proof fn lemma_lookup_none<V>(e: Seq<(Seq<char>, V)>, key: Seq<char>)
    ensures
        lookup(e, key) is None <==> forall|i: int| 0 <= i < e.len() ==> (#[trigger] e[i]).0 != key,
    decreases e.len(),
{
    if e.len() > 0 {
        lemma_lookup_none(e.skip(1), key);
        if e[0].0 != key {
            assert forall|i: int| 0 <= i < e.len() && lookup(e, key) is None implies (
            #[trigger] e[i]).0 != key by {
                if i > 0 {
                    assert(e.skip(1)[i - 1] == e[i]);
                }
            }
            if lookup(e, key) is Some {
                let k = choose|k: int|
                    0 <= k < e.skip(1).len() && (#[trigger] e.skip(1)[k]).0 == key;
                assert(e[k + 1].0 == key);
            }
        }
    }
}

proof fn lemma_skip_distinct<V>(e: Seq<(Seq<char>, V)>)
    requires
        distinct(e),
        e.len() > 0,
    ensures
        distinct(e.skip(1)),
{
    assert forall|i: int, j: int| 0 <= i < j < e.skip(1).len() implies (#[trigger] e.skip(1)[i]).0
        != (#[trigger] e.skip(1)[j]).0 by {
        assert(e.skip(1)[i] == e[i + 1]);
        assert(e.skip(1)[j] == e[j + 1]);
    }
}

/// Insertion keeps the names distinct.
pub proof fn lemma_inserted_distinct<V>(e: Seq<(Seq<char>, V)>, key: Seq<char>, v: V)
    requires
        distinct(e),
    ensures
        distinct(inserted(e, key, v)),
{
    lemma_lookup_none(e, key);
    let n = inserted(e, key, v);
    assert forall|i: int, j: int| 0 <= i < j < n.len() implies (#[trigger] n[i]).0 != (
    #[trigger] n[j]).0 by {
        if j < e.len() {
            assert(e[i].0 != e[j].0);
        } else {
            assert(e[i].0 != key);
        }
    }
}

proof fn lemma_removed_from<V>(e: Seq<(Seq<char>, V)>, key: Seq<char>, i: int)
    requires
        0 <= i < removed(e, key).len(),
    ensures
        removed(e, key)[i].0 != key,
        exists|k: int| 0 <= k < e.len() && e[k] == removed(e, key)[i],
    decreases e.len(),
{
    if e.len() > 0 {
        let rest = removed(e.skip(1), key);
        let at = if e[0].0 == key {
            i
        } else {
            i - 1
        };
        if at >= 0 {
            lemma_removed_from(e.skip(1), key, at);
            let k = choose|k: int| 0 <= k < e.skip(1).len() && e.skip(1)[k] == rest[at];
            assert(e[k + 1] == rest[at]);
        } else {
            assert(e[0] == removed(e, key)[i]);
        }
    }
}

/// Removal keeps the names distinct.
pub proof fn lemma_removed_distinct<V>(e: Seq<(Seq<char>, V)>, key: Seq<char>)
    requires
        distinct(e),
    ensures
        distinct(removed(e, key)),
    decreases e.len(),
{
    if e.len() > 0 {
        lemma_skip_distinct(e);
        lemma_removed_distinct(e.skip(1), key);
        let rest = removed(e.skip(1), key);
        if e[0].0 != key {
            let n = removed(e, key);
            assert forall|i: int, j: int| 0 <= i < j < n.len() implies (#[trigger] n[i]).0 != (
            #[trigger] n[j]).0 by {
                assert(n[j] == rest[j - 1]);
                if i == 0 {
                    lemma_removed_from(e.skip(1), key, j - 1);
                    let k = choose|k: int|
                        0 <= k < e.skip(1).len() && e.skip(1)[k] == rest[j - 1];
                    assert(e[k + 1] == rest[j - 1]);
                    assert(e[0].0 != e[k + 1].0);
                } else {
                    assert(n[i] == rest[i - 1]);
                }
            }
        }
    }
}

/// A name that is set is found with its new value; every other name is found
/// as before.
pub proof fn law_insert_then_lookup<V>(
    e: Seq<(Seq<char>, V)>,
    key: Seq<char>,
    v: V,
    other: Seq<char>,
)
    ensures
        lookup(inserted(e, key, v), key) == Some(v),
        other != key ==> lookup(inserted(e, key, v), other) == lookup(e, other),
{
    if lookup(e, key) is Some {
        lemma_replaced_lookup(e, key, v, other);
    } else {
        lemma_pushed_lookup(e, key, v, other);
    }
}

proof fn lemma_pushed_lookup<V>(e: Seq<(Seq<char>, V)>, key: Seq<char>, v: V, other: Seq<char>)
    requires
        lookup(e, key) is None,
    ensures
        lookup(e.push((key, v)), key) == Some(v),
        other != key ==> lookup(e.push((key, v)), other) == lookup(e, other),
    decreases e.len(),
{
    let n = e.push((key, v));
    if e.len() > 0 {
        assert(n.skip(1) =~= e.skip(1).push((key, v)));
        lemma_pushed_lookup(e.skip(1), key, v, other);
    } else {
        reveal_with_fuel(lookup, 2);
    }
}

/// The entries with each value of `key` replaced.
spec fn replaced<V>(e: Seq<(Seq<char>, V)>, key: Seq<char>, v: V) -> Seq<(Seq<char>, V)> {
    Seq::new(
        e.len(),
        |i: int|
            if e[i].0 == key {
                (key, v)
            } else {
                e[i]
            },
    )
}

proof fn lemma_replaced_lookup<V>(e: Seq<(Seq<char>, V)>, key: Seq<char>, v: V, other: Seq<char>)
    ensures
        lookup(e, key) is Some ==> lookup(replaced(e, key, v), key) == Some(v),
        other != key ==> lookup(replaced(e, key, v), other) == lookup(e, other),
        lookup(e, key) is Some ==> inserted(e, key, v) == replaced(e, key, v),
    decreases e.len(),
{
    let n = replaced(e, key, v);
    if e.len() > 0 {
        assert(n.skip(1) =~= replaced(e.skip(1), key, v));
        lemma_replaced_lookup(e.skip(1), key, v, other);
    }
    if lookup(e, key) is Some {
        assert(inserted(e, key, v) =~= n);
    }
}

/// A name that is removed is not found; every other name is found as before.
pub proof fn law_remove_then_lookup<V>(e: Seq<(Seq<char>, V)>, key: Seq<char>, other: Seq<char>)
    ensures
        lookup(removed(e, key), key) is None,
        other != key ==> lookup(removed(e, key), other) == lookup(e, other),
    decreases e.len(),
{
    if e.len() > 0 {
        law_remove_then_lookup(e.skip(1), key, other);
        if e[0].0 != key {
            let n = removed(e, key);
            assert(n.skip(1) =~= removed(e.skip(1), key));
            assert(n[0] == e[0]);
        }
    }
}

impl<V> OrderedMap<V> {
    /// A map without entries.
    pub fn new() -> (r: Self)
        ensures
            r@ == Seq::<(Seq<char>, V)>::empty(),
            distinct(r@),
    {
        let r = OrderedMap { entries: Vec::new() };
        assert(r@ =~= seq![]);
        r
    }

    /// How many names there are.
    pub fn len(&self) -> (r: usize)
        ensures
            r == self@.len(),
    {
        self.entries.len()
    }

    /// The name and the value at position `i`.
    pub fn at(&self, i: usize) -> (r: (&String, &V))
        requires
            i < self@.len(),
        ensures
            (r.0@, *r.1) == self@[i as int],
    {
        (&self.entries[i].0, &self.entries[i].1)
    }

    /// Where `key` stands.
    pub fn position(&self, key: &str) -> (r: Option<usize>)
        requires
            distinct(self@),
        ensures
            match r {
                Some(i) => i < self@.len() && self@[i as int].0 == key@ && lookup(self@, key@)
                    == Some(self@[i as int].1),
                None => lookup(self@, key@) is None,
            },
    {
        let mut i: usize = 0;
        while i < self.entries.len()
            invariant
                i <= self.entries@.len(),
                distinct(self@),
                forall|k: int| 0 <= k < i ==> (#[trigger] self@[k]).0 != key@,
            decreases self.entries@.len() - i,
        {
            if str_eq(self.entries[i].0.as_str(), key) {
                proof {
                    assert(self@[i as int].0 == key@);
                    lemma_lookup_at(self@, i as int);
                }
                return Some(i);
            }
            assert(self@[i as int].0 != key@);
            i = i + 1;
        }
        proof {
            lemma_lookup_none(self@, key@);
        }
        None
    }

    /// Whether `key` has a value.
    pub fn contains_key(&self, key: &str) -> (r: bool)
        requires
            distinct(self@),
        ensures
            r == (lookup(self@, key@) is Some),
    {
        self.position(key).is_some()
    }

    /// The value of `key`.
    pub fn get(&self, key: &str) -> (r: Option<&V>)
        requires
            distinct(self@),
        ensures
            match r {
                Some(v) => lookup(self@, key@) == Some(*v),
                None => lookup(self@, key@) is None,
            },
    {
        match self.position(key) {
            Some(i) => Some(&self.entries[i].1),
            None => None,
        }
    }

    /// Sets the value of `key`.
    pub fn insert(&mut self, key: &str, v: V)
        requires
            distinct(old(self)@),
        ensures
            final(self)@ == inserted(old(self)@, key@, v),
            distinct(final(self)@),
    {
        let ghost e = self@;
        proof {
            lemma_inserted_distinct(e, key@, v);
        }
        match self.position(key) {
            Some(i) => {
                self.entries.set(i, (key.to_owned(), v));
                assert(self@ =~= inserted(e, key@, v)) by {
                    assert forall|k: int| 0 <= k < e.len() && k != i implies (#[trigger] e[k]).0
                        != key@ by {
                        if k < i {
                            assert(e[k].0 != e[i as int].0);
                        } else {
                            assert(e[i as int].0 != e[k].0);
                        }
                    }
                }
            },
            None => {
                self.entries.push((key.to_owned(), v));
                assert(self@ =~= inserted(e, key@, v));
            },
        }
    }

    /// The value at position `i`, to be changed in place.
    pub fn value_at_mut(&mut self, i: usize) -> (r: &mut V)
        requires
            i < old(self)@.len(),
        ensures
            *r == old(self)@[i as int].1,
            final(self)@ == old(self)@.update(i as int, (old(self)@[i as int].0, *final(r))),
    {
        &mut self.entries[i].1
    }

    /// Removes `key` and hands out its value.
    pub fn remove(&mut self, key: &str) -> (r: Option<V>)
        requires
            distinct(old(self)@),
        ensures
            r == lookup(old(self)@, key@),
            final(self)@ == removed(old(self)@, key@),
            distinct(final(self)@),
    {
        let ghost e = self@;
        proof {
            lemma_removed_distinct(e, key@);
        }
        match self.position(key) {
            Some(i) => {
                let (_, v) = self.entries.remove(i);
                assert(self@ =~= e.remove(i as int));
                proof {
                    lemma_removed_at(e, key@, i as int);
                }
                Some(v)
            },
            None => {
                proof {
                    lemma_removed_absent(e, key@);
                }
                None
            },
        }
    }
}

proof fn lemma_removed_absent<V>(e: Seq<(Seq<char>, V)>, key: Seq<char>)
    requires
        lookup(e, key) is None,
    ensures
        removed(e, key) == e,
    decreases e.len(),
{
    if e.len() > 0 {
        lemma_removed_absent(e.skip(1), key);
        assert(seq![e[0]] + e.skip(1) =~= e);
    }
}

proof fn lemma_removed_at<V>(e: Seq<(Seq<char>, V)>, key: Seq<char>, i: int)
    requires
        distinct(e),
        0 <= i < e.len(),
        e[i].0 == key,
    ensures
        removed(e, key) == e.remove(i),
    decreases e.len(),
{
    lemma_skip_distinct(e);
    if i == 0 {
        lemma_lookup_none(e.skip(1), key);
        assert forall|k: int| 0 <= k < e.skip(1).len() implies (#[trigger] e.skip(1)[k]).0
            != key by {
            assert(e.skip(1)[k] == e[k + 1]);
            assert(e[0].0 != e[k + 1].0);
        }
        lemma_removed_absent(e.skip(1), key);
        assert(e.remove(0) =~= e.skip(1));
    } else {
        assert(e[0].0 != e[i].0);
        assert(e.skip(1)[i - 1] == e[i]);
        lemma_removed_at(e.skip(1), key, i - 1);
        assert(seq![e[0]] + e.skip(1).remove(i - 1) =~= e.remove(i));
    }
}

/// What came first stays first: a new name goes to the end, one that is there
/// keeps its place, and taking one out leaves the others in order.
pub proof fn law_order_is_kept<V>(e: Seq<(Seq<char>, V)>, key: Seq<char>, v: V)
    ensures
        (forall|i: int| 0 <= i < e.len() ==> (#[trigger] e[i]).0 != key) ==> inserted(e, key, v)
            == e.push((key, v)),
        lookup(e, key) is Some ==> keys(inserted(e, key, v)) == keys(e),
        keys(removed(e, key)) == keys(e).filter(|k: Seq<char>| k != key),
    decreases e.len(),
{
    lemma_lookup_none(e, key);
    if lookup(e, key) is Some {
        assert(keys(inserted(e, key, v)) =~= keys(e));
    }
    lemma_removed_keys(e, key);
}

proof fn lemma_removed_keys<V>(e: Seq<(Seq<char>, V)>, key: Seq<char>)
    ensures
        keys(removed(e, key)) == keys(e).filter(|k: Seq<char>| k != key),
    decreases e.len(),
{
    let f = |k: Seq<char>| k != key;
    reveal(Seq::filter);
    if e.len() == 0 {
        assert(keys(removed(e, key)) =~= keys(e).filter(f));
    } else {
        lemma_removed_keys(e.skip(1), key);
        let rest = keys(e.skip(1));
        assert(keys(e) =~= seq![e[0].0] + rest);
        Seq::filter_distributes_over_add(seq![e[0].0], rest, f);
        let one = seq![e[0].0];
        assert(one.drop_last() =~= seq![]);
        assert(one.drop_last().filter(f) =~= seq![]);
        assert(one.last() == e[0].0);
        assert(one.filter(f) =~= (if e[0].0 != key {
            seq![e[0].0]
        } else {
            seq![]
        }));
        assert(keys(removed(e, key)) =~= keys(e).filter(f));
    }
}

} // verus!
