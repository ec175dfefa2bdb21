//! Lists in ascending order, as listings of sets.

use vstd::prelude::*;

use crate::text::{before, before_irreflexive, before_total, before_transitive, precedes};

verus! {

/// Things with a total order.
pub trait Ordered: Sized {
    /// What such a thing denotes.
    type Model;

    spec fn model(&self) -> Self::Model;

    /// `a` comes before `b`.
    spec fn less(a: Self::Model, b: Self::Model) -> bool;

    proof fn irreflexive(a: Self::Model)
        ensures
            !Self::less(a, a),
    ;

    proof fn transitive(a: Self::Model, b: Self::Model, c: Self::Model)
        requires
            Self::less(a, b),
            Self::less(b, c),
        ensures
            Self::less(a, c),
    ;

    proof fn total(a: Self::Model, b: Self::Model)
        ensures
            a == b || Self::less(a, b) || Self::less(b, a),
    ;

    /// Whether this comes before `other`.
    fn comes_before(&self, other: &Self) -> (r: bool)
        ensures
            r == Self::less(self.model(), other.model()),
    ;
}

/// What each of a list denotes.
pub open spec fn models<T: Ordered>(list: Seq<T>) -> Seq<T::Model> {
    list.map_values(|item: T| item.model())
}

/// Each comes before all that follow it.
pub open spec fn ascending<T: Ordered>(list: Seq<T::Model>) -> bool {
    forall|i: int, j: int|
        0 <= i < j < list.len() ==> T::less(#[trigger] list[i], #[trigger] list[j])
}

/// `list` is the members of `set` in ascending order.
pub open spec fn lists<T: Ordered>(list: Seq<T::Model>, set: Set<T::Model>) -> bool {
    ascending::<T>(list) && list.to_set() == set
}

/// The members of a set in ascending order.
pub open spec fn listing<T: Ordered>(set: Set<T::Model>) -> Seq<T::Model> {
    choose|list: Seq<T::Model>| lists::<T>(list, set)
}

/// A set has one listing.
pub proof fn one_listing<T: Ordered>(a: Seq<T::Model>, b: Seq<T::Model>)
    requires
        ascending::<T>(a),
        ascending::<T>(b),
        a.to_set() == b.to_set(),
    ensures
        a == b,
    decreases a.len(),
{
    if a.len() == 0 {
        if b.len() > 0 {
            assert(b.to_set().contains(b[0]));
            assert(a.contains(b[0]));
        }
        assert(a =~= b);
    } else {
        assert(a.to_set().contains(a.last()));
        assert(b.contains(a.last()));
        assert(b.to_set().contains(b.last()));
        assert(a.contains(b.last()));
        let i = choose|i: int| 0 <= i < b.len() && b[i] == a.last();
        let j = choose|j: int| 0 <= j < a.len() && a[j] == b.last();
        if i < b.len() - 1 && j < a.len() - 1 {
            T::transitive(b[i], b.last(), a.last());
            T::irreflexive(a.last());
        }
        assert(a.last() == b.last());
        let p = a.drop_last();
        let q = b.drop_last();
        assert forall|t: T::Model| p.contains(t) implies q.contains(t) by {
            let k = choose|k: int| 0 <= k < p.len() && p[k] == t;
            assert(a[k] == t);
            assert(a.to_set().contains(t));
            assert(b.contains(t));
            let m = choose|m: int| 0 <= m < b.len() && b[m] == t;
            T::irreflexive(t);
            assert(m < b.len() - 1);
            assert(q[m] == t);
        }
        assert forall|t: T::Model| q.contains(t) implies p.contains(t) by {
            let k = choose|k: int| 0 <= k < q.len() && q[k] == t;
            assert(b[k] == t);
            assert(b.to_set().contains(t));
            assert(a.contains(t));
            let m = choose|m: int| 0 <= m < a.len() && a[m] == t;
            T::irreflexive(t);
            assert(m < a.len() - 1);
            assert(p[m] == t);
        }
        assert(p.to_set() =~= q.to_set());
        one_listing::<T>(p, q);
        assert(a =~= p.push(a.last()));
        assert(b =~= q.push(b.last()));
    }
}

/// An ascending list is the listing of its members.
pub proof fn ascending_is_listing<T: Ordered>(list: Seq<T::Model>)
    requires
        ascending::<T>(list),
    ensures
        list == listing::<T>(list.to_set()),
{
    assert(lists::<T>(list, list.to_set()));
    one_listing::<T>(list, listing::<T>(list.to_set()));
}

/// A list with `item` put at its place.
proof fn placed<T: Ordered>(list: Seq<T::Model>, item: T::Model) -> (r: Seq<T::Model>)
    requires
        ascending::<T>(list),
        !list.contains(item),
    ensures
        lists::<T>(r, list.to_set().insert(item)),
    decreases list.len(),
{
    broadcast use vstd::seq_lib::group_seq_properties;
    if list.len() == 0 {
        let r = seq![item];
        assert(r[0] == item);
        assert(r.to_set() =~= list.to_set().insert(item));
        r
    } else {
        let last = list.last();
        T::total(last, item);
        assert(list.contains(last));
        if T::less(last, item) {
            let r = list.push(item);
            assert forall|i: int| 0 <= i < list.len() implies T::less(#[trigger] list[i], item) by {
                if i < list.len() - 1 {
                    T::transitive(list[i], last, item);
                }
            }
            assert(r.to_set() =~= list.to_set().insert(item));
            r
        } else {
            let rest = list.drop_last();
            let before = placed::<T>(rest, item);
            let r = before.push(last);
            assert forall|i: int| 0 <= i < before.len() implies T::less(#[trigger] before[i], last) by {
                assert(before.to_set().contains(before[i]));
                if before[i] != item {
                    assert(rest.contains(before[i]));
                    let k = choose|k: int| 0 <= k < rest.len() && rest[k] == before[i];
                    assert(list[k] == before[i]);
                }
            }
            assert(list =~= rest.push(last));
            assert forall|t: T::Model| r.to_set().contains(t) <==> list.to_set().insert(
                item,
            ).contains(t) by {
                assert(before.to_set().contains(t) <==> before.contains(t));
            }
            assert(r.to_set() =~= list.to_set().insert(item));
            r
        }
    }
}

/// The listing of a finite set has its members, each before all that follow it.
pub proof fn finite_is_listed<T: Ordered>(set: Set<T::Model>)
    requires
        set.finite(),
    ensures
        lists::<T>(listing::<T>(set), set),
    decreases set.len(),
{
    if set.len() == 0 {
        let none = Seq::<T::Model>::empty();
        assert(none.to_set() =~= set);
        assert(lists::<T>(none, set));
    } else {
        let item = set.choose();
        let rest = set.remove(item);
        finite_is_listed::<T>(rest);
        let list = listing::<T>(rest);
        assert(!list.to_set().contains(item));
        let all = placed::<T>(list, item);
        assert(rest.insert(item) =~= set);
        assert(lists::<T>(all, set));
    }
}

/// Puts `item` at its place in an ascending list, unless it is there.
pub fn insert_ordered<T: Ordered>(list: &mut Vec<T>, item: T)
    requires
        ascending::<T>(models(old(list)@)),
    ensures
        ascending::<T>(models(final(list)@)),
        models(final(list)@).to_set() == models(old(list)@).to_set().insert(item.model()),
{
    let ghost held = models(list@);
    let ghost value = item.model();
    let mut i: usize = 0;
    while i < list.len() && list[i].comes_before(&item)
        invariant
            i <= list.len(),
            held == models(list@),
            value == item.model(),
            forall|j: int| 0 <= j < i ==> T::less(#[trigger] held[j], value),
        decreases list.len() - i,
    {
        assert(held[i as int] == list[i as int].model());
        i += 1;
    }
    proof {
        if i < list.len() {
            assert(held[i as int] == list[i as int].model());
            T::total(held[i as int], value);
        }
    }
    if i == list.len() || item.comes_before(&list[i]) {
        proof {
            assert forall|j: int| i <= j < held.len() implies T::less(
                value,
                #[trigger] held[j],
            ) by {
                if j > i {
                    T::transitive(value, held[i as int], held[j]);
                }
            }
        }
        list.insert(i, item);
        assert(models(list@) =~= held.insert(i as int, value));
        assert(ascending::<T>(models(list@)));
        proof {
            let grown = held.insert(i as int, value);
            assert forall|t: T::Model| grown.contains(t) implies held.contains(t) || t == value by {
                let k = choose|k: int| 0 <= k < grown.len() && grown[k] == t;
                if k < i {
                    assert(held[k] == t);
                } else if k > i {
                    assert(held[k - 1] == t);
                }
            }
            assert forall|t: T::Model| held.contains(t) || t == value implies grown.contains(t) by {
                if t == value {
                    assert(grown[i as int] == t);
                } else {
                    let k = choose|k: int| 0 <= k < held.len() && held[k] == t;
                    if k < i {
                        assert(grown[k] == t);
                    } else {
                        assert(grown[k + 1] == t);
                    }
                }
            }
            assert(grown.to_set() =~= held.to_set().insert(value));
        }
    } else {
        assert(held.contains(value));
        assert(held.to_set().insert(value) =~= held.to_set());
    }
}

impl Ordered for String {
    type Model = Seq<char>;

    open spec fn model(&self) -> Seq<char> {
        self@
    }

    open spec fn less(a: Seq<char>, b: Seq<char>) -> bool {
        before(a, b)
    }

    proof fn irreflexive(a: Seq<char>) {
        before_irreflexive(a);
    }

    proof fn transitive(a: Seq<char>, b: Seq<char>, c: Seq<char>) {
        before_transitive(a, b, c);
    }

    proof fn total(a: Seq<char>, b: Seq<char>) {
        before_total(a, b);
    }

    fn comes_before(&self, other: &Self) -> (r: bool) {
        precedes(self.as_str(), other.as_str())
    }
}

} // verus!
