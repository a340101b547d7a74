//! The distinct values of a column: a set of cell values kept in their
//! order, each value once.

use crate::data::value::{
    lemma_scalar_lt_irreflexive, lemma_scalar_lt_transitive, lemma_scalar_order_strict_total,
    scalar_lt, MetadataValue, Scalar,
};
use crate::text::Position;
use vstd::prelude::*;

verus! {

/// Every value of the sequence comes before each later one.
pub open spec fn values_sorted(s: Seq<Scalar>) -> bool {
    forall|i: int, j: int| 0 <= i < j < s.len() ==> scalar_lt(#[trigger] s[i], #[trigger] s[j])
}

/// A value that is before or after every member of a sorted sequence is
/// no member of it.
pub proof fn lemma_values_absent(s: Seq<Scalar>, p: int, x: Scalar)
    requires
        0 <= p <= s.len(),
        forall|k: int| 0 <= k < p ==> scalar_lt(#[trigger] s[k], x),
        forall|k: int| p <= k < s.len() ==> scalar_lt(x, #[trigger] s[k]),
    ensures
        !s.contains(x),
{
    lemma_scalar_lt_irreflexive(x);
}

/// Putting a value where the order wants it keeps the sequence sorted and
/// adds just that value.
pub proof fn lemma_values_insert(s: Seq<Scalar>, p: int, x: Scalar)
    requires
        values_sorted(s),
        0 <= p <= s.len(),
        forall|k: int| 0 <= k < p ==> scalar_lt(#[trigger] s[k], x),
        forall|k: int| p <= k < s.len() ==> scalar_lt(x, #[trigger] s[k]),
    ensures
        values_sorted(s.insert(p, x)),
        s.insert(p, x).to_set() == s.to_set().insert(x),
{
    let t = s.insert(p, x);
    assert forall|i: int, j: int| 0 <= i < j < t.len() implies scalar_lt(
        #[trigger] t[i],
        #[trigger] t[j],
    ) by {
        if i < p && j > p {
            assert(t[i] == s[i] && t[j] == s[j - 1]);
        }
    }
    assert forall|v: Scalar| t.to_set().contains(v) <==> s.to_set().insert(x).contains(v) by {
        if t.contains(v) {
            let i = choose|i: int| 0 <= i < t.len() && t[i] == v;
            if i < p {
                assert(s[i] == v);
            } else if i > p {
                assert(s[i - 1] == v);
            }
        }
        if s.contains(v) {
            let i = choose|i: int| 0 <= i < s.len() && s[i] == v;
            if i < p {
                assert(t[i] == v);
            } else {
                assert(t[i + 1] == v);
            }
        }
        if v == x {
            assert(t[p] == v);
        }
    }
    assert(t.to_set() =~= s.to_set().insert(x));
}

/// Taking a value out keeps the sequence sorted and removes just that
/// value.
pub proof fn lemma_values_remove(s: Seq<Scalar>, p: int)
    requires
        values_sorted(s),
        0 <= p < s.len(),
    ensures
        values_sorted(s.remove(p)),
        s.remove(p).to_set() == s.to_set().remove(s[p]),
{
    let t = s.remove(p);
    let x = s[p];
    assert forall|i: int, j: int| 0 <= i < j < t.len() implies scalar_lt(
        #[trigger] t[i],
        #[trigger] t[j],
    ) by {
        let si = if i < p { i } else { i + 1 };
        let sj = if j < p { j } else { j + 1 };
        assert(t[i] == s[si] && t[j] == s[sj]);
    }
    assert forall|v: Scalar| t.to_set().contains(v) <==> s.to_set().remove(x).contains(v) by {
        if t.contains(v) {
            let i = choose|i: int| 0 <= i < t.len() && t[i] == v;
            let si = if i < p { i } else { i + 1 };
            assert(s[si] == v);
            lemma_scalar_lt_irreflexive(v);
            assert(v != x) by {
                if si < p {
                    assert(scalar_lt(s[si], s[p]));
                } else {
                    assert(scalar_lt(s[p], s[si]));
                }
            }
        }
        if s.contains(v) && v != x {
            let i = choose|i: int| 0 <= i < s.len() && s[i] == v;
            if i < p {
                assert(t[i] == v);
            } else {
                assert(t[i - 1] == v);
            }
        }
    }
    assert(t.to_set() =~= s.to_set().remove(x));
}

/// Two sorted sequences with the same members are the same sequence.
pub proof fn lemma_values_canonical(s: Seq<Scalar>, t: Seq<Scalar>)
    requires
        values_sorted(s),
        values_sorted(t),
        s.to_set() == t.to_set(),
    ensures
        s == t,
    decreases s.len(),
{
    if s.len() == 0 {
        if t.len() > 0 {
            assert(t.to_set().contains(t[0]));
            assert(s.contains(t[0]));
        }
        assert(s =~= t);
    } else {
        assert(s.to_set().contains(s[0]));
        assert(t.contains(s[0]));
        let j = choose|j: int| 0 <= j < t.len() && t[j] == s[0];
        assert(t.to_set().contains(t[0]));
        assert(s.contains(t[0]));
        let i = choose|i: int| 0 <= i < s.len() && s[i] == t[0];
        lemma_scalar_order_strict_total(s[0], t[0]);
        if i > 0 {
            assert(scalar_lt(s[0], s[i]));
        }
        if j > 0 {
            assert(scalar_lt(t[0], t[j]));
        }
        assert(s[0] == t[0]);
        lemma_values_remove(s, 0);
        lemma_values_remove(t, 0);
        lemma_values_canonical(s.remove(0), t.remove(0));
        assert(s =~= seq![s[0]] + s.remove(0));
        assert(t =~= seq![t[0]] + t.remove(0));
    }
}

/// A set of cell values, held in their order without repetition.
#[derive(Debug)]
pub struct ValueSet {
    items: Vec<MetadataValue>,
}

impl View for ValueSet {
    type V = Seq<Scalar>;

    /// The members in their order.
    closed spec fn view(&self) -> Seq<Scalar> {
        self.items@.map_values(|v: MetadataValue| v@)
    }
}

impl ValueSet {
    /// The members come in strictly ascending order.
    pub open spec fn wf(&self) -> bool {
        values_sorted(self@)
    }

    #[verifier::type_invariant]
    closed spec fn inv(self) -> bool {
        self.wf()
    }

    /// The empty set.
    pub fn new() -> (r: ValueSet)
        ensures
            r.wf(),
            r@ == Seq::<Scalar>::empty(),
    {
        let r = ValueSet { items: Vec::new() };
        assert(r@ =~= Seq::<Scalar>::empty());
        r
    }

    /// The number of members.
    pub fn len(&self) -> (r: usize)
        ensures
            self.wf(),
            r == self@.len(),
    {
        proof {
            use_type_invariant(self);
        }
        self.items.len()
    }

    /// Whether the set has no member.
    pub fn is_empty(&self) -> (r: bool)
        ensures
            r == (self@.len() == 0),
    {
        self.items.len() == 0
    }

    /// The member at place `i` of the order.
    pub fn get(&self, i: usize) -> (r: &MetadataValue)
        requires
            i < self@.len(),
        ensures
            r@ == self@[i as int],
    {
        &self.items[i]
    }

    /// Where `v` is, or where it would go: the place, and whether `v` is
    /// there.
    fn locate(&self, v: &MetadataValue) -> (r: (usize, bool))
        ensures
            r.0 <= self@.len(),
            r.1 ==> r.0 < self@.len() && self@[r.0 as int] == v@,
            r.1 == self@.contains(v@),
            forall|k: int| 0 <= k < r.0 ==> scalar_lt(#[trigger] self@[k], v@),
            forall|k: int|
                r.0 + (if r.1 { 1int } else { 0int }) <= k < self@.len() ==> scalar_lt(
                    v@,
                    #[trigger] self@[k],
                ),
    {
        proof {
            use_type_invariant(self);
        }
        let mut i: usize = 0;
        while i < self.items.len()
            invariant
                i <= self.items.len(),
                self.wf(),
                self@.len() == self.items.len(),
                forall|k: int| 0 <= k < i ==> scalar_lt(#[trigger] self@[k], v@),
            decreases self.items.len() - i,
        {
            let place = self.items[i].position(v);
            proof {
                let n = i as int;
                assert(self@[n] == self.items@[n]@);
                lemma_scalar_order_strict_total(self@[n], v@);
                if place != Position::Before {
                    assert forall|k: int| n < k < self@.len() implies scalar_lt(
                        v@,
                        #[trigger] self@[k],
                    ) by {
                        assert(scalar_lt(self@[n], self@[k]));
                        if place == Position::After {
                            lemma_scalar_lt_transitive(v@, self@[n], self@[k]);
                        }
                    }
                    if place == Position::After {
                        lemma_values_absent(self@, n, v@);
                    }
                }
            }
            match place {
                Position::Before => {
                    i += 1;
                },
                Position::Same => {
                    return (i, true);
                },
                Position::After => {
                    return (i, false);
                },
            }
        }
        proof {
            lemma_values_absent(self@, i as int, v@);
        }
        (i, false)
    }

    /// Whether `v` is a member.
    pub fn contains(&self, v: &MetadataValue) -> (r: bool)
        ensures
            r == self@.contains(v@),
    {
        self.locate(v).1
    }

    /// Adds `v`; says whether it was new.
    pub fn insert(&mut self, v: MetadataValue) -> (r: bool)
        ensures
            final(self).wf(),
            final(self)@.to_set() == old(self)@.to_set().insert(v@),
            forall|x: Scalar| #[trigger]
                final(self)@.contains(x) <==> (old(self)@.contains(x) || x == v@),
            r == !old(self)@.contains(v@),
            !r ==> final(self)@ == old(self)@,
    {
        let ghost before = self@;
        let (p, found) = self.locate(&v);
        proof {
            use_type_invariant(&*self);
        }
        if found {
            proof {
                assert(self@.to_set().insert(v@) =~= self@.to_set());
            }
            false
        } else {
            proof {
                use_type_invariant(&*self);
                lemma_values_insert(self@, p as int, v@);
                assert(self.items@.insert(p as int, v).map_values(|x: MetadataValue| x@)
                    =~= self@.insert(p as int, v@));
            }
            let mut items: Vec<MetadataValue> = Vec::new();
            std::mem::swap(&mut self.items, &mut items);
            let ghost added = v@;
            items.insert(p, v);
            std::mem::swap(&mut self.items, &mut items);
            proof {
                assert forall|x: Scalar| #[trigger]
                    self@.contains(x) <==> (before.contains(x) || x == added) by {
                    assert(self@.to_set().contains(x) <==> before.to_set().insert(added).contains(x));
                }
            }
            true
        }
    }

    /// Takes `v` out; says whether it was a member.
    pub fn remove(&mut self, v: &MetadataValue) -> (r: bool)
        ensures
            final(self).wf(),
            final(self)@.to_set() == old(self)@.to_set().remove(v@),
            forall|x: Scalar| #[trigger]
                final(self)@.contains(x) <==> (old(self)@.contains(x) && x != v@),
            r == old(self)@.contains(v@),
            !r ==> final(self)@ == old(self)@,
    {
        let ghost before = self@;
        let (p, found) = self.locate(v);
        if found {
            proof {
                use_type_invariant(&*self);
                lemma_values_remove(self@, p as int);
                assert(self.items@.remove(p as int).map_values(|x: MetadataValue| x@)
                    =~= self@.remove(p as int));
            }
            let mut items: Vec<MetadataValue> = Vec::new();
            std::mem::swap(&mut self.items, &mut items);
            let _ = items.remove(p);
            std::mem::swap(&mut self.items, &mut items);
            proof {
                assert forall|x: Scalar| #[trigger]
                    self@.contains(x) <==> (before.contains(x) && x != v@) by {
                    assert(self@.to_set().contains(x) <==> before.to_set().remove(v@).contains(x));
                }
            }
            true
        } else {
            proof {
                use_type_invariant(&*self);
                assert(self@.to_set().remove(v@) =~= self@.to_set());
            }
            false
        }
    }

    /// Whether the two sets have the same members.
    pub fn same_as(&self, other: &ValueSet) -> (r: bool)
        ensures
            r == (self@ == other@),
            r == (self@.to_set() == other@.to_set()),
    {
        proof {
            use_type_invariant(self);
            use_type_invariant(other);
            if self@.to_set() == other@.to_set() {
                lemma_values_canonical(self@, other@);
            }
            assert(self@.len() == self.items@.len());
            assert(other@.len() == other.items@.len());
        }
        if self.items.len() != other.items.len() {
            return false;
        }
        let mut i: usize = 0;
        while i < self.items.len()
            invariant
                i <= self.items.len(),
                self.items.len() == other.items.len(),
                self@.len() == self.items.len(),
                other@.len() == other.items.len(),
                self@.take(i as int) == other@.take(i as int),
                self@.to_set() == other@.to_set() ==> self@ == other@,
            decreases self.items.len() - i,
        {
            let place = self.items[i].position(&other.items[i]);
            proof {
                let n = i as int;
                assert(self@[n] == self.items@[n]@);
                assert(other@[n] == other.items@[n]@);
                lemma_scalar_order_strict_total(self@[n], other@[n]);
                assert(self@.take(n + 1) =~= self@.take(n).push(self@[n]));
                assert(other@.take(n + 1) =~= other@.take(n).push(other@[n]));
            }
            if place != Position::Same {
                return false;
            }
            i += 1;
        }
        proof {
            assert(self@ =~= self@.take(i as int));
            assert(other@ =~= other@.take(i as int));
        }
        true
    }
}

impl Clone for ValueSet {
    fn clone(&self) -> (r: Self)
        ensures
            r.wf(),
            r@ == self@,
    {
        proof {
            use_type_invariant(self);
        }
        let items = self.items.clone();
        proof {
            assert(items@ =~= self.items@);
        }
        ValueSet { items }
    }
}

} // verus!
