//! The containers that can be concatenated.

use std::collections::VecDeque;
use vstd::prelude::*;

verus! {

/// A value that holds a sequence of elements, can be made empty, and can
/// take over the elements of another value of its type.
///
/// The three operations belong together: `absorb` keeps the order in which
/// `elems` lists the elements, first those that were there, then the
/// newcomers in their own order.
pub trait Container: Sized {
    /// What the container holds.
    type Elem;

    /// The elements of the container, in order.
    spec fn elems(&self) -> Seq<Self::Elem>;

    /// The container without elements.
    fn empty() -> (c: Self)
        ensures
            c.elems() == Seq::<Self::Elem>::empty(),
    ;

    /// Moves the elements of `other` behind those of `self`.
    fn absorb(&mut self, other: Self)
        ensures
            final(self).elems() == old(self).elems() + other.elems(),
    ;

    /// Takes the container apart into its elements.
    fn into_elems(self) -> (v: Vec<Self::Elem>)
        ensures
            v@ == self.elems(),
    ;
}

impl<T> Container for Vec<T> {
    type Elem = T;

    open spec fn elems(&self) -> Seq<T> {
        self@
    }

    fn empty() -> (c: Self) {
        Vec::new()
    }

    fn absorb(&mut self, other: Self) {
        let mut rest = other;
        self.append(&mut rest);
    }

    fn into_elems(self) -> (v: Vec<T>) {
        self
    }
}

impl<T> Container for VecDeque<T> {
    type Elem = T;

    open spec fn elems(&self) -> Seq<T> {
        self@
    }

    fn empty() -> (c: Self) {
        VecDeque::new()
    }

    fn absorb(&mut self, other: Self) {
        let mut rest = other;
        self.append(&mut rest);
    }

    fn into_elems(self) -> (v: Vec<T>) {
        let mut rest = self;
        let mut v: Vec<T> = Vec::new();
        while rest.len() > 0
            invariant
                v@ + rest@ == self@,
            decreases rest@.len(),
        {
            let ghost taken = v@;
            let ghost left = rest@;
            match rest.pop_front() {
                Some(e) => {
                    v.push(e);
                    assert(v@ + rest@ =~= taken + left);
                },
                None => {},
            }
        }
        assert(v@ =~= v@ + rest@);
        v
    }
}

/// The elements of all of `items`, one item after the other.
pub open spec fn concat_elems<C: Container>(items: Seq<C>) -> Seq<C::Elem> {
    items.map_values(|c: C| c.elems()).flatten()
}

/// What a container holds that started out empty and absorbed each of
/// `items` in turn.
pub open spec fn absorbed_in_order<C: Container>(items: Seq<C>) -> Seq<C::Elem>
    decreases items.len(),
{
    if items.len() == 0 {
        Seq::empty()
    } else {
        absorbed_in_order(items.drop_last()) + items.last().elems()
    }
}

/// Whether `out` is what concatenating `items` gives: it holds their
/// elements in order, and where there was one item only, it is that item.
pub open spec fn is_concat_of<C: Container>(out: C, items: Seq<C>) -> bool {
    &&& out.elems() == concat_elems(items)
    &&& items.len() == 1 ==> out == items[0]
}

/// Concatenating no items gives no elements.
pub proof fn lemma_concat_elems_empty<C: Container>()
    ensures
        concat_elems(Seq::<C>::empty()) == Seq::<C::Elem>::empty(),
{
    assert(Seq::<C>::empty().map_values(|c: C| c.elems()) =~= Seq::<Seq<C::Elem>>::empty());
}

/// One more item adds its elements at the end.
pub proof fn lemma_concat_elems_push<C: Container>(items: Seq<C>, item: C)
    ensures
        concat_elems(items.push(item)) == concat_elems(items) + item.elems(),
{
    let f = |c: C| c.elems();
    assert(items.push(item).map_values(f) =~= items.map_values(f).push(f(item)));
    items.map_values(f).lemma_flatten_push(f(item));
}

/// The elements of all items, one item after the other, are what a
/// container holds that started out empty and absorbed each item in turn.
pub proof fn lemma_concat_elems_absorbs_in_order<C: Container>(items: Seq<C>)
    ensures
        concat_elems(items) == absorbed_in_order(items),
    decreases items.len(),
{
    if items.len() == 0 {
        assert(items =~= Seq::<C>::empty());
        lemma_concat_elems_empty::<C>();
    } else {
        lemma_concat_elems_absorbs_in_order(items.drop_last());
        lemma_concat_elems_push(items.drop_last(), items.last());
        assert(items.drop_last().push(items.last()) =~= items);
    }
}

} // verus!
