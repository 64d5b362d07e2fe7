//! Parts of a value.
//!
//! A reference to a part of a shared value is a pointer to the value together with a place, which
//! tells the part.
use vstd::prelude::*;

pub mod laws;

verus! {

/// A part of a `T`.
pub trait Place<T>: Sized + Copy {
    /// The type of the part.
    type Target: 'static;

    /// Whether `value` has the part.
    spec fn valid(&self, value: T) -> bool;

    /// The part of `value`.
    spec fn at(&self, value: T) -> Self::Target;

    /// Whether `after` is `before` but for the part.
    spec fn only(&self, before: T, after: T) -> bool;

    /// A value is itself but for the part, and changing the part twice changes nothing else.
    proof fn lemma_only(&self, first: T, second: T, third: T)
        requires
            self.valid(first),
        ensures
            self.only(first, first),
            self.only(first, second) && self.only(second, third) ==> self.only(first, third),
    ;

    /// The part of `value`.
    fn get<'a>(&self, value: &'a T) -> (part: &'a Self::Target)
        requires
            self.valid(*value),
        ensures
            *part == self.at(*value),
    ;

    /// The part of `value`, to be changed.
    fn get_mut<'a>(&self, value: &'a mut T) -> (part: &'a mut Self::Target)
        requires
            self.valid(*old(value)),
        ensures
            *part == self.at(*old(value)),
            self.valid(*final(value)),
            self.at(*final(value)) == *final(part),
            self.only(*old(value), *final(value)),
    ;
}

/// All of a value.
#[derive(Debug, Clone, Copy, PartialEq, Eq)]
pub struct Whole;

impl<T: 'static> Place<T> for Whole {
    type Target = T;

    open spec fn valid(&self, value: T) -> bool {
        true
    }

    open spec fn at(&self, value: T) -> T {
        value
    }

    open spec fn only(&self, before: T, after: T) -> bool {
        true
    }

    proof fn lemma_only(&self, first: T, second: T, third: T) {
    }

    fn get<'a>(&self, value: &'a T) -> (part: &'a T) {
        value
    }

    fn get_mut<'a>(&self, value: &'a mut T) -> (part: &'a mut T) {
        value
    }
}

/// What a box holds.
#[derive(Debug, Clone, Copy, PartialEq, Eq)]
pub struct Unboxed;

impl<U: 'static> Place<Box<U>> for Unboxed {
    type Target = U;

    open spec fn valid(&self, value: Box<U>) -> bool {
        true
    }

    open spec fn at(&self, value: Box<U>) -> U {
        *value
    }

    open spec fn only(&self, before: Box<U>, after: Box<U>) -> bool {
        true
    }

    proof fn lemma_only(&self, first: Box<U>, second: Box<U>, third: Box<U>) {
    }

    fn get<'a>(&self, value: &'a Box<U>) -> (part: &'a U) {
        &**value
    }

    fn get_mut<'a>(&self, value: &'a mut Box<U>) -> (part: &'a mut U) {
        &mut **value
    }
}

/// An element of a vector.
#[derive(Debug, Clone, Copy, PartialEq, Eq)]
pub struct Elem<P> {
    /// The place of the vector.
    pub base: P,
    /// Which element.
    pub index: usize,
}

impl<T, E: 'static, P: Place<T, Target = Vec<E>>> Place<T> for Elem<P> {
    type Target = E;

    open spec fn valid(&self, value: T) -> bool {
        self.base.valid(value) && self.index < self.base.at(value)@.len()
    }

    open spec fn at(&self, value: T) -> E {
        self.base.at(value)@[self.index as int]
    }

    open spec fn only(&self, before: T, after: T) -> bool {
        &&& self.base.only(before, after)
        &&& self.base.at(after)@ == self.base.at(before)@.update(
            self.index as int,
            self.at(after),
        )
    }

    proof fn lemma_only(&self, first: T, second: T, third: T) {
        self.base.lemma_only(first, second, third);
        let elems = self.base.at(first)@;
        assert(elems.update(self.index as int, self.at(first)) =~= elems);
        assert(elems.update(self.index as int, self.at(second)).update(
            self.index as int,
            self.at(third),
        ) =~= elems.update(self.index as int, self.at(third)));
    }

    fn get<'a>(&self, value: &'a T) -> (part: &'a E) {
        &self.base.get(value)[self.index]
    }

    fn get_mut<'a>(&self, value: &'a mut T) -> (part: &'a mut E) {
        &mut self.base.get_mut(value)[self.index]
    }
}

/// A run of elements of a vector.
#[derive(Debug, Clone, Copy, PartialEq, Eq)]
pub struct Span<P> {
    /// The place of the vector.
    pub base: P,
    /// The first element.
    pub start: usize,
    /// The number of elements.
    pub len: usize,
}

impl<P> Span<P> {
    /// Whether `value` has the elements.
    pub open spec fn valid<T, E: 'static>(&self, value: T) -> bool where
        P: Place<T, Target = Vec<E>>,
     {
        self.base.valid(value) && self.start + self.len <= self.base.at(value)@.len()
    }

    /// The elements in `value`.
    pub open spec fn at<T, E: 'static>(&self, value: T) -> Seq<E> where
        P: Place<T, Target = Vec<E>>,
     {
        self.base.at(value)@.subrange(self.start as int, self.start + self.len)
    }

    /// Whether `after` is `before` but for the elements.
    pub open spec fn only<T, E: 'static>(&self, before: T, after: T) -> bool where
        P: Place<T, Target = Vec<E>>,
     {
        let (old_elems, new_elems) = (self.base.at(before)@, self.base.at(after)@);
        &&& self.base.only(before, after)
        &&& new_elems.len() == old_elems.len()
        &&& new_elems.take(self.start as int) == old_elems.take(self.start as int)
        &&& new_elems.skip(self.start + self.len) == old_elems.skip(self.start + self.len)
    }

    /// The place of the element `index`.
    pub open spec fn elem(&self, index: usize) -> Elem<P> {
        Elem { base: self.base, index: (self.start + index) as usize }
    }

    /// A value is itself but for the elements, and changing them twice changes nothing else.
    pub proof fn lemma_only<T, E: 'static>(&self, first: T, second: T, third: T) where
        P: Place<T, Target = Vec<E>>,

        requires
            self.valid::<T, E>(first),
        ensures
            self.only::<T, E>(first, first),
            self.only::<T, E>(first, second) && self.only::<T, E>(second, third) ==> self.only::<
                T,
                E,
            >(first, third),
    {
        self.base.lemma_only(first, second, third);
    }

    /// Changing one of the elements changes it among the elements, and nothing else.
    pub proof fn lemma_elem<T, E: 'static>(&self, before: T, after: T, index: usize) where
        P: Place<T, Target = Vec<E>>,

        requires
            self.valid::<T, E>(before),
            index < self.len,
            self.base.valid(after),
            self.elem(index).only(before, after),
            self.start + self.len <= usize::MAX,
        ensures
            self.valid::<T, E>(after),
            self.only::<T, E>(before, after),
            self.at::<T, E>(after) == self.at::<T, E>(before).update(
                index as int,
                self.elem(index).at(after),
            ),
    {
        let (old_elems, new_elems) = (self.base.at(before)@, self.base.at(after)@);
        assert(new_elems.take(self.start as int) =~= old_elems.take(self.start as int));
        assert(new_elems.skip(self.start + self.len) =~= old_elems.skip(self.start + self.len));
        assert(self.at::<T, E>(after) =~= self.at::<T, E>(before).update(
            index as int,
            self.elem(index).at(after),
        ));
    }

    /// The elements in `value`.
    pub fn get<'a, T, E: 'static>(&self, value: &'a T) -> (elems: &'a [E]) where
        P: Place<T, Target = Vec<E>>,

        requires
            self.valid::<T, E>(*value),
        ensures
            elems@ == self.at::<T, E>(*value),
    {
        let elems: &'a [E] = self.base.get(value).as_slice();
        assert(elems.len() == elems@.len());
        vstd::slice::slice_subrange(elems, self.start, self.start + self.len)
    }

    /// The elements in `value`, to be changed. There are as many afterwards.
    pub fn get_mut<'a, T, E: 'static>(&self, value: &'a mut T) -> (elems: &'a mut [E]) where
        P: Place<T, Target = Vec<E>>,

        requires
            self.valid::<T, E>(*old(value)),
        ensures
            elems@ == self.at::<T, E>(*old(value)),
            final(elems)@.len() == self.len ==> {
                &&& self.valid::<T, E>(*final(value))
                &&& self.at::<T, E>(*final(value)) == final(elems)@
                &&& self.only::<T, E>(*old(value), *final(value))
            },
    {
        let ghost before = self.base.at(*value)@;
        let elems: &'a mut [E] = self.base.get_mut(value).as_mut_slice();
        let (head, tail) = elems.split_at_mut(self.start);
        let (elems, rest) = tail.split_at_mut(self.len);
        proof {
            let (head, rest) = (head@, rest@);
            assert(head =~= before.take(self.start as int));
            assert(rest =~= before.skip(self.start + self.len));
            assert forall|mid: Seq<E>| mid.len() == self.len implies {
                let all = #[trigger] (head + (mid + rest));
                &&& all.len() == head.len() + mid.len() + rest.len()
                &&& all.take(self.start as int) == head
                &&& all.subrange(self.start as int, self.start + self.len) == mid
                &&& all.skip(self.start + self.len) == rest
            } by {
                let all = head + (mid + rest);
                assert(all.take(self.start as int) =~= head);
                assert(all.subrange(self.start as int, self.start + self.len) =~= mid);
                assert(all.skip(self.start + self.len) =~= rest);
            }
        }
        elems
    }
}

/// A tuple that has a component `N`.
pub trait Part<const N: usize>: Sized {
    /// The type of the component.
    type Target: 'static;

    /// The component.
    spec fn part(&self) -> Self::Target;

    /// Whether the other components are as in `before`.
    spec fn rest(&self, before: Self) -> bool;

    /// A tuple has its own other components, and keeps them if they are kept twice.
    proof fn lemma_rest(&self, second: Self, third: Self)
        ensures
            self.rest(*self),
            second.rest(*self) && third.rest(second) ==> third.rest(*self),
    ;

    /// The component.
    fn part_ref(&self) -> (part: &Self::Target)
        ensures
            *part == self.part(),
    ;

    /// The component, to be changed.
    fn part_mut(&mut self) -> (part: &mut Self::Target)
        ensures
            *part == old(self).part(),
            final(self).part() == *final(part),
            final(self).rest(*old(self)),
    ;
}

/// A component of a tuple.
#[derive(Debug, Clone, Copy, PartialEq, Eq)]
pub struct Field<P, const N: usize> {
    /// The place of the tuple.
    pub base: P,
}

impl<T, P: Place<T>, const N: usize> Place<T> for Field<P, N> where P::Target: Part<N> {
    type Target = <P::Target as Part<N>>::Target;

    open spec fn valid(&self, value: T) -> bool {
        self.base.valid(value)
    }

    open spec fn at(&self, value: T) -> Self::Target {
        self.base.at(value).part()
    }

    open spec fn only(&self, before: T, after: T) -> bool {
        self.base.only(before, after) && self.base.at(after).rest(self.base.at(before))
    }

    proof fn lemma_only(&self, first: T, second: T, third: T) {
        self.base.lemma_only(first, second, third);
        self.base.at(first).lemma_rest(self.base.at(second), self.base.at(third));
    }

    fn get<'a>(&self, value: &'a T) -> (part: &'a Self::Target) {
        self.base.get(value).part_ref()
    }

    fn get_mut<'a>(&self, value: &'a mut T) -> (part: &'a mut Self::Target) {
        self.base.get_mut(value).part_mut()
    }
}

impl<A: 'static> Part<0> for (A,) {
    type Target = A;

    open spec fn part(&self) -> A {
        self.0
    }

    open spec fn rest(&self, before: Self) -> bool {
        true
    }

    proof fn lemma_rest(&self, second: Self, third: Self) {
    }

    fn part_ref(&self) -> (part: &A) {
        &self.0
    }

    fn part_mut(&mut self) -> (part: &mut A) {
        &mut self.0
    }
}

impl<A: 'static, B: 'static> Part<0> for (A, B) {
    type Target = A;

    open spec fn part(&self) -> A {
        self.0
    }

    open spec fn rest(&self, before: Self) -> bool {
        self.1 == before.1
    }

    proof fn lemma_rest(&self, second: Self, third: Self) {
    }

    fn part_ref(&self) -> (part: &A) {
        &self.0
    }

    fn part_mut(&mut self) -> (part: &mut A) {
        &mut self.0
    }
}

impl<A: 'static, B: 'static> Part<1> for (A, B) {
    type Target = B;

    open spec fn part(&self) -> B {
        self.1
    }

    open spec fn rest(&self, before: Self) -> bool {
        self.0 == before.0
    }

    proof fn lemma_rest(&self, second: Self, third: Self) {
    }

    fn part_ref(&self) -> (part: &B) {
        &self.1
    }

    fn part_mut(&mut self) -> (part: &mut B) {
        &mut self.1
    }
}

impl<A: 'static, B: 'static, C: 'static> Part<0> for (A, B, C) {
    type Target = A;

    open spec fn part(&self) -> A {
        self.0
    }

    open spec fn rest(&self, before: Self) -> bool {
        self.1 == before.1 && self.2 == before.2
    }

    proof fn lemma_rest(&self, second: Self, third: Self) {
    }

    fn part_ref(&self) -> (part: &A) {
        &self.0
    }

    fn part_mut(&mut self) -> (part: &mut A) {
        &mut self.0
    }
}

impl<A: 'static, B: 'static, C: 'static> Part<1> for (A, B, C) {
    type Target = B;

    open spec fn part(&self) -> B {
        self.1
    }

    open spec fn rest(&self, before: Self) -> bool {
        self.0 == before.0 && self.2 == before.2
    }

    proof fn lemma_rest(&self, second: Self, third: Self) {
    }

    fn part_ref(&self) -> (part: &B) {
        &self.1
    }

    fn part_mut(&mut self) -> (part: &mut B) {
        &mut self.1
    }
}

impl<A: 'static, B: 'static, C: 'static> Part<2> for (A, B, C) {
    type Target = C;

    open spec fn part(&self) -> C {
        self.2
    }

    open spec fn rest(&self, before: Self) -> bool {
        self.0 == before.0 && self.1 == before.1
    }

    proof fn lemma_rest(&self, second: Self, third: Self) {
    }

    fn part_ref(&self) -> (part: &C) {
        &self.2
    }

    fn part_mut(&mut self) -> (part: &mut C) {
        &mut self.2
    }
}

impl<A: 'static, B: 'static, C: 'static, D: 'static> Part<0> for (A, B, C, D) {
    type Target = A;

    open spec fn part(&self) -> A {
        self.0
    }

    open spec fn rest(&self, before: Self) -> bool {
        self.1 == before.1 && self.2 == before.2 && self.3 == before.3
    }

    proof fn lemma_rest(&self, second: Self, third: Self) {
    }

    fn part_ref(&self) -> (part: &A) {
        &self.0
    }

    fn part_mut(&mut self) -> (part: &mut A) {
        &mut self.0
    }
}

impl<A: 'static, B: 'static, C: 'static, D: 'static> Part<1> for (A, B, C, D) {
    type Target = B;

    open spec fn part(&self) -> B {
        self.1
    }

    open spec fn rest(&self, before: Self) -> bool {
        self.0 == before.0 && self.2 == before.2 && self.3 == before.3
    }

    proof fn lemma_rest(&self, second: Self, third: Self) {
    }

    fn part_ref(&self) -> (part: &B) {
        &self.1
    }

    fn part_mut(&mut self) -> (part: &mut B) {
        &mut self.1
    }
}

impl<A: 'static, B: 'static, C: 'static, D: 'static> Part<2> for (A, B, C, D) {
    type Target = C;

    open spec fn part(&self) -> C {
        self.2
    }

    open spec fn rest(&self, before: Self) -> bool {
        self.0 == before.0 && self.1 == before.1 && self.3 == before.3
    }

    proof fn lemma_rest(&self, second: Self, third: Self) {
    }

    fn part_ref(&self) -> (part: &C) {
        &self.2
    }

    fn part_mut(&mut self) -> (part: &mut C) {
        &mut self.2
    }
}

impl<A: 'static, B: 'static, C: 'static, D: 'static> Part<3> for (A, B, C, D) {
    type Target = D;

    open spec fn part(&self) -> D {
        self.3
    }

    open spec fn rest(&self, before: Self) -> bool {
        self.0 == before.0 && self.1 == before.1 && self.2 == before.2
    }

    proof fn lemma_rest(&self, second: Self, third: Self) {
    }

    fn part_ref(&self) -> (part: &D) {
        &self.3
    }

    fn part_mut(&mut self) -> (part: &mut D) {
        &mut self.3
    }
}

} // verus!
