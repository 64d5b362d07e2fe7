//! Borrowing by contract: borrows of several kinds wait in queues for their turn.
//!
//! A contract counts the borrows that are held and keeps those that wait. When enough borrows
//! are given back, the ones that wait are granted in the order in which they came.
use vstd::prelude::*;

pub mod borrow_queue;
pub mod laws;
pub mod states;

use std::marker::PhantomData;
use std::task::Waker;
use crate::waker::Poll;
use borrow_queue::{BorrowId, BorrowKind, BorrowQueue, BorrowQueueNode, BorrowWaker, WakeState};
use states::{Borrowless, Owner, PtrState, RefMutState, RefState};

verus! {

/// What is left to do for the caller, once the contract is up to date.
#[derive(Debug, Clone, Copy, PartialEq, Eq, Structural)]
pub enum AdditionalWork {
    /// Nothing.
    Noop,
    /// The shared value is to be dropped.
    Drop,
}

/// The counts of a contract.
pub struct ContractCounts {
    /// The number of exotic references that could upgrade to become mutable (or are already
    /// mutable).
    pub exotic_count: usize,
    /// The number of strong references held.
    pub borrow_count: usize,
    /// Number of mutable borrows thus far (counts upgrading, owner re-acquisition and dropping).
    pub mut_number: u64,
}

impl ContractCounts {
    /// Every exotic reference is a strong one.
    pub open spec fn wf(self) -> bool {
        self.exotic_count <= self.borrow_count
    }

    /// Whether another borrow of `kind` can be counted.
    pub open spec fn can_acquire(self, kind: BorrowKind) -> bool {
        &&& kind.exotic() ==> self.exotic_count < usize::MAX
        &&& kind != BorrowKind::Empty ==> self.borrow_count < usize::MAX
        &&& kind == BorrowKind::Mut ==> self.mut_number < u64::MAX
    }

    /// Whether a borrow of `kind` has been counted and not given back.
    pub open spec fn can_release(self, kind: BorrowKind) -> bool {
        &&& kind.exotic() ==> self.exotic_count > 0
        &&& kind == BorrowKind::Ref ==> self.borrow_count > self.exotic_count
    }

    /// Whether everything that may be granted after `grant` can be counted, if there is room for
    /// the references.
    pub open spec fn has_headroom(self, grant: BorrowKind) -> bool {
        grant.exotic() || self.exotic_count < usize::MAX && self.mut_number < u64::MAX
    }

    /// The counts with one more borrow of `kind`.
    pub open spec fn acquired(self, kind: BorrowKind) -> ContractCounts {
        ContractCounts {
            exotic_count: if kind.exotic() {
                (self.exotic_count + 1) as usize
            } else {
                self.exotic_count
            },
            borrow_count: if kind != BorrowKind::Empty {
                (self.borrow_count + 1) as usize
            } else {
                self.borrow_count
            },
            mut_number: if kind == BorrowKind::Mut {
                (self.mut_number + 1) as u64
            } else {
                self.mut_number
            },
        }
    }

    /// The counts with one borrow of `kind` less. The number of mutable borrows thus far stays.
    pub open spec fn released(self, kind: BorrowKind) -> ContractCounts {
        ContractCounts {
            exotic_count: if kind.exotic() {
                (self.exotic_count - 1) as usize
            } else {
                self.exotic_count
            },
            borrow_count: if kind != BorrowKind::Empty {
                (self.borrow_count - 1) as usize
            } else {
                self.borrow_count
            },
            mut_number: self.mut_number,
        }
    }

    /// The counts with one more borrow for each of those that waited in `queue`.
    pub open spec fn acquired_all(self, queue: Seq<BorrowWaker>) -> ContractCounts
        decreases queue.len(),
    {
        if queue.len() == 0 {
            self
        } else {
            self.acquired_all(queue.drop_last()).acquired(queue.last().kind)
        }
    }

    /// The counts of a contract without borrows.
    pub fn new() -> (counts: Self)
        ensures
            counts == (ContractCounts { exotic_count: 0, borrow_count: 0, mut_number: 0 }),
    {
        ContractCounts { exotic_count: 0, borrow_count: 0, mut_number: 0 }
    }

    /// Counts a borrow of `kind` that was granted.
    pub fn record_borrow_acquire(&mut self, kind: &BorrowKind)
        requires
            old(self).wf(),
            old(self).can_acquire(*kind),
        ensures
            final(self).wf(),
            *final(self) == old(self).acquired(*kind),
    {
        match kind {
            BorrowKind::Mut => {
                self.exotic_count += 1;
                self.borrow_count += 1;
                self.mut_number += 1;
            },
            BorrowKind::Upgradable => {
                self.exotic_count += 1;
                self.borrow_count += 1;
            },
            BorrowKind::Ref => {
                self.borrow_count += 1;
            },
            BorrowKind::Empty => (),
        }
    }

    /// Counts a borrow of `kind` that was given back.
    pub fn record_borrow_release(&mut self, kind: &BorrowKind)
        requires
            old(self).wf(),
            old(self).can_release(*kind),
        ensures
            final(self).wf(),
            *final(self) == old(self).released(*kind),
    {
        match kind {
            BorrowKind::Mut | BorrowKind::Upgradable => {
                self.exotic_count -= 1;
                self.borrow_count -= 1;
            },
            BorrowKind::Ref => {
                self.borrow_count -= 1;
            },
            BorrowKind::Empty => (),
        }
    }
}

/// The state of a contract.
pub struct ContractState {
    /// Contains important counts.
    pub counts: ContractCounts,
    /// Contains queued borrows.
    pub wakers: BorrowQueue,
    /// The nodes that borrows wait at.
    pub nodes: Vec<BorrowQueueNode>,
    /// The wakers whose tasks are due, in the order in which they became due.
    pub due: Vec<Waker>,
}

impl View for ContractState {
    type V = WakeState;

    open spec fn view(&self) -> WakeState {
        WakeState {
            queue: self.wakers,
            nodes: borrow_queue::views(self.nodes@),
            counts: self.counts,
            due: self.due@,
        }
    }
}

impl WakeState {
    /// Well-formedness of the state of a contract.
    pub open spec fn wf(self) -> bool {
        self.queue.wf(self.nodes) && self.counts.wf()
    }

    /// Whether waking is due, once a borrow of kind `from` was given back: none is left, or no
    /// exotic one.
    pub open spec fn wakes(self, from: BorrowKind) -> bool {
        self.counts.borrow_count == 0 || from.exotic() && self.counts.exotic_count == 0
    }

    /// The state once a borrow of kind `from` was given back and what may be granted is woken.
    pub open spec fn reduced(self, from: BorrowKind) -> (WakeState, AdditionalWork) {
        if self.counts.borrow_count == 0 {
            self.woken(BorrowKind::Empty)
        } else if self.wakes(from) {
            self.woken(BorrowKind::Ref)
        } else {
            (self, AdditionalWork::Noop)
        }
    }

    /// The state once an exotic reference is no longer counted: with the last one, upgrading ends.
    pub open spec fn without_exotic(self) -> WakeState {
        if self.counts.exotic_count == 0 {
            self.upgrading_ended()
        } else {
            self
        }
    }

    /// The state with a borrow of kind `from` turned into one of kind `to`.
    pub open spec fn recounted(self, from: BorrowKind, to: BorrowKind) -> WakeState {
        WakeState { counts: self.counts.released(from).acquired(to), ..self }
    }

    /// The state with a borrow of kind `from` turned into one of kind `to`, and what may be granted
    /// woken if that gives up privileges.
    pub open spec fn cast(self, from: BorrowKind, to: BorrowKind) -> WakeState {
        if to.rank() < from.rank() {
            self.recounted(from, to).reduced(from).0
        } else {
            self.recounted(from, to)
        }
    }

    /// Whether a borrow of kind `from` can be turned into one of kind `to`.
    pub open spec fn can_recount(self, from: BorrowKind, to: BorrowKind) -> bool {
        self.counts.can_release(from) && self.counts.released(from).can_acquire(to)
    }
}

impl ContractState {
    /// Well-formedness.
    pub open spec fn wf(&self) -> bool {
        self@.wf()
    }

    /// The state of a contract without borrows.
    pub fn new() -> (state: Self)
        ensures
            state.wf(),
            state@.counts == (ContractCounts { exotic_count: 0, borrow_count: 0, mut_number: 0 }),
            state@.queue == (BorrowQueue::Final { owner: None }),
            state@.nodes.len() == 0,
            state@.due.len() == 0,
    {
        ContractState {
            counts: ContractCounts::new(),
            wakers: BorrowQueue::new(),
            nodes: Vec::new(),
            due: Vec::new(),
        }
    }

    /// Wakes what may be granted now, where `kind` was granted last.
    pub fn wake_from(&mut self, kind: BorrowKind) -> (work: AdditionalWork)
        requires
            old(self).wf(),
            old(self)@.has_headroom(kind),
        ensures
            final(self).wf(),
            (final(self)@, work) == old(self)@.woken(kind),
    {
        self.wakers.wake_from(kind, &mut self.nodes, &mut self.counts, &mut self.due)
    }

    /// Wakes what may be granted, once a borrow of kind `from` was given back.
    pub fn reduce_borrow(&mut self, from: &BorrowKind) -> (work: AdditionalWork)
        requires
            old(self).wf(),
            old(self)@.wakes(*from) ==> old(self)@.has_headroom(BorrowKind::Ref),
        ensures
            final(self).wf(),
            (final(self)@, work) == old(self)@.reduced(*from),
    {
        if self.counts.borrow_count == 0 {
            self.wake_from(BorrowKind::Empty)
        } else if from.is_exotic() && self.counts.exotic_count == 0 {
            self.wake_from(BorrowKind::Ref)
        } else {
            AdditionalWork::Noop
        }
    }

    /// Turns a borrow of kind `from` into one of kind `to`, and wakes what may be granted if that
    /// gives up privileges.
    pub fn cast_borrow(&mut self, from: &BorrowKind, to: &BorrowKind)
        requires
            old(self).wf(),
            old(self)@.can_recount(*from, *to),
            to.rank() < from.rank() && old(self)@.recounted(*from, *to).wakes(*from) ==> old(
                self,
            )@.recounted(*from, *to).has_headroom(BorrowKind::Ref),
        ensures
            final(self).wf(),
            final(self)@ == old(self)@.cast(*from, *to),
    {
        self.silent_cast_borrow(from, to);
        if *to < *from {
            // This is not the last time that something is woken, so no work is left.
            let _ = self.reduce_borrow(from);
        }
    }

    /// Turns a borrow of kind `from` into one of kind `to` without waking anything.
    pub fn silent_cast_borrow(&mut self, from: &BorrowKind, to: &BorrowKind)
        requires
            old(self).wf(),
            old(self)@.can_recount(*from, *to),
        ensures
            final(self).wf(),
            final(self)@ == old(self)@.recounted(*from, *to),
    {
        self.counts.record_borrow_release(from);
        self.counts.record_borrow_acquire(to);
    }

    /// Ends upgrading if no exotic reference is counted any more: what waited to upgrade then waits
    /// for its turn like any other borrow.
    pub fn release_exotic(&mut self)
        requires
            old(self).wf(),
        ensures
            final(self).wf(),
            final(self)@ == old(self)@.without_exotic(),
    {
        if self.counts.exotic_count == 0 {
            self.wakers.end_upgrading(&mut self.nodes);
        }
    }

    /// Gives up the owner's claim to the value. `None` if the owner does not wait for it: then
    /// the value is to be dropped, which is counted.
    pub fn cancel_reaquire(&mut self) -> (cancelled: Option<()>)
        requires
            old(self).wf(),
            old(self)@.queue.owner() is None ==> old(self)@.counts.mut_number < u64::MAX,
        ensures
            final(self).wf(),
            cancelled is Some <==> old(self)@.queue.owner() is Some,
            final(self)@ == if cancelled is Some {
                WakeState { queue: old(self)@.queue.with_owner(None), ..old(self)@ }
            } else {
                WakeState {
                    counts: ContractCounts {
                        mut_number: (old(self)@.counts.mut_number + 1) as u64,
                        ..old(self)@.counts
                    },
                    ..old(self)@
                }
            },
    {
        match self.wakers.owner_waker().take() {
            Some(_) => Some(()),
            None => {
                self.counts.mut_number += 1;
                None
            },
        }
    }
}

/// A shared value, its synchronization information, and the number of pointers to them.
pub struct Contract<T> {
    /// The number of references pointing to the contract (includes weak references and owner).
    pub ref_count: usize,
    /// Stores the shared data, until it is dropped or taken.
    pub value: Option<T>,
    /// Synchronization information.
    pub contract_state: ContractState,
}

impl<T> Contract<T> {
    /// Well-formedness.
    pub open spec fn wf(&self) -> bool {
        self.contract_state.wf()
    }
}

/// What a pointer holds.
pub struct PointerInner<T, S: PtrState> {
    /// What the pointer stands for.
    pub state: S,
    /// The contract that it points to.
    pub contract: PhantomData<T>,
}

/// A pointer to a contract. It is to be given back by [`Pointer::release`].
pub struct Pointer<T, S: PtrState> {
    /// What the pointer holds.
    pub inner: PointerInner<T, S>,
}

impl<T, S: PtrState> PointerInner<T, S> {
    /// The value.
    pub fn get_ref<'a>(&self, contract: &'a Contract<T>) -> (value: &'a T) where S: RefState
        requires
            contract.value is Some,
        ensures
            *value == contract.value->0,
    {
        contract.value.as_ref().unwrap()
    }

    /// The value, to be changed.
    pub fn get_mut<'a>(&mut self, contract: &'a mut Contract<T>) -> (value: &'a mut T) where
        S: RefMutState,

        requires
            old(contract).value is Some,
        ensures
            *value == old(contract).value->0,
            final(contract).value == Some(*final(value)),
            final(contract).ref_count == old(contract).ref_count,
            final(contract).contract_state == old(contract).contract_state,
            *final(self) == *old(self),
    {
        contract.value.as_mut().unwrap()
    }

    fn map_state<Q: PtrState>(self, f: impl FnOnce(S) -> Q) -> (inner: PointerInner<T, Q>)
        requires
            f.requires((self.state,)),
        ensures
            f.ensures((self.state,), inner.state),
    {
        PointerInner { state: f(self.state), contract: PhantomData }
    }
}

impl<T, S: PtrState> Pointer<T, S> {
    fn into_inner(self) -> (inner: PointerInner<T, S>)
        ensures
            inner == self.inner,
    {
        self.inner
    }

    fn handle_drop(inner: PointerInner<T, S>) -> (pointer: Self)
        ensures
            pointer.inner == inner,
    {
        Pointer { inner }
    }

    fn new_ptr<R: PtrState>(&self, contract: &mut Contract<T>, state: R) -> (pointer: Pointer<T, R>)
        requires
            old(contract).ref_count < usize::MAX,
        ensures
            pointer.inner.state == state,
            *final(contract) == (Contract {
                ref_count: (old(contract).ref_count + 1) as usize,
                ..*old(contract)
            }),
    {
        contract.ref_count += 1;
        Pointer::handle_drop(PointerInner { state, contract: PhantomData })
    }

    /// What the pointer holds.
    pub fn deref(&self) -> (inner: &PointerInner<T, S>)
        ensures
            *inner == self.inner,
    {
        &self.inner
    }

    /// What the pointer holds, to be changed.
    pub fn deref_mut(&mut self) -> (inner: &mut PointerInner<T, S>)
        ensures
            *inner == old(self).inner,
            final(self).inner == *final(inner),
    {
        &mut self.inner
    }

    /// Gives the pointer back: the contract lets go of it, which may drop the value. Returns
    /// whether it was the last one, so that the contract itself is to be freed.
    pub fn release(self, contract: &mut Contract<T>) -> (last: bool)
        requires
            old(contract).wf(),
            old(contract).ref_count > 0,
            self.inner.state.can_untrack(old(contract).contract_state@),
        ensures
            final(contract).wf(),
            final(contract).ref_count == old(contract).ref_count - 1,
            last == (final(contract).ref_count == 0),
            ({
                let (state, work) = self.inner.state.untracked(old(contract).contract_state@);
                &&& final(contract).contract_state@ == state
                &&& final(contract).value == if work == AdditionalWork::Drop {
                    None
                } else {
                    old(contract).value
                }
            }),
    {
        match self.inner.state.un_track(&mut contract.contract_state) {
            AdditionalWork::Noop => (),
            AdditionalWork::Drop => {
                contract.value = None;
            },
        }
        contract.ref_count -= 1;
        contract.ref_count == 0
    }
}

impl<T, S: RefState> Pointer<T, S> {
    /// The value.
    pub fn get_ref<'a>(&self, contract: &'a Contract<T>) -> (value: &'a T)
        requires
            contract.value is Some,
        ensures
            *value == contract.value->0,
    {
        self.inner.get_ref(contract)
    }
}

impl<T, S: RefMutState> Pointer<T, S> {
    /// The value, to be changed.
    pub fn get_mut<'a>(&mut self, contract: &'a mut Contract<T>) -> (value: &'a mut T)
        requires
            old(contract).value is Some,
        ensures
            *value == old(contract).value->0,
            final(contract).value == Some(*final(value)),
            final(contract).ref_count == old(contract).ref_count,
            final(contract).contract_state == old(contract).contract_state,
            *final(self) == *old(self),
    {
        self.inner.get_mut(contract)
    }
}

impl<T> Pointer<T, states::Owner> {
    /// A contract for `value`, and the pointer of its owner.
    pub fn init_with(value: T) -> (contract: (Contract<T>, Self))
        ensures
            contract.0.wf(),
            contract.0.ref_count == 1,
            contract.0.value == Some(value),
            contract.0.contract_state@.counts == (ContractCounts {
                exotic_count: 0,
                borrow_count: 0,
                mut_number: 0,
            }),
            contract.0.contract_state@.queue == (BorrowQueue::Final { owner: None }),
            contract.0.contract_state@.nodes.len() == 0,
            contract.0.contract_state@.due.len() == 0,
    {
        let contract = Contract {
            ref_count: 1,
            value: Some(value),
            contract_state: ContractState::new(),
        };
        let state = Owner::init();
        (contract, Pointer::handle_drop(PointerInner { state, contract: PhantomData }))
    }

    /// Takes the value out of the contract.
    pub fn take_value(self, contract: &mut Contract<T>) -> (value: T)
        requires
            old(contract).wf(),
            old(contract).ref_count > 0,
            old(contract).value is Some,
        ensures
            final(contract).wf(),
            value == old(contract).value->0,
            final(contract).value is None,
            final(contract).ref_count == old(contract).ref_count - 1,
            final(contract).contract_state@ == old(contract).contract_state@,
    {
        let value = contract.value.take();
        let inner = self.into_inner().map_state(
            |_state: Owner| -> (state: Borrowless)
                { Borrowless },
        );
        Pointer::handle_drop(inner).release(contract);
        value.unwrap()
    }
}

impl<T> Pointer<T, states::Weak> {
    fn upgrade_inner(self, contract: &mut Contract<T>) -> (upgraded: Result<
        Pointer<T, states::Ref>,
        Pointer<T, states::Borrowless>,
    >)
        requires
            old(contract).wf(),
            old(contract).contract_state@.counts.borrow_count < usize::MAX,
        ensures
            final(contract).wf(),
            upgraded is Ok <==> self.inner.state.0 == old(contract).contract_state@.counts.mut_number,
            final(contract).ref_count == old(contract).ref_count,
            final(contract).value == old(contract).value,
            final(contract).contract_state@ == if upgraded is Ok {
                old(contract).contract_state@.recounted(BorrowKind::Empty, BorrowKind::Ref)
            } else {
                old(contract).contract_state@
            },
    {
        let inner = self.into_inner();
        match inner.state.try_upgrade(contract.contract_state.counts.mut_number) {
            Ok(state) => {
                contract.contract_state.cast_borrow(
                    &BorrowKind::Empty,
                    &states::Ref::borrow_kind(),
                );
                Ok(Pointer::handle_drop(PointerInner { state, contract: PhantomData }))
            },
            Err(state) => Err(
                Pointer::handle_drop(PointerInner { state, contract: PhantomData }),
            ),
        }
    }

    /// A reference, if the value has not been borrowed mutably since this one was taken. If it
    /// has, the pointer is given back.
    pub fn upgrade(self, contract: &mut Contract<T>) -> (upgraded: Option<Pointer<T, states::Ref>>)
        requires
            old(contract).wf(),
            old(contract).ref_count > 0,
            old(contract).contract_state@.counts.borrow_count < usize::MAX,
        ensures
            final(contract).wf(),
            upgraded is Some <==> self.inner.state.0 == old(
                contract,
            ).contract_state@.counts.mut_number,
            final(contract).value == old(contract).value,
            final(contract).ref_count == if upgraded is Some {
                old(contract).ref_count as int
            } else {
                old(contract).ref_count - 1
            },
            final(contract).contract_state@ == if upgraded is Some {
                old(contract).contract_state@.recounted(BorrowKind::Empty, BorrowKind::Ref)
            } else {
                old(contract).contract_state@
            },
    {
        match self.upgrade_inner(contract) {
            Ok(pointer) => Some(pointer),
            Err(pointer) => {
                pointer.release(contract);
                None
            },
        }
    }
}

impl<T> Pointer<T, states::Ref> {
    /// Another pointer, that does not keep the value.
    pub fn downgrade(&self, contract: &mut Contract<T>) -> (weak: Pointer<T, states::Weak>)
        requires
            old(contract).ref_count < usize::MAX,
        ensures
            weak.inner.state.0 == old(contract).contract_state@.counts.mut_number,
            *final(contract) == (Contract {
                ref_count: (old(contract).ref_count + 1) as usize,
                ..*old(contract)
            }),
    {
        let mut_number: u64 = contract.contract_state.counts.mut_number;
        self.new_ptr(contract, states::Weak(mut_number))
    }
}

impl<T> Pointer<T, states::UpgradableRef> {
    /// Another pointer, that may not become mutable.
    pub fn as_ref(&self, contract: &mut Contract<T>) -> (rf: Pointer<T, states::Ref>)
        requires
            old(contract).wf(),
            old(contract).ref_count < usize::MAX,
            old(contract).contract_state@.counts.borrow_count < usize::MAX,
        ensures
            final(contract).wf(),
            final(contract).ref_count == old(contract).ref_count + 1,
            final(contract).value == old(contract).value,
            final(contract).contract_state@ == old(contract).contract_state@.recounted(
                BorrowKind::Empty,
                BorrowKind::Ref,
            ),
    {
        contract.contract_state.counts.record_borrow_acquire(
            &states::Ref::borrow_kind(),
        );
        self.new_ptr(contract, self.inner.state.clone().into_ref())
    }
}

impl<T> Pointer<T, states::RefMut> {
    /// Gives up mutability, and wakes what may then be granted. With the last exotic reference,
    /// upgrading ends.
    pub fn into_ref(self, contract: &mut Contract<T>) -> (rf: Pointer<T, states::Ref>)
        requires
            old(contract).wf(),
            ({
                let state = old(contract).contract_state@;
                let after = state.recounted(
                    BorrowKind::Upgradable,
                    BorrowKind::Ref,
                ).without_exotic();
                &&& state.can_recount(BorrowKind::Upgradable, BorrowKind::Ref)
                &&& after.wakes(BorrowKind::Upgradable) ==> after.has_headroom(BorrowKind::Ref)
            }),
        ensures
            final(contract).wf(),
            final(contract).ref_count == old(contract).ref_count,
            final(contract).value == old(contract).value,
            final(contract).contract_state@ == old(contract).contract_state@.recounted(
                BorrowKind::Upgradable,
                BorrowKind::Ref,
            ).without_exotic().reduced(BorrowKind::Upgradable).0,
    {
        let inner = self.into_inner();
        contract.contract_state.silent_cast_borrow(
            &states::RefMut::borrow_kind(),
            &states::Ref::borrow_kind(),
        );
        contract.contract_state.release_exotic();
        // The reference is still held, so no work is left.
        let _ = contract.contract_state.reduce_borrow(&states::RefMut::borrow_kind());
        Pointer::handle_drop(
            PointerInner { state: inner.state.into_ref(), contract: PhantomData },
        )
    }

    /// Gives up mutability for now. This wakes nothing, as those that wait expect all potential
    /// mutation to cease until then, by upgradable references too.
    pub fn downgrade(self, contract: &mut Contract<T>) -> (rf: Pointer<T, states::UpgradableRef>)
        requires
            old(contract).wf(),
            old(contract).contract_state@.counts.can_release(BorrowKind::Upgradable),
        ensures
            final(contract).wf(),
            final(contract).ref_count == old(contract).ref_count,
            final(contract).value == old(contract).value,
            final(contract).contract_state@ == old(contract).contract_state@,
    {
        let inner = self.into_inner();
        contract.contract_state.silent_cast_borrow(
            &states::RefMut::borrow_kind(),
            &states::UpgradableRef::borrow_kind(),
        );
        Pointer::handle_drop(
            PointerInner { state: inner.state.downgrade(), contract: PhantomData },
        )
    }
}

/// A pointer that waits to be granted. It is to be given back by [`PointerAwait::release`].
pub struct PointerAwait<T, S: PtrState> {
    /// The name of the borrow that waits.
    pub id: BorrowId,
    /// The pointer, and the node that its borrow waits at.
    pub inner: Option<(PointerInner<T, S>, usize)>,
}

impl<T, S: PtrState> PointerAwait<T, S> {
    /// Whether the pointer has not been handed out yet.
    pub fn is_pollable(&self) -> (pollable: bool)
        ensures
            pollable == self.inner is Some,
    {
        self.inner.is_some()
    }

    /// Polls for the pointer.
    pub fn poll_val(&mut self, contract: &mut Contract<T>, waker: Waker) -> (poll: Poll<
        Pointer<T, S>,
    >)
        requires
            old(contract).wf(),
            old(self).inner is Some,
            (old(self).inner->0).1 < old(contract).contract_state@.nodes.len(),
        ensures
            final(contract).wf(),
            final(contract).ref_count == old(contract).ref_count,
            final(contract).value == old(contract).value,
            final(self).id == old(self).id,
            ({
                let (inner, at) = old(self).inner->0;
                let state = old(contract).contract_state@;
                let node = state.nodes[at as int];
                match poll {
                    Poll::Ready(pointer) => {
                        &&& !node.waits(old(self).id)
                        &&& pointer.inner == inner
                        &&& final(self).inner is None
                        &&& final(contract).contract_state@ == state
                    },
                    Poll::Pending => {
                        &&& node.waits(old(self).id)
                        &&& final(self).inner == old(self).inner
                        &&& final(contract).contract_state@ == (WakeState {
                            nodes: state.nodes.update(
                                at as int,
                                node.with_borrow(
                                    old(self).id,
                                    BorrowWaker { waker, ..node.queue[node.place(old(self).id)] },
                                ),
                            ),
                            ..state
                        })
                    },
                }
            }),
    {
        let ghost before = contract.contract_state@.nodes;
        match self.inner.take() {
            Some((inner, at)) => {
                assert(contract.contract_state.nodes@[at as int]@ == before[at as int]);
                let poll = contract.contract_state.nodes[at].poll_at(&self.id, waker);
                assert(borrow_queue::views(contract.contract_state.nodes@) =~= before.update(
                    at as int,
                    contract.contract_state.nodes@[at as int]@,
                ));
                match poll {
                    Poll::Ready(_) => {
                        assert(contract.contract_state@.nodes =~= before);
                        Poll::Ready(Pointer::handle_drop(inner))
                    },
                    Poll::Pending => {
                        self.inner = Some((inner, at));
                        Poll::Pending
                    },
                }
            },
            None => Poll::Pending,
        }
    }

    /// Gives the pointer back. A borrow that still waits is given up; one that was granted is
    /// released.
    pub fn release(self, contract: &mut Contract<T>)
        requires
            old(contract).wf(),
            self.inner is Some ==> ({
                let (inner, at) = self.inner->0;
                &&& old(contract).ref_count > 0
                &&& at < old(contract).contract_state@.nodes.len()
                &&& !old(contract).contract_state@.nodes[at as int].waits(self.id)
                    ==> inner.state.can_untrack(old(contract).contract_state@)
            }),
        ensures
            final(contract).wf(),
            match self.inner {
                None => *final(contract) == *old(contract),
                Some((inner, at)) => {
                    let state = old(contract).contract_state@;
                    let node = state.nodes[at as int];
                    let untracked = inner.state.untracked(state);
                    &&& final(contract).ref_count == old(contract).ref_count - 1
                    &&& node.waits(self.id) ==> {
                        &&& final(contract).value == old(contract).value
                        &&& final(contract).contract_state@ == (WakeState {
                            nodes: state.nodes.update(
                                at as int,
                                node.with_kind(self.id, BorrowKind::Empty),
                            ),
                            ..state
                        })
                    }
                    &&& !node.waits(self.id) ==> {
                        &&& final(contract).contract_state@ == untracked.0
                        &&& final(contract).value == if untracked.1 == AdditionalWork::Drop {
                            None
                        } else {
                            old(contract).value
                        }
                    }
                },
            },
    {
        let ghost before = contract.contract_state@.nodes;
        match self.inner {
            Some((inner, at)) => {
                assert(contract.contract_state.nodes@[at as int]@ == before[at as int]);
                let closed = contract.contract_state.nodes[at].close_waker(&self.id);
                assert(borrow_queue::views(contract.contract_state.nodes@) =~= before.update(
                    at as int,
                    contract.contract_state.nodes@[at as int]@,
                ));
                match closed {
                    Some(()) => {
                        let inner = inner.map_state(
                            |_state: S| -> (state: Borrowless)
                                { Borrowless },
                        );
                        Pointer::handle_drop(inner).release(contract);
                    },
                    None => {
                        assert(contract.contract_state@.nodes =~= before);
                        Pointer::handle_drop(inner).release(contract);
                    },
                }
            },
            None => (),
        }
    }
}

} // verus!
