//! What a pointer to a contract stands for.
use vstd::prelude::*;
use crate::contract::borrow_queue::{BorrowKind, WakeState};
use crate::contract::{AdditionalWork, ContractCounts, ContractState};

verus! {

/// What a pointer stands for.
pub trait PtrState: Sized {
    /// Whether the contract can let go of the pointer.
    spec fn can_untrack(self, state: WakeState) -> bool;

    /// The contract once the pointer is dropped, and the work that is left.
    spec fn untracked(self, state: WakeState) -> (WakeState, AdditionalWork);

    /// Lets go of the pointer.
    #[must_use]
    fn un_track(self, state: &mut ContractState) -> (work: AdditionalWork)
        requires
            old(state).wf(),
            self.can_untrack(old(state)@),
        ensures
            final(state).wf(),
            (final(state)@, work) == self.untracked(old(state)@),
    ;
}

/// What a pointer that borrows stands for.
pub trait RefState: PtrState {
    /// What the pointer allows.
    spec fn kind() -> BorrowKind;

    /// What the pointer allows.
    fn borrow_kind() -> (kind: BorrowKind)
        ensures
            kind == Self::kind(),
    ;

    /// The contract once the pointer is released, before anything is woken.
    spec fn released(self, state: WakeState) -> WakeState;

    /// Prepares waking, once the pointer is no longer counted.
    fn release(self, state: &mut ContractState)
        requires
            old(state).wf(),
        ensures
            final(state).wf(),
            final(state)@ == self.released(old(state)@),
    ;
}

/// What a pointer that borrows mutably stands for.
pub trait RefMutState: RefState {

}

/// The contract without one borrow of `kind`.
pub open spec fn uncounted(state: WakeState, kind: BorrowKind) -> WakeState {
    WakeState { counts: state.counts.released(kind), ..state }
}

impl<T: RefState> PtrState for T {
    open spec fn can_untrack(self, state: WakeState) -> bool {
        let after = self.released(uncounted(state, T::kind()));
        &&& state.counts.can_release(T::kind())
        &&& after.wakes(T::kind()) ==> after.has_headroom(BorrowKind::Ref)
    }

    /// The borrow is no longer counted, and what may then be granted is woken.
    open spec fn untracked(self, state: WakeState) -> (WakeState, AdditionalWork) {
        self.released(uncounted(state, T::kind())).reduced(T::kind())
    }

    fn un_track(self, state: &mut ContractState) -> (work: AdditionalWork) {
        let kind: BorrowKind = T::borrow_kind();
        state.counts.record_borrow_release(&kind);
        self.release(state);
        state.reduce_borrow(&kind)
    }
}

/// A pointer that keeps only the contract.
#[derive(Clone, Copy)]
pub struct Borrowless;

impl PtrState for Borrowless {
    open spec fn can_untrack(self, state: WakeState) -> bool {
        true
    }

    open spec fn untracked(self, state: WakeState) -> (WakeState, AdditionalWork) {
        (state, AdditionalWork::Noop)
    }

    fn un_track(self, state: &mut ContractState) -> (work: AdditionalWork) {
        AdditionalWork::Noop
    }
}

/// The owner of the value.
pub struct Owner;

impl PtrState for Owner {
    open spec fn can_untrack(self, state: WakeState) -> bool {
        Host.can_untrack(state)
    }

    open spec fn untracked(self, state: WakeState) -> (WakeState, AdditionalWork) {
        Host.untracked(state)
    }

    fn un_track(self, state: &mut ContractState) -> (work: AdditionalWork) {
        self.shared().un_track(state)
    }
}

impl Owner {
    /// The owner of a new value.
    pub fn init() -> (owner: Self)
        ensures
            owner == Owner,
    {
        Owner
    }

    /// The owner once the value is shared.
    pub fn shared(self) -> (host: Host)
        ensures
            host == Host,
    {
        Host
    }

    /// A reference to the value.
    pub fn share_ref(&mut self) -> (rf: Ref)
        ensures
            rf == Ref,
            *final(self) == *old(self),
    {
        Ref
    }

    /// A mutable reference to the value.
    pub fn share_mut(&mut self) -> (rf_mut: RefMut)
        ensures
            rf_mut == RefMut,
            *final(self) == *old(self),
    {
        RefMut
    }
}

/// The owner of a value that is shared, who waits for it to come back.
pub struct Host;

impl PtrState for Host {
    open spec fn can_untrack(self, state: WakeState) -> bool {
        state.queue.owner() is None ==> state.counts.mut_number < u64::MAX
    }

    /// If the owner waits, whoever gives back the last borrow will drop the value. If not, the
    /// value is to be dropped now.
    open spec fn untracked(self, state: WakeState) -> (WakeState, AdditionalWork) {
        if state.queue.owner() is Some {
            (
                WakeState { queue: state.queue.with_owner(None), ..state },
                AdditionalWork::Noop,
            )
        } else {
            (
                WakeState {
                    counts: ContractCounts {
                        mut_number: (state.counts.mut_number + 1) as u64,
                        ..state.counts
                    },
                    ..state
                },
                AdditionalWork::Drop,
            )
        }
    }

    fn un_track(self, state: &mut ContractState) -> (work: AdditionalWork) {
        match state.cancel_reaquire() {
            Some(()) => AdditionalWork::Noop,
            None => AdditionalWork::Drop,
        }
    }
}

impl Host {
    /// The owner again, once the value has come back.
    pub fn assert_unshared(self) -> (owner: Owner)
        ensures
            owner == Owner,
    {
        Owner
    }
}

/// A reference that does not keep the value, taken after so many mutable borrows.
#[derive(Clone)]
pub struct Weak(pub u64);

impl PtrState for Weak {
    open spec fn can_untrack(self, state: WakeState) -> bool {
        true
    }

    open spec fn untracked(self, state: WakeState) -> (WakeState, AdditionalWork) {
        (state, AdditionalWork::Noop)
    }

    fn un_track(self, state: &mut ContractState) -> (work: AdditionalWork) {
        AdditionalWork::Noop
    }
}

impl Weak {
    /// A reference, if the value has not been borrowed mutably since.
    pub fn try_upgrade(self, mut_number: u64) -> (upgraded: Result<Ref, Borrowless>)
        ensures
            upgraded is Ok <==> self.0 == mut_number,
    {
        if self.0 == mut_number {
            Ok(Ref)
        } else {
            Err(Borrowless)
        }
    }
}

/// A reference.
#[derive(Clone)]
pub struct Ref;

impl RefState for Ref {
    open spec fn kind() -> BorrowKind {
        BorrowKind::Ref
    }

    fn borrow_kind() -> (kind: BorrowKind) {
        BorrowKind::Ref
    }

    open spec fn released(self, state: WakeState) -> WakeState {
        state
    }

    fn release(self, state: &mut ContractState) {
    }
}

impl Ref {
    /// The same reference, but one that does not keep the value.
    pub fn downgrade(self, mut_number: u64) -> (weak: Weak)
        ensures
            weak == Weak(mut_number),
    {
        Weak(mut_number)
    }
}

/// A reference that may become mutable.
#[derive(Clone)]
pub struct UpgradableRef;

impl RefState for UpgradableRef {
    open spec fn kind() -> BorrowKind {
        BorrowKind::Upgradable
    }

    fn borrow_kind() -> (kind: BorrowKind) {
        BorrowKind::Upgradable
    }

    /// With the last exotic reference, upgrading ends.
    open spec fn released(self, state: WakeState) -> WakeState {
        state.without_exotic()
    }

    fn release(self, state: &mut ContractState) {
        state.release_exotic();
    }
}

impl UpgradableRef {
    /// A reference that may not become mutable.
    pub fn into_ref(self) -> (rf: Ref)
        ensures
            rf == Ref,
    {
        Ref
    }

    /// The mutable reference, once no other reference is held.
    pub fn assert_unique(self) -> (rf_mut: RefMut)
        ensures
            rf_mut == RefMut,
    {
        RefMut
    }
}

/// A mutable reference.
pub struct RefMut;

impl RefState for RefMut {
    open spec fn kind() -> BorrowKind {
        BorrowKind::Upgradable
    }

    fn borrow_kind() -> (kind: BorrowKind) {
        BorrowKind::Upgradable
    }

    /// With the last exotic reference, upgrading ends.
    open spec fn released(self, state: WakeState) -> WakeState {
        state.without_exotic()
    }

    fn release(self, state: &mut ContractState) {
        state.release_exotic();
    }
}

impl RefMutState for RefMut {

}

impl RefMut {
    /// A reference.
    pub fn into_ref(self) -> (rf: Ref)
        ensures
            rf == Ref,
    {
        Ref
    }

    /// A reference that may become mutable again.
    pub fn downgrade(self) -> (rf: UpgradableRef)
        ensures
            rf == UpgradableRef,
    {
        UpgradableRef
    }

    /// Another mutable reference, for use while this one waits.
    pub fn use_as_forward(&mut self) -> (rf_mut: RefMut)
        ensures
            rf_mut == RefMut,
            *final(self) == *old(self),
    {
        RefMut
    }
}

} // verus!
