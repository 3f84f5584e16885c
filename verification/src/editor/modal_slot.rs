//! The modal slot: owner of the at-most-one active modal pane and its
//! kind. Opening a modal while one is active drops the previous one;
//! the kinds returned let the caller announce the transitions.

use vstd::prelude::*;

verus! {

/// The active modal pane `P`, if any, with its kind `K`.
pub struct ModalSlot<P, K> {
    current: Option<P>,
    kind: Option<K>,
}

impl<P, K> ModalSlot<P, K> {
    #[verifier::type_invariant]
    spec fn inv(self) -> bool {
        self.current is Some <==> self.kind is Some
    }

    /// The active modal and its kind.
    pub closed spec fn active(&self) -> Option<(P, K)> {
        match (self.current, self.kind) {
            (Some(p), Some(k)) => Some((p, k)),
            _ => None,
        }
    }

    pub fn new() -> (s: Self)
        ensures
            s.active() is None,
    {
        ModalSlot { current: None, kind: None }
    }

    pub fn is_some(&self) -> (b: bool)
        ensures
            b == self.active() is Some,
    {
        proof {
            use_type_invariant(self);
        }
        self.current.is_some()
    }

    pub fn is_none(&self) -> (b: bool)
        ensures
            b == self.active() is None,
    {
        proof {
            use_type_invariant(self);
        }
        self.current.is_none()
    }

    /// The active modal pane.
    pub fn as_ref(&self) -> (p: Option<&P>)
        ensures
            match self.active() {
                Some((pane, _)) => p == Some(&pane),
                None => p is None,
            },
    {
        proof {
            use_type_invariant(self);
        }
        self.current.as_ref()
    }

    /// Install `pane` of `kind` as the active modal. Returns the kind of
    /// the modal it replaced, if any.
    pub fn open(&mut self, pane: P, kind: K) -> (prev: Option<K>)
        ensures
            final(self).active() == Some((pane, kind)),
            prev == match old(self).active() {
                Some((_, k)) => Some(k),
                None => None::<K>,
            },
    {
        proof {
            use_type_invariant(&*self);
        }
        let mut slot: ModalSlot<P, K> = ModalSlot { current: Some(pane), kind: Some(kind) };
        std::mem::swap(&mut slot, self);
        let ModalSlot { current: _, kind: prev } = slot;
        prev
    }

    /// Drop the active modal. Returns its kind.
    pub fn dismiss(&mut self) -> (prev: Option<K>)
        ensures
            final(self).active() is None,
            prev == match old(self).active() {
                Some((_, k)) => Some(k),
                None => None::<K>,
            },
    {
        proof {
            use_type_invariant(&*self);
        }
        let mut slot: ModalSlot<P, K> = ModalSlot { current: None, kind: None };
        std::mem::swap(&mut slot, self);
        let ModalSlot { current: _, kind: prev } = slot;
        prev
    }
}

impl<P, K: Copy> ModalSlot<P, K> {
    /// The kind of the active modal.
    pub fn kind(&self) -> (k: Option<K>)
        ensures
            match self.active() {
                Some((_, kind)) => k == Some(kind),
                None => k is None,
            },
    {
        proof {
            use_type_invariant(self);
        }
        self.kind
    }
}

} // verus!
