//! The configuration of the proof system: a commitment scheme and the
//! first state of the challenger.
//!
//! The fields that trace values, the evaluation domain and the challenges
//! live in are parameters that stand for themselves: nothing here computes
//! in them.

use core::marker::PhantomData;
use vstd::prelude::*;

verus! {

/// A commitment scheme together with the challenger that every proof
/// starts from.
pub struct StarkConfigImpl<Val, Domain, Challenge, PackedChallenge, Pcs, Challenger> {
    pcs: Pcs,
    init_challenger: Challenger,
    _phantom: PhantomData<(Val, Domain, Challenge, PackedChallenge, Challenger)>,
}

impl<Val, Domain, Challenge, PackedChallenge, Pcs, Challenger> StarkConfigImpl<
    Val,
    Domain,
    Challenge,
    PackedChallenge,
    Pcs,
    Challenger,
> {
    /// The commitment scheme that the configuration holds.
    pub closed spec fn scheme(&self) -> Pcs {
        self.pcs
    }

    /// The challenger that the configuration was made with.
    pub closed spec fn initial(&self) -> Challenger {
        self.init_challenger
    }

    /// The configuration of `pcs` and `init_challenger`.
    pub fn new(pcs: Pcs, init_challenger: Challenger) -> (config: Self)
        ensures
            config.scheme() == pcs,
            config.initial() == init_challenger,
    {
        Self { pcs, init_challenger, _phantom: PhantomData }
    }

    /// The commitment scheme.
    pub fn pcs(&self) -> (pcs: &Pcs)
        ensures
            *pcs == self.scheme(),
    {
        &self.pcs
    }

    /// A challenger in its first state: a clone of the one that the
    /// configuration was made with.
    pub fn challenger(&self) -> (challenger: Challenger) where Challenger: Clone
        ensures
            cloned(self.initial(), challenger),
    {
        self.init_challenger.clone()
    }
}

} // verus!
