//! Enable/disable lifecycle of the coprocessor.
//!
//! The coprocessor's mode is hidden per-thread hardware state, Disabled or
//! Enabled, and changes only through a guard: acquiring one enables the
//! coprocessor, releasing it disables it. Both instructions are idempotent in
//! hardware, so the model is total; overlapping guards on one thread are a misuse
//! that is not detected, and releasing either of them disables the coprocessor.

use vstd::prelude::*;
use crate::detect::AmxVersion;

verus! {

/// The coprocessor's mode on the current thread.
#[derive(Clone, Copy, Debug, PartialEq, Eq, Structural)]
pub enum CoprocessorState {
    Disabled,
    Enabled,
}

/// The mode after the enable instruction.
pub open spec fn after_enable(s: CoprocessorState) -> CoprocessorState {
    CoprocessorState::Enabled
}

/// The mode after the disable instruction.
pub open spec fn after_disable(s: CoprocessorState) -> CoprocessorState {
    CoprocessorState::Disabled
}

/// The mode after `k` guards, each acquired and released before the next.
pub open spec fn guard_cycles(s: CoprocessorState, k: nat) -> CoprocessorState
    decreases k,
{
    if k == 0 {
        s
    } else {
        after_disable(after_enable(guard_cycles(s, (k - 1) as nat)))
    }
}

/// Proof that the coprocessor was found and enabled; hand it back to
/// [`AmxGuard::release`] to disable the coprocessor.
pub struct AmxGuard {
    version: AmxVersion,
}

impl AmxGuard {
    /// The generation the guard was acquired on.
    pub closed spec fn generation(&self) -> AmxVersion {
        self.version
    }

    /// Enables the coprocessor. The caller issues the enable sequence of
    /// [`crate::encode::control_sequence`] right after.
    pub fn new(state: &mut CoprocessorState, probe: Option<AmxVersion>) -> (r: AmxGuard)
        requires
            probe is Some,
        ensures
            *final(state) == after_enable(*old(state)),
            r.generation() == probe.unwrap(),
    {
        let version = probe.unwrap();
        *state = CoprocessorState::Enabled;
        AmxGuard { version }
    }

    /// Enables the coprocessor if detection found it; otherwise returns `None` and
    /// leaves the mode as it is.
    pub fn try_new(state: &mut CoprocessorState, probe: Option<AmxVersion>) -> (r: Option<AmxGuard>)
        ensures
            r is Some <==> probe is Some,
            r is Some ==> r.unwrap().generation() == probe.unwrap() && *final(state) == after_enable(*old(state)),
            r is None ==> *final(state) == *old(state),
    {
        match probe {
            Some(version) => {
                *state = CoprocessorState::Enabled;
                Some(AmxGuard { version })
            },
            None => None,
        }
    }

    /// The generation the guard was acquired on.
    pub fn version(&self) -> (r: AmxVersion)
        ensures
            r == self.generation(),
    {
        self.version
    }

    /// Disables the coprocessor and gives up the guard. The caller issues the
    /// disable sequence of [`crate::encode::control_sequence`] right after.
    pub fn release(self, state: &mut CoprocessorState)
        ensures
            *final(state) == after_disable(*old(state)),
    {
        *state = CoprocessorState::Disabled;
    }
}

/// Guards used one after another, each released before the next is acquired,
/// leave the coprocessor disabled however many there were, and none of them finds
/// it enabled when it is acquired.
pub proof fn lemma_sequential_guards(k: nat)
    ensures
        guard_cycles(CoprocessorState::Disabled, k) == CoprocessorState::Disabled,
        forall|t: nat| t < k ==> #[trigger] guard_cycles(CoprocessorState::Disabled, t) == CoprocessorState::Disabled,
    decreases k,
{
    if k > 0 {
        lemma_sequential_guards((k - 1) as nat);
    }
}

} // verus!
