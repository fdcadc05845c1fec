//! The guard that lets a setup routine run once, however many callers ask for
//! it and from however many threads.

use std::sync::atomic::AtomicBool;
use std::sync::atomic::Ordering;
use vstd::prelude::*;

verus! {

/// The two states of a guard. It starts `Unconfigured`, and once `Configured`
/// it stays so.
#[derive(Clone, Copy, Debug, PartialEq, Eq, Structural)]
pub enum GuardState {
    Unconfigured,
    Configured,
}

/// What a caller that has passed the guard is to do.
#[derive(Clone, Copy, Debug, PartialEq, Eq, Structural)]
pub enum Admission {
    /// The caller is the first: it runs the setup.
    Setup,
    /// The setup is another caller's, running or done: there is nothing to do.
    Skip,
}

/// One call at the guard: the state that the guard is left in, and what the
/// caller that found it in `state` is to do. The guard is left configured
/// whether or not the setup then succeeds.
pub open spec fn claim(state: GuardState) -> (GuardState, Admission) {
    match state {
        GuardState::Unconfigured => (GuardState::Configured, Admission::Setup),
        GuardState::Configured => (GuardState::Configured, Admission::Skip),
    }
}

/// The state of a guard that `calls` callers have passed since it was made.
pub open spec fn state_after(calls: nat) -> GuardState
    decreases calls,
{
    if calls == 0 {
        GuardState::Unconfigured
    } else {
        claim(state_after((calls - 1) as nat)).0
    }
}

/// How many of the first `calls` callers at a new guard were told to run the
/// setup.
pub open spec fn setups_among(calls: nat) -> nat
    decreases calls,
{
    if calls == 0 {
        0
    } else {
        let earlier = setups_among((calls - 1) as nat);
        if claim(state_after((calls - 1) as nat)).1 is Setup {
            earlier + 1
        } else {
            earlier
        }
    }
}

/// Of any number of callers at a new guard, one or more, exactly one is told to
/// run the setup, and the guard is configured after them.
pub proof fn lemma_setup_runs_once(calls: nat)
    requires
        calls >= 1,
    ensures
        setups_among(calls) == 1,
        state_after(calls) == GuardState::Configured,
    decreases calls,
{
    if calls > 1 {
        lemma_setup_runs_once((calls - 1) as nat);
    } else {
        assert(setups_among(0) == 0);
        assert(state_after(0) == GuardState::Unconfigured);
    }
}

/// The caller that runs the setup is the first one.
pub proof fn lemma_first_caller_sets_up(call: nat)
    ensures
        claim(state_after(call)).1 is Setup <==> call == 0,
    decreases call,
{
    if call > 0 {
        lemma_first_caller_sets_up((call - 1) as nat);
    }
}

impl GuardState {
    /// The state that a flag stands for: set means configured.
    pub fn of_flag(configured: bool) -> (state: GuardState)
        ensures
            state == if configured {
                GuardState::Configured
            } else {
                GuardState::Unconfigured
            },
    {
        if configured {
            GuardState::Configured
        } else {
            GuardState::Unconfigured
        }
    }

    /// One call at a guard found in this state.
    pub fn claim(self) -> (r: (GuardState, Admission))
        ensures
            r == claim(self),
    {
        match self {
            GuardState::Unconfigured => (GuardState::Configured, Admission::Setup),
            GuardState::Configured => (GuardState::Configured, Admission::Skip),
        }
    }
}

impl Admission {
    /// Whether `r` is what a caller with this admission returns: what `setup`
    /// returned to it where the setup is its own, and `Ok` where it is not.
    pub open spec fn performed<E, F: FnOnce() -> Result<(), E>>(
        self,
        setup: F,
        r: Result<(), E>,
    ) -> bool {
        match self {
            Admission::Setup => setup.ensures((), r),
            Admission::Skip => r is Ok,
        }
    }

    /// Does what this admission tells the caller to do: runs `setup` and
    /// returns what it returned, or runs nothing and returns `Ok`.
    pub fn perform<E, F: FnOnce() -> Result<(), E>>(self, setup: F) -> (r: Result<(), E>)
        requires
            self is Setup ==> setup.requires(()),
        ensures
            self.performed(setup, r),
    {
        match self {
            Admission::Setup => setup(),
            Admission::Skip => Ok(()),
        }
    }
}

/// A guard that threads share. Its state is one atomic flag, and a call at the
/// guard is one atomic exchange on it, so that no two callers find the guard
/// unconfigured.
pub struct InitGuard {
    configured: AtomicBool,
}

impl InitGuard {
    /// A guard that no caller has passed yet.
    pub fn new() -> InitGuard {
        InitGuard { configured: AtomicBool::new(false) }
    }

    /// One call at the guard. What it returns depends on the callers before
    /// it, which the flag stands for: it is `claim` of the state that the
    /// exchange found.
    fn enter(&self) -> Admission {
        if self.configured.load(Ordering::Acquire) {
            return GuardState::Configured.claim().1;
        }
        let found = match self.configured.compare_exchange(
            false,
            true,
            Ordering::AcqRel,
            Ordering::Acquire,
        ) {
            Ok(flag) => flag,
            Err(flag) => flag,
        };
        GuardState::of_flag(found).claim().1
    }

    /// Runs `setup` if this caller is the first at the guard, and returns what
    /// it returned; any other caller gets `Ok` at once, without waiting for the
    /// setup to end. So an error is always one that `setup` returned to this
    /// very caller. The guard counts as passed even where `setup` fails: no
    /// later caller runs it again.
    ///
    /// Which of the two it is the flag decides, and with it the callers before
    /// this one: the result is that of `Admission::perform` for the admission
    /// that the guard gave.
    pub fn ensure_configured<E, F: FnOnce() -> Result<(), E>>(&self, setup: F) -> (r: Result<
        (),
        E,
    >)
        requires
            setup.requires(()),
        ensures
            r is Err ==> setup.ensures((), r),
    {
        self.enter().perform(setup)
    }
}

} // verus!
