use vstd::prelude::*;

verus! {

/// Where Newton's iteration from one starting point stands.
#[derive(Debug, Clone, Copy, PartialEq, Eq, Structural)]
pub enum NewtonState {
    /// Another step is due.
    Iterating,
    /// The last step moved less than the tolerance.
    Converged,
    /// The iteration budget is spent.
    MaxIterReached,
    /// The current point is no longer finite (the derivative vanished, or
    /// the values overflowed).
    Diverged,
}

/// The state after `iter` steps out of `max_iter`, where `finite` tells
/// whether the current point is finite and `moved` whether the last step (if
/// any) moved by more than the tolerance. A point that is not finite is
/// reported first, then a spent budget, then convergence.
pub open spec fn next_state(iter: nat, max_iter: nat, finite: bool, moved: bool) -> NewtonState {
    if !finite {
        NewtonState::Diverged
    } else if iter >= max_iter {
        NewtonState::MaxIterReached
    } else if !moved {
        NewtonState::Converged
    } else {
        NewtonState::Iterating
    }
}

/// Decides whether Newton's iteration goes on, as `next_state` describes.
pub fn newton_state(iter: u32, max_iter: u32, finite: bool, moved: bool) -> (r: NewtonState)
    ensures
        r == next_state(iter as nat, max_iter as nat, finite, moved),
{
    if !finite {
        NewtonState::Diverged
    } else if iter >= max_iter {
        NewtonState::MaxIterReached
    } else if !moved {
        NewtonState::Converged
    } else {
        NewtonState::Iterating
    }
}

} // verus!
