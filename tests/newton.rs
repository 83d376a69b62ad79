use newton_fractal::newton::{newton_state, NewtonState};

#[test]
fn newton_state_transitions() {
    assert_eq!(NewtonState::Iterating, newton_state(0, 100, true, true));
    assert_eq!(NewtonState::Converged, newton_state(7, 100, true, false));
    assert_eq!(NewtonState::MaxIterReached, newton_state(100, 100, true, true));
    // a spent budget wins over convergence
    assert_eq!(NewtonState::MaxIterReached, newton_state(100, 100, true, false));
    assert_eq!(NewtonState::MaxIterReached, newton_state(0, 0, true, true));
}

#[test]
fn newton_state_reports_divergence_first() {
    assert_eq!(NewtonState::Diverged, newton_state(3, 100, false, true));
    assert_eq!(NewtonState::Diverged, newton_state(3, 100, false, false));
    assert_eq!(NewtonState::Diverged, newton_state(100, 100, false, true));
}
