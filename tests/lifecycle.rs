use mac_amx::detect::AmxVersion;
use mac_amx::lifecycle::{AmxGuard, CoprocessorState};

#[test]
fn test_amx_guard() {
    let mut state = CoprocessorState::Disabled;
    let guard = AmxGuard::try_new(&mut state, Some(AmxVersion::M1));
    assert!(guard.is_some(), "Should be able to create guard on Apple Silicon");
}

#[test]
fn guard_enables_and_release_disables() {
    let mut state = CoprocessorState::Disabled;
    let guard = AmxGuard::new(&mut state, Some(AmxVersion::M2));
    assert_eq!(state, CoprocessorState::Enabled);
    assert_eq!(guard.version(), AmxVersion::M2);
    guard.release(&mut state);
    assert_eq!(state, CoprocessorState::Disabled);
}

#[test]
fn unavailable_guard_changes_nothing() {
    let mut state = CoprocessorState::Disabled;
    assert!(AmxGuard::try_new(&mut state, None).is_none());
    assert_eq!(state, CoprocessorState::Disabled);
}

#[test]
fn sequential_guards_end_disabled() {
    let mut state = CoprocessorState::Disabled;
    for _ in 0..100 {
        let guard = AmxGuard::try_new(&mut state, Some(AmxVersion::Unknown)).unwrap();
        assert_eq!(state, CoprocessorState::Enabled);
        guard.release(&mut state);
        assert_eq!(state, CoprocessorState::Disabled);
    }
}

#[test]
fn overlapping_guards_first_release_disables() {
    let mut state = CoprocessorState::Disabled;
    let first = AmxGuard::new(&mut state, Some(AmxVersion::M1));
    let second = AmxGuard::new(&mut state, Some(AmxVersion::M1));
    first.release(&mut state);
    assert_eq!(state, CoprocessorState::Disabled);
    second.release(&mut state);
    assert_eq!(state, CoprocessorState::Disabled);
}
