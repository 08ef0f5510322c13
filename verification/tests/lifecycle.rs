use download_manager_engine::lifecycle::{Lifecycle, Phase};

#[test]
fn registration_gates_start_and_loss_never_starts_a_second_owner() {
    let mut state = Lifecycle::default();
    assert!(!state.tray_observed(false));
    assert_eq!(state.phase(), Phase::WaitingForTray);
    assert!(!state.can_hide());
    assert!(state.tray_observed(true));
    assert!(!state.can_hide());
    state.started();
    assert!(state.can_hide());
    assert!(!state.tray_observed(false));
    assert!(!state.can_hide());
    assert!(!state.tray_observed(true));
    assert!(state.can_hide());
}

#[test]
fn quit_is_sticky_and_join_is_required() {
    let mut state = Lifecycle::default();
    assert!(state.tray_observed(true));
    state.quit();
    state.started();
    assert_eq!(state.phase(), Phase::Stopping);
    assert!(!state.tray_observed(true));
    assert!(!state.can_hide());
    state.quit();
    assert_eq!(state.phase(), Phase::Stopping);
    state.joined(true);
    assert_eq!(state.phase(), Phase::Stopped);
    assert!(!state.tray_observed(true));
}

#[test]
fn unexpected_exit_and_failed_join_remain_visible_until_acknowledged() {
    let mut state = Lifecycle::default();
    state.tray_observed(true);
    state.started();
    state.joined(true); // unexpected worker exit is not a successful Quit
    assert_eq!(state.phase(), Phase::Failed);
    assert!(state.failed());
    assert!(!state.can_hide());
    state.quit();
    state.joined(false);
    assert_eq!(state.phase(), Phase::Failed);
    state.quit();
    state.joined(true); // already joined; explicit acknowledgement
    assert_eq!(state.phase(), Phase::Stopped);
    assert!(state.failed());
}

#[test]
fn status_text_is_fixed_per_phase() {
    let mut state = Lifecycle::default();
    assert_eq!(state.status(), "Tray unavailable. The engine has not started.");
    state.tray_observed(true);
    assert_eq!(state.status(), "Starting the isolated preview engine...");
    state.started();
    assert_eq!(
        state.status(),
        "Engine running. Firefox bridge is not connected in this preview."
    );
    state.tray_observed(false);
    assert_eq!(
        state.status(),
        "Tray unavailable. This status window stays visible."
    );
    state.quit();
    assert_eq!(
        state.status(),
        "Stopping and joining engine work. Please wait..."
    );
    state.joined(true);
    assert_eq!(state.status(), "Engine joined. Preview stopped.");
}

#[test]
fn failure_flag_survives_every_later_event() {
    let mut state = Lifecycle::default();
    state.joined(false);
    assert!(state.failed());
    state.tray_observed(true);
    state.started();
    state.quit();
    state.joined(true);
    assert!(state.failed());
    assert_eq!(state.phase(), Phase::Stopped);
}
