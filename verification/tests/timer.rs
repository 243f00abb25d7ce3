use desktop_commands::{get_timer_state, stop_timer, TimerState};

#[test]
fn timer_state_is_inactive() {
    let state = get_timer_state();
    assert!(!state.active);
    assert_eq!(state.title, None);
    assert_eq!(state.elapsed_seconds, None);
}

#[test]
fn timer_state_is_the_same_on_every_call() {
    let expected = TimerState { active: false, title: None, elapsed_seconds: None };
    assert_eq!(get_timer_state(), expected);
    assert_eq!(get_timer_state(), expected);
}

#[test]
fn stop_timer_succeeds() {
    assert_eq!(stop_timer(), Ok(()));
}

#[test]
fn stop_timer_changes_nothing() {
    let before = get_timer_state();
    assert_eq!(stop_timer(), Ok(()));
    assert_eq!(stop_timer(), Ok(()));
    assert_eq!(get_timer_state(), before);
}
