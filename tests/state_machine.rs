use bonnie_buddy::bonnie::{Bonnie, GlobalCursorPosition, StateMachine, Timer};
use bonnie_buddy::state::BonnieState;

#[test]
fn timer_tick_counts_down_and_stops_at_zero() {
    let mut t = Timer::new(1_000);
    t.tick(400);
    assert_eq!(t.remaining_us, 600);
    assert!(!t.finished());
    assert!(!t.just_finished());
    t.tick(5_000);
    assert_eq!(t.remaining_us, 0);
    assert!(t.finished());
    assert!(t.just_finished());
    t.tick(10);
    assert_eq!(t.remaining_us, 0);
    assert!(t.finished());
    assert!(!t.just_finished());
    assert_eq!(t.duration_us, 1_000);
}

#[test]
fn timer_reset_starts_again() {
    let mut t = Timer::new(10);
    t.tick(10);
    t.reset(2_500_000);
    assert_eq!(t.duration_us, 2_500_000);
    assert_eq!(t.remaining_us, 2_500_000);
    assert!(!t.finished());
    assert!(!t.just_finished());
}

#[test]
fn block_unblock_toggle() {
    let mut m = StateMachine::new(2_000_000);
    assert!(m.can_change);
    m.block();
    assert!(!m.can_change);
    m.unblock();
    assert!(m.can_change);
    m.toggle_block();
    assert!(!m.can_change);
    m.toggle_block();
    assert!(m.can_change);
    assert_eq!(m.timer.remaining_us, 2_000_000);
}

#[test]
fn finish_runs_out_and_opens() {
    let mut m = StateMachine::new(3_000_000);
    m.block();
    m.finish();
    assert!(m.can_change);
    assert_eq!(m.timer.remaining_us, 0);
    assert_eq!(m.timer.duration_us, 3_000_000);
    assert!(m.timer.just_finished());
    assert!(m.is_due_now());
}

#[test]
fn finish_is_idempotent() {
    let mut m = StateMachine::new(3_000_000);
    m.finish();
    for _ in 0..5 {
        m.finish();
        assert!(m.can_change);
        assert_eq!(m.timer.remaining_us, 0);
        assert!(m.is_due_now());
    }
}

#[test]
fn block_holds_until_unblock_or_finish() {
    let mut m = StateMachine::new(1_000);
    m.block();
    m.timer.tick(5_000);
    assert!(!m.can_change);
    assert!(!m.is_due_now());
    m.timer.reset(2_000);
    m.block();
    m.timer.tick(2_000);
    assert!(!m.can_change);
    m.unblock();
    assert!(m.can_change);
    m.block();
    m.finish();
    assert!(m.can_change);
}

#[test]
fn actor_and_cursor_defaults() {
    let b = Bonnie::default();
    assert_eq!(b.state, BonnieState::Idle);
    assert_eq!(BonnieState::default(), BonnieState::Idle);
    let c = GlobalCursorPosition::default();
    assert_eq!(c.0, None);
}
