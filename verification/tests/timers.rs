use combat_core::timer::Timer;

#[test]
fn repeating_timer_fires_on_each_boundary() {
    let mut t = Timer::new(500, true);
    t.tick(250);
    assert!(!t.finished());
    assert_eq!(t.elapsed_ms, 250);
    t.tick(250);
    assert!(t.finished());
    assert_eq!(t.elapsed_ms, 0);
    t.tick(100);
    assert!(!t.finished());
    assert_eq!(t.elapsed_ms, 100);
}

#[test]
fn repeating_timer_keeps_remainder_past_boundary() {
    let mut t = Timer::new(500, true);
    t.tick(700);
    assert!(t.finished());
    assert_eq!(t.elapsed_ms, 200);
}

#[test]
fn one_shot_timer_stays_finished() {
    let mut t = Timer::new(50, false);
    t.tick(30);
    assert!(!t.finished());
    t.tick(30);
    assert!(t.finished());
    assert_eq!(t.elapsed_ms, 50);
    t.tick(10);
    assert!(t.finished());
    assert_eq!(t.elapsed_ms, 50);
}

#[test]
fn timer_zero_elapsed_tick_changes_nothing_but_flag() {
    let mut t = Timer::new(500, true);
    t.tick(0);
    assert!(!t.finished());
    assert_eq!(t.elapsed_ms, 0);
}
