use speedy_jumper::timer::Timer;

#[test]
fn elapsed_measures_from_start() {
    let t = Timer::new(1000);
    assert_eq!(t.elapsed(1000), 0);
    assert_eq!(t.elapsed(1750), 750);
}

#[test]
fn has_elapsed_compares_durations() {
    let t = Timer::new(500);
    assert!(!t.has_elapsed(999, 500));
    assert!(t.has_elapsed(1000, 500));
    assert!(t.has_elapsed(5000, 500));
}

#[test]
fn reset_rebases_the_start() {
    let mut t = Timer::new(0);
    assert!(t.has_elapsed(2000, 2000));
    t.reset(2000);
    assert!(!t.has_elapsed(2500, 1000));
    assert!(t.has_elapsed(3000, 1000));
}
