use raumen_text::timer::{Rate, Timer};

#[test]
fn timer_starts_at_sixty_frames_a_second() {
    let mut t = Timer::new();
    assert_eq!(t.delta, 66_700);
    assert_eq!(t.fps, Rate { frames: 60, micros: 1_000_000 });
    assert!(!t.once_per_sec());
}

#[test]
fn frame_rate_follows_the_frames_of_a_second() {
    let mut t = Timer::new();
    t.advance(400_000);
    t.advance(400_000);
    assert_eq!(t.delta, 400_000);
    assert_eq!(t.fps, Rate { frames: 60, micros: 1_000_000 });
    assert!(!t.once_per_sec());
    t.advance(300_000);
    assert_eq!(t.delta, 300_000);
    assert_eq!(t.fps, Rate { frames: 3, micros: 1_100_000 });
    assert!(t.once_per_sec());
    assert!(!t.once_per_sec());
    t.advance(900_000);
    assert_eq!(t.fps, Rate { frames: 3, micros: 1_100_000 });
    t.advance(1);
    assert_eq!(t.fps, Rate { frames: 2, micros: 1_000_001 });
    assert!(t.once_per_sec());
}

#[test]
fn exactly_a_second_is_not_yet_a_second_passed() {
    let mut t = Timer::new();
    t.advance(1_000_000);
    assert!(!t.once_per_sec());
    t.advance(0);
    assert!(!t.once_per_sec());
    t.advance(1);
    assert!(t.once_per_sec());
    assert_eq!(t.fps, Rate { frames: 3, micros: 1_000_001 });
}

#[test]
fn long_frames_do_not_overflow() {
    let mut t = Timer::new();
    t.advance(u64::MAX);
    assert_eq!(t.fps, Rate { frames: 1, micros: u64::MAX });
    t.advance(u64::MAX);
    assert_eq!(t.fps, Rate { frames: 1, micros: u64::MAX });
    assert_eq!(t.delta, u64::MAX);
}

#[test]
fn tick_reads_the_clock() {
    let mut t = Timer::new();
    t.tick();
    assert!(t.delta < 60_000_000);
    let before = t.fps;
    t.tick();
    assert_eq!(t.fps, before);
}
