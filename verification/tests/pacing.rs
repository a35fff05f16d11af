use vega68::pacing::{pace, Pace, FRAME_NS};

#[test]
fn clock_runs_a_frame_once_it_is_due() {
    assert_eq!(
        pace(999, 1_000, None),
        Pace { due: false, next_frame: 1_000, wake: 1_000 }
    );
    assert_eq!(
        pace(1_000, 1_000, None),
        Pace { due: true, next_frame: 1_000 + FRAME_NS, wake: 1_000 + FRAME_NS }
    );
}

#[test]
fn a_late_clock_skips_ahead_to_one_frame_behind() {
    let now = 10 * FRAME_NS;
    let p = pace(now, 0, None);

    assert!(p.due);
    assert_eq!(p.next_frame, now - FRAME_NS);
    assert_eq!(p.next_frame, 150_000_003);
}

#[test]
fn audio_queue_decides_while_it_runs_low() {
    let p = pace(0, 5 * FRAME_NS, Some((100, 800)));
    assert_eq!(p, Pace { due: true, next_frame: 6 * FRAME_NS, wake: 2_083_333 });

    let p = pace(0, 5 * FRAME_NS, Some((801, 800)));
    assert_eq!(p, Pace { due: false, next_frame: 5 * FRAME_NS, wake: 2_083_333 });

    let p = pace(0, 5 * FRAME_NS, Some((800, 800)));
    assert!(p.due);
}

#[test]
fn a_full_audio_queue_holds_frames_back_four_frame_times() {
    let next = 1_000_000;

    let p = pace(next + 4 * FRAME_NS - 1, next, Some((5_000, 800)));
    assert!(!p.due);
    assert_eq!(p.wake, next + 4 * FRAME_NS - 1 + FRAME_NS / 8);

    let now = next + 4 * FRAME_NS;
    let p = pace(now, next, Some((5_000, 800)));
    assert!(p.due);
    assert_eq!(p.next_frame, now - FRAME_NS);
    assert_eq!(p.wake, now + 2_083_333);
}
