use vega68::bus::{LINES_PER_FRAME, VISIBLE_LINES};
use vega68::system::{after_batch, line_irq_fires, line_start, BatchEnd, LineStep, INSTRUCTIONS_PER_LINE};

fn count_fires(compare: u16, interval: u16) -> u32 {
    (0..LINES_PER_FRAME)
        .filter(|&line| line_irq_fires(compare, interval, line))
        .count() as u32
}

#[test]
fn sys_line_irq_fires_matches_the_worked_table() {
    let cases: [(u16, u16, u32); 7] = [
        (185, 0, 1), // interval 0 still fires in vblank
        (40, 0, 1),
        (40, 2, 70),
        (41, 2, 70), // odd compare, even interval: phase, not modulus
        (0, 1, 180),
        (170, 5, 2),
        (185, 2, 0), // repeat clamp: no fire in vblank
    ];

    for (compare, interval, want) in cases {
        assert_eq!(count_fires(compare, interval), want, "compare={compare} interval={interval}");
    }
}

#[test]
fn system_line_irq_fires_matches_the_worked_table() {
    let cases: [(u16, u16, u32); 7] = [
        (185, 0, 1),
        (40, 0, 1),
        (40, 2, 70),
        (41, 2, 70),
        (0, 1, 180),
        (170, 5, 2),
        (185, 2, 0),
    ];

    for (compare, interval, want) in cases {
        assert_eq!(count_fires(compare, interval), want, "compare={compare} interval={interval}");
    }
}

#[test]
fn vblank_is_raised_on_the_first_invisible_line_only_when_enabled() {
    assert_eq!(line_start(1, 0, 0, 0, VISIBLE_LINES), (1, 6));
    assert_eq!(line_start(0, 0, 0, 0, VISIBLE_LINES), (0, 0));
    assert_eq!(line_start(1, 0, 0, 0, VISIBLE_LINES - 1), (0, 0));
}

#[test]
fn line_interrupt_sets_its_bit_and_vblank_outranks_it() {
    assert_eq!(line_start(2, 0, 10, 0, 10), (2, 4));
    assert_eq!(line_start(1, 0, 10, 0, 10), (0, 0));
    assert_eq!(line_start(3, 2, 0, 0, VISIBLE_LINES), (3, 6));
    assert_eq!(line_start(0, 2, 0, 0, 5), (2, 4), "pending stays until acknowledged");
}

#[test]
fn batches_account_the_line() {
    assert_eq!(after_batch(0, 100, BatchEnd::BudgetExhausted), LineStep::Continue(100));
    assert_eq!(after_batch(100, 0, BatchEnd::Exception), LineStep::Continue(101));
    assert_eq!(after_batch(0, INSTRUCTIONS_PER_LINE, BatchEnd::BudgetExhausted), LineStep::LineDone);
    assert_eq!(after_batch(5, 0, BatchEnd::Stopped), LineStep::LineDone);
    assert_eq!(after_batch(5, 0, BatchEnd::BudgetExhausted), LineStep::Stuck);
}
