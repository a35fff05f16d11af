use vega68::ring::Ring;

fn pop(ring: &mut Ring) -> i16 {
    let mut s = [0i16; 1];
    ring.pop_slice(&mut s);
    s[0]
}

#[test]
fn ring_drops_oldest_when_full_and_yields_silence_when_empty() {
    let mut ring = Ring::new(4);

    assert_eq!(pop(&mut ring), 0, "empty ring must yield silence");

    ring.push(&[1, 2, 3, 4]);
    ring.push(&[5, 6]);

    assert_eq!(
        [pop(&mut ring), pop(&mut ring), pop(&mut ring), pop(&mut ring)],
        [3, 4, 5, 6]
    );
}

#[test]
fn push_rounds_the_drop_oldest_drain_up_to_an_even_count() {
    let mut ring = Ring::new(4);

    ring.push(&[1, 2, 3, 4]);
    ring.push(&[5, 6, 7]);

    assert_eq!(
        [pop(&mut ring), pop(&mut ring), pop(&mut ring), pop(&mut ring)],
        [5, 6, 7, 0],
        "an odd drain count would flip which samples land on L vs R"
    );
}

#[test]
fn pop_slice_fills_from_the_ring_and_zero_fills_any_shortfall() {
    let mut ring = Ring::new(8);

    ring.push(&[1, 2, 3]);

    let mut out = [9i16; 5];
    ring.pop_slice(&mut out);

    assert_eq!(out, [1, 2, 3, 0, 0]);
}

#[test]
fn queued_counts_stereo_frames_not_samples() {
    let mut ring = Ring::new(8);

    ring.push(&[1, 2, 3, 4]);

    assert_eq!(ring.queued(), 2);
}

#[test]
fn a_push_larger_than_the_capacity_keeps_its_newest_samples() {
    let mut ring = Ring::new(4);

    ring.push(&[1, 2, 3, 4, 5, 6, 7, 8, 9, 10]);

    let mut out = [0i16; 6];
    ring.pop_slice(&mut out);

    assert_eq!(out, [7, 8, 9, 10, 0, 0]);
    assert_eq!(ring.queued(), 0);
}

#[test]
fn samples_come_out_in_the_order_they_went_in() {
    let mut ring = Ring::new(16);

    ring.push(&[1, 2]);
    ring.push(&[3, 4, 5, 6]);

    let mut out = [0i16; 3];
    ring.pop_slice(&mut out);
    assert_eq!(out, [1, 2, 3]);

    ring.push(&[7]);
    let mut rest = [0i16; 4];
    ring.pop_slice(&mut rest);
    assert_eq!(rest, [4, 5, 6, 7]);
}

#[test]
fn an_even_push_into_a_zero_capacity_ring_drops_everything() {
    let mut ring = Ring::new(0);

    ring.push(&[1, 2]);

    assert_eq!(ring.queued(), 0);
    assert_eq!(pop(&mut ring), 0);
}
