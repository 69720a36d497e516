use sogi_pll::{PhaseOscillator, TURN};

#[test]
fn cold_start_is_zeroed() {
    let osc = PhaseOscillator::new(1_000_000, None);
    assert_eq!(osc.phase(), 0);
    assert_eq!(osc.correction(), 0);
    assert_eq!(osc.step(), 1_000_000);
}

#[test]
fn advance_accumulates_nominal_step() {
    let mut osc = PhaseOscillator::new(1_000_000, None);
    assert_eq!(osc.advance(), 1_000_000);
    assert_eq!(osc.phase(), 1_000_000);
    assert_eq!(osc.advance(), 1_000_000);
    assert_eq!(osc.phase(), 2_000_000);
}

#[test]
fn advance_wraps_past_one_turn() {
    // 50 Hz at 12 kHz sampling: 2^32 / 240 per sample, rounded down.
    let step: i32 = (TURN / 240) as i32;
    let mut osc = PhaseOscillator::new(step, None);
    for _ in 0..240 {
        osc.advance();
    }
    // 240 steps of floor(2^32 / 240) fall short of a full turn by 2^32 mod 240.
    assert_eq!(osc.phase() as u64, TURN - TURN % 240);
    osc.advance();
    assert_eq!(osc.phase() as u64, (241 * (TURN / 240)) % TURN);
    assert!((osc.phase() as u64) < TURN / 240);
}

#[test]
fn negative_step_wraps_below_zero() {
    let mut osc = PhaseOscillator::new(-5, None);
    assert_eq!(osc.advance(), -5);
    assert_eq!(osc.phase(), u32::MAX - 4);
    assert_eq!(osc.advance(), -5);
    assert_eq!(osc.phase(), u32::MAX - 9);
}

#[test]
fn correction_adds_to_nominal_step() {
    let mut osc = PhaseOscillator::new(100, None);
    osc.set_correction(-30);
    assert_eq!(osc.correction(), -30);
    assert_eq!(osc.step(), 70);
    assert_eq!(osc.advance(), 70);
    assert_eq!(osc.phase(), 70);
}

#[test]
fn correction_saturates_at_limit() {
    let mut osc = PhaseOscillator::new(1000, Some(50));
    osc.set_correction(i32::MAX);
    assert_eq!(osc.correction(), 50);
    assert_eq!(osc.step(), 1050);
    osc.set_correction(i32::MIN);
    assert_eq!(osc.correction(), -50);
    assert_eq!(osc.step(), 950);
    osc.set_correction(-49);
    assert_eq!(osc.correction(), -49);
    osc.set_correction(50);
    assert_eq!(osc.correction(), 50);
}

#[test]
fn step_input_never_leaves_limit() {
    let mut osc = PhaseOscillator::new(17_895_697, Some(1_000));
    let mut c: i32 = 0;
    for i in 0..1000 {
        osc.advance();
        c = if i % 2 == 0 { c.saturating_add(1 << 28) } else { c.saturating_sub(1 << 29) };
        osc.set_correction(c);
        let dev = osc.step() - 17_895_697;
        assert!((-1_000..=1_000).contains(&dev));
    }
}

#[test]
fn zero_limit_pins_nominal_step() {
    let mut osc = PhaseOscillator::new(7, Some(0));
    osc.set_correction(12345);
    assert_eq!(osc.step(), 7);
    osc.set_correction(-12345);
    assert_eq!(osc.step(), 7);
}

#[test]
fn free_run_advances_by_nominal() {
    let mut osc = PhaseOscillator::new(1_234_567_891, None);
    for _ in 0..10 {
        osc.advance();
    }
    assert_eq!(osc.phase() as u64, (10 * 1_234_567_891u64) % TURN);
}

#[test]
fn same_inputs_give_same_phases() {
    let mut a = PhaseOscillator::new(17_895_697, Some(2_000_000));
    let mut b = PhaseOscillator::new(17_895_697, Some(2_000_000));
    let mut x: i64 = 12345;
    for _ in 0..500 {
        x = (x * 1_103_515_245 + 12345) % 2_147_483_648;
        let c = (x - 1_073_741_824) as i32;
        assert_eq!(a.advance(), b.advance());
        a.set_correction(c);
        b.set_correction(c);
        assert_eq!(a.phase(), b.phase());
        assert_eq!(a.step(), b.step());
    }
}

#[test]
fn largest_steps_stay_in_turn() {
    let mut osc = PhaseOscillator::new(i32::MAX, None);
    osc.set_correction(i32::MAX);
    assert_eq!(osc.advance(), 2 * i32::MAX as i64);
    assert_eq!(osc.phase() as u64, (2 * i32::MAX as u64) % TURN);
    let mut low = PhaseOscillator::new(i32::MIN, Some(u32::MAX));
    low.set_correction(i32::MIN);
    assert_eq!(low.correction(), i32::MIN);
    assert_eq!(low.advance(), 2 * i32::MIN as i64);
    assert_eq!(low.phase(), 0);
}
