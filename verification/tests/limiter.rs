use resonant_engine::limiter::LimiterSteps;
use resonant_engine::ordinal::code_from_ordinal;
use resonant_engine::ordinal::ordinal_from_code;

fn ordinal(x: f64) -> i64 {
    ordinal_from_code((x + 0.0).to_bits())
}

fn level(k: i64) -> f64 {
    f64::from_bits(code_from_ordinal(k))
}

/// One buffer of the limiter at `scale`, fed a peak of amplitude `peak`.
fn step(scale: f64, peak: f64) -> f64 {
    let steps = LimiterSteps {
        scale: ordinal(scale),
        snap_bound: ordinal(scale + 2.0),
        attack: ordinal(scale + 0.2),
        release: ordinal(scale - 0.2),
        floor: ordinal(-2.0),
    };
    let peak_level = peak.log2();
    let key = if peak_level.is_nan() { i64::MIN } else { ordinal(peak_level) };
    level(steps.next_scale(key))
}

#[test]
fn steps_pick_by_order_alone() {
    let steps = LimiterSteps { scale: 10, snap_bound: 30, attack: 12, release: 8, floor: 0 };
    assert_eq!(steps.next_scale(31), 31);
    assert_eq!(steps.next_scale(30), 12);
    assert_eq!(steps.next_scale(11), 12);
    assert_eq!(steps.next_scale(10), 8);
    assert_eq!(steps.next_scale(-50), 8);
}

#[test]
fn floor_holds_whatever_is_picked() {
    let steps = LimiterSteps { scale: 1, snap_bound: 21, attack: 3, release: -1, floor: 0 };
    assert_eq!(steps.next_scale(1), 0);
    assert_eq!(steps.next_scale(i64::MIN), 0);
    assert_eq!(steps.next_scale(2), 3);
    let odd = LimiterSteps { scale: -9, snap_bound: -8, attack: -7, release: -10, floor: 0 };
    assert_eq!(odd.next_scale(-5), 0);
    assert_eq!(odd.next_scale(-8), 0);
    assert_eq!(odd.next_scale(5), 5);
}

#[test]
fn large_transient_snaps_to_the_peak() {
    // log2(16) = 4 exceeds 0 + 2
    assert_eq!(step(0.0, 16.0), 4.0);
    assert_eq!(step(-2.0, 1.5), 1.5f64.log2());
    assert_eq!(step(1.0, 1024.0), 10.0);
}

#[test]
fn peak_within_two_octaves_raises_by_one_step() {
    assert_eq!(step(0.0, 2.0), 0.2);
    assert_eq!(step(0.0, 4.0), 0.2);
    assert_eq!(step(1.0, 2.5), 1.0 + 0.2);
    assert_eq!(step(-2.0, 0.5), -2.0 + 0.2);
}

#[test]
fn peak_at_or_below_the_level_lowers_by_one_step() {
    assert_eq!(step(0.0, 1.0), -0.2);
    assert_eq!(step(0.0, 0.5), -0.2);
    assert_eq!(step(3.0, 0.001), 3.0 - 0.2);
}

#[test]
fn level_never_falls_below_the_floor() {
    assert_eq!(step(-2.0, 0.0), -2.0);
    assert_eq!(step(-1.9, 0.0), -2.0);
    assert_eq!(step(-2.0, 1e-30), -2.0);
    let mut scale = 0.0;
    for _ in 0..100 {
        scale = step(scale, 0.0);
        assert!(scale >= -2.0);
    }
    assert_eq!(scale, -2.0);
}

#[test]
fn silence_and_what_is_no_number_release() {
    assert_eq!(step(0.0, 0.0), -0.2);
    assert_eq!(step(0.0, f64::NAN), -0.2);
}
