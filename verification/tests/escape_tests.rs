use mandelbrot::escape::escape_time_from_flags;
use mandelbrot::escape::EscapeResult;
use mandelbrot::escape::EscapeTimer;
use num::Complex;

/// The full escape-time evaluation: run the Mandelbrot iteration on `c` and
/// let the timer decide from the per-iteration flags.
fn escape_time(c: Complex<f64>, limit: u32) -> Option<u32> {
    let mut timer = EscapeTimer::new(limit);
    let mut z = Complex { re: 0.0, im: 0.0 };
    while timer.active() {
        z = z * z + c;
        timer.record(z.norm_sqr() > 4.0);
    }
    match timer.outcome() {
        EscapeResult::Escaped(i) => Some(i),
        EscapeResult::Inconclusive => None,
    }
}

#[test]
fn zero_budget_is_inconclusive() {
    let timer = EscapeTimer::new(0);
    assert!(!timer.active());
    assert_eq!(timer.outcome(), EscapeResult::Inconclusive);
}

#[test]
fn zero_budget_is_inconclusive_for_any_point() {
    assert_eq!(escape_time(Complex { re: 100.0, im: 100.0 }, 0), None);
    assert_eq!(escape_time(Complex { re: 0.0, im: 0.0 }, 0), None);
}

#[test]
fn no_recorded_escape_is_inconclusive() {
    let mut timer = EscapeTimer::new(5);
    while timer.active() {
        timer.record(false);
    }
    assert_eq!(timer.outcome(), EscapeResult::Inconclusive);
}

#[test]
fn first_recorded_escape_wins() {
    let mut timer = EscapeTimer::new(10);
    timer.record(false);
    timer.record(false);
    timer.record(true);
    assert!(!timer.active());
    assert_eq!(timer.outcome(), EscapeResult::Escaped(2));
}

#[test]
fn escape_on_first_flag() {
    let mut timer = EscapeTimer::new(10);
    timer.record(true);
    assert!(!timer.active());
    assert_eq!(timer.outcome(), EscapeResult::Escaped(0));
}

#[test]
fn flags_vector_reports_first_true() {
    assert_eq!(escape_time_from_flags(&vec![false, false, true, true]), EscapeResult::Escaped(2));
    assert_eq!(escape_time_from_flags(&vec![true]), EscapeResult::Escaped(0));
    assert_eq!(escape_time_from_flags(&vec![false, false]), EscapeResult::Inconclusive);
    assert_eq!(escape_time_from_flags(&vec![]), EscapeResult::Inconclusive);
}

#[test]
fn member_of_the_set_is_inconclusive() {
    // The origin and -1 belong to the Mandelbrot set: no budget refutes them.
    assert_eq!(escape_time(Complex { re: 0.0, im: 0.0 }, 1000), None);
    assert_eq!(escape_time(Complex { re: -1.0, im: 0.0 }, 1000), None);
}

#[test]
fn large_point_escapes_immediately() {
    // |c| > 2 already after the first update, so the escape index is 0.
    assert_eq!(escape_time(Complex { re: 3.0, im: 0.0 }, 100), Some(0));
    assert_eq!(escape_time(Complex { re: 0.0, im: -3.0 }, 100), Some(0));
}

#[test]
fn outside_point_escapes_eventually() {
    // 0.26 lies just outside the set along the real axis.
    let i = escape_time(Complex { re: 0.26, im: 0.0 }, 1000).unwrap();
    assert!(i > 0);
}

#[test]
fn raising_the_limit_keeps_the_escape_index() {
    let c = Complex { re: 0.26, im: 0.0 };
    let i = escape_time(c, 1000).unwrap();
    assert_eq!(escape_time(c, 2000), Some(i));
    assert_eq!(escape_time(c, i + 1), Some(i));
}
