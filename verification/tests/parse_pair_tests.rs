use mandelbrot::parse::parse_pair;
use mandelbrot::parse::ParseText;

/// A floating-point value read through std's `f64` parser, carrying the
/// parse capability so that pairs of it can be read.
#[derive(Debug, PartialEq, Clone, Copy)]
struct Real(f64);

impl ParseText for Real {
    // The ghost half of the capability is erased in compiled code; this
    // stub is never run.
    fn parse_spec(_: vstd::seq::Seq<char>) -> Option<Real> {
        None
    }

    fn parse_text(s: &str) -> Option<Real> {
        match s.parse::<f64>() {
            Ok(v) => Some(Real(v)),
            Err(_) => None,
        }
    }
}

#[test]
fn pair_of_integers() {
    assert_eq!(parse_pair::<i32>("10,20", ','), Some((10, 20)));
}

#[test]
fn empty_input_fails() {
    assert_eq!(parse_pair::<i32>("", ','), None);
}

#[test]
fn missing_right_half_fails() {
    assert_eq!(parse_pair::<i32>("10,", ','), None);
}

#[test]
fn missing_left_half_fails() {
    assert_eq!(parse_pair::<i32>(",10", ','), None);
}

#[test]
fn trailing_garbage_fails() {
    assert_eq!(parse_pair::<i32>("10,20xy", ','), None);
}

#[test]
fn missing_separator_fails() {
    assert_eq!(parse_pair::<i32>("10", ','), None);
}

#[test]
fn pair_of_reals_missing_right_half_fails() {
    assert_eq!(parse_pair::<Real>("0.5x", 'x'), None);
}

#[test]
fn pair_of_reals() {
    assert_eq!(parse_pair::<Real>("0.5x1.5", 'x'), Some((Real(0.5), Real(1.5))));
}

#[test]
fn separator_choice_does_not_matter() {
    assert_eq!(parse_pair::<i32>("10;20", ';'), parse_pair::<i32>("10,20", ','));
    assert_eq!(parse_pair::<i32>("10;20", ';'), Some((10, 20)));
}

#[test]
fn only_first_separator_splits() {
    assert_eq!(parse_pair::<i32>("1,2,3", ','), None);
}

#[test]
fn pair_of_signed_integers() {
    assert_eq!(parse_pair::<i32>("-7,+9", ','), Some((-7, 9)));
}

#[test]
fn pair_of_unsigned_integers() {
    assert_eq!(parse_pair::<u32>("800,600", ','), Some((800, 600)));
}

#[test]
fn unsigned_rejects_minus_sign() {
    assert_eq!(parse_pair::<u32>("-1,2", ','), None);
}
