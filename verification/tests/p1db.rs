use rfconversions::error::RfError;
use rfconversions::p1db::{cascade_output_p1db_linear, input_to_output_db, output_to_input_db};
use rfconversions::rational::Rational;

fn rat(num: i128, den: i128) -> Rational {
    Rational::new(num, den).unwrap()
}

fn to_f64(value: Rational) -> f64 {
    value.numer() as f64 / value.denom() as f64
}

#[test]
fn input_to_output_p1db() {
    let input_p1db = rat(5, 1);

    let gain_db = rat(30, 1);

    let output_p1db = input_to_output_db(input_p1db, gain_db).unwrap();
    assert_eq!(to_f64(output_p1db), 34.0);
}

#[test]
fn output_to_input_p1db() {
    let output_p1db = rat(34, 1);

    let gain_db = rat(30, 1);

    let input_p1db = output_to_input_db(output_p1db, gain_db).unwrap();
    assert_eq!(to_f64(input_p1db), 5.0);
}

#[test]
fn input_output_inverse_with_gain() {
    let output = input_to_output_db(rat(-10, 1), rat(25, 1)).unwrap();
    assert_eq!(output, rat(14, 1));
    assert_eq!(output_to_input_db(output, rat(25, 1)), Ok(rat(-10, 1)));
}

#[test]
fn input_output_inverse_for_fractions_and_attenuators() {
    for (p, g) in [(rat(20, 1), rat(-10, 1)), (rat(-7, 2), rat(-1, 3)), (rat(0, 1), rat(0, 1))] {
        let output = input_to_output_db(p, g).unwrap();
        assert_eq!(output_to_input_db(output, g), Ok(p));
        let input = output_to_input_db(p, g).unwrap();
        assert_eq!(input_to_output_db(input, g), Ok(p));
    }
}

#[test]
fn input_output_without_representation() {
    let limit = i128::MAX;
    // The gain less one has no representation.
    assert_eq!(input_to_output_db(rat(5, 1), rat(-limit, 1)), Err(RfError::Unrepresentable));
    assert_eq!(output_to_input_db(rat(5, 1), rat(-limit, 1)), Err(RfError::Unrepresentable));
    // The shifted point has none.
    assert_eq!(input_to_output_db(rat(limit, 1), rat(2, 1)), Err(RfError::Unrepresentable));
    assert_eq!(output_to_input_db(rat(-limit, 1), rat(2, 1)), Err(RfError::Unrepresentable));
}

#[test]
fn cascade_output_p1db_linear_reference() {
    // 1 / (1/100 * 2 + 1/50) = 1 / 0.04 = 25
    let cascaded = cascade_output_p1db_linear(rat(100, 1), rat(50, 1), rat(2, 1)).unwrap();
    assert_eq!(cascaded, rat(25, 1));
    assert_eq!(to_f64(cascaded), 25.0);
}

#[test]
fn cascade_output_p1db_linear_fractions() {
    // 1 / (1/(3/2) * (1/4) + 1/(5/7)) = 1 / (1/6 + 7/5) = 30/47
    let cascaded = cascade_output_p1db_linear(rat(3, 2), rat(5, 7), rat(1, 4)).unwrap();
    assert_eq!(cascaded, rat(30, 47));
}

#[test]
fn cascade_output_p1db_linear_never_improves() {
    let cases = [
        (rat(100, 1), rat(50, 1), rat(2, 1)),
        (rat(3, 2), rat(5, 7), rat(1, 4)),
        (rat(1, 1000), rat(2000, 1), rat(10, 1)),
    ];
    for (cumulative, stage, gain) in cases {
        let cascaded = to_f64(cascade_output_p1db_linear(cumulative, stage, gain).unwrap());
        assert!(cascaded > 0.0);
        assert!(cascaded <= to_f64(stage));
        assert!(cascaded * to_f64(gain) <= to_f64(cumulative));
    }
}

#[test]
fn cascade_output_p1db_linear_division_by_zero() {
    let zero = rat(0, 1);
    assert_eq!(
        cascade_output_p1db_linear(zero, rat(50, 1), rat(2, 1)),
        Err(RfError::DivisionByZero)
    );
    assert_eq!(
        cascade_output_p1db_linear(rat(100, 1), zero, rat(2, 1)),
        Err(RfError::DivisionByZero)
    );
    // 1/100 * (-2) + 1/50 = 0
    assert_eq!(
        cascade_output_p1db_linear(rat(100, 1), rat(50, 1), rat(-2, 1)),
        Err(RfError::DivisionByZero)
    );
    // A gain of zero leaves the stage's own point.
    assert_eq!(cascade_output_p1db_linear(rat(100, 1), rat(50, 1), zero), Ok(rat(50, 1)));
}

#[test]
fn cascade_output_p1db_linear_without_representation() {
    let limit = i128::MAX;
    // 1/(1/limit) * 2 = 2 * limit
    assert_eq!(
        cascade_output_p1db_linear(rat(1, limit), rat(1, 1), rat(2, 1)),
        Err(RfError::Unrepresentable)
    );
    // 1/(1/limit) * 1 + 1/1 = limit + 1
    assert_eq!(
        cascade_output_p1db_linear(rat(1, limit), rat(1, 1), rat(1, 1)),
        Err(RfError::Unrepresentable)
    );
}
