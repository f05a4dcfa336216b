use rfconversions::error::RfError;
use rfconversions::noise::{
    cascade_noise_factor, cascade_noise_temperature, noise_factor_from_noise_temperature,
    noise_power_from_bandwidth, noise_temperature_from_noise_factor,
};
use rfconversions::rational::Rational;

fn rat(num: i128, den: i128) -> Rational {
    Rational::new(num, den).unwrap()
}

fn to_f64(value: Rational) -> f64 {
    value.numer() as f64 / value.denom() as f64
}

#[test]
fn noise_noise_temperature_from_noise_factor() {
    let noise_factor = rat(2, 1);

    let noise_temperature = noise_temperature_from_noise_factor(noise_factor).unwrap();

    assert_eq!(290.0, to_f64(noise_temperature));
}

#[test]
fn another_noise_temperature_from_noise_factor() {
    let noise_factor = rat(4, 1);

    let noise_temperature = noise_temperature_from_noise_factor(noise_factor).unwrap();

    assert_eq!(870.0, to_f64(noise_temperature));
}

#[test]
fn noise_noise_factor_from_noise_temperature() {
    let noise_temperature = rat(290, 1);

    let noise_factor = noise_factor_from_noise_temperature(noise_temperature).unwrap();

    assert_eq!(2.0, to_f64(noise_factor));
}

#[test]
fn another_noise_factor_from_noise_temperature() {
    let noise_temperature = rat(290, 1);

    let noise_factor = noise_factor_from_noise_temperature(noise_temperature).unwrap();

    assert_eq!(2.0, to_f64(noise_factor));
}

#[test]
fn noise_noise_power_from_bandwidth() {
    let bandwidth = rat(100_000_000, 1);
    let temperature = rat(290, 1);

    let noise_power = to_f64(noise_power_from_bandwidth(temperature, bandwidth).unwrap());

    let noise_power_dbm: f64 = 10.0 * (noise_power.log10() + 3.0);

    assert_eq!(-93.97518719422811, noise_power_dbm);
}

#[test]
fn noise_factor_one_gives_zero_temperature() {
    let noise_temperature = noise_temperature_from_noise_factor(rat(1, 1)).unwrap();
    assert_eq!(0.0, to_f64(noise_temperature));
}

// Friis cascade

#[test]
fn cascade_noise_factor_single_stage() {
    let f = cascade_noise_factor(&[(rat(2, 1), rat(10, 1))]).unwrap();
    assert_eq!(to_f64(f), 2.0);
}

#[test]
fn single_stage_cascade_is_independent_of_gain() {
    let factor = rat(631, 100);
    for gain in [rat(100, 1), rat(2, 10), rat(0, 1), rat(-3, 7), rat(i128::MAX, 1)] {
        assert_eq!(cascade_noise_factor(&[(factor, gain)]), Ok(factor));
        assert_eq!(cascade_noise_temperature(&[(factor, gain)]), Ok(factor));
    }
}

#[test]
fn cascade_noise_factor_two_stage_lna_dominant() {
    // LNA: F=1.12 (0.5dB), G=100 (20dB)
    // Mixer: F=6.31 (8dB), G=0.2 (-7dB)
    // F_total = 1.12 + (6.31 - 1)/100 = 1.12 + 0.0531 = 1.1731
    let f = cascade_noise_factor(&[(rat(112, 100), rat(100, 1)), (rat(631, 100), rat(2, 10))])
        .unwrap();
    assert!((to_f64(f) - 1.1731).abs() < 0.001);
    assert_eq!(f, rat(11731, 10000));
}

#[test]
fn cascade_noise_factor_bad_order() {
    // Mixer first, then LNA: much worse
    let lna = (rat(112, 100), rat(100, 1));
    let mixer = (rat(631, 100), rat(2, 10));
    let good = to_f64(cascade_noise_factor(&[lna, mixer]).unwrap());
    let bad = to_f64(cascade_noise_factor(&[mixer, lna]).unwrap());
    assert!(bad > good, "Putting mixer first should give worse NF");
    // bad = 6.31 + (1.12-1)/0.2 = 6.31 + 0.6 = 6.91
    assert!((bad - 6.91).abs() < 0.01);
    assert!(bad - good > 5.0);
}

#[test]
fn cascade_noise_temperature_two_stage() {
    // LNA: Te=35K, G=100, then cable: Te=75K, G=0.794
    let t = cascade_noise_temperature(&[(rat(35, 1), rat(100, 1)), (rat(75, 1), rat(794, 1000))])
        .unwrap();
    // T_total = 35 + 75/100 = 35.75
    assert!((to_f64(t) - 35.75).abs() < 0.01);
    assert_eq!(t, rat(3575, 100));
}

// Failures

#[test]
fn cascade_noise_factor_empty_is_invalid_input() {
    assert_eq!(cascade_noise_factor(&[]), Err(RfError::InvalidInput));
}

#[test]
fn cascade_noise_temperature_empty_is_invalid_input() {
    assert_eq!(cascade_noise_temperature(&[]), Err(RfError::InvalidInput));
}

#[test]
fn cascade_with_zero_gain_in_front_of_a_stage() {
    let blocked = [(rat(2, 1), rat(0, 1)), (rat(3, 1), rat(10, 1))];
    assert_eq!(cascade_noise_factor(&blocked), Err(RfError::DivisionByZero));
    assert_eq!(cascade_noise_temperature(&blocked), Err(RfError::DivisionByZero));
    let later = [(rat(2, 1), rat(5, 1)), (rat(3, 1), rat(0, 1)), (rat(3, 1), rat(10, 1))];
    assert_eq!(cascade_noise_factor(&later), Err(RfError::DivisionByZero));
}

#[test]
fn cascade_ignores_the_gain_of_the_last_stage() {
    let open_end = [(rat(2, 1), rat(4, 1)), (rat(3, 1), rat(0, 1))];
    assert_eq!(cascade_noise_factor(&open_end), Ok(rat(5, 2)));
    assert_eq!(cascade_noise_temperature(&open_end), Ok(rat(11, 4)));
    assert_eq!(cascade_noise_factor(&[(rat(7, 5), rat(0, 1))]), Ok(rat(7, 5)));
}

#[test]
fn cascade_without_representation() {
    let big = 1_i128 << 64; // above the square root of the limit
    let gains = [(rat(1, 1), rat(big, 1)), (rat(1, 1), rat(big, 1)), (rat(2, 1), rat(1, 1))];
    assert_eq!(cascade_noise_factor(&gains), Err(RfError::Unrepresentable));
    assert_eq!(cascade_noise_temperature(&gains), Err(RfError::Unrepresentable));
    let limit = i128::MAX;
    let excess = [(rat(1, 1), rat(1, 1)), (rat(-limit, 1), rat(1, 1))];
    assert_eq!(cascade_noise_factor(&excess), Err(RfError::Unrepresentable));
    let total = [(rat(limit, 1), rat(1, 1)), (rat(3, 1), rat(1, 1))];
    assert_eq!(cascade_noise_factor(&total), Err(RfError::Unrepresentable));
    assert_eq!(cascade_noise_temperature(&total), Err(RfError::Unrepresentable));
}

#[test]
fn cascade_noise_factor_three_stages_exact() {
    // 2 + (3 - 1) / 4 + (5 - 1) / (4 * 1/2) = 2 + 1/2 + 2
    let chain = [(rat(2, 1), rat(4, 1)), (rat(3, 1), rat(1, 2)), (rat(5, 1), rat(9, 1))];
    assert_eq!(cascade_noise_factor(&chain), Ok(rat(9, 2)));
    // 2 + 3 / 4 + 5 / 2
    assert_eq!(cascade_noise_temperature(&chain), Ok(rat(21, 4)));
}

#[test]
fn cascade_with_a_lossy_and_a_negative_gain() {
    // 3/2 + (5/4 - 1) / (-2) + (2 - 1) / (-2 * 1/3)
    let chain = [(rat(3, 2), rat(-2, 1)), (rat(5, 4), rat(1, 3)), (rat(2, 1), rat(1, 1))];
    assert_eq!(cascade_noise_factor(&chain), Ok(rat(-1, 8)));
}

#[test]
fn temperature_cascade_matches_factor_cascade() {
    let factors = [
        (rat(112, 100), rat(100, 1)),
        (rat(126, 100), rat(794, 1000)),
        (rat(631, 100), rat(2, 10)),
    ];
    let mut temperatures = factors;
    for stage in temperatures.iter_mut() {
        stage.0 = noise_temperature_from_noise_factor(stage.0).unwrap();
    }
    let factor = cascade_noise_factor(&factors).unwrap();
    let temperature = cascade_noise_temperature(&temperatures).unwrap();
    assert_eq!(noise_temperature_from_noise_factor(factor), Ok(temperature));
    assert_eq!(noise_factor_from_noise_temperature(temperature), Ok(factor));
}

#[test]
fn noise_factor_and_temperature_are_inverse() {
    for (num, den) in [(2_i128, 1_i128), (112, 100), (1, 1), (631, 100), (-3, 7)] {
        let factor = rat(num, den);
        let temperature = noise_temperature_from_noise_factor(factor).unwrap();
        assert_eq!(noise_factor_from_noise_temperature(temperature), Ok(factor));
        let back = noise_factor_from_noise_temperature(factor).unwrap();
        assert_eq!(noise_temperature_from_noise_factor(back), Ok(factor));
    }
}

#[test]
fn noise_temperature_formula_exact() {
    // 290 * (1.12 - 1) = 34.8
    assert_eq!(noise_temperature_from_noise_factor(rat(112, 100)), Ok(rat(348, 10)));
    // 1 + 35 / 290 = 65 / 58
    assert_eq!(noise_factor_from_noise_temperature(rat(35, 1)), Ok(rat(65, 58)));
}

#[test]
fn noise_conversions_without_representation() {
    let limit = i128::MAX;
    assert_eq!(noise_temperature_from_noise_factor(rat(-limit, 1)), Err(RfError::Unrepresentable));
    assert_eq!(noise_temperature_from_noise_factor(rat(limit, 2)), Err(RfError::Unrepresentable));
    assert_eq!(noise_factor_from_noise_temperature(rat(1, limit)), Err(RfError::Unrepresentable));
    assert_eq!(noise_factor_from_noise_temperature(rat(limit, 1)), Err(RfError::Unrepresentable));
}

#[test]
fn noise_power_of_a_transponder_exact() {
    // 1.380649e-23 * 290 * 36e6 = 1.441397556e-13
    let power = noise_power_from_bandwidth(rat(290, 1), rat(36_000_000, 1)).unwrap();
    assert_eq!(power, rat(1_441_397_556, 10_000_000_000_000_000_000_000));
}

#[test]
fn noise_power_from_bandwidth_known_ktb() {
    // kTB at 290K, 1 Hz bandwidth
    let noise_power = noise_power_from_bandwidth(rat(290, 1), rat(1, 1)).unwrap();
    // 1.380649e-23 * 290 = 4.0038821e-21
    assert_eq!(noise_power, rat(40_038_821, 10_000_000_000_000_000_000_000_000_000));
    let expected: f64 = 1.380649e-23 * 290.0;
    assert!((to_f64(noise_power) - expected).abs() <= expected * 2.0 * f64::EPSILON);
}

#[test]
fn noise_power_without_representation() {
    let limit = i128::MAX;
    // T * B has no representation.
    assert_eq!(
        noise_power_from_bandwidth(rat(limit, 1), rat(2, 1)),
        Err(RfError::Unrepresentable)
    );
    // T * B is the largest numerator, and 1380649 times it beyond any.
    assert_eq!(
        noise_power_from_bandwidth(rat(limit, 1), rat(1, 1)),
        Err(RfError::Unrepresentable)
    );
    // 10^29 / 1380649 K over 1 Hz gives one watt.
    let ten_to_29 = 100_000_000_000_000_000_000_000_000_000;
    assert_eq!(noise_power_from_bandwidth(rat(ten_to_29, 1_380_649), rat(1, 1)), Ok(rat(1, 1)));
    // The power itself has none.
    let ten_to_20 = 100_000_000_000_000_000_000;
    assert_eq!(
        noise_power_from_bandwidth(rat(1, ten_to_20), rat(1, 1)),
        Err(RfError::Unrepresentable)
    );
    assert_eq!(noise_power_from_bandwidth(rat(0, 1), rat(5, 1)), Ok(rat(0, 1)));
}
