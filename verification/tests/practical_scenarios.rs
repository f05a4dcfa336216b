use rfconversions::frequency::{
    frequency_to_wavelength, ghz_to_hz, ghz_to_thz, hz_to_ghz, khz_to_hz, mhz_to_khz, thz_to_mhz,
};
use rfconversions::noise::noise_power_from_bandwidth;
use rfconversions::p1db::{input_to_output_db, output_to_input_db};
use rfconversions::power::{dbm_to_dbw, dbw_to_dbm};
use rfconversions::rational::Rational;

fn rat(num: i128, den: i128) -> Rational {
    Rational::new(num, den).unwrap()
}

fn to_f64(value: Rational) -> f64 {
    value.numer() as f64 / value.denom() as f64
}

// Power conversions at practical levels

#[test]
fn dbm_dbw_roundtrip_across_range() {
    // Round trip across a wide dynamic range
    for dbm_val in [-174, -130, -100, -50, 0, 10, 30, 43, 50, 60] {
        let dbm = rat(dbm_val, 1);
        let dbw = dbm_to_dbw(dbm).unwrap();
        let back = dbw_to_dbm(dbw).unwrap();
        assert!(
            (to_f64(back) - dbm_val as f64).abs() < 1e-10,
            "Roundtrip failed at {dbm_val} dBm"
        );
        assert_eq!(back, dbm);
    }
}

// Noise power

#[test]
fn thermal_noise_floor() {
    // kTB noise power at 290K, 1 Hz bandwidth = -174 dBm/Hz
    let power_w = to_f64(noise_power_from_bandwidth(rat(290, 1), rat(1, 1)).unwrap());
    let power_dbm = 10.0 * (power_w.log10() + 3.0);
    assert!(
        (power_dbm - (-174.0)).abs() < 0.1,
        "Thermal noise floor was {power_dbm} dBm, expected ~-174 dBm"
    );
}

#[test]
fn noise_power_36mhz_transponder() {
    // 36 MHz transponder bandwidth at 290K system temperature
    let bw = rat(36_000_000, 1);
    let power_w = to_f64(noise_power_from_bandwidth(rat(290, 1), bw).unwrap());
    let power_dbm = 10.0 * (power_w.log10() + 3.0);
    // Expected: -174 + 10*log10(36e6) = -174 + 75.56 = -98.44 dBm
    assert!(
        (power_dbm - (-98.44)).abs() < 0.1,
        "36 MHz noise power was {power_dbm} dBm"
    );
}

// Frequency and wavelength at common bands

#[test]
fn satellite_band_wavelengths() {
    // Ka-band downlink: 20 GHz, 15 mm
    let wl = to_f64(frequency_to_wavelength(ghz_to_hz(rat(20, 1)).unwrap()).unwrap());
    assert!((wl * 1000.0 - 14.99).abs() < 0.01);

    // Ku-band downlink: 12 GHz, 25 mm
    let wl = to_f64(frequency_to_wavelength(ghz_to_hz(rat(12, 1)).unwrap()).unwrap());
    assert!((wl * 1000.0 - 24.98).abs() < 0.02);

    // X-band: 10 GHz, 30 mm
    let wl = to_f64(frequency_to_wavelength(ghz_to_hz(rat(10, 1)).unwrap()).unwrap());
    assert!((wl * 1000.0 - 29.98).abs() < 0.01);
}

#[test]
fn frequency_unit_chain_roundtrip() {
    // 27.5 GHz through all units and back
    let ghz = rat(275, 10);
    let thz = ghz_to_thz(ghz).unwrap();
    let mhz = thz_to_mhz(thz).unwrap();
    let khz = mhz_to_khz(mhz).unwrap();
    let hz = khz_to_hz(khz).unwrap();
    let back = hz_to_ghz(hz).unwrap();
    assert!(
        (to_f64(back) - 27.5).abs() < 1e-10,
        "Frequency chain roundtrip: got {}, expected 27.5",
        to_f64(back)
    );
    assert_eq!(back, ghz);
}

// P1dB

#[test]
fn p1db_input_output_roundtrip_negative_gain() {
    // Attenuator: 10 dB loss (gain = -10 dB)
    let ip1db = rat(20, 1);
    let gain = rat(-10, 1);
    let op1db = input_to_output_db(ip1db, gain).unwrap();
    let back = output_to_input_db(op1db, gain).unwrap();
    assert!((to_f64(back) - 20.0).abs() < 1e-10);
    assert_eq!(back, ip1db);
}
