use ds_tuner::SCALE;
use ds_tuner::input::gen_input;
use ds_tuner::input::gen_stick_lut;
use ds_tuner::input::stick;
use ds_tuner::input::stick::StickOptions;
use ds_tuner::input::trigger::TriggerOptions;
use ds_tuner::input::util::{deadzone_scale, sq};

/// One fifth of full deflection: the fixed-point form of a 0.2 deadzone.
const FIFTH: i64 = SCALE / 5;

/// The packed entry for a centered output: raw (127, 127).
const CENTER_PACKED: u16 = 127 + 127 * 256;

#[test]
fn check_scaled_centered() {
    let val = stick::to_scaled(127);
    assert!((val as f64 / SCALE as f64).abs() < 0.01, "value = {val}");
}

#[test]
fn input_check_conversion() {
    for x in 0..=255u8 {
        let c = stick::to_raw(stick::to_scaled(x));
        assert_eq!(x, c);
    }
}

#[test]
fn input_check_center() {
    assert_eq!(127, stick::to_raw(0));
}

#[test]
fn input_check_merged() {
    let x = 37;
    let y = 185;
    let merged = stick::to_merged(stick::to_scaled(x), stick::to_scaled(y));

    assert_eq!(x, (merged & 0xFF) as u8);
    assert_eq!(y, ((merged >> 8) & 0xFF) as u8);
}

#[test]
fn input_check_deadzone_scale() {
    let deadzone = FIFTH;
    assert_eq!(0, deadzone_scale(0, deadzone));
    assert_eq!(0, deadzone_scale(FIFTH, deadzone));
    assert_eq!(SCALE, deadzone_scale(SCALE, deadzone));
    assert_eq!(SCALE * 3 / 8, deadzone_scale(SCALE / 2, deadzone));
}

#[test]
fn util_check_deadzone_scale() {
    const DEADZONE: i64 = FIFTH;
    assert_eq!(0, deadzone_scale(0, DEADZONE));
    assert_eq!(0, deadzone_scale(FIFTH, DEADZONE));
    assert_eq!(SCALE * 3 / 8, deadzone_scale(SCALE / 2, DEADZONE));
    assert_eq!(SCALE, deadzone_scale(SCALE, DEADZONE));
}

#[test]
fn util_check_sq() {
    assert_eq!(sq(0), 0);
    assert_eq!(sq(-3), 9);
    assert_eq!(sq(FIFTH), FIFTH * FIFTH);
}

#[test]
fn stick_check_conversion() {
    for x in 0..=255u8 {
        assert_eq!(x, stick::to_raw(stick::to_scaled(x)));
    }
}

#[test]
fn stick_check_center() {
    assert_eq!(127, stick::to_raw(0));
}

#[test]
fn check_scaled_center() {
    fn check(value: u8) {
        let value = stick::to_scaled(value);
        assert!((value as f64 / SCALE as f64).abs() < 0.01, "value = {value}");
    }

    check(127);
    check(128);
}

#[test]
fn stick_check_merged() {
    let x = 37;
    let y = 185;
    let merged = stick::to_merged(stick::to_scaled(x), stick::to_scaled(y));

    assert_eq!(x, (merged & 0xFF) as u8);
    assert_eq!(y, ((merged >> 8) & 0xFF) as u8);
}

#[test]
fn trigger_check_conversion() {
    for v in 0..=255u8 {
        assert_eq!(v, ds_tuner::input::trigger::to_raw(ds_tuner::input::trigger::to_scaled(v)));
    }
}

#[test]
fn stick_default_lut_is_identity() {
    let options = StickOptions::default();
    let lut = options.gen_lut();
    assert_eq!(lut.len(), 65536);
    for y in 0..=255u16 {
        for x in 0..=255u16 {
            let index = (x + y * 256) as usize;
            assert_eq!(lut[index], x + (y << 8), "x = {x}, y = {y}");
        }
    }
}

#[test]
fn stick_deadzone_zeroes_center_region() {
    let options = StickOptions { deadzone: FIFTH, rescale: true, limit: None };
    let lut = options.gen_lut();
    // The exact center and a small offset, both within radius 0.2.
    assert_eq!(lut[127 + 127 * 256], CENTER_PACKED);
    assert_eq!(lut[117 + 127 * 256], CENTER_PACKED);
    assert_eq!(lut[127 + 140 * 256], CENTER_PACKED);
    // Full deflection still reaches full output.
    assert_eq!(lut[127 + 0 * 256] >> 8, 0);
}

#[test]
fn stick_limit_clamps_magnitude() {
    let half: i64 = SCALE / 2;
    let options = StickOptions { deadzone: 0, rescale: false, limit: Some(half) };
    let lut = options.gen_lut();
    for y in 0..=255u16 {
        for x in 0..=255u16 {
            let entry = lut[(x + y * 256) as usize];
            let out_x = (entry & 0xFF) as f64;
            let out_y = (entry >> 8) as f64;
            // Back to scaled coordinates.
            let sx = (127.5 - out_x) / 127.5;
            let sy = (127.5 - out_y) / 127.5;
            let mag = (sx * sx + sy * sy).sqrt();
            // Within the limit, up to one quantization step.
            assert!(mag <= 0.5 + 2.0 / 255.0, "x = {x}, y = {y}, mag = {mag}");
        }
    }
}

#[test]
fn gen_stick_lut_matches_method() {
    let options = StickOptions { deadzone: FIFTH, rescale: true, limit: Some(SCALE / 2) };
    assert_eq!(gen_stick_lut(&options), options.gen_lut());
}

#[test]
fn trigger_default_lut_is_identity() {
    let options = TriggerOptions::default();
    let lut = options.gen_lut();
    assert_eq!(lut.len(), 256);
    for v in 0..=255u8 {
        assert_eq!(lut[v as usize], v);
    }
}

#[test]
fn trigger_deadzone_lut() {
    let options = TriggerOptions { deadzone: FIFTH, rescale: true };
    let lut = options.gen_lut();
    // At rest and below the threshold: no output.
    assert_eq!(lut[0], 0);
    assert_eq!(lut[50], 0);
    // At the threshold the rescaled band starts at zero.
    assert_eq!(lut[51], 0);
    // Full travel still reaches full output.
    assert_eq!(lut[255], 255);
    // 0.6 of travel maps to 0.5 of the band: round(0.5 * 255) = 128.
    assert_eq!(lut[153], 128);
}

#[test]
fn gen_input_lut() {
    let lut = gen_input();
    assert_eq!(lut.len(), 65536);
    // The fixed one-fifth deadzone zeroes the center region.
    assert_eq!(lut[127 + 127 * 256], CENTER_PACKED);
    assert_eq!(lut[117 + 127 * 256], CENTER_PACKED);
    // Full deflection on one axis passes through.
    assert_eq!(lut[255 + 127 * 256], 255 + 127 * 256);
    assert_eq!(lut[0 + 127 * 256], 0 + 127 * 256);
}
