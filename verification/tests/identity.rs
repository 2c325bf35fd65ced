use ds_tuner::bpf::{hook_initial_value, sysnum};
use ds_tuner::cli::{log_level, LogLevel};
use ds_tuner::conf::{apply_reload, Config};
use ds_tuner::device;
use ds_tuner::dualsense;
use ds_tuner::ffi::edit_config;
use ds_tuner::SCALE;

#[test]
fn sysnum_parses_trailing_hex_as_base_16() {
    // The trailing run "000E" is hexadecimal: 14, not a base-10 parse.
    assert_eq!(sysnum("0005:054C:0CE6.000E"), Some(14));
    // "0010" is 16 in base 16, not 10.
    assert_eq!(sysnum("0005:054C:0CE6.0010"), Some(16));
}

#[test]
fn sysnum_takes_the_maximal_run() {
    // Every character is a hexadecimal digit: the run is the whole string.
    assert_eq!(sysnum("abc"), Some(0xabc));
    assert_eq!(sysnum("00Ff"), Some(255));
}

#[test]
fn sysnum_rejects_names_without_hex_tail() {
    assert_eq!(sysnum(""), None);
    assert_eq!(sysnum("dev."), None);
    assert_eq!(sysnum("xyz"), None);
}

#[test]
fn sysnum_handles_leading_zeros_and_overflow() {
    // Leading zeros do not overflow.
    assert_eq!(sysnum("dev.00000000001"), Some(1));
    assert_eq!(sysnum("dev.00000000000"), Some(0));
    // The full identifier range is reachable.
    assert_eq!(sysnum("dev.ffffffff"), Some(u32::MAX));
    // One digit more no longer fits the identifier's width.
    assert_eq!(sysnum("dev.fffffffff"), None);
}

#[test]
fn check_sysname_accepts_dualsense() {
    assert!(device::check_sysname("0005:054C:0CE6.000E"));
    assert!(dualsense::check_sysname("0005:054C:0CE6.000E"));
}

#[test]
fn check_sysname_rejects_wrong_length() {
    assert!(!device::check_sysname("0005:054C:0CE6.000"));
    assert!(!device::check_sysname("0005:054C:0CE6.000EF"));
    assert!(!device::check_sysname(""));
    assert!(!dualsense::check_sysname("0005:054C:0CE6.000"));
}

#[test]
fn check_sysname_rejects_other_devices() {
    assert!(!device::check_sysname("0005:1234:0CE6.000E"));
    assert!(!device::check_sysname("0005:054C:9999.000E"));
    assert!(!dualsense::check_sysname("0005:1234:0CE6.000E"));
}

#[test]
fn check_sysname_window() {
    // The vendor/product windows match but the separator differs: the
    // window check notices, the per-field check does not.
    assert!(device::check_sysname("0005:054CX0CE6.000E"));
    assert!(!dualsense::check_sysname("0005:054CX0CE6.000E"));
}

#[test]
fn hook_initial_value_is_little_endian() {
    assert_eq!(hook_initial_value(14), vec![14, 0, 0, 0]);
    assert_eq!(hook_initial_value(0x0102_0304), vec![4, 3, 2, 1]);
}

#[test]
fn log_level_choices() {
    assert_eq!(log_level(true, false), LogLevel::Trace);
    assert_eq!(log_level(true, true), LogLevel::Trace);
    assert_eq!(log_level(false, true), LogLevel::Debug);
    assert_eq!(log_level(false, false), LogLevel::Info);
}

#[test]
fn config_defaults_are_identity() {
    let config = Config::default();
    assert_eq!(config.stick.left.deadzone, 0);
    assert!(config.stick.left.rescale);
    assert_eq!(config.stick.left.limit, None);
    assert_eq!(config.trigger.right.deadzone, 0);
    assert!(config.trigger.right.rescale);
    assert_eq!(config, Config::default());
}

#[test]
fn apply_reload_decides_change() {
    let mut current = Config::default();

    // A failed parse keeps the stored configuration and owes no event.
    assert!(!apply_reload(&mut current, None));
    assert_eq!(current, Config::default());

    // An identical parse replaces the value but owes no event.
    assert!(!apply_reload(&mut current, Some(Config::default())));

    // A different parse replaces the value and owes an event.
    let mut changed = Config::default();
    changed.stick.left.deadzone = SCALE / 5;
    assert!(apply_reload(&mut current, Some(changed)));
    assert_eq!(current.stick.left.deadzone, SCALE / 5);

    // Reloading the same document again is no longer a change.
    let mut same = Config::default();
    same.stick.left.deadzone = SCALE / 5;
    assert!(!apply_reload(&mut current, Some(same)));
}

#[test]
fn edit_config_holds_placeholder() {
    let edit = edit_config { dummy: 7 };
    assert_eq!(edit.dummy, 7);
}
