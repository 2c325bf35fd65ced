//! Userspace support library for a DualSense controller tuning daemon.
//!
//! The library holds the verified core of the daemon: the fixed-point curve
//! transform engine that compiles per-axis shaping parameters into quantized
//! lookup tables, the identity resolver that classifies device names and
//! derives numeric device identifiers, the configuration data model, and the
//! session orchestrator's state machine. Process plumbing (device monitoring,
//! file watching, logging, kernel hook loading) lives outside the library.

use vstd::prelude::*;

pub mod bpf;
pub mod cli;
pub mod conf;
pub mod device;
pub mod dualsense;
pub mod ffi;
pub mod input;
pub mod num;
pub mod service;

verus! {

/// The fixed-point scale shared by the whole curve engine: the rational
/// value `n / SCALE` is represented by the integer `n`. The scale is
/// `255 * 1024`, so every raw byte's scaled position and every multiple of
/// `1 / 255` is represented exactly.
pub const SCALE: i64 = 255 * 1024;

} // verus!
