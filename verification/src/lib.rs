//! Object-detection serving library.
//!
//! The core of an object-detection inference server: per-architecture tensor
//! post-processing (three box encodings), IoU-based suppression and filtering,
//! and the decision logic of a single-worker bounded-queue service.
//!
//! Fractional quantities (confidence scores, normalized coordinates, resize
//! factors) are represented as exact integers: scores and tensor values carry
//! six decimal places ("micros", one unit is 1e-6), and resize factors are
//! rationals given by the original and model-input dimensions.

use vstd::prelude::*;

pub mod api;
pub mod codec;
pub mod detector;
pub mod download_models;
pub mod geometry;
pub mod image;
pub mod server;
pub mod startup_coordinator;
pub mod system_info;
pub mod text;
pub mod worker;

verus! {

/// One unit of confidence or of a normalized tensor value: 1e-6.
pub const MICROS_PER_UNIT: i64 = 1_000_000;

/// How much the log should say.
#[derive(Clone, Copy, Debug, PartialEq, Eq, PartialOrd, Ord, Structural)]
pub enum LogLevel {
    Trace,
    Debug,
    Info,
    Warn,
    Error,
}

/// The filter directive for a log level.
pub fn level_to_filter_string(log_level: LogLevel) -> (r: String)
    ensures
        log_level is Trace ==> r@ == "trace"@,
        log_level is Debug ==> r@ == "debug"@,
        log_level is Info ==> r@ == "info"@,
        log_level is Warn ==> r@ == "warn"@,
        log_level is Error ==> r@ == "error"@,
{
    let s = match log_level {
        LogLevel::Trace => "trace",
        LogLevel::Debug => "debug",
        LogLevel::Info => "info",
        LogLevel::Warn => "warn",
        LogLevel::Error => "error",
    };
    <String as vstd::string::StringExecFns>::from_str(s)
}

/// The GPUs the host offers, for the log; none on this platform.
pub fn log_available_gpus() -> (r: Vec<String>)
    ensures
        r@.len() == 0,
{
    match system_info::gpu_info(true) {
        Ok(names) => names,
        Err(_) => Vec::new(),
    }
}

/// Parses a whole number of seconds from its decimal text form.
///
/// Returns the number of seconds on success; rejects anything that is not
/// an optional `+` sign followed by decimal digits, or that exceeds `u64`.
pub fn parse_duration(s: &str) -> (r: Result<u64, text::ParseNumberError>)
    ensures
        r matches Ok(n) ==> text::spec_parse_u64(s@) == Some(n as nat),
        r is Err <==> text::spec_parse_u64(s@) is None,
{
    text::parse_u64(s)
}

} // verus!
