//! The serving layer's bookkeeping: request metrics and uptime. The
//! HTTP routing itself is an outside collaborator.

use vstd::prelude::*;
use crate::api::VisionDetectionResponse;
use crate::detector::ExecutionProvider;
use crate::startup_coordinator::DetectorInfo;
use crate::text;

verus! {

/// The crate's release version, as the status pages report it.
pub const SERVER_VERSION: &'static str = "1.0.0";

#[verifier::external_type_specification]
#[verifier::external_body]
pub struct ExInstant(std::time::Instant);

/// Relies on std's monotonic clock; what it returns depends on the
/// moment of the call.
pub assume_specification[ std::time::Instant::now ]() -> std::time::Instant;

/// Relies on `Instant::elapsed`: the whole milliseconds since `start`,
/// saturated to `u64`. The reading depends on the clock, so nothing is
/// promised of it.
#[verifier::external_body]
fn elapsed_millis(start: &std::time::Instant) -> (r: u64)
{
    let ms = start.elapsed().as_millis();
    if ms > u64::MAX as u128 {
        u64::MAX
    } else {
        ms as u64
    }
}

/// Counters over the requests served so far.
pub struct Metrics {
    pub version: String,
    pub log_path: String,
    pub start_time: std::time::Instant,
    pub model_name: String,
    pub execution_provider_name: String,
    pub number_of_requests: u128,
    pub dropped_requests: u128,
    pub total_inference_ms: u128,
    pub min_inference_ms: i32,
    pub max_inference_ms: i32,
    pub total_processing_ms: u128,
    pub min_processing_ms: i32,
    pub max_processing_ms: i32,
    pub total_analysis_round_trip_ms: u128,
    pub min_analysis_round_trip_ms: i32,
    pub max_analysis_round_trip_ms: i32,
}

/// Addition that wraps around the `u128` range.
pub open spec fn spec_wrapping_add_u128(a: int, b: int) -> int {
    if a + b <= u128::MAX {
        a + b
    } else {
        a + b - (u128::MAX + 1)
    }
}

fn wrapping_add_u128(a: u128, b: u128) -> (r: u128)
    ensures
        r == spec_wrapping_add_u128(a as int, b as int),
{
    if a <= u128::MAX - b {
        a + b
    } else {
        a - (u128::MAX - b) - 1
    }
}

/// A millisecond field read as a nonnegative amount: a negative
/// reading counts as zero.
pub open spec fn spec_ms_amount(v: int) -> int {
    if v >= 0 {
        v
    } else {
        0
    }
}

fn ms_amount(v: i32) -> (r: u128)
    ensures
        r == spec_ms_amount(v as int),
{
    if v >= 0 {
        v as u128
    } else {
        0
    }
}

impl Metrics {
    /// Fresh counters for a server that has served nothing yet.
    pub fn new(model_name: String, execution_provider: String, log_path: Option<String>) -> (r:
        Metrics)
        ensures
            r.version@ == SERVER_VERSION@,
            r.model_name == model_name,
            r.execution_provider_name == execution_provider,
            (log_path matches Some(p) ==> r.log_path == p),
            (log_path is None ==> r.log_path@ == "stdout"@),
            r.number_of_requests == 0,
            r.dropped_requests == 0,
            r.total_inference_ms == 0,
            r.min_inference_ms == i32::MAX,
            r.max_inference_ms == i32::MIN,
            r.total_processing_ms == 0,
            r.min_processing_ms == i32::MAX,
            r.max_processing_ms == i32::MIN,
            r.total_analysis_round_trip_ms == 0,
            r.min_analysis_round_trip_ms == i32::MAX,
            r.max_analysis_round_trip_ms == i32::MIN,
    {
        let log_path_text = match log_path {
            Some(p) => p,
            None => <String as vstd::string::StringExecFns>::from_str("stdout"),
        };
        Metrics {
            version: <String as vstd::string::StringExecFns>::from_str(SERVER_VERSION),
            log_path: log_path_text,
            start_time: std::time::Instant::now(),
            model_name,
            execution_provider_name: execution_provider,
            number_of_requests: 0,
            dropped_requests: 0,
            total_inference_ms: 0,
            min_inference_ms: i32::MAX,
            max_inference_ms: i32::MIN,
            total_processing_ms: 0,
            min_processing_ms: i32::MAX,
            max_processing_ms: i32::MIN,
            total_analysis_round_trip_ms: 0,
            min_analysis_round_trip_ms: i32::MAX,
            max_analysis_round_trip_ms: i32::MIN,
        }
    }

    /// The server's uptime, written out in days, hours and minutes.
    /// The reading comes from the clock; the rendering is the uptime
    /// text of that reading.
    pub fn uptime(&self) -> (r: String)
        ensures
            exists|secs: int| 0 <= secs && r@ == spec_uptime_text(secs),
    {
        let elapsed_ms = elapsed_millis(&self.start_time);
        let secs = elapsed_ms / 1000;
        let text = format_uptime(secs);
        proof {
            assert(text@ == spec_uptime_text(secs as int));
        }
        text
    }

    /// Folds one response into the counters: totals wrap around,
    /// minima and maxima move toward the reading.
    pub fn update_metrics(&mut self, response: &VisionDetectionResponse)
        ensures
            final(self).number_of_requests == spec_wrapping_add_u128(
                old(self).number_of_requests as int,
                1,
            ),
            final(self).total_inference_ms == spec_wrapping_add_u128(
                old(self).total_inference_ms as int,
                spec_ms_amount(response.inferenceMs as int),
            ),
            final(self).min_inference_ms == (if response.inferenceMs < old(self).min_inference_ms {
                response.inferenceMs
            } else {
                old(self).min_inference_ms
            }),
            final(self).max_inference_ms == (if response.inferenceMs > old(self).max_inference_ms {
                response.inferenceMs
            } else {
                old(self).max_inference_ms
            }),
            final(self).total_processing_ms == spec_wrapping_add_u128(
                old(self).total_processing_ms as int,
                spec_ms_amount(response.processMs as int),
            ),
            final(self).min_processing_ms == (if response.processMs < old(self).min_processing_ms {
                response.processMs
            } else {
                old(self).min_processing_ms
            }),
            final(self).max_processing_ms == (if response.processMs > old(self).max_processing_ms {
                response.processMs
            } else {
                old(self).max_processing_ms
            }),
            final(self).total_analysis_round_trip_ms == spec_wrapping_add_u128(
                old(self).total_analysis_round_trip_ms as int,
                spec_ms_amount(response.analysisRoundTripMs as int),
            ),
            final(self).min_analysis_round_trip_ms == (if response.analysisRoundTripMs < old(
                self,
            ).min_analysis_round_trip_ms {
                response.analysisRoundTripMs
            } else {
                old(self).min_analysis_round_trip_ms
            }),
            final(self).max_analysis_round_trip_ms == (if response.analysisRoundTripMs > old(
                self,
            ).max_analysis_round_trip_ms {
                response.analysisRoundTripMs
            } else {
                old(self).max_analysis_round_trip_ms
            }),
            final(self).dropped_requests == old(self).dropped_requests,
            final(self).version == old(self).version,
            final(self).log_path == old(self).log_path,
            final(self).model_name == old(self).model_name,
            final(self).execution_provider_name == old(self).execution_provider_name,
    {
        self.number_of_requests = wrapping_add_u128(self.number_of_requests, 1);
        self.total_inference_ms = wrapping_add_u128(
            self.total_inference_ms,
            ms_amount(response.inferenceMs),
        );
        if response.inferenceMs < self.min_inference_ms {
            self.min_inference_ms = response.inferenceMs;
        }
        if response.inferenceMs > self.max_inference_ms {
            self.max_inference_ms = response.inferenceMs;
        }
        self.total_processing_ms = wrapping_add_u128(
            self.total_processing_ms,
            ms_amount(response.processMs),
        );
        if response.processMs < self.min_processing_ms {
            self.min_processing_ms = response.processMs;
        }
        if response.processMs > self.max_processing_ms {
            self.max_processing_ms = response.processMs;
        }
        self.total_analysis_round_trip_ms = wrapping_add_u128(
            self.total_analysis_round_trip_ms,
            ms_amount(response.analysisRoundTripMs),
        );
        if response.analysisRoundTripMs < self.min_analysis_round_trip_ms {
            self.min_analysis_round_trip_ms = response.analysisRoundTripMs;
        }
        if response.analysisRoundTripMs > self.max_analysis_round_trip_ms {
            self.max_analysis_round_trip_ms = response.analysisRoundTripMs;
        }
    }

    /// Counts one rejected request; wraps around.
    pub fn update_dropped_requests(&mut self)
        ensures
            final(self).dropped_requests == spec_wrapping_add_u128(
                old(self).dropped_requests as int,
                1,
            ),
            final(self).number_of_requests == old(self).number_of_requests,
    {
        self.dropped_requests = wrapping_add_u128(self.dropped_requests, 1);
    }

    /// A total divided by the number of requests, rounded to the
    /// nearest millisecond (half away from zero), saturated at
    /// `i32::MAX`; zero when nothing was served.
    pub open spec fn spec_avg_ms(total: int, requests: int) -> int {
        if requests == 0 {
            0
        } else {
            let v = (2 * total + requests) / (2 * requests);
            if v <= i32::MAX {
                v
            } else {
                i32::MAX as int
            }
        }
    }

    /// The average per-request amount of `total_ms`; see `spec_avg_ms`.
    pub fn avg_ms(&self, total_ms: u128) -> (r: i32)
        ensures
            r == Self::spec_avg_ms(total_ms as int, self.number_of_requests as int),
    {
        if self.number_of_requests == 0 {
            return 0;
        }
        let n = self.number_of_requests;
        let q = total_ms / n;
        let rem = total_ms % n;
        let ghost gt = total_ms as int;
        let ghost gn = n as int;
        proof {
            assert((2 * gt + gn) / (2 * gn) == gt / gn + (if 2 * (gt % gn) >= gn {
                1int
            } else {
                0int
            })) by (nonlinear_arith)
                requires
                    gn >= 1,
                    gt >= 0,
            ;
        }
        let v: u128 = if rem >= n - rem {
            proof {
                if q == u128::MAX {
                    if gn >= 2 {
                        assert(gt / gn < u128::MAX as int) by (nonlinear_arith)
                            requires
                                0 <= gt <= u128::MAX as int,
                                gn >= 2,
                        ;
                    }
                    assert(gn == 1);
                    assert(gt % 1 == 0) by (nonlinear_arith);
                    assert(rem == 0);
                }
            }
            q + 1
        } else {
            q
        };
        if v > i32::MAX as u128 {
            i32::MAX
        } else {
            v as i32
        }
    }

    /// The average inference time per request.
    pub fn avg_inference_ms(&self) -> (r: i32)
        ensures
            r == Self::spec_avg_ms(
                self.total_inference_ms as int,
                self.number_of_requests as int,
            ),
    {
        self.avg_ms(self.total_inference_ms)
    }

    /// The average processing time per request.
    pub fn avg_processing_ms(&self) -> (r: i32)
        ensures
            r == Self::spec_avg_ms(
                self.total_processing_ms as int,
                self.number_of_requests as int,
            ),
    {
        self.avg_ms(self.total_processing_ms)
    }

    /// The average analysis round trip per request.
    pub fn avg_analysis_round_trip_ms(&self) -> (r: i32)
        ensures
            r == Self::spec_avg_ms(
                self.total_analysis_round_trip_ms as int,
                self.number_of_requests as int,
            ),
    {
        self.avg_ms(self.total_analysis_round_trip_ms)
    }

    /// Adopts the initialized detector's name and provider.
    pub fn update_detector_info(&mut self, detector_info: &DetectorInfo)
        ensures
            final(self).model_name == detector_info.model_name,
            (detector_info.execution_provider is CPU ==> final(self).execution_provider_name@
                == "CPU"@),
            (detector_info.execution_provider matches ExecutionProvider::DirectML(i)
                ==> final(self).execution_provider_name@ == "DirectML(GPU "@ + text::spec_decimal(
                i as nat,
            ) + ")"@),
            final(self).number_of_requests == old(self).number_of_requests,
            final(self).dropped_requests == old(self).dropped_requests,
            final(self).version == old(self).version,
            final(self).log_path == old(self).log_path,
            final(self).start_time == old(self).start_time,
            final(self).total_inference_ms == old(self).total_inference_ms,
            final(self).min_inference_ms == old(self).min_inference_ms,
            final(self).max_inference_ms == old(self).max_inference_ms,
            final(self).total_processing_ms == old(self).total_processing_ms,
            final(self).min_processing_ms == old(self).min_processing_ms,
            final(self).max_processing_ms == old(self).max_processing_ms,
            final(self).total_analysis_round_trip_ms == old(self).total_analysis_round_trip_ms,
            final(self).min_analysis_round_trip_ms == old(self).min_analysis_round_trip_ms,
            final(self).max_analysis_round_trip_ms == old(self).max_analysis_round_trip_ms,
    {
        self.model_name = detector_info.model_name.clone();
        self.execution_provider_name = match &detector_info.execution_provider {
            ExecutionProvider::CPU => <String as vstd::string::StringExecFns>::from_str("CPU"),
            ExecutionProvider::DirectML(index) => {
                let mut s = <String as vstd::string::StringExecFns>::from_str("DirectML(GPU ");
                let digits = text::u64_to_string(*index as u64);
                <String as vstd::string::StringExecFns>::append(&mut s, digits.as_str());
                <String as vstd::string::StringExecFns>::append(&mut s, ")");
                proof {
                    assert(("DirectML(GPU "@ + text::spec_decimal(*index as nat)) + ")"@
                        =~= "DirectML(GPU "@ + text::spec_decimal(*index as nat) + ")"@);
                }
                s
            },
        };
    }
}

/// The uptime text for a whole number of seconds.
pub open spec fn spec_uptime_text(secs: int) -> Seq<char> {
    let days = secs / 86400;
    let hours = (secs % 86400) / 3600;
    let minutes = (secs % 3600) / 60;
    text::spec_decimal(days as nat) + " days, "@ + text::spec_decimal(hours as nat) + " hours and "@
        + text::spec_decimal(minutes as nat) + " minutes"@
}

/// Renders an uptime of `secs` seconds in days, hours and minutes.
pub fn format_uptime(secs: u64) -> (r: String)
    ensures
        r@ == spec_uptime_text(secs as int),
{
    let days = secs / 86400;
    let hours = (secs % 86400) / 3600;
    let minutes = (secs % 3600) / 60;
    let mut out = text::u64_to_string(days);
    <String as vstd::string::StringExecFns>::append(&mut out, " days, ");
    let hours_text = text::u64_to_string(hours);
    <String as vstd::string::StringExecFns>::append(&mut out, hours_text.as_str());
    <String as vstd::string::StringExecFns>::append(&mut out, " hours and ");
    let minutes_text = text::u64_to_string(minutes);
    <String as vstd::string::StringExecFns>::append(&mut out, minutes_text.as_str());
    <String as vstd::string::StringExecFns>::append(&mut out, " minutes");
    proof {
        assert(out@ =~= spec_uptime_text(secs as int));
    }
    out
}

} // verus!
