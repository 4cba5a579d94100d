//! The worker's decision layer: queue sizing, per-request threshold
//! and name rules, and the uniform response records. The thread, the
//! bounded queue and the reply channels live with the caller, which
//! runs the blocking loop around these functions.

use vstd::prelude::*;
use crate::api::VisionDetectionResponse;
use crate::detector::DetectResult;
use crate::detector::DeviceType;
use crate::detector::EndpointProvider;
use crate::text;

verus! {

/// A queue longer than what can be drained within the request timeout
/// only holds work the caller will discard: the capacity is the
/// timeout divided by the fastest observed processing time, saturated
/// to the pointer size.
pub fn queue_capacity(request_timeout_ms: u64, min_processing_time_ms: u64) -> (r: usize)
    requires
        min_processing_time_ms >= 1,
    ensures
        ({
            let q = request_timeout_ms as int / min_processing_time_ms as int;
            r == (if q <= usize::MAX {
                q
            } else {
                usize::MAX as int
            })
        }),
{
    let q = request_timeout_ms / min_processing_time_ms;
    if q > usize::MAX as u64 {
        usize::MAX
    } else {
        q as usize
    }
}

/// The queue size to use: the caller's explicit choice, or the
/// capacity estimated from the timeout and the fastest observed run.
pub fn resolve_queue_size(
    worker_queue_size: Option<usize>,
    request_timeout_ms: u64,
    min_processing_time_ms: u64,
) -> (r: usize)
    requires
        min_processing_time_ms >= 1,
    ensures
        worker_queue_size matches Some(size) ==> r == size,
        worker_queue_size is None ==> ({
            let q = request_timeout_ms as int / min_processing_time_ms as int;
            r == (if q <= usize::MAX {
                q
            } else {
                usize::MAX as int
            })
        }),
{
    match worker_queue_size {
        Some(size) => size,
        None => queue_capacity(request_timeout_ms, min_processing_time_ms),
    }
}

/// The smallest of the observed durations, or `u64::MAX` when none
/// were observed.
pub fn min_observed_ms(times: &Vec<u64>) -> (r: u64)
    ensures
        forall|i: int| 0 <= i < times@.len() ==> r <= #[trigger] times@[i],
        times@.len() == 0 ==> r == u64::MAX,
        times@.len() > 0 ==> exists|i: int| 0 <= i < times@.len() && r == #[trigger] times@[i],
{
    let n = times.len();
    let mut best: u64 = u64::MAX;
    let mut i: usize = 0;
    while i < n
        invariant
            0 <= i <= n,
            n == times@.len(),
            forall|j: int| 0 <= j < i ==> best <= #[trigger] times@[j],
            i == 0 ==> best == u64::MAX,
            i > 0 ==> exists|j: int| 0 <= j < i && best == #[trigger] times@[j],
        decreases n - i,
    {
        if times[i] < best {
            best = times[i];
            assert(best == times@[i as int]);
        } else {
            proof {
                if i == 0 {
                    assert(times@[0] == u64::MAX);
                }
            }
        }
        i = i + 1;
    }
    best
}

/// A per-request confidence floor counts only above one percent;
/// anything at or below 10_000 micros means "use the configured
/// default".
pub fn effective_min_confidence(min_confidence: i64) -> (r: Option<i64>)
    ensures
        r == (if min_confidence > 10_000 {
            Some(min_confidence)
        } else {
            None::<i64>
        }),
{
    if min_confidence > 10_000 {
        Some(min_confidence)
    } else {
        None
    }
}

/// The name under which a request's image is handled: the placeholder
/// `image.jpg` is replaced by a fresh random JPEG name, any other name
/// is kept.
pub fn resolve_image_name(image_name: String) -> (r: Option<String>)
    ensures
        r matches Some(n),
        image_name@ != "image.jpg"@ ==> r == Some(image_name),
        image_name@ == "image.jpg"@ ==> (r matches Some(n) && crate::image::spec_ends_with(
            n@,
            ".jpg"@,
        )),
{
    if text::str_eq(image_name.as_str(), "image.jpg") {
        Some(crate::image::create_random_jpeg_name())
    } else {
        Some(image_name)
    }
}

/// Whether the request has outlived its timeout; the response is still
/// delivered, this only drives the warning.
pub fn request_timed_out(request_time_ms: u64, request_timeout_ms: u64) -> (r: bool)
    ensures
        r == (request_time_ms > request_timeout_ms),
{
    request_time_ms > request_timeout_ms
}

/// A millisecond reading as an `i32` field: saturated at `i32::MAX`.
pub open spec fn spec_ms_field(ms: int) -> int {
    if ms <= i32::MAX {
        ms
    } else {
        i32::MAX as int
    }
}

fn ms_field(ms: u64) -> (r: i32)
    ensures
        r == spec_ms_field(ms as int),
{
    if ms > i32::MAX as u64 {
        i32::MAX
    } else {
        ms as i32
    }
}

/// The response for a finished detection: the success structure with
/// the predictions, their count, the provider and the timings.
pub fn build_success_response(detect_result: DetectResult, model_name: &String) -> (r:
    VisionDetectionResponse)
    ensures
        r.success == true,
        r.message@ == Seq::<char>::empty(),
        r.error is None,
        r.predictions == detect_result.predictions,
        r.count == spec_ms_field(detect_result.predictions@.len() as int),
        r.command@ == "detect"@,
        r.moduleId == model_name,
        (detect_result.endpoint_provider is CPU ==> r.executionProvider@ == "CPU"@),
        (detect_result.endpoint_provider is DirectML ==> r.executionProvider@ == "DirectML"@),
        r.canUseGPU == (detect_result.device_type is GPU),
        r.inferenceMs == spec_ms_field(detect_result.inference_time_ms as int),
        r.processMs == spec_ms_field(detect_result.processing_time_ms as int),
        r.analysisRoundTripMs == 0,
{
    let count: i32 = if detect_result.predictions.len() > i32::MAX as usize {
        i32::MAX
    } else {
        detect_result.predictions.len() as i32
    };
    let can_use_gpu = match detect_result.device_type {
        DeviceType::GPU => true,
        DeviceType::CPU => false,
    };
    let provider = match detect_result.endpoint_provider {
        EndpointProvider::CPU => "CPU",
        EndpointProvider::DirectML => "DirectML",
    };
    VisionDetectionResponse {
        success: true,
        message: String::new(),
        error: None,
        predictions: detect_result.predictions,
        count,
        command: <String as vstd::string::StringExecFns>::from_str("detect"),
        moduleId: model_name.clone(),
        executionProvider: <String as vstd::string::StringExecFns>::from_str(provider),
        canUseGPU: can_use_gpu,
        inferenceMs: ms_field(detect_result.inference_time_ms),
        processMs: ms_field(detect_result.processing_time_ms),
        analysisRoundTripMs: 0,
    }
}

/// The response for one dequeued request, whatever became of it: the
/// success structure around a finished detection, the failure
/// structure around an error's words. A failed detection never stops
/// the worker; it becomes a response like any other.
pub fn handle_detect_outcome(outcome: Result<DetectResult, String>, model_name: &String) -> (r:
    VisionDetectionResponse)
    ensures
        outcome matches Ok(d) ==> {
            &&& r.success == true
            &&& r.predictions == d.predictions
            &&& r.count == spec_ms_field(d.predictions@.len() as int)
            &&& r.inferenceMs == spec_ms_field(d.inference_time_ms as int)
            &&& r.processMs == spec_ms_field(d.processing_time_ms as int)
            &&& r.canUseGPU == (d.device_type is GPU)
            &&& r.error is None
        },
        outcome matches Err(words) ==> {
            &&& r.success == false
            &&& (r.error matches Some(e) && e == words)
            &&& r.predictions@.len() == 0
            &&& r.count == 0
            &&& r.inferenceMs == 0
            &&& r.processMs == 0
        },
        r.moduleId == model_name,
        r.command@ == "detect"@,
        r.analysisRoundTripMs == 0,
{
    match outcome {
        Ok(detect_result) => build_success_response(detect_result, model_name),
        Err(words) => build_error_response(words, model_name),
    }
}

/// The response for a failed detection: the failure structure — no
/// predictions, the error text filled in, zeroed timings.
pub fn build_error_response(error_text: String, model_name: &String) -> (r:
    VisionDetectionResponse)
    ensures
        r.success == false,
        r.message@ == "Failboat"@,
        r.error matches Some(e) && e == error_text,
        r.predictions@.len() == 0,
        r.count == 0,
        r.command@ == "detect"@,
        r.moduleId == model_name,
        r.executionProvider@ == "CPU"@,
        r.canUseGPU == false,
        r.inferenceMs == 0,
        r.processMs == 0,
        r.analysisRoundTripMs == 0,
{
    VisionDetectionResponse {
        success: false,
        message: <String as vstd::string::StringExecFns>::from_str("Failboat"),
        error: Some(error_text),
        predictions: Vec::new(),
        count: 0,
        command: <String as vstd::string::StringExecFns>::from_str("detect"),
        moduleId: model_name.clone(),
        executionProvider: <String as vstd::string::StringExecFns>::from_str("CPU"),
        canUseGPU: false,
        inferenceMs: 0,
        processMs: 0,
        analysisRoundTripMs: 0,
    }
}

} // verus!
