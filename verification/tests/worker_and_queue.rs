use blue_onyx::api::VisionDetectionRequest;
use blue_onyx::api::VisionDetectionResponse;
use blue_onyx::detector::DetectResult;
use blue_onyx::detector::DeviceType;
use blue_onyx::detector::EndpointProvider;
use blue_onyx::detector::ExecutionProvider;
use blue_onyx::server::Metrics;
use blue_onyx::startup_coordinator::DetectorInfo;
use blue_onyx::startup_coordinator::resolve_execution_provider;
use blue_onyx::worker::build_error_response;
use blue_onyx::worker::build_success_response;
use blue_onyx::worker::handle_detect_outcome;
use blue_onyx::worker::effective_min_confidence;
use blue_onyx::worker::min_observed_ms;
use blue_onyx::worker::queue_capacity;
use blue_onyx::worker::request_timed_out;
use blue_onyx::worker::resolve_image_name;
use blue_onyx::worker::resolve_queue_size;

#[test]
fn queue_capacity_formula() {
    assert_eq!(queue_capacity(15000, 50), 300);
    assert_eq!(queue_capacity(1000, 333), 3);
    assert_eq!(queue_capacity(0, 1), 0);
}

#[test]
fn queue_size_prefers_explicit_choice() {
    assert_eq!(resolve_queue_size(Some(7), 15000, 50), 7);
    assert_eq!(resolve_queue_size(None, 15000, 50), 300);
}

#[test]
fn min_observed_takes_the_smallest() {
    assert_eq!(min_observed_ms(&vec![120, 50, 90]), 50);
    assert_eq!(min_observed_ms(&vec![]), u64::MAX);
}

#[test]
fn overload_rejects_immediately() {
    // The bounded queue sized by the capacity formula rejects the
    // excess request at once instead of blocking.
    let capacity = queue_capacity(100, 50);
    assert_eq!(capacity, 2);
    let (sender, _receiver) = crossbeam::channel::bounded::<(
        VisionDetectionRequest,
        tokio::sync::oneshot::Sender<VisionDetectionResponse>,
        std::time::Instant,
    )>(capacity);
    for _ in 0..capacity {
        let (reply, _keep) = tokio::sync::oneshot::channel();
        let request = VisionDetectionRequest {
            min_confidence: 0,
            image_data: vec![1, 2, 3],
            image_name: "image.jpg".to_string(),
        };
        sender
            .try_send((request, reply, std::time::Instant::now()))
            .unwrap();
    }
    let (reply, _keep) = tokio::sync::oneshot::channel();
    let request = VisionDetectionRequest {
        min_confidence: 0,
        image_data: vec![],
        image_name: "image.jpg".to_string(),
    };
    let outcome = sender.try_send((request, reply, std::time::Instant::now()));
    assert!(outcome.is_err());
    assert!(outcome.unwrap_err().is_full());
}

#[test]
fn dropped_receiver_does_not_stop_the_worker() {
    // The reply channel's receiver is gone before the send: the send
    // fails, and the worker goes on to the next item.
    let model = "model.onnx".to_string();
    let (reply, receiver) = tokio::sync::oneshot::channel::<VisionDetectionResponse>();
    drop(receiver);
    let response = build_error_response("decode failed".to_string(), &model);
    assert!(reply.send(response).is_err());
    // Processing continues: the next response is still built and
    // delivered to a live receiver.
    let (reply2, mut receiver2) = tokio::sync::oneshot::channel::<VisionDetectionResponse>();
    let response2 = build_error_response("decode failed".to_string(), &model);
    assert!(reply2.send(response2).is_ok());
    let got = receiver2.try_recv().unwrap();
    assert!(!got.success);
}

#[test]
fn per_request_threshold_counts_only_above_one_percent() {
    assert_eq!(effective_min_confidence(0), None);
    assert_eq!(effective_min_confidence(10_000), None);
    assert_eq!(effective_min_confidence(10_001), Some(10_001));
    assert_eq!(effective_min_confidence(900_000), Some(900_000));
}

#[test]
fn placeholder_image_name_is_randomized() {
    let kept = resolve_image_name("porch.jpg".to_string()).unwrap();
    assert_eq!(kept, "porch.jpg");
    let random = resolve_image_name("image.jpg".to_string()).unwrap();
    assert!(random.ends_with(".jpg"));
    assert!(random.starts_with("image_"));
    assert_ne!(random, "image.jpg");
}

#[test]
fn timeout_comparison() {
    assert!(!request_timed_out(100, 100));
    assert!(request_timed_out(101, 100));
}

#[test]
fn success_response_structure() {
    let result = DetectResult {
        predictions: vec![],
        processing_time_ms: 25,
        decode_image_time_ms: 1,
        resize_image_time_ms: 2,
        pre_processing_time_ms: 3,
        inference_time_ms: 17,
        post_processing_time_ms: 2,
        device_type: DeviceType::CPU,
        endpoint_provider: EndpointProvider::CPU,
    };
    let model = "m.onnx".to_string();
    let r = build_success_response(result, &model);
    assert!(r.success);
    assert_eq!(r.error, None);
    assert_eq!(r.count, 0);
    assert_eq!(r.command, "detect");
    assert_eq!(r.moduleId, "m.onnx");
    assert_eq!(r.executionProvider, "CPU");
    assert!(!r.canUseGPU);
    assert_eq!(r.inferenceMs, 17);
    assert_eq!(r.processMs, 25);
    assert_eq!(r.analysisRoundTripMs, 0);
}

#[test]
fn error_response_structure() {
    let model = "m.onnx".to_string();
    let r = build_error_response("boom".to_string(), &model);
    assert!(!r.success);
    assert_eq!(r.error.as_deref(), Some("boom"));
    assert!(r.predictions.is_empty());
    assert_eq!(r.count, 0);
    assert_eq!(r.inferenceMs, 0);
    assert_eq!(r.processMs, 0);
    assert!(!r.canUseGPU);
    assert_eq!(r.executionProvider, "CPU");
}

#[test]
fn metrics_counters_and_averages() {
    let mut m = Metrics::new("m".to_string(), "CPU".to_string(), None);
    assert_eq!(m.number_of_requests, 0);
    let model = "m".to_string();
    let mut result = DetectResult {
        predictions: vec![],
        processing_time_ms: 20,
        decode_image_time_ms: 0,
        resize_image_time_ms: 0,
        pre_processing_time_ms: 0,
        inference_time_ms: 10,
        post_processing_time_ms: 0,
        device_type: DeviceType::CPU,
        endpoint_provider: EndpointProvider::CPU,
    };
    let r1 = build_success_response(
        DetectResult {
            predictions: vec![],
            ..clone_result(&result)
        },
        &model,
    );
    m.update_metrics(&r1);
    result.inference_time_ms = 30;
    result.processing_time_ms = 40;
    let r2 = build_success_response(result, &model);
    m.update_metrics(&r2);
    assert_eq!(m.number_of_requests, 2);
    assert_eq!(m.total_inference_ms, 40);
    assert_eq!(m.min_inference_ms, 10);
    assert_eq!(m.max_inference_ms, 30);
    assert_eq!(m.avg_inference_ms(), 20);
    assert_eq!(m.avg_processing_ms(), 30);
    m.update_dropped_requests();
    assert_eq!(m.dropped_requests, 1);
}

fn clone_result(r: &DetectResult) -> DetectResult {
    DetectResult {
        predictions: vec![],
        processing_time_ms: r.processing_time_ms,
        decode_image_time_ms: r.decode_image_time_ms,
        resize_image_time_ms: r.resize_image_time_ms,
        pre_processing_time_ms: r.pre_processing_time_ms,
        inference_time_ms: r.inference_time_ms,
        post_processing_time_ms: r.post_processing_time_ms,
        device_type: r.device_type,
        endpoint_provider: r.endpoint_provider,
    }
}

#[test]
fn detector_info_updates_provider_name() {
    let mut m = Metrics::new("init".to_string(), "init".to_string(), None);
    m.update_detector_info(&DetectorInfo {
        model_name: "rt-detrv2-s.onnx".to_string(),
        execution_provider: ExecutionProvider::DirectML(1),
    });
    assert_eq!(m.model_name, "rt-detrv2-s.onnx");
    assert_eq!(m.execution_provider_name, "DirectML(GPU 1)");
    m.update_detector_info(&DetectorInfo {
        model_name: "x".to_string(),
        execution_provider: ExecutionProvider::CPU,
    });
    assert_eq!(m.execution_provider_name, "CPU");
}

#[test]
fn execution_provider_resolution() {
    assert!(matches!(
        resolve_execution_provider(true, true, 0),
        ExecutionProvider::CPU
    ));
    assert!(matches!(
        resolve_execution_provider(false, false, 0),
        ExecutionProvider::CPU
    ));
    assert!(matches!(
        resolve_execution_provider(false, true, 2),
        ExecutionProvider::DirectML(2)
    ));
}

#[test]
fn outcome_handling_never_halts() {
    let model = "m".to_string();
    let ok = handle_detect_outcome(
        Ok(DetectResult {
            predictions: vec![],
            processing_time_ms: 5,
            decode_image_time_ms: 0,
            resize_image_time_ms: 0,
            pre_processing_time_ms: 0,
            inference_time_ms: 4,
            post_processing_time_ms: 1,
            device_type: DeviceType::GPU,
            endpoint_provider: EndpointProvider::DirectML,
        }),
        &model,
    );
    assert!(ok.success);
    assert!(ok.canUseGPU);
    let err = handle_detect_outcome(Err("bad image".to_string()), &model);
    assert!(!err.success);
    assert_eq!(err.error.as_deref(), Some("bad image"));
}
