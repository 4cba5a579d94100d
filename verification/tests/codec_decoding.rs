use blue_onyx::api::Prediction;
use blue_onyx::codec::DetectError;
use blue_onyx::codec::NamedTensor;
use blue_onyx::codec::PostProcessParams;
use blue_onyx::codec::Tensor;
use blue_onyx::codec::non_maximum_suppression;
use blue_onyx::codec::rf_detr_post_process;
use blue_onyx::codec::rt_detrv2_post_process;
use blue_onyx::codec::yolo5_post_process;
use blue_onyx::geometry::calculate_iou;
use blue_onyx::geometry::iou_at_least;
use blue_onyx::image::planarize;

fn tensor(name: &str, shape: Vec<usize>, data: Vec<i64>) -> NamedTensor {
    NamedTensor {
        name: name.to_string(),
        value: Tensor { shape, data },
    }
}

fn classes(names: &[&str]) -> Vec<String> {
    names.iter().map(|s| s.to_string()).collect()
}

fn pred(x_min: u32, y_min: u32, x_max: u32, y_max: u32) -> Prediction {
    Prediction {
        x_min,
        y_min,
        x_max,
        y_max,
        confidence: 900_000,
        label: "x".to_string(),
    }
}

#[test]
fn iou_exact_values() {
    let a = pred(0, 0, 10, 10);
    let b = pred(0, 0, 10, 10);
    assert_eq!(calculate_iou(&a, &b), 1_000_000);
    let c = pred(5, 0, 15, 10);
    // intersection 50, union 150.
    assert_eq!(calculate_iou(&a, &c), 333_333);
    assert_eq!(calculate_iou(&c, &a), 333_333);
}

#[test]
fn iou_zero_union_is_zero() {
    let a = pred(3, 3, 3, 3);
    let b = pred(7, 7, 7, 7);
    assert_eq!(calculate_iou(&a, &b), 0);
    assert!(!iou_at_least(&a, &b, 500_000));
}

#[test]
fn iou_threshold_is_exact() {
    let a = pred(0, 0, 10, 10);
    let b = pred(0, 5, 10, 15);
    // intersection 50, union 150: exactly one third.
    assert!(!iou_at_least(&a, &b, 500_000));
    assert!(iou_at_least(&a, &b, 333_333));
    assert!(iou_at_least(&a, &a, 1_000_000));
}

fn labeled(label: &str, confidence: i64, x_min: u32, x_max: u32) -> Prediction {
    Prediction {
        x_min,
        y_min: 0,
        x_max,
        y_max: 10,
        confidence,
        label: label.to_string(),
    }
}

#[test]
fn nms_drops_overlapping_same_label() {
    let strong = labeled("cat", 900_000, 0, 10);
    let weak_overlap = labeled("cat", 800_000, 1, 11);
    let other_label = labeled("dog", 700_000, 0, 10);
    let kept = non_maximum_suppression(vec![weak_overlap, strong, other_label], 500_000);
    assert_eq!(kept.len(), 2);
    assert_eq!(kept[0].label, "cat");
    assert_eq!(kept[0].confidence, 900_000);
    assert_eq!(kept[1].label, "dog");
    // The survivors of one label never overlap at half IoU.
    for i in 0..kept.len() {
        for j in (i + 1)..kept.len() {
            if kept[i].label == kept[j].label {
                assert!(calculate_iou(&kept[i], &kept[j]) < 500_000);
            }
        }
    }
}

#[test]
fn nms_groups_by_label_and_sorts_lexicographically() {
    // Suppression is keyed by the label text, wherever the boxes came
    // from, and the output comes back in label order.
    let first = labeled("cat", 900_000, 0, 10);
    let twin = labeled("cat", 800_000, 0, 10);
    let unrelated = labeled("ant", 700_000, 50, 60);
    let kept = non_maximum_suppression(vec![first, twin, unrelated], 500_000);
    assert_eq!(kept.len(), 2);
    assert_eq!(kept[0].label, "ant");
    assert_eq!(kept[1].label, "cat");
    assert_eq!(kept[1].confidence, 900_000);
}

#[test]
fn format_a_keeps_above_threshold_only() {
    let outputs = vec![
        tensor("labels", vec![1, 2], vec![0, 1]),
        tensor(
            "boxes",
            vec![1, 2, 4],
            vec![
                10_000_000, 20_000_000, 110_000_000, 220_000_000, //
                5_000_000, 5_000_000, 50_000_000, 50_000_000,
            ],
        ),
        tensor("scores", vec![1, 2], vec![900_000, 400_000]),
    ];
    let cls = classes(&["person", "car"]);
    let preds = rt_detrv2_post_process(&outputs, 500_000, 640, 640, 640, 640, &None, &cls).unwrap();
    assert_eq!(preds.len(), 1);
    assert_eq!(preds[0].label, "person");
    assert_eq!(preds[0].confidence, 900_000);
    assert_eq!(
        (preds[0].x_min, preds[0].y_min, preds[0].x_max, preds[0].y_max),
        (10, 20, 110, 220)
    );
}

#[test]
fn format_a_scales_by_resize_factors() {
    let outputs = vec![
        tensor("labels", vec![1, 1], vec![0]),
        tensor(
            "boxes",
            vec![1, 1, 4],
            vec![10_000_000, 10_000_000, 20_000_000, 20_000_000],
        ),
        tensor("scores", vec![1, 1], vec![600_000]),
    ];
    let cls = classes(&["person"]);
    // Original image twice the model input: corners double.
    let preds =
        rt_detrv2_post_process(&outputs, 500_000, 1280, 1280, 640, 640, &None, &cls).unwrap();
    assert_eq!(
        (preds[0].x_min, preds[0].y_min, preds[0].x_max, preds[0].y_max),
        (20, 20, 40, 40)
    );
}

#[test]
fn format_a_filter_admits_by_class() {
    let outputs = vec![
        tensor("labels", vec![1, 2], vec![0, 1]),
        tensor(
            "boxes",
            vec![1, 2, 4],
            vec![
                10_000_000, 20_000_000, 110_000_000, 220_000_000, //
                5_000_000, 5_000_000, 50_000_000, 50_000_000,
            ],
        ),
        tensor("scores", vec![1, 2], vec![900_000, 800_000]),
    ];
    let cls = classes(&["person", "car"]);
    let filter = Some(vec![false, true]);
    let preds =
        rt_detrv2_post_process(&outputs, 500_000, 640, 640, 640, 640, &filter, &cls).unwrap();
    assert_eq!(preds.len(), 1);
    assert_eq!(preds[0].label, "car");
}

#[test]
fn format_a_errors() {
    let cls = classes(&["person"]);
    // Missing output tensor.
    let missing = vec![tensor("labels", vec![1, 1], vec![0])];
    assert!(matches!(
        rt_detrv2_post_process(&missing, 500_000, 640, 640, 640, 640, &None, &cls),
        Err(DetectError::MissingOutput)
    ));
    // A class id beyond the class list fails loudly.
    let bad_label = vec![
        tensor("labels", vec![1, 1], vec![7]),
        tensor("boxes", vec![1, 1, 4], vec![0, 0, 0, 0]),
        tensor("scores", vec![1, 1], vec![900_000]),
    ];
    assert!(matches!(
        rt_detrv2_post_process(&bad_label, 500_000, 640, 640, 640, 640, &None, &cls),
        Err(DetectError::LabelOutOfRange { label: 7, .. })
    ));
    // A shape that does not match the layout.
    let bad_shape = vec![
        tensor("labels", vec![2], vec![0, 0]),
        tensor("boxes", vec![1, 2, 4], vec![0; 8]),
        tensor("scores", vec![1, 2], vec![0, 0]),
    ];
    assert!(matches!(
        rt_detrv2_post_process(&bad_shape, 500_000, 640, 640, 640, 640, &None, &cls),
        Err(DetectError::UnexpectedShape { .. })
    ));
}

#[test]
fn format_b_takes_ranked_pairs_until_threshold() {
    let cls = classes(&["person", "car"]);
    let outputs = vec![
        tensor(
            "dets",
            vec![1, 1, 4],
            vec![500_000, 500_000, 200_000, 400_000],
        ),
        tensor("labels", vec![1, 1, 2], vec![900_000, 300_000]),
    ];
    let filter = None;
    let params = PostProcessParams {
        confidence_threshold: 500_000,
        orig_width: 100,
        orig_height: 200,
        input_width: 640,
        input_height: 640,
        object_filter: &filter,
        object_classes: &cls,
    };
    let preds = rf_detr_post_process(&outputs, &params).unwrap();
    assert_eq!(preds.len(), 1);
    assert_eq!(preds[0].label, "person");
    assert_eq!(preds[0].confidence, 900_000);
    // center (50, 100), size (20, 80).
    assert_eq!(
        (preds[0].x_min, preds[0].y_min, preds[0].x_max, preds[0].y_max),
        (40, 60, 60, 140)
    );
}

#[test]
fn format_b_unknown_class_fails_loudly() {
    // The model scores three classes but the class list knows one:
    // a kept pair beyond the list is a class-count mismatch.
    let cls = classes(&["person"]);
    let outputs = vec![
        tensor(
            "dets",
            vec![1, 1, 4],
            vec![500_000, 500_000, 200_000, 200_000],
        ),
        tensor("labels", vec![1, 1, 3], vec![100_000, 200_000, 900_000]),
    ];
    let filter = None;
    let params = PostProcessParams {
        confidence_threshold: 500_000,
        orig_width: 100,
        orig_height: 100,
        input_width: 640,
        input_height: 640,
        object_filter: &filter,
        object_classes: &cls,
    };
    assert!(matches!(
        rf_detr_post_process(&outputs, &params),
        Err(DetectError::LabelOutOfRange {
            label: 2,
            class_count: 1
        })
    ));
}

#[test]
fn format_b_filter_skips_known_rejected_class() {
    let cls = classes(&["person", "car"]);
    let outputs = vec![
        tensor(
            "dets",
            vec![1, 2, 4],
            vec![
                500_000, 500_000, 200_000, 200_000, //
                250_000, 250_000, 100_000, 100_000,
            ],
        ),
        tensor(
            "labels",
            vec![1, 2, 2],
            vec![900_000, 100_000, 100_000, 800_000],
        ),
    ];
    let filter = Some(vec![false, true]);
    let params = PostProcessParams {
        confidence_threshold: 500_000,
        orig_width: 100,
        orig_height: 100,
        input_width: 640,
        input_height: 640,
        object_filter: &filter,
        object_classes: &cls,
    };
    let preds = rf_detr_post_process(&outputs, &params).unwrap();
    // Query 0 scores class 0 (rejected), query 1 scores class 1 (kept).
    assert_eq!(preds.len(), 1);
    assert_eq!(preds[0].label, "car");
    assert_eq!(preds[0].confidence, 800_000);
}

#[test]
fn format_c_keeps_best_class_and_suppresses() {
    let cls = classes(&["a", "b"]);
    // Two rows, features = 7: cx, cy, w, h, objectness, two class scores.
    let outputs = vec![tensor(
        "out",
        vec![1, 2, 7],
        vec![
            100_000_000, 100_000_000, 40_000_000, 40_000_000, 900_000, 1_000_000, 3_000_000, //
            101_000_000, 100_000_000, 40_000_000, 40_000_000, 800_000, 1_000_000, 3_000_000,
        ],
    )];
    let preds = yolo5_post_process(&outputs, 500_000, 640, 640, 640, 640, &None, &cls).unwrap();
    // Both rows pick class 1 and overlap almost fully: one survivor.
    assert_eq!(preds.len(), 1);
    assert_eq!(preds[0].label, "b");
    assert_eq!(preds[0].confidence, 900_000);
    assert_eq!(
        (preds[0].x_min, preds[0].y_min, preds[0].x_max, preds[0].y_max),
        (80, 80, 120, 120)
    );
}

#[test]
fn format_c_threshold_and_shape_errors() {
    let cls = classes(&["a", "b"]);
    let quiet = vec![tensor(
        "out",
        vec![1, 1, 7],
        vec![100_000_000, 100_000_000, 40_000_000, 40_000_000, 400_000, 1_000_000, 3_000_000],
    )];
    let preds = yolo5_post_process(&quiet, 500_000, 640, 640, 640, 640, &None, &cls).unwrap();
    assert_eq!(preds.len(), 0);

    let wrong = vec![tensor("out", vec![1, 1, 6], vec![0; 6])];
    match yolo5_post_process(&wrong, 500_000, 640, 640, 640, 640, &None, &cls) {
        Err(DetectError::UnexpectedShape {
            actual,
            expected_features,
        }) => {
            assert_eq!(actual, vec![1, 1, 6]);
            assert_eq!(expected_features, 7);
        }
        other => panic!("unexpected outcome: {:?}", other.is_ok()),
    }

    let empty: Vec<NamedTensor> = vec![];
    assert!(matches!(
        yolo5_post_process(&empty, 500_000, 640, 640, 640, 640, &None, &cls),
        Err(DetectError::MissingOutput)
    ));
}

#[test]
fn format_c_rank_two_tensor_is_accepted() {
    let cls = classes(&["a"]);
    let outputs = vec![tensor(
        "out",
        vec![1, 6],
        vec![100_000_000, 100_000_000, 40_000_000, 40_000_000, 900_000, 1_000_000],
    )];
    let preds = yolo5_post_process(&outputs, 500_000, 640, 640, 640, 640, &None, &cls).unwrap();
    assert_eq!(preds.len(), 1);
    assert_eq!(preds[0].label, "a");
}

#[test]
fn planar_layout_scatters_channels() {
    let pixels = vec![1u8, 2, 3, 4, 5, 6];
    let mut out = Vec::new();
    planarize(&pixels, 2, 1, &mut out);
    assert_eq!(out, vec![1, 4, 2, 5, 3, 6]);
}

#[test]
fn degenerate_boxes_are_clamped_not_inverted() {
    // A first-format box with inverted corners comes out ordered.
    let outputs = vec![
        tensor("labels", vec![1, 1], vec![0]),
        tensor(
            "boxes",
            vec![1, 1, 4],
            vec![50_000_000, 50_000_000, 10_000_000, 10_000_000],
        ),
        tensor("scores", vec![1, 1], vec![900_000]),
    ];
    let cls = classes(&["person"]);
    let preds = rt_detrv2_post_process(&outputs, 500_000, 640, 640, 640, 640, &None, &cls).unwrap();
    assert_eq!(preds.len(), 1);
    assert!(preds[0].x_max >= preds[0].x_min);
    assert!(preds[0].y_max >= preds[0].y_min);
    assert_eq!((preds[0].x_min, preds[0].x_max), (50, 50));
}
