use blue_onyx::LogLevel;
use blue_onyx::codec::DetectError;
use blue_onyx::detector::Detector;
use blue_onyx::detector::DetectorConfig;
use blue_onyx::detector::DeviceType;
use blue_onyx::detector::EndpointProvider;
use blue_onyx::detector::ObjectDetectionModel;
use blue_onyx::detector::OnnxConfig;
use blue_onyx::detector::build_object_filter;
use blue_onyx::detector::parse_shape_dims;
use blue_onyx::detector::query_image_input_size;
use blue_onyx::download_models::get_all_model_names;
use blue_onyx::download_models::get_all_models;
use blue_onyx::download_models::list_models;
use blue_onyx::image::Image;
use blue_onyx::image::boundary_box_config;
use blue_onyx::image::create_od_image_name;
use blue_onyx::image::create_random_jpeg_name;
use blue_onyx::image::decode_jpeg;
use blue_onyx::image::is_jpeg;
use blue_onyx::image::ImageNameError;
use blue_onyx::level_to_filter_string;
use blue_onyx::log_available_gpus;
use blue_onyx::system_info::Platform;
use blue_onyx::system_info::cpu_model;
use blue_onyx::system_info::gpu_info;
use blue_onyx::system_info::gpu_model;
use blue_onyx::system_info::system_info;

/// A minimal valid baseline JPEG: one gray pixel.
const TINY_JPEG: [u8; 141] = [
    255, 216, 255, 219, 0, 67, 0, 16, 16, 16, 16, 16, 16, 16, 16, 16, 16, 16, 16, 16, 16, 16, 16,
    16, 16, 16, 16, 16, 16, 16, 16, 16, 16, 16, 16, 16, 16, 16, 16, 16, 16, 16, 16, 16, 16, 16,
    16, 16, 16, 16, 16, 16, 16, 16, 16, 16, 16, 16, 16, 16, 16, 16, 16, 16, 16, 16, 16, 16, 16,
    16, 16, 255, 192, 0, 11, 8, 0, 1, 0, 1, 1, 1, 17, 0, 255, 196, 0, 20, 0, 1, 0, 0, 0, 0, 0, 0,
    0, 0, 0, 0, 0, 0, 0, 0, 0, 0, 255, 196, 0, 20, 16, 1, 0, 0, 0, 0, 0, 0, 0, 0, 0, 0, 0, 0, 0,
    0, 0, 0, 255, 218, 0, 8, 1, 1, 0, 0, 63, 0, 63, 255, 217,
];

#[test]
fn print_cuda_gpu_info() {
    gpu_info(true).unwrap();
}

#[test]
fn gpu_enumeration_is_empty_here() {
    assert!(gpu_info(false).unwrap().is_empty());
    assert_eq!(gpu_model(0), "Unknown");
    assert!(log_available_gpus().is_empty());
    system_info().unwrap();
    let _brand = cpu_model();
}

#[test]
fn jpeg_name_checks_are_case_insensitive() {
    assert!(is_jpeg("photo.jpg"));
    assert!(is_jpeg("PHOTO.JPG"));
    assert!(is_jpeg("photo.JPeG"));
    assert!(!is_jpeg("photo.png"));
    assert!(!is_jpeg("photo"));
}

#[test]
fn od_image_names() {
    assert_eq!(
        create_od_image_name("dir/cat.jpg", true).unwrap(),
        "cat_od.jpg"
    );
    assert_eq!(
        create_od_image_name("dir/cat.jpg", false).unwrap(),
        "dir/cat_od.jpg"
    );
    assert_eq!(
        create_od_image_name("cat.video.JPG", true).unwrap(),
        "cat.video_od.JPG"
    );
    assert_eq!(
        create_od_image_name("cat.png", true).unwrap_err(),
        ImageNameError::NotJpeg
    );
}

#[test]
fn random_jpeg_names_are_fresh() {
    let a = create_random_jpeg_name();
    let b = create_random_jpeg_name();
    assert!(a.starts_with("image_"));
    assert!(a.ends_with(".jpg"));
    assert_ne!(a, b);
}

#[test]
fn decode_rejects_garbage() {
    let mut image = Image::empty();
    let garbage = vec![0u8, 1, 2, 3, 4];
    assert!(matches!(
        decode_jpeg(None, &garbage, &mut image),
        Err(DetectError::ImageDecode(_))
    ));
}

#[test]
fn decode_reads_a_real_jpeg() {
    let mut image = Image::empty();
    decode_jpeg(Some("tiny.jpg".to_string()), &TINY_JPEG.to_vec(), &mut image).unwrap();
    assert_eq!(image.width, 1);
    assert_eq!(image.height, 1);
    assert_eq!(image.pixels.len(), 3);
    assert_eq!(image.name.as_deref(), Some("tiny.jpg"));
}

fn config() -> DetectorConfig {
    DetectorConfig {
        object_classes: None,
        object_filter: vec![],
        confidence_threshold: 500_000,
        save_image_path: None,
        save_ref_image: false,
        timeout_ms: 15_000,
        object_detection_onnx_config: OnnxConfig {
            intra_threads: 1,
            inter_threads: 1,
            gpu_index: 0,
            force_cpu: true,
            model: None,
        },
        object_detection_model: ObjectDetectionModel::RtDetrv2,
    }
}

#[test]
fn detector_prepares_planar_input() {
    let mut detector = Detector::new(
        config(),
        "m.onnx".to_string(),
        vec!["person".to_string()],
        2,
        2,
        DeviceType::CPU,
        EndpointProvider::CPU,
    )
    .unwrap();
    let (w, h) = detector
        .prepare_input(&TINY_JPEG.to_vec(), Some("tiny.jpg".to_string()))
        .unwrap();
    assert_eq!((w, h), (1, 1));
    assert_eq!(detector.resized_image.width, 2);
    assert_eq!(detector.resized_image.height, 2);
    assert_eq!(detector.planar_input.len(), 12);
    // Planar layout: each channel plane holds the channel of every pixel.
    let px = &detector.resized_image.pixels;
    assert_eq!(detector.planar_input[0], px[0]);
    assert_eq!(detector.planar_input[4], px[1]);
    assert_eq!(detector.planar_input[8], px[2]);
}

#[test]
fn detector_rejects_bad_input_size() {
    let r = Detector::new(
        config(),
        "m.onnx".to_string(),
        vec!["person".to_string()],
        0,
        640,
        DeviceType::CPU,
        EndpointProvider::CPU,
    );
    assert!(r.is_err());
}

#[test]
fn detector_decodes_outputs_end_to_end() {
    let detector = Detector::new(
        config(),
        "m.onnx".to_string(),
        vec!["person".to_string()],
        640,
        640,
        DeviceType::CPU,
        EndpointProvider::CPU,
    )
    .unwrap();
    let outputs = vec![
        blue_onyx::codec::NamedTensor {
            name: "labels".to_string(),
            value: blue_onyx::codec::Tensor {
                shape: vec![1, 1],
                data: vec![0],
            },
        },
        blue_onyx::codec::NamedTensor {
            name: "boxes".to_string(),
            value: blue_onyx::codec::Tensor {
                shape: vec![1, 1, 4],
                data: vec![10_000_000, 10_000_000, 20_000_000, 20_000_000],
            },
        },
        blue_onyx::codec::NamedTensor {
            name: "scores".to_string(),
            value: blue_onyx::codec::Tensor {
                shape: vec![1, 1],
                data: vec![700_000],
            },
        },
    ];
    // The configured threshold admits the row.
    let preds = detector.detect_outputs(&outputs, None, 640, 640).unwrap();
    assert_eq!(preds.len(), 1);
    // A stricter per-request threshold rejects it.
    let none = detector
        .detect_outputs(&outputs, Some(800_000), 640, 640)
        .unwrap();
    assert!(none.is_empty());
    let inputs = detector.object_detection_model.pre_process();
    assert_eq!(inputs.image_input_name, "images");
    assert_eq!(inputs.orig_size_input_name.as_deref(), Some("orig_target_sizes"));
}

#[test]
fn object_filter_first_match_wins() {
    let classes = vec!["Dog".to_string(), "dog".to_string(), "Cat".to_string()];
    let filter = build_object_filter(&classes, &vec!["DOG".to_string()]).unwrap();
    assert_eq!(filter, vec![true, false, false]);
    let none = build_object_filter(&classes, &vec![]);
    assert!(none.is_none());
    let unknown = build_object_filter(&classes, &vec!["bird".to_string()]).unwrap();
    assert_eq!(unknown, vec![false, false, false]);
}

#[test]
fn input_size_resolution() {
    assert_eq!(
        parse_shape_dims("Tensor { ty: f32, shape: [1, 3, 384, 640] }"),
        Some((640, 384))
    );
    assert_eq!(parse_shape_dims("no shape here"), None);
    assert_eq!(parse_shape_dims("shape: [1, 3, x, 640]"), None);

    let inputs = vec![(
        "images".to_string(),
        "Tensor { ty: f32, shape: [1, 3, 640, 640] }".to_string(),
    )];
    assert_eq!(query_image_input_size(&inputs), (640, 640));
    let fallback_rf = vec![("input".to_string(), "opaque".to_string())];
    assert_eq!(query_image_input_size(&fallback_rf), (384, 384));
    let fallback_yolo = vec![("images".to_string(), "opaque".to_string())];
    assert_eq!(query_image_input_size(&fallback_yolo), (640, 640));
    let nothing: Vec<(String, String)> = vec![];
    assert_eq!(query_image_input_size(&nothing), (640, 640));
}

#[test]
fn overlay_sizing() {
    // Twice the base size: scale two.
    assert_eq!(boundary_box_config(1280, 1280, 640, 640), (2, 32));
    // Tiny images floor at half scale: minimum thickness and legend.
    assert_eq!(boundary_box_config(100, 100, 640, 640), (1, 12));
}

#[test]
fn model_catalogue() {
    let repos = get_all_models();
    assert_eq!(repos.len(), 2);
    assert_eq!(repos[0].0, "xnorpx/rt-detr2-onnx");
    assert_eq!(repos[0].1.len(), 10);
    assert_eq!(repos[1].0, "xnorpx/blue-onyx-yolo5");
    assert_eq!(repos[1].1.len(), 14);
    let names = get_all_model_names();
    assert_eq!(names.len(), 12);
    assert!(names.iter().all(|n| n.ends_with(".onnx")));
    assert_eq!(names[0], "rt-detrv2-s.onnx");
    assert_eq!(list_models(), names);
}

#[test]
fn platform_and_log_levels() {
    assert_eq!(Platform::current(false), Platform::Linux);
    assert_eq!(Platform::current(true), Platform::Windows);
    assert_eq!(Platform::current(false).as_str().trim(), "Linux");
    assert_eq!(level_to_filter_string(LogLevel::Info), "info");
    assert_eq!(level_to_filter_string(LogLevel::Error), "error");
    assert!(LogLevel::Trace < LogLevel::Error);
}

#[test]
fn image_buffer_resize_keeps_prefix() {
    let mut image = Image {
        name: None,
        width: 2,
        height: 1,
        pixels: vec![9, 8, 7],
    };
    image.resize(5);
    assert_eq!(image.pixels, vec![9, 8, 7, 0, 0]);
    image.resize(2);
    assert_eq!(image.pixels, vec![9, 8]);
}

#[test]
fn detector_rejects_empty_class_list() {
    let r = Detector::new(
        config(),
        "m.onnx".to_string(),
        vec![],
        640,
        640,
        DeviceType::CPU,
        EndpointProvider::CPU,
    );
    assert!(matches!(r, Err(DetectError::InvalidClassCount { class_count: 0 })));
}
