//! The detector: its configuration, the per-architecture dispatch, the
//! class filter, model-input-size resolution, and the verified stages
//! of the detection pipeline around the inference call.

use vstd::prelude::*;
use vstd::string::StrSliceExecFns;
use crate::api::Prediction;
use crate::codec;
use crate::codec::DetectError;
use crate::codec::NamedTensor;
use crate::codec::PostProcessParams;
use crate::image::Image;
use crate::image::ImageResizer;
use crate::text;

verus! {

/// Which device runs the inference.
#[derive(Debug, Clone, Copy, PartialEq, Eq, Structural)]
pub enum DeviceType {
    CPU,
    GPU,
}

impl DeviceType {
    /// The device's display name.
    pub fn as_str(&self) -> (r: &'static str)
        ensures
            self is CPU ==> r@ == "CPU"@,
            self is GPU ==> r@ == "GPU"@,
    {
        match self {
            DeviceType::CPU => "CPU",
            DeviceType::GPU => "GPU",
        }
    }
}

/// Which execution provider serves the session.
#[derive(Debug, Clone, Copy, PartialEq, Eq, Structural)]
pub enum EndpointProvider {
    CPU,
    DirectML,
}

impl EndpointProvider {
    /// The provider's display name.
    pub fn as_str(&self) -> (r: &'static str)
        ensures
            self is CPU ==> r@ == "CPU"@,
            self is DirectML ==> r@ == "DirectML"@,
    {
        match self {
            EndpointProvider::CPU => "CPU",
            EndpointProvider::DirectML => "DirectML",
        }
    }
}

/// Execution provider for the detector, with the GPU index where one
/// applies.
#[derive(Debug, Clone)]
pub enum ExecutionProvider {
    CPU,
    DirectML(usize),
}

/// Session construction settings.
#[derive(Debug, Clone)]
pub struct OnnxConfig {
    pub intra_threads: usize,
    pub inter_threads: usize,
    pub gpu_index: i32,
    pub force_cpu: bool,
    pub model: Option<String>,
}

/// Which output encoding the model emits.
#[derive(Debug, Clone, PartialEq, Eq, Structural)]
pub enum ObjectDetectionModel {
    RtDetrv2,
    RfDetr,
    Yolo5,
}

impl Default for ObjectDetectionModel {
    /// The second-format family.
    fn default() -> (r: Self)
        ensures
            r is RfDetr,
    {
        ObjectDetectionModel::RfDetr
    }
}

/// The named inputs a model family wants: the image tensor's name, and
/// the original-size tensor's name where the family takes one.
pub struct ModelInputs {
    pub image_input_name: String,
    pub orig_size_input_name: Option<String>,
}

impl ObjectDetectionModel {
    /// The model family's display name.
    pub fn as_str(&self) -> (r: &'static str)
        ensures
            self is RtDetrv2 ==> r@ == "rt-detrv2"@,
            self is RfDetr ==> r@ == "rf-detr"@,
            self is Yolo5 ==> r@ == "yolo5"@,
    {
        match self {
            ObjectDetectionModel::RtDetrv2 => "rt-detrv2",
            ObjectDetectionModel::RfDetr => "rf-detr",
            ObjectDetectionModel::Yolo5 => "yolo5",
        }
    }

    /// The named inputs to feed this family: first-format models take
    /// the image as `images` plus the original size as
    /// `orig_target_sizes`; second-format models take `input`; third
    /// take `images`.
    pub fn pre_process(&self) -> (r: ModelInputs)
        ensures
            self is RtDetrv2 ==> r.image_input_name@ == "images"@ && (r.orig_size_input_name
                matches Some(n) && n@ == "orig_target_sizes"@),
            self is RfDetr ==> r.image_input_name@ == "input"@ && r.orig_size_input_name is None,
            self is Yolo5 ==> r.image_input_name@ == "images"@ && r.orig_size_input_name is None,
    {
        match self {
            ObjectDetectionModel::RtDetrv2 => ModelInputs {
                image_input_name: <String as vstd::string::StringExecFns>::from_str("images"),
                orig_size_input_name: Some(
                    <String as vstd::string::StringExecFns>::from_str("orig_target_sizes"),
                ),
            },
            ObjectDetectionModel::RfDetr => ModelInputs {
                image_input_name: <String as vstd::string::StringExecFns>::from_str("input"),
                orig_size_input_name: None,
            },
            ObjectDetectionModel::Yolo5 => ModelInputs {
                image_input_name: <String as vstd::string::StringExecFns>::from_str("images"),
                orig_size_input_name: None,
            },
        }
    }

    /// Decodes the model's output tensors with the family's rules; see
    /// the per-family decoders for the exact statements.
    pub fn post_process(&self, outputs: &Vec<NamedTensor>, params: &PostProcessParams) -> (r:
        Result<Vec<Prediction>, DetectError>)
        requires
            params.input_width >= 1,
            params.input_height >= 1,
            1 <= params.object_classes@.len() <= 0x1000_0000,
            (codec::spec_filter_view(params.object_filter) matches Some(f) ==> f.len()
                == params.object_classes@.len()),
        ensures
            self is RtDetrv2 ==> spec_rt_detrv2_result(
                r,
                outputs@,
                params.confidence_threshold as int,
                params.orig_width as int,
                params.orig_height as int,
                params.input_width as int,
                params.input_height as int,
                codec::spec_filter_view(params.object_filter),
                params.object_classes@,
            ),
            self is RfDetr ==> spec_rf_detr_result(
                r,
                outputs@,
                params.confidence_threshold as int,
                params.orig_width as int,
                params.orig_height as int,
                codec::spec_filter_view(params.object_filter),
                params.object_classes@,
            ),
            self is Yolo5 ==> spec_yolo5_result(
                r,
                outputs@,
                params.confidence_threshold as int,
                params.orig_width as int,
                params.orig_height as int,
                params.input_width as int,
                params.input_height as int,
                codec::spec_filter_view(params.object_filter),
                params.object_classes@,
            ),
    {
        match self {
            ObjectDetectionModel::RtDetrv2 => codec::rt_detrv2_post_process(
                outputs,
                params.confidence_threshold,
                params.orig_width,
                params.orig_height,
                params.input_width,
                params.input_height,
                params.object_filter,
                params.object_classes,
            ),
            ObjectDetectionModel::RfDetr => codec::rf_detr_post_process(outputs, params),
            ObjectDetectionModel::Yolo5 => codec::yolo5_post_process(
                outputs,
                params.confidence_threshold,
                params.orig_width,
                params.orig_height,
                params.input_width,
                params.input_height,
                params.object_filter,
                params.object_classes,
            ),
        }
    }
}

/// What first-format decoding returns; the conjunction of
/// `rt_detrv2_post_process`'s promises.
pub open spec fn spec_rt_detrv2_result(
    r: Result<Vec<Prediction>, DetectError>,
    outputs: Seq<NamedTensor>,
    thr: int,
    ow: int,
    oh: int,
    iw: int,
    ih: int,
    filter: Option<Seq<bool>>,
    classes: Seq<String>,
) -> bool {
    let lt = codec::spec_find_tensor(outputs, "labels"@);
    let bt = codec::spec_find_tensor(outputs, "boxes"@);
    let st = codec::spec_find_tensor(outputs, "scores"@);
    &&& ((r matches Err(e) && e is MissingOutput) <==> (lt is None || bt is None || st is None))
    &&& (lt matches Some(li) ==> bt matches Some(bi) ==> st matches Some(si) ==> {
        let labels = outputs[li].value;
        let boxes = outputs[bi].value;
        let scores = outputs[si].value;
        let n = labels.shape@[1] as int;
        &&& ((r matches Err(e) && e is UnexpectedShape) <==> !codec::spec_a_layout_ok(
            &labels,
            &boxes,
            &scores,
        ))
        &&& (r matches Err(e) ==> e matches DetectError::UnexpectedShape {
            actual,
            expected_features,
        } ==> actual@ == labels.shape@ && expected_features == 4)
        &&& (r is Ok <==> (codec::spec_a_layout_ok(&labels, &boxes, &scores) && !(exists|i: int|
            0 <= i < n && codec::spec_a_bad_label(
                labels.data@,
                scores.data@,
                classes.len() as int,
                thr,
                i,
            ))))
        &&& (codec::spec_a_layout_ok(&labels, &boxes, &scores) ==> {
            &&& ((r matches Err(e) && e is LabelOutOfRange) <==> (exists|i: int|
                0 <= i < n && codec::spec_a_bad_label(
                    labels.data@,
                    scores.data@,
                    classes.len() as int,
                    thr,
                    i,
                )))
            &&& (r matches Ok(preds) ==> preds@ == codec::spec_a_preds(
                labels.data@,
                boxes.data@,
                scores.data@,
                filter,
                classes,
                thr,
                ow,
                oh,
                iw,
                ih,
                n,
            ))
        })
    })
}

/// What second-format decoding returns; the conjunction of
/// `rf_detr_post_process`'s promises.
pub open spec fn spec_rf_detr_result(
    r: Result<Vec<Prediction>, DetectError>,
    outputs: Seq<NamedTensor>,
    thr: int,
    ow: int,
    oh: int,
    filter: Option<Seq<bool>>,
    classes: Seq<String>,
) -> bool {
    let dt = codec::spec_find_tensor(outputs, "dets"@);
    let lt = codec::spec_find_tensor(outputs, "labels"@);
    &&& ((r matches Err(e) && e is MissingOutput) <==> (dt is None || lt is None))
    &&& (dt matches Some(di) ==> lt matches Some(li) ==> {
        let dets = outputs[di].value;
        let labels = outputs[li].value;
        let q = dets.shape@[1] as int;
        let c = labels.shape@[2] as int;
        let sorted = codec::spec_sort_scored(codec::spec_b_pairs(labels.data@, q, c));
        let limit = if q * c < 300 {
            q * c
        } else {
            300
        };
        let bad = codec::spec_b_has_bad_class(sorted, filter, classes.len() as int, thr, 0, limit);
        &&& ((r matches Err(e) && e is UnexpectedShape) <==> !codec::spec_b_layout_ok(
            &dets,
            &labels,
        ))
        &&& (r matches Err(e) ==> e matches DetectError::UnexpectedShape {
            actual,
            expected_features,
        } ==> actual@ == labels.shape@ && expected_features == 4)
        &&& ((r matches Err(e) && e is LabelOutOfRange) <==> (codec::spec_b_layout_ok(
            &dets,
            &labels,
        ) && bad))
        &&& (r is Ok <==> (codec::spec_b_layout_ok(&dets, &labels) && !bad))
        &&& (r matches Ok(preds) ==> preds@ =~= codec::spec_b_preds(
            sorted,
            dets.data@,
            filter,
            classes,
            thr,
            ow,
            oh,
            0,
            limit,
        ))
    })
    &&& (r matches Ok(preds) ==> forall|j: int|
        0 <= j < preds@.len() ==> crate::geometry::spec_wf_box(&preds@[j]))
}

/// What third-format decoding returns; the conjunction of
/// `yolo5_post_process`'s promises.
pub open spec fn spec_yolo5_result(
    r: Result<Vec<Prediction>, DetectError>,
    outputs: Seq<NamedTensor>,
    thr: int,
    ow: int,
    oh: int,
    iw: int,
    ih: int,
    filter: Option<Seq<bool>>,
    classes: Seq<String>,
) -> bool {
    &&& ((r matches Err(e) && e is MissingOutput) <==> outputs.len() == 0)
    &&& (r is Ok <==> (outputs.len() >= 1 && codec::spec_c_layout_ok(
        &outputs[0].value,
        classes.len() as int,
    )))
    &&& (outputs.len() >= 1 ==> {
        let t = outputs[0].value;
        &&& ((r matches Err(e) && e is UnexpectedShape) <==> !codec::spec_c_layout_ok(
            &t,
            classes.len() as int,
        ))
        &&& (r matches Err(e) ==> e matches DetectError::UnexpectedShape {
            actual,
            expected_features,
        } ==> actual@ == t.shape@ && expected_features == 5 + classes.len())
        &&& (r matches Ok(preds) ==> preds@ == codec::spec_nms(
            codec::spec_c_preds(
                t.data@,
                5 + classes.len() as int,
                filter,
                classes,
                thr,
                ow,
                oh,
                iw,
                ih,
                codec::spec_c_rows(&t),
            ),
            500_000,
        ))
    })
    &&& (r matches Ok(preds) ==> forall|j: int|
        0 <= j < preds@.len() ==> crate::geometry::spec_wf_box(&preds@[j]))
}

/// Everything a detector is built from.
#[derive(Debug, Clone)]
pub struct DetectorConfig {
    pub object_classes: Option<String>,
    pub object_filter: Vec<String>,
    /// Default confidence floor in micros.
    pub confidence_threshold: i64,
    pub save_image_path: Option<String>,
    pub save_ref_image: bool,
    /// Request timeout in milliseconds.
    pub timeout_ms: u64,
    pub object_detection_onnx_config: OnnxConfig,
    pub object_detection_model: ObjectDetectionModel,
}

/// The index of the first class whose lowercased name equals the
/// lowercased filter entry, if any.
pub open spec fn spec_first_class_match(classes: Seq<String>, name: Seq<char>, from: int) -> Option<
    int,
>
    decreases classes.len() - from,
{
    if from < 0 || from >= classes.len() {
        None
    } else if crate::image::lower_of(classes[from]@) == crate::image::lower_of(name) {
        Some(from)
    } else {
        spec_first_class_match(classes, name, from + 1)
    }
}

/// The filter mask entry for class `i`: true when some filter entry's
/// first case-insensitive match in the class list is `i`.
pub open spec fn spec_filter_mask_entry(classes: Seq<String>, names: Seq<String>, i: int) -> bool {
    exists|k: int|
        0 <= k < names.len() && spec_first_class_match(classes, (#[trigger] names[k])@, 0) == Some(
            i,
        )
}

/// Builds the optional class filter: none when no names are given,
/// else one flag per class, set exactly where a given name's first
/// case-insensitive match lands.
pub fn build_object_filter(object_classes: &Vec<String>, filter_names: &Vec<String>) -> (r: Option<
    Vec<bool>,
>)
    ensures
        r is None <==> filter_names@.len() == 0,
        r matches Some(mask) ==> mask@.len() == object_classes@.len() && (forall|i: int|
            0 <= i < mask@.len() ==> #[trigger] mask@[i] == spec_filter_mask_entry(
                object_classes@,
                filter_names@,
                i,
            )),
{
    if filter_names.len() == 0 {
        return None;
    }
    let n = object_classes.len();
    let mut mask: Vec<bool> = Vec::new();
    let mut z: usize = 0;
    while z < n
        invariant
            0 <= z <= n,
            mask@.len() == z,
            forall|i: int| 0 <= i < z ==> #[trigger] mask@[i] == false,
        decreases n - z,
    {
        mask.push(false);
        z = z + 1;
    }
    let m = filter_names.len();
    let mut k: usize = 0;
    while k < m
        invariant
            0 <= k <= m,
            m == filter_names@.len(),
            mask@.len() == n,
            n == object_classes@.len(),
            forall|i: int|
                0 <= i < n ==> #[trigger] mask@[i] == (exists|k2: int|
                    0 <= k2 < k && spec_first_class_match(
                        object_classes@,
                        (#[trigger] filter_names@[k2])@,
                        0,
                    ) == Some(i)),
        decreases m - k,
    {
        let name = &filter_names[k];
        let lname = crate::image::lowercase(name.as_str());
        let mut j: usize = 0;
        let mut found: bool = false;
        while j < n && !found
            invariant
                0 <= j <= n,
                n == object_classes@.len(),
                mask@.len() == n,
                k < m,
                m == filter_names@.len(),
                lname@ == crate::image::lower_of(filter_names@[k as int]@),
                name == &filter_names@[k as int],
                !found ==> spec_first_class_match(object_classes@, filter_names@[k as int]@, 0)
                    == spec_first_class_match(object_classes@, filter_names@[k as int]@, j as int),
                !found ==> forall|i: int|
                    0 <= i < n ==> #[trigger] mask@[i] == (exists|k2: int|
                        0 <= k2 < k && spec_first_class_match(
                            object_classes@,
                            (#[trigger] filter_names@[k2])@,
                            0,
                        ) == Some(i)),
                found ==> forall|i: int|
                    0 <= i < n ==> #[trigger] mask@[i] == (exists|k2: int|
                        0 <= k2 < k + 1 && spec_first_class_match(
                            object_classes@,
                            (#[trigger] filter_names@[k2])@,
                            0,
                        ) == Some(i)),
            decreases n - j,
        {
            let lclass = crate::image::lowercase(object_classes[j].as_str());
            if lclass == lname {
                proof {
                    assert(spec_first_class_match(object_classes@, filter_names@[k as int]@, j as int)
                        == Some(j as int));
                }
                let ghost old_mask = mask@;
                mask.set(j, true);
                proof {
                    assert forall|i: int| 0 <= i < n implies #[trigger] mask@[i] == (exists|k2: int|
                        0 <= k2 < k + 1 && spec_first_class_match(
                            object_classes@,
                            (#[trigger] filter_names@[k2])@,
                            0,
                        ) == Some(i)) by {
                        if i == j {
                            assert(spec_first_class_match(
                                object_classes@,
                                filter_names@[k as int]@,
                                0,
                            ) == Some(i));
                        } else {
                            assert(mask@[i] == old_mask[i]);
                            if mask@[i] {
                                let k2 = choose|k2: int|
                                    0 <= k2 < k && spec_first_class_match(
                                        object_classes@,
                                        (#[trigger] filter_names@[k2])@,
                                        0,
                                    ) == Some(i);
                                assert(0 <= k2 < k + 1 && spec_first_class_match(
                                    object_classes@,
                                    filter_names@[k2]@,
                                    0,
                                ) == Some(i));
                            } else {
                                assert forall|k2: int|
                                    0 <= k2 < k + 1 implies !(spec_first_class_match(
                                    object_classes@,
                                    (#[trigger] filter_names@[k2])@,
                                    0,
                                ) == Some(i)) by {
                                    if k2 == k {
                                        assert(spec_first_class_match(
                                            object_classes@,
                                            filter_names@[k2]@,
                                            0,
                                        ) == Some(j as int));
                                    }
                                }
                            }
                        }
                    }
                }
                found = true;
                j = j + 1;
            } else {
                proof {
                    assert(spec_first_class_match(
                        object_classes@,
                        filter_names@[k as int]@,
                        j as int,
                    ) == spec_first_class_match(object_classes@, filter_names@[k as int]@, j + 1));
                }
                j = j + 1;
            }
        }
        proof {
            if !found {
                assert(spec_first_class_match(object_classes@, filter_names@[k as int]@, 0)
                    is None || j < n);
                if j == n {
                    assert(spec_first_class_match(object_classes@, filter_names@[k as int]@, 0)
                        is None);
                }
                assert forall|i: int| 0 <= i < n implies #[trigger] mask@[i] == (exists|k2: int|
                    0 <= k2 < k + 1 && spec_first_class_match(
                        object_classes@,
                        (#[trigger] filter_names@[k2])@,
                        0,
                    ) == Some(i)) by {
                    if mask@[i] {
                        let k2 = choose|k2: int|
                            0 <= k2 < k && spec_first_class_match(
                                object_classes@,
                                (#[trigger] filter_names@[k2])@,
                                0,
                            ) == Some(i);
                        assert(0 <= k2 < k + 1 && spec_first_class_match(
                            object_classes@,
                            filter_names@[k2]@,
                            0,
                        ) == Some(i));
                    }
                }
            }
        }
        k = k + 1;
    }
    Some(mask)
}

/// The outcome of one detection: the predictions and the per-stage
/// timings in milliseconds.
pub struct DetectResult {
    pub predictions: Vec<Prediction>,
    pub processing_time_ms: u64,
    pub decode_image_time_ms: u64,
    pub resize_image_time_ms: u64,
    pub pre_processing_time_ms: u64,
    pub inference_time_ms: u64,
    pub post_processing_time_ms: u64,
    pub device_type: DeviceType,
    pub endpoint_provider: EndpointProvider,
}

/// The detector's own state: the working buffers, the class list and
/// filter, the thresholds, and the model family. The inference session
/// itself lives with the caller, which runs it between `prepare_input`
/// and `detect_outputs`.
pub struct Detector {
    pub resizer: ImageResizer,
    pub decoded_image: Image,
    pub resized_image: Image,
    /// The planar channel-major bytes of the resized image, the
    /// payload of the input tensor.
    pub planar_input: Vec<u8>,
    pub object_classes: Vec<String>,
    pub object_filter: Option<Vec<bool>>,
    pub confidence_threshold: i64,
    pub device_type: DeviceType,
    pub endpoint_provider: EndpointProvider,
    pub save_image_path: Option<String>,
    pub save_ref_image: bool,
    pub model_name: String,
    pub object_detection_model: ObjectDetectionModel,
    pub input_width: usize,
    pub input_height: usize,
}

impl Detector {
    /// The detector's standing invariant: sane model-input dimensions,
    /// a resizer bound to them, a nonempty class list and a filter of
    /// matching length.
    pub open spec fn spec_wf(&self) -> bool {
        &&& 1 <= self.input_width <= 16384
        &&& 1 <= self.input_height <= 16384
        &&& self.resizer.spec_wf()
        &&& self.resizer.spec_target_width() == self.input_width
        &&& self.resizer.spec_target_height() == self.input_height
        &&& 1 <= self.object_classes@.len() <= 0x1000_0000
        &&& (codec::spec_filter_view(&self.object_filter) matches Some(f) ==> f.len()
            == self.object_classes@.len())
    }

    /// Builds a detector from its configuration and the results of
    /// session construction: the model's name, its class list, its
    /// input size and the device that will run it. Rejects an input
    /// size outside `[1, 16384]` or a class list that is empty or
    /// beyond any real model's cardinality.
    pub fn new(
        detector_config: DetectorConfig,
        model_name: String,
        object_classes: Vec<String>,
        input_width: usize,
        input_height: usize,
        device_type: DeviceType,
        endpoint_provider: EndpointProvider,
    ) -> (r: Result<Detector, DetectError>)
        ensures
            r matches Ok(d) ==> {
                &&& d.spec_wf()
                &&& d.input_width == input_width
                &&& d.input_height == input_height
                &&& d.object_classes == object_classes
                &&& d.confidence_threshold == detector_config.confidence_threshold
                &&& d.object_detection_model == detector_config.object_detection_model
                &&& d.model_name == model_name
                &&& d.device_type == device_type
                &&& d.endpoint_provider == endpoint_provider
                &&& (d.object_filter is None <==> detector_config.object_filter@.len() == 0)
                &&& (d.object_filter matches Some(mask) ==> mask@.len() == object_classes@.len()
                    && (forall|i: int|
                    0 <= i < mask@.len() ==> #[trigger] mask@[i] == spec_filter_mask_entry(
                        object_classes@,
                        detector_config.object_filter@,
                        i,
                    )))
            },
            r is Err <==> !(1 <= input_width <= 16384 && 1 <= input_height <= 16384 && 1
                <= object_classes@.len() <= 0x1000_0000),
    {
        if !(1 <= input_width && input_width <= 16384 && 1 <= input_height && input_height
            <= 16384) {
            return Err(
                DetectError::DimensionMismatch {
                    actual_width: input_width,
                    actual_height: input_height,
                    expected_width: 16384,
                    expected_height: 16384,
                },
            );
        }
        if object_classes.len() == 0 || object_classes.len() > 0x1000_0000 {
            return Err(DetectError::InvalidClassCount { class_count: object_classes.len() });
        }
        let resizer = match ImageResizer::new(input_width, input_height) {
            Ok(z) => z,
            Err(e) => {
                return Err(e);
            },
        };
        let object_filter = build_object_filter(&object_classes, &detector_config.object_filter);
        Ok(
            Detector {
                resizer,
                decoded_image: Image::empty(),
                resized_image: Image::empty(),
                planar_input: Vec::new(),
                object_classes,
                object_filter,
                confidence_threshold: detector_config.confidence_threshold,
                device_type,
                endpoint_provider,
                save_image_path: detector_config.save_image_path,
                save_ref_image: detector_config.save_ref_image,
                model_name,
                object_detection_model: detector_config.object_detection_model,
                input_width,
                input_height,
            },
        )
    }

    /// Runs the pipeline up to the inference call: decodes the JPEG
    /// into the working buffer, resizes it to the model-input size,
    /// and scatters the pixels into the planar input buffer. Succeeds
    /// exactly when the bytes decode as a JPEG: after a successful
    /// decode, the resize and the defensive checks cannot fail.
    /// Returns the decoded image's dimensions, from which the caller
    /// derives the resize factors.
    pub fn prepare_input(&mut self, image_bytes: &Vec<u8>, image_name: Option<String>) -> (r:
        Result<(usize, usize), DetectError>)
        requires
            old(self).spec_wf(),
        ensures
            final(self).spec_wf(),
            spec_config_unchanged(old(self), final(self)),
            r is Ok <==> crate::image::jpeg_decodes(image_bytes@),
            r matches Ok(dims) ==> {
                &&& dims.0 == final(self).decoded_image.width
                &&& dims.1 == final(self).decoded_image.height
                &&& 1 * dims.0 <= 65535 && 1 * dims.1 <= 65535
                &&& final(self).resized_image.width == old(self).input_width
                &&& final(self).resized_image.height == old(self).input_height
                &&& crate::image::spec_planar_ok(
                    final(self).planar_input@,
                    final(self).resized_image.pixels@,
                    old(self).input_width as int,
                    old(self).input_height as int,
                )
            },
    {
        if let Err(e) = crate::image::decode_jpeg(image_name, image_bytes, &mut self.decoded_image) {
            return Err(e);
        }
        let decoded_len = self.decoded_image.pixels.len();
        assert(3 * self.decoded_image.width * self.decoded_image.height == decoded_len);
        if let Err(e) = self.resizer.resize_image(&mut self.decoded_image, &mut self.resized_image) {
            // Cannot happen: the decoded buffer holds its three bytes
            // per pixel.
            assert(false);
            return Err(e);
        }
        // Defensive: the resizer promises the target size, so this
        // cannot fire.
        if self.resized_image.width != self.input_width || self.resized_image.height
            != self.input_height {
            return Err(
                DetectError::DimensionMismatch {
                    actual_width: self.resized_image.width,
                    actual_height: self.resized_image.height,
                    expected_width: self.input_width,
                    expected_height: self.input_height,
                },
            );
        }
        assert((self.input_width as int) * (self.input_height as int) <= 16384 * 16384) by (
        nonlinear_arith)
            requires
                1 <= self.input_width <= 16384,
                1 <= self.input_height <= 16384,
        ;
        let expected_pixels = self.input_width * self.input_height;
        assert((3 * (self.input_width as int) * (self.input_height as int)) / 3 == (
        self.input_width as int) * (self.input_height as int)) by (nonlinear_arith);
        let actual_pixels = self.resized_image.pixels.len() / 3;
        if actual_pixels != expected_pixels {
            // Cannot happen: the resized buffer was sized to the
            // model-input dimensions.
            assert(false);
            return Err(
                DetectError::PixelCountMismatch { expected: expected_pixels, actual: actual_pixels },
            );
        }
        let ghost giw = old(self).input_width as int;
        let ghost gih = old(self).input_height as int;
        proof {
            assert(3 * giw * gih == giw * gih * 3) by (nonlinear_arith);
        }
        crate::image::planarize(
            &self.resized_image.pixels,
            self.input_width,
            self.input_height,
            &mut self.planar_input,
        );
        Ok((self.decoded_image.width, self.decoded_image.height))
    }

    /// Decodes the model's outputs with the configured family's rules,
    /// under the per-request threshold when one is given; see
    /// `ObjectDetectionModel::post_process` for the exact statement.
    pub fn detect_outputs(
        &self,
        outputs: &Vec<NamedTensor>,
        min_confidence: Option<i64>,
        orig_width: usize,
        orig_height: usize,
    ) -> (r: Result<Vec<Prediction>, DetectError>)
        requires
            self.spec_wf(),
            orig_width <= 65535,
            orig_height <= 65535,
        ensures
            ({
                let thr = spec_effective_threshold(min_confidence, self.confidence_threshold);
                let filter = codec::spec_filter_view(&self.object_filter);
                &&& self.object_detection_model is RtDetrv2 ==> spec_rt_detrv2_result(
                    r,
                    outputs@,
                    thr,
                    orig_width as int,
                    orig_height as int,
                    self.input_width as int,
                    self.input_height as int,
                    filter,
                    self.object_classes@,
                )
                &&& self.object_detection_model is RfDetr ==> spec_rf_detr_result(
                    r,
                    outputs@,
                    thr,
                    orig_width as int,
                    orig_height as int,
                    filter,
                    self.object_classes@,
                )
                &&& self.object_detection_model is Yolo5 ==> spec_yolo5_result(
                    r,
                    outputs@,
                    thr,
                    orig_width as int,
                    orig_height as int,
                    self.input_width as int,
                    self.input_height as int,
                    filter,
                    self.object_classes@,
                )
            }),
    {
        let confidence_threshold = match min_confidence {
            Some(v) => v,
            None => self.confidence_threshold,
        };
        let params = PostProcessParams {
            confidence_threshold,
            orig_width: orig_width as u32,
            orig_height: orig_height as u32,
            input_width: self.input_width as u32,
            input_height: self.input_height as u32,
            object_filter: &self.object_filter,
            object_classes: &self.object_classes,
        };
        self.object_detection_model.post_process(outputs, &params)
    }

    /// The loaded model's name.
    pub fn get_model_name(&self) -> (r: &String)
        ensures
            r == &self.model_name,
    {
        &self.model_name
    }

    /// The display name of the execution provider in use.
    pub fn get_endpoint_provider_name(&self) -> (r: String)
        ensures
            self.endpoint_provider is CPU ==> r@ == "CPU"@,
            self.endpoint_provider is DirectML ==> r@ == "DirectML"@,
    {
        <String as vstd::string::StringExecFns>::from_str(self.endpoint_provider.as_str())
    }

    /// Whether inference runs on the GPU.
    pub fn is_using_gpu(&self) -> (r: bool)
        ensures
            r == (self.device_type is GPU),
    {
        match self.device_type {
            DeviceType::GPU => true,
            DeviceType::CPU => false,
        }
    }

    /// The model-input width and height.
    pub fn get_input_size(&self) -> (r: (usize, usize))
        ensures
            r.0 == self.input_width,
            r.1 == self.input_height,
    {
        (self.input_width, self.input_height)
    }
}

/// The per-request threshold when one is given, else the configured
/// default.
pub open spec fn spec_effective_threshold(min_confidence: Option<i64>, configured: i64) -> int {
    match min_confidence {
        Some(v) => v as int,
        None => configured as int,
    }
}

/// The configuration half of the detector is read-only across the
/// pipeline stages.
pub open spec fn spec_config_unchanged(a: &Detector, b: &Detector) -> bool {
    &&& b.object_classes == a.object_classes
    &&& b.object_filter == a.object_filter
    &&& b.confidence_threshold == a.confidence_threshold
    &&& b.device_type == a.device_type
    &&& b.endpoint_provider == a.endpoint_provider
    &&& b.save_image_path == a.save_image_path
    &&& b.save_ref_image == a.save_ref_image
    &&& b.model_name == a.model_name
    &&& b.object_detection_model == a.object_detection_model
    &&& b.input_width == a.input_width
    &&& b.input_height == a.input_height
}

/// `input` and `images` are the image-input names models use.
pub open spec fn spec_is_image_input(name: Seq<char>) -> bool {
    name == "input"@ || name == "images"@
}

/// The `[batch, channels, height, width]` pattern inside a rendered
/// input type: the text between `shape: [` and `]`, split on commas
/// and trimmed, must hold four numbers; the third and fourth are the
/// height and width.
pub open spec fn spec_parse_shape_dims(s: Seq<char>) -> Option<(int, int)> {
    match text::spec_find_sub(s, "shape: ["@, 0) {
        None => None,
        Some(start) => {
            let open = start + 8;
            let close = text::spec_find_char(s, ']', open);
            if close >= s.len() {
                None
            } else {
                let inner = s.subrange(open, close);
                let c1 = text::spec_find_char(inner, ',', 0);
                let c2 = text::spec_find_char(inner, ',', c1 + 1);
                let c3 = text::spec_find_char(inner, ',', c2 + 1);
                let c4 = text::spec_find_char(inner, ',', c3 + 1);
                if c1 >= inner.len() || c2 >= inner.len() || c3 >= inner.len() || c4 < inner.len() {
                    None
                } else {
                    let height = text::spec_parse_usize(
                        text::spec_trim(inner.subrange(c2 + 1, c3)),
                    );
                    let width = text::spec_parse_usize(
                        text::spec_trim(inner.subrange(c3 + 1, inner.len() as int)),
                    );
                    if height is Some && width is Some {
                        Some((width.unwrap() as int, height.unwrap() as int))
                    } else {
                        None
                    }
                }
            }
        },
    }
}

/// Reads the model-input width and height out of a rendered input
/// type, when the text shows a four-number shape.
pub fn parse_shape_dims(type_str: &str) -> (r: Option<(usize, usize)>)
    ensures
        r matches Some(dims) ==> spec_parse_shape_dims(type_str@) == Some(
            (dims.0 as int, dims.1 as int),
        ),
        r is None <==> spec_parse_shape_dims(type_str@) is None,
{
    proof {
        reveal_strlit("shape: [");
    }
    let n = type_str.unicode_len();
    let start = match text::find_sub(type_str, "shape: [") {
        Some(i) => i,
        None => {
            return None;
        },
    };
    let open = start + 8;
    let close = text::find_char(type_str, ']', open);
    if close >= n {
        return None;
    }
    let inner = type_str.substring_char(open, close);
    let m = inner.unicode_len();
    let c1 = text::find_char(inner, ',', 0);
    if c1 >= m {
        return None;
    }
    let c2 = text::find_char(inner, ',', c1 + 1);
    if c2 >= m {
        return None;
    }
    let c3 = text::find_char(inner, ',', c2 + 1);
    if c3 >= m {
        return None;
    }
    let c4 = text::find_char(inner, ',', c3 + 1);
    if c4 < m {
        return None;
    }
    let height_part = text::trim(inner.substring_char(c2 + 1, c3));
    let width_part = text::trim(inner.substring_char(c3 + 1, m));
    let height = match text::parse_usize(height_part) {
        Ok(v) => v,
        Err(_) => {
            return None;
        },
    };
    let width = match text::parse_usize(width_part) {
        Ok(v) => v,
        Err(_) => {
            return None;
        },
    };
    Some((width, height))
}

/// The size the model wants, resolved from its inputs: the first input
/// named `input` or `images` decides — its rendered shape when it
/// parses, else 384 square for `input` and 640 square for `images`;
/// 640 square when no input matches.
pub open spec fn spec_input_size(inputs: Seq<(String, String)>) -> (int, int)
    decreases inputs.len(),
{
    if inputs.len() == 0 {
        (640, 640)
    } else if spec_is_image_input(inputs[0].0@) {
        match spec_parse_shape_dims(inputs[0].1@) {
            Some(dims) => dims,
            None => if inputs[0].0@ == "input"@ {
                (384, 384)
            } else {
                (640, 640)
            },
        }
    } else {
        spec_input_size(inputs.drop_first())
    }
}

/// Resolves the model-input size by inspecting the session's declared
/// inputs, each given as its name and its rendered type.
pub fn query_image_input_size(inputs: &Vec<(String, String)>) -> (r: (usize, usize))
    ensures
        (r.0 as int, r.1 as int) == spec_input_size(inputs@),
{
    let n = inputs.len();
    let mut i: usize = 0;
    proof {
        assert(inputs@.skip(0) =~= inputs@);
    }
    while i < n
        invariant
            0 <= i <= n,
            n == inputs@.len(),
            spec_input_size(inputs@) == spec_input_size(inputs@.skip(i as int)),
        decreases n - i,
    {
        proof {
            assert(inputs@.skip(i as int)[0] == inputs@[i as int]);
            assert(inputs@.skip(i as int).drop_first() =~= inputs@.skip(i + 1));
        }
        let name = &inputs[i].0;
        if text::str_eq(name.as_str(), "input") || text::str_eq(name.as_str(), "images") {
            match parse_shape_dims(inputs[i].1.as_str()) {
                Some((w, h)) => {
                    return (w, h);
                },
                None => {
                    if text::str_eq(name.as_str(), "input") {
                        return (384, 384);
                    } else {
                        return (640, 640);
                    }
                },
            }
        }
        i = i + 1;
    }
    (640, 640)
}

} // verus!
