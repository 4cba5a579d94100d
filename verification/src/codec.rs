//! Per-architecture decoding of model output tensors into predictions.
//!
//! Three incompatible output encodings are supported; each decoder turns
//! named integer tensors into a list of `Prediction`s. Tensor values carry
//! six decimal places (micros), so a probability of 0.25 arrives as
//! 250_000 and a box corner at 17.5 input pixels as 17_500_000.

use vstd::prelude::*;
use crate::api::Prediction;
use crate::text;

verus! {

/// An output tensor: its shape and its values in row-major order, each
/// value in micros (or a plain integer for class-id tensors).
pub struct Tensor {
    pub shape: Vec<usize>,
    pub data: Vec<i64>,
}

/// A tensor under the name the model gives it.
pub struct NamedTensor {
    pub name: String,
    pub value: Tensor,
}

/// Why decoding a model's output failed.
#[derive(Debug)]
pub enum DetectError {
    /// The encoded image could not be decoded; carries the decoder's words.
    ImageDecode(String),
    /// The decoded image could not be resized; carries the resizer's words.
    ImageResize(String),
    /// The resized image does not match the model-input dimensions.
    DimensionMismatch {
        actual_width: usize,
        actual_height: usize,
        expected_width: usize,
        expected_height: usize,
    },
    /// The resized image holds the wrong number of pixels.
    PixelCountMismatch { expected: usize, actual: usize },
    /// A required output tensor is absent.
    MissingOutput,
    /// An output tensor has an unexpected rank or shape; carries the
    /// shape seen and the number of per-row values that were expected.
    UnexpectedShape { actual: Vec<usize>, expected_features: usize },
    /// A class id from the model does not index the class list.
    LabelOutOfRange { label: i64, class_count: usize },
    /// The class list is empty or beyond any model's cardinality.
    InvalidClassCount { class_count: usize },
}

/// Index of the first tensor named `name`, if any.
pub open spec fn spec_find_tensor(outputs: Seq<NamedTensor>, name: Seq<char>) -> Option<int>
    decreases outputs.len(),
{
    if outputs.len() == 0 {
        None
    } else if outputs[0].name@ == name {
        Some(0)
    } else {
        match spec_find_tensor(outputs.drop_first(), name) {
            Some(i) => Some(i + 1),
            None => None,
        }
    }
}

/// Finds the first tensor named `name`.
fn find_tensor<'a>(outputs: &'a Vec<NamedTensor>, name: &str) -> (r: Option<&'a Tensor>)
    ensures
        r is Some <==> spec_find_tensor(outputs@, name@) is Some,
        r matches Some(t) ==> spec_find_tensor(outputs@, name@) matches Some(i) && t
            == &outputs@[i].value,
{
    let n = outputs.len();
    let mut i: usize = 0;
    proof {
        assert(outputs@.skip(0) =~= outputs@);
    }
    while i < n
        invariant
            0 <= i <= n,
            n == outputs@.len(),
            spec_find_tensor(outputs@, name@) == (match spec_find_tensor(
                outputs@.skip(i as int),
                name@,
            ) {
                Some(j) => Some(j + i),
                None => None::<int>,
            }),
        decreases n - i,
    {
        proof {
            assert(outputs@.skip(i as int)[0] == outputs@[i as int]);
            assert(outputs@.skip(i as int).drop_first() =~= outputs@.skip(i + 1));
        }
        if text::str_eq(outputs[i].name.as_str(), name) {
            return Some(&outputs[i].value);
        }
        i = i + 1;
    }
    None
}

/// The view of an optional filter mask.
pub open spec fn spec_filter_view(f: &Option<Vec<bool>>) -> Option<Seq<bool>> {
    match f {
        Some(v) => Some(v@),
        None => None,
    }
}

/// A corner coordinate in model-input space, in micros, scaled to the
/// original image by `orig / input` and truncated to whole pixels;
/// negative values floor at zero and the result saturates at `u32::MAX`.
pub open spec fn spec_scale_corner(v: int, orig: int, input: int) -> int {
    if v <= 0 {
        0
    } else {
        let px = v * orig / (input * 1_000_000);
        if px > u32::MAX {
            u32::MAX as int
        } else {
            px
        }
    }
}

/// Scales one corner coordinate; see `spec_scale_corner`.
fn scale_corner(v: i64, orig: u32, input: u32) -> (r: u32)
    requires
        input >= 1,
    ensures
        r == spec_scale_corner(v as int, orig as int, input as int),
{
    if v <= 0 {
        return 0;
    }
    assert((v as i128) * (orig as i128) <= 0x8000_0000_0000_0000i128 * 0x1_0000_0000i128) by (
    nonlinear_arith)
        requires
            0 <= v as i128 <= 0x8000_0000_0000_0000i128,
            0 <= orig as i128 <= 0x1_0000_0000i128,
    ;
    let num: i128 = (v as i128) * (orig as i128);
    let den: i128 = (input as i128) * 1_000_000;
    let px: i128 = num / den;
    assert(0 <= num / den <= num) by (nonlinear_arith)
        requires
            num >= 0,
            den >= 1_000_000,
    ;
    if px > u32::MAX as i128 {
        u32::MAX
    } else {
        px as u32
    }
}

/// Orders a box's corners so that max is never below min.
pub open spec fn spec_order_box(p: Prediction) -> Prediction {
    Prediction {
        x_max: if p.x_max >= p.x_min {
            p.x_max
        } else {
            p.x_min
        },
        y_max: if p.y_max >= p.y_min {
            p.y_max
        } else {
            p.y_min
        },
        ..p
    }
}

/// The tensor layout a first-format model emits: `labels` as `[1, N]`
/// class ids, `boxes` as `[1, N, 4]` corner coordinates in model-input
/// space, `scores` as `[1, N]` probabilities.
pub open spec fn spec_a_layout_ok(labels: &Tensor, boxes: &Tensor, scores: &Tensor) -> bool {
    let n = labels.shape@[1] as int;
    &&& labels.shape@.len() == 2
    &&& labels.shape@[0] == 1
    &&& labels.data@.len() == n
    &&& scores.shape@.len() == 2
    &&& scores.shape@[0] == 1
    &&& scores.shape@[1] == n
    &&& scores.data@.len() == n
    &&& boxes.shape@.len() == 3
    &&& boxes.shape@[0] == 1
    &&& boxes.shape@[1] == n
    &&& boxes.shape@[2] == 4
    &&& boxes.data@.len() == 4 * n
}

/// Whether row `i` survives first-format decoding: its score strictly
/// exceeds the threshold and, when a filter is present, the filter
/// admits its class id.
pub open spec fn spec_a_keep(
    labels: Seq<i64>,
    scores: Seq<i64>,
    filter: Option<Seq<bool>>,
    thr: int,
    i: int,
) -> bool {
    &&& scores[i] > thr
    &&& (match filter {
        Some(f) => 0 <= labels[i] < f.len() && f[labels[i] as int],
        None => true,
    })
}

/// A row above the threshold whose class id does not index the class
/// list: decoding must fail rather than read out of bounds.
pub open spec fn spec_a_bad_label(
    labels: Seq<i64>,
    scores: Seq<i64>,
    classes_len: int,
    thr: int,
    i: int,
) -> bool {
    scores[i] > thr && !(0 <= labels[i] < classes_len)
}

/// The prediction built from row `i` of a first-format output.
pub open spec fn spec_a_pred(
    labels: Seq<i64>,
    boxes: Seq<i64>,
    scores: Seq<i64>,
    classes: Seq<String>,
    ow: int,
    oh: int,
    iw: int,
    ih: int,
    i: int,
) -> Prediction {
    spec_order_box(
        Prediction {
            x_min: spec_scale_corner(boxes[4 * i] as int, ow, iw) as u32,
            y_min: spec_scale_corner(boxes[4 * i + 1] as int, oh, ih) as u32,
            x_max: spec_scale_corner(boxes[4 * i + 2] as int, ow, iw) as u32,
            y_max: spec_scale_corner(boxes[4 * i + 3] as int, oh, ih) as u32,
            confidence: scores[i],
            label: classes[labels[i] as int],
        },
    )
}

/// The predictions from the first `n` rows of a first-format output, in
/// row order.
pub open spec fn spec_a_preds(
    labels: Seq<i64>,
    boxes: Seq<i64>,
    scores: Seq<i64>,
    filter: Option<Seq<bool>>,
    classes: Seq<String>,
    thr: int,
    ow: int,
    oh: int,
    iw: int,
    ih: int,
    n: int,
) -> Seq<Prediction>
    decreases n,
{
    if n <= 0 {
        Seq::empty()
    } else {
        let rest = spec_a_preds(labels, boxes, scores, filter, classes, thr, ow, oh, iw, ih, n - 1);
        if spec_a_keep(labels, scores, filter, thr, n - 1) {
            rest.push(spec_a_pred(labels, boxes, scores, classes, ow, oh, iw, ih, n - 1))
        } else {
            rest
        }
    }
}

/// `p` is the prediction of some admitted row among the first `n`.
pub open spec fn spec_a_from_kept_row(
    labels: Seq<i64>,
    boxes: Seq<i64>,
    scores: Seq<i64>,
    filter: Option<Seq<bool>>,
    classes: Seq<String>,
    thr: int,
    ow: int,
    oh: int,
    iw: int,
    ih: int,
    n: int,
    p: Prediction,
) -> bool {
    exists|i: int|
        0 <= i < n && spec_a_keep(labels, scores, filter, thr, i) && p == spec_a_pred(
            labels,
            boxes,
            scores,
            classes,
            ow,
            oh,
            iw,
            ih,
            i,
        )
}

/// First-format decoding keeps exactly the admitted rows: a row's
/// prediction appears in the result if and only if its raw score
/// strictly exceeds the active threshold and either no filter is set or
/// the filter admits its class id.
#[verifier::rlimit(100)]
pub proof fn lemma_a_preds_membership(
    labels: Seq<i64>,
    boxes: Seq<i64>,
    scores: Seq<i64>,
    filter: Option<Seq<bool>>,
    classes: Seq<String>,
    thr: int,
    ow: int,
    oh: int,
    iw: int,
    ih: int,
    n: int,
)
    ensures
        ({
            let preds = spec_a_preds(labels, boxes, scores, filter, classes, thr, ow, oh, iw, ih, n);
            &&& forall|i: int|
                0 <= i < n && spec_a_keep(labels, scores, filter, thr, i) ==> exists|j: int|
                    0 <= j < preds.len() && preds[j] == spec_a_pred(
                        labels,
                        boxes,
                        scores,
                        classes,
                        ow,
                        oh,
                        iw,
                        ih,
                        i,
                    )
            &&& forall|j: int|
                0 <= j < preds.len() ==> spec_a_from_kept_row(
                    labels,
                    boxes,
                    scores,
                    filter,
                    classes,
                    thr,
                    ow,
                    oh,
                    iw,
                    ih,
                    n,
                    #[trigger] preds[j],
                )
        }),
    decreases n,
{
    if n > 0 {
        lemma_a_preds_membership(labels, boxes, scores, filter, classes, thr, ow, oh, iw, ih, n - 1);
        let prev = spec_a_preds(labels, boxes, scores, filter, classes, thr, ow, oh, iw, ih, n - 1);
        let preds = spec_a_preds(labels, boxes, scores, filter, classes, thr, ow, oh, iw, ih, n);
        assert forall|i: int|
            0 <= i < n && spec_a_keep(labels, scores, filter, thr, i) implies exists|j: int|
            0 <= j < preds.len() && preds[j] == spec_a_pred(
                labels,
                boxes,
                scores,
                classes,
                ow,
                oh,
                iw,
                ih,
                i,
            ) by {
            if i < n - 1 {
                let j = choose|j: int|
                    0 <= j < prev.len() && prev[j] == spec_a_pred(
                        labels,
                        boxes,
                        scores,
                        classes,
                        ow,
                        oh,
                        iw,
                        ih,
                        i,
                    );
                assert(preds[j] == prev[j]);
            } else {
                assert(preds[preds.len() - 1] == spec_a_pred(
                    labels,
                    boxes,
                    scores,
                    classes,
                    ow,
                    oh,
                    iw,
                    ih,
                    n - 1,
                ));
            }
        }
        assert forall|j: int| 0 <= j < preds.len() implies spec_a_from_kept_row(
            labels,
            boxes,
            scores,
            filter,
            classes,
            thr,
            ow,
            oh,
            iw,
            ih,
            n,
            preds[j],
        ) by {
            if j < prev.len() {
                assert(preds[j] == prev[j]);
                assert(spec_a_from_kept_row(
                    labels,
                    boxes,
                    scores,
                    filter,
                    classes,
                    thr,
                    ow,
                    oh,
                    iw,
                    ih,
                    n - 1,
                    prev[j],
                ));
                let i = choose|i: int|
                    0 <= i < n - 1 && spec_a_keep(labels, scores, filter, thr, i) && prev[j]
                        == spec_a_pred(labels, boxes, scores, classes, ow, oh, iw, ih, i);
                assert(0 <= i < n && spec_a_keep(labels, scores, filter, thr, i) && preds[j]
                    == spec_a_pred(labels, boxes, scores, classes, ow, oh, iw, ih, i));
            } else {
                assert(spec_a_keep(labels, scores, filter, thr, n - 1));
                assert(preds[j] == spec_a_pred(labels, boxes, scores, classes, ow, oh, iw, ih, n - 1));
            }
        }
    }
}

/// Every first-format prediction is a well-formed box: its corners are
/// ordered by construction.
pub proof fn lemma_a_preds_wf(
    labels: Seq<i64>,
    boxes: Seq<i64>,
    scores: Seq<i64>,
    filter: Option<Seq<bool>>,
    classes: Seq<String>,
    thr: int,
    ow: int,
    oh: int,
    iw: int,
    ih: int,
    n: int,
)
    ensures
        ({
            let preds = spec_a_preds(labels, boxes, scores, filter, classes, thr, ow, oh, iw, ih, n);
            forall|j: int|
                0 <= j < preds.len() ==> crate::geometry::spec_wf_box(&preds[j])
        }),
    decreases n,
{
    if n > 0 {
        lemma_a_preds_wf(labels, boxes, scores, filter, classes, thr, ow, oh, iw, ih, n - 1);
        let prev = spec_a_preds(labels, boxes, scores, filter, classes, thr, ow, oh, iw, ih, n - 1);
        let preds = spec_a_preds(labels, boxes, scores, filter, classes, thr, ow, oh, iw, ih, n);
        assert forall|j: int| 0 <= j < preds.len() implies crate::geometry::spec_wf_box(
            &preds[j],
        ) by {
            if j < prev.len() {
                assert(preds[j] == prev[j]);
                assert(crate::geometry::spec_wf_box(&prev[j]));
            } else {
                assert(preds[j] == spec_a_pred(labels, boxes, scores, classes, ow, oh, iw, ih, n - 1));
            }
        }
    }
}

/// Decodes a first-format ("RT-DETR"-style) output: keep each row whose
/// score strictly exceeds the threshold and which the filter admits,
/// scale its corners from model-input space to image space, and never
/// suppress — the model already emits one box per object.
#[verifier::loop_isolation(false)]
pub fn rt_detrv2_post_process(
    outputs: &Vec<NamedTensor>,
    confidence_threshold: i64,
    orig_width: u32,
    orig_height: u32,
    input_width: u32,
    input_height: u32,
    object_filter: &Option<Vec<bool>>,
    object_classes: &Vec<String>,
) -> (r: Result<Vec<Prediction>, DetectError>)
    requires
        input_width >= 1,
        input_height >= 1,
        (spec_filter_view(object_filter) matches Some(f) ==> f.len() == object_classes@.len()),
    ensures
        ({
            let lt = spec_find_tensor(outputs@, "labels"@);
            let bt = spec_find_tensor(outputs@, "boxes"@);
            let st = spec_find_tensor(outputs@, "scores"@);
            &&& (r matches Err(e) && e is MissingOutput) <==> (lt is None || bt is None || st
                is None)
            &&& lt matches Some(li) ==> bt matches Some(bi) ==> st matches Some(si) ==> {
                let labels = outputs@[li].value;
                let boxes = outputs@[bi].value;
                let scores = outputs@[si].value;
                let n = labels.shape@[1] as int;
                &&& (r matches Err(e) && e is UnexpectedShape) <==> !spec_a_layout_ok(
                    &labels,
                    &boxes,
                    &scores,
                )
                &&& (r matches Err(e) ==> e matches DetectError::UnexpectedShape {
                    actual,
                    expected_features,
                } ==> actual@ == labels.shape@ && expected_features == 4)
                &&& (r is Ok <==> (spec_a_layout_ok(&labels, &boxes, &scores) && !(exists|i: int|
                    0 <= i < n && spec_a_bad_label(
                        labels.data@,
                        scores.data@,
                        object_classes@.len() as int,
                        confidence_threshold as int,
                        i,
                    ))))
                &&& spec_a_layout_ok(&labels, &boxes, &scores) ==> {
                    &&& (r matches Err(e) && e is LabelOutOfRange) <==> (exists|i: int|
                        0 <= i < n && spec_a_bad_label(
                            labels.data@,
                            scores.data@,
                            object_classes@.len() as int,
                            confidence_threshold as int,
                            i,
                        ))
                    &&& r matches Ok(preds) ==> preds@ == spec_a_preds(
                        labels.data@,
                        boxes.data@,
                        scores.data@,
                        spec_filter_view(object_filter),
                        object_classes@,
                        confidence_threshold as int,
                        orig_width as int,
                        orig_height as int,
                        input_width as int,
                        input_height as int,
                        n,
                    )
                }
            }
        }),
{
    let labels = match find_tensor(outputs, "labels") {
        Some(t) => t,
        None => {
            return Err(DetectError::MissingOutput);
        },
    };
    let boxes = match find_tensor(outputs, "boxes") {
        Some(t) => t,
        None => {
            return Err(DetectError::MissingOutput);
        },
    };
    let scores = match find_tensor(outputs, "scores") {
        Some(t) => t,
        None => {
            return Err(DetectError::MissingOutput);
        },
    };
    if !(labels.shape.len() == 2 && labels.shape[0] == 1 && labels.data.len()
        == labels.shape[1] && scores.shape.len() == 2 && scores.shape[0] == 1
        && scores.shape[1] == labels.shape[1] && scores.data.len()
        == labels.shape[1] && boxes.shape.len() == 3 && boxes.shape[0] == 1
        && boxes.shape[1] == labels.shape[1] && boxes.shape[2] == 4
        && boxes.data.len() / 4 == labels.shape[1] && boxes.data.len() % 4 == 0) {
        return Err(
            DetectError::UnexpectedShape {
                actual: clone_shape(&labels.shape),
                expected_features: 4,
            },
        );
    }
    let n = scores.data.len();
    let boxes_len = boxes.data.len();
    assert(boxes.data@.len() == 4 * n);
    let ghost filter = spec_filter_view(object_filter);
    let mut preds: Vec<Prediction> = Vec::new();
    let mut i: usize = 0;
    while i < n
        invariant
            0 <= i <= n,
            n == labels.data@.len(),
            n == scores.data@.len(),
            4 * n == boxes.data@.len(),
            input_width >= 1,
            input_height >= 1,
            filter == spec_filter_view(object_filter),
            (filter matches Some(f) ==> f.len() == object_classes@.len()),
            forall|j: int|
                0 <= j < i ==> !spec_a_bad_label(
                    labels.data@,
                    scores.data@,
                    object_classes@.len() as int,
                    confidence_threshold as int,
                    j,
                ),
            preds@ == spec_a_preds(
                labels.data@,
                boxes.data@,
                scores.data@,
                filter,
                object_classes@,
                confidence_threshold as int,
                orig_width as int,
                orig_height as int,
                input_width as int,
                input_height as int,
                i as int,
            ),
        decreases n - i,
    {
        let score = scores.data[i];
        if score > confidence_threshold {
            let label_id = labels.data[i];
            if !(label_id >= 0 && (label_id as u64) < (object_classes.len() as u64)) {
                assert(spec_a_bad_label(
                    labels.data@,
                    scores.data@,
                    object_classes@.len() as int,
                    confidence_threshold as int,
                    i as int,
                ));
                return Err(
                    DetectError::LabelOutOfRange {
                        label: label_id,
                        class_count: object_classes.len(),
                    },
                );
            }
            let idx = label_id as usize;
            let admitted: bool = match object_filter {
                Some(f) => f[idx],
                None => true,
            };
            if admitted {
                let x_min = scale_corner(boxes.data[4 * i], orig_width, input_width);
                let y_min = scale_corner(boxes.data[4 * i + 1], orig_height, input_height);
                let x_max = scale_corner(boxes.data[4 * i + 2], orig_width, input_width);
                let y_max = scale_corner(boxes.data[4 * i + 3], orig_height, input_height);
                let pred = Prediction {
                    x_min,
                    y_min,
                    x_max: if x_max >= x_min {
                        x_max
                    } else {
                        x_min
                    },
                    y_max: if y_max >= y_min {
                        y_max
                    } else {
                        y_min
                    },
                    confidence: score,
                    label: object_classes[idx].clone(),
                };
                preds.push(pred);
            }
        }
        i = i + 1;
    }
    Ok(preds)
}

/// An identical copy of a prediction.
fn copy_pred(p: &Prediction) -> (r: Prediction)
    ensures
        r == *p,
{
    Prediction {
        x_max: p.x_max,
        x_min: p.x_min,
        y_max: p.y_max,
        y_min: p.y_min,
        confidence: p.confidence,
        label: p.label.clone(),
    }
}

/// Suppression sort order: ascending label (lexicographically), then
/// descending confidence; equal keys keep their original order.
pub open spec fn spec_pred_before(a: Prediction, b: Prediction) -> bool {
    text::spec_lex_less(a.label@, b.label@) || (a.label@ == b.label@ && a.confidence
        > b.confidence)
}

/// Stable insertion of `x` into `s`: `x` lands after every element it
/// does not strictly precede.
pub open spec fn spec_insert_pred(s: Seq<Prediction>, x: Prediction) -> Seq<Prediction>
    decreases s.len(),
{
    if s.len() == 0 {
        seq![x]
    } else if spec_pred_before(x, s[0]) {
        seq![x] + s
    } else {
        seq![s[0]] + spec_insert_pred(s.drop_first(), x)
    }
}

/// Stable insertion sort of predictions under `spec_pred_before`.
pub open spec fn spec_sort_preds(s: Seq<Prediction>) -> Seq<Prediction>
    decreases s.len(),
{
    if s.len() == 0 {
        Seq::empty()
    } else {
        spec_insert_pred(spec_sort_preds(s.drop_last()), s.last())
    }
}

/// Inserting at the first position whose element `x` strictly precedes
/// is what `spec_insert_pred` does.
proof fn lemma_insert_pred_at(s: Seq<Prediction>, x: Prediction, p: int)
    requires
        0 <= p <= s.len(),
        forall|i: int| 0 <= i < p ==> !spec_pred_before(x, #[trigger] s[i]),
        p == s.len() || spec_pred_before(x, s[p]),
    ensures
        spec_insert_pred(s, x) =~= s.insert(p, x),
    decreases s.len(),
{
    if s.len() == 0 {
    } else if p == 0 {
        assert(spec_pred_before(x, s[0]));
        assert(seq![x] + s =~= s.insert(0, x));
    } else {
        assert(!spec_pred_before(x, s[0]));
        lemma_insert_pred_at(s.drop_first(), x, p - 1);
        assert(seq![s[0]] + s.drop_first().insert(p - 1, x) =~= s.insert(p, x));
    }
}

/// Everything in an insertion is the new element or an original one.
proof fn lemma_insert_pred_elems(s: Seq<Prediction>, x: Prediction)
    ensures
        spec_insert_pred(s, x).len() == s.len() + 1,
        forall|j: int|
            0 <= j < spec_insert_pred(s, x).len() ==> (#[trigger] spec_insert_pred(s, x)[j] == x
                || s.contains(spec_insert_pred(s, x)[j])),
    decreases s.len(),
{
    if s.len() == 0 {
    } else if spec_pred_before(x, s[0]) {
    } else {
        lemma_insert_pred_elems(s.drop_first(), x);
        let ins = spec_insert_pred(s, x);
        assert forall|j: int| 0 <= j < ins.len() implies (#[trigger] ins[j] == x || s.contains(
            ins[j],
        )) by {
            if j == 0 {
                assert(s.contains(s[0]));
            } else {
                let inner = spec_insert_pred(s.drop_first(), x);
                assert(ins[j] == inner[j - 1]);
                if inner[j - 1] == x {
                } else {
                    let i = choose|i: int| 0 <= i < s.drop_first().len() && s.drop_first()[i]
                        == inner[j - 1];
                    assert(s[i + 1] == inner[j - 1]);
                }
            }
        }
    }
}

/// Everything in the sorted sequence is an original element.
proof fn lemma_sort_preds_elems(s: Seq<Prediction>)
    ensures
        spec_sort_preds(s).len() == s.len(),
        forall|j: int|
            0 <= j < spec_sort_preds(s).len() ==> s.contains(#[trigger] spec_sort_preds(s)[j]),
    decreases s.len(),
{
    if s.len() > 0 {
        lemma_sort_preds_elems(s.drop_last());
        lemma_insert_pred_elems(spec_sort_preds(s.drop_last()), s.last());
        let sorted = spec_sort_preds(s);
        assert forall|j: int| 0 <= j < sorted.len() implies s.contains(#[trigger] sorted[j]) by {
            let prev = spec_sort_preds(s.drop_last());
            if sorted[j] == s.last() {
                assert(s[s.len() - 1] == s.last());
            } else {
                assert(prev.contains(sorted[j]));
                let i = choose|i: int| 0 <= i < prev.len() && prev[i] == sorted[j];
                assert(s.drop_last().contains(prev[i]));
                let k = choose|k: int| 0 <= k < s.drop_last().len() && s.drop_last()[k] == prev[i];
                assert(s[k] == sorted[j]);
            }
        }
    }
}

/// The order the suppression output keeps: no later element comes
/// strictly before an earlier one — labels ascend lexicographically,
/// and confidences descend within a label.
pub open spec fn spec_pred_ordered(s: Seq<Prediction>) -> bool {
    forall|j1: int, j2: int|
        0 <= j1 < j2 < s.len() ==> !spec_pred_before(#[trigger] s[j2], #[trigger] s[j1])
}

/// The suppression order is asymmetric.
proof fn lemma_pred_before_asym(a: Prediction, b: Prediction)
    ensures
        !(spec_pred_before(a, b) && spec_pred_before(b, a)),
{
    if spec_pred_before(a, b) && spec_pred_before(b, a) {
        if text::spec_lex_less(a.label@, b.label@) {
            if text::spec_lex_less(b.label@, a.label@) {
                text::lemma_lex_less_trans(a.label@, b.label@, a.label@);
            }
            text::lemma_lex_less_irrefl(a.label@);
        } else {
            assert(a.label@ == b.label@ && a.confidence > b.confidence);
            text::lemma_lex_less_irrefl(b.label@);
            assert(b.confidence > a.confidence);
        }
    }
}

/// The suppression order chains.
proof fn lemma_pred_before_trans(a: Prediction, b: Prediction, c: Prediction)
    requires
        spec_pred_before(a, b),
        spec_pred_before(b, c),
    ensures
        spec_pred_before(a, c),
{
    if text::spec_lex_less(a.label@, b.label@) {
        if text::spec_lex_less(b.label@, c.label@) {
            text::lemma_lex_less_trans(a.label@, b.label@, c.label@);
        } else {
            assert(b.label@ == c.label@);
        }
    } else {
        assert(a.label@ == b.label@);
    }
}

/// Inserting into an ordered sequence keeps it ordered.
proof fn lemma_insert_pred_ordered(s: Seq<Prediction>, x: Prediction)
    requires
        spec_pred_ordered(s),
    ensures
        spec_pred_ordered(spec_insert_pred(s, x)),
    decreases s.len(),
{
    if s.len() == 0 {
    } else if spec_pred_before(x, s[0]) {
        let out = spec_insert_pred(s, x);
        assert forall|j1: int, j2: int|
            0 <= j1 < j2 < out.len() implies !spec_pred_before(
            #[trigger] out[j2],
            #[trigger] out[j1],
        ) by {
            if j1 == 0 {
                assert(out[0] == x);
                assert(out[j2] == s[j2 - 1]);
                if j2 == 1 {
                    lemma_pred_before_asym(x, s[0]);
                } else {
                    if spec_pred_before(s[j2 - 1], x) {
                        lemma_pred_before_trans(s[j2 - 1], x, s[0]);
                        assert(!spec_pred_before(s[j2 - 1], s[0]));
                    }
                }
            } else {
                assert(out[j1] == s[j1 - 1]);
                assert(out[j2] == s[j2 - 1]);
            }
        }
    } else {
        lemma_insert_pred_ordered(s.drop_first(), x);
        lemma_insert_pred_elems(s.drop_first(), x);
        let inner = spec_insert_pred(s.drop_first(), x);
        let out = spec_insert_pred(s, x);
        assert forall|j1: int, j2: int|
            0 <= j1 < j2 < out.len() implies !spec_pred_before(
            #[trigger] out[j2],
            #[trigger] out[j1],
        ) by {
            if j1 == 0 {
                assert(out[0] == s[0]);
                assert(out[j2] == inner[j2 - 1]);
                if inner[j2 - 1] == x {
                } else {
                    assert(s.drop_first().contains(inner[j2 - 1]));
                    let k = choose|k: int| 0 <= k < s.drop_first().len() && s.drop_first()[k]
                        == inner[j2 - 1];
                    assert(s[k + 1] == inner[j2 - 1]);
                    assert(!spec_pred_before(s[k + 1], s[0]));
                }
            } else {
                assert(out[j1] == inner[j1 - 1]);
                assert(out[j2] == inner[j2 - 1]);
            }
        }
    }
}

/// The stable sort is ordered.
proof fn lemma_sort_preds_ordered(s: Seq<Prediction>)
    ensures
        spec_pred_ordered(spec_sort_preds(s)),
    decreases s.len(),
{
    if s.len() > 0 {
        lemma_sort_preds_ordered(s.drop_last());
        lemma_insert_pred_ordered(spec_sort_preds(s.drop_last()), s.last());
    }
}

/// The greedy pass returns an ordered sequence when the candidates are
/// ordered and everything already kept sorts no later than they do.
proof fn lemma_nms_rec_ordered(s: Seq<Prediction>, kept: Seq<Prediction>, thr: int)
    requires
        spec_pred_ordered(kept),
        spec_pred_ordered(s),
        forall|i: int, j: int|
            0 <= i < s.len() && 0 <= j < kept.len() ==> !spec_pred_before(
                #[trigger] s[i],
                #[trigger] kept[j],
            ),
    ensures
        spec_pred_ordered(spec_nms_rec(s, kept, thr)),
    decreases s.len(),
{
    if s.len() > 0 {
        if spec_suppressed(kept, s[0], thr) {
            assert forall|i: int, j: int|
                0 <= i < s.drop_first().len() && 0 <= j < kept.len() implies !spec_pred_before(
                #[trigger] s.drop_first()[i],
                #[trigger] kept[j],
            ) by {
                assert(s.drop_first()[i] == s[i + 1]);
            }
            lemma_nms_rec_ordered(s.drop_first(), kept, thr);
        } else {
            let kept2 = kept.push(s[0]);
            assert forall|j1: int, j2: int|
                0 <= j1 < j2 < kept2.len() implies !spec_pred_before(
                #[trigger] kept2[j2],
                #[trigger] kept2[j1],
            ) by {
                if j2 == kept.len() {
                    assert(kept2[j2] == s[0]);
                    assert(kept2[j1] == kept[j1]);
                } else {
                    assert(kept2[j1] == kept[j1] && kept2[j2] == kept[j2]);
                }
            }
            assert forall|i: int, j: int|
                0 <= i < s.drop_first().len() && 0 <= j < kept2.len() implies !spec_pred_before(
                #[trigger] s.drop_first()[i],
                #[trigger] kept2[j],
            ) by {
                assert(s.drop_first()[i] == s[i + 1]);
                if j == kept.len() {
                    assert(kept2[j] == s[0]);
                } else {
                    assert(kept2[j] == kept[j]);
                }
            }
            lemma_nms_rec_ordered(s.drop_first(), kept2, thr);
        }
    }
}

/// Whether a prediction is strictly ordered before another; see
/// `spec_pred_before`.
fn pred_before(a: &Prediction, b: &Prediction) -> (r: bool)
    ensures
        r == spec_pred_before(*a, *b),
{
    if text::str_lex_less(a.label.as_str(), b.label.as_str()) {
        true
    } else {
        text::str_eq(a.label.as_str(), b.label.as_str()) && a.confidence > b.confidence
    }
}

/// Inserts `x` into the sorted vector, keeping equal keys in arrival
/// order.
fn insert_pred(v: &mut Vec<Prediction>, x: Prediction)
    ensures
        final(v)@ =~= spec_insert_pred(old(v)@, x),
{
    let n = v.len();
    let mut pos: usize = 0;
    while pos < n && !pred_before(&x, &v[pos])
        invariant
            0 <= pos <= n,
            n == v@.len(),
            forall|i: int| 0 <= i < pos ==> !spec_pred_before(x, #[trigger] v@[i]),
        decreases n - pos,
    {
        pos = pos + 1;
    }
    proof {
        lemma_insert_pred_at(v@, x, pos as int);
    }
    v.insert(pos, x);
}

/// Stable sort of the predictions: ascending label, descending
/// confidence, ties in arrival order.
fn sort_predictions(input: Vec<Prediction>) -> (r: Vec<Prediction>)
    ensures
        r@ =~= spec_sort_preds(input@),
{
    let ghost orig = input@;
    let mut rest = input;
    let mut out: Vec<Prediction> = Vec::new();
    proof {
        assert(orig.subrange(0, 0) =~= Seq::<Prediction>::empty());
        assert(rest@ =~= orig.skip(0));
    }
    while rest.len() > 0
        invariant
            rest@.len() <= orig.len(),
            rest@ =~= orig.skip(orig.len() - rest@.len()),
            out@ =~= spec_sort_preds(orig.subrange(0, orig.len() - rest@.len())),
        decreases rest@.len(),
    {
        let ghost k = orig.len() - rest@.len();
        let x = rest.remove(0);
        proof {
            assert(x == orig[k]);
            assert(rest@ =~= orig.skip(k + 1));
            assert(orig.subrange(0, k + 1).drop_last() =~= orig.subrange(0, k));
            assert(orig.subrange(0, k + 1).last() == orig[k]);
        }
        insert_pred(&mut out, x);
    }
    proof {
        assert(orig.subrange(0, orig.len() as int) =~= orig);
    }
    out
}

/// Whether a prediction overlaps one already kept of the same label at
/// or above the threshold.
pub open spec fn spec_suppressed(kept: Seq<Prediction>, p: Prediction, thr: int) -> bool {
    exists|j: int|
        0 <= j < kept.len() && (#[trigger] kept[j]).label@ == p.label@
            && crate::geometry::spec_iou_at_least(&kept[j], &p, thr)
}

/// Greedy suppression over a sorted prediction sequence: each
/// prediction is kept unless one already kept of its label overlaps it
/// at or above the threshold.
pub open spec fn spec_nms_rec(s: Seq<Prediction>, kept: Seq<Prediction>, thr: int) -> Seq<
    Prediction,
>
    decreases s.len(),
{
    if s.len() == 0 {
        kept
    } else if spec_suppressed(kept, s[0], thr) {
        spec_nms_rec(s.drop_first(), kept, thr)
    } else {
        spec_nms_rec(s.drop_first(), kept.push(s[0]), thr)
    }
}

/// What suppression returns: the greedy pass over the stably sorted
/// predictions.
pub open spec fn spec_nms(s: Seq<Prediction>, thr: int) -> Seq<Prediction> {
    spec_nms_rec(spec_sort_preds(s), Seq::empty(), thr)
}

/// No two predictions of one label in `s` overlap at or above `thr`.
pub open spec fn spec_label_separated(s: Seq<Prediction>, thr: int) -> bool {
    forall|j1: int, j2: int|
        0 <= j1 < j2 < s.len() && (#[trigger] s[j1]).label@ == (#[trigger] s[j2]).label@
            ==> !crate::geometry::spec_iou_at_least(&s[j1], &s[j2], thr)
}

/// The greedy pass keeps the kept set separated: it never admits a
/// prediction that overlaps a kept one of its label.
proof fn lemma_nms_rec_separated(s: Seq<Prediction>, kept: Seq<Prediction>, thr: int)
    requires
        spec_label_separated(kept, thr),
    ensures
        spec_label_separated(spec_nms_rec(s, kept, thr), thr),
    decreases s.len(),
{
    if s.len() > 0 {
        if spec_suppressed(kept, s[0], thr) {
            lemma_nms_rec_separated(s.drop_first(), kept, thr);
        } else {
            let kept2 = kept.push(s[0]);
            assert forall|j1: int, j2: int|
                0 <= j1 < j2 < kept2.len() && (#[trigger] kept2[j1]).label@
                    == (#[trigger] kept2[j2]).label@ implies !crate::geometry::spec_iou_at_least(
                &kept2[j1],
                &kept2[j2],
                thr,
            ) by {
                if j2 == kept.len() {
                    assert(kept2[j1] == kept[j1]);
                    assert(kept2[j2] == s[0]);
                    assert(!spec_suppressed(kept, s[0], thr));
                } else {
                    assert(kept2[j1] == kept[j1] && kept2[j2] == kept[j2]);
                }
            }
            lemma_nms_rec_separated(s.drop_first(), kept2, thr);
        }
    }
}

/// Everything the greedy pass returns comes from the kept set or the
/// predictions.
proof fn lemma_nms_rec_elems(s: Seq<Prediction>, kept: Seq<Prediction>, thr: int)
    ensures
        forall|j: int|
            0 <= j < spec_nms_rec(s, kept, thr).len() ==> kept.contains(
                #[trigger] spec_nms_rec(s, kept, thr)[j],
            ) || s.contains(spec_nms_rec(s, kept, thr)[j]),
    decreases s.len(),
{
    if s.len() > 0 {
        let out = spec_nms_rec(s, kept, thr);
        if spec_suppressed(kept, s[0], thr) {
            lemma_nms_rec_elems(s.drop_first(), kept, thr);
            assert(out == spec_nms_rec(s.drop_first(), kept, thr));
            assert forall|j: int| 0 <= j < out.len() implies kept.contains(#[trigger] out[j])
                || s.contains(out[j]) by {
                assert(kept.contains(spec_nms_rec(s.drop_first(), kept, thr)[j])
                    || s.drop_first().contains(spec_nms_rec(s.drop_first(), kept, thr)[j]));
                if s.drop_first().contains(out[j]) {
                    let i = choose|i: int| 0 <= i < s.drop_first().len() && s.drop_first()[i]
                        == out[j];
                    assert(s[i + 1] == out[j]);
                }
            }
        } else {
            let kept2 = kept.push(s[0]);
            lemma_nms_rec_elems(s.drop_first(), kept2, thr);
            assert(out == spec_nms_rec(s.drop_first(), kept2, thr));
            assert forall|j: int| 0 <= j < out.len() implies kept.contains(#[trigger] out[j])
                || s.contains(out[j]) by {
                assert(kept2.contains(spec_nms_rec(s.drop_first(), kept2, thr)[j])
                    || s.drop_first().contains(spec_nms_rec(s.drop_first(), kept2, thr)[j]));
                if kept2.contains(out[j]) {
                    let i = choose|i: int| 0 <= i < kept2.len() && kept2[i] == out[j];
                    if i == kept.len() {
                        assert(s[0] == out[j]);
                    } else {
                        assert(kept[i] == out[j]);
                    }
                } else if s.drop_first().contains(out[j]) {
                    let i = choose|i: int| 0 <= i < s.drop_first().len() && s.drop_first()[i]
                        == out[j];
                    assert(s[i + 1] == out[j]);
                }
            }
        }
    }
}

/// The kept set only grows: everything kept when the pass starts is in
/// what it returns.
proof fn lemma_nms_rec_mono(s: Seq<Prediction>, kept: Seq<Prediction>, thr: int)
    ensures
        forall|j: int|
            0 <= j < kept.len() ==> spec_nms_rec(s, kept, thr).contains(#[trigger] kept[j]),
    decreases s.len(),
{
    if s.len() == 0 {
        assert forall|j: int| 0 <= j < kept.len() implies spec_nms_rec(s, kept, thr).contains(
            #[trigger] kept[j],
        ) by {
            assert(spec_nms_rec(s, kept, thr)[j] == kept[j]);
        }
    } else if spec_suppressed(kept, s[0], thr) {
        lemma_nms_rec_mono(s.drop_first(), kept, thr);
    } else {
        let kept2 = kept.push(s[0]);
        lemma_nms_rec_mono(s.drop_first(), kept2, thr);
        assert forall|j: int| 0 <= j < kept.len() implies spec_nms_rec(s, kept, thr).contains(
            #[trigger] kept[j],
        ) by {
            assert(kept2[j] == kept[j]);
            assert(spec_nms_rec(s.drop_first(), kept2, thr).contains(kept2[j]));
        }
    }
}

/// `p` overlaps a kept box of its label at or above the threshold
/// that sorts no later than `p` — with the labels equal, one whose
/// confidence is at least `p`'s.
pub open spec fn spec_dominated(out: Seq<Prediction>, p: Prediction, thr: int) -> bool {
    exists|j: int|
        0 <= j < out.len() && (#[trigger] out[j]).label@ == p.label@ && !spec_pred_before(
            p,
            out[j],
        ) && crate::geometry::spec_iou_at_least(&out[j], &p, thr)
}

/// Every sorted prediction the pass drops is dominated by something it
/// keeps.
proof fn lemma_nms_rec_dominated(s: Seq<Prediction>, kept: Seq<Prediction>, thr: int)
    requires
        spec_pred_ordered(s),
        forall|i: int, j: int|
            0 <= i < s.len() && 0 <= j < kept.len() ==> !spec_pred_before(
                #[trigger] s[i],
                #[trigger] kept[j],
            ),
    ensures
        forall|i: int|
            0 <= i < s.len() && !spec_nms_rec(s, kept, thr).contains(#[trigger] s[i])
                ==> spec_dominated(spec_nms_rec(s, kept, thr), s[i], thr),
    decreases s.len(),
{
    if s.len() > 0 {
        let out = spec_nms_rec(s, kept, thr);
        if spec_suppressed(kept, s[0], thr) {
            assert forall|i: int, j: int|
                0 <= i < s.drop_first().len() && 0 <= j < kept.len() implies !spec_pred_before(
                #[trigger] s.drop_first()[i],
                #[trigger] kept[j],
            ) by {
                assert(s.drop_first()[i] == s[i + 1]);
            }
            lemma_nms_rec_dominated(s.drop_first(), kept, thr);
            lemma_nms_rec_mono(s.drop_first(), kept, thr);
            assert forall|i: int|
                0 <= i < s.len() && !out.contains(#[trigger] s[i]) implies spec_dominated(
                out,
                s[i],
                thr,
            ) by {
                if i == 0 {
                    let j = choose|j: int|
                        0 <= j < kept.len() && (#[trigger] kept[j]).label@ == s[0].label@
                            && crate::geometry::spec_iou_at_least(&kept[j], &s[0], thr);
                    assert(!spec_pred_before(s[0], kept[j]));
                    assert(out.contains(kept[j]));
                    let j2 = choose|j2: int| 0 <= j2 < out.len() && out[j2] == kept[j];
                    assert(spec_dominated(out, s[0], thr));
                } else {
                    assert(s.drop_first()[i - 1] == s[i]);
                }
            }
        } else {
            let kept2 = kept.push(s[0]);
            assert forall|i: int, j: int|
                0 <= i < s.drop_first().len() && 0 <= j < kept2.len() implies !spec_pred_before(
                #[trigger] s.drop_first()[i],
                #[trigger] kept2[j],
            ) by {
                assert(s.drop_first()[i] == s[i + 1]);
                if j == kept.len() {
                    assert(kept2[j] == s[0]);
                } else {
                    assert(kept2[j] == kept[j]);
                }
            }
            lemma_nms_rec_dominated(s.drop_first(), kept2, thr);
            lemma_nms_rec_mono(s.drop_first(), kept2, thr);
            assert forall|i: int|
                0 <= i < s.len() && !out.contains(#[trigger] s[i]) implies spec_dominated(
                out,
                s[i],
                thr,
            ) by {
                if i == 0 {
                    assert(kept2[kept.len() as int] == s[0]);
                    assert(out.contains(s[0]));
                    assert(false);
                } else {
                    assert(s.drop_first()[i - 1] == s[i]);
                }
            }
        }
    }
}

/// Suppression output never holds two boxes of one label that overlap
/// at or above the threshold; every box it returns is one of the
/// predictions given; every prediction it drops is dominated — a kept
/// box of its label, with confidence at least its own, overlaps it at
/// or above the threshold; and the output stays in label order with
/// confidences descending within a label. With separation and
/// domination together, the best-scoring box of every label is kept.
pub proof fn lemma_nms_separated(s: Seq<Prediction>, thr: int)
    ensures
        spec_label_separated(spec_nms(s, thr), thr),
        spec_pred_ordered(spec_nms(s, thr)),
        forall|j: int|
            0 <= j < spec_nms(s, thr).len() ==> s.contains(#[trigger] spec_nms(s, thr)[j]),
        forall|i: int|
            0 <= i < s.len() && !spec_nms(s, thr).contains(#[trigger] s[i]) ==> spec_dominated(
                spec_nms(s, thr),
                s[i],
                thr,
            ),
{
    lemma_nms_rec_separated(spec_sort_preds(s), Seq::empty(), thr);
    lemma_nms_rec_elems(spec_sort_preds(s), Seq::empty(), thr);
    lemma_sort_preds_ordered(s);
    lemma_nms_rec_dominated(spec_sort_preds(s), Seq::empty(), thr);
    lemma_nms_rec_ordered(spec_sort_preds(s), Seq::empty(), thr);
    lemma_sort_preds_elems(s);
    let sorted = spec_sort_preds(s);
    let out = spec_nms(s, thr);
    assert forall|j: int| 0 <= j < out.len() implies s.contains(#[trigger] out[j]) by {
        assert(Seq::<Prediction>::empty().contains(out[j]) || sorted.contains(out[j]));
        let i = choose|i: int| 0 <= i < sorted.len() && sorted[i] == out[j];
        assert(s.contains(sorted[i]));
    }
    assert forall|i: int|
        0 <= i < s.len() && !out.contains(#[trigger] s[i]) implies spec_dominated(
        out,
        s[i],
        thr,
    ) by {
        lemma_sort_preds_contains(s, s[i]);
        let k = choose|k: int| 0 <= k < sorted.len() && sorted[k] == s[i];
        assert(!out.contains(sorted[k]));
    }
}

/// Every original element appears in its sorted sequence.
proof fn lemma_sort_preds_contains(s: Seq<Prediction>, x: Prediction)
    requires
        s.contains(x),
    ensures
        spec_sort_preds(s).contains(x),
    decreases s.len(),
{
    if s.len() > 0 {
        let prev = spec_sort_preds(s.drop_last());
        lemma_insert_pred_contains(prev, s.last());
        if x == s.last() {
        } else {
            let i = choose|i: int| 0 <= i < s.len() && s[i] == x;
            assert(s.drop_last()[i] == x);
            assert(s.drop_last().contains(x));
            lemma_sort_preds_contains(s.drop_last(), x);
            let j = choose|j: int| 0 <= j < prev.len() && prev[j] == x;
            lemma_insert_pred_keeps(prev, s.last(), j);
        }
    }
}

/// The new element lands somewhere in the insertion.
proof fn lemma_insert_pred_contains(s: Seq<Prediction>, x: Prediction)
    ensures
        spec_insert_pred(s, x).contains(x),
    decreases s.len(),
{
    if s.len() == 0 {
        assert(spec_insert_pred(s, x)[0] == x);
    } else if spec_pred_before(x, s[0]) {
        assert(spec_insert_pred(s, x)[0] == x);
    } else {
        lemma_insert_pred_contains(s.drop_first(), x);
        let inner = spec_insert_pred(s.drop_first(), x);
        let j = choose|j: int| 0 <= j < inner.len() && inner[j] == x;
        assert(spec_insert_pred(s, x)[j + 1] == x);
    }
}

/// Old elements stay in the insertion.
proof fn lemma_insert_pred_keeps(s: Seq<Prediction>, x: Prediction, i: int)
    requires
        0 <= i < s.len(),
    ensures
        spec_insert_pred(s, x).contains(s[i]),
    decreases s.len(),
{
    if spec_pred_before(x, s[0]) {
        assert(spec_insert_pred(s, x)[i + 1] == s[i]);
    } else if i == 0 {
        assert(spec_insert_pred(s, x)[0] == s[0]);
    } else {
        lemma_insert_pred_keeps(s.drop_first(), x, i - 1);
        let inner = spec_insert_pred(s.drop_first(), x);
        assert(s.drop_first()[i - 1] == s[i]);
        let j = choose|j: int| 0 <= j < inner.len() && inner[j] == s[i];
        assert(spec_insert_pred(s, x)[j + 1] == s[i]);
    }
}

/// All boxes well formed.
pub open spec fn spec_preds_wf(s: Seq<Prediction>) -> bool {
    forall|i: int| 0 <= i < s.len() ==> crate::geometry::spec_wf_box(&#[trigger] s[i])
}

/// Removes overlapping boxes: predictions are ordered by label and
/// then by descending confidence, and each is kept only when no kept
/// box of its label overlaps it at `iou_threshold_micros` or more.
pub fn non_maximum_suppression(predictions: Vec<Prediction>, iou_threshold_micros: u64) -> (r: Vec<
    Prediction,
>)
    requires
        spec_preds_wf(predictions@),
        iou_threshold_micros <= 1_000_000,
    ensures
        r@ == spec_nms(predictions@, iou_threshold_micros as int),
        spec_preds_wf(r@),
        spec_label_separated(r@, iou_threshold_micros as int),
        spec_pred_ordered(r@),
{
    proof {
        lemma_nms_separated(predictions@, iou_threshold_micros as int);
    }
    let ghost orig = predictions@;
    let sorted = sort_predictions(predictions);
    proof {
        lemma_sort_preds_elems(orig);
    }
    let n = sorted.len();
    let mut kept: Vec<Prediction> = Vec::new();
    let mut i: usize = 0;
    proof {
        assert(sorted@.skip(0) =~= sorted@);
    }
    while i < n
        invariant
            0 <= i <= n,
            n == sorted@.len(),
            sorted@ == spec_sort_preds(orig),
            spec_preds_wf(sorted@),
            spec_preds_wf(kept@),
            iou_threshold_micros <= 1_000_000,
            spec_nms_rec(sorted@, Seq::empty(), iou_threshold_micros as int) == spec_nms_rec(
                sorted@.skip(i as int),
                kept@,
                iou_threshold_micros as int,
            ),
        decreases n - i,
    {
        proof {
            assert(sorted@.skip(i as int)[0] == sorted@[i as int]);
            assert(sorted@.skip(i as int).drop_first() =~= sorted@.skip(i + 1));
        }
        let p = &sorted[i];
        let m = kept.len();
        let mut suppressed = false;
        let mut j: usize = 0;
        while j < m && !suppressed
            invariant
                0 <= j <= m,
                m == kept@.len(),
                spec_preds_wf(kept@),
                spec_preds_wf(sorted@),
                i < sorted@.len(),
                p == &sorted@[i as int],
                iou_threshold_micros <= 1_000_000,
                !suppressed ==> forall|t: int|
                    0 <= t < j ==> !((#[trigger] kept@[t]).label@ == p.label@
                        && crate::geometry::spec_iou_at_least(
                        &kept@[t],
                        p,
                        iou_threshold_micros as int,
                    )),
                suppressed ==> spec_suppressed(
                    kept@,
                    sorted@[i as int],
                    iou_threshold_micros as int,
                ),
            decreases m - j,
        {
            if text::str_eq(kept[j].label.as_str(), p.label.as_str())
                && crate::geometry::iou_at_least(&kept[j], p, iou_threshold_micros) {
                suppressed = true;
            }
            j = j + 1;
        }
        if suppressed {
        } else {
            assert(!spec_suppressed(kept@, sorted@[i as int], iou_threshold_micros as int));
            kept.push(copy_pred(&sorted[i]));
        }
        i = i + 1;
    }
    proof {
        assert(sorted@.skip(n as int) =~= Seq::<Prediction>::empty());
        lemma_nms_rec_separated(sorted@, Seq::empty(), iou_threshold_micros as int);
    }
    kept
}

/// Index of the greatest value among `data[base .. base + k]`, the last
/// such index when several are equal, relative to `base`.
pub open spec fn spec_argmax_upto(data: Seq<i64>, base: int, k: int) -> int
    decreases k,
{
    if k <= 1 {
        0
    } else {
        let p = spec_argmax_upto(data, base, k - 1);
        if data[base + k - 1] >= data[base + p] {
            k - 1
        } else {
            p
        }
    }
}

proof fn lemma_argmax_upto_range(data: Seq<i64>, base: int, k: int)
    requires
        k >= 1,
    ensures
        0 <= spec_argmax_upto(data, base, k) < k,
    decreases k,
{
    if k > 1 {
        lemma_argmax_upto_range(data, base, k - 1);
    }
}

/// The class slice's best index: last maximum wins.
fn argmax(data: &Vec<i64>, base: usize, count: usize) -> (r: usize)
    requires
        count >= 1,
        base + count <= data@.len(),
    ensures
        r == spec_argmax_upto(data@, base as int, count as int),
        r < count,
{
    let dn = data.len();
    let mut best: usize = 0;
    let mut k: usize = 1;
    while k < count
        invariant
            1 <= k <= count,
            base + count <= dn,
            dn == data@.len(),
            best == spec_argmax_upto(data@, base as int, k as int),
            best < k,
        decreases count - k,
    {
        if data[base + k] >= data[base + best] {
            best = k;
        }
        k = k + 1;
    }
    best
}

/// A center/size coordinate scaled to image space: the center plus or
/// minus half the size, truncated to whole pixels, floored at zero and
/// saturated at `u32::MAX`. `c` and `w` are micros in model-input space.
pub open spec fn spec_c_coord(c: int, w: int, orig: int, input: int, plus: bool) -> int {
    let n = if plus {
        2 * c * orig + w * orig
    } else {
        2 * c * orig - w * orig
    };
    if n <= 0 {
        0
    } else {
        let px = n / (2 * input * 1_000_000);
        if px > u32::MAX {
            u32::MAX as int
        } else {
            px
        }
    }
}

/// Computes one center/size coordinate; see `spec_c_coord`.
fn c_coord(c: i64, w: i64, orig: u32, input: u32, plus: bool) -> (r: u32)
    requires
        input >= 1,
    ensures
        r == spec_c_coord(c as int, w as int, orig as int, input as int, plus),
{
    assert((2 * (c as i128)) * (orig as i128) <= 0x2_0000_0000_0000_0000_0000_0000i128 && (2 * (
    c as i128)) * (orig as i128) >= -0x2_0000_0000_0000_0000_0000_0000i128 && (w as i128) * (
    orig as i128) <= 0x1_0000_0000_0000_0000_0000_0000i128 && (w as i128) * (orig as i128)
        >= -0x1_0000_0000_0000_0000_0000_0000i128) by (nonlinear_arith)
        requires
            -0x8000_0000_0000_0000i128 <= c as i128 <= 0x8000_0000_0000_0000i128,
            -0x8000_0000_0000_0000i128 <= w as i128 <= 0x8000_0000_0000_0000i128,
            0 <= orig as i128 <= 0x1_0000_0000i128,
    ;
    let half: i128 = 2 * (c as i128) * (orig as i128);
    let side: i128 = (w as i128) * (orig as i128);
    let n: i128 = if plus {
        half + side
    } else {
        half - side
    };
    if n <= 0 {
        return 0;
    }
    let den: i128 = 2 * (input as i128) * 1_000_000;
    let px: i128 = n / den;
    assert(0 <= n / den <= n) by (nonlinear_arith)
        requires
            n > 0,
            den >= 2_000_000,
    ;
    if px > u32::MAX as i128 {
        u32::MAX
    } else {
        px as u32
    }
}

/// Whether a third-format row survives: its objectness strictly exceeds
/// the threshold and the filter, when set, admits its best class.
pub open spec fn spec_c_keep(
    data: Seq<i64>,
    features: int,
    filter: Option<Seq<bool>>,
    thr: int,
    i: int,
) -> bool {
    let base = i * features;
    &&& data[base + 4] > thr
    &&& (match filter {
        Some(f) => f[spec_argmax_upto(data, base + 5, features - 5)],
        None => true,
    })
}

/// The prediction built from a third-format row: its best class's
/// name, the objectness as confidence, and the center/size box scaled
/// to image space.
pub open spec fn spec_c_pred(
    data: Seq<i64>,
    features: int,
    classes: Seq<String>,
    ow: int,
    oh: int,
    iw: int,
    ih: int,
    i: int,
) -> Prediction {
    let base = i * features;
    let cls = spec_argmax_upto(data, base + 5, features - 5);
    spec_order_box(
        Prediction {
            x_min: spec_c_coord(data[base] as int, data[base + 2] as int, ow, iw, false) as u32,
            y_min: spec_c_coord(data[base + 1] as int, data[base + 3] as int, oh, ih, false) as u32,
            x_max: spec_c_coord(data[base] as int, data[base + 2] as int, ow, iw, true) as u32,
            y_max: spec_c_coord(data[base + 1] as int, data[base + 3] as int, oh, ih, true) as u32,
            confidence: data[base + 4],
            label: classes[cls],
        },
    )
}

/// The predictions from the first `n` third-format rows, in row order.
pub open spec fn spec_c_preds(
    data: Seq<i64>,
    features: int,
    filter: Option<Seq<bool>>,
    classes: Seq<String>,
    thr: int,
    ow: int,
    oh: int,
    iw: int,
    ih: int,
    n: int,
) -> Seq<Prediction>
    decreases n,
{
    if n <= 0 {
        Seq::empty()
    } else {
        let rest = spec_c_preds(data, features, filter, classes, thr, ow, oh, iw, ih, n - 1);
        if spec_c_keep(data, features, filter, thr, n - 1) {
            rest.push(spec_c_pred(data, features, classes, ow, oh, iw, ih, n - 1))
        } else {
            rest
        }
    }
}

/// The tensor layout a third-format model emits: one tensor, either
/// `[batch, rows, 5 + classes]` with at least one batch, or
/// `[rows, 5 + classes]`, sized to its shape.
pub open spec fn spec_c_layout_ok(t: &Tensor, classes_len: int) -> bool {
    let features = 5 + classes_len;
    ||| (t.shape@.len() == 3 && t.shape@[0] >= 1 && t.shape@[2] == features && t.data@.len()
        == t.shape@[0] * t.shape@[1] * features)
    ||| (t.shape@.len() == 2 && t.shape@[1] == features && t.data@.len() == t.shape@[0] * features)
}

/// Rows of the first batch of a third-format tensor.
pub open spec fn spec_c_rows(t: &Tensor) -> int {
    if t.shape@.len() == 3 {
        t.shape@[1] as int
    } else {
        t.shape@[0] as int
    }
}

/// Decodes a third-format ("YOLO5"-style) output: one tensor of rows
/// `[cx, cy, w, h, objectness, class scores...]`; rows above the
/// threshold keep their best class, then label-wise suppression drops
/// any box overlapping a better one of its label at half IoU or more.
#[verifier::loop_isolation(false)]
#[verifier::rlimit(100)]
pub fn yolo5_post_process(
    outputs: &Vec<NamedTensor>,
    confidence_threshold: i64,
    orig_width: u32,
    orig_height: u32,
    input_width: u32,
    input_height: u32,
    object_filter: &Option<Vec<bool>>,
    object_classes: &Vec<String>,
) -> (r: Result<Vec<Prediction>, DetectError>)
    requires
        input_width >= 1,
        input_height >= 1,
        1 <= object_classes@.len() <= 0x1000_0000,
        (spec_filter_view(object_filter) matches Some(f) ==> f.len() == object_classes@.len()),
    ensures
        (r matches Err(e) && e is MissingOutput) <==> outputs@.len() == 0,
        r is Ok <==> (outputs@.len() >= 1 && spec_c_layout_ok(
            &outputs@[0].value,
            object_classes@.len() as int,
        )),
        outputs@.len() >= 1 ==> {
            let t = outputs@[0].value;
            &&& (r matches Err(e) && e is UnexpectedShape) <==> !spec_c_layout_ok(
                &t,
                object_classes@.len() as int,
            )
            &&& (r matches Err(e) ==> e matches DetectError::UnexpectedShape {
                actual,
                expected_features,
            } ==> actual@ == t.shape@ && expected_features == 5 + object_classes@.len())
            &&& r matches Ok(preds) ==> preds@ == spec_nms(
                spec_c_preds(
                    t.data@,
                    5 + object_classes@.len() as int,
                    spec_filter_view(object_filter),
                    object_classes@,
                    confidence_threshold as int,
                    orig_width as int,
                    orig_height as int,
                    input_width as int,
                    input_height as int,
                    spec_c_rows(&t),
                ),
                500_000,
            )
        },
        r matches Ok(preds) ==> forall|j: int|
            0 <= j < preds@.len() ==> crate::geometry::spec_wf_box(&preds@[j]),
{
    if outputs.len() == 0 {
        return Err(DetectError::MissingOutput);
    }
    let t = &outputs[0].value;
    let features = 5 + object_classes.len();
    let rows: usize;
    let dlen = t.data.len();
    if t.shape.len() == 3 && t.shape[0] >= 1 && t.shape[2] == features {
        let s0 = t.shape[0];
        let s1 = t.shape[1];
        assert((s0 as u128) * (s1 as u128) <= 0xFFFF_FFFF_FFFF_FFFFu128
            * 0xFFFF_FFFF_FFFF_FFFFu128 && (s0 as u128) * (s1 as u128) == (s0 as int) * (
        s1 as int)) by (nonlinear_arith)
            requires
                0 <= s0 as u128 <= 0xFFFF_FFFF_FFFF_FFFFu128,
                0 <= s1 as u128 <= 0xFFFF_FFFF_FFFF_FFFFu128,
        ;
        let p12: u128 = (s0 as u128) * (s1 as u128);
        if p12 > usize::MAX as u128 {
            proof {
                assert((s0 as int) * (s1 as int) * (features as int) >= (s0 as int) * (s1 as int))
                    by (nonlinear_arith)
                    requires
                        s0 >= 0,
                        s1 >= 0,
                        features >= 1,
                ;
            }
            return Err(
                DetectError::UnexpectedShape {
                    actual: clone_shape(&t.shape),
                    expected_features: features,
                },
            );
        }
        assert(p12 * (features as u128) <= 0xFFFF_FFFF_FFFF_FFFFu128
            * 0xFFFF_FFFF_FFFF_FFFFu128) by (nonlinear_arith)
            requires
                0 <= p12 <= 0xFFFF_FFFF_FFFF_FFFFu128,
                0 <= features as u128 <= 0xFFFF_FFFF_FFFF_FFFFu128,
        ;
        if !((dlen as u128) == p12 * (features as u128)) {
            return Err(
                DetectError::UnexpectedShape {
                    actual: clone_shape(&t.shape),
                    expected_features: features,
                },
            );
        }
        rows = s1;
    } else if t.shape.len() == 2 && t.shape[1] == features {
        let s0 = t.shape[0];
        assert((s0 as u128) * (features as u128) <= 0xFFFF_FFFF_FFFF_FFFFu128
            * 0xFFFF_FFFF_FFFF_FFFFu128 && (s0 as u128) * (features as u128) == (s0 as int) * (
        features as int)) by (nonlinear_arith)
            requires
                0 <= s0 as u128 <= 0xFFFF_FFFF_FFFF_FFFFu128,
                0 <= features as u128 <= 0xFFFF_FFFF_FFFF_FFFFu128,
        ;
        if !((dlen as u128) == (s0 as u128) * (features as u128)) {
            return Err(
                DetectError::UnexpectedShape {
                    actual: clone_shape(&t.shape),
                    expected_features: features,
                },
            );
        }
        rows = s0;
    } else {
        return Err(
            DetectError::UnexpectedShape {
                actual: clone_shape(&t.shape),
                expected_features: features,
            },
        );
    }
    proof {
        assert((rows as int) * (features as int) <= t.data@.len()) by (nonlinear_arith)
            requires
                t.data@.len() == (rows as int) * (features as int) || (t.shape@.len() == 3
                    && t.data@.len() == (t.shape@[0] as int) * (rows as int) * (features as int)
                    && t.shape@[0] >= 1),
                rows >= 0,
                features >= 5,
        ;
    }
    let ghost filter = spec_filter_view(object_filter);
    let mut cands: Vec<Prediction> = Vec::new();
    let mut i: usize = 0;
    while i < rows
        invariant
            0 <= i <= rows,
            cands@ == spec_c_preds(
                t.data@,
                features as int,
                filter,
                object_classes@,
                confidence_threshold as int,
                orig_width as int,
                orig_height as int,
                input_width as int,
                input_height as int,
                i as int,
            ),
            spec_preds_wf(cands@),
        decreases rows - i,
    {
        proof {
            assert((i as int) * (features as int) + features <= (rows as int) * (features as int))
                by (nonlinear_arith)
                requires
                    0 <= i < rows,
                    features >= 1,
            ;
        }
        let base = i * features;
        let objectness = t.data[base + 4];
        if objectness > confidence_threshold {
            let cls = argmax(&t.data, base + 5, features - 5);
            let admitted: bool = match object_filter {
                Some(f) => f[cls],
                None => true,
            };
            if admitted {
                let x_min = c_coord(t.data[base], t.data[base + 2], orig_width, input_width, false);
                let x_max = c_coord(t.data[base], t.data[base + 2], orig_width, input_width, true);
                let y_min = c_coord(
                    t.data[base + 1],
                    t.data[base + 3],
                    orig_height,
                    input_height,
                    false,
                );
                let y_max = c_coord(
                    t.data[base + 1],
                    t.data[base + 3],
                    orig_height,
                    input_height,
                    true,
                );
                let cand = Prediction {
                    x_min,
                    y_min,
                    x_max: if x_max >= x_min {
                        x_max
                    } else {
                        x_min
                    },
                    y_max: if y_max >= y_min {
                        y_max
                    } else {
                        y_min
                    },
                    confidence: objectness,
                    label: object_classes[cls].clone(),
                };
                cands.push(cand);
            }
        }
        i = i + 1;
    }
    let kept = non_maximum_suppression(cands, 500_000);
    Ok(kept)
}

/// The quantities handed to a post-processor: the active threshold, the
/// decoded image's dimensions, the model-input dimensions (the resize
/// factors are their ratios), the optional class filter and the class
/// list.
pub struct PostProcessParams<'a> {
    pub confidence_threshold: i64,
    pub orig_width: u32,
    pub orig_height: u32,
    pub input_width: u32,
    pub input_height: u32,
    pub object_filter: &'a Option<Vec<bool>>,
    pub object_classes: &'a Vec<String>,
}

/// One (query, class) pair with its probability, as second-format
/// decoding flattens them.
#[derive(Clone, Copy)]
pub struct ScoredIdx {
    pub prob: i64,
    pub query: usize,
    pub class: usize,
}

/// Second-format sort order: descending probability; equal
/// probabilities keep their original order.
pub open spec fn spec_scored_before(a: ScoredIdx, b: ScoredIdx) -> bool {
    a.prob > b.prob
}

/// Stable insertion of `x` into `s` under `spec_scored_before`.
pub open spec fn spec_insert_scored(s: Seq<ScoredIdx>, x: ScoredIdx) -> Seq<ScoredIdx>
    decreases s.len(),
{
    if s.len() == 0 {
        seq![x]
    } else if spec_scored_before(x, s[0]) {
        seq![x] + s
    } else {
        seq![s[0]] + spec_insert_scored(s.drop_first(), x)
    }
}

/// Stable insertion sort of scored pairs by descending probability.
pub open spec fn spec_sort_scored(s: Seq<ScoredIdx>) -> Seq<ScoredIdx>
    decreases s.len(),
{
    if s.len() == 0 {
        Seq::empty()
    } else {
        spec_insert_scored(spec_sort_scored(s.drop_last()), s.last())
    }
}

proof fn lemma_insert_scored_at(s: Seq<ScoredIdx>, x: ScoredIdx, p: int)
    requires
        0 <= p <= s.len(),
        forall|i: int| 0 <= i < p ==> !spec_scored_before(x, #[trigger] s[i]),
        p == s.len() || spec_scored_before(x, s[p]),
    ensures
        spec_insert_scored(s, x) =~= s.insert(p, x),
    decreases s.len(),
{
    if s.len() == 0 {
    } else if p == 0 {
        assert(spec_scored_before(x, s[0]));
        assert(seq![x] + s =~= s.insert(0, x));
    } else {
        assert(!spec_scored_before(x, s[0]));
        lemma_insert_scored_at(s.drop_first(), x, p - 1);
        assert(seq![s[0]] + s.drop_first().insert(p - 1, x) =~= s.insert(p, x));
    }
}

/// Everything in a scored insertion is the new element or an original
/// one.
proof fn lemma_insert_scored_elems(s: Seq<ScoredIdx>, x: ScoredIdx)
    ensures
        spec_insert_scored(s, x).len() == s.len() + 1,
        forall|j: int|
            0 <= j < spec_insert_scored(s, x).len() ==> (#[trigger] spec_insert_scored(s, x)[j]
                == x || s.contains(spec_insert_scored(s, x)[j])),
    decreases s.len(),
{
    if s.len() == 0 {
    } else if spec_scored_before(x, s[0]) {
    } else {
        lemma_insert_scored_elems(s.drop_first(), x);
        let ins = spec_insert_scored(s, x);
        assert forall|j: int| 0 <= j < ins.len() implies (#[trigger] ins[j] == x || s.contains(
            ins[j],
        )) by {
            if j == 0 {
                assert(s.contains(s[0]));
            } else {
                let inner = spec_insert_scored(s.drop_first(), x);
                assert(ins[j] == inner[j - 1]);
                if inner[j - 1] == x {
                } else {
                    let i = choose|i: int| 0 <= i < s.drop_first().len() && s.drop_first()[i]
                        == inner[j - 1];
                    assert(s[i + 1] == inner[j - 1]);
                }
            }
        }
    }
}

/// Everything in the sorted scored sequence is an original element.
proof fn lemma_sort_scored_elems(s: Seq<ScoredIdx>)
    ensures
        spec_sort_scored(s).len() == s.len(),
        forall|j: int|
            0 <= j < spec_sort_scored(s).len() ==> s.contains(#[trigger] spec_sort_scored(s)[j]),
    decreases s.len(),
{
    if s.len() > 0 {
        lemma_sort_scored_elems(s.drop_last());
        lemma_insert_scored_elems(spec_sort_scored(s.drop_last()), s.last());
        let sorted = spec_sort_scored(s);
        assert forall|j: int| 0 <= j < sorted.len() implies s.contains(#[trigger] sorted[j]) by {
            let prev = spec_sort_scored(s.drop_last());
            if sorted[j] == s.last() {
                assert(s[s.len() - 1] == s.last());
            } else {
                assert(prev.contains(sorted[j]));
                let i = choose|i: int| 0 <= i < prev.len() && prev[i] == sorted[j];
                assert(s.drop_last().contains(prev[i]));
                let k = choose|k: int| 0 <= k < s.drop_last().len() && s.drop_last()[k] == prev[i];
                assert(s[k] == sorted[j]);
            }
        }
    }
}

/// Inserts `x` into the sorted vector, keeping equal keys in arrival
/// order.
fn insert_scored(v: &mut Vec<ScoredIdx>, x: ScoredIdx)
    ensures
        final(v)@ =~= spec_insert_scored(old(v)@, x),
{
    let n = v.len();
    let mut pos: usize = 0;
    while pos < n && !(x.prob > v[pos].prob)
        invariant
            0 <= pos <= n,
            n == v@.len(),
            forall|i: int| 0 <= i < pos ==> !spec_scored_before(x, #[trigger] v@[i]),
        decreases n - pos,
    {
        pos = pos + 1;
    }
    proof {
        lemma_insert_scored_at(v@, x, pos as int);
    }
    v.insert(pos, x);
}

/// Stable sort of the scored pairs by descending probability.
fn sort_scored(input: Vec<ScoredIdx>) -> (r: Vec<ScoredIdx>)
    ensures
        r@ =~= spec_sort_scored(input@),
{
    let ghost orig = input@;
    let mut rest = input;
    let mut out: Vec<ScoredIdx> = Vec::new();
    proof {
        assert(orig.subrange(0, 0) =~= Seq::<ScoredIdx>::empty());
        assert(rest@ =~= orig.skip(0));
    }
    while rest.len() > 0
        invariant
            rest@.len() <= orig.len(),
            rest@ =~= orig.skip(orig.len() - rest@.len()),
            out@ =~= spec_sort_scored(orig.subrange(0, orig.len() - rest@.len())),
        decreases rest@.len(),
    {
        let ghost k = orig.len() - rest@.len();
        let x = rest.remove(0);
        proof {
            assert(x == orig[k]);
            assert(rest@ =~= orig.skip(k + 1));
            assert(orig.subrange(0, k + 1).drop_last() =~= orig.subrange(0, k));
            assert(orig.subrange(0, k + 1).last() == orig[k]);
        }
        insert_scored(&mut out, x);
    }
    proof {
        assert(orig.subrange(0, orig.len() as int) =~= orig);
    }
    out
}

/// A normalized center/size coordinate scaled to the image: the center
/// plus or minus half the size in micro-pixels, rounded half-up to
/// whole pixels, floored at zero and saturated at `u32::MAX`. `n` below
/// is in doubled micro-pixels.
pub open spec fn spec_b_coord(c: int, w: int, orig: int, plus: bool) -> int {
    let n = if plus {
        2 * c * orig + w * orig
    } else {
        2 * c * orig - w * orig
    };
    if n <= 0 {
        0
    } else {
        let px = (n + 1_000_000) / 2_000_000;
        if px > u32::MAX {
            u32::MAX as int
        } else {
            px
        }
    }
}

/// Computes one second-format coordinate; see `spec_b_coord`.
fn b_coord(c: i64, w: i64, orig: u32, plus: bool) -> (r: u32)
    ensures
        r == spec_b_coord(c as int, w as int, orig as int, plus),
{
    assert((2 * (c as i128)) * (orig as i128) <= 0x2_0000_0000_0000_0000_0000_0000i128 && (2 * (
    c as i128)) * (orig as i128) >= -0x2_0000_0000_0000_0000_0000_0000i128 && (w as i128) * (
    orig as i128) <= 0x1_0000_0000_0000_0000_0000_0000i128 && (w as i128) * (orig as i128)
        >= -0x1_0000_0000_0000_0000_0000_0000i128) by (nonlinear_arith)
        requires
            -0x8000_0000_0000_0000i128 <= c as i128 <= 0x8000_0000_0000_0000i128,
            -0x8000_0000_0000_0000i128 <= w as i128 <= 0x8000_0000_0000_0000i128,
            0 <= orig as i128 <= 0x1_0000_0000i128,
    ;
    let half: i128 = 2 * (c as i128) * (orig as i128);
    let side: i128 = (w as i128) * (orig as i128);
    let n: i128 = if plus {
        half + side
    } else {
        half - side
    };
    if n <= 0 {
        return 0;
    }
    let px: i128 = (n + 1_000_000) / 2_000_000;
    assert(0 <= (n + 1_000_000) / 2_000_000 <= n) by (nonlinear_arith)
        requires
            n > 0,
    ;
    if px > u32::MAX as i128 {
        u32::MAX
    } else {
        px as u32
    }
}

/// The prediction built from one scored pair of a second-format
/// output: its class's name, its probability, and its query's
/// normalized center/size box scaled to the image.
pub open spec fn spec_b_pred(
    s: ScoredIdx,
    dets: Seq<i64>,
    classes: Seq<String>,
    ow: int,
    oh: int,
) -> Prediction {
    let base = 4 * s.query;
    spec_order_box(
        Prediction {
            x_min: spec_b_coord(dets[base] as int, dets[base + 2] as int, ow, false) as u32,
            y_min: spec_b_coord(dets[base + 1] as int, dets[base + 3] as int, oh, false) as u32,
            x_max: spec_b_coord(dets[base] as int, dets[base + 2] as int, ow, true) as u32,
            y_max: spec_b_coord(dets[base + 1] as int, dets[base + 3] as int, oh, true) as u32,
            confidence: s.prob,
            label: classes[s.class as int],
        },
    )
}

/// Whether the filter drops a scored pair: a filter is set, knows the
/// class, and rejects it.
pub open spec fn spec_b_dropped(filter: Option<Seq<bool>>, class: int) -> bool {
    match filter {
        Some(f) => class < f.len() && !f[class],
        None => false,
    }
}

/// The predictions taken from the sorted pairs starting at `k`: stop
/// at `limit` or at the first probability at or below the threshold,
/// and skip pairs the filter drops.
pub open spec fn spec_b_preds(
    sorted: Seq<ScoredIdx>,
    dets: Seq<i64>,
    filter: Option<Seq<bool>>,
    classes: Seq<String>,
    thr: int,
    ow: int,
    oh: int,
    k: int,
    limit: int,
) -> Seq<Prediction>
    decreases limit - k,
{
    if k < 0 || k >= limit || limit > sorted.len() {
        Seq::empty()
    } else if sorted[k].prob <= thr {
        Seq::empty()
    } else {
        let rest = spec_b_preds(sorted, dets, filter, classes, thr, ow, oh, k + 1, limit);
        if spec_b_dropped(filter, sorted[k].class as int) {
            rest
        } else {
            seq![spec_b_pred(sorted[k], dets, classes, ow, oh)] + rest
        }
    }
}

/// Whether a pair that would be kept has a class id beyond the class
/// list: decoding must fail loudly rather than invent a name for it.
pub open spec fn spec_b_has_bad_class(
    sorted: Seq<ScoredIdx>,
    filter: Option<Seq<bool>>,
    classes_len: int,
    thr: int,
    k: int,
    limit: int,
) -> bool
    decreases limit - k,
{
    if k < 0 || k >= limit || limit > sorted.len() {
        false
    } else if sorted[k].prob <= thr {
        false
    } else if spec_b_dropped(filter, sorted[k].class as int) {
        spec_b_has_bad_class(sorted, filter, classes_len, thr, k + 1, limit)
    } else if sorted[k].class >= classes_len {
        true
    } else {
        spec_b_has_bad_class(sorted, filter, classes_len, thr, k + 1, limit)
    }
}

/// All (query, class) pairs of a second-format output in query-major
/// order, with their probabilities.
pub open spec fn spec_b_pairs(probs: Seq<i64>, q: int, c: int) -> Seq<ScoredIdx> {
    Seq::new((q * c) as nat, |k: int| ScoredIdx { prob: probs[k], query: (k / c) as usize, class: (k % c) as usize })
}

/// The tensor layout a second-format model emits: `dets` as
/// `[1, Q, 4]` boxes and `labels` as `[1, Q, C]` probabilities.
pub open spec fn spec_b_layout_ok(dets: &Tensor, labels: &Tensor) -> bool {
    let q = dets.shape@[1] as int;
    &&& dets.shape@.len() == 3
    &&& dets.shape@[0] == 1
    &&& dets.shape@[2] == 4
    &&& dets.data@.len() == 4 * q
    &&& labels.shape@.len() == 3
    &&& labels.shape@[0] == 1
    &&& labels.shape@[1] == q
    &&& labels.data@.len() == q * (labels.shape@[2] as int)
}

/// Decodes a second-format ("RF-DETR"-style) output: every (query,
/// class) probability is ranked descending, at most 300 pairs are read
/// until the first at or below the threshold, the filter drops classes
/// it knows and rejects, and each kept pair's normalized center/size
/// box is scaled to the image. A kept pair whose class id is beyond
/// the class list fails loudly. No suppression pass runs: overlapping
/// queries are kept as they come.
#[verifier::loop_isolation(false)]
#[verifier::rlimit(100)]
pub fn rf_detr_post_process(outputs: &Vec<NamedTensor>, params: &PostProcessParams) -> (r: Result<
    Vec<Prediction>,
    DetectError,
>)
    ensures
        ({
            let dt = spec_find_tensor(outputs@, "dets"@);
            let lt = spec_find_tensor(outputs@, "labels"@);
            &&& (r matches Err(e) && e is MissingOutput) <==> (dt is None || lt is None)
            &&& dt matches Some(di) ==> lt matches Some(li) ==> {
                let dets = outputs@[di].value;
                let labels = outputs@[li].value;
                let q = dets.shape@[1] as int;
                let c = labels.shape@[2] as int;
                let sorted = spec_sort_scored(spec_b_pairs(labels.data@, q, c));
                let limit = if q * c < 300 {
                    q * c
                } else {
                    300
                };
                let bad = spec_b_has_bad_class(
                    sorted,
                    spec_filter_view(params.object_filter),
                    params.object_classes@.len() as int,
                    params.confidence_threshold as int,
                    0,
                    limit,
                );
                &&& (r matches Err(e) && e is UnexpectedShape) <==> !spec_b_layout_ok(
                    &dets,
                    &labels,
                )
                &&& (r matches Err(e) ==> e matches DetectError::UnexpectedShape {
                    actual,
                    expected_features,
                } ==> actual@ == labels.shape@ && expected_features == 4)
                &&& (r matches Err(e) && e is LabelOutOfRange) <==> (spec_b_layout_ok(
                    &dets,
                    &labels,
                ) && bad)
                &&& (r is Ok <==> (spec_b_layout_ok(&dets, &labels) && !bad))
                &&& r matches Ok(preds) ==> preds@ =~= spec_b_preds(
                    sorted,
                    dets.data@,
                    spec_filter_view(params.object_filter),
                    params.object_classes@,
                    params.confidence_threshold as int,
                    params.orig_width as int,
                    params.orig_height as int,
                    0,
                    limit,
                )
            }
        }),
        r matches Ok(preds) ==> forall|j: int|
            0 <= j < preds@.len() ==> crate::geometry::spec_wf_box(&preds@[j]),
{
    let dets = match find_tensor(outputs, "dets") {
        Some(t) => t,
        None => {
            return Err(DetectError::MissingOutput);
        },
    };
    let labels = match find_tensor(outputs, "labels") {
        Some(t) => t,
        None => {
            return Err(DetectError::MissingOutput);
        },
    };
    if !(dets.shape.len() == 3 && dets.shape[0] == 1 && dets.shape[2] == 4 && labels.shape.len()
        == 3 && labels.shape[0] == 1 && labels.shape[1] == dets.shape[1] && dets.data.len() / 4
        == dets.shape[1] && dets.data.len() % 4 == 0) {
        return Err(
            DetectError::UnexpectedShape { actual: clone_shape(&labels.shape), expected_features: 4 },
        );
    }
    let q = dets.shape[1];
    let c = labels.shape[2];
    assert((q as u128) * (c as u128) <= 0xFFFF_FFFF_FFFF_FFFFu128 * 0xFFFF_FFFF_FFFF_FFFFu128 && (
    q as u128) * (c as u128) == (q as int) * (c as int)) by (nonlinear_arith)
        requires
            0 <= q as u128 <= 0xFFFF_FFFF_FFFF_FFFFu128,
            0 <= c as u128 <= 0xFFFF_FFFF_FFFF_FFFFu128,
    ;
    let ldn = labels.data.len();
    if !((ldn as u128) == (q as u128) * (c as u128)) {
        return Err(
            DetectError::UnexpectedShape { actual: clone_shape(&labels.shape), expected_features: 4 },
        );
    }
    let ghost pairs = spec_b_pairs(labels.data@, q as int, c as int);
    let mut all: Vec<ScoredIdx> = Vec::new();
    let mut k: usize = 0;
    proof {
        assert(pairs.len() == ldn);
        assert(all@ =~= pairs.subrange(0, 0));
    }
    while k < ldn
        invariant
            0 <= k <= ldn,
            all@ =~= pairs.subrange(0, k as int),
        decreases ldn - k,
    {
        proof {
            assert(c >= 1) by (nonlinear_arith)
                requires
                    (q as int) * (c as int) == ldn,
                    k < ldn,
                    c >= 0,
                    q >= 0,
            ;
            assert(0 <= (k as int) / (c as int) && (k as int) / (c as int) <= k && 0 <= (k as int)
                % (c as int) < c) by (nonlinear_arith)
                requires
                    c >= 1,
                    k >= 0,
            ;
            assert(pairs.subrange(0, k + 1) =~= pairs.subrange(0, k as int).push(pairs[k as int]));
        }
        let s = ScoredIdx { prob: labels.data[k], query: k / c, class: k % c };
        proof {
            assert(s == pairs[k as int]);
        }
        all.push(s);
        k = k + 1;
    }
    proof {
        assert(pairs.subrange(0, ldn as int) =~= pairs);
    }
    let sorted = sort_scored(all);
    let limit: usize = if ldn < 300 {
        ldn
    } else {
        300
    };
    let ghost gsorted = sorted@;
    let ghost filter = spec_filter_view(params.object_filter);
    let ghost classes_len = params.object_classes@.len() as int;
    let ghost thr = params.confidence_threshold as int;
    proof {
        lemma_sort_scored_elems(pairs);
        assert forall|j: int| 0 <= j < gsorted.len() implies (#[trigger] gsorted[j]).query
            < q by {
            assert(pairs.contains(gsorted[j]));
            let k0 = choose|k0: int| 0 <= k0 < pairs.len() && pairs[k0] == gsorted[j];
            assert(gsorted[j].query == (k0 / (c as int)) as usize);
            assert(0 <= k0 / (c as int) && k0 / (c as int) < q) by (nonlinear_arith)
                requires
                    0 <= k0 < (q as int) * (c as int),
                    c >= 1,
            ;
        }
    }
    let mut preds: Vec<Prediction> = Vec::new();
    let mut i: usize = 0;
    let mut stopped = false;
    while i < limit && !stopped
        invariant
            0 <= i <= limit,
            limit <= gsorted.len(),
            gsorted == sorted@,
            spec_b_preds(
                gsorted,
                dets.data@,
                filter,
                params.object_classes@,
                thr,
                params.orig_width as int,
                params.orig_height as int,
                0,
                limit as int,
            ) =~= preds@ + (if stopped {
                Seq::<Prediction>::empty()
            } else {
                spec_b_preds(
                    gsorted,
                    dets.data@,
                    filter,
                    params.object_classes@,
                    thr,
                    params.orig_width as int,
                    params.orig_height as int,
                    i as int,
                    limit as int,
                )
            }),
            spec_b_has_bad_class(gsorted, filter, classes_len, thr, 0, limit as int) == (if stopped {
                false
            } else {
                spec_b_has_bad_class(gsorted, filter, classes_len, thr, i as int, limit as int)
            }),
            forall|j: int| 0 <= j < preds@.len() ==> crate::geometry::spec_wf_box(&preds@[j]),
            forall|j: int| 0 <= j < gsorted.len() ==> (#[trigger] gsorted[j]).query < q,
        decreases limit - i,
    {
        let s = sorted[i];
        if s.prob <= params.confidence_threshold {
            stopped = true;
            i = i + 1;
            proof {
                assert(preds@ + Seq::<Prediction>::empty() =~= preds@);
            }
        } else {
            let dropped: bool = match params.object_filter {
                Some(f) => s.class < f.len() && !f[s.class],
                None => false,
            };
            if !dropped {
                if !(s.class < params.object_classes.len()) {
                    return Err(
                        DetectError::LabelOutOfRange {
                            label: s.class as i64,
                            class_count: params.object_classes.len(),
                        },
                    );
                }
                proof {
                    assert(s.query < q);
                    assert(4 * (s.query as int) + 3 < dets.data@.len());
                }
                let base = 4 * s.query;
                let x_min = b_coord(dets.data[base], dets.data[base + 2], params.orig_width, false);
                let x_max = b_coord(dets.data[base], dets.data[base + 2], params.orig_width, true);
                let y_min = b_coord(
                    dets.data[base + 1],
                    dets.data[base + 3],
                    params.orig_height,
                    false,
                );
                let y_max = b_coord(
                    dets.data[base + 1],
                    dets.data[base + 3],
                    params.orig_height,
                    true,
                );
                let pred = Prediction {
                    x_min,
                    y_min,
                    x_max: if x_max >= x_min {
                        x_max
                    } else {
                        x_min
                    },
                    y_max: if y_max >= y_min {
                        y_max
                    } else {
                        y_min
                    },
                    confidence: s.prob,
                    label: params.object_classes[s.class].clone(),
                };
                let ghost prev = preds@;
                let ghost rec = spec_b_pred(
                    s,
                    dets.data@,
                    params.object_classes@,
                    params.orig_width as int,
                    params.orig_height as int,
                );
                let ghost rest = spec_b_preds(
                    gsorted,
                    dets.data@,
                    filter,
                    params.object_classes@,
                    thr,
                    params.orig_width as int,
                    params.orig_height as int,
                    i + 1,
                    limit as int,
                );
                proof {
                    assert(pred == rec);
                    assert(spec_b_preds(
                        gsorted,
                        dets.data@,
                        filter,
                        params.object_classes@,
                        thr,
                        params.orig_width as int,
                        params.orig_height as int,
                        i as int,
                        limit as int,
                    ) == seq![rec] + rest);
                    assert(prev + (seq![rec] + rest) =~= prev.push(rec) + rest);
                }
                preds.push(pred);
            }
            i = i + 1;
        }
    }
    proof {
        if !stopped {
            assert(spec_b_preds(
                gsorted,
                dets.data@,
                filter,
                params.object_classes@,
                thr,
                params.orig_width as int,
                params.orig_height as int,
                limit as int,
                limit as int,
            ) =~= Seq::<Prediction>::empty());
        }
        assert(preds@ + Seq::<Prediction>::empty() =~= preds@);
    }
    Ok(preds)
}

/// Copies a shape vector for an error report.
fn clone_shape(shape: &Vec<usize>) -> (r: Vec<usize>)
    ensures
        r@ == shape@,
{
    let mut out: Vec<usize> = Vec::new();
    let n = shape.len();
    let mut i: usize = 0;
    while i < n
        invariant
            0 <= i <= n,
            n == shape@.len(),
            out@ == shape@.subrange(0, i as int),
        decreases n - i,
    {
        out.push(shape[i]);
        i = i + 1;
    }
    proof {
        assert(shape@.subrange(0, n as int) =~= shape@);
    }
    out
}

} // verus!
