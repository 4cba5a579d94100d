//! The model catalogue: which model files exist and where they live.
//! The downloading itself is an outside collaborator's work.

use vstd::prelude::*;

verus! {

/// What to download.
pub enum Model {
    /// One model by file name.
    Model(String),
    /// Every first-format model.
    AllRtDetr2,
    /// Every third-format model.
    AllYolo5,
    /// Everything.
    All,
}

/// The files of the first-format repository.
pub open spec fn spec_rt_detr2_files() -> Seq<Seq<char>> {
    seq![
        "rt-detrv2-s.onnx"@,
        "rt-detrv2-s.yaml"@,
        "rt-detrv2-ms.onnx"@,
        "rt-detrv2-ms.yaml"@,
        "rt-detrv2-m.onnx"@,
        "rt-detrv2-m.yaml"@,
        "rt-detrv2-l.onnx"@,
        "rt-detrv2-l.yaml"@,
        "rt-detrv2-x.onnx"@,
        "rt-detrv2-x.yaml"@,
    ]
}

/// The files of the third-format repository.
pub open spec fn spec_yolo5_files() -> Seq<Seq<char>> {
    seq![
        "delivery.onnx"@,
        "delivery.yaml"@,
        "IPcam-animal.onnx"@,
        "IPcam-animal.yaml"@,
        "ipcam-bird.onnx"@,
        "ipcam-bird.yaml"@,
        "IPcam-combined.onnx"@,
        "IPcam-combined.yaml"@,
        "IPcam-dark.onnx"@,
        "IPcam-dark.yaml"@,
        "IPcam-general.onnx"@,
        "IPcam-general.yaml"@,
        "package.onnx"@,
        "package.yaml"@,
    ]
}

fn push_str(v: &mut Vec<String>, s: &str)
    ensures
        final(v)@.len() == old(v)@.len() + 1,
        forall|i: int| 0 <= i < old(v)@.len() ==> final(v)@[i] == old(v)@[i],
        final(v)@.last()@ == s@,
{
    let owned = <String as vstd::string::StringExecFns>::from_str(s);
    v.push(owned);
}

/// The two model repositories: their names and their files.
pub fn get_all_models() -> (r: Vec<(String, Vec<String>)>)
    ensures
        r@.len() == 2,
        r@[0].0@ == "xnorpx/rt-detr2-onnx"@,
        r@[0].1@.len() == spec_rt_detr2_files().len(),
        forall|j: int|
            0 <= j < spec_rt_detr2_files().len() ==> (#[trigger] r@[0].1@[j])@
                == spec_rt_detr2_files()[j],
        r@[1].0@ == "xnorpx/blue-onyx-yolo5"@,
        r@[1].1@.len() == spec_yolo5_files().len(),
        forall|j: int|
            0 <= j < spec_yolo5_files().len() ==> (#[trigger] r@[1].1@[j])@
                == spec_yolo5_files()[j],
{
    let mut rt_files: Vec<String> = Vec::new();
    push_str(&mut rt_files, "rt-detrv2-s.onnx");
    push_str(&mut rt_files, "rt-detrv2-s.yaml");
    push_str(&mut rt_files, "rt-detrv2-ms.onnx");
    push_str(&mut rt_files, "rt-detrv2-ms.yaml");
    push_str(&mut rt_files, "rt-detrv2-m.onnx");
    push_str(&mut rt_files, "rt-detrv2-m.yaml");
    push_str(&mut rt_files, "rt-detrv2-l.onnx");
    push_str(&mut rt_files, "rt-detrv2-l.yaml");
    push_str(&mut rt_files, "rt-detrv2-x.onnx");
    push_str(&mut rt_files, "rt-detrv2-x.yaml");
    let mut yolo_files: Vec<String> = Vec::new();
    push_str(&mut yolo_files, "delivery.onnx");
    push_str(&mut yolo_files, "delivery.yaml");
    push_str(&mut yolo_files, "IPcam-animal.onnx");
    push_str(&mut yolo_files, "IPcam-animal.yaml");
    push_str(&mut yolo_files, "ipcam-bird.onnx");
    push_str(&mut yolo_files, "ipcam-bird.yaml");
    push_str(&mut yolo_files, "IPcam-combined.onnx");
    push_str(&mut yolo_files, "IPcam-combined.yaml");
    push_str(&mut yolo_files, "IPcam-dark.onnx");
    push_str(&mut yolo_files, "IPcam-dark.yaml");
    push_str(&mut yolo_files, "IPcam-general.onnx");
    push_str(&mut yolo_files, "IPcam-general.yaml");
    push_str(&mut yolo_files, "package.onnx");
    push_str(&mut yolo_files, "package.yaml");
    let mut out: Vec<(String, Vec<String>)> = Vec::new();
    out.push((<String as vstd::string::StringExecFns>::from_str("xnorpx/rt-detr2-onnx"), rt_files));
    out.push(
        (<String as vstd::string::StringExecFns>::from_str("xnorpx/blue-onyx-yolo5"), yolo_files),
    );
    out
}

/// The names of every downloadable model file: the `.onnx` entries of
/// both repositories, in catalogue order.
pub open spec fn spec_all_model_names() -> Seq<Seq<char>> {
    seq![
        "rt-detrv2-s.onnx"@,
        "rt-detrv2-ms.onnx"@,
        "rt-detrv2-m.onnx"@,
        "rt-detrv2-l.onnx"@,
        "rt-detrv2-x.onnx"@,
        "delivery.onnx"@,
        "IPcam-animal.onnx"@,
        "ipcam-bird.onnx"@,
        "IPcam-combined.onnx"@,
        "IPcam-dark.onnx"@,
        "IPcam-general.onnx"@,
        "package.onnx"@,
    ]
}

/// Every downloadable model's file name.
pub fn get_all_model_names() -> (r: Vec<String>)
    ensures
        r@.len() == spec_all_model_names().len(),
        forall|j: int|
            0 <= j < spec_all_model_names().len() ==> (#[trigger] r@[j])@
                == spec_all_model_names()[j],
{
    let mut models: Vec<String> = Vec::new();
    push_str(&mut models, "rt-detrv2-s.onnx");
    push_str(&mut models, "rt-detrv2-ms.onnx");
    push_str(&mut models, "rt-detrv2-m.onnx");
    push_str(&mut models, "rt-detrv2-l.onnx");
    push_str(&mut models, "rt-detrv2-x.onnx");
    push_str(&mut models, "delivery.onnx");
    push_str(&mut models, "IPcam-animal.onnx");
    push_str(&mut models, "ipcam-bird.onnx");
    push_str(&mut models, "IPcam-combined.onnx");
    push_str(&mut models, "IPcam-dark.onnx");
    push_str(&mut models, "IPcam-general.onnx");
    push_str(&mut models, "package.onnx");
    models
}

/// The model names, for the caller to print.
pub fn list_models() -> (r: Vec<String>)
    ensures
        r@.len() == spec_all_model_names().len(),
        forall|j: int|
            0 <= j < spec_all_model_names().len() ==> (#[trigger] r@[j])@
                == spec_all_model_names()[j],
{
    get_all_model_names()
}

} // verus!
