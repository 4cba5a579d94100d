//! What detector initialization hands back to the front end.

use vstd::prelude::*;
use crate::detector::ExecutionProvider;

verus! {

/// Information about the initialized detector.
#[derive(Debug, Clone)]
pub struct DetectorInfo {
    pub model_name: String,
    pub execution_provider: ExecutionProvider,
}

/// The provider the initialized detector runs on: the CPU when forced
/// or when no GPU is in use, else the GPU at the configured index.
pub fn resolve_execution_provider(force_cpu: bool, using_gpu: bool, gpu_index: i32) -> (r:
    ExecutionProvider)
    ensures
        (force_cpu || !using_gpu) ==> r is CPU,
        (!force_cpu && using_gpu) ==> (r matches ExecutionProvider::DirectML(i) && (gpu_index >= 0
            ==> i == gpu_index) && (gpu_index < 0 ==> i == 0)),
{
    if force_cpu || !using_gpu {
        ExecutionProvider::CPU
    } else {
        let idx: usize = if gpu_index >= 0 {
            gpu_index as usize
        } else {
            0
        };
        ExecutionProvider::DirectML(idx)
    }
}

} // verus!
