//! Host information: the processor's brand string through a trusted
//! wrapper, and the GPU enumeration, which on this platform is empty.

use vstd::prelude::*;

verus! {

/// The platform the binary runs on.
#[derive(Debug, Clone, Copy, PartialEq, Eq, Structural)]
pub enum Platform {
    Linux,
    Windows,
}

impl Platform {
    /// The platform's display name, padded as the stats table wants.
    pub fn as_str(&self) -> (r: &'static str)
        ensures
            self is Linux ==> r@ == "Linux  "@,
            self is Windows ==> r@ == "Windows"@,
    {
        match self {
            Platform::Linux => "Linux  ",
            Platform::Windows => "Windows",
        }
    }

    /// The platform for a given windows flag.
    pub fn current(is_windows: bool) -> (r: Platform)
        ensures
            is_windows <==> r is Windows,
    {
        if is_windows {
            Platform::Windows
        } else {
            Platform::Linux
        }
    }
}

/// Relies on raw_cpuid's `CpuId::get_processor_brand_string`: the
/// processor's brand text, or `Unknown` where the processor offers
/// none. The result depends on the machine, so nothing more is
/// promised.
#[verifier::external_body]
pub fn cpu_model() -> (r: String)
{
    let cpuid = raw_cpuid::CpuId::new();
    match cpuid.get_processor_brand_string() {
        Some(brand) => brand.as_str().to_owned(),
        None => "Unknown".to_owned(),
    }
}

/// The GPUs this platform can enumerate: none — only the CPU serves
/// inference here.
pub fn gpu_info(log_info: bool) -> (r: Result<Vec<String>, String>)
    ensures
        r matches Ok(names) && names@.len() == 0,
{
    let _ = log_info;
    Ok(Vec::new())
}

/// The name of the GPU at `index`: `Unknown` whenever the enumeration
/// has no such entry, which on this platform is always.
pub fn gpu_model(index: usize) -> (r: String)
    ensures
        r@ == "Unknown"@,
{
    let gpu_names = match gpu_info(false) {
        Ok(names) => names,
        Err(_) => Vec::new(),
    };
    if index < gpu_names.len() {
        gpu_names[index].clone()
    } else {
        <String as vstd::string::StringExecFns>::from_str("Unknown")
    }
}

/// Gathers the host's processor and GPU information.
pub fn system_info() -> (r: Result<(), String>)
    ensures
        r is Ok,
{
    let _ = cpu_model();
    match gpu_info(true) {
        Ok(_) => Ok(()),
        Err(e) => Err(e),
    }
}

} // verus!
