//! The request/response records exchanged with the front end, and the
//! version record used by the update check.
//!
//! Confidence values carry six decimal places: a score of 1.0 is
//! `1_000_000` micros.

use vstd::prelude::*;
use vstd::string::StrSliceExecFns;
use crate::text;

verus! {

/// One detected object: a pixel-coordinate box, a confidence score in
/// micros, and the class label.
#[derive(Clone, Debug)]
pub struct Prediction {
    pub x_max: u32,
    pub x_min: u32,
    pub y_max: u32,
    pub y_min: u32,
    /// Confidence in micros; 1_000_000 is full confidence.
    pub confidence: i64,
    pub label: String,
}

/// A detection request handed to the worker.
pub struct VisionDetectionRequest {
    /// Per-request confidence floor in micros; values at or below
    /// 10_000 micros mean "use the configured default".
    pub min_confidence: i64,
    pub image_data: Vec<u8>,
    pub image_name: String,
}

/// The uniform response record produced for every detection request.
#[allow(non_snake_case)]
pub struct VisionDetectionResponse {
    /// True if successful.
    pub success: bool,
    /// A summary of the inference operation.
    pub message: String,
    /// A description of the error if success was false.
    pub error: Option<String>,
    /// The detected objects.
    pub predictions: Vec<Prediction>,
    /// The number of objects found.
    pub count: i32,
    /// The command that was sent as part of this request.
    pub command: String,
    /// The id of the module that processed this request.
    pub moduleId: String,
    /// The name of the device or package handling the inference.
    pub executionProvider: String,
    /// True if this module can use the current GPU if one is present.
    pub canUseGPU: bool,
    /// The time (ms) to perform the AI inference.
    pub inferenceMs: i32,
    /// The time (ms) to process the image.
    pub processMs: i32,
    /// The time (ms) for the round trip to the analysis module and back.
    pub analysisRoundTripMs: i32,
}

/// The record answering a model-list request.
#[allow(non_snake_case)]
pub struct VisionCustomListResponse {
    pub success: bool,
    pub models: Vec<String>,
    pub moduleId: String,
    pub moduleName: String,
    pub command: String,
    pub statusData: Option<String>,
    pub inferenceDevice: String,
    pub analysisRoundTripMs: i32,
    pub processedBy: String,
    pub timestampUTC: String,
}

/// The record answering an update-availability request.
#[allow(non_snake_case)]
pub struct StatusUpdateResponse {
    pub success: bool,
    pub message: String,
    /// Deprecated field.
    pub version: Option<VersionInfo>,
    pub current: VersionInfo,
    pub latest: VersionInfo,
    pub updateAvailable: bool,
}

/// A release version. Ordering and equality go by the three numeric
/// components alone.
#[allow(non_snake_case)]
#[derive(Debug, Clone)]
pub struct VersionInfo {
    pub major: u8,
    pub minor: u8,
    pub patch: u8,
    pub preRelease: Option<String>,
    pub securityUpdate: bool,
    pub build: u32,
    pub file: String,
    pub releaseNotes: String,
}

/// Why a version string was rejected.
#[derive(Clone, Copy, Debug, PartialEq, Eq, Structural)]
pub enum VersionParseError {
    InvalidMajor,
    MissingMinor,
    InvalidMinor,
    MissingPatch,
    InvalidPatch,
}

/// Index of the first `.` in `s` at or after `from`; `s.len()` if none.
pub open spec fn spec_find_dot(s: Seq<char>, from: int) -> int
    decreases s.len() - from,
{
    if from < 0 || from >= s.len() {
        s.len() as int
    } else if s[from] == '.' {
        from
    } else {
        spec_find_dot(s, from + 1)
    }
}

/// The first segment of the trimmed version text: up to the first dot.
pub open spec fn spec_major_seg(t: Seq<char>) -> Seq<char> {
    t.subrange(0, spec_find_dot(t, 0))
}

/// The second segment: between the first and second dots.
pub open spec fn spec_minor_seg(t: Seq<char>) -> Seq<char> {
    t.subrange(spec_find_dot(t, 0) + 1, spec_find_dot(t, spec_find_dot(t, 0) + 1))
}

/// The third segment: between the second and third dots (or the end).
pub open spec fn spec_patch_seg(t: Seq<char>) -> Seq<char> {
    let d2 = spec_find_dot(t, spec_find_dot(t, 0) + 1);
    t.subrange(d2 + 1, spec_find_dot(t, d2 + 1))
}

impl VersionInfo {
    /// Reads `major.minor.patch` from the front of `version_str`, after
    /// trimming whitespace; segments beyond the third are ignored. The
    /// remaining fields take their default values, except the release
    /// notes, which are taken from `release_notes` when given.
    pub fn parse(version_str: &str, release_notes: Option<String>) -> (r: Result<
        VersionInfo,
        VersionParseError,
    >)
        ensures
            ({
                let t = text::spec_trim(version_str@);
                let d1 = spec_find_dot(t, 0);
                let d2 = spec_find_dot(t, d1 + 1);
                let major = text::spec_parse_u8(spec_major_seg(t));
                let minor = text::spec_parse_u8(spec_minor_seg(t));
                let patch = text::spec_parse_u8(spec_patch_seg(t));
                &&& r == Err::<VersionInfo, VersionParseError>(VersionParseError::InvalidMajor)
                    <==> major is None
                &&& r == Err::<VersionInfo, VersionParseError>(VersionParseError::MissingMinor)
                    <==> major is Some && d1 == t.len()
                &&& r == Err::<VersionInfo, VersionParseError>(VersionParseError::InvalidMinor)
                    <==> major is Some && d1 < t.len() && minor is None
                &&& r == Err::<VersionInfo, VersionParseError>(VersionParseError::MissingPatch)
                    <==> major is Some && d1 < t.len() && minor is Some && d2 == t.len()
                &&& r == Err::<VersionInfo, VersionParseError>(VersionParseError::InvalidPatch)
                    <==> major is Some && d1 < t.len() && minor is Some && d2 < t.len() && patch
                    is None
                &&& r matches Ok(v) ==> {
                    &&& Some(v.major as nat) == major
                    &&& Some(v.minor as nat) == minor
                    &&& Some(v.patch as nat) == patch
                    &&& v.preRelease is None
                    &&& v.securityUpdate == false
                    &&& v.build == 0
                    &&& v.file@ == Seq::<char>::empty()
                    &&& v.releaseNotes@ == (match release_notes {
                        Some(notes) => notes@,
                        None => Seq::<char>::empty(),
                    })
                }
            }),
    {
        let trimmed = text::trim(version_str);
        let n = trimmed.unicode_len();
        let d1 = find_dot(trimmed, 0);
        let major = match text::parse_u8(trimmed.substring_char(0, d1)) {
            Ok(v) => v,
            Err(_) => {
                return Err(VersionParseError::InvalidMajor);
            },
        };
        if d1 == n {
            return Err(VersionParseError::MissingMinor);
        }
        let d2 = find_dot(trimmed, d1 + 1);
        let minor = match text::parse_u8(trimmed.substring_char(d1 + 1, d2)) {
            Ok(v) => v,
            Err(_) => {
                return Err(VersionParseError::InvalidMinor);
            },
        };
        if d2 == n {
            return Err(VersionParseError::MissingPatch);
        }
        let d3 = find_dot(trimmed, d2 + 1);
        let patch = match text::parse_u8(trimmed.substring_char(d2 + 1, d3)) {
            Ok(v) => v,
            Err(_) => {
                return Err(VersionParseError::InvalidPatch);
            },
        };
        let notes = match release_notes {
            Some(notes) => notes,
            None => String::new(),
        };
        Ok(
            VersionInfo {
                major,
                minor,
                patch,
                preRelease: None,
                securityUpdate: false,
                build: 0,
                file: String::new(),
                releaseNotes: notes,
            },
        )
    }

    /// Total order by major, then minor, then patch.
    pub open spec fn spec_cmp(&self, other: &Self) -> core::cmp::Ordering {
        if self.major != other.major {
            if self.major < other.major {
                core::cmp::Ordering::Less
            } else {
                core::cmp::Ordering::Greater
            }
        } else if self.minor != other.minor {
            if self.minor < other.minor {
                core::cmp::Ordering::Less
            } else {
                core::cmp::Ordering::Greater
            }
        } else if self.patch != other.patch {
            if self.patch < other.patch {
                core::cmp::Ordering::Less
            } else {
                core::cmp::Ordering::Greater
            }
        } else {
            core::cmp::Ordering::Equal
        }
    }

    /// Compares by the numeric components alone.
    pub fn cmp(&self, other: &Self) -> (r: core::cmp::Ordering)
        ensures
            r == self.spec_cmp(other),
    {
        if self.major != other.major {
            if self.major < other.major {
                core::cmp::Ordering::Less
            } else {
                core::cmp::Ordering::Greater
            }
        } else if self.minor != other.minor {
            if self.minor < other.minor {
                core::cmp::Ordering::Less
            } else {
                core::cmp::Ordering::Greater
            }
        } else if self.patch != other.patch {
            if self.patch < other.patch {
                core::cmp::Ordering::Less
            } else {
                core::cmp::Ordering::Greater
            }
        } else {
            core::cmp::Ordering::Equal
        }
    }
}

impl PartialEq for VersionInfo {
    fn eq(&self, other: &Self) -> (r: bool) {
        self.major == other.major && self.minor == other.minor && self.patch == other.patch
    }
}

impl vstd::std_specs::cmp::PartialEqSpecImpl for VersionInfo {
    open spec fn obeys_eq_spec() -> bool {
        true
    }

    open spec fn eq_spec(&self, other: &Self) -> bool {
        self.major == other.major && self.minor == other.minor && self.patch == other.patch
    }
}

impl Eq for VersionInfo {

}

impl PartialOrd for VersionInfo {
    fn partial_cmp(&self, other: &Self) -> (r: Option<core::cmp::Ordering>) {
        Some(self.cmp(other))
    }
}

impl vstd::std_specs::cmp::PartialOrdSpecImpl for VersionInfo {
    open spec fn obeys_partial_cmp_spec() -> bool {
        true
    }

    open spec fn partial_cmp_spec(&self, other: &Self) -> Option<core::cmp::Ordering> {
        Some(self.spec_cmp(other))
    }
}

impl Default for VersionInfo {
    /// The all-zero version with empty texts.
    fn default() -> (r: Self)
        ensures
            r.major == 0,
            r.minor == 0,
            r.patch == 0,
            r.preRelease is None,
            r.securityUpdate == false,
            r.build == 0,
            r.file@ == Seq::<char>::empty(),
            r.releaseNotes@ == Seq::<char>::empty(),
    {
        VersionInfo {
            major: 0,
            minor: 0,
            patch: 0,
            preRelease: None,
            securityUpdate: false,
            build: 0,
            file: String::new(),
            releaseNotes: String::new(),
        }
    }
}

/// Index of the first `.` in `s` at or after `from`; the length if none.
fn find_dot(s: &str, from: usize) -> (r: usize)
    requires
        from <= s@.len(),
    ensures
        r == spec_find_dot(s@, from as int),
        from <= r <= s@.len(),
{
    let n = s.unicode_len();
    let mut i: usize = from;
    while i < n
        invariant
            from <= i <= n,
            n == s@.len(),
            spec_find_dot(s@, from as int) == spec_find_dot(s@, i as int),
        decreases n - i,
    {
        if s.get_char(i) == '.' {
            return i;
        }
        i = i + 1;
    }
    n
}

} // verus!
