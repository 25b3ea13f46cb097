//! The encoding detector: classifies file content as text or binary, and
//! the marker-line predicate it shares with the tokenizer.

use vstd::prelude::*;
use vstd::utf8::{valid_utf8, decode_utf8};
use crate::model::{BinaryReason, EncodingConfig, EncodingDetection, File, TextEncoding};
use crate::strutil::{is_marker_line, marker_inner, spec_lines, split_lines, line_is_marker};
use crate::trusted::bytes_to_str;

verus! {

/// Whether some line of the text reads as a file marker.
pub open spec fn has_marker_line(s: Seq<char>) -> bool {
    exists|k: int| 0 <= k < spec_lines(s).len() && is_marker_line(#[trigger] spec_lines(s)[k])
}

/// The default detection configuration: both checks on.
pub open spec fn default_config() -> EncodingConfig {
    EncodingConfig { check_content_markers: true, validate_utf8: true }
}

/// What the detector decides for these bytes under this configuration:
/// first the marker-conflict check, then UTF-8 validation, each only when
/// enabled; otherwise the data counts as UTF-8 text.
pub open spec fn spec_detect(data: Seq<u8>, config: EncodingConfig) -> EncodingDetection {
    if config.check_content_markers && valid_utf8(data) && has_marker_line(decode_utf8(data)) {
        EncodingDetection::Binary { reason: BinaryReason::ContentConflict }
    } else if config.validate_utf8 && !valid_utf8(data) {
        EncodingDetection::Binary { reason: BinaryReason::InvalidUtf8 }
    } else {
        EncodingDetection::Text { encoding: TextEncoding::Utf8 }
    }
}

/// How a [`File`] built from these inputs is classified and filled.
pub open spec fn detected_file(f: File, name: Seq<char>, data: Seq<u8>, d: EncodingDetection) -> bool {
    &&& f.name@ == name
    &&& f.data@ == data
    &&& f.snippet_ref is None
    &&& f.edit_ref is None
    &&& match d {
        EncodingDetection::Text { .. } => !f.is_binary && f.binary_reason is None,
        EncodingDetection::Binary { reason } => f.is_binary && f.binary_reason == Some(reason),
    }
}

/// Detector totality: every byte sequence is classified as exactly one of
/// text, conflict binary or invalid-UTF-8 binary, never as explicit binary;
/// and the marker-conflict check takes precedence over UTF-8 validation.
pub proof fn lemma_detect_total(data: Seq<u8>, config: EncodingConfig)
    ensures
        (spec_detect(data, config) == EncodingDetection::Binary {
            reason: BinaryReason::ContentConflict,
        }) <==> (config.check_content_markers && valid_utf8(data) && has_marker_line(
            decode_utf8(data),
        )),
        (spec_detect(data, config) == EncodingDetection::Binary {
            reason: BinaryReason::InvalidUtf8,
        }) <==> (config.validate_utf8 && !valid_utf8(data)),
        (spec_detect(data, config) == EncodingDetection::Text { encoding: TextEncoding::Utf8 })
            <==> (!(config.check_content_markers && valid_utf8(data) && has_marker_line(
            decode_utf8(data),
        )) && !(config.validate_utf8 && !valid_utf8(data))),
        spec_detect(data, config) != (EncodingDetection::Binary { reason: BinaryReason::Explicit }),
{
    if config.check_content_markers && valid_utf8(data) && has_marker_line(decode_utf8(data)) {
        assert(valid_utf8(data));
    }
}

impl File {
    /// Scans text for a line that reads as a file marker.
    pub(crate) fn contains_marker_pattern(text: &str) -> (b: bool)
        ensures
            b == has_marker_line(text@),
    {
        let lines = split_lines(text);
        let n = lines.len();
        let mut i: usize = 0;
        while i < n
            invariant
                0 <= i <= n,
                n == lines@.len(),
                lines.deep_view() == spec_lines(text@),
                forall|k: int| 0 <= k < i ==> !is_marker_line(#[trigger] lines.deep_view()[k]),
            decreases n - i,
        {
            if line_is_marker(lines[i].as_str()) {
                assert(is_marker_line(lines.deep_view()[i as int]));
                return true;
            }
            assert(lines.deep_view()[i as int] == lines@[i as int]@);
            i = i + 1;
        }
        false
    }

    /// Classifies file data under the given configuration; the `_name` is
    /// not consulted.
    pub fn detect_encoding(_name: &str, data: &[u8], config: &EncodingConfig) -> (d:
        EncodingDetection)
        ensures
            d == spec_detect(data@, *config),
    {
        if config.check_content_markers {
            match bytes_to_str(data) {
                Some(text) => {
                    if File::contains_marker_pattern(text) {
                        return EncodingDetection::Binary { reason: BinaryReason::ContentConflict };
                    }
                },
                None => {},
            }
        }
        if config.validate_utf8 {
            if bytes_to_str(data).is_none() {
                return EncodingDetection::Binary { reason: BinaryReason::InvalidUtf8 };
            }
        }
        EncodingDetection::Text { encoding: TextEncoding::Utf8 }
    }

    /// Builds a file, classifying the data under the given configuration.
    pub fn with_config(name: &str, data: &[u8], config: &EncodingConfig) -> (f: File)
        ensures
            detected_file(f, name@, data@, spec_detect(data@, *config)),
            f@.wf(),
    {
        let detection = File::detect_encoding(name, data, config);
        match detection {
            EncodingDetection::Text { encoding: _ } => File {
                name: name.to_owned(),
                data: vstd::slice::slice_to_vec(data),
                is_binary: false,
                binary_reason: None,
                snippet_ref: None,
                edit_ref: None,
            },
            EncodingDetection::Binary { reason } => File {
                name: name.to_owned(),
                data: vstd::slice::slice_to_vec(data),
                is_binary: true,
                binary_reason: Some(reason),
                snippet_ref: None,
                edit_ref: None,
            },
        }
    }

    /// Builds a file with auto-detected encoding under the default
    /// configuration.
    pub fn new(name: &str, data: &[u8]) -> (f: File)
        ensures
            detected_file(f, name@, data@, spec_detect(data@, default_config())),
            f@.wf(),
    {
        File::with_config(name, data, &EncodingConfig::default())
    }

    /// Builds a file with the binary flag set by the caller; a binary file
    /// gets the explicit reason.
    pub fn with_encoding(name: &str, data: &[u8], is_binary: bool) -> (f: File)
        ensures
            f.name@ == name@,
            f.data@ == data@,
            f.is_binary == is_binary,
            f.binary_reason == if is_binary {
                Some(BinaryReason::Explicit)
            } else {
                None::<BinaryReason>
            },
            f.snippet_ref is None,
            f.edit_ref is None,
            f@.wf(),
    {
        File {
            name: name.to_owned(),
            data: vstd::slice::slice_to_vec(data),
            is_binary,
            binary_reason: if is_binary {
                Some(BinaryReason::Explicit)
            } else {
                None
            },
            snippet_ref: None,
            edit_ref: None,
        }
    }
}

} // verus!
