use vstd::prelude::*;

verus! {

/// Which input file a failure concerns; the payload is its path.
#[derive(Clone, PartialEq, Eq, Debug)]
pub enum InputFileError {
    VideoFile(String),
    SubtitleFile(String),
}

/// A plain file operation that failed, carrying the offending path.
#[derive(Clone, PartialEq, Eq, Debug)]
pub enum FileOperationError {
    FileOpen { path: String },
    FileRead { path: String },
    FileWrite { path: String },
}

/// Failures while turning the input video into voice activity.
#[derive(Clone, PartialEq, Eq, Debug)]
pub enum InputVideoError {
    FailedToDecode { path: String },
    VadAnalysisFailed,
}

/// Failures while reading the input subtitle; each variant carries the
/// path and, where one exists, the underlying diagnostic.
#[derive(Clone, PartialEq, Eq, Debug)]
pub enum InputSubtitleError {
    ReadingSubtitleFileFailed(String),
    UnknownSubtitleFormat(String, String),
    ParsingSubtitleFailed(String, String),
    RetrievingSubtitleLinesFailed(String, String),
}

/// Bad command-line values; numeric bounds are carried as rendered text.
#[derive(Clone, PartialEq, Eq, Debug)]
pub enum InputArgumentsError {
    ValueNotInRange { argument_name: String, min: String, max: String, value: String },
    ExpectedPositiveNumber { argument_name: String, value: i64 },
    ExpectedNonNegativeNumber { argument_name: String, value: String },
    ArgumentParseError { argument_name: String, value: String },
}

/// The name of a subtitle format, for the mismatch diagnostic.
#[derive(Clone, PartialEq, Eq, Debug)]
pub struct PrintableSubtitleFormat(pub String);

/// Failures of the alignment post-processing step.
#[derive(Clone, PartialEq, Eq, Debug)]
pub enum TopLevelError {
    FileFormatMismatch {
        input_file_path: String,
        output_file_path: String,
        input_file_format: PrintableSubtitleFormat,
    },
    FailedToUpdateSubtitle,
    FailedToGenerateSubtitleData,
    FailedToInstantiateSubtitleFile,
}

} // verus!
