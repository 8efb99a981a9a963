use vstd::prelude::*;
use vstd::string::StringExecFns;

verus! {

/// What kind of stream a container entry describes.
#[derive(Clone, PartialEq, Eq, Debug)]
pub enum CodecType {
    Audio,
    Video,
    Subtitle,
    Other(String),
}

/// Classifies a codec-type name as the probe reports it.
pub fn codec_type_from_str(s: String) -> (r: CodecType)
    ensures
        s@ == "audio"@ ==> r == CodecType::Audio,
        s@ == "video"@ ==> r == CodecType::Video,
        s@ == "subtitle"@ ==> r == CodecType::Subtitle,
        s@ != "audio"@ && s@ != "video"@ && s@ != "subtitle"@ ==> r == CodecType::Other(s),
{
    proof {
        reveal_strlit("audio");
        reveal_strlit("video");
        reveal_strlit("subtitle");
        assert("audio"@ != "video"@) by {
            assert("audio"@[0] == 'a' && "video"@[0] == 'v');
        }
        assert("audio"@ != "subtitle"@) by {
            assert("audio"@.len() == 5 && "subtitle"@.len() == 8);
        }
        assert("video"@ != "subtitle"@) by {
            assert("video"@.len() == 5 && "subtitle"@.len() == 8);
        }
    }
    if s == String::from_str("audio") {
        CodecType::Audio
    } else if s == String::from_str("video") {
        CodecType::Video
    } else if s == String::from_str("subtitle") {
        CodecType::Subtitle
    } else {
        CodecType::Other(s)
    }
}

/// One stream entry of the container's metadata.
#[derive(Clone, PartialEq, Eq, Debug)]
pub struct Stream {
    pub index: usize,
    pub channels: Option<usize>,
    /// Some containers store the duration only at the format level.
    pub duration: Option<String>,
    pub codec_type: CodecType,
}

/// Container-level metadata.
#[derive(Clone, PartialEq, Eq, Debug)]
pub struct Format {
    pub duration: Option<String>,
}

/// Metadata associated with a video, as the probe reports it.
#[derive(Clone, PartialEq, Eq, Debug)]
pub struct Metadata {
    pub streams: Vec<Stream>,
    pub format: Option<Format>,
}

/// An audio stream with a known channel count: the candidates for
/// decoding.
pub open spec fn is_audio_candidate(s: Stream) -> bool {
    s.codec_type is Audio && s.channels is Some
}

/// The channel count of a candidate.
pub open spec fn chan(s: Stream) -> int {
    s.channels->Some_0 as int
}

/// Picks the stream to decode: with an explicit index, the first candidate
/// carrying it; otherwise the earliest candidate with the fewest channels.
pub fn select_audio_stream_index(streams: &Vec<Stream>, audio_index: Option<usize>) -> (r: Option<
    usize>)
    ensures
        audio_index is Some && r is Some ==> {
            &&& 0 <= r->Some_0 < streams@.len()
            &&& is_audio_candidate(streams@[r->Some_0 as int])
            &&& streams@[r->Some_0 as int].index == audio_index->Some_0
            &&& forall|j: int|
                0 <= j < r->Some_0 ==> !(is_audio_candidate(#[trigger] streams@[j]) && streams@[
                    j].index == audio_index->Some_0)
        },
        audio_index is Some && r is None ==> forall|j: int|
            0 <= j < streams@.len() ==> !(is_audio_candidate(#[trigger] streams@[j]) && streams@[
                j].index == audio_index->Some_0),
        audio_index is None && r is Some ==> {
            &&& 0 <= r->Some_0 < streams@.len()
            &&& is_audio_candidate(streams@[r->Some_0 as int])
            &&& forall|j: int|
                0 <= j < streams@.len() && is_audio_candidate(#[trigger] streams@[j]) ==> chan(
                    streams@[r->Some_0 as int]) <= chan(streams@[j])
            &&& forall|j: int|
                0 <= j < r->Some_0 && is_audio_candidate(#[trigger] streams@[j]) ==> chan(streams@[j])
                    > chan(streams@[r->Some_0 as int])
        },
        audio_index is None && r is None ==> forall|j: int|
            0 <= j < streams@.len() ==> !is_audio_candidate(#[trigger] streams@[j]),
{
    let n: usize = streams.len();
    if audio_index.is_some() {
        let ai: usize = audio_index.unwrap();
        let mut i: usize = 0;
        while i < n
            invariant
                n == streams@.len(),
                0 <= i <= n,
                audio_index == Some(ai),
                forall|j: int|
                    0 <= j < i ==> !(is_audio_candidate(#[trigger] streams@[j]) && streams@[
                        j].index == ai),
            decreases n - i,
        {
            let is_cand: bool = matches!(streams[i].codec_type, CodecType::Audio)
                && streams[i].channels.is_some();
            if is_cand && streams[i].index == ai {
                return Some(i);
            }
            i = i + 1;
        }
        None
    } else {
        let mut best: Option<usize> = None;
        let mut i: usize = 0;
        while i < n
            invariant
                n == streams@.len(),
                0 <= i <= n,
                best is Some ==> {
                    &&& 0 <= best->Some_0 < i
                    &&& is_audio_candidate(streams@[best->Some_0 as int])
                    &&& forall|j: int|
                        0 <= j < i && is_audio_candidate(#[trigger] streams@[j]) ==> chan(
                            streams@[best->Some_0 as int]) <= chan(streams@[j])
                    &&& forall|j: int|
                        0 <= j < best->Some_0 && is_audio_candidate(#[trigger] streams@[j])
                            ==> chan(streams@[j]) > chan(streams@[best->Some_0 as int])
                },
                best is None ==> forall|j: int|
                    0 <= j < i ==> !is_audio_candidate(#[trigger] streams@[j]),
            decreases n - i,
        {
            let is_cand: bool = matches!(streams[i].codec_type, CodecType::Audio)
                && streams[i].channels.is_some();
            if is_cand {
                let ch: usize = streams[i].channels.unwrap();
                if best.is_none() {
                    best = Some(i);
                } else {
                    let k: usize = best.unwrap();
                    let bk: usize = streams[k].channels.unwrap();
                    if ch < bk {
                        best = Some(i);
                    }
                }
            }
            i = i + 1;
        }
        best
    }
}

/// The duration string to use: the stream's own entry, or the container's.
pub fn duration_entry(stream_duration: Option<String>, format_duration: Option<String>) -> (r:
    Option<String>)
    ensures
        stream_duration is Some ==> r == stream_duration,
        stream_duration is None ==> r == format_duration,
{
    match stream_duration {
        Some(d) => Some(d),
        None => format_duration,
    }
}

/// A subprocess invocation: the binary and its arguments.
#[derive(Clone, PartialEq, Eq, Debug)]
pub struct CmdWithArgs {
    pub cmd_path: String,
    pub args: Vec<String>,
}

/// The exit code of a subprocess, or nothing when it was interrupted.
#[derive(Clone, PartialEq, Eq, Debug)]
pub struct ProcessErrorCode(pub Option<i32>);

/// Failures of the subprocess-backed audio decoder.
#[derive(Clone, PartialEq, Eq, Debug)]
pub enum DecoderError {
    FailedToDecodeVideoStreamInfo,
    ExtractingMetadataFailed { file_path: String, cmd: CmdWithArgs },
    NoAudioStream { path: String },
    FailedExtractingAudio { file_path: String, cmd: CmdWithArgs },
    FailedSpawningSubprocess { cmd: CmdWithArgs },
    WaitingForProcessFailed { cmd_path: String },
    ProcessErrorCode { cmd_path: String, code: ProcessErrorCode },
    ProcessErrorMessage { msg: String },
    DeserializingMetadataFailed { path: String },
    ReadError,
    FailedToParseDuration { s: String },
    AudioSegmentProcessingFailed,
    NoDurationInformation,
}

/// The subprocess-backed decoder: its pure decisions live here, the
/// process handling around them stays outside the library.
pub struct VideoDecoderFFmpegBinary {}

impl VideoDecoderFFmpegBinary {
    /// How a failed subprocess is reported: its captured error text when
    /// there is any, otherwise its exit code.
    pub fn classify_process_failure(cmd_path: String, code: Option<i32>, stderr: String) -> (r:
        DecoderError)
        ensures
            stderr@.len() == 0 ==> r == (DecoderError::ProcessErrorCode {
                cmd_path,
                code: ProcessErrorCode(code),
            }),
            stderr@.len() > 0 ==> r == (DecoderError::ProcessErrorMessage { msg: stderr }),
    {
        if stderr.as_str().is_empty() {
            DecoderError::ProcessErrorCode { cmd_path, code: ProcessErrorCode(code) }
        } else {
            DecoderError::ProcessErrorMessage { msg: stderr }
        }
    }
}

} // verus!
