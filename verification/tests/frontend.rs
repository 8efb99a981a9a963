use ilass::decoder::{assemble_samples, sample_from_le};
use ilass::metadata::{
    codec_type_from_str, duration_entry, select_audio_stream_index, CodecType, DecoderError,
    ProcessErrorCode, Stream, VideoDecoderFFmpegBinary,
};

fn stream(index: usize, channels: Option<usize>, codec_type: CodecType) -> Stream {
    Stream { index, channels, duration: None, codec_type }
}

#[test]
fn codec_type_classification() {
    assert_eq!(codec_type_from_str(String::from("audio")), CodecType::Audio);
    assert_eq!(codec_type_from_str(String::from("video")), CodecType::Video);
    assert_eq!(codec_type_from_str(String::from("subtitle")), CodecType::Subtitle);
    assert_eq!(
        codec_type_from_str(String::from("data")),
        CodecType::Other(String::from("data"))
    );
}

#[test]
fn select_picks_fewest_channels() {
    let streams = vec![
        stream(0, None, CodecType::Video),
        stream(1, Some(6), CodecType::Audio),
        stream(2, Some(2), CodecType::Audio),
        stream(3, Some(2), CodecType::Audio),
    ];
    // Fewest channels wins; the earliest of the tied candidates is kept.
    assert_eq!(select_audio_stream_index(&streams, None), Some(2));
}

#[test]
fn select_honors_explicit_index() {
    let streams = vec![
        stream(0, None, CodecType::Video),
        stream(1, Some(6), CodecType::Audio),
        stream(2, Some(2), CodecType::Audio),
    ];
    assert_eq!(select_audio_stream_index(&streams, Some(1)), Some(1));
    assert_eq!(select_audio_stream_index(&streams, Some(0)), None);
    assert_eq!(select_audio_stream_index(&streams, Some(9)), None);
}

#[test]
fn select_with_no_audio_stream() {
    let streams = vec![stream(0, None, CodecType::Video), stream(1, Some(2), CodecType::Subtitle)];
    assert_eq!(select_audio_stream_index(&streams, None), None);
}

#[test]
fn duration_prefers_stream_entry() {
    assert_eq!(
        duration_entry(Some(String::from("12.5")), Some(String::from("99"))),
        Some(String::from("12.5"))
    );
    assert_eq!(duration_entry(None, Some(String::from("99"))), Some(String::from("99")));
    assert_eq!(duration_entry(None, None), None);
}

#[test]
fn process_error_code_for_empty_stderr() {
    let e = VideoDecoderFFmpegBinary::classify_process_failure(
        String::from("decoder-bin"),
        Some(3),
        String::new(),
    );
    assert_eq!(
        e,
        DecoderError::ProcessErrorCode {
            cmd_path: String::from("decoder-bin"),
            code: ProcessErrorCode(Some(3)),
        }
    );
}

#[test]
fn process_error_message_for_captured_stderr() {
    let e = VideoDecoderFFmpegBinary::classify_process_failure(
        String::from("decoder-bin"),
        Some(3),
        String::from("boom"),
    );
    assert_eq!(e, DecoderError::ProcessErrorMessage { msg: String::from("boom") });
}

#[test]
fn process_error_code_when_interrupted() {
    let e = VideoDecoderFFmpegBinary::classify_process_failure(
        String::from("decoder-bin"),
        None,
        String::new(),
    );
    assert_eq!(
        e,
        DecoderError::ProcessErrorCode {
            cmd_path: String::from("decoder-bin"),
            code: ProcessErrorCode(None),
        }
    );
}

#[test]
fn sample_decoding_is_little_endian() {
    assert_eq!(sample_from_le(0x01, 0x00), 1);
    assert_eq!(sample_from_le(0x00, 0x01), 256);
    assert_eq!(sample_from_le(0xff, 0xff), -1);
    assert_eq!(sample_from_le(0x00, 0x80), i16::MIN);
}

#[test]
fn assemble_pairs_bytes_and_carries_leftover() {
    let (samples, rest) = assemble_samples(None, &vec![0x01, 0x00, 0xff, 0xff, 0x2a]);
    assert_eq!(samples, vec![1, -1]);
    assert_eq!(rest, Some(0x2a));
    let (samples2, rest2) = assemble_samples(rest, &vec![0x00]);
    assert_eq!(samples2, vec![42]);
    assert_eq!(rest2, None);
    let (samples3, rest3) = assemble_samples(None, &vec![]);
    assert_eq!(samples3, vec![]);
    assert_eq!(rest3, None);
}
