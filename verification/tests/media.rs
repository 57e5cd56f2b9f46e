use otter::domain::FrameRate;
use otter::media::{
    interpret_probe, parse_bitrate_kbps, parse_duration, parse_frame_rate, sanitize_message,
    ProbeError, ProbeFormat, ProbeResponse, ProbeStream,
};

fn stream(kind: &str, codec: &str) -> ProbeStream {
    ProbeStream {
        codec_type: Some(kind.to_owned()),
        codec_name: Some(codec.to_owned()),
        width: None,
        height: None,
        duration: None,
        bit_rate: None,
        r_frame_rate: None,
        avg_frame_rate: None,
        channels: None,
        sample_rate: None,
    }
}

fn video(codec: &str, width: u32, height: u32) -> ProbeStream {
    ProbeStream { width: Some(width), height: Some(height), ..stream("video", codec) }
}

fn format(name: &str, duration: &str) -> ProbeFormat {
    ProbeFormat {
        format_name: Some(name.to_owned()),
        duration: Some(duration.to_owned()),
        bit_rate: None,
        size: None,
    }
}

#[test]
fn parses_video_audio_and_duration() {
    let response = ProbeResponse {
        streams: vec![
            video("h264", 1920, 1080),
            ProbeStream {
                channels: Some(2),
                sample_rate: Some("48000".to_owned()),
                ..stream("audio", "aac")
            },
        ],
        format: Some(format("mov,mp4", "12.5")),
    };

    let media = interpret_probe("clip.mp4", &response).unwrap();

    assert_eq!(media.video.width, 1920);
    assert_eq!(media.video.height, 1080);
    assert_eq!(media.audio.as_ref().map(|audio| audio.codec.as_str()), Some("aac"));
    assert_eq!(media.audio.as_ref().and_then(|audio| audio.sample_rate), Some(48_000));
    assert_eq!(media.duration_micros, Some(12_500_000));
}

#[test]
fn captures_the_fields_the_size_estimate_needs() {
    let response = ProbeResponse {
        streams: vec![
            ProbeStream {
                bit_rate: Some("7500000".to_owned()),
                r_frame_rate: Some("30000/1001".to_owned()),
                avg_frame_rate: Some("24000/1001".to_owned()),
                ..video("h264", 1920, 1080)
            },
            ProbeStream { channels: Some(2), ..stream("audio", "aac") },
        ],
        format: Some(ProbeFormat {
            bit_rate: Some("7692000".to_owned()),
            size: Some("57690000".to_owned()),
            ..format("mov,mp4", "60")
        }),
    };

    let media = interpret_probe("clip.mp4", &response).unwrap();

    // The measured average wins over the container's nominal rate.
    assert_eq!(media.video.frame_rate, Some(FrameRate { numerator: 24_000, denominator: 1_001 }));
    assert_eq!(media.video.bitrate_kbps, Some(7_500));
    assert_eq!(media.bitrate_kbps, Some(7_692));
    assert_eq!(media.size_bytes, Some(57_690_000));
}

#[test]
fn tolerates_unmeasurable_frame_rates_and_bitrates() {
    let response = ProbeResponse {
        streams: vec![ProbeStream {
            bit_rate: Some("N/A".to_owned()),
            avg_frame_rate: Some("0/0".to_owned()),
            r_frame_rate: Some("25/1".to_owned()),
            ..video("h264", 1920, 1080)
        }],
        format: Some(ProbeFormat {
            bit_rate: Some("N/A".to_owned()),
            size: Some("N/A".to_owned()),
            ..format("matroska", "60")
        }),
    };

    let media = interpret_probe("clip.mkv", &response).unwrap();

    // `0/0` is ffprobe's "unknown", so the nominal rate fills in.
    assert_eq!(media.video.frame_rate, Some(FrameRate { numerator: 25, denominator: 1 }));
    assert_eq!(media.video.bitrate_kbps, None);
    assert_eq!(media.bitrate_kbps, None);
}

#[test]
fn accepts_missing_audio_and_unknown_duration() {
    let response = ProbeResponse {
        streams: vec![video("vp9", 1280, 720)],
        format: Some(format("matroska", "N/A")),
    };

    let media = interpret_probe("clip.mkv", &response).unwrap();

    assert!(media.audio.is_none());
    assert!(media.duration_micros.is_none());
}

#[test]
fn a_report_without_a_usable_video_stream_is_an_error() {
    let audio_only = ProbeResponse { streams: vec![stream("audio", "aac")], format: None };
    assert!(matches!(interpret_probe("a.m4a", &audio_only), Err(ProbeError::NoVideoStream)));

    let flat = ProbeResponse { streams: vec![video("h264", 0, 1080)], format: None };
    assert!(matches!(interpret_probe("a.mp4", &flat), Err(ProbeError::InvalidDimensions)));
}

#[test]
fn fields_parse_like_ffprobe_prints_them() {
    assert_eq!(parse_duration("12.5"), Some(12_500_000));
    assert_eq!(parse_duration("0.0000015"), Some(1));
    assert_eq!(parse_duration("N/A"), None);
    assert_eq!(parse_frame_rate("30000/1001"), Some(FrameRate { numerator: 30_000, denominator: 1_001 }));
    assert_eq!(parse_frame_rate("0/0"), None);
    assert_eq!(parse_bitrate_kbps("7692000"), Some(7_692));
    assert_eq!(parse_bitrate_kbps("0"), None);
}

#[test]
fn error_messages_lose_control_characters() {
    assert_eq!(sanitize_message("bad\u{1b}[31m input\n"), "bad[31m input");
}
