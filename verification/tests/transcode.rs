use otter::domain::{
    AudioCodec, AudioStreamInfo, Container, FrameRate, InputMedia, QualityPreset, Resolution,
    TranscodeConfig, VideoCodec, VideoRateControl, VideoStreamInfo,
};
use otter::transcode::{
    build_command_spec, failure_message, render_command_preview, shell_quote, stderr_line,
    ArtifactPaths, ProgressParser, TranscodeError,
};

fn media(path: &str) -> InputMedia {
    InputMedia {
        path: path.to_owned(),
        duration_micros: Some(10_000_000),
        video: VideoStreamInfo {
            codec: "h264".to_owned(),
            width: 1920,
            height: 1080,
            frame_rate: Some(FrameRate { numerator: 30, denominator: 1 }),
            bitrate_kbps: Some(8_000),
        },
        audio: Some(AudioStreamInfo {
            codec: "aac".to_owned(),
            channels: Some(2),
            sample_rate: Some(48_000),
        }),
        format_name: Some("mov,mp4".to_owned()),
        size_bytes: Some(10_000_000),
        bitrate_kbps: Some(8_192),
    }
}

fn config(input: &str, output: &str, rate: VideoRateControl) -> TranscodeConfig {
    TranscodeConfig {
        input: input.to_owned(),
        output: output.to_owned(),
        container: Container::Mp4,
        video_codec: VideoCodec::H264,
        audio_codec: AudioCodec::Aac,
        resolution: Resolution::P720,
        video_rate_control: rate,
        audio_bitrate_kbps: 192,
    }
}

fn artifact(output: &str, extension: &str) -> ArtifactPaths {
    ArtifactPaths {
        temporary_path: format!("/work/.otter-1/output.{extension}"),
        final_path: output.to_owned(),
    }
}

fn has_pair(args: &[String], first: &str, second: &str) -> bool {
    args.windows(2).any(|pair| pair[0] == first && pair[1] == second)
}

#[test]
fn quality_and_target_bitrate_are_mutually_exclusive() {
    let input = "/work/source file.mov";
    let output = "/work/result.mp4";
    let reserved = artifact(output, "mp4");
    let quality = build_command_spec(
        "/usr/bin/ffmpeg",
        &config(input, output, VideoRateControl::Quality(QualityPreset::Balanced)),
        &media(input),
        &reserved,
    );
    assert!(has_pair(&quality.args, "-crf", "23"));
    assert!(!quality.args.iter().any(|value| value == "5000k"));

    let bitrate = build_command_spec(
        "/usr/bin/ffmpeg",
        &config(input, output, VideoRateControl::Bitrate(5_000)),
        &media(input),
        &reserved,
    );
    assert!(has_pair(&bitrate.args, "-b:v", "5000k"));
    assert!(!bitrate.args.iter().any(|value| value == "-crf"));
}

#[test]
fn mov_family_containers_use_compatible_flags() {
    let input = "/work/source.mp4";
    for (container, extension, muxer) in [(Container::Mp4, "mp4", "mp4"), (Container::Mov, "mov", "mov")] {
        let output = format!("/work/result.{extension}");
        let reserved = artifact(&output, extension);
        let mut transcode_config =
            config(input, &output, VideoRateControl::Quality(QualityPreset::Balanced));
        transcode_config.container = container;
        transcode_config.video_codec = VideoCodec::H265;

        let spec = build_command_spec("/usr/bin/ffmpeg", &transcode_config, &media(input), &reserved);

        assert!(spec.temporary_output.ends_with(&format!(".{extension}")));
        assert!(has_pair(&spec.args, "-f", muxer));
        assert!(has_pair(&spec.args, "-tag:v", "hvc1"));
        assert!(has_pair(&spec.args, "-movflags", "+faststart"));
    }
}

#[test]
fn hardware_encoders_use_videotoolbox_flags() {
    let input = "/work/source.mp4";
    let output = "/work/hw.mp4";
    let reserved = artifact(output, "mp4");
    let mut transcode_config =
        config(input, output, VideoRateControl::Quality(QualityPreset::Balanced));
    transcode_config.video_codec = VideoCodec::H265Hw;

    let spec = build_command_spec("/usr/bin/ffmpeg", &transcode_config, &media(input), &reserved);
    let args = &spec.args;

    assert!(has_pair(args, "-hwaccel", "videotoolbox"));
    // Hardware decoding only helps when it is selected before the input.
    let hwaccel = args.iter().position(|value| value == "-hwaccel").unwrap();
    let input_flag = args.iter().position(|value| value == "-i").unwrap();
    assert!(hwaccel < input_flag);

    assert!(has_pair(args, "-c:v", "hevc_videotoolbox"));
    assert!(has_pair(args, "-q:v", "55"));
    assert!(has_pair(args, "-tag:v", "hvc1"));
    // VideoToolbox rejects libx26x-style speed presets.
    assert!(!args.iter().any(|value| value == "-preset"));
    assert!(!args.iter().any(|value| value == "-crf"));

    // Software jobs must not pick up hardware decoding.
    transcode_config.video_codec = VideoCodec::H265;
    let software = build_command_spec("/usr/bin/ffmpeg", &transcode_config, &media(input), &reserved);
    assert!(!software.args.iter().any(|value| value == "-hwaccel"));
    assert!(has_pair(&software.args, "-crf", "26"));
}

#[test]
fn unusual_path_remains_one_argument() {
    let input = "/work/a 'quoted' $clip.mov";
    let output = "/work/result.mp4";
    let spec = build_command_spec(
        "ffmpeg",
        &config(input, output, VideoRateControl::Bitrate(2_500)),
        &media(input),
        &artifact(output, "mp4"),
    );
    assert_eq!(spec.args.iter().filter(|arg| *arg == input).count(), 1);
    assert!(render_command_preview(&spec).contains("'\\''quoted'\\''"));
}

#[test]
fn shell_quoting_leaves_plain_words_alone() {
    assert_eq!(shell_quote("-crf"), "-crf");
    assert_eq!(shell_quote("my clip.mov"), "'my clip.mov'");
    assert_eq!(shell_quote(""), "''");
    assert_eq!(shell_quote("it's"), "'it'\\''s'");
}

#[test]
fn parses_progress_and_clamps_percentage() {
    let mut parser = ProgressParser::new(Some(2_000_000));
    assert!(parser.push_line("out_time_us=3000000").is_none());
    assert!(parser.push_line("speed=1.5x").is_none());
    let update = parser.push_line("progress=continue").unwrap();
    assert_eq!(update.percent_permille, Some(1_000));
    assert_eq!(update.speed.as_deref(), Some("1.5x"));
    assert!(!update.finished);
}

#[test]
fn progress_without_a_duration_has_no_percentage() {
    let mut parser = ProgressParser::new(None);
    assert!(parser.push_line("out_time_us=500000").is_none());
    let update = parser.push_line("progress=end").unwrap();
    assert_eq!(update.processed_micros, 500_000);
    assert_eq!(update.percent_permille, None);
    assert!(update.finished);
}

#[test]
fn stderr_lines_drop_control_characters_and_stop_at_the_limit() {
    assert_eq!(stderr_line("frame\u{7}=\t1\r"), "frame=\t1");
    let long = "x".repeat(2_500);
    assert_eq!(stderr_line(&long).chars().count(), 2_000);
}

#[test]
fn failures_name_the_exit_code_or_the_signal() {
    assert_eq!(failure_message(Some(1)), "FFmpeg failed with exit code 1.");
    assert_eq!(failure_message(Some(-9)), "FFmpeg failed with exit code -9.");
    assert_eq!(failure_message(None), "FFmpeg failed with terminated by a signal.");
    assert_eq!(
        TranscodeError::Io("disk full".to_owned()).message(),
        "Failed to manage the temporary output: disk full"
    );
}
