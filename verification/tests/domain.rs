use otter::domain::{
    default_audio_codec, default_video_codec, format_size, output_dimensions, quality_setting,
    scale_filter, suggested_output_path, supported_audio_codecs, supported_video_codecs, AudioCodec,
    AudioStreamInfo, Container, DraftConfig, EstimateBasis, FrameRate, InputMedia, PathFacts,
    QualityPreset, RateControlMode, Resolution, SizeEstimate, ValidationError, VideoCodec,
    VideoRateControl, VideoStreamInfo,
};

fn probed_media() -> InputMedia {
    InputMedia {
        path: "clip.mp4".to_owned(),
        duration_micros: Some(10_000_000),
        video: VideoStreamInfo {
            codec: "h264".to_owned(),
            width: 1920,
            height: 1080,
            frame_rate: Some(FrameRate { numerator: 30, denominator: 1 }),
            bitrate_kbps: Some(100_000),
        },
        audio: Some(AudioStreamInfo {
            codec: "aac".to_owned(),
            channels: Some(2),
            sample_rate: Some(48_000),
        }),
        format_name: Some("mov,mp4".to_owned()),
        size_bytes: Some(125_000_000),
        bitrate_kbps: Some(100_000),
    }
}

fn source(width: u32, height: u32) -> VideoStreamInfo {
    VideoStreamInfo {
        codec: "h264".to_owned(),
        width,
        height,
        frame_rate: Some(FrameRate { numerator: 30, denominator: 1 }),
        bitrate_kbps: None,
    }
}

fn facts() -> PathFacts {
    PathFacts { input_exists: true, output_exists: false, output_parent_is_dir: true }
}

#[test]
fn normalizes_incompatible_webm_settings() {
    let mut draft = DraftConfig {
        container: Container::WebM,
        video_codec: VideoCodec::H264,
        audio_codec: AudioCodec::Aac,
        output: Some("movie.mp4".to_owned()),
        ..DraftConfig::default()
    };

    draft.normalize_for_container();

    assert_eq!(draft.video_codec, VideoCodec::Vp9);
    assert_eq!(draft.audio_codec, AudioCodec::Opus);
    assert_eq!(draft.output, Some("movie.webm".to_owned()));
}

#[test]
fn normalizes_incompatible_mov_settings() {
    let mut draft = DraftConfig {
        container: Container::Mov,
        video_codec: VideoCodec::Vp9,
        audio_codec: AudioCodec::Opus,
        output: Some("movie.webm".to_owned()),
        ..DraftConfig::default()
    };

    draft.normalize_for_container();

    assert_eq!(draft.video_codec, VideoCodec::H264);
    assert_eq!(draft.audio_codec, AudioCodec::Aac);
    assert_eq!(draft.output, Some("movie.mov".to_owned()));
}

#[test]
fn mov_uses_mp4_codec_policy() {
    assert_eq!(
        Container::ALL,
        [Container::Mp4, Container::Mov, Container::Matroska, Container::WebM]
    );
    assert_eq!(Container::Mov.extension(), "mov");
    assert_eq!(Container::Mov.muxer(), "mov");
    assert_eq!(Container::Mov.label(), "MOV");
    assert_eq!(
        supported_video_codecs(Container::Mov),
        supported_video_codecs(Container::Mp4)
    );
    assert_eq!(
        supported_audio_codecs(Container::Mov),
        supported_audio_codecs(Container::Mp4)
    );
    assert_eq!(default_video_codec(Container::Mov), VideoCodec::H264);
    assert_eq!(default_audio_codec(Container::Mov), AudioCodec::Aac);
}

#[test]
fn quality_values_are_codec_specific() {
    let balanced_h264 = quality_setting(VideoCodec::H264, QualityPreset::Balanced);
    assert_eq!(balanced_h264.flag, "-crf");
    assert_eq!(balanced_h264.value, 23);
    assert_eq!(balanced_h264.label(), "CRF 23");
    assert_eq!(quality_setting(VideoCodec::Av1, QualityPreset::Balanced).value, 35);
    assert_eq!(quality_setting(VideoCodec::Vp9, QualityPreset::Small).value, 40);
}

#[test]
fn hardware_encoders_use_an_inverted_quality_scale() {
    for codec in [VideoCodec::H264Hw, VideoCodec::H265Hw] {
        assert!(codec.is_hardware());
        let mut previous = u8::MAX;
        for quality in QualityPreset::ALL {
            let setting = quality_setting(codec, quality);
            assert_eq!(setting.flag, "-q:v");
            // Higher `-q:v` means better quality, so the presets must descend.
            assert!(
                setting.value < previous,
                "{} {} is not descending",
                codec.label(),
                quality.label()
            );
            previous = setting.value;
        }
    }
    assert_eq!(quality_setting(VideoCodec::H264Hw, QualityPreset::Balanced).label(), "Q 60");
    assert!(!VideoCodec::H264.is_hardware());
    assert!(VideoCodec::H265Hw.is_hevc());
    assert!(!VideoCodec::H264Hw.is_hevc());
}

#[test]
fn quicktime_containers_offer_both_hardware_and_software_h26x() {
    for container in [Container::Mp4, Container::Mov] {
        let codecs = supported_video_codecs(container);
        for codec in [VideoCodec::H264, VideoCodec::H264Hw, VideoCodec::H265, VideoCodec::H265Hw] {
            assert!(codecs.contains(&codec), "{} should allow {}", container.label(), codec.label());
        }
    }
    // VideoToolbox cannot produce VP9 or AV1, so WebM stays software-only.
    assert!(!supported_video_codecs(Container::WebM).iter().any(|codec| codec.is_hardware()));
}

#[test]
fn scale_preserves_aspect_ratio_and_prevents_upscale() {
    let filter = scale_filter(Resolution::P1080).unwrap();
    assert!(filter.contains("min(1920,iw)"));
    assert!(filter.contains("min(1080,ih)"));
    assert!(filter.contains("force_divisible_by=2"));
    assert_eq!(scale_filter(Resolution::Source), None);
}

#[test]
fn output_dimensions_mirror_the_scale_filter() {
    assert_eq!(output_dimensions(Resolution::P1080, &source(3840, 2160)), (1920, 1080));
    // Never upscale.
    assert_eq!(output_dimensions(Resolution::P2160, &source(1280, 720)), (1280, 720));
    assert_eq!(output_dimensions(Resolution::Source, &source(3840, 2160)), (3840, 2160));
    // Fit the wider axis and keep both sides even.
    let (width, height) = output_dimensions(Resolution::P1080, &source(3000, 500));
    assert_eq!((width, height), (1920, 320));
    let (width, height) = output_dimensions(Resolution::P720, &source(1999, 1001));
    assert_eq!(width % 2, 0);
    assert_eq!(height % 2, 0);
    assert!(width <= 1280 && height <= 720);
}

#[test]
fn formats_sizes_in_readable_tiers() {
    assert_eq!(format_size(0), "1 KB");
    assert_eq!(format_size(512_000), "512 KB");
    assert_eq!(format_size(6_619_800), "6.6 MB");
    assert_eq!(format_size(2_500_000_000), "2.50 GB");
}

#[test]
fn sizes_round_as_their_double_prints() {
    assert_eq!(format_size(6_650_000), "6.7 MB");
    assert_eq!(format_size(6_250_000), "6.2 MB");
    assert_eq!(format_size(6_750_000), "6.8 MB");
    assert_eq!(format_size(1_500), "2 KB");
    assert_eq!(format_size(2_500), "2 KB");
    assert_eq!(format_size(999), "1 KB");
    assert_eq!(format_size(1_005_000_000), "1.00 GB");
    assert_eq!(format_size(1_015_000_000), "1.01 GB");
    assert_eq!(format_size(u64::MAX), "18446744073.71 GB");
}

#[test]
fn size_labels_mark_heuristic_estimates() {
    let targeted = SizeEstimate { bytes: 6_619_800, basis: EstimateBasis::Targeted };
    assert_eq!(targeted.label(), "~6.6 MB");
    let rough = SizeEstimate { bytes: 6_619_800, basis: EstimateBasis::Heuristic };
    assert!(rough.label().ends_with("(rough)"));
}

#[test]
fn suggests_container_extension() {
    let mkv_output = suggested_output_path("/tmp/My Clip.mov", Container::Matroska);
    assert_eq!(mkv_output, "/tmp/My Clip.transcoded.mkv");

    let mov_output = suggested_output_path("/tmp/My Clip.mp4", Container::Mov);
    assert_eq!(mov_output, "/tmp/My Clip.transcoded.mov");
}

#[test]
fn validation_names_the_first_failing_check() {
    let media = probed_media();
    let valid = DraftConfig {
        input: Some("/tmp/in.mov".to_owned()),
        output: Some("/tmp/out.mp4".to_owned()),
        ..DraftConfig::default()
    };
    let config = valid.validated(&media, &facts()).expect("a complete draft is valid");
    assert_eq!(config.input, "/tmp/in.mov");
    assert_eq!(config.output, "/tmp/out.mp4");
    assert_eq!(config.video_rate_control, VideoRateControl::Quality(QualityPreset::Balanced));

    let missing = DraftConfig { input: None, ..valid.clone() };
    assert_eq!(missing.validated(&media, &facts()).unwrap_err(), ValidationError::MissingInput);

    let same = DraftConfig { output: Some("/tmp/in.mov".to_owned()), ..valid.clone() };
    assert_eq!(same.validated(&media, &facts()).unwrap_err(), ValidationError::SameInputAndOutput);

    let exists = PathFacts { output_exists: true, ..facts() };
    assert_eq!(valid.validated(&media, &exists).unwrap_err(), ValidationError::OutputExists);

    let incompatible = DraftConfig { audio_codec: AudioCodec::Opus, ..valid.clone() };
    assert_eq!(
        incompatible.validated(&media, &facts()).unwrap_err(),
        ValidationError::IncompatibleCodecs
    );

    let slow = DraftConfig {
        rate_control_mode: RateControlMode::Bitrate,
        video_bitrate_kbps: 50,
        ..valid.clone()
    };
    assert_eq!(slow.validated(&media, &facts()).unwrap_err(), ValidationError::InvalidVideoBitrate);

    let loud = DraftConfig { audio_bitrate_kbps: 1_000, ..valid.clone() };
    assert_eq!(loud.validated(&media, &facts()).unwrap_err(), ValidationError::InvalidAudioBitrate);
    assert_eq!(
        ValidationError::InvalidAudioBitrate.message(),
        "Audio bitrate must be between 32 and 512 kbps."
    );

    // A silent source cannot fail on its audio bitrate, and writes no audio.
    let mut silent = probed_media();
    silent.audio = None;
    let config = loud.validated(&silent, &facts()).expect("no audio to check");
    assert_eq!(config.audio_codec, AudioCodec::Silent);
}

#[test]
fn scaling_stays_inside_the_canvas_with_even_sides() {
    let source = |width, height| VideoStreamInfo {
        codec: "h264".to_owned(),
        width,
        height,
        frame_rate: None,
        bitrate_kbps: None,
    };
    assert_eq!(otter::domain::output_dimensions(Resolution::P720, &source(1921, 1081)), (1278, 720));
    assert_eq!(otter::domain::output_dimensions(Resolution::P720, &source(641, 361)), (640, 360));
    assert_eq!(otter::domain::output_dimensions(Resolution::P2160, &source(1281, 721)), (1280, 720));
    assert_eq!(otter::domain::output_dimensions(Resolution::Source, &source(1921, 1081)), (1921, 1081));
}
