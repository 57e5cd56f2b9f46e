use otter::domain::{AudioCodec, VideoCodec};
use otter::toolchain::{detect_encoders, version_line, Toolchain};

#[test]
fn detects_known_encoders_as_whole_words() {
    let listing = " V....D libx264   H.264\n V....D h264_videotoolbox  VT\n A....D aac  AAC\n A....D libopusx fake\n";
    assert_eq!(detect_encoders(listing), vec!["libx264".to_owned(), "aac".to_owned()]);
}

#[test]
fn reads_the_first_version_line() {
    assert_eq!(version_line("ffmpeg version 7.1 Copyright\r\nbuilt with clang\n"), "ffmpeg version 7.1 Copyright");
    assert_eq!(version_line(""), "Unknown version");
}

#[test]
fn the_fixture_offers_every_software_encoder() {
    let toolchain = Toolchain::test_fixture();
    assert!(toolchain.supports_video(VideoCodec::H264));
    assert!(toolchain.supports_video(VideoCodec::Vp9));
    assert!(!toolchain.supports_video(VideoCodec::H264Hw));
    assert!(toolchain.supports_audio(AudioCodec::Opus));
    assert!(toolchain.supports_audio(AudioCodec::Silent));

    let built = Toolchain::from_tool_output(
        "/opt/ffmpeg".to_owned(),
        "/opt/ffprobe".to_owned(),
        "ffmpeg version 8",
        "ffprobe version 8",
        "libx264 hevc_videotoolbox",
    );
    assert!(built.supports_video(VideoCodec::H264));
    assert!(!built.supports_audio(AudioCodec::Aac));
}

#[test]
fn tools_are_looked_for_in_the_override_then_the_path_then_homebrew() {
    let search = vec!["/usr/bin".to_owned(), "/bin".to_owned()];
    assert_eq!(
        otter::toolchain::tool_candidates(Some("/custom/ffmpeg".to_owned()), &search, "ffmpeg"),
        vec![
            "/custom/ffmpeg",
            "/usr/bin/ffmpeg",
            "/bin/ffmpeg",
            "/opt/homebrew/bin/ffmpeg",
            "/usr/local/bin/ffmpeg",
        ]
    );
    assert_eq!(otter::toolchain::tool_candidates(None, &Vec::new(), "ffprobe").len(), 2);
}
