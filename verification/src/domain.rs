//! The transcoding vocabulary: containers, codecs, presets, the draft the user
//! edits and the validated configuration a job runs with.
use vstd::prelude::*;

use crate::paths;
use crate::text::{decimal, owned, push_decimal, push_str, push_two_digits, same_text, two_digits};
use vstd::arithmetic::power2::{
    pow2, lemma2_to64, lemma2_to64_rest, lemma_pow2_adds, lemma_pow2_strictly_increases, lemma_pow2_unfold,
};

verus! {

/// Video bitrates (kbps) the settings card steps through.
pub const VIDEO_BITRATE_PRESETS: [u32; 6] = [1_000, 2_500, 5_000, 8_000, 12_000, 20_000];

/// Audio bitrates (kbps) the settings card steps through.
pub const AUDIO_BITRATE_PRESETS: [u32; 7] = [64, 96, 128, 160, 192, 256, 320];

#[derive(Debug, Clone, Copy, PartialEq, Eq, Structural)]
pub enum Container {
    Mp4,
    Mov,
    Matroska,
    WebM,
}

impl Container {
    pub const ALL: [Container; 4] = [Container::Mp4, Container::Mov, Container::Matroska, Container::WebM];

    pub open spec fn extension_text(self) -> Seq<char> {
        match self {
            Container::Mp4 => "mp4"@,
            Container::Mov => "mov"@,
            Container::Matroska => "mkv"@,
            Container::WebM => "webm"@,
        }
    }

    /// An extension is a single name: it never holds a path separator.
    pub proof fn lemma_extension_is_one_name(self)
        ensures
            !self.extension_text().contains('/'),
    {
        reveal_strlit("mp4");
        reveal_strlit("mov");
        reveal_strlit("mkv");
        reveal_strlit("webm");
        match self {
            Container::Mp4 => assert("mp4"@ =~= seq!['m', 'p', '4']),
            Container::Mov => assert("mov"@ =~= seq!['m', 'o', 'v']),
            Container::Matroska => assert("mkv"@ =~= seq!['m', 'k', 'v']),
            Container::WebM => assert("webm"@ =~= seq!['w', 'e', 'b', 'm']),
        }
    }

    pub open spec fn muxer_text(self) -> Seq<char> {
        match self {
            Container::Mp4 => "mp4"@,
            Container::Mov => "mov"@,
            Container::Matroska => "matroska"@,
            Container::WebM => "webm"@,
        }
    }

    /// The file extension outputs in this container carry.
    pub fn extension(self) -> (r: &'static str)
        ensures
            r@ == self.extension_text(),
    {
        match self {
            Container::Mp4 => "mp4",
            Container::Mov => "mov",
            Container::Matroska => "mkv",
            Container::WebM => "webm",
        }
    }

    /// The FFmpeg muxer (`-f`) for this container.
    pub fn muxer(self) -> (r: &'static str)
        ensures
            r@ == self.muxer_text(),
    {
        match self {
            Container::Mp4 => "mp4",
            Container::Mov => "mov",
            Container::Matroska => "matroska",
            Container::WebM => "webm",
        }
    }

    pub open spec fn label_text(self) -> Seq<char> {
        match self {
            Container::Mp4 => "MP4"@,
            Container::Mov => "MOV"@,
            Container::Matroska => "Matroska (MKV)"@,
            Container::WebM => "WebM"@,
        }
    }

    /// The name the settings card shows.
    pub fn label(self) -> (r: &'static str)
        ensures
            r@ == self.label_text(),
    {
        match self {
            Container::Mp4 => "MP4",
            Container::Mov => "MOV",
            Container::Matroska => "Matroska (MKV)",
            Container::WebM => "WebM",
        }
    }
}

#[derive(Debug, Clone, Copy, PartialEq, Eq, Hash, Structural)]
pub enum VideoCodec {
    H264,
    H264Hw,
    H265,
    H265Hw,
    Av1,
    Vp9,
}

impl VideoCodec {
    pub const ALL: [VideoCodec; 6] = [
        VideoCodec::H264,
        VideoCodec::H264Hw,
        VideoCodec::H265,
        VideoCodec::H265Hw,
        VideoCodec::Av1,
        VideoCodec::Vp9,
    ];

    pub open spec fn encoder_text(self) -> Seq<char> {
        match self {
            VideoCodec::H264 => "libx264"@,
            VideoCodec::H264Hw => "h264_videotoolbox"@,
            VideoCodec::H265 => "libx265"@,
            VideoCodec::H265Hw => "hevc_videotoolbox"@,
            VideoCodec::Av1 => "libsvtav1"@,
            VideoCodec::Vp9 => "libvpx-vp9"@,
        }
    }

    /// The FFmpeg encoder name.
    pub fn encoder(self) -> (r: &'static str)
        ensures
            r@ == self.encoder_text(),
    {
        match self {
            VideoCodec::H264 => "libx264",
            VideoCodec::H264Hw => "h264_videotoolbox",
            VideoCodec::H265 => "libx265",
            VideoCodec::H265Hw => "hevc_videotoolbox",
            VideoCodec::Av1 => "libsvtav1",
            VideoCodec::Vp9 => "libvpx-vp9",
        }
    }

    pub open spec fn hardware(self) -> bool {
        self == VideoCodec::H264Hw || self == VideoCodec::H265Hw
    }

    pub open spec fn hevc(self) -> bool {
        self == VideoCodec::H265 || self == VideoCodec::H265Hw
    }

    /// VideoToolbox encoders run on the Apple media engine instead of the CPU.
    pub fn is_hardware(self) -> (r: bool)
        ensures
            r == self.hardware(),
    {
        match self {
            VideoCodec::H264Hw | VideoCodec::H265Hw => true,
            _ => false,
        }
    }

    /// HEVC needs the `hvc1` tag to stay playable in QuickTime containers.
    pub fn is_hevc(self) -> (r: bool)
        ensures
            r == self.hevc(),
    {
        match self {
            VideoCodec::H265 | VideoCodec::H265Hw => true,
            _ => false,
        }
    }

    pub open spec fn label_text(self) -> Seq<char> {
        match self {
            VideoCodec::H264 => "H.264 (libx264, CPU)"@,
            VideoCodec::H264Hw => "H.264 (VideoToolbox, GPU)"@,
            VideoCodec::H265 => "H.265 (libx265, CPU)"@,
            VideoCodec::H265Hw => "H.265 (VideoToolbox, GPU)"@,
            VideoCodec::Av1 => "AV1 (SVT-AV1)"@,
            VideoCodec::Vp9 => "VP9 (libvpx-vp9)"@,
        }
    }

    /// The name the settings card shows.
    pub fn label(self) -> (r: &'static str)
        ensures
            r@ == self.label_text(),
    {
        match self {
            VideoCodec::H264 => "H.264 (libx264, CPU)",
            VideoCodec::H264Hw => "H.264 (VideoToolbox, GPU)",
            VideoCodec::H265 => "H.265 (libx265, CPU)",
            VideoCodec::H265Hw => "H.265 (VideoToolbox, GPU)",
            VideoCodec::Av1 => "AV1 (SVT-AV1)",
            VideoCodec::Vp9 => "VP9 (libvpx-vp9)",
        }
    }
}

#[derive(Debug, Clone, Copy, PartialEq, Eq, Hash, Structural)]
pub enum AudioCodec {
    Aac,
    Opus,
    Mp3,
    Silent,
}

impl AudioCodec {
    pub const ALL: [AudioCodec; 4] = [AudioCodec::Aac, AudioCodec::Opus, AudioCodec::Mp3, AudioCodec::Silent];

    pub open spec fn encoder_text(self) -> Option<Seq<char>> {
        match self {
            AudioCodec::Aac => Some("aac"@),
            AudioCodec::Opus => Some("libopus"@),
            AudioCodec::Mp3 => Some("libmp3lame"@),
            AudioCodec::Silent => None,
        }
    }

    /// The FFmpeg encoder name; silent output has none.
    pub fn encoder(self) -> (r: Option<&'static str>)
        ensures
            match r {
                Some(name) => self.encoder_text() == Some(name@),
                None => self.encoder_text() is None,
            },
    {
        match self {
            AudioCodec::Aac => Some("aac"),
            AudioCodec::Opus => Some("libopus"),
            AudioCodec::Mp3 => Some("libmp3lame"),
            AudioCodec::Silent => None,
        }
    }

    pub open spec fn label_text(self) -> Seq<char> {
        match self {
            AudioCodec::Aac => "AAC"@,
            AudioCodec::Opus => "Opus"@,
            AudioCodec::Mp3 => "MP3"@,
            AudioCodec::Silent => "None"@,
        }
    }

    /// The name the settings card shows.
    pub fn label(self) -> (r: &'static str)
        ensures
            r@ == self.label_text(),
    {
        match self {
            AudioCodec::Aac => "AAC",
            AudioCodec::Opus => "Opus",
            AudioCodec::Mp3 => "MP3",
            AudioCodec::Silent => "None",
        }
    }
}

#[derive(Debug, Clone, Copy, PartialEq, Eq, Structural)]
pub enum Resolution {
    Source,
    P2160,
    P1440,
    P1080,
    P720,
    P480,
}

impl Resolution {
    pub const ALL: [Resolution; 6] = [
        Resolution::Source,
        Resolution::P2160,
        Resolution::P1440,
        Resolution::P1080,
        Resolution::P720,
        Resolution::P480,
    ];

    pub open spec fn canvas_size(self) -> Option<(u16, u16)> {
        match self {
            Resolution::Source => None,
            Resolution::P2160 => Some((3840, 2160)),
            Resolution::P1440 => Some((2560, 1440)),
            Resolution::P1080 => Some((1920, 1080)),
            Resolution::P720 => Some((1280, 720)),
            Resolution::P480 => Some((854, 480)),
        }
    }

    /// The box a scaled frame must fit in, or `None` to keep the source size.
    pub fn canvas(self) -> (r: Option<(u16, u16)>)
        ensures
            r == self.canvas_size(),
    {
        match self {
            Resolution::Source => None,
            Resolution::P2160 => Some((3840, 2160)),
            Resolution::P1440 => Some((2560, 1440)),
            Resolution::P1080 => Some((1920, 1080)),
            Resolution::P720 => Some((1280, 720)),
            Resolution::P480 => Some((854, 480)),
        }
    }

    pub open spec fn label_text(self) -> Seq<char> {
        match self {
            Resolution::Source => "Source"@,
            Resolution::P2160 => "2160p (4K)"@,
            Resolution::P1440 => "1440p"@,
            Resolution::P1080 => "1080p"@,
            Resolution::P720 => "720p"@,
            Resolution::P480 => "480p"@,
        }
    }

    /// The name the settings card shows.
    pub fn label(self) -> (r: &'static str)
        ensures
            r@ == self.label_text(),
    {
        match self {
            Resolution::Source => "Source",
            Resolution::P2160 => "2160p (4K)",
            Resolution::P1440 => "1440p",
            Resolution::P1080 => "1080p",
            Resolution::P720 => "720p",
            Resolution::P480 => "480p",
        }
    }
}

#[derive(Debug, Clone, Copy, PartialEq, Eq, Structural)]
pub enum RateControlMode {
    Quality,
    Bitrate,
}

impl RateControlMode {
    /// The name the settings card shows.
    pub fn label(self) -> (r: &'static str)
        ensures
            r@ == (match self {
                RateControlMode::Quality => "Constant quality"@,
                RateControlMode::Bitrate => "Target bitrate"@,
            }),
    {
        match self {
            RateControlMode::Quality => "Constant quality",
            RateControlMode::Bitrate => "Target bitrate",
        }
    }
}

#[derive(Debug, Clone, Copy, PartialEq, Eq, Structural)]
pub enum QualityPreset {
    High,
    Balanced,
    Small,
}

impl QualityPreset {
    pub const ALL: [QualityPreset; 3] = [QualityPreset::High, QualityPreset::Balanced, QualityPreset::Small];

    /// The name the settings card shows.
    pub open spec fn label_text(self) -> Seq<char> {
        match self {
            QualityPreset::High => "High"@,
            QualityPreset::Balanced => "Balanced"@,
            QualityPreset::Small => "Small file"@,
        }
    }

    /// The name the settings card shows.
    pub fn label(self) -> (r: &'static str)
        ensures
            r@ == self.label_text(),
    {
        match self {
            QualityPreset::High => "High",
            QualityPreset::Balanced => "Balanced",
            QualityPreset::Small => "Small file",
        }
    }
}

#[derive(Debug, Clone, Copy, PartialEq, Eq, Structural)]
pub enum VideoRateControl {
    Quality(QualityPreset),
    Bitrate(u32),
}

// ------------------------------------------------------------ codec policy

/// Whether `container` can hold video from `codec`.
pub open spec fn video_allowed(container: Container, codec: VideoCodec) -> bool {
    match container {
        Container::Mp4 | Container::Mov => codec != VideoCodec::Vp9,
        Container::Matroska => true,
        Container::WebM => codec == VideoCodec::Av1 || codec == VideoCodec::Vp9,
    }
}

/// Whether `container` can hold audio from `codec`.
pub open spec fn audio_allowed(container: Container, codec: AudioCodec) -> bool {
    match container {
        Container::Mp4 | Container::Mov => codec == AudioCodec::Aac || codec == AudioCodec::Silent,
        Container::Matroska => true,
        Container::WebM => codec == AudioCodec::Opus || codec == AudioCodec::Silent,
    }
}

/// The video codecs a container offers, in the order the settings card cycles.
pub open spec fn supported_video(container: Container) -> Seq<VideoCodec> {
    match container {
        Container::Mp4 | Container::Mov => seq![
            VideoCodec::H264,
            VideoCodec::H264Hw,
            VideoCodec::H265,
            VideoCodec::H265Hw,
            VideoCodec::Av1,
        ],
        Container::Matroska => seq![
            VideoCodec::H264,
            VideoCodec::H264Hw,
            VideoCodec::H265,
            VideoCodec::H265Hw,
            VideoCodec::Av1,
            VideoCodec::Vp9,
        ],
        Container::WebM => seq![VideoCodec::Av1, VideoCodec::Vp9],
    }
}

/// The audio codecs a container offers, in the order the settings card cycles.
pub open spec fn supported_audio(container: Container) -> Seq<AudioCodec> {
    match container {
        Container::Mp4 | Container::Mov => seq![AudioCodec::Aac, AudioCodec::Silent],
        Container::Matroska => seq![AudioCodec::Aac, AudioCodec::Opus, AudioCodec::Mp3, AudioCodec::Silent],
        Container::WebM => seq![AudioCodec::Opus, AudioCodec::Silent],
    }
}

pub open spec fn default_video(container: Container) -> VideoCodec {
    match container {
        Container::WebM => VideoCodec::Vp9,
        _ => VideoCodec::H264,
    }
}

pub open spec fn default_audio(container: Container) -> AudioCodec {
    match container {
        Container::WebM => AudioCodec::Opus,
        _ => AudioCodec::Aac,
    }
}

/// The lists and the predicates describe the same policy, and each default is
/// one of the container's own codecs.
pub proof fn lemma_codec_policy(container: Container, video: VideoCodec, audio: AudioCodec)
    ensures
        supported_video(container).contains(video) <==> video_allowed(container, video),
        supported_audio(container).contains(audio) <==> audio_allowed(container, audio),
        video_allowed(container, default_video(container)),
        audio_allowed(container, default_audio(container)),
{
    let vs = supported_video(container);
    let aus = supported_audio(container);
    if video_allowed(container, video) {
        let i: int = match (container, video) {
            (Container::WebM, VideoCodec::Av1) => 0,
            (Container::WebM, _) => 1,
            (_, VideoCodec::H264) => 0,
            (_, VideoCodec::H264Hw) => 1,
            (_, VideoCodec::H265) => 2,
            (_, VideoCodec::H265Hw) => 3,
            (_, VideoCodec::Av1) => 4,
            (_, VideoCodec::Vp9) => 5,
        };
        assert(vs[i] == video);
    }
    if audio_allowed(container, audio) {
        let i: int = match (container, audio) {
            (Container::Matroska, AudioCodec::Aac) => 0,
            (Container::Matroska, AudioCodec::Opus) => 1,
            (Container::Matroska, AudioCodec::Mp3) => 2,
            (Container::Matroska, AudioCodec::Silent) => 3,
            (_, AudioCodec::Silent) => 1,
            (_, _) => 0,
        };
        assert(aus[i] == audio);
    }
}

/// The video codecs `container` can hold.
pub fn supported_video_codecs(container: Container) -> (r: Vec<VideoCodec>)
    ensures
        r@ == supported_video(container),
{
    let r = match container {
        Container::Mp4 | Container::Mov => vec![
            VideoCodec::H264,
            VideoCodec::H264Hw,
            VideoCodec::H265,
            VideoCodec::H265Hw,
            VideoCodec::Av1,
        ],
        Container::Matroska => vec![
            VideoCodec::H264,
            VideoCodec::H264Hw,
            VideoCodec::H265,
            VideoCodec::H265Hw,
            VideoCodec::Av1,
            VideoCodec::Vp9,
        ],
        Container::WebM => vec![VideoCodec::Av1, VideoCodec::Vp9],
    };
    assert(r@ =~= supported_video(container));
    r
}

/// The audio codecs `container` can hold.
pub fn supported_audio_codecs(container: Container) -> (r: Vec<AudioCodec>)
    ensures
        r@ == supported_audio(container),
{
    let r = match container {
        Container::Mp4 | Container::Mov => vec![AudioCodec::Aac, AudioCodec::Silent],
        Container::Matroska => vec![AudioCodec::Aac, AudioCodec::Opus, AudioCodec::Mp3, AudioCodec::Silent],
        Container::WebM => vec![AudioCodec::Opus, AudioCodec::Silent],
    };
    assert(r@ =~= supported_audio(container));
    r
}

/// The video codec a container falls back to when the current one is not allowed.
pub fn default_video_codec(container: Container) -> (r: VideoCodec)
    ensures
        r == default_video(container),
{
    match container {
        Container::WebM => VideoCodec::Vp9,
        _ => VideoCodec::H264,
    }
}

/// The audio codec a container falls back to when the current one is not allowed.
pub fn default_audio_codec(container: Container) -> (r: AudioCodec)
    ensures
        r == default_audio(container),
{
    match container {
        Container::WebM => AudioCodec::Opus,
        _ => AudioCodec::Aac,
    }
}

pub fn is_video_allowed(container: Container, codec: VideoCodec) -> (r: bool)
    ensures
        r == video_allowed(container, codec),
{
    match container {
        Container::Mp4 | Container::Mov => codec != VideoCodec::Vp9,
        Container::Matroska => true,
        Container::WebM => codec == VideoCodec::Av1 || codec == VideoCodec::Vp9,
    }
}

pub fn is_audio_allowed(container: Container, codec: AudioCodec) -> (r: bool)
    ensures
        r == audio_allowed(container, codec),
{
    match container {
        Container::Mp4 | Container::Mov => codec == AudioCodec::Aac || codec == AudioCodec::Silent,
        Container::Matroska => true,
        Container::WebM => codec == AudioCodec::Opus || codec == AudioCodec::Silent,
    }
}

// ------------------------------------------------------------ draft

/// The settings as the user edits them, before they are checked.
#[derive(Debug, Clone)]
pub struct DraftConfig {
    pub input: Option<String>,
    pub output: Option<String>,
    pub container: Container,
    pub video_codec: VideoCodec,
    pub audio_codec: AudioCodec,
    pub resolution: Resolution,
    pub rate_control_mode: RateControlMode,
    pub quality: QualityPreset,
    pub video_bitrate_kbps: u32,
    pub audio_bitrate_kbps: u32,
}

/// The settings a new session starts from.
pub open spec fn is_default_draft(r: DraftConfig) -> bool {
    &&& r.input is None
    &&& r.output is None
    &&& r.container == Container::Mp4
    &&& r.video_codec == VideoCodec::H264
    &&& r.audio_codec == AudioCodec::Aac
    &&& r.resolution == Resolution::Source
    &&& r.rate_control_mode == RateControlMode::Quality
    &&& r.quality == QualityPreset::Balanced
    &&& r.video_bitrate_kbps == 5_000
    &&& r.audio_bitrate_kbps == 192
}

impl Default for DraftConfig {
    fn default() -> (r: Self)
        ensures
            is_default_draft(r),
    {
        DraftConfig {
            input: None,
            output: None,
            container: Container::Mp4,
            video_codec: VideoCodec::H264,
            audio_codec: AudioCodec::Aac,
            resolution: Resolution::Source,
            rate_control_mode: RateControlMode::Quality,
            quality: QualityPreset::Balanced,
            video_bitrate_kbps: 5_000,
            audio_bitrate_kbps: 192,
        }
    }
}

/// What the filesystem says about the paths of a draft; gathered by the caller.
#[derive(Debug, Clone, Copy)]
pub struct PathFacts {
    pub input_exists: bool,
    pub output_exists: bool,
    /// Whether the output's parent directory exists and is a directory.
    pub output_parent_is_dir: bool,
}

/// The checked settings one transcode job runs with.
#[derive(Debug, Clone)]
pub struct TranscodeConfig {
    pub input: String,
    pub output: String,
    pub container: Container,
    pub video_codec: VideoCodec,
    pub audio_codec: AudioCodec,
    pub resolution: Resolution,
    pub video_rate_control: VideoRateControl,
    pub audio_bitrate_kbps: u32,
}

#[derive(Debug, Clone, Copy, PartialEq, Eq, Structural)]
pub enum ValidationError {
    MissingInput,
    MissingOutput,
    InputMissing,
    OutputExists,
    SameInputAndOutput,
    InvalidOutputDirectory,
    IncompatibleCodecs,
    InvalidVideoBitrate,
    InvalidAudioBitrate,
}

impl ValidationError {
    /// The sentence the status bar shows for this error.
    pub open spec fn message_text(self) -> Seq<char> {
        match self {
            ValidationError::MissingInput => "Select an input file."@,
            ValidationError::MissingOutput => "Select an output file."@,
            ValidationError::InputMissing => "The input file no longer exists."@,
            ValidationError::OutputExists => "The output file already exists. Choose a new file name."@,
            ValidationError::SameInputAndOutput => "The input and output paths must be different."@,
            ValidationError::InvalidOutputDirectory => "The output directory does not exist."@,
            ValidationError::IncompatibleCodecs => "The selected container and codecs are incompatible."@,
            ValidationError::InvalidVideoBitrate => "Video bitrate must be between 100 and 200000 kbps."@,
            ValidationError::InvalidAudioBitrate => "Audio bitrate must be between 32 and 512 kbps."@,
        }
    }

    /// The sentence the status bar shows for this error.
    pub fn message(self) -> (r: &'static str)
        ensures
            r@ == self.message_text(),
    {
        match self {
            ValidationError::MissingInput => "Select an input file.",
            ValidationError::MissingOutput => "Select an output file.",
            ValidationError::InputMissing => "The input file no longer exists.",
            ValidationError::OutputExists => "The output file already exists. Choose a new file name.",
            ValidationError::SameInputAndOutput => "The input and output paths must be different.",
            ValidationError::InvalidOutputDirectory => "The output directory does not exist.",
            ValidationError::IncompatibleCodecs => "The selected container and codecs are incompatible.",
            ValidationError::InvalidVideoBitrate => "Video bitrate must be between 100 and 200000 kbps.",
            ValidationError::InvalidAudioBitrate => "Audio bitrate must be between 32 and 512 kbps.",
        }
    }
}

/// The first check a draft fails, in the order the checks run.
pub open spec fn validation_error(
    draft: DraftConfig,
    source_has_audio: bool,
    facts: PathFacts,
) -> Option<ValidationError> {
    if draft.input is None {
        Some(ValidationError::MissingInput)
    } else if draft.output is None {
        Some(ValidationError::MissingOutput)
    } else if !facts.input_exists {
        Some(ValidationError::InputMissing)
    } else if facts.output_exists {
        Some(ValidationError::OutputExists)
    } else if paths::std_path_eq(draft.input.unwrap()@, draft.output.unwrap()@) {
        Some(ValidationError::SameInputAndOutput)
    } else if paths::std_path_parent(draft.output.unwrap()@) is None || !facts.output_parent_is_dir {
        Some(ValidationError::InvalidOutputDirectory)
    } else if !video_allowed(draft.container, draft.video_codec) || !audio_allowed(
        draft.container,
        draft.audio_codec,
    ) {
        Some(ValidationError::IncompatibleCodecs)
    } else if !(100 <= draft.video_bitrate_kbps <= 200_000) {
        Some(ValidationError::InvalidVideoBitrate)
    } else if draft.audio_codec != AudioCodec::Silent && source_has_audio && !(32
        <= draft.audio_bitrate_kbps <= 512) {
        Some(ValidationError::InvalidAudioBitrate)
    } else {
        None
    }
}

/// Once the paths are settled (the input exists, nothing is at the output,
/// the two are different paths, and the output's folder exists), a draft with
/// allowed codecs and a video bitrate in range is refused only for an audio
/// bitrate out of range, and only when audio is kept.
pub proof fn lemma_settled_paths_leave_the_rates(
    draft: DraftConfig,
    source_has_audio: bool,
    facts: PathFacts,
)
    requires
        draft.input matches Some(input) && draft.output matches Some(output) && !paths::std_path_eq(
            input@,
            output@,
        ) && paths::std_path_parent(output@) is Some,
        facts.input_exists && !facts.output_exists && facts.output_parent_is_dir,
        video_allowed(draft.container, draft.video_codec),
        audio_allowed(draft.container, draft.audio_codec),
        100 <= draft.video_bitrate_kbps <= 200_000,
    ensures
        validation_error(draft, source_has_audio, facts) == (if draft.audio_codec
            != AudioCodec::Silent && source_has_audio && !(32 <= draft.audio_bitrate_kbps <= 512) {
            Some(ValidationError::InvalidAudioBitrate)
        } else {
            None
        }),
{
}

/// The rate control a valid draft asks for.
pub open spec fn draft_rate_control(draft: DraftConfig) -> VideoRateControl {
    match draft.rate_control_mode {
        RateControlMode::Quality => VideoRateControl::Quality(draft.quality),
        RateControlMode::Bitrate => VideoRateControl::Bitrate(draft.video_bitrate_kbps),
    }
}

/// Whether `config` is exactly the configuration a valid `draft` yields.
pub open spec fn config_from_draft(
    draft: DraftConfig,
    source_has_audio: bool,
    config: TranscodeConfig,
) -> bool {
    &&& draft.input matches Some(input) && config.input@ == input@
    &&& draft.output matches Some(output) && config.output@ == output@
    &&& config.container == draft.container
    &&& config.video_codec == draft.video_codec
    &&& config.audio_codec == (if source_has_audio {
        draft.audio_codec
    } else {
        AudioCodec::Silent
    })
    &&& config.resolution == draft.resolution
    &&& config.video_rate_control == draft_rate_control(draft)
    &&& config.audio_bitrate_kbps == draft.audio_bitrate_kbps
}

/// A job runs with the rate control its draft asked for: the draft's quality
/// preset in quality mode, and in bitrate mode a target of exactly the draft's
/// video bitrate; audio is kept only when the source has some.
pub proof fn lemma_job_follows_its_draft(draft: DraftConfig, source_has_audio: bool, config: TranscodeConfig)
    requires
        config_from_draft(draft, source_has_audio, config),
    ensures
        draft.rate_control_mode == RateControlMode::Quality ==> config.video_rate_control
            == VideoRateControl::Quality(draft.quality),
        draft.rate_control_mode == RateControlMode::Bitrate ==> config.video_rate_control
            == VideoRateControl::Bitrate(draft.video_bitrate_kbps),
        config.audio_codec != AudioCodec::Silent ==> source_has_audio && config.audio_codec
            == draft.audio_codec,
        config.audio_bitrate_kbps == draft.audio_bitrate_kbps,
        draft.input matches Some(i) && config.input@ == i@,
        draft.output matches Some(o) && config.output@ == o@,
        config.container == draft.container && config.video_codec == draft.video_codec,
        config.resolution == draft.resolution,
{
}

impl DraftConfig {
    /// Moves the codecs and the output extension onto what the container allows.
    pub fn normalize_for_container(&mut self)
        ensures
            final(self).video_codec == (if video_allowed(old(self).container, old(self).video_codec) {
                old(self).video_codec
            } else {
                default_video(old(self).container)
            }),
            final(self).audio_codec == (if audio_allowed(old(self).container, old(self).audio_codec) {
                old(self).audio_codec
            } else {
                default_audio(old(self).container)
            }),
            final(self).output.deep_view() == (match old(self).output {
                Some(output) => Some(
                    paths::std_path_with_extension(output@, old(self).container.extension_text()),
                ),
                None => None,
            }),
            final(self).input == old(self).input,
            final(self).container == old(self).container,
            final(self).resolution == old(self).resolution,
            final(self).rate_control_mode == old(self).rate_control_mode,
            final(self).quality == old(self).quality,
            final(self).video_bitrate_kbps == old(self).video_bitrate_kbps,
            final(self).audio_bitrate_kbps == old(self).audio_bitrate_kbps,
            video_allowed(final(self).container, final(self).video_codec),
            audio_allowed(final(self).container, final(self).audio_codec),
    {
        proof {
            lemma_codec_policy(self.container, self.video_codec, self.audio_codec);
        }
        if !is_video_allowed(self.container, self.video_codec) {
            self.video_codec = default_video_codec(self.container);
        }
        if !is_audio_allowed(self.container, self.audio_codec) {
            self.audio_codec = default_audio_codec(self.container);
        }
        proof {
            self.container.lemma_extension_is_one_name();
        }
        let next = match &self.output {
            Some(output) => Some(paths::with_extension(output.as_str(), self.container.extension())),
            None => None,
        };
        self.output = next;
    }

    /// Checks the draft against the source it would read and the state of the
    /// filesystem, in a fixed order, and yields the job configuration.
    pub fn validated(&self, media: &InputMedia, facts: &PathFacts) -> (r: Result<
        TranscodeConfig,
        ValidationError,
    >)
        ensures
            match r {
                Ok(config) => validation_error(*self, media.audio is Some, *facts) is None
                    && config_from_draft(*self, media.audio is Some, config) && config.input@
                    != config.output@ && config.video_rate_control == (match self.rate_control_mode {
                    RateControlMode::Quality => VideoRateControl::Quality(self.quality),
                    RateControlMode::Bitrate => VideoRateControl::Bitrate(self.video_bitrate_kbps),
                }),
                Err(error) => validation_error(*self, media.audio is Some, *facts) == Some(error),
            },
    {
        let input = match &self.input {
            Some(input) => input.clone(),
            None => return Err(ValidationError::MissingInput),
        };
        let output = match &self.output {
            Some(output) => output.clone(),
            None => return Err(ValidationError::MissingOutput),
        };
        if !facts.input_exists {
            return Err(ValidationError::InputMissing);
        }
        if facts.output_exists {
            return Err(ValidationError::OutputExists);
        }
        if paths::same_path(input.as_str(), output.as_str()) {
            return Err(ValidationError::SameInputAndOutput);
        }
        if paths::parent(output.as_str()).is_none() || !facts.output_parent_is_dir {
            return Err(ValidationError::InvalidOutputDirectory);
        }
        if !is_video_allowed(self.container, self.video_codec) || !is_audio_allowed(
            self.container,
            self.audio_codec,
        ) {
            return Err(ValidationError::IncompatibleCodecs);
        }
        if !(100 <= self.video_bitrate_kbps && self.video_bitrate_kbps <= 200_000) {
            return Err(ValidationError::InvalidVideoBitrate);
        }
        let has_audio = media.audio.is_some();
        if self.audio_codec != AudioCodec::Silent && has_audio && !(32 <= self.audio_bitrate_kbps
            && self.audio_bitrate_kbps <= 512) {
            return Err(ValidationError::InvalidAudioBitrate);
        }
        let video_rate_control = match self.rate_control_mode {
            RateControlMode::Quality => VideoRateControl::Quality(self.quality),
            RateControlMode::Bitrate => VideoRateControl::Bitrate(self.video_bitrate_kbps),
        };
        Ok(TranscodeConfig {
            input,
            output,
            container: self.container,
            video_codec: self.video_codec,
            audio_codec: if has_audio {
                self.audio_codec
            } else {
                AudioCodec::Silent
            },
            resolution: self.resolution,
            video_rate_control,
            audio_bitrate_kbps: self.audio_bitrate_kbps,
        })
    }
}

// ------------------------------------------------------------ probed media

/// A frame rate as ffprobe reports it: the rational `numerator/denominator`.
#[derive(Debug, Clone, Copy, PartialEq, Eq, Structural)]
pub struct FrameRate {
    pub numerator: u64,
    pub denominator: u64,
}

#[derive(Debug, Clone)]
pub struct VideoStreamInfo {
    pub codec: String,
    pub width: u32,
    pub height: u32,
    /// Frames per second, absent when ffprobe could not measure the stream.
    pub frame_rate: Option<FrameRate>,
    /// Bitrate of this stream alone; many containers omit it.
    pub bitrate_kbps: Option<u32>,
}

#[derive(Debug, Clone)]
pub struct AudioStreamInfo {
    pub codec: String,
    pub channels: Option<u32>,
    pub sample_rate: Option<u32>,
}

/// What ffprobe reported about one input file.
#[derive(Debug, Clone)]
pub struct InputMedia {
    pub path: String,
    /// Length in microseconds, when ffprobe reported one.
    pub duration_micros: Option<u64>,
    pub video: VideoStreamInfo,
    pub audio: Option<AudioStreamInfo>,
    pub format_name: Option<String>,
    /// Container size on disk, when ffprobe reported it.
    pub size_bytes: Option<u64>,
    /// Overall container bitrate, covering every stream plus muxing overhead.
    pub bitrate_kbps: Option<u32>,
}

// ------------------------------------------------------------ quality

/// The constant-quality flag and value that drive one encoder.
#[derive(Debug, Clone, Copy, PartialEq, Eq)]
pub struct QualitySetting {
    /// `-crf` for software encoders, `-q:v` for VideoToolbox.
    pub flag: &'static str,
    pub value: u8,
}

/// The constant-quality value of each encoder and preset. Software encoders take
/// a CRF where lower is better; VideoToolbox takes `-q:v` where higher is better.
pub open spec fn quality_value(codec: VideoCodec, quality: QualityPreset) -> u8 {
    match (codec, quality) {
        (VideoCodec::H264, QualityPreset::High) => 18,
        (VideoCodec::H264, QualityPreset::Balanced) => 23,
        (VideoCodec::H264, QualityPreset::Small) => 28,
        (VideoCodec::H264Hw, QualityPreset::High) => 70,
        (VideoCodec::H264Hw, QualityPreset::Balanced) => 60,
        (VideoCodec::H264Hw, QualityPreset::Small) => 47,
        (VideoCodec::H265, QualityPreset::High) => 20,
        (VideoCodec::H265, QualityPreset::Balanced) => 26,
        (VideoCodec::H265, QualityPreset::Small) => 30,
        (VideoCodec::H265Hw, QualityPreset::High) => 65,
        (VideoCodec::H265Hw, QualityPreset::Balanced) => 55,
        (VideoCodec::H265Hw, QualityPreset::Small) => 47,
        (VideoCodec::Av1, QualityPreset::High) => 28,
        (VideoCodec::Av1, QualityPreset::Balanced) => 35,
        (VideoCodec::Av1, QualityPreset::Small) => 42,
        (VideoCodec::Vp9, QualityPreset::High) => 24,
        (VideoCodec::Vp9, QualityPreset::Balanced) => 32,
        (VideoCodec::Vp9, QualityPreset::Small) => 40,
    }
}

/// The flag each encoder takes its quality value with.
pub open spec fn quality_flag(codec: VideoCodec) -> Seq<char> {
    if codec.hardware() {
        "-q:v"@
    } else {
        "-crf"@
    }
}

/// The encoder flag and value for a quality preset.
pub fn quality_setting(codec: VideoCodec, quality: QualityPreset) -> (r: QualitySetting)
    ensures
        r.flag@ == quality_flag(codec),
        r.value == quality_value(codec, quality),
{
    let value: u8 = match (codec, quality) {
        (VideoCodec::H264, QualityPreset::High) => 18,
        (VideoCodec::H264, QualityPreset::Balanced) => 23,
        (VideoCodec::H264, QualityPreset::Small) => 28,
        (VideoCodec::H264Hw, QualityPreset::High) => 70,
        (VideoCodec::H264Hw, QualityPreset::Balanced) => 60,
        (VideoCodec::H264Hw, QualityPreset::Small) => 47,
        (VideoCodec::H265, QualityPreset::High) => 20,
        (VideoCodec::H265, QualityPreset::Balanced) => 26,
        (VideoCodec::H265, QualityPreset::Small) => 30,
        (VideoCodec::H265Hw, QualityPreset::High) => 65,
        (VideoCodec::H265Hw, QualityPreset::Balanced) => 55,
        (VideoCodec::H265Hw, QualityPreset::Small) => 47,
        (VideoCodec::Av1, QualityPreset::High) => 28,
        (VideoCodec::Av1, QualityPreset::Balanced) => 35,
        (VideoCodec::Av1, QualityPreset::Small) => 42,
        (VideoCodec::Vp9, QualityPreset::High) => 24,
        (VideoCodec::Vp9, QualityPreset::Balanced) => 32,
        (VideoCodec::Vp9, QualityPreset::Small) => 40,
    };
    let flag = if codec.is_hardware() {
        "-q:v"
    } else {
        "-crf"
    };
    QualitySetting { flag, value }
}

impl QualitySetting {
    /// `CRF 23` or `Q 60`: the short form the settings card shows.
    pub fn label(&self) -> (r: String)
        ensures
            r@ == (if self.flag@ == "-crf"@ {
                "CRF "@
            } else {
                "Q "@
            }) + decimal(self.value as nat),
    {
        let mut r = String::new();
        if same_text(self.flag, "-crf") {
            push_str(&mut r, "CRF ");
        } else {
            push_str(&mut r, "Q ");
        }
        push_decimal(&mut r, self.value as u64);
        r
    }
}

/// The presets keep their promise on both scales: software CRF values rise
/// from High to Small file, while VideoToolbox `-q:v` values fall.
pub proof fn lemma_quality_presets_ordered(codec: VideoCodec)
    ensures
        codec.hardware() ==> quality_value(codec, QualityPreset::High) > quality_value(
            codec,
            QualityPreset::Balanced,
        ) > quality_value(codec, QualityPreset::Small),
        !codec.hardware() ==> quality_value(codec, QualityPreset::High) < quality_value(
            codec,
            QualityPreset::Balanced,
        ) < quality_value(codec, QualityPreset::Small),
{
}

// ------------------------------------------------------------ scaling

pub open spec fn scale_filter_text(width: nat, height: nat) -> Seq<char> {
    "scale=w='min("@ + decimal(width) + ",iw)':h='min("@ + decimal(height)
        + ",ih)':force_original_aspect_ratio=decrease:force_divisible_by=2"@
}

/// The scale filter of every preset caps each side at the canvas and never
/// above the source (`min(canvas, iw)`, `min(canvas, ih)`), shrinks the frame
/// as a whole so its aspect ratio is kept
/// (`force_original_aspect_ratio=decrease`), and leaves both sides even
/// (`force_divisible_by=2`).
pub proof fn lemma_scale_filter_fits_and_keeps_aspect(resolution: Resolution)
    ensures
        resolution.canvas_size() matches Some((w, h)) ==> {
            let f = scale_filter_text(w as nat, h as nat);
            let caps = "scale=w='min("@ + decimal(w as nat) + ",iw)':h='min("@ + decimal(h as nat)
                + ",ih)'"@;
            &&& f.take(caps.len() as int) == caps
            &&& exists|x: Seq<char>, y: Seq<char>|
                f == x + ":force_original_aspect_ratio=decrease"@ + y
            &&& exists|x: Seq<char>, y: Seq<char>| f == x + ":force_divisible_by=2"@ + y
        },
{
    match resolution.canvas_size() {
        Some((w, h)) => {
            reveal_strlit(",ih)':force_original_aspect_ratio=decrease:force_divisible_by=2");
            reveal_strlit(",ih)'");
            reveal_strlit(":force_original_aspect_ratio=decrease");
            reveal_strlit(":force_divisible_by=2");
            let f = scale_filter_text(w as nat, h as nat);
            let front = "scale=w='min("@ + decimal(w as nat) + ",iw)':h='min("@ + decimal(h as nat);
            let tail = ",ih)':force_original_aspect_ratio=decrease:force_divisible_by=2"@;
            assert(tail =~= ",ih)'"@ + ":force_original_aspect_ratio=decrease"@ + ":force_divisible_by=2"@);
            let caps = front + ",ih)'"@;
            assert(f =~= caps + ":force_original_aspect_ratio=decrease"@ + ":force_divisible_by=2"@);
            assert(f.take(caps.len() as int) =~= caps);
            assert(f == caps + ":force_original_aspect_ratio=decrease"@ + ":force_divisible_by=2"@);
            assert(f == (caps + ":force_original_aspect_ratio=decrease"@) + ":force_divisible_by=2"@
                + Seq::<char>::empty());
        },
        None => {},
    }
}

/// The FFmpeg scale filter for a resolution preset: fit inside the canvas, keep
/// the aspect ratio, never enlarge, keep both sides even.
pub fn scale_filter(resolution: Resolution) -> (r: Option<String>)
    ensures
        r.deep_view() == (match resolution.canvas_size() {
            Some((w, h)) => Some(scale_filter_text(w as nat, h as nat)),
            None => None,
        }),
{
    match resolution.canvas() {
        None => None,
        Some((width, height)) => {
            let mut s = String::new();
            push_str(&mut s, "scale=w='min(");
            push_decimal(&mut s, width as u64);
            push_str(&mut s, ",iw)':h='min(");
            push_decimal(&mut s, height as u64);
            push_str(&mut s, ",ih)':force_original_aspect_ratio=decrease:force_divisible_by=2");
            assert(s@ =~= scale_filter_text(width as nat, height as nat));
            Some(s)
        },
    }
}

/// `round()` (halves away from zero) of `num / den`, at least 2, then made
/// even by dropping one: what `force_divisible_by=2` leaves.
pub open spec fn even_round(num: nat, den: nat) -> nat {
    let rounded = (2 * num + den) / (2 * den);
    let at_least_two: nat = if rounded < 2 { 2 } else { rounded };
    (at_least_two - at_least_two % 2) as nat
}

/// A side rounded down to even, but never below two pixels
/// (`force_divisible_by=2` on a frame that needs no shrinking).
pub open spec fn even_floor(side: nat) -> nat {
    let at_least_two: nat = if side < 2 { 2 } else { side };
    (at_least_two - at_least_two % 2) as nat
}

/// The frame size the encoder sees for a source of `width` x `height`.
pub open spec fn scaled_dimensions(resolution: Resolution, width: nat, height: nat) -> (nat, nat) {
    match resolution.canvas_size() {
        None => (width, height),
        Some((cw, ch)) => {
            if width <= cw && height <= ch {
                (even_floor(width), even_floor(height))
            } else if cw * height <= ch * width {
                (cw as nat, even_round(height * (cw as nat), width))
            } else {
                (even_round(width * (ch as nat), height), ch as nat)
            }
        },
    }
}

fn floor_to_even(side: u32) -> (r: u32)
    ensures
        r as nat == even_floor(side as nat),
{
    if side < 2 {
        2
    } else {
        side - side % 2
    }
}

fn round_to_even(num: u64, den: u64) -> (r: u32)
    requires
        den > 0,
        num <= 0x10_0000_0000_0000,
        den <= 0xffff_ffff,
        num / den <= 0xffff,
    ensures
        r as nat == even_round(num as nat, den as nat),
{
    let rounded = (2 * num + den) / (2 * den);
    assert(rounded <= num / den + 1) by (nonlinear_arith)
        requires
            rounded == (2 * num + den) / (2 * den),
            den > 0,
    ;
    let at_least_two: u64 = if rounded < 2 { 2 } else { rounded };
    let r = at_least_two - at_least_two % 2;
    r as u32
}

proof fn lemma_canvas_bounds(resolution: Resolution)
    ensures
        resolution.canvas_size() matches Some((w, h)) ==> 0 < w <= 3840 && 0 < h <= 2160,
{
}

proof fn lemma_even_round_at_most(num: nat, den: nat, k: nat)
    requires
        den > 0,
        k >= 2,
        num <= k * den,
    ensures
        even_round(num, den) <= k,
        even_round(num, den) >= 2,
        even_round(num, den) % 2 == 0,
{
    let rounded = (2 * num + den) / (2 * den);
    assert(rounded <= k) by (nonlinear_arith)
        requires
            den > 0,
            num <= k * den,
            rounded == (2 * num + den) / (2 * den),
    ;
}

proof fn lemma_even_round_close(num: nat, den: nat)
    requires
        den > 0,
    ensures
        even_round(num, den) * den <= num + 2 * den,
        num <= even_round(num, den) * den + 2 * den,
{
    let rounded = (2 * num + den) / (2 * den);
    assert(rounded * 2 * den <= 2 * num + den && 2 * num + den < (rounded + 1) * 2 * den) by (nonlinear_arith)
        requires
            rounded == (2 * num + den) / (2 * den),
            den > 0,
    ;
    let at_least_two: nat = if rounded < 2 { 2 } else { rounded };
    let r = (at_least_two - at_least_two % 2) as nat;
    assert(r == at_least_two || r + 1 == at_least_two);
    assert(r * den <= num + 2 * den && num <= r * den + 2 * den) by (nonlinear_arith)
        requires
            rounded * 2 * den <= 2 * num + den,
            2 * num + den < (rounded + 1) * 2 * den,
            at_least_two == (if rounded < 2 { 2 } else { rounded }),
            r == at_least_two || r + 1 == at_least_two,
            r >= 1,
            den > 0,
    ;
}

/// Scaling keeps the picture's shape: the frame's aspect ratio stays that of
/// the source, off by no more than the rounding to whole, even pixels
/// (`w / h` against `width / height`, cross-multiplied, within two pixels of
/// either side).
pub proof fn lemma_scaling_keeps_aspect(resolution: Resolution, width: nat, height: nat)
    requires
        width >= 2,
        height >= 2,
    ensures
        ({
            let (w, h) = scaled_dimensions(resolution, width, height);
            &&& w * height <= h * width + 2 * (width + height)
            &&& h * width <= w * height + 2 * (width + height)
        }),
{
    match resolution.canvas_size() {
        None => {
            assert(width * height == height * width) by (nonlinear_arith);
        },
        Some((cw, ch)) => {
            let cw = cw as nat;
            let ch = ch as nat;
            let (w, h) = scaled_dimensions(resolution, width, height);
            if width <= cw && height <= ch {
                assert(w == width || w + 1 == width);
                assert(h == height || h + 1 == height);
                assert(w * height <= h * width + 2 * (width + height) && h * width <= w * height + 2
                    * (width + height)) by (nonlinear_arith)
                    requires
                        w == width || w + 1 == width,
                        h == height || h + 1 == height,
                ;
            } else if cw * height <= ch * width {
                lemma_even_round_close(height * cw, width);
                assert(w == cw);
                assert(h == even_round(height * cw, width));
                assert(h * width <= height * cw + 2 * width);
                assert(height * cw <= h * width + 2 * width);
                assert(w * height == height * cw) by (nonlinear_arith)
                    requires
                        w == cw,
                ;
                assert(w * height <= h * width + 2 * (width + height));
                assert(h * width <= w * height + 2 * (width + height));
            } else {
                lemma_even_round_close(width * ch, height);
                assert(h == ch);
                assert(w == even_round(width * ch, height));
                assert(w * height <= width * ch + 2 * height);
                assert(width * ch <= w * height + 2 * height);
                assert(h * width == width * ch) by (nonlinear_arith)
                    requires
                        h == ch,
                ;
                assert(w * height <= h * width + 2 * (width + height));
                assert(h * width <= w * height + 2 * (width + height));
            }
        },
    }
}

/// Scaling to a canvas keeps the frame inside it, never enlarges it, and
/// leaves both sides even. (A side of one pixel is the exception to "never
/// enlarges": encoders need at least two.)
pub proof fn lemma_scaling_fits(resolution: Resolution, width: nat, height: nat)
    requires
        width >= 2,
        height >= 2,
    ensures
        ({
            let (w, h) = scaled_dimensions(resolution, width, height);
            &&& w <= width && h <= height
            &&& resolution.canvas_size() matches Some((cw, ch)) ==> {
                &&& w <= cw && h <= ch
                &&& w % 2 == 0 && h % 2 == 0
            }
        }),
{
    match resolution.canvas_size() {
        None => {},
        Some((cw, ch)) => {
            let cw = cw as nat;
            let ch = ch as nat;
            if width <= cw && height <= ch {
            } else if cw * height <= ch * width {
                assert(width > cw) by (nonlinear_arith)
                    requires
                        !(width <= cw && height <= ch),
                        cw * height <= ch * width,
                        height >= 1,
                        cw > 0,
                ;
                assert(height * cw <= height * width) by (nonlinear_arith)
                    requires
                        cw < width,
                ;
                assert(height * cw <= ch * width) by (nonlinear_arith)
                    requires
                        cw * height <= ch * width,
                ;
                lemma_even_round_at_most(height * cw, width, height);
                lemma_even_round_at_most(height * cw, width, ch);
            } else {
                assert(height > ch) by (nonlinear_arith)
                    requires
                        !(width <= cw && height <= ch),
                        !(cw * height <= ch * width),
                        width >= 1,
                        height >= 1,
                ;
                assert(width * ch <= width * height) by (nonlinear_arith)
                    requires
                        ch < height,
                ;
                assert(width * ch <= cw * height) by (nonlinear_arith)
                    requires
                        !(cw * height <= ch * width),
                ;
                lemma_even_round_at_most(width * ch, height, width);
                lemma_even_round_at_most(width * ch, height, cw);
            }
        },
    }
}

/// The frame size the encoder will actually see, mirroring [`scale_filter`].
pub fn output_dimensions(resolution: Resolution, source: &VideoStreamInfo) -> (r: (u32, u32))
    ensures
        (r.0 as nat, r.1 as nat) == scaled_dimensions(resolution, source.width as nat, source.height as nat),
{
    match resolution.canvas() {
        None => (source.width, source.height),
        Some((cw, ch)) => {
            let width = source.width as u64;
            let height = source.height as u64;
            let cw = cw as u64;
            let ch = ch as u64;
            proof {
                lemma_canvas_bounds(resolution);
                assert(cw * height <= 0xffff * 0xffff_ffff) by (nonlinear_arith)
                    requires
                        cw <= 0xffff,
                        height <= 0xffff_ffff,
                ;
                assert(ch * width <= 0xffff * 0xffff_ffff) by (nonlinear_arith)
                    requires
                        ch <= 0xffff,
                        width <= 0xffff_ffff,
                ;
            }
            if width <= cw && height <= ch {
                (floor_to_even(source.width), floor_to_even(source.height))
            } else if cw * height <= ch * width {
                assert(width > 0) by (nonlinear_arith)
                    requires
                        cw * height <= ch * width,
                        width > cw || height > ch,
                        cw > 0,
                        ch > 0,
                ;
                assert((height * cw) as int / width as int <= 0xffff) by (nonlinear_arith)
                    requires
                        cw * height <= ch * width,
                        width > 0,
                        ch <= 2160,
                ;
                (cw as u32, round_to_even(height * cw, width))
            } else {
                assert(height > 0) by (nonlinear_arith)
                    requires
                        cw * height > ch * width,
                ;
                assert((width * ch) as int / height as int <= 0xffff) by (nonlinear_arith)
                    requires
                        cw * height > ch * width,
                        height > 0,
                        cw <= 3840,
                ;
                (round_to_even(width * ch, height), ch as u32)
            }
        },
    }
}

// ------------------------------------------------------------ sizes

/// How large the configured output is expected to be, and how much to trust it.
#[derive(Debug, Clone, Copy, PartialEq, Eq, Structural)]
pub struct SizeEstimate {
    pub bytes: u64,
    pub basis: EstimateBasis,
}

#[derive(Debug, Clone, Copy, PartialEq, Eq, Structural)]
pub enum EstimateBasis {
    /// Read off the bitrate the user asked for. Accurate to a few percent.
    Targeted,
    /// Inferred from the bits-per-pixel model. A guide, not a promise.
    Heuristic,
}

/// `num / den` rounded to the nearest integer, halves to the even neighbour.
pub open spec fn round_half_even(num: nat, den: nat) -> nat {
    let q = num / den;
    let r = num % den;
    if 2 * r > den || (2 * r == den && q % 2 == 1) {
        q + 1
    } else {
        q
    }
}

// ------------------------------------------------------------ doubles

/// How many low binary digits of `n` a double drops: the smallest `k` (from
/// `k` on, at most 11) with `n < 2^(53 + k)`.
pub open spec fn dropped_bits(n: nat, k: nat) -> nat
    decreases 11 - k,
{
    if k >= 11 || n < pow2(53 + k) {
        k
    } else {
        dropped_bits(n, k + 1)
    }
}

/// The value a double holds for the integer `n`: `n` rounded to 53
/// significant bits, halves to the even neighbour.
pub open spec fn integer_as_double(n: nat) -> nat {
    let k = dropped_bits(n, 0);
    round_half_even(n, pow2(k)) * pow2(k)
}

/// The smallest shift `s` (from `s` on, at most 64) that brings `p / q` up to
/// at least `2^52`: the binary scale of its 53 significant bits.
pub open spec fn binary_shift(p: nat, q: nat, s: nat) -> nat
    decreases 64 - s,
{
    if s >= 64 || p * pow2(s) >= pow2(52) * q {
        s
    } else {
        binary_shift(p, q, s + 1)
    }
}

pub open spec fn ten_pow(k: nat) -> nat
    decreases k,
{
    if k == 0 {
        1
    } else {
        10 * ten_pow((k - 1) as nat)
    }
}

/// `p / q` as a double prints it with `k` decimals: the quotient is rounded to
/// 53 significant bits (halves to even), and that exact binary value is
/// rounded to `k` decimals (halves to even).
pub open spec fn double_decimals(p: nat, q: nat, k: nat) -> nat {
    let s = binary_shift(p, q, 0);
    let mantissa = round_half_even(p * pow2(s), q);
    round_half_even(mantissa * ten_pow(k), pow2(s))
}

proof fn lemma_dropped_bits_bound(n: nat, k: nat)
    requires
        k <= 11,
    ensures
        k <= dropped_bits(n, k) <= 11,
    decreases 11 - k,
{
    if k < 11 && n >= pow2(53 + k) {
        lemma_dropped_bits_bound(n, k + 1);
    }
}

/// A byte count of at least `a` keeps at least `a` as a double, for `a` a
/// double can hold exactly.
proof fn lemma_integer_as_double_at_least(n: nat, a: nat)
    requires
        a <= n < pow2(64),
        a <= 1_000_000_000,
    ensures
        integer_as_double(n) >= a,
{
    lemma2_to64();
    lemma2_to64_rest();
    let k = dropped_bits(n, 0);
    lemma_dropped_bits_bound(n, 0);
    if n < pow2(53) {
        assert(k == 0);
        assert(round_half_even(n, 1) == n);
    } else {
        let u = pow2(k);
        if k < 11 {
            lemma_pow2_strictly_increases(k, 11);
        }
        if k > 0 {
            lemma_pow2_strictly_increases(0, k);
        }
        assert(1 <= u <= 2048);
        let q = n / u;
        assert(round_half_even(n, u) >= q);
        assert(q * u > n - u) by (nonlinear_arith)
            requires
                q == n / u,
                u >= 1,
        ;
        assert(round_half_even(n, u) * u >= q * u) by (nonlinear_arith)
            requires
                round_half_even(n, u) >= q,
                u >= 1,
        ;
    }
}

pub(crate) fn round_half_even_wide(num: u128, den: u128) -> (r: u128)
    requires
        0 < den < 0x1000_0000_0000_0000_0000_0000_0000_0000,
        num < 0x1000_0000_0000_0000_0000_0000_0000_0000,
    ensures
        r as nat == round_half_even(num as nat, den as nat),
        r <= num / den + 1,
{
    let q = num / den;
    let rem = num % den;
    assert(q <= num) by (nonlinear_arith)
        requires
            q == num / den,
            den > 0,
    ;
    if 2 * rem > den || (2 * rem == den && q % 2 == 1) {
        q + 1
    } else {
        q
    }
}

/// The value `n as f64` holds, as an integer.
pub(crate) fn integer_as_double_u64(n: u64) -> (r: u128)
    ensures
        r as nat == integer_as_double(n as nat),
        r <= 2 * pow2(64),
{
    proof {
        lemma2_to64();
        lemma2_to64_rest();
    }
    let mut k: u32 = 0;
    let mut unit: u128 = 1;
    while k < 11 && (n as u128) >= 0x20_0000_0000_0000u128 * unit
        invariant
            k <= 11,
            unit == pow2(k as nat),
            1 <= unit <= 2048,
            dropped_bits(n as nat, 0) == dropped_bits(n as nat, k as nat),
        decreases 11 - k,
    {
        proof {
            lemma2_to64();
            lemma2_to64_rest();
            lemma_pow2_adds(53, k as nat);
            lemma_pow2_unfold((k + 1) as nat);
            if k + 1 <= 11 {
                lemma_pow2_strictly_increases((k + 1) as nat, 12);
            }
            assert(dropped_bits(n as nat, k as nat) == dropped_bits(n as nat, (k + 1) as nat));
        }
        unit = unit * 2;
        k = k + 1;
        proof {
            if k < 11 {
                lemma_pow2_strictly_increases(k as nat, 11);
            }
        }
    }
    proof {
        lemma_pow2_adds(53, k as nat);
        assert(dropped_bits(n as nat, k as nat) == k);
    }
    let m = round_half_even_wide(n as u128, unit);
    let q = (n as u128) / unit;
    assert(q * unit <= n) by (nonlinear_arith)
        requires
            q == (n as u128) / unit,
            unit > 0,
    ;
    assert(m * unit <= q * unit + unit) by (nonlinear_arith)
        requires
            m <= q + 1,
            unit >= 1,
    ;
    m * unit
}

/// `p / q` with `k` decimals, as formatting the double nearest `p / q` prints it.
fn double_decimals_wide(p: u128, q: u128, k: u32) -> (r: u64)
    requires
        1000 <= q <= 1_000_000_000,
        0 < p <= 2 * pow2(64),
        p * 4096 >= q,
        k <= 2,
    ensures
        r as nat == double_decimals(p as nat, q as nat, k as nat),
{
    proof {
        lemma2_to64();
        lemma2_to64_rest();
        lemma_pow2_adds(52, 12);
        lemma_pow2_adds(52, 1);
    }
    let limit: u128 = 0x10_0000_0000_0000u128 * q;
    let mut s: u32 = 0;
    let mut unit: u128 = 1;
    let mut scaled: u128 = p;
    while scaled < limit
        invariant
            s <= 64,
            unit == pow2(s as nat),
            1 <= unit <= 0x1_0000_0000_0000_0000,
            scaled == p * unit,
            scaled >= 1,
            limit == pow2(52) * q,
            limit <= 0x4_0000_0000_0000_0000_0000,
            s > 0 ==> scaled < 2 * limit,
            s == 0 ==> scaled == p,
            p <= 0x2_0000_0000_0000_0000,
            p * 4096 >= q,
            binary_shift(p as nat, q as nat, 0) == binary_shift(p as nat, q as nat, s as nat),
        decreases 64 - s,
    {
        proof {
            lemma2_to64();
            lemma2_to64_rest();
            if s == 64 {
                lemma_pow2_adds(52, 12);
                assert(p * pow2(64) >= pow2(52) * q) by (nonlinear_arith)
                    requires
                        p * 4096 >= q,
                        pow2(64) == pow2(52) * 4096,
                ;
            }
            assert(s < 64);
            assert(binary_shift(p as nat, q as nat, s as nat) == binary_shift(p as nat, q as nat, (s + 1) as nat));
            lemma_pow2_unfold((s + 1) as nat);
            lemma_pow2_strictly_increases((s + 1) as nat, 65);
            lemma_pow2_unfold(65);
        }
        scaled = scaled * 2;
        unit = unit * 2;
        s = s + 1;
        proof {
            assert(scaled == p * unit) by (nonlinear_arith)
                requires
                    scaled == 2 * (p * (unit / 2)),
                    unit == 2 * (unit / 2),
            ;
        }
    }
    proof {
        assert(binary_shift(p as nat, q as nat, s as nat) == s);
    }
    let mantissa = round_half_even_wide(scaled, q);
    assert(mantissa <= 0x100_0000_0000_0000) by (nonlinear_arith)
        requires
            mantissa <= scaled / q + 1,
            s > 0 ==> scaled < 2 * limit,
            s == 0 ==> scaled == p,
            p <= 0x2_0000_0000_0000_0000,
            limit == 0x10_0000_0000_0000 * q,
            q >= 1000,
    {
        if s > 0 {
            assert(scaled / q < 0x20_0000_0000_0000);
        } else {
            assert(scaled / q <= scaled);
        }
    }
    let ten: u128 = if k == 0 {
        1
    } else if k == 1 {
        10
    } else {
        100
    };
    assert(ten == ten_pow(k as nat)) by {
        reveal_with_fuel(ten_pow, 3);
    }
    let num = mantissa * ten;
    let digits = round_half_even_wide(num, unit);
    assert(digits <= num + 1) by (nonlinear_arith)
        requires
            digits <= num / unit + 1,
            unit >= 1,
    ;
    digits as u64
}

/// The text of a byte count in SI units, short enough for a settings row,
/// as printing the byte count's double prints it: whole kilobytes (at least
/// 1) below a megabyte, tenths of a megabyte below a gigabyte, hundredths of a
/// gigabyte above.
pub open spec fn size_text(bytes: nat) -> Seq<char> {
    if bytes < 1_000_000 {
        let kb = if bytes < 1_000 { 1 } else { double_decimals(bytes, 1_000, 0) };
        decimal(kb) + " KB"@
    } else if bytes < 1_000_000_000 {
        let tenths = double_decimals(bytes, 1_000_000, 1);
        decimal(tenths / 10) + "."@ + decimal(tenths % 10) + " MB"@
    } else {
        let hundredths = double_decimals(integer_as_double(bytes), 1_000_000_000, 2);
        decimal(hundredths / 100) + "."@ + two_digits(hundredths % 100) + " GB"@
    }
}

pub(crate) proof fn lemma_round_half_even_close(n: nat, d: nat)
    requires
        d > 0,
    ensures
        2 * round_half_even(n, d) * d <= 2 * n + d,
        2 * n <= 2 * round_half_even(n, d) * d + d,
{
    let q = n / d;
    let r = n % d;
    assert(n == q * d + r && r < d) by (nonlinear_arith)
        requires
            q == n / d,
            r == n % d,
            d > 0,
    ;
    let v = round_half_even(n, d);
    assert(v == q || v == q + 1);
    assert(2 * v * d <= 2 * n + d && 2 * n <= 2 * v * d + d) by (nonlinear_arith)
        requires
            n == q * d + r,
            r < d,
            v == q || v == q + 1,
            v == q + 1 ==> 2 * r >= d,
            v == q ==> 2 * r <= d,
    ;
}

proof fn lemma_binary_shift_reaches(p: nat, q: nat, s: nat)
    requires
        p * 4096 >= q,
        s <= 64,
    ensures
        binary_shift(p, q, s) <= 64,
        p * pow2(binary_shift(p, q, s)) >= pow2(52) * q,
    decreases 64 - s,
{
    if s < 64 && p * pow2(s) < pow2(52) * q {
        lemma_binary_shift_reaches(p, q, s + 1);
    } else if s == 64 {
        lemma_pow2_adds(52, 12);
        lemma2_to64();
        assert(p * pow2(64) >= pow2(52) * q) by (nonlinear_arith)
            requires
                p * 4096 >= q,
                pow2(64) == pow2(52) * 4096,
        ;
    }
}

/// The decimals a double prints for `p / q` are the nearest ones but for
/// the double's own rounding: `digits / 10^k` is within half a last digit of
/// `p / q`, give or take `p / 2^53` relative to the last digit.
pub proof fn lemma_double_decimals_close(p: nat, q: nat, k: nat)
    requires
        q > 0,
        p * 4096 >= q,
    ensures
        ({
            let d = double_decimals(p, q, k) as int;
            let t = ten_pow(k) as int;
            &&& pow2(52) * (2 * (d * q - p * t) - q) <= t * p
            &&& pow2(52) * (2 * (p * t - d * q) - q) <= t * p
        }),
{
    let s = binary_shift(p, q, 0);
    lemma_binary_shift_reaches(p, q, 0);
    let big = pow2(s);
    vstd::arithmetic::power2::lemma_pow2_pos(s);
    let t = ten_pow(k);
    let m = round_half_even(p * big, q);
    lemma_round_half_even_close(p * big, q);
    let d = round_half_even(m * t, big);
    lemma_round_half_even_close(m * t, big);
    assert(d == double_decimals(p, q, k));
    assert(2 * (m * t) == 2 * m * t && 2 * (p * big) == 2 * p * big) by (nonlinear_arith);
    assert(2 * d * big <= 2 * m * t + big && 2 * m * t <= 2 * d * big + big);
    assert(2 * m * q <= 2 * p * big + q && 2 * p * big <= 2 * m * q + q);
    let e = (d as int) * q - (p as int) * t;
    // 2 * big * e = q * (2 * d * big - 2 * m * t) + t * (2 * m * q - 2 * p * big)
    assert(2 * big * e == q * (2 * d * big - 2 * m * t) + t * (2 * m * q - 2 * p * big)) by (nonlinear_arith)
        requires
            e == (d as int) * q - (p as int) * t,
    ;
    assert(q * (2 * d * big - 2 * m * t) <= q * big) by (nonlinear_arith)
        requires
            2 * d * big <= 2 * m * t + big,
            q > 0,
    ;
    assert(t * (2 * m * q - 2 * p * big) <= t * q) by (nonlinear_arith)
        requires
            2 * m * q <= 2 * p * big + q,
    ;
    assert(q * (2 * m * t - 2 * d * big) <= q * big) by (nonlinear_arith)
        requires
            2 * m * t <= 2 * d * big + big,
            q > 0,
    ;
    assert(t * (2 * p * big - 2 * m * q) <= t * q) by (nonlinear_arith)
        requires
            2 * p * big <= 2 * m * q + q,
    ;
    // big * (2e - q) <= t q and p * big >= 2^52 q give 2^52 (2e - q) <= t p.
    assert(big * (2 * e - q) <= t * q) by (nonlinear_arith)
        requires
            2 * big * e == q * (2 * d * big - 2 * m * t) + t * (2 * m * q - 2 * p * big),
            q * (2 * d * big - 2 * m * t) <= q * big,
            t * (2 * m * q - 2 * p * big) <= t * q,
    ;
    assert(big * (-2 * e - q) <= t * q) by (nonlinear_arith)
        requires
            2 * big * e == q * (2 * d * big - 2 * m * t) + t * (2 * m * q - 2 * p * big),
            q * (2 * m * t - 2 * d * big) <= q * big,
            t * (2 * p * big - 2 * m * q) <= t * q,
    ;
    let c = pow2(52);
    assert(c * (2 * e - q) <= t * p) by (nonlinear_arith)
        requires
            big * (2 * e - q) <= t * q,
            p * big >= c * q,
            q > 0,
            big > 0,
            t >= 0,
    {
        if 2 * e - q > 0 {
            assert(c * q * (2 * e - q) <= p * big * (2 * e - q));
            assert(p * big * (2 * e - q) <= p * t * q);
        }
    }
    assert(c * (-2 * e - q) <= t * p) by (nonlinear_arith)
        requires
            big * (-2 * e - q) <= t * q,
            p * big >= c * q,
            q > 0,
            big > 0,
            t >= 0,
    {
        if -2 * e - q > 0 {
            assert(c * q * (-2 * e - q) <= p * big * (-2 * e - q));
            assert(p * big * (-2 * e - q) <= p * t * q);
        }
    }
}

/// A byte count as a double is off by at most 1024: the 53 significant bits
/// a double keeps leave at most eleven binary digits of a `u64` behind.
/// A double holds every count below 2^53 exactly.
pub(crate) proof fn lemma_small_integers_are_exact(n: nat)
    requires
        n < pow2(53),
    ensures
        integer_as_double(n) == n,
{
    assert(dropped_bits(n, 0) == 0);
    lemma2_to64();
    assert(round_half_even(n, 1) == n);
}

pub(crate) proof fn lemma_integer_as_double_close(n: nat)
    requires
        n < pow2(64),
    ensures
        n <= integer_as_double(n) + 1024,
        integer_as_double(n) <= n + 1024,
{
    lemma2_to64();
    let k = dropped_bits(n, 0);
    lemma_dropped_bits_bound(n, 0);
    let u = pow2(k);
    if k < 11 {
        lemma_pow2_strictly_increases(k, 11);
    }
    vstd::arithmetic::power2::lemma_pow2_pos(k);
    assert(u <= 2048);
    lemma_round_half_even_close(n, u);
    let v = round_half_even(n, u);
    assert(integer_as_double(n) == v * u);
    assert(v * u <= n + 1024 && n <= v * u + 1024) by (nonlinear_arith)
        requires
            2 * v * u <= 2 * n + u,
            2 * n <= 2 * v * u + u,
            u <= 2048,
    ;
}

/// `tenths` of a megabyte, written out.
pub open spec fn megabytes_text(tenths: nat) -> Seq<char> {
    decimal(tenths / 10) + "."@ + decimal(tenths % 10) + " MB"@
}

/// `hundredths` of a gigabyte, written out.
pub open spec fn gigabytes_text(hundredths: nat) -> Seq<char> {
    decimal(hundredths / 100) + "."@ + two_digits(hundredths % 100) + " GB"@
}

/// The size text names the unit and shows the number nearest the byte count
/// in it: whole kilobytes (at least one) below a megabyte, tenths of a
/// megabyte below a gigabyte, hundredths of a gigabyte above, each within half
/// a last digit of the count (and, above 2^53 bytes, the double's own
/// rounding).
pub proof fn lemma_size_text_is_nearest(bytes: nat)
    requires
        bytes < pow2(64),
    ensures
        bytes < 1_000 ==> size_text(bytes) == decimal(1) + " KB"@,
        1_000 <= bytes < 1_000_000 ==> exists|kb: nat|
            size_text(bytes) == #[trigger] decimal(kb) + " KB"@ && 2 * kb * 1000 <= 2 * bytes + 1000 && 2 * bytes
                <= 2 * kb * 1000 + 1000,
        1_000_000 <= bytes < 1_000_000_000 ==> exists|tenths: nat|
            size_text(bytes) == #[trigger] megabytes_text(tenths) && 2
                * tenths * 100_000 <= 2 * bytes + 100_000 && 2 * bytes <= 2 * tenths * 100_000
                + 100_000,
        bytes >= 1_000_000_000 ==> exists|hundredths: nat|
            size_text(bytes) == #[trigger] gigabytes_text(hundredths) && hundredths * 10_000_000 <= bytes + 5_010_000 && bytes <= hundredths
                * 10_000_000 + 5_010_000,
{
    lemma2_to64();
    lemma2_to64_rest();
    let c = pow2(52);
    if 1_000 <= bytes < 1_000_000 {
        let kb = double_decimals(bytes, 1_000, 0);
        lemma_double_decimals_close(bytes, 1_000, 0);
        assert(ten_pow(0) == 1);
        let e = (kb as int) * 1000 - (bytes as int);
        assert(2 * e - 1000 <= 0 && -2 * e - 1000 <= 0) by (nonlinear_arith)
            requires
                c * (2 * e - 1000) <= bytes,
                c * (-2 * e - 1000) <= bytes,
                bytes < 1_000_000,
                c == 4503599627370496,
        ;
        assert(size_text(bytes) == decimal(kb) + " KB"@);
    } else if 1_000_000 <= bytes < 1_000_000_000 {
        let tenths = double_decimals(bytes, 1_000_000, 1);
        lemma_double_decimals_close(bytes, 1_000_000, 1);
        assert(ten_pow(1) == 10) by {
            reveal_with_fuel(ten_pow, 2);
        }
        let e = (tenths as int) * 1_000_000 - (bytes as int) * 10;
        assert(2 * e - 1_000_000 <= 0 && -2 * e - 1_000_000 <= 0) by (nonlinear_arith)
            requires
                c * (2 * e - 1_000_000) <= 10 * bytes,
                c * (-2 * e - 1_000_000) <= 10 * bytes,
                bytes < 1_000_000_000,
                c == 4503599627370496,
        ;
        assert(size_text(bytes) == megabytes_text(tenths));
    } else if bytes >= 1_000_000_000 {
        let value = integer_as_double(bytes);
        lemma_integer_as_double_close(bytes);
        lemma_integer_as_double_at_least(bytes, 1_000_000_000);
        let hundredths = double_decimals(value, 1_000_000_000, 2);
        lemma_double_decimals_close(value, 1_000_000_000, 2);
        assert(ten_pow(2) == 100) by {
            reveal_with_fuel(ten_pow, 3);
        }
        let e = (hundredths as int) * 1_000_000_000 - (value as int) * 100;
        assert(2 * e - 1_000_000_000 <= 409_600 && -2 * e - 1_000_000_000 <= 409_600) by (nonlinear_arith)
            requires
                c * (2 * e - 1_000_000_000) <= 100 * value,
                c * (-2 * e - 1_000_000_000) <= 100 * value,
                value <= 0x1_0000_0000_0000_0000 + 1024,
                c == 4503599627370496,
        ;
        assert(size_text(bytes) == gigabytes_text(hundredths));
    }
}

/// Formats a byte count the way file managers and FFmpeg report one.
pub fn format_size(bytes: u64) -> (r: String)
    ensures
        r@ == size_text(bytes as nat),
{
    proof {
        lemma2_to64();
    }
    let mut r = String::new();
    if bytes < 1_000_000 {
        let kb = if bytes < 1_000 { 1 } else { double_decimals_wide(bytes as u128, 1_000, 0) };
        push_decimal(&mut r, kb);
        push_str(&mut r, " KB");
    } else if bytes < 1_000_000_000 {
        let tenths = double_decimals_wide(bytes as u128, 1_000_000, 1);
        push_decimal(&mut r, tenths / 10);
        push_str(&mut r, ".");
        push_decimal(&mut r, tenths % 10);
        push_str(&mut r, " MB");
    } else {
        let value = integer_as_double_u64(bytes);
        proof {
            assert(value >= 1_000_000_000) by {
                lemma_integer_as_double_at_least(bytes as nat, 1_000_000_000);
            }
        }
        let hundredths = double_decimals_wide(value, 1_000_000_000, 2);
        push_decimal(&mut r, hundredths / 100);
        push_str(&mut r, ".");
        push_two_digits(&mut r, hundredths % 100);
        push_str(&mut r, " GB");
    }
    assert(r@ =~= size_text(bytes as nat));
    r
}

impl SizeEstimate {
    /// The settings-panel value, marking heuristic numbers so an inferred figure
    /// is never mistaken for a computed one.
    pub fn label(self) -> (r: String)
        ensures
            r@ == "~"@ + size_text(self.bytes as nat) + (match self.basis {
                EstimateBasis::Targeted => Seq::<char>::empty(),
                EstimateBasis::Heuristic => " (rough)"@,
            }),
    {
        let mut r = String::new();
        push_str(&mut r, "~");
        let size = format_size(self.bytes);
        push_str(&mut r, size.as_str());
        match self.basis {
            EstimateBasis::Targeted => {},
            EstimateBasis::Heuristic => push_str(&mut r, " (rough)"),
        }
        assert(r@ =~= "~"@ + size_text(self.bytes as nat) + (match self.basis {
            EstimateBasis::Targeted => Seq::<char>::empty(),
            EstimateBasis::Heuristic => " (rough)"@,
        }));
        r
    }
}

// ------------------------------------------------------------ naming

/// The output path suggested for a single input: beside the input, named
/// `<stem>.transcoded.<extension>`.
pub open spec fn suggested_path(input: Seq<char>, container: Container) -> Seq<char> {
    let parent = match paths::std_path_parent(input) {
        Some(parent) => parent,
        None => "."@,
    };
    let stem = match paths::std_path_file_stem(input) {
        Some(stem) => stem,
        None => "output"@,
    };
    paths::std_path_join(parent, stem + ".transcoded."@ + container.extension_text())
}

pub fn suggested_output_path(input: &str, container: Container) -> (r: String)
    ensures
        r@ == suggested_path(input@, container),
{
    let parent = match paths::parent(input) {
        Some(parent) => parent,
        None => owned("."),
    };
    let mut name = match paths::file_stem(input) {
        Some(stem) => stem,
        None => owned("output"),
    };
    push_str(&mut name, ".transcoded.");
    push_str(&mut name, container.extension());
    paths::join(parent.as_str(), name.as_str())
}

} // verus!
