//! The FFmpeg command line for a job, its shell-quoted preview, and the reading
//! of FFmpeg's `-progress` stream.
use vstd::prelude::*;

use crate::domain::{
    quality_flag, quality_setting, quality_value, scale_filter, scale_filter_text, AudioCodec,
    Container, InputMedia, TranscodeConfig, VideoCodec, VideoRateControl,
};
use crate::paths;
use crate::text::{
    chars_of, decimal, is_control, is_control_char, owned, parse_u64, parse_unsigned, push_char,
    push_decimal, push_str, same_text, seq_eq, split_once, split_once_chars, string_from,
    string_from_range, trim, trim_chars, lemma_decimal_reads_back,
};

verus! {

/// The texts of a list of strings.
pub open spec fn texts(v: Seq<String>) -> Seq<Seq<char>> {
    v.map_values(|s: String| s@)
}

pub fn push_arg(args: &mut Vec<String>, s: &str)
    ensures
        texts(final(args)@) == texts(old(args)@).push(s@),
{
    args.push(owned(s));
    assert(texts(args@) =~= texts(old(args)@).push(s@));
}

pub fn push_owned_arg(args: &mut Vec<String>, s: String)
    ensures
        texts(final(args)@) == texts(old(args)@).push(s@),
{
    let ghost t = s@;
    args.push(s);
    assert(texts(args@) =~= texts(old(args)@).push(t));
}

/// A program and the arguments it is started with.
#[derive(Debug, Clone)]
pub struct CommandSpec {
    pub program: String,
    pub args: Vec<String>,
    pub temporary_output: String,
    pub final_output: String,
}

/// Where a job writes while it runs, and where the result lands afterwards.
#[derive(Debug, Clone)]
pub struct ArtifactPaths {
    pub temporary_path: String,
    pub final_path: String,
}

#[derive(Debug, Clone)]
pub enum TranscodeError {
    OutputExists,
    InvalidOutputDirectory,
    /// The temporary output could not be managed; the operating system's reason.
    Io(String),
}

impl TranscodeError {
    /// The sentence the interface shows for this error.
    pub open spec fn message_text(&self) -> Seq<char> {
        match self {
            TranscodeError::OutputExists => "The output file already exists. Choose a new file name."@,
            TranscodeError::InvalidOutputDirectory => "The output directory does not exist."@,
            TranscodeError::Io(reason) => "Failed to manage the temporary output: "@ + reason@,
        }
    }

    /// The sentence the interface shows for this error.
    pub fn message(&self) -> (r: String)
        ensures
            r@ == self.message_text(),
    {
        match self {
            TranscodeError::OutputExists => owned("The output file already exists. Choose a new file name."),
            TranscodeError::InvalidOutputDirectory => owned("The output directory does not exist."),
            TranscodeError::Io(reason) => {
                let mut r = owned("Failed to manage the temporary output: ");
                push_str(&mut r, reason.as_str());
                r
            },
        }
    }
}

/// The name of the file a job writes inside its private directory:
/// `output.<extension of the final path>`, or `output.media` without one.
pub open spec fn temporary_name(final_path: Seq<char>) -> Seq<char> {
    "output."@ + match paths::std_path_extension(final_path) {
        Some(extension) => extension,
        None => "media"@,
    }
}

pub fn temporary_file_name(final_path: &str) -> (r: String)
    ensures
        r@ == temporary_name(final_path@),
{
    let mut r = owned("output.");
    match paths::extension(final_path) {
        Some(extension) => push_str(&mut r, extension.as_str()),
        None => push_str(&mut r, "media"),
    }
    r
}

// ------------------------------------------------------------ the command

pub open spec fn audio_args(config: TranscodeConfig, source_has_audio: bool) -> Seq<Seq<char>> {
    if config.audio_codec == AudioCodec::Silent || !source_has_audio {
        seq!["-an"@]
    } else {
        seq![
            "-map"@,
            "0:a:0?"@,
            "-c:a"@,
            config.audio_codec.encoder_text()->0,
            "-b:a"@,
            decimal(config.audio_bitrate_kbps as nat) + "k"@,
        ]
    }
}

/// Speed and pixel-format arguments of each encoder. VideoToolbox takes none.
pub open spec fn encoder_args(codec: VideoCodec) -> Seq<Seq<char>> {
    match codec {
        VideoCodec::H264 | VideoCodec::H265 => seq!["-preset"@, "medium"@, "-pix_fmt"@, "yuv420p"@],
        VideoCodec::Av1 => seq!["-preset"@, "6"@, "-pix_fmt"@, "yuv420p"@],
        VideoCodec::Vp9 => seq!["-deadline"@, "good"@, "-pix_fmt"@, "yuv420p"@],
        VideoCodec::H264Hw | VideoCodec::H265Hw => Seq::empty(),
    }
}

/// Constant quality or a target bitrate, never both.
pub open spec fn rate_args(codec: VideoCodec, rate: VideoRateControl) -> Seq<Seq<char>> {
    match rate {
        VideoRateControl::Quality(quality) => (if codec == VideoCodec::Vp9 {
            seq!["-b:v"@, "0"@]
        } else {
            Seq::empty()
        }) + seq![quality_flag(codec), decimal(quality_value(codec, quality) as nat)],
        VideoRateControl::Bitrate(kbps) => seq!["-b:v"@, decimal(kbps as nat) + "k"@],
    }
}

/// QuickTime-family flags: the `hvc1` tag for HEVC and a front-loaded index.
pub open spec fn container_args(container: Container, codec: VideoCodec) -> Seq<Seq<char>> {
    if container == Container::Mp4 || container == Container::Mov {
        (if codec.hevc() {
            seq!["-tag:v"@, "hvc1"@]
        } else {
            Seq::empty()
        }) + seq!["-movflags"@, "+faststart"@]
    } else {
        Seq::empty()
    }
}

/// The whole FFmpeg argument list of a job.
pub open spec fn command_args(
    config: TranscodeConfig,
    source_has_audio: bool,
    temporary: Seq<char>,
) -> Seq<Seq<char>> {
    seq!["-hide_banner"@, "-nostdin"@, "-n"@, "-loglevel"@, "warning"@] + (if config.video_codec.hardware() {
        seq!["-hwaccel"@, "videotoolbox"@]
    } else {
        Seq::empty()
    }) + seq!["-i"@, config.input@, "-map"@, "0:v:0"@] + audio_args(config, source_has_audio)
        + seq!["-sn"@, "-dn"@] + (match config.resolution.canvas_size() {
        Some((w, h)) => seq!["-vf"@, scale_filter_text(w as nat, h as nat)],
        None => Seq::empty(),
    }) + seq!["-c:v"@, config.video_codec.encoder_text()] + encoder_args(config.video_codec)
        + rate_args(config.video_codec, config.video_rate_control) + container_args(
        config.container,
        config.video_codec,
    ) + seq!["-f"@, config.container.muxer_text(), "-progress"@, "pipe:1"@, "-nostats"@, temporary]
}

/// Every job's command refuses to overwrite (`-n`) and reads nothing from the
/// terminal, names the input right after its single `-i`, and writes to the
/// private temporary file, which is its last argument.
pub proof fn lemma_command_shape(config: TranscodeConfig, source_has_audio: bool, temporary: Seq<char>)
    ensures
        ({
            let a = command_args(config, source_has_audio, temporary);
            let at = if config.video_codec.hardware() { 7int } else { 5int };
            &&& a.take(3) == seq!["-hide_banner"@, "-nostdin"@, "-n"@]
            &&& a[at] == "-i"@ && a[at + 1] == config.input@
            &&& a.last() == temporary
        }),
{
    let head = seq!["-hide_banner"@, "-nostdin"@, "-n"@, "-loglevel"@, "warning"@];
    let hw: Seq<Seq<char>> = if config.video_codec.hardware() {
        seq!["-hwaccel"@, "videotoolbox"@]
    } else {
        Seq::empty()
    };
    let input = seq!["-i"@, config.input@, "-map"@, "0:v:0"@];
    let scale: Seq<Seq<char>> = match config.resolution.canvas_size() {
        Some((w, h)) => seq!["-vf"@, scale_filter_text(w as nat, h as nat)],
        None => Seq::empty(),
    };
    let s2 = head + hw + input;
    let s3 = s2 + audio_args(config, source_has_audio);
    let s4 = s3 + seq!["-sn"@, "-dn"@];
    let s5 = s4 + scale;
    let s6 = s5 + seq!["-c:v"@, config.video_codec.encoder_text()];
    let s7 = s6 + encoder_args(config.video_codec);
    let s8 = s7 + rate_args(config.video_codec, config.video_rate_control);
    let s9 = s8 + container_args(config.container, config.video_codec);
    let tail = seq!["-f"@, config.container.muxer_text(), "-progress"@, "pipe:1"@, "-nostats"@, temporary];
    let a = command_args(config, source_has_audio, temporary);
    assert(a == s9 + tail);
    let at = if config.video_codec.hardware() { 7int } else { 5int };
    assert(s2[at] == "-i"@ && s2[at + 1] == config.input@);
    assert(s3[at] == s2[at] && s3[at + 1] == s2[at + 1]);
    assert(s4[at] == s3[at] && s4[at + 1] == s3[at + 1]);
    assert(s5[at] == s4[at] && s5[at + 1] == s4[at + 1]);
    assert(s6[at] == s5[at] && s6[at + 1] == s5[at + 1]);
    assert(s7[at] == s6[at] && s7[at + 1] == s6[at + 1]);
    assert(s8[at] == s7[at] && s8[at + 1] == s7[at + 1]);
    assert(s9[at] == s8[at] && s9[at + 1] == s8[at + 1]);
    assert(a[at] == s9[at] && a[at + 1] == s9[at + 1]);
    assert(a.last() == tail.last());
    assert(a[0] == s2[0] && a[1] == s2[1] && a[2] == s2[2]);
    assert(a.take(3) =~= seq!["-hide_banner"@, "-nostdin"@, "-n"@]);
}

/// Whether `x` followed by `y` occurs among the arguments.
pub open spec fn has_pair(a: Seq<Seq<char>>, x: Seq<char>, y: Seq<char>) -> bool {
    exists|i: int| 0 <= i && i + 1 < a.len() && #[trigger] a[i] == x && a[i + 1] == y
}

/// The audio and video rates of a job reach FFmpeg in kilobits per second:
/// kept audio is encoded with its encoder at `-b:a <kbps>k` (FFmpeg reads the
/// `k` as a thousand bits), dropped audio is `-an`, and a bitrate target is
/// `-b:v <kbps>k`.
pub proof fn lemma_rates_in_kilobits(config: TranscodeConfig, source_has_audio: bool, temporary: Seq<char>)
    ensures
        ({
            let a = command_args(config, source_has_audio, temporary);
            &&& (config.audio_codec != AudioCodec::Silent && source_has_audio) ==> {
                &&& has_pair(a, "-c:a"@, config.audio_codec.encoder_text()->0)
                &&& has_pair(a, "-b:a"@, decimal(config.audio_bitrate_kbps as nat) + "k"@)
            }
            &&& !(config.audio_codec != AudioCodec::Silent && source_has_audio) ==> a.contains("-an"@)
            &&& (config.video_rate_control matches VideoRateControl::Bitrate(kbps) ==> has_pair(
                a,
                "-b:v"@,
                decimal(kbps as nat) + "k"@,
            ))
        }),
{
    let head = seq!["-hide_banner"@, "-nostdin"@, "-n"@, "-loglevel"@, "warning"@];
    let hw: Seq<Seq<char>> = if config.video_codec.hardware() {
        seq!["-hwaccel"@, "videotoolbox"@]
    } else {
        Seq::empty()
    };
    let input = seq!["-i"@, config.input@, "-map"@, "0:v:0"@];
    let scale: Seq<Seq<char>> = match config.resolution.canvas_size() {
        Some((w, h)) => seq!["-vf"@, scale_filter_text(w as nat, h as nat)],
        None => Seq::empty(),
    };
    let audio = audio_args(config, source_has_audio);
    let rate = rate_args(config.video_codec, config.video_rate_control);
    let s2 = head + hw + input;
    let s3 = s2 + audio;
    let s4 = s3 + seq!["-sn"@, "-dn"@];
    let s5 = s4 + scale;
    let s6 = s5 + seq!["-c:v"@, config.video_codec.encoder_text()];
    let s7 = s6 + encoder_args(config.video_codec);
    let s8 = s7 + rate;
    let s9 = s8 + container_args(config.container, config.video_codec);
    let tail = seq!["-f"@, config.container.muxer_text(), "-progress"@, "pipe:1"@, "-nostats"@, temporary];
    let a = command_args(config, source_has_audio, temporary);
    assert(a == s9 + tail);
    // Whatever stands at `k` in an earlier piece stands there in the whole list.
    assert forall|k: int| 0 <= k < s8.len() implies #[trigger] a[k] == s8[k] by {
        assert(a[k] == s9[k]);
        assert(s9[k] == s8[k]);
    }
    assert forall|k: int| 0 <= k < s3.len() implies #[trigger] s8[k] == s3[k] by {
        assert(s8[k] == s7[k]);
        assert(s7[k] == s6[k]);
        assert(s6[k] == s5[k]);
        assert(s5[k] == s4[k]);
        assert(s4[k] == s3[k]);
    }
    let at = s2.len() as int;
    if config.audio_codec != AudioCodec::Silent && source_has_audio {
        assert(s3[at + 2] == audio[2] && s3[at + 3] == audio[3]);
        assert(s3[at + 4] == audio[4] && s3[at + 5] == audio[5]);
        assert(a[at + 2] == s3[at + 2] && a[at + 3] == s3[at + 3]);
        assert(a[at + 4] == s3[at + 4] && a[at + 5] == s3[at + 5]);
        assert(has_pair(a, "-c:a"@, config.audio_codec.encoder_text()->0));
        assert(has_pair(a, "-b:a"@, decimal(config.audio_bitrate_kbps as nat) + "k"@));
    } else {
        assert(s3[at] == audio[0]);
        assert(a[at] == s3[at]);
        assert(a[at] == "-an"@);
    }
    match config.video_rate_control {
        VideoRateControl::Bitrate(kbps) => {
            let b = s7.len() as int;
            assert(s8[b] == rate[0] && s8[b + 1] == rate[1]);
            assert(a[b] == s8[b] && a[b + 1] == s8[b + 1]);
            assert(has_pair(a, "-b:v"@, decimal(kbps as nat) + "k"@));
        },
        _ => {},
    }
}

/// A job's command encodes with the chosen video encoder, scales to the
/// chosen preset's canvas when there is one, and writes the chosen container's
/// format.
pub proof fn lemma_command_names_its_choices(
    config: TranscodeConfig,
    source_has_audio: bool,
    temporary: Seq<char>,
)
    ensures
        ({
            let a = command_args(config, source_has_audio, temporary);
            &&& has_pair(a, "-c:v"@, config.video_codec.encoder_text())
            &&& has_pair(a, "-f"@, config.container.muxer_text())
            &&& (config.resolution.canvas_size() matches Some((w, h)) ==> has_pair(
                a,
                "-vf"@,
                scale_filter_text(w as nat, h as nat),
            ))
        }),
{
    let head = seq!["-hide_banner"@, "-nostdin"@, "-n"@, "-loglevel"@, "warning"@];
    let hw: Seq<Seq<char>> = if config.video_codec.hardware() {
        seq!["-hwaccel"@, "videotoolbox"@]
    } else {
        Seq::empty()
    };
    let input = seq!["-i"@, config.input@, "-map"@, "0:v:0"@];
    let scale: Seq<Seq<char>> = match config.resolution.canvas_size() {
        Some((w, h)) => seq!["-vf"@, scale_filter_text(w as nat, h as nat)],
        None => Seq::empty(),
    };
    let s2 = head + hw + input;
    let s3 = s2 + audio_args(config, source_has_audio);
    let s4 = s3 + seq!["-sn"@, "-dn"@];
    let s5 = s4 + scale;
    let coder = seq!["-c:v"@, config.video_codec.encoder_text()];
    let s6 = s5 + coder;
    let s7 = s6 + encoder_args(config.video_codec);
    let s8 = s7 + rate_args(config.video_codec, config.video_rate_control);
    let s9 = s8 + container_args(config.container, config.video_codec);
    let tail = seq!["-f"@, config.container.muxer_text(), "-progress"@, "pipe:1"@, "-nostats"@, temporary];
    let a = command_args(config, source_has_audio, temporary);
    assert(a == s9 + tail);
    assert forall|k: int| 0 <= k < s6.len() implies #[trigger] a[k] == s6[k] by {
        assert(a[k] == s9[k]);
        assert(s9[k] == s8[k]);
        assert(s8[k] == s7[k]);
        assert(s7[k] == s6[k]);
    }
    let c = s5.len() as int;
    assert(s6[c] == coder[0] && s6[c + 1] == coder[1]);
    assert(a[c] == s6[c] && a[c + 1] == s6[c + 1]);
    assert(has_pair(a, "-c:v"@, config.video_codec.encoder_text()));
    let f = s9.len() as int;
    assert(a[f] == tail[0] && a[f + 1] == tail[1]);
    assert(has_pair(a, "-f"@, config.container.muxer_text()));
    match config.resolution.canvas_size() {
        Some((w, h)) => {
            let v = s4.len() as int;
            assert(s5[v] == scale[0] && s5[v + 1] == scale[1]);
            assert(s6[v] == s5[v] && s6[v + 1] == s5[v + 1]);
            assert(a[v] == s6[v] && a[v + 1] == s6[v + 1]);
            assert(has_pair(a, "-vf"@, scale_filter_text(w as nat, h as nat)));
        },
        None => {},
    }
}

/// The output time of a progress block is the number FFmpeg wrote for
/// `out_time_us`, or for `out_time_ms` when the block has no `out_time_us`
/// (FFmpeg fills both in microseconds), and zero when it wrote neither.
pub proof fn lemma_processed_time_is_read(
    entries: Seq<(String, String)>,
    key: Seq<char>,
    value: Seq<char>,
    n: nat,
)
    requires
        n <= u64::MAX,
    ensures
        lookup_with(entries, key, value, "out_time_us"@) == Some(decimal(n)) ==> processed_of_with(
            entries,
            key,
            value,
        ) == n,
        (lookup_with(entries, key, value, "out_time_us"@) is None && lookup_with(
            entries,
            key,
            value,
            "out_time_ms"@,
        ) == Some(decimal(n))) ==> processed_of_with(entries, key, value) == n,
        (lookup_with(entries, key, value, "out_time_us"@) is None && lookup_with(
            entries,
            key,
            value,
            "out_time_ms"@,
        ) is None) ==> processed_of_with(entries, key, value) == 0,
{
    lemma_decimal_reads_back(n);
}

/// The share of a job done follows the output time: with a positive duration
/// `t`, a processed time `p` up to `t` gives the tenths of a percent nearest
/// `1000 * p / t` (within half a tenth), and anything past `t` gives the whole.
pub proof fn lemma_share_is_proportional(processed: nat, total: u64)
    requires
        total > 0,
    ensures
        permille_of(processed, Some(total)) matches Some(v) && (processed <= total ==> {
            &&& 2 * (v as int) * total <= 2000 * processed + total
            &&& 2000 * processed <= 2 * (v as int) * total + total
        }) && (processed >= total ==> v == 1000),
{
    let t = total as nat;
    let done: nat = if processed < t { processed } else { t };
    let num = done * 1000;
    let q = num / t;
    let r = num % t;
    assert(num == q * t + r && 0 <= r < t) by (nonlinear_arith)
        requires
            q == num / t,
            r == num % t,
            t > 0,
    ;
    if processed >= t {
        assert(num == 1000 * t);
        assert(q == 1000 && r == 0) by (nonlinear_arith)
            requires
                num == q * t + r,
                0 <= r < t,
                num == 1000 * t,
        ;
    }
    assert(q <= 1000) by (nonlinear_arith)
        requires
            num == q * t + r,
            0 <= r,
            done <= t,
            num == done * 1000,
            t > 0,
    ;
    let v = crate::domain::round_half_even(num, t);
    if processed <= t {
        assert(2 * v * t <= 2000 * processed + t && 2000 * processed <= 2 * v * t + t) by (nonlinear_arith)
            requires
                num == q * t + r,
                0 <= r < t,
                num == processed * 1000,
                v == q || v == q + 1,
                v == q + 1 ==> 2 * r >= t,
                v == q ==> 2 * r <= t,
        ;
    }
}

fn append_audio_args(args: &mut Vec<String>, config: &TranscodeConfig, has_audio: bool)
    ensures
        texts(final(args)@) == texts(old(args)@) + audio_args(*config, has_audio),
{
    let ghost before = texts(args@);
    match config.audio_codec.encoder() {
        Some(encoder) => {
            if !has_audio {
                push_arg(args, "-an");
            } else {
                push_arg(args, "-map");
                push_arg(args, "0:a:0?");
                push_arg(args, "-c:a");
                push_arg(args, encoder);
                push_arg(args, "-b:a");
                let mut rate = String::new();
                push_decimal(&mut rate, config.audio_bitrate_kbps as u64);
                push_str(&mut rate, "k");
                push_owned_arg(args, rate);
            }
        },
        None => push_arg(args, "-an"),
    }
    assert(texts(args@) =~= before + audio_args(*config, has_audio));
}

fn append_video_encoder_args(args: &mut Vec<String>, codec: VideoCodec)
    ensures
        texts(final(args)@) == texts(old(args)@) + encoder_args(codec),
{
    let ghost before = texts(args@);
    match codec {
        VideoCodec::H264 | VideoCodec::H265 => {
            push_arg(args, "-preset");
            push_arg(args, "medium");
            push_arg(args, "-pix_fmt");
            push_arg(args, "yuv420p");
        },
        VideoCodec::Av1 => {
            push_arg(args, "-preset");
            push_arg(args, "6");
            push_arg(args, "-pix_fmt");
            push_arg(args, "yuv420p");
        },
        VideoCodec::Vp9 => {
            push_arg(args, "-deadline");
            push_arg(args, "good");
            push_arg(args, "-pix_fmt");
            push_arg(args, "yuv420p");
        },
        // VideoToolbox has no speed preset, and pinning the pixel format would add
        // a pointless conversion before the encoder uploads the frame anyway.
        VideoCodec::H264Hw | VideoCodec::H265Hw => {},
    }
    assert(texts(args@) =~= before + encoder_args(codec));
}

fn append_rate_control_args(args: &mut Vec<String>, codec: VideoCodec, rate: VideoRateControl)
    ensures
        texts(final(args)@) == texts(old(args)@) + rate_args(codec, rate),
{
    let ghost before = texts(args@);
    match rate {
        VideoRateControl::Quality(quality) => {
            if codec == VideoCodec::Vp9 {
                push_arg(args, "-b:v");
                push_arg(args, "0");
            }
            let setting = quality_setting(codec, quality);
            push_arg(args, setting.flag);
            let mut value = String::new();
            push_decimal(&mut value, setting.value as u64);
            push_owned_arg(args, value);
        },
        VideoRateControl::Bitrate(kbps) => {
            push_arg(args, "-b:v");
            let mut value = String::new();
            push_decimal(&mut value, kbps as u64);
            push_str(&mut value, "k");
            push_owned_arg(args, value);
        },
    }
    assert(texts(args@) =~= before + rate_args(codec, rate));
}

fn append_container_args(args: &mut Vec<String>, container: Container, codec: VideoCodec)
    ensures
        texts(final(args)@) == texts(old(args)@) + container_args(container, codec),
{
    let ghost before = texts(args@);
    if container == Container::Mp4 || container == Container::Mov {
        if codec.is_hevc() {
            push_arg(args, "-tag:v");
            push_arg(args, "hvc1");
        }
        push_arg(args, "-movflags");
        push_arg(args, "+faststart");
    }
    assert(texts(args@) =~= before + container_args(container, codec));
}

/// The FFmpeg invocation for one job: read the first video and (when wanted and
/// present) the first audio stream, drop subtitles and data, encode, and write
/// into the job's temporary file while reporting progress on stdout.
#[verifier::spinoff_prover]
#[verifier::rlimit(40)]
pub fn build_command_spec(
    ffmpeg: &str,
    config: &TranscodeConfig,
    media: &InputMedia,
    artifact: &ArtifactPaths,
) -> (r: CommandSpec)
    ensures
        r.program@ == ffmpeg@,
        texts(r.args@) == command_args(*config, media.audio is Some, artifact.temporary_path@),
        r.temporary_output@ == artifact.temporary_path@,
        r.final_output@ == artifact.final_path@,
{
    let mut args: Vec<String> = Vec::new();
    push_arg(&mut args, "-hide_banner");
    push_arg(&mut args, "-nostdin");
    push_arg(&mut args, "-n");
    push_arg(&mut args, "-loglevel");
    push_arg(&mut args, "warning");
    let ghost head = texts(args@);
    if config.video_codec.is_hardware() {
        // Decode on the media engine too; FFmpeg falls back to software decoding
        // for formats VideoToolbox cannot handle.
        push_arg(&mut args, "-hwaccel");
        push_arg(&mut args, "videotoolbox");
    }
    let ghost hw = texts(args@);
    push_arg(&mut args, "-i");
    push_arg(&mut args, config.input.as_str());
    push_arg(&mut args, "-map");
    push_arg(&mut args, "0:v:0");
    let ghost input_part = texts(args@);
    append_audio_args(&mut args, config, media.audio.is_some());
    let ghost audio_part = texts(args@);
    push_arg(&mut args, "-sn");
    push_arg(&mut args, "-dn");
    let ghost drop_part = texts(args@);
    match scale_filter(config.resolution) {
        Some(filter) => {
            push_arg(&mut args, "-vf");
            push_owned_arg(&mut args, filter);
        },
        None => {},
    }
    let ghost scale_part = texts(args@);
    push_arg(&mut args, "-c:v");
    push_arg(&mut args, config.video_codec.encoder());
    let ghost codec_part = texts(args@);
    append_video_encoder_args(&mut args, config.video_codec);
    append_rate_control_args(&mut args, config.video_codec, config.video_rate_control);
    append_container_args(&mut args, config.container, config.video_codec);
    let ghost tail_start = texts(args@);
    push_arg(&mut args, "-f");
    push_arg(&mut args, config.container.muxer());
    push_arg(&mut args, "-progress");
    push_arg(&mut args, "pipe:1");
    push_arg(&mut args, "-nostats");
    push_arg(&mut args, artifact.temporary_path.as_str());
    proof {
        let t = artifact.temporary_path@;
        assert(head =~= seq!["-hide_banner"@, "-nostdin"@, "-n"@, "-loglevel"@, "warning"@]);
        assert(hw =~= head + (if config.video_codec.hardware() {
            seq!["-hwaccel"@, "videotoolbox"@]
        } else {
            Seq::empty()
        }));
        assert(input_part =~= hw + seq!["-i"@, config.input@, "-map"@, "0:v:0"@]);
        assert(drop_part =~= audio_part + seq!["-sn"@, "-dn"@]);
        assert(scale_part =~= drop_part + (match config.resolution.canvas_size() {
            Some((w, h)) => seq!["-vf"@, scale_filter_text(w as nat, h as nat)],
            None => Seq::empty(),
        }));
        assert(codec_part =~= scale_part + seq!["-c:v"@, config.video_codec.encoder_text()]);
        assert(texts(args@) =~= tail_start + seq![
            "-f"@,
            config.container.muxer_text(),
            "-progress"@,
            "pipe:1"@,
            "-nostats"@,
            t,
        ]);
        assert(texts(args@) =~= command_args(*config, media.audio is Some, t));
    }
    CommandSpec {
        program: owned(ffmpeg),
        args,
        temporary_output: artifact.temporary_path.clone(),
        final_output: artifact.final_path.clone(),
    }
}

// ------------------------------------------------------------ the preview

/// Characters a shell never reads specially.
pub open spec fn shell_safe(c: char) -> bool {
    ||| ('a' <= c && c <= 'z')
    ||| ('A' <= c && c <= 'Z')
    ||| ('0' <= c && c <= '9')
    ||| c == '_' || c == '+' || c == '-' || c == '.' || c == '/' || c == ':' || c == '=' || c == ','
        || c == '@' || c == '%'
}

pub open spec fn all_safe(s: Seq<char>) -> bool {
    forall|i: int| 0 <= i < s.len() ==> shell_safe(#[trigger] s[i])
}

/// Every `'` written as `'\''`: close the quote, an escaped quote, reopen.
pub open spec fn escape_quotes(s: Seq<char>) -> Seq<char>
    decreases s.len(),
{
    if s.len() == 0 {
        s
    } else {
        let head = if s[0] == '\'' { seq!['\'', '\\', '\'', '\''] } else { seq![s[0]] };
        head + escape_quotes(s.drop_first())
    }
}

/// One argument as a POSIX shell would need it typed.
pub open spec fn quoted(s: Seq<char>) -> Seq<char> {
    if s.len() > 0 && all_safe(s) {
        s
    } else {
        seq!['\''] + escape_quotes(s) + seq!['\'']
    }
}

/// The arguments quoted and joined by single spaces.
pub open spec fn joined_quoted(words: Seq<Seq<char>>) -> Seq<char>
    decreases words.len(),
{
    if words.len() == 0 {
        Seq::empty()
    } else if words.len() == 1 {
        quoted(words[0])
    } else {
        joined_quoted(words.drop_last()) + seq![' '] + quoted(words.last())
    }
}

/// How a POSIX shell reads back one quoted word: `'...'` keeps everything up to
/// the next quote, a backslash takes the next character literally, everything
/// else stands for itself.
pub open spec fn shell_unquote(q: Seq<char>, in_single: bool) -> Seq<char>
    decreases q.len(),
{
    if q.len() == 0 {
        Seq::empty()
    } else {
        let c = q[0];
        let rest = q.drop_first();
        if in_single {
            if c == '\'' {
                shell_unquote(rest, false)
            } else {
                seq![c] + shell_unquote(rest, true)
            }
        } else if c == '\'' {
            shell_unquote(rest, true)
        } else if c == '\\' && rest.len() > 0 {
            seq![rest[0]] + shell_unquote(rest.drop_first(), false)
        } else {
            seq![c] + shell_unquote(rest, false)
        }
    }
}

proof fn lemma_unquote_safe(s: Seq<char>)
    requires
        all_safe(s),
    ensures
        shell_unquote(s, false) == s,
    decreases s.len(),
{
    if s.len() > 0 {
        assert(shell_safe(s[0]));
        assert forall|i: int| 0 <= i < s.drop_first().len() implies shell_safe(#[trigger] s.drop_first()[i]) by {
            assert(s.drop_first()[i] == s[i + 1]);
        }
        lemma_unquote_safe(s.drop_first());
        assert(s =~= seq![s[0]] + s.drop_first());
    }
}

proof fn lemma_unquote_escaped(s: Seq<char>)
    ensures
        shell_unquote(escape_quotes(s) + seq!['\''], true) == s,
    decreases s.len(),
{
    if s.len() == 0 {
        assert(escape_quotes(s) + seq!['\''] =~= seq!['\'']);
        assert(seq!['\''].drop_first() =~= Seq::<char>::empty());
        assert(shell_unquote(seq!['\''], true) == shell_unquote(Seq::<char>::empty(), false));
        assert(s =~= Seq::<char>::empty());
    } else {
        let tail = escape_quotes(s.drop_first()) + seq!['\''];
        lemma_unquote_escaped(s.drop_first());
        if s[0] == '\'' {
            let q = seq!['\'', '\\', '\'', '\''] + tail;
            assert(escape_quotes(s) + seq!['\''] =~= q);
            assert(q.drop_first() =~= seq!['\\', '\'', '\''] + tail);
            assert(q.drop_first().drop_first() =~= seq!['\'', '\''] + tail);
            assert(q.drop_first().drop_first().drop_first() =~= seq!['\''] + tail);
            assert(q.drop_first().drop_first().drop_first().drop_first() =~= tail);
            let q1 = q.drop_first();
            let q2 = q1.drop_first();
            let q3 = q2.drop_first();
            assert(q[0] == '\'');
            assert(q1[0] == '\\');
            assert(q2[0] == '\'');
            assert(q3[0] == '\'');
            assert(q3.drop_first() =~= tail);
            assert(shell_unquote(q3, false) == shell_unquote(tail, true));
            assert(shell_unquote(q1, false) == seq!['\''] + shell_unquote(q3, false));
            assert(shell_unquote(q, true) == shell_unquote(q1, false));
            assert(s =~= seq!['\''] + s.drop_first());
        } else {
            let q = seq![s[0]] + tail;
            assert(escape_quotes(s) + seq!['\''] =~= q);
            assert(q.drop_first() =~= tail);
            assert(s =~= seq![s[0]] + s.drop_first());
        }
    }
}

/// A quoted argument reads back, through a POSIX shell, as exactly the
/// argument: the preview runs the same command FFmpeg is given.
pub proof fn lemma_quoting_round_trips(s: Seq<char>)
    ensures
        shell_unquote(quoted(s), false) == s,
{
    if s.len() > 0 && all_safe(s) {
        lemma_unquote_safe(s);
    } else {
        let q = seq!['\''] + escape_quotes(s) + seq!['\''];
        assert(q.drop_first() =~= escape_quotes(s) + seq!['\'']);
        lemma_unquote_escaped(s);
    }
}

/// How a POSIX shell splits a command line into words: unquoted spaces end a
/// word, quotes and backslashes work as in [`shell_unquote`], and a pair of
/// quotes makes a word even when it encloses nothing. `current` is the word
/// being read, `open` whether one is, and `done` the words read before.
pub open spec fn shell_words(
    q: Seq<char>,
    in_single: bool,
    current: Seq<char>,
    open: bool,
    done: Seq<Seq<char>>,
) -> Seq<Seq<char>>
    decreases q.len(),
{
    if q.len() == 0 {
        if open {
            done.push(current)
        } else {
            done
        }
    } else {
        let c = q[0];
        let rest = q.drop_first();
        if in_single {
            if c == '\'' {
                shell_words(rest, false, current, true, done)
            } else {
                shell_words(rest, true, current.push(c), true, done)
            }
        } else if c == ' ' {
            shell_words(rest, false, Seq::empty(), false, if open {
                done.push(current)
            } else {
                done
            })
        } else if c == '\'' {
            shell_words(rest, true, current, true, done)
        } else if c == '\\' && rest.len() > 0 {
            shell_words(rest.drop_first(), false, current.push(rest[0]), true, done)
        } else {
            shell_words(rest, false, current.push(c), true, done)
        }
    }
}

proof fn lemma_words_safe(
    s: Seq<char>,
    t: Seq<char>,
    current: Seq<char>,
    open: bool,
    done: Seq<Seq<char>>,
)
    requires
        all_safe(s),
    ensures
        shell_words(s + t, false, current, open, done) == shell_words(
            t,
            false,
            current + s,
            open || s.len() > 0,
            done,
        ),
    decreases s.len(),
{
    if s.len() == 0 {
        assert(s + t =~= t);
        assert(current + s =~= current);
    } else {
        assert(shell_safe(s[0]));
        let r = s.drop_first();
        assert forall|i: int| 0 <= i < r.len() implies shell_safe(#[trigger] r[i]) by {
            assert(r[i] == s[i + 1]);
        }
        assert((s + t)[0] == s[0]);
        assert((s + t).drop_first() =~= r + t);
        lemma_words_safe(r, t, current.push(s[0]), true, done);
        assert(current.push(s[0]) + r =~= current + s);
    }
}

proof fn lemma_words_escaped(
    s: Seq<char>,
    t: Seq<char>,
    current: Seq<char>,
    done: Seq<Seq<char>>,
)
    ensures
        shell_words(escape_quotes(s) + seq!['\''] + t, true, current, true, done) == shell_words(
            t,
            false,
            current + s,
            true,
            done,
        ),
    decreases s.len(),
{
    let q = escape_quotes(s) + seq!['\''] + t;
    if s.len() == 0 {
        assert(q =~= seq!['\''] + t);
        assert(q.drop_first() =~= t);
        assert(current + s =~= current);
    } else {
        let r = s.drop_first();
        let tail = escape_quotes(r) + seq!['\''] + t;
        if s[0] == '\'' {
            lemma_words_escaped(r, t, current.push('\''), done);
            assert(q =~= seq!['\'', '\\', '\'', '\''] + tail);
            let q1 = q.drop_first();
            let q2 = q1.drop_first();
            let q3 = q2.drop_first();
            assert(q1 =~= seq!['\\', '\'', '\''] + tail);
            assert(q2 =~= seq!['\'', '\''] + tail);
            assert(q3 =~= seq!['\''] + tail);
            assert(q3.drop_first() =~= tail);
            assert(q[0] == '\'');
            assert(q1[0] == '\\');
            assert(q2[0] == '\'');
            assert(q3[0] == '\'');
            assert(shell_words(q, true, current, true, done) == shell_words(q1, false, current, true, done));
            assert(shell_words(q1, false, current, true, done) == shell_words(q3, false, current.push('\''), true, done));
            assert(shell_words(q3, false, current.push('\''), true, done) == shell_words(tail, true, current.push('\''), true, done));
            assert(current.push('\'') + r =~= current + s);
        } else {
            lemma_words_escaped(r, t, current.push(s[0]), done);
            assert(q =~= seq![s[0]] + tail);
            assert(q.drop_first() =~= tail);
            assert(current.push(s[0]) + r =~= current + s);
        }
    }
}

/// Reading one quoted word leaves exactly that word being read.
proof fn lemma_words_quoted(
    w: Seq<char>,
    t: Seq<char>,
    current: Seq<char>,
    open: bool,
    done: Seq<Seq<char>>,
)
    ensures
        shell_words(quoted(w) + t, false, current, open, done) == shell_words(
            t,
            false,
            current + w,
            true,
            done,
        ),
{
    if w.len() > 0 && all_safe(w) {
        lemma_words_safe(w, t, current, open, done);
    } else {
        let q = quoted(w) + t;
        assert(q =~= seq!['\''] + (escape_quotes(w) + seq!['\''] + t));
        assert(q.drop_first() =~= escape_quotes(w) + seq!['\''] + t);
        lemma_words_escaped(w, t, current, done);
    }
}

proof fn lemma_words_joined(ws: Seq<Seq<char>>, t: Seq<char>, done: Seq<Seq<char>>)
    requires
        ws.len() > 0,
    ensures
        shell_words(joined_quoted(ws) + t, false, Seq::empty(), false, done) == shell_words(
            t,
            false,
            ws.last(),
            true,
            done + ws.drop_last(),
        ),
    decreases ws.len(),
{
    if ws.len() == 1 {
        lemma_words_quoted(ws[0], t, Seq::empty(), false, done);
        assert(Seq::<char>::empty() + ws[0] =~= ws[0]);
        assert(done + ws.drop_last() =~= done);
    } else {
        let front = ws.drop_last();
        let rest = seq![' '] + quoted(ws.last()) + t;
        assert(joined_quoted(ws) + t =~= joined_quoted(front) + rest);
        lemma_words_joined(front, rest, done);
        assert(rest.drop_first() =~= quoted(ws.last()) + t);
        lemma_words_quoted(ws.last(), t, Seq::empty(), false, done + front);
        assert(Seq::<char>::empty() + ws.last() =~= ws.last());
        assert((done + front.drop_last()).push(front.last()) =~= done + front);
    }
}

/// The whole preview line reads back, through a POSIX shell, as exactly the
/// program and its arguments: quoting each word and joining them with spaces
/// loses nothing and merges nothing.
pub proof fn lemma_preview_splits_back(words: Seq<Seq<char>>)
    ensures
        shell_words(joined_quoted(words), false, Seq::empty(), false, Seq::empty()) == words,
{
    if words.len() > 0 {
        lemma_words_joined(words, Seq::empty(), Seq::empty());
        assert(joined_quoted(words) + Seq::<char>::empty() =~= joined_quoted(words));
        assert(Seq::<Seq<char>>::empty() + words.drop_last() =~= words.drop_last());
        assert(words.drop_last().push(words.last()) =~= words);
    }
}

pub fn is_shell_safe(c: char) -> (r: bool)
    ensures
        r == shell_safe(c),
{
    ('a' <= c && c <= 'z') || ('A' <= c && c <= 'Z') || ('0' <= c && c <= '9') || c == '_' || c
        == '+' || c == '-' || c == '.' || c == '/' || c == ':' || c == '=' || c == ',' || c == '@'
        || c == '%'
}

fn push_quoted(out: &mut String, value: &str)
    ensures
        final(out)@ == old(out)@ + quoted(value@),
{
    let v = chars_of(value);
    let mut safe = v.len() > 0;
    let mut i: usize = 0;
    while i < v.len()
        invariant
            0 <= i <= v.len(),
            safe == (v.len() > 0 && forall|j: int| 0 <= j < i ==> shell_safe(#[trigger] v@[j])),
        decreases v.len() - i,
    {
        if !is_shell_safe(v[i]) {
            safe = false;
        }
        i = i + 1;
    }
    if safe {
        push_str(out, value);
        return;
    }
    let ghost start = out@;
    push_char(out, '\'');
    let mut k: usize = 0;
    while k < v.len()
        invariant
            0 <= k <= v.len(),
            out@ == start + seq!['\''] + escape_quotes(v@.take(k as int)),
        decreases v.len() - k,
    {
        proof {
            lemma_escape_push(v@.take(k as int), v@[k as int]);
            assert(v@.take(k + 1) =~= v@.take(k as int).push(v@[k as int]));
        }
        if v[k] == '\'' {
            push_char(out, '\'');
            push_char(out, '\\');
            push_char(out, '\'');
            push_char(out, '\'');
        } else {
            push_char(out, v[k]);
        }
        assert(out@ =~= start + seq!['\''] + escape_quotes(v@.take(k + 1)));
        k = k + 1;
    }
    push_char(out, '\'');
    assert(v@.take(v.len() as int) =~= v@);
    assert(out@ =~= start + quoted(value@));
}

proof fn lemma_escape_push(s: Seq<char>, c: char)
    ensures
        escape_quotes(s.push(c)) == escape_quotes(s) + (if c == '\'' {
            seq!['\'', '\\', '\'', '\'']
        } else {
            seq![c]
        }),
    decreases s.len(),
{
    if s.len() == 0 {
        assert(s.push(c).drop_first() =~= s);
        assert(escape_quotes(s) == s);
        assert(s.push(c)[0] == c);
        assert(escape_quotes(s.push(c)) == (if c == '\'' {
            seq!['\'', '\\', '\'', '\'']
        } else {
            seq![c]
        }) + escape_quotes(s));
        assert(escape_quotes(s.push(c)) =~= (if c == '\'' {
            seq!['\'', '\\', '\'', '\'']
        } else {
            seq![c]
        }) + Seq::<char>::empty());
    } else {
        lemma_escape_push(s.drop_first(), c);
        assert(s.push(c).drop_first() =~= s.drop_first().push(c));
        assert(s.push(c)[0] == s[0]);
        let head = if s[0] == '\'' { seq!['\'', '\\', '\'', '\''] } else { seq![s[0]] };
        assert(escape_quotes(s.push(c)) == head + escape_quotes(s.drop_first().push(c)));
        assert(escape_quotes(s) == head + escape_quotes(s.drop_first()));
        let tail = if c == '\'' { seq!['\'', '\\', '\'', '\''] } else { seq![c] };
        assert(head + (escape_quotes(s.drop_first()) + tail) =~= (head + escape_quotes(
            s.drop_first(),
        )) + tail);
    }
}

/// One argument as a shell would need it typed.
pub fn shell_quote(value: &str) -> (r: String)
    ensures
        r@ == quoted(value@),
{
    let mut r = String::new();
    push_quoted(&mut r, value);
    assert(r@ =~= quoted(value@));
    r
}

/// The exact command, program first, as a line a user could paste into a shell.
pub fn render_command_preview(spec: &CommandSpec) -> (r: String)
    ensures
        r@ == joined_quoted(seq![spec.program@] + texts(spec.args@)),
{
    let ghost words = seq![spec.program@] + texts(spec.args@);
    let mut r = String::new();
    push_quoted(&mut r, spec.program.as_str());
    assert(words.take(1) =~= seq![spec.program@]);
    assert(r@ =~= joined_quoted(words.take(1)));
    let mut i: usize = 0;
    while i < spec.args.len()
        invariant
            0 <= i <= spec.args.len(),
            words == seq![spec.program@] + texts(spec.args@),
            r@ == joined_quoted(words.take(i + 1)),
        decreases spec.args.len() - i,
    {
        push_char(&mut r, ' ');
        push_quoted(&mut r, spec.args[i].as_str());
        proof {
            let w = words.take(i + 2);
            assert(w.drop_last() =~= words.take(i + 1));
            assert(w.last() == spec.args@[i as int]@);
        }
        i = i + 1;
    }
    assert(words.take(spec.args.len() + 1) =~= words);
    r
}

// ------------------------------------------------------------ progress

/// One `-progress` block, summarised.
#[derive(Debug, Clone)]
pub struct ProgressUpdate {
    /// Output time written so far, in microseconds.
    pub processed_micros: u64,
    /// Share of the source duration done, in tenths of a percent, capped at
    /// 1000; absent when the duration is unknown or zero.
    pub percent_permille: Option<u64>,
    /// The source duration the share is of, in microseconds; absent when it is
    /// unknown or zero.
    pub total_micros: Option<u64>,
    pub speed: Option<String>,
    /// Whether FFmpeg reported the end of its output.
    pub finished: bool,
}

/// Collects FFmpeg's `key=value` progress lines until a `progress=` line ends
/// the block.
#[derive(Debug)]
pub struct ProgressParser {
    values: Vec<(String, String)>,
    duration_micros: Option<u64>,
}

/// The latest value recorded for `key`.
pub open spec fn lookup(entries: Seq<(String, String)>, key: Seq<char>) -> Option<Seq<char>>
    decreases entries.len(),
{
    if entries.len() == 0 {
        None
    } else if entries.last().0@ == key {
        Some(entries.last().1@)
    } else {
        lookup(entries.drop_last(), key)
    }
}

/// Microseconds of output are read from `out_time_us`, else `out_time_ms`
/// (which FFmpeg also fills in microseconds), else zero; an unreadable value
/// counts as zero.
/// The lookup after one more `key=value` line.
pub open spec fn lookup_with(
    entries: Seq<(String, String)>,
    key: Seq<char>,
    value: Seq<char>,
    k: Seq<char>,
) -> Option<Seq<char>> {
    if k == key {
        Some(value)
    } else {
        lookup(entries, k)
    }
}

/// Microseconds of output once one more `key=value` line is recorded.
pub open spec fn processed_of_with(entries: Seq<(String, String)>, key: Seq<char>, value: Seq<char>) -> nat {
    let field = match lookup_with(entries, key, value, "out_time_us"@) {
        Some(v) => Some(v),
        None => lookup_with(entries, key, value, "out_time_ms"@),
    };
    match field {
        Some(v) => match parse_unsigned(v, u64::MAX as nat) {
            Some(n) => n,
            None => 0,
        },
        None => 0,
    }
}

pub open spec fn opt_text(o: Option<String>) -> Option<Seq<char>> {
    match o {
        Some(s) => Some(s@),
        None => None,
    }
}

/// The share done in tenths of a percent, rounded half to even, at most 1000.
pub open spec fn permille_of(processed: nat, total: Option<u64>) -> Option<u64> {
    match total {
        Some(t) => if t > 0 {
            let done: nat = if processed < t { processed } else { t as nat };
            Some(crate::domain::round_half_even(done * 1000, t as nat) as u64)
        } else {
            None
        },
        None => None,
    }
}

impl ProgressParser {
    pub closed spec fn entries(&self) -> Seq<(String, String)> {
        self.values@
    }

    pub closed spec fn duration(&self) -> Option<u64> {
        self.duration_micros
    }

    /// A parser for a job whose source lasts `duration_micros`.
    pub fn new(duration_micros: Option<u64>) -> (r: Self)
        ensures
            r.entries().len() == 0,
            r.duration() == duration_micros,
    {
        ProgressParser { values: Vec::new(), duration_micros }
    }

    fn get(&self, key: &str) -> (r: Option<String>)
        ensures
            match r {
                Some(v) => lookup(self.entries(), key@) == Some(v@),
                None => lookup(self.entries(), key@) is None,
            },
    {
        let mut i = self.values.len();
        assert(self.values@.take(i as int) =~= self.values@);
        while i > 0
            invariant
                i <= self.values.len(),
                lookup(self.values@, key@) == lookup(self.values@.take(i as int), key@),
            decreases i,
        {
            let ghost prefix = self.values@.take(i as int);
            assert(prefix.drop_last() =~= self.values@.take(i - 1));
            if same_text(self.values[i - 1].0.as_str(), key) {
                return Some(self.values[i - 1].1.clone());
            }
            i = i - 1;
        }
        None
    }

    /// Reads one line. Returns the summary of the block when the line is the
    /// `progress=` line that ends it; the block's values are then forgotten.
    pub fn push_line(&mut self, line: &str) -> (r: Option<ProgressUpdate>)
        ensures
            final(self).duration() == old(self).duration(),
            match split_once(trim(line@), '=') {
                None => r is None && final(self).entries() == old(self).entries(),
                Some((key, value)) => if key != "progress"@ {
                    &&& r is None
                    &&& forall|k: Seq<char>|
                        #![trigger lookup(final(self).entries(), k)]
                        lookup(final(self).entries(), k) == lookup_with(old(self).entries(), key, value, k)
                } else {
                    &&& final(self).entries().len() == 0
                    &&& r matches Some(update)
                    &&& update.processed_micros as nat == processed_of_with(old(self).entries(), key, value)
                    &&& update.percent_permille == permille_of(
                        processed_of_with(old(self).entries(), key, value),
                        old(self).duration(),
                    )
                    &&& update.total_micros == (match old(self).duration() {
                        Some(t) => if t > 0 {
                            Some(t)
                        } else {
                            None
                        },
                        None => None,
                    })
                    &&& opt_text(update.speed) == lookup_with(old(self).entries(), key, value, "speed"@)
                    &&& update.finished == (value == "end"@)
                },
            },
    {
        let chars = chars_of(line);
        let t = trim_chars(&chars);
        let (key, value) = match split_once_chars(&t, '=') {
            Some(pair) => pair,
            None => return None,
        };
        let key = string_from(&key);
        let value = string_from(&value);
        let is_progress = same_text(key.as_str(), "progress");
        let finished = same_text(value.as_str(), "end");
        let ghost key_text = key@;
        let ghost value_text = value@;
        let ghost before = self.values@;
        self.values.push((key, value));
        proof {
            assert(self.values@.drop_last() =~= before);
            assert forall|k: Seq<char>| #[trigger] lookup(self.values@, k) == lookup_with(before, key_text, value_text, k) by {
            }
        }
        if !is_progress {
            return None;
        }
        let field = match self.get("out_time_us") {
            Some(v) => Some(v),
            None => self.get("out_time_ms"),
        };
        let processed: u64 = match field {
            Some(v) => match parse_u64(v.as_str()) {
                Some(n) => n,
                None => 0,
            },
            None => 0,
        };
        let percent_permille = match self.duration_micros {
            Some(total) => {
                if total > 0 {
                    let done: u64 = if processed < total { processed } else { total };
                    let scaled: u128 = done as u128 * 1000;
                    let q: u128 = scaled / total as u128;
                    let rem: u128 = scaled % total as u128;
                    assert(q <= 1000) by (nonlinear_arith)
                        requires
                            q == scaled / total as u128,
                            scaled == done * 1000,
                            done <= total,
                            total > 0,
                    ;
                    let rounded: u128 = if 2 * rem > total as u128 || (2 * rem == total as u128 && q
                        % 2 == 1) {
                        q + 1
                    } else {
                        q
                    };
                    Some(rounded as u64)
                } else {
                    None
                }
            },
            None => None,
        };
        let total_micros = match self.duration_micros {
            Some(total) => if total > 0 {
                Some(total)
            } else {
                None
            },
            None => None,
        };
        let speed = self.get("speed");
        self.values = Vec::new();
        Some(ProgressUpdate { processed_micros: processed, percent_permille, total_micros, speed, finished })
    }
}

// ------------------------------------------------------------ queue worker

/// What the worker reports about the queue it runs, file by file.
#[derive(Debug, Clone)]
pub enum WorkerEvent {
    /// FFmpeg started on the file at `index` of the queue.
    Started { index: usize, pid: u32 },
    Progress { index: usize, update: ProgressUpdate },
    /// One line FFmpeg wrote to its error stream, already sanitised.
    StderrLine { index: usize, line: String },
    Finished { index: usize, output: String, elapsed_ms: u64 },
    Failed { index: usize, error: String },
    Cancelled { index: usize },
    /// The queue stopped; `remaining` files were never started.
    QueueFinished { elapsed_ms: u64, cancelled: bool, remaining: usize },
}

/// The characters of an error-stream line the interface keeps: control
/// characters other than tabs are dropped.
pub open spec fn kept_chars(s: Seq<char>) -> Seq<char>
    decreases s.len(),
{
    if s.len() == 0 {
        Seq::empty()
    } else {
        let rest = kept_chars(s.drop_last());
        let c = s.last();
        if !is_control(c) || c == '\t' {
            rest.push(c)
        } else {
            rest
        }
    }
}

/// The longest error-stream line the interface keeps, in characters.
pub const STDERR_LINE_LIMIT: usize = 2000;

/// A line of FFmpeg's error stream as the interface shows it.
pub open spec fn stderr_text(s: Seq<char>) -> Seq<char> {
    let kept = kept_chars(s);
    if kept.len() > STDERR_LINE_LIMIT {
        kept.take(STDERR_LINE_LIMIT as int)
    } else {
        kept
    }
}

/// Cleans one line of FFmpeg's error stream for the terminal: control
/// characters other than tabs go, and the line is cut at 2000 characters.
pub fn stderr_line(line: &str) -> (r: String)
    ensures
        r@ == stderr_text(line@),
{
    let chars = chars_of(line);
    let mut r = String::new();
    let mut count: usize = 0;
    let mut i: usize = 0;
    while i < chars.len()
        invariant
            i <= chars.len(),
            count == r@.len(),
            r@ == stderr_text(chars@.take(i as int)),
            chars@ == line@,
        decreases chars.len() - i,
    {
        let c = chars[i];
        proof {
            assert(chars@.take(i + 1).drop_last() =~= chars@.take(i as int));
        }
        if (!is_control_char(c) || c == '\t') && count < STDERR_LINE_LIMIT {
            push_char(&mut r, c);
            count = count + 1;
        }
        proof {
            let before = kept_chars(chars@.take(i as int));
            let after = kept_chars(chars@.take(i + 1));
            if after.len() > STDERR_LINE_LIMIT && before.len() <= STDERR_LINE_LIMIT {
                assert(after.take(STDERR_LINE_LIMIT as int) =~= before);
            }
            if before.len() > STDERR_LINE_LIMIT && after.len() > before.len() {
                assert(after.take(STDERR_LINE_LIMIT as int) =~= before.take(STDERR_LINE_LIMIT as int));
            }
        }
        i = i + 1;
    }
    proof {
        assert(chars@.take(chars@.len() as int) =~= line@);
    }
    r
}

/// The decimal text of a signed number.
pub open spec fn signed_decimal(n: int) -> Seq<char> {
    if n < 0 {
        seq!['-'] + decimal((-n) as nat)
    } else {
        decimal(n as nat)
    }
}

/// Why a file failed, from FFmpeg's exit code, or `None` when a signal ended it.
pub open spec fn failure_text(code: Option<i32>) -> Seq<char> {
    match code {
        Some(c) => "FFmpeg failed with exit code "@ + signed_decimal(c as int) + "."@,
        None => "FFmpeg failed with terminated by a signal."@,
    }
}

/// The message for an FFmpeg run that ended without success.
pub fn failure_message(code: Option<i32>) -> (r: String)
    ensures
        r@ == failure_text(code),
{
    let mut r = String::new();
    match code {
        Some(c) => {
            push_str(&mut r, "FFmpeg failed with exit code ");
            if c < 0 {
                push_char(&mut r, '-');
                push_decimal(&mut r, (-(c as i64)) as u64);
            } else {
                push_decimal(&mut r, c as u64);
            }
            push_str(&mut r, ".");
        },
        None => push_str(&mut r, "FFmpeg failed with terminated by a signal."),
    }
    assert(r@ =~= failure_text(code));
    r
}

} // verus!
