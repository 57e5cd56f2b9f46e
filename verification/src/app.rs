//! The application's state machine: the screens, the queue of files and what
//! became of each, and what every key and background event changes.
//!
//! The machine never touches the disk, the clock or a process. What it needs
//! done it records as an [`Effect`] for the host, and the host reports back
//! through the methods that take probe results, reservations and worker events.
use vstd::prelude::*;
use crate::domain::{
    AudioCodec, Container, DraftConfig, InputMedia, PathFacts, QualityPreset, RateControlMode,
    Resolution, TranscodeConfig, VideoCodec, ValidationError, AUDIO_BITRATE_PRESETS,
    VIDEO_BITRATE_PRESETS, supported_video_codecs, supported_audio_codecs, quality_setting,
    validation_error, config_from_draft, video_allowed, audio_allowed, supported_video,
    supported_audio, lemma_codec_policy,
};
use crate::input::{KeyCode, KeyInput};
use crate::paths::{
    parent, join, same_path, file_name, file_stem, std_path_parent, std_path_join, std_path_eq,
    std_path_file_name, std_path_file_stem,
};
use crate::picker::{Picker, PickerAction, PickerMode, views, copy_strings};
use crate::text::{
    decimal, push_char, push_str, push_decimal, owned, chars_of, string_from_range, same_text,
    parse_unsigned, parse_u64, all_digits, is_digit, is_digit_char,
};
use crate::toolchain::Toolchain;
use crate::transcode::{
    ArtifactPaths, CommandSpec, ProgressUpdate, TranscodeError, WorkerEvent, build_command_spec,
    render_command_preview, command_args, joined_quoted, texts,
};

verus! {

#[derive(Debug, Clone, Copy, PartialEq, Eq, Structural)]
pub enum Screen {
    Folders,
    Settings,
    Confirm,
    Running,
    Result,
    Error,
}

#[derive(Debug, Clone)]
pub enum JobState {
    Idle,
    Probing,
    Ready,
    Starting,
    Running {
        /// Position of the running job in the queue.
        index: usize,
        pid: u32,
        progress: Option<ProgressUpdate>,
    },
    Cancelling,
    /// The queue stopped; per-file outcomes live in the queue.
    Finished { elapsed_ms: u64, cancelled: bool },
}

#[derive(Debug, Clone, PartialEq, Eq)]
pub enum JobOutcome {
    Pending,
    Running,
    Succeeded { elapsed_ms: u64 },
    Failed(String),
    Cancelled,
    /// Never started, because cancellation ended the queue first.
    Skipped,
}

/// One planned conversion and what became of it.
#[derive(Debug, Clone)]
pub struct JobRecord {
    pub input: String,
    pub output: String,
    pub outcome: JobOutcome,
}

#[derive(Debug, Clone, Copy, PartialEq, Eq, Structural)]
pub enum ConfigField {
    Input,
    Output,
    Container,
    VideoCodec,
    AudioCodec,
    Resolution,
    RateControl,
    RateValue,
    AudioBitrate,
}

impl ConfigField {
    /// The settings rows, top to bottom.
    pub const SETTINGS: [ConfigField; 7] = [
        ConfigField::Container,
        ConfigField::VideoCodec,
        ConfigField::AudioCodec,
        ConfigField::Resolution,
        ConfigField::RateControl,
        ConfigField::RateValue,
        ConfigField::AudioBitrate,
    ];
}

#[derive(Debug, Clone, Copy, PartialEq, Eq, Structural)]
pub enum NavigationButton {
    Back,
    Advance,
}

/// The control under the pointer, kept apart from keyboard focus so that moving
/// the mouse never changes what the keyboard would act on.
#[derive(Debug, Clone, Copy, PartialEq, Eq, Structural)]
pub enum HoverTarget {
    HeaderChip(char),
    StatusChip(char),
    InputRow,
    OutputRow,
    Setting(ConfigField),
    CardButton(NavigationButton),
    PickerRow(usize),
    PickerCancel,
    PickerParent,
    PickerPrimary,
    PickerName,
}

/// What a key asks of the host beyond the state change.
#[derive(Debug, Clone, Copy, PartialEq, Eq, Structural)]
pub enum UiCommand {
    Continue,
    /// Show the input picker; `add` keeps the current selection and appends to it.
    OpenInputs { add: bool },
    OpenOutput,
    Quit,
}

/// Work the host owes the machine.
#[derive(Debug, Clone)]
pub enum Effect {
    /// Read these inputs with ffprobe, one after another, and report each.
    Probe(Vec<String>),
    /// Reserve a private temporary output for each of these jobs, in order,
    /// stopping at the first failure, and report with [`App::confirm_plan`].
    Reserve(Vec<TranscodeConfig>),
    /// Run these jobs, one after another, in order.
    Start(Vec<PreparedJob>),
    /// Stop the running queue.
    Cancel,
}

/// A bitrate being typed into a settings row.
#[derive(Debug, Clone)]
pub struct NumericEdit {
    pub field: ConfigField,
    pub buffer: String,
}

/// What ffprobe said about one selected input, or why it could not say.
#[derive(Debug)]
pub struct ProbeEntry {
    pub input: String,
    pub result: Result<InputMedia, String>,
}

/// A job ready to run: its command and the temporary output reserved for it.
#[derive(Debug, Clone)]
pub struct PreparedJob {
    pub spec: CommandSpec,
    pub artifact: ArtifactPaths,
    pub duration_micros: Option<u64>,
}

// ------------------------------------------------------------ choices

/// A value a settings row cycles through.
pub trait Choice: Copy + Sized {
    fn same(&self, other: &Self) -> (r: bool)
        ensures
            r == (*self == *other),
    ;
}

impl Choice for Container {
    fn same(&self, other: &Self) -> (r: bool) {
        *self == *other
    }
}

impl Choice for VideoCodec {
    fn same(&self, other: &Self) -> (r: bool) {
        *self == *other
    }
}

impl Choice for AudioCodec {
    fn same(&self, other: &Self) -> (r: bool) {
        *self == *other
    }
}

impl Choice for Resolution {
    fn same(&self, other: &Self) -> (r: bool) {
        *self == *other
    }
}

impl Choice for QualityPreset {
    fn same(&self, other: &Self) -> (r: bool) {
        *self == *other
    }
}

impl Choice for u32 {
    fn same(&self, other: &Self) -> (r: bool) {
        *self == *other
    }
}

/// Where `current` first occurs in `values`, or the first slot.
pub open spec fn index_or_first<T>(values: Seq<T>, current: T) -> int {
    if exists|i: int| 0 <= i < values.len() && values[i] == current {
        choose|i: int|
            0 <= i < values.len() && values[i] == current && forall|j: int|
                0 <= j < i ==> values[j] != current
    } else {
        0
    }
}

/// The slot `direction` steps from `current`, wrapping at both ends.
pub open spec fn cycled<T>(values: Seq<T>, current: T, direction: int) -> T {
    values[(index_or_first(values, current) + direction) % (values.len() as int)]
}

proof fn lemma_index_of_distinct<T>(values: Seq<T>, i: int)
    requires
        values.no_duplicates(),
        0 <= i < values.len(),
    ensures
        index_or_first(values, values[i]) == i,
{
    assert(forall|j: int| 0 <= j < i ==> values[j] != values[i]);
    let k = choose|k: int|
        0 <= k < values.len() && values[k] == values[i] && forall|j: int|
            0 <= j < k ==> values[j] != values[i];
    assert(k == i);
}

/// Among distinct choices, stepping back undoes a step: cycling by
/// `direction` and then by `-direction` returns to the choice one began with.
pub proof fn lemma_cycling_back_undoes<T>(values: Seq<T>, i: int, direction: int)
    requires
        values.no_duplicates(),
        0 <= i < values.len(),
    ensures
        cycled(values, cycled(values, values[i], direction), -direction) == values[i],
{
    let n = values.len() as int;
    lemma_index_of_distinct(values, i);
    let j = (i + direction) % n;
    assert(0 <= j < n) by {
        vstd::arithmetic::div_mod::lemma_fundamental_div_mod(i + direction, n);
        vstd::arithmetic::div_mod::lemma_mod_bound(i + direction, n);
    }
    lemma_index_of_distinct(values, j);
    let q = (i + direction) / n;
    assert(i + direction == n * q + j) by {
        vstd::arithmetic::div_mod::lemma_fundamental_div_mod(i + direction, n);
    }
    assert(j - direction == (-q) * n + i) by (nonlinear_arith)
        requires
            i + direction == n * q + j,
    ;
    vstd::arithmetic::div_mod::lemma_fundamental_div_mod_converse_mod(j - direction, n, -q, i);
}

/// Among distinct choices, two steps make one: stepping by `a` and then by
/// `b` lands where stepping by `a + b` does, so `values.len()` single steps
/// in one direction come back to the start.
pub proof fn lemma_cycling_composes<T>(values: Seq<T>, i: int, a: int, b: int)
    requires
        values.no_duplicates(),
        0 <= i < values.len(),
    ensures
        cycled(values, cycled(values, values[i], a), b) == cycled(values, values[i], a + b),
        cycled(values, values[i], values.len() as int) == values[i],
{
    let n = values.len() as int;
    lemma_index_of_distinct(values, i);
    let j = (i + a) % n;
    assert(0 <= j < n) by {
        vstd::arithmetic::div_mod::lemma_mod_bound(i + a, n);
    }
    lemma_index_of_distinct(values, j);
    let q = (i + a) / n;
    assert(i + a == n * q + j) by {
        vstd::arithmetic::div_mod::lemma_fundamental_div_mod(i + a, n);
    }
    let r = (i + a + b) % n;
    let q2 = (i + a + b) / n;
    assert(i + a + b == n * q2 + r) by {
        vstd::arithmetic::div_mod::lemma_fundamental_div_mod(i + a + b, n);
    }
    assert(0 <= r < n) by {
        vstd::arithmetic::div_mod::lemma_mod_bound(i + a + b, n);
    }
    assert(j + b == (q2 - q) * n + r) by (nonlinear_arith)
        requires
            i + a == n * q + j,
            i + a + b == n * q2 + r,
    ;
    vstd::arithmetic::div_mod::lemma_fundamental_div_mod_converse_mod(j + b, n, q2 - q, r);
    assert(i + n == 1 * n + i);
    vstd::arithmetic::div_mod::lemma_fundamental_div_mod_converse_mod(i + n, n, 1, i);
}

pub open spec fn distance(a: u32, b: u32) -> nat {
    if a >= b {
        (a - b) as nat
    } else {
        (b - a) as nat
    }
}

/// The first of `values[..n]` nearest to `target`.
pub open spec fn nearest_in(values: Seq<u32>, target: u32, n: nat) -> u32
    decreases n,
{
    if n <= 1 {
        values[0]
    } else {
        let best = nearest_in(values, target, (n - 1) as nat);
        if distance(values[n - 1], target) < distance(best, target) {
            values[n - 1]
        } else {
            best
        }
    }
}

/// `value` taken round a ring of `count` slots.
fn wrap(value: i64, count: i64) -> (r: i64)
    requires
        count > 0,
    ensures
        r == value % count,
        0 <= r < count,
{
    let wrapped = if value >= 0 {
        value % count
    } else {
        let back = (-(value as i128)) % (count as i128);
        if back == 0 { 0 } else { (count as i128 - back) as i64 }
    };
    proof {
        let p = value as int;
        let c = count as int;
        if p < 0 {
            let d = -p;
            let q = d / c;
            let b = d % c;
            vstd::arithmetic::div_mod::lemma_fundamental_div_mod(d, c);
            if b == 0 {
                assert(p == c * (-q)) by (nonlinear_arith)
                    requires
                        d == c * q + b,
                        b == 0,
                        p == -d,
                ;
                vstd::arithmetic::div_mod::lemma_mod_multiples_vanish(-q, 0, c);
                assert(c * (-q) + 0 == p);
            } else {
                assert(p == c * (-q - 1) + (c - b)) by (nonlinear_arith)
                    requires
                        d == c * q + b,
                        p == -d,
                ;
                vstd::arithmetic::div_mod::lemma_mod_multiples_vanish(-q - 1, c - b, c);
                vstd::arithmetic::div_mod::lemma_small_mod((c - b) as nat, c as nat);
            }
        }
    }
    wrapped
}

/// The next choice `direction` steps away, wrapping at both ends; a value not
/// among the choices counts as the first.
pub fn cycle<T: Choice>(values: &[T], current: T, direction: i32) -> (r: T)
    requires
        0 < values@.len() <= i32::MAX,
    ensures
        r == cycled(values@, current, direction as int),
{
    let n = values.len();
    let mut index: usize = 0;
    let mut found = false;
    let mut i: usize = 0;
    while i < n
        invariant
            i <= n,
            n == values@.len(),
            !found ==> index == 0,
            !found ==> forall|j: int| 0 <= j < i ==> values@[j] != current,
            found ==> index < n && values@[index as int] == current && forall|j: int|
                0 <= j < index ==> values@[j] != current,
        decreases n - i,
    {
        if !found && values[i].same(&current) {
            index = i;
            found = true;
        }
        i = i + 1;
    }
    proof {
        if found {
            let k = choose|k: int|
                0 <= k < values@.len() && values@[k] == current && forall|j: int|
                    0 <= j < k ==> values@[j] != current;
            assert(k == index) by {
                if k < index {
                    assert(values@[k] != current);
                }
                if k > index {
                    assert(values@[index as int] != current);
                }
            }
        } else {
            assert(!exists|j: int| 0 <= j < values@.len() && values@[j] == current);
        }
    }
    let wrapped = wrap(index as i64 + direction as i64, n as i64);
    values[wrapped as usize]
}

/// Steps through the presets from the one nearest the current value, so that a
/// bitrate typed by hand still lands somewhere sensible. An exact match is at
/// distance zero, so it always wins.
pub fn cycle_numeric(values: &[u32], current: u32, direction: i32) -> (r: u32)
    requires
        0 < values@.len() <= i32::MAX,
    ensures
        r == cycled(values@, nearest_in(values@, current, values@.len() as nat), direction as int),
{
    let mut best = values[0];
    let mut i: usize = 1;
    while i < values.len()
        invariant
            1 <= i <= values@.len(),
            best == nearest_in(values@, current, i as nat),
        decreases values.len() - i,
    {
        let d_here = if values[i] >= current { values[i] - current } else { current - values[i] };
        let d_best = if best >= current { best - current } else { current - best };
        if d_here < d_best {
            best = values[i];
        }
        i = i + 1;
    }
    cycle(values, best, direction)
}

/// The status line while inputs are being read.
pub open spec fn probing_text(remaining: nat) -> Seq<char> {
    if remaining <= 1 {
        "Probing input media…"@
    } else {
        "Probing input media… "@ + decimal(remaining) + " files left."@
    }
}

pub fn probing_message(remaining: usize) -> (r: String)
    ensures
        r@ == probing_text(remaining as nat),
{
    let mut r = String::new();
    if remaining <= 1 {
        push_str(&mut r, "Probing input media…");
    } else {
        push_str(&mut r, "Probing input media… ");
        push_decimal(&mut r, remaining as u64);
        push_str(&mut r, " files left.");
    }
    assert(r@ =~= probing_text(remaining as nat));
    r
}

// ------------------------------------------------------------ the machine

pub struct App {
    pub toolchain: Toolchain,
    /// The encoding settings every file of the queue shares. Its input and
    /// output stay empty: each job takes one of `inputs` and a name in
    /// `output_folder`.
    pub draft: DraftConfig,
    /// The selected files, in selection order, each once.
    pub inputs: Vec<String>,
    /// The folder every output is written to.
    pub output_folder: Option<String>,
    /// What reading each selected input gave; an input without an entry is
    /// still being read.
    pub probes: Vec<ProbeEntry>,
    /// A source folder used before, kept only as a place for the picker to start.
    pub input_folder: Option<String>,
    pub screen: Screen,
    pub job: JobState,
    /// The planned conversions, filled in when a queue is prepared for review and
    /// updated as it runs.
    pub queue: Vec<JobRecord>,
    pub focus: ConfigField,
    pub button_focus: Option<NavigationButton>,
    pub hover: Option<HoverTarget>,
    pub status_message: Option<String>,
    pub stderr_tail: Vec<String>,
    pub review_scroll: u16,
    pub progress_scroll: u16,
    pub progress_follow: bool,
    pub progress_scroll_from_top: bool,
    pub command_preview: Option<String>,
    pub help_visible: bool,
    pub cancel_confirmation: bool,
    pub picker: Option<Picker>,
    pub numeric_edit: Option<NumericEdit>,
    /// The jobs of a reviewed plan, waiting for Start.
    pub prepared: Option<Vec<PreparedJob>>,
    /// Whether a worker is running the queue.
    pub worker_running: bool,
    /// Work the host owes the machine, oldest first.
    pub effects: Vec<Effect>,
}

pub const BEGIN_MESSAGE: &'static str = "Select one or more video files to begin.";

pub const NEED_INPUTS_MESSAGE: &'static str = "Select one or more video files first.";

pub const NEED_OUTPUT_MESSAGE: &'static str = "Select an output folder first.";

pub const UNAVAILABLE_SUFFIX: &'static str = " is not available in this FFmpeg build.";

pub const DUPLICATE_OUTPUT_MESSAGE: &'static str = "Another selected file writes the same output.";

pub const OUTPUT_SUFFIX: &'static str = "-transcode.";

pub open spec fn opt_text(o: Option<String>) -> Option<Seq<char>> {
    match o {
        Some(s) => Some(s@),
        None => None,
    }
}

/// Whether `o` holds exactly the text `t`.
pub open spec fn shows(o: Option<String>, t: Seq<char>) -> bool {
    o matches Some(s) && s@ == t
}

/// Whether `p` is, as a path, one of `s`.
pub open spec fn has_path(s: Seq<Seq<char>>, p: Seq<char>) -> bool {
    exists|i: int| 0 <= i < s.len() && std_path_eq(p, s[i])
}

/// The paths with every repeat of an earlier one left out.
pub open spec fn dedup_paths(s: Seq<Seq<char>>) -> Seq<Seq<char>>
    decreases s.len(),
{
    if s.len() == 0 {
        Seq::empty()
    } else {
        let d = dedup_paths(s.drop_last());
        if has_path(d, s.last()) {
            d
        } else {
            d.push(s.last())
        }
    }
}

/// Where the entry for `input` sits among the probe results.
pub open spec fn probe_index(probes: Seq<ProbeEntry>, input: Seq<char>) -> Option<int>
    decreases probes.len(),
{
    if probes.len() == 0 {
        None
    } else if std_path_eq(input, probes[0].input@) {
        Some(0)
    } else {
        match probe_index(probes.drop_first(), input) {
            Some(i) => Some(i + 1),
            None => None,
        }
    }
}

/// The probe results of the inputs in `keep`.
pub open spec fn retained(probes: Seq<ProbeEntry>, keep: Seq<Seq<char>>) -> Seq<ProbeEntry>
    decreases probes.len(),
{
    if probes.len() == 0 {
        Seq::empty()
    } else {
        let r = retained(probes.drop_last(), keep);
        if has_path(keep, probes.last().input@) {
            r.push(probes.last())
        } else {
            r
        }
    }
}

/// The inputs that have no probe result yet, in order.
pub open spec fn unprobed(inputs: Seq<Seq<char>>, probes: Seq<ProbeEntry>) -> Seq<Seq<char>>
    decreases inputs.len(),
{
    if inputs.len() == 0 {
        Seq::empty()
    } else {
        let r = unprobed(inputs.drop_last(), probes);
        if probe_index(probes, inputs.last()) is None {
            r.push(inputs.last())
        } else {
            r
        }
    }
}

pub open spec fn media_of(probes: Seq<ProbeEntry>, input: Seq<char>) -> Option<InputMedia> {
    match probe_index(probes, input) {
        Some(i) => match probes[i].result {
            Ok(m) => Some(m),
            Err(_) => None,
        },
        None => None,
    }
}

pub open spec fn probe_error_of(probes: Seq<ProbeEntry>, input: Seq<char>) -> Option<Seq<char>> {
    match probe_index(probes, input) {
        Some(i) => match probes[i].result {
            Ok(_) => None,
            Err(e) => Some(e@),
        },
        None => None,
    }
}

/// The name a file goes by in messages: its file name, or the whole path.
pub open spec fn label_of(input: Seq<char>) -> Seq<char> {
    match std_path_file_name(input) {
        Some(name) => name,
        None => input,
    }
}

/// `<source name>-transcode.<extension>`.
pub open spec fn output_name(input: Seq<char>, container: Container) -> Seq<char> {
    let stem = match std_path_file_stem(input) {
        Some(s) => s,
        None => "output"@,
    };
    stem + OUTPUT_SUFFIX@ + container.extension_text()
}

/// A batch output is named after its source: the source's stem (or `output`
/// when it has none), then `-transcode`, then a dot and the container's
/// extension.
pub proof fn lemma_output_name_shape(input: Seq<char>, container: Container)
    ensures
        ({
            let stem = match std_path_file_stem(input) {
                Some(s) => s,
                None => "output"@,
            };
            let name = output_name(input, container);
            let ext = container.extension_text();
            &&& name.take(stem.len() as int) == stem
            &&& name.subrange(stem.len() as int, stem.len() as int + 10) == "-transcode"@
            &&& name.len() == stem.len() + 11 + ext.len()
            &&& name.skip(stem.len() as int + 10) == "."@ + ext
        }),
{
    reveal_strlit("-transcode.");
    reveal_strlit("-transcode");
    reveal_strlit(".");
    let stem = match std_path_file_stem(input) {
        Some(s) => s,
        None => "output"@,
    };
    let ext = container.extension_text();
    let name = output_name(input, container);
    assert(OUTPUT_SUFFIX@ == "-transcode."@);
    assert(name == stem + "-transcode."@ + ext);
    assert(name.take(stem.len() as int) =~= stem);
    assert(name.subrange(stem.len() as int, stem.len() as int + 10) =~= "-transcode"@);
    assert(name.skip(stem.len() as int + 10) =~= "."@ + ext);
}

/// Where the file for `input` is written.
pub open spec fn output_for(folder: Option<Seq<char>>, input: Seq<char>, container: Container) -> Option<
    Seq<char>,
> {
    match folder {
        Some(f) => Some(std_path_join(f, output_name(input, container))),
        None => None,
    }
}

/// The first check the job for `input` fails: the checks of a draft that do
/// not read the disk, in their order.
pub open spec fn job_error(
    draft: DraftConfig,
    input: Seq<char>,
    output: Option<Seq<char>>,
    has_audio: bool,
) -> Option<ValidationError> {
    match output {
        None => Some(ValidationError::MissingOutput),
        Some(out) => if std_path_eq(input, out) {
            Some(ValidationError::SameInputAndOutput)
        } else if std_path_parent(out) is None {
            Some(ValidationError::InvalidOutputDirectory)
        } else if !video_allowed(draft.container, draft.video_codec) || !audio_allowed(
            draft.container,
            draft.audio_codec,
        ) {
            Some(ValidationError::IncompatibleCodecs)
        } else if !(100 <= draft.video_bitrate_kbps <= 200_000) {
            Some(ValidationError::InvalidVideoBitrate)
        } else if draft.audio_codec != AudioCodec::Silent && has_audio && !(32
            <= draft.audio_bitrate_kbps <= 512) {
            Some(ValidationError::InvalidAudioBitrate)
        } else {
            None
        },
    }
}

/// Whether `config` is the job for `input`, written to `output`, under `draft`.
pub open spec fn job_config(
    draft: DraftConfig,
    input: Seq<char>,
    output: Seq<char>,
    has_audio: bool,
    config: TranscodeConfig,
) -> bool {
    &&& config.input@ == input
    &&& config.output@ == output
    &&& config.container == draft.container
    &&& config.video_codec == draft.video_codec
    &&& config.audio_codec == (if has_audio {
        draft.audio_codec
    } else {
        AudioCodec::Silent
    })
    &&& config.resolution == draft.resolution
    &&& config.video_rate_control == crate::domain::draft_rate_control(draft)
    &&& config.audio_bitrate_kbps == draft.audio_bitrate_kbps
}

/// Whether `c` is the job for input `i` of `app`.
pub open spec fn job_ok(app: App, i: int, c: TranscodeConfig) -> bool {
    media_of(app.probes@, app.inputs@[i]@) matches Some(m) && job_config(
        app.draft,
        app.inputs@[i]@,
        output_for(opt_text(app.output_folder), app.inputs@[i]@, app.draft.container).unwrap(),
        m.audio is Some,
        c,
    )
}

/// Whether `cs` are the jobs for the inputs of `app`, in order.
pub open spec fn jobs_ok(app: App, cs: Seq<TranscodeConfig>) -> bool {
    &&& cs.len() == app.inputs@.len()
    &&& forall|i: int| 0 <= i < cs.len() ==> job_ok(app, i, #[trigger] cs[i])
}

pub open spec fn ready_text(count: nat) -> Seq<char> {
    if count == 1 {
        "Configuration is ready. Press Enter to review."@
    } else {
        decimal(count) + " files queued. Press Enter to review."@
    }
}

impl App {
    pub open spec fn input_paths(self) -> Seq<Seq<char>> {
        views(self.inputs@)
    }

    /// Every selected input has been read, successfully or not.
    pub open spec fn all_probed_spec(self) -> bool {
        forall|i: int| 0 <= i < self.inputs@.len() ==> probe_index(self.probes@, #[trigger] self.inputs@[i]@) is Some
    }

    pub open spec fn video_available(self) -> bool {
        self.toolchain.encoder_names().contains(self.draft.video_codec.encoder_text())
    }

    pub open spec fn audio_available(self) -> bool {
        match self.draft.audio_codec.encoder_text() {
            Some(name) => self.toolchain.encoder_names().contains(name),
            None => true,
        }
    }

    /// The first input, from `i` on, that could not be read, with the reason.
    pub open spec fn probe_failure(self, i: nat) -> Option<Seq<char>>
        decreases self.inputs@.len() - i,
    {
        if i >= self.inputs@.len() {
            None
        } else {
            let input = self.inputs@[i as int]@;
            match probe_error_of(self.probes@, input) {
                Some(e) => Some(label_of(input) + ": "@ + e),
                None => self.probe_failure(i + 1),
            }
        }
    }

    /// Whether the output of input `i` is, as a path, the output of an earlier input.
    pub open spec fn duplicate_before(self, out: Seq<char>, i: nat) -> bool {
        exists|j: int|
            0 <= j < i && #[trigger] media_of(self.probes@, self.inputs@[j]@) is Some && (output_for(
                opt_text(self.output_folder),
                self.inputs@[j]@,
                self.draft.container,
            ) matches Some(other) && std_path_eq(out, other))
    }

    /// The first job, from input `i` on, that the settings cannot produce.
    pub open spec fn queue_failure(self, i: nat) -> Option<Seq<char>>
        decreases self.inputs@.len() - i,
    {
        if i >= self.inputs@.len() {
            None
        } else {
            let input = self.inputs@[i as int]@;
            match media_of(self.probes@, input) {
                None => self.queue_failure(i + 1),
                Some(m) => {
                    let out = output_for(opt_text(self.output_folder), input, self.draft.container);
                    match job_error(self.draft, input, out, m.audio is Some) {
                        Some(e) => Some(label_of(input) + ": "@ + e.message_text()),
                        None => if self.duplicate_before(out.unwrap(), i) {
                            Some(label_of(input) + ": "@ + DUPLICATE_OUTPUT_MESSAGE@)
                        } else {
                            self.queue_failure(i + 1)
                        },
                    }
                },
            }
        }
    }

    /// Why the queue cannot run as configured, if it cannot.
    pub open spec fn validation_text(self) -> Option<Seq<char>> {
        if !self.video_available() {
            Some(self.draft.video_codec.encoder_text() + UNAVAILABLE_SUFFIX@)
        } else if !self.audio_available() {
            Some(
                match self.draft.audio_codec.encoder_text() {
                    Some(name) => name,
                    None => "audio encoder"@,
                } + UNAVAILABLE_SUFFIX@,
            )
        } else {
            match self.probe_failure(0) {
                Some(t) => Some(t),
                None => self.queue_failure(0),
            }
        }
    }

    /// The status line once every input is read.
    pub open spec fn ready_status(self) -> Seq<char> {
        match self.validation_text() {
            Some(t) => t,
            None => ready_text(self.inputs@.len()),
        }
    }

    /// `q` is this state with the ready message brought up to date.
    pub open spec fn refreshed(self, q: App) -> bool {
        if self.inputs@.len() == 0 || !self.all_probed_spec() {
            q == self
        } else {
            q == App { status_message: q.status_message, ..self } && shows(
                q.status_message,
                self.ready_status(),
            )
        }
    }

    /// `q` is this state with the prepared plan dropped.
    pub open spec fn plan_dropped(self, q: App) -> bool {
        &&& q.prepared is None
        &&& q.command_preview is None
        &&& q.queue@.len() == 0
    }
}

/// How many of the first `n` inputs were read successfully.
/// The media of the first `n` inputs that were read successfully, in order.
pub open spec fn probed_seq(inputs: Seq<String>, probes: Seq<ProbeEntry>, n: nat) -> Seq<InputMedia>
    decreases n,
{
    if n == 0 {
        Seq::empty()
    } else {
        let rest = probed_seq(inputs, probes, (n - 1) as nat);
        match media_of(probes, inputs[n - 1]@) {
            Some(m) => rest.push(m),
            None => rest,
        }
    }
}

pub open spec fn probed_upto(inputs: Seq<String>, probes: Seq<ProbeEntry>, n: nat) -> nat
    decreases n,
{
    if n == 0 {
        0
    } else {
        probed_upto(inputs, probes, (n - 1) as nat) + if media_of(probes, inputs[n - 1]@) is Some {
            1nat
        } else {
            0nat
        }
    }
}

/// How many of the first `n` inputs could not be read.
pub open spec fn failed_upto(inputs: Seq<String>, probes: Seq<ProbeEntry>, n: nat) -> nat
    decreases n,
{
    if n == 0 {
        0
    } else {
        failed_upto(inputs, probes, (n - 1) as nat) + if probe_error_of(probes, inputs[n - 1]@) is Some {
            1nat
        } else {
            0nat
        }
    }
}

pub open spec fn is_succeeded(outcome: JobOutcome) -> bool {
    outcome is Succeeded
}

pub open spec fn is_failed(outcome: JobOutcome) -> bool {
    outcome is Failed
}

/// How many of the first `n` records were converted.
pub open spec fn succeeded_upto(queue: Seq<JobRecord>, n: nat) -> nat
    decreases n,
{
    if n == 0 {
        0
    } else {
        succeeded_upto(queue, (n - 1) as nat) + if is_succeeded(queue[n - 1].outcome) {
            1nat
        } else {
            0nat
        }
    }
}

/// How many of the first `n` records failed.
pub open spec fn failed_records_upto(queue: Seq<JobRecord>, n: nat) -> nat
    decreases n,
{
    if n == 0 {
        0
    } else {
        failed_records_upto(queue, (n - 1) as nat) + if is_failed(queue[n - 1].outcome) {
            1nat
        } else {
            0nat
        }
    }
}

proof fn lemma_probe_found(probes: Seq<ProbeEntry>, input: Seq<char>, k: int)
    requires
        0 <= k < probes.len(),
        std_path_eq(input, probes[k].input@),
        forall|m: int| 0 <= m < k ==> !std_path_eq(input, #[trigger] probes[m].input@),
    ensures
        probe_index(probes, input) == Some(k),
    decreases k,
{
    if k > 0 {
        let rest = probes.drop_first();
        assert forall|m: int| 0 <= m < k - 1 implies !std_path_eq(input, #[trigger] rest[m].input@) by {
            assert(rest[m] == probes[m + 1]);
        }
        lemma_probe_found(rest, input, k - 1);
    }
}

proof fn lemma_probe_missing(probes: Seq<ProbeEntry>, input: Seq<char>)
    requires
        forall|m: int| 0 <= m < probes.len() ==> !std_path_eq(input, #[trigger] probes[m].input@),
    ensures
        probe_index(probes, input) is None,
    decreases probes.len(),
{
    if probes.len() > 0 {
        let rest = probes.drop_first();
        assert forall|m: int| 0 <= m < rest.len() implies !std_path_eq(input, #[trigger] rest[m].input@) by {
            assert(rest[m] == probes[m + 1]);
        }
        lemma_probe_missing(rest, input);
    }
}

proof fn lemma_probe_index_bounds(probes: Seq<ProbeEntry>, input: Seq<char>)
    ensures
        probe_index(probes, input) matches Some(i) ==> 0 <= i < probes.len() && std_path_eq(
            input,
            probes[i].input@,
        ),
    decreases probes.len(),
{
    if probes.len() > 0 {
        lemma_probe_index_bounds(probes.drop_first(), input);
    }
}

/// Where `input` sits among the probe results, compared as paths.
fn find_probe(probes: &Vec<ProbeEntry>, input: &str) -> (r: Option<usize>)
    ensures
        match r {
            Some(i) => probe_index(probes@, input@) == Some(i as int) && i < probes@.len(),
            None => probe_index(probes@, input@) is None,
        },
{
    let mut i: usize = 0;
    while i < probes.len()
        invariant
            i <= probes.len(),
            forall|m: int| 0 <= m < i ==> !std_path_eq(input@, #[trigger] probes@[m].input@),
        decreases probes.len() - i,
    {
        if same_path(input, probes[i].input.as_str()) {
            proof {
                lemma_probe_found(probes@, input@, i as int);
            }
            return Some(i);
        }
        i = i + 1;
    }
    proof {
        lemma_probe_missing(probes@, input@);
    }
    None
}

/// The name a file goes by in messages.
pub fn file_label(input: &str) -> (r: String)
    ensures
        r@ == label_of(input@),
{
    match file_name(input) {
        Some(name) => name,
        None => owned(input),
    }
}

impl App {
    /// A fresh session: nothing selected, the folder card showing.
    pub fn new(toolchain: Toolchain) -> (r: App)
        ensures
            r.toolchain == toolchain,
            crate::domain::is_default_draft(r.draft),
            r.inputs@.len() == 0,
            r.output_folder is None,
            r.probes@.len() == 0,
            r.input_folder is None,
            r.screen == Screen::Folders,
            r.job is Idle,
            r.queue@.len() == 0,
            r.focus == ConfigField::Input,
            r.button_focus is None,
            r.hover is None,
            shows(r.status_message, BEGIN_MESSAGE@),
            r.stderr_tail@.len() == 0,
            r.review_scroll == 0,
            r.progress_scroll == 0,
            r.progress_follow,
            !r.progress_scroll_from_top,
            r.command_preview is None,
            !r.help_visible,
            !r.cancel_confirmation,
            r.picker is None,
            r.numeric_edit is None,
            r.prepared is None,
            !r.worker_running,
            r.effects@.len() == 0,
    {
        App {
            toolchain,
            draft: DraftConfig::default(),
            inputs: Vec::new(),
            output_folder: None,
            probes: Vec::new(),
            input_folder: None,
            screen: Screen::Folders,
            job: JobState::Idle,
            queue: Vec::new(),
            focus: ConfigField::Input,
            button_focus: None,
            hover: None,
            status_message: Some(owned(BEGIN_MESSAGE)),
            stderr_tail: Vec::new(),
            review_scroll: 0,
            progress_scroll: 0,
            progress_follow: true,
            progress_scroll_from_top: false,
            command_preview: None,
            help_visible: false,
            cancel_confirmation: false,
            picker: None,
            numeric_edit: None,
            prepared: None,
            worker_running: false,
            effects: Vec::new(),
        }
    }

    /// The probed streams of one selected input.
    pub fn media_for(&self, input: &str) -> (r: Option<&InputMedia>)
        ensures
            match r {
                Some(m) => media_of(self.probes@, input@) == Some(*m),
                None => media_of(self.probes@, input@) is None,
            },
    {
        match find_probe(&self.probes, input) {
            Some(i) => match &self.probes[i].result {
                Ok(media) => Some(media),
                Err(_) => None,
            },
            None => None,
        }
    }

    /// The media of the one selected input, when exactly one is selected and read.
    pub fn single_media(&self) -> (r: Option<&InputMedia>)
        ensures
            match r {
                Some(m) => self.inputs@.len() == 1 && media_of(self.probes@, self.inputs@[0]@) == Some(*m),
                None => self.inputs@.len() != 1 || media_of(self.probes@, self.inputs@[0]@) is None,
            },
    {
        if self.inputs.len() == 1 {
            self.media_for(self.inputs[0].as_str())
        } else {
            None
        }
    }

    /// Every input that was read successfully, in selection order.
    pub fn probed_media(&self) -> (r: Vec<&InputMedia>)
        ensures
            r@.map_values(|m: &InputMedia| *m) == probed_seq(self.inputs@, self.probes@, self.inputs@.len() as nat),
    {
        let mut r: Vec<&InputMedia> = Vec::new();
        let mut i: usize = 0;
        while i < self.inputs.len()
            invariant
                i <= self.inputs@.len(),
                r@.map_values(|m: &InputMedia| *m) == probed_seq(self.inputs@, self.probes@, i as nat),
            decreases self.inputs.len() - i,
        {
            let ghost before = r@;
            match self.media_for(self.inputs[i].as_str()) {
                Some(m) => {
                    r.push(m);
                    assert(r@.map_values(|m: &InputMedia| *m) =~= before.map_values(|m: &InputMedia| *m).push(*m));
                },
                None => {},
            }
            i = i + 1;
        }
        r
    }

    /// The bitrate being typed, with the row it is for.
    pub fn numeric_edit_value(&self) -> (r: Option<(&str, ConfigField)>)
        ensures
            match self.numeric_edit {
                Some(edit) => r matches Some((value, field)) && value@ == edit.buffer@ && field == edit.field,
                None => r is None,
            },
    {
        match &self.numeric_edit {
            Some(edit) => Some((edit.buffer.as_str(), edit.field)),
            None => None,
        }
    }

    /// Where the output picker starts, and the file name it suggests (none:
    /// it picks a folder). `home` is the host's home directory, the last resort.
    pub fn output_picker_info(&self, home: Option<String>) -> (r: (Option<String>, Option<String>))
        ensures
            opt_text(r.0) == (match opt_text(self.output_folder) {
                Some(f) => Some(f),
                None => match opt_text(self.input_folder) {
                    Some(f) => Some(f),
                    None => match first_input_dir(self.input_paths()) {
                        Some(d) => Some(d),
                        None => opt_text(home),
                    },
                },
            }),
            r.1 is None,
    {
        let directory = match self.output_picker_start() {
            Some(d) => Some(d),
            None => home,
        };
        (directory, None)
    }

    /// Why one selected input could not be read.
    pub fn probe_error_for(&self, input: &str) -> (r: Option<&String>)
        ensures
            opt_text(
                match r {
                    Some(e) => Some(*e),
                    None => None,
                },
            ) == probe_error_of(self.probes@, input@),
    {
        match find_probe(&self.probes, input) {
            Some(i) => match &self.probes[i].result {
                Ok(_) => None,
                Err(error) => Some(error),
            },
            None => None,
        }
    }

    /// Whether every selected input has been read.
    pub fn all_probed(&self) -> (r: bool)
        ensures
            r == self.all_probed_spec(),
    {
        let mut i: usize = 0;
        while i < self.inputs.len()
            invariant
                i <= self.inputs.len(),
                forall|k: int| 0 <= k < i ==> probe_index(self.probes@, #[trigger] self.inputs@[k]@) is Some,
            decreases self.inputs.len() - i,
        {
            if find_probe(&self.probes, self.inputs[i].as_str()).is_none() {
                return false;
            }
            i = i + 1;
        }
        true
    }

    /// How many inputs were read successfully.
    pub fn probed_count(&self) -> (r: usize)
        ensures
            r == probed_upto(self.inputs@, self.probes@, self.inputs@.len() as nat),
    {
        let mut count: usize = 0;
        let mut i: usize = 0;
        while i < self.inputs.len()
            invariant
                i <= self.inputs.len(),
                count == probed_upto(self.inputs@, self.probes@, i as nat),
                count <= i,
            decreases self.inputs.len() - i,
        {
            if self.media_for(self.inputs[i].as_str()).is_some() {
                count = count + 1;
            }
            i = i + 1;
        }
        count
    }

    /// How many inputs could not be read.
    pub fn failed_probe_count(&self) -> (r: usize)
        ensures
            r == failed_upto(self.inputs@, self.probes@, self.inputs@.len() as nat),
    {
        let mut count: usize = 0;
        let mut i: usize = 0;
        while i < self.inputs.len()
            invariant
                i <= self.inputs.len(),
                count == failed_upto(self.inputs@, self.probes@, i as nat),
                count <= i,
            decreases self.inputs.len() - i,
        {
            if self.probe_error_for(self.inputs[i].as_str()).is_some() {
                count = count + 1;
            }
            i = i + 1;
        }
        count
    }

    /// How many files of the queue were converted.
    pub fn succeeded_count(&self) -> (r: usize)
        ensures
            r == succeeded_upto(self.queue@, self.queue@.len() as nat),
    {
        let mut count: usize = 0;
        let mut i: usize = 0;
        while i < self.queue.len()
            invariant
                i <= self.queue.len(),
                count == succeeded_upto(self.queue@, i as nat),
                count <= i,
            decreases self.queue.len() - i,
        {
            if let JobOutcome::Succeeded { .. } = self.queue[i].outcome {
                count = count + 1;
            }
            i = i + 1;
        }
        count
    }

    /// How many files of the queue failed.
    pub fn failed_count(&self) -> (r: usize)
        ensures
            r == failed_records_upto(self.queue@, self.queue@.len() as nat),
    {
        let mut count: usize = 0;
        let mut i: usize = 0;
        while i < self.queue.len()
            invariant
                i <= self.queue.len(),
                count == failed_records_upto(self.queue@, i as nat),
                count <= i,
            decreases self.queue.len() - i,
        {
            if let JobOutcome::Failed(_) = self.queue[i].outcome {
                count = count + 1;
            }
            i = i + 1;
        }
        count
    }

    /// Whether any probed input carries audio.
    fn any_probed_audio(&self) -> (r: bool)
        ensures
            r == exists|i: int|
                0 <= i < self.inputs@.len() && (#[trigger] media_of(self.probes@, self.inputs@[i]@) matches Some(
                    m,
                ) && m.audio is Some),
    {
        let mut i: usize = 0;
        while i < self.inputs.len()
            invariant
                i <= self.inputs.len(),
                forall|k: int|
                    0 <= k < i ==> !(#[trigger] media_of(self.probes@, self.inputs@[k]@) matches Some(
                        m,
                    ) && m.audio is Some),
            decreases self.inputs.len() - i,
        {
            match self.media_for(self.inputs[i].as_str()) {
                Some(media) => {
                    if media.audio.is_some() {
                        return true;
                    }
                },
                None => {},
            }
            i = i + 1;
        }
        false
    }

    /// True while the audio bitrate row means something: an audio codec is
    /// chosen and some source carries audio, or nothing has been read yet.
    pub fn audio_bitrate_enabled(&self) -> (r: bool)
        ensures
            r == (self.draft.audio_codec != AudioCodec::Silent && (probed_upto(
                self.inputs@,
                self.probes@,
                self.inputs@.len() as nat,
            ) == 0 || exists|i: int|
                0 <= i < self.inputs@.len() && (#[trigger] media_of(self.probes@, self.inputs@[i]@) matches Some(
                    m,
                ) && m.audio is Some))),
    {
        self.draft.audio_codec != AudioCodec::Silent && (self.probed_count() == 0
            || self.any_probed_audio())
    }

    /// True once every source read so far is known to be silent, and there is one.
    pub fn all_sources_silent(&self) -> (r: bool)
        ensures
            r == (probed_upto(self.inputs@, self.probes@, self.inputs@.len() as nat) > 0 && !exists|
                i: int,
            |
                0 <= i < self.inputs@.len() && (#[trigger] media_of(self.probes@, self.inputs@[i]@) matches Some(
                    m,
                ) && m.audio is Some)),
    {
        self.probed_count() > 0 && !self.any_probed_audio()
    }
}

/// The output name for `input`.
fn output_name_of(input: &str, container: Container) -> (r: String)
    ensures
        r@ == output_name(input@, container),
{
    let mut name = match file_stem(input) {
        Some(stem) => stem,
        None => owned("output"),
    };
    push_str(&mut name, OUTPUT_SUFFIX);
    push_str(&mut name, container.extension());
    name
}

/// Where the file for `input` is written, when an output folder is chosen.
pub fn output_path_for(folder: &Option<String>, input: &str, container: Container) -> (r: Option<String>)
    ensures
        opt_text(r) == output_for(opt_text(*folder), input@, container),
{
    match folder {
        Some(f) => Some(join(f.as_str(), output_name_of(input, container).as_str())),
        None => None,
    }
}

fn copy_opt(o: &Option<String>) -> (r: Option<String>)
    ensures
        r == *o,
{
    match o {
        Some(s) => Some(s.clone()),
        None => None,
    }
}

/// `label: detail`, the form of every per-file message.
fn labelled(input: &str, detail: &str) -> (r: String)
    ensures
        r@ == label_of(input@) + ": "@ + detail@,
{
    let mut r = file_label(input);
    push_str(&mut r, ": ");
    push_str(&mut r, detail);
    r
}

/// The draft built for one job fails the checks `job_error` names, and yields
/// the configuration `job_config` describes.
proof fn lemma_job_draft(
    settings: DraftConfig,
    job: DraftConfig,
    input: Seq<char>,
    out: Option<Seq<char>>,
    has_audio: bool,
    facts: PathFacts,
)
    requires
        job.input matches Some(s) && s@ == input,
        opt_text(job.output) == out,
        job.container == settings.container,
        job.video_codec == settings.video_codec,
        job.audio_codec == settings.audio_codec,
        job.resolution == settings.resolution,
        job.rate_control_mode == settings.rate_control_mode,
        job.quality == settings.quality,
        job.video_bitrate_kbps == settings.video_bitrate_kbps,
        job.audio_bitrate_kbps == settings.audio_bitrate_kbps,
        facts.input_exists,
        !facts.output_exists,
        facts.output_parent_is_dir,
    ensures
        validation_error(job, has_audio, facts) == job_error(settings, input, out, has_audio),
        forall|c: TranscodeConfig|
            config_from_draft(job, has_audio, c) ==> job_config(settings, input, out.unwrap(), has_audio, c),
{
}

proof fn lemma_probe_failure_none(app: App, i: nat)
    requires
        app.probe_failure(i) is None,
    ensures
        forall|k: int| i <= k < app.inputs@.len() ==> probe_error_of(app.probes@, #[trigger] app.inputs@[k]@) is None,
    decreases app.inputs@.len() - i,
{
    if i < app.inputs@.len() {
        lemma_probe_failure_none(app, i + 1);
    }
}

impl App {
    /// The jobs the queue would run, or why it cannot run. Only the checks that
    /// need no disk are made here; the disk speaks when the outputs are reserved.
    fn validated_configs(&self) -> (r: Result<Vec<TranscodeConfig>, String>)
        requires
            self.all_probed_spec(),
        ensures
            match r {
                Err(t) => self.validation_text() == Some(t@),
                Ok(cs) => self.validation_text() is None && jobs_ok(*self, cs@),
            },
    {
        if !self.toolchain.supports_video(self.draft.video_codec) {
            let mut t = owned(self.draft.video_codec.encoder());
            push_str(&mut t, UNAVAILABLE_SUFFIX);
            return Err(t);
        }
        if !self.toolchain.supports_audio(self.draft.audio_codec) {
            let mut t = match self.draft.audio_codec.encoder() {
                Some(name) => owned(name),
                None => owned("audio encoder"),
            };
            push_str(&mut t, UNAVAILABLE_SUFFIX);
            return Err(t);
        }
        // A file that could not be read blocks the queue instead of being
        // dropped from it.
        let n = self.inputs.len();
        let mut i: usize = 0;
        while i < n
            invariant
                i <= n,
                n == self.inputs@.len(),
                self.probe_failure(0) == self.probe_failure(i as nat),
                self.video_available(),
                self.audio_available(),
            decreases n - i,
        {
            match self.probe_error_for(self.inputs[i].as_str()) {
                Some(error) => {
                    let t = labelled(self.inputs[i].as_str(), error.as_str());
                    assert(self.probe_failure(i as nat) == Some(t@));
                    return Err(t);
                },
                None => {},
            }
            i = i + 1;
        }
        proof {
            lemma_probe_failure_none(*self, 0);
        }
        let facts = PathFacts { input_exists: true, output_exists: false, output_parent_is_dir: true };
        let mut configs: Vec<TranscodeConfig> = Vec::new();
        let mut outputs: Vec<String> = Vec::new();
        let mut i: usize = 0;
        while i < n
            invariant
                i <= n,
                n == self.inputs@.len(),
                self.probe_failure(0) is None,
                self.all_probed_spec(),
                self.video_available(),
                self.audio_available(),
                facts == (PathFacts { input_exists: true, output_exists: false, output_parent_is_dir: true }),
                forall|k: int| 0 <= k < n ==> probe_error_of(self.probes@, #[trigger] self.inputs@[k]@) is None,
                self.queue_failure(0) == self.queue_failure(i as nat),
                configs@.len() == i,
                outputs@.len() == i,
                forall|k: int|
                    0 <= k < i ==> (media_of(self.probes@, self.inputs@[k]@) matches Some(m) && job_config(
                        self.draft,
                        self.inputs@[k]@,
                        output_for(opt_text(self.output_folder), self.inputs@[k]@, self.draft.container).unwrap(),
                        m.audio is Some,
                        #[trigger] configs@[k],
                    )),
                forall|k: int|
                    0 <= k < i ==> output_for(opt_text(self.output_folder), self.inputs@[k]@, self.draft.container)
                        == Some((#[trigger] outputs@[k])@),
            decreases n - i,
        {
            let input = &self.inputs[i];
            proof {
                assert(probe_index(self.probes@, self.inputs@[i as int]@) is Some);
                assert(probe_error_of(self.probes@, self.inputs@[i as int]@) is None);
                lemma_probe_index_bounds(self.probes@, self.inputs@[i as int]@);
            }
            let media = match self.media_for(input.as_str()) {
                Some(m) => m,
                None => {
                    return Err(owned(""));
                },
            };
            let out = output_path_for(&self.output_folder, input.as_str(), self.draft.container);
            let draft = DraftConfig {
                input: Some(input.clone()),
                output: copy_opt(&out),
                container: self.draft.container,
                video_codec: self.draft.video_codec,
                audio_codec: self.draft.audio_codec,
                resolution: self.draft.resolution,
                rate_control_mode: self.draft.rate_control_mode,
                quality: self.draft.quality,
                video_bitrate_kbps: self.draft.video_bitrate_kbps,
                audio_bitrate_kbps: self.draft.audio_bitrate_kbps,
            };
            proof {
                lemma_job_draft(
                    self.draft,
                    draft,
                    input@,
                    opt_text(out),
                    media.audio is Some,
                    facts,
                );
            }
            match draft.validated(media, &facts) {
                Err(error) => {
                    let t = labelled(input.as_str(), error.message());
                    assert(self.queue_failure(i as nat) == Some(t@));
                    return Err(t);
                },
                Ok(config) => {
                    let out_path = match out {
                        Some(o) => o,
                        None => {
                            return Err(owned(""));
                        },
                    };
                    let mut j: usize = 0;
                    while j < outputs.len()
                        invariant
                            j <= outputs@.len(),
                            outputs@.len() == i,
                            forall|k: int| 0 <= k < j ==> !std_path_eq(out_path@, #[trigger] outputs@[k]@),
                            i < n,
                            n == self.inputs@.len(),
                            self.queue_failure(0) == self.queue_failure(i as nat),
                            out_path@ == output_for(opt_text(self.output_folder), self.inputs@[i as int]@, self.draft.container).unwrap(),
                            output_for(opt_text(self.output_folder), self.inputs@[i as int]@, self.draft.container) is Some,
                            media_of(self.probes@, self.inputs@[i as int]@) == Some(*media),
                            job_error(self.draft, self.inputs@[i as int]@, output_for(opt_text(self.output_folder), self.inputs@[i as int]@, self.draft.container), media.audio is Some) is None,
                            forall|k: int|
                                0 <= k < i ==> (media_of(self.probes@, self.inputs@[k]@) matches Some(m) && job_config(
                                    self.draft,
                                    self.inputs@[k]@,
                                    output_for(opt_text(self.output_folder), self.inputs@[k]@, self.draft.container).unwrap(),
                                    m.audio is Some,
                                    #[trigger] configs@[k],
                                )),
                            forall|k: int|
                                0 <= k < i ==> output_for(opt_text(self.output_folder), self.inputs@[k]@, self.draft.container)
                                    == Some((#[trigger] outputs@[k])@),
                            configs@.len() == i,
                            self.all_probed_spec(),
                            forall|k: int| 0 <= k < n ==> probe_error_of(self.probes@, #[trigger] self.inputs@[k]@) is None,
                            self.video_available(),
                            self.audio_available(),
                            self.probe_failure(0) is None,
                            *input == self.inputs@[i as int],
                        decreases outputs.len() - j,
                    {
                        if same_path(out_path.as_str(), outputs[j].as_str()) {
                            let t = labelled(input.as_str(), DUPLICATE_OUTPUT_MESSAGE);
                            proof {
                                assert(probe_index(self.probes@, self.inputs@[j as int]@) is Some);
                                assert(probe_error_of(self.probes@, self.inputs@[j as int]@) is None);
                                assert(media_of(self.probes@, self.inputs@[j as int]@) is Some);
                                assert(outputs@[j as int]@ == output_for(opt_text(self.output_folder), self.inputs@[j as int]@, self.draft.container).unwrap());
                                assert(self.duplicate_before(out_path@, i as nat));
                                assert(self.queue_failure(i as nat) == Some(t@));
                            }
                            return Err(t);
                        }
                        j = j + 1;
                    }
                    proof {
                        if self.duplicate_before(out_path@, i as nat) {
                            let k = choose|k: int|
                                0 <= k < i && #[trigger] media_of(self.probes@, self.inputs@[k]@) is Some && (output_for(
                                    opt_text(self.output_folder),
                                    self.inputs@[k]@,
                                    self.draft.container,
                                ) matches Some(other) && std_path_eq(out_path@, other));
                            assert(outputs@[k]@ == output_for(opt_text(self.output_folder), self.inputs@[k]@, self.draft.container).unwrap());
                        }
                    }
                    outputs.push(out_path);
                    configs.push(config);
                },
            }
            i = i + 1;
        }
        Ok(configs)
    }
}

/// The output folder after the selection became `inputs`: a folder already
/// chosen stays; otherwise the first input's folder, the saved source folder,
/// or the working directory.
pub open spec fn refreshed_output(
    inputs: Seq<Seq<char>>,
    current: Option<Seq<char>>,
    input_folder: Option<Seq<char>>,
) -> Option<Seq<char>> {
    if inputs.len() == 0 {
        None
    } else {
        match current {
            Some(f) => Some(f),
            None => match std_path_parent(inputs[0]) {
                Some(up) => if up.len() > 0 {
                    Some(up)
                } else {
                    match input_folder {
                        Some(f) => Some(f),
                        None => Some("."@),
                    }
                },
                None => match input_folder {
                    Some(f) => Some(f),
                    None => Some("."@),
                },
            },
        }
    }
}

/// The folder of the first input, `.` for a bare file name.
pub open spec fn first_input_dir(inputs: Seq<Seq<char>>) -> Option<Seq<char>> {
    if inputs.len() == 0 {
        None
    } else {
        match std_path_parent(inputs[0]) {
            Some(up) => if up.len() == 0 {
                Some("."@)
            } else {
                Some(up)
            },
            None => None,
        }
    }
}

/// `effects` with one more entry at the end.
pub open spec fn appended(before: Seq<Effect>, after: Seq<Effect>) -> bool {
    &&& after.len() == before.len() + 1
    &&& after.take(before.len() as int) == before
}

impl App {
    /// `q` is this state after the selection became `paths`, each path once.
    pub open spec fn selects(self, q: App, paths: Seq<Seq<char>>) -> bool {
        let d = dedup_paths(paths);
        let kept = retained(self.probes@, d);
        let pending = unprobed(d, kept);
        &&& q == App {
            inputs: q.inputs,
            probes: q.probes,
            prepared: None,
            command_preview: None,
            queue: q.queue,
            output_folder: q.output_folder,
            job: q.job,
            status_message: q.status_message,
            effects: q.effects,
            ..self
        }
        &&& views(q.inputs@) == d
        &&& q.probes@ == kept
        &&& q.queue@.len() == 0
        &&& opt_text(q.output_folder) == refreshed_output(
            d,
            opt_text(self.output_folder),
            opt_text(self.input_folder),
        )
        &&& if d.len() == 0 {
            &&& q.job is Idle
            &&& shows(q.status_message, BEGIN_MESSAGE@)
            &&& q.effects == self.effects
        } else if pending.len() == 0 {
            &&& q.job is Ready
            &&& shows(q.status_message, q.ready_status())
            &&& q.effects == self.effects
        } else {
            &&& q.job is Probing
            &&& shows(q.status_message, probing_text(pending.len()))
            &&& appended(self.effects@, q.effects@)
            &&& (q.effects@.last() matches Effect::Probe(v) && views(v@) == pending)
        }
    }

    /// `q` is this state after the probe result for `input` arrived.
    pub open spec fn takes_probe(
        self,
        q: App,
        input: String,
        result: Result<InputMedia, String>,
    ) -> bool {
        let probes = match probe_index(self.probes@, input@) {
            Some(i) => self.probes@.update(
                i,
                ProbeEntry { input: self.probes@[i].input, result: result },
            ),
            None => self.probes@.push(ProbeEntry { input: input, result: result }),
        };
        let mid = App { probes: q.probes, job: q.job, ..self };
        &&& q.probes@ == probes
        &&& q.job == (if self.job is Probing && mid.all_probed_spec() {
            JobState::Ready
        } else {
            self.job
        })
        &&& if q.job is Probing {
            &&& q == App { status_message: q.status_message, ..mid }
            &&& shows(
                q.status_message,
                probing_text(
                    if self.inputs@.len() >= probes.len() {
                        (self.inputs@.len() - probes.len()) as nat
                    } else {
                        0
                    },
                ),
            )
        } else {
            mid.refreshed(q)
        }
    }
}

/// Two states that agree on what validation reads.
pub open spec fn same_plan_inputs(a: App, b: App) -> bool {
    &&& a.inputs == b.inputs
    &&& a.probes == b.probes
    &&& a.output_folder == b.output_folder
    &&& a.draft == b.draft
    &&& a.toolchain == b.toolchain
}

proof fn lemma_same_failures(a: App, b: App, i: nat)
    requires
        same_plan_inputs(a, b),
    ensures
        a.probe_failure(i) == b.probe_failure(i),
        a.queue_failure(i) == b.queue_failure(i),
    decreases a.inputs@.len() - i,
{
    if i < a.inputs@.len() {
        lemma_same_failures(a, b, i + 1);
        assert(a.duplicate_before(
            output_for(opt_text(a.output_folder), a.inputs@[i as int]@, a.draft.container).unwrap(),
            i,
        ) == b.duplicate_before(
            output_for(opt_text(b.output_folder), b.inputs@[i as int]@, b.draft.container).unwrap(),
            i,
        ));
    }
}

/// Validation reads only the selection, the probe results, the output folder,
/// the settings and the toolchain.
proof fn lemma_same_validation(a: App, b: App)
    requires
        same_plan_inputs(a, b),
    ensures
        a.validation_text() == b.validation_text(),
        a.ready_status() == b.ready_status(),
        a.all_probed_spec() == b.all_probed_spec(),
{
    lemma_same_failures(a, b, 0);
}

proof fn lemma_unprobed_empty(inputs: Seq<Seq<char>>, probes: Seq<ProbeEntry>)
    requires
        unprobed(inputs, probes).len() == 0,
    ensures
        forall|i: int| 0 <= i < inputs.len() ==> probe_index(probes, #[trigger] inputs[i]) is Some,
    decreases inputs.len(),
{
    if inputs.len() > 0 {
        let rest = inputs.drop_last();
        if probe_index(probes, inputs.last()) is None {
            assert(unprobed(inputs, probes).len() > 0);
        }
        lemma_unprobed_empty(rest, probes);
        assert forall|i: int| 0 <= i < inputs.len() implies probe_index(probes, #[trigger] inputs[i]) is Some by {
            if i < inputs.len() - 1 {
                assert(inputs[i] == rest[i]);
            }
        }
    }
}

/// Whether `p` is, as a path, one of `list`.
fn path_among(list: &Vec<String>, p: &str) -> (r: bool)
    ensures
        r == has_path(views(list@), p@),
{
    let mut i: usize = 0;
    while i < list.len()
        invariant
            i <= list.len(),
            forall|k: int| 0 <= k < i ==> !std_path_eq(p@, #[trigger] views(list@)[k]),
        decreases list.len() - i,
    {
        if same_path(p, list[i].as_str()) {
            assert(std_path_eq(p@, views(list@)[i as int]));
            return true;
        }
        i = i + 1;
    }
    false
}

impl App {
    /// Why the queue cannot run, once every input is read.
    pub fn current_validation_error(&self) -> (r: Option<String>)
        ensures
            opt_text(r) == (if self.inputs@.len() == 0 || !self.all_probed_spec() {
                None
            } else {
                self.validation_text()
            }),
    {
        if self.inputs.len() == 0 || !self.all_probed() {
            return None;
        }
        match self.validated_configs() {
            Ok(_) => None,
            Err(text) => Some(text),
        }
    }

    /// Brings the ready message up to date once every input is read.
    fn refresh_ready_message(&mut self)
        ensures
            old(self).refreshed(*final(self)),
    {
        if self.inputs.len() == 0 || !self.all_probed() {
            return;
        }
        let text = match self.current_validation_error() {
            Some(error) => error,
            None => {
                let mut t = String::new();
                if self.inputs.len() == 1 {
                    push_str(&mut t, "Configuration is ready. Press Enter to review.");
                } else {
                    push_decimal(&mut t, self.inputs.len() as u64);
                    push_str(&mut t, " files queued. Press Enter to review.");
                }
                assert(t@ =~= ready_text(self.inputs@.len()));
                t
            },
        };
        self.status_message = Some(text);
    }

    /// Anything that changes the settings or the selection drops a plan built
    /// from the previous ones.
    fn invalidate_plan(&mut self)
        ensures
            *final(self) == (App {
                prepared: None,
                command_preview: None,
                queue: final(self).queue,
                ..*old(self)
            }),
            final(self).queue@.len() == 0,
    {
        self.prepared = None;
        self.command_preview = None;
        self.queue = Vec::new();
    }

    /// Surfaces a failure that happened outside the state machine.
    pub fn report_error(&mut self, message: String)
        ensures
            *final(self) == (App { status_message: Some(message), ..*old(self) }),
    {
        self.status_message = Some(message);
    }

    /// The quality row: the preset and the encoder setting it stands for.
    pub fn quality_label(&self) -> (r: String)
        ensures
            r@ == self.draft.quality.label_text() + " ("@ + (if crate::domain::quality_flag(
                self.draft.video_codec,
            ) == "-crf"@ {
                "CRF "@
            } else {
                "Q "@
            }) + decimal(
                crate::domain::quality_value(self.draft.video_codec, self.draft.quality) as nat,
            ) + ")"@,
    {
        let mut r = owned(self.draft.quality.label());
        push_str(&mut r, " (");
        let setting = quality_setting(self.draft.video_codec, self.draft.quality);
        let shown = setting.label();
        push_str(&mut r, shown.as_str());
        push_str(&mut r, ")");
        r
    }

    fn first_input_directory(&self) -> (r: Option<String>)
        ensures
            opt_text(r) == first_input_dir(self.input_paths()),
    {
        if self.inputs.len() == 0 {
            return None;
        }
        match parent(self.inputs[0].as_str()) {
            Some(up) => {
                if up.as_str().is_empty() {
                    Some(owned("."))
                } else {
                    Some(up)
                }
            },
            None => None,
        }
    }

    /// Every input writes into one folder: a chosen folder stays, otherwise the
    /// first input's folder is taken.
    fn refresh_output_target(&mut self)
        ensures
            *final(self) == (App { output_folder: final(self).output_folder, ..*old(self) }),
            opt_text(final(self).output_folder) == refreshed_output(
                old(self).input_paths(),
                opt_text(old(self).output_folder),
                opt_text(old(self).input_folder),
            ),
    {
        if self.inputs.len() == 0 {
            self.output_folder = None;
            return;
        }
        if self.output_folder.is_some() {
            return;
        }
        let fallback = match &self.input_folder {
            Some(f) => f.clone(),
            None => owned("."),
        };
        self.output_folder = match parent(self.inputs[0].as_str()) {
            Some(up) => {
                if up.as_str().is_empty() {
                    Some(fallback)
                } else {
                    Some(up)
                }
            },
            None => Some(fallback),
        };
    }

    /// Replaces the selection with `paths`, each path once. Results already
    /// read for a path that stays selected are kept.
    pub fn select_inputs(&mut self, paths: Vec<String>)
        ensures
            old(self).selects(*final(self), views(paths@)),
    {
        let ghost given = views(paths@);
        let mut deduped: Vec<String> = Vec::new();
        let mut i: usize = 0;
        while i < paths.len()
            invariant
                i <= paths.len(),
                given == views(paths@),
                views(deduped@) == dedup_paths(given.take(i as int)),
            decreases paths.len() - i,
        {
            let path = &paths[i];
            proof {
                assert(given.take(i + 1).drop_last() =~= given.take(i as int));
                assert(given.take(i + 1).last() == path@);
            }
            if !path_among(&deduped, path.as_str()) {
                let ghost before = deduped@;
                deduped.push(path.clone());
                assert(views(deduped@) =~= views(before).push(path@));
            }
            i = i + 1;
        }
        proof {
            assert(given.take(paths@.len() as int) =~= given);
        }
        let ghost d = views(deduped@);
        self.inputs = deduped;
        self.invalidate_plan();
        // Keep what is already known: re-selecting a file that was read a moment
        // ago should not read it again.
        let mut old_probes: Vec<ProbeEntry> = Vec::new();
        core::mem::swap(&mut old_probes, &mut self.probes);
        let ghost initial = old_probes@;
        let mut kept: Vec<ProbeEntry> = Vec::new();
        let ghost mut k: int = 0;
        while old_probes.len() > 0
            invariant
                0 <= k <= initial.len(),
                old_probes@ == initial.skip(k),
                kept@ == retained(initial.take(k), d),
                views(self.inputs@) == d,
            decreases old_probes.len(),
        {
            let entry = old_probes.remove(0);
            proof {
                assert(initial.take(k + 1).drop_last() =~= initial.take(k));
                assert(initial.take(k + 1).last() == entry);
                assert(old_probes@ =~= initial.skip(k + 1));
                k = k + 1;
            }
            if path_among(&self.inputs, entry.input.as_str()) {
                kept.push(entry);
            }
        }
        proof {
            assert(initial.take(initial.len() as int) =~= initial);
        }
        self.probes = kept;
        self.refresh_output_target();
        let mut pending: Vec<String> = Vec::new();
        let mut i: usize = 0;
        while i < self.inputs.len()
            invariant
                i <= self.inputs.len(),
                views(self.inputs@) == d,
                views(pending@) == unprobed(d.take(i as int), self.probes@),
            decreases self.inputs.len() - i,
        {
            proof {
                assert(d.take(i + 1).drop_last() =~= d.take(i as int));
                assert(d.take(i + 1).last() == self.inputs@[i as int]@);
            }
            if find_probe(&self.probes, self.inputs[i].as_str()).is_none() {
                let ghost before = pending@;
                pending.push(self.inputs[i].clone());
                assert(views(pending@) =~= views(before).push(self.inputs@[i as int]@));
            }
            i = i + 1;
        }
        proof {
            assert(d.take(d.len() as int) =~= d);
        }
        if self.inputs.len() == 0 {
            self.job = JobState::Idle;
            self.status_message = Some(owned(BEGIN_MESSAGE));
            return;
        }
        if pending.len() == 0 {
            proof {
                lemma_unprobed_empty(d, self.probes@);
                assert forall|i: int| 0 <= i < self.inputs@.len() implies probe_index(
                    self.probes@,
                    #[trigger] self.inputs@[i]@,
                ) is Some by {
                    assert(d[i] == self.inputs@[i]@);
                }
            }
            self.job = JobState::Ready;
            let ghost mid = *self;
            self.refresh_ready_message();
            proof {
                lemma_same_validation(mid, *self);
            }
            return;
        }
        self.job = JobState::Probing;
        self.status_message = Some(probing_message(pending.len()));
        let ghost before = self.effects@;
        self.effects.push(Effect::Probe(pending));
        assert(self.effects@.take(before.len() as int) =~= before);
    }
}

pub const OUTPUT_SELECTED_MESSAGE: &'static str = "Output folder selected. Press Tab to continue.";

/// Whether one of `inputs` is, as a path, `p` (as `Vec::contains` compares).
pub open spec fn selected_path(inputs: Seq<String>, p: Seq<char>) -> bool {
    exists|i: int| 0 <= i < inputs.len() && std_path_eq(#[trigger] inputs[i]@, p)
}

impl App {
    /// `q` is this state after the output folder became `path`.
    pub open spec fn selects_output(self, q: App, path: String) -> bool {
        &&& q == App {
            output_folder: Some(path),
            prepared: None,
            command_preview: None,
            queue: q.queue,
            status_message: q.status_message,
            ..self
        }
        &&& q.queue@.len() == 0
        &&& shows(q.status_message, OUTPUT_SELECTED_MESSAGE@)
    }

    /// `q` is this state after the picker closed with `action`.
    pub open spec fn closes_picker(self, q: App, action: PickerAction) -> bool {
        match self.picker {
            None => q == self,
            Some(picker) => {
                let rest = App { picker: None, ..self };
                match action {
                    PickerAction::Continue => q == self,
                    PickerAction::Cancel => q == rest,
                    PickerAction::Done(paths) => match picker.mode {
                        PickerMode::InputFiles => if paths@.len() == 0 {
                            q == rest
                        } else if picker.append {
                            rest.selects(q, rest.input_paths() + views(paths@))
                        } else {
                            rest.selects(q, views(paths@))
                        },
                        PickerMode::InputFolder => q == rest,
                        _ => if paths@.len() == 0 {
                            q == rest
                        } else {
                            rest.selects_output(q, paths@[0])
                        },
                    },
                }
            },
        }
    }
}

impl App {
    /// Adds `paths` to the selection, which is how files from several folders
    /// end up in one queue. Paths already selected are left out.
    pub fn add_inputs(&mut self, paths: Vec<String>)
        ensures
            old(self).selects(*final(self), old(self).input_paths() + views(paths@)),
    {
        let mut all = copy_strings(&self.inputs);
        let mut more = paths;
        let ghost given = views(more@);
        all.append(&mut more);
        assert(views(all@) =~= self.input_paths() + given);
        self.select_inputs(all);
    }

    /// Reads every selected input again, keeping the rest of the configuration.
    pub fn reprobe_inputs(&mut self)
        ensures
            old(self).inputs@.len() == 0 ==> *final(self) == *old(self),
            old(self).inputs@.len() > 0 ==> {
                &&& *final(self) == (App {
                    probes: final(self).probes,
                    prepared: None,
                    command_preview: None,
                    queue: final(self).queue,
                    job: JobState::Probing,
                    status_message: final(self).status_message,
                    effects: final(self).effects,
                    ..*old(self)
                })
                &&& final(self).probes@.len() == 0
                &&& final(self).queue@.len() == 0
                &&& shows(final(self).status_message, probing_text(old(self).inputs@.len() as nat))
                &&& appended(old(self).effects@, final(self).effects@)
                &&& (final(self).effects@.last() matches Effect::Probe(v) && views(v@)
                    == old(self).input_paths())
            },
    {
        if self.inputs.len() == 0 {
            return;
        }
        self.probes = Vec::new();
        self.invalidate_plan();
        self.job = JobState::Probing;
        self.status_message = Some(probing_message(self.inputs.len()));
        let all = copy_strings(&self.inputs);
        let ghost before = self.effects@;
        self.effects.push(Effect::Probe(all));
        assert(self.effects@.take(before.len() as int) =~= before);
    }

    /// Makes `path` the folder every output is written to.
    pub fn select_output(&mut self, path: String)
        ensures
            old(self).selects_output(*final(self), path),
    {
        self.output_folder = Some(path);
        self.invalidate_plan();
        self.status_message = Some(owned(OUTPUT_SELECTED_MESSAGE));
    }

    /// Where the output picker starts: the chosen output folder, the saved
    /// source folder, or the first input's folder. The host falls back to the
    /// home directory.
    fn output_picker_start(&self) -> (r: Option<String>)
        ensures
            opt_text(r) == (match opt_text(self.output_folder) {
                Some(f) => Some(f),
                None => match opt_text(self.input_folder) {
                    Some(f) => Some(f),
                    None => first_input_dir(self.input_paths()),
                },
            }),
    {
        match &self.output_folder {
            Some(f) => Some(f.clone()),
            None => match &self.input_folder {
                Some(f) => Some(f.clone()),
                None => self.first_input_directory(),
            },
        }
    }

    /// Opens the input-file picker. The first input's folder is the most useful
    /// place to start when a selection already exists; `fallback` is the host's
    /// home or working directory.
    pub fn open_inputs_picker(&mut self, add: bool, fallback: Option<String>)
        ensures
            ({
                let start = match first_input_dir(old(self).input_paths()) {
                    Some(d) => Some(d),
                    None => match opt_text(old(self).input_folder) {
                        Some(f) => Some(f),
                        None => opt_text(fallback),
                    },
                };
                match start {
                    None => *final(self) == *old(self),
                    Some(dir) => {
                        &&& *final(self) == (App {
                            hover: None,
                            picker: final(self).picker,
                            ..*old(self)
                        })
                        &&& final(self).picker matches Some(p) && p.mode == PickerMode::InputFiles
                            && p.append == add && p.dir@ == dir && p.rows@.len() == 0
                            && p.selected@.len() == 0 && p.filename@.len() == 0
                            && p.navigation == Some(crate::picker::Navigation::Reload)
                    },
                }
            }),
    {
        let start = match self.first_input_directory() {
            Some(d) => Some(d),
            None => match &self.input_folder {
                Some(f) => Some(f.clone()),
                None => fallback,
            },
        };
        match start {
            Some(dir) => {
                self.hover = None;
                self.picker = Some(Picker::open(PickerMode::InputFiles, dir, None, add));
            },
            None => {},
        }
    }

    /// Opens the output-folder picker; `fallback` is the host's home directory.
    pub fn open_output_picker(&mut self, fallback: Option<String>)
        ensures
            *final(self) == (App { hover: None, picker: final(self).picker, ..*old(self) }),
            final(self).picker matches Some(p) && p.mode == PickerMode::OutputFolder && !p.append
                && p.dir@ == (match opt_text(old(self).output_folder) {
                Some(f) => f,
                None => match opt_text(old(self).input_folder) {
                    Some(f) => f,
                    None => match first_input_dir(old(self).input_paths()) {
                        Some(d) => d,
                        None => match opt_text(fallback) {
                            Some(h) => h,
                            None => "."@,
                        },
                    },
                },
            }) && p.rows@.len() == 0 && p.selected@.len() == 0 && p.filename@.len() == 0
                && p.navigation == Some(crate::picker::Navigation::Reload),
    {
        let start = match self.output_picker_start() {
            Some(d) => d,
            None => match fallback {
                Some(h) => h,
                None => owned("."),
            },
        };
        self.hover = None;
        self.picker = Some(Picker::open(PickerMode::OutputFolder, start, None, false));
    }

    /// Applies the picker's decision and drops it. An empty input selection is
    /// a dismissal: leaving the picker never clears the queue.
    pub fn close_picker(&mut self, action: PickerAction) -> (r: UiCommand)
        ensures
            r == UiCommand::Continue,
            old(self).closes_picker(*final(self), action),
    {
        let picker = match self.picker.take() {
            Some(p) => p,
            None => {
                return UiCommand::Continue;
            },
        };
        match action {
            PickerAction::Continue => {
                self.picker = Some(picker);
            },
            PickerAction::Cancel => {},
            PickerAction::Done(paths) => match picker.mode {
                PickerMode::InputFiles => {
                    if paths.len() > 0 {
                        if picker.append {
                            self.add_inputs(paths);
                        } else {
                            self.select_inputs(paths);
                        }
                    }
                },
                PickerMode::InputFolder => {},
                _ => {
                    if paths.len() > 0 {
                        let mut paths = paths;
                        let first = paths.remove(0);
                        self.select_output(first);
                    }
                },
            },
        }
        UiCommand::Continue
    }

    /// Records what reading `input` gave.
    fn handle_probe_result(&mut self, input: String, result: Result<InputMedia, String>)
        ensures
            old(self).takes_probe(*final(self), input, result),
    {
        let ghost input_view = input;
        let ghost result_view = result;
        match find_probe(&self.probes, input.as_str()) {
            Some(i) => {
                let mut probes: Vec<ProbeEntry> = Vec::new();
                core::mem::swap(&mut probes, &mut self.probes);
                let ghost before = probes@;
                let old_entry = probes.remove(i);
                probes.insert(i, ProbeEntry { input: old_entry.input, result });
                assert(probes@ =~= before.update(
                    i as int,
                    ProbeEntry { input: before[i as int].input, result: result_view },
                ));
                self.probes = probes;
            },
            None => {
                self.probes.push(ProbeEntry { input, result });
            },
        }
        let probing = match self.job {
            JobState::Probing => true,
            _ => false,
        };
        if probing && self.all_probed() {
            self.job = JobState::Ready;
        }
        let still = match self.job {
            JobState::Probing => true,
            _ => false,
        };
        if still {
            let remaining = if self.inputs.len() >= self.probes.len() {
                self.inputs.len() - self.probes.len()
            } else {
                0
            };
            self.status_message = Some(probing_message(remaining));
        } else {
            self.refresh_ready_message();
        }
    }

    fn input_selected(&self, input: &str) -> (r: bool)
        ensures
            r == selected_path(self.inputs@, input@),
    {
        let mut i: usize = 0;
        while i < self.inputs.len()
            invariant
                i <= self.inputs.len(),
                forall|k: int| 0 <= k < i ==> !std_path_eq(#[trigger] self.inputs@[k]@, input@),
            decreases self.inputs.len() - i,
        {
            if same_path(self.inputs[i].as_str(), input) {
                return true;
            }
            i = i + 1;
        }
        false
    }

    /// Takes the probe result for `input`, unless `input` is no longer selected.
    pub fn receive_probe(&mut self, input: String, result: Result<InputMedia, String>)
        ensures
            selected_path(old(self).inputs@, input@) ==> old(self).takes_probe(*final(self), input, result),
            !selected_path(old(self).inputs@, input@) ==> *final(self) == *old(self),
    {
        if self.input_selected(input.as_str()) {
            self.handle_probe_result(input, result);
        }
    }
}

/// The queue with `index` given `outcome`, when there is such a file.
pub open spec fn with_outcome(queue: Seq<JobRecord>, index: usize, outcome: JobOutcome) -> Seq<JobRecord> {
    if index < queue.len() {
        queue.update(index as int, JobRecord { outcome: outcome, ..queue[index as int] })
    } else {
        queue
    }
}

/// A file the queue never finished, once the queue is over.
pub open spec fn settled(outcome: JobOutcome) -> JobOutcome {
    if outcome is Pending || outcome is Running {
        JobOutcome::Skipped
    } else {
        outcome
    }
}

pub open spec fn settled_queue(queue: Seq<JobRecord>) -> Seq<JobRecord> {
    queue.map_values(|r: JobRecord| JobRecord { outcome: settled(r.outcome), ..r })
}

pub open spec fn started_text(queue: Seq<JobRecord>, index: usize) -> Seq<char> {
    if index < queue.len() && queue.len() > 1 {
        "Converting "@ + decimal((index + 1) as nat) + " of "@ + decimal(queue.len()) + ": "@ + label_of(
            queue[index as int].input@,
        )
    } else {
        "FFmpeg is running."@
    }
}

pub open spec fn finish_text(cancelled: bool, succeeded: nat, failed: nat, total: nat) -> Seq<char> {
    if cancelled {
        if succeeded == 0 {
            "Conversion cancelled. Temporary output removed."@
        } else {
            "Cancelled after converting "@ + decimal(succeeded) + " of "@ + decimal(total)
                + ". Temporary output removed."@
        }
    } else if failed == 0 {
        if total == 1 {
            "Conversion completed successfully."@
        } else {
            "All "@ + decimal(total) + " files converted successfully."@
        }
    } else {
        decimal(succeeded) + " of "@ + decimal(total) + " files converted."@
    }
}

impl App {
    /// `q` is this state once the queue stopped after `elapsed_ms`.
    pub open spec fn finishes(self, q: App, elapsed_ms: u64, cancelled: bool) -> bool {
        let queue = settled_queue(self.queue@);
        let succeeded = succeeded_upto(queue, queue.len());
        let failed = failed_records_upto(queue, queue.len());
        &&& q == App {
            worker_running: false,
            queue: q.queue,
            job: JobState::Finished { elapsed_ms, cancelled },
            status_message: q.status_message,
            screen: if succeeded > 0 || cancelled {
                Screen::Result
            } else {
                Screen::Error
            },
            ..self
        }
        &&& q.queue@ == queue
        &&& shows(q.status_message, finish_text(cancelled, succeeded, failed, queue.len()))
    }

    /// `q` is this state after the worker reported `event`.
    pub open spec fn takes_worker_event(self, q: App, event: WorkerEvent) -> bool {
        match event {
            WorkerEvent::Started { index, pid } => {
                &&& q == App {
                    stderr_tail: q.stderr_tail,
                    progress_scroll: 0,
                    progress_follow: true,
                    progress_scroll_from_top: false,
                    queue: q.queue,
                    job: if self.job is Cancelling {
                        self.job
                    } else {
                        JobState::Running { index, pid, progress: None }
                    },
                    status_message: q.status_message,
                    ..self
                }
                &&& q.stderr_tail@.len() == 0
                &&& q.queue@ == with_outcome(self.queue@, index, JobOutcome::Running)
                &&& shows(q.status_message, started_text(q.queue@, index))
            },
            WorkerEvent::Progress { index, update } => q == (if self.job is Cancelling {
                self
            } else {
                App {
                    job: JobState::Running {
                        index,
                        pid: match self.job {
                            JobState::Running { pid, .. } => pid,
                            _ => 0,
                        },
                        progress: Some(update),
                    },
                    ..self
                }
            }),
            WorkerEvent::StderrLine { line, .. } => {
                &&& q == App { stderr_tail: q.stderr_tail, ..self }
                &&& q.stderr_tail@ == self.stderr_tail@.push(line)
            },
            WorkerEvent::Finished { index, output, elapsed_ms } => {
                &&& q == App { queue: q.queue, ..self }
                &&& q.queue@ == (if index < self.queue@.len() {
                    self.queue@.update(
                        index as int,
                        JobRecord {
                            input: self.queue@[index as int].input,
                            output: output,
                            outcome: JobOutcome::Succeeded { elapsed_ms },
                        },
                    )
                } else {
                    self.queue@
                })
            },
            WorkerEvent::Failed { index, error } => {
                &&& q == App { queue: q.queue, ..self }
                &&& q.queue@ == with_outcome(self.queue@, index, JobOutcome::Failed(error))
            },
            WorkerEvent::Cancelled { index } => {
                &&& q == App { queue: q.queue, ..self }
                &&& q.queue@ == with_outcome(self.queue@, index, JobOutcome::Cancelled)
            },
            WorkerEvent::QueueFinished { elapsed_ms, cancelled, .. } => self.finishes(
                q,
                elapsed_ms,
                cancelled,
            ),
        }
    }
}

impl App {
    fn set_outcome(&mut self, index: usize, outcome: JobOutcome)
        ensures
            *final(self) == (App { queue: final(self).queue, ..*old(self) }),
            final(self).queue@ == with_outcome(old(self).queue@, index, outcome),
    {
        if index < self.queue.len() {
            let ghost before = self.queue@;
            let record = JobRecord {
                input: self.queue[index].input.clone(),
                output: self.queue[index].output.clone(),
                outcome,
            };
            self.queue.set(index, record);
            assert(self.queue@ =~= with_outcome(before, index, outcome));
        }
    }

    /// Marks every file the queue never finished, and lands on the result or
    /// the error screen: only a run that produced nothing it was asked for, and
    /// was not cancelled, is an error.
    fn finish_queue(&mut self, elapsed_ms: u64, cancelled: bool)
        ensures
            old(self).finishes(*final(self), elapsed_ms, cancelled),
    {
        self.worker_running = false;
        let ghost start = self.queue@;
        let ghost pre = *self;
        let mut i: usize = 0;
        while i < self.queue.len()
            invariant
                *self == (App { queue: self.queue, ..pre }),
                i <= self.queue@.len(),
                self.queue@.len() == start.len(),
                forall|k: int| 0 <= k < i ==> #[trigger] self.queue@[k] == (JobRecord {
                    outcome: settled(start[k].outcome),
                    ..start[k]
                }),
                forall|k: int| i <= k < start.len() ==> #[trigger] self.queue@[k] == start[k],
            decreases self.queue.len() - i,
        {
            let unfinished = match self.queue[i].outcome {
                JobOutcome::Pending | JobOutcome::Running => true,
                _ => false,
            };
            if unfinished {
                self.set_outcome(i, JobOutcome::Skipped);
            }
            i = i + 1;
        }
        assert(self.queue@ =~= settled_queue(start));
        let succeeded = self.succeeded_count();
        let failed = self.failed_count();
        let total = self.queue.len();
        self.job = JobState::Finished { elapsed_ms, cancelled };
        let mut text = String::new();
        if cancelled {
            if succeeded == 0 {
                push_str(&mut text, "Conversion cancelled. Temporary output removed.");
            } else {
                push_str(&mut text, "Cancelled after converting ");
                push_decimal(&mut text, succeeded as u64);
                push_str(&mut text, " of ");
                push_decimal(&mut text, total as u64);
                push_str(&mut text, ". Temporary output removed.");
            }
        } else if failed == 0 {
            if total == 1 {
                push_str(&mut text, "Conversion completed successfully.");
            } else {
                push_str(&mut text, "All ");
                push_decimal(&mut text, total as u64);
                push_str(&mut text, " files converted successfully.");
            }
        } else {
            push_decimal(&mut text, succeeded as u64);
            push_str(&mut text, " of ");
            push_decimal(&mut text, total as u64);
            push_str(&mut text, " files converted.");
        }
        assert(text@ =~= finish_text(cancelled, succeeded as nat, failed as nat, total as nat));
        self.status_message = Some(text);
        // Cancelling is a choice, not an error, so only a run that produced
        // nothing it was asked for lands on the error screen.
        self.screen = if succeeded > 0 || cancelled {
            Screen::Result
        } else {
            Screen::Error
        };
    }

    /// Takes one report of the worker.
    pub fn handle_worker_event(&mut self, event: WorkerEvent)
        ensures
            old(self).takes_worker_event(*final(self), event),
    {
        match event {
            WorkerEvent::Started { index, pid } => {
                // Messages belong to the file that produced them.
                self.stderr_tail = Vec::new();
                self.progress_scroll = 0;
                self.progress_follow = true;
                self.progress_scroll_from_top = false;
                self.set_outcome(index, JobOutcome::Running);
                let cancelling = match self.job {
                    JobState::Cancelling => true,
                    _ => false,
                };
                if !cancelling {
                    self.job = JobState::Running { index, pid, progress: None };
                }
                let mut text = String::new();
                if index < self.queue.len() && self.queue.len() > 1 {
                    push_str(&mut text, "Converting ");
                    push_decimal(&mut text, index as u64 + 1);
                    push_str(&mut text, " of ");
                    push_decimal(&mut text, self.queue.len() as u64);
                    push_str(&mut text, ": ");
                    let label = file_label(self.queue[index].input.as_str());
                    push_str(&mut text, label.as_str());
                } else {
                    push_str(&mut text, "FFmpeg is running.");
                }
                assert(text@ =~= started_text(self.queue@, index));
                self.status_message = Some(text);
            },
            WorkerEvent::Progress { index, update } => {
                let pid = match self.job {
                    JobState::Cancelling => {
                        return;
                    },
                    JobState::Running { pid, .. } => pid,
                    _ => 0,
                };
                self.job = JobState::Running { index, pid, progress: Some(update) };
            },
            WorkerEvent::StderrLine { line, .. } => {
                self.stderr_tail.push(line);
            },
            WorkerEvent::Finished { index, output, elapsed_ms } => {
                if index < self.queue.len() {
                    let ghost before = self.queue@;
                    let record = JobRecord {
                        input: self.queue[index].input.clone(),
                        output,
                        outcome: JobOutcome::Succeeded { elapsed_ms },
                    };
                    self.queue.set(index, record);
                }
            },
            WorkerEvent::Failed { index, error } => {
                self.set_outcome(index, JobOutcome::Failed(error));
            },
            WorkerEvent::Cancelled { index } => {
                self.set_outcome(index, JobOutcome::Cancelled);
            },
            WorkerEvent::QueueFinished { elapsed_ms, cancelled, .. } => {
                self.finish_queue(elapsed_ms, cancelled);
            },
        }
    }

    /// Asks the worker to stop, when one runs.
    pub fn request_cancel(&mut self)
        ensures
            !old(self).worker_running ==> *final(self) == *old(self),
            old(self).worker_running ==> {
                &&& *final(self) == (App {
                    job: JobState::Cancelling,
                    cancel_confirmation: false,
                    status_message: final(self).status_message,
                    effects: final(self).effects,
                    ..*old(self)
                })
                &&& shows(
                    final(self).status_message,
                    if old(self).queue@.len() > 1 {
                        "Cancelling FFmpeg and stopping the queue…"@
                    } else {
                        "Cancelling FFmpeg…"@
                    },
                )
                &&& appended(old(self).effects@, final(self).effects@)
                &&& final(self).effects@.last() is Cancel
            },
    {
        if !self.worker_running {
            return;
        }
        let ghost before = self.effects@;
        self.effects.push(Effect::Cancel);
        assert(self.effects@.take(before.len() as int) =~= before);
        self.job = JobState::Cancelling;
        self.cancel_confirmation = false;
        self.status_message = Some(if self.queue.len() > 1 {
            owned("Cancelling FFmpeg and stopping the queue…")
        } else {
            owned("Cancelling FFmpeg…")
        });
    }
}

pub const STILL_READING_MESSAGE: &'static str = "Still reading the selected files…";

pub const NOTHING_MESSAGE: &'static str = "Nothing to convert in the current selection.";

/// The first of the first `n` reservations that failed.
pub open spec fn reservation_failure(res: Seq<Result<ArtifactPaths, TranscodeError>>, n: nat) -> Option<
    int,
>
    decreases n,
{
    if n == 0 {
        None
    } else {
        match reservation_failure(res, (n - 1) as nat) {
            Some(k) => Some(k),
            None => if res[n - 1] is Err {
                Some(n - 1)
            } else {
                None
            },
        }
    }
}

/// The positions among the first `n` jobs whose source has been read.
pub open spec fn planned(configs: Seq<TranscodeConfig>, probes: Seq<ProbeEntry>, n: nat) -> Seq<int>
    decreases n,
{
    if n == 0 {
        Seq::empty()
    } else {
        let r = planned(configs, probes, (n - 1) as nat);
        if media_of(probes, configs[n - 1].input@) is Some {
            r.push(n - 1)
        } else {
            r
        }
    }
}

/// Whether `job` runs `config` on `media` through `ffmpeg`, writing to `artifact`.
pub open spec fn runs(
    job: PreparedJob,
    ffmpeg: Seq<char>,
    config: TranscodeConfig,
    media: InputMedia,
    artifact: ArtifactPaths,
) -> bool {
    &&& job.spec.program@ == ffmpeg
    &&& texts(job.spec.args@) == command_args(config, media.audio is Some, artifact.temporary_path@)
    &&& job.spec.temporary_output@ == artifact.temporary_path@
    &&& job.spec.final_output@ == artifact.final_path@
    &&& job.artifact == artifact
    &&& job.duration_micros == media.duration_micros
}

pub open spec fn starting_text(queue: Seq<JobRecord>) -> Seq<char> {
    if queue.len() == 1 {
        "Starting "@ + queue[0].input@ + " → "@ + queue[0].output@ + "…"@
    } else {
        "Starting a queue of "@ + decimal(queue.len()) + " files…"@
    }
}

impl App {
    /// `q` is this state after the plan was asked for.
    pub open spec fn prepares(self, q: App) -> bool {
        if self.inputs@.len() == 0 {
            q == App { status_message: q.status_message, ..self } && shows(
                q.status_message,
                NEED_INPUTS_MESSAGE@,
            )
        } else if self.output_folder is None {
            q == App { status_message: q.status_message, ..self } && shows(
                q.status_message,
                NEED_OUTPUT_MESSAGE@,
            )
        } else if !self.all_probed_spec() {
            q == App { status_message: q.status_message, ..self } && shows(
                q.status_message,
                STILL_READING_MESSAGE@,
            )
        } else {
            match self.validation_text() {
                Some(t) => q == App { status_message: q.status_message, ..self } && shows(
                    q.status_message,
                    t,
                ),
                None => {
                    &&& q == App { effects: q.effects, ..self }
                    &&& appended(self.effects@, q.effects@)
                    &&& (q.effects@.last() matches Effect::Reserve(cs) && jobs_ok(self, cs@))
                },
            }
        }
    }

    /// `q` is this state after the host reserved outputs for `configs`.
    pub open spec fn confirms_plan(
        self,
        q: App,
        configs: Seq<TranscodeConfig>,
        reservations: Seq<Result<ArtifactPaths, TranscodeError>>,
    ) -> bool {
        let n: nat = if configs.len() < reservations.len() {
            configs.len()
        } else {
            reservations.len()
        };
        match reservation_failure(reservations, n) {
            Some(k) => {
                &&& q == App { status_message: q.status_message, ..self }
                &&& shows(
                    q.status_message,
                    label_of(configs[k].input@) + ": "@ + match reservations[k] {
                        Err(e) => e.message_text(),
                        Ok(_) => Seq::empty(),
                    },
                )
            },
            None => {
                let idx = planned(configs, self.probes@, n);
                if idx.len() == 0 {
                    &&& q == App { status_message: q.status_message, ..self }
                    &&& shows(q.status_message, NOTHING_MESSAGE@)
                } else {
                    &&& q == App {
                        command_preview: q.command_preview,
                        queue: q.queue,
                        prepared: q.prepared,
                        review_scroll: 0,
                        screen: Screen::Confirm,
                        button_focus: Some(NavigationButton::Advance),
                        ..self
                    }
                    &&& q.queue@.len() == idx.len()
                    &&& forall|k: int|
                        0 <= k < idx.len() ==> #[trigger] q.queue@[k] == (JobRecord {
                            input: configs[idx[k]].input,
                            output: configs[idx[k]].output,
                            outcome: JobOutcome::Pending,
                        })
                    &&& (q.prepared matches Some(jobs) && jobs@.len() == idx.len() && (forall|k: int|
                        0 <= k < idx.len() ==> runs(
                            #[trigger] jobs@[k],
                            self.toolchain.ffmpeg@,
                            configs[idx[k]],
                            media_of(self.probes@, configs[idx[k]].input@).unwrap(),
                            match reservations[idx[k]] {
                                Ok(a) => a,
                                Err(_) => arbitrary(),
                            },
                        )) && shows(
                        q.command_preview,
                        joined_quoted(seq![jobs@[0].spec.program@] + texts(jobs@[0].spec.args@)),
                    ))
                }
            },
        }
    }

    /// `q` is this state after Start on the review card.
    pub open spec fn starts(self, q: App) -> bool {
        match self.prepared {
            None => q == App { screen: Screen::Settings, ..self },
            Some(jobs) => {
                &&& q == App {
                    stderr_tail: q.stderr_tail,
                    progress_scroll: 0,
                    progress_follow: true,
                    progress_scroll_from_top: false,
                    screen: Screen::Running,
                    job: JobState::Starting,
                    status_message: q.status_message,
                    prepared: None,
                    worker_running: true,
                    effects: q.effects,
                    ..self
                }
                &&& q.stderr_tail@.len() == 0
                &&& shows(q.status_message, starting_text(self.queue@))
                &&& appended(self.effects@, q.effects@)
                &&& q.effects@.last() == Effect::Start(jobs)
            },
        }
    }
}

proof fn lemma_reservation_failure_none(res: Seq<Result<ArtifactPaths, TranscodeError>>, n: nat)
    requires
        n <= res.len(),
        forall|k: int| 0 <= k < n ==> #[trigger] res[k] is Ok,
    ensures
        reservation_failure(res, n) is None,
    decreases n,
{
    if n > 0 {
        lemma_reservation_failure_none(res, (n - 1) as nat);
    }
}

proof fn lemma_reservation_failure_at(res: Seq<Result<ArtifactPaths, TranscodeError>>, n: nat, k: nat)
    requires
        k < n <= res.len(),
        res[k as int] is Err,
        forall|j: int| 0 <= j < k ==> #[trigger] res[j] is Ok,
    ensures
        reservation_failure(res, n) == Some(k as int),
    decreases n,
{
    if n > k + 1 {
        lemma_reservation_failure_at(res, (n - 1) as nat, k);
    } else {
        lemma_reservation_failure_none(res, k);
    }
}

fn copy_artifact(a: &ArtifactPaths) -> (r: ArtifactPaths)
    ensures
        r == *a,
{
    ArtifactPaths { temporary_path: a.temporary_path.clone(), final_path: a.final_path.clone() }
}

impl App {
    /// Review: checks the selection and the settings, and asks the host to
    /// reserve the outputs of a queue that can run.
    pub fn prepare_confirmation(&mut self)
        ensures
            old(self).prepares(*final(self)),
    {
        if self.inputs.len() == 0 {
            self.status_message = Some(owned(NEED_INPUTS_MESSAGE));
            return;
        }
        if self.output_folder.is_none() {
            self.status_message = Some(owned(NEED_OUTPUT_MESSAGE));
            return;
        }
        if !self.all_probed() {
            self.status_message = Some(owned(STILL_READING_MESSAGE));
            return;
        }
        match self.validated_configs() {
            Err(error) => {
                self.status_message = Some(error);
            },
            Ok(configs) => {
                let ghost before = self.effects@;
                self.effects.push(Effect::Reserve(configs));
                assert(self.effects@.take(before.len() as int) =~= before);
            },
        }
    }

    /// Builds the plan from the outputs the host reserved, in order; the
    /// first reservation that failed stops the plan with its reason.
    pub fn confirm_plan(
        &mut self,
        configs: Vec<TranscodeConfig>,
        reservations: Vec<Result<ArtifactPaths, TranscodeError>>,
    )
        ensures
            old(self).confirms_plan(*final(self), configs@, reservations@),
    {
        let n = if configs.len() < reservations.len() {
            configs.len()
        } else {
            reservations.len()
        };
        let mut i: usize = 0;
        while i < n
            invariant
                i <= n,
                n <= configs@.len(),
                n <= reservations@.len(),
                n == (if configs@.len() < reservations@.len() { configs@.len() } else { reservations@.len() }),
                *self == *old(self),
                forall|k: int| 0 <= k < i ==> #[trigger] reservations@[k] is Ok,
            decreases n - i,
        {
            match &reservations[i] {
                Err(error) => {
                    proof {
                        lemma_reservation_failure_at(reservations@, n as nat, i as nat);
                    }
                    let text = labelled(configs[i].input.as_str(), error.message().as_str());
                    assert(reservations@[i as int] == Err::<ArtifactPaths, TranscodeError>(*error));
                    assert(text@ == label_of(configs@[i as int].input@) + ": "@ + error.message_text());
                    self.status_message = Some(text);
                    assert(reservation_failure(reservations@, n as nat) == Some(i as int));
                    let ghost nn: nat = if configs@.len() < reservations@.len() { configs@.len() } else { reservations@.len() };
                    assert(nn == n);
                    assert(*self == (App { status_message: self.status_message, ..*old(self) }));
                    assert(shows(self.status_message, label_of(configs@[i as int].input@) + ": "@ + match reservations@[i as int] {
                        Err(e) => e.message_text(),
                        Ok(_) => Seq::empty(),
                    }));
                    assert(old(self).confirms_plan(*self, configs@, reservations@));
                    return;
                },
                Ok(_) => {},
            }
            i = i + 1;
        }
        proof {
            lemma_reservation_failure_none(reservations@, n as nat);
        }
        let mut jobs: Vec<PreparedJob> = Vec::new();
        let mut records: Vec<JobRecord> = Vec::new();
        let mut preview: Option<String> = None;
        let mut i: usize = 0;
        while i < n
            invariant
                i <= n,
                n <= configs@.len(),
                n <= reservations@.len(),
                n == (if configs@.len() < reservations@.len() { configs@.len() } else { reservations@.len() }),
                *self == *old(self),
                forall|k: int| 0 <= k < n ==> #[trigger] reservations@[k] is Ok,
                jobs@.len() == planned(configs@, self.probes@, i as nat).len(),
                records@.len() == jobs@.len(),
                forall|k: int|
                    0 <= k < jobs@.len() ==> 0 <= #[trigger] planned(configs@, self.probes@, i as nat)[k] < i,
                forall|k: int|
                    0 <= k < jobs@.len() ==> #[trigger] records@[k] == (JobRecord {
                        input: configs@[planned(configs@, self.probes@, i as nat)[k]].input,
                        output: configs@[planned(configs@, self.probes@, i as nat)[k]].output,
                        outcome: JobOutcome::Pending,
                    }),
                forall|k: int|
                    0 <= k < jobs@.len() ==> runs(
                        #[trigger] jobs@[k],
                        self.toolchain.ffmpeg@,
                        configs@[planned(configs@, self.probes@, i as nat)[k]],
                        media_of(self.probes@, configs@[planned(configs@, self.probes@, i as nat)[k]].input@).unwrap(),
                        match reservations@[planned(configs@, self.probes@, i as nat)[k]] {
                            Ok(a) => a,
                            Err(_) => arbitrary(),
                        },
                    ),
                jobs@.len() == 0 ==> preview is None,
                jobs@.len() > 0 ==> shows(
                    preview,
                    joined_quoted(seq![jobs@[0].spec.program@] + texts(jobs@[0].spec.args@)),
                ),
            decreases n - i,
        {
            let ghost before = planned(configs@, self.probes@, i as nat);
            assert(reservations@[i as int] is Ok);
            let artifact = match &reservations[i] {
                Ok(a) => a,
                Err(_) => {
                    return;
                },
            };
            let config = &configs[i];
            match self.media_for(config.input.as_str()) {
                Some(media) => {
                    let spec = build_command_spec(self.toolchain.ffmpeg.as_str(), config, media, artifact);
                    if preview.is_none() {
                        preview = Some(render_command_preview(&spec));
                    }
                    records.push(JobRecord {
                        input: config.input.clone(),
                        output: config.output.clone(),
                        outcome: JobOutcome::Pending,
                    });
                    jobs.push(PreparedJob {
                        spec,
                        artifact: copy_artifact(artifact),
                        duration_micros: media.duration_micros,
                    });
                    proof {
                        let after = planned(configs@, self.probes@, (i + 1) as nat);
                        assert(after == before.push(i as int));
                    }
                },
                None => {
                    proof {
                        let after = planned(configs@, self.probes@, (i + 1) as nat);
                        assert(after == before);
                    }
                },
            }
            i = i + 1;
        }
        let ghost nn: nat = if configs@.len() < reservations@.len() {
            configs@.len()
        } else {
            reservations@.len()
        };
        assert(nn == n);
        assert(reservation_failure(reservations@, nn) is None);
        let ghost idx = planned(configs@, self.probes@, nn);
        if jobs.len() == 0 {
            self.status_message = Some(owned(NOTHING_MESSAGE));
            assert(idx.len() == 0);
            assert(*self == (App { status_message: self.status_message, ..*old(self) }));
            assert(shows(self.status_message, NOTHING_MESSAGE@));
            assert(old(self).probes == self.probes);
            assert(planned(configs@, old(self).probes@, nn).len() == 0);
            return;
        }
        let ghost pre = *self;
        self.command_preview = preview;
        self.queue = records;
        self.prepared = Some(jobs);
        self.review_scroll = 0;
        self.screen = Screen::Confirm;
        self.button_focus = Some(NavigationButton::Advance);
        assert(self.queue@.len() == idx.len());
        assert(*self == (App {
            command_preview: self.command_preview,
            queue: self.queue,
            prepared: self.prepared,
            review_scroll: 0,
            screen: Screen::Confirm,
            button_focus: Some(NavigationButton::Advance),
            ..*old(self)
        }));
        assert(self.prepared matches Some(jobs) && jobs@.len() == idx.len());
    }

    /// Start: hands the prepared jobs to the host to run.
    fn start_prepared(&mut self)
        ensures
            old(self).starts(*final(self)),
    {
        let mut taken: Option<Vec<PreparedJob>> = None;
        core::mem::swap(&mut taken, &mut self.prepared);
        let jobs = match taken {
            Some(jobs) => jobs,
            None => {
                self.screen = Screen::Settings;
                return;
            },
        };
        self.stderr_tail = Vec::new();
        self.progress_scroll = 0;
        self.progress_follow = true;
        self.progress_scroll_from_top = false;
        self.screen = Screen::Running;
        self.job = JobState::Starting;
        let mut text = String::new();
        if self.queue.len() == 1 {
            push_str(&mut text, "Starting ");
            push_str(&mut text, self.queue[0].input.as_str());
            push_str(&mut text, " → ");
            push_str(&mut text, self.queue[0].output.as_str());
            push_str(&mut text, "…");
        } else {
            push_str(&mut text, "Starting a queue of ");
            push_decimal(&mut text, self.queue.len() as u64);
            push_str(&mut text, " files…");
        }
        assert(text@ =~= starting_text(self.queue@));
        self.status_message = Some(text);
        self.worker_running = true;
        let ghost before = self.effects@;
        self.effects.push(Effect::Start(jobs));
        assert(self.effects@.take(before.len() as int) =~= before);
    }
}

pub const SETTINGS_MESSAGE: &'static str = "Choose encoding settings, then review.";

pub const INVALID_NUMBER_MESSAGE: &'static str = "Enter a valid whole-number bitrate.";

pub const VIDEO_RANGE_MESSAGE: &'static str = "Video bitrate must be 100–200000 kbps.";

pub const AUDIO_RANGE_MESSAGE: &'static str = "Audio bitrate must be 32–512 kbps.";

/// The longest bitrate, in digits, that the editor takes.
pub const NUMERIC_EDIT_LIMIT: usize = 6;

pub open spec fn sat_sub16(a: u16, b: u16) -> u16 {
    if a >= b {
        (a - b) as u16
    } else {
        0
    }
}

pub open spec fn sat_add16(a: u16, b: u16) -> u16 {
    if a + b > u16::MAX {
        u16::MAX
    } else {
        (a + b) as u16
    }
}

/// The value a typed bitrate has, as `str::parse::<u32>` reads it.
pub open spec fn typed_value(buffer: Seq<char>) -> Option<nat> {
    crate::text::parse_unsigned(buffer, u32::MAX as nat)
}

/// The video codecs of `s` whose encoder is among `names`.
pub open spec fn usable_video(names: Seq<Seq<char>>, s: Seq<VideoCodec>) -> Seq<VideoCodec>
    decreases s.len(),
{
    if s.len() == 0 {
        Seq::empty()
    } else {
        let rest = usable_video(names, s.drop_last());
        if names.contains(s.last().encoder_text()) {
            rest.push(s.last())
        } else {
            rest
        }
    }
}

/// The audio codecs of `s` that need no encoder or whose encoder is among `names`.
pub open spec fn usable_audio(names: Seq<Seq<char>>, s: Seq<AudioCodec>) -> Seq<AudioCodec>
    decreases s.len(),
{
    if s.len() == 0 {
        Seq::empty()
    } else {
        let rest = usable_audio(names, s.drop_last());
        if (match s.last().encoder_text() {
            Some(name) => names.contains(name),
            None => true,
        }) {
            rest.push(s.last())
        } else {
            rest
        }
    }
}

pub open spec fn settings_seq() -> Seq<ConfigField> {
    seq![
        ConfigField::Container,
        ConfigField::VideoCodec,
        ConfigField::AudioCodec,
        ConfigField::Resolution,
        ConfigField::RateControl,
        ConfigField::RateValue,
        ConfigField::AudioBitrate,
    ]
}

/// The row the settings cursor is on: a settings row, then Back, then Advance.
pub open spec fn settings_slot(focus: ConfigField, button: Option<NavigationButton>) -> int {
    match button {
        Some(NavigationButton::Back) => 7,
        Some(NavigationButton::Advance) => 8,
        None => index_or_first(settings_seq(), focus),
    }
}

impl App {
    pub open spec fn field_enabled_spec(self, field: ConfigField) -> bool {
        field != ConfigField::AudioBitrate || self.audio_bitrate_enabled_spec()
    }

    pub open spec fn audio_bitrate_enabled_spec(self) -> bool {
        self.draft.audio_codec != AudioCodec::Silent && (probed_upto(
            self.inputs@,
            self.probes@,
            self.inputs@.len() as nat,
        ) == 0 || exists|i: int|
            0 <= i < self.inputs@.len() && (#[trigger] media_of(self.probes@, self.inputs@[i]@) matches Some(
                m,
            ) && m.audio is Some))
    }

    /// The state the configuration cards return to once a run is over.
    pub open spec fn settled_job(self) -> JobState {
        if self.inputs@.len() == 0 {
            JobState::Idle
        } else if self.all_probed_spec() {
            JobState::Ready
        } else {
            JobState::Probing
        }
    }

    /// `q` is this state after the settings cursor moved `direction` rows,
    /// skipping rows that are switched off, starting `offset` rows away.
    pub open spec fn settings_focus_from(self, q: App, direction: int, offset: nat) -> bool
        decreases 10 - offset,
    {
        if offset > 9 {
            q == self
        } else {
            let index = (settings_slot(self.focus, self.button_focus) + direction * offset) % 9;
            if index < 7 {
                let candidate = settings_seq()[index];
                if self.field_enabled_spec(candidate) {
                    q == App { focus: candidate, button_focus: None, ..self }
                } else {
                    self.settings_focus_from(q, direction, offset + 1)
                }
            } else if index == 7 {
                q == App { button_focus: Some(NavigationButton::Back), ..self }
            } else {
                q == App { button_focus: Some(NavigationButton::Advance), ..self }
            }
        }
    }

    /// `q` is this state after the folder cursor moved `direction` rows.
    pub open spec fn folder_focus(self, q: App, direction: int) -> bool {
        let current = match self.button_focus {
            Some(NavigationButton::Advance) => 2int,
            _ => if self.focus == ConfigField::Output {
                1int
            } else {
                0int
            },
        };
        let next = (current + direction) % 3;
        if next == 0 {
            q == App { focus: ConfigField::Input, button_focus: None, ..self }
        } else if next == 1 {
            q == App { focus: ConfigField::Output, button_focus: None, ..self }
        } else {
            q == App { button_focus: Some(NavigationButton::Advance), ..self }
        }
    }

    /// `q` is this state after Continue on the folder card.
    pub open spec fn leaves_folders(self, q: App) -> bool {
        if self.inputs@.len() == 0 {
            q == App { status_message: q.status_message, ..self } && shows(
                q.status_message,
                NEED_INPUTS_MESSAGE@,
            )
        } else if self.output_folder is None {
            q == App { status_message: q.status_message, ..self } && shows(
                q.status_message,
                NEED_OUTPUT_MESSAGE@,
            )
        } else {
            &&& q == App {
                screen: Screen::Settings,
                focus: ConfigField::Container,
                button_focus: None,
                status_message: q.status_message,
                ..self
            }
            &&& shows(q.status_message, SETTINGS_MESSAGE@)
        }
    }

    /// The settings after the container stepped `direction` choices, with the
    /// codecs moved onto what the new container allows.
    pub open spec fn container_adjusted(self, d: DraftConfig, direction: int) -> bool {
        let c = cycled(Container::ALL@, self.draft.container, direction);
        &&& d == DraftConfig {
            container: c,
            video_codec: d.video_codec,
            audio_codec: d.audio_codec,
            output: d.output,
            ..self.draft
        }
        &&& d.video_codec == (if video_allowed(c, self.draft.video_codec) {
            self.draft.video_codec
        } else {
            crate::domain::default_video(c)
        })
        &&& d.audio_codec == (if audio_allowed(c, self.draft.audio_codec) {
            self.draft.audio_codec
        } else {
            crate::domain::default_audio(c)
        })
        &&& d.output.deep_view() == (match self.draft.output {
            Some(o) => Some(crate::paths::std_path_with_extension(o@, c.extension_text())),
            None => None,
        })
    }

    pub open spec fn video_adjusted(self, d: DraftConfig, direction: int) -> bool {
        let available = usable_video(
            self.toolchain.encoder_names(),
            supported_video(self.draft.container),
        );
        d == (if available.len() == 0 {
            self.draft
        } else {
            DraftConfig {
                video_codec: cycled(available, self.draft.video_codec, direction),
                ..self.draft
            }
        })
    }

    pub open spec fn audio_adjusted(self, d: DraftConfig, direction: int) -> bool {
        let available = usable_audio(
            self.toolchain.encoder_names(),
            supported_audio(self.draft.container),
        );
        d == (if available.len() == 0 {
            self.draft
        } else {
            DraftConfig {
                audio_codec: cycled(available, self.draft.audio_codec, direction),
                ..self.draft
            }
        })
    }

    pub open spec fn rate_value_adjusted(self, d: DraftConfig, direction: int) -> bool {
        d == (match self.draft.rate_control_mode {
            RateControlMode::Quality => DraftConfig {
                quality: cycled(QualityPreset::ALL@, self.draft.quality, direction),
                ..self.draft
            },
            RateControlMode::Bitrate => DraftConfig {
                video_bitrate_kbps: cycled(
                    VIDEO_BITRATE_PRESETS@,
                    nearest_in(
                        VIDEO_BITRATE_PRESETS@,
                        self.draft.video_bitrate_kbps,
                        VIDEO_BITRATE_PRESETS@.len() as nat,
                    ),
                    direction,
                ),
                ..self.draft
            },
        })
    }

    pub open spec fn audio_bitrate_adjusted(self, d: DraftConfig, direction: int) -> bool {
        d == (if self.audio_bitrate_enabled_spec() {
            DraftConfig {
                audio_bitrate_kbps: cycled(
                    AUDIO_BITRATE_PRESETS@,
                    nearest_in(
                        AUDIO_BITRATE_PRESETS@,
                        self.draft.audio_bitrate_kbps,
                        AUDIO_BITRATE_PRESETS@.len() as nat,
                    ),
                    direction,
                ),
                ..self.draft
            }
        } else {
            self.draft
        })
    }

    /// The settings after the focused row stepped `direction` choices.
    pub open spec fn adjusted_draft(self, d: DraftConfig, direction: int) -> bool {
        match self.focus {
            ConfigField::Container => self.container_adjusted(d, direction),
            ConfigField::VideoCodec => self.video_adjusted(d, direction),
            ConfigField::AudioCodec => self.audio_adjusted(d, direction),
            ConfigField::Resolution => d == DraftConfig {
                resolution: cycled(Resolution::ALL@, self.draft.resolution, direction),
                ..self.draft
            },
            ConfigField::RateControl => d == DraftConfig {
                rate_control_mode: match self.draft.rate_control_mode {
                    RateControlMode::Quality => RateControlMode::Bitrate,
                    RateControlMode::Bitrate => RateControlMode::Quality,
                },
                ..self.draft
            },
            ConfigField::RateValue => self.rate_value_adjusted(d, direction),
            ConfigField::AudioBitrate => self.audio_bitrate_adjusted(d, direction),
            _ => d == self.draft,
        }
    }

    /// `q` is this state after Left or Right on the focused settings row.
    pub open spec fn adjusts(self, q: App, direction: int) -> bool {
        let mid = App {
            draft: q.draft,
            prepared: None,
            command_preview: None,
            queue: q.queue,
            ..self
        };
        &&& self.adjusted_draft(q.draft, direction)
        &&& q.queue@.len() == 0
        &&& mid.refreshed(q)
    }

    /// `q` is this state after Enter on a bitrate row.
    pub open spec fn begins_edit(self, q: App) -> bool {
        let value = match self.focus {
            ConfigField::RateValue => if self.draft.rate_control_mode == RateControlMode::Bitrate {
                Some(self.draft.video_bitrate_kbps)
            } else {
                None
            },
            ConfigField::AudioBitrate => if self.audio_bitrate_enabled_spec() {
                Some(self.draft.audio_bitrate_kbps)
            } else {
                None
            },
            _ => None,
        };
        match value {
            None => q == self,
            Some(v) => {
                &&& q == App { numeric_edit: q.numeric_edit, ..self }
                &&& q.numeric_edit matches Some(edit) && edit.field == self.focus && edit.buffer@
                    == decimal(v as nat)
            },
        }
    }

    /// `q` is this state after Enter in the bitrate editor.
    pub open spec fn commits_edit(self, q: App) -> bool {
        match self.numeric_edit {
            None => q == self,
            Some(edit) => {
                let base = App { numeric_edit: None, ..self };
                match typed_value(edit.buffer@) {
                    None => q == App { status_message: q.status_message, ..base } && shows(
                        q.status_message,
                        INVALID_NUMBER_MESSAGE@,
                    ),
                    Some(v) => match edit.field {
                        ConfigField::RateValue => if 100 <= v <= 200_000 {
                            &&& q == App {
                                draft: DraftConfig { video_bitrate_kbps: v as u32, ..self.draft },
                                status_message: q.status_message,
                                ..base
                            }
                            &&& shows(
                                q.status_message,
                                "Video bitrate set to "@ + decimal(v) + " kbps."@,
                            )
                        } else {
                            q == App { status_message: q.status_message, ..base } && shows(
                                q.status_message,
                                VIDEO_RANGE_MESSAGE@,
                            )
                        },
                        ConfigField::AudioBitrate => if 32 <= v <= 512 {
                            &&& q == App {
                                draft: DraftConfig { audio_bitrate_kbps: v as u32, ..self.draft },
                                status_message: q.status_message,
                                ..base
                            }
                            &&& shows(
                                q.status_message,
                                "Audio bitrate set to "@ + decimal(v) + " kbps."@,
                            )
                        } else {
                            q == App { status_message: q.status_message, ..base } && shows(
                                q.status_message,
                                AUDIO_RANGE_MESSAGE@,
                            )
                        },
                        _ => q == base,
                    },
                }
            },
        }
    }

    /// `q` is this state after a key in the bitrate editor.
    pub open spec fn numeric_key(self, q: App, key: KeyInput) -> bool {
        match self.numeric_edit {
            None => q == self,
            Some(edit) => match key.code {
                KeyCode::Char(c) => if is_digit(c) && edit.buffer@.len() < NUMERIC_EDIT_LIMIT {
                    &&& q == App { numeric_edit: q.numeric_edit, ..self }
                    &&& q.numeric_edit matches Some(e) && e.field == edit.field && e.buffer@
                        == edit.buffer@.push(c)
                } else {
                    q == self
                },
                KeyCode::Backspace => {
                    &&& q == App { numeric_edit: q.numeric_edit, ..self }
                    &&& q.numeric_edit matches Some(e) && e.field == edit.field && e.buffer@ == (
                    if edit.buffer@.len() == 0 {
                        edit.buffer@
                    } else {
                        edit.buffer@.drop_last()
                    })
                },
                KeyCode::Esc => q == App { numeric_edit: None, ..self },
                KeyCode::Enter => self.commits_edit(q),
                _ => q == self,
            },
        }
    }

    /// This state after the progress log scrolled up `amount` lines.
    pub open spec fn progress_up(self, amount: u16) -> App {
        App {
            progress_scroll: if self.progress_follow {
                amount
            } else if self.progress_scroll_from_top {
                sat_sub16(self.progress_scroll, amount)
            } else {
                sat_add16(self.progress_scroll, amount)
            },
            progress_follow: false,
            ..self
        }
    }

    /// This state after the progress log scrolled down `amount` lines.
    pub open spec fn progress_down(self, amount: u16) -> App {
        let scroll = if self.progress_scroll_from_top {
            sat_add16(self.progress_scroll, amount)
        } else {
            sat_sub16(self.progress_scroll, amount)
        };
        App {
            progress_scroll: scroll,
            progress_follow: if !self.progress_scroll_from_top && scroll == 0 {
                true
            } else {
                self.progress_follow
            },
            ..self
        }
    }
}

fn usable_video_codecs(toolchain: &Toolchain, container: Container) -> (r: Vec<VideoCodec>)
    ensures
        r@ == usable_video(toolchain.encoder_names(), supported_video(container)),
{
    let all = supported_video_codecs(container);
    let mut r: Vec<VideoCodec> = Vec::new();
    let mut i: usize = 0;
    while i < all.len()
        invariant
            i <= all@.len(),
            all@ == supported_video(container),
            r@ == usable_video(toolchain.encoder_names(), all@.take(i as int)),
        decreases all.len() - i,
    {
        assert(all@.take(i + 1).drop_last() =~= all@.take(i as int));
        if toolchain.supports_video(all[i]) {
            r.push(all[i]);
        }
        i = i + 1;
    }
    assert(all@.take(all@.len() as int) =~= all@);
    r
}

fn usable_audio_codecs(toolchain: &Toolchain, container: Container) -> (r: Vec<AudioCodec>)
    ensures
        r@ == usable_audio(toolchain.encoder_names(), supported_audio(container)),
{
    let all = supported_audio_codecs(container);
    let mut r: Vec<AudioCodec> = Vec::new();
    let mut i: usize = 0;
    while i < all.len()
        invariant
            i <= all@.len(),
            all@ == supported_audio(container),
            r@ == usable_audio(toolchain.encoder_names(), all@.take(i as int)),
        decreases all.len() - i,
    {
        assert(all@.take(i + 1).drop_last() =~= all@.take(i as int));
        if toolchain.supports_audio(all[i]) {
            r.push(all[i]);
        }
        i = i + 1;
    }
    assert(all@.take(all@.len() as int) =~= all@);
    r
}

proof fn lemma_usable_video_len(names: Seq<Seq<char>>, s: Seq<VideoCodec>)
    ensures
        usable_video(names, s).len() <= s.len(),
    decreases s.len(),
{
    if s.len() > 0 {
        lemma_usable_video_len(names, s.drop_last());
    }
}

proof fn lemma_usable_audio_len(names: Seq<Seq<char>>, s: Seq<AudioCodec>)
    ensures
        usable_audio(names, s).len() <= s.len(),
    decreases s.len(),
{
    if s.len() > 0 {
        lemma_usable_audio_len(names, s.drop_last());
    }
}

impl App {
    fn field_enabled(&self, field: ConfigField) -> (r: bool)
        ensures
            r == self.field_enabled_spec(field),
    {
        field != ConfigField::AudioBitrate || self.audio_bitrate_enabled()
    }

    /// The state the configuration cards return to once a run is over.
    fn settled_job_state(&self) -> (r: JobState)
        ensures
            r == self.settled_job(),
    {
        if self.inputs.len() == 0 {
            JobState::Idle
        } else if self.all_probed() {
            JobState::Ready
        } else {
            JobState::Probing
        }
    }

    fn move_folder_focus(&mut self, direction: i32)
        ensures
            old(self).folder_focus(*final(self), direction as int),
    {
        let current: i64 = match self.button_focus {
            Some(NavigationButton::Advance) => 2,
            _ => if self.focus == ConfigField::Output {
                1
            } else {
                0
            },
        };
        let next = wrap(current + direction as i64, 3);
        if next == 0 {
            self.focus = ConfigField::Input;
            self.button_focus = None;
        } else if next == 1 {
            self.focus = ConfigField::Output;
            self.button_focus = None;
        } else {
            self.button_focus = Some(NavigationButton::Advance);
        }
    }

    fn move_settings_focus(&mut self, direction: i32)
        ensures
            old(self).settings_focus_from(*final(self), direction as int, 1),
    {
        let settings = ConfigField::SETTINGS;
        assert(settings@ == settings_seq());
        let current: i64 = match self.button_focus {
            Some(NavigationButton::Back) => 7,
            Some(NavigationButton::Advance) => 8,
            None => {
                let mut found: i64 = 0;
                let mut k: usize = 0;
                let mut seen = false;
                while k < 7
                    invariant
                        k <= 7,
                        settings@ == settings_seq(),
                        !seen ==> found == 0,
                        !seen ==> forall|j: int| 0 <= j < k ==> settings_seq()[j] != self.focus,
                        seen ==> 0 <= found < 7 && settings_seq()[found as int] == self.focus
                            && forall|j: int| 0 <= j < found ==> settings_seq()[j] != self.focus,
                    decreases 7 - k,
                {
                    if !seen && settings[k] == self.focus {
                        found = k as i64;
                        seen = true;
                    }
                    k = k + 1;
                }
                proof {
                    if seen {
                        let w = choose|w: int|
                            0 <= w < settings_seq().len() && settings_seq()[w] == self.focus && forall|
                                j: int,
                            |
                                0 <= j < w ==> settings_seq()[j] != self.focus;
                        assert(w == found) by {
                            if w < found {
                                assert(settings_seq()[w] != self.focus);
                            }
                            if w > found {
                                assert(settings_seq()[found as int] != self.focus);
                            }
                        }
                    } else {
                        assert(!exists|j: int|
                            0 <= j < settings_seq().len() && settings_seq()[j] == self.focus);
                    }
                }
                found
            },
        };
        assert(current == settings_slot(self.focus, self.button_focus));
        assert(0 <= current <= 8);
        let ghost start = *self;
        let mut offset: i64 = 1;
        while offset <= 9
            invariant
                1 <= offset <= 10,
                settings@ == settings_seq(),
                *self == start,
                current == settings_slot(start.focus, start.button_focus),
                forall|q: App|
                    start.settings_focus_from(q, direction as int, 1) == #[trigger] start.settings_focus_from(
                        q,
                        direction as int,
                        offset as nat,
                    ),
                *old(self) == start,
                0 <= current <= 8,
            decreases 10 - offset,
        {
            assert(-20000000000 <= direction as i64 * offset <= 20000000000) by (nonlinear_arith)
                requires
                    1 <= offset <= 9,
                    -2147483648 <= direction <= 2147483647,
            ;
            let index = wrap(current + direction as i64 * offset, 9);
            if index < 7 {
                let candidate = settings[index as usize];
                if self.field_enabled(candidate) {
                    self.focus = candidate;
                    self.button_focus = None;
                    assert(start.settings_focus_from(*self, direction as int, offset as nat));
                    return;
                }
            } else if index == 7 {
                self.button_focus = Some(NavigationButton::Back);
                assert(start.settings_focus_from(*self, direction as int, offset as nat));
                return;
            } else {
                self.button_focus = Some(NavigationButton::Advance);
                assert(start.settings_focus_from(*self, direction as int, offset as nat));
                return;
            }
            assert forall|q: App|
                start.settings_focus_from(q, direction as int, offset as nat) == #[trigger] start.settings_focus_from(
                    q,
                    direction as int,
                    (offset + 1) as nat,
                ) by {}
            offset = offset + 1;
        }
        assert(start.settings_focus_from(*self, direction as int, offset as nat));
    }

    /// Continue on the folder card: to the settings, once there is something
    /// to convert and somewhere to write it.
    pub fn leave_folders(&mut self)
        ensures
            old(self).leaves_folders(*final(self)),
    {
        if self.inputs.len() == 0 {
            self.status_message = Some(owned(NEED_INPUTS_MESSAGE));
            return;
        }
        if self.output_folder.is_none() {
            self.status_message = Some(owned(NEED_OUTPUT_MESSAGE));
            return;
        }
        self.screen = Screen::Settings;
        self.focus = ConfigField::Container;
        self.button_focus = None;
        self.status_message = Some(owned(SETTINGS_MESSAGE));
    }

    fn copy_draft(&self) -> (d: DraftConfig)
        ensures
            d == self.draft,
    {
        DraftConfig {
            input: copy_opt(&self.draft.input),
            output: copy_opt(&self.draft.output),
            container: self.draft.container,
            video_codec: self.draft.video_codec,
            audio_codec: self.draft.audio_codec,
            resolution: self.draft.resolution,
            rate_control_mode: self.draft.rate_control_mode,
            quality: self.draft.quality,
            video_bitrate_kbps: self.draft.video_bitrate_kbps,
            audio_bitrate_kbps: self.draft.audio_bitrate_kbps,
        }
    }

    fn container_step(&self, direction: i32) -> (d: DraftConfig)
        ensures
            self.container_adjusted(d, direction as int),
    {
        let mut d = self.copy_draft();
        d.container = cycle(&Container::ALL, self.draft.container, direction);
        d.normalize_for_container();
        d
    }

    fn video_step(&self, direction: i32) -> (d: DraftConfig)
        ensures
            self.video_adjusted(d, direction as int),
    {
        let mut d = self.copy_draft();
        let available = usable_video_codecs(&self.toolchain, self.draft.container);
        proof {
            lemma_usable_video_len(self.toolchain.encoder_names(), supported_video(self.draft.container));
        }
        if available.len() > 0 {
            d.video_codec = cycle(available.as_slice(), self.draft.video_codec, direction);
        }
        d
    }

    fn audio_step(&self, direction: i32) -> (d: DraftConfig)
        ensures
            self.audio_adjusted(d, direction as int),
    {
        let mut d = self.copy_draft();
        let available = usable_audio_codecs(&self.toolchain, self.draft.container);
        proof {
            lemma_usable_audio_len(self.toolchain.encoder_names(), supported_audio(self.draft.container));
        }
        if available.len() > 0 {
            d.audio_codec = cycle(available.as_slice(), self.draft.audio_codec, direction);
        }
        d
    }

    fn rate_value_step(&self, direction: i32) -> (d: DraftConfig)
        ensures
            self.rate_value_adjusted(d, direction as int),
    {
        let mut d = self.copy_draft();
        match self.draft.rate_control_mode {
            RateControlMode::Quality => {
                d.quality = cycle(&QualityPreset::ALL, self.draft.quality, direction);
            },
            RateControlMode::Bitrate => {
                d.video_bitrate_kbps = cycle_numeric(
                    &VIDEO_BITRATE_PRESETS,
                    self.draft.video_bitrate_kbps,
                    direction,
                );
            },
        }
        d
    }

    fn audio_bitrate_step(&self, direction: i32) -> (d: DraftConfig)
        ensures
            self.audio_bitrate_adjusted(d, direction as int),
    {
        let mut d = self.copy_draft();
        if self.audio_bitrate_enabled() {
            d.audio_bitrate_kbps = cycle_numeric(
                &AUDIO_BITRATE_PRESETS,
                self.draft.audio_bitrate_kbps,
                direction,
            );
        }
        d
    }

    /// The settings after the focused row stepped `direction` choices.
    fn adjusted_settings(&self, direction: i32) -> (d: DraftConfig)
        ensures
            self.adjusted_draft(d, direction as int),
    {
        match self.focus {
            ConfigField::Container => self.container_step(direction),
            ConfigField::VideoCodec => self.video_step(direction),
            ConfigField::AudioCodec => self.audio_step(direction),
            ConfigField::Resolution => {
                let mut d = self.copy_draft();
                d.resolution = cycle(&Resolution::ALL, self.draft.resolution, direction);
                d
            },
            ConfigField::RateControl => {
                let mut d = self.copy_draft();
                d.rate_control_mode = match self.draft.rate_control_mode {
                    RateControlMode::Quality => RateControlMode::Bitrate,
                    RateControlMode::Bitrate => RateControlMode::Quality,
                };
                d
            },
            ConfigField::RateValue => self.rate_value_step(direction),
            ConfigField::AudioBitrate => self.audio_bitrate_step(direction),
            _ => self.copy_draft(),
        }
    }

    fn adjust_focused(&mut self, direction: i32)
        ensures
            old(self).adjusts(*final(self), direction as int),
    {
        let d = self.adjusted_settings(direction);
        self.draft = d;
        self.invalidate_plan();
        self.refresh_ready_message();
    }

    fn begin_numeric_edit(&mut self)
        ensures
            old(self).begins_edit(*final(self)),
    {
        let value = match self.focus {
            ConfigField::RateValue => {
                if self.draft.rate_control_mode == RateControlMode::Bitrate {
                    self.draft.video_bitrate_kbps
                } else {
                    return;
                }
            },
            ConfigField::AudioBitrate => {
                if self.audio_bitrate_enabled() {
                    self.draft.audio_bitrate_kbps
                } else {
                    return;
                }
            },
            _ => {
                return;
            },
        };
        let mut buffer = String::new();
        push_decimal(&mut buffer, value as u64);
        assert(buffer@ =~= decimal(value as nat));
        self.numeric_edit = Some(NumericEdit { field: self.focus, buffer });
    }

    fn commit_numeric_edit(&mut self)
        ensures
            old(self).commits_edit(*final(self)),
    {
        let mut taken: Option<NumericEdit> = None;
        core::mem::swap(&mut taken, &mut self.numeric_edit);
        let edit = match taken {
            Some(edit) => edit,
            None => {
                return;
            },
        };
        let value = match parse_u64(edit.buffer.as_str()) {
            Some(v) => {
                if v <= u32::MAX as u64 {
                    v as u32
                } else {
                    self.status_message = Some(owned(INVALID_NUMBER_MESSAGE));
                    return;
                }
            },
            None => {
                self.status_message = Some(owned(INVALID_NUMBER_MESSAGE));
                return;
            },
        };
        match edit.field {
            ConfigField::RateValue => {
                if 100 <= value && value <= 200_000 {
                    self.draft.video_bitrate_kbps = value;
                    let mut text = owned("Video bitrate set to ");
                    push_decimal(&mut text, value as u64);
                    push_str(&mut text, " kbps.");
                    self.status_message = Some(text);
                } else {
                    self.status_message = Some(owned(VIDEO_RANGE_MESSAGE));
                }
            },
            ConfigField::AudioBitrate => {
                if 32 <= value && value <= 512 {
                    self.draft.audio_bitrate_kbps = value;
                    let mut text = owned("Audio bitrate set to ");
                    push_decimal(&mut text, value as u64);
                    push_str(&mut text, " kbps.");
                    self.status_message = Some(text);
                } else {
                    self.status_message = Some(owned(AUDIO_RANGE_MESSAGE));
                }
            },
            _ => {},
        }
    }

    fn handle_numeric_key(&mut self, key: KeyInput)
        ensures
            old(self).numeric_key(*final(self), key),
    {
        let mut taken: Option<NumericEdit> = None;
        core::mem::swap(&mut taken, &mut self.numeric_edit);
        let mut edit = match taken {
            Some(edit) => edit,
            None => {
                return;
            },
        };
        match key.code {
            KeyCode::Char(c) => {
                if is_digit_char(c) && chars_of(edit.buffer.as_str()).len() < NUMERIC_EDIT_LIMIT {
                    push_char(&mut edit.buffer, c);
                }
                self.numeric_edit = Some(edit);
            },
            KeyCode::Backspace => {
                let chars = chars_of(edit.buffer.as_str());
                if chars.len() > 0 {
                    edit.buffer = string_from_range(&chars, 0, chars.len() - 1);
                    assert(chars@.subrange(0, chars@.len() - 1) =~= chars@.drop_last());
                }
                self.numeric_edit = Some(edit);
            },
            KeyCode::Esc => {},
            KeyCode::Enter => {
                self.numeric_edit = Some(edit);
                self.commit_numeric_edit();
            },
            _ => {
                self.numeric_edit = Some(edit);
            },
        }
    }

    /// Scrolls the review card up by `amount` lines.
    pub fn scroll_review_up(&mut self, amount: u16)
        ensures
            *final(self) == (App {
                review_scroll: sat_sub16(old(self).review_scroll, amount),
                ..*old(self)
            }),
    {
        self.review_scroll = self.review_scroll.saturating_sub(amount);
    }

    /// Scrolls the progress log up by `amount` lines, leaving the live tail.
    pub fn scroll_progress_up(&mut self, amount: u16)
        ensures
            *final(self) == old(self).progress_up(amount),
    {
        self.progress_scroll = if self.progress_follow {
            amount
        } else if self.progress_scroll_from_top {
            self.progress_scroll.saturating_sub(amount)
        } else {
            self.progress_scroll.saturating_add(amount)
        };
        self.progress_follow = false;
    }

    /// Scrolls the progress log down by `amount` lines; reaching the bottom
    /// follows the live tail again.
    pub fn scroll_progress_down(&mut self, amount: u16)
        ensures
            *final(self) == old(self).progress_down(amount),
    {
        if self.progress_scroll_from_top {
            self.progress_scroll = self.progress_scroll.saturating_add(amount);
        } else {
            self.progress_scroll = self.progress_scroll.saturating_sub(amount);
        }
        if !self.progress_scroll_from_top && self.progress_scroll == 0 {
            self.progress_follow = true;
        }
    }
}

/// Control+C.
pub open spec fn interrupt(key: KeyInput) -> bool {
    key.ctrl && key.code == KeyCode::Char('c')
}

impl App {
    /// `q` is this state after `r` asked for everything to be read again.
    pub open spec fn reprobes(self, q: App) -> bool {
        if self.inputs@.len() == 0 {
            q == self
        } else {
            &&& q == App {
                probes: q.probes,
                prepared: None,
                command_preview: None,
                queue: q.queue,
                job: JobState::Probing,
                status_message: q.status_message,
                effects: q.effects,
                ..self
            }
            &&& q.probes@.len() == 0
            &&& q.queue@.len() == 0
            &&& shows(q.status_message, probing_text(self.inputs@.len() as nat))
            &&& appended(self.effects@, q.effects@)
            &&& (q.effects@.last() matches Effect::Probe(v) && views(v@) == self.input_paths())
        }
    }

    /// `q` is this state after a cancellation was confirmed.
    pub open spec fn cancels(self, q: App) -> bool {
        if !self.worker_running {
            q == self
        } else {
            &&& q == App {
                job: JobState::Cancelling,
                cancel_confirmation: false,
                status_message: q.status_message,
                effects: q.effects,
                ..self
            }
            &&& shows(
                q.status_message,
                if self.queue@.len() > 1 {
                    "Cancelling FFmpeg and stopping the queue…"@
                } else {
                    "Cancelling FFmpeg…"@
                },
            )
            &&& appended(self.effects@, q.effects@)
            &&& q.effects@.last() is Cancel
        }
    }

    /// A key on the folder card.
    pub open spec fn folders_key(self, q: App, key: KeyInput, r: UiCommand) -> bool {
        if interrupt(key) {
            q == self && r == UiCommand::Quit
        } else {
            match key.code {
                KeyCode::Char(c) => if c == 'q' {
                    q == self && r == UiCommand::Quit
                } else if c == '?' {
                    q == App { help_visible: true, ..self } && r == UiCommand::Continue
                } else if c == 'i' || c == 'r' {
                    q == self && r == (UiCommand::OpenInputs { add: false })
                } else if c == 'a' {
                    q == self && r == (UiCommand::OpenInputs { add: true })
                } else if c == 'c' {
                    &&& r == UiCommand::Continue
                    &&& q.input_folder is None
                    &&& self.selects(App { input_folder: self.input_folder, ..q }, Seq::empty())
                } else if c == 'o' {
                    q == self && r == UiCommand::OpenOutput
                } else if c == 'j' {
                    self.folder_focus(q, 1) && r == UiCommand::Continue
                } else if c == 'k' {
                    self.folder_focus(q, -1) && r == UiCommand::Continue
                } else {
                    q == self && r == UiCommand::Continue
                },
                KeyCode::Tab | KeyCode::Down => self.folder_focus(q, 1) && r == UiCommand::Continue,
                KeyCode::BackTab | KeyCode::Up => self.folder_focus(q, -1) && r
                    == UiCommand::Continue,
                KeyCode::Enter => match self.button_focus {
                    Some(NavigationButton::Advance) => self.leaves_folders(q) && r
                        == UiCommand::Continue,
                    _ => q == self && r == (match self.focus {
                        ConfigField::Input => UiCommand::OpenInputs { add: false },
                        ConfigField::Output => UiCommand::OpenOutput,
                        _ => UiCommand::Continue,
                    }),
                },
                _ => q == self && r == UiCommand::Continue,
            }
        }
    }

    /// Enter on a settings row or button.
    pub open spec fn settings_enter(self, q: App) -> bool {
        match self.button_focus {
            Some(NavigationButton::Back) => q == App {
                screen: Screen::Folders,
                focus: ConfigField::Output,
                button_focus: None,
                ..self
            },
            Some(NavigationButton::Advance) => self.prepares(q),
            None => if (self.focus == ConfigField::RateValue && self.draft.rate_control_mode
                == RateControlMode::Bitrate) || (self.focus == ConfigField::AudioBitrate
                && self.audio_bitrate_enabled_spec()) {
                self.begins_edit(q)
            } else {
                q == self
            },
        }
    }

    /// Left (`direction` -1) or Right (1) on the settings card.
    pub open spec fn settings_step(self, q: App, direction: int) -> bool {
        if self.button_focus is None {
            self.adjusts(q, direction)
        } else {
            q == self
        }
    }

    /// A key on the settings card.
    pub open spec fn settings_key(self, q: App, key: KeyInput, r: UiCommand) -> bool {
        if interrupt(key) {
            q == self && r == UiCommand::Quit
        } else {
            match key.code {
                KeyCode::Char(c) => if c == 'q' {
                    q == self && r == UiCommand::Quit
                } else if c == '?' {
                    q == App { help_visible: true, ..self } && r == UiCommand::Continue
                } else if c == 'r' {
                    self.reprobes(q) && r == UiCommand::Continue
                } else if c == 'j' {
                    self.settings_focus_from(q, 1, 1) && r == UiCommand::Continue
                } else if c == 'k' {
                    self.settings_focus_from(q, -1, 1) && r == UiCommand::Continue
                } else if c == 'h' {
                    self.settings_step(q, -1) && r == UiCommand::Continue
                } else if c == 'l' {
                    self.settings_step(q, 1) && r == UiCommand::Continue
                } else {
                    q == self && r == UiCommand::Continue
                },
                KeyCode::Esc => q == App {
                    screen: Screen::Folders,
                    focus: ConfigField::Output,
                    button_focus: None,
                    ..self
                } && r == UiCommand::Continue,
                KeyCode::Tab | KeyCode::Down => self.settings_focus_from(q, 1, 1) && r
                    == UiCommand::Continue,
                KeyCode::BackTab | KeyCode::Up => self.settings_focus_from(q, -1, 1) && r
                    == UiCommand::Continue,
                KeyCode::Left => self.settings_step(q, -1) && r == UiCommand::Continue,
                KeyCode::Right => self.settings_step(q, 1) && r == UiCommand::Continue,
                KeyCode::Enter => self.settings_enter(q) && r == UiCommand::Continue,
                _ => q == self && r == UiCommand::Continue,
            }
        }
    }

    /// A key on the review card.
    pub open spec fn confirm_key(self, q: App, key: KeyInput, r: UiCommand) -> bool {
        match key.code {
            KeyCode::Up => q == App { review_scroll: sat_sub16(self.review_scroll, 1), ..self }
                && r == UiCommand::Continue,
            KeyCode::Down => q == App { review_scroll: sat_add16(self.review_scroll, 1), ..self }
                && r == UiCommand::Continue,
            KeyCode::PageUp => q == App {
                review_scroll: sat_sub16(self.review_scroll, 8),
                ..self
            } && r == UiCommand::Continue,
            KeyCode::PageDown => q == App {
                review_scroll: sat_add16(self.review_scroll, 8),
                ..self
            } && r == UiCommand::Continue,
            KeyCode::Home => q == App { review_scroll: 0, ..self } && r == UiCommand::Continue,
            KeyCode::End => q == App { review_scroll: u16::MAX, ..self } && r
                == UiCommand::Continue,
            KeyCode::Enter => self.starts(q) && r == UiCommand::Continue,
            KeyCode::Esc => {
                &&& q == App {
                    prepared: None,
                    command_preview: None,
                    queue: q.queue,
                    screen: Screen::Settings,
                    button_focus: Some(NavigationButton::Advance),
                    ..self
                }
                &&& q.queue@.len() == 0
                &&& r == UiCommand::Continue
            },
            KeyCode::Char(c) => if c == 'y' {
                self.starts(q) && r == UiCommand::Continue
            } else if c == 'n' {
                &&& q == App {
                    prepared: None,
                    command_preview: None,
                    queue: q.queue,
                    screen: Screen::Settings,
                    button_focus: Some(NavigationButton::Advance),
                    ..self
                }
                &&& q.queue@.len() == 0
                &&& r == UiCommand::Continue
            } else if c == 'q' {
                q == self && r == UiCommand::Quit
            } else {
                q == self && r == UiCommand::Continue
            },
            _ => q == self && r == UiCommand::Continue,
        }
    }

    /// This state after a key scrolled the progress log.
    pub open spec fn progress_scrolled(self, key: KeyInput) -> App {
        match key.code {
            KeyCode::Up => self.progress_up(1),
            KeyCode::Down => self.progress_down(1),
            KeyCode::PageUp => self.progress_up(8),
            KeyCode::PageDown => self.progress_down(8),
            KeyCode::Home => App {
                progress_scroll: 0,
                progress_follow: false,
                progress_scroll_from_top: true,
                ..self
            },
            KeyCode::End => App {
                progress_scroll: 0,
                progress_follow: true,
                progress_scroll_from_top: false,
                ..self
            },
            _ => self,
        }
    }

    /// A key that asks to stop the running queue.
    pub open spec fn asks_to_cancel(key: KeyInput) -> bool {
        ||| interrupt(key)
        ||| key.code == KeyCode::Char('x')
        ||| key.code == KeyCode::Char('q')
        ||| key.code == KeyCode::Esc
    }

    /// A key on the progress card.
    pub open spec fn running_key(self, q: App, key: KeyInput, r: UiCommand) -> bool {
        &&& r == UiCommand::Continue
        &&& if self.cancel_confirmation {
            if key.code == KeyCode::Char('y') || key.code == KeyCode::Enter {
                self.cancels(q)
            } else if key.code == KeyCode::Char('n') || key.code == KeyCode::Esc {
                q == App { cancel_confirmation: false, ..self }
            } else {
                q == self
            }
        } else {
            let mid = self.progress_scrolled(key);
            q == (if App::asks_to_cancel(key) {
                App { cancel_confirmation: true, ..mid }
            } else {
                mid
            })
        }
    }

    /// A key on the result or error card.
    pub open spec fn outcome_key(self, q: App, key: KeyInput, r: UiCommand) -> bool {
        match key.code {
            KeyCode::Enter | KeyCode::Esc => {
                let mid = App {
                    screen: Screen::Folders,
                    focus: ConfigField::Input,
                    button_focus: None,
                    job: self.settled_job(),
                    queue: q.queue,
                    stderr_tail: q.stderr_tail,
                    ..self
                };
                &&& q.queue@.len() == 0
                &&& q.stderr_tail@.len() == 0
                &&& mid.refreshed(q)
                &&& r == UiCommand::Continue
            },
            KeyCode::Char(c) => if c == 'q' {
                q == self && r == UiCommand::Quit
            } else if c == '?' {
                q == App { help_visible: true, ..self } && r == UiCommand::Continue
            } else {
                q == self && r == UiCommand::Continue
            },
            _ => q == self && r == UiCommand::Continue,
        }
    }

    /// One key press, wherever the keyboard is.
    pub open spec fn key_step(self, q: App, key: KeyInput, r: UiCommand) -> bool {
        if self.picker is Some {
            &&& r == UiCommand::Continue
            &&& exists|p: Picker, action: PickerAction|
                self.picker.unwrap().key_step(p, key, action) && #[trigger] App {
                    picker: Some(p),
                    ..self
                }.closes_picker(q, action)
        } else if self.help_visible {
            &&& r == UiCommand::Continue
            &&& q == (if key.code == KeyCode::Esc || key.code == KeyCode::Char('?') || key.code
                == KeyCode::Char('q') {
                App { help_visible: false, ..self }
            } else {
                self
            })
        } else if self.numeric_edit is Some {
            self.numeric_key(q, key) && r == UiCommand::Continue
        } else {
            match self.screen {
                Screen::Folders => self.folders_key(q, key, r),
                Screen::Settings => self.settings_key(q, key, r),
                Screen::Confirm => self.confirm_key(q, key, r),
                Screen::Running => self.running_key(q, key, r),
                _ => self.outcome_key(q, key, r),
            }
        }
    }
}

impl App {
    fn handle_folders_key(&mut self, key: KeyInput) -> (r: UiCommand)
        ensures
            old(self).folders_key(*final(self), key, r),
    {
        if key.ctrl && key.code == KeyCode::Char('c') {
            return UiCommand::Quit;
        }
        match key.code {
            KeyCode::Char(c) => {
                if c == 'q' {
                    UiCommand::Quit
                } else if c == '?' {
                    self.help_visible = true;
                    UiCommand::Continue
                } else if c == 'i' || c == 'r' {
                    UiCommand::OpenInputs { add: false }
                } else if c == 'a' {
                    UiCommand::OpenInputs { add: true }
                } else if c == 'c' {
                    self.select_inputs(Vec::new());
                    assert(views(Seq::<String>::empty()) =~= Seq::<Seq<char>>::empty());
                    let ghost mid = *self;
                    self.input_folder = None;
                    assert(mid == (App { input_folder: mid.input_folder, ..*self }));
                    UiCommand::Continue
                } else if c == 'o' {
                    UiCommand::OpenOutput
                } else if c == 'j' {
                    self.move_folder_focus(1);
                    UiCommand::Continue
                } else if c == 'k' {
                    self.move_folder_focus(-1);
                    UiCommand::Continue
                } else {
                    UiCommand::Continue
                }
            },
            KeyCode::Tab | KeyCode::Down => {
                self.move_folder_focus(1);
                UiCommand::Continue
            },
            KeyCode::BackTab | KeyCode::Up => {
                self.move_folder_focus(-1);
                UiCommand::Continue
            },
            KeyCode::Enter => match self.button_focus {
                Some(NavigationButton::Advance) => {
                    self.leave_folders();
                    UiCommand::Continue
                },
                _ => match self.focus {
                    ConfigField::Input => UiCommand::OpenInputs { add: false },
                    ConfigField::Output => UiCommand::OpenOutput,
                    _ => UiCommand::Continue,
                },
            },
            _ => UiCommand::Continue,
        }
    }

    fn handle_settings_key(&mut self, key: KeyInput) -> (r: UiCommand)
        ensures
            old(self).settings_key(*final(self), key, r),
    {
        if key.ctrl && key.code == KeyCode::Char('c') {
            return UiCommand::Quit;
        }
        match key.code {
            KeyCode::Char(c) => {
                if c == 'q' {
                    UiCommand::Quit
                } else if c == '?' {
                    self.help_visible = true;
                    UiCommand::Continue
                } else if c == 'r' {
                    self.reprobe_inputs();
                    UiCommand::Continue
                } else if c == 'j' {
                    self.move_settings_focus(1);
                    UiCommand::Continue
                } else if c == 'k' {
                    self.move_settings_focus(-1);
                    UiCommand::Continue
                } else if c == 'h' {
                    if self.button_focus.is_none() {
                        self.adjust_focused(-1);
                    }
                    UiCommand::Continue
                } else if c == 'l' {
                    if self.button_focus.is_none() {
                        self.adjust_focused(1);
                    }
                    UiCommand::Continue
                } else {
                    UiCommand::Continue
                }
            },
            KeyCode::Esc => {
                self.screen = Screen::Folders;
                self.focus = ConfigField::Output;
                self.button_focus = None;
                UiCommand::Continue
            },
            KeyCode::Tab | KeyCode::Down => {
                self.move_settings_focus(1);
                UiCommand::Continue
            },
            KeyCode::BackTab | KeyCode::Up => {
                self.move_settings_focus(-1);
                UiCommand::Continue
            },
            KeyCode::Left => {
                if self.button_focus.is_none() {
                    self.adjust_focused(-1);
                }
                UiCommand::Continue
            },
            KeyCode::Right => {
                if self.button_focus.is_none() {
                    self.adjust_focused(1);
                }
                UiCommand::Continue
            },
            KeyCode::Enter => {
                match self.button_focus {
                    Some(NavigationButton::Back) => {
                        self.screen = Screen::Folders;
                        self.focus = ConfigField::Output;
                        self.button_focus = None;
                    },
                    Some(NavigationButton::Advance) => {
                        self.prepare_confirmation();
                    },
                    None => {
                        if (self.focus == ConfigField::RateValue && self.draft.rate_control_mode
                            == RateControlMode::Bitrate) || (self.focus == ConfigField::AudioBitrate
                            && self.audio_bitrate_enabled()) {
                            self.begin_numeric_edit();
                        }
                    },
                }
                UiCommand::Continue
            },
            _ => UiCommand::Continue,
        }
    }

    fn leave_review(&mut self)
        ensures
            *final(self) == (App {
                prepared: None,
                command_preview: None,
                queue: final(self).queue,
                screen: Screen::Settings,
                button_focus: Some(NavigationButton::Advance),
                ..*old(self)
            }),
            final(self).queue@.len() == 0,
    {
        self.invalidate_plan();
        self.screen = Screen::Settings;
        self.button_focus = Some(NavigationButton::Advance);
    }

    fn handle_confirm_key(&mut self, key: KeyInput) -> (r: UiCommand)
        ensures
            old(self).confirm_key(*final(self), key, r),
    {
        match key.code {
            KeyCode::Up => self.scroll_review_up(1),
            KeyCode::Down => self.review_scroll = self.review_scroll.saturating_add(1),
            KeyCode::PageUp => self.scroll_review_up(8),
            KeyCode::PageDown => self.review_scroll = self.review_scroll.saturating_add(8),
            KeyCode::Home => self.review_scroll = 0,
            KeyCode::End => self.review_scroll = u16::MAX,
            KeyCode::Enter => self.start_prepared(),
            KeyCode::Esc => self.leave_review(),
            KeyCode::Char(c) => {
                if c == 'y' {
                    self.start_prepared();
                } else if c == 'n' {
                    self.leave_review();
                } else if c == 'q' {
                    return UiCommand::Quit;
                }
            },
            _ => {},
        }
        UiCommand::Continue
    }

    fn handle_running_key(&mut self, key: KeyInput) -> (r: UiCommand)
        ensures
            old(self).running_key(*final(self), key, r),
    {
        if self.cancel_confirmation {
            if key.code == KeyCode::Char('y') || key.code == KeyCode::Enter {
                self.request_cancel();
            } else if key.code == KeyCode::Char('n') || key.code == KeyCode::Esc {
                self.cancel_confirmation = false;
            }
            return UiCommand::Continue;
        }
        match key.code {
            KeyCode::Up => self.scroll_progress_up(1),
            KeyCode::Down => self.scroll_progress_down(1),
            KeyCode::PageUp => self.scroll_progress_up(8),
            KeyCode::PageDown => self.scroll_progress_down(8),
            KeyCode::Home => {
                self.progress_scroll = 0;
                self.progress_follow = false;
                self.progress_scroll_from_top = true;
            },
            KeyCode::End => {
                self.progress_scroll = 0;
                self.progress_follow = true;
                self.progress_scroll_from_top = false;
            },
            _ => {},
        }
        if (key.ctrl && key.code == KeyCode::Char('c')) || key.code == KeyCode::Char('x')
            || key.code == KeyCode::Char('q') || key.code == KeyCode::Esc {
            self.cancel_confirmation = true;
        }
        UiCommand::Continue
    }

    fn handle_outcome_key(&mut self, key: KeyInput) -> (r: UiCommand)
        ensures
            old(self).outcome_key(*final(self), key, r),
    {
        match key.code {
            KeyCode::Enter | KeyCode::Esc => {
                self.screen = Screen::Folders;
                self.focus = ConfigField::Input;
                self.button_focus = None;
                self.job = self.settled_job_state();
                self.queue = Vec::new();
                self.stderr_tail = Vec::new();
                self.refresh_ready_message();
                UiCommand::Continue
            },
            KeyCode::Char(c) => {
                if c == 'q' {
                    UiCommand::Quit
                } else if c == '?' {
                    self.help_visible = true;
                    UiCommand::Continue
                } else {
                    UiCommand::Continue
                }
            },
            _ => UiCommand::Continue,
        }
    }

    /// One key press: the open picker, the help overlay, the bitrate editor and
    /// the current card get it, in that order.
    pub fn handle_key(&mut self, key: KeyInput) -> (r: UiCommand)
        ensures
            old(self).key_step(*final(self), key, r),
    {
        if self.picker.is_some() {
            let mut picker = match self.picker.take() {
                Some(p) => p,
                None => {
                    return UiCommand::Continue;
                },
            };
            let ghost before = picker;
            let action = picker.handle_key(key);
            self.picker = Some(picker);
            let ghost mid = *self;
            let ghost act = action;
            let r = self.close_picker(action);
            assert(before.key_step(picker, key, act));
            assert(mid == (App { picker: Some(picker), ..*old(self) }));
            assert(mid.closes_picker(*self, act));
            return r;
        }
        if self.help_visible {
            if key.code == KeyCode::Esc || key.code == KeyCode::Char('?') || key.code
                == KeyCode::Char('q') {
                self.help_visible = false;
            }
            return UiCommand::Continue;
        }
        if self.numeric_edit.is_some() {
            self.handle_numeric_key(key);
            return UiCommand::Continue;
        }
        match self.screen {
            Screen::Folders => self.handle_folders_key(key),
            Screen::Settings => self.handle_settings_key(key),
            Screen::Confirm => self.handle_confirm_key(key),
            Screen::Running => self.handle_running_key(key),
            _ => self.handle_outcome_key(key),
        }
    }

    /// Hands the host the work it owes, oldest first.
    pub fn take_effects(&mut self) -> (r: Vec<Effect>)
        ensures
            r@ == old(self).effects@,
            final(self).effects@.len() == 0,
            *final(self) == (App { effects: final(self).effects, ..*old(self) }),
    {
        let mut taken: Vec<Effect> = Vec::new();
        core::mem::swap(&mut taken, &mut self.effects);
        taken
    }
}

// ------------------------------------------------------------ laws

/// Once the queue is over, no file is left pending or running, the worker is
/// gone, and the result card shows exactly when a file was converted or the run
/// was cancelled; otherwise the error card shows.
pub proof fn lemma_finished_queue_is_settled(p: App, q: App, elapsed_ms: u64, cancelled: bool)
    requires
        p.finishes(q, elapsed_ms, cancelled),
    ensures
        forall|i: int|
            0 <= i < q.queue@.len() ==> !(#[trigger] q.queue@[i].outcome is Pending) && !(
            q.queue@[i].outcome is Running),
        q.queue@.len() == p.queue@.len(),
        !q.worker_running,
        q.job == (JobState::Finished { elapsed_ms, cancelled }),
        q.screen == (if succeeded_upto(q.queue@, q.queue@.len()) > 0 || cancelled {
            Screen::Result
        } else {
            Screen::Error
        }),
{
    assert forall|i: int| 0 <= i < q.queue@.len() implies !(#[trigger] q.queue@[i].outcome is Pending)
        && !(q.queue@[i].outcome is Running) by {
        assert(q.queue@[i] == settled_queue(p.queue@)[i]);
    }
}

proof fn lemma_dedup_properties(s: Seq<Seq<char>>)
    ensures
        forall|i: int, j: int|
            0 <= i < j < dedup_paths(s).len() ==> !std_path_eq(
                #[trigger] dedup_paths(s)[j],
                #[trigger] dedup_paths(s)[i],
            ),
        forall|i: int|
            0 <= i < s.len() ==> dedup_paths(s).contains(#[trigger] s[i]) || has_path(
                dedup_paths(s),
                s[i],
            ),
        forall|k: int| 0 <= k < dedup_paths(s).len() ==> s.contains(#[trigger] dedup_paths(s)[k]),
    decreases s.len(),
{
    if s.len() > 0 {
        let rest = s.drop_last();
        lemma_dedup_properties(rest);
        let d = dedup_paths(rest);
        assert forall|i: int| 0 <= i < s.len() implies dedup_paths(s).contains(#[trigger] s[i])
            || has_path(dedup_paths(s), s[i]) by {
            if i < s.len() - 1 {
                assert(s[i] == rest[i]);
                if d.contains(rest[i]) {
                    let w = choose|w: int| 0 <= w < d.len() && d[w] == rest[i];
                    assert(dedup_paths(s)[w] == d[w]);
                } else {
                    let w = choose|w: int| 0 <= w < d.len() && std_path_eq(rest[i], d[w]);
                    assert(dedup_paths(s)[w] == d[w]);
                }
            } else {
                assert(s[i] == s.last());
                if has_path(d, s.last()) {
                    assert(dedup_paths(s) == d);
                } else {
                    assert(dedup_paths(s)[d.len() as int] == s.last());
                }
            }
        }
        assert forall|k: int| 0 <= k < dedup_paths(s).len() implies s.contains(
            #[trigger] dedup_paths(s)[k],
        ) by {
            if k < d.len() {
                assert(rest.contains(d[k]));
                let w = choose|w: int| 0 <= w < rest.len() && rest[w] == d[k];
                assert(s[w] == rest[w]);
            } else {
                assert(s[s.len() - 1] == s.last());
            }
        }
    }
}

/// The selection holds every path it was given, as a path, and no path twice:
/// a later entry is never, as a path, an earlier one.
pub proof fn lemma_selection_keeps_each_path_once(p: App, q: App, paths: Seq<Seq<char>>)
    requires
        p.selects(q, paths),
    ensures
        forall|i: int, j: int|
            0 <= i < j < q.inputs@.len() ==> !std_path_eq(
                #[trigger] q.inputs@[j]@,
                #[trigger] q.inputs@[i]@,
            ),
        forall|i: int|
            0 <= i < paths.len() ==> q.input_paths().contains(#[trigger] paths[i]) || has_path(
                q.input_paths(),
                paths[i],
            ),
        forall|k: int| 0 <= k < q.inputs@.len() ==> paths.contains(#[trigger] q.inputs@[k]@),
{
    lemma_dedup_properties(paths);
    let d = dedup_paths(paths);
    assert forall|i: int, j: int|
        0 <= i < j < q.inputs@.len() implies !std_path_eq(
        #[trigger] q.inputs@[j]@,
        #[trigger] q.inputs@[i]@,
    ) by {
        assert(q.inputs@[j]@ == d[j] && q.inputs@[i]@ == d[i]);
    }
    assert forall|k: int| 0 <= k < q.inputs@.len() implies paths.contains(#[trigger] q.inputs@[k]@) by {
        assert(q.inputs@[k]@ == d[k]);
    }
}

proof fn lemma_no_probe_failure(app: App, i: nat, k: int)
    requires
        app.probe_failure(i) is None,
        i <= k < app.inputs@.len(),
    ensures
        probe_error_of(app.probes@, app.inputs@[k]@) is None,
    decreases k - i,
{
    if i < k {
        lemma_no_probe_failure(app, i + 1, k);
    }
}

proof fn lemma_no_queue_failure(app: App, i: nat, k: int)
    requires
        app.queue_failure(i) is None,
        i <= k < app.inputs@.len(),
        media_of(app.probes@, app.inputs@[k]@) is Some,
    ensures
        !app.duplicate_before(
            output_for(opt_text(app.output_folder), app.inputs@[k]@, app.draft.container).unwrap(),
            k as nat,
        ),
        app.output_folder is Some ==> output_for(opt_text(app.output_folder), app.inputs@[k]@, app.draft.container) is Some,
    decreases k - i,
{
    if i < k {
        if media_of(app.probes@, app.inputs@[i as int]@) is Some {
            let input = app.inputs@[i as int]@;
            let out = output_for(opt_text(app.output_folder), input, app.draft.container);
            assert(job_error(app.draft, input, out, media_of(app.probes@, input).unwrap().audio is Some) is None);
        }
        lemma_no_queue_failure(app, i + 1, k);
    }
}

/// Unreadable inputs and duplicate output names block a batch before it
/// starts: when asking for the plan goes ahead, every selected file was read,
/// and no two files write the same output path.
pub proof fn lemma_plan_needs_readable_inputs_and_distinct_outputs(p: App, q: App)
    requires
        p.prepares(q),
        q.effects@ != p.effects@,
    ensures
        forall|i: int| 0 <= i < p.inputs@.len() ==> #[trigger] media_of(p.probes@, p.inputs@[i]@) is Some,
        forall|i: int, j: int|
            0 <= i < j < p.inputs@.len() ==> !std_path_eq(
                output_for(opt_text(p.output_folder), #[trigger] p.inputs@[j]@, p.draft.container).unwrap(),
                output_for(opt_text(p.output_folder), #[trigger] p.inputs@[i]@, p.draft.container).unwrap(),
            ),
{
    assert(p.inputs@.len() > 0 && p.output_folder is Some && p.all_probed_spec() && p.validation_text() is None);
    assert(p.probe_failure(0) is None && p.queue_failure(0) is None);
    assert forall|i: int| 0 <= i < p.inputs@.len() implies #[trigger] media_of(p.probes@, p.inputs@[i]@) is Some by {
        lemma_no_probe_failure(p, 0, i);
        assert(probe_index(p.probes@, p.inputs@[i]@) is Some);
    }
    assert forall|i: int, j: int| 0 <= i < j < p.inputs@.len() implies !std_path_eq(
        output_for(opt_text(p.output_folder), #[trigger] p.inputs@[j]@, p.draft.container).unwrap(),
        output_for(opt_text(p.output_folder), #[trigger] p.inputs@[i]@, p.draft.container).unwrap(),
    ) by {
        assert(media_of(p.probes@, p.inputs@[i]@) is Some) by {
            lemma_no_probe_failure(p, 0, i);
            assert(probe_index(p.probes@, p.inputs@[i]@) is Some);
        }
        assert(media_of(p.probes@, p.inputs@[j]@) is Some) by {
            lemma_no_probe_failure(p, 0, j);
            assert(probe_index(p.probes@, p.inputs@[j]@) is Some);
        }
        lemma_no_queue_failure(p, 0, j);
        lemma_no_queue_failure(p, 0, i);
    }
}

proof fn lemma_usable_video_member(names: Seq<Seq<char>>, s: Seq<VideoCodec>, k: int)
    requires
        0 <= k < usable_video(names, s).len(),
    ensures
        s.contains(usable_video(names, s)[k]),
        names.contains(usable_video(names, s)[k].encoder_text()),
    decreases s.len(),
{
    let rest = usable_video(names, s.drop_last());
    if k < rest.len() {
        lemma_usable_video_member(names, s.drop_last(), k);
        let v = rest[k];
        let j = choose|j: int| 0 <= j < s.drop_last().len() && s.drop_last()[j] == v;
        assert(s[j] == v);
    } else {
        assert(s[s.len() - 1] == s.last());
    }
}

proof fn lemma_usable_audio_member(names: Seq<Seq<char>>, s: Seq<AudioCodec>, k: int)
    requires
        0 <= k < usable_audio(names, s).len(),
    ensures
        s.contains(usable_audio(names, s)[k]),
        match usable_audio(names, s)[k].encoder_text() {
            Some(name) => names.contains(name),
            None => true,
        },
    decreases s.len(),
{
    let rest = usable_audio(names, s.drop_last());
    if k < rest.len() {
        lemma_usable_audio_member(names, s.drop_last(), k);
        let v = rest[k];
        let j = choose|j: int| 0 <= j < s.drop_last().len() && s.drop_last()[j] == v;
        assert(s[j] == v);
    } else {
        assert(s[s.len() - 1] == s.last());
    }
}

/// The codec rows only ever offer what the container allows and the FFmpeg
/// build has: stepping the video or audio codec lands on such a codec, or
/// leaves the draft as it was when there is none.
pub proof fn lemma_codec_rows_offer_usable_codecs(app: App, d: DraftConfig, direction: int)
    requires
        app.focus == ConfigField::VideoCodec || app.focus == ConfigField::AudioCodec,
        app.adjusted_draft(d, direction),
    ensures
        d == app.draft || (app.focus == ConfigField::VideoCodec && d == (DraftConfig {
            video_codec: d.video_codec,
            ..app.draft
        }) && video_allowed(d.container, d.video_codec) && app.toolchain.encoder_names().contains(
            d.video_codec.encoder_text(),
        )) || (app.focus == ConfigField::AudioCodec && d == (DraftConfig {
            audio_codec: d.audio_codec,
            ..app.draft
        }) && audio_allowed(d.container, d.audio_codec) && match d.audio_codec.encoder_text() {
            Some(name) => app.toolchain.encoder_names().contains(name),
            None => true,
        }),
{
    let names = app.toolchain.encoder_names();
    if app.focus == ConfigField::VideoCodec {
        let available = usable_video(names, supported_video(app.draft.container));
        if available.len() > 0 {
            let k = (index_or_first(available, app.draft.video_codec) + direction) % (available.len() as int);
            lemma_usable_video_member(names, supported_video(app.draft.container), k);
            lemma_codec_policy(app.draft.container, available[k], AudioCodec::Aac);
        }
    } else {
        let available = usable_audio(names, supported_audio(app.draft.container));
        if available.len() > 0 {
            let k = (index_or_first(available, app.draft.audio_codec) + direction) % (available.len() as int);
            lemma_usable_audio_member(names, supported_audio(app.draft.container), k);
            lemma_codec_policy(app.draft.container, VideoCodec::H264, available[k]);
        }
    }
}

} // verus!
