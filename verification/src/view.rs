//! What the cards say: the text of each line and the colour role of each run
//! of it. The host draws these lines; it decides nothing about their content.
use vstd::prelude::*;
use crate::app::{
    App, ConfigField, HoverTarget, JobOutcome, JobRecord, JobState, Screen, label_of, succeeded_upto,
};
use crate::display::{capped, capped_text, cells_sum, human_size, human_size_text, str_columns, str_width};
use crate::picker::{Picker, PickerMode, Row, list_window_of};
use crate::input::{KeyCode, Rect};
use crate::domain::{AudioCodec, EstimateBasis, SizeEstimate};
use crate::display::{duration_text, fixed_width, fixed_width_text, format_duration};
use crate::text::{decimal, digit_char, owned, push_decimal, push_str};

verus! {

/// The colour role of a run of text; the host maps each role to its palette.
#[derive(Debug, Clone, Copy, PartialEq, Eq, Structural)]
pub enum Ink {
    Text,
    Muted,
    Faint,
    Accent,
    Secondary,
    Warning,
    Error,
    Success,
}

/// A run of text in one colour role, bold or not.
#[derive(Debug, Clone)]
pub struct Span {
    pub text: String,
    pub ink: Ink,
    pub bold: bool,
}

impl View for Span {
    type V = (Seq<char>, Ink, bool);

    open spec fn view(&self) -> (Seq<char>, Ink, bool) {
        (self.text@, self.ink, self.bold)
    }
}

/// A drawn line: its runs, left to right.
pub open spec fn line_view(line: Seq<Span>) -> Seq<(Seq<char>, Ink, bool)> {
    line.map_values(|s: Span| s@)
}

/// Lines top to bottom.
pub open spec fn lines_view(lines: Seq<Vec<Span>>) -> Seq<Seq<(Seq<char>, Ink, bool)>> {
    lines.map_values(|l: Vec<Span>| line_view(l@))
}

/// A line of one run.
pub open spec fn plain(text: Seq<char>, ink: Ink) -> Seq<(Seq<char>, Ink, bool)> {
    seq![(text, ink, false)]
}

pub open spec fn strong(text: Seq<char>, ink: Ink) -> Seq<(Seq<char>, Ink, bool)> {
    seq![(text, ink, true)]
}

pub open spec fn blank() -> Seq<(Seq<char>, Ink, bool)> {
    Seq::empty()
}

fn run(text: String, ink: Ink, bold: bool) -> (r: Vec<Span>)
    ensures
        line_view(r@) == seq![(text@, ink, bold)],
{
    let mut r: Vec<Span> = Vec::new();
    r.push(Span { text, ink, bold });
    assert(line_view(r@) =~= seq![(text@, ink, bold)]);
    r
}

fn push_line(lines: &mut Vec<Vec<Span>>, line: Vec<Span>)
    ensures
        lines_view(final(lines)@) == lines_view(old(lines)@).push(line_view(line@)),
{
    let ghost before = lines@;
    lines.push(line);
    assert(lines_view(lines@) =~= lines_view(before).push(line_view(line@)));
}

fn push_run(line: &mut Vec<Span>, text: String, ink: Ink, bold: bool)
    ensures
        line_view(final(line)@) == line_view(old(line)@).push((text@, ink, bold)),
{
    let ghost before = line@;
    line.push(Span { text, ink, bold });
    assert(line_view(line@) =~= line_view(before).push((text@, ink, bold)));
}

fn text_of(s: &str) -> (r: String)
    ensures
        r@ == s@,
{
    owned(s)
}

// ---------------------------------------------------------------- results

/// The marker, what happened and the colour of one queued file's row.
pub open spec fn outcome_parts(record: JobRecord) -> (Seq<char>, Seq<char>, Ink) {
    match record.outcome {
        JobOutcome::Succeeded { elapsed_ms } => (
            "✓"@,
            record.output@ + "  ("@ + duration_text((elapsed_ms / 1000) as nat) + ")"@,
            Ink::Accent,
        ),
        JobOutcome::Failed(error) => ("✗"@, error@, Ink::Error),
        JobOutcome::Cancelled => ("■"@, "cancelled"@, Ink::Warning),
        JobOutcome::Skipped => ("·"@, "not started"@, Ink::Muted),
        _ => ("·"@, "running"@, Ink::Muted),
    }
}

/// One row per queued file: marker, the file's name in 28 cells, what happened.
pub open spec fn outcome_row_of(record: JobRecord) -> Seq<(Seq<char>, Ink, bool)> {
    let parts = outcome_parts(record);
    seq![
        (parts.0 + " "@, parts.2, false),
        (fixed_width_text(label_of(record.input@), 28), parts.2, false),
        (parts.1, parts.2, false),
    ]
}

/// One row per queued file, so a partly failed run says exactly what
/// happened to what.
pub fn outcome_row(record: &JobRecord) -> (r: Vec<Span>)
    ensures
        line_view(r@) == outcome_row_of(*record),
{
    let (marker, detail, ink): (&str, String, Ink) = match &record.outcome {
        JobOutcome::Succeeded { elapsed_ms } => {
            let mut d = owned(record.output.as_str());
            push_str(&mut d, "  (");
            let clock = format_duration(*elapsed_ms / 1000);
            push_str(&mut d, clock.as_str());
            push_str(&mut d, ")");
            ("✓", d, Ink::Accent)
        },
        JobOutcome::Failed(error) => ("✗", owned(error.as_str()), Ink::Error),
        JobOutcome::Cancelled => ("■", text_of("cancelled"), Ink::Warning),
        JobOutcome::Skipped => ("·", text_of("not started"), Ink::Muted),
        JobOutcome::Pending | JobOutcome::Running => ("·", text_of("running"), Ink::Muted),
    };
    assert(detail@ == outcome_parts(*record).1);
    let mut head = owned(marker);
    push_str(&mut head, " ");
    let label = crate::app::file_label(record.input.as_str());
    let name = fixed_width(label.as_str(), 28);
    let mut line: Vec<Span> = Vec::new();
    push_run(&mut line, head, ink, false);
    push_run(&mut line, name, ink, false);
    push_run(&mut line, detail, ink, false);
    assert(line_view(line@) =~= outcome_row_of(*record));
    line
}

/// The colour of the result card: success, or error on the error screen.
pub open spec fn outcome_ink(screen: Screen) -> Ink {
    if screen == Screen::Error {
        Ink::Error
    } else {
        Ink::Success
    }
}

/// What a finished queue took and whether it was cancelled.
pub open spec fn finished_of(job: JobState) -> (u64, bool) {
    match job {
        JobState::Finished { elapsed_ms, cancelled } => (elapsed_ms, cancelled),
        _ => (0, false),
    }
}

/// The headline of a finished card.
pub open spec fn outcome_head(app: App) -> Seq<Seq<(Seq<char>, Ink, bool)>> {
    let colour = outcome_ink(app.screen);
    let (elapsed_ms, cancelled) = finished_of(app.job);
    let queue = app.queue@;
    if queue.len() == 1 {
        match queue[0].outcome {
            JobOutcome::Succeeded { elapsed_ms: took } => seq![
                strong("CONVERSION COMPLETE"@, colour),
                plain("Output: "@ + queue[0].output@, colour),
                plain("Elapsed: "@ + duration_text((took / 1000) as nat), Ink::Muted),
            ],
            JobOutcome::Cancelled | JobOutcome::Skipped => seq![
                plain("CONVERSION CANCELLED"@, Ink::Warning),
                plain("The app-owned temporary output was removed."@, Ink::Muted),
            ],
            JobOutcome::Failed(error) => seq![
                strong(error@, Ink::Error),
                plain("Nothing was written to the destination."@, Ink::Muted),
            ],
            _ => seq![plain("The job has finished."@, colour)],
        }
    } else {
        let converted = succeeded_upto(queue, queue.len());
        let all = converted == queue.len();
        let title = if cancelled {
            "QUEUE CANCELLED"@
        } else {
            "QUEUE COMPLETE"@
        };
        let title_ink = if !cancelled && all {
            colour
        } else {
            Ink::Warning
        };
        let count = decimal(converted) + " of "@ + decimal(queue.len()) + " files converted in "@
            + duration_text((elapsed_ms / 1000) as nat) + "."@;
        let headline = if cancelled {
            "Queue cancelled: "@ + count
        } else {
            count
        };
        seq![strong(title, title_ink), plain(headline, if all { colour } else { Ink::Warning })]
    }
}

/// The rows of the first `n` queued files.
pub open spec fn outcome_rows(queue: Seq<JobRecord>, n: nat) -> Seq<Seq<(Seq<char>, Ink, bool)>>
    decreases n,
{
    if n == 0 || queue.len() == 0 {
        Seq::empty()
    } else if n > queue.len() {
        outcome_rows(queue, queue.len())
    } else {
        outcome_rows(queue, (n - 1) as nat).push(outcome_row_of(queue[n - 1]))
    }
}

/// The last `n` lines of FFmpeg's output, in order.
pub open spec fn tail_lines(tail: Seq<String>, n: nat) -> Seq<Seq<(Seq<char>, Ink, bool)>> {
    let from = if tail.len() > n {
        tail.len() - n
    } else {
        0
    };
    Seq::new(
        (tail.len() - from) as nat,
        |i: int| plain(tail[from + i]@, Ink::Warning),
    )
}

/// The finished card: the headline, the row of each file when there were
/// several (as many as `card_height` leaves room for), and on the error
/// screen the last lines FFmpeg wrote.
pub open spec fn outcome_text(app: App, card_height: u16) -> Seq<Seq<(Seq<char>, Ink, bool)>> {
    let queue = app.queue@;
    let rows = if queue.len() > 1 {
        seq![blank()] + outcome_rows(
            queue,
            if card_height >= 6 {
                (card_height - 6) as nat
            } else {
                0
            },
        )
    } else {
        Seq::empty()
    };
    let messages = if app.screen == Screen::Error && app.stderr_tail@.len() > 0 {
        seq![blank(), plain("Recent FFmpeg output:"@, Ink::Muted)] + tail_lines(app.stderr_tail@, 6)
    } else {
        Seq::empty()
    };
    outcome_head(app) + rows + messages
}

fn duration_of_ms(ms: u64) -> (r: String)
    ensures
        r@ == duration_text((ms / 1000) as nat),
{
    format_duration(ms / 1000)
}

fn outcome_head_lines(app: &App) -> (r: Vec<Vec<Span>>)
    ensures
        lines_view(r@) == outcome_head(*app),
{
    let colour = if app.screen == Screen::Error {
        Ink::Error
    } else {
        Ink::Success
    };
    let (elapsed_ms, cancelled) = match &app.job {
        JobState::Finished { elapsed_ms, cancelled } => (*elapsed_ms, *cancelled),
        _ => (0u64, false),
    };
    let mut lines: Vec<Vec<Span>> = Vec::new();
    if app.queue.len() == 1 {
        let record = &app.queue[0];
        match &record.outcome {
            JobOutcome::Succeeded { elapsed_ms: took } => {
                push_line(&mut lines, run(text_of("CONVERSION COMPLETE"), colour, true));
                let mut output = text_of("Output: ");
                push_str(&mut output, record.output.as_str());
                push_line(&mut lines, run(output, colour, false));
                let mut took_text = text_of("Elapsed: ");
                let clock = duration_of_ms(*took);
                push_str(&mut took_text, clock.as_str());
                push_line(&mut lines, run(took_text, Ink::Muted, false));
            },
            JobOutcome::Cancelled | JobOutcome::Skipped => {
                push_line(&mut lines, run(text_of("CONVERSION CANCELLED"), Ink::Warning, false));
                push_line(
                    &mut lines,
                    run(text_of("The app-owned temporary output was removed."), Ink::Muted, false),
                );
            },
            JobOutcome::Failed(error) => {
                push_line(&mut lines, run(owned(error.as_str()), Ink::Error, true));
                push_line(
                    &mut lines,
                    run(text_of("Nothing was written to the destination."), Ink::Muted, false),
                );
            },
            JobOutcome::Pending | JobOutcome::Running => {
                push_line(&mut lines, run(text_of("The job has finished."), colour, false));
            },
        }
    } else {
        let converted = app.succeeded_count();
        let total = app.queue.len();
        let all = converted == total;
        let title = if cancelled {
            text_of("QUEUE CANCELLED")
        } else {
            text_of("QUEUE COMPLETE")
        };
        let title_ink = if !cancelled && all {
            colour
        } else {
            Ink::Warning
        };
        push_line(&mut lines, run(title, title_ink, true));
        let mut headline = if cancelled {
            text_of("Queue cancelled: ")
        } else {
            String::new()
        };
        push_decimal(&mut headline, converted as u64);
        push_str(&mut headline, " of ");
        push_decimal(&mut headline, total as u64);
        push_str(&mut headline, " files converted in ");
        let clock = duration_of_ms(elapsed_ms);
        push_str(&mut headline, clock.as_str());
        push_str(&mut headline, ".");
        proof {
            let count = decimal(converted as nat) + " of "@ + decimal(total as nat)
                + " files converted in "@ + duration_text((elapsed_ms / 1000) as nat) + "."@;
            if cancelled {
                assert(headline@ =~= "Queue cancelled: "@ + count);
            } else {
                assert(headline@ =~= count);
            }
        }
        push_line(&mut lines, run(headline, if all { colour } else { Ink::Warning }, false));
    }
    assert(lines_view(lines@) =~= outcome_head(*app));
    lines
}

/// The finished card's lines.
pub fn outcome_lines(app: &App, card_height: u16) -> (r: Vec<Vec<Span>>)
    ensures
        lines_view(r@) == outcome_text(*app, card_height),
{
    let mut lines = outcome_head_lines(app);
    let ghost head = lines_view(lines@);
    if app.queue.len() > 1 {
        push_line(&mut lines, Vec::new());
        assert(line_view(Seq::<Span>::empty()) =~= blank());
        let available = card_height.saturating_sub(6) as usize;
        let ghost start = lines_view(lines@);
        let mut i: usize = 0;
        while i < app.queue.len() && i < available
            invariant
                i <= app.queue@.len(),
                i <= available,
                available == (if card_height >= 6 { (card_height - 6) as nat } else { 0 }),
                lines_view(lines@) == start + outcome_rows(app.queue@, i as nat),
            decreases app.queue.len() - i,
        {
            let row = outcome_row(&app.queue[i]);
            push_line(&mut lines, row);
            proof {
                assert(outcome_rows(app.queue@, (i + 1) as nat) == outcome_rows(app.queue@, i as nat).push(
                    outcome_row_of(app.queue@[i as int]),
                ));
                assert(lines_view(lines@) =~= start + outcome_rows(app.queue@, (i + 1) as nat));
            }
            i = i + 1;
        }
        proof {
            if available > app.queue@.len() {
                assert(outcome_rows(app.queue@, available as nat) == outcome_rows(
                    app.queue@,
                    app.queue@.len(),
                ));
            }
            assert(start == head + seq![blank()]);
            assert(lines_view(lines@) =~= head + (seq![blank()] + outcome_rows(app.queue@, available as nat)));
        }
    }
    let ghost middle = lines_view(lines@);
    if app.screen == Screen::Error && app.stderr_tail.len() > 0 {
        push_line(&mut lines, Vec::new());
        assert(line_view(Seq::<Span>::empty()) =~= blank());
        push_line(&mut lines, run(text_of("Recent FFmpeg output:"), Ink::Muted, false));
        let n = app.stderr_tail.len();
        let from = if n > 6 { n - 6 } else { 0 };
        let ghost start = lines_view(lines@);
        let mut i = from;
        while i < n
            invariant
                from <= i <= n,
                n == app.stderr_tail@.len(),
                from == (if n > 6 { n - 6 } else { 0 }),
                lines_view(lines@) == start + tail_lines(app.stderr_tail@, 6).take(i - from),
            decreases n - i,
        {
            push_line(&mut lines, run(owned(app.stderr_tail[i].as_str()), Ink::Warning, false));
            assert(tail_lines(app.stderr_tail@, 6).take(i + 1 - from) =~= tail_lines(
                app.stderr_tail@,
                6,
            ).take(i - from).push(plain(app.stderr_tail@[i as int]@, Ink::Warning)));
            i = i + 1;
        }
        assert(tail_lines(app.stderr_tail@, 6).take(n - from) =~= tail_lines(app.stderr_tail@, 6));
        assert(lines_view(lines@) =~= middle + (seq![blank(), plain("Recent FFmpeg output:"@, Ink::Muted)]
            + tail_lines(app.stderr_tail@, 6)));
    }
    assert(lines_view(lines@) =~= outcome_text(*app, card_height));
    lines
}

// ---------------------------------------------------------------- review

/// The review card before the size estimate: where the output goes first, the
/// command, and for a queue the file each source becomes.
pub open spec fn review_text(app: App) -> Seq<Seq<(Seq<char>, Ink, bool)>> {
    let preview = match app.command_preview {
        Some(p) => p@,
        None => "Command preview unavailable."@,
    };
    let head = seq![
        plain("Output is written to an app-owned temporary file first."@, Ink::Warning),
        blank(),
        plain(preview, Ink::Text),
    ];
    let queue = app.queue@;
    if queue.len() > 1 {
        head + seq![
            blank(),
            plain(
                "The same settings run for all "@ + decimal(queue.len()) + " files, one after another:"@,
                Ink::Muted,
            ),
        ] + Seq::new(queue.len(), |i: int| plain(plan_row(queue[i]), Ink::Secondary))
    } else {
        head
    }
}

/// `  source → output`, each by its name.
pub open spec fn plan_row(record: JobRecord) -> Seq<char> {
    "  "@ + label_of(record.input@) + " → "@ + label_of(record.output@)
}

pub fn review_lines(app: &App) -> (r: Vec<Vec<Span>>)
    ensures
        lines_view(r@) == review_text(*app),
{
    let mut lines: Vec<Vec<Span>> = Vec::new();
    push_line(
        &mut lines,
        run(text_of("Output is written to an app-owned temporary file first."), Ink::Warning, false),
    );
    push_line(&mut lines, Vec::new());
    let preview = match &app.command_preview {
        Some(p) => owned(p.as_str()),
        None => text_of("Command preview unavailable."),
    };
    push_line(&mut lines, run(preview, Ink::Text, false));
    assert(line_view(Seq::<Span>::empty()) =~= blank());
    let ghost head = lines_view(lines@);
    let n = app.queue.len();
    if n > 1 {
        push_line(&mut lines, Vec::new());
        let mut intro = text_of("The same settings run for all ");
        push_decimal(&mut intro, n as u64);
        push_str(&mut intro, " files, one after another:");
        push_line(&mut lines, run(intro, Ink::Muted, false));
        let ghost start = lines_view(lines@);
        let ghost rows = Seq::new(n as nat, |i: int| plain(plan_row(app.queue@[i]), Ink::Secondary));
        let mut i: usize = 0;
        while i < n
            invariant
                i <= n,
                n == app.queue@.len(),
                rows == Seq::new(n as nat, |i: int| plain(plan_row(app.queue@[i]), Ink::Secondary)),
                lines_view(lines@) == start + rows.take(i as int),
            decreases n - i,
        {
            let mut row = text_of("  ");
            let source = crate::app::file_label(app.queue[i].input.as_str());
            push_str(&mut row, source.as_str());
            push_str(&mut row, " → ");
            let target = crate::app::file_label(app.queue[i].output.as_str());
            push_str(&mut row, target.as_str());
            push_line(&mut lines, run(row, Ink::Secondary, false));
            assert(rows.take(i + 1) =~= rows.take(i as int).push(rows[i as int]));
            i = i + 1;
        }
        assert(rows.take(n as int) =~= rows);
        assert(lines_view(lines@) =~= review_text(*app));
    } else {
        assert(lines_view(lines@) =~= review_text(*app));
    }
    lines
}

// ---------------------------------------------------------------- progress

/// `{:>5.1}` of a share given in tenths of a percent.
pub open spec fn percent_text(permille: nat) -> Seq<char> {
    let digits = decimal(permille / 10) + "."@ + seq![digit_char(permille % 10)];
    if digits.len() < 5 {
        Seq::new((5 - digits.len()) as nat, |i: int| ' ') + digits
    } else {
        digits
    }
}

/// The first line of the progress card.
pub open spec fn progress_label(job: JobState) -> Seq<char> {
    match job {
        JobState::Running { progress: Some(p), .. } => percent_text(
            match p.percent_permille {
                Some(v) => v as nat,
                None => 0,
            },
        ) + "%  •  "@ + duration_text((p.processed_micros / 1_000_000) as nat) + " processed  •  "@
            + match p.speed {
            Some(s) => s@,
            None => "—"@,
        },
        JobState::Cancelling => "Cancelling FFmpeg safely…"@,
        _ => "Starting FFmpeg…"@,
    }
}

/// The share of the source done, as a fraction `(done, total)` with `total`
/// positive; nothing done while no share is known.
pub open spec fn progress_share(job: JobState) -> (nat, nat) {
    match job {
        JobState::Running { progress: Some(p), .. } => match p.total_micros {
            Some(t) => if t > 0 {
                (if p.processed_micros < t {
                    p.processed_micros as nat
                } else {
                    t as nat
                }, t as nat)
            } else {
                (0, 1)
            },
            None => (0, 1),
        },
        _ => (0, 1),
    }
}

/// Which file of a queue is running, or how many are done.
pub open spec fn progress_counter(app: App) -> Option<Seq<char>> {
    let total = app.queue@.len();
    if total <= 1 {
        None
    } else {
        match app.job {
            JobState::Running { index, .. } => Some(
                "FILE "@ + decimal((index + 1) as nat) + " OF "@ + decimal(total) + ": "@ + if index < total {
                    crate::text::std_to_uppercase(label_of(app.queue@[index as int].input@))
                } else {
                    Seq::empty()
                },
            ),
            _ => Some(decimal(succeeded_upto(app.queue@, total)) + " OF "@ + decimal(total) + " DONE"@),
        }
    }
}

/// `n` copies of `c`.
pub open spec fn repeated(c: char, n: nat) -> Seq<char> {
    Seq::new(n, |i: int| c)
}

/// The cells of the bar that are filled: `done / total` of `width`, rounded
/// to the nearest cell, halves up.
pub open spec fn filled_cells(done: nat, total: nat, width: nat) -> nat {
    (2 * done * width + total) / (2 * total)
}

/// The progress card: the status line, the queue counter, the bar across
/// `card_width` less its frame, and what FFmpeg wrote on its error stream.
pub open spec fn progress_text(app: App, card_width: u16) -> Seq<Seq<(Seq<char>, Ink, bool)>> {
    let label_ink = if app.job is Cancelling {
        Ink::Warning
    } else {
        Ink::Accent
    };
    let counter = match progress_counter(app) {
        Some(c) => seq![plain(c, Ink::Muted)],
        None => Seq::empty(),
    };
    let width: nat = if card_width >= 6 {
        (card_width - 6) as nat
    } else {
        0
    };
    let filled = filled_cells(progress_share(app.job).0, progress_share(app.job).1, width);
    let bar = seq![
        (repeated('█', filled), Ink::Accent, false),
        (repeated('░', (width - filled) as nat), Ink::Faint, false),
    ];
    let messages = if app.stderr_tail@.len() == 0 {
        seq![plain("No FFmpeg warnings."@, Ink::Muted)]
    } else {
        Seq::new(app.stderr_tail@.len(), |i: int| plain(app.stderr_tail@[i]@, Ink::Warning))
    };
    seq![plain(progress_label(app.job), label_ink)] + counter + seq![
        bar,
        blank(),
        plain("FFmpeg messages"@, Ink::Muted),
    ] + messages
}

fn push_repeated(s: &mut String, c: char, n: usize)
    ensures
        final(s)@ == old(s)@ + repeated(c, n as nat),
{
    let ghost start = s@;
    let mut i: usize = 0;
    while i < n
        invariant
            i <= n,
            s@ == start + repeated(c, i as nat),
        decreases n - i,
    {
        crate::text::push_char(s, c);
        assert(start + repeated(c, (i + 1) as nat) =~= (start + repeated(c, i as nat)).push(c));
        i = i + 1;
    }
}

fn percent_string(permille: u64) -> (r: String)
    ensures
        r@ == percent_text(permille as nat),
{
    let mut digits = String::new();
    push_decimal(&mut digits, permille / 10);
    push_str(&mut digits, ".");
    crate::text::push_char(&mut digits, crate::text::digit(permille % 10));
    assert(crate::text::digit_char((permille % 10) as nat) == crate::text::digit_char(
        ((permille as nat) % 10) as nat,
    ));
    assert(digits@ =~= decimal((permille / 10) as nat) + "."@ + seq![
        crate::text::digit_char((permille as nat) % 10),
    ]);
    let count = digits.as_str().unicode_len();
    if count < 5 {
        let mut r = String::new();
        push_repeated(&mut r, ' ', 5 - count);
        push_str(&mut r, digits.as_str());
        assert(r@ =~= percent_text(permille as nat));
        r
    } else {
        digits
    }
}

fn progress_label_text(job: &JobState) -> (r: String)
    ensures
        r@ == progress_label(*job),
{
    match job {
        JobState::Running { progress: Some(p), .. } => {
            let permille = match p.percent_permille {
                Some(v) => v,
                None => 0,
            };
            let mut r = percent_string(permille);
            push_str(&mut r, "%  •  ");
            let clock = format_duration(p.processed_micros / 1_000_000);
            push_str(&mut r, clock.as_str());
            push_str(&mut r, " processed  •  ");
            match &p.speed {
                Some(s) => push_str(&mut r, s.as_str()),
                None => push_str(&mut r, "—"),
            }
            assert(r@ =~= progress_label(*job));
            r
        },
        JobState::Cancelling => text_of("Cancelling FFmpeg safely…"),
        _ => text_of("Starting FFmpeg…"),
    }
}

fn counter_text(app: &App) -> (r: Option<String>)
    ensures
        match r {
            Some(t) => progress_counter(*app) == Some(t@),
            None => progress_counter(*app) is None,
        },
{
    let total = app.queue.len();
    if total <= 1 {
        return None;
    }
    match &app.job {
        JobState::Running { index, .. } => {
            let mut r = text_of("FILE ");
            crate::text::push_decimal_wide(&mut r, *index as u128 + 1);
            push_str(&mut r, " OF ");
            push_decimal(&mut r, total as u64);
            push_str(&mut r, ": ");
            if *index < total {
                let label = crate::app::file_label(app.queue[*index].input.as_str());
                let upper = crate::text::uppercase(label.as_str());
                push_str(&mut r, upper.as_str());
            }
            assert(r@ =~= progress_counter(*app).unwrap());
            Some(r)
        },
        _ => {
            let mut r = String::new();
            push_decimal(&mut r, app.succeeded_count() as u64);
            push_str(&mut r, " OF ");
            push_decimal(&mut r, total as u64);
            push_str(&mut r, " DONE");
            assert(r@ =~= progress_counter(*app).unwrap());
            Some(r)
        },
    }
}

pub fn progress_lines(app: &App, card_width: u16) -> (r: Vec<Vec<Span>>)
    ensures
        lines_view(r@) == progress_text(*app, card_width),
{
    let label_ink = match app.job {
        JobState::Cancelling => Ink::Warning,
        _ => Ink::Accent,
    };
    let mut lines: Vec<Vec<Span>> = Vec::new();
    push_line(&mut lines, run(progress_label_text(&app.job), label_ink, false));
    match counter_text(app) {
        Some(c) => push_line(&mut lines, run(c, Ink::Muted, false)),
        None => {},
    }
    let ghost top = lines_view(lines@);
    proof {
        let counter = match progress_counter(*app) {
            Some(c) => seq![plain(c, Ink::Muted)],
            None => Seq::<Seq<(Seq<char>, Ink, bool)>>::empty(),
        };
        assert(top =~= seq![plain(progress_label(app.job), label_ink)] + counter);
    }
    let width = card_width.saturating_sub(6) as usize;
    let (done, total): (u64, u64) = match &app.job {
        JobState::Running { progress: Some(p), .. } => match p.total_micros {
            Some(t) => if t > 0 {
                (if p.processed_micros < t {
                    p.processed_micros
                } else {
                    t
                }, t)
            } else {
                (0, 1)
            },
            None => (0, 1),
        },
        _ => (0, 1),
    };
    assert((done as nat, total as nat) == progress_share(app.job));
    let wide = width as u128;
    assert(2 * (done as u128) * wide <= 2 * 0xffff_ffff_ffff_ffff * 0xffff) by (nonlinear_arith)
        requires
            done <= 0xffff_ffff_ffff_ffff,
            wide <= 0xffff,
    ;
    let num: u128 = 2 * (done as u128) * wide + total as u128;
    let den: u128 = 2 * (total as u128);
    let filled_cells_wide: u128 = num / den;
    assert(filled_cells_wide <= wide) by (nonlinear_arith)
        requires
            done <= total,
            total > 0,
            num == 2 * done * wide + total,
            den == 2 * total,
            filled_cells_wide == num / den,
    {
        assert(num < den * (wide + 1));
    }
    let filled = filled_cells_wide as usize;
    let mut full = String::new();
    push_repeated(&mut full, '█', filled);
    let mut empty = String::new();
    push_repeated(&mut empty, '░', width - filled);
    let mut bar: Vec<Span> = Vec::new();
    push_run(&mut bar, full, Ink::Accent, false);
    push_run(&mut bar, empty, Ink::Faint, false);
    proof {
        let w: nat = if card_width >= 6 { (card_width - 6) as nat } else { 0 };
        assert(width as nat == w);
        let (d, t) = progress_share(app.job);
        assert(filled as nat == filled_cells(d, t, w));
        assert(line_view(bar@) =~= seq![
            (repeated('█', filled_cells(d, t, w)), Ink::Accent, false),
            (repeated('░', (w - filled_cells(d, t, w)) as nat), Ink::Faint, false),
        ]);
    }
    push_line(&mut lines, bar);
    push_line(&mut lines, Vec::new());
    push_line(&mut lines, run(text_of("FFmpeg messages"), Ink::Muted, false));
    let ghost mid = lines_view(lines@);
    let n = app.stderr_tail.len();
    if n == 0 {
        push_line(&mut lines, run(text_of("No FFmpeg warnings."), Ink::Muted, false));
    } else {
        let ghost msgs = Seq::new(n as nat, |i: int| plain(app.stderr_tail@[i]@, Ink::Warning));
        let mut i: usize = 0;
        while i < n
            invariant
                i <= n,
                n == app.stderr_tail@.len(),
                msgs == Seq::new(n as nat, |i: int| plain(app.stderr_tail@[i]@, Ink::Warning)),
                lines_view(lines@) == mid + msgs.take(i as int),
            decreases n - i,
        {
            push_line(&mut lines, run(owned(app.stderr_tail[i].as_str()), Ink::Warning, false));
            assert(msgs.take(i + 1) =~= msgs.take(i as int).push(msgs[i as int]));
            i = i + 1;
        }
        assert(msgs.take(n as int) =~= msgs);
    }
    assert(line_view(Seq::<Span>::empty()) =~= blank());
    assert(lines_view(lines@) =~= progress_text(*app, card_width));
    lines
}

/// The lines past a viewport of `viewport_height`, as a scroll offset.
pub open spec fn scroll_limit(line_count: nat, viewport_height: nat) -> u16 {
    if line_count > viewport_height {
        if line_count - viewport_height > u16::MAX {
            u16::MAX
        } else {
            (line_count - viewport_height) as u16
        }
    } else {
        0
    }
}

/// How far the progress card is scrolled: at the live tail while it follows
/// it, else counted from the top or from the bottom, never past the end.
pub open spec fn progress_offset(app: App, line_count: nat, viewport_height: nat) -> u16 {
    let max = scroll_limit(line_count, viewport_height);
    if app.progress_follow {
        max
    } else if app.progress_scroll_from_top {
        if app.progress_scroll < max {
            app.progress_scroll
        } else {
            max
        }
    } else if max > app.progress_scroll {
        (max - app.progress_scroll) as u16
    } else {
        0
    }
}

fn max_scroll(line_count: usize, viewport_height: u16) -> (r: u16)
    ensures
        r == scroll_limit(line_count as nat, viewport_height as nat),
{
    let extra = line_count.saturating_sub(viewport_height as usize);
    if extra > 65_535 {
        u16::MAX
    } else {
        extra as u16
    }
}

pub fn progress_scroll_offset(app: &App, line_count: usize, viewport_height: u16) -> (r: u16)
    ensures
        r == progress_offset(*app, line_count as nat, viewport_height as nat),
{
    let max = max_scroll(line_count, viewport_height);
    if app.progress_follow {
        max
    } else if app.progress_scroll_from_top {
        if app.progress_scroll < max {
            app.progress_scroll
        } else {
            max
        }
    } else {
        max.saturating_sub(app.progress_scroll)
    }
}

/// How far the review card is scrolled: where the user left it, never past
/// the end.
pub fn review_scroll_offset(app: &App, line_count: usize, viewport_height: u16) -> (r: u16)
    ensures
        r == (if app.review_scroll < scroll_limit(line_count as nat, viewport_height as nat) {
            app.review_scroll
        } else {
            scroll_limit(line_count as nat, viewport_height as nat)
        }),
{
    let max = max_scroll(line_count, viewport_height);
    if app.review_scroll < max {
        app.review_scroll
    } else {
        max
    }
}

// ---------------------------------------------------------------- settings

/// The fill behind a control row.
#[derive(Debug, Clone, Copy, PartialEq, Eq, Structural)]
pub enum Fill {
    Surface,
    Selection,
    Hovered,
}

/// `{label:<16}`: the label padded with spaces to sixteen characters.
pub open spec fn padded16(label: Seq<char>) -> Seq<char> {
    if label.len() < 16 {
        label + Seq::new((16 - label.len()) as nat, |i: int| ' ')
    } else {
        label
    }
}

fn pad16(label: &str) -> (r: String)
    ensures
        r@ == padded16(label@),
{
    let mut r = owned(label);
    let n = label.unicode_len();
    if n < 16 {
        push_repeated(&mut r, ' ', 16 - n);
    }
    assert(r@ =~= padded16(label@));
    r
}

/// Whether some source read so far carries audio.
pub open spec fn any_audio(app: App) -> bool {
    exists|i: int|
        0 <= i < app.inputs@.len() && (#[trigger] crate::app::media_of(
            app.probes@,
            app.inputs@[i]@,
        ) matches Some(m) && m.audio is Some)
}

pub open spec fn probed_any(app: App) -> bool {
    crate::app::probed_upto(app.inputs@, app.probes@, app.inputs@.len() as nat) > 0
}

/// The quality row's value: the preset and the encoder setting it stands for.
pub open spec fn quality_shown(app: App) -> Seq<char> {
    app.draft.quality.label_text() + " ("@ + (if crate::domain::quality_flag(app.draft.video_codec)
        == "-crf"@ {
        "CRF "@
    } else {
        "Q "@
    }) + decimal(crate::domain::quality_value(app.draft.video_codec, app.draft.quality) as nat)
        + ")"@
}

pub open spec fn rate_control_text(mode: crate::domain::RateControlMode) -> Seq<char> {
    match mode {
        crate::domain::RateControlMode::Quality => "Constant quality"@,
        crate::domain::RateControlMode::Bitrate => "Target bitrate"@,
    }
}

/// The settings card's rows: field, label, value, and whether the value means
/// anything for the sources read so far.
pub open spec fn setting_rows_of(app: App) -> Seq<(ConfigField, Seq<char>, Seq<char>, bool)> {
    let silent = probed_any(app) && !any_audio(app);
    let audio_enabled = app.draft.audio_codec != AudioCodec::Silent && (!probed_any(app) || any_audio(app));
    let quality_mode = app.draft.rate_control_mode == crate::domain::RateControlMode::Quality;
    seq![
        (ConfigField::Container, "Container"@, app.draft.container.label_text(), true),
        (ConfigField::VideoCodec, "Video codec"@, app.draft.video_codec.label_text(), true),
        (
            ConfigField::AudioCodec,
            "Audio codec"@,
            if silent {
                "None (no source has audio)"@
            } else {
                app.draft.audio_codec.label_text()
            },
            !silent,
        ),
        (ConfigField::Resolution, "Resolution"@, app.draft.resolution.label_text(), true),
        (ConfigField::RateControl, "Rate control"@, rate_control_text(app.draft.rate_control_mode), true),
        (
            ConfigField::RateValue,
            if quality_mode {
                "Quality"@
            } else {
                "Video bitrate"@
            },
            if quality_mode {
                quality_shown(app)
            } else {
                decimal(app.draft.video_bitrate_kbps as nat) + " kbps"@
            },
            true,
        ),
        (
            ConfigField::AudioBitrate,
            "Audio bitrate"@,
            if audio_enabled {
                decimal(app.draft.audio_bitrate_kbps as nat) + " kbps"@
            } else {
                "Disabled"@
            },
            audio_enabled,
        ),
    ]
}

pub open spec fn row_view(row: (ConfigField, &'static str, String, bool)) -> (
    ConfigField,
    Seq<char>,
    Seq<char>,
    bool,
) {
    (row.0, row.1@, row.2@, row.3)
}

fn kbps(n: u32) -> (r: String)
    ensures
        r@ == decimal(n as nat) + " kbps"@,
{
    let mut r = String::new();
    push_decimal(&mut r, n as u64);
    push_str(&mut r, " kbps");
    r
}

pub fn setting_rows(app: &App) -> (r: Vec<(ConfigField, &'static str, String, bool)>)
    ensures
        r@.map_values(|row: (ConfigField, &'static str, String, bool)| row_view(row))
            == setting_rows_of(*app),
{
    let silent = app.all_sources_silent();
    let audio_enabled = app.audio_bitrate_enabled();
    let quality_mode = app.draft.rate_control_mode == crate::domain::RateControlMode::Quality;
    let mut r: Vec<(ConfigField, &'static str, String, bool)> = Vec::new();
    r.push((ConfigField::Container, "Container", text_of(app.draft.container.label()), true));
    r.push((ConfigField::VideoCodec, "Video codec", text_of(app.draft.video_codec.label()), true));
    r.push(
        (
            ConfigField::AudioCodec,
            "Audio codec",
            if silent {
                text_of("None (no source has audio)")
            } else {
                text_of(app.draft.audio_codec.label())
            },
            !silent,
        ),
    );
    r.push((ConfigField::Resolution, "Resolution", text_of(app.draft.resolution.label()), true));
    r.push(
        (ConfigField::RateControl, "Rate control", text_of(app.draft.rate_control_mode.label()), true),
    );
    r.push(
        (
            ConfigField::RateValue,
            if quality_mode {
                "Quality"
            } else {
                "Video bitrate"
            },
            if quality_mode {
                app.quality_label()
            } else {
                kbps(app.draft.video_bitrate_kbps)
            },
            true,
        ),
    );
    r.push(
        (
            ConfigField::AudioBitrate,
            "Audio bitrate",
            if audio_enabled {
                kbps(app.draft.audio_bitrate_kbps)
            } else {
                text_of("Disabled")
            },
            audio_enabled,
        ),
    );
    proof {
        reveal_strlit("Container");
        reveal_strlit("Video codec");
        reveal_strlit("Audio codec");
        reveal_strlit("Resolution");
        reveal_strlit("Rate control");
        reveal_strlit("Quality");
        reveal_strlit("Video bitrate");
        reveal_strlit("Audio bitrate");
    }
    assert(r@.map_values(|row: (ConfigField, &'static str, String, bool)| row_view(row))
        =~= setting_rows_of(*app));
    r
}

/// The marker in front of a control row: the pointer's, the keyboard's, or none.
pub open spec fn marker_of(hovered: bool, focused: bool) -> Seq<char> {
    if hovered {
        "› "@
    } else if focused {
        "▸ "@
    } else {
        "  "@
    }
}

pub open spec fn fill_of(hovered: bool, focused: bool) -> Fill {
    if hovered {
        Fill::Hovered
    } else if focused {
        Fill::Selection
    } else {
        Fill::Surface
    }
}

/// Spaces that fill `width` cells after `used` of them.
pub open spec fn filler(width: nat, used: int) -> Seq<char> {
    Seq::new(
        if width > used {
            (width - used) as nat
        } else {
            0
        },
        |i: int| ' ',
    )
}

/// A settings row: a focused row takes the selection fill across its whole
/// width, and the pointer's fill outranks it.
pub open spec fn setting_line_of(
    app: App,
    field: ConfigField,
    label: Seq<char>,
    value: Seq<char>,
    enabled: bool,
    width: nat,
) -> (Seq<(Seq<char>, Ink, bool)>, Fill) {
    let focused = app.screen == Screen::Settings && app.button_focus is None && app.focus == field;
    let hovered = app.hover == Some(HoverTarget::Setting(field));
    let key_ink = if focused {
        Ink::Accent
    } else {
        Ink::Muted
    };
    let marker = marker_of(hovered, focused);
    let shown = " "@ + value + " "@;
    let used = str_columns(" "@) + str_columns(marker) + str_columns(padded16(label)) + str_columns(
        shown,
    );
    (
        seq![
            (" "@, Ink::Text, false),
            (marker, key_ink, false),
            (padded16(label), key_ink, false),
            (shown, if enabled { Ink::Text } else { Ink::Muted }, false),
            (filler(width, used), Ink::Text, false),
        ],
        fill_of(hovered, focused),
    )
}

fn spaces_string(width: usize, used: usize) -> (r: String)
    ensures
        r@ == filler(width as nat, used as int),
{
    let mut r = String::new();
    push_repeated(&mut r, ' ', width.saturating_sub(used));
    assert(r@ =~= filler(width as nat, used as int));
    r
}

fn marker_text(hovered: bool, focused: bool) -> (r: &'static str)
    ensures
        r@ == marker_of(hovered, focused),
{
    if hovered {
        "› "
    } else if focused {
        "▸ "
    } else {
        "  "
    }
}

pub fn setting_line(
    app: &App,
    field: ConfigField,
    label: &str,
    value: &str,
    enabled: bool,
    width: usize,
) -> (r: (Vec<Span>, Fill))
    ensures
        (line_view(r.0@), r.1) == setting_line_of(*app, field, label@, value@, enabled, width as nat),
{
    let focused = app.screen == Screen::Settings && app.button_focus.is_none() && app.focus == field;
    let hovered = app.hover == Some(HoverTarget::Setting(field));
    let key_ink = if focused {
        Ink::Accent
    } else {
        Ink::Muted
    };
    let marker = marker_text(hovered, focused);
    let padded = pad16(label);
    let mut shown = text_of(" ");
    push_str(&mut shown, value);
    push_str(&mut shown, " ");
    let a = str_width(" ");
    let b = str_width(marker);
    let c = str_width(padded.as_str());
    let d = str_width(shown.as_str());
    let used = a.saturating_add(b).saturating_add(c).saturating_add(d);
    let pad = spaces_string(width, used);
    proof {
        let total = str_columns(" "@) + str_columns(marker@) + str_columns(padded@) + str_columns(
            shown@,
        );
        if total > usize::MAX {
            assert(filler(width as nat, used as int) =~= filler(width as nat, total));
        }
    }
    let mut line: Vec<Span> = Vec::new();
    push_run(&mut line, text_of(" "), Ink::Text, false);
    push_run(&mut line, text_of(marker), key_ink, false);
    push_run(&mut line, padded, key_ink, false);
    push_run(&mut line, shown, if enabled { Ink::Text } else { Ink::Muted }, false);
    push_run(&mut line, pad, Ink::Text, false);
    let fill = if hovered {
        Fill::Hovered
    } else if focused {
        Fill::Selection
    } else {
        Fill::Surface
    };
    assert(line_view(line@) =~= setting_line_of(*app, field, label@, value@, enabled, width as nat).0);
    (line, fill)
}

/// The estimate row: the figure, or why there is none.
pub open spec fn estimate_line_of(app: App, estimate: Option<SizeEstimate>) -> Seq<(Seq<char>, Ink, bool)> {
    let (value, ink) = match estimate {
        Some(e) => (
            "~"@ + crate::domain::size_text(e.bytes as nat) + match e.basis {
                EstimateBasis::Targeted => Seq::<char>::empty(),
                EstimateBasis::Heuristic => " (rough)"@,
            },
            match e.basis {
                EstimateBasis::Targeted => Ink::Secondary,
                EstimateBasis::Heuristic => Ink::Muted,
            },
        ),
        None => (
            if probed_any(app) {
                "Unknown (source has no duration)"@
            } else {
                "Awaiting source"@
            },
            Ink::Muted,
        ),
    };
    seq![("   "@ + padded16("Est. size"@), Ink::Muted, false), (" "@ + value + " "@, ink, false)]
}

/// The settings card's last row; `estimate` is the host's figure for the
/// current settings, if it has one.
pub fn estimate_line(app: &App, estimate: Option<SizeEstimate>) -> (r: Vec<Span>)
    ensures
        line_view(r@) == estimate_line_of(*app, estimate),
{
    let (value, ink) = match estimate {
        Some(e) => (
            e.label(),
            match e.basis {
                EstimateBasis::Targeted => Ink::Secondary,
                EstimateBasis::Heuristic => Ink::Muted,
            },
        ),
        None => (
            if app.probed_count() > 0 {
                text_of("Unknown (source has no duration)")
            } else {
                text_of("Awaiting source")
            },
            Ink::Muted,
        ),
    };
    let mut head = text_of("   ");
    let label = pad16("Est. size");
    push_str(&mut head, label.as_str());
    let mut shown = text_of(" ");
    push_str(&mut shown, value.as_str());
    push_str(&mut shown, " ");
    let mut line: Vec<Span> = Vec::new();
    push_run(&mut line, head, Ink::Muted, false);
    push_run(&mut line, shown, ink, false);
    assert(line_view(line@) =~= estimate_line_of(*app, estimate));
    line
}

/// The ink of an estimate: firm when the bitrate was chosen, faint when it
/// comes from the quality model.
pub open spec fn estimate_ink(basis: EstimateBasis) -> Ink {
    match basis {
        EstimateBasis::Targeted => Ink::Secondary,
        EstimateBasis::Heuristic => Ink::Muted,
    }
}

/// The review card's closing lines for the host's estimate: a blank line,
/// then the estimate, labelled as a total when several files run.
pub open spec fn review_estimate_text(app: App, estimate: SizeEstimate) -> Seq<
    Seq<(Seq<char>, Ink, bool)>,
> {
    let label = if app.queue@.len() > 1 {
        "Estimated total output size  "@
    } else {
        "Estimated output size  "@
    };
    let value = "~"@ + crate::domain::size_text(estimate.bytes as nat) + match estimate.basis {
        EstimateBasis::Targeted => Seq::<char>::empty(),
        EstimateBasis::Heuristic => " (rough)"@,
    };
    seq![blank(), seq![(label, Ink::Muted, false), (value, estimate_ink(estimate.basis), false)]]
}

/// The lines that close the review card when the host has an estimate.
pub fn review_estimate_lines(app: &App, estimate: SizeEstimate) -> (r: Vec<Vec<Span>>)
    ensures
        lines_view(r@) == review_estimate_text(*app, estimate),
{
    let label = if app.queue.len() > 1 {
        text_of("Estimated total output size  ")
    } else {
        text_of("Estimated output size  ")
    };
    let ink = match estimate.basis {
        EstimateBasis::Targeted => Ink::Secondary,
        EstimateBasis::Heuristic => Ink::Muted,
    };
    let mut line: Vec<Span> = Vec::new();
    push_run(&mut line, label, Ink::Muted, false);
    push_run(&mut line, estimate.label(), ink, false);
    let ghost expected = review_estimate_text(*app, estimate);
    assert(ink == estimate_ink(estimate.basis));
    assert(line_view(line@) =~= expected[1]);
    let mut lines: Vec<Vec<Span>> = Vec::new();
    push_line(&mut lines, Vec::new());
    push_line(&mut lines, line);
    assert(line_view(Seq::<Span>::empty()) =~= blank());
    assert(lines_view(lines@) =~= expected);
    lines
}

// ------------------------------------------------------------------- help

/// A line of one run, bold or not.
pub open spec fn plain_as(text: Seq<char>, ink: Ink, bold: bool) -> Seq<(Seq<char>, Ink, bool)> {
    seq![(text, ink, bold)]
}

/// The help popup: the keys, the mouse, and the limits on bitrates.
pub open spec fn help_text() -> Seq<Seq<(Seq<char>, Ink, bool)>> {
    seq![
        plain_as("Keyboard"@, Ink::Accent, true),
        blank(),
        plain_as("Tab / Shift-Tab     Move between folders, settings, and buttons"@, Ink::Text, false),
        plain_as("Arrow keys / hjkl   Change the selected value"@, Ink::Text, false),
        plain_as("i / a / r            Pick, add, or replace video files"@, Ink::Text, false),
        plain_as("o                   Choose the output folder"@, Ink::Text, false),
        plain_as("r                   Read the selected files again on Settings"@, Ink::Text, false),
        plain_as("Enter               Continue, review, or edit bitrate"@, Ink::Text, false),
        plain_as("Review / Progress   Up/Down, PageUp/PageDown, Home/End scroll"@, Ink::Text, false),
        plain_as("x                   Cancel the run (stops the whole queue)"@, Ink::Text, false),
        plain_as("q                   Quit (asks before cancelling)"@, Ink::Text, false),
        plain_as("? / Esc             Close this help"@, Ink::Text, false),
        plain_as("Mouse"@, Ink::Accent, true),
        plain_as("Left click          Activate a setting or a card button"@, Ink::Text, false),
        plain_as("Wheel / right click Change settings; wheel scrolls their content"@, Ink::Text, false),
        plain_as("File row click      Open the input or output picker"@, Ink::Text, false),
        blank(),
        plain_as("Several files share one set of settings and convert one after another."@, Ink::Muted, false),
        plain_as("Bitrates are entered in kbps. Video: 100–200000. Audio: 32–512."@, Ink::Warning, false),
    ]
}

/// The lines of the help popup.
pub fn help_lines() -> (r: Vec<Vec<Span>>)
    ensures
        lines_view(r@) == help_text(),
{
    let mut lines: Vec<Vec<Span>> = Vec::new();
    push_line(&mut lines, run(text_of("Keyboard"), Ink::Accent, true));
    push_line(&mut lines, Vec::new());
    push_line(&mut lines, run(text_of("Tab / Shift-Tab     Move between folders, settings, and buttons"), Ink::Text, false));
    push_line(&mut lines, run(text_of("Arrow keys / hjkl   Change the selected value"), Ink::Text, false));
    push_line(&mut lines, run(text_of("i / a / r            Pick, add, or replace video files"), Ink::Text, false));
    push_line(&mut lines, run(text_of("o                   Choose the output folder"), Ink::Text, false));
    push_line(&mut lines, run(text_of("r                   Read the selected files again on Settings"), Ink::Text, false));
    push_line(&mut lines, run(text_of("Enter               Continue, review, or edit bitrate"), Ink::Text, false));
    push_line(&mut lines, run(text_of("Review / Progress   Up/Down, PageUp/PageDown, Home/End scroll"), Ink::Text, false));
    push_line(&mut lines, run(text_of("x                   Cancel the run (stops the whole queue)"), Ink::Text, false));
    push_line(&mut lines, run(text_of("q                   Quit (asks before cancelling)"), Ink::Text, false));
    push_line(&mut lines, run(text_of("? / Esc             Close this help"), Ink::Text, false));
    push_line(&mut lines, run(text_of("Mouse"), Ink::Accent, true));
    push_line(&mut lines, run(text_of("Left click          Activate a setting or a card button"), Ink::Text, false));
    push_line(&mut lines, run(text_of("Wheel / right click Change settings; wheel scrolls their content"), Ink::Text, false));
    push_line(&mut lines, run(text_of("File row click      Open the input or output picker"), Ink::Text, false));
    push_line(&mut lines, Vec::new());
    push_line(&mut lines, run(text_of("Several files share one set of settings and convert one after another."), Ink::Muted, false));
    push_line(&mut lines, run(text_of("Bitrates are entered in kbps. Video: 100–200000. Audio: 32–512."), Ink::Warning, false));
    assert(line_view(Seq::<Span>::empty()) =~= blank());
    assert(lines_view(lines@) =~= help_text());
    lines
}

// ---------------------------------------------------------------- folders

/// What the folder card says of the selection and of the output folder.
pub open spec fn folder_values(app: App) -> (Seq<char>, Seq<char>) {
    let input = if app.inputs@.len() == 0 {
        "Select one or more video files"@
    } else if app.inputs@.len() == 1 {
        app.inputs@[0]@
    } else {
        decimal(app.inputs@.len()) + " video files selected"@
    };
    let output = match app.output_folder {
        Some(folder) => folder@,
        None => "Select an output folder"@,
    };
    (input, output)
}

pub fn folder_values_text(app: &App) -> (r: (String, String))
    ensures
        (r.0@, r.1@) == folder_values(*app),
{
    let n = app.inputs.len();
    let input = if n == 0 {
        text_of("Select one or more video files")
    } else if n == 1 {
        owned(app.inputs[0].as_str())
    } else {
        let mut t = String::new();
        push_decimal(&mut t, n as u64);
        push_str(&mut t, " video files selected");
        t
    };
    let output = match &app.output_folder {
        Some(folder) => owned(folder.as_str()),
        None => text_of("Select an output folder"),
    };
    (input, output)
}

/// A folder row: the marker, the value cut to the row, and spaces to its end.
pub open spec fn folder_line_of(app: App, field: ConfigField, value: Seq<char>, width: nat) -> (
    Seq<(Seq<char>, Ink, bool)>,
    Fill,
) {
    let focused = app.screen == Screen::Folders && app.button_focus is None && app.focus == field;
    let hovered = (field == ConfigField::Input && app.hover == Some(HoverTarget::InputRow)) || (
    field == ConfigField::Output && app.hover == Some(HoverTarget::OutputRow));
    let marker = marker_of(hovered, focused);
    let label = crate::display::capped_text(value, if width >= 2 { (width - 2) as nat } else { 0 });
    let used = str_columns(marker) + str_columns(label);
    (
        seq![
            (marker, if hovered || focused { Ink::Accent } else { Ink::Muted }, false),
            (label, Ink::Text, false),
            (filler(width, used), Ink::Text, false),
        ],
        fill_of(hovered, focused),
    )
}

pub fn folder_line(app: &App, field: ConfigField, value: &str, width: usize) -> (r: (Vec<Span>, Fill))
    ensures
        (line_view(r.0@), r.1) == folder_line_of(*app, field, value@, width as nat),
{
    let focused = app.screen == Screen::Folders && app.button_focus.is_none() && app.focus == field;
    let hovered = (field == ConfigField::Input && app.hover == Some(HoverTarget::InputRow)) || (field
        == ConfigField::Output && app.hover == Some(HoverTarget::OutputRow));
    let marker = marker_text(hovered, focused);
    let label = crate::display::capped(value, width.saturating_sub(2));
    let used = str_width(marker).saturating_add(str_width(label.as_str()));
    proof {
        let total = str_columns(marker@) + str_columns(label@);
        if total > usize::MAX {
            assert(filler(width as nat, used as int) =~= filler(width as nat, total));
        }
    }
    let pad = spaces_string(width, used);
    let mut line: Vec<Span> = Vec::new();
    push_run(&mut line, text_of(marker), if hovered || focused { Ink::Accent } else { Ink::Muted }, false);
    push_run(&mut line, label, Ink::Text, false);
    push_run(&mut line, pad, Ink::Text, false);
    let fill = if hovered {
        Fill::Hovered
    } else if focused {
        Fill::Selection
    } else {
        Fill::Surface
    };
    assert(line_view(line@) =~= folder_line_of(*app, field, value@, width as nat).0);
    (line, fill)
}

// ---------------------------------------------------------------- stepper

/// The steps of the workflow, in the order the screens visit them.
pub open spec fn step_label(i: nat) -> Seq<char> {
    if i == 0 {
        "Folders"@
    } else if i == 1 {
        "Settings"@
    } else if i == 2 {
        "Review"@
    } else if i == 3 {
        "Progress"@
    } else {
        "Done"@
    }
}

fn step_text(i: usize) -> (r: &'static str)
    ensures
        r@ == step_label(i as nat),
        r@.len() <= 8,
{
    proof {
        reveal_strlit("Folders");
        reveal_strlit("Settings");
        reveal_strlit("Review");
        reveal_strlit("Progress");
        reveal_strlit("Done");
    }
    if i == 0 {
        "Folders"
    } else if i == 1 {
        "Settings"
    } else if i == 2 {
        "Review"
    } else if i == 3 {
        "Progress"
    } else {
        "Done"
    }
}

/// Half a label's cells, rounded down after taking one off: how far the label
/// reaches left of its dot.
pub open spec fn half_before(w: nat) -> nat {
    if w >= 1 {
        ((w - 1) / 2) as nat
    } else {
        0
    }
}

/// Columns between neighbouring dots.
pub open spec fn dot_stride() -> nat {
    12
}

/// How far the first dot sits from the left edge of the stepper.
pub open spec fn step_lead() -> nat {
    half_before(cells_sum(step_label(0)))
}

/// Where label `i` begins: centred on its dot, but never over the label
/// before it.
pub open spec fn label_begin(i: nat) -> nat
    decreases i,
{
    let dot = i * dot_stride() + step_lead();
    let half = half_before(cells_sum(step_label(i)));
    let want: nat = if dot >= half {
        (dot - half) as nat
    } else {
        0
    };
    let used: nat = if i == 0 {
        0
    } else {
        label_begin((i - 1) as nat) + cells_sum(step_label((i - 1) as nat))
    };
    if want >= used {
        want
    } else {
        used
    }
}

/// Where the labels end.
pub open spec fn labels_end() -> nat {
    label_begin(4) + cells_sum(step_label(4))
}

pub open spec fn dot_of(i: nat, current: nat) -> (Seq<char>, Ink) {
    if i < current {
        ("●"@, Ink::Success)
    } else if i == current {
        ("●"@, Ink::Accent)
    } else {
        ("○"@, Ink::Faint)
    }
}

pub open spec fn label_ink(i: nat, current: nat) -> Ink {
    if i < current {
        Ink::Muted
    } else if i == current {
        Ink::Accent
    } else {
        Ink::Faint
    }
}

/// The dots and connectors of the first `n` steps.
pub open spec fn dot_runs(n: nat, current: nat) -> Seq<(Seq<char>, Ink, bool)>
    decreases n,
{
    if n == 0 {
        Seq::empty()
    } else {
        let i = (n - 1) as nat;
        let dot = dot_of(i, current);
        let with_dot = dot_runs(i, current).push((dot.0, dot.1, false));
        if i + 1 < 5 {
            with_dot.push(
                (repeated('─', 11), if i < current { Ink::Success } else { Ink::Faint }, false),
            )
        } else {
            with_dot
        }
    }
}

/// The labels of the first `n` steps, each after the spaces that move it to
/// where it begins.
pub open spec fn label_runs(n: nat, current: nat) -> Seq<(Seq<char>, Ink, bool)>
    decreases n,
{
    if n == 0 {
        Seq::empty()
    } else {
        let i = (n - 1) as nat;
        let used: nat = if i == 0 {
            0
        } else {
            label_begin((i - 1) as nat) + cells_sum(step_label((i - 1) as nat))
        };
        label_runs(i, current).push((repeated(' ', (label_begin(i) - used) as nat), Ink::Text, false)).push(
            (step_label(i), label_ink(i, current), i == current),
        )
    }
}

/// The stepper as drawn: a row of dots and, under it, a row of labels.
#[derive(Debug, Clone)]
pub struct Stepper {
    pub dots: Vec<Span>,
    pub dots_area: crate::input::Rect,
    pub labels: Vec<Span>,
    pub labels_area: crate::input::Rect,
}

/// Where the two rows go: centred in `area`, the dots starting under the
/// first label's middle.
pub open spec fn stepper_areas(area: crate::input::Rect) -> (crate::input::Rect, crate::input::Rect) {
    let lead = step_lead();
    let span = lead + 4 * dot_stride() + 1;
    let width = crate::screen::sat16(
        if span >= labels_end() {
            span as int
        } else {
            labels_end() as int
        },
    );
    let x = area.x + (if area.width > width { (area.width - width) as int } else { 0 }) / 2;
    let right = area.x + area.width;
    let last: int = if right >= 1 { right - 1 } else { 0 };
    (
        crate::input::Rect {
            x: crate::screen::sat16(if x + lead < last { x + lead } else { last }),
            y: area.y,
            width: crate::screen::sat16(width - lead),
            height: 1,
        },
        crate::input::Rect { x: crate::screen::sat16(x), y: crate::screen::sat16(area.y + 1), width, height: 1 },
    )
}

fn text_cells(s: &str) -> (r: usize)
    requires
        s@.len() <= 64,
    ensures
        r == cells_sum(s@),
        r <= 3 * s@.len(),
{
    let chars = crate::text::chars_of(s);
    let mut total: usize = 0;
    let mut i: usize = 0;
    while i < chars.len()
        invariant
            i <= chars@.len(),
            chars@ == s@,
            total == cells_sum(chars@.take(i as int)),
            total <= 3 * i,
            chars@.len() <= 64,
        decreases chars.len() - i,
    {
        let w: usize = match crate::display::char_width(chars[i]) {
            Some(w) => w,
            None => 0,
        };
        assert(chars@.take(i + 1).drop_last() =~= chars@.take(i as int));
        total = total + w;
        i = i + 1;
    }
    assert(chars@.take(chars@.len() as int) =~= chars@);
    total
}

/// The stepper for the current screen, or none when `area` has no room for
/// both rows.
pub fn stepper(area: crate::input::Rect, current: usize) -> (r: Option<Stepper>)
    requires
        crate::screen::rect_ok(area),
        current <= 4,
    ensures
        area.height < 2 ==> r is None,
        area.height >= 2 ==> (r matches Some(st) && line_view(st.dots@) == dot_runs(5, current as nat)
            && line_view(st.labels@) == label_runs(5, current as nat) && (st.dots_area, st.labels_area)
            == stepper_areas(area)),
{
    if area.height < 2 {
        return None;
    }
    let first = text_cells(step_text(0));
    let lead = if first >= 1 { (first - 1) / 2 } else { 0 };
    assert(lead == step_lead());
    let mut dots: Vec<Span> = Vec::new();
    let mut labels: Vec<Span> = Vec::new();
    let mut used: usize = 0;
    let mut i: usize = 0;
    while i < 5
        invariant
            i <= 5,
            current <= 4,
            lead == step_lead(),
            lead <= 12,
            used == (if i == 0 { 0 } else { label_begin((i - 1) as nat) + cells_sum(step_label((i - 1) as nat)) }),
            used <= 36 * i,
            line_view(dots@) == dot_runs(i as nat, current as nat),
            line_view(labels@) == label_runs(i as nat, current as nat),
        decreases 5 - i,
    {
        let label = step_text(i);
        let (dot, dot_ink): (&str, Ink) = if i < current {
            ("●", Ink::Success)
        } else if i == current {
            ("●", Ink::Accent)
        } else {
            ("○", Ink::Faint)
        };
        let ink = if i < current {
            Ink::Muted
        } else if i == current {
            Ink::Accent
        } else {
            Ink::Faint
        };
        push_run(&mut dots, text_of(dot), dot_ink, false);
        if i + 1 < 5 {
            let mut line = String::new();
            push_repeated(&mut line, '─', 11);
            push_run(&mut dots, line, if i < current { Ink::Success } else { Ink::Faint }, false);
        }
        let width = text_cells(label);
        let dot_column = i * 12 + lead;
        let half = if width >= 1 { (width - 1) / 2 } else { 0 };
        let want = if dot_column >= half { dot_column - half } else { 0 };
        let begin = if want >= used { want } else { used };
        assert(begin == label_begin(i as nat));
        let mut gap = String::new();
        push_repeated(&mut gap, ' ', begin - used);
        push_run(&mut labels, gap, Ink::Text, false);
        push_run(&mut labels, text_of(label), ink, i == current);
        used = begin + width;
        i = i + 1;
    }
    let span = lead + 4 * 12 + 1;
    let total = if span >= used { span } else { used };
    let width: u16 = if total > 65_535 { u16::MAX } else { total as u16 };
    let x = area.x + area.width.saturating_sub(width) / 2;
    let last = (area.x + area.width).saturating_sub(1);
    let dots_x = if (x as usize) + lead < last as usize { x + lead as u16 } else { last };
    let dots_area = crate::input::Rect {
        x: dots_x,
        y: area.y,
        width: width.saturating_sub(lead as u16),
        height: 1,
    };
    let labels_area = crate::input::Rect { x, y: area.y + 1, width, height: 1 };
    Some(Stepper { dots, dots_area, labels, labels_area })
}

// ---------------------------------------------------------------- picker

/// Whether `path` is among the marked files.
pub open spec fn marked_in(selected: Seq<String>, path: Seq<char>) -> bool {
    exists|k: int| 0 <= k < selected.len() && (#[trigger] selected[k])@ == path
}

/// `{:>10}`: the text right-aligned in ten characters.
pub open spec fn right10(text: Seq<char>) -> Seq<char> {
    if text.len() < 10 {
        Seq::new((10 - text.len()) as nat, |i: int| ' ') + text
    } else {
        text
    }
}

/// One listing row: folders with a slash, files with their size in a fixed
/// right-aligned column, and a tick in front of every marked file.
pub open spec fn list_item_of(p: Picker, row: Row, name_width: nat, focused: bool, hovered: bool) -> Seq<
    (Seq<char>, Ink, bool),
> {
    let marker = marker_of(hovered, focused);
    let marker_ink = if hovered {
        Ink::Text
    } else {
        Ink::Muted
    };
    match row {
        Row::Parent => seq![(marker + ".."@, marker_ink, false)],
        Row::Entry(e) => {
            let prefix: (Seq<char>, Ink) = if e.is_dir {
                (Seq::empty(), Ink::Secondary)
            } else if marked_in(p.selected@, e.path@) {
                ("[✓] "@, Ink::Accent)
            } else if p.mode == PickerMode::InputFiles {
                ("[ ] "@, Ink::Muted)
            } else {
                ("  "@, Ink::Muted)
            };
            let name = if e.is_dir {
                e.name@.push('/')
            } else {
                e.name@
            };
            let name_ink = if e.hidden {
                Ink::Muted
            } else if e.is_dir {
                Ink::Secondary
            } else {
                Ink::Text
            };
            let size = if e.is_dir {
                Seq::empty()
            } else {
                human_size_text(e.size as nat)
            };
            seq![
                (marker, marker_ink, false),
                (prefix.0, prefix.1, false),
                (capped_text(name, name_width), name_ink, false),
                (right10(size), Ink::Muted, false),
            ]
        },
    }
}

fn is_marked(selected: &Vec<String>, path: &str) -> (r: bool)
    ensures
        r == marked_in(selected@, path@),
{
    let mut i: usize = 0;
    while i < selected.len()
        invariant
            i <= selected@.len(),
            forall|k: int| 0 <= k < i ==> (#[trigger] selected@[k])@ != path@,
        decreases selected.len() - i,
    {
        if crate::text::same_text(selected[i].as_str(), path) {
            return true;
        }
        i = i + 1;
    }
    false
}

fn right_aligned10(text: String) -> (r: String)
    ensures
        r@ == right10(text@),
{
    let n = text.as_str().unicode_len();
    if n < 10 {
        let mut r = String::new();
        push_repeated(&mut r, ' ', 10 - n);
        push_str(&mut r, text.as_str());
        assert(r@ =~= right10(text@));
        r
    } else {
        text
    }
}

pub fn picker_list_item(p: &Picker, row: &Row, name_width: usize, focused: bool, hovered: bool) -> (r: Vec<
    Span,
>)
    ensures
        line_view(r@) == list_item_of(*p, *row, name_width as nat, focused, hovered),
{
    let marker = marker_text(hovered, focused);
    let marker_ink = if hovered {
        Ink::Text
    } else {
        Ink::Muted
    };
    let mut line: Vec<Span> = Vec::new();
    match row {
        Row::Parent => {
            let mut t = text_of(marker);
            push_str(&mut t, "..");
            push_run(&mut line, t, marker_ink, false);
        },
        Row::Entry(e) => {
            let (prefix, prefix_ink): (&str, Ink) = if e.is_dir {
                ("", Ink::Secondary)
            } else if is_marked(&p.selected, e.path.as_str()) {
                ("[✓] ", Ink::Accent)
            } else if p.mode == PickerMode::InputFiles {
                ("[ ] ", Ink::Muted)
            } else {
                ("  ", Ink::Muted)
            };
            proof {
                reveal_strlit("");
            }
            let mut name = owned(e.name.as_str());
            if e.is_dir {
                crate::text::push_char(&mut name, '/');
            }
            let name_ink = if e.hidden {
                Ink::Muted
            } else if e.is_dir {
                Ink::Secondary
            } else {
                Ink::Text
            };
            let size = if e.is_dir {
                String::new()
            } else {
                human_size(e.size)
            };
            push_run(&mut line, text_of(marker), marker_ink, false);
            push_run(&mut line, text_of(prefix), prefix_ink, false);
            push_run(&mut line, capped(name.as_str(), name_width), name_ink, false);
            push_run(&mut line, right_aligned10(size), Ink::Muted, false);
            proof {
                let spec_name = if e.is_dir {
                    e.name@.push('/')
                } else {
                    e.name@
                };
                assert(name@ =~= spec_name);
                let spec_size = if e.is_dir {
                    Seq::<char>::empty()
                } else {
                    human_size_text(e.size as nat)
                };
                assert(size@ =~= spec_size);
                let spec_prefix: (Seq<char>, Ink) = if e.is_dir {
                    (Seq::empty(), Ink::Secondary)
                } else if marked_in(p.selected@, e.path@) {
                    ("[✓] "@, Ink::Accent)
                } else if p.mode == PickerMode::InputFiles {
                    ("[ ] "@, Ink::Muted)
                } else {
                    ("  "@, Ink::Muted)
                };
                assert(prefix@ =~= spec_prefix.0);
            }
        },
    }
    assert(line_view(line@) =~= list_item_of(*p, *row, name_width as nat, focused, hovered));
    line
}

/// A listing row as drawn: its runs, its fill, and whether it is bold (under
/// the pointer).
pub type ListRow = (Vec<Span>, Fill, bool);

/// The rows the list shows in `list`: from the window's first row, one per
/// line of the list; a hovered row takes the pointer's fill and bold, the
/// cursor's row the selection fill.
pub open spec fn list_rows_of(app: App, p: Picker, list: Rect) -> Seq<(Seq<(Seq<char>, Ink, bool)>, Fill, bool)> {
    let first = list_window_of(p.scroll, p.cursor, p.rows@.len() as usize, list.height as usize);
    let count = if first >= p.rows@.len() {
        0
    } else if p.rows@.len() - first < list.height {
        (p.rows@.len() - first) as nat
    } else {
        list.height as nat
    };
    let name_width: nat = if list.width >= 21 {
        (list.width - 13) as nat
    } else {
        8
    };
    Seq::new(
        count,
        |k: int|
            {
                let index = first + k;
                let focused = index == p.cursor;
                let hovered = app.hover == Some(HoverTarget::PickerRow(index as usize));
                (list_item_of(p, p.rows@[index], name_width, focused, hovered), fill_of(hovered, focused), hovered)
            },
    )
}

pub open spec fn list_rows_view(rows: Seq<ListRow>) -> Seq<(Seq<(Seq<char>, Ink, bool)>, Fill, bool)> {
    rows.map_values(|r: ListRow| (line_view(r.0@), r.1, r.2))
}

pub fn picker_list_rows(app: &App, p: &Picker, list: Rect) -> (r: Vec<ListRow>)
    ensures
        list_rows_view(r@) == list_rows_of(*app, *p, list),
{
    let first = p.window(list.height as usize);
    let n = p.rows.len();
    let count: usize = if first >= n {
        0
    } else if n - first < list.height as usize {
        n - first
    } else {
        list.height as usize
    };
    let name_width: usize = if list.width >= 21 {
        (list.width - 13) as usize
    } else {
        8
    };
    let ghost want = list_rows_of(*app, *p, list);
    let mut rows: Vec<ListRow> = Vec::new();
    let mut k: usize = 0;
    while k < count
        invariant
            k <= count,
            count == want.len(),
            first == list_window_of(p.scroll, p.cursor, p.rows@.len() as usize, list.height as usize),
            n == p.rows@.len(),
            count > 0 ==> first + count <= n,
            name_width == (if list.width >= 21 { (list.width - 13) as nat } else { 8 }),
            want == list_rows_of(*app, *p, list),
            list_rows_view(rows@) == want.take(k as int),
        decreases count - k,
    {
        let index = first + k;
        let focused = index == p.cursor;
        let hovered = app.hover == Some(HoverTarget::PickerRow(index));
        let item = picker_list_item(p, &p.rows[index], name_width, focused, hovered);
        let fill = if hovered {
            Fill::Hovered
        } else if focused {
            Fill::Selection
        } else {
            Fill::Surface
        };
        let ghost before = rows@;
        rows.push((item, fill, hovered));
        assert(list_rows_view(rows@) =~= list_rows_view(before).push((line_view(item@), fill, hovered)));
        assert(want.take(k + 1) =~= want.take(k as int).push(want[k as int]));
        k = k + 1;
    }
    assert(want.take(count as int) =~= want);
    rows
}

/// The name field of the save card: the name cut to the field, with a cursor
/// while it has the keyboard.
pub open spec fn name_field_of(app: App, p: Picker, field_width: u16) -> (Seq<char>, Fill) {
    let fill = if app.hover == Some(HoverTarget::PickerName) {
        Fill::Hovered
    } else if p.editing_name {
        Fill::Selection
    } else {
        Fill::Surface
    };
    let room: nat = if field_width >= 3 {
        (field_width - 3) as nat
    } else {
        0
    };
    ("  "@ + capped_text(p.filename@, room) + if p.editing_name { "_"@ } else { Seq::empty() }, fill)
}

pub fn picker_name_field(app: &App, p: &Picker, field_width: u16) -> (r: (String, Fill))
    ensures
        (r.0@, r.1) == name_field_of(*app, *p, field_width),
{
    let fill = if app.hover == Some(HoverTarget::PickerName) {
        Fill::Hovered
    } else if p.editing_name {
        Fill::Selection
    } else {
        Fill::Surface
    };
    let mut value = text_of("  ");
    let shown = capped(p.filename.as_str(), field_width.saturating_sub(3) as usize);
    push_str(&mut value, shown.as_str());
    if p.editing_name {
        push_str(&mut value, "_");
    }
    assert(value@ =~= name_field_of(*app, *p, field_width).0);
    (value, fill)
}

/// The picker's title for its mode.
pub fn picker_title(mode: PickerMode) -> (r: &'static str)
    ensures
        r@ == (match mode {
            PickerMode::InputFolder => "INPUT FOLDER"@,
            PickerMode::InputFiles => "INPUT VIDEO FILES"@,
            PickerMode::OutputFile => "SAVE OUTPUT"@,
            PickerMode::OutputFolder => "CHOOSE FOLDER"@,
        }),
{
    match mode {
        PickerMode::InputFolder => "INPUT FOLDER",
        PickerMode::InputFiles => "INPUT VIDEO FILES",
        PickerMode::OutputFile => "SAVE OUTPUT",
        PickerMode::OutputFolder => "CHOOSE FOLDER",
    }
}

// ---------------------------------------------------------------- buttons

/// How a button looks: a primary one is filled with the accent while it can
/// be used; the pointer lightens whatever fill it has.
#[derive(Debug, Clone, Copy, PartialEq, Eq, Structural)]
pub enum ButtonLook {
    Primary,
    PrimaryDisabled,
    Plain,
}

/// A button as drawn: its label, its key, how it looks, and whether the
/// pointer is on it.
#[derive(Debug, Clone)]
pub struct ButtonFace {
    pub label: String,
    pub key: String,
    pub look: ButtonLook,
    pub hovered: bool,
}

pub open spec fn face_view(f: ButtonFace) -> (Seq<char>, Seq<char>, ButtonLook, bool) {
    (f.label@, f.key@, f.look, f.hovered)
}

/// A card button: Enter is the primary, forward one and names its screen's
/// next step; Esc goes back; `x` cancels and is primary only while focused.
pub open spec fn card_face_of(app: App, code: KeyCode) -> Option<(Seq<char>, Seq<char>, ButtonLook, bool)> {
    let focused = match code {
        KeyCode::Esc => app.button_focus == Some(crate::app::NavigationButton::Back),
        KeyCode::Enter => app.button_focus == Some(crate::app::NavigationButton::Advance),
        _ => false,
    };
    let (label, primary) = if code == KeyCode::Enter {
        (
            match app.screen {
                Screen::Folders => "Next →"@,
                Screen::Settings => "Review →"@,
                Screen::Confirm => "Start →"@,
                _ => "Done"@,
            },
            true,
        )
    } else {
        (
            match code {
                KeyCode::Esc => "← Back"@,
                KeyCode::Char(c) => if c == 'x' {
                    "x Cancel"@
                } else {
                    ""@
                },
                _ => ""@,
            },
            focused,
        )
    };
    let target = if code == KeyCode::Esc {
        HoverTarget::CardButton(crate::app::NavigationButton::Back)
    } else {
        HoverTarget::CardButton(crate::app::NavigationButton::Advance)
    };
    match crate::screen::button_key_of(code) {
        Some(key) => Some(
            (label, seq![key], if primary { ButtonLook::Primary } else { ButtonLook::Plain }, app.hover == Some(target)),
        ),
        None => None,
    }
}

pub fn card_button_face(app: &App, code: KeyCode) -> (r: Option<ButtonFace>)
    ensures
        match r {
            Some(f) => card_face_of(*app, code) == Some(face_view(f)),
            None => card_face_of(*app, code) is None,
        },
{
    let focused = match code {
        KeyCode::Esc => app.button_focus == Some(crate::app::NavigationButton::Back),
        KeyCode::Enter => app.button_focus == Some(crate::app::NavigationButton::Advance),
        _ => false,
    };
    let (label, primary): (&str, bool) = if code == KeyCode::Enter {
        (
            match app.screen {
                Screen::Folders => "Next →",
                Screen::Settings => "Review →",
                Screen::Confirm => "Start →",
                _ => "Done",
            },
            true,
        )
    } else {
        (
            match code {
                KeyCode::Esc => "← Back",
                KeyCode::Char(c) => if c == 'x' {
                    "x Cancel"
                } else {
                    ""
                },
                _ => "",
            },
            focused,
        )
    };
    let target = if code == KeyCode::Esc {
        HoverTarget::CardButton(crate::app::NavigationButton::Back)
    } else {
        HoverTarget::CardButton(crate::app::NavigationButton::Advance)
    };
    match crate::screen::button_key(code) {
        Some(key) => {
            let mut k = String::new();
            crate::text::push_char(&mut k, key);
            assert(k@ =~= seq![key]);
            Some(
                ButtonFace {
                    label: text_of(label),
                    key: k,
                    look: if primary { ButtonLook::Primary } else { ButtonLook::Plain },
                    hovered: app.hover == Some(target),
                },
            )
        },
        None => None,
    }
}

/// A picker button: cancel and parent are plain; the primary one is filled
/// only while the picker can act on it.
pub open spec fn picker_face_of(app: App, p: Picker, button: crate::screen::PickerButton) -> (
    Seq<char>,
    Seq<char>,
    ButtonLook,
    bool,
) {
    match button {
        crate::screen::PickerButton::Cancel => ("Cancel"@, "esc"@, ButtonLook::Plain, app.hover == Some(
            HoverTarget::PickerCancel,
        )),
        crate::screen::PickerButton::Parent => ("Parent"@, "←"@, ButtonLook::Plain, app.hover == Some(
            HoverTarget::PickerParent,
        )),
        crate::screen::PickerButton::Primary => (
            crate::pointer::primary_text(p),
            "s"@,
            if p.ready() {
                ButtonLook::Primary
            } else {
                ButtonLook::PrimaryDisabled
            },
            app.hover == Some(HoverTarget::PickerPrimary),
        ),
    }
}

pub fn picker_button_face(app: &App, p: &Picker, button: crate::screen::PickerButton) -> (r: ButtonFace)
    ensures
        face_view(r) == picker_face_of(*app, *p, button),
{
    match button {
        crate::screen::PickerButton::Cancel => ButtonFace {
            label: text_of("Cancel"),
            key: text_of("esc"),
            look: ButtonLook::Plain,
            hovered: app.hover == Some(HoverTarget::PickerCancel),
        },
        crate::screen::PickerButton::Parent => ButtonFace {
            label: text_of("Parent"),
            key: text_of("←"),
            look: ButtonLook::Plain,
            hovered: app.hover == Some(HoverTarget::PickerParent),
        },
        crate::screen::PickerButton::Primary => ButtonFace {
            label: p.primary_label(),
            key: text_of("s"),
            look: if p.primary_ready() {
                ButtonLook::Primary
            } else {
                ButtonLook::PrimaryDisabled
            },
            hovered: app.hover == Some(HoverTarget::PickerPrimary),
        },
    }
}

// ---------------------------------------------------------------- wrapping

/// A run of text with its colour role and weight.
pub type Run = (Seq<char>, Ink, bool);

/// Where wrapping stands: the lines finished, the runs of the line being
/// filled, the characters of the run being filled, and the cells used on the line.
pub type WrapState = (Seq<Seq<Run>>, Seq<Run>, Seq<char>, nat);

/// One more character: it starts a new line when the line already holds
/// something and the character would overflow `width`.
pub open spec fn wrap_char(st: WrapState, c: char, ink: Ink, bold: bool, width: nat) -> WrapState {
    let w = crate::display::cells(c);
    if st.3 > 0 && st.3 + w > width {
        let current = if st.2.len() > 0 {
            st.1.push((st.2, ink, bold))
        } else {
            st.1
        };
        (st.0.push(current), Seq::empty(), seq![c], w)
    } else {
        (st.0, st.1, st.2.push(c), st.3 + w)
    }
}

pub open spec fn wrap_chars(st: WrapState, text: Seq<char>, ink: Ink, bold: bool, width: nat) -> WrapState
    decreases text.len(),
{
    if text.len() == 0 {
        st
    } else {
        wrap_char(wrap_chars(st, text.drop_last(), ink, bold, width), text.last(), ink, bold, width)
    }
}

/// The run being filled, if it holds anything, joins the line.
pub open spec fn close_run(st: WrapState, ink: Ink, bold: bool) -> WrapState {
    (st.0, if st.2.len() > 0 { st.1.push((st.2, ink, bold)) } else { st.1 }, Seq::empty(), st.3)
}

pub open spec fn wrap_runs(st: WrapState, runs: Seq<Run>, width: nat) -> WrapState
    decreases runs.len(),
{
    if runs.len() == 0 {
        st
    } else {
        let before = wrap_runs(st, runs.drop_last(), width);
        let run = runs.last();
        close_run(wrap_chars(before, run.0, run.1, run.2, width), run.1, run.2)
    }
}

/// The lines one line becomes in `width` cells; an empty line stays one line.
pub open spec fn wrap_line(line: Seq<Run>, width: nat) -> Seq<Seq<Run>> {
    if line.len() == 0 {
        seq![Seq::empty()]
    } else {
        let st = wrap_runs((Seq::empty(), Seq::empty(), Seq::empty(), 0), line, width);
        st.0.push(st.1)
    }
}

/// Lines wrapped to `width` cells (at least one), character by character.
pub open spec fn wrapped(lines: Seq<Seq<Run>>, width: u16) -> Seq<Seq<Run>>
    decreases lines.len(),
{
    if lines.len() == 0 {
        Seq::empty()
    } else {
        wrapped(lines.drop_last(), width) + wrap_line(lines.last(), if width == 0 { 1 } else { width as nat })
    }
}

fn wrap_one(line: &Vec<Span>, width: usize) -> (r: Vec<Vec<Span>>)
    requires
        1 <= width <= 65535,
    ensures
        lines_view(r@) == wrap_line(line_view(line@), width as nat),
{
    let mut out: Vec<Vec<Span>> = Vec::new();
    if line.len() == 0 {
        push_line(&mut out, Vec::new());
        assert(line_view(Seq::<Span>::empty()) =~= Seq::<Run>::empty());
        assert(lines_view(out@) =~= wrap_line(line_view(line@), width as nat));
        return out;
    }
    let ghost runs = line_view(line@);
    let mut current: Vec<Span> = Vec::new();
    let mut used: usize = 0;
    let mut i: usize = 0;
    while i < line.len()
        invariant
            i <= line@.len(),
            1 <= width <= 65535,
            runs == line_view(line@),
            used <= width + 3,
            (lines_view(out@), line_view(current@), Seq::<char>::empty(), used as nat) == wrap_runs(
                (Seq::empty(), Seq::empty(), Seq::empty(), 0),
                runs.take(i as int),
                width as nat,
            ),
        decreases line.len() - i,
    {
        let ink = line[i].ink;
        let bold = line[i].bold;
        let chars = crate::text::chars_of(line[i].text.as_str());
        let ghost start = (lines_view(out@), line_view(current@), Seq::<char>::empty(), used as nat);
        let mut chunk = String::new();
        let mut chunk_len: usize = 0;
        let mut k: usize = 0;
        while k < chars.len()
            invariant
                k <= chars@.len(),
                chars@ == line@[i as int].text@,
                1 <= width <= 65535,
                used <= width + 3,
                chunk_len == chunk@.len(),
                chunk_len <= k,
                (lines_view(out@), line_view(current@), chunk@, used as nat) == wrap_chars(
                    start,
                    chars@.take(k as int),
                    ink,
                    bold,
                    width as nat,
                ),
            decreases chars.len() - k,
        {
            let c = chars[k];
            let w: usize = match crate::display::char_width(c) {
                Some(w) => w,
                None => 0,
            };
            assert(chars@.take(k + 1).drop_last() =~= chars@.take(k as int));
            if used > 0 && used + w > width {
                if chunk_len > 0 {
                    push_run(&mut current, chunk, ink, bold);
                }
                let finished = current;
                push_line(&mut out, finished);
                current = Vec::new();
                assert(line_view(current@) =~= Seq::<Run>::empty());
                chunk = String::new();
                crate::text::push_char(&mut chunk, c);
                assert(chunk@ =~= seq![c]);
                chunk_len = 1;
                used = w;
            } else {
                crate::text::push_char(&mut chunk, c);
                chunk_len = chunk_len + 1;
                used = used + w;
            }
            k = k + 1;
        }
        assert(chars@.take(chars@.len() as int) =~= chars@);
        if chunk_len > 0 {
            push_run(&mut current, chunk, ink, bold);
        }
        assert(runs.take(i + 1).drop_last() =~= runs.take(i as int));
        i = i + 1;
    }
    assert(runs.take(line@.len() as int) =~= runs);
    push_line(&mut out, current);
    assert(lines_view(out@) =~= wrap_line(line_view(line@), width as nat));
    out
}

/// Lines wrapped to `width` cells, as the scrolling cards show them.
pub fn wrap_lines(lines: &Vec<Vec<Span>>, width: u16) -> (r: Vec<Vec<Span>>)
    ensures
        lines_view(r@) == wrapped(lines_view(lines@), width),
{
    let cells: usize = if width == 0 {
        1
    } else {
        width as usize
    };
    let ghost all = lines_view(lines@);
    let mut out: Vec<Vec<Span>> = Vec::new();
    let mut i: usize = 0;
    while i < lines.len()
        invariant
            i <= lines@.len(),
            all == lines_view(lines@),
            cells == (if width == 0 { 1 } else { width as nat }),
            lines_view(out@) == wrapped(all.take(i as int), width),
        decreases lines.len() - i,
    {
        let mut part = wrap_one(&lines[i], cells);
        let ghost before = out@;
        let ghost added = part@;
        out.append(&mut part);
        assert(out@ =~= before + added);
        assert(lines_view(out@) =~= lines_view(before) + lines_view(added));
        assert(all.take(i + 1).drop_last() =~= all.take(i as int));
        i = i + 1;
    }
    assert(all.take(lines@.len() as int) =~= all);
    out
}

} // verus!
