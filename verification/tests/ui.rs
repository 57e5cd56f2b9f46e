use otter::app::{
    App, ConfigField, HoverTarget, JobOutcome, JobRecord, JobState, NavigationButton, ProbeEntry,
    Screen, UiCommand,
};
use otter::domain::{
    AudioStreamInfo, EstimateBasis, FrameRate, InputMedia, RateControlMode, SizeEstimate,
    VideoStreamInfo,
};
use otter::input::{KeyCode, KeyInput, MouseInput, MouseKind, Rect};
use otter::picker::{Picker, PickerMode, RawEntry};
use otter::pointer::{folder_rows, picker_button_rects, picker_regions, screen_regions};
use otter::screen::{
    button_key, card_buttons, card_rect, centered_text_hit, chip_rects, hints, screen_step,
    status_tone, PickerButton, Tone,
};
use otter::toolchain::Toolchain;
use otter::transcode::ProgressUpdate;
use otter::view::{
    card_button_face, estimate_line, folder_line, folder_values_text, outcome_lines, outcome_row,
    help_lines, picker_list_item, picker_name_field, progress_lines, progress_scroll_offset,
    review_estimate_lines, review_lines,
    setting_line, setting_rows, stepper, ButtonLook, Fill, Ink, Span,
};

fn test_app() -> App {
    App::new(Toolchain::test_fixture())
}

fn mouse(kind: MouseKind, column: u16, row: u16) -> MouseInput {
    MouseInput { kind, column, row }
}

fn area() -> Rect {
    Rect { x: 0, y: 0, width: 100, height: 30 }
}

fn text(line: &[Span]) -> String {
    line.iter().map(|span| span.text.as_str()).collect()
}

fn all_text(lines: &[Vec<Span>]) -> String {
    lines.iter().map(|line| text(line)).collect::<Vec<_>>().join("\n")
}

fn media(path: &str, duration_micros: Option<u64>) -> InputMedia {
    InputMedia {
        path: path.to_owned(),
        duration_micros,
        video: VideoStreamInfo {
            codec: "h264".to_owned(),
            width: 1920,
            height: 1080,
            frame_rate: Some(FrameRate { numerator: 30, denominator: 1 }),
            bitrate_kbps: Some(100_000),
        },
        audio: Some(AudioStreamInfo {
            codec: "aac".to_owned(),
            channels: Some(2),
            sample_rate: Some(48_000),
        }),
        format_name: None,
        size_bytes: None,
        bitrate_kbps: Some(100_000),
    }
}

fn with_input(app: &mut App, path: &str, media: InputMedia) {
    app.inputs = vec![path.to_owned()];
    app.probes = vec![ProbeEntry { input: path.to_owned(), result: Ok(media) }];
    app.output_folder = Some("/exports".to_owned());
}

fn record(input: &str, output: &str, outcome: JobOutcome) -> JobRecord {
    JobRecord { input: input.to_owned(), output: output.to_owned(), outcome }
}

/// The row of settings field `index` on a 100 by 30 screen.
fn setting_row(app: &App, index: u16) -> u16 {
    let regions = screen_regions(area());
    card_rect(regions.card, app.screen).y + 2 + index
}

#[test]
fn mouse_and_keyboard_share_the_settings_actions() {
    let mut app = test_app();
    app.screen = Screen::Settings;
    let container_row = setting_row(&app, 0);

    let initial_container = app.draft.container;
    app.handle_mouse(mouse(MouseKind::LeftDown, 40, container_row), area(), 0);
    assert_eq!(app.focus, ConfigField::Container);
    assert_ne!(app.draft.container, initial_container);

    // Folder rows remain available on the first screen.
    app.screen = Screen::Folders;
    let (input, _) = folder_rows(screen_regions(area()).card);
    let replace = app.handle_mouse(mouse(MouseKind::LeftDown, input.x + 1, input.y), area(), 0);
    assert_eq!(replace, UiCommand::OpenInputs { add: false });

    app.focus = ConfigField::Input;
    app.handle_key(KeyInput::plain(KeyCode::Down));
    assert_eq!(app.focus, ConfigField::Output);
    app.handle_key(KeyInput::plain(KeyCode::Down));
    assert_eq!(app.button_focus, Some(NavigationButton::Advance));
}

#[test]
fn moved_mouse_updates_hover_without_changing_settings() {
    let mut app = test_app();
    app.screen = Screen::Settings;
    app.focus = ConfigField::Container;
    let regions = screen_regions(area());
    let content_x = card_rect(regions.card, Screen::Settings).x + 3;
    let row = setting_row(&app, 0);
    let before = app.draft.container;

    assert_eq!(
        app.handle_mouse(mouse(MouseKind::Moved, content_x + 2, row), area(), 0),
        UiCommand::Continue
    );
    assert_eq!(app.hover, Some(HoverTarget::Setting(ConfigField::Container)));
    assert_eq!(app.draft.container, before);
    let (_, fill) = setting_line(&app, ConfigField::Container, "Container", "MP4", true, 56);
    assert_eq!(fill, Fill::Hovered);

    app.handle_mouse(mouse(MouseKind::Moved, 0, 0), area(), 0);
    assert_eq!(app.hover, None);
    assert_eq!(app.draft.container, before);
}

#[test]
fn folders_mouse_click_regression_tracks_rendered_path_rows() {
    let mut app = test_app();
    let card = card_rect(screen_regions(area()).card, app.screen);
    let content_x = card.x + 3;
    let content_y = card.y + 2;
    let column = content_x + 2;

    app.handle_mouse(mouse(MouseKind::Moved, column, content_y), area(), 0);
    assert_eq!(app.hover, None, "the input heading is not a clickable row");

    app.handle_mouse(mouse(MouseKind::Moved, column, content_y + 1), area(), 0);
    assert_eq!(
        app.hover,
        Some(HoverTarget::InputRow),
        "the rendered input path row should hover on its own line"
    );
    let (_, fill) = folder_line(&app, ConfigField::Input, "clip.mov", 56);
    assert_eq!(fill, Fill::Hovered);

    app.handle_mouse(mouse(MouseKind::Moved, column, content_y + 2), area(), 0);
    assert_eq!(app.hover, None, "the blank line is not a clickable row");

    app.handle_mouse(mouse(MouseKind::Moved, column, content_y + 3), area(), 0);
    assert_eq!(app.hover, None, "the output heading is not a clickable row");

    app.handle_mouse(mouse(MouseKind::Moved, column, content_y + 4), area(), 0);
    assert_eq!(
        app.hover,
        Some(HoverTarget::OutputRow),
        "the rendered output path row should hover on its own line"
    );
    let (_, fill) = folder_line(&app, ConfigField::Output, "/exports", 56);
    assert_eq!(fill, Fill::Hovered);
}

fn listed_picker(mode: PickerMode, file_name: Option<&str>, files: &[&str]) -> Picker {
    let mut picker = Picker::open(mode, "/media".to_owned(), file_name.map(str::to_owned), false);
    let entries = files
        .iter()
        .map(|name| RawEntry {
            name: name.to_string(),
            path: format!("/media/{name}"),
            is_dir: false,
            size: 0,
        })
        .collect();
    picker.reload(Ok(entries));
    picker
}

#[test]
fn picker_hover_does_not_move_or_select_a_row() {
    let mut app = test_app();
    app.picker = Some(listed_picker(PickerMode::InputFiles, None, &["clip.mov"]));
    let list = picker_regions(PickerMode::InputFiles, area()).list;
    let cursor = app.picker.as_ref().unwrap().cursor;
    let selected = app.picker.as_ref().unwrap().selected.clone();

    app.handle_mouse(mouse(MouseKind::Moved, list.x + 2, list.y + 1), area(), 0);
    assert_eq!(app.hover, Some(HoverTarget::PickerRow(1)));
    assert_eq!(app.picker.as_ref().unwrap().cursor, cursor);
    assert_eq!(app.picker.as_ref().unwrap().selected, selected);

    let buttons = picker_regions(PickerMode::InputFiles, area()).buttons;
    app.handle_mouse(mouse(MouseKind::Moved, buttons.x + 2, buttons.y), area(), 0);
    assert_eq!(app.hover, Some(HoverTarget::PickerCancel));
    assert_eq!(app.picker.as_ref().unwrap().cursor, cursor);
    assert_eq!(app.picker.as_ref().unwrap().selected, selected);
}

#[test]
fn double_click_on_a_file_closes_the_picker_and_selects_it() {
    let mut app = test_app();
    app.picker = Some(listed_picker(PickerMode::InputFiles, None, &["a.mp4"]));
    let list = picker_regions(PickerMode::InputFiles, area()).list;
    let row = list.y + 1;

    app.handle_mouse(mouse(MouseKind::LeftDown, list.x + 2, row), area(), 1_000);
    assert!(app.picker.is_some());

    app.handle_mouse(mouse(MouseKind::LeftDown, list.x + 2, row), area(), 1_100);
    assert!(app.picker.is_none(), "the second click should confirm");
    assert_eq!(app.inputs, vec!["/media/a.mp4".to_owned()]);
}

#[test]
fn two_slow_clicks_are_not_a_double_click() {
    let mut app = test_app();
    app.picker = Some(listed_picker(PickerMode::InputFiles, None, &["a.mp4"]));
    let list = picker_regions(PickerMode::InputFiles, area()).list;
    app.handle_mouse(mouse(MouseKind::LeftDown, list.x + 2, list.y + 1), area(), 1_000);
    app.handle_mouse(mouse(MouseKind::LeftDown, list.x + 2, list.y + 1), area(), 2_000);
    assert!(app.picker.is_some());
}

#[test]
fn the_primary_button_does_not_fire_with_an_empty_name() {
    let mut app = test_app();
    app.picker = Some(listed_picker(PickerMode::OutputFile, None, &[]));
    let buttons = picker_regions(PickerMode::OutputFile, area()).buttons;
    let primary = (buttons.x + buttons.width).saturating_sub(13);

    app.handle_mouse(mouse(MouseKind::LeftDown, primary + 1, buttons.y), area(), 0);
    assert!(app.picker.is_some(), "an empty name must not confirm");
    assert_eq!(app.picker.as_ref().unwrap().error.as_deref(), Some("Enter a file name first."));
}

#[test]
fn save_picker_shows_the_name_field() {
    let app = test_app();
    let picker = listed_picker(PickerMode::OutputFile, Some("clip.mkv"), &[]);
    assert_eq!(otter::view::picker_title(picker.mode), "SAVE OUTPUT");
    let (field, _) = picker_name_field(&app, &picker, 56);
    assert!(field.contains("clip.mkv"), "{field}");
    let rects = picker_button_rects(&picker, picker_regions(PickerMode::OutputFile, area()).buttons);
    let primary = rects.iter().find(|(_, button)| *button == PickerButton::Primary);
    assert!(primary.is_some());
    let face = otter::view::picker_button_face(&app, &picker, PickerButton::Primary);
    assert_eq!(face.label, "Save here");
    assert_eq!(face.key, "s");
}

#[test]
fn renders_target_bitrate_and_numeric_editor() {
    let mut app = test_app();
    app.screen = Screen::Settings;
    app.draft.rate_control_mode = RateControlMode::Bitrate;
    app.focus = ConfigField::RateValue;
    let rows = setting_rows(&app);
    let values: Vec<String> = rows.iter().map(|row| format!("{} {}", row.1, row.2)).collect();
    assert!(values.iter().any(|v| v.contains("Target bitrate")), "{values:?}");
    assert!(values.iter().any(|v| v.contains("Video bitrate")), "{values:?}");
    assert!(values.iter().any(|v| v.contains("5000 kbps")), "{values:?}");

    app.handle_key(KeyInput::plain(KeyCode::Enter));
    assert_eq!(app.numeric_edit_value(), Some(("5000", ConfigField::RateValue)));
}

#[test]
fn estimated_size_row_aligns_with_setting_rows() {
    let mut app = test_app();
    app.screen = Screen::Settings;
    app.button_focus = Some(NavigationButton::Advance);
    let (container, _) = setting_line(&app, ConfigField::Container, "Container", "MP4", true, 56);
    let estimate = estimate_line(&app, None);
    let container = text(&container);
    let estimate = text(&estimate);
    let container_label = container.find("Container").unwrap();
    let estimate_label = estimate.find("Est. size").unwrap();
    let container_value = container.find("MP4").unwrap();
    let estimate_value = estimate.find("Awaiting source").unwrap();
    assert_eq!(estimate_label, container_label, "label columns must align");
    assert_eq!(estimate_value, container_value, "value columns must align");
}

#[test]
fn the_estimate_row_shows_the_figure_or_why_there_is_none() {
    let mut app = test_app();
    app.screen = Screen::Settings;
    let line = estimate_line(&app, Some(SizeEstimate { bytes: 6_600_000, basis: EstimateBasis::Targeted }));
    assert!(text(&line).contains("~6.6 MB"));
    assert!(!text(&line).contains("(rough)"));
    assert_eq!(line[1].ink, Ink::Secondary);
    let rough = estimate_line(&app, Some(SizeEstimate { bytes: 6_600_000, basis: EstimateBasis::Heuristic }));
    assert!(text(&rough).contains("(rough)"));
    with_input(&mut app, "clip.mp4", media("clip.mp4", None));
    assert!(text(&estimate_line(&app, None)).contains("Unknown (source has no duration)"));
}

#[test]
fn review_lists_every_mapping_of_a_queue() {
    let mut app = test_app();
    app.screen = Screen::Confirm;
    app.command_preview = Some("ffmpeg -i source.mp4".to_owned());
    app.queue = (1..=12)
        .map(|index| {
            record(
                &format!("/media/source-{index}.mov"),
                &format!("/exports/source-{index}-transcode.mp4"),
                JobOutcome::Pending,
            )
        })
        .collect();
    let lines = review_lines(&app);
    let all = all_text(&lines);
    assert!(all.contains("The same settings run for all 12 files, one after another:"));
    assert!(all.contains("  source-1.mov → source-1-transcode.mp4"));
    assert!(all.contains("  source-12.mov → source-12-transcode.mp4"));
    assert_eq!(lines.len(), 3 + 2 + 12);
}

#[test]
fn review_without_a_preview_says_so() {
    let app = test_app();
    let all = all_text(&review_lines(&app));
    assert!(all.contains("Command preview unavailable."));
    assert!(all.starts_with("Output is written to an app-owned temporary file first."));
}

#[test]
fn progress_shows_the_share_the_counter_and_the_bar() {
    let mut app = test_app();
    app.screen = Screen::Running;
    app.queue = vec![
        record("/media/a.mov", "/exports/a-transcode.mp4", JobOutcome::Succeeded { elapsed_ms: 1_000 }),
        record("/media/b.mov", "/exports/b-transcode.mp4", JobOutcome::Running),
    ];
    app.job = JobState::Running {
        index: 1,
        pid: 42,
        progress: Some(ProgressUpdate {
            processed_micros: 65_000_000,
            percent_permille: Some(453),
            total_micros: Some(143_500_000),
            speed: Some("2.0x".to_owned()),
            finished: false,
        }),
    };
    let lines = progress_lines(&app, 46);
    assert_eq!(text(&lines[0]), " 45.3%  •  01:05 processed  •  2.0x");
    assert_eq!(text(&lines[1]), "FILE 2 OF 2: B.MOV");
    let bar = &lines[2];
    assert_eq!(bar[0].text.chars().count(), 18);
    assert_eq!(bar[1].text.chars().count(), 22);
    assert_eq!(text(&lines[4]), "FFmpeg messages");
    assert_eq!(text(&lines[5]), "No FFmpeg warnings.");
}

#[test]
fn progress_before_the_first_update_says_ffmpeg_is_starting() {
    let mut app = test_app();
    app.screen = Screen::Running;
    app.queue = vec![record("clip.mp4", "/tmp/output.mp4", JobOutcome::Running)];
    app.job = JobState::Starting;
    app.stderr_tail = vec!["warning one".to_owned()];
    let lines = progress_lines(&app, 56);
    assert_eq!(text(&lines[0]), "Starting FFmpeg…");
    assert_eq!(lines[0][0].ink, Ink::Accent);
    assert_eq!(text(&lines[4]), "warning one");
    app.job = JobState::Cancelling;
    let lines = progress_lines(&app, 56);
    assert_eq!(text(&lines[0]), "Cancelling FFmpeg safely…");
    assert_eq!(lines[0][0].ink, Ink::Warning);
}

#[test]
fn progress_scroll_follows_the_tail_or_holds_its_place() {
    let mut app = test_app();
    assert_eq!(progress_scroll_offset(&app, 30, 10), 20);
    app.progress_follow = false;
    app.progress_scroll = 5;
    assert_eq!(progress_scroll_offset(&app, 30, 10), 15);
    app.progress_scroll_from_top = true;
    assert_eq!(progress_scroll_offset(&app, 30, 10), 5);
    app.progress_scroll = 50;
    assert_eq!(progress_scroll_offset(&app, 30, 10), 20);
    assert_eq!(progress_scroll_offset(&app, 5, 10), 0);
}

#[test]
fn a_single_success_reports_its_output_and_time() {
    let mut app = test_app();
    app.screen = Screen::Result;
    app.queue = vec![record("clip.mp4", "/tmp/output.mp4", JobOutcome::Succeeded { elapsed_ms: 65_400 })];
    app.job = JobState::Finished { elapsed_ms: 65_400, cancelled: false };
    let lines = outcome_lines(&app, 24);
    assert_eq!(text(&lines[0]), "CONVERSION COMPLETE");
    assert!(lines[0][0].bold);
    assert_eq!(lines[0][0].ink, Ink::Success);
    assert_eq!(text(&lines[1]), "Output: /tmp/output.mp4");
    assert_eq!(text(&lines[2]), "Elapsed: 01:05");
    assert_eq!(lines.len(), 3);
}

#[test]
fn a_cancelled_or_failed_single_job_says_what_was_kept() {
    let mut app = test_app();
    app.screen = Screen::Result;
    app.queue = vec![record("clip.mp4", "/tmp/output.mp4", JobOutcome::Cancelled)];
    let all = all_text(&outcome_lines(&app, 24));
    assert!(all.contains("CONVERSION CANCELLED"));
    assert!(all.contains("The app-owned temporary output was removed."));

    app.screen = Screen::Error;
    app.queue = vec![record("clip.mp4", "/tmp/output.mp4", JobOutcome::Failed("Encoder failed.".to_owned()))];
    app.stderr_tail = (1..=8).map(|n| format!("line {n}")).collect();
    let lines = outcome_lines(&app, 24);
    let all = all_text(&lines);
    assert!(all.contains("Encoder failed."));
    assert!(all.contains("Nothing was written to the destination."));
    assert!(all.contains("Recent FFmpeg output:"));
    assert!(!all.contains("line 2\n"));
    assert!(all.contains("line 3"));
    assert!(all.ends_with("line 8"));
}

#[test]
fn a_queue_reports_each_file() {
    let mut app = test_app();
    app.screen = Screen::Result;
    app.queue = vec![
        record("/media/a.mov", "/exports/a-transcode.mp4", JobOutcome::Succeeded { elapsed_ms: 3_000 }),
        record("/media/b.mov", "/exports/b-transcode.mp4", JobOutcome::Failed("FFmpeg failed with exit code 1.".to_owned())),
    ];
    app.job = JobState::Finished { elapsed_ms: 125_000, cancelled: false };
    let lines = outcome_lines(&app, 24);
    assert_eq!(text(&lines[0]), "QUEUE COMPLETE");
    assert_eq!(lines[0][0].ink, Ink::Warning);
    assert_eq!(text(&lines[1]), "1 of 2 files converted in 02:05.");
    assert!(text(&lines[3]).starts_with("✓ a.mov"));
    assert!(text(&lines[4]).ends_with("exit code 1."));

    app.job = JobState::Finished { elapsed_ms: 1_000, cancelled: true };
    let lines = outcome_lines(&app, 24);
    assert_eq!(text(&lines[0]), "QUEUE CANCELLED");
    assert_eq!(text(&lines[1]), "Queue cancelled: 1 of 2 files converted in 00:01.");
    // A short card shows as many rows as fit.
    assert_eq!(outcome_lines(&app, 7).len(), 4);
}

#[test]
fn outcome_rows_mark_each_result() {
    let row = outcome_row(&record("/media/a.mov", "/exports/a.mp4", JobOutcome::Skipped));
    assert_eq!(text(&row), format!("· {:<28}not started", "a.mov"));
    let row = outcome_row(&record("/media/a.mov", "/exports/a.mp4", JobOutcome::Cancelled));
    assert_eq!(row[0].ink, Ink::Warning);
    assert!(text(&row).ends_with("cancelled"));
}

#[test]
fn the_folder_card_summarises_the_selection() {
    let mut app = test_app();
    let (input, output) = folder_values_text(&app);
    assert_eq!(input, "Select one or more video files");
    assert_eq!(output, "Select an output folder");
    app.inputs = vec!["/media/a.mov".to_owned(), "/media/b.mov".to_owned()];
    app.output_folder = Some("/exports".to_owned());
    let (input, output) = folder_values_text(&app);
    assert_eq!(input, "2 video files selected");
    assert_eq!(output, "/exports");
    let (line, fill) = folder_line(&app, ConfigField::Input, &input, 30);
    assert_eq!(fill, Fill::Selection);
    assert_eq!(text(&line), format!("▸ {:<28}", input));
    assert_eq!(text(&line).chars().count(), 30);
}

#[test]
fn the_stepper_centres_each_label_on_its_dot() {
    let steps = stepper(Rect { x: 0, y: 0, width: 100, height: 2 }, 2).unwrap();
    let labels = text(&steps.labels);
    assert_eq!(labels, "Folders     Settings     Review     Progress      Done");
    let dots = text(&steps.dots);
    assert_eq!(dots.chars().filter(|c| *c == '●').count(), 3);
    assert_eq!(dots.chars().filter(|c| *c == '○').count(), 2);
    assert_eq!(steps.labels_area, Rect { x: 23, y: 1, width: 54, height: 1 });
    assert_eq!(steps.dots_area, Rect { x: 26, y: 0, width: 51, height: 1 });
    assert!(stepper(Rect { x: 0, y: 0, width: 100, height: 1 }, 0).is_none());
    assert_eq!(screen_step(Screen::Error), 4);
}

#[test]
fn status_chips_sit_at_the_right_end() {
    let chips = hints(Screen::Folders, None);
    let rects = chip_rects(Rect { x: 0, y: 29, width: 100, height: 1 }, &chips);
    assert_eq!(rects.len(), 2);
    assert_eq!(rects[1].0.x + rects[1].0.width, 100);
    assert_eq!(rects[0].1, 'i');
    assert!(chip_rects(Rect { x: 0, y: 29, width: 10, height: 1 }, &chips).is_empty());
}

#[test]
fn a_chip_click_runs_its_key() {
    let mut app = test_app();
    let status = screen_regions(area()).status;
    let chips = hints(Screen::Folders, None);
    let rects = chip_rects(status, &chips);
    let (rect, key) = rects[0];
    assert_eq!(key, 'i');
    let command = app.handle_mouse(mouse(MouseKind::LeftDown, rect.x + 2, rect.y), area(), 0);
    assert_eq!(command, UiCommand::OpenInputs { add: false });
}

#[test]
fn the_card_buttons_answer_their_keys() {
    let mut app = test_app();
    app.screen = Screen::Confirm;
    let body = screen_regions(area()).card;
    let back = card_buttons(body, Screen::Confirm)
        .into_iter()
        .find(|b| b.code == KeyCode::Esc)
        .expect("the confirm card has a back button");
    app.handle_mouse(mouse(MouseKind::LeftDown, back.area.x + 2, back.area.y), area(), 0);
    assert_eq!(app.screen, Screen::Settings);
    assert_eq!(button_key(KeyCode::Char('x')), Some('x'));
    let face = card_button_face(&app, KeyCode::Enter).unwrap();
    assert_eq!(face.label, "Review →");
    assert_eq!(face.look, ButtonLook::Primary);
}

#[test]
fn a_popup_click_answers_the_choice_under_it() {
    let area = area();
    let content = Rect { x: 26, y: 10, width: 48, height: 5 };
    let line = "[y/Enter] Cancel job    [n/Esc] Keep running";
    assert!(centered_text_hit(content, 12, line, "[y/Enter] Cancel job", 28, 12));
    assert!(!centered_text_hit(content, 12, line, "[y/Enter] Cancel job", 28, 13));
    assert!(centered_text_hit(content, 12, line, "[n/Esc] Keep running", 70, 12));
    assert!(!centered_text_hit(content, 12, line, "missing", 28, 12));

    let mut app = test_app();
    app.help_visible = true;
    app.handle_mouse(mouse(MouseKind::LeftDown, 1, 1), area, 0);
    assert!(!app.help_visible);
}

#[test]
fn validation_outweighs_status_copy() {
    assert_eq!(status_tone(Screen::Result, true), Tone::Warning);
    assert_eq!(status_tone(Screen::Result, false), Tone::Success);
    assert_eq!(status_tone(Screen::Error, false), Tone::Error);
    assert_eq!(status_tone(Screen::Folders, false), Tone::Muted);
}

#[test]
fn listing_rows_mark_folders_and_picked_files() {
    let mut picker = listed_picker(PickerMode::InputFiles, None, &["clip.mov"]);
    picker.selected = vec!["/media/clip.mov".to_owned()];
    let row = picker.rows[1].clone();
    let line = picker_list_item(&picker, &row, 20, true, false);
    assert_eq!(text(&line), format!("▸ [✓] clip.mov{:>10}", "0 B"));
    assert_eq!(line[1].ink, Ink::Accent);
    let parent = picker_list_item(&picker, &picker.rows[0].clone(), 20, false, true);
    assert_eq!(text(&parent), "› ..");
}

fn visible(lines: &[Vec<Span>], offset: u16, height: u16) -> String {
    let from = (offset as usize).min(lines.len());
    let to = (from + height as usize).min(lines.len());
    all_text(&lines[from..to])
}

#[test]
fn review_renders_every_mapping_and_scrolls_with_keys_and_wheel() {
    let mut app = test_app();
    app.screen = Screen::Confirm;
    app.command_preview = Some("ffmpeg -i source.mp4".to_owned());
    app.queue = (1..=12)
        .map(|index| {
            record(
                &format!("/media/source-{index}.mov"),
                &format!("/exports/source-{index}-transcode.mp4"),
                JobOutcome::Pending,
            )
        })
        .collect();
    let area = Rect { x: 0, y: 0, width: 80, height: 18 };
    let card = card_rect(screen_regions(area).card, app.screen);
    let viewport = otter::pointer::card_viewport(app.screen, card);
    let wrapped = otter::view::wrap_lines(&review_lines(&app), viewport.width);

    let offset = otter::view::review_scroll_offset(&app, wrapped.len(), viewport.height);
    let top = visible(&wrapped, offset, viewport.height);
    assert!(top.contains("source-1.mov"), "{top}");
    assert!(!top.contains("source-12.mov"), "{top}");

    app.handle_key(KeyInput::plain(KeyCode::End));
    let offset = otter::view::review_scroll_offset(&app, wrapped.len(), viewport.height);
    let bottom = visible(&wrapped, offset, viewport.height);
    assert!(bottom.contains("source-12.mov"), "{bottom}");
    assert!(!bottom.contains("…"), "{bottom}");

    app.handle_key(KeyInput::plain(KeyCode::Home));
    app.handle_mouse(mouse(MouseKind::ScrollDown, viewport.x, viewport.y), area, 0);
    assert_eq!(app.review_scroll, 3);
}

#[test]
fn progress_wraps_long_lines_and_preserves_manual_scroll() {
    const TAIL: &str = "TAIL_MARKER";
    let mut app = test_app();
    app.screen = Screen::Running;
    app.queue = vec![record("clip.mp4", "/tmp/output.mp4", JobOutcome::Running)];
    app.job = JobState::Running { index: 0, pid: 42, progress: None };
    app.stderr_tail.push(format!("{} {TAIL}", "long-message ".repeat(100)));
    let area = Rect { x: 0, y: 0, width: 62, height: 30 };
    let card = card_rect(screen_regions(area).card, app.screen);
    let viewport = otter::pointer::card_viewport(app.screen, card);
    let lines = progress_lines(&app, card.width);
    let wrapped = otter::view::wrap_lines(&lines, viewport.width);
    let shown = |app: &App| {
        let offset = progress_scroll_offset(app, wrapped.len(), viewport.height);
        visible(&wrapped, offset, viewport.height)
    };

    let bottom = shown(&app);
    assert!(bottom.contains(TAIL), "{bottom}");

    app.handle_key(KeyInput::plain(KeyCode::Home));
    assert!(!app.progress_follow);
    let top = shown(&app);
    assert!(!top.contains(TAIL), "{top}");
    app.handle_key(KeyInput::plain(KeyCode::End));
    assert!(app.progress_follow);
    assert!(shown(&app).contains(TAIL));

    app.handle_mouse(mouse(MouseKind::ScrollUp, viewport.x, viewport.y), area, 0);
    assert!(!app.progress_follow);
    assert_eq!(app.progress_scroll, 3);
}

#[test]
fn wrapping_breaks_lines_at_the_width_and_keeps_styles() {
    let lines = vec![
        vec![Span { text: "long-message long".to_owned(), ink: Ink::Text, bold: false }],
        vec![],
        vec![
            Span { text: "ab".to_owned(), ink: Ink::Accent, bold: true },
            Span { text: "cdef".to_owned(), ink: Ink::Muted, bold: false },
        ],
    ];
    let wrapped = otter::view::wrap_lines(&lines, 6);
    let texts: Vec<String> = wrapped.iter().map(|line| text(line)).collect();
    assert_eq!(texts, vec!["long-m", "essage", " long", "", "abcdef"]);
    let narrow = otter::view::wrap_lines(&lines[2..].to_vec(), 3);
    assert_eq!(narrow.len(), 2);
    assert_eq!(narrow[0].len(), 2);
    assert_eq!(narrow[0][0].text, "ab");
    assert!(narrow[0][0].bold);
    assert_eq!(narrow[0][1].text, "c");
    assert_eq!(narrow[0][1].ink, Ink::Muted);
    assert_eq!(text(&narrow[1]), "def");
    // A width of zero wraps at every character.
    assert_eq!(otter::view::wrap_lines(&lines[2..].to_vec(), 0).len(), 6);
}

#[test]
fn the_header_keeps_three_words_of_the_version() {
    assert_eq!(otter::screen::short_version("ffmpeg version 8.1.2 Copyright (c) 2000"), "ffmpeg version 8.1.2");
    assert_eq!(otter::screen::short_version("  ffmpeg\t version  "), "ffmpeg version");
    assert_eq!(otter::screen::short_version(""), "");
}

#[test]
fn opening_the_input_picker_lands_in_the_last_held_folder() {
    let mut app = test_app();
    app.open_inputs_picker(false, Some("/home/user".to_owned()));
    let picker = app.picker.as_mut().expect("the picker should open");
    assert_eq!(picker.mode, PickerMode::InputFiles);
    assert_eq!(picker.dir, "/home/user");
    assert_eq!(picker.take_navigation(), Some(otter::picker::Navigation::Reload));
    picker.reload(Ok(Vec::new()));
    assert!(!picker.rows.is_empty());
}

#[test]
fn renders_confirmation_running_results_and_error() {
    let mut app = test_app();
    app.screen = Screen::Confirm;
    app.command_preview = Some("'/opt/homebrew/bin/ffmpeg' '-i' 'input file.mp4'".to_owned());
    let confirm = all_text(&review_lines(&app));
    assert!(confirm.contains("input file.mp4"), "{confirm}");

    app.screen = Screen::Running;
    app.queue = vec![record("clip.mp4", "/tmp/output.mp4", JobOutcome::Running)];
    app.job = JobState::Running { index: 0, pid: 42, progress: None };
    let running = all_text(&progress_lines(&app, 98));
    assert!(running.contains("Starting FFmpeg"), "{running}");
    assert!(running.contains("No FFmpeg warnings"), "{running}");

    app.screen = Screen::Result;
    app.queue = vec![record("clip.mp4", "/tmp/output.mp4", JobOutcome::Succeeded { elapsed_ms: 4_000 })];
    app.job = JobState::Finished { elapsed_ms: 4_000, cancelled: false };
    let complete = all_text(&outcome_lines(&app, 24));
    assert!(complete.contains("CONVERSION COMPLETE"), "{complete}");
    assert!(complete.contains("/tmp/output.mp4"), "{complete}");

    app.queue = vec![record("clip.mp4", "/tmp/output.mp4", JobOutcome::Cancelled)];
    app.job = JobState::Finished { elapsed_ms: 1_000, cancelled: true };
    assert!(all_text(&outcome_lines(&app, 24)).contains("CONVERSION CANCELLED"));

    app.screen = Screen::Error;
    app.queue = vec![record("clip.mp4", "/tmp/output.mp4", JobOutcome::Failed("Encoder failed.".to_owned()))];
    app.job = JobState::Finished { elapsed_ms: 1_000, cancelled: false };
    let error = all_text(&outcome_lines(&app, 24));
    assert!(error.contains("Encoder failed"), "{error}");
}

#[test]
fn done_footer_does_not_revalidate_the_output_it_just_created() {
    let mut app = test_app();
    app.inputs = vec!["/media/a.mov".to_owned(), "/other/a.mov".to_owned()];
    app.output_folder = Some("/exports".to_owned());
    app.receive_probe("/media/a.mov".to_owned(), Ok(media("/media/a.mov", Some(1_000_000))));
    app.receive_probe("/other/a.mov".to_owned(), Ok(media("/other/a.mov", Some(1_000_000))));
    assert!(app.current_validation_error().is_some());
    assert!(otter::screen::preflight_error(&app).is_some());

    app.screen = Screen::Result;
    app.status_message = Some("Conversion completed successfully.".to_owned());
    app.job = JobState::Finished { elapsed_ms: 1_000, cancelled: false };
    assert_eq!(otter::screen::preflight_error(&app), None);
    assert_eq!(status_tone(app.screen, false), Tone::Success);
}

#[test]
fn renders_a_queue_from_selection_to_per_file_outcome() {
    let mut app = test_app();
    app.inputs = vec!["/media/a.mov".to_owned(), "/media/b.mov".to_owned()];
    app.output_folder = Some("/exports".to_owned());
    app.probes = vec![ProbeEntry { input: "/media/a.mov".to_owned(), result: Ok(media("/media/a.mov", Some(10_000_000))) }];
    app.screen = Screen::Settings;
    let rows: Vec<String> = setting_rows(&app).into_iter().map(|row| row.1.to_owned()).collect();
    assert!(rows.contains(&"Container".to_owned()), "{rows:?}");
    assert!(rows.contains(&"Rate control".to_owned()), "{rows:?}");

    app.screen = Screen::Confirm;
    app.command_preview = Some("'/opt/homebrew/bin/ffmpeg' '-i' '/media/a.mov'".to_owned());
    app.queue = vec![
        record("/media/a.mov", "/exports/a-transcode.mp4", JobOutcome::Pending),
        record("/media/b.mov", "/exports/b-transcode.mp4", JobOutcome::Pending),
    ];
    let confirm = all_text(&review_lines(&app));
    assert!(confirm.contains("The same settings run for all 2 files"), "{confirm}");
    assert!(confirm.contains("b.mov → b-transcode.mp4"), "{confirm}");

    app.screen = Screen::Running;
    app.job = JobState::Running { index: 1, pid: 7, progress: None };
    let running = all_text(&progress_lines(&app, 98));
    assert!(running.contains("FILE 2 OF 2: B.MOV"), "{running}");

    app.screen = Screen::Result;
    app.queue = vec![
        record("/media/a.mov", "/exports/a-transcode.mp4", JobOutcome::Succeeded { elapsed_ms: 3_000 }),
        record("/media/b.mov", "/exports/b-transcode.mp4", JobOutcome::Failed("FFmpeg failed with exit code 1.".to_owned())),
    ];
    app.job = JobState::Finished { elapsed_ms: 9_000, cancelled: false };
    let result = all_text(&outcome_lines(&app, 26));
    assert!(result.contains("QUEUE COMPLETE"), "{result}");
    assert!(result.contains("1 of 2 files converted"), "{result}");
    assert!(result.contains("exit code 1"), "{result}");
}

#[test]
fn renders_without_panicking_in_small_terminals() {
    let mut app = test_app();
    for (width, height) in [(80, 24), (60, 10), (40, 6), (1, 1), (0, 0)] {
        let area = Rect { x: 0, y: 0, width, height };
        let regions = screen_regions(area);
        for screen in [Screen::Folders, Screen::Settings, Screen::Confirm, Screen::Running, Screen::Result] {
            let card = card_rect(regions.card, screen);
            let _ = card_buttons(card, screen);
            let _ = otter::pointer::card_viewport(screen, card);
        }
        let _ = stepper(regions.stepper, 0);
        let _ = chip_rects(regions.status, &hints(Screen::Folders, None));
        let _ = app.handle_mouse(mouse(MouseKind::LeftDown, width / 2, height / 2), area, 0);
    }
    app.inputs = (0..40).map(|index| format!("/media/clip{index}.mov")).collect();
    app.screen = Screen::Settings;
    let rows: Vec<&str> = setting_rows(&app).into_iter().map(|row| row.1).collect();
    assert!(rows.contains(&"Rate control"), "{rows:?}");
}

#[test]
fn picker_renders_as_a_modal_card_with_its_buttons() {
    let app = test_app();
    let mut picker = Picker::open(PickerMode::InputFiles, "/media".to_owned(), None, false);
    picker.reload(Ok(vec![
        RawEntry { name: "holiday.mkv".to_owned(), path: "/media/holiday.mkv".to_owned(), is_dir: false, size: 0 },
        RawEntry { name: "archive".to_owned(), path: "/media/archive".to_owned(), is_dir: true, size: 0 },
    ]));
    assert_eq!(otter::view::picker_title(picker.mode), "INPUT VIDEO FILES");
    let regions = picker_regions(picker.mode, area());
    let rows = otter::view::picker_list_rows(&app, &picker, regions.list);
    let listing: Vec<String> = rows.iter().map(|(line, _, _)| text(line)).collect();
    assert!(listing.iter().any(|row| row.contains("archive/")), "{listing:?}");
    assert!(listing.iter().any(|row| row.contains("[ ] holiday.mkv")), "{listing:?}");
    let faces: Vec<String> = picker_button_rects(&picker, regions.buttons)
        .into_iter()
        .map(|(_, button)| {
            let face = otter::view::picker_button_face(&app, &picker, button);
            format!("{} ({})", face.label, face.key)
        })
        .collect();
    assert_eq!(faces, vec!["Cancel (esc)", "Parent (←)", "Done (0) (s)"]);
    assert!(picker.footer_help().contains("s done"));
}

#[test]
fn input_files_mouse_click_regression_selects_file_through_ui() {
    let mut app = test_app();
    app.picker = Some(listed_picker(PickerMode::InputFiles, None, &["holiday.mkv"]));
    let picker = app.picker.as_ref().expect("the picker should be open");
    let list = picker_regions(picker.mode, area()).list;
    let file_index = picker
        .rows
        .iter()
        .position(|row| matches!(row, otter::picker::Row::Entry(entry) if entry.path == "/media/holiday.mkv"))
        .expect("the file should be listed");
    let row = list.y + (file_index - picker.window(list.height as usize)) as u16;
    app.handle_mouse(mouse(MouseKind::LeftDown, list.x + 2, row), area(), 0);
    let picker = app.picker.as_ref().expect("a single click must keep the picker open");
    assert_eq!(picker.selected, vec!["/media/holiday.mkv".to_owned()]);
}

#[test]
fn mouse_activates_the_status_hints_and_card_buttons() {
    let mut app = test_app();
    let regions = screen_regions(area());
    let chips = hints(app.screen, app.button_focus);
    let rects = chip_rects(regions.status, &chips);
    let (rect, _) = rects
        .iter()
        .find(|(_, key)| *key == 'i')
        .copied()
        .unwrap_or_else(|| panic!("status chips should include input: {rects:?}"));
    let command = app.handle_mouse(mouse(MouseKind::LeftDown, rect.x + 2, rect.y), area(), 0);
    assert_eq!(command, UiCommand::OpenInputs { add: false });
    assert_eq!(app.screen, Screen::Folders);

    with_input(&mut app, "/media/clip.mov", media("/media/clip.mov", Some(10_000_000)));
    app.focus = ConfigField::Input;
    let next = card_buttons(regions.card, app.screen)
        .into_iter()
        .find(|b| b.code == KeyCode::Enter)
        .expect("the folders card has a next button");
    app.handle_mouse(mouse(MouseKind::LeftDown, next.area.x + 2, next.area.y), area(), 0);
    assert_eq!(app.screen, Screen::Settings);

    let back = card_buttons(regions.card, app.screen)
        .into_iter()
        .find(|b| b.code == KeyCode::Esc)
        .expect("the settings card has a back button");
    app.handle_mouse(mouse(MouseKind::LeftDown, back.area.x + 2, back.area.y), area(), 0);
    assert_eq!(app.screen, Screen::Folders);

    app.leave_folders();
    let review = card_buttons(regions.card, app.screen)
        .into_iter()
        .find(|b| b.code == KeyCode::Enter)
        .expect("the settings card has a review button");
    app.handle_mouse(mouse(MouseKind::LeftDown, review.area.x + 2, review.area.y), area(), 0);
    // The host reserves the outputs the plan asks for.
    let configs = app
        .take_effects()
        .into_iter()
        .find_map(|effect| match effect {
            otter::app::Effect::Reserve(configs) => Some(configs),
            _ => None,
        })
        .expect("the review asks for its outputs");
    let reservations = configs
        .iter()
        .map(|config| {
            Ok(otter::transcode::ArtifactPaths {
                temporary_path: "/exports/.otter-1/output.mp4".to_owned(),
                final_path: config.output.clone(),
            })
        })
        .collect();
    app.confirm_plan(configs, reservations);
    assert_eq!(app.screen, Screen::Confirm);

    let back = card_buttons(regions.card, app.screen)
        .into_iter()
        .find(|b| b.code == KeyCode::Esc)
        .expect("the confirm card has a back button");
    app.handle_mouse(mouse(MouseKind::LeftDown, back.area.x + 2, back.area.y), area(), 0);
    assert_eq!(app.screen, Screen::Settings);
}

#[test]
fn the_review_estimate_names_a_total_for_several_files() {
    let mut app = test_app();
    app.queue = vec![record("/media/a.mov", "/exports/a.mp4", JobOutcome::Pending)];
    let lines = review_estimate_lines(&app, SizeEstimate { bytes: 6_600_000, basis: EstimateBasis::Targeted });
    assert_eq!(lines.len(), 2);
    assert!(lines[0].is_empty());
    assert_eq!(text(&lines[1]), "Estimated output size  ~6.6 MB");
    assert_eq!(lines[1][1].ink, Ink::Secondary);
    app.queue.push(record("/media/b.mov", "/exports/b.mp4", JobOutcome::Pending));
    let lines = review_estimate_lines(&app, SizeEstimate { bytes: 6_600_000, basis: EstimateBasis::Heuristic });
    assert_eq!(text(&lines[1]), "Estimated total output size  ~6.6 MB (rough)");
    assert_eq!(lines[1][1].ink, Ink::Muted);
}

#[test]
fn help_lists_keys_mouse_and_bitrate_limits() {
    let lines = help_lines();
    assert_eq!(lines.len(), 19);
    assert_eq!(text(&lines[0]), "Keyboard");
    assert!(lines[0][0].bold);
    assert_eq!(lines[0][0].ink, Ink::Accent);
    let all = all_text(&lines);
    assert!(all.contains("x                   Cancel the run (stops the whole queue)"));
    assert!(all.contains("Bitrates are entered in kbps. Video: 100–200000. Audio: 32–512."));
    assert_eq!(lines[18][0].ink, Ink::Warning);
}

#[test]
fn the_progress_bar_rounds_the_exact_share() {
    let mut app = test_app();
    app.screen = Screen::Running;
    app.job = JobState::Running {
        index: 0,
        pid: 42,
        progress: Some(ProgressUpdate {
            processed_micros: 1_246,
            percent_permille: Some(125),
            total_micros: Some(10_000),
            speed: None,
            finished: false,
        }),
    };
    let lines = progress_lines(&app, 106);
    let bar = &lines[1];
    assert_eq!(bar[0].text.chars().count(), 12);
    assert_eq!(bar[1].text.chars().count(), 88);
}
