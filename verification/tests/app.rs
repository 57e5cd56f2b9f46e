use otter::app::{
    cycle, cycle_numeric, probing_message, App, ConfigField, Effect, JobOutcome, JobRecord,
    JobState, NavigationButton, Screen, UiCommand,
};
use otter::domain::{
    AudioStreamInfo, Container, FrameRate, InputMedia, RateControlMode, VideoStreamInfo,
    AUDIO_BITRATE_PRESETS, VIDEO_BITRATE_PRESETS,
};
use otter::input::{KeyCode, KeyInput};
use otter::picker::{Navigation, Picker, PickerAction, PickerMode};
use otter::toolchain::Toolchain;
use otter::transcode::{ArtifactPaths, TranscodeError, WorkerEvent};

fn media() -> InputMedia {
    InputMedia {
        path: "clip.mp4".to_owned(),
        duration_micros: Some(10_000_000),
        video: VideoStreamInfo {
            codec: "h264".to_owned(),
            width: 1920,
            height: 1080,
            frame_rate: Some(FrameRate { numerator: 30, denominator: 1 }),
            bitrate_kbps: Some(8_000),
        },
        audio: Some(AudioStreamInfo {
            codec: "aac".to_owned(),
            channels: Some(2),
            sample_rate: Some(48_000),
        }),
        format_name: Some("mov,mp4".to_owned()),
        size_bytes: Some(10_000_000),
        bitrate_kbps: Some(8_192),
    }
}

fn key(code: KeyCode) -> KeyInput {
    KeyInput::plain(code)
}

fn record(input: &str, output: &str) -> JobRecord {
    JobRecord { input: input.to_owned(), output: output.to_owned(), outcome: JobOutcome::Pending }
}

fn strings(values: &[&str]) -> Vec<String> {
    values.iter().map(|value| value.to_string()).collect()
}

#[test]
fn cycles_custom_bitrate_to_nearest_preset() {
    assert_eq!(cycle_numeric(&VIDEO_BITRATE_PRESETS, 4_900, 1), 8_000);
    assert_eq!(cycle_numeric(&VIDEO_BITRATE_PRESETS, 4_900, -1), 2_500);
}

#[test]
fn wraps_enum_selection() {
    assert_eq!(cycle(&Container::ALL, Container::Mp4, -1), Container::WebM);
}

#[test]
fn cycling_wraps_forward_and_treats_unknown_values_as_the_first() {
    assert_eq!(cycle(&Container::ALL, Container::WebM, 1), Container::Mp4);
    assert_eq!(cycle(&Container::ALL, Container::Mov, 2), Container::WebM);
    assert_eq!(cycle(&[10u32, 20, 30], 99, 1), 20);
    // An exact preset is its own nearest value.
    assert_eq!(cycle_numeric(&AUDIO_BITRATE_PRESETS, 192, 1), 256);
    assert_eq!(cycle_numeric(&AUDIO_BITRATE_PRESETS, 64, -1), 320);
}

#[test]
fn probing_message_counts_the_files_left() {
    assert_eq!(probing_message(0), "Probing input media…");
    assert_eq!(probing_message(1), "Probing input media…");
    assert_eq!(probing_message(3), "Probing input media… 3 files left.");
}

#[test]
fn ignores_probe_results_for_a_previous_input() {
    let mut app = App::new(Toolchain::test_fixture());
    app.inputs = strings(&["current.mp4"]);
    app.receive_probe("previous.mp4".to_owned(), Err("stale error".to_owned()));

    assert!(app.probes.is_empty());
    assert!(matches!(app.job, JobState::Idle));
    assert_ne!(app.status_message.as_deref(), Some("stale error"));
}

#[test]
fn opening_the_input_picker_preserves_the_add_flag() {
    let mut app = App::new(Toolchain::test_fixture());

    app.open_inputs_picker(false, Some("/home/demo".to_owned()));
    assert!(!app.picker.as_ref().unwrap().append);
    assert_eq!(app.picker.as_ref().unwrap().mode, PickerMode::InputFiles);
    assert_eq!(app.picker.as_ref().unwrap().navigation, Some(Navigation::Reload));

    app.open_inputs_picker(true, Some("/home/demo".to_owned()));
    assert!(app.picker.as_ref().unwrap().append);
}

#[test]
fn input_picker_uses_first_input_parent_before_the_saved_folder() {
    let mut app = App::new(Toolchain::test_fixture());
    app.input_folder = Some("/saved".to_owned());
    app.inputs = strings(&["/first/clip.mov"]);
    app.open_inputs_picker(false, Some("/home/demo".to_owned()));

    let picker = app.picker.as_ref().expect("the picker should open");
    assert_eq!(picker.mode, PickerMode::InputFiles);
    assert_eq!(picker.dir, "/first");
}

#[test]
fn input_picker_replaces_or_appends_concrete_files() {
    let mut app = App::new(Toolchain::test_fixture());
    app.picker = Some(Picker::open(PickerMode::InputFiles, "/root".to_owned(), None, false));
    app.close_picker(PickerAction::Done(strings(&["/root/first.mov", "/root/second.mov"])));
    assert_eq!(app.inputs, strings(&["/root/first.mov", "/root/second.mov"]));

    app.picker = Some(Picker::open(PickerMode::InputFiles, "/root".to_owned(), None, true));
    app.close_picker(PickerAction::Done(strings(&["/root/third.mov", "/root/second.mov"])));
    assert_eq!(
        app.inputs,
        strings(&["/root/first.mov", "/root/second.mov", "/root/third.mov"])
    );
}

#[test]
fn output_target_follows_the_size_of_the_selection() {
    let mut app = App::new(Toolchain::test_fixture());
    app.select_inputs(strings(&["/media/clips/a.mov"]));
    assert_eq!(app.output_folder.as_deref(), Some("/media/clips"));

    app.add_inputs(strings(&["/media/clips/b.mov"]));
    assert_eq!(app.output_folder.as_deref(), Some("/media/clips"));
    assert_eq!(
        otter::app::output_path_for(&app.output_folder, "/media/clips/b.mov", app.draft.container)
            .as_deref(),
        Some("/media/clips/b-transcode.mp4")
    );

    // A folder the user chose survives further additions.
    app.select_output("/exports".to_owned());
    app.add_inputs(strings(&["/media/clips/c.mov"]));
    assert_eq!(app.output_folder.as_deref(), Some("/exports"));
    assert_eq!(app.inputs.len(), 3);
}

#[test]
fn selecting_the_same_file_twice_queues_it_once() {
    let mut app = App::new(Toolchain::test_fixture());
    app.select_inputs(strings(&["/media/a.mov", "/media/a.mov", "/media/b.mov"]));
    assert_eq!(app.inputs.len(), 2);

    app.add_inputs(strings(&["/media/b.mov"]));
    assert_eq!(app.inputs.len(), 2);
}

#[test]
fn a_new_selection_asks_for_every_unread_file() {
    let mut app = App::new(Toolchain::test_fixture());
    app.select_inputs(strings(&["/media/a.mov", "/media/b.mov"]));
    assert!(matches!(app.job, JobState::Probing));
    assert_eq!(app.status_message.as_deref(), Some("Probing input media… 2 files left."));
    let effects = app.take_effects();
    assert_eq!(effects.len(), 1);
    match &effects[0] {
        Effect::Probe(paths) => assert_eq!(paths, &strings(&["/media/a.mov", "/media/b.mov"])),
        other => panic!("unexpected effect {other:?}"),
    }
    assert!(app.effects.is_empty());
}

#[test]
fn probing_finishes_only_when_every_input_has_been_read() {
    let mut app = App::new(Toolchain::test_fixture());
    app.inputs = strings(&["a.mp4", "b.mp4"]);
    app.output_folder = Some("/exports".to_owned());
    app.job = JobState::Probing;

    app.receive_probe("a.mp4".to_owned(), Ok(media()));
    assert!(matches!(app.job, JobState::Probing));

    app.receive_probe("b.mp4".to_owned(), Err("unreadable".to_owned()));
    assert!(matches!(app.job, JobState::Ready));
    assert_eq!(app.probed_count(), 1);
    assert_eq!(app.failed_probe_count(), 1);
    // A file that could not be read blocks the queue instead of being dropped.
    assert_eq!(app.current_validation_error().as_deref(), Some("b.mp4: unreadable"));
}

#[test]
fn a_ready_queue_reports_its_size() {
    let mut app = App::new(Toolchain::test_fixture());
    app.inputs = strings(&["/media/a.mov", "/media/b.mov"]);
    app.output_folder = Some("/exports".to_owned());
    app.job = JobState::Probing;
    app.receive_probe("/media/a.mov".to_owned(), Ok(media()));
    app.receive_probe("/media/b.mov".to_owned(), Ok(media()));
    assert!(matches!(app.job, JobState::Ready));
    assert_eq!(app.status_message.as_deref(), Some("2 files queued. Press Enter to review."));
    assert_eq!(app.current_validation_error(), None);
}

#[test]
fn two_inputs_writing_the_same_output_block_the_queue() {
    let mut app = App::new(Toolchain::test_fixture());
    app.inputs = strings(&["/media/a.mov", "/other/a.mov"]);
    app.output_folder = Some("/exports".to_owned());
    app.receive_probe("/media/a.mov".to_owned(), Ok(media()));
    app.receive_probe("/other/a.mov".to_owned(), Ok(media()));
    assert_eq!(
        app.current_validation_error().as_deref(),
        Some("a.mov: Another selected file writes the same output.")
    );
}

#[test]
fn a_cancelled_queue_marks_the_files_it_never_reached() {
    let mut app = App::new(Toolchain::test_fixture());
    app.queue = vec![record("a.mov", "a.mp4"), record("b.mov", "b.mp4"), record("c.mov", "c.mp4")];
    app.screen = Screen::Running;

    app.handle_worker_event(WorkerEvent::Finished {
        index: 0,
        output: "a.mp4".to_owned(),
        elapsed_ms: 2_000,
    });
    app.handle_worker_event(WorkerEvent::Cancelled { index: 1 });
    app.handle_worker_event(WorkerEvent::QueueFinished {
        elapsed_ms: 3_000,
        cancelled: true,
        remaining: 1,
    });

    assert_eq!(app.succeeded_count(), 1);
    assert_eq!(app.queue[1].outcome, JobOutcome::Cancelled);
    assert_eq!(app.queue[2].outcome, JobOutcome::Skipped);
    // Work was completed, so a cancelled queue is a result, not an error.
    assert_eq!(app.screen, Screen::Result);
    assert_eq!(
        app.status_message.as_deref(),
        Some("Cancelled after converting 1 of 3. Temporary output removed.")
    );
}

#[test]
fn a_failed_file_leaves_the_queue_on_the_result_screen() {
    let mut app = App::new(Toolchain::test_fixture());
    app.queue = vec![record("a.mov", "a.mp4"), record("b.mov", "b.mp4")];
    app.screen = Screen::Running;

    app.handle_worker_event(WorkerEvent::Failed {
        index: 0,
        error: "FFmpeg failed with exit code 1.".to_owned(),
    });
    app.handle_worker_event(WorkerEvent::Finished {
        index: 1,
        output: "b.mp4".to_owned(),
        elapsed_ms: 1_000,
    });
    app.handle_worker_event(WorkerEvent::QueueFinished {
        elapsed_ms: 4_000,
        cancelled: false,
        remaining: 0,
    });

    assert_eq!(app.failed_count(), 1);
    assert_eq!(app.succeeded_count(), 1);
    assert_eq!(app.screen, Screen::Result);
    assert_eq!(app.status_message.as_deref(), Some("1 of 2 files converted."));
}

#[test]
fn a_single_failure_lands_on_the_error_screen() {
    let mut app = App::new(Toolchain::test_fixture());
    app.queue = vec![record("a.mov", "a.mp4")];
    app.screen = Screen::Running;

    app.handle_worker_event(WorkerEvent::Failed { index: 0, error: "Encoder failed.".to_owned() });
    app.handle_worker_event(WorkerEvent::QueueFinished {
        elapsed_ms: 1_000,
        cancelled: false,
        remaining: 0,
    });

    assert_eq!(app.screen, Screen::Error);
    assert!(matches!(app.job, JobState::Finished { elapsed_ms: 1_000, cancelled: false }));
}

#[test]
fn picker_results_flow_into_input_files() {
    let mut app = App::new(Toolchain::test_fixture());
    app.picker = Some(Picker::open(PickerMode::InputFiles, "/root".to_owned(), None, false));
    app.close_picker(PickerAction::Cancel);
    assert!(app.picker.is_none());
    app.picker = Some(Picker::open(PickerMode::InputFiles, "/root".to_owned(), None, false));
    app.close_picker(PickerAction::Done(strings(&["/root/a.mov", "/root/b.mov"])));
    assert_eq!(app.inputs, strings(&["/root/a.mov", "/root/b.mov"]));
}

#[test]
fn output_picker_info_matches_the_selection_shape() {
    let mut app = App::new(Toolchain::test_fixture());
    app.select_inputs(strings(&["/media/clips/a.mov"]));
    let (directory, file_name) = app.output_picker_info(None);
    assert_eq!(directory.as_deref(), Some("/media/clips"));
    assert!(file_name.is_none());

    app.add_inputs(strings(&["/media/clips/b.mov"]));
    let (directory, file_name) = app.output_picker_info(None);
    assert_eq!(directory.as_deref(), Some("/media/clips"));
    assert!(file_name.is_none());

    // The mode stays a folder even for one input.
    app.select_inputs(strings(&["/media/clips/a.mov"]));
    app.open_output_picker(None);
    assert_eq!(app.picker.as_ref().unwrap().mode, PickerMode::OutputFolder);
    assert_eq!(app.picker.as_ref().unwrap().dir, "/media/clips");
}

#[test]
fn a_saved_output_folder_lands_in_the_app() {
    let mut app = App::new(Toolchain::test_fixture());
    app.select_inputs(strings(&["/media/clips/a.mov"]));
    app.open_output_picker(None);
    app.close_picker(PickerAction::Done(strings(&["/media/clips/exports"])));
    assert_eq!(app.output_folder.as_deref(), Some("/media/clips/exports"));
    assert!(app.picker.is_none());
    assert_eq!(
        app.status_message.as_deref(),
        Some("Output folder selected. Press Tab to continue.")
    );
}

#[test]
fn folders_gate_settings_and_done_returns_to_folders() {
    let mut app = App::new(Toolchain::test_fixture());

    app.leave_folders();
    assert_eq!(app.screen, Screen::Folders);
    assert_eq!(app.status_message.as_deref(), Some("Select one or more video files first."));

    app.input_folder = Some("/media/clips".to_owned());
    app.inputs = strings(&["/media/clips/a.mov"]);
    app.leave_folders();
    assert_eq!(app.screen, Screen::Folders);
    assert_eq!(app.status_message.as_deref(), Some("Select an output folder first."));

    app.output_folder = Some("/exports".to_owned());
    app.leave_folders();
    assert_eq!(app.screen, Screen::Settings);
    assert_eq!(app.focus, ConfigField::Container);

    app.screen = Screen::Confirm;
    app.handle_key(key(KeyCode::Esc));
    assert_eq!(app.screen, Screen::Settings);

    app.screen = Screen::Result;
    app.handle_key(key(KeyCode::Enter));
    assert_eq!(app.screen, Screen::Folders);
    assert_eq!(app.focus, ConfigField::Input);
}

#[test]
fn stderr_keeps_every_line_for_the_current_file_and_clears_on_start() {
    let mut app = App::new(Toolchain::test_fixture());
    for index in 0..25 {
        app.handle_worker_event(WorkerEvent::StderrLine {
            index: 0,
            line: format!("message-{index}"),
        });
    }

    assert_eq!(app.stderr_tail.len(), 25);
    assert_eq!(app.stderr_tail.first().map(String::as_str), Some("message-0"));
    assert_eq!(app.stderr_tail.last().map(String::as_str), Some("message-24"));

    app.handle_worker_event(WorkerEvent::Started { index: 1, pid: 42 });
    assert!(app.stderr_tail.is_empty());
}

#[test]
fn started_files_are_named_in_the_status_line() {
    let mut app = App::new(Toolchain::test_fixture());
    app.queue = vec![record("/media/a.mov", "/out/a.mp4"), record("/media/b.mov", "/out/b.mp4")];
    app.handle_worker_event(WorkerEvent::Started { index: 1, pid: 7 });
    assert_eq!(app.status_message.as_deref(), Some("Converting 2 of 2: b.mov"));
    assert_eq!(app.queue[1].outcome, JobOutcome::Running);
    assert!(matches!(app.job, JobState::Running { index: 1, pid: 7, progress: None }));
}

#[test]
fn folder_keys_open_pickers_and_quit() {
    let mut app = App::new(Toolchain::test_fixture());
    assert_eq!(app.handle_key(key(KeyCode::Char('i'))), UiCommand::OpenInputs { add: false });
    assert_eq!(app.handle_key(key(KeyCode::Char('a'))), UiCommand::OpenInputs { add: true });
    assert_eq!(app.handle_key(key(KeyCode::Char('o'))), UiCommand::OpenOutput);
    assert_eq!(app.handle_key(KeyInput { code: KeyCode::Char('c'), ctrl: true }), UiCommand::Quit);
    app.handle_key(key(KeyCode::Tab));
    assert_eq!(app.focus, ConfigField::Output);
    app.handle_key(key(KeyCode::Tab));
    assert_eq!(app.button_focus, Some(NavigationButton::Advance));
    app.handle_key(key(KeyCode::Tab));
    assert_eq!(app.focus, ConfigField::Input);
    assert_eq!(app.button_focus, None);
    assert_eq!(app.handle_key(key(KeyCode::Char('q'))), UiCommand::Quit);
}

#[test]
fn settings_keys_adjust_the_focused_row() {
    let mut app = App::new(Toolchain::test_fixture());
    app.screen = Screen::Settings;
    app.focus = ConfigField::Container;
    app.handle_key(key(KeyCode::Right));
    assert_eq!(app.draft.container, Container::Mov);
    app.handle_key(key(KeyCode::Left));
    app.handle_key(key(KeyCode::Left));
    assert_eq!(app.draft.container, Container::WebM);
    // WebM cannot carry H.264 or AAC, so the codecs follow the container.
    assert_eq!(app.draft.video_codec, otter::domain::VideoCodec::Vp9);
    assert_eq!(app.draft.audio_codec, otter::domain::AudioCodec::Opus);

    app.focus = ConfigField::RateControl;
    app.handle_key(key(KeyCode::Right));
    assert_eq!(app.draft.rate_control_mode, RateControlMode::Bitrate);

    // Down from the last row reaches the buttons; audio bitrate is on while
    // nothing has been read.
    app.focus = ConfigField::AudioBitrate;
    app.handle_key(key(KeyCode::Down));
    assert_eq!(app.button_focus, Some(NavigationButton::Back));
    app.handle_key(key(KeyCode::Down));
    assert_eq!(app.button_focus, Some(NavigationButton::Advance));
    app.handle_key(key(KeyCode::Down));
    assert_eq!(app.button_focus, None);
    assert_eq!(app.focus, ConfigField::Container);
}

#[test]
fn the_bitrate_editor_takes_digits_and_checks_the_range() {
    let mut app = App::new(Toolchain::test_fixture());
    app.screen = Screen::Settings;
    app.draft.rate_control_mode = RateControlMode::Bitrate;
    app.focus = ConfigField::RateValue;
    app.handle_key(key(KeyCode::Enter));
    assert_eq!(app.numeric_edit.as_ref().map(|edit| edit.buffer.as_str()), Some("5000"));
    app.handle_key(key(KeyCode::Backspace));
    app.handle_key(key(KeyCode::Char('x')));
    app.handle_key(key(KeyCode::Char('0')));
    app.handle_key(key(KeyCode::Char('0')));
    app.handle_key(key(KeyCode::Char('0')));
    assert_eq!(app.numeric_edit.as_ref().map(|edit| edit.buffer.as_str()), Some("500000"));
    app.handle_key(key(KeyCode::Enter));
    assert!(app.numeric_edit.is_none());
    assert_eq!(app.status_message.as_deref(), Some("Video bitrate must be 100–200000 kbps."));
    assert_eq!(app.draft.video_bitrate_kbps, 5_000);

    app.handle_key(key(KeyCode::Enter));
    app.handle_key(key(KeyCode::Backspace));
    app.handle_key(key(KeyCode::Enter));
    assert_eq!(app.draft.video_bitrate_kbps, 500);
    assert_eq!(app.status_message.as_deref(), Some("Video bitrate set to 500 kbps."));
}

#[test]
fn review_start_and_cancel_follow_the_plan() {
    let mut app = App::new(Toolchain::test_fixture());
    app.select_inputs(strings(&["/media/a.mov"]));
    app.take_effects();
    app.receive_probe("/media/a.mov".to_owned(), Ok(media()));
    app.prepare_confirmation();
    let effects = app.take_effects();
    let configs = match effects.into_iter().next() {
        Some(Effect::Reserve(configs)) => configs,
        other => panic!("expected a reservation, got {other:?}"),
    };
    assert_eq!(configs.len(), 1);
    assert_eq!(configs[0].output, "/media/a-transcode.mp4");

    // A failed reservation stops the plan with the file's name.
    app.confirm_plan(configs.clone(), vec![Err(TranscodeError::OutputExists)]);
    assert_eq!(
        app.status_message.as_deref(),
        Some("a.mov: The output file already exists. Choose a new file name.")
    );
    assert_eq!(app.screen, Screen::Folders);

    app.confirm_plan(
        configs,
        vec![Ok(ArtifactPaths {
            temporary_path: "/media/.otter-1/output.mp4".to_owned(),
            final_path: "/media/a-transcode.mp4".to_owned(),
        })],
    );
    assert_eq!(app.screen, Screen::Confirm);
    assert_eq!(app.queue.len(), 1);
    assert!(app.command_preview.as_deref().unwrap().starts_with("/usr/local/bin/ffmpeg -hide_banner"));

    app.handle_key(key(KeyCode::Enter));
    assert_eq!(app.screen, Screen::Running);
    assert!(app.worker_running);
    assert!(app.prepared.is_none());
    assert_eq!(
        app.status_message.as_deref(),
        Some("Starting /media/a.mov → /media/a-transcode.mp4…")
    );
    let effects = app.take_effects();
    assert!(matches!(effects.as_slice(), [Effect::Start(jobs)] if jobs.len() == 1));

    app.handle_key(key(KeyCode::Char('x')));
    assert!(app.cancel_confirmation);
    app.handle_key(key(KeyCode::Char('y')));
    assert!(matches!(app.job, JobState::Cancelling));
    assert_eq!(app.status_message.as_deref(), Some("Cancelling FFmpeg…"));
    assert!(matches!(app.take_effects().as_slice(), [Effect::Cancel]));
}

#[test]
fn help_overlay_swallows_keys_until_closed() {
    let mut app = App::new(Toolchain::test_fixture());
    app.handle_key(key(KeyCode::Char('?')));
    assert!(app.help_visible);
    assert_eq!(app.handle_key(key(KeyCode::Char('i'))), UiCommand::Continue);
    assert!(app.help_visible);
    app.handle_key(key(KeyCode::Esc));
    assert!(!app.help_visible);
}

#[test]
fn progress_scrolling_leaves_and_rejoins_the_live_tail() {
    let mut app = App::new(Toolchain::test_fixture());
    app.scroll_progress_up(3);
    assert_eq!(app.progress_scroll, 3);
    assert!(!app.progress_follow);
    app.scroll_progress_down(1);
    assert_eq!(app.progress_scroll, 2);
    assert!(!app.progress_follow);
    app.scroll_progress_down(5);
    assert_eq!(app.progress_scroll, 0);
    assert!(app.progress_follow);
}

#[test]
fn quality_label_names_the_encoder_setting() {
    let app = App::new(Toolchain::test_fixture());
    assert_eq!(app.quality_label(), "Balanced (CRF 23)");
}

#[test]
fn codec_rows_only_offer_what_the_container_and_build_allow() {
    let mut app = App::new(Toolchain::test_fixture());
    app.screen = Screen::Settings;
    app.draft.container = Container::WebM;
    app.draft.video_codec = otter::domain::VideoCodec::Av1;
    app.draft.audio_codec = otter::domain::AudioCodec::Opus;
    app.focus = ConfigField::VideoCodec;
    app.handle_key(key(KeyCode::Right));
    assert_eq!(app.draft.video_codec, otter::domain::VideoCodec::Vp9);
    app.handle_key(key(KeyCode::Right));
    assert_eq!(app.draft.video_codec, otter::domain::VideoCodec::Av1);
    app.focus = ConfigField::AudioCodec;
    app.handle_key(key(KeyCode::Right));
    assert_eq!(app.draft.audio_codec, otter::domain::AudioCodec::Silent);
    app.handle_key(key(KeyCode::Right));
    assert_eq!(app.draft.audio_codec, otter::domain::AudioCodec::Opus);
}

#[test]
fn the_probed_media_follow_the_selection() {
    let mut app = App::new(Toolchain::test_fixture());
    app.inputs = strings(&["/media/a.mov", "/media/b.mov"]);
    app.receive_probe("/media/b.mov".to_owned(), Ok(media()));
    assert_eq!(app.probed_media().len(), 1);
    assert!(app.single_media().is_none());
    app.inputs = strings(&["/media/b.mov"]);
    assert!(app.single_media().is_some());
    assert!(app.numeric_edit_value().is_none());
    app.screen = Screen::Settings;
    app.draft.rate_control_mode = RateControlMode::Bitrate;
    app.focus = ConfigField::RateValue;
    app.handle_key(key(KeyCode::Enter));
    assert_eq!(app.numeric_edit_value(), Some(("5000", ConfigField::RateValue)));
}

#[test]
fn cycling_back_returns_to_the_start() {
    for start in Container::ALL {
        for direction in [-3, -1, 1, 2, 5] {
            let there = cycle(&Container::ALL, start, direction);
            assert_eq!(cycle(&Container::ALL, there, -direction), start);
        }
    }
}
