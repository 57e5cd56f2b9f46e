use otter::input::{KeyCode, KeyInput, MouseInput, MouseKind, Rect};
use otter::picker::{list_window, Navigation, Picker, PickerAction, PickerMode, RawEntry, Row};

const ROOT: &str = "/srv/media";

fn file(dir: &str, name: &str) -> RawEntry {
    RawEntry { name: name.to_owned(), path: format!("{dir}/{name}"), is_dir: false, size: 0 }
}

fn folder(dir: &str, name: &str) -> RawEntry {
    RawEntry { name: name.to_owned(), path: format!("{dir}/{name}"), is_dir: true, size: 0 }
}

/// A picker on `dir` that has been shown the listing `entries`.
fn opened(mode: PickerMode, dir: &str, name: Option<&str>, entries: Vec<RawEntry>) -> Picker {
    let mut picker = Picker::open(mode, dir.to_owned(), name.map(str::to_owned), false);
    assert_eq!(picker.take_navigation(), Some(Navigation::Reload));
    picker.reload(Ok(entries));
    picker
}

fn picker(entries: Vec<RawEntry>) -> Picker {
    opened(PickerMode::InputFiles, ROOT, None, entries)
}

fn key(code: KeyCode) -> KeyInput {
    KeyInput::plain(code)
}

fn entry_names(picker: &Picker) -> Vec<String> {
    picker
        .rows
        .iter()
        .map(|row| match row {
            Row::Parent => "<..>".to_owned(),
            Row::Entry(entry) => entry.name.clone(),
        })
        .collect()
}

fn click(picker: &mut Picker, list: Rect, index: u16, now_ms: u64) -> PickerAction {
    picker.handle_mouse(
        MouseInput { kind: MouseKind::LeftDown, column: 2, row: list.y + index },
        list,
        now_ms,
    )
}

#[test]
fn lists_folders_first_in_case_insensitive_order() {
    let picker = picker(vec![
        file(ROOT, "z.mp4"),
        file(ROOT, "A.mp4"),
        file(ROOT, "notes.txt"),
        folder(ROOT, "movies"),
        folder(ROOT, "archive"),
    ]);
    assert_eq!(entry_names(&picker), vec!["<..>", "archive", "movies", "A.mp4", "notes.txt", "z.mp4"]);
}

#[test]
fn hidden_files_are_skipped_until_toggled() {
    let listing = || vec![file(ROOT, "clip.mkv"), file(ROOT, ".system")];
    let mut picker = picker(listing());
    assert!(!entry_names(&picker).iter().any(|name| name == ".system"));

    assert_eq!(picker.handle_key(key(KeyCode::Char('.'))), PickerAction::Continue);
    assert!(picker.show_hidden);
    assert_eq!(picker.take_navigation(), Some(Navigation::Reload));
    picker.reload(Ok(listing()));
    assert!(entry_names(&picker).iter().any(|name| name == ".system"));
}

#[test]
fn enter_navigates_into_directories_and_back_out() {
    let nested = format!("{ROOT}/nested");
    let mut picker = picker(vec![folder(ROOT, "nested")]);
    picker.cursor = 1; // nested, right after the parent row
    assert_eq!(picker.handle_key(key(KeyCode::Enter)), PickerAction::Continue);
    assert_eq!(picker.take_navigation(), Some(Navigation::Open(nested.clone())));
    picker.enter(nested.clone(), Ok(vec![file(&nested, "b.mp4")]));
    assert_eq!(picker.dir, nested);

    picker.handle_key(key(KeyCode::Down));
    picker.handle_key(key(KeyCode::Backspace));
    assert_eq!(picker.take_navigation(), Some(Navigation::Open(ROOT.to_owned())));
}

#[test]
fn space_toggles_the_multi_selection() {
    let mut picker = picker(vec![file(ROOT, "a.mp4"), file(ROOT, "b.mp4"), folder(ROOT, "folder")]);
    picker.cursor = 2; // a.mp4
    picker.handle_key(key(KeyCode::Char(' ')));
    assert_eq!(picker.selected, vec![format!("{ROOT}/a.mp4")]);

    // A directory cannot be added, and Space on it does nothing.
    picker.cursor = 1;
    picker.handle_key(key(KeyCode::Char(' ')));
    assert_eq!(picker.selected, vec![format!("{ROOT}/a.mp4")]);

    // Space again un-picks the file.
    picker.cursor = 2;
    picker.handle_key(key(KeyCode::Char(' ')));
    assert!(picker.selected.is_empty());
}

#[test]
fn an_empty_selection_reports_instead_of_closing() {
    let mut picker = picker(Vec::new());
    assert_eq!(picker.handle_key(key(KeyCode::Char('s'))), PickerAction::Continue);
    assert!(picker.error.is_some());
    assert!(picker.selected.is_empty());
}

#[test]
fn save_mode_edits_a_name_and_confirms() {
    let mut picker = opened(PickerMode::OutputFile, ROOT, Some("clip"), Vec::new());
    assert_eq!(picker.handle_key(key(KeyCode::Tab)), PickerAction::Continue);
    assert!(picker.editing_name);

    picker.handle_key(key(KeyCode::Char('z')));
    assert_eq!(picker.filename, "clipz");
    assert_eq!(
        picker.handle_key(key(KeyCode::Enter)),
        PickerAction::Done(vec![format!("{ROOT}/clipz")])
    );
}

#[test]
fn save_mode_joins_name_with_the_current_directory() {
    let mut picker = opened(PickerMode::OutputFile, ROOT, Some("clip.mkv"), Vec::new());
    assert_eq!(
        picker.handle_key(key(KeyCode::Char('s'))),
        PickerAction::Done(vec![format!("{ROOT}/clip.mkv")])
    );
}

#[test]
fn the_save_key_does_not_fire_with_a_blank_name() {
    let mut picker = opened(PickerMode::OutputFile, ROOT, Some("   "), Vec::new());
    assert!(!picker.primary_ready());
    assert_eq!(picker.handle_key(key(KeyCode::Char('s'))), PickerAction::Continue);
    assert_eq!(picker.error.as_deref(), Some("Enter a file name first."));
    assert!(picker.editing_name);
}

#[test]
fn folder_mode_selects_the_current_directory() {
    let mut picker = opened(PickerMode::OutputFolder, ROOT, None, Vec::new());
    assert_eq!(picker.handle_key(key(KeyCode::Char('s'))), PickerAction::Done(vec![ROOT.to_owned()]));
}

#[test]
fn input_folder_mode_lists_directories_and_selects_current_directory() {
    let nested = format!("{ROOT}/nested");
    let mut picker = opened(
        PickerMode::InputFolder,
        ROOT,
        None,
        vec![file(ROOT, "clip.mp4"), folder(ROOT, "nested")],
    );
    assert_eq!(
        entry_names(&picker),
        vec!["<..>", "nested"],
        "input-folder mode should hide files and show directories"
    );
    assert_eq!(picker.handle_key(key(KeyCode::Char('s'))), PickerAction::Done(vec![ROOT.to_owned()]));

    picker.cursor = 1;
    assert_eq!(picker.handle_key(key(KeyCode::Enter)), PickerAction::Continue);
    assert_eq!(picker.take_navigation(), Some(Navigation::Open(nested.clone())));
    picker.enter(nested.clone(), Ok(Vec::new()));
    assert_eq!(picker.dir, nested);
    assert_eq!(picker.handle_key(key(KeyCode::Char('s'))), PickerAction::Done(vec![nested]));
}

#[test]
fn enter_on_a_file_selects_just_that_file() {
    let mut picker = picker(vec![file(ROOT, "a.mp4")]);
    picker.cursor = 1; // a.mp4
    assert_eq!(
        picker.handle_key(key(KeyCode::Enter)),
        PickerAction::Done(vec![format!("{ROOT}/a.mp4")])
    );
}

#[test]
fn mouse_click_regression_selects_files_without_toggling_on_double_click() {
    let file_path = format!("{ROOT}/a.mp4");
    let mut picker = picker(vec![folder(ROOT, "folder"), file(ROOT, "a.mp4")]);
    let list = Rect { x: 0, y: 4, width: 60, height: 20 };
    let folder_index = 1;
    let file_index = 2;

    assert_eq!(click(&mut picker, list, 0, 1_000), PickerAction::Continue);
    assert!(picker.selected.is_empty(), "Parent is not a file selection");
    assert_eq!(click(&mut picker, list, folder_index, 2_000), PickerAction::Continue);
    assert!(picker.selected.is_empty(), "directories are not file selections");

    assert_eq!(click(&mut picker, list, file_index, 3_000), PickerAction::Continue);
    assert_eq!(picker.selected, vec![file_path.clone()]);
    assert_eq!(click(&mut picker, list, file_index, 3_100), PickerAction::Done(vec![file_path.clone()]));
    assert_eq!(picker.selected, vec![file_path]);
}

#[test]
fn escaping_always_cancels() {
    let mut picker = picker(Vec::new());
    assert_eq!(picker.handle_key(key(KeyCode::Esc)), PickerAction::Cancel);
}

#[test]
fn window_keeps_the_cursor_visible() {
    assert_eq!(list_window(0, 0, 10, 5), 0);
    assert_eq!(list_window(0, 4, 10, 5), 0);
    // Moving past the bottom pushes the window exactly one row.
    assert_eq!(list_window(0, 5, 10, 5), 1);
    assert_eq!(list_window(4, 9, 10, 5), 5);
    // The scroll offset is honoured only while the cursor stays in view.
    assert_eq!(list_window(2, 7, 10, 5), 3);
    // Moving above the window pulls it straight back up.
    assert_eq!(list_window(3, 1, 10, 5), 1);
}

#[test]
fn click_highlights_the_row_and_double_click_activates() {
    let mut picker = picker(vec![file(ROOT, "a.mp4")]);
    let list = Rect { x: 0, y: 4, width: 60, height: 20 };
    assert_eq!(click(&mut picker, list, 1, 10_000), PickerAction::Continue);
    assert_eq!(picker.cursor, 1);
    assert_eq!(click(&mut picker, list, 1, 10_200), PickerAction::Done(vec![format!("{ROOT}/a.mp4")]));
}

#[test]
fn slow_clicks_are_two_single_clicks() {
    let mut picker = picker(vec![file(ROOT, "a.mp4")]);
    let list = Rect { x: 0, y: 4, width: 60, height: 20 };
    assert_eq!(click(&mut picker, list, 1, 10_000), PickerAction::Continue);
    assert_eq!(click(&mut picker, list, 1, 10_400), PickerAction::Continue);
    // The second click toggled the file off again.
    assert!(picker.selected.is_empty());
}

#[test]
fn wheel_changes_the_offset_but_not_the_cursor() {
    let mut picker = picker(Vec::new());
    let scroll = picker.scroll;
    let cursor = picker.cursor;
    picker.handle_mouse(
        MouseInput { kind: MouseKind::ScrollDown, column: 0, row: 0 },
        Rect { x: 0, y: 0, width: 60, height: 20 },
        0,
    );
    assert_eq!(picker.scroll, scroll + 3);
    assert_eq!(picker.cursor, cursor);
}

#[test]
fn arrows_wrap_around_the_listing() {
    let mut picker = picker(vec![file(ROOT, "a.mp4"), file(ROOT, "b.mp4")]);
    picker.handle_key(key(KeyCode::Up));
    assert_eq!(picker.cursor, 2);
    picker.handle_key(key(KeyCode::Down));
    assert_eq!(picker.cursor, 0);
    picker.handle_key(key(KeyCode::PageDown));
    assert_eq!(picker.cursor, 1);
}

#[test]
fn an_unreadable_directory_keeps_only_the_parent_row() {
    let mut picker = Picker::open(PickerMode::InputFiles, ROOT.to_owned(), None, false);
    picker.cursor = 1;
    picker.reload(Err("permission denied".to_owned()));
    assert_eq!(entry_names(&picker), vec!["<..>"]);
    assert_eq!(picker.cursor, 0);
    assert_eq!(picker.scroll, 0);
    assert_eq!(picker.error.as_deref(), Some("Cannot read this directory: permission denied"));
}

#[test]
fn labels_and_help_follow_the_mode() {
    let mut picker = picker(vec![file(ROOT, "a.mp4")]);
    assert_eq!(picker.primary_label(), "Done (0)");
    assert!(!picker.primary_ready());
    picker.cursor = 1;
    picker.handle_key(key(KeyCode::Char(' ')));
    assert_eq!(picker.primary_label(), "Done (1)");
    assert!(picker.primary_ready());
    assert!(picker.footer_help().contains("space select"));

    let save = opened(PickerMode::OutputFile, ROOT, Some("clip"), Vec::new());
    assert_eq!(save.primary_label(), "Save here");
    let folder = opened(PickerMode::OutputFolder, ROOT, None, Vec::new());
    assert_eq!(folder.primary_label(), "Use this folder");
}
