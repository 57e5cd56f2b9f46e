use otter::display::{capped, fixed_width, format_duration, human_size, trimmed_path};
use otter::input::{bordered_inner, contains, Rect};

#[test]
fn fixed_width_measures_terminal_cells() {
    assert_eq!(fixed_width("clip.mov", 12), "clip.mov    ");
    assert_eq!(fixed_width("a-very-long-name.mov", 12), "a-very-long…");
    // Each of these characters takes two cells, so the trim stops at five of
    // them plus the ellipsis, then pads the cell that is left over.
    assert_eq!(fixed_width("影片影片影片影片.mov", 12), "影片影片影… ");
    assert_eq!(fixed_width("影片.mov", 12), "影片.mov    ");
}

#[test]
fn formats_short_and_long_durations() {
    assert_eq!(format_duration(65), "01:05");
    assert_eq!(format_duration(3_665), "01:01:05");
}

#[test]
fn durations_of_many_hours_keep_every_digit() {
    assert_eq!(format_duration(0), "00:00");
    assert_eq!(format_duration(360_000), "100:00:00");
}

#[test]
fn capped_labels_end_with_an_ellipsis() {
    assert_eq!(capped("short", 10), "short");
    assert_eq!(capped("a-long-label", 6), "a-lon…");
    assert_eq!(capped("影片影片", 5), "影片…");
    assert_eq!(capped("abc", 0), "…");
}

#[test]
fn paths_are_trimmed_from_the_left() {
    assert_eq!(trimmed_path("/a/b", 10), "/a/b");
    assert_eq!(trimmed_path("/Users/demo/movies/holiday", 12), "…es/holiday");
}

#[test]
fn sizes_use_binary_units() {
    assert_eq!(human_size(512), "512 B");
    assert_eq!(human_size(1_536), "1.5 KB");
    assert_eq!(human_size(125_829_120), "120 MB");
    assert_eq!(human_size(1_099_511_627_776), "1.0 TB");
    assert_eq!(human_size(1_088), "1.1 KB");
    // Exactly half a tenth rounds to the even digit.
    assert_eq!(human_size(1_280), "1.2 KB");
}

#[test]
fn rectangles_contain_their_cells_only() {
    let area = Rect { x: 2, y: 3, width: 4, height: 2 };
    assert!(contains(area, 2, 3));
    assert!(contains(area, 5, 4));
    assert!(!contains(area, 6, 4));
    assert!(!contains(area, 1, 3));
    let inner = bordered_inner(area);
    assert_eq!(inner, Rect { x: 3, y: 4, width: 2, height: 0 });
}
