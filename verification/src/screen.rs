//! What the screens show and where their controls sit, as plain values: the
//! step a card belongs to, the hints on the status bar, the card and button
//! rectangles, and which label a click landed on.
use vstd::prelude::*;
use crate::app::{App, NavigationButton, Screen, UiCommand};
use crate::display::{cells, cells_sum, char_width, fit_count, fitting_prefix, str_columns, str_width};
use crate::input::{KeyCode, KeyInput, Rect};
use crate::paths::{parent, std_path_parent};
use crate::picker::{Picker, PickerMode};
use crate::text::{chars_of, push_str};

verus! {

/// The step a screen sits in: a number for the card and a dot for the stepper.
pub open spec fn step_of(screen: Screen) -> nat {
    match screen {
        Screen::Folders => 0,
        Screen::Settings => 1,
        Screen::Confirm => 2,
        Screen::Running => 3,
        _ => 4,
    }
}

pub fn screen_step(screen: Screen) -> (r: usize)
    ensures
        r == step_of(screen),
{
    match screen {
        Screen::Folders => 0,
        Screen::Settings => 1,
        Screen::Confirm => 2,
        Screen::Running => 3,
        Screen::Result | Screen::Error => 4,
    }
}

/// The colour role of the status line.
#[derive(Debug, Clone, Copy, PartialEq, Eq, Structural)]
pub enum Tone {
    Warning,
    Error,
    Success,
    Muted,
}

/// A validation problem outweighs status copy: the bar says what blocks a run
/// rather than what is false while it does.
pub fn status_tone(screen: Screen, has_preflight_error: bool) -> (r: Tone)
    ensures
        r == (if has_preflight_error {
            Tone::Warning
        } else {
            match screen {
                Screen::Error => Tone::Error,
                Screen::Result => Tone::Success,
                _ => Tone::Muted,
            }
        }),
{
    if has_preflight_error {
        return Tone::Warning;
    }
    match screen {
        Screen::Error => Tone::Error,
        Screen::Result => Tone::Success,
        _ => Tone::Muted,
    }
}

/// Validation owns the status bar only before a run starts: once FFmpeg has
/// begun, the output it creates must not read as a new conflict.
pub fn preflight_error(app: &App) -> (r: Option<String>)
    ensures
        crate::app::opt_text(r) == (if app.screen == Screen::Folders || app.screen == Screen::Settings
            || app.screen == Screen::Confirm {
            if app.inputs@.len() == 0 || !app.all_probed_spec() {
                None
            } else {
                app.validation_text()
            }
        } else {
            None
        }),
{
    if app.screen == Screen::Folders || app.screen == Screen::Settings || app.screen
        == Screen::Confirm {
        app.current_validation_error()
    } else {
        None
    }
}

/// The keys the status bar names on the right of each screen.
pub open spec fn hint_keys(screen: Screen, button: Option<NavigationButton>) -> Seq<(char, Seq<char>)> {
    match screen {
        Screen::Folders => if button == Some(NavigationButton::Advance) {
            seq![('i', "input"@), ('o', "output"@), ('↵', "next"@)]
        } else {
            seq![('i', "input"@), ('o', "output"@)]
        },
        Screen::Settings => match button {
            Some(NavigationButton::Advance) => seq![('↵', "review"@), ('←', "back"@)],
            Some(NavigationButton::Back) => seq![('←', "back"@)],
            None => seq![('r', "reprobe"@)],
        },
        Screen::Confirm => seq![('↵', "start"@), ('←', "back"@)],
        Screen::Running => seq![('x', "cancel"@)],
        _ => seq![('↵', "folders"@), ('?', "help"@), ('q', "quit"@)],
    }
}

pub open spec fn chips_view(chips: Seq<(char, &'static str)>) -> Seq<(char, Seq<char>)> {
    chips.map_values(|c: (char, &'static str)| (c.0, c.1@))
}

pub fn hints(screen: Screen, button: Option<NavigationButton>) -> (r: Vec<(char, &'static str)>)
    ensures
        chips_view(r@) == hint_keys(screen, button),
{
    let mut r: Vec<(char, &'static str)> = Vec::new();
    match screen {
        Screen::Folders => {
            r.push(('i', "input"));
            r.push(('o', "output"));
            if button == Some(NavigationButton::Advance) {
                r.push(('↵', "next"));
            }
        },
        Screen::Settings => match button {
            Some(NavigationButton::Advance) => {
                r.push(('↵', "review"));
                r.push(('←', "back"));
            },
            Some(NavigationButton::Back) => {
                r.push(('←', "back"));
            },
            None => {
                r.push(('r', "reprobe"));
            },
        },
        Screen::Confirm => {
            r.push(('↵', "start"));
            r.push(('←', "back"));
        },
        Screen::Running => {
            r.push(('x', "cancel"));
        },
        _ => {
            r.push(('↵', "folders"));
            r.push(('?', "help"));
            r.push(('q', "quit"));
        },
    }
    assert(chips_view(r@) =~= hint_keys(screen, button));
    r
}

/// The key a chip stands for: `↵` is Enter, `←` is Esc, anything else itself.
pub open spec fn chip_key_of(key: char) -> KeyInput {
    KeyInput {
        code: if key == '↵' {
            KeyCode::Enter
        } else if key == '←' {
            KeyCode::Esc
        } else {
            KeyCode::Char(key)
        },
        ctrl: false,
    }
}

pub fn chip_key(key: char) -> (r: KeyInput)
    ensures
        r == chip_key_of(key),
{
    if key == '↵' {
        KeyInput::plain(KeyCode::Enter)
    } else if key == '←' {
        KeyInput::plain(KeyCode::Esc)
    } else {
        KeyInput::plain(KeyCode::Char(key))
    }
}

/// A click on a chip answers exactly the key it stands for.
pub fn chip_action(app: &mut App, key: char) -> (r: UiCommand)
    ensures
        old(app).key_step(*final(app), chip_key_of(key), r),
{
    app.handle_key(chip_key(key))
}

/// The key a card button shows in its brackets.
pub open spec fn button_key_of(code: KeyCode) -> Option<char> {
    match code {
        KeyCode::Enter => Some('↵'),
        KeyCode::Esc => Some('←'),
        KeyCode::Char(c) => if c == 'x' {
            Some('x')
        } else {
            None
        },
        _ => None,
    }
}

pub fn button_key(code: KeyCode) -> (r: Option<char>)
    ensures
        r == button_key_of(code),
{
    match code {
        KeyCode::Enter => Some('↵'),
        KeyCode::Esc => Some('←'),
        KeyCode::Char(c) => {
            if c == 'x' {
                Some('x')
            } else {
                None
            }
        },
        _ => None,
    }
}

/// A rectangle whose right and bottom edges are on the screen.
pub open spec fn rect_ok(r: Rect) -> bool {
    r.x + r.width <= u16::MAX && r.y + r.height <= u16::MAX
}

pub open spec fn min16(a: u16, b: u16) -> u16 {
    if a < b {
        a
    } else {
        b
    }
}

/// `n` as a cell count, capped at the largest coordinate.
pub open spec fn sat16(n: int) -> u16 {
    if n > u16::MAX {
        u16::MAX
    } else if n < 0 {
        0
    } else {
        n as u16
    }
}

pub open spec fn wide_screen(screen: Screen) -> bool {
    screen == Screen::Confirm || screen == Screen::Running || screen == Screen::Result || screen
        == Screen::Error
}

/// The card of a screen, centred in `area`: the setup cards at a fixed width
/// and height, the review and progress cards wider and as tall as there is room.
pub open spec fn card_of(area: Rect, screen: Screen) -> Rect {
    let width = min16(if wide_screen(screen) { 100 } else { 62 }, area.width);
    let wanted = if wide_screen(screen) {
        area.height
    } else if screen == Screen::Folders {
        10
    } else {
        13
    };
    let height = min16(wanted, area.height);
    Rect {
        x: (area.x + (area.width - width) / 2) as u16,
        y: (area.y + (area.height - height) / 2) as u16,
        width,
        height,
    }
}

pub fn card_rect(area: Rect, screen: Screen) -> (r: Rect)
    requires
        rect_ok(area),
    ensures
        r == card_of(area, screen),
        rect_ok(r),
{
    let wide = screen == Screen::Confirm || screen == Screen::Running || screen == Screen::Result
        || screen == Screen::Error;
    let full: u16 = if wide { 100 } else { 62 };
    let width = if full < area.width { full } else { area.width };
    let wanted_height = if wide {
        area.height
    } else if screen == Screen::Folders {
        10
    } else {
        13
    };
    let height = if wanted_height < area.height { wanted_height } else { area.height };
    Rect {
        x: area.x + (area.width - width) / 2,
        y: area.y + (area.height - height) / 2,
        width,
        height,
    }
}

/// A chip is its key, a space, its label and four cells of padding.
pub open spec fn chip_width(key: char, label: Seq<char>) -> u16 {
    sat16(cells(key) + 1 + str_columns(label) + 4)
}

/// The cells of the first `n` chips with one cell between neighbours.
pub open spec fn chips_span(chips: Seq<(char, Seq<char>)>, n: nat) -> nat
    decreases n,
{
    if n == 0 {
        0
    } else if n == 1 {
        chip_width(chips[0].0, chips[0].1) as nat
    } else {
        (chips_span(chips, (n - 1) as nat) + 1 + chip_width(chips[n - 1].0, chips[n - 1].1)) as nat
    }
}

/// Where chip `i` starts when the chips end at the right edge of `area`.
pub open spec fn chip_left(area: Rect, chips: Seq<(char, Seq<char>)>, i: nat) -> int {
    area.x + area.width - chips_span(chips, chips.len()) + (if i == 0 {
        0
    } else {
        chips_span(chips, i) + 1
    })
}

/// Quiet chips on the right of a bar, or none when they do not fit.
pub open spec fn chips_fit(area: Rect, chips: Seq<(char, Seq<char>)>) -> bool {
    chips_span(chips, chips.len()) < area.width
}

proof fn lemma_chips_span_grows(chips: Seq<(char, Seq<char>)>, i: nat, j: nat)
    requires
        i <= j <= chips.len(),
    ensures
        chips_span(chips, i) <= chips_span(chips, j),
        i < j ==> chips_span(chips, i) + (if i == 0 { 0int } else { 1int }) + chip_width(
            chips[i as int].0,
            chips[i as int].1,
        ) <= chips_span(chips, j),
    decreases j - i,
{
    if i < j {
        lemma_chips_span_grows(chips, i, (j - 1) as nat);
        if i + 1 < j {
            lemma_chips_span_grows(chips, i + 1, (j - 1) as nat);
        }
    }
}

/// The chips' rectangles, right-aligned in `area`, each with its key.
pub open spec fn chip_rects_of(area: Rect, chips: Seq<(char, Seq<char>)>) -> Seq<(Rect, char)> {
    if chips_fit(area, chips) {
        Seq::new(
            chips.len(),
            |i: int|
                (
                    Rect {
                        x: chip_left(area, chips, i as nat) as u16,
                        y: area.y,
                        width: chip_width(chips[i].0, chips[i].1),
                        height: 1,
                    },
                    chips[i].0,
                ),
        )
    } else {
        Seq::empty()
    }
}

/// The rectangles of chips laid out from the right edge of `area`, each with
/// the key it answers; none when they do not fit.
pub fn chip_rects(area: Rect, chips: &Vec<(char, &'static str)>) -> (r: Vec<(Rect, char)>)
    requires
        rect_ok(area),
    ensures
        r@ == chip_rects_of(area, chips_view(chips@)),
        !chips_fit(area, chips_view(chips@)) ==> r@.len() == 0,
        chips_fit(area, chips_view(chips@)) ==> {
            &&& r@.len() == chips@.len()
            &&& forall|i: int|
                0 <= i < r@.len() ==> (#[trigger] r@[i]).1 == chips@[i].0 && r@[i].0 == (Rect {
                    x: chip_left(area, chips_view(chips@), i as nat) as u16,
                    y: area.y,
                    width: chip_width(chips@[i].0, chips@[i].1@),
                    height: 1,
                })
        },
{
    let ghost view = chips_view(chips@);
    let mut widths: Vec<u16> = Vec::new();
    let mut total: u16 = 0;
    let mut i: usize = 0;
    while i < chips.len()
        invariant
            i <= chips@.len(),
            view == chips_view(chips@),
            widths@.len() == i,
            forall|k: int| 0 <= k < i ==> #[trigger] widths@[k] == chip_width(view[k].0, view[k].1),
            total == sat16(chips_span(view, i as nat) as int),
        decreases chips.len() - i,
    {
        let (key, label) = chips[i];
        let key_cells: usize = match char_width(key) {
            Some(w) => w,
            None => 0,
        };
        let label_cells = str_width(label);
        let width: u16 = if label_cells > 65_535 {
            u16::MAX
        } else {
            let sum = key_cells + 1 + label_cells + 4;
            if sum > 65_535 { u16::MAX } else { sum as u16 }
        };
        assert(width == chip_width(view[i as int].0, view[i as int].1));
        let gap: u16 = if i == 0 { 0 } else { 1 };
        total = total.saturating_add(gap).saturating_add(width);
        widths.push(width);
        i = i + 1;
    }
    let mut rects: Vec<(Rect, char)> = Vec::new();
    if total >= area.width {
        assert(rects@ =~= chip_rects_of(area, view));
        return rects;
    }
    proof {
        assert(chips_span(view, chips@.len()) < area.width);
    }
    let mut x: u16 = area.x + area.width - total;
    let mut i: usize = 0;
    while i < chips.len()
        invariant
            i <= chips@.len(),
            view == chips_view(chips@),
            widths@.len() == chips@.len(),
            forall|k: int| 0 <= k < chips@.len() ==> #[trigger] widths@[k] == chip_width(view[k].0, view[k].1),
            chips_span(view, chips@.len() as nat) < area.width,
            rect_ok(area),
            i < chips@.len() ==> x == chip_left(area, view, i as nat),
            rects@.len() == i,
            forall|k: int|
                0 <= k < i ==> (#[trigger] rects@[k]).1 == chips@[k].0 && rects@[k].0 == (Rect {
                    x: chip_left(area, view, k as nat) as u16,
                    y: area.y,
                    width: chip_width(chips@[k].0, chips@[k].1@),
                    height: 1,
                }),
        decreases chips.len() - i,
    {
        proof {
            lemma_chips_span_grows(view, i as nat, chips@.len() as nat);
        }
        let width = widths[i];
        rects.push((Rect { x, y: area.y, width, height: 1 }, chips[i].0));
        proof {
            if i + 1 < chips@.len() {
                lemma_chips_span_grows(view, (i + 1) as nat, chips@.len() as nat);
            }
        }
        x = x.saturating_add(width).saturating_add(1);
        i = i + 1;
    }
    assert(rects@ =~= chip_rects_of(area, view));
    rects
}

/// The controls of a card's bottom row.
#[derive(Debug, Clone, Copy, PartialEq, Eq, Structural)]
pub struct CardButton {
    pub area: Rect,
    pub code: KeyCode,
}

pub open spec fn button_width(label: Seq<char>) -> u16 {
    sat16(str_columns(label) + 7)
}

/// The label and key of the button that moves a screen forward.
pub open spec fn forward_button(screen: Screen) -> (Seq<char>, KeyCode) {
    match screen {
        Screen::Folders => ("Next →"@, KeyCode::Enter),
        Screen::Settings => ("Review →"@, KeyCode::Enter),
        Screen::Confirm => ("Start →"@, KeyCode::Enter),
        Screen::Running => ("x Cancel"@, KeyCode::Char('x')),
        _ => ("Done"@, KeyCode::Enter),
    }
}

/// The bottom row of a card: the way back on the left for the settings and the
/// review, the way forward on the right, each cut to the screen as
/// `Rect::new` cuts it.
pub open spec fn card_buttons_of(area: Rect, screen: Screen) -> Seq<CardButton> {
    let card = card_of(area, screen);
    let row = sat16(card.y + card.height - 2);
    let forward = forward_button(screen);
    let width = button_width(forward.0);
    let back = if screen == Screen::Settings || screen == Screen::Confirm {
        seq![
            CardButton {
                area: crate::pointer::fit_rect(
                    Rect { x: sat16(card.x + 2), y: row, width: button_width("← Back"@), height: 1 },
                ),
                code: KeyCode::Esc,
            },
        ]
    } else {
        Seq::empty()
    };
    back.push(
        CardButton {
            area: crate::pointer::fit_rect(
                Rect { x: sat16(card.x + card.width - (width + 2)), y: row, width, height: 1 },
            ),
            code: forward.1,
        },
    )
}

fn label_width(label: &str) -> (r: u16)
    ensures
        r == button_width(label@),
{
    let cells = str_width(label);
    if cells > 65_528 {
        u16::MAX
    } else {
        (cells + 7) as u16
    }
}

pub fn card_buttons(area: Rect, screen: Screen) -> (r: Vec<CardButton>)
    requires
        rect_ok(area),
    ensures
        r@ == card_buttons_of(area, screen),
{
    let card = card_rect(area, screen);
    let row = (card.y + card.height).saturating_sub(2);
    let mut buttons: Vec<CardButton> = Vec::new();
    if screen == Screen::Settings || screen == Screen::Confirm {
        buttons.push(
            CardButton {
                area: crate::pointer::fit(
                    Rect { x: card.x.saturating_add(2), y: row, width: label_width("← Back"), height: 1 },
                ),
                code: KeyCode::Esc,
            },
        );
    }
    let (label, code) = match screen {
        Screen::Folders => ("Next →", KeyCode::Enter),
        Screen::Settings => ("Review →", KeyCode::Enter),
        Screen::Confirm => ("Start →", KeyCode::Enter),
        Screen::Running => ("x Cancel", KeyCode::Char('x')),
        Screen::Result | Screen::Error => ("Done", KeyCode::Enter),
    };
    let width = label_width(label);
    let right = card.x + card.width;
    let x = if width >= u16::MAX - 2 { 0 } else { right.saturating_sub(width + 2) };
    buttons.push(CardButton { area: crate::pointer::fit(Rect { x, y: row, width, height: 1 }), code });
    assert(buttons@ =~= card_buttons_of(area, screen));
    buttons
}

/// A picker button: its label and key, with two cells of padding on each side.
pub open spec fn picker_button_cells(label: Seq<char>, key: Seq<char>) -> u16 {
    sat16(str_columns(label) + str_columns(key) + 7)
}

pub fn picker_button_width(label: &str, key: &str) -> (r: u16)
    ensures
        r == picker_button_cells(label@, key@),
{
    let a = str_width(label);
    let b = str_width(key);
    if a > 65_535 || b > 65_535 || a + b + 7 > 65_535 {
        u16::MAX
    } else {
        (a + b + 7) as u16
    }
}

/// The buttons of the picker's bottom row.
#[derive(Debug, Clone, Copy, PartialEq, Eq, Structural)]
pub enum PickerButton {
    Cancel,
    Parent,
    Primary,
}

/// Whether `label` occurs in `line` starting at `i`.
pub open spec fn found_at(line: Seq<char>, label: Seq<char>, i: int) -> bool {
    0 <= i && i + label.len() <= line.len() && line.subrange(i, i + label.len()) == label
}

/// The first place `label` occurs in `line`.
pub open spec fn occurrence(line: Seq<char>, label: Seq<char>) -> Option<int> {
    if exists|i: int| #[trigger] found_at(line, label, i) {
        Some(
            choose|i: int|
                #[trigger] found_at(line, label, i) && forall|j: int|
                    0 <= j < i ==> !#[trigger] found_at(line, label, j),
        )
    } else {
        None
    }
}

/// Whether a click at `column`, `row` lands on `label` inside `line`, drawn
/// centred on `line_row` of `area` and cut where `area` ends.
pub open spec fn centered_hit(
    area: Rect,
    line_row: u16,
    line: Seq<char>,
    label: Seq<char>,
    column: u16,
    row: u16,
) -> bool {
    match occurrence(line, label) {
        None => false,
        Some(at) => {
            let drawn = cells_sum(line.take(fit_count(line, area.width as int) as int));
            let prefix = sat16(str_columns(line.take(at)) as int);
            let width = sat16(str_columns(label) as int);
            if prefix + width > drawn {
                false
            } else {
                let start = area.x + area.width / 2 - drawn / 2;
                let label_start = start + prefix;
                row == line_row && label_start <= column && column < sat16(label_start + width)
            }
        },
    }
}

fn find_text(line: &Vec<char>, label: &Vec<char>) -> (r: Option<usize>)
    ensures
        match r {
            Some(i) => occurrence(line@, label@) == Some(i as int) && i + label@.len() <= line@.len(),
            None => occurrence(line@, label@) is None,
        },
{
    if label.len() > line.len() {
        proof {
            assert forall|w: int| !found_at(line@, label@, w) by {}
        }
        return None;
    }
    let mut i: usize = 0;
    while i <= line.len() - label.len()
        invariant
            label@.len() <= line@.len(),
            i <= line@.len() - label@.len() + 1,
            forall|j: int| 0 <= j < i ==> !#[trigger] found_at(line@, label@, j),
        decreases line.len() - label.len() + 1 - i,
    {
        let mut k: usize = 0;
        let mut same = true;
        while k < label.len()
            invariant
                k <= label@.len(),
                i + label@.len() <= line.len(),
                same == forall|m: int| 0 <= m < k ==> line@[i + m] == label@[m],
            decreases label.len() - k,
        {
            if line[i + k] != label[k] {
                same = false;
            }
            k = k + 1;
        }
        if same {
            assert(line@.subrange(i as int, i + label@.len()) =~= label@);
            assert(found_at(line@, label@, i as int));
            proof {
                let w = choose|w: int|
                    #[trigger] found_at(line@, label@, w) && forall|j: int|
                        0 <= j < w ==> !#[trigger] found_at(line@, label@, j);
                assert(found_at(line@, label@, w)) by {
                    assert(forall|j: int|
                        0 <= j < i ==> !#[trigger] found_at(line@, label@, j));
                }
                if w < i {
                } else if w > i {
                }
            }
            return Some(i);
        } else {
            proof {
                let m = choose|m: int| 0 <= m < label@.len() && line@[i + m] != label@[m];
                assert(line@.subrange(i as int, i + label@.len())[m] != label@[m]);
            }
        }
        i = i + 1;
    }
    proof {
        assert forall|w: int| !found_at(line@, label@, w) by {
            if 0 <= w && w + label@.len() <= line@.len() {
                assert(w < i);
            }
        }
    }
    None
}

/// Whether a click at `column`, `row` lands on `label` inside `line`, a line
/// drawn centred on `line_row` of `area`.
pub fn centered_text_hit(
    area: Rect,
    line_row: u16,
    line: &str,
    label: &str,
    column: u16,
    row: u16,
) -> (r: bool)
    requires
        rect_ok(area),
    ensures
        r == centered_hit(area, line_row, line@, label@, column, row),
{
    let line_chars = chars_of(line);
    let label_chars = chars_of(label);
    let at = match find_text(&line_chars, &label_chars) {
        Some(at) => at,
        None => {
            return false;
        },
    };
    let (_, drawn_cells) = fitting_prefix(&line_chars, area.width as usize);
    let drawn = drawn_cells as u16;
    let prefix_text = crate::text::string_from_range(&line_chars, 0, at);
    assert(prefix_text@ =~= line@.take(at as int));
    let prefix_cells = str_width(prefix_text.as_str());
    let prefix: u16 = if prefix_cells > 65_535 { u16::MAX } else { prefix_cells as u16 };
    let label_cells = str_width(label);
    let width: u16 = if label_cells > 65_535 { u16::MAX } else { label_cells as u16 };
    if prefix as u32 + width as u32 > drawn as u32 {
        return false;
    }
    let start = area.x + area.width / 2 - drawn / 2;
    let label_start = start + prefix;
    let label_end = label_start.saturating_add(width);
    row == line_row && column >= label_start && column < label_end
}

// ------------------------------------------------------------ header

/// `char::is_whitespace`: the characters with Unicode's White_Space property.
pub open spec fn white(c: char) -> bool {
    let u = c as u32;
    (0x09 <= u && u <= 0x0d) || u == 0x20 || u == 0x85 || u == 0xa0 || u == 0x1680 || (0x2000 <= u
        && u <= 0x200a) || u == 0x2028 || u == 0x2029 || u == 0x202f || u == 0x205f || u == 0x3000
}

pub fn is_white(c: char) -> (r: bool)
    ensures
        r == white(c),
{
    ('\u{09}' <= c && c <= '\u{0d}') || c == ' ' || c == '\u{85}' || c == '\u{a0}' || c == '\u{1680}'
        || ('\u{2000}' <= c && c <= '\u{200a}') || c == '\u{2028}' || c == '\u{2029}' || c
        == '\u{202f}' || c == '\u{205f}' || c == '\u{3000}'
}

/// `str::split_whitespace`: the runs of characters between whitespace.
pub open spec fn words(s: Seq<char>) -> Seq<Seq<char>>
    decreases s.len(),
{
    if s.len() == 0 {
        Seq::empty()
    } else {
        let w = words(s.drop_last());
        let c = s.last();
        if white(c) {
            w
        } else if s.len() >= 2 && !white(s[s.len() - 2]) && w.len() > 0 {
            w.update(w.len() - 1, w.last().push(c))
        } else {
            w.push(seq![c])
        }
    }
}

/// Words joined with single spaces.
pub open spec fn joined(ws: Seq<Seq<char>>) -> Seq<char>
    decreases ws.len(),
{
    if ws.len() == 0 {
        Seq::empty()
    } else if ws.len() == 1 {
        ws[0]
    } else {
        joined(ws.drop_last()) + " "@ + ws.last()
    }
}

/// The version line cut to its first three words, such as `ffmpeg version 8.1.2`.
pub open spec fn short_version_text(version: Seq<char>) -> Seq<char> {
    let ws = words(version);
    joined(ws.take(if ws.len() < 3 { ws.len() as int } else { 3 }))
}

proof fn lemma_joined_extend(t: Seq<Seq<char>>, c: char)
    requires
        t.len() > 0,
    ensures
        joined(t.update(t.len() - 1, t.last().push(c))) == joined(t).push(c),
{
    let u = t.update(t.len() - 1, t.last().push(c));
    if t.len() >= 2 {
        assert(u.drop_last() =~= t.drop_last());
        assert(joined(u) =~= joined(t).push(c));
    }
}

proof fn lemma_joined_push(t: Seq<Seq<char>>, w: Seq<char>)
    ensures
        joined(t.push(w)) == (if t.len() == 0 { w } else { joined(t) + " "@ + w }),
{
    assert(t.push(w).drop_last() =~= t);
}

pub fn short_version(version: &str) -> (r: String)
    ensures
        r@ == short_version_text(version@),
{
    let chars = crate::text::chars_of(version);
    let mut out = String::new();
    let mut count: usize = 0;
    let mut in_word = false;
    let mut i: usize = 0;
    while i < chars.len()
        invariant
            i <= chars@.len(),
            chars@ == version@,
            count == words(chars@.take(i as int)).len(),
            count <= i,
            in_word == (i > 0 && !white(chars@[i - 1])),
            out@ == joined(
                words(chars@.take(i as int)).take(if count < 3 { count as int } else { 3 }),
            ),
        decreases chars.len() - i,
    {
        let c = chars[i];
        let ghost prefix = chars@.take(i as int);
        let ghost w = words(prefix);
        assert(chars@.take(i + 1).drop_last() =~= prefix);
        assert(chars@.take(i + 1).last() == c);
        if is_white(c) {
            in_word = false;
        } else if in_word && count > 0 {
            proof {
                assert(w.take(count as int) =~= w);
                let u = w.update(w.len() - 1, w.last().push(c));
                if count <= 3 {
                    assert(u.take(count as int) =~= u);
                    lemma_joined_extend(w, c);
                } else {
                    assert(u.take(3) =~= w.take(3));
                }
            }
            if count <= 3 {
                crate::text::push_char(&mut out, c);
            }
        } else {
            proof {
                let u = w.push(seq![c]);
                if count < 3 {
                    assert(w.take(count as int) =~= w);
                    assert(u.take(count + 1) =~= u);
                    lemma_joined_push(w, seq![c]);
                } else {
                    assert(u.take(3) =~= w.take(3));
                }
            }
            if count < 3 {
                if count > 0 {
                    push_str(&mut out, " ");
                }
                crate::text::push_char(&mut out, c);
                assert(out@ =~= (if count == 0 { seq![c] } else { joined(w) + " "@ + seq![c] }));
            }
            count = count + 1;
            in_word = true;
        }
        i = i + 1;
    }
    assert(chars@.take(chars@.len() as int) =~= chars@);
    out
}

} // verus!
