//! The mouse: where the screen's regions lie, what the pointer is over, and
//! what a click or a turn of the wheel does there.
use vstd::prelude::*;
use crate::app::{
    App, ConfigField, HoverTarget, NavigationButton, Screen, UiCommand, sat_add16, sat_sub16,
};
use crate::domain::{AudioCodec, RateControlMode};
use crate::input::{KeyCode, KeyInput, MouseInput, MouseKind, Rect, bordered_inner, cell_in, contains};
use crate::paths::{parent, std_path_parent};
use crate::picker::{Picker, PickerAction, PickerMode, list_window_of};
use crate::screen::{
    CardButton, PickerButton, card_buttons, card_buttons_of, card_of, card_rect, centered_hit,
    centered_text_hit, chip_key, chip_key_of, chip_rects, chip_rects_of, chips_view, hint_keys,
    hints, picker_button_cells, picker_button_width, rect_ok,
};
use crate::text::decimal;
use ratatui::layout::{Constraint, Direction, Flex, Layout, Rect as Area};

verus! {

// ------------------------------------------------------------ layout

/// The axis a layout splits its area along.
#[derive(Debug, Clone, Copy, PartialEq, Eq, Structural)]
pub enum Axis {
    Horizontal,
    Vertical,
}

/// Where a layout puts the room its segments leave over.
#[derive(Debug, Clone, Copy, PartialEq, Eq, Structural)]
pub enum Spread {
    Start,
    Center,
}

/// The size asked of one segment of a layout.
#[derive(Debug, Clone, Copy, PartialEq, Eq, Structural)]
pub enum Extent {
    Length(u16),
    Min(u16),
    Percentage(u16),
}

/// What ratatui's `Layout::split` gives for these constraints.
pub uninterp spec fn ratatui_split(area: Rect, axis: Axis, extents: Seq<Extent>, spread: Spread) -> Seq<Rect>;

/// `Layout::new(direction, constraints).flex(flex).split(area)` of ratatui,
/// which solves the constraints with its own solver. Claimed: one rectangle
/// per constraint, in order; what the rectangles are is only named.
#[verifier::external_body]
fn split(area: Rect, axis: Axis, extents: &Vec<Extent>, spread: Spread) -> (r: Vec<Rect>)
    ensures
        r@ == ratatui_split(area, axis, extents@, spread),
        r@.len() == extents@.len(),
{
    let direction = match axis { Axis::Horizontal => Direction::Horizontal, Axis::Vertical => Direction::Vertical };
    let flex = match spread { Spread::Start => Flex::Start, Spread::Center => Flex::Center };
    let constraints = extents.iter().map(|e| match *e {
        Extent::Length(n) => Constraint::Length(n),
        Extent::Min(n) => Constraint::Min(n),
        Extent::Percentage(n) => Constraint::Percentage(n),
    });
    let parts = Layout::new(direction, constraints).flex(flex).split(Area::new(area.x, area.y, area.width, area.height));
    parts.iter().map(|p| Rect { x: p.x, y: p.y, width: p.width, height: p.height }).collect()
}

/// `Rect::new` of ratatui: the size cut so that the far edges stay on the screen.
pub open spec fn fit_rect(r: Rect) -> Rect {
    Rect {
        x: r.x,
        y: r.y,
        width: if r.width > u16::MAX - r.x {
            (u16::MAX - r.x) as u16
        } else {
            r.width
        },
        height: if r.height > u16::MAX - r.y {
            (u16::MAX - r.y) as u16
        } else {
            r.height
        },
    }
}

pub fn fit(r: Rect) -> (q: Rect)
    ensures
        q == fit_rect(r),
        rect_ok(q),
{
    Rect {
        x: r.x,
        y: r.y,
        width: if r.width > u16::MAX - r.x {
            u16::MAX - r.x
        } else {
            r.width
        },
        height: if r.height > u16::MAX - r.y {
            u16::MAX - r.y
        } else {
            r.height
        },
    }
}

/// `Rect::inner` of ratatui with a margin of `h` columns and `v` rows: nothing
/// when the margins do not fit.
pub open spec fn margin_inner(r: Rect, h: u16, v: u16) -> Rect {
    if r.width < 2 * h || r.height < 2 * v {
        Rect { x: 0, y: 0, width: 0, height: 0 }
    } else {
        Rect {
            x: sat_add16(r.x, h),
            y: sat_add16(r.y, v),
            width: (r.width - 2 * h) as u16,
            height: (r.height - 2 * v) as u16,
        }
    }
}

fn inner_margin(r: Rect, h: u16, v: u16) -> (q: Rect)
    requires
        h <= 1000,
        v <= 1000,
    ensures
        q == margin_inner(r, h, v),
{
    if r.width < 2 * h || r.height < 2 * v {
        Rect { x: 0, y: 0, width: 0, height: 0 }
    } else {
        Rect {
            x: r.x.saturating_add(h),
            y: r.y.saturating_add(v),
            width: r.width - 2 * h,
            height: r.height - 2 * v,
        }
    }
}

/// `Block::inner` of ratatui for a block bordered on every side, without
/// titles, and padded by `left`, `right`, `top` and `bottom` cells.
pub open spec fn block_inner(r: Rect, left: u16, right: u16, top: u16, bottom: u16) -> Rect {
    let far = sat_add16(r.x, r.width);
    let low = sat_add16(r.y, r.height);
    let x1 = if sat_add16(r.x, 1) < far {
        sat_add16(r.x, 1)
    } else {
        far
    };
    let y1 = if sat_add16(r.y, 1) < low {
        sat_add16(r.y, 1)
    } else {
        low
    };
    let w2 = sat_sub16(sat_sub16(r.width, 1), 1);
    let h2 = sat_sub16(sat_sub16(r.height, 1), 1);
    Rect {
        x: sat_add16(x1, left),
        y: sat_add16(y1, top),
        width: sat_sub16(w2, (left + right) as u16),
        height: sat_sub16(h2, (top + bottom) as u16),
    }
}

fn inner_block(r: Rect, left: u16, right: u16, top: u16, bottom: u16) -> (q: Rect)
    requires
        left + right <= u16::MAX,
        top + bottom <= u16::MAX,
    ensures
        q == block_inner(r, left, right, top, bottom),
{
    let far = r.x.saturating_add(r.width);
    let low = r.y.saturating_add(r.height);
    let x1 = if r.x.saturating_add(1) < far {
        r.x.saturating_add(1)
    } else {
        far
    };
    let y1 = if r.y.saturating_add(1) < low {
        r.y.saturating_add(1)
    } else {
        low
    };
    let w2 = r.width.saturating_sub(1).saturating_sub(1);
    let h2 = r.height.saturating_sub(1).saturating_sub(1);
    Rect {
        x: x1.saturating_add(left),
        y: y1.saturating_add(top),
        width: w2.saturating_sub(left + right),
        height: h2.saturating_sub(top + bottom),
    }
}

/// The regions of the main screen.
#[derive(Debug, Clone, Copy, PartialEq, Eq, Structural)]
pub struct ScreenRegions {
    pub header: Rect,
    pub stepper: Rect,
    pub card: Rect,
    pub status: Rect,
}

/// The rows of the main screen, top to bottom: the header, a blank row when
/// there are at least 26 rows, the stepper, another such row, the body and
/// the status bar.
pub open spec fn screen_rows(area: Rect) -> Seq<Extent> {
    let air: u16 = if area.height >= 26 {
        1
    } else {
        0
    };
    seq![
        Extent::Length(1),
        Extent::Length(air),
        Extent::Length(2),
        Extent::Length(air),
        Extent::Min(5),
        Extent::Length(1),
    ]
}

/// The card sits in the body less a column on each side.
pub open spec fn screen_regions_of(area: Rect) -> ScreenRegions {
    let rows = ratatui_split(area, Axis::Vertical, screen_rows(area), Spread::Start);
    ScreenRegions {
        header: fit_rect(rows[0]),
        stepper: fit_rect(rows[2]),
        card: fit_rect(margin_inner(rows[4], 1, 0)),
        status: fit_rect(rows[5]),
    }
}

pub fn screen_regions(area: Rect) -> (r: ScreenRegions)
    ensures
        r == screen_regions_of(area),
        rect_ok(r.header),
        rect_ok(r.stepper),
        rect_ok(r.card),
        rect_ok(r.status),
{
    let air: u16 = if area.height >= 26 {
        1
    } else {
        0
    };
    let mut extents: Vec<Extent> = Vec::new();
    extents.push(Extent::Length(1));
    extents.push(Extent::Length(air));
    extents.push(Extent::Length(2));
    extents.push(Extent::Length(air));
    extents.push(Extent::Min(5));
    extents.push(Extent::Length(1));
    assert(extents@ =~= screen_rows(area));
    let rows = split(area, Axis::Vertical, &extents, Spread::Start);
    ScreenRegions {
        header: fit(rows[0]),
        stepper: fit(rows[2]),
        card: fit(inner_margin(rows[4], 1, 0)),
        status: fit(rows[5]),
    }
}

/// The regions of the picker card.
#[derive(Debug, Clone, Copy, PartialEq, Eq, Structural)]
pub struct PickerRegions {
    pub card: Rect,
    pub path: Rect,
    pub name: Rect,
    pub list: Rect,
    pub buttons: Rect,
}

/// The picker card: 62 by 18 cells at most, centred a row above the middle.
pub open spec fn picker_card_of(area: Rect) -> Rect {
    let width = crate::screen::min16(62, area.width);
    let height = crate::screen::min16(18, sat_sub16(area.height, 1));
    fit_rect(
        Rect {
            x: (area.x + (area.width - width) / 2) as u16,
            y: (area.y + sat_sub16(area.height, (height + 1) as u16) / 2) as u16,
            width,
            height,
        },
    )
}

/// Inside the card's border and a column of padding: the path, the name field
/// when saving, the list, and the button row.
pub open spec fn picker_rows(mode: PickerMode) -> Seq<Extent> {
    seq![
        Extent::Length(2),
        Extent::Length(if mode == PickerMode::OutputFile { 2 } else { 0 }),
        Extent::Min(1),
        Extent::Length(1),
    ]
}

pub open spec fn picker_regions_of(mode: PickerMode, area: Rect) -> PickerRegions {
    let card = picker_card_of(area);
    let parts = ratatui_split(block_inner(card, 1, 1, 0, 0), Axis::Vertical, picker_rows(mode), Spread::Start);
    PickerRegions {
        card,
        path: fit_rect(parts[0]),
        name: fit_rect(parts[1]),
        list: fit_rect(parts[2]),
        buttons: fit_rect(parts[3]),
    }
}

pub fn picker_regions(mode: PickerMode, area: Rect) -> (r: PickerRegions)
    requires
        rect_ok(area),
    ensures
        r == picker_regions_of(mode, area),
        rect_ok(r.card),
        rect_ok(r.path),
        rect_ok(r.name),
        rect_ok(r.list),
        rect_ok(r.buttons),
{
    let width = if 62 < area.width {
        62
    } else {
        area.width
    };
    let tall = area.height.saturating_sub(1);
    let height = if 18 < tall {
        18
    } else {
        tall
    };
    let card = fit(
        Rect {
            x: area.x + (area.width - width) / 2,
            y: area.y + area.height.saturating_sub(height + 1) / 2,
            width,
            height,
        },
    );
    let inner = inner_block(card, 1, 1, 0, 0);
    let mut extents: Vec<Extent> = Vec::new();
    extents.push(Extent::Length(2));
    extents.push(Extent::Length(if mode == PickerMode::OutputFile { 2 } else { 0 }));
    extents.push(Extent::Min(1));
    extents.push(Extent::Length(1));
    assert(extents@ =~= picker_rows(mode));
    let parts = split(inner, Axis::Vertical, &extents, Spread::Start);
    PickerRegions {
        card,
        path: fit(parts[0]),
        name: fit(parts[1]),
        list: fit(parts[2]),
        buttons: fit(parts[3]),
    }
}

/// A popup `percent_x` by `percent_y` of `area`, centred.
pub open spec fn centered_of(percent_x: u16, percent_y: u16, area: Rect) -> Rect {
    let band = fit_rect(
        ratatui_split(area, Axis::Vertical, seq![Extent::Percentage(percent_y)], Spread::Center)[0],
    );
    fit_rect(
        ratatui_split(band, Axis::Horizontal, seq![Extent::Percentage(percent_x)], Spread::Center)[0],
    )
}

pub fn centered_rect(percent_x: u16, percent_y: u16, area: Rect) -> (r: Rect)
    ensures
        r == centered_of(percent_x, percent_y, area),
        rect_ok(r),
{
    let mut rows: Vec<Extent> = Vec::new();
    rows.push(Extent::Percentage(percent_y));
    assert(rows@ =~= seq![Extent::Percentage(percent_y)]);
    let band = fit(split(area, Axis::Vertical, &rows, Spread::Center)[0]);
    let mut columns: Vec<Extent> = Vec::new();
    columns.push(Extent::Percentage(percent_x));
    assert(columns@ =~= seq![Extent::Percentage(percent_x)]);
    fit(split(band, Axis::Horizontal, &columns, Spread::Center)[0])
}

// ------------------------------------------------------------ regions of a card

/// The inside of a card: its border and two columns and a row of padding.
pub open spec fn content_of(card: Rect) -> Rect {
    block_inner(card, 2, 2, 1, 1)
}

/// The scrolling part of a card: its content down to the row above its buttons.
pub open spec fn viewport_of(screen: Screen, card: Rect) -> Rect {
    let content = content_of(card);
    let buttons = card_buttons_of(card, screen);
    let row = if buttons.len() > 0 {
        buttons[0].area.y
    } else {
        sat_add16(content.y, content.height)
    };
    fit_rect(
        Rect {
            x: content.x,
            y: content.y,
            width: content.width,
            height: sat_sub16(row, sat_add16(content.y, 1)),
        },
    )
}

pub fn card_viewport(screen: Screen, card: Rect) -> (r: Rect)
    requires
        rect_ok(card),
    ensures
        r == viewport_of(screen, card),
        rect_ok(r),
{
    let content = inner_block(card, 2, 2, 1, 1);
    let buttons = card_buttons(card, screen);
    let row = if buttons.len() > 0 {
        buttons[0].area.y
    } else {
        content.y.saturating_add(content.height)
    };
    fit(
        Rect {
            x: content.x,
            y: content.y,
            width: content.width,
            height: row.saturating_sub(content.y.saturating_add(1)),
        },
    )
}

/// The input and output path rows of the folder card in `area`.
pub open spec fn folder_rows_of(area: Rect) -> (Rect, Rect) {
    let content = content_of(card_of(area, Screen::Folders));
    let input_row = sat_add16(content.y, 1);
    (
        fit_rect(Rect { x: content.x, y: input_row, width: content.width, height: 1 }),
        fit_rect(Rect { x: content.x, y: sat_add16(input_row, 3), width: content.width, height: 1 }),
    )
}

pub fn folder_rows(area: Rect) -> (r: (Rect, Rect))
    requires
        rect_ok(area),
    ensures
        r == folder_rows_of(area),
{
    let content = inner_block(card_rect(area, Screen::Folders), 2, 2, 1, 1);
    let input_row = content.y.saturating_add(1);
    (
        fit(Rect { x: content.x, y: input_row, width: content.width, height: 1 }),
        fit(Rect { x: content.x, y: input_row.saturating_add(3), width: content.width, height: 1 }),
    )
}

/// The settings field on row `i` of the card, top to bottom.
pub open spec fn setting_field(i: nat) -> ConfigField {
    if i == 0 {
        ConfigField::Container
    } else if i == 1 {
        ConfigField::VideoCodec
    } else if i == 2 {
        ConfigField::AudioCodec
    } else if i == 3 {
        ConfigField::Resolution
    } else if i == 4 {
        ConfigField::RateControl
    } else if i == 5 {
        ConfigField::RateValue
    } else {
        ConfigField::AudioBitrate
    }
}

/// Row `i` of the settings card in `area`: the content's width, two rows under
/// the card's top edge.
pub open spec fn setting_rect(area: Rect, i: nat) -> Rect {
    let card = card_of(area, Screen::Settings);
    let content = content_of(card);
    fit_rect(
        Rect {
            x: content.x,
            y: sat_add16(sat_add16(card.y, 2), i as u16),
            width: content.width,
            height: 1,
        },
    )
}

/// The first settings row, from row `i` on, that holds the cell.
pub open spec fn setting_hit(area: Rect, column: u16, row: u16, i: nat) -> Option<nat>
    decreases 7 - i,
{
    if i >= 7 {
        None
    } else if cell_in(setting_rect(area, i), column, row) {
        Some(i)
    } else {
        setting_hit(area, column, row, i + 1)
    }
}

fn field_at(i: usize) -> (r: ConfigField)
    ensures
        r == setting_field(i as nat),
{
    if i == 0 {
        ConfigField::Container
    } else if i == 1 {
        ConfigField::VideoCodec
    } else if i == 2 {
        ConfigField::AudioCodec
    } else if i == 3 {
        ConfigField::Resolution
    } else if i == 4 {
        ConfigField::RateControl
    } else if i == 5 {
        ConfigField::RateValue
    } else {
        ConfigField::AudioBitrate
    }
}

pub fn setting_at(area: Rect, column: u16, row: u16) -> (r: Option<usize>)
    requires
        rect_ok(area),
    ensures
        match r {
            Some(i) => setting_hit(area, column, row, 0) == Some(i as nat),
            None => setting_hit(area, column, row, 0) is None,
        },
{
    let card = card_rect(area, Screen::Settings);
    let content = inner_block(card, 2, 2, 1, 1);
    let start = card.y.saturating_add(2);
    let mut i: usize = 0;
    while i < 7
        invariant
            i <= 7,
            card == card_of(area, Screen::Settings),
            content == content_of(card),
            start == sat_add16(card.y, 2),
            setting_hit(area, column, row, 0) == setting_hit(area, column, row, i as nat),
        decreases 7 - i,
    {
        let rect = fit(Rect { x: content.x, y: start.saturating_add(i as u16), width: content.width, height: 1 });
        assert(rect == setting_rect(area, i as nat));
        if contains(rect, column, row) {
            return Some(i);
        }
        i = i + 1;
    }
    None
}

// ------------------------------------------------------------ hit tests

/// What the first of `items`, from `i` on, whose rectangle holds the cell carries.
pub open spec fn hit_from<T>(items: Seq<(Rect, T)>, column: u16, row: u16, i: nat) -> Option<T>
    decreases items.len() - i,
{
    if i >= items.len() {
        None
    } else if cell_in(items[i as int].0, column, row) {
        Some(items[i as int].1)
    } else {
        hit_from(items, column, row, i + 1)
    }
}

pub open spec fn first_hit<T>(items: Seq<(Rect, T)>, column: u16, row: u16) -> Option<T> {
    hit_from(items, column, row, 0)
}

fn chip_at(items: &Vec<(Rect, char)>, column: u16, row: u16) -> (r: Option<char>)
    ensures
        r == first_hit(items@, column, row),
{
    let mut i: usize = 0;
    while i < items.len()
        invariant
            i <= items@.len(),
            first_hit(items@, column, row) == hit_from(items@, column, row, i as nat),
        decreases items.len() - i,
    {
        if contains(items[i].0, column, row) {
            return Some(items[i].1);
        }
        i = i + 1;
    }
    None
}

/// The card buttons as rectangles with their keys.
pub open spec fn button_items(buttons: Seq<CardButton>) -> Seq<(Rect, KeyCode)> {
    buttons.map_values(|b: CardButton| (b.area, b.code))
}

fn button_at(buttons: &Vec<CardButton>, column: u16, row: u16) -> (r: Option<KeyCode>)
    ensures
        r == first_hit(button_items(buttons@), column, row),
{
    let ghost items = button_items(buttons@);
    let mut i: usize = 0;
    while i < buttons.len()
        invariant
            i <= buttons@.len(),
            items == button_items(buttons@),
            items.len() == buttons@.len(),
            first_hit(items, column, row) == hit_from(items, column, row, i as nat),
        decreases buttons.len() - i,
    {
        if contains(buttons[i].area, column, row) {
            return Some(buttons[i].code);
        }
        i = i + 1;
    }
    None
}

/// The chips of the header: help and quit.
pub open spec fn header_chips() -> Seq<(char, Seq<char>)> {
    seq![('?', "help"@), ('q', "quit"@)]
}

fn header_chip_list() -> (r: Vec<(char, &'static str)>)
    ensures
        chips_view(r@) == header_chips(),
{
    let mut r: Vec<(char, &'static str)> = Vec::new();
    r.push(('?', "help"));
    r.push(('q', "quit"));
    assert(chips_view(r@) =~= header_chips());
    r
}

/// What the pointer is over on a card's bottom row.
pub open spec fn card_hover_of(screen: Screen, column: u16, row: u16, area: Rect) -> Option<HoverTarget> {
    match first_hit(button_items(card_buttons_of(area, screen)), column, row) {
        Some(KeyCode::Esc) => Some(HoverTarget::CardButton(NavigationButton::Back)),
        Some(_) => Some(HoverTarget::CardButton(NavigationButton::Advance)),
        None => None,
    }
}

fn card_hover(screen: Screen, column: u16, row: u16, area: Rect) -> (r: Option<HoverTarget>)
    requires
        rect_ok(area),
    ensures
        r == card_hover_of(screen, column, row, area),
{
    let buttons = card_buttons(area, screen);
    match button_at(&buttons, column, row) {
        Some(KeyCode::Esc) => Some(HoverTarget::CardButton(NavigationButton::Back)),
        Some(_) => Some(HoverTarget::CardButton(NavigationButton::Advance)),
        None => None,
    }
}

/// The text of the picker's primary button.
pub open spec fn primary_text(p: Picker) -> Seq<char> {
    match p.mode {
        PickerMode::InputFiles => "Done ("@ + decimal(p.selected@.len() as nat) + ")"@,
        PickerMode::OutputFile => "Save here"@,
        _ => "Use this folder"@,
    }
}

/// The picker's buttons, measured as they are drawn, left to right: cancel,
/// parent when the folder has one, and the primary button at the right end
/// when it does not run into them.
pub open spec fn picker_buttons_of(p: Picker, area: Rect) -> Seq<(Rect, PickerButton)> {
    let cancel_width = picker_button_cells("Cancel"@, "esc"@);
    let cancel = seq![(fit_rect(Rect { x: area.x, y: area.y, width: cancel_width, height: 1 }), PickerButton::Cancel)];
    let left = sat_add16(area.x, cancel_width);
    let has_parent = std_path_parent(p.dir@) is Some;
    let parent_width = picker_button_cells("Parent"@, "←"@);
    let parent = if has_parent {
        seq![(fit_rect(Rect { x: left, y: area.y, width: parent_width, height: 1 }), PickerButton::Parent)]
    } else {
        Seq::empty()
    };
    let end = if has_parent {
        sat_add16(left, parent_width)
    } else {
        left
    };
    let width = picker_button_cells(primary_text(p), "s"@);
    let x = sat_sub16(sat_add16(area.x, area.width), width);
    let primary = if x >= end {
        seq![(fit_rect(Rect { x, y: area.y, width, height: 1 }), PickerButton::Primary)]
    } else {
        Seq::empty()
    };
    cancel + parent + primary
}

pub fn picker_button_rects(p: &Picker, area: Rect) -> (r: Vec<(Rect, PickerButton)>)
    ensures
        r@ == picker_buttons_of(*p, area),
{
    let mut rects: Vec<(Rect, PickerButton)> = Vec::new();
    let cancel_width = picker_button_width("Cancel", "esc");
    rects.push((fit(Rect { x: area.x, y: area.y, width: cancel_width, height: 1 }), PickerButton::Cancel));
    let mut left = area.x.saturating_add(cancel_width);
    if parent(p.dir.as_str()).is_some() {
        let parent_width = picker_button_width("Parent", "←");
        rects.push((fit(Rect { x: left, y: area.y, width: parent_width, height: 1 }), PickerButton::Parent));
        left = left.saturating_add(parent_width);
    }
    let label = p.primary_label();
    let width = picker_button_width(label.as_str(), "s");
    let x = area.x.saturating_add(area.width).saturating_sub(width);
    if x >= left {
        rects.push((fit(Rect { x, y: area.y, width, height: 1 }), PickerButton::Primary));
    }
    assert(rects@ =~= picker_buttons_of(*p, area));
    rects
}

fn picker_button_at(items: &Vec<(Rect, PickerButton)>, column: u16, row: u16) -> (r: Option<PickerButton>)
    ensures
        r == first_hit(items@, column, row),
{
    let mut i: usize = 0;
    while i < items.len()
        invariant
            i <= items@.len(),
            first_hit(items@, column, row) == hit_from(items@, column, row, i as nat),
        decreases items.len() - i,
    {
        if contains(items[i].0, column, row) {
            return Some(items[i].1);
        }
        i = i + 1;
    }
    None
}

/// The row of the picker list at a cell of the list, counted from the window's top.
pub open spec fn picker_row_at(p: Picker, list: Rect, row: u16) -> int {
    let first = list_window_of(p.scroll, p.cursor, p.rows@.len() as usize, list.height as usize);
    let index = first + sat_sub16(row, list.y);
    if index > usize::MAX {
        usize::MAX as int
    } else {
        index
    }
}

/// What the pointer is over in the picker.
pub open spec fn picker_hover_of(p: Picker, column: u16, row: u16, area: Rect) -> Option<HoverTarget> {
    let regions = picker_regions_of(p.mode, area);
    let index = picker_row_at(p, regions.list, row);
    if p.error is None && cell_in(regions.list, column, row) && index < p.rows@.len() {
        Some(HoverTarget::PickerRow(index as usize))
    } else if p.mode == PickerMode::OutputFile && cell_in(regions.name, column, row) {
        Some(HoverTarget::PickerName)
    } else {
        match first_hit(picker_buttons_of(p, regions.buttons), column, row) {
            Some(PickerButton::Cancel) => Some(HoverTarget::PickerCancel),
            Some(PickerButton::Parent) => Some(HoverTarget::PickerParent),
            Some(PickerButton::Primary) => Some(HoverTarget::PickerPrimary),
            None => None,
        }
    }
}

fn picker_hover(p: &Picker, column: u16, row: u16, area: Rect) -> (r: Option<HoverTarget>)
    requires
        rect_ok(area),
    ensures
        r == picker_hover_of(*p, column, row, area),
{
    let regions = picker_regions(p.mode, area);
    if p.error.is_none() && contains(regions.list, column, row) {
        let offset = row.saturating_sub(regions.list.y) as usize;
        let index = p.window(regions.list.height as usize).saturating_add(offset);
        if index < p.rows.len() {
            return Some(HoverTarget::PickerRow(index));
        }
    }
    if p.mode == PickerMode::OutputFile && contains(regions.name, column, row) {
        return Some(HoverTarget::PickerName);
    }
    let buttons = picker_button_rects(p, regions.buttons);
    match picker_button_at(&buttons, column, row) {
        Some(PickerButton::Cancel) => Some(HoverTarget::PickerCancel),
        Some(PickerButton::Parent) => Some(HoverTarget::PickerParent),
        Some(PickerButton::Primary) => Some(HoverTarget::PickerPrimary),
        None => None,
    }
}

/// What the pointer is over: nothing while a popup is up; in the picker its
/// rows and buttons; else the header's and the status bar's chips, then the
/// controls of the current card. Only controls the screen draws count.
pub open spec fn hover_of(app: App, column: u16, row: u16, area: Rect) -> Option<HoverTarget> {
    if app.help_visible || app.cancel_confirmation || app.numeric_edit is Some {
        None
    } else {
        match app.picker {
            Some(p) => picker_hover_of(p, column, row, area),
            None => {
                let regions = screen_regions_of(area);
                match first_hit(chip_rects_of(regions.header, header_chips()), column, row) {
                    Some(key) => Some(HoverTarget::HeaderChip(key)),
                    None => match first_hit(
                        chip_rects_of(regions.status, hint_keys(app.screen, app.button_focus)),
                        column,
                        row,
                    ) {
                        Some(key) => Some(HoverTarget::StatusChip(key)),
                        None => match app.screen {
                            Screen::Folders => {
                                let rows = folder_rows_of(regions.card);
                                if cell_in(rows.0, column, row) {
                                    Some(HoverTarget::InputRow)
                                } else if cell_in(rows.1, column, row) {
                                    Some(HoverTarget::OutputRow)
                                } else {
                                    card_hover_of(app.screen, column, row, regions.card)
                                }
                            },
                            Screen::Settings => match setting_hit(regions.card, column, row, 0) {
                                Some(i) => Some(HoverTarget::Setting(setting_field(i))),
                                None => card_hover_of(app.screen, column, row, regions.card),
                            },
                            _ => card_hover_of(app.screen, column, row, regions.card),
                        },
                    },
                }
            },
        }
    }
}

pub fn hover_target(app: &App, column: u16, row: u16, area: Rect) -> (r: Option<HoverTarget>)
    requires
        rect_ok(area),
    ensures
        r == hover_of(*app, column, row, area),
{
    if app.help_visible || app.cancel_confirmation || app.numeric_edit.is_some() {
        return None;
    }
    match &app.picker {
        Some(p) => picker_hover(p, column, row, area),
        None => {
            let regions = screen_regions(area);
            let header = header_chip_list();
            let header_rects = chip_rects(regions.header, &header);
            if let Some(key) = chip_at(&header_rects, column, row) {
                return Some(HoverTarget::HeaderChip(key));
            }
            let status = hints(app.screen, app.button_focus);
            let status_rects = chip_rects(regions.status, &status);
            if let Some(key) = chip_at(&status_rects, column, row) {
                return Some(HoverTarget::StatusChip(key));
            }
            match app.screen {
                Screen::Folders => {
                    let rows = folder_rows(regions.card);
                    if contains(rows.0, column, row) {
                        Some(HoverTarget::InputRow)
                    } else if contains(rows.1, column, row) {
                        Some(HoverTarget::OutputRow)
                    } else {
                        card_hover(app.screen, column, row, regions.card)
                    }
                },
                Screen::Settings => match setting_at(regions.card, column, row) {
                    Some(i) => Some(HoverTarget::Setting(field_at(i))),
                    None => card_hover(app.screen, column, row, regions.card),
                },
                _ => card_hover(app.screen, column, row, regions.card),
            }
        },
    }
}

// ------------------------------------------------------------ what a click does

/// What a mouse event comes to.
#[derive(Debug, Clone, Copy, PartialEq, Eq, Structural)]
pub enum MouseAct {
    Nothing,
    /// The key, and what it answers.
    Key(KeyInput),
    /// The key, with what it answers dropped.
    KeyQuietly(KeyInput),
    /// The forward button: it takes the keyboard's focus, then Enter.
    Advance,
    /// A folder row: the keyboard's focus moves to it, and its picker opens.
    OpenRow(ConfigField, UiCommand),
    /// A settings row: the keyboard's focus moves to it, then the key, if any.
    Setting(ConfigField, Option<KeyInput>),
    ReviewUp,
    ReviewDown,
    ProgressUp,
    ProgressDown,
    /// The picker's name field takes the keyboard.
    FocusName,
    /// The key, to the picker alone.
    PickerKey(KeyInput),
    /// The picker's primary button.
    PickerPrimary,
    /// A click in the picker's list, laid out in this rectangle.
    PickerList(Rect),
    /// A turn of the wheel over the picker's list.
    PickerScroll(Rect),
}

pub open spec fn key_of(code: KeyCode) -> KeyInput {
    KeyInput { code, ctrl: false }
}

/// The inside of a one-cell border.
pub open spec fn bordered_of(a: Rect) -> Rect {
    Rect {
        x: sat_add16(a.x, 1),
        y: sat_add16(a.y, 1),
        width: sat_sub16(a.width, 2),
        height: sat_sub16(a.height, 2),
    }
}

/// A click in a popup answers the choice it lands on; a right click closes it.
pub open spec fn popup_act_of(app: App, event: MouseInput, area: Rect) -> MouseAct {
    let c = event.column;
    let r = event.row;
    match event.kind {
        MouseKind::RightDown => MouseAct::Key(key_of(KeyCode::Esc)),
        MouseKind::LeftDown => if app.cancel_confirmation {
            let content = bordered_of(centered_of(56, 24, area));
            let row = sat_add16(content.y, 2);
            let line = "[y/Enter] Cancel job    [n/Esc] Keep running"@;
            if centered_hit(content, row, line, "[y/Enter] Cancel job"@, c, r) {
                MouseAct::Key(key_of(KeyCode::Enter))
            } else if centered_hit(content, row, line, "[n/Esc] Keep running"@, c, r) {
                MouseAct::Key(key_of(KeyCode::Esc))
            } else {
                MouseAct::Nothing
            }
        } else {
            let content = bordered_of(centered_of(50, 24, area));
            let row = sat_add16(content.y, 3);
            let line = "Enter save  •  Esc cancel"@;
            if centered_hit(content, row, line, "Enter save"@, c, r) {
                MouseAct::Key(key_of(KeyCode::Enter))
            } else if centered_hit(content, row, line, "Esc cancel"@, c, r) {
                MouseAct::Key(key_of(KeyCode::Esc))
            } else {
                MouseAct::Nothing
            }
        },
        _ => MouseAct::Nothing,
    }
}

/// A click in the picker: the name field, a button, or the list; the wheel
/// over the list scrolls it.
pub open spec fn picker_act_of(p: Picker, event: MouseInput, area: Rect) -> MouseAct {
    let regions = picker_regions_of(p.mode, area);
    let c = event.column;
    let r = event.row;
    match event.kind {
        MouseKind::LeftDown => if cell_in(regions.name, c, r) && p.mode == PickerMode::OutputFile {
            MouseAct::FocusName
        } else if cell_in(regions.buttons, c, r) {
            match first_hit(picker_buttons_of(p, regions.buttons), c, r) {
                Some(PickerButton::Cancel) => MouseAct::KeyQuietly(key_of(KeyCode::Esc)),
                Some(PickerButton::Parent) => MouseAct::PickerKey(key_of(KeyCode::Left)),
                Some(PickerButton::Primary) => MouseAct::PickerPrimary,
                None => MouseAct::Nothing,
            }
        } else if cell_in(regions.list, c, r) {
            MouseAct::PickerList(regions.list)
        } else {
            MouseAct::Nothing
        },
        MouseKind::ScrollUp | MouseKind::ScrollDown => if cell_in(regions.list, c, r) {
            MouseAct::PickerScroll(regions.list)
        } else {
            MouseAct::Nothing
        },
        _ => MouseAct::Nothing,
    }
}

/// The chip under the pointer: the header's first, then the status bar's.
pub open spec fn chip_hit_of(app: App, column: u16, row: u16, area: Rect) -> Option<char> {
    let regions = screen_regions_of(area);
    match first_hit(chip_rects_of(regions.header, header_chips()), column, row) {
        Some(key) => Some(key),
        None => first_hit(chip_rects_of(regions.status, hint_keys(app.screen, app.button_focus)), column, row),
    }
}

/// The forward button advances; a click on a path row opens its picker.
pub open spec fn folders_act_of(app: App, event: MouseInput, area: Rect) -> MouseAct {
    let regions = screen_regions_of(area);
    let c = event.column;
    let r = event.row;
    let left = event.kind == MouseKind::LeftDown;
    let button = if left {
        first_hit(button_items(card_buttons_of(regions.card, app.screen)), c, r)
    } else {
        None
    };
    match button {
        Some(code) => if code == KeyCode::Enter {
            MouseAct::Advance
        } else {
            MouseAct::Nothing
        },
        None => {
            let rows = folder_rows_of(regions.card);
            if cell_in(rows.0, c, r) && left {
                MouseAct::OpenRow(ConfigField::Input, UiCommand::OpenInputs { add: false })
            } else if cell_in(rows.1, c, r) && left {
                MouseAct::OpenRow(ConfigField::Output, UiCommand::OpenOutput)
            } else {
                MouseAct::Nothing
            }
        },
    }
}

/// Whether a row's value means nothing for the sources read so far.
pub open spec fn setting_disabled(app: App, field: ConfigField) -> bool {
    let silent = crate::view::probed_any(app) && !crate::view::any_audio(app);
    let audio_enabled = app.draft.audio_codec != AudioCodec::Silent && (!crate::view::probed_any(app)
        || crate::view::any_audio(app));
    (field == ConfigField::AudioCodec && silent) || (field == ConfigField::AudioBitrate && !audio_enabled)
}

/// A left click edits a bitrate that can be typed, and steps any other value on.
pub open spec fn activate_key_of(app: App, field: ConfigField) -> KeyInput {
    if field == ConfigField::RateValue && app.draft.rate_control_mode == RateControlMode::Bitrate {
        key_of(KeyCode::Enter)
    } else if field == ConfigField::AudioBitrate && !setting_disabled(app, field) {
        key_of(KeyCode::Enter)
    } else {
        key_of(KeyCode::Right)
    }
}

/// The mouse on a settings row: a right click or the wheel up steps back, the
/// wheel down steps on, a left click activates; a row whose value means
/// nothing only takes the focus.
pub open spec fn setting_act_of(app: App, field: ConfigField, kind: MouseKind) -> MouseAct {
    if setting_disabled(app, field) {
        MouseAct::Setting(field, None)
    } else {
        match kind {
            MouseKind::RightDown | MouseKind::ScrollUp => MouseAct::Setting(field, Some(key_of(KeyCode::Left))),
            MouseKind::ScrollDown => MouseAct::Setting(field, Some(key_of(KeyCode::Right))),
            MouseKind::LeftDown => MouseAct::Setting(field, Some(activate_key_of(app, field))),
            _ => MouseAct::Setting(field, None),
        }
    }
}

pub open spec fn settings_act_of(app: App, event: MouseInput, area: Rect) -> MouseAct {
    let regions = screen_regions_of(area);
    let c = event.column;
    let r = event.row;
    let button = if event.kind == MouseKind::LeftDown {
        first_hit(button_items(card_buttons_of(regions.card, app.screen)), c, r)
    } else {
        None
    };
    match button {
        Some(code) => if code == KeyCode::Enter {
            MouseAct::Advance
        } else {
            MouseAct::KeyQuietly(key_of(code))
        },
        None => match setting_hit(regions.card, c, r, 0) {
            Some(i) => setting_act_of(app, setting_field(i), event.kind),
            None => MouseAct::Nothing,
        },
    }
}

/// On the review, progress and result cards the wheel scrolls the content and
/// a click on a button runs its key.
pub open spec fn card_act_of(app: App, event: MouseInput, area: Rect) -> MouseAct {
    let regions = screen_regions_of(area);
    let card = card_of(regions.card, app.screen);
    let c = event.column;
    let r = event.row;
    if cell_in(viewport_of(app.screen, card), c, r) {
        if app.screen == Screen::Confirm && event.kind == MouseKind::ScrollUp {
            MouseAct::ReviewUp
        } else if app.screen == Screen::Confirm && event.kind == MouseKind::ScrollDown {
            MouseAct::ReviewDown
        } else if app.screen == Screen::Running && event.kind == MouseKind::ScrollUp {
            MouseAct::ProgressUp
        } else if app.screen == Screen::Running && event.kind == MouseKind::ScrollDown {
            MouseAct::ProgressDown
        } else {
            MouseAct::Nothing
        }
    } else if event.kind != MouseKind::LeftDown {
        MouseAct::Nothing
    } else {
        match first_hit(button_items(card_buttons_of(regions.card, app.screen)), c, r) {
            Some(code) => MouseAct::Key(key_of(code)),
            None => MouseAct::Nothing,
        }
    }
}

/// What a mouse event comes to, as the screens draw their controls: the
/// picker and the popups first, then the chips, then the current card.
pub open spec fn mouse_act_of(app: App, event: MouseInput, area: Rect) -> MouseAct {
    match app.picker {
        Some(p) => picker_act_of(p, event, area),
        None => if app.help_visible {
            if event.kind == MouseKind::LeftDown || event.kind == MouseKind::RightDown || event.kind
                == MouseKind::MiddleDown {
                MouseAct::Key(key_of(KeyCode::Esc))
            } else {
                MouseAct::Nothing
            }
        } else if app.cancel_confirmation || app.numeric_edit is Some {
            popup_act_of(app, event, area)
        } else {
            let chip = if event.kind == MouseKind::LeftDown {
                chip_hit_of(app, event.column, event.row, area)
            } else {
                None
            };
            match chip {
                Some(key) => MouseAct::Key(chip_key_of(key)),
                None => match app.screen {
                    Screen::Folders => folders_act_of(app, event, area),
                    Screen::Settings => settings_act_of(app, event, area),
                    _ => card_act_of(app, event, area),
                },
            }
        },
    }
}

fn popup_act(app: &App, event: MouseInput, area: Rect) -> (r: MouseAct)
    ensures
        r == popup_act_of(*app, event, area),
{
    match event.kind {
        MouseKind::RightDown => MouseAct::Key(KeyInput::plain(KeyCode::Esc)),
        MouseKind::LeftDown => {
            let c = event.column;
            let r = event.row;
            if app.cancel_confirmation {
                let content = bordered_inner(centered_rect(56, 24, area));
                let row = content.y.saturating_add(2);
                let line = "[y/Enter] Cancel job    [n/Esc] Keep running";
                if centered_text_hit(content, row, line, "[y/Enter] Cancel job", c, r) {
                    MouseAct::Key(KeyInput::plain(KeyCode::Enter))
                } else if centered_text_hit(content, row, line, "[n/Esc] Keep running", c, r) {
                    MouseAct::Key(KeyInput::plain(KeyCode::Esc))
                } else {
                    MouseAct::Nothing
                }
            } else {
                let content = bordered_inner(centered_rect(50, 24, area));
                let row = content.y.saturating_add(3);
                let line = "Enter save  •  Esc cancel";
                if centered_text_hit(content, row, line, "Enter save", c, r) {
                    MouseAct::Key(KeyInput::plain(KeyCode::Enter))
                } else if centered_text_hit(content, row, line, "Esc cancel", c, r) {
                    MouseAct::Key(KeyInput::plain(KeyCode::Esc))
                } else {
                    MouseAct::Nothing
                }
            }
        },
        _ => MouseAct::Nothing,
    }
}

fn picker_act(p: &Picker, event: MouseInput, area: Rect) -> (r: MouseAct)
    requires
        rect_ok(area),
    ensures
        r == picker_act_of(*p, event, area),
{
    let regions = picker_regions(p.mode, area);
    let c = event.column;
    let r = event.row;
    match event.kind {
        MouseKind::LeftDown => {
            if contains(regions.name, c, r) && p.mode == PickerMode::OutputFile {
                MouseAct::FocusName
            } else if contains(regions.buttons, c, r) {
                let buttons = picker_button_rects(p, regions.buttons);
                match picker_button_at(&buttons, c, r) {
                    Some(PickerButton::Cancel) => MouseAct::KeyQuietly(KeyInput::plain(KeyCode::Esc)),
                    Some(PickerButton::Parent) => MouseAct::PickerKey(KeyInput::plain(KeyCode::Left)),
                    Some(PickerButton::Primary) => MouseAct::PickerPrimary,
                    None => MouseAct::Nothing,
                }
            } else if contains(regions.list, c, r) {
                MouseAct::PickerList(regions.list)
            } else {
                MouseAct::Nothing
            }
        },
        MouseKind::ScrollUp | MouseKind::ScrollDown => {
            if contains(regions.list, c, r) {
                MouseAct::PickerScroll(regions.list)
            } else {
                MouseAct::Nothing
            }
        },
        _ => MouseAct::Nothing,
    }
}

fn chip_hit(app: &App, column: u16, row: u16, area: Rect) -> (r: Option<char>)
    ensures
        r == chip_hit_of(*app, column, row, area),
{
    let regions = screen_regions(area);
    let header = header_chip_list();
    let header_rects = chip_rects(regions.header, &header);
    match chip_at(&header_rects, column, row) {
        Some(key) => Some(key),
        None => {
            let status = hints(app.screen, app.button_focus);
            let status_rects = chip_rects(regions.status, &status);
            chip_at(&status_rects, column, row)
        },
    }
}

fn folders_act(app: &App, event: MouseInput, area: Rect) -> (r: MouseAct)
    ensures
        r == folders_act_of(*app, event, area),
{
    let regions = screen_regions(area);
    let c = event.column;
    let r = event.row;
    let left = event.kind == MouseKind::LeftDown;
    let button = if left {
        let buttons = card_buttons(regions.card, app.screen);
        button_at(&buttons, c, r)
    } else {
        None
    };
    match button {
        Some(code) => if code == KeyCode::Enter {
            MouseAct::Advance
        } else {
            MouseAct::Nothing
        },
        None => {
            let rows = folder_rows(regions.card);
            if contains(rows.0, c, r) && left {
                MouseAct::OpenRow(ConfigField::Input, UiCommand::OpenInputs { add: false })
            } else if contains(rows.1, c, r) && left {
                MouseAct::OpenRow(ConfigField::Output, UiCommand::OpenOutput)
            } else {
                MouseAct::Nothing
            }
        },
    }
}

fn setting_act(app: &App, field: ConfigField, kind: MouseKind) -> (r: MouseAct)
    ensures
        r == setting_act_of(*app, field, kind),
{
    let silent = app.all_sources_silent();
    let audio_enabled = app.audio_bitrate_enabled();
    if (field == ConfigField::AudioCodec && silent) || (field == ConfigField::AudioBitrate && !audio_enabled) {
        return MouseAct::Setting(field, None);
    }
    match kind {
        MouseKind::RightDown | MouseKind::ScrollUp => MouseAct::Setting(field, Some(KeyInput::plain(KeyCode::Left))),
        MouseKind::ScrollDown => MouseAct::Setting(field, Some(KeyInput::plain(KeyCode::Right))),
        MouseKind::LeftDown => {
            let key = if field == ConfigField::RateValue && app.draft.rate_control_mode
                == RateControlMode::Bitrate {
                KeyInput::plain(KeyCode::Enter)
            } else if field == ConfigField::AudioBitrate && audio_enabled {
                KeyInput::plain(KeyCode::Enter)
            } else {
                KeyInput::plain(KeyCode::Right)
            };
            MouseAct::Setting(field, Some(key))
        },
        _ => MouseAct::Setting(field, None),
    }
}

fn settings_act(app: &App, event: MouseInput, area: Rect) -> (r: MouseAct)
    ensures
        r == settings_act_of(*app, event, area),
{
    let regions = screen_regions(area);
    let c = event.column;
    let r = event.row;
    let button = if event.kind == MouseKind::LeftDown {
        let buttons = card_buttons(regions.card, app.screen);
        button_at(&buttons, c, r)
    } else {
        None
    };
    match button {
        Some(code) => if code == KeyCode::Enter {
            MouseAct::Advance
        } else {
            MouseAct::KeyQuietly(KeyInput::plain(code))
        },
        None => match setting_at(regions.card, c, r) {
            Some(i) => setting_act(app, field_at(i), event.kind),
            None => MouseAct::Nothing,
        },
    }
}

fn card_act(app: &App, event: MouseInput, area: Rect) -> (r: MouseAct)
    ensures
        r == card_act_of(*app, event, area),
{
    let regions = screen_regions(area);
    let card = card_rect(regions.card, app.screen);
    let c = event.column;
    let r = event.row;
    if contains(card_viewport(app.screen, card), c, r) {
        if app.screen == Screen::Confirm && event.kind == MouseKind::ScrollUp {
            MouseAct::ReviewUp
        } else if app.screen == Screen::Confirm && event.kind == MouseKind::ScrollDown {
            MouseAct::ReviewDown
        } else if app.screen == Screen::Running && event.kind == MouseKind::ScrollUp {
            MouseAct::ProgressUp
        } else if app.screen == Screen::Running && event.kind == MouseKind::ScrollDown {
            MouseAct::ProgressDown
        } else {
            MouseAct::Nothing
        }
    } else if event.kind != MouseKind::LeftDown {
        MouseAct::Nothing
    } else {
        let buttons = card_buttons(regions.card, app.screen);
        match button_at(&buttons, c, r) {
            Some(code) => MouseAct::Key(KeyInput::plain(code)),
            None => MouseAct::Nothing,
        }
    }
}

/// What a mouse event comes to.
pub fn mouse_act(app: &App, event: MouseInput, area: Rect) -> (r: MouseAct)
    requires
        rect_ok(area),
    ensures
        r == mouse_act_of(*app, event, area),
{
    match &app.picker {
        Some(p) => picker_act(p, event, area),
        None => {
            if app.help_visible {
                if event.kind == MouseKind::LeftDown || event.kind == MouseKind::RightDown || event.kind
                    == MouseKind::MiddleDown {
                    MouseAct::Key(KeyInput::plain(KeyCode::Esc))
                } else {
                    MouseAct::Nothing
                }
            } else if app.cancel_confirmation || app.numeric_edit.is_some() {
                popup_act(app, event, area)
            } else {
                let chip = if event.kind == MouseKind::LeftDown {
                    chip_hit(app, event.column, event.row, area)
                } else {
                    None
                };
                match chip {
                    Some(key) => MouseAct::Key(chip_key(key)),
                    None => match app.screen {
                        Screen::Folders => folders_act(app, event, area),
                        Screen::Settings => settings_act(app, event, area),
                        _ => card_act(app, event, area),
                    },
                }
            }
        },
    }
}

// ------------------------------------------------------------ doing it

/// The state once the forward button has the keyboard's focus.
pub open spec fn pressed(app: App) -> App {
    App { button_focus: Some(NavigationButton::Advance), ..app }
}

/// The state once the keyboard's focus is on `field`'s row.
pub open spec fn focused_on(app: App, field: ConfigField) -> App {
    App { focus: field, button_focus: None, ..app }
}

/// The state with `p` as its picker.
pub open spec fn with_picker(app: App, p: Picker) -> App {
    App { picker: Some(p), ..app }
}

/// `q` and `r` are what doing `act` to `app` gives, for the mouse event
/// `event` at `now_ms`.
pub open spec fn applies(app: App, q: App, act: MouseAct, event: MouseInput, now_ms: u64, r: UiCommand) -> bool {
    match act {
        MouseAct::Nothing => q == app && r == UiCommand::Continue,
        MouseAct::Key(key) => app.key_step(q, key, r),
        MouseAct::KeyQuietly(key) => r == UiCommand::Continue && exists|answer: UiCommand|
            app.key_step(q, key, answer),
        MouseAct::Advance => r == UiCommand::Continue && exists|answer: UiCommand|
            pressed(app).key_step(q, key_of(KeyCode::Enter), answer),
        MouseAct::OpenRow(field, command) => q == focused_on(app, field) && r == command,
        MouseAct::Setting(field, key) => match key {
            Some(k) => focused_on(app, field).key_step(q, k, r),
            None => q == focused_on(app, field) && r == UiCommand::Continue,
        },
        MouseAct::ReviewUp => q == App { review_scroll: sat_sub16(app.review_scroll, 3), ..app } && r
            == UiCommand::Continue,
        MouseAct::ReviewDown => q == App { review_scroll: sat_add16(app.review_scroll, 3), ..app } && r
            == UiCommand::Continue,
        MouseAct::ProgressUp => q == app.progress_up(3) && r == UiCommand::Continue,
        MouseAct::ProgressDown => q == app.progress_down(3) && r == UiCommand::Continue,
        MouseAct::FocusName => r == UiCommand::Continue && match app.picker {
            Some(p) => q == with_picker(
                app,
                if p.mode == PickerMode::OutputFile {
                    Picker { editing_name: true, ..p }
                } else {
                    p
                },
            ),
            None => q == app,
        },
        MouseAct::PickerKey(key) => r == UiCommand::Continue && match app.picker {
            Some(p) => exists|p2: Picker, answer: PickerAction|
                p.key_step(p2, key, answer) && q == with_picker(app, p2),
            None => q == app,
        },
        MouseAct::PickerPrimary => r == UiCommand::Continue && match app.picker {
            Some(p) => exists|p2: Picker, answer: PickerAction|
                p.key_step(p2, key_of(KeyCode::Char('s')), answer) && with_picker(app, p2).closes_picker(
                    q,
                    answer,
                ),
            None => q == app,
        },
        MouseAct::PickerList(list) => r == UiCommand::Continue && match app.picker {
            Some(p) => exists|p2: Picker, answer: PickerAction|
                p.mouse_step(p2, event, list, now_ms, answer) && if answer is Continue {
                    q == with_picker(app, p2)
                } else {
                    with_picker(app, p2).closes_picker(q, answer)
                },
            None => q == app,
        },
        MouseAct::PickerScroll(list) => r == UiCommand::Continue && match app.picker {
            Some(p) => exists|p2: Picker, answer: PickerAction|
                p.mouse_step(p2, event, list, now_ms, answer) && q == with_picker(app, p2),
            None => q == app,
        },
    }
}

fn apply_advance(app: &mut App) -> (r: UiCommand)
    ensures
        r == UiCommand::Continue,
        exists|answer: UiCommand| pressed(*old(app)).key_step(*final(app), key_of(KeyCode::Enter), answer),
{
    app.button_focus = Some(NavigationButton::Advance);
    let ghost pressed = *app;
    assert(pressed == App { button_focus: Some(NavigationButton::Advance), ..*old(app) });
    let answer = app.handle_key(KeyInput::plain(KeyCode::Enter));
    assert(pressed.key_step(*app, key_of(KeyCode::Enter), answer));
    UiCommand::Continue
}

fn apply_setting(app: &mut App, field: ConfigField, key: Option<KeyInput>) -> (r: UiCommand)
    ensures
        match key {
            Some(k) => focused_on(*old(app), field).key_step(*final(app), k, r),
            None => *final(app) == focused_on(*old(app), field) && r == UiCommand::Continue,
        },
{
    app.focus = field;
    app.button_focus = None;
    match key {
        Some(k) => app.handle_key(k),
        None => UiCommand::Continue,
    }
}

fn apply_focus_name(app: &mut App)
    ensures
        match old(app).picker {
            Some(p) => *final(app) == with_picker(
                *old(app),
                if p.mode == PickerMode::OutputFile {
                    Picker { editing_name: true, ..p }
                } else {
                    p
                },
            ),
            None => *final(app) == *old(app),
        },
{
    match app.picker.take() {
        Some(mut p) => {
            p.focus_name();
            app.picker = Some(p);
        },
        None => {},
    }
}

fn apply_picker_key(app: &mut App, key: KeyInput)
    ensures
        match old(app).picker {
            Some(p) => exists|p2: Picker, answer: PickerAction|
                p.key_step(p2, key, answer) && *final(app) == with_picker(*old(app), p2),
            None => *final(app) == *old(app),
        },
{
    match app.picker.take() {
        Some(mut p) => {
            let ghost before = p;
            let answer = p.handle_key(key);
            app.picker = Some(p);
            assert(before.key_step(p, key, answer) && *app == with_picker(*old(app), p));
        },
        None => {},
    }
}

fn apply_primary(app: &mut App)
    ensures
        match old(app).picker {
            Some(p) => exists|p2: Picker, answer: PickerAction|
                p.key_step(p2, key_of(KeyCode::Char('s')), answer) && with_picker(*old(app), p2).closes_picker(
                    *final(app),
                    answer,
                ),
            None => *final(app) == *old(app),
        },
{
    match app.picker.take() {
        Some(mut p) => {
            let ghost before = p;
            let answer = p.handle_key(KeyInput::plain(KeyCode::Char('s')));
            app.picker = Some(p);
            let ghost moved = *app;
            assert(moved == with_picker(*old(app), p));
            let ghost given = answer;
            app.close_picker(answer);
            assert(before.key_step(p, key_of(KeyCode::Char('s')), given) && moved.closes_picker(*app, given));
        },
        None => {},
    }
}

fn apply_list(app: &mut App, event: MouseInput, list: Rect, now_ms: u64)
    ensures
        match old(app).picker {
            Some(p) => exists|p2: Picker, answer: PickerAction|
                p.mouse_step(p2, event, list, now_ms, answer) && if answer is Continue {
                    *final(app) == with_picker(*old(app), p2)
                } else {
                    with_picker(*old(app), p2).closes_picker(*final(app), answer)
                },
            None => *final(app) == *old(app),
        },
{
    match app.picker.take() {
        Some(mut p) => {
            let ghost before = p;
            let answer = p.handle_mouse(event, list, now_ms);
            app.picker = Some(p);
            let ghost moved = *app;
            assert(moved == with_picker(*old(app), p));
            let ghost given = answer;
            match answer {
                PickerAction::Continue => {},
                other => {
                    app.close_picker(other);
                },
            }
            assert(before.mouse_step(p, event, list, now_ms, given));
        },
        None => {},
    }
}

fn apply_scroll(app: &mut App, event: MouseInput, list: Rect, now_ms: u64)
    ensures
        match old(app).picker {
            Some(p) => exists|p2: Picker, answer: PickerAction|
                p.mouse_step(p2, event, list, now_ms, answer) && *final(app) == with_picker(*old(app), p2),
            None => *final(app) == *old(app),
        },
{
    match app.picker.take() {
        Some(mut p) => {
            let ghost before = p;
            let answer = p.handle_mouse(event, list, now_ms);
            app.picker = Some(p);
            assert(before.mouse_step(p, event, list, now_ms, answer) && *app == with_picker(*old(app), p));
        },
        None => {},
    }
}

/// Does `act`.
pub fn apply(app: &mut App, act: MouseAct, event: MouseInput, now_ms: u64) -> (r: UiCommand)
    ensures
        applies(*old(app), *final(app), act, event, now_ms, r),
{
    match act {
        MouseAct::Nothing => UiCommand::Continue,
        MouseAct::Key(key) => app.handle_key(key),
        MouseAct::KeyQuietly(key) => {
            let answer = app.handle_key(key);
            assert(old(app).key_step(*app, key, answer));
            UiCommand::Continue
        },
        MouseAct::Advance => apply_advance(app),
        MouseAct::OpenRow(field, command) => {
            app.focus = field;
            app.button_focus = None;
            command
        },
        MouseAct::Setting(field, key) => apply_setting(app, field, key),
        MouseAct::ReviewUp => {
            app.scroll_review_up(3);
            UiCommand::Continue
        },
        MouseAct::ReviewDown => {
            app.review_scroll = app.review_scroll.saturating_add(3);
            UiCommand::Continue
        },
        MouseAct::ProgressUp => {
            app.scroll_progress_up(3);
            UiCommand::Continue
        },
        MouseAct::ProgressDown => {
            app.scroll_progress_down(3);
            UiCommand::Continue
        },
        MouseAct::FocusName => {
            apply_focus_name(app);
            UiCommand::Continue
        },
        MouseAct::PickerKey(key) => {
            apply_picker_key(app, key);
            UiCommand::Continue
        },
        MouseAct::PickerPrimary => {
            apply_primary(app);
            UiCommand::Continue
        },
        MouseAct::PickerList(list) => {
            apply_list(app, event, list, now_ms);
            UiCommand::Continue
        },
        MouseAct::PickerScroll(list) => {
            apply_scroll(app, event, list, now_ms);
            UiCommand::Continue
        },
    }
}

impl App {
    /// One mouse event over a screen of `area`, at `now_ms`: the pointer's
    /// target is found first, a move does nothing more, anything else does
    /// what it comes to, and the target is found again on the new state.
    pub open spec fn mouse_step(self, q: App, event: MouseInput, area: Rect, now_ms: u64, r: UiCommand) -> bool {
        let pointed = App { hover: hover_of(self, event.column, event.row, area), ..self };
        if event.kind == MouseKind::Moved {
            q == pointed && r == UiCommand::Continue
        } else {
            exists|mid: App|
                applies(pointed, mid, mouse_act_of(pointed, event, area), event, now_ms, r) && q == (App {
                    hover: hover_of(mid, event.column, event.row, area),
                    ..mid
                })
        }
    }

    /// Handles a mouse event over a screen of `area`; `now_ms` times double clicks.
    pub fn handle_mouse(&mut self, event: MouseInput, area: Rect, now_ms: u64) -> (r: UiCommand)
        requires
            rect_ok(area),
        ensures
            old(self).mouse_step(*final(self), event, area, now_ms, r),
    {
        self.hover = hover_target(self, event.column, event.row, area);
        if event.kind == MouseKind::Moved {
            return UiCommand::Continue;
        }
        let ghost pointed = *self;
        let act = mouse_act(self, event, area);
        let r = apply(self, act, event, now_ms);
        let ghost mid = *self;
        self.hover = hover_target(self, event.column, event.row, area);
        assert(applies(pointed, mid, mouse_act_of(pointed, event, area), event, now_ms, r));
        r
    }
}

/// Moving the pointer only moves the highlight: everything but the hover
/// target stays as it was, and nothing is asked of the host.
pub proof fn lemma_moving_only_points(app: App, q: App, event: MouseInput, area: Rect, now_ms: u64, r: UiCommand)
    requires
        event.kind == MouseKind::Moved,
        app.mouse_step(q, event, area, now_ms, r),
    ensures
        q == (App { hover: q.hover, ..app }),
        q.hover == hover_of(app, event.column, event.row, area),
        r == UiCommand::Continue,
{
}

} // verus!
