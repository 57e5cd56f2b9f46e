//! The in-terminal file picker: a modal card with the folder on top, a listing
//! whose focused row is highlighted, and one row of buttons.
//!
//! The picker decides; the host reads the disk. A key or click that needs a
//! directory read leaves a [`Navigation`] request behind, and the host answers
//! it with [`Picker::enter`] or [`Picker::reload`] and the listing it read.
use vstd::prelude::*;
use crate::input::{KeyCode, KeyInput, MouseInput, MouseKind, Rect, contains, cell_in};
use crate::paths::{parent, join, same_path, std_path_parent, std_path_join, std_path_eq};
use crate::text::{
    trim, trimmed, chars_of, string_from_range, push_char, push_str, push_decimal, decimal,
    same_text, owned, std_to_lowercase, lowercase, text_less, text_less_chars, is_ascii_graphic,
    is_ascii_graphic_char, lemma_text_less_irreflexive, lemma_text_less_transitive,
};

verus! {

/// What the picker asks for.
#[derive(Debug, Clone, Copy, PartialEq, Eq, Structural)]
pub enum PickerMode {
    /// A folder of sources, for callers that pick a folder directly.
    InputFolder,
    /// Any number of media files, chosen with Space or one at a time.
    InputFiles,
    /// One destination file: a folder plus a file name.
    OutputFile,
    /// One destination folder for a queue.
    OutputFolder,
}

/// The outcome of one key press or click.
#[derive(Debug, Clone, PartialEq, Eq)]
pub enum PickerAction {
    /// Consumed the input; no decision yet.
    Continue,
    /// The user chose these paths and the picker closed.
    Done(Vec<String>),
    /// The user dismissed the picker; no selection was made.
    Cancel,
}

/// One directory entry as the picker shows it.
#[derive(Debug, Clone, PartialEq, Eq)]
pub struct Entry {
    pub name: String,
    pub path: String,
    pub is_dir: bool,
    pub size: u64,
    pub hidden: bool,
}

/// The rows of one listing. A parent row leads the entries so that going up
/// stays available even in an empty directory.
#[derive(Debug, Clone, PartialEq, Eq)]
pub enum Row {
    Parent,
    Entry(Entry),
}

/// One directory entry as the host read it: its name, its path, and what its
/// metadata says (links followed).
#[derive(Debug, Clone, PartialEq, Eq)]
pub struct RawEntry {
    pub name: String,
    pub path: String,
    pub is_dir: bool,
    pub size: u64,
}

/// A directory the picker wants read before the next key.
#[derive(Debug, Clone, PartialEq, Eq)]
pub enum Navigation {
    /// Read the current directory again.
    Reload,
    /// Move to this directory, if it is one.
    Open(String),
    /// Move to the user's home directory, if there is one.
    Home,
}

#[derive(Debug)]
pub struct Picker {
    pub mode: PickerMode,
    /// Input-file mode: `true` adds the picked files to the current selection
    /// instead of replacing it.
    pub append: bool,
    pub dir: String,
    pub rows: Vec<Row>,
    pub cursor: usize,
    /// Extra scroll offset on top of the cursor-visible window, moved by the
    /// wheel; [`list_window`] clamps it so the cursor stays in view.
    pub scroll: usize,
    /// Input-file mode: the files marked with Space.
    pub selected: Vec<String>,
    /// Output-file mode: the file name being edited.
    pub filename: String,
    /// Output-file mode: whether the file name field has the keyboard.
    pub editing_name: bool,
    pub show_hidden: bool,
    /// A message that is not a selection, such as an unreadable directory.
    pub error: Option<String>,
    /// The row and time in milliseconds of the previous left click, for
    /// double-click detection.
    pub last_click: Option<(usize, u64)>,
    /// A directory read the host owes the picker.
    pub navigation: Option<Navigation>,
}

/// Two clicks on one row this close together, in milliseconds, are a double click.
pub const DOUBLE_CLICK_MS: u64 = 400;

pub const NO_FILES_MESSAGE: &'static str = "No files selected — use Space or click to pick files.";

pub const NO_NAME_MESSAGE: &'static str = "Enter a file name first.";

pub const UNREADABLE_PREFIX: &'static str = "Cannot read this directory: ";

// ------------------------------------------------------------------ views

/// An entry as plain values: name, path, folder or not, size, hidden or not.
pub type EntryView = (Seq<char>, Seq<char>, bool, u64, bool);

impl View for Entry {
    type V = EntryView;

    open spec fn view(&self) -> EntryView {
        (self.name@, self.path@, self.is_dir, self.size, self.hidden)
    }
}

/// A row as a plain value: `None` for the parent row.
pub open spec fn row_view(row: Row) -> Option<EntryView> {
    match row {
        Row::Parent => None,
        Row::Entry(e) => Some(e@),
    }
}

pub open spec fn rows_view(rows: Seq<Row>) -> Seq<Option<EntryView>> {
    rows.map_values(|r: Row| row_view(r))
}

pub open spec fn views(v: Seq<String>) -> Seq<Seq<char>> {
    v.map_values(|s: String| s@)
}

/// A name that starts with a dot is hidden.
pub open spec fn hidden_name(name: Seq<char>) -> bool {
    name.len() > 0 && name[0] == '.'
}

pub open spec fn raw_view(raw: RawEntry) -> EntryView {
    (raw.name@, raw.path@, raw.is_dir, raw.size, hidden_name(raw.name@))
}

/// Whether a listing shows this entry: hidden entries only on request, and only
/// folders when a folder of sources is being picked.
pub open spec fn shown(e: EntryView, show_hidden: bool, mode: PickerMode) -> bool {
    &&& !(e.4 && !show_hidden)
    &&& !(mode == PickerMode::InputFolder && !e.2)
}

/// The entries a listing shows, in the order they were read.
pub open spec fn visible(raw: Seq<RawEntry>, show_hidden: bool, mode: PickerMode) -> Seq<EntryView>
    decreases raw.len(),
{
    if raw.len() == 0 {
        Seq::empty()
    } else {
        let rest = visible(raw.drop_last(), show_hidden, mode);
        let e = raw_view(raw.last());
        if shown(e, show_hidden, mode) {
            rest.push(e)
        } else {
            rest
        }
    }
}

/// The listing order: folders first, then names compared case-insensitively.
pub open spec fn goes_before(a: EntryView, b: EntryView) -> bool {
    ||| (a.2 && !b.2)
    ||| (a.2 == b.2 && text_less(std_to_lowercase(a.0), std_to_lowercase(b.0)))
}

/// `x` placed after every entry of `t` that it does not go before.
pub open spec fn insert_sorted(t: Seq<EntryView>, x: EntryView) -> Seq<EntryView>
    decreases t.len(),
{
    if t.len() == 0 {
        seq![x]
    } else if goes_before(x, t[0]) {
        seq![x] + t
    } else {
        seq![t[0]] + insert_sorted(t.drop_first(), x)
    }
}

/// The entries in listing order; entries that compare equal keep the order in
/// which they were read.
pub open spec fn sorted_entries(s: Seq<EntryView>) -> Seq<EntryView>
    decreases s.len(),
{
    if s.len() == 0 {
        Seq::empty()
    } else {
        insert_sorted(sorted_entries(s.drop_last()), s.last())
    }
}

/// Enter on a file while picking several keeps what was already picked: the
/// picker closes with every selected path, in order, followed by the file
/// under the cursor unless it was among them, and the picker itself is left
/// as it was.
pub proof fn lemma_enter_keeps_the_selection(p: Picker, q: Picker, r: PickerAction)
    requires
        p.activates(q, r),
        p.mode == PickerMode::InputFiles,
        p.cursor < p.rows.len(),
        p.rows[p.cursor as int] matches Row::Entry(e) && !e.is_dir,
    ensures
        q == p,
        r matches PickerAction::Done(v) && {
            let before = views(p.selected@);
            let after = views(v@);
            let path = (p.rows[p.cursor as int]->0).path@;
            &&& after.take(before.len() as int) == before
            &&& after.contains(path)
            &&& after.len() == before.len() + (if before.contains(path) { 0int } else { 1int })
        },
{
    let e = p.rows[p.cursor as int]->0;
    let before = views(p.selected@);
    match r {
        PickerAction::Done(v) => {
            let after = views(v@);
            if before.contains(e.path@) {
                assert(after == before);
                assert(after.take(before.len() as int) =~= before);
            } else {
                assert(after == before.push(e.path@));
                assert(after.take(before.len() as int) =~= before);
                assert(after[before.len() as int] == e.path@);
            }
        },
        _ => {},
    }
}

/// Whether no entry of `s` goes before one listed ahead of it.
pub open spec fn in_listing_order(s: Seq<EntryView>) -> bool {
    forall|i: int, j: int| 0 <= i < j < s.len() ==> !goes_before(#[trigger] s[j], #[trigger] s[i])
}

proof fn lemma_goes_before_order(a: EntryView, b: EntryView, c: EntryView)
    ensures
        !goes_before(a, a),
        goes_before(a, b) && goes_before(b, c) ==> goes_before(a, c),
{
    lemma_text_less_irreflexive(std_to_lowercase(a.0));
    if goes_before(a, b) && goes_before(b, c) && a.2 == b.2 && b.2 == c.2 {
        lemma_text_less_transitive(std_to_lowercase(a.0), std_to_lowercase(b.0), std_to_lowercase(c.0));
    }
}

proof fn lemma_insert_sorted(t: Seq<EntryView>, x: EntryView)
    requires
        in_listing_order(t),
    ensures
        in_listing_order(insert_sorted(t, x)),
        insert_sorted(t, x).to_multiset() =~= t.to_multiset().insert(x),
        forall|k: int|
            0 <= k < insert_sorted(t, x).len() ==> #[trigger] insert_sorted(t, x)[k] == x
                || t.contains(insert_sorted(t, x)[k]),
    decreases t.len(),
{
    broadcast use vstd::seq_lib::group_to_multiset_ensures, vstd::multiset::group_multiset_axioms;

    let r = insert_sorted(t, x);
    if t.len() == 0 {
        assert(r =~= Seq::<EntryView>::empty().push(x));
    } else if goes_before(x, t[0]) {
        assert(r =~= seq![x] + t);
        vstd::seq_lib::lemma_seq_union_to_multiset_commutative(seq![x], t);
        assert(t + seq![x] =~= t.push(x));
        assert forall|i: int, j: int| 0 <= i < j < r.len() implies !goes_before(
            #[trigger] r[j],
            #[trigger] r[i],
        ) by {
            lemma_goes_before_order(r[j], x, t[0]);
            lemma_goes_before_order(t[0], t[0], t[0]);
            if i > 0 {
                assert(r[i] == t[i - 1] && r[j] == t[j - 1]);
            } else {
                assert(r[j] == t[j - 1]);
                if j - 1 > 0 {
                    assert(!goes_before(t[j - 1], t[0]));
                }
            }
        }
        assert forall|k: int| 0 <= k < r.len() implies #[trigger] r[k] == x || t.contains(r[k]) by {
            if k > 0 {
                assert(r[k] == t[k - 1]);
            }
        }
    } else {
        let rest = t.drop_first();
        assert forall|i: int, j: int| 0 <= i < j < rest.len() implies !goes_before(
            #[trigger] rest[j],
            #[trigger] rest[i],
        ) by {
            assert(rest[i] == t[i + 1] && rest[j] == t[j + 1]);
        }
        lemma_insert_sorted(rest, x);
        let r2 = insert_sorted(rest, x);
        assert(r =~= seq![t[0]] + r2);
        vstd::seq_lib::lemma_seq_union_to_multiset_commutative(seq![t[0]], r2);
        assert(r2 + seq![t[0]] =~= r2.push(t[0]));
        vstd::seq_lib::lemma_seq_union_to_multiset_commutative(seq![t[0]], rest);
        assert(rest + seq![t[0]] =~= rest.push(t[0]));
        assert(t =~= seq![t[0]] + rest);
        assert forall|k: int| 0 <= k < r.len() implies #[trigger] r[k] == x || t.contains(r[k]) by {
            if k == 0 {
                assert(t[0] == r[0]);
            } else {
                assert(r[k] == r2[k - 1]);
                if r2[k - 1] != x {
                    let m = choose|m: int| 0 <= m < rest.len() && rest[m] == r2[k - 1];
                    assert(t[m + 1] == r[k]);
                }
            }
        }
        assert forall|i: int, j: int| 0 <= i < j < r.len() implies !goes_before(
            #[trigger] r[j],
            #[trigger] r[i],
        ) by {
            if i > 0 {
                assert(r[i] == r2[i - 1] && r[j] == r2[j - 1]);
            } else {
                assert(r[j] == r2[j - 1]);
                if r2[j - 1] != x {
                    let m = choose|m: int| 0 <= m < rest.len() && rest[m] == r2[j - 1];
                    assert(t[m + 1] == r[j]);
                }
            }
        }
    }
}

proof fn lemma_sorted_entries(s: Seq<EntryView>)
    ensures
        in_listing_order(sorted_entries(s)),
        sorted_entries(s).to_multiset() =~= s.to_multiset(),
    decreases s.len(),
{
    broadcast use vstd::seq_lib::group_to_multiset_ensures;

    if s.len() > 0 {
        lemma_sorted_entries(s.drop_last());
        lemma_insert_sorted(sorted_entries(s.drop_last()), s.last());
        assert(s.drop_last().push(s.last()) =~= s);
    }
}

proof fn lemma_visible_shown(raw: Seq<RawEntry>, show_hidden: bool, mode: PickerMode)
    ensures
        forall|i: int|
            0 <= i < visible(raw, show_hidden, mode).len() ==> shown(
                #[trigger] visible(raw, show_hidden, mode)[i],
                show_hidden,
                mode,
            ),
    decreases raw.len(),
{
    if raw.len() > 0 {
        lemma_visible_shown(raw.drop_last(), show_hidden, mode);
        let rest = visible(raw.drop_last(), show_hidden, mode);
        let v = visible(raw, show_hidden, mode);
        assert forall|i: int| 0 <= i < v.len() implies shown(#[trigger] v[i], show_hidden, mode) by {
            if i < rest.len() {
                assert(v[i] == rest[i]);
            }
        }
    }
}

/// A listing shows exactly the visible entries, each once, in listing order:
/// it is a permutation of them in which no entry goes before one listed
/// ahead of it, so every folder comes before every file and, within each
/// group, the lower-cased names never decrease.
pub proof fn lemma_listing_is_sorted_permutation(
    raw: Seq<RawEntry>,
    show_hidden: bool,
    mode: PickerMode,
)
    ensures
        ({
            let v = visible(raw, show_hidden, mode);
            let e = sorted_entries(v);
            &&& e.to_multiset() == v.to_multiset()
            &&& in_listing_order(e)
            &&& forall|i: int| 0 <= i < e.len() ==> shown(#[trigger] e[i], show_hidden, mode)
            &&& forall|i: int, j: int| 0 <= i < j < e.len() && (#[trigger] e[j]).2 ==> (#[trigger] e[i]).2
            &&& forall|i: int, j: int|
                0 <= i < j < e.len() && (#[trigger] e[i]).2 == (#[trigger] e[j]).2 ==> !text_less(
                    std_to_lowercase(e[j].0),
                    std_to_lowercase(e[i].0),
                )
        }),
{
    broadcast use vstd::seq_lib::group_to_multiset_ensures;

    let v = visible(raw, show_hidden, mode);
    let e = sorted_entries(v);
    lemma_sorted_entries(v);
    lemma_visible_shown(raw, show_hidden, mode);
    assert forall|i: int| 0 <= i < e.len() implies shown(#[trigger] e[i], show_hidden, mode) by {
        assert(e.to_multiset().count(e[i]) > 0);
        assert(v.contains(e[i]));
        let k = choose|k: int| 0 <= k < v.len() && v[k] == e[i];
        assert(shown(v[k], show_hidden, mode));
    }
}

/// The rows of a listing of `dir`: the parent row when `dir` has a parent,
/// then the shown entries in listing order.
pub open spec fn listing_rows(
    dir: Seq<char>,
    raw: Seq<RawEntry>,
    show_hidden: bool,
    mode: PickerMode,
) -> Seq<Option<EntryView>> {
    let entries = sorted_entries(visible(raw, show_hidden, mode)).map_values(
        |e: EntryView| Some(e),
    );
    if std_path_parent(dir) is Some {
        seq![None::<EntryView>] + entries
    } else {
        entries
    }
}

// ------------------------------------------------------------------ steps

/// The first position of `x` in `s`, if any.
pub open spec fn position_of(s: Seq<Seq<char>>, x: Seq<char>) -> Option<int>
    decreases s.len(),
{
    if s.len() == 0 {
        None
    } else if s[0] == x {
        Some(0)
    } else {
        match position_of(s.drop_first(), x) {
            Some(i) => Some(i + 1),
            None => None,
        }
    }
}

/// `x` added at the end unless it is already there.
pub open spec fn with_added(s: Seq<Seq<char>>, x: Seq<char>) -> Seq<Seq<char>> {
    if s.contains(x) {
        s
    } else {
        s.push(x)
    }
}

/// `x` removed where it first occurs, or added at the end.
pub open spec fn toggled(s: Seq<Seq<char>>, x: Seq<char>) -> Seq<Seq<char>> {
    match position_of(s, x) {
        Some(i) => s.remove(i),
        None => s.push(x),
    }
}

/// No path occurs twice.
pub open spec fn no_duplicates(s: Seq<Seq<char>>) -> bool {
    forall|i: int, j: int| 0 <= i < j < s.len() ==> s[i] != s[j]
}

pub open spec fn sat_sub(a: usize, b: usize) -> usize {
    if a >= b {
        (a - b) as usize
    } else {
        0
    }
}

pub open spec fn sat_add(a: usize, b: usize) -> usize {
    if a + b > usize::MAX {
        usize::MAX
    } else {
        (a + b) as usize
    }
}

/// The first visible row of a list `rows` long in `height` rows, given the
/// wheel offset `scroll`: the offset is kept only while the cursor stays in view.
pub open spec fn list_window_of(scroll: usize, cursor: usize, rows: usize, height: usize) -> usize {
    if height == 0 || rows == 0 {
        0
    } else {
        let last = (rows - 1) as usize;
        let start = if scroll < last { scroll } else { last };
        let moved = if cursor < start {
            cursor
        } else if cursor >= sat_add(start, height) {
            sat_sub(sat_add(cursor, 1), height)
        } else {
            start
        };
        if moved < last { moved } else { last }
    }
}

impl Picker {
    /// The cursor moved by `delta` rows, wrapping at both ends.
    pub open spec fn nudged(self, delta: int) -> Picker {
        if self.rows.len() == 0 {
            self
        } else {
            Picker { cursor: ((self.cursor + delta) % (self.rows.len() as int)) as usize, ..self }
        }
    }

    /// `q` is this picker asking to move to `target`, unless it is already there.
    pub open spec fn opens(self, q: Picker, target: Seq<char>) -> bool {
        if std_path_eq(self.dir@, target) {
            q == self
        } else {
            &&& q == Picker { navigation: q.navigation, ..self }
            &&& (q.navigation matches Some(Navigation::Open(t)) && t@ == target)
        }
    }

    /// `q` is this picker asking for the parent directory.
    pub open spec fn goes_up(self, q: Picker) -> bool {
        match std_path_parent(self.dir@) {
            None => q == self,
            Some(up) => self.opens(q, up),
        }
    }

    /// Space: the file under the cursor enters or leaves the selection.
    pub open spec fn toggles(self, q: Picker) -> bool {
        if self.mode != PickerMode::InputFiles || self.cursor >= self.rows.len() {
            q == self
        } else {
            match self.rows[self.cursor as int] {
                Row::Parent => q == self,
                Row::Entry(e) => if e.is_dir {
                    q == self
                } else {
                    &&& q == Picker { selected: q.selected, ..self }
                    &&& views(q.selected@) == toggled(views(self.selected@), e.path@)
                },
            }
        }
    }

    /// Enter on the focused row: move into a folder, or take the file.
    pub open spec fn activates(self, q: Picker, r: PickerAction) -> bool {
        if self.cursor >= self.rows.len() {
            q == self && r is Continue
        } else {
            match self.rows[self.cursor as int] {
                Row::Parent => self.goes_up(q) && r is Continue,
                Row::Entry(e) => if e.is_dir {
                    self.opens(q, e.path@) && r is Continue
                } else {
                    &&& q == self
                    &&& match self.mode {
                        PickerMode::InputFiles => (r matches PickerAction::Done(v) && views(v@)
                            == with_added(views(self.selected@), e.path@)),
                        PickerMode::OutputFile => (r matches PickerAction::Done(v) && views(v@)
                            == seq![e.path@]),
                        _ => r is Continue,
                    }
                },
            }
        }
    }

    /// The primary action, the mode's whole point.
    pub open spec fn confirms(self, q: Picker, r: PickerAction) -> bool {
        match self.mode {
            PickerMode::InputFiles => if self.selected.len() == 0 {
                &&& q == Picker { error: q.error, ..self }
                &&& (q.error matches Some(m) && m@ == NO_FILES_MESSAGE@)
                &&& r is Continue
            } else {
                &&& q == Picker { selected: q.selected, ..self }
                &&& q.selected.len() == 0
                &&& (r matches PickerAction::Done(v) && views(v@) == views(self.selected@))
            },
            PickerMode::OutputFile => {
                let name = trim(self.filename@);
                if name.len() == 0 {
                    &&& q == Picker { error: q.error, editing_name: true, ..self }
                    &&& (q.error matches Some(m) && m@ == NO_NAME_MESSAGE@)
                    &&& r is Continue
                } else {
                    &&& q == self
                    &&& (r matches PickerAction::Done(v) && views(v@) == seq![
                        std_path_join(self.dir@, name),
                    ])
                }
            },
            _ => {
                &&& q == self
                &&& (r matches PickerAction::Done(v) && views(v@) == seq![self.dir@])
            },
        }
    }

    /// A key while the file name field has the keyboard.
    pub open spec fn name_key(self, q: Picker, key: KeyInput, r: PickerAction) -> bool {
        match key.code {
            KeyCode::Char(c) => if is_ascii_graphic(c) || c == ' ' {
                &&& q == Picker { filename: q.filename, ..self }
                &&& q.filename@ == self.filename@.push(c)
                &&& r is Continue
            } else {
                q == self && r is Continue
            },
            KeyCode::Backspace => {
                &&& q == Picker { filename: q.filename, ..self }
                &&& q.filename@ == (if self.filename@.len() == 0 {
                    self.filename@
                } else {
                    self.filename@.drop_last()
                })
                &&& r is Continue
            },
            KeyCode::Esc => q == self && r is Cancel,
            KeyCode::Enter => self.confirms(q, r),
            KeyCode::Tab => q == Picker { editing_name: false, ..self } && r is Continue,
            _ => q == self && r is Continue,
        }
    }

    /// A key over the listing.
    pub open spec fn list_key(self, q: Picker, key: KeyInput, r: PickerAction) -> bool {
        match key.code {
            KeyCode::Esc => q == self && r is Cancel,
            KeyCode::Up => q == self.nudged(-1) && r is Continue,
            KeyCode::Down => q == self.nudged(1) && r is Continue,
            KeyCode::PageUp => q == self.nudged(-10) && r is Continue,
            KeyCode::PageDown => q == self.nudged(10) && r is Continue,
            KeyCode::Left | KeyCode::Backspace => self.goes_up(q) && r is Continue,
            KeyCode::Right | KeyCode::Enter => self.activates(q, r),
            KeyCode::Home => q == Picker { navigation: Some(Navigation::Home), ..self }
                && r is Continue,
            KeyCode::End => q == self.nudged(self.rows.len() as int) && r is Continue,
            KeyCode::Tab => if self.mode == PickerMode::OutputFile {
                q == Picker { editing_name: true, ..self } && r is Continue
            } else {
                q == self && r is Continue
            },
            KeyCode::Char(c) => if c == 'k' {
                q == self.nudged(-1) && r is Continue
            } else if c == 'j' {
                q == self.nudged(1) && r is Continue
            } else if c == 'h' {
                self.goes_up(q) && r is Continue
            } else if c == 'l' {
                self.activates(q, r)
            } else if c == ' ' {
                self.toggles(q) && r is Continue
            } else if c == 's' {
                self.confirms(q, r)
            } else if c == '.' {
                &&& q == Picker {
                    show_hidden: !self.show_hidden,
                    navigation: Some(Navigation::Reload),
                    ..self
                }
                &&& r is Continue
            } else if c == 'g' {
                q == Picker { navigation: Some(Navigation::Home), ..self } && r is Continue
            } else {
                q == self && r is Continue
            },
            _ => q == self && r is Continue,
        }
    }

    /// One key press, wherever the keyboard is.
    pub open spec fn key_step(self, q: Picker, key: KeyInput, r: PickerAction) -> bool {
        if self.editing_name {
            self.name_key(q, key, r)
        } else {
            self.list_key(q, key, r)
        }
    }

    /// A left click on row `index` of the listing at time `now`.
    pub open spec fn clicks(self, q: Picker, index: usize, now: u64, r: PickerAction) -> bool {
        let double = match self.last_click {
            Some((previous, at)) => previous == index && (if now >= at {
                now - at
            } else {
                0
            }) < DOUBLE_CLICK_MS,
            None => false,
        };
        if double {
            Picker { cursor: index, last_click: None, ..self }.activates(q, r)
        } else {
            let p = Picker { cursor: index, last_click: Some((index, now)), ..self };
            &&& r is Continue
            &&& if self.mode == PickerMode::InputFiles {
                p.toggles(q)
            } else {
                q == p
            }
        }
    }

    /// One mouse event over the listing drawn in `list`, at time `now`.
    pub open spec fn mouse_step(
        self,
        q: Picker,
        event: MouseInput,
        list: Rect,
        now: u64,
        r: PickerAction,
    ) -> bool {
        match event.kind {
            MouseKind::ScrollUp => q == Picker { scroll: sat_sub(self.scroll, 3), ..self }
                && r is Continue,
            MouseKind::ScrollDown => q == Picker { scroll: sat_add(self.scroll, 3), ..self }
                && r is Continue,
            MouseKind::LeftDown => {
                let index = list_window_of(
                    self.scroll,
                    self.cursor,
                    self.rows.len() as usize,
                    list.height as usize,
                ) + (event.row - list.y);
                if !cell_in(list, event.column, event.row) || index >= self.rows.len() {
                    q == self && r is Continue
                } else {
                    self.clicks(q, index as usize, now, r)
                }
            },
            _ => q == self && r is Continue,
        }
    }
}

// ------------------------------------------------------------------ lemmas

proof fn lemma_insert_at(t: Seq<EntryView>, x: EntryView, j: int)
    requires
        0 <= j <= t.len(),
        forall|m: int| 0 <= m < j ==> !goes_before(x, #[trigger] t[m]),
        j < t.len() ==> goes_before(x, t[j]),
    ensures
        insert_sorted(t, x) == t.take(j) + seq![x] + t.skip(j),
    decreases j,
{
    if j == 0 {
        assert(t.take(0) + seq![x] + t.skip(0) =~= seq![x] + t);
    } else {
        let rest = t.drop_first();
        assert forall|m: int| 0 <= m < j - 1 implies !goes_before(x, #[trigger] rest[m]) by {
            assert(rest[m] == t[m + 1]);
        }
        lemma_insert_at(rest, x, j - 1);
        assert(seq![t[0]] + (rest.take(j - 1) + seq![x] + rest.skip(j - 1)) =~= t.take(j) + seq![x]
            + t.skip(j));
    }
}

proof fn lemma_position_found(s: Seq<Seq<char>>, x: Seq<char>, k: int)
    requires
        0 <= k < s.len(),
        s[k] == x,
        forall|m: int| 0 <= m < k ==> #[trigger] s[m] != x,
    ensures
        position_of(s, x) == Some(k),
    decreases k,
{
    if k > 0 {
        let rest = s.drop_first();
        assert forall|m: int| 0 <= m < k - 1 implies #[trigger] rest[m] != x by {
            assert(rest[m] == s[m + 1]);
        }
        lemma_position_found(rest, x, k - 1);
    }
}

proof fn lemma_position_missing(s: Seq<Seq<char>>, x: Seq<char>)
    requires
        forall|m: int| 0 <= m < s.len() ==> #[trigger] s[m] != x,
    ensures
        position_of(s, x) is None,
    decreases s.len(),
{
    if s.len() > 0 {
        let rest = s.drop_first();
        assert forall|m: int| 0 <= m < rest.len() implies #[trigger] rest[m] != x by {
            assert(rest[m] == s[m + 1]);
        }
        lemma_position_missing(rest, x);
    }
}

proof fn lemma_views_push(v: Seq<String>, s: String)
    ensures
        views(v.push(s)) == views(v).push(s@),
{
    assert(views(v.push(s)) =~= views(v).push(s@));
}

proof fn lemma_views_remove(v: Seq<String>, i: int)
    requires
        0 <= i < v.len(),
    ensures
        views(v.remove(i)) == views(v).remove(i),
{
    assert(views(v.remove(i)) =~= views(v).remove(i));
}

proof fn lemma_position_some(s: Seq<Seq<char>>, x: Seq<char>)
    ensures
        match position_of(s, x) {
            Some(i) => 0 <= i < s.len() && s[i] == x && forall|m: int|
                0 <= m < i ==> #[trigger] s[m] != x,
            None => !s.contains(x),
        },
    decreases s.len(),
{
    if s.len() > 0 {
        let rest = s.drop_first();
        lemma_position_some(rest, x);
        match position_of(rest, x) {
            Some(i) => {
                if s[0] != x {
                    assert forall|m: int| 0 <= m < i + 1 implies #[trigger] s[m] != x by {
                        if m > 0 {
                            assert(s[m] == rest[m - 1]);
                        }
                    }
                }
            },
            None => {
                if s[0] != x {
                    assert forall|k: int| 0 <= k < s.len() implies s[k] != x by {
                        if k > 0 {
                            assert(s[k] == rest[k - 1]);
                            assert(!rest.contains(x));
                        }
                    }
                }
            },
        }
    }
}

/// Toggling flips whether `x` is selected, leaves every other path as it was,
/// and keeps a selection without duplicates so.
pub proof fn lemma_toggled(s: Seq<Seq<char>>, x: Seq<char>)
    requires
        no_duplicates(s),
    ensures
        no_duplicates(toggled(s, x)),
        toggled(s, x).contains(x) == !s.contains(x),
        forall|y: Seq<char>| y != x ==> toggled(s, x).contains(y) == s.contains(y),
{
    lemma_position_some(s, x);
    let t = toggled(s, x);
    match position_of(s, x) {
        Some(i) => {
            assert forall|a: int, b: int| 0 <= a < b < t.len() implies t[a] != t[b] by {
                let sa = if a < i { a } else { a + 1 };
                let sb = if b < i { b } else { b + 1 };
                assert(t[a] == s[sa] && t[b] == s[sb]);
            }
            if t.contains(x) {
                let k = choose|k: int| 0 <= k < t.len() && t[k] == x;
                let sk = if k < i { k } else { k + 1 };
                assert(t[k] == s[sk]);
            }
            assert forall|y: Seq<char>| y != x implies t.contains(y) == s.contains(y) by {
                if s.contains(y) {
                    let k = choose|k: int| 0 <= k < s.len() && s[k] == y;
                    assert(k != i);
                    let tk = if k < i { k } else { k - 1 };
                    assert(t[tk] == y);
                }
                if t.contains(y) {
                    let k = choose|k: int| 0 <= k < t.len() && t[k] == y;
                    let sk = if k < i { k } else { k + 1 };
                    assert(s[sk] == y);
                }
            }
        },
        None => {
            assert(t[s.len() as int] == x);
            assert forall|y: Seq<char>| y != x implies t.contains(y) == s.contains(y) by {
                if s.contains(y) {
                    let k = choose|k: int| 0 <= k < s.len() && s[k] == y;
                    assert(t[k] == y);
                }
                if t.contains(y) {
                    let k = choose|k: int| 0 <= k < t.len() && t[k] == y;
                    assert(k < s.len());
                    assert(s[k] == y);
                }
            }
        },
    }
}

/// Space on a file while picking several flips that file alone: it becomes
/// selected when it was not and stops being selected when it was; every other
/// path keeps its state, nothing is listed twice, and nothing else about the
/// picker changes.
pub proof fn lemma_space_flips_only_the_file(p: Picker, q: Picker)
    requires
        p.toggles(q),
        p.mode == PickerMode::InputFiles,
        p.cursor < p.rows.len(),
        p.rows[p.cursor as int] matches Row::Entry(e) && !e.is_dir,
        no_duplicates(views(p.selected@)),
    ensures
        q == (Picker { selected: q.selected, ..p }),
        ({
            let path = (p.rows[p.cursor as int]->0).path@;
            &&& views(q.selected@).contains(path) == !views(p.selected@).contains(path)
            &&& forall|y: Seq<char>| y != path ==> views(q.selected@).contains(y) == views(p.selected@).contains(y)
            &&& no_duplicates(views(q.selected@))
        }),
{
    let e = p.rows[p.cursor as int]->0;
    lemma_toggled(views(p.selected@), e.path@);
}

/// Confirming a multi-file pick hands over exactly the selection, in order,
/// and clears it; with nothing selected the picker stays open and says why.
pub proof fn lemma_confirm_hands_over_the_selection(p: Picker, q: Picker, r: PickerAction)
    requires
        p.confirms(q, r),
        p.mode == PickerMode::InputFiles,
    ensures
        p.selected.len() > 0 ==> (r matches PickerAction::Done(v) && views(v@) == views(p.selected@))
            && q.selected.len() == 0 && q.dir == p.dir,
        p.selected.len() == 0 ==> r is Continue && q.error is Some && q.selected.len() == 0,
{
}

/// Space twice on a file that was not selected leaves the selection as it was.
pub proof fn lemma_toggle_twice_restores(p: Picker, q: Picker, q2: Picker)
    requires
        p.toggles(q),
        q.toggles(q2),
        p.mode == PickerMode::InputFiles,
        p.cursor < p.rows.len(),
        p.rows[p.cursor as int] matches Row::Entry(e) && !e.is_dir && !views(
            p.selected@,
        ).contains(e.path@),
    ensures
        views(q2.selected@) == views(p.selected@),
{
    let s = views(p.selected@);
    if let Row::Entry(e) = p.rows[p.cursor as int] {
        lemma_position_some(s, e.path@);
        let t = s.push(e.path@);
        assert forall|m: int| 0 <= m < s.len() implies #[trigger] t[m] != e.path@ by {
            assert(t[m] == s[m]);
        }
        lemma_position_found(t, e.path@, s.len() as int);
        assert(t.remove(s.len() as int) =~= s);
    }
}

/// Every key press keeps the multi-selection free of duplicates.
pub proof fn lemma_keys_keep_selection_unique(
    p: Picker,
    q: Picker,
    key: KeyInput,
    r: PickerAction,
)
    requires
        no_duplicates(views(p.selected@)),
        p.key_step(q, key, r),
    ensures
        no_duplicates(views(q.selected@)),
{
    if p.cursor < p.rows.len() {
        if let Row::Entry(e) = p.rows[p.cursor as int] {
            lemma_toggled(views(p.selected@), e.path@);
        }
    }
    if q.selected@.len() == 0 {
        assert(views(q.selected@).len() == 0);
    }
}

/// Every mouse event keeps the multi-selection free of duplicates.
pub proof fn lemma_mouse_keeps_selection_unique(
    p: Picker,
    q: Picker,
    event: MouseInput,
    list: Rect,
    now: u64,
    r: PickerAction,
)
    requires
        no_duplicates(views(p.selected@)),
        p.mouse_step(q, event, list, now, r),
    ensures
        no_duplicates(views(q.selected@)),
{
    let index = list_window_of(p.scroll, p.cursor, p.rows.len() as usize, list.height as usize)
        + (event.row - list.y);
    if 0 <= index < p.rows.len() {
        if let Row::Entry(e) = p.rows[index] {
            lemma_toggled(views(p.selected@), e.path@);
        }
    }
}

// ------------------------------------------------------------------ exec

/// The first visible row. The wheel offset is clamped so the cursor never leaves
/// the screen: rendering and click handling both ask here, so they agree.
pub fn list_window(scroll: usize, cursor: usize, rows: usize, height: usize) -> (r: usize)
    ensures
        r == list_window_of(scroll, cursor, rows, height),
        cursor < rows && height > 0 ==> r <= cursor < r + height,
        rows > 0 ==> r < rows,
{
    if height == 0 || rows == 0 {
        return 0;
    }
    let last = rows - 1;
    let mut window = if scroll < last { scroll } else { last };
    if cursor < window {
        window = cursor;
    } else if cursor >= window.saturating_add(height) {
        window = cursor.saturating_add(1).saturating_sub(height);
    }
    if window < last { window } else { last }
}

fn copy_string(s: &String) -> (r: String)
    ensures
        r == *s,
        r@ == s@,
{
    s.clone()
}

pub(crate) fn copy_strings(v: &Vec<String>) -> (r: Vec<String>)
    ensures
        r@ == v@,
{
    let mut r: Vec<String> = Vec::new();
    let mut i: usize = 0;
    while i < v.len()
        invariant
            i <= v.len(),
            r@ == v@.take(i as int),
        decreases v.len() - i,
    {
        r.push(copy_string(&v[i]));
        assert(r@ =~= v@.take(i + 1));
        i = i + 1;
    }
    assert(v@.take(v@.len() as int) =~= v@);
    r
}

fn copy_entry(e: &Entry) -> (r: Entry)
    ensures
        r == *e,
{
    Entry {
        name: copy_string(&e.name),
        path: copy_string(&e.path),
        is_dir: e.is_dir,
        size: e.size,
        hidden: e.hidden,
    }
}

/// The position of `x` among `v`, compared as text.
fn find_path(v: &Vec<String>, x: &String) -> (r: Option<usize>)
    ensures
        match r {
            Some(i) => i < v.len() && position_of(views(v@), x@) == Some(i as int),
            None => position_of(views(v@), x@) is None,
        },
        r is None <==> !views(v@).contains(x@),
{
    let mut i: usize = 0;
    while i < v.len()
        invariant
            i <= v.len(),
            forall|m: int| 0 <= m < i ==> #[trigger] views(v@)[m] != x@,
        decreases v.len() - i,
    {
        if same_text(v[i].as_str(), x.as_str()) {
            assert(views(v@)[i as int] == x@);
            proof {
                lemma_position_found(views(v@), x@, i as int);
            }
            return Some(i);
        }
        i = i + 1;
    }
    proof {
        lemma_position_missing(views(v@), x@);
        if views(v@).contains(x@) {
            let k = choose|k: int| 0 <= k < views(v@).len() && views(v@)[k] == x@;
            assert(views(v@)[k] != x@);
        }
    }
    None
}

/// The message an unreadable directory leaves behind.
fn unreadable_message(reason: &String) -> (r: String)
    ensures
        r@ == UNREADABLE_PREFIX@ + reason@,
{
    let mut m = String::new();
    push_str(&mut m, UNREADABLE_PREFIX);
    push_str(&mut m, reason.as_str());
    assert(m@ =~= UNREADABLE_PREFIX@ + reason@);
    m
}

/// The shown entries of a listing, in listing order.
fn sorted_listing(raw: &Vec<RawEntry>, show_hidden: bool, mode: PickerMode) -> (r: Vec<Entry>)
    ensures
        r@.map_values(|e: Entry| e@) == sorted_entries(visible(raw@, show_hidden, mode)),
{
    let mut out: Vec<Entry> = Vec::new();
    let mut keys: Vec<Vec<char>> = Vec::new();
    let mut i: usize = 0;
    while i < raw.len()
        invariant
            i <= raw.len(),
            keys.len() == out.len(),
            forall|m: int|
                0 <= m < out.len() ==> (#[trigger] keys@[m])@ == std_to_lowercase(out@[m].name@),
            out@.map_values(|e: Entry| e@) == sorted_entries(visible(raw@.take(i as int), show_hidden, mode)),
        decreases raw.len() - i,
    {
        let item = &raw[i];
        let name_chars = chars_of(item.name.as_str());
        let hidden = name_chars.len() > 0 && name_chars[0] == '.';
        let entry = Entry {
            name: copy_string(&item.name),
            path: copy_string(&item.path),
            is_dir: item.is_dir,
            size: item.size,
            hidden,
        };
        let ghost before = out@.map_values(|e: Entry| e@);
        proof {
            assert(raw@.take(i + 1).drop_last() =~= raw@.take(i as int));
            assert(raw@.take(i + 1).last() == raw@[i as int]);
            assert(entry@ == raw_view(raw@[i as int]));
        }
        let keep = !(hidden && !show_hidden) && !(mode == PickerMode::InputFolder && !item.is_dir);
        proof {
            let prefix = raw@.take(i + 1);
            assert(visible(prefix, show_hidden, mode) == (if keep {
                visible(raw@.take(i as int), show_hidden, mode).push(entry@)
            } else {
                visible(raw@.take(i as int), show_hidden, mode)
            }));
            if keep {
                let x = visible(raw@.take(i as int), show_hidden, mode);
                assert(x.push(entry@).drop_last() =~= x);
                assert(sorted_entries(x.push(entry@)) == insert_sorted(sorted_entries(x), entry@));
            }
        }
        if keep {
            let lowered = lowercase(item.name.as_str());
            let key = chars_of(lowered.as_str());
            let mut j: usize = 0;
            while j < out.len()
                invariant
                    j <= out.len(),
                    keys.len() == out.len(),
                    forall|m: int|
                        0 <= m < out.len() ==> (#[trigger] keys@[m])@ == std_to_lowercase(
                            out@[m].name@,
                        ),
                    key@ == std_to_lowercase(entry.name@),
                    before == out@.map_values(|e: Entry| e@),
                    forall|m: int| 0 <= m < j ==> !goes_before(entry@, #[trigger] before[m]),
                ensures
                    j <= out.len(),
                    forall|m: int| 0 <= m < j ==> !goes_before(entry@, #[trigger] before[m]),
                    j < out.len() ==> goes_before(entry@, before[j as int]),
                decreases out.len() - j,
            {
                let other_dir = out[j].is_dir;
                let first = (entry.is_dir && !other_dir) || (entry.is_dir == other_dir
                    && text_less_chars(&key, &keys[j]));
                assert(before[j as int] == out@[j as int]@);
                if first {
                    break;
                }
                j = j + 1;
            }
            proof {
                lemma_insert_at(before, entry@, j as int);
            }
            let ghost entry_view = entry@;
            let ghost keys_before = keys@;
            let ghost out_before = out@;
            out.insert(j, entry);
            keys.insert(j, key);
            proof {
                assert(out@.map_values(|e: Entry| e@) =~= before.take(j as int) + seq![entry_view]
                    + before.skip(j as int));
                assert forall|m: int| 0 <= m < out.len() implies (#[trigger] keys@[m])@
                    == std_to_lowercase(out@[m].name@) by {
                    if m < j {
                        assert(keys@[m] == keys_before[m] && out@[m] == out_before[m]);
                    } else if m == j {
                    } else {
                        assert(keys@[m] == keys_before[m - 1] && out@[m] == out_before[m - 1]);
                    }
                }
            }
        }
        i = i + 1;
    }
    proof {
        assert(raw@.take(raw@.len() as int) =~= raw@);
    }
    out
}

impl Picker {
    /// A picker on `dir`. Its listing is still to be read: the new picker asks
    /// for a reload.
    pub fn open(mode: PickerMode, dir: String, file_name: Option<String>, append: bool) -> (r: Picker)
        ensures
            r.mode == mode,
            r.append == append,
            r.dir == dir,
            r.rows@.len() == 0,
            r.cursor == 0,
            r.scroll == 0,
            r.selected@.len() == 0,
            r.filename@ == (match file_name {
                Some(name) => name@,
                None => Seq::<char>::empty(),
            }),
            !r.editing_name,
            !r.show_hidden,
            r.error is None,
            r.last_click is None,
            r.navigation == Some(Navigation::Reload),
    {
        let filename = match file_name {
            Some(name) => name,
            None => String::new(),
        };
        Picker {
            mode,
            append,
            dir,
            rows: Vec::new(),
            cursor: 0,
            scroll: 0,
            selected: Vec::new(),
            filename,
            editing_name: false,
            show_hidden: false,
            error: None,
            last_click: None,
            navigation: Some(Navigation::Reload),
        }
    }

    /// Hands the host the directory read the picker is waiting for.
    pub fn take_navigation(&mut self) -> (r: Option<Navigation>)
        ensures
            r == old(self).navigation,
            *final(self) == (Picker { navigation: None, ..*old(self) }),
    {
        let r = self.navigation.take();
        r
    }

    /// Shows the listing the host read for the current directory, with the
    /// cursor back on the first row. An unreadable directory keeps only the
    /// parent row and says why.
    pub fn reload(&mut self, listing: Result<Vec<RawEntry>, String>)
        ensures
            match listing {
                Err(reason) => {
                    &&& *final(self) == (Picker {
                        rows: final(self).rows,
                        error: final(self).error,
                        cursor: 0,
                        scroll: 0,
                        ..*old(self)
                    })
                    &&& rows_view(final(self).rows@) == seq![None::<EntryView>]
                    &&& (final(self).error matches Some(m) && m@ == UNREADABLE_PREFIX@ + reason@)
                },
                Ok(raw) => {
                    &&& *final(self) == (Picker {
                        rows: final(self).rows,
                        error: None,
                        cursor: 0,
                        scroll: 0,
                        ..*old(self)
                    })
                    &&& rows_view(final(self).rows@) == listing_rows(
                        old(self).dir@,
                        raw@,
                        old(self).show_hidden,
                        old(self).mode,
                    )
                },
            },
    {
        match listing {
            Err(reason) => {
                let mut rows: Vec<Row> = Vec::new();
                rows.push(Row::Parent);
                self.rows = rows;
                self.error = Some(unreadable_message(&reason));
                self.cursor = 0;
                self.scroll = 0;
                assert(rows_view(self.rows@) =~= seq![None::<EntryView>]);
            },
            Ok(raw) => {
                let entries = sorted_listing(&raw, self.show_hidden, self.mode);
                let mut rows: Vec<Row> = Vec::new();
                let has_parent = parent(self.dir.as_str()).is_some();
                if has_parent {
                    rows.push(Row::Parent);
                }
                let ghost lead = rows@.len();
                let mut i: usize = 0;
                while i < entries.len()
                    invariant
                        i <= entries.len(),
                        rows@.len() == lead + i,
                        lead == (if has_parent { 1int } else { 0int }),
                        has_parent ==> rows@[0] == Row::Parent,
                        forall|m: int|
                            0 <= m < i ==> #[trigger] rows@[lead + m] == Row::Entry(entries@[m]),
                    decreases entries.len() - i,
                {
                    rows.push(Row::Entry(copy_entry(&entries[i])));
                    i = i + 1;
                }
                proof {
                    let expected = listing_rows(self.dir@, raw@, self.show_hidden, self.mode);
                    let sorted = sorted_entries(visible(raw@, self.show_hidden, self.mode));
                    assert(entries@.map_values(|e: Entry| e@) == sorted);
                    assert forall|m: int| 0 <= m < rows@.len() implies rows_view(rows@)[m]
                        == expected[m] by {
                        if has_parent && m == 0 {
                        } else {
                            let k = m - lead;
                            assert(rows@[lead + k] == Row::Entry(entries@[k]));
                            assert(sorted[k] == entries@[k]@);
                        }
                    }
                    assert(rows_view(rows@) =~= expected);
                }
                self.rows = rows;
                self.error = None;
                self.cursor = 0;
                self.scroll = 0;
            },
        }
    }

    /// Moves to the directory the host found at `dir` and shows its listing.
    pub fn enter(&mut self, dir: String, listing: Result<Vec<RawEntry>, String>)
        ensures
            final(self).dir == dir,
            final(self).navigation is None,
            match listing {
                Err(reason) => {
                    &&& *final(self) == (Picker {
                        dir: final(self).dir,
                        navigation: None,
                        rows: final(self).rows,
                        error: final(self).error,
                        cursor: 0,
                        scroll: 0,
                        ..*old(self)
                    })
                    &&& rows_view(final(self).rows@) == seq![None::<EntryView>]
                    &&& (final(self).error matches Some(m) && m@ == UNREADABLE_PREFIX@ + reason@)
                },
                Ok(raw) => {
                    &&& *final(self) == (Picker {
                        dir: final(self).dir,
                        navigation: None,
                        rows: final(self).rows,
                        error: None,
                        cursor: 0,
                        scroll: 0,
                        ..*old(self)
                    })
                    &&& rows_view(final(self).rows@) == listing_rows(
                        dir@,
                        raw@,
                        old(self).show_hidden,
                        old(self).mode,
                    )
                },
            },
    {
        self.dir = dir;
        self.navigation = None;
        self.reload(listing);
    }

    /// The first visible row of the listing in `height` rows.
    pub fn window(&self, height: usize) -> (r: usize)
        ensures
            r == list_window_of(self.scroll, self.cursor, self.rows.len() as usize, height),
    {
        list_window(self.scroll, self.cursor, self.rows.len(), height)
    }

    fn nudge_by(&mut self, delta: i64)
        requires
            -10 <= delta,
        ensures
            *final(self) == old(self).nudged(delta as int),
    {
        let count = self.rows.len();
        if count == 0 {
            return;
        }
        if delta >= 0 {
            let wide = count as u128;
            let step = (delta as u128) % wide;
            let next = ((self.cursor as u128 % wide + step) % wide) as usize;
            proof {
                vstd::arithmetic::div_mod::lemma_add_mod_noop(
                    self.cursor as int,
                    delta as int,
                    count as int,
                );
            }
            self.cursor = next;
        } else {
            let wide = count as u128;
            let back = ((-delta) as u128) % wide;
            let next = ((self.cursor as u128 % wide + wide - back) % wide) as usize;
            proof {
                let c = count as int;
                let x = self.cursor as int;
                vstd::arithmetic::div_mod::lemma_sub_mod_noop(x, -delta as int, c);
                vstd::arithmetic::div_mod::lemma_mod_add_multiples_vanish(x % c - back, c);
                assert(x % c + c - back == c + (x % c - back));
                assert(x - (-delta as int) == x + delta);
            }
            self.cursor = next;
        }
    }

    fn go_to(&mut self, target: String)
        ensures
            old(self).opens(*final(self), target@),
    {
        if !same_path(self.dir.as_str(), target.as_str()) {
            self.navigation = Some(Navigation::Open(target));
        }
    }

    fn go_parent(&mut self)
        ensures
            old(self).goes_up(*final(self)),
    {
        match parent(self.dir.as_str()) {
            Some(up) => self.go_to(up),
            None => {},
        }
    }

    /// Enter on the focused row: navigate, or take the file as the answer.
    fn activate(&mut self) -> (r: PickerAction)
        ensures
            old(self).activates(*final(self), r),
    {
        if self.cursor >= self.rows.len() {
            return PickerAction::Continue;
        }
        let is_parent = match &self.rows[self.cursor] {
            Row::Parent => true,
            Row::Entry(_) => false,
        };
        if is_parent {
            self.go_parent();
            return PickerAction::Continue;
        }
        let entry = match &self.rows[self.cursor] {
            Row::Entry(e) => copy_entry(e),
            Row::Parent => {
                return PickerAction::Continue;
            },
        };
        if entry.is_dir {
            self.go_to(entry.path);
            return PickerAction::Continue;
        }
        match self.mode {
            PickerMode::InputFiles => {
                let mut paths = copy_strings(&self.selected);
                let found = find_path(&paths, &entry.path);
                if found.is_none() {
                    let ghost before = paths@;
                    paths.push(entry.path);
                    proof {
                        lemma_views_push(before, entry.path);
                    }
                }
                PickerAction::Done(paths)
            },
            PickerMode::OutputFile => {
                let mut paths: Vec<String> = Vec::new();
                paths.push(entry.path);
                assert(views(paths@) =~= seq![entry.path@]);
                PickerAction::Done(paths)
            },
            _ => PickerAction::Continue,
        }
    }

    /// The primary action: the mode's whole point.
    fn confirm_current(&mut self) -> (r: PickerAction)
        ensures
            old(self).confirms(*final(self), r),
    {
        match self.mode {
            PickerMode::InputFiles => {
                if self.selected.len() == 0 {
                    self.error = Some(owned(NO_FILES_MESSAGE));
                    return PickerAction::Continue;
                }
                let mut taken: Vec<String> = Vec::new();
                core::mem::swap(&mut taken, &mut self.selected);
                PickerAction::Done(taken)
            },
            PickerMode::OutputFile => {
                let name = trimmed(self.filename.as_str());
                if name.as_str().is_empty() {
                    self.error = Some(owned(NO_NAME_MESSAGE));
                    self.editing_name = true;
                    return PickerAction::Continue;
                }
                let mut paths: Vec<String> = Vec::new();
                paths.push(join(self.dir.as_str(), name.as_str()));
                assert(views(paths@) =~= seq![std_path_join(self.dir@, trim(self.filename@))]);
                PickerAction::Done(paths)
            },
            _ => {
                let mut paths: Vec<String> = Vec::new();
                paths.push(copy_string(&self.dir));
                assert(views(paths@) =~= seq![self.dir@]);
                PickerAction::Done(paths)
            },
        }
    }

    /// Space: toggles the file under the cursor; folders have nothing to give.
    fn toggle_selected(&mut self)
        ensures
            old(self).toggles(*final(self)),
    {
        if self.mode != PickerMode::InputFiles || self.cursor >= self.rows.len() {
            return;
        }
        let entry = match &self.rows[self.cursor] {
            Row::Entry(e) => copy_entry(e),
            Row::Parent => {
                return;
            },
        };
        if entry.is_dir {
            return;
        }
        let ghost before = self.selected@;
        match find_path(&self.selected, &entry.path) {
            Some(index) => {
                self.selected.remove(index);
                proof {
                    lemma_views_remove(before, index as int);
                }
            },
            None => {
                self.selected.push(entry.path);
                proof {
                    lemma_views_push(before, entry.path);
                }
            },
        }
    }

    fn handle_name_key(&mut self, key: KeyInput) -> (r: PickerAction)
        ensures
            old(self).name_key(*final(self), key, r),
    {
        match key.code {
            KeyCode::Char(c) => {
                if is_ascii_graphic_char(c) || c == ' ' {
                    push_char(&mut self.filename, c);
                }
                PickerAction::Continue
            },
            KeyCode::Backspace => {
                let chars = chars_of(self.filename.as_str());
                if chars.len() > 0 {
                    self.filename = string_from_range(&chars, 0, chars.len() - 1);
                    assert(chars@.subrange(0, chars@.len() - 1) =~= old(self).filename@.drop_last());
                }
                PickerAction::Continue
            },
            KeyCode::Esc => PickerAction::Cancel,
            KeyCode::Enter => self.confirm_current(),
            KeyCode::Tab => {
                self.editing_name = false;
                PickerAction::Continue
            },
            _ => PickerAction::Continue,
        }
    }

    /// One key press.
    pub fn handle_key(&mut self, key: KeyInput) -> (r: PickerAction)
        ensures
            old(self).key_step(*final(self), key, r),
    {
        if self.editing_name {
            return self.handle_name_key(key);
        }
        match key.code {
            KeyCode::Esc => PickerAction::Cancel,
            KeyCode::Up => {
                self.nudge_by(-1);
                PickerAction::Continue
            },
            KeyCode::Down => {
                self.nudge_by(1);
                PickerAction::Continue
            },
            KeyCode::PageUp => {
                self.nudge_by(-10);
                PickerAction::Continue
            },
            KeyCode::PageDown => {
                self.nudge_by(10);
                PickerAction::Continue
            },
            KeyCode::Left | KeyCode::Backspace => {
                self.go_parent();
                PickerAction::Continue
            },
            KeyCode::Right | KeyCode::Enter => self.activate(),
            KeyCode::Home => {
                self.navigation = Some(Navigation::Home);
                PickerAction::Continue
            },
            KeyCode::End => {
                // A whole turn round the list: the cursor wraps onto itself.
                let count = self.rows.len();
                if count > 0 {
                    proof {
                        vstd::arithmetic::div_mod::lemma_mod_add_multiples_vanish(
                            self.cursor as int,
                            count as int,
                        );
                    }
                    self.cursor = self.cursor % count;
                }
                PickerAction::Continue
            },
            KeyCode::Tab => {
                if self.mode == PickerMode::OutputFile {
                    self.editing_name = true;
                }
                PickerAction::Continue
            },
            KeyCode::Char(c) => {
                if c == 'k' {
                    self.nudge_by(-1);
                    PickerAction::Continue
                } else if c == 'j' {
                    self.nudge_by(1);
                    PickerAction::Continue
                } else if c == 'h' {
                    self.go_parent();
                    PickerAction::Continue
                } else if c == 'l' {
                    self.activate()
                } else if c == ' ' {
                    self.toggle_selected();
                    PickerAction::Continue
                } else if c == 's' {
                    self.confirm_current()
                } else if c == '.' {
                    self.show_hidden = !self.show_hidden;
                    self.navigation = Some(Navigation::Reload);
                    PickerAction::Continue
                } else if c == 'g' {
                    self.navigation = Some(Navigation::Home);
                    PickerAction::Continue
                } else {
                    PickerAction::Continue
                }
            },
            _ => PickerAction::Continue,
        }
    }

    /// Wheel and clicks over the listing drawn in `list`, at time `now_ms`.
    pub fn handle_mouse(&mut self, event: MouseInput, list: Rect, now_ms: u64) -> (r: PickerAction)
        ensures
            old(self).mouse_step(*final(self), event, list, now_ms, r),
    {
        match event.kind {
            MouseKind::ScrollUp => {
                self.scroll = self.scroll.saturating_sub(3);
                PickerAction::Continue
            },
            MouseKind::ScrollDown => {
                self.scroll = self.scroll.saturating_add(3);
                PickerAction::Continue
            },
            MouseKind::LeftDown => {
                if !contains(list, event.column, event.row) {
                    return PickerAction::Continue;
                }
                let offset = (event.row - list.y) as usize;
                let first = self.window(list.height as usize);
                if first > usize::MAX - offset {
                    return PickerAction::Continue;
                }
                let index = first + offset;
                if index >= self.rows.len() {
                    return PickerAction::Continue;
                }
                let double = match self.last_click {
                    Some((previous, at)) => previous == index && now_ms.saturating_sub(at)
                        < DOUBLE_CLICK_MS,
                    None => false,
                };
                self.cursor = index;
                if double {
                    self.last_click = None;
                    return self.activate();
                }
                self.last_click = Some((index, now_ms));
                if self.mode == PickerMode::InputFiles {
                    self.toggle_selected();
                }
                PickerAction::Continue
            },
            _ => PickerAction::Continue,
        }
    }

    /// The bottom-right primary action as the card's main button names it.
    pub fn primary_label(&self) -> (r: String)
        ensures
            r@ == (match self.mode {
                PickerMode::InputFiles => "Done ("@ + decimal(self.selected.len() as nat) + ")"@,
                PickerMode::OutputFile => "Save here"@,
                _ => "Use this folder"@,
            }),
    {
        let mut r = String::new();
        match self.mode {
            PickerMode::InputFiles => {
                push_str(&mut r, "Done (");
                push_decimal(&mut r, self.selected.len() as u64);
                push_str(&mut r, ")");
            },
            PickerMode::OutputFile => push_str(&mut r, "Save here"),
            _ => push_str(&mut r, "Use this folder"),
        }
        assert(r@ =~= (match self.mode {
            PickerMode::InputFiles => "Done ("@ + decimal(self.selected.len() as nat) + ")"@,
            PickerMode::OutputFile => "Save here"@,
            _ => "Use this folder"@,
        }));
        r
    }

    /// Whether the primary action can go through right now.
    /// Whether the primary button can act: files are marked, a name is
    /// typed, or, for a folder, always.
    pub open spec fn ready(self) -> bool {
        match self.mode {
            PickerMode::InputFiles => self.selected@.len() > 0,
            PickerMode::OutputFile => trim(self.filename@).len() > 0,
            _ => true,
        }
    }

    pub fn primary_ready(&self) -> (r: bool)
        ensures
            r == (match self.mode {
                PickerMode::InputFiles => self.selected.len() > 0,
                PickerMode::OutputFile => trim(self.filename@).len() > 0,
                _ => true,
            }),
    {
        match self.mode {
            PickerMode::InputFiles => self.selected.len() > 0,
            PickerMode::OutputFile => !trimmed(self.filename.as_str()).as_str().is_empty(),
            _ => true,
        }
    }

    /// Puts the keyboard in the file name field (output-file mode).
    pub fn focus_name(&mut self)
        ensures
            *final(self) == (if old(self).mode == PickerMode::OutputFile {
                Picker { editing_name: true, ..*old(self) }
            } else {
                *old(self)
            }),
    {
        if self.mode == PickerMode::OutputFile {
            self.editing_name = true;
        }
    }

    /// The help line of the status bar, one per mode.
    pub fn footer_help(&self) -> (r: &'static str)
        ensures
            r@ == (match self.mode {
                PickerMode::InputFolder => " ↑↓ move   ↵ enter   s use this folder   ← parent   esc cancel "@,
                PickerMode::InputFiles => " ↑↓ move   ↵ open/confirm   space select   s done   ← parent   esc cancel "@,
                PickerMode::OutputFile => " ↑↓ move   ↵ open   s save here   tab name   ← parent   esc cancel "@,
                PickerMode::OutputFolder => " ↑↓ move   ↵ open   s use this folder   ← parent   esc cancel "@,
            }),
    {
        match self.mode {
            PickerMode::InputFolder => " ↑↓ move   ↵ enter   s use this folder   ← parent   esc cancel ",
            PickerMode::InputFiles => " ↑↓ move   ↵ open/confirm   space select   s done   ← parent   esc cancel ",
            PickerMode::OutputFile => " ↑↓ move   ↵ open   s save here   tab name   ← parent   esc cancel ",
            PickerMode::OutputFolder => " ↑↓ move   ↵ open   s use this folder   ← parent   esc cancel ",
        }
    }
}

} // verus!
