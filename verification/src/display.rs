//! Text shaping for the terminal: widths measured in cells, trimmed names and
//! paths, byte counts and clock times.
use unicode_width::UnicodeWidthChar;
use unicode_width::UnicodeWidthStr;
use vstd::prelude::*;
use crate::text::{decimal, push_char, push_str, push_decimal, chars_of, string_from_range};
use crate::domain::{
    integer_as_double, integer_as_double_u64, round_half_even, round_half_even_wide,
    lemma_round_half_even_close, lemma_integer_as_double_close, lemma_small_integers_are_exact,
};

verus! {

/// The cells `UnicodeWidthChar::width` gives a character.
pub uninterp spec fn char_columns(c: char) -> Option<usize>;

/// The cells `UnicodeWidthStr::width` gives a string.
pub uninterp spec fn str_columns(s: Seq<char>) -> usize;

/// `UnicodeWidthChar::width` of unicode-width: the terminal cells a character
/// takes. Claimed: `None` exactly for the C0 and C1 control characters, one cell
/// for printable ASCII, never more than three cells.
#[verifier::external_body]
pub(crate) fn char_width(c: char) -> (r: Option<usize>)
    ensures
        r == char_columns(c),
        r is None <==> ((c as u32) < 0x20 || (0x7f <= (c as u32) && (c as u32) < 0xa0)),
        (0x20 <= (c as u32) && (c as u32) < 0x7f) ==> r == Some(1usize),
        r matches Some(w) ==> w <= 3,
{
    UnicodeWidthChar::width(c)
}

/// `UnicodeWidthStr::width` of unicode-width: the cells a whole string takes,
/// which joins emoji sequences and so is not the sum of its characters' widths.
/// Claimed: the empty string takes no cells, and a string of printable ASCII
/// takes one cell per character.
#[verifier::external_body]
pub(crate) fn str_width(s: &str) -> (r: usize)
    ensures
        r == str_columns(s@),
        s@.len() == 0 ==> r == 0,
        (forall|i: int|
            0 <= i < s@.len() ==> 0x20 <= (#[trigger] s@[i] as u32) && (s@[i] as u32) < 0x7f)
            ==> r == s@.len(),
{
    UnicodeWidthStr::width(s)
}

/// The cells one character takes, a control character counting as none.
pub open spec fn cells(c: char) -> nat {
    match char_columns(c) {
        Some(w) => w as nat,
        None => 0,
    }
}

/// The cells of a run of characters measured one by one.
pub open spec fn cells_sum(s: Seq<char>) -> nat
    decreases s.len(),
{
    if s.len() == 0 {
        0
    } else {
        cells_sum(s.drop_last()) + cells(s.last())
    }
}

/// How many leading characters fit in `limit` cells, counted from `i`: the first
/// prefix longer than `i` that overflows stops the count.
pub open spec fn fit_from(s: Seq<char>, limit: int, i: nat) -> nat
    decreases s.len() - i,
{
    if i >= s.len() {
        s.len()
    } else if cells_sum(s.take(i + 1 as int)) > limit {
        i
    } else {
        fit_from(s, limit, i + 1)
    }
}

/// The longest prefix, character by character, that fits in `limit` cells.
pub open spec fn fit_count(s: Seq<char>, limit: int) -> nat {
    fit_from(s, limit, 0)
}

pub open spec fn spaces(n: nat) -> Seq<char> {
    Seq::new(n, |i: int| ' ')
}

/// A name laid out in exactly `width` cells: padded with spaces when it fits,
/// otherwise cut and closed with an ellipsis in the last cell.
pub open spec fn fixed_width_text(value: Seq<char>, width: nat) -> Seq<char> {
    let total = str_columns(value) as nat;
    if total > width {
        let limit: int = if width == 0 { 0 } else { width - 1 };
        let kept = value.take(fit_count(value, limit) as int);
        let used = cells_sum(kept) + 1;
        kept + seq!['…'] + spaces(if width > used { (width - used) as nat } else { 0 })
    } else {
        value + spaces((width - total) as nat)
    }
}

/// A label cut to `width` cells with a closing ellipsis, or kept whole.
pub open spec fn capped_text(value: Seq<char>, width: nat) -> Seq<char> {
    if str_columns(value) <= width {
        value
    } else {
        value.take(fit_count(value, width - 1) as int) + seq!['…']
    }
}

/// A path cut from the left so that its last component stays in view.
pub open spec fn trimmed_path_text(text: Seq<char>, width: nat) -> Seq<char> {
    if str_columns(text) <= width {
        text
    } else {
        let keep: nat = if width >= 2 { (width - 2) as nat } else { 0 };
        let m: nat = if keep < text.len() { keep } else { text.len() };
        seq!['…'] + text.subrange(text.len() - m, text.len() as int)
    }
}

pub open spec fn pow1024(n: nat) -> nat
    decreases n,
{
    if n == 0 {
        1
    } else {
        1024 * pow1024((n - 1) as nat)
    }
}

/// The binary unit a byte count is shown in: the largest of B, KB, MB, GB and
/// TB that leaves at least one whole unit.
pub open spec fn size_unit(bytes: nat) -> nat {
    if bytes >= pow1024(4) {
        4
    } else if bytes >= pow1024(3) {
        3
    } else if bytes >= pow1024(2) {
        2
    } else if bytes >= pow1024(1) {
        1
    } else {
        0
    }
}

pub open spec fn unit_name(unit: nat) -> Seq<char> {
    if unit == 1 {
        "KB"@
    } else if unit == 2 {
        "MB"@
    } else if unit == 3 {
        "GB"@
    } else {
        "TB"@
    }
}

/// A byte count in binary units, as printing the count's double prints it:
/// whole bytes, then one decimal below a hundred units and none above,
/// rounded half to even.
pub open spec fn human_size_text(bytes: nat) -> Seq<char> {
    let value = integer_as_double(bytes);
    let unit = size_unit(value);
    let scale = pow1024(unit);
    if unit == 0 {
        decimal(bytes) + " B"@
    } else if value >= 100 * scale {
        decimal(round_half_even(value, scale)) + " "@ + unit_name(unit)
    } else {
        let tenths = round_half_even(10 * value, scale);
        decimal(tenths / 10) + "."@ + decimal(tenths % 10) + " "@ + unit_name(unit)
    }
}

/// A number in at least two digits.
pub open spec fn padded2(n: nat) -> Seq<char> {
    if n < 10 {
        seq!['0'] + decimal(n)
    } else {
        decimal(n)
    }
}

/// A clock time: `mm:ss` below an hour, `hh:mm:ss` from an hour on.
pub open spec fn duration_text(total_seconds: nat) -> Seq<char> {
    let hours = total_seconds / 3600;
    let minutes = (total_seconds % 3600) / 60;
    let seconds = total_seconds % 60;
    if hours > 0 {
        padded2(hours) + ":"@ + padded2(minutes) + ":"@ + padded2(seconds)
    } else {
        padded2(minutes) + ":"@ + padded2(seconds)
    }
}

proof fn lemma_cells_sum_push(s: Seq<char>, i: int)
    requires
        0 <= i < s.len(),
    ensures
        cells_sum(s.take(i + 1)) == cells_sum(s.take(i)) + cells(s[i]),
{
    assert(s.take(i + 1).drop_last() =~= s.take(i));
}

/// The fitting prefix of `value` in `limit` cells, with the cells it takes.
pub(crate) fn fitting_prefix(value: &Vec<char>, limit: usize) -> (r: (usize, usize))
    ensures
        r.0 == fit_count(value@, limit as int),
        r.0 <= value@.len(),
        r.1 == cells_sum(value@.take(r.0 as int)),
        r.1 <= limit,
{
    let mut i: usize = 0;
    let mut used: usize = 0;
    proof {
        assert(value@.take(0) =~= Seq::<char>::empty());
    }
    while i < value.len()
        invariant
            i <= value.len(),
            used == cells_sum(value@.take(i as int)),
            used <= limit,
            fit_from(value@, limit as int, i as nat) == fit_count(value@, limit as int),
        decreases value.len() - i,
    {
        let cell: usize = match char_width(value[i]) {
            Some(w) => w,
            None => 0,
        };
        proof {
            lemma_cells_sum_push(value@, i as int);
        }
        if cell > limit - used {
            return (i, used);
        }
        used = used + cell;
        i = i + 1;
    }
    proof {
        assert(value@.take(value@.len() as int) =~= value@);
    }
    (i, used)
}

/// `fit_count` with a limit below zero keeps nothing.
proof fn lemma_fit_none(s: Seq<char>, limit: int)
    requires
        limit < 0,
    ensures
        fit_count(s, limit) == 0,
{
    if s.len() > 0 {
        assert(cells_sum(s.take(1)) >= 0);
    }
}

fn push_spaces(s: &mut String, n: usize)
    ensures
        final(s)@ == old(s)@ + spaces(n as nat),
{
    let mut i: usize = 0;
    while i < n
        invariant
            i <= n,
            s@ == old(s)@ + spaces(i as nat),
        decreases n - i,
    {
        push_char(s, ' ');
        i = i + 1;
        assert(s@ =~= old(s)@ + spaces(i as nat));
    }
}

/// Fits a name into a column `width` cells wide, measured in terminal cells so
/// that a name in a wide script does not push the column out of line.
pub fn fixed_width(value: &str, width: usize) -> (r: String)
    ensures
        r@ == fixed_width_text(value@, width as nat),
{
    let total = str_width(value);
    let mut kept = String::new();
    if total > width {
        let chars = chars_of(value);
        let limit: usize = if width == 0 { 0 } else { width - 1 };
        let (count, used) = fitting_prefix(&chars, limit);
        kept = string_from_range(&chars, 0, count);
        push_char(&mut kept, '…');
        let pad: usize = if width > used + 1 { width - (used + 1) } else { 0 };
        push_spaces(&mut kept, pad);
        proof {
            assert(chars@.subrange(0, count as int) =~= value@.take(count as int));
        }
    } else {
        push_str(&mut kept, value);
        push_spaces(&mut kept, width - total);
    }
    assert(kept@ =~= fixed_width_text(value@, width as nat));
    kept
}

/// Cuts a label to `width` cells, closing it with an ellipsis when anything
/// was cut.
pub fn capped(value: &str, width: usize) -> (r: String)
    ensures
        r@ == capped_text(value@, width as nat),
{
    if str_width(value) <= width {
        let mut whole = String::new();
        push_str(&mut whole, value);
        assert(whole@ =~= value@);
        return whole;
    }
    let chars = chars_of(value);
    let mut kept = if width == 0 {
        proof {
            lemma_fit_none(value@, -1);
        }
        String::new()
    } else {
        let (count, _) = fitting_prefix(&chars, width - 1);
        proof {
            assert(chars@.subrange(0, count as int) =~= value@.take(count as int));
        }
        string_from_range(&chars, 0, count)
    };
    push_char(&mut kept, '…');
    assert(kept@ =~= capped_text(value@, width as nat));
    kept
}

/// A path trimmed from the left so the folder being visited always stays
/// visible, as in "…/demo/movies/holiday".
pub fn trimmed_path(text: &str, width: u16) -> (r: String)
    ensures
        r@ == trimmed_path_text(text@, width as nat),
{
    if str_width(text) <= width as usize {
        let mut whole = String::new();
        push_str(&mut whole, text);
        assert(whole@ =~= text@);
        return whole;
    }
    let chars = chars_of(text);
    let keep: usize = if width >= 2 { (width - 2) as usize } else { 0 };
    let m: usize = if keep < chars.len() { keep } else { chars.len() };
    let mut out = String::new();
    push_char(&mut out, '…');
    let tail = string_from_range(&chars, chars.len() - m, chars.len());
    push_str(&mut out, tail.as_str());
    assert(out@ =~= trimmed_path_text(text@, width as nat));
    out
}

proof fn lemma_pow1024_values()
    ensures
        pow1024(0) == 1,
        pow1024(1) == 1024,
        pow1024(2) == 1048576,
        pow1024(3) == 1073741824,
        pow1024(4) == 1099511627776,
{
    reveal_with_fuel(pow1024, 5);
}

/// The binary unit for a byte count and its name: a kibibyte is 1024 bytes,
/// each unit after it 1024 of the one before.
pub open spec fn binary_unit(bytes: nat) -> (nat, Seq<char>) {
    if bytes >= 1_099_511_627_776 {
        (1_099_511_627_776, "TB"@)
    } else if bytes >= 1_073_741_824 {
        (1_073_741_824, "GB"@)
    } else if bytes >= 1_048_576 {
        (1_048_576, "MB"@)
    } else {
        (1024, "KB"@)
    }
}

/// A whole number of a unit, written out.
pub open spec fn whole_units_text(n: nat, name: Seq<char>) -> Seq<char> {
    decimal(n) + " "@ + name
}

/// Tenths of a unit, written out.
pub open spec fn tenth_units_text(tenths: nat, name: Seq<char>) -> Seq<char> {
    decimal(tenths / 10) + "."@ + decimal(tenths % 10) + " "@ + name
}

/// A byte count is shown in bytes below a kibibyte, and otherwise in the
/// largest binary unit it fills, to the nearest tenth below a hundred units
/// and the nearest whole unit above (within half a last digit, give or take
/// the double's own rounding of counts past 2^53).
pub proof fn lemma_human_size_is_nearest(bytes: nat)
    requires
        bytes < vstd::arithmetic::power2::pow2(64),
    ensures
        bytes < 1024 ==> human_size_text(bytes) == decimal(bytes) + " B"@,
        ({
            let (scale, name) = binary_unit(bytes);
            &&& (bytes >= 1024 && bytes >= 100 * scale + 1024) ==> exists|n: nat|
                human_size_text(bytes) == #[trigger] whole_units_text(n, name) && 2 * n * scale
                    <= 2 * bytes + scale + 2048 && 2 * bytes <= 2 * n * scale + scale + 2048
            &&& (bytes >= 1024 + 1024 && bytes + 1024 < 100 * scale) ==> exists|t: nat|
                human_size_text(bytes) == #[trigger] tenth_units_text(t, name) && 2 * t * scale
                    <= 20 * bytes + scale + 20480 && 20 * bytes <= 2 * t * scale + scale + 20480
        }),
{
    lemma_pow1024_values();
    vstd::arithmetic::power2::lemma2_to64();
    lemma_integer_as_double_close(bytes);
    vstd::arithmetic::power2::lemma2_to64_rest();
    let value = integer_as_double(bytes);
    if bytes < vstd::arithmetic::power2::pow2(53) {
        lemma_small_integers_are_exact(bytes);
    }
    let (scale, name) = binary_unit(bytes);
    assert(size_unit(value) == 0 ==> bytes < 1024);
    assert(bytes >= 1024 ==> pow1024(size_unit(value)) == scale && unit_name(size_unit(value)) == name);
    if bytes >= 1024 && bytes >= 100 * scale + 1024 {
        let n = round_half_even(value, scale);
        lemma_round_half_even_close(value, scale);
        assert(human_size_text(bytes) == whole_units_text(n, name));
    }
    if bytes >= 1024 + 1024 && bytes + 1024 < 100 * scale {
        let t = round_half_even(10 * value, scale);
        lemma_round_half_even_close(10 * value, scale);
        assert(human_size_text(bytes) == tenth_units_text(t, name));
    }
}

/// A byte count in binary units, e.g. "512 B", "1.5 KB" or "120 MB".
pub fn human_size(bytes: u64) -> (r: String)
    ensures
        r@ == human_size_text(bytes as nat),
{
    proof {
        lemma_pow1024_values();
        vstd::arithmetic::power2::lemma2_to64();
    }
    let value = integer_as_double_u64(bytes);
    let mut scale: u128 = 1;
    let mut unit: u64 = 0;
    if value >= 1099511627776 {
        scale = 1099511627776;
        unit = 4;
    } else if value >= 1073741824 {
        scale = 1073741824;
        unit = 3;
    } else if value >= 1048576 {
        scale = 1048576;
        unit = 2;
    } else if value >= 1024 {
        scale = 1024;
        unit = 1;
    }
    assert(unit as nat == size_unit(value as nat));
    assert(scale as nat == pow1024(unit as nat));
    let mut r = String::new();
    if unit == 0 {
        push_decimal(&mut r, bytes);
        push_str(&mut r, " B");
    } else {
        let name = if unit == 1 {
            "KB"
        } else if unit == 2 {
            "MB"
        } else if unit == 3 {
            "GB"
        } else {
            "TB"
        };
        if value >= 100 * scale {
            let whole = round_half_even_wide(value, scale);
            assert(whole <= 0x100_0000_0000_0000) by {
                vstd::arithmetic::div_mod::lemma_div_is_ordered_by_denominator(value as int, 1024, scale as int);
                assert(value as int / 1024 <= 0x2_0000_0000_0000_0000int / 1024) by {
                    vstd::arithmetic::div_mod::lemma_div_is_ordered(value as int, 0x2_0000_0000_0000_0000int, 1024);
                }
            }
            push_decimal(&mut r, whole as u64);
        } else {
            let tenths = round_half_even_wide(10 * value, scale);
            assert(tenths <= 1000) by (nonlinear_arith)
                requires
                    tenths == round_half_even(10 * value as nat, scale as nat),
                    value < 100 * scale,
                    scale > 0,
            {
                let q = (10 * value as nat) / (scale as nat);
                assert(q * scale <= 10 * value);
                assert(q < 1000);
            }
            push_decimal(&mut r, (tenths / 10) as u64);
            push_str(&mut r, ".");
            push_decimal(&mut r, (tenths % 10) as u64);
        }
        push_str(&mut r, " ");
        push_str(&mut r, name);
    }
    proof {
        reveal_strlit("KB");
        reveal_strlit("MB");
        reveal_strlit("GB");
        reveal_strlit("TB");
    }
    assert(r@ =~= human_size_text(bytes as nat));
    r
}

fn push_padded2(s: &mut String, n: u64)
    ensures
        final(s)@ == old(s)@ + padded2(n as nat),
{
    if n < 10 {
        push_char(s, '0');
    }
    push_decimal(s, n);
    assert(final(s)@ =~= old(s)@ + padded2(n as nat));
}

/// A duration of `total_seconds` as a clock: "01:05", or "01:01:05" from an
/// hour on.
pub fn format_duration(total_seconds: u64) -> (r: String)
    ensures
        r@ == duration_text(total_seconds as nat),
{
    let hours = total_seconds / 3_600;
    let minutes = (total_seconds % 3_600) / 60;
    let seconds = total_seconds % 60;
    let mut r = String::new();
    if hours > 0 {
        push_padded2(&mut r, hours);
        push_str(&mut r, ":");
    }
    push_padded2(&mut r, minutes);
    push_str(&mut r, ":");
    push_padded2(&mut r, seconds);
    assert(r@ =~= duration_text(total_seconds as nat));
    r
}

} // verus!
