//! Character-level text helpers shared by every module: decimal rendering and
//! parsing, Unicode whitespace trimming and the small searches the parsers need.
use vstd::prelude::*;

verus! {

// ------------------------------------------------------------------ specs

/// `char::is_whitespace`: the Unicode `White_Space` property.
pub open spec fn is_space(c: char) -> bool {
    ||| ('\u{9}' <= c && c <= '\u{d}')
    ||| c == ' '
    ||| c == '\u{85}'
    ||| c == '\u{a0}'
    ||| c == '\u{1680}'
    ||| ('\u{2000}' <= c && c <= '\u{200a}')
    ||| c == '\u{2028}'
    ||| c == '\u{2029}'
    ||| c == '\u{202f}'
    ||| c == '\u{205f}'
    ||| c == '\u{3000}'
}

/// `char::is_control`: the general category `Cc`.
pub open spec fn is_control(c: char) -> bool {
    c <= '\u{1f}' || ('\u{7f}' <= c && c <= '\u{9f}')
}

pub open spec fn is_digit(c: char) -> bool {
    '0' <= c && c <= '9'
}

pub open spec fn digit_value(c: char) -> nat {
    (c as int - '0' as int) as nat
}

pub open spec fn digit_char(d: nat) -> char {
    ((d % 10) + 48) as char
}

/// The decimal digits of `n`, most significant first, without leading zeros.
pub open spec fn decimal(n: nat) -> Seq<char>
    decreases n,
{
    if n < 10 {
        seq![digit_char(n)]
    } else {
        decimal(n / 10).push(digit_char(n % 10))
    }
}

/// `n` as exactly two digits with a leading zero, for `n < 100`.
pub open spec fn two_digits(n: nat) -> Seq<char> {
    seq![digit_char(n / 10), digit_char(n % 10)]
}

pub open spec fn all_digits(s: Seq<char>) -> bool {
    forall|i: int| 0 <= i < s.len() ==> is_digit(#[trigger] s[i])
}

/// The value of a run of decimal digits.
pub open spec fn digits_value(s: Seq<char>) -> nat
    decreases s.len(),
{
    if s.len() == 0 {
        0
    } else {
        digits_value(s.drop_last()) * 10 + digit_value(s.last())
    }
}

/// What `u64::from_str` accepts: an optional `+`, then at least one digit, and
/// a value that fits.
pub open spec fn parse_unsigned(s: Seq<char>, max: nat) -> Option<nat> {
    let body = if s.len() > 0 && s[0] == '+' { s.drop_first() } else { s };
    if body.len() > 0 && all_digits(body) && digits_value(body) <= max {
        Some(digits_value(body))
    } else {
        None
    }
}

/// Leading whitespace removed.
pub open spec fn trim_start(s: Seq<char>) -> Seq<char>
    decreases s.len(),
{
    if s.len() > 0 && is_space(s[0]) {
        trim_start(s.drop_first())
    } else {
        s
    }
}

/// Trailing whitespace removed.
pub open spec fn trim_end(s: Seq<char>) -> Seq<char>
    decreases s.len(),
{
    if s.len() > 0 && is_space(s.last()) {
        trim_end(s.drop_last())
    } else {
        s
    }
}

/// `str::trim`.
pub open spec fn trim(s: Seq<char>) -> Seq<char> {
    trim_end(trim_start(s))
}

/// The position of the first occurrence of `c`, if any.
pub open spec fn first_index(s: Seq<char>, c: char) -> Option<int> {
    if exists|i: int| 0 <= i < s.len() && s[i] == c {
        let i = choose|i: int| 0 <= i < s.len() && s[i] == c && forall|j: int| 0 <= j < i ==> s[j] != c;
        Some(i)
    } else {
        None
    }
}

/// `str::split_once` on one character.
pub open spec fn split_once(s: Seq<char>, c: char) -> Option<(Seq<char>, Seq<char>)> {
    match first_index(s, c) {
        Some(i) => Some((s.take(i), s.skip(i + 1))),
        None => None,
    }
}

/// `str::starts_with`.
pub open spec fn has_prefix(s: Seq<char>, prefix: Seq<char>) -> bool {
    prefix.len() <= s.len() && s.take(prefix.len() as int) == prefix
}

/// Whether `word` occurs in `s` as one whitespace-separated word.
pub open spec fn has_word(s: Seq<char>, word: Seq<char>) -> bool {
    word.len() > 0 && exists|i: int|
        #![trigger s.subrange(i, i + word.len())]
        0 <= i && i + word.len() <= s.len() && s.subrange(i, i + word.len()) == word && (i == 0
            || is_space(s[i - 1])) && (i + word.len() == s.len() || is_space(s[i + word.len()]))
}

// ------------------------------------------------------------------ lemmas

pub proof fn lemma_decimal_nonempty(n: nat)
    ensures
        decimal(n).len() >= 1,
    decreases n,
{
    if n >= 10 {
        lemma_decimal_nonempty(n / 10);
    }
}

/// Decimal digits read back as the number they were written from.
pub proof fn lemma_decimal_reads_back(n: nat)
    ensures
        all_digits(decimal(n)),
        digits_value(decimal(n)) == n,
        decimal(n).len() >= 1,
        decimal(n)[0] != '+',
    decreases n,
{
    let d = n % 10;
    assert(digit_value(digit_char(d)) == d && is_digit(digit_char(d)));
    if n >= 10 {
        lemma_decimal_reads_back(n / 10);
        let front = decimal(n / 10);
        let s = decimal(n);
        assert(s == front.push(digit_char(d)));
        assert(s.drop_last() =~= front);
        assert forall|i: int| 0 <= i < s.len() implies is_digit(#[trigger] s[i]) by {
            if i < front.len() {
                assert(s[i] == front[i]);
            }
        }
        assert(s[0] == front[0]);
        assert(s.last() == digit_char(d));
        assert(digits_value(s) == digits_value(front) * 10 + d);
        assert(n == (n / 10) * 10 + d);
    } else {
        let s = decimal(n);
        assert(s == seq![digit_char(n)]);
        assert(s.drop_last() =~= Seq::<char>::empty());
        assert(s.last() == digit_char(d));
        assert(digits_value(Seq::<char>::empty()) == 0);
        assert(digits_value(s) == digits_value(s.drop_last()) * 10 + digit_value(s.last()));
        assert(digits_value(s) == d);
    }
}

pub proof fn lemma_first_index_found(s: Seq<char>, c: char, i: int)
    requires
        0 <= i < s.len(),
        s[i] == c,
        forall|j: int| 0 <= j < i ==> s[j] != c,
    ensures
        first_index(s, c) == Some(i),
{
    let k = choose|k: int| 0 <= k < s.len() && s[k] == c && forall|j: int| 0 <= j < k ==> s[j] != c;
    assert(k == i) by {
        if k < i {
            assert(s[k] != c);
        }
        if i < k {
            assert(s[i] != c);
        }
    }
}

proof fn lemma_trim_start_skip(s: Seq<char>, k: int)
    requires
        0 <= k <= s.len(),
        forall|j: int| 0 <= j < k ==> is_space(#[trigger] s[j]),
    ensures
        trim_start(s) == trim_start(s.skip(k)),
    decreases k,
{
    if k > 0 {
        assert(s.drop_first().skip(k - 1) =~= s.skip(k));
        assert forall|j: int| 0 <= j < k - 1 implies is_space(#[trigger] s.drop_first()[j]) by {
            assert(s.drop_first()[j] == s[j + 1]);
        }
        lemma_trim_start_skip(s.drop_first(), k - 1);
        assert(is_space(s[0]));
    } else {
        assert(s.skip(0) =~= s);
    }
}

proof fn lemma_trim_end_take(s: Seq<char>, k: int)
    requires
        0 <= k <= s.len(),
        forall|j: int| k <= j < s.len() ==> is_space(#[trigger] s[j]),
    ensures
        trim_end(s) == trim_end(s.take(k)),
    decreases s.len() - k,
{
    if k < s.len() {
        assert(s.drop_last().take(k) =~= s.take(k));
        lemma_trim_end_take(s.drop_last(), k);
    } else {
        assert(s.take(k) =~= s);
    }
}

proof fn lemma_digits_value_push(s: Seq<char>, c: char)
    ensures
        digits_value(s.push(c)) == digits_value(s) * 10 + digit_value(c),
{
    assert(s.push(c).drop_last() =~= s);
}

/// What `str::to_lowercase` returns for this text.
pub uninterp spec fn std_to_lowercase(s: Seq<char>) -> Seq<char>;

/// What `str::to_uppercase` returns for this text.
pub uninterp spec fn std_to_uppercase(s: Seq<char>) -> Seq<char>;

/// Printable ASCII other than the space.
pub open spec fn is_ascii_graphic(c: char) -> bool {
    0x21 <= (c as u32) && (c as u32) <= 0x7e
}

/// Whether `a` comes before `b` in the order `str::cmp` uses: character by
/// character by code point, a proper prefix first.
pub open spec fn text_less(a: Seq<char>, b: Seq<char>) -> bool
    decreases a.len(),
{
    if b.len() == 0 {
        false
    } else if a.len() == 0 {
        true
    } else if a[0] != b[0] {
        (a[0] as u32) < (b[0] as u32)
    } else {
        text_less(a.drop_first(), b.drop_first())
    }
}

/// No text comes before itself.
pub proof fn lemma_text_less_irreflexive(a: Seq<char>)
    ensures
        !text_less(a, a),
    decreases a.len(),
{
    if a.len() > 0 {
        lemma_text_less_irreflexive(a.drop_first());
    }
}

/// The text order is transitive.
pub proof fn lemma_text_less_transitive(a: Seq<char>, b: Seq<char>, c: Seq<char>)
    requires
        text_less(a, b),
        text_less(b, c),
    ensures
        text_less(a, c),
    decreases a.len(),
{
    if a.len() > 0 && b.len() > 0 && c.len() > 0 && a[0] == b[0] && b[0] == c[0] {
        lemma_text_less_transitive(a.drop_first(), b.drop_first(), c.drop_first());
    }
}

// ------------------------------------------------------------------ exec

/// Appends one character to a string.
#[verifier::external_body]
pub(crate) fn push_char(s: &mut String, c: char)
    ensures
        final(s)@ == old(s)@.push(c),
{
    s.push(c);
}

/// Appends a string slice.
pub fn push_str(s: &mut String, t: &str)
    ensures
        final(s)@ == old(s)@ + t@,
{
    s.append(t);
}

/// The characters of a string slice, in order.
pub fn chars_of(s: &str) -> (out: Vec<char>)
    ensures
        out@ == s@,
{
    let mut out: Vec<char> = Vec::new();
    broadcast use vstd::string::group_string_axioms;

    for c in it: s.chars()
        invariant
            out@ == it.seq().take(it.index() as int),
            it.seq() == s@,
        ensures
            out@ == s@,
    {
        out.push(c);
    }
    out
}

/// A string holding exactly the characters of `v[from..to]`.
pub fn string_from_range(v: &Vec<char>, from: usize, to: usize) -> (out: String)
    requires
        from <= to <= v.len(),
    ensures
        out@ == v@.subrange(from as int, to as int),
{
    let mut out = String::new();
    let mut i = from;
    while i < to
        invariant
            from <= i <= to <= v.len(),
            out@ == v@.subrange(from as int, i as int),
        decreases to - i,
    {
        push_char(&mut out, v[i]);
        assert(v@.subrange(from as int, i + 1) =~= v@.subrange(from as int, i as int).push(v@[i as int]));
        i = i + 1;
    }
    out
}

/// A string holding exactly the characters of `v`.
pub fn string_from(v: &Vec<char>) -> (out: String)
    ensures
        out@ == v@,
{
    let out = string_from_range(v, 0, v.len());
    assert(v@.subrange(0, v@.len() as int) =~= v@);
    out
}

/// A fresh copy of a string slice.
pub fn owned(s: &str) -> (out: String)
    ensures
        out@ == s@,
{
    let mut out = String::new();
    push_str(&mut out, s);
    assert(out@ =~= s@);
    out
}

/// Whether two string slices hold the same characters.
pub fn same_text(a: &str, b: &str) -> (r: bool)
    ensures
        r == (a@ == b@),
{
    let x = chars_of(a);
    let y = chars_of(b);
    seq_eq(&x, &y)
}

/// Whether two character vectors are equal.
pub fn seq_eq(x: &Vec<char>, y: &Vec<char>) -> (r: bool)
    ensures
        r == (x@ == y@),
{
    if x.len() != y.len() {
        return false;
    }
    let mut i: usize = 0;
    while i < x.len()
        invariant
            x.len() == y.len(),
            0 <= i <= x.len(),
            forall|j: int| 0 <= j < i ==> x@[j] == y@[j],
        decreases x.len() - i,
    {
        if x[i] != y[i] {
            return false;
        }
        i = i + 1;
    }
    assert(x@ =~= y@);
    true
}

pub fn is_space_char(c: char) -> (r: bool)
    ensures
        r == is_space(c),
{
    ('\u{9}' <= c && c <= '\u{d}') || c == ' ' || c == '\u{85}' || c == '\u{a0}' || c == '\u{1680}'
        || ('\u{2000}' <= c && c <= '\u{200a}') || c == '\u{2028}' || c == '\u{2029}' || c
        == '\u{202f}' || c == '\u{205f}' || c == '\u{3000}'
}

pub fn is_control_char(c: char) -> (r: bool)
    ensures
        r == is_control(c),
{
    c <= '\u{1f}' || ('\u{7f}' <= c && c <= '\u{9f}')
}

/// The decimal digit for `d % 10`.
pub fn digit(d: u64) -> (c: char)
    ensures
        c == digit_char(d as nat),
{
    let b: u8 = (d % 10) as u8 + 48;
    b as char
}

/// Appends the decimal rendering of `n`.
pub fn push_decimal(s: &mut String, n: u64)
    ensures
        final(s)@ == old(s)@ + decimal(n as nat),
    decreases n,
{
    if n >= 10 {
        push_decimal(s, n / 10);
    }
    push_char(s, digit(n % 10));
    assert(digit_char((n % 10) as nat) == digit_char(n as nat));
    if n >= 10 {
        assert(decimal(n as nat) == decimal((n / 10) as nat).push(digit_char((n % 10) as nat)));
    }
}

/// Appends the decimal rendering of a wide `n`.
pub fn push_decimal_wide(s: &mut String, n: u128)
    ensures
        final(s)@ == old(s)@ + decimal(n as nat),
    decreases n,
{
    if n >= 10 {
        push_decimal_wide(s, n / 10);
    }
    push_char(s, digit((n % 10) as u64));
    assert(digit_char((n % 10) as nat) == digit_char(n as nat));
    if n >= 10 {
        assert(decimal(n as nat) == decimal((n / 10) as nat).push(digit_char((n % 10) as nat)));
    }
}

/// `n.to_string()`.
pub fn decimal_string(n: u64) -> (s: String)
    ensures
        s@ == decimal(n as nat),
{
    let mut s = String::new();
    push_decimal(&mut s, n);
    assert(s@ =~= decimal(n as nat));
    s
}

/// Appends `n` as two digits with a leading zero (`{n:02}` for `n < 100`).
pub fn push_two_digits(s: &mut String, n: u64)
    requires
        n < 100,
    ensures
        final(s)@ == old(s)@ + two_digits(n as nat),
{
    push_char(s, digit(n / 10));
    push_char(s, digit(n % 10));
    assert(digit_char((n / 10) as nat) == digit_char((n / 10) as nat));
    assert(digit_char((n % 10) as nat) == digit_char(n as nat));
    assert(final(s)@ =~= old(s)@ + two_digits(n as nat));
}

pub fn is_digit_char(c: char) -> (r: bool)
    ensures
        r == is_digit(c),
{
    '0' <= c && c <= '9'
}

/// `str::parse::<u64>` over characters.
pub fn parse_u64_chars(s: &Vec<char>) -> (r: Option<u64>)
    ensures
        r matches Some(v) ==> parse_unsigned(s@, u64::MAX as nat) == Some(v as nat),
        r is None ==> parse_unsigned(s@, u64::MAX as nat) is None,
{
    let start: usize = if s.len() > 0 && s[0] == '+' { 1 } else { 0 };
    let ghost body = if s@.len() > 0 && s@[0] == '+' { s@.drop_first() } else { s@ };
    assert(body =~= s@.skip(start as int));
    if start >= s.len() {
        return None;
    }
    let mut value: u64 = 0;
    let mut i = start;
    while i < s.len()
        invariant
            start <= i <= s.len(),
            start < s.len(),
            body =~= s@.skip(start as int),
            body == (if s@.len() > 0 && s@[0] == '+' { s@.drop_first() } else { s@ }),
            all_digits(s@.subrange(start as int, i as int)),
            value as nat == digits_value(s@.subrange(start as int, i as int)),
        decreases s.len() - i,
    {
        let c = s[i];
        proof {
            lemma_digits_value_push(s@.subrange(start as int, i as int), c);
            assert(s@.subrange(start as int, i + 1) =~= s@.subrange(start as int, i as int).push(c));
        }
        if !is_digit_char(c) {
            proof {
                assert(body[i - start] == c);
                assert(!all_digits(body));
            }
            return None;
        }
        let d = (c as u32 - '0' as u32) as u64;
        assert(d as nat == digit_value(c));
        match value.checked_mul(10) {
            Some(m) => match m.checked_add(d) {
                Some(v) => {
                    value = v;
                },
                None => {
                    proof { overflow_means_none(s@, body, start as int, i as int); }
                    return None;
                },
            },
            None => {
                proof { overflow_means_none(s@, body, start as int, i as int); }
                return None;
            },
        }
        i = i + 1;
    }
    assert(s@.subrange(start as int, s.len() as int) =~= body);
    Some(value)
}

proof fn overflow_means_none(s: Seq<char>, body: Seq<char>, start: int, i: int)
    requires
        0 <= start <= i < s.len(),
        body == s.skip(start),
        all_digits(s.subrange(start, i + 1)),
        digits_value(s.subrange(start, i + 1)) > u64::MAX,
    ensures
        !(all_digits(body) && digits_value(body) <= u64::MAX),
{
    assert(body.take(i - start + 1) =~= s.subrange(start, i + 1));
    lemma_digits_monotone_prefix(body, i - start + 1);
}

/// A longer run of digits never has a smaller value than its prefix.
proof fn lemma_digits_monotone_prefix(s: Seq<char>, k: int)
    requires
        0 <= k <= s.len(),
        all_digits(s.take(k)),
    ensures
        all_digits(s) ==> digits_value(s.take(k)) <= digits_value(s),
    decreases s.len() - k,
{
    if k < s.len() && all_digits(s) {
        assert(s.take(k + 1).drop_last() =~= s.take(k));
        assert(all_digits(s.take(k + 1)));
        lemma_digits_monotone_prefix(s, k + 1);
    }
    if k == s.len() {
        assert(s.take(k) =~= s);
    }
}

/// `str::parse::<u64>` for a string slice.
pub fn parse_u64(s: &str) -> (r: Option<u64>)
    ensures
        r matches Some(v) ==> parse_unsigned(s@, u64::MAX as nat) == Some(v as nat),
        r is None ==> parse_unsigned(s@, u64::MAX as nat) is None,
{
    let v = chars_of(s);
    parse_u64_chars(&v)
}

/// `str::trim` on a character vector.
pub fn trim_chars(v: &Vec<char>) -> (out: Vec<char>)
    ensures
        out@ == trim(v@),
{
    let mut start: usize = 0;
    while start < v.len() && is_space_char(v[start])
        invariant
            0 <= start <= v.len(),
            forall|j: int| 0 <= j < start ==> is_space(#[trigger] v@[j]),
        decreases v.len() - start,
    {
        start = start + 1;
    }
    proof {
        lemma_trim_start_skip(v@, start as int);
    }
    let ghost rest = v@.skip(start as int);
    assert(trim_start(rest) == rest);
    let mut end: usize = v.len();
    while end > start && is_space_char(v[end - 1])
        invariant
            start <= end <= v.len(),
            forall|j: int| end <= j < v.len() ==> is_space(#[trigger] v@[j]),
        decreases end,
    {
        end = end - 1;
    }
    proof {
        assert forall|j: int| end - start <= j < rest.len() implies is_space(#[trigger] rest[j]) by {
            assert(rest[j] == v@[j + start]);
        }
        lemma_trim_end_take(rest, end - start);
        assert(rest.take(end - start) =~= v@.subrange(start as int, end as int));
        if end > start {
            assert(v@.subrange(start as int, end as int).last() == v@[end - 1]);
        }
    }
    let mut out: Vec<char> = Vec::new();
    let mut i = start;
    while i < end
        invariant
            start <= i <= end <= v.len(),
            out@ == v@.subrange(start as int, i as int),
        decreases end - i,
    {
        out.push(v[i]);
        assert(v@.subrange(start as int, i + 1) =~= v@.subrange(start as int, i as int).push(v@[i as int]));
        i = i + 1;
    }
    out
}

/// `str::trim` for a string slice.
pub fn trimmed(s: &str) -> (out: String)
    ensures
        out@ == trim(s@),
{
    let v = chars_of(s);
    let t = trim_chars(&v);
    string_from(&t)
}

/// The index of the first `c` in `v`.
pub fn find_char(v: &Vec<char>, c: char) -> (r: Option<usize>)
    ensures
        r matches Some(i) ==> first_index(v@, c) == Some(i as int) && i < v.len() && v@[i as int]
            == c,
        r is None ==> first_index(v@, c) is None,
{
    let mut i: usize = 0;
    while i < v.len()
        invariant
            0 <= i <= v.len(),
            forall|j: int| 0 <= j < i ==> v@[j] != c,
        decreases v.len() - i,
    {
        if v[i] == c {
            proof {
                lemma_first_index_found(v@, c, i as int);
            }
            return Some(i);
        }
        i = i + 1;
    }
    None
}

/// `str::split_once(c)`.
pub fn split_once_chars(v: &Vec<char>, c: char) -> (r: Option<(Vec<char>, Vec<char>)>)
    ensures
        r matches Some(p) ==> split_once(v@, c) == Some((p.0@, p.1@)),
        r is None ==> split_once(v@, c) is None,
{
    match find_char(v, c) {
        None => None,
        Some(i) => {
            let mut head: Vec<char> = Vec::new();
            let mut tail: Vec<char> = Vec::new();
            let mut j: usize = 0;
            while j < v.len()
                invariant
                    0 <= i < v.len(),
                    0 <= j <= v.len(),
                    head@ == v@.take(if j <= i { j as int } else { i as int }),
                    tail@ == (if j <= i + 1 { Seq::<char>::empty() } else { v@.subrange(
                        i + 1,
                        j as int,
                    ) }),
                decreases v.len() - j,
            {
                if j < i {
                    head.push(v[j]);
                    assert(v@.take(j + 1) =~= v@.take(j as int).push(v@[j as int]));
                } else if j > i {
                    tail.push(v[j]);
                    assert(v@.subrange(i + 1, j + 1) =~= (if j <= i + 1 {
                        Seq::<char>::empty()
                    } else {
                        v@.subrange(i + 1, j as int)
                    }).push(v@[j as int]));
                }
                j = j + 1;
            }
            assert(tail@ =~= v@.skip(i + 1));
            Some((head, tail))
        },
    }
}

/// Whether `v` starts with `prefix`.
pub fn starts_with_chars(v: &Vec<char>, prefix: &Vec<char>) -> (r: bool)
    ensures
        r == has_prefix(v@, prefix@),
{
    if prefix.len() > v.len() {
        return false;
    }
    let mut i: usize = 0;
    while i < prefix.len()
        invariant
            prefix.len() <= v.len(),
            0 <= i <= prefix.len(),
            forall|j: int| 0 <= j < i ==> v@[j] == prefix@[j],
        decreases prefix.len() - i,
    {
        if v[i] != prefix[i] {
            assert(v@.take(prefix.len() as int)[i as int] != prefix@[i as int]);
            return false;
        }
        i = i + 1;
    }
    assert(v@.take(prefix.len() as int) =~= prefix@);
    true
}

/// Whether `word` is one of the whitespace-separated words of `v`.
pub fn contains_word(v: &Vec<char>, word: &Vec<char>) -> (r: bool)
    ensures
        r == has_word(v@, word@),
{
    let n = word.len();
    if n == 0 || n > v.len() {
        return false;
    }
    let mut i: usize = 0;
    while i <= v.len() - n
        invariant
            0 < n <= v.len(),
            n == word@.len(),
            0 <= i <= v.len() - n + 1,
            forall|k: int|
                #![trigger v@.subrange(k, k + n)]
                0 <= k < i ==> !(v@.subrange(k, k + n) == word@ && (k == 0 || is_space(v@[k - 1]))
                    && (k + n == v.len() || is_space(v@[k + n]))),
        decreases v.len() - i,
    {
        let before = i == 0 || is_space_char(v[i - 1]);
        let after = i + n == v.len() || is_space_char(v[i + n]);
        if before && after {
            let mut j: usize = 0;
            let mut same = true;
            while j < n
                invariant
                    0 <= j <= n,
                    n == word@.len(),
                    i + n <= v.len(),
                    same == (forall|k: int| 0 <= k < j ==> v@[i + k] == word@[k]),
                decreases n - j,
            {
                if v[i + j] != word[j] {
                    same = false;
                }
                j = j + 1;
            }
            if same {
                assert(v@.subrange(i as int, i + n) =~= word@);
                return true;
            } else {
                proof {
                    let k = choose|k: int| 0 <= k < n && v@[i + k] != word@[k];
                    assert(v@.subrange(i as int, i + n)[k] != word@[k]);
                }
            }
        }
        i = i + 1;
    }
    false
}

/// `str::to_lowercase`: the text in lower case, by Unicode's rules. The
/// contract only names the result.
#[verifier::external_body]
pub(crate) fn lowercase(s: &str) -> (r: String)
    ensures
        r@ == std_to_lowercase(s@),
{
    s.to_lowercase()
}

/// `str::to_uppercase`: the text in upper case, by Unicode's rules. The
/// contract only names the result.
#[verifier::external_body]
pub(crate) fn uppercase(s: &str) -> (r: String)
    ensures
        r@ == std_to_uppercase(s@),
{
    s.to_uppercase()
}

pub fn is_ascii_graphic_char(c: char) -> (r: bool)
    ensures
        r == is_ascii_graphic(c),
{
    '!' <= c && c <= '~'
}

/// `a < b` for strings, compared as `str::cmp` does.
pub fn text_less_chars(a: &Vec<char>, b: &Vec<char>) -> (r: bool)
    ensures
        r == text_less(a@, b@),
{
    let mut i: usize = 0;
    assert(a@.skip(0) =~= a@);
    assert(b@.skip(0) =~= b@);
    while i < a.len() && i < b.len()
        invariant
            i <= a.len(),
            i <= b.len(),
            text_less(a@, b@) == text_less(a@.skip(i as int), b@.skip(i as int)),
        decreases a.len() - i,
    {
        if a[i] != b[i] {
            return (a[i] as u32) < (b[i] as u32);
        }
        assert(a@.skip(i as int).drop_first() =~= a@.skip(i + 1));
        assert(b@.skip(i as int).drop_first() =~= b@.skip(i + 1));
        i = i + 1;
    }
    i < b.len()
}

} // verus!
