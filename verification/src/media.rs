//! Reading ffprobe's report: which streams matter, and the numbers the size
//! estimate and the progress bar need, taken from ffprobe's text fields.
use vstd::prelude::*;

use crate::domain::{AudioStreamInfo, FrameRate, InputMedia, VideoStreamInfo};
use crate::text::{
    all_digits, chars_of, digits_value, first_index, is_control, is_control_char, owned,
    parse_u64, parse_u64_chars, parse_unsigned, push_str, split_once, split_once_chars, string_from,
    trim, trim_chars, is_digit_char, digit_value, is_digit, decimal, lemma_decimal_reads_back,
    lemma_first_index_found,
};

verus! {

/// One entry of ffprobe's `streams` array, as far as otter reads it.
#[derive(Debug, Clone)]
pub struct ProbeStream {
    pub codec_type: Option<String>,
    pub codec_name: Option<String>,
    pub width: Option<u32>,
    pub height: Option<u32>,
    pub duration: Option<String>,
    pub bit_rate: Option<String>,
    pub r_frame_rate: Option<String>,
    pub avg_frame_rate: Option<String>,
    pub channels: Option<u32>,
    pub sample_rate: Option<String>,
}

/// ffprobe's `format` object, as far as otter reads it.
#[derive(Debug, Clone)]
pub struct ProbeFormat {
    pub format_name: Option<String>,
    pub duration: Option<String>,
    pub bit_rate: Option<String>,
    pub size: Option<String>,
}

/// ffprobe's whole JSON report.
#[derive(Debug, Clone)]
pub struct ProbeResponse {
    pub streams: Vec<ProbeStream>,
    pub format: Option<ProbeFormat>,
}

#[derive(Debug, Clone)]
pub enum ProbeError {
    InputMissing,
    /// ffprobe could not be started; the operating system's reason.
    Invocation(String),
    /// ffprobe exited with an error; its cleaned-up message.
    Failed(String),
    /// ffprobe's output was not the JSON expected; the parser's reason.
    InvalidJson(String),
    NoVideoStream,
    InvalidDimensions,
}

impl ProbeError {
    /// The sentence the interface shows for this error.
    pub fn message(&self) -> (r: String)
        ensures
            r@ == (match self {
                ProbeError::InputMissing => "The selected input file does not exist."@,
                ProbeError::Invocation(reason) => "Failed to start ffprobe: "@ + reason@,
                ProbeError::Failed(reason) => "ffprobe failed: "@ + reason@,
                ProbeError::InvalidJson(reason) => "ffprobe returned invalid JSON: "@ + reason@,
                ProbeError::NoVideoStream => "The selected file does not contain a video stream."@,
                ProbeError::InvalidDimensions => "The primary video stream has invalid dimensions."@,
            }),
    {
        let mut r = String::new();
        match self {
            ProbeError::InputMissing => push_str(&mut r, "The selected input file does not exist."),
            ProbeError::Invocation(reason) => {
                push_str(&mut r, "Failed to start ffprobe: ");
                push_str(&mut r, reason.as_str());
            },
            ProbeError::Failed(reason) => {
                push_str(&mut r, "ffprobe failed: ");
                push_str(&mut r, reason.as_str());
            },
            ProbeError::InvalidJson(reason) => {
                push_str(&mut r, "ffprobe returned invalid JSON: ");
                push_str(&mut r, reason.as_str());
            },
            ProbeError::NoVideoStream => push_str(
                &mut r,
                "The selected file does not contain a video stream.",
            ),
            ProbeError::InvalidDimensions => push_str(
                &mut r,
                "The primary video stream has invalid dimensions.",
            ),
        }
        assert(r@ =~= (match self {
            ProbeError::InputMissing => "The selected input file does not exist."@,
            ProbeError::Invocation(reason) => "Failed to start ffprobe: "@ + reason@,
            ProbeError::Failed(reason) => "ffprobe failed: "@ + reason@,
            ProbeError::InvalidJson(reason) => "ffprobe returned invalid JSON: "@ + reason@,
            ProbeError::NoVideoStream => "The selected file does not contain a video stream."@,
            ProbeError::InvalidDimensions => "The primary video stream has invalid dimensions."@,
        }));
        r
    }
}

// ------------------------------------------------------------------ specs

/// `value` scaled to `10^(6 - len)`: fractional digits read as microseconds.
pub open spec fn micros_of_fraction(fraction: Seq<char>) -> nat
    decreases 6 - fraction.len(),
{
    if fraction.len() >= 6 {
        digits_value(fraction.take(6))
    } else {
        micros_of_fraction(fraction.push('0'))
    }
}

/// A length in seconds as ffprobe prints it (`12.500000`): an optional `+`,
/// digits, and an optional fraction, read to the microsecond (further digits
/// are dropped). `None` for anything else and for values beyond `u64`.
pub open spec fn duration_micros(s: Seq<char>) -> Option<nat> {
    let body = if s.len() > 0 && s[0] == '+' { s.drop_first() } else { s };
    match split_once(body, '.') {
        Some((w, f)) => duration_parts(w, f),
        None => duration_parts(body, Seq::<char>::empty()),
    }
}

/// Whole seconds and a fraction, read to the microsecond.
pub open spec fn duration_parts(whole: Seq<char>, fraction: Seq<char>) -> Option<nat> {
    if all_digits(whole) && all_digits(fraction) && whole.len() + fraction.len() > 0 {
        let micros = digits_value(whole) * 1_000_000 + micros_of_fraction(fraction);
        if micros <= u64::MAX {
            Some(micros)
        } else {
            None
        }
    } else {
        None
    }
}

/// ffprobe's `num/den` frame rate; both sides whole numbers, the rate positive.
pub open spec fn frame_rate_of(s: Seq<char>) -> Option<FrameRate> {
    match split_once(s, '/') {
        Some((n, d)) => match (parse_unsigned(trim(n), u64::MAX as nat), parse_unsigned(
            trim(d),
            u64::MAX as nat,
        )) {
            (Some(num), Some(den)) => if num > 0 && den > 0 {
                Some(FrameRate { numerator: num as u64, denominator: den as u64 })
            } else {
                None
            },
            _ => None,
        },
        None => None,
    }
}

/// A bitrate field in bits per second, as whole kilobits; zero counts as absent.
pub open spec fn bitrate_kbps_of(s: Seq<char>) -> Option<u32> {
    match parse_unsigned(s, u64::MAX as nat) {
        Some(bits) => if bits > 0 {
            if bits / 1000 <= u32::MAX {
                Some((bits / 1000) as u32)
            } else {
                Some(u32::MAX)
            }
        } else {
            None
        },
        None => None,
    }
}

pub open spec fn opt_text(o: Option<String>) -> Option<Seq<char>> {
    match o {
        Some(s) => Some(s@),
        None => None,
    }
}

pub open spec fn has_kind(stream: ProbeStream, kind: Seq<char>) -> bool {
    opt_text(stream.codec_type) == Some(kind)
}

/// The index of the first stream of a kind.
pub open spec fn first_of_kind(streams: Seq<ProbeStream>, kind: Seq<char>) -> Option<int> {
    if exists|i: int| 0 <= i < streams.len() && has_kind(streams[i], kind) {
        Some(
            choose|i: int|
                0 <= i < streams.len() && has_kind(streams[i], kind) && forall|j: int|
                    0 <= j < i ==> !has_kind(streams[j], kind),
        )
    } else {
        None
    }
}

/// The codec a stream names, or `unknown`.
pub open spec fn codec_text(name: Option<String>) -> Seq<char> {
    match name {
        Some(name) => name@,
        None => "unknown"@,
    }
}

pub open spec fn parsed_with<T>(field: Option<String>, f: spec_fn(Seq<char>) -> Option<T>) -> Option<T> {
    match field {
        Some(s) => f(s@),
        None => None,
    }
}

pub open spec fn positive(v: Option<u32>) -> bool {
    match v {
        Some(x) => x > 0,
        None => false,
    }
}

/// The error a report yields, if any: no video stream, or a first video stream
/// without positive dimensions.
pub open spec fn probe_error(response: ProbeResponse) -> Option<ProbeError> {
    match first_of_kind(response.streams@, "video"@) {
        None => Some(ProbeError::NoVideoStream),
        Some(i) => {
            let video = response.streams@[i];
            if positive(video.width) && positive(video.height) {
                None
            } else {
                Some(ProbeError::InvalidDimensions)
            }
        },
    }
}

pub open spec fn format_field(
    format: Option<ProbeFormat>,
    pick: spec_fn(ProbeFormat) -> Option<String>,
) -> Option<String> {
    match format {
        Some(f) => pick(f),
        None => None,
    }
}

/// Whether `media` is what a report without error says about `path`: the first
/// video stream, the first audio stream, the container's duration (else the
/// video stream's), the average frame rate (else the nominal one), bitrates,
/// format name and size.
pub open spec fn media_matches(path: Seq<char>, response: ProbeResponse, media: InputMedia) -> bool {
    let streams = response.streams@;
    let format = response.format;
    let vi = first_of_kind(streams, "video"@)->0;
    let video = streams[vi];
    let audio = first_of_kind(streams, "audio"@);
    let format_duration = parsed_with(
        format_field(format, |f: ProbeFormat| f.duration),
        |s: Seq<char>| duration_micros(s),
    );
    let avg_rate = parsed_with(video.avg_frame_rate, |s: Seq<char>| frame_rate_of(s));
    &&& media.path@ == path
    &&& media.duration_micros == (match format_duration {
        Some(d) => Some(d as u64),
        None => match parsed_with(video.duration, |s: Seq<char>| duration_micros(s)) {
            Some(d) => Some(d as u64),
            None => None,
        },
    })
    &&& media.video.codec@ == codec_text(video.codec_name)
    &&& Some(media.video.width) == video.width
    &&& Some(media.video.height) == video.height
    &&& media.video.frame_rate == (match avg_rate {
        Some(r) => Some(r),
        None => parsed_with(video.r_frame_rate, |s: Seq<char>| frame_rate_of(s)),
    })
    &&& media.video.bitrate_kbps == parsed_with(video.bit_rate, |s: Seq<char>| bitrate_kbps_of(s))
    &&& match audio {
        None => media.audio is None,
        Some(ai) => media.audio matches Some(a) && {
            let stream = streams[ai];
            &&& a.codec@ == codec_text(stream.codec_name)
            &&& a.channels == stream.channels
            &&& a.sample_rate == (match parsed_with(
                stream.sample_rate,
                |s: Seq<char>| parse_unsigned(s, u32::MAX as nat),
            ) {
                Some(v) => Some(v as u32),
                None => None,
            })
        },
    }
    &&& opt_text(media.format_name) == opt_text(format_field(format, |f: ProbeFormat| f.format_name))
    &&& media.size_bytes == (match parsed_with(
        format_field(format, |f: ProbeFormat| f.size),
        |s: Seq<char>| parse_unsigned(s, u64::MAX as nat),
    ) {
        Some(v) => Some(v as u64),
        None => None,
    })
    &&& media.bitrate_kbps == parsed_with(
        format_field(format, |f: ProbeFormat| f.bit_rate),
        |s: Seq<char>| bitrate_kbps_of(s),
    )
}

/// The characters a message keeps: everything but control characters, except
/// newlines and tabs.
pub open spec fn printable(s: Seq<char>) -> Seq<char>
    decreases s.len(),
{
    if s.len() == 0 {
        s
    } else {
        let rest = printable(s.drop_last());
        let c = s.last();
        if !is_control(c) || c == '\n' || c == '\t' {
            rest.push(c)
        } else {
            rest
        }
    }
}

/// ffprobe's stderr as shown to the user: control characters dropped,
/// surrounding whitespace trimmed, at most 2000 characters.
pub open spec fn sanitized(s: Seq<char>) -> Seq<char> {
    let t = trim(printable(s));
    if t.len() <= 2000 {
        t
    } else {
        t.take(2000)
    }
}

// ------------------------------------------------------------------ exec

/// Reads the fractional part of a duration as microseconds.
fn fraction_micros(v: &Vec<char>, from: usize) -> (r: u64)
    requires
        from <= v.len(),
        all_digits(v@.skip(from as int)),
    ensures
        r as nat == micros_of_fraction(v@.skip(from as int)),
        r < 1_000_000,
{
    let mut value: u64 = 0;
    let mut count: usize = 0;
    let ghost frac = v@.skip(from as int);
    proof {
        lemma_pow10_small();
    }
    while count < 6
        invariant
            from <= v.len(),
            frac == v@.skip(from as int),
            all_digits(frac),
            count <= 6,
            value < pow10(count as nat),
            pow10(0) == 1 && pow10(1) == 10 && pow10(2) == 100 && pow10(3) == 1000 && pow10(4)
                == 10000 && pow10(5) == 100000 && pow10(6) == 1000000,
            value as nat == digits_value(padded(frac, count as nat).take(count as int)),
        decreases 6 - count,
    {
        let d: u64 = if count < v.len() - from {
            assert(frac[count as int] == v@[from + count]);
            assert(is_digit(frac[count as int]));
            (v[from + count] as u32 - '0' as u32) as u64
        } else {
            0
        };
        proof {
            let p = padded(frac, count as nat);
            let p1 = padded(frac, (count + 1) as nat);
            lemma_padded_step(frac, count as nat);
            assert(p1.take(count as int) =~= p.take(count as int));
            if count < v.len() - from {
                assert(p1[count as int] == frac[count as int]);
            } else {
                assert(p1[count as int] == '0');
            }
            assert(d as nat == digit_value(p1[count as int]));
            assert(p1.take(count + 1).drop_last() =~= p1.take(count as int));
            assert(p1.take(count + 1).last() == p1[count as int]);
        }
        value = value * 10 + d;
        count = count + 1;
    }
    proof {
        lemma_padded_full(frac, 6);
    }
    value
}

proof fn lemma_pow10_small()
    ensures
        pow10(0) == 1 && pow10(1) == 10 && pow10(2) == 100 && pow10(3) == 1000 && pow10(4) == 10000
            && pow10(5) == 100000 && pow10(6) == 1000000,
{
    reveal_with_fuel(pow10, 7);
}

proof fn lemma_digits_below_power(s: Seq<char>)
    requires
        all_digits(s),
    ensures
        digits_value(s) < pow10(s.len()),
    decreases s.len(),
{
    if s.len() > 0 {
        let front = s.drop_last();
        assert forall|i: int| 0 <= i < front.len() implies is_digit(#[trigger] front[i]) by {
            assert(front[i] == s[i]);
        }
        lemma_digits_below_power(front);
        assert(is_digit(s[s.len() - 1]));
        assert(digit_value(s.last()) <= 9);
        assert(pow10(s.len()) == 10 * pow10(front.len()));
    }
}

/// Fractional digits read as the fraction they write: `f` digits after the
/// point are `digits_value(f) / 10^len(f)` of a second, in microseconds.
proof fn lemma_fraction_scaled(f: Seq<char>)
    requires
        all_digits(f),
        f.len() <= 6,
    ensures
        micros_of_fraction(f) == digits_value(f) * pow10((6 - f.len()) as nat),
    decreases 6 - f.len(),
{
    if f.len() < 6 {
        let g = f.push('0');
        assert(g.drop_last() =~= f);
        assert forall|i: int| 0 <= i < g.len() implies is_digit(#[trigger] g[i]) by {
            if i < f.len() {
                assert(g[i] == f[i]);
            }
        }
        lemma_fraction_scaled(g);
        assert(micros_of_fraction(f) == micros_of_fraction(g));
        assert(g.last() == '0');
        assert(digit_value('0') == 0);
        assert(digits_value(g) == digits_value(f) * 10);
        assert(pow10((6 - f.len()) as nat) == 10 * pow10((6 - g.len()) as nat));
        assert(digits_value(f) * 10 * pow10((6 - g.len()) as nat) == digits_value(f) * (10 * pow10(
            (6 - g.len()) as nat,
        ))) by (nonlinear_arith);
    } else {
        assert(f.take(6) =~= f);
        assert(pow10(0) == 1);
        assert(micros_of_fraction(f) == digits_value(f));
        assert((6 - f.len()) as nat == 0);
    }
}

/// A length ffprobe prints as whole seconds and up to six decimals reads as
/// exactly that many microseconds: `12.5` is twelve and a half seconds.
pub proof fn lemma_duration_reads_seconds(seconds: nat, fraction: Seq<char>)
    requires
        all_digits(fraction),
        fraction.len() <= 6,
        seconds * 1_000_000 + 999_999 <= u64::MAX,
    ensures
        duration_micros(decimal(seconds)) == Some(seconds * 1_000_000),
        fraction.len() > 0 ==> duration_micros(decimal(seconds) + "."@ + fraction) == Some(
            seconds * 1_000_000 + digits_value(fraction) * pow10((6 - fraction.len()) as nat),
        ),
        digits_value(fraction) * pow10((6 - fraction.len()) as nat) < 1_000_000,
{
    lemma_decimal_reads_back(seconds);
    let w = decimal(seconds);
    assert(forall|i: int| 0 <= i < w.len() ==> w[i] != '.') by {
        assert forall|i: int| 0 <= i < w.len() implies w[i] != '.' by {
            assert(is_digit(w[i]));
        }
    }
    assert(split_once(w, '.') is None);
    assert(micros_of_fraction(Seq::<char>::empty()) == 0) by {
        lemma_fraction_scaled(Seq::<char>::empty());
        assert(digits_value(Seq::<char>::empty()) == 0);
        assert(0 * pow10(6) == 0);
    }
    lemma_fraction_scaled(fraction);
    lemma_digits_below_power(fraction);
    assert(digits_value(fraction) * pow10((6 - fraction.len()) as nat) < 1_000_000) by {
        let k = (6 - fraction.len()) as nat;
        lemma_pow10_positive(k);
        assert(pow10(fraction.len()) * pow10(k) == 1_000_000) by {
            lemma_pow10_adds(fraction.len(), k);
            reveal_with_fuel(pow10, 7);
        }
        assert(digits_value(fraction) * pow10(k) < pow10(fraction.len()) * pow10(k)) by (nonlinear_arith)
            requires
                digits_value(fraction) < pow10(fraction.len()),
                pow10(k) > 0,
        {
        }
        lemma_pow10_positive(k);
    }
    if fraction.len() > 0 {
        let t = w + "."@ + fraction;
        reveal_strlit(".");
        assert(t[w.len() as int] == '.');
        assert forall|j: int| 0 <= j < w.len() implies t[j] != '.' by {
            assert(t[j] == w[j]);
            assert(is_digit(w[j]));
        }
        lemma_first_index_found(t, '.', w.len() as int);
        assert(t.take(w.len() as int) =~= w);
        assert(t.skip(w.len() as int + 1) =~= fraction);
        assert(t[0] == w[0]);
    }
}

proof fn lemma_pow10_positive(n: nat)
    ensures
        pow10(n) > 0,
    decreases n,
{
    if n > 0 {
        lemma_pow10_positive((n - 1) as nat);
    }
}

proof fn lemma_pow10_adds(a: nat, b: nat)
    ensures
        pow10(a) * pow10(b) == pow10(a + b),
    decreases a,
{
    if a == 0 {
        assert(pow10(0) == 1);
        assert(a + b == b);
    } else {
        let a1 = (a - 1) as nat;
        lemma_pow10_adds(a1, b);
        assert(pow10(a) == 10 * pow10(a1));
        assert(a + b == (a1 + b) + 1);
        assert(pow10(a + b) == 10 * pow10(a1 + b));
        assert(pow10(a) * pow10(b) == 10 * (pow10(a1) * pow10(b))) by (nonlinear_arith)
            requires
                pow10(a) == 10 * pow10(a1),
        ;
    }
}

/// A bitrate ffprobe prints in bits per second becomes whole kilobits,
/// rounded down; a zero rate counts as unknown.
pub proof fn lemma_bitrate_in_kilobits(bits: nat)
    requires
        bits <= u64::MAX,
    ensures
        bits == 0 ==> bitrate_kbps_of(decimal(bits)) is None,
        (0 < bits && bits / 1000 <= u32::MAX) ==> (bitrate_kbps_of(decimal(bits)) matches Some(k)
            && k * 1000 <= bits < (k + 1) * 1000),
{
    lemma_decimal_reads_back(bits);
}

/// Ten to the power `n`.
pub open spec fn pow10(n: nat) -> nat
    decreases n,
{
    if n == 0 {
        1
    } else {
        10 * pow10((n - 1) as nat)
    }
}

/// `s` extended with zeros until it holds at least `n` characters.
pub open spec fn padded(s: Seq<char>, n: nat) -> Seq<char>
    decreases n,
{
    if s.len() >= n {
        s
    } else {
        padded(s, (n - 1) as nat).push('0')
    }
}

proof fn lemma_padded_step(s: Seq<char>, n: nat)
    ensures
        padded(s, n + 1).take(n as int) =~= padded(s, n).take(n as int),
        padded(s, n).len() >= n,
        padded(s, n + 1).len() >= n + 1,
        padded(s, n).len() == (if s.len() >= n { s.len() } else { n }),
        n < s.len() ==> padded(s, n + 1)[n as int] == s[n as int],
        n >= s.len() ==> padded(s, n + 1)[n as int] == '0',
        forall|i: int| 0 <= i < s.len() && i < padded(s, n).len() ==> padded(s, n)[i] == s[i],
    decreases n,
{
    if n > 0 {
        lemma_padded_step(s, (n - 1) as nat);
    }
    if s.len() >= n + 1 {
    } else {
        assert(padded(s, n + 1) == padded(s, n).push('0'));
    }
}

proof fn lemma_padded_full(s: Seq<char>, n: nat)
    requires
        n == 6,
    ensures
        micros_of_fraction(s) == digits_value(padded(s, n).take(n as int)),
    decreases 6 - s.len(),
{
    if s.len() >= 6 {
        assert(padded(s, 6) == s);
    } else {
        lemma_padded_full(s.push('0'), n);
        lemma_padded_push(s, 6);
    }
}

proof fn lemma_padded_push(s: Seq<char>, n: nat)
    requires
        s.len() < n,
    ensures
        padded(s, n) == padded(s.push('0'), n),
    decreases n,
{
    if s.len() + 1 == n {
        assert(padded(s, (n - 1) as nat) == s);
    } else {
        lemma_padded_push(s, (n - 1) as nat);
    }
}

/// The split of a duration's text around its first dot.
#[verifier::spinoff_prover]
#[verifier::rlimit(40)]
proof fn lemma_duration_split(s: Seq<char>, start: int, dot: int)
    requires
        0 <= start <= 1,
        start == 1 <==> (s.len() > 0 && s[0] == '+'),
        start <= dot <= s.len(),
        forall|j: int| start <= j < dot ==> s[j] != '.',
        dot < s.len() ==> s[dot] == '.',
    ensures
        ({
            let body = if s.len() > 0 && s[0] == '+' { s.drop_first() } else { s };
            split_once(body, '.') == (if dot < s.len() {
                Some((s.subrange(start, dot), s.skip(dot + 1)))
            } else {
                None::<(Seq<char>, Seq<char>)>
            }) && (dot >= s.len() ==> body == s.subrange(start, dot))
        }),
{
    let body = if s.len() > 0 && s[0] == '+' { s.drop_first() } else { s };
    assert(body =~= s.skip(start));
    if dot < s.len() {
        assert(body[dot - start] == '.');
        let k = choose|k: int| 0 <= k < body.len() && body[k] == '.' && forall|j: int| 0 <= j < k ==> body[j] != '.';
        assert(k == dot - start) by {
            if k < dot - start {
                assert(body[k] == s[start + k]);
            }
        }
        assert(body.take(dot - start) =~= s.subrange(start, dot));
        assert(body.skip(dot - start + 1) =~= s.skip(dot + 1));
    } else {
        assert(!(exists|i: int| 0 <= i < body.len() && body[i] == '.')) by {
            if exists|i: int| 0 <= i < body.len() && body[i] == '.' {
                let i = choose|i: int| 0 <= i < body.len() && body[i] == '.';
                assert(body[i] == s[start + i]);
            }
        }
        assert(body =~= s.subrange(start, dot));
    }
}

/// A length in seconds, read to the microsecond.
pub fn parse_duration(value: &str) -> (r: Option<u64>)
    ensures
        r matches Some(m) ==> duration_micros(value@) == Some(m as nat),
        r is None ==> duration_micros(value@) is None,
{
    let s = chars_of(value);
    let start: usize = if s.len() > 0 && s[0] == '+' { 1 } else { 0 };
    let mut dot: usize = start;
    while dot < s.len() && s[dot] != '.'
        invariant
            start <= dot <= s.len(),
            forall|j: int| start <= j < dot ==> s@[j] != '.',
        decreases s.len() - dot,
    {
        dot = dot + 1;
    }
    proof {
        lemma_duration_split(s@, start as int, dot as int);
    }
    let ghost whole = s@.subrange(start as int, dot as int);
    let ghost fraction = if dot < s.len() { s@.skip(dot + 1) } else { Seq::<char>::empty() };
    assert(duration_micros(value@) == duration_parts(whole, fraction));
    // the whole seconds
    let limit: u64 = u64::MAX / 1_000_000;
    let mut seconds: u64 = 0;
    let mut i: usize = start;
    while i < dot
        invariant
            start <= i <= dot <= s.len(),
            whole == s@.subrange(start as int, dot as int),
            duration_micros(value@) == duration_parts(whole, fraction),
            limit == u64::MAX / 1_000_000,
            all_digits(s@.subrange(start as int, i as int)),
            seconds as nat == digits_value(s@.subrange(start as int, i as int)),
            seconds <= limit,
        decreases dot - i,
    {
        let c = s[i];
        if !is_digit_char(c) {
            proof {
                assert(whole[i - start] == c);
            }
            return None;
        }
        proof {
            assert(s@.subrange(start as int, i + 1).drop_last() =~= s@.subrange(start as int, i as int));
            assert(s@.subrange(start as int, i + 1).last() == c);
            assert forall|k: int| 0 <= k < i + 1 - start implies is_digit(#[trigger] s@.subrange(start as int, i + 1)[k]) by {
                if k < i - start {
                    assert(s@.subrange(start as int, i + 1)[k] == s@.subrange(start as int, i as int)[k]);
                }
            }
        }
        let d = (c as u32 - '0' as u32) as u64;
        if seconds > (limit - d) / 10 {
            proof {
                assert(seconds * 10 + d > limit) by (nonlinear_arith)
                    requires
                        seconds > (limit - d) / 10,
                        d <= limit,
                ;
                lemma_whole_too_large(s@, start as int, i as int, dot as int, fraction);
            }
            return None;
        }
        seconds = seconds * 10 + d;
        i = i + 1;
    }
    let mut frac_micros: u64 = 0;
    if dot < s.len() {
        let mut j: usize = dot + 1;
        while j < s.len()
            invariant
                dot < j <= s.len(),
                fraction == s@.skip(dot + 1),
                duration_micros(value@) == duration_parts(whole, fraction),
                forall|k: int| dot < k < j ==> is_digit(#[trigger] s@[k]),
            decreases s.len() - j,
        {
            if !is_digit_char(s[j]) {
                proof {
                    assert(fraction[j - dot - 1] == s@[j as int]);
                }
                return None;
            }
            j = j + 1;
        }
        proof {
            assert forall|k: int| 0 <= k < fraction.len() implies is_digit(#[trigger] fraction[k]) by {
                assert(fraction[k] == s@[dot + 1 + k]);
            }
        }
        frac_micros = fraction_micros(&s, dot + 1);
    } else {
        proof {
            lemma_zero_fraction(Seq::<char>::empty());
        }
    }
    if dot == start && (dot >= s.len() || dot + 1 == s.len()) {
        return None;
    }
    assert(seconds * 1_000_000 <= u64::MAX) by (nonlinear_arith)
        requires
            seconds <= u64::MAX / 1_000_000,
    ;
    match (seconds * 1_000_000).checked_add(frac_micros) {
        Some(total) => Some(total),
        None => None,
    }
}

proof fn lemma_zero_fraction(s: Seq<char>)
    requires
        s.len() <= 6,
        forall|i: int| 0 <= i < s.len() ==> s[i] == '0',
    ensures
        micros_of_fraction(s) == 0,
    decreases 6 - s.len(),
{
    if s.len() >= 6 {
        lemma_zero_digits(s.take(6));
    } else {
        lemma_zero_fraction(s.push('0'));
    }
}

proof fn lemma_zero_digits(s: Seq<char>)
    requires
        forall|i: int| 0 <= i < s.len() ==> s[i] == '0',
    ensures
        digits_value(s) == 0,
    decreases s.len(),
{
    if s.len() > 0 {
        lemma_zero_digits(s.drop_last());
    }
}

proof fn lemma_whole_too_large(s: Seq<char>, start: int, i: int, dot: int, fraction: Seq<char>)
    requires
        0 <= start <= i < dot <= s.len(),
        all_digits(s.subrange(start, i + 1)),
        digits_value(s.subrange(start, i + 1)) > u64::MAX / 1_000_000,
    ensures
        all_digits(s.subrange(start, dot)) ==> digits_value(s.subrange(start, dot)) * 1_000_000
            + micros_of_fraction(fraction) > u64::MAX,
{
    if all_digits(s.subrange(start, dot)) {
        lemma_prefix_le(s.subrange(start, dot), i - start + 1);
        assert(s.subrange(start, dot).take(i - start + 1) =~= s.subrange(start, i + 1));
    }
}

proof fn lemma_prefix_le(s: Seq<char>, k: int)
    requires
        0 <= k <= s.len(),
        all_digits(s),
    ensures
        digits_value(s.take(k)) <= digits_value(s),
    decreases s.len() - k,
{
    if k < s.len() {
        assert(s.take(k + 1).drop_last() =~= s.take(k));
        lemma_prefix_le(s, k + 1);
    } else {
        assert(s.take(k) =~= s);
    }
}

/// ffprobe's `num/den` frame rate.
pub fn parse_frame_rate(value: &str) -> (r: Option<FrameRate>)
    ensures
        r == frame_rate_of(value@),
{
    let s = chars_of(value);
    match split_once_chars(&s, '/') {
        None => None,
        Some((n, d)) => {
            let n = trim_chars(&n);
            let d = trim_chars(&d);
            match (parse_u64_chars(&n), parse_u64_chars(&d)) {
                (Some(numerator), Some(denominator)) => {
                    if numerator > 0 && denominator > 0 {
                        Some(FrameRate { numerator, denominator })
                    } else {
                        None
                    }
                },
                _ => None,
            }
        },
    }
}

/// A bitrate field in bits per second, as whole kilobits.
pub fn parse_bitrate_kbps(value: &str) -> (r: Option<u32>)
    ensures
        r == bitrate_kbps_of(value@),
{
    match parse_u64(value) {
        None => None,
        Some(bits) => {
            if bits > 0 {
                let kbps = bits / 1000;
                if kbps <= u32::MAX as u64 {
                    Some(kbps as u32)
                } else {
                    Some(u32::MAX)
                }
            } else {
                None
            }
        },
    }
}

/// The codec a stream names, or `unknown`.
pub fn codec_name(name: &Option<String>) -> (r: String)
    ensures
        r@ == codec_text(*name),
{
    match name {
        Some(name) => name.clone(),
        None => owned("unknown"),
    }
}

fn parse_u32_text(value: &Option<String>) -> (r: Option<u32>)
    ensures
        r == (match parsed_with(*value, |s: Seq<char>| parse_unsigned(s, u32::MAX as nat)) {
            Some(v) => Some(v as u32),
            None => None,
        }),
{
    match value {
        None => None,
        Some(text) => match parse_u64(text.as_str()) {
            Some(v) => {
                if v <= u32::MAX as u64 {
                    proof {
                        reveal_unsigned_bound(text@, v as nat);
                    }
                    Some(v as u32)
                } else {
                    proof {
                        reveal_unsigned_bound(text@, v as nat);
                    }
                    None
                }
            },
            None => {
                proof {
                    reveal_unsigned_bound_none(text@);
                }
                None
            },
        },
    }
}

proof fn reveal_unsigned_bound(s: Seq<char>, v: nat)
    requires
        parse_unsigned(s, u64::MAX as nat) == Some(v),
    ensures
        v <= u32::MAX ==> parse_unsigned(s, u32::MAX as nat) == Some(v),
        v > u32::MAX ==> parse_unsigned(s, u32::MAX as nat) is None,
{
}

proof fn reveal_unsigned_bound_none(s: Seq<char>)
    requires
        parse_unsigned(s, u64::MAX as nat) is None,
    ensures
        parse_unsigned(s, u32::MAX as nat) is None,
{
}

fn parse_u64_text(value: &Option<String>) -> (r: Option<u64>)
    ensures
        r == (match parsed_with(*value, |s: Seq<char>| parse_unsigned(s, u64::MAX as nat)) {
            Some(v) => Some(v as u64),
            None => None,
        }),
{
    match value {
        None => None,
        Some(text) => parse_u64(text.as_str()),
    }
}

fn duration_text(value: &Option<String>) -> (r: Option<u64>)
    ensures
        r == (match parsed_with(*value, |s: Seq<char>| duration_micros(s)) {
            Some(d) => Some(d as u64),
            None => None,
        }),
{
    match value {
        None => None,
        Some(text) => parse_duration(text.as_str()),
    }
}

fn frame_rate_text(value: &Option<String>) -> (r: Option<FrameRate>)
    ensures
        r == parsed_with(*value, |s: Seq<char>| frame_rate_of(s)),
{
    match value {
        None => None,
        Some(text) => parse_frame_rate(text.as_str()),
    }
}

fn bitrate_text(value: &Option<String>) -> (r: Option<u32>)
    ensures
        r == parsed_with(*value, |s: Seq<char>| bitrate_kbps_of(s)),
{
    match value {
        None => None,
        Some(text) => parse_bitrate_kbps(text.as_str()),
    }
}

fn clone_text(value: &Option<String>) -> (r: Option<String>)
    ensures
        opt_text(r) == opt_text(*value),
{
    match value {
        Some(text) => Some(text.clone()),
        None => None,
    }
}

fn is_kind(stream: &ProbeStream, kind: &str) -> (r: bool)
    ensures
        r == has_kind(*stream, kind@),
{
    match &stream.codec_type {
        Some(t) => crate::text::same_text(t.as_str(), kind),
        None => false,
    }
}

/// The first stream of a kind.
fn find_kind(streams: &Vec<ProbeStream>, kind: &str) -> (r: Option<usize>)
    ensures
        r matches Some(i) ==> first_of_kind(streams@, kind@) == Some(i as int) && i < streams.len(),
        r is None ==> first_of_kind(streams@, kind@) is None,
{
    let mut i: usize = 0;
    while i < streams.len()
        invariant
            0 <= i <= streams.len(),
            forall|j: int| 0 <= j < i ==> !has_kind(#[trigger] streams@[j], kind@),
        decreases streams.len() - i,
    {
        if is_kind(&streams[i], kind) {
            proof {
                let k = choose|k: int|
                    0 <= k < streams@.len() && has_kind(streams@[k], kind@) && forall|j: int|
                        0 <= j < k ==> !has_kind(streams@[j], kind@);
                assert(k == i) by {
                    if k < i {
                        assert(!has_kind(streams@[k], kind@));
                    }
                    if i < k {
                        assert(!has_kind(streams@[i as int], kind@));
                    }
                }
            }
            return Some(i);
        }
        i = i + 1;
    }
    None
}

/// Interprets ffprobe's report on `path`: the first video stream decides
/// whether the file can be converted at all.
pub fn interpret_probe(path: &str, response: &ProbeResponse) -> (r: Result<InputMedia, ProbeError>)
    ensures
        match r {
            Ok(media) => probe_error(*response) is None && media_matches(path@, *response, media),
            Err(error) => probe_error(*response) == Some(error),
        },
{
    let vi = match find_kind(&response.streams, "video") {
        Some(i) => i,
        None => return Err(ProbeError::NoVideoStream),
    };
    let video = &response.streams[vi];
    let width = match video.width {
        Some(w) => {
            if w > 0 {
                w
            } else {
                return Err(ProbeError::InvalidDimensions);
            }
        },
        None => return Err(ProbeError::InvalidDimensions),
    };
    let height = match video.height {
        Some(h) => {
            if h > 0 {
                h
            } else {
                return Err(ProbeError::InvalidDimensions);
            }
        },
        None => return Err(ProbeError::InvalidDimensions),
    };
    let audio = match find_kind(&response.streams, "audio") {
        None => None,
        Some(ai) => {
            let stream = &response.streams[ai];
            Some(
                AudioStreamInfo {
                    codec: codec_name(&stream.codec_name),
                    channels: stream.channels,
                    sample_rate: parse_u32_text(&stream.sample_rate),
                },
            )
        },
    };
    let (format_duration, format_name, size_bytes, bitrate_kbps) = match &response.format {
        Some(format) => (
            duration_text(&format.duration),
            clone_text(&format.format_name),
            parse_u64_text(&format.size),
            bitrate_text(&format.bit_rate),
        ),
        None => (None, None, None, None),
    };
    let duration_micros = match format_duration {
        Some(d) => Some(d),
        None => duration_text(&video.duration),
    };
    let frame_rate = match frame_rate_text(&video.avg_frame_rate) {
        Some(rate) => Some(rate),
        None => frame_rate_text(&video.r_frame_rate),
    };
    let media = InputMedia {
        path: owned(path),
        duration_micros,
        video: VideoStreamInfo {
            codec: codec_name(&video.codec_name),
            width,
            height,
            frame_rate,
            bitrate_kbps: bitrate_text(&video.bit_rate),
        },
        audio,
        format_name,
        size_bytes,
        bitrate_kbps,
    };
    Ok(media)
}

/// ffprobe's stderr cleaned for display.
pub fn sanitize_message(message: &str) -> (r: String)
    ensures
        r@ == sanitized(message@),
{
    let s = chars_of(message);
    let mut kept: Vec<char> = Vec::new();
    let mut i: usize = 0;
    while i < s.len()
        invariant
            0 <= i <= s.len(),
            kept@ == printable(s@.take(i as int)),
        decreases s.len() - i,
    {
        let c = s[i];
        assert(s@.take(i + 1).drop_last() =~= s@.take(i as int));
        if !is_control_char(c) || c == '\n' || c == '\t' {
            kept.push(c);
        }
        i = i + 1;
    }
    assert(s@.take(s.len() as int) =~= s@);
    let t = trim_chars(&kept);
    if t.len() <= 2000 {
        string_from(&t)
    } else {
        crate::text::string_from_range(&t, 0, 2000)
    }
}

} // verus!
