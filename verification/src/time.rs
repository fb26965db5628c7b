//! Spans of time and how they are written.
use crate::number::{decimal, format_two_digits, format_u64, two_digits};
use crate::text::{repeat_char, repeated};
use vstd::prelude::*;

verus! {

/// Nanoseconds in a second.
pub const SECOND: u32 = 1_000_000_000;

/// A span of time: whole seconds, and nanoseconds below one second.
#[derive(Clone, Copy, Debug, PartialEq, Eq, Structural)]
pub struct Span {
    pub secs: u64,
    pub nanos: u32,
}

impl Span {
    /// The part below one second is below one second.
    pub open spec fn valid(self) -> bool {
        self.nanos < SECOND
    }

    /// The length in nanoseconds.
    pub open spec fn total(self) -> int {
        self.secs * SECOND + self.nanos
    }

    pub fn new(secs: u64, nanos: u32) -> (r: Span)
        requires
            nanos < SECOND,
        ensures
            r.valid(),
            r.total() == secs * SECOND + nanos,
            r.secs == secs,
    {
        Span { secs, nanos }
    }

    pub fn from_secs(secs: u64) -> (r: Span)
        ensures
            r.valid(),
            r.total() == secs * SECOND,
            r == (Span { secs, nanos: 0 }),
    {
        Span { secs, nanos: 0 }
    }

    pub fn from_millis(millis: u64) -> (r: Span)
        ensures
            r.valid(),
            r.total() == millis * 1_000_000,
    {
        let secs: u64 = millis / 1000;
        let nanos: u32 = ((millis % 1000) * 1_000_000) as u32;
        assert(millis == secs * 1000 + millis % 1000);
        Span { secs, nanos }
    }

    /// Whether the span is empty.
    pub fn is_zero(self) -> (r: bool)
        requires
            self.valid(),
        ensures
            r == (self.total() == 0),
    {
        self.secs == 0 && self.nanos == 0
    }

    /// Whether this span is shorter than another.
    pub fn shorter_than(self, other: Span) -> (r: bool)
        requires
            self.valid(),
            other.valid(),
        ensures
            r == (self.total() < other.total()),
    {
        self.secs < other.secs || self.secs == other.secs && self.nanos < other.nanos
    }

    /// The sum of two spans, or the longest span there is.
    pub fn plus(self, other: Span) -> (r: Span)
        requires
            self.valid(),
            other.valid(),
        ensures
            r.valid(),
            r.total() == span_sum(self.total(), other.total()),
    {
        let carry: u64 = if self.nanos + other.nanos >= SECOND {
            1
        } else {
            0
        };
        let nanos: u32 = if carry == 1 {
            self.nanos + other.nanos - SECOND
        } else {
            self.nanos + other.nanos
        };
        match self.secs.checked_add(other.secs) {
            Some(secs) => match secs.checked_add(carry) {
                Some(secs) => Span { secs, nanos },
                None => Span { secs: u64::MAX, nanos: SECOND - 1 },
            },
            None => Span { secs: u64::MAX, nanos: SECOND - 1 },
        }
    }

    /// What is left of a span, or nothing.
    pub fn minus(self, other: Span) -> (r: Span)
        requires
            self.valid(),
            other.valid(),
        ensures
            r.valid(),
            r.total() == span_difference(self.total(), other.total()),
    {
        if self.shorter_than(other) {
            return Span { secs: 0, nanos: 0 };
        }
        if self.nanos >= other.nanos {
            Span { secs: self.secs - other.secs, nanos: self.nanos - other.nanos }
        } else {
            Span { secs: self.secs - other.secs - 1, nanos: SECOND + self.nanos - other.nanos }
        }
    }
}

/// The span of a length in nanoseconds.
pub open spec fn span_of(total: int) -> Span {
    Span { secs: (total / SECOND as int) as u64, nanos: (total % SECOND as int) as u32 }
}

/// A valid span is that of its length, so its length decides it.
pub proof fn lemma_span_of(span: Span)
    requires
        span.valid(),
    ensures
        span_of(span.total()) == span,
{
    let t = span.total();
    assert(t / SECOND as int == span.secs && t % SECOND as int == span.nanos) by (nonlinear_arith)
        requires
            t == span.secs * SECOND + span.nanos,
            0 <= span.nanos < SECOND,
            SECOND > 0,
    ;
}

/// The longest span, in nanoseconds.
pub open spec fn longest() -> int {
    u64::MAX * SECOND + SECOND - 1
}

/// A sum that stops at the longest span.
pub open spec fn span_sum(a: int, b: int) -> int {
    if a + b <= longest() {
        a + b
    } else {
        longest()
    }
}

/// A difference that stops at nothing.
pub open spec fn span_difference(a: int, b: int) -> int {
    if a < b {
        0
    } else {
        a - b
    }
}

/// A played time in hours, minutes and seconds.
pub open spec fn elapsed_text(seconds: nat) -> Seq<char> {
    if seconds >= 3600 {
        decimal(seconds / 3600) + "h "@ + two_digits(seconds / 60 % 60) + "m "@ + two_digits(
            seconds % 60,
        ) + "s"@
    } else {
        decimal(seconds / 60) + "m "@ + two_digits(seconds % 60) + "s"@
    }
}

pub fn format_elapsed(duration: Span) -> (r: String)
    ensures
        r@ == elapsed_text(duration.secs as nat),
{
    let seconds: u64 = duration.secs;
    if seconds >= 3600 {
        let mut out = format_u64(seconds / 3600);
        out.append("h ");
        out.append(format_two_digits(seconds / 60 % 60).as_str());
        out.append("m ");
        out.append(format_two_digits(seconds % 60).as_str());
        out.append("s");
        out
    } else {
        let mut out = format_u64(seconds / 60);
        out.append("m ");
        out.append(format_two_digits(seconds % 60).as_str());
        out.append("s");
        out
    }
}

/// A length in minutes and seconds.
pub open spec fn duration_text(seconds: nat) -> Seq<char> {
    decimal(seconds / 60) + ":"@ + two_digits(seconds % 60)
}

pub fn format_duration(duration: Span) -> (r: String)
    ensures
        r@ == duration_text(duration.secs as nat),
{
    let mut out = format_u64(duration.secs / 60);
    out.append(":");
    out.append(format_two_digits(duration.secs % 60).as_str());
    out
}

/// How many of `width` cells are filled: the played share of the length,
/// rounded to the nearest cell and upward from the middle between two.
pub open spec fn filled_cells(elapsed: int, length: int, width: int) -> int {
    if length <= 0 {
        0
    } else if elapsed >= length {
        width
    } else {
        (2 * elapsed * width + length) / (2 * length)
    }
}

/// A bar of `width` cells.
pub open spec fn bar(elapsed: Span, total: Option<Span>, width: nat) -> Seq<char> {
    let filled = match total {
        Some(length) => filled_cells(elapsed.total(), length.total(), width as int),
        None => 0,
    };
    repeated('/', filled as nat) + repeated(' ', (width - filled) as nat)
}

/// A bar never has more filled cells than cells.
pub proof fn filled_cells_fit(elapsed: int, length: int, width: int)
    requires
        0 <= elapsed,
        0 <= width,
    ensures
        0 <= filled_cells(elapsed, length, width) <= width,
{
    if 0 <= elapsed < length {
        let n = 2 * elapsed * width + length;
        assert(0 <= n / (2 * length) <= width) by (nonlinear_arith)
            requires
                n == 2 * elapsed * width + length,
                0 <= elapsed < length,
                0 <= width,
        {
            assert(2 * elapsed * width <= 2 * (length - 1) * width) by (nonlinear_arith)
                requires
                    0 <= elapsed <= length - 1,
                    0 <= width,
            ;
            assert(n < (width + 1) * (2 * length)) by (nonlinear_arith)
                requires
                    n <= 2 * (length - 1) * width + length,
                    0 < length,
                    0 <= width,
            ;
            assert(0 <= 2 * elapsed * width) by (nonlinear_arith)
                requires
                    0 <= elapsed,
                    0 <= width,
            ;
            vstd::arithmetic::div_mod::lemma_fundamental_div_mod(n, 2 * length);
            let q = n / (2 * length);
            assert(q < width + 1) by (nonlinear_arith)
                requires
                    n < (width + 1) * (2 * length),
                    q * (2 * length) <= n,
                    0 < length,
            ;
            assert(q >= 0) by (nonlinear_arith)
                requires
                    q == n / (2 * length),
                    n >= 0,
                    0 < length,
            ;
        }
    }
}

/// A bar has exactly as many cells as it was asked for.
pub proof fn bar_has_its_width(elapsed: Span, total: Option<Span>, width: nat)
    requires
        elapsed.valid(),
    ensures
        bar(elapsed, total, width).len() == width,
{
    if let Some(length) = total {
        filled_cells_fit(elapsed.total(), length.total(), width as int);
    }
}

pub fn progress_bar(elapsed: Span, total: Option<Span>, width: usize) -> (r: String)
    requires
        elapsed.valid(),
        total matches Some(length) ==> length.valid(),
    ensures
        r@ == bar(elapsed, total, width as nat),
        r@.len() == width,
{
    proof {
        bar_has_its_width(elapsed, total, width as nat);
    }
    let filled: usize = match total {
        Some(length) => if length.is_zero() {
            0
        } else if !elapsed.shorter_than(length) {
            width
        } else {
            proof {
                filled_cells_fit(elapsed.total(), length.total(), width as int);
            }
            rounded_share(elapsed, length, width)
        },
        None => 0,
    };
    let mut out = repeat_char('/', filled);
    out.append(repeat_char(' ', width - filled).as_str());
    out
}

/// The share of a shorter span in a longer one, in cells.
fn rounded_share(part: Span, whole: Span, width: usize) -> (r: usize)
    requires
        part.valid(),
        whole.valid(),
        part.total() < whole.total(),
    ensures
        r == filled_cells(part.total(), whole.total(), width as int),
{
    let e: u128 = part.secs as u128 * SECOND as u128 + part.nanos as u128;
    let d: u128 = whole.secs as u128 * SECOND as u128 + whole.nanos as u128;
    let mut quotient: usize = 0;
    let mut rest: u128 = 0;
    let mut i: usize = 0;
    assert(0 * d == 0 && 0 * e == 0);
    while i < width
        invariant
            i <= width,
            quotient <= i,
            rest < d,
            e < d,
            d <= longest(),
            quotient * d + rest == i * e,
        decreases width - i,
    {
        rest = rest + e;
        assert((i + 1) * e == i * e + e) by (nonlinear_arith);
        if rest >= d {
            rest = rest - d;
            assert((quotient + 1) * d == quotient * d + d) by (nonlinear_arith);
            quotient = quotient + 1;
        }
        i += 1;
    }
    proof {
        let n: int = 2 * e * width + d;
        let q: int = if 2 * rest >= d {
            quotient + 1
        } else {
            quotient as int
        };
        let r: int = if 2 * rest >= d {
            2 * rest - d
        } else {
            2 * rest + d
        };
        assert(n == q * (2 * d) + r) by (nonlinear_arith)
            requires
                n == 2 * e * width + d,
                quotient * d + rest == width * e,
                2 * rest >= d ==> q == quotient + 1 && r == 2 * rest - d,
                2 * rest < d ==> q == quotient && r == 2 * rest + d,
        ;
        vstd::arithmetic::div_mod::lemma_fundamental_div_mod_converse(n, 2 * d as int, q, r);
        assert(q == filled_cells(part.total(), whole.total(), width as int));
        filled_cells_fit(part.total(), whole.total(), width as int);
    }
    if 2 * rest >= d {
        quotient + 1
    } else {
        quotient
    }
}

// ---------------------------------------------------------------------------
// What holds of every time
// ---------------------------------------------------------------------------

/// Below the longest span, spans add up, and taking one away again gives the
/// other back. Nothing is shorter than no time.
pub proof fn spans_add_up(a: int, b: int)
    requires
        0 <= a,
        0 <= b,
    ensures
        a + b <= u64::MAX * 1_000_000_000 + 999_999_999 ==> span_sum(a, b) == a + b
            && span_difference(span_sum(a, b), b) == a,
        a + b > u64::MAX * 1_000_000_000 + 999_999_999 ==> span_sum(a, b) == u64::MAX
            * 1_000_000_000 + 999_999_999,
        a <= b ==> span_difference(a, b) == 0,
        a >= b ==> span_difference(a, b) + b == a,
{
}

/// A length is written as minutes, and seconds in two digits.
pub proof fn lengths_show_minutes_and_seconds(minutes: nat, seconds: nat)
    requires
        seconds < 60,
    ensures
        duration_text(60 * minutes + seconds) == decimal(minutes) + ":"@ + seq![
            (('0' as u32) + seconds / 10) as char,
            (('0' as u32) + seconds % 10) as char,
        ],
{
    assert((60 * minutes + seconds) / 60 == minutes && (60 * minutes + seconds) % 60 == seconds)
        by (nonlinear_arith)
        requires
            seconds < 60,
    ;
    lemma_two_digits(seconds);
}

proof fn lemma_two_digits(n: nat)
    requires
        n < 100,
    ensures
        two_digits(n) == seq![
            (('0' as u32) + n / 10) as char,
            (('0' as u32) + n % 10) as char,
        ],
{
    if n < 10 {
        assert(two_digits(n) =~= seq![
            (('0' as u32) + n / 10) as char,
            (('0' as u32) + n % 10) as char,
        ]);
    } else {
        assert(decimal(n) == decimal(n / 10).push(crate::number::digit_char(n % 10)));
        assert(decimal(n / 10) =~= seq![crate::number::digit_char(n / 10)]);
        assert(two_digits(n) =~= seq![
            (('0' as u32) + n / 10) as char,
            (('0' as u32) + n % 10) as char,
        ]);
    }
}

/// Elapsed time is written as minutes and seconds, behind the hours where there
/// are any.
pub proof fn elapsed_shows_hours_minutes_and_seconds(hours: nat, minutes: nat, seconds: nat)
    requires
        minutes < 60,
        seconds < 60,
    ensures
        ({
            let tail = "m "@ + seq![
                (('0' as u32) + seconds / 10) as char,
                (('0' as u32) + seconds % 10) as char,
            ] + "s"@;
            let shown = elapsed_text(3600 * hours + 60 * minutes + seconds);
            &&& hours == 0 ==> shown == decimal(minutes) + tail
            &&& hours > 0 ==> shown == decimal(hours) + "h "@ + seq![
                (('0' as u32) + minutes / 10) as char,
                (('0' as u32) + minutes % 10) as char,
            ] + tail
        }),
{
    let n = 3600 * hours + 60 * minutes + seconds;
    assert(n / 3600 == hours && n / 60 % 60 == minutes && n % 60 == seconds && n / 60 == 60 * hours
        + minutes) by {
        assert(n / 60 == 60 * hours + minutes);
        assert((60 * hours + minutes) % 60 == minutes);
    }
    lemma_two_digits(seconds);
    lemma_two_digits(minutes);
    let tail = "m "@ + two_digits(seconds) + "s"@;
    if hours == 0 {
        assert(elapsed_text(n) =~= decimal(minutes) + tail);
    } else {
        assert(elapsed_text(n) =~= decimal(hours) + "h "@ + two_digits(minutes) + tail);
    }
}

/// A cell of a bar is filled exactly where its middle was played. A bar is blank
/// where the length is not known or nothing, and full at the end.
pub proof fn bars_show_the_share_played(elapsed: Span, total: Option<Span>, width: nat, i: int)
    requires
        elapsed.valid(),
        total matches Some(length) ==> length.valid(),
        0 <= i < width,
    ensures
        bar(elapsed, total, width).len() == width,
        bar(elapsed, total, width)[i] == '/' || bar(elapsed, total, width)[i] == ' ',
        bar(elapsed, total, width)[i] == '/' <==> {
            let played = elapsed.secs * 1_000_000_000 + elapsed.nanos;
            total matches Some(length) && {
                let whole = length.secs * 1_000_000_000 + length.nanos;
                whole > 0 && (played >= whole || whole * (2 * i + 1) <= 2 * played * width)
            }
        },
{
    let filled = match total {
        Some(length) => filled_cells(elapsed.total(), length.total(), width as int),
        None => 0,
    };
    filled_cells_fit(
        elapsed.total(),
        match total {
            Some(length) => length.total(),
            None => 0,
        },
        width as int,
    );
    if let Some(length) = total {
        let played = elapsed.total();
        let whole = length.total();
        if 0 < whole && played < whole {
            let p = 2 * played * width + whole;
            assert(filled == p / (2 * whole));
            vstd::arithmetic::div_mod::lemma_fundamental_div_mod(p, 2 * whole);
            vstd::arithmetic::div_mod::lemma_mod_bound(p, 2 * whole);
            assert(i < filled <==> whole * (2 * i + 1) <= 2 * played * width) by (nonlinear_arith)
                requires
                    whole > 0,
                    p == 2 * played * width + whole,
                    p == (2 * whole) * filled + p % (2 * whole),
                    0 <= p % (2 * whole) < 2 * whole,
            ;
        }
    }
}

} // verus!
