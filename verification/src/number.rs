//! Decimal and hexadecimal notation of integers and bytes.
use crate::text::{all_digits, ascii_digit, is_ascii_digit, to_chars};
use vstd::prelude::*;

verus! {

// ---------------------------------------------------------------------------
// Decimal notation
// ---------------------------------------------------------------------------

/// The character of a decimal digit.
pub open spec fn digit_char(d: nat) -> char {
    (('0' as u32) + d) as char
}

/// The value of a decimal digit's character.
pub open spec fn digit_value(c: char) -> nat {
    (c as u32 - '0' as u32) as nat
}

/// A number in decimal notation, without leading zeros.
pub open spec fn decimal(n: nat) -> Seq<char>
    decreases n,
{
    if n < 10 {
        seq![digit_char(n)]
    } else {
        decimal(n / 10).push(digit_char(n % 10))
    }
}

/// An integer in decimal notation, with a minus sign where it is negative.
pub open spec fn decimal_int(i: int) -> Seq<char> {
    if i < 0 {
        seq!['-'] + decimal((-i) as nat)
    } else {
        decimal(i as nat)
    }
}

/// A number in decimal notation, filled with a zero to two digits.
pub open spec fn two_digits(n: nat) -> Seq<char> {
    if n < 10 {
        seq!['0'] + decimal(n)
    } else {
        decimal(n)
    }
}

/// The number that a sequence of decimal digits denotes.
pub open spec fn digits_value(s: Seq<char>) -> nat
    decreases s.len(),
{
    if s.len() == 0 {
        0
    } else {
        digits_value(s.drop_last()) * 10 + digit_value(s.last())
    }
}

/// The number that one or more decimal digits denote.
pub open spec fn magnitude(s: Seq<char>) -> Option<nat> {
    if s.len() > 0 && all_digits(s) {
        Some(digits_value(s))
    } else {
        None
    }
}

/// The number that digits behind an optional plus sign denote.
pub open spec fn unsigned_value(s: Seq<char>) -> Option<nat> {
    if s.len() > 0 && s[0] == '+' {
        magnitude(s.skip(1))
    } else {
        magnitude(s)
    }
}

/// The integer that digits behind an optional sign denote.
pub open spec fn signed_value(s: Seq<char>) -> Option<int> {
    if s.len() > 0 && s[0] == '-' {
        match magnitude(s.skip(1)) {
            Some(n) => Some(-(n as int)),
            None => None,
        }
    } else {
        match unsigned_value(s) {
            Some(n) => Some(n as int),
            None => None,
        }
    }
}

pub open spec fn u64_value(s: Seq<char>) -> Option<u64> {
    match unsigned_value(s) {
        Some(n) => if n <= u64::MAX {
            Some(n as u64)
        } else {
            None
        },
        None => None,
    }
}

pub open spec fn i64_value(s: Seq<char>) -> Option<i64> {
    match signed_value(s) {
        Some(n) => if i64::MIN <= n <= i64::MAX {
            Some(n as i64)
        } else {
            None
        },
        None => None,
    }
}

pub open spec fn i32_value(s: Seq<char>) -> Option<i32> {
    match signed_value(s) {
        Some(n) => if i32::MIN <= n <= i32::MAX {
            Some(n as i32)
        } else {
            None
        },
        None => None,
    }
}

proof fn lemma_digit(d: nat)
    requires
        d < 10,
    ensures
        ascii_digit(digit_char(d)),
        digit_value(digit_char(d)) == d,
{
}

/// A number's decimal notation consists of digits that denote the number.
pub proof fn lemma_decimal(n: nat)
    ensures
        decimal(n).len() > 0,
        all_digits(decimal(n)),
        digits_value(decimal(n)) == n,
    decreases n,
{
    if n < 10 {
        lemma_digit(n);
        assert(decimal(n).drop_last() =~= Seq::<char>::empty());
        assert(digits_value(decimal(n).drop_last()) == 0);
    } else {
        lemma_decimal(n / 10);
        lemma_digit(n % 10);
        let s = decimal(n);
        assert(s.drop_last() =~= decimal(n / 10));
        assert forall|i: int| 0 <= i < s.len() implies ascii_digit(#[trigger] s[i]) by {
            if i < s.len() - 1 {
                assert(s[i] == decimal(n / 10)[i]);
            }
        }
    }
}

/// Reading an integer's decimal notation gives the integer back.
pub proof fn lemma_decimal_int_round_trip(i: int)
    ensures
        signed_value(decimal_int(i)) == Some(i),
        forall|k: int|
            0 <= k < decimal_int(i).len() ==> ascii_digit(#[trigger] decimal_int(i)[k])
                || decimal_int(i)[k] == '-',
        decimal_int(i).len() > 0,
{
    if i < 0 {
        let d = decimal((-i) as nat);
        lemma_decimal((-i) as nat);
        assert(decimal_int(i).skip(1) =~= d);
        assert forall|k: int| 0 <= k < decimal_int(i).len() implies ascii_digit(
            #[trigger] decimal_int(i)[k],
        ) || decimal_int(i)[k] == '-' by {
            if k > 0 {
                assert(decimal_int(i)[k] == d[k - 1]);
            }
        }
    } else {
        lemma_decimal(i as nat);
        assert(ascii_digit(decimal(i as nat)[0]));
    }
}

/// Further digits do not make a number smaller.
proof fn lemma_digits_value_grows(s: Seq<char>, k: int)
    requires
        0 <= k <= s.len(),
    ensures
        digits_value(s.take(k)) <= digits_value(s),
    decreases s.len(),
{
    if k == s.len() {
        assert(s.take(k) =~= s);
    } else {
        lemma_digits_value_grows(s.drop_last(), k);
        assert(s.drop_last().take(k) =~= s.take(k));
    }
}

/// Reads the digits of a text from a position on.
fn parse_magnitude(chars: &Vec<char>, from: usize) -> (r: Option<u64>)
    requires
        from <= chars@.len(),
    ensures
        r == match magnitude(chars@.skip(from as int)) {
            Some(n) => if n <= u64::MAX {
                Some(n as u64)
            } else {
                None
            },
            None => None,
        },
{
    let ghost s = chars@.skip(from as int);
    if from == chars.len() {
        return None;
    }
    let mut value: u64 = 0;
    let mut i: usize = from;
    while i < chars.len()
        invariant
            from <= i <= chars@.len(),
            s == chars@.skip(from as int),
            value == digits_value(s.take(i - from)),
            forall|j: int| 0 <= j < i - from ==> ascii_digit(#[trigger] s[j]),
        decreases chars@.len() - i,
    {
        let c = chars[i];
        let ghost k = i - from;
        assert(s[k] == c);
        if !is_ascii_digit(c) {
            return None;
        }
        let d: u64 = (c as u32 - '0' as u32) as u64;
        proof {
            assert(s.take(k + 1).drop_last() =~= s.take(k));
            assert(digits_value(s.take(k + 1)) == value * 10 + d);
            lemma_digits_value_grows(s, k + 1);
        }
        if value > 1844674407370955161 || (value == 1844674407370955161 && d > 5) {
            return None;
        }
        value = value * 10 + d;
        i += 1;
    }
    assert(s.take(s.len() as int) =~= s);
    Some(value)
}

pub fn parse_u64(text: &str) -> (r: Option<u64>)
    ensures
        r == u64_value(text@),
{
    let chars = to_chars(text);
    assert(chars@.skip(0) =~= chars@);
    if chars.len() > 0 && chars[0] == '+' {
        parse_magnitude(&chars, 1)
    } else {
        parse_magnitude(&chars, 0)
    }
}

pub fn parse_i64(text: &str) -> (r: Option<i64>)
    ensures
        r == i64_value(text@),
{
    let chars = to_chars(text);
    assert(chars@.skip(0) =~= chars@);
    if chars.len() > 0 && chars[0] == '-' {
        match parse_magnitude(&chars, 1) {
            Some(n) => if n <= 9223372036854775807 {
                Some(-(n as i64))
            } else if n == 9223372036854775808 {
                Some(i64::MIN)
            } else {
                None
            },
            None => None,
        }
    } else {
        match parse_u64(text) {
            Some(n) => if n <= 9223372036854775807 {
                Some(n as i64)
            } else {
                None
            },
            None => None,
        }
    }
}

pub fn parse_i32(text: &str) -> (r: Option<i32>)
    ensures
        r == i32_value(text@),
{
    match parse_i64(text) {
        Some(n) => if -2147483648 <= n && n <= 2147483647 {
            Some(n as i32)
        } else {
            None
        },
        None => None,
    }
}

// ---------------------------------------------------------------------------
// What is wrong with a number
// ---------------------------------------------------------------------------

/// Why a text is no number.
#[derive(Clone, Copy, Debug, PartialEq, Eq, Structural)]
pub enum NumberFault {
    Empty,
    InvalidDigit,
    TooLarge,
    TooSmall,
}

/// The first thing that is wrong with the first `n` characters as the digits of
/// a number up to `limit`.
pub open spec fn digits_fault(s: Seq<char>, n: nat, limit: nat, beyond: NumberFault) -> Option<
    NumberFault,
>
    decreases n,
{
    if n == 0 {
        None
    } else {
        match digits_fault(s, (n - 1) as nat, limit, beyond) {
            Some(fault) => Some(fault),
            None => if !ascii_digit(s[n - 1]) {
                Some(NumberFault::InvalidDigit)
            } else if digits_value(s.take(n as int)) > limit {
                Some(beyond)
            } else {
                None
            },
        }
    }
}

/// What is wrong with a text as a number up to `max`, or with a sign as one from
/// `-max - 1` on.
pub open spec fn number_fault(s: Seq<char>, signed: bool, max: nat) -> Option<NumberFault> {
    if s.len() == 0 {
        Some(NumberFault::Empty)
    } else if signed && s[0] == '-' {
        if s.len() == 1 {
            Some(NumberFault::InvalidDigit)
        } else {
            digits_fault(s.skip(1), (s.len() - 1) as nat, max + 1, NumberFault::TooSmall)
        }
    } else if s[0] == '+' {
        if s.len() == 1 {
            Some(NumberFault::InvalidDigit)
        } else {
            digits_fault(s.skip(1), (s.len() - 1) as nat, max, NumberFault::TooLarge)
        }
    } else {
        digits_fault(s, s.len(), max, NumberFault::TooLarge)
    }
}

pub open spec fn fault_text(fault: NumberFault) -> Seq<char> {
    match fault {
        NumberFault::Empty => "cannot parse integer from empty string"@,
        NumberFault::InvalidDigit => "invalid digit found in string"@,
        NumberFault::TooLarge => "number too large to fit in target type"@,
        NumberFault::TooSmall => "number too small to fit in target type"@,
    }
}

/// What is said of a text that is no number.
pub open spec fn number_error(s: Seq<char>, signed: bool, max: nat) -> Seq<char> {
    match number_fault(s, signed, max) {
        Some(fault) => fault_text(fault),
        None => seq![],
    }
}

proof fn lemma_digits_fault(s: Seq<char>, n: nat, limit: nat, beyond: NumberFault)
    requires
        n <= s.len(),
    ensures
        digits_fault(s, n, limit, beyond) is None <==> all_digits(s.take(n as int))
            && digits_value(s.take(n as int)) <= limit,
    decreases n,
{
    if n > 0 {
        let before = s.take(n - 1);
        let now = s.take(n as int);
        lemma_digits_fault(s, (n - 1) as nat, limit, beyond);
        assert(now.drop_last() =~= before);
        lemma_digits_value_grows(now, n - 1);
        assert(now.take(n - 1) =~= before);
        assert(now[n - 1] == s[n - 1]);
        if all_digits(now) {
            assert forall|i: int| 0 <= i < before.len() implies ascii_digit(
                #[trigger] before[i],
            ) by {
                assert(before[i] == now[i]);
            }
        }
        if all_digits(before) && ascii_digit(s[n - 1]) {
            assert forall|i: int| 0 <= i < now.len() implies ascii_digit(#[trigger] now[i]) by {
                if i < n - 1 {
                    assert(now[i] == before[i]);
                }
            }
        }
    } else {
        assert(s.take(0) =~= Seq::<char>::empty());
    }
}

/// Something is wrong with a text exactly where it is no number.
pub proof fn faults_tell_numbers_apart(s: Seq<char>)
    ensures
        number_fault(s, true, i32::MAX as nat) is None <==> i32_value(s) is Some,
        number_fault(s, false, u64::MAX as nat) is None <==> u64_value(s) is Some,
{
    if s.len() > 0 {
        let rest = s.skip(1);
        lemma_digits_fault(rest, rest.len(), i32::MAX as nat + 1, NumberFault::TooSmall);
        lemma_digits_fault(rest, rest.len(), i32::MAX as nat, NumberFault::TooLarge);
        lemma_digits_fault(rest, rest.len(), u64::MAX as nat, NumberFault::TooLarge);
        lemma_digits_fault(s, s.len(), i32::MAX as nat, NumberFault::TooLarge);
        lemma_digits_fault(s, s.len(), u64::MAX as nat, NumberFault::TooLarge);
        assert(rest.take(rest.len() as int) =~= rest);
        assert(s.take(s.len() as int) =~= s);
        if s[0] == '-' {
            assert(!ascii_digit(s[0]));
        }
    }
}

fn find_digits_fault(chars: &Vec<char>, from: usize, limit: u64, beyond: NumberFault) -> (r: Option<
    NumberFault,
>)
    requires
        from <= chars@.len(),
    ensures
        r == digits_fault(
            chars@.skip(from as int),
            (chars@.len() - from) as nat,
            limit as nat,
            beyond,
        ),
{
    let ghost s = chars@.skip(from as int);
    let mut value: u64 = 0;
    let mut i: usize = from;
    while i < chars.len()
        invariant
            from <= i <= chars@.len(),
            s == chars@.skip(from as int),
            value <= limit,
            value == digits_value(s.take(i - from)),
            digits_fault(s, (i - from) as nat, limit as nat, beyond) is None,
        decreases chars@.len() - i,
    {
        let c = chars[i];
        let ghost k = i - from;
        assert(s[k] == c);
        assert(s.take(k + 1).drop_last() =~= s.take(k));
        if !is_ascii_digit(c) {
            proof {
                lemma_first_fault(s, (k + 1) as nat, s.len(), limit as nat, beyond);
            }
            return Some(NumberFault::InvalidDigit);
        }
        let d: u64 = (c as u32 - '0' as u32) as u64;
        assert(digits_value(s.take(k + 1)) == value * 10 + d);
        if value as u128 * 10 + d as u128 > limit as u128 {
            proof {
                lemma_first_fault(s, (k + 1) as nat, s.len(), limit as nat, beyond);
            }
            return Some(beyond);
        }
        value = value * 10 + d;
        i += 1;
    }
    None
}

proof fn lemma_first_fault(s: Seq<char>, n: nat, m: nat, limit: nat, beyond: NumberFault)
    requires
        n <= m,
        digits_fault(s, n, limit, beyond) is Some,
    ensures
        digits_fault(s, m, limit, beyond) == digits_fault(s, n, limit, beyond),
    decreases m,
{
    if n < m {
        lemma_first_fault(s, n, (m - 1) as nat, limit, beyond);
    }
}

/// Says what is wrong with a text as a number.
pub fn explain_number(text: &str, signed: bool, max: u64) -> (r: &'static str)
    requires
        signed ==> max < u64::MAX,
    ensures
        r@ == number_error(text@, signed, max as nat),
{
    let chars = to_chars(text);
    let len: usize = chars.len();
    assert(chars@.skip(0) =~= chars@);
    let fault = if len == 0 {
        Some(NumberFault::Empty)
    } else if signed && chars[0] == '-' {
        if len == 1 {
            Some(NumberFault::InvalidDigit)
        } else {
            find_digits_fault(&chars, 1, max + 1, NumberFault::TooSmall)
        }
    } else if chars[0] == '+' {
        if len == 1 {
            Some(NumberFault::InvalidDigit)
        } else {
            find_digits_fault(&chars, 1, max, NumberFault::TooLarge)
        }
    } else {
        find_digits_fault(&chars, 0, max, NumberFault::TooLarge)
    };
    match fault {
        Some(NumberFault::Empty) => "cannot parse integer from empty string",
        Some(NumberFault::InvalidDigit) => "invalid digit found in string",
        Some(NumberFault::TooLarge) => "number too large to fit in target type",
        Some(NumberFault::TooSmall) => "number too small to fit in target type",
        None => {
            proof {
                reveal_strlit("");
                assert(""@ =~= seq![]);
            }
            ""
        },
    }
}

pub fn format_u64(n: u64) -> (r: String)
    ensures
        r@ == decimal(n as nat),
    decreases n,
{
    let d: u8 = (n % 10) as u8;
    let c = (d + 48) as char;
    assert(c == digit_char((n % 10) as nat));
    let mut out = if n < 10 {
        String::new()
    } else {
        format_u64(n / 10)
    };
    out.push(c);
    assert(n < 10 ==> out@ =~= seq![c]);
    out
}

pub fn format_usize(n: usize) -> (r: String)
    ensures
        r@ == decimal(n as nat),
{
    format_u64(n as u64)
}

pub fn format_i64(i: i64) -> (r: String)
    ensures
        r@ == decimal_int(i as int),
{
    if i < 0 {
        let mut out = "-".to_string();
        proof {
            reveal_strlit("-");
            assert(out@ =~= seq!['-']);
        }
        let size: u64 = (-(i as i128)) as u64;
        out.append(format_u64(size).as_str());
        out
    } else {
        format_u64(i as u64)
    }
}

pub fn format_two_digits(n: u64) -> (r: String)
    ensures
        r@ == two_digits(n as nat),
{
    if n < 10 {
        let mut out = "0".to_string();
        proof {
            reveal_strlit("0");
            assert(out@ =~= seq!['0']);
        }
        out.append(format_u64(n).as_str());
        out
    } else {
        format_u64(n)
    }
}

// ---------------------------------------------------------------------------
// Hexadecimal notation of bytes
// ---------------------------------------------------------------------------

/// The lower-case character of a hexadecimal digit.
pub open spec fn hex_char(d: int) -> char {
    if d < 10 {
        (('0' as u32) + d) as char
    } else {
        (('a' as u32) + d - 10) as char
    }
}

/// The value of a hexadecimal digit's character.
pub open spec fn hex_value(c: char) -> Option<u8> {
    if '0' <= c <= '9' {
        Some((c as u32 - '0' as u32) as u8)
    } else if 'a' <= c <= 'f' {
        Some((c as u32 - 'a' as u32 + 10) as u8)
    } else if 'A' <= c <= 'F' {
        Some((c as u32 - 'A' as u32 + 10) as u8)
    } else {
        None
    }
}

/// Bytes as two lower-case hexadecimal digits each.
pub open spec fn hex_text(bytes: Seq<u8>) -> Seq<char> {
    Seq::new(
        2 * bytes.len(),
        |i: int|
            if i % 2 == 0 {
                hex_char(bytes[i / 2] as int / 16)
            } else {
                hex_char(bytes[i / 2] as int % 16)
            },
    )
}

/// The byte that two characters denote: two hexadecimal digits, or one behind
/// a plus sign.
pub open spec fn hex_pair(a: char, b: char) -> Option<u8> {
    match (hex_value(a), hex_value(b)) {
        (Some(x), Some(y)) => Some((x * 16 + y) as u8),
        (None, Some(y)) => if a == '+' {
            Some(y)
        } else {
            None
        },
        _ => None,
    }
}

/// The bytes that pairs of characters denote.
pub open spec fn hex_bytes(s: Seq<char>) -> Option<Seq<u8>>
    decreases s.len(),
{
    if s.len() == 0 {
        Some(seq![])
    } else if s.len() == 1 {
        None
    } else {
        match (hex_pair(s[0], s[1]), hex_bytes(s.skip(2))) {
            (Some(b), Some(rest)) => Some(seq![b] + rest),
            _ => None,
        }
    }
}

proof fn lemma_hex_char(d: int)
    requires
        0 <= d < 16,
    ensures
        hex_value(hex_char(d)) == Some(d as u8),
        '0' <= hex_char(d) <= 'f',
{
}

/// Reading bytes back from their hexadecimal notation.
pub proof fn lemma_hex_round_trip(bytes: Seq<u8>)
    ensures
        hex_bytes(hex_text(bytes)) == Some(bytes),
    decreases bytes.len(),
{
    let s = hex_text(bytes);
    if bytes.len() > 0 {
        let b = bytes[0] as int;
        lemma_hex_char(b / 16);
        lemma_hex_char(b % 16);
        lemma_hex_round_trip(bytes.skip(1));
        assert(s.skip(2) =~= hex_text(bytes.skip(1)));
        assert(hex_pair(s[0], s[1]) == Some(bytes[0]));
        assert(seq![bytes[0]] + bytes.skip(1) =~= bytes);
    } else {
        assert(bytes =~= seq![]);
    }
}

/// Hexadecimal notation holds no character outside `0` to `f`.
pub proof fn lemma_hex_text_chars(bytes: Seq<u8>)
    ensures
        forall|i: int|
            0 <= i < hex_text(bytes).len() ==> '0' <= #[trigger] hex_text(bytes)[i] <= 'f',
{
    assert forall|i: int| 0 <= i < hex_text(bytes).len() implies '0' <= #[trigger] hex_text(
        bytes,
    )[i] <= 'f' by {
        lemma_hex_char(bytes[i / 2] as int / 16);
        lemma_hex_char(bytes[i / 2] as int % 16);
    }
}

fn hex_digit(d: u8) -> (r: char)
    requires
        d < 16,
    ensures
        r == hex_char(d as int),
{
    if d < 10 {
        (d + 48) as char
    } else {
        (d - 10 + 97) as char
    }
}

pub fn format_hex(bytes: &[u8]) -> (r: String)
    ensures
        r@ == hex_text(bytes@),
{
    let mut out = String::new();
    let mut i: usize = 0;
    while i < bytes.len()
        invariant
            i <= bytes@.len(),
            out@ == hex_text(bytes@.take(i as int)),
        decreases bytes@.len() - i,
    {
        let b = bytes[i];
        out.push(hex_digit(b / 16));
        out.push(hex_digit(b % 16));
        i += 1;
        assert(out@ =~= hex_text(bytes@.take(i as int)));
    }
    assert(bytes@.take(i as int) =~= bytes@);
    out
}

fn parse_hex_digit(c: char) -> (r: Option<u8>)
    ensures
        r == hex_value(c),
        r matches Some(v) ==> v < 16,
{
    if '0' <= c && c <= '9' {
        Some((c as u32 - '0' as u32) as u8)
    } else if 'a' <= c && c <= 'f' {
        Some((c as u32 - 'a' as u32 + 10) as u8)
    } else if 'A' <= c && c <= 'F' {
        Some((c as u32 - 'A' as u32 + 10) as u8)
    } else {
        None
    }
}

pub fn parse_hex_pair(a: char, b: char) -> (r: Option<u8>)
    ensures
        r == hex_pair(a, b),
{
    match (parse_hex_digit(a), parse_hex_digit(b)) {
        (Some(x), Some(y)) => Some(x * 16 + y),
        (None, Some(y)) => if a == '+' {
            Some(y)
        } else {
            None
        },
        _ => None,
    }
}

pub fn parse_hex(text: &str) -> (r: Option<Vec<u8>>)
    ensures
        match r {
            Some(bytes) => hex_bytes(text@) == Some(bytes@),
            None => hex_bytes(text@) is None,
        },
{
    let chars = to_chars(text);
    let mut out: Vec<u8> = Vec::new();
    let mut i: usize = 0;
    assert(chars@.skip(0) =~= chars@);
    while i < chars.len()
        invariant
            i <= chars@.len(),
            chars@ == text@,
            match hex_bytes(chars@.skip(i as int)) {
                Some(rest) => hex_bytes(text@) == Some(out@ + rest),
                None => hex_bytes(text@) is None,
            },
        decreases chars@.len() - i,
    {
        let ghost rest = chars@.skip(i as int);
        if i + 1 >= chars.len() {
            return None;
        }
        match parse_hex_pair(chars[i], chars[i + 1]) {
            Some(b) => {
                proof {
                    assert(rest[0] == chars@[i as int] && rest[1] == chars@[i + 1]);
                    assert(rest.skip(2) =~= chars@.skip(i + 2));
                    if let Some(more) = hex_bytes(rest.skip(2)) {
                        assert(out@ + (seq![b] + more) =~= out@.push(b) + more);
                    }
                }
                out.push(b);
                i += 2;
            },
            None => {
                assert(rest[0] == chars@[i as int] && rest[1] == chars@[i + 1]);
                return None;
            },
        }
    }
    assert(chars@.skip(i as int) =~= Seq::<char>::empty());
    assert(out@ + Seq::<u8>::empty() =~= out@);
    Some(out)
}

// ---------------------------------------------------------------------------
// What the notation says
// ---------------------------------------------------------------------------

/// A number is written by its decimal digits, the highest first.
pub proof fn numbers_are_written_digit_by_digit(n: nat, d: int)
    requires
        0 <= d < 10,
    ensures
        decimal(d as nat) == seq!["0123456789"@[d]],
        n > 0 ==> decimal((10 * n + d) as nat) == decimal(n).push("0123456789"@[d]),
        decimal_int(n as int) == decimal(n),
        n > 0 ==> decimal_int(-(n as int)) == seq!['-'] + decimal(n),
        two_digits(d as nat) == seq!['0', "0123456789"@[d]],
        n >= 10 ==> two_digits(n) == decimal(n),
{
    reveal_strlit("0123456789");
    assert(digit_char(d as nat) == "0123456789"@[d]);
    assert(two_digits(d as nat) =~= seq!['0', "0123456789"@[d]]);
    assert((10 * n + d) / 10 == n);
    assert((10 * n + d) % 10 == d);
}

/// A number is read by its decimal digits, the highest first, with a plus sign in
/// front or none, and a minus sign where it can be negative.
pub proof fn numbers_are_read_digit_by_digit(s: Seq<char>, n: nat, d: int)
    requires
        0 <= d < 10,
        s.len() == 0 && n == 0 || unsigned_value(s) == Some(n) && s[0] != '+',
    ensures
        ({
            let t = s.push("0123456789"@[d]);
            &&& t[0] != '+'
            &&& unsigned_value(t) == Some((10 * n + d) as nat)
            &&& unsigned_value(seq!['+'] + t) == Some((10 * n + d) as nat)
            &&& unsigned_value(seq!['-'] + t) is None
            &&& signed_value(t) == Some(10 * n + d)
            &&& signed_value(seq!['+'] + t) == Some(10 * n + d)
            &&& signed_value(seq!['-'] + t) == Some(-(10 * n + d))
        }),
{
    reveal_strlit("0123456789");
    let c = "0123456789"@[d];
    assert(c == digit_char(d as nat));
    assert(ascii_digit(c) && digit_value(c) == d);
    let t = s.push(c);
    assert(t.drop_last() =~= s);
    assert(t[0] == if s.len() > 0 {
        s[0]
    } else {
        c
    });
    if s.len() > 0 {
        assert(ascii_digit(s[0]));
    }
    assert(all_digits(t)) by {
        assert forall|i: int| 0 <= i < t.len() implies ascii_digit(#[trigger] t[i]) by {
            if i < s.len() {
                assert(t[i] == s[i]);
            }
        }
    }
    let plus = seq!['+'] + t;
    let minus = seq!['-'] + t;
    assert(plus.skip(1) =~= t);
    assert(minus.skip(1) =~= t);
    assert(minus[0] == '-');
    assert(!ascii_digit(minus[0]));
    assert(!all_digits(minus));
}

/// Nothing but digits behind at most one sign is a number.
pub proof fn only_digits_are_numbers(s: Seq<char>, i: int)
    requires
        0 <= i < s.len(),
        !('0' <= s[i] <= '9'),
        i > 0 || s[i] != '+' && s[i] != '-' || s.len() == 1,
    ensures
        signed_value(s) is None,
        unsigned_value(s) is None,
        signed_value(seq![]) is None,
        unsigned_value(seq![]) is None,
{
    assert(!ascii_digit(s[i]));
    assert(!all_digits(s));
    if i > 0 {
        assert(s.skip(1)[i - 1] == s[i]);
        assert(!all_digits(s.skip(1)));
    }
}

/// A byte is written as two digits of base sixteen, in lower case, and read in
/// either case.
pub proof fn bytes_are_two_hexadecimal_digits(high: int, low: int)
    requires
        0 <= high < 16,
        0 <= low < 16,
    ensures
        hex_text(seq![(16 * high + low) as u8]) == seq![
            "0123456789abcdef"@[high],
            "0123456789abcdef"@[low],
        ],
        hex_pair("0123456789abcdef"@[high], "0123456789abcdef"@[low]) == Some(
            (16 * high + low) as u8,
        ),
        hex_pair("0123456789ABCDEF"@[high], "0123456789ABCDEF"@[low]) == Some(
            (16 * high + low) as u8,
        ),
{
    reveal_strlit("0123456789abcdef");
    reveal_strlit("0123456789ABCDEF");
    let b = (16 * high + low) as u8;
    assert(b as int / 16 == high && b as int % 16 == low);
    assert(hex_char(high) == "0123456789abcdef"@[high]);
    assert(hex_char(low) == "0123456789abcdef"@[low]);
    assert(hex_text(seq![b]) =~= seq!["0123456789abcdef"@[high], "0123456789abcdef"@[low]]);
}

} // verus!
