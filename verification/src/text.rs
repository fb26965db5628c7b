//! Character classes and the string operations that the file formats, the
//! searches and the screens are written with.
//!
//! Texts are modelled as `Seq<char>`. The specification functions come first;
//! each executable function below states its result over them.
use vstd::prelude::*;

verus! {

// ---------------------------------------------------------------------------
// Character classes
// ---------------------------------------------------------------------------

/// The characters with Unicode's `White_Space` property.
pub open spec fn white_space(c: char) -> bool {
    let n = c as u32;
    ||| 0x9 <= n <= 0xd
    ||| n == 0x20
    ||| n == 0x85
    ||| n == 0xa0
    ||| n == 0x1680
    ||| 0x2000 <= n <= 0x200a
    ||| n == 0x2028
    ||| n == 0x2029
    ||| n == 0x202f
    ||| n == 0x205f
    ||| n == 0x3000
}

/// The characters of Unicode's general category `Cc`.
pub open spec fn control(c: char) -> bool {
    let n = c as u32;
    n < 0x20 || 0x7f <= n < 0xa0
}

pub open spec fn ascii_digit(c: char) -> bool {
    '0' <= c <= '9'
}

pub open spec fn ascii_hex_digit(c: char) -> bool {
    '0' <= c <= '9' || 'a' <= c <= 'f' || 'A' <= c <= 'F'
}

pub open spec fn ascii_alphanumeric(c: char) -> bool {
    '0' <= c <= '9' || 'a' <= c <= 'z' || 'A' <= c <= 'Z'
}

/// Lowers `A` to `Z` and keeps every other character.
pub open spec fn ascii_lower(c: char) -> char {
    if 'A' <= c <= 'Z' {
        ((c as u32) + 32) as char
    } else {
        c
    }
}

/// `text` with `A` to `Z` lowered.
pub open spec fn ascii_lowered(text: Seq<char>) -> Seq<char> {
    Seq::new(text.len(), |i: int| ascii_lower(text[i]))
}

pub fn is_white_space(c: char) -> (r: bool)
    ensures
        r == white_space(c),
{
    let n: u32 = c as u32;
    (0x9 <= n && n <= 0xd) || n == 0x20 || n == 0x85 || n == 0xa0 || n == 0x1680 || (0x2000 <= n && n
        <= 0x200a) || n == 0x2028 || n == 0x2029 || n == 0x202f || n == 0x205f || n == 0x3000
}

pub fn is_control(c: char) -> (r: bool)
    ensures
        r == control(c),
{
    let n: u32 = c as u32;
    n < 0x20 || (0x7f <= n && n < 0xa0)
}

pub fn is_ascii_digit(c: char) -> (r: bool)
    ensures
        r == ascii_digit(c),
{
    '0' <= c && c <= '9'
}

pub fn is_ascii_hex_digit(c: char) -> (r: bool)
    ensures
        r == ascii_hex_digit(c),
{
    ('0' <= c && c <= '9') || ('a' <= c && c <= 'f') || ('A' <= c && c <= 'F')
}

pub fn is_ascii_alphanumeric(c: char) -> (r: bool)
    ensures
        r == ascii_alphanumeric(c),
{
    ('0' <= c && c <= '9') || ('a' <= c && c <= 'z') || ('A' <= c && c <= 'Z')
}

pub fn to_ascii_lower(c: char) -> (r: char)
    ensures
        r == ascii_lower(c),
{
    if 'A' <= c && c <= 'Z' {
        let n: u8 = c as u8;
        (n + 32) as char
    } else {
        c
    }
}

// ---------------------------------------------------------------------------
// Text operations, as functions on sequences
// ---------------------------------------------------------------------------

/// The views of a sequence of strings.
pub open spec fn texts(v: Seq<String>) -> Seq<Seq<char>> {
    Seq::new(v.len(), |i: int| v[i]@)
}

pub open spec fn trim_start(s: Seq<char>) -> Seq<char>
    decreases s.len(),
{
    if s.len() > 0 && white_space(s[0]) {
        trim_start(s.skip(1))
    } else {
        s
    }
}

pub open spec fn trim_end(s: Seq<char>) -> Seq<char>
    decreases s.len(),
{
    if s.len() > 0 && white_space(s.last()) {
        trim_end(s.drop_last())
    } else {
        s
    }
}

/// `s` without the white space at both ends.
pub open spec fn trimmed(s: Seq<char>) -> Seq<char> {
    trim_end(trim_start(s))
}

/// `s` without the copies of `c` that it starts with.
pub open spec fn strip_start(s: Seq<char>, c: char) -> Seq<char>
    decreases s.len(),
{
    if s.len() > 0 && s[0] == c {
        strip_start(s.skip(1), c)
    } else {
        s
    }
}

/// `s` without the copies of `c` that it ends with.
pub open spec fn strip_end(s: Seq<char>, c: char) -> Seq<char>
    decreases s.len(),
{
    if s.len() > 0 && s.last() == c {
        strip_end(s.drop_last(), c)
    } else {
        s
    }
}

/// `s` without the copies of `c` at both ends.
pub open spec fn stripped(s: Seq<char>, c: char) -> Seq<char> {
    strip_end(strip_start(s, c), c)
}

/// The position of the first `c` in `s`, or the length of `s`.
pub open spec fn find(s: Seq<char>, c: char) -> nat
    decreases s.len(),
{
    if s.len() == 0 || s[0] == c {
        0
    } else {
        1 + find(s.skip(1), c)
    }
}

/// The position just behind the last `c` in `s`, or 0.
pub open spec fn after_last(s: Seq<char>, c: char) -> nat
    decreases s.len(),
{
    if s.len() == 0 || s.last() == c {
        s.len()
    } else {
        after_last(s.drop_last(), c)
    }
}

/// `s` cut into at most `n` parts at the first separators.
pub open spec fn splitn(s: Seq<char>, n: nat, c: char) -> Seq<Seq<char>>
    decreases n,
{
    let i = find(s, c);
    if n <= 1 || i >= s.len() {
        seq![s]
    } else {
        seq![s.take(i as int)] + splitn(s.skip(i as int + 1), (n - 1) as nat, c)
    }
}

/// A line without the carriage return that stood before its line feed.
pub open spec fn drop_return(s: Seq<char>) -> Seq<char> {
    if s.len() > 0 && s.last() == '\r' {
        s.drop_last()
    } else {
        s
    }
}

/// The lines of a text. A line ends with a line feed or with a carriage return
/// and a line feed; the last line needs no ending.
pub open spec fn lines(s: Seq<char>) -> Seq<Seq<char>>
    decreases s.len(),
{
    let i = find(s, '\n');
    if s.len() == 0 {
        seq![]
    } else if i >= s.len() {
        seq![s]
    } else {
        seq![drop_return(s.take(i as int))] + lines(s.skip(i as int + 1))
    }
}

/// The length of the longest prefix of `s` without white space.
pub open spec fn word_end(s: Seq<char>) -> nat
    decreases s.len(),
{
    if s.len() == 0 || white_space(s[0]) {
        0
    } else {
        1 + word_end(s.skip(1))
    }
}

/// The words of a text: what stands between its runs of white space.
pub open spec fn words(s: Seq<char>) -> Seq<Seq<char>>
    decreases s.len(),
{
    if s.len() == 0 {
        seq![]
    } else if white_space(s[0]) {
        words(s.skip(1))
    } else {
        let i = word_end(s);
        proof {
            lemma_word_end(s);
        }
        seq![s.take(i as int)] + words(s.skip(i as int))
    }
}

pub open spec fn has_prefix(s: Seq<char>, p: Seq<char>) -> bool {
    p.len() <= s.len() && s.take(p.len() as int) == p
}

pub open spec fn has_suffix(s: Seq<char>, p: Seq<char>) -> bool {
    p.len() <= s.len() && s.skip(s.len() - p.len()) == p
}

/// Whether `n` stands somewhere in `h`.
pub open spec fn has_text(h: Seq<char>, n: Seq<char>) -> bool {
    exists|i: int| 0 <= i <= h.len() - n.len() && #[trigger] h.subrange(i, i + n.len()) == n
}

/// `c`, or a space where `c` would break a line or a field of a data file.
pub open spec fn unbroken_char(c: char) -> char {
    if c == '\t' || c == '\r' || c == '\n' {
        ' '
    } else {
        c
    }
}

/// `s` with tabs, carriage returns and line feeds turned into spaces.
pub open spec fn unbroken(s: Seq<char>) -> Seq<char> {
    Seq::new(s.len(), |i: int| unbroken_char(s[i]))
}

/// `n` copies of `c`.
pub open spec fn repeated(c: char, n: nat) -> Seq<char> {
    Seq::new(n, |i: int| c)
}

pub open spec fn all_digits(s: Seq<char>) -> bool {
    forall|i: int| 0 <= i < s.len() ==> ascii_digit(#[trigger] s[i])
}

pub open spec fn all_hex_digits(s: Seq<char>) -> bool {
    forall|i: int| 0 <= i < s.len() ==> ascii_hex_digit(#[trigger] s[i])
}

// ---------------------------------------------------------------------------
// Lemmas
// ---------------------------------------------------------------------------

pub proof fn lemma_find(s: Seq<char>, c: char)
    ensures
        find(s, c) <= s.len(),
        find(s, c) < s.len() ==> s[find(s, c) as int] == c,
        forall|i: int| 0 <= i < find(s, c) ==> #[trigger] s[i] != c,
        s.contains(c) <==> find(s, c) < s.len(),
    decreases s.len(),
{
    if s.len() == 0 {
    } else if s[0] == c {
        assert(s.contains(c));
    } else {
        let t = s.skip(1);
        lemma_find(t, c);
        assert forall|i: int| 0 <= i < find(s, c) implies #[trigger] s[i] != c by {
            if i > 0 {
                assert(s[i] == t[i - 1]);
            }
        }
        if find(s, c) < s.len() {
            assert(s[find(s, c) as int] == t[find(t, c) as int]);
        }
        if s.contains(c) {
            let i = choose|i: int| 0 <= i < s.len() && s[i] == c;
            assert(t[i - 1] == c);
        }
    }
}

/// The first position at which `c` stands is where `find` points.
pub proof fn lemma_find_is(s: Seq<char>, c: char, k: int)
    requires
        0 <= k <= s.len(),
        forall|i: int| 0 <= i < k ==> #[trigger] s[i] != c,
        k < s.len() ==> s[k] == c,
    ensures
        find(s, c) == k,
{
    lemma_find(s, c);
    let f = find(s, c) as int;
    if f < k {
        assert(s[f] != c);
    } else if k < f {
        assert(s[k] != c);
    }
}

pub proof fn lemma_after_last(s: Seq<char>, c: char)
    ensures
        after_last(s, c) <= s.len(),
        after_last(s, c) > 0 ==> s[after_last(s, c) - 1] == c,
        forall|i: int| after_last(s, c) <= i < s.len() ==> #[trigger] s[i] != c,
    decreases s.len(),
{
    if s.len() == 0 || s.last() == c {
    } else {
        lemma_after_last(s.drop_last(), c);
        let t = s.drop_last();
        assert forall|i: int| after_last(s, c) <= i < s.len() implies #[trigger] s[i] != c by {
            if i < t.len() {
                assert(s[i] == t[i]);
            }
        }
    }
}

pub proof fn lemma_trim_start(s: Seq<char>)
    ensures
        trim_start(s).len() <= s.len(),
        trim_start(s) == s.skip(s.len() - trim_start(s).len()),
        trim_start(s).len() > 0 ==> !white_space(trim_start(s)[0]),
        forall|i: int| 0 <= i < s.len() - trim_start(s).len() ==> white_space(#[trigger] s[i]),
    decreases s.len(),
{
    if s.len() > 0 && white_space(s[0]) {
        let t = s.skip(1);
        lemma_trim_start(t);
        assert(trim_start(s) =~= s.skip(s.len() - trim_start(s).len()));
        assert forall|i: int| 0 <= i < s.len() - trim_start(s).len() implies white_space(
            #[trigger] s[i],
        ) by {
            if i > 0 {
                assert(s[i] == t[i - 1]);
            }
        }
    } else {
        assert(s.skip(0) =~= s);
    }
}

pub proof fn lemma_trim_end(s: Seq<char>)
    ensures
        trim_end(s).len() <= s.len(),
        trim_end(s) == s.take(trim_end(s).len() as int),
        trim_end(s).len() > 0 ==> !white_space(trim_end(s).last()),
        forall|i: int| trim_end(s).len() <= i < s.len() ==> white_space(#[trigger] s[i]),
    decreases s.len(),
{
    if s.len() > 0 && white_space(s.last()) {
        let t = s.drop_last();
        lemma_trim_end(t);
        assert(trim_end(s) =~= s.take(trim_end(s).len() as int));
        assert forall|i: int| trim_end(s).len() <= i < s.len() implies white_space(
            #[trigger] s[i],
        ) by {
            if i < t.len() {
                assert(s[i] == t[i]);
            }
        }
    } else {
        assert(s.take(s.len() as int) =~= s);
    }
}

/// A trimmed text neither starts nor ends with white space.
pub proof fn lemma_trimmed(s: Seq<char>)
    ensures
        trimmed(s).len() <= s.len(),
        trimmed(s).len() > 0 ==> !white_space(trimmed(s)[0]) && !white_space(trimmed(s).last()),
{
    lemma_trim_start(s);
    lemma_trim_end(trim_start(s));
}

/// A text without white space at its ends is its own trimmed form.
pub proof fn lemma_trimmed_fixed(s: Seq<char>)
    requires
        s.len() > 0 ==> !white_space(s[0]) && !white_space(s.last()),
    ensures
        trimmed(s) == s,
{
}

pub proof fn lemma_trimmed_idempotent(s: Seq<char>)
    ensures
        trimmed(trimmed(s)) == trimmed(s),
{
    lemma_trimmed(s);
    lemma_trimmed_fixed(trimmed(s));
}

pub proof fn lemma_strip_start(s: Seq<char>, c: char)
    ensures
        strip_start(s, c).len() <= s.len(),
        strip_start(s, c) == s.skip(s.len() - strip_start(s, c).len()),
        strip_start(s, c).len() > 0 ==> strip_start(s, c)[0] != c,
    decreases s.len(),
{
    if s.len() > 0 && s[0] == c {
        lemma_strip_start(s.skip(1), c);
        assert(strip_start(s, c) =~= s.skip(s.len() - strip_start(s, c).len()));
    } else {
        assert(s.skip(0) =~= s);
    }
}

pub proof fn lemma_strip_end(s: Seq<char>, c: char)
    ensures
        strip_end(s, c).len() <= s.len(),
        strip_end(s, c) == s.take(strip_end(s, c).len() as int),
        strip_end(s, c).len() > 0 ==> strip_end(s, c).last() != c,
    decreases s.len(),
{
    if s.len() > 0 && s.last() == c {
        lemma_strip_end(s.drop_last(), c);
        assert(strip_end(s, c) =~= s.take(strip_end(s, c).len() as int));
    } else {
        assert(s.take(s.len() as int) =~= s);
    }
}

/// A line written in front of a text is read back as its first line.
pub proof fn lemma_lines_prepend(line: Seq<char>, rest: Seq<char>)
    requires
        !line.contains('\n'),
        line.len() > 0 ==> line.last() != '\r',
    ensures
        lines(line + seq!['\n'] + rest) == seq![line] + lines(rest),
{
    let s = line + seq!['\n'] + rest;
    let k = line.len() as int;
    assert forall|i: int| 0 <= i < k implies #[trigger] s[i] != '\n' by {
        assert(s[i] == line[i]);
    }
    lemma_find_is(s, '\n', k);
    assert(s.take(k) =~= line);
    assert(s.skip(k + 1) =~= rest);
}

/// A field and a separator written in front of a text are read back as the
/// first field.
pub proof fn lemma_splitn_prepend(field: Seq<char>, rest: Seq<char>, n: nat, c: char)
    requires
        n >= 2,
        !field.contains(c),
    ensures
        splitn(field + seq![c] + rest, n, c) == seq![field] + splitn(rest, (n - 1) as nat, c),
{
    let s = field + seq![c] + rest;
    let k = field.len() as int;
    assert forall|i: int| 0 <= i < k implies #[trigger] s[i] != c by {
        assert(s[i] == field[i]);
    }
    lemma_find_is(s, c, k);
    assert(s.take(k) =~= field);
    assert(s.skip(k + 1) =~= rest);
}

/// A text without the separator is one field.
pub proof fn lemma_splitn_single(s: Seq<char>, n: nat, c: char)
    requires
        !s.contains(c),
    ensures
        splitn(s, n, c) == seq![s],
{
    lemma_find(s, c);
}

pub proof fn lemma_unbroken(s: Seq<char>)
    ensures
        !unbroken(s).contains('\t'),
        !unbroken(s).contains('\r'),
        !unbroken(s).contains('\n'),
        unbroken(unbroken(s)) == unbroken(s),
{
    assert(unbroken(unbroken(s)) =~= unbroken(s));
}

pub proof fn lemma_word_end(s: Seq<char>)
    ensures
        word_end(s) <= s.len(),
        s.len() > 0 && !white_space(s[0]) ==> word_end(s) > 0,
        word_end(s) < s.len() ==> white_space(s[word_end(s) as int]),
    decreases s.len(),
{
    if s.len() == 0 || white_space(s[0]) {
    } else {
        lemma_word_end(s.skip(1));
    }
}

// ---------------------------------------------------------------------------
// Executable text operations
// ---------------------------------------------------------------------------

/// `String::push` of the standard library: appends one character.
pub assume_specification[ std::string::String::push ](s: &mut String, c: char)
    ensures
        final(s)@ == old(s)@.push(c),
;

/// The name for the result of `str::to_lowercase`, which follows Unicode's
/// case tables and its rule for the final sigma.
pub uninterp spec fn lowercased(text: Seq<char>) -> Seq<char>;

/// Calls `str::to_lowercase` of the standard library. The contract only names
/// its result.
#[verifier::external_body]
pub(crate) fn to_lowercase(text: &str) -> (r: String)
    ensures
        r@ == lowercased(text@),
{
    text.to_lowercase()
}

/// The name for what the error of `String::from_utf8` says of bytes that are no
/// UTF-8.
pub uninterp spec fn utf8_fault(bytes: Seq<u8>) -> Seq<char>;

/// `String::from_utf8`: the text that bytes encode, where they are valid UTF-8,
/// and else what the `Display` of its error says, which the contract only names.
#[verifier::external_body]
pub(crate) fn text_from_utf8(bytes: Vec<u8>) -> (r: Result<String, String>)
    ensures
        match r {
            Ok(text) => vstd::utf8::valid_utf8(bytes@) && text@ == vstd::utf8::decode_utf8(bytes@),
            Err(e) => !vstd::utf8::valid_utf8(bytes@) && e@ == utf8_fault(bytes@),
        },
{
    String::from_utf8(bytes).map_err(|e| e.to_string())
}

/// The characters of a text.
pub fn to_chars(text: &str) -> (r: Vec<char>)
    ensures
        r@ == text@,
{
    let mut out: Vec<char> = Vec::new();
    for c in it: text.chars()
        invariant
            it.seq() == text@,
            out@ == it.seq().take(it.index()),
    {
        out.push(c);
    }
    out
}

/// Fixed texts as a list.
pub fn list_of(a: Vec<&'static str>) -> (r: Vec<String>)
    ensures
        r@.len() == a@.len(),
        forall|i: int| 0 <= i < a@.len() ==> (#[trigger] r@[i])@ == a@[i]@,
{
    let mut out: Vec<String> = Vec::new();
    let mut i: usize = 0;
    while i < a.len()
        invariant
            i <= a@.len(),
            out@.len() == i,
            forall|k: int| 0 <= k < i ==> (#[trigger] out@[k])@ == a@[k]@,
        decreases a@.len() - i,
    {
        out.push(a[i].to_string());
        i += 1;
    }
    out
}

/// Lines, each with its end.
pub open spec fn joined_lines(rows: Seq<Seq<char>>) -> Seq<char>
    decreases rows.len(),
{
    if rows.len() == 0 {
        seq![]
    } else {
        rows[0] + seq!['\n'] + joined_lines(rows.skip(1))
    }
}

/// A line that is read back as it was written.
pub open spec fn plain_line(row: Seq<char>) -> bool {
    !row.contains('\n') && (row.len() > 0 ==> row.last() != '\r')
}

/// Lines that were written are read back.
pub proof fn lemma_lines_joined(rows: Seq<Seq<char>>)
    requires
        forall|i: int| 0 <= i < rows.len() ==> plain_line(#[trigger] rows[i]),
    ensures
        lines(joined_lines(rows)) == rows,
    decreases rows.len(),
{
    if rows.len() > 0 {
        let rest = rows.skip(1);
        assert forall|i: int| 0 <= i < rest.len() implies plain_line(#[trigger] rest[i]) by {
            assert(rest[i] == rows[i + 1]);
        }
        lemma_lines_joined(rest);
        assert(plain_line(rows[0]));
        lemma_lines_prepend(rows[0], joined_lines(rest));
        assert(seq![rows[0]] + rest =~= rows);
    } else {
        assert(lines(joined_lines(rows)) =~= rows);
    }
}

/// Writes lines, each with its end.
pub fn join_lines(rows: &Vec<String>) -> (r: String)
    ensures
        r@ == joined_lines(texts(rows@)),
{
    let ghost all = texts(rows@);
    let mut out = String::new();
    let mut i: usize = 0;
    assert(all.skip(0) =~= all);
    assert(out@ + joined_lines(all) =~= joined_lines(all));
    while i < rows.len()
        invariant
            i <= rows@.len(),
            all == texts(rows@),
            out@ + joined_lines(all.skip(i as int)) == joined_lines(all),
        decreases rows@.len() - i,
    {
        let ghost before = out@;
        let ghost rest = all.skip(i as int);
        out.append(rows[i].as_str());
        out.push('\n');
        proof {
            assert(rest[0] == rows@[i as int]@);
            assert(rest.skip(1) =~= all.skip(i + 1));
            assert(out@ + joined_lines(all.skip(i + 1)) =~= before + (rest[0] + seq!['\n']
                + joined_lines(rest.skip(1))));
        }
        i += 1;
    }
    assert(all.skip(i as int) =~= Seq::<Seq<char>>::empty());
    assert(out@ + Seq::<char>::empty() =~= out@);
    out
}

/// Whether a text has no characters.
pub fn is_empty_text(text: &str) -> (r: bool)
    ensures
        r == (text@.len() == 0),
{
    to_chars(text).len() == 0
}

/// The text between two positions of a sequence of characters.
pub fn slice_text(chars: &Vec<char>, from: usize, to: usize) -> (r: String)
    requires
        from <= to <= chars@.len(),
    ensures
        r@ == chars@.subrange(from as int, to as int),
{
    let mut out = String::new();
    let mut i: usize = from;
    while i < to
        invariant
            from <= i <= to <= chars@.len(),
            out@ == chars@.subrange(from as int, i as int),
        decreases to - i,
    {
        out.push(chars[i]);
        i += 1;
    }
    out
}

pub fn same_text(a: &str, b: &str) -> (r: bool)
    ensures
        r == (a@ == b@),
{
    a.to_string() == b.to_string()
}

pub fn trim(text: &str) -> (r: String)
    ensures
        r@ == trimmed(text@),
{
    let chars = to_chars(text);
    let mut from: usize = 0;
    assert(chars@.skip(0) =~= chars@);
    while from < chars.len() && is_white_space(chars[from])
        invariant
            from <= chars@.len(),
            trim_start(chars@.skip(from as int)) == trim_start(chars@),
        decreases chars@.len() - from,
    {
        assert(chars@.skip(from as int).skip(1) =~= chars@.skip(from + 1));
        from += 1;
    }
    let ghost rest = chars@.skip(from as int);
    assert(trim_start(chars@) == rest);
    let mut to: usize = chars.len();
    assert(chars@.subrange(from as int, to as int) =~= rest);
    while to > from && is_white_space(chars[to - 1])
        invariant
            from <= to <= chars@.len(),
            trim_end(chars@.subrange(from as int, to as int)) == trim_end(rest),
        decreases to,
    {
        assert(chars@.subrange(from as int, to as int).drop_last() =~= chars@.subrange(
            from as int,
            to - 1,
        ));
        to -= 1;
    }
    slice_text(&chars, from, to)
}

pub fn trim_start_char(text: &str, c: char) -> (r: String)
    ensures
        r@ == strip_start(text@, c),
{
    let chars = to_chars(text);
    let mut from: usize = 0;
    assert(chars@.skip(0) =~= chars@);
    while from < chars.len() && chars[from] == c
        invariant
            from <= chars@.len(),
            strip_start(chars@.skip(from as int), c) == strip_start(chars@, c),
        decreases chars@.len() - from,
    {
        assert(chars@.skip(from as int).skip(1) =~= chars@.skip(from + 1));
        from += 1;
    }
    assert(chars@.subrange(from as int, chars@.len() as int) =~= chars@.skip(from as int));
    slice_text(&chars, from, chars.len())
}

pub fn trim_end_char(text: &str, c: char) -> (r: String)
    ensures
        r@ == strip_end(text@, c),
{
    let chars = to_chars(text);
    let mut to: usize = chars.len();
    assert(chars@.take(to as int) =~= chars@);
    while to > 0 && chars[to - 1] == c
        invariant
            to <= chars@.len(),
            strip_end(chars@.take(to as int), c) == strip_end(chars@, c),
        decreases to,
    {
        assert(chars@.take(to as int).drop_last() =~= chars@.take(to - 1));
        to -= 1;
    }
    slice_text(&chars, 0, to)
}

pub fn trim_char(text: &str, c: char) -> (r: String)
    ensures
        r@ == stripped(text@, c),
{
    trim_end_char(trim_start_char(text, c).as_str(), c)
}

/// The position of the first `c` at or behind `from`, or the length.
pub fn find_from(chars: &Vec<char>, from: usize, c: char) -> (r: usize)
    requires
        from <= chars@.len(),
    ensures
        r == from + find(chars@.skip(from as int), c),
        from <= r <= chars@.len(),
{
    let mut i: usize = from;
    while i < chars.len() && chars[i] != c
        invariant
            from <= i <= chars@.len(),
            forall|j: int| from <= j < i ==> #[trigger] chars@[j] != c,
        decreases chars@.len() - i,
    {
        i += 1;
    }
    proof {
        let t = chars@.skip(from as int);
        assert forall|j: int| 0 <= j < i - from implies #[trigger] t[j] != c by {
            assert(t[j] == chars@[from + j]);
        }
        lemma_find_is(t, c, i - from);
    }
    i
}

pub fn contains_char(text: &str, c: char) -> (r: bool)
    ensures
        r == text@.contains(c),
{
    let chars = to_chars(text);
    let i = find_from(&chars, 0, c);
    proof {
        assert(chars@.skip(0) =~= chars@);
        lemma_find(chars@, c);
    }
    i < chars.len()
}

/// What stands behind the last `c` of a text; the whole text where there is none.
pub fn behind_last(text: &str, c: char) -> (r: String)
    ensures
        r@ == text@.skip(after_last(text@, c) as int),
{
    let chars = to_chars(text);
    let mut i: usize = chars.len();
    assert(chars@.take(i as int) =~= chars@);
    while i > 0 && chars[i - 1] != c
        invariant
            i <= chars@.len(),
            after_last(chars@.take(i as int), c) == after_last(chars@, c),
        decreases i,
    {
        assert(chars@.take(i as int).drop_last() =~= chars@.take(i - 1));
        i -= 1;
    }
    assert(after_last(chars@.take(i as int), c) == i);
    assert(chars@.subrange(i as int, chars@.len() as int) =~= chars@.skip(i as int));
    slice_text(&chars, i, chars.len())
}

pub fn split_n(text: &str, n: usize, c: char) -> (r: Vec<String>)
    requires
        n > 0,
    ensures
        texts(r@) == splitn(text@, n as nat, c),
{
    let chars = to_chars(text);
    let mut out: Vec<String> = Vec::new();
    let mut from: usize = 0;
    let mut left: usize = n;
    assert(chars@.skip(0) =~= chars@);
    assert(texts(out@) + splitn(chars@, n as nat, c) =~= splitn(chars@, n as nat, c));
    while left > 1
        invariant
            1 <= left,
            from <= chars@.len(),
            texts(out@) + splitn(chars@.skip(from as int), left as nat, c) == splitn(
                chars@,
                n as nat,
                c,
            ),
        ensures
            1 <= left,
            from <= chars@.len(),
            texts(out@) + splitn(chars@.skip(from as int), left as nat, c) == splitn(
                chars@,
                n as nat,
                c,
            ),
            left == 1 || find(chars@.skip(from as int), c) >= chars@.skip(from as int).len(),
        decreases left,
    {
        let ghost rest = chars@.skip(from as int);
        let i = find_from(&chars, from, c);
        if i >= chars.len() {
            break;
        }
        let field = slice_text(&chars, from, i);
        proof {
            let k = find(rest, c) as int;
            assert(rest.take(k) =~= field@);
            assert(rest.skip(k + 1) =~= chars@.skip(i + 1));
            assert(texts(out@.push(field)) =~= texts(out@).push(field@));
            assert(texts(out@.push(field)) + splitn(chars@.skip(i + 1), (left - 1) as nat, c)
                =~= texts(out@) + splitn(rest, left as nat, c));
        }
        out.push(field);
        from = i + 1;
        left -= 1;
    }
    let last = slice_text(&chars, from, chars.len());
    proof {
        let rest = chars@.skip(from as int);
        assert(last@ =~= rest);
        assert(splitn(rest, left as nat, c) == seq![rest]);
        assert(texts(out@.push(last)) =~= texts(out@) + seq![rest]);
    }
    out.push(last);
    out
}

pub fn split_lines(text: &str) -> (r: Vec<String>)
    ensures
        texts(r@) == lines(text@),
{
    let chars = to_chars(text);
    let mut out: Vec<String> = Vec::new();
    let mut from: usize = 0;
    assert(chars@.skip(0) =~= chars@);
    assert(texts(out@) + lines(chars@) =~= lines(chars@));
    while from < chars.len()
        invariant
            from <= chars@.len(),
            texts(out@) + lines(chars@.skip(from as int)) == lines(chars@),
        decreases chars@.len() - from,
    {
        let ghost rest = chars@.skip(from as int);
        let i = find_from(&chars, from, '\n');
        if i >= chars.len() {
            let last = slice_text(&chars, from, i);
            proof {
                assert(last@ =~= rest);
                assert(chars@.skip(i as int) =~= Seq::<char>::empty());
                assert(texts(out@.push(last)) + lines(chars@.skip(i as int)) =~= texts(out@)
                    + lines(rest));
            }
            out.push(last);
            from = i;
        } else {
            let mut to: usize = i;
            if to > from && chars[to - 1] == '\r' {
                to -= 1;
            }
            let line = slice_text(&chars, from, to);
            proof {
                let k = find(rest, '\n') as int;
                assert(drop_return(rest.take(k)) =~= line@);
                assert(rest.skip(k + 1) =~= chars@.skip(i + 1));
                assert(texts(out@.push(line)) + lines(chars@.skip(i + 1)) =~= texts(out@) + lines(
                    rest,
                ));
            }
            out.push(line);
            from = i + 1;
        }
    }
    assert(chars@.skip(from as int) =~= Seq::<char>::empty());
    assert(texts(out@) + lines(chars@.skip(from as int)) =~= texts(out@));
    out
}

pub fn split_words(text: &str) -> (r: Vec<String>)
    ensures
        texts(r@) == words(text@),
{
    let chars = to_chars(text);
    let mut out: Vec<String> = Vec::new();
    let mut from: usize = 0;
    assert(chars@.skip(0) =~= chars@);
    assert(texts(out@) + words(chars@) =~= words(chars@));
    while from < chars.len()
        invariant
            from <= chars@.len(),
            texts(out@) + words(chars@.skip(from as int)) == words(chars@),
        decreases chars@.len() - from,
    {
        let ghost rest = chars@.skip(from as int);
        if is_white_space(chars[from]) {
            assert(rest.skip(1) =~= chars@.skip(from + 1));
            from += 1;
        } else {
            let mut to: usize = from;
            assert(rest =~= chars@.skip(to as int));
            while to < chars.len() && !is_white_space(chars[to])
                invariant
                    from <= to <= chars@.len(),
                    rest == chars@.skip(from as int),
                    word_end(rest) == (to - from) + word_end(chars@.skip(to as int)),
                decreases chars@.len() - to,
            {
                assert(chars@.skip(to as int).skip(1) =~= chars@.skip(to + 1));
                to += 1;
            }
            let word = slice_text(&chars, from, to);
            proof {
                let k = word_end(rest) as int;
                assert(k == to - from);
                lemma_word_end(rest);
                assert(rest.take(k) =~= word@);
                assert(rest.skip(k) =~= chars@.skip(to as int));
                assert(texts(out@.push(word)) + words(chars@.skip(to as int)) =~= texts(out@)
                    + words(rest));
            }
            out.push(word);
            from = to;
        }
    }
    assert(chars@.skip(from as int) =~= Seq::<char>::empty());
    assert(texts(out@) + words(chars@.skip(from as int)) =~= texts(out@));
    out
}

/// Whether `needle` stands at position `at`.
pub fn matches_at(chars: &Vec<char>, at: usize, needle: &Vec<char>) -> (r: bool)
    requires
        at <= chars@.len(),
    ensures
        r == (at + needle@.len() <= chars@.len() && chars@.subrange(
            at as int,
            at + needle@.len(),
        ) == needle@),
        r == has_prefix(chars@.skip(at as int), needle@),
{
    let ghost rest = chars@.skip(at as int);
    if needle.len() > chars.len() - at {
        return false;
    }
    let total: usize = chars.len();
    let mut i: usize = 0;
    while i < needle.len()
        invariant
            total == chars@.len(),
            i <= needle@.len() <= total - at,
            rest == chars@.skip(at as int),
            forall|j: int| 0 <= j < i ==> chars@[at + j] == #[trigger] needle@[j],
        decreases needle@.len() - i,
    {
        if chars[at + i] != needle[i] {
            proof {
                assert(chars@.subrange(at as int, at + needle@.len())[i as int] != needle@[i as int]);
                assert(rest.take(needle@.len() as int)[i as int] != needle@[i as int]);
            }
            return false;
        }
        i += 1;
    }
    assert(chars@.subrange(at as int, at + needle@.len()) =~= needle@);
    assert(rest.take(needle@.len() as int) =~= needle@);
    true
}

pub fn starts_with(text: &str, prefix: &str) -> (r: bool)
    ensures
        r == has_prefix(text@, prefix@),
{
    let chars = to_chars(text);
    assert(chars@.skip(0) =~= chars@);
    matches_at(&chars, 0, &to_chars(prefix))
}

pub fn strip_prefix(text: &str, prefix: &str) -> (r: Option<String>)
    ensures
        match r {
            Some(rest) => has_prefix(text@, prefix@) && rest@ == text@.skip(prefix@.len() as int),
            None => !has_prefix(text@, prefix@),
        },
{
    let chars = to_chars(text);
    let lead = to_chars(prefix);
    assert(chars@.skip(0) =~= chars@);
    if matches_at(&chars, 0, &lead) {
        assert(chars@.subrange(lead@.len() as int, chars@.len() as int) =~= chars@.skip(
            lead@.len() as int,
        ));
        Some(slice_text(&chars, lead.len(), chars.len()))
    } else {
        None
    }
}

pub fn strip_suffix(text: &str, suffix: &str) -> (r: Option<String>)
    ensures
        match r {
            Some(rest) => has_suffix(text@, suffix@) && rest@ == text@.take(
                text@.len() - suffix@.len(),
            ),
            None => !has_suffix(text@, suffix@),
        },
{
    let chars = to_chars(text);
    let tail = to_chars(suffix);
    if tail.len() > chars.len() {
        return None;
    }
    let at: usize = chars.len() - tail.len();
    if matches_at(&chars, at, &tail) {
        assert(chars@.skip(at as int) =~= chars@.subrange(at as int, at + tail@.len()));
        Some(slice_text(&chars, 0, at))
    } else {
        assert(chars@.skip(at as int) =~= chars@.subrange(at as int, at + tail@.len()));
        None
    }
}

pub fn contains_text(text: &str, needle: &str) -> (r: bool)
    ensures
        r == has_text(text@, needle@),
{
    let chars = to_chars(text);
    let want = to_chars(needle);
    if want.len() > chars.len() {
        return false;
    }
    let last: usize = chars.len() - want.len();
    let mut i: usize = 0;
    loop
        invariant
            last == chars@.len() - want@.len(),
            chars@ == text@,
            want@ == needle@,
            i <= last,
            forall|j: int|
                0 <= j < i ==> #[trigger] chars@.subrange(j, j + want@.len()) != want@,
        decreases last - i,
    {
        if matches_at(&chars, i, &want) {
            assert(text@.subrange(i as int, i + needle@.len()) == needle@);
            return true;
        }
        if i == last {
            return false;
        }
        i += 1;
    }
}

pub fn to_unbroken(text: &str) -> (r: String)
    ensures
        r@ == unbroken(text@),
{
    let mut out = String::new();
    for c in it: text.chars()
        invariant
            it.seq() == text@,
            out@ == unbroken(text@).take(it.index()),
    {
        out.push(if c == '\t' || c == '\r' || c == '\n' { ' ' } else { c });
        assert(unbroken(text@).take(it.index() + 1) =~= unbroken(text@).take(it.index()).push(
            unbroken(text@)[it.index()],
        ));
    }
    assert(unbroken(text@).take(text@.len() as int) =~= unbroken(text@));
    out
}

pub fn to_ascii_lowered(text: &str) -> (r: String)
    ensures
        r@ == ascii_lowered(text@),
{
    let mut out = String::new();
    for c in it: text.chars()
        invariant
            it.seq() == text@,
            out@ == ascii_lowered(text@).take(it.index()),
    {
        out.push(to_ascii_lower(c));
        assert(ascii_lowered(text@).take(it.index() + 1) =~= ascii_lowered(text@).take(
            it.index(),
        ).push(ascii_lowered(text@)[it.index()]));
    }
    assert(ascii_lowered(text@).take(text@.len() as int) =~= ascii_lowered(text@));
    out
}

/// Whether two texts are equal but for the case of `A` to `Z`.
pub fn equal_ignoring_ascii_case(a: &str, b: &str) -> (r: bool)
    ensures
        r == (ascii_lowered(a@) == ascii_lowered(b@)),
{
    to_ascii_lowered(a) == to_ascii_lowered(b)
}

pub fn repeat_char(c: char, n: usize) -> (r: String)
    ensures
        r@ == repeated(c, n as nat),
{
    let mut out = String::new();
    let mut i: usize = 0;
    while i < n
        invariant
            i <= n,
            out@ == repeated(c, i as nat),
        decreases n - i,
    {
        out.push(c);
        i += 1;
        assert(repeated(c, i as nat) =~= repeated(c, (i - 1) as nat).push(c));
    }
    out
}

pub fn is_all_hex_digits(text: &str) -> (r: bool)
    ensures
        r == all_hex_digits(text@),
{
    let chars = to_chars(text);
    let mut i: usize = 0;
    while i < chars.len()
        invariant
            i <= chars@.len(),
            chars@ == text@,
            forall|j: int| 0 <= j < i ==> ascii_hex_digit(#[trigger] chars@[j]),
        decreases chars@.len() - i,
    {
        if !is_ascii_hex_digit(chars[i]) {
            assert(!ascii_hex_digit(text@[i as int]));
            return false;
        }
        i += 1;
    }
    true
}

// ---------------------------------------------------------------------------
// What holds of every text
// ---------------------------------------------------------------------------

/// Trimming takes white space away at both ends, and nothing else.
pub proof fn trimming_removes_only_white_space(s: Seq<char>)
    ensures
        exists|a: int, b: int|
            0 <= a <= b <= s.len() && trimmed(s) == #[trigger] s.subrange(a, b) && (forall|i: int|
                0 <= i < a ==> white_space(#[trigger] s[i])) && (forall|i: int|
                b <= i < s.len() ==> white_space(#[trigger] s[i])),
        trimmed(s).len() > 0 ==> !white_space(trimmed(s)[0]) && !white_space(trimmed(s).last()),
{
    lemma_trim_start(s);
    let t = trim_start(s);
    lemma_trim_end(t);
    lemma_trimmed(s);
    let a = s.len() - t.len();
    let b = a + trimmed(s).len();
    assert(trimmed(s) =~= s.subrange(a, b));
    assert forall|i: int| b <= i < s.len() implies white_space(#[trigger] s[i]) by {
        assert(t[i - a] == s[i]);
    }
}

/// White space between two texts separates their words.
pub proof fn words_are_split_at_white_space(a: Seq<char>, c: char, b: Seq<char>)
    requires
        white_space(c),
    ensures
        words(a + seq![c] + b) == words(a) + words(b),
    decreases a.len(),
{
    let s = a + seq![c] + b;
    if a.len() == 0 {
        assert(s.skip(1) =~= b);
        assert(words(a) + words(b) =~= words(b));
    } else if white_space(a[0]) {
        words_are_split_at_white_space(a.skip(1), c, b);
        assert(s.skip(1) =~= a.skip(1) + seq![c] + b);
    } else {
        lemma_word_end(a);
        lemma_word_end_in(a, seq![c] + b);
        assert(a + (seq![c] + b) =~= s);
        let i = word_end(a) as int;
        words_are_split_at_white_space(a.skip(i), c, b);
        assert(s.skip(i) =~= a.skip(i) + seq![c] + b);
        assert(s.take(i) =~= a.take(i));
        assert(words(s) =~= words(a) + words(b));
    }
}

proof fn lemma_word_end_in(a: Seq<char>, rest: Seq<char>)
    requires
        rest.len() > 0,
        white_space(rest[0]),
    ensures
        word_end(a + rest) == word_end(a),
    decreases a.len(),
{
    if a.len() > 0 && !white_space(a[0]) {
        lemma_word_end_in(a.skip(1), rest);
        assert((a + rest).skip(1) =~= a.skip(1) + rest);
    } else if a.len() == 0 {
        assert(a + rest =~= rest);
    }
}

/// A text without white space is one word, and no text is none.
pub proof fn a_word_stands_for_itself(s: Seq<char>)
    requires
        forall|i: int| 0 <= i < s.len() ==> !white_space(#[trigger] s[i]),
    ensures
        s.len() > 0 ==> words(s) == seq![s],
        s.len() == 0 ==> words(s) == Seq::<Seq<char>>::empty(),
{
    if s.len() > 0 {
        lemma_whole_word(s);
        assert(s.take(s.len() as int) =~= s);
        assert(s.skip(s.len() as int) =~= Seq::<char>::empty());
        assert(words(s.skip(s.len() as int)) =~= Seq::<Seq<char>>::empty());
        assert(words(s) =~= seq![s]);
    }
}

proof fn lemma_whole_word(s: Seq<char>)
    requires
        forall|i: int| 0 <= i < s.len() ==> !white_space(#[trigger] s[i]),
    ensures
        word_end(s) == s.len(),
    decreases s.len(),
{
    if s.len() > 0 {
        assert forall|i: int| 0 <= i < s.skip(1).len() implies !white_space(
            #[trigger] s.skip(1)[i],
        ) by {
            assert(s.skip(1)[i] == s[i + 1]);
        }
        lemma_whole_word(s.skip(1));
    }
}

/// A line break, alone or behind a carriage return, ends a line.
pub proof fn lines_end_at_breaks(line: Seq<char>, rest: Seq<char>)
    requires
        !line.contains('\n'),
        line.len() > 0 ==> line.last() != '\r',
    ensures
        lines(line + seq!['\n'] + rest) == seq![line] + lines(rest),
        lines(line + seq!['\r', '\n'] + rest) == seq![line] + lines(rest),
        line.len() > 0 ==> lines(line) == seq![line],
        lines(Seq::<char>::empty()) == Seq::<Seq<char>>::empty(),
{
    lemma_lines_prepend(line, rest);
    let returned = line.push('\r');
    let s = line + seq!['\r', '\n'] + rest;
    assert(s =~= returned + seq!['\n'] + rest);
    let at = returned.len() as int;
    assert forall|i: int| 0 <= i < at implies #[trigger] s[i] != '\n' by {
        if i < line.len() {
            assert(s[i] == line[i]);
            assert(line.contains(line[i]));
        }
    }
    lemma_find_is(s, '\n', at);
    assert(s.take(at) =~= returned);
    assert(s.skip(at + 1) =~= rest);
    assert(drop_return(returned) =~= line);
    assert(lines(s) =~= seq![line] + lines(rest));
    if line.len() > 0 {
        lemma_find(line, '\n');
        assert(line.take(line.len() as int) =~= line);
    }
}

/// A text starts with another exactly where it is that one and more behind it.
pub proof fn prefixes_lead(p: Seq<char>, rest: Seq<char>, s: Seq<char>)
    ensures
        has_prefix(p + rest, p),
        has_prefix(s, p) ==> s == p + s.skip(p.len() as int),
        has_suffix(rest + p, p),
        has_suffix(s, p) ==> s == s.take(s.len() - p.len()) + p,
        has_text(rest + p + s, p),
{
    assert((p + rest).take(p.len() as int) =~= p);
    assert((rest + p).skip(rest.len() as int) =~= p);
    if has_prefix(s, p) {
        assert(s =~= s.take(p.len() as int) + s.skip(p.len() as int));
    }
    if has_suffix(s, p) {
        assert(s =~= s.take(s.len() - p.len()) + s.skip(s.len() - p.len()));
    }
    let all = rest + p + s;
    assert(all.subrange(rest.len() as int, (rest.len() + p.len()) as int) =~= p);
}

/// Lower case changes the letters `A` to `Z` and keeps every other character.
pub proof fn lower_case_changes_only_letters(s: Seq<char>, i: int)
    requires
        0 <= i < s.len(),
    ensures
        ascii_lowered(s).len() == s.len(),
        !('A' <= s[i] <= 'Z') ==> ascii_lowered(s)[i] == s[i],
        'A' <= s[i] <= 'Z' ==> 'a' <= ascii_lowered(s)[i] <= 'z' && ascii_lowered(s)[i] as u32
            - 'a' as u32 == s[i] as u32 - 'A' as u32,
{
}

/// On one line, breaks are spaces and all else is kept.
pub proof fn one_line_keeps_the_rest(s: Seq<char>, i: int)
    requires
        0 <= i < s.len(),
    ensures
        unbroken(s).len() == s.len(),
        s[i] != '\t' && s[i] != '\r' && s[i] != '\n' ==> unbroken(s)[i] == s[i],
        s[i] == '\t' || s[i] == '\r' || s[i] == '\n' ==> unbroken(s)[i] == ' ',
{
}

/// Stripping a character takes its copies from one end, all of them, and nothing
/// else.
pub proof fn stripping_removes_only_copies(s: Seq<char>, c: char, k: int)
    requires
        0 <= k <= s.len(),
    ensures
        (forall|i: int| 0 <= i < k ==> #[trigger] s[i] == c) && (k < s.len() ==> s[k] != c)
            ==> strip_start(s, c) == s.skip(k),
        (forall|i: int| k <= i < s.len() ==> #[trigger] s[i] == c) && (k > 0 ==> s[k - 1] != c)
            ==> strip_end(s, c) == s.take(k),
    decreases s.len(),
{
    if (forall|i: int| 0 <= i < k ==> #[trigger] s[i] == c) && (k < s.len() ==> s[k] != c) {
        lemma_stripped_front(s, c, k);
    }
    if (forall|i: int| k <= i < s.len() ==> #[trigger] s[i] == c) && (k > 0 ==> s[k - 1] != c) {
        lemma_stripped_back(s, c, k);
    }
}

proof fn lemma_stripped_front(s: Seq<char>, c: char, k: int)
    requires
        0 <= k <= s.len(),
        forall|i: int| 0 <= i < k ==> #[trigger] s[i] == c,
        k < s.len() ==> s[k] != c,
    ensures
        strip_start(s, c) == s.skip(k),
    decreases k,
{
    if k > 0 {
        assert(s[0] == c);
        assert forall|i: int| 0 <= i < k - 1 implies #[trigger] s.skip(1)[i] == c by {
            assert(s[i + 1] == c);
        }
        lemma_stripped_front(s.skip(1), c, k - 1);
        assert(s.skip(1).skip(k - 1) =~= s.skip(k));
    } else {
        assert(s.skip(0) =~= s);
    }
}

proof fn lemma_stripped_back(s: Seq<char>, c: char, k: int)
    requires
        0 <= k <= s.len(),
        forall|i: int| k <= i < s.len() ==> #[trigger] s[i] == c,
        k > 0 ==> s[k - 1] != c,
    ensures
        strip_end(s, c) == s.take(k),
    decreases s.len(),
{
    if k < s.len() {
        assert(s[s.len() - 1] == c);
        lemma_stripped_back(s.drop_last(), c, k);
        assert(s.drop_last().take(k) =~= s.take(k));
    } else {
        assert(s.take(k) =~= s);
    }
}

} // verus!
