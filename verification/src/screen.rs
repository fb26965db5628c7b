//! What is drawn on the terminal: text with bold parts, cells of a fixed
//! width, panels and frames.
use crate::text::{
    contains_char, find, find_from, has_prefix, is_white_space, lemma_find, lines, matches_at,
    repeat_char, repeated, same_text, slice_text, split_lines, strip_end, texts, to_chars,
    trim_end_char, white_space,
};
use vstd::prelude::*;

verus! {

/// Starts a bold part.
pub const BOLD_START: char = '\u{1}';

/// Ends a bold part.
pub const BOLD_END: char = '\u{2}';

pub open spec fn marker(c: char) -> bool {
    c == BOLD_START || c == BOLD_END
}

pub open spec fn bold(s: Seq<char>) -> Seq<char> {
    seq![BOLD_START] + s + seq![BOLD_END]
}

/// A text without the marks of its bold parts.
pub open spec fn plain(s: Seq<char>) -> Seq<char>
    decreases s.len(),
{
    if s.len() == 0 {
        s
    } else if marker(s[0]) {
        plain(s.skip(1))
    } else {
        seq![s[0]] + plain(s.skip(1))
    }
}

proof fn lemma_plain_concat(a: Seq<char>, b: Seq<char>)
    ensures
        plain(a + b) == plain(a) + plain(b),
    decreases a.len(),
{
    if a.len() == 0 {
        assert(a + b =~= b);
        assert(plain(a) + plain(b) =~= plain(b));
    } else {
        assert((a + b).skip(1) =~= a.skip(1) + b);
        lemma_plain_concat(a.skip(1), b);
        if !marker(a[0]) {
            assert((seq![a[0]] + plain(a.skip(1))) + plain(b) =~= seq![a[0]] + (plain(a.skip(1))
                + plain(b)));
        }
    }
}

proof fn lemma_plain_bold(s: Seq<char>)
    ensures
        plain(bold(s)) == plain(s),
{
    let head = seq![BOLD_START] + s;
    assert(head.skip(1) =~= s);
    assert(plain(head) == plain(s));
    lemma_plain_concat(head, seq![BOLD_END]);
    reveal_with_fuel(plain, 2);
    assert(plain(seq![BOLD_END]) =~= Seq::<char>::empty());
    assert(plain(s) + Seq::<char>::empty() =~= plain(s));
}

pub fn bold_text(text: &str) -> (r: String)
    ensures
        r@ == bold(text@),
{
    let mut out = String::new();
    out.push(BOLD_START);
    out.append(text);
    out.push(BOLD_END);
    assert(out@ =~= bold(text@));
    out
}

// ---------------------------------------------------------------------------
// Key bindings in a text
// ---------------------------------------------------------------------------

/// What stands between brackets for a key.
pub open spec fn binding(token: Seq<char>) -> bool {
    ||| token == "Ctrl+Space"@
    ||| token == "Ctrl+A"@
    ||| token == "Up/Down"@
    ||| token == "Up/Down/Page Up/Page Down"@
    ||| token == "Left/Right"@
    ||| token == "Enter"@
    ||| token == "Esc"@
    ||| token == "Space"@
    ||| token == "Backspace"@
    ||| token == "Delete"@
    ||| token == "p/Space"@
    ||| token == "q/Ctrl+C"@
    ||| token == "n/v"@
    ||| token == "+/-"@
    ||| token == "←/→"@
    ||| token == ",/."@
    ||| token == "↑/↓"@
    ||| token == "a"@
    ||| token == "b"@
    ||| token == "l"@
    ||| token == "n"@
    ||| token == "p"@
    ||| token == "q"@
    ||| token == "r"@
    ||| token == "s"@
    ||| token == "u"@
    ||| token == "v"@
}

pub fn is_key_binding(token: &str) -> (r: bool)
    ensures
        r == binding(token@),
{
    same_text(token, "Ctrl+Space") || same_text(token, "Ctrl+A") || same_text(token, "Up/Down")
        || same_text(token, "Up/Down/Page Up/Page Down") || same_text(token, "Left/Right")
        || same_text(token, "Enter") || same_text(token, "Esc") || same_text(token, "Space")
        || same_text(token, "Backspace") || same_text(token, "Delete") || same_text(
        token,
        "p/Space",
    ) || same_text(token, "q/Ctrl+C") || same_text(token, "n/v") || same_text(token, "+/-")
        || same_text(token, "←/→") || same_text(token, ",/.") || same_text(token, "↑/↓")
        || same_text(token, "a") || same_text(token, "b") || same_text(token, "l") || same_text(
        token,
        "n",
    ) || same_text(token, "p") || same_text(token, "q") || same_text(token, "r") || same_text(
        token,
        "s",
    ) || same_text(token, "u") || same_text(token, "v")
}

/// The keys that are marked without brackets, in the order in which they are
/// tried.
pub open spec fn bare_keys() -> Seq<Seq<char>> {
    seq![
        "Up/Down/Page Up/Page Down"@,
        "Up/Down"@,
        "Left/Right"@,
        "Ctrl+Space"@,
        "Ctrl+A"@,
        "q/Ctrl+C"@,
        "p/Space"@,
        "Backspace"@,
        "Delete"@,
        "Enter"@,
        "Space"@,
        "Esc"@,
        "+/-"@,
        "n/v"@,
        "b"@,
        "u"@,
        "n"@,
        "v"@,
        "r"@,
        "l"@,
    ]
}

fn bare_key_list() -> (r: Vec<&'static str>)
    ensures
        r@.len() == bare_keys().len(),
        forall|i: int| 0 <= i < r@.len() ==> (#[trigger] r@[i])@ == bare_keys()[i],
        forall|i: int| 0 <= i < r@.len() ==> (#[trigger] bare_keys()[i]).len() > 0,
{
    proof {
        reveal_strlit("Up/Down/Page Up/Page Down");
        reveal_strlit("Up/Down");
        reveal_strlit("Left/Right");
        reveal_strlit("Ctrl+Space");
        reveal_strlit("Ctrl+A");
        reveal_strlit("q/Ctrl+C");
        reveal_strlit("p/Space");
        reveal_strlit("Backspace");
        reveal_strlit("Delete");
        reveal_strlit("Enter");
        reveal_strlit("Space");
        reveal_strlit("Esc");
        reveal_strlit("+/-");
        reveal_strlit("n/v");
        reveal_strlit("b");
        reveal_strlit("u");
        reveal_strlit("n");
        reveal_strlit("v");
        reveal_strlit("r");
        reveal_strlit("l");
    }
    vec![
        "Up/Down/Page Up/Page Down",
        "Up/Down",
        "Left/Right",
        "Ctrl+Space",
        "Ctrl+A",
        "q/Ctrl+C",
        "p/Space",
        "Backspace",
        "Delete",
        "Enter",
        "Space",
        "Esc",
        "+/-",
        "n/v",
        "b",
        "u",
        "n",
        "v",
        "r",
        "l",
    ]
}

/// What may stand before a bare key.
pub open spec fn opens_key(c: char) -> bool {
    white_space(c) || c == '|' || c == '·' || c == '('
}

/// What may stand behind a bare key.
pub open spec fn closes_key(c: char) -> bool {
    white_space(c) || c == '|' || c == '·' || c == ')' || c == ','
}

/// Whether a key stands at a position of a text, up to a separator.
pub open spec fn bare_key_at(s: Seq<char>, at: int, key: Seq<char>) -> bool {
    &&& has_prefix(s.skip(at), key)
    &&& at + key.len() >= s.len() || closes_key(s[at + key.len()])
}

/// The length of the first of `keys` that stands at a position, or zero.
pub open spec fn bare_key_length(s: Seq<char>, at: int, keys: Seq<Seq<char>>) -> nat
    decreases keys.len(),
{
    if keys.len() == 0 {
        0
    } else if bare_key_at(s, at, keys[0]) {
        keys[0].len()
    } else {
        bare_key_length(s, at, keys.skip(1))
    }
}

/// The length of what is marked bold at a position: a key in brackets, or a
/// bare key between separators; zero where nothing is.
pub open spec fn marked_length(s: Seq<char>, at: int) -> nat {
    let inner = s.skip(at + 1);
    let close = find(inner, ']') as int;
    if s[at] == '[' && close < inner.len() && binding(inner.take(close)) {
        (close + 2) as nat
    } else if at == 0 || opens_key(s[at - 1]) {
        bare_key_length(s, at, bare_keys())
    } else {
        0
    }
}

/// A text with its key bindings marked bold, from a position on.
pub open spec fn marked(s: Seq<char>, at: int) -> Seq<char>
    decreases s.len() - at,
{
    if at < 0 || at >= s.len() {
        seq![]
    } else {
        let n = marked_length(s, at) as int;
        if 0 < n <= s.len() - at {
            bold(s.subrange(at, at + n)) + marked(s, at + n)
        } else {
            seq![s[at]] + marked(s, at + 1)
        }
    }
}

proof fn lemma_bare_key_length(s: Seq<char>, at: int, keys: Seq<Seq<char>>)
    requires
        0 <= at < s.len(),
    ensures
        at + bare_key_length(s, at, keys) <= s.len(),
    decreases keys.len(),
{
    if keys.len() > 0 && !bare_key_at(s, at, keys[0]) {
        lemma_bare_key_length(s, at, keys.skip(1));
    }
}

proof fn lemma_marked_length(s: Seq<char>, at: int)
    requires
        0 <= at < s.len(),
    ensures
        at + marked_length(s, at) <= s.len(),
{
    lemma_find(s.skip(at + 1), ']');
    lemma_bare_key_length(s, at, bare_keys());
}

proof fn lemma_marked_plain(s: Seq<char>, at: int)
    requires
        0 <= at <= s.len(),
    ensures
        plain(marked(s, at)) == plain(s.skip(at)),
    decreases s.len() - at,
{
    if at < s.len() {
        lemma_marked_length(s, at);
        let n = marked_length(s, at) as int;
        if n > 0 {
            let part = s.subrange(at, at + n);
            lemma_marked_plain(s, at + n);
            lemma_plain_concat(bold(part), marked(s, at + n));
            lemma_plain_bold(part);
            assert(s.skip(at) =~= part + s.skip(at + n));
            lemma_plain_concat(part, s.skip(at + n));
        } else {
            lemma_marked_plain(s, at + 1);
            lemma_plain_concat(seq![s[at]], marked(s, at + 1));
            assert(s.skip(at) =~= seq![s[at]] + s.skip(at + 1));
            lemma_plain_concat(seq![s[at]], s.skip(at + 1));
        }
    } else {
        assert(s.skip(at) =~= Seq::<char>::empty());
    }
}

/// Marking key bindings changes nothing but marks: without them the text is
/// what it was.
pub proof fn marking_keys_keeps_the_text(s: Seq<char>)
    ensures
        plain(marked(s, 0)) == plain(s),
{
    lemma_marked_plain(s, 0);
    assert(s.skip(0) =~= s);
}

fn key_length_at(chars: &Vec<char>, at: usize) -> (r: usize)
    requires
        at < chars@.len(),
    ensures
        r == marked_length(chars@, at as int),
        at + r <= chars@.len(),
{
    let ghost s = chars@;
    let total: usize = chars.len();
    proof {
        lemma_marked_length(s, at as int);
    }
    if chars[at] == '[' {
        let close: usize = find_from(chars, at + 1, ']');
        proof {
            lemma_find(s.skip(at + 1), ']');
        }
        if close < total {
            let token = slice_text(chars, at + 1, close);
            assert(token@ =~= s.skip(at + 1).take(close - at - 1));
            if is_key_binding(token.as_str()) {
                return close + 1 - at;
            }
        }
    }
    let boundary = at == 0 || {
        let before = chars[at - 1];
        is_white_space(before) || before == '|' || before == '·' || before == '('
    };
    if !boundary {
        return 0;
    }
    let keys = bare_key_list();
    let ghost names = bare_keys();
    let mut k: usize = 0;
    assert(names.skip(0) =~= names);
    while k < keys.len()
        invariant
            k <= keys@.len(),
            keys@.len() == names.len(),
            forall|i: int| 0 <= i < keys@.len() ==> (#[trigger] keys@[i])@ == names[i],
            marked_length(s, at as int) == bare_key_length(s, at as int, names.skip(k as int)),
            s == chars@,
            total == s.len(),
            at < total,
        decreases keys@.len() - k,
    {
        let key = to_chars(keys[k]);
        assert(names.skip(k as int)[0] == names[k as int]);
        assert(names.skip(k as int).skip(1) =~= names.skip(k + 1));
        if matches_at(chars, at, &key) {
            proof {
                assert(has_prefix(s.skip(at as int), key@));
            }
            let end: usize = at + key.len();
            if end >= total || {
                let behind = chars[end];
                is_white_space(behind) || behind == '|' || behind == '·' || behind == ')'
                    || behind == ','
            } {
                return key.len();
            }
        }
        k += 1;
    }
    0
}

pub fn bold_key_bindings(text: &str) -> (r: String)
    ensures
        r@ == marked(text@, 0),
        plain(r@) == plain(text@),
{
    proof {
        marking_keys_keeps_the_text(text@);
    }
    let chars = to_chars(text);
    let mut out = String::new();
    let mut at: usize = 0;
    assert(out@ + marked(text@, 0) =~= marked(text@, 0));
    while at < chars.len()
        invariant
            at <= chars@.len(),
            chars@ == text@,
            out@ + marked(text@, at as int) == marked(text@, 0),
        decreases chars@.len() - at,
    {
        let ghost before = out@;
        let n: usize = key_length_at(&chars, at);
        if n > 0 {
            let part = slice_text(&chars, at, at + n);
            out.append(bold_text(part.as_str()).as_str());
            proof {
                assert(part@ =~= text@.subrange(at as int, at + n));
                assert(out@ + marked(text@, at + n) =~= before + (bold(part@) + marked(
                    text@,
                    at + n,
                )));
            }
            at = at + n;
        } else {
            out.push(chars[at]);
            proof {
                assert(out@ + marked(text@, at + 1) =~= before + (seq![text@[at as int]] + marked(
                    text@,
                    at + 1,
                )));
            }
            at += 1;
        }
    }
    assert(out@ + marked(text@, at as int) =~= out@);
    out
}

/// A menu title with its first line bold; a drawn box is bold as a whole.
pub open spec fn bold_title(title: Seq<char>) -> Seq<char> {
    let end = find(title, '\n') as int;
    if title.len() > 0 && title[0] == BOLD_START {
        title
    } else if title.len() > 0 && title[0] == '╭' {
        bold(title)
    } else if end < title.len() {
        bold(title.take(end)) + title.skip(end)
    } else {
        bold(title)
    }
}

pub fn bold_menu_title(title: &str) -> (r: String)
    ensures
        r@ == bold_title(title@),
{
    let chars = to_chars(title);
    if chars.len() > 0 && chars[0] == BOLD_START {
        return title.to_string();
    }
    if chars.len() > 0 && chars[0] == '╭' {
        return bold_text(title);
    }
    let end: usize = find_from(&chars, 0, '\n');
    assert(chars@.skip(0) =~= chars@);
    if end < chars.len() {
        let first = slice_text(&chars, 0, end);
        let rest = slice_text(&chars, end, chars.len());
        assert(first@ =~= title@.take(end as int));
        assert(rest@ =~= title@.skip(end as int));
        let mut out = bold_text(first.as_str());
        out.append(rest.as_str());
        out
    } else {
        bold_text(title)
    }
}

// ---------------------------------------------------------------------------
// Cells of a fixed width
// ---------------------------------------------------------------------------

/// What `unicode_width::UnicodeWidthChar::width` returns.
pub uninterp spec fn char_width(c: char) -> Option<usize>;

/// `unicode_width::UnicodeWidthChar::width`: the columns that a character
/// takes, none for a control character. A space and an ellipsis take one.
#[verifier::external_body]
fn width_of_char(c: char) -> (r: Option<usize>)
    ensures
        r == char_width(c),
        c == ' ' ==> r == Some(1usize),
        c == '…' ==> r == Some(1usize),
{
    unicode_width::UnicodeWidthChar::width(c)
}

/// What `unicode_width::UnicodeWidthStr::width` returns.
pub uninterp spec fn text_width(text: Seq<char>) -> usize;

/// `unicode_width::UnicodeWidthStr::width`: the columns that a text takes.
#[verifier::external_body]
fn width_of_text(text: &str) -> (r: usize)
    ensures
        r == text_width(text@),
{
    unicode_width::UnicodeWidthStr::width(text)
}

/// The columns of a character; control characters take none.
pub open spec fn char_columns(c: char) -> usize {
    match char_width(c) {
        Some(n) => n,
        None => 0,
    }
}

/// The columns of each character of a text.
pub open spec fn columns_of(s: Seq<char>) -> Seq<usize> {
    s.map_values(|c: char| char_columns(c))
}

/// The columns that a text takes without the marks of its bold parts.
pub open spec fn total_columns(s: Seq<char>, columns: Seq<usize>) -> nat
    decreases s.len(),
{
    if s.len() == 0 {
        0
    } else {
        (if marker(s[0]) {
            0
        } else {
            columns[0] as nat
        }) + total_columns(s.skip(1), columns.skip(1))
    }
}

/// The columns that a text takes on the screen.
pub open spec fn shown_columns(s: Seq<char>) -> nat {
    total_columns(s, columns_of(s))
}

/// How many characters of a text go into `room` columns.
pub open spec fn kept_chars(s: Seq<char>, columns: Seq<usize>, room: int) -> nat
    decreases s.len(),
{
    if s.len() == 0 {
        0
    } else if marker(s[0]) {
        1 + kept_chars(s.skip(1), columns.skip(1), room)
    } else if columns[0] > room {
        0
    } else {
        1 + kept_chars(s.skip(1), columns.skip(1), room - columns[0])
    }
}

/// Whether a bold part is open at the end of a text.
pub open spec fn open_bold(s: Seq<char>) -> bool
    decreases s.len(),
{
    if s.len() == 0 {
        false
    } else if s.last() == BOLD_START {
        true
    } else if s.last() == BOLD_END {
        false
    } else {
        open_bold(s.drop_last())
    }
}

/// A text in a cell of `width` columns: filled with spaces, or cut with an
/// ellipsis.
pub open spec fn fitted(s: Seq<char>, columns: Seq<usize>, width: nat) -> Seq<char> {
    if width == 0 {
        seq![]
    } else if total_columns(s, columns) <= width {
        s + repeated(' ', (width - total_columns(s, columns)) as nat)
    } else {
        let n = kept_chars(s, columns, width - 1) as int;
        let head = s.take(n);
        let used = total_columns(head, columns.take(n));
        head + (if open_bold(head) {
            seq![BOLD_END]
        } else {
            seq![]
        }) + seq!['…'] + repeated(' ', (width - 1 - used) as nat)
    }
}

/// A text in a cell, with the columns that its characters take.
pub open spec fn fitted_text(s: Seq<char>, width: nat) -> Seq<char> {
    fitted(s, columns_of(s), width)
}

proof fn lemma_total_concat(a: Seq<char>, ca: Seq<usize>, b: Seq<char>, cb: Seq<usize>)
    requires
        a.len() == ca.len(),
        b.len() == cb.len(),
    ensures
        total_columns(a + b, ca + cb) == total_columns(a, ca) + total_columns(b, cb),
    decreases a.len(),
{
    if a.len() == 0 {
        assert(a + b =~= b);
        assert(ca + cb =~= cb);
    } else {
        assert((a + b).skip(1) =~= a.skip(1) + b);
        assert((ca + cb).skip(1) =~= ca.skip(1) + cb);
        lemma_total_concat(a.skip(1), ca.skip(1), b, cb);
    }
}

proof fn lemma_shown_concat(a: Seq<char>, b: Seq<char>)
    ensures
        shown_columns(a + b) == shown_columns(a) + shown_columns(b),
{
    assert(columns_of(a + b) =~= columns_of(a) + columns_of(b));
    lemma_total_concat(a, columns_of(a), b, columns_of(b));
}

proof fn lemma_shown_one(c: char)
    ensures
        shown_columns(seq![c]) == if marker(c) {
            0
        } else {
            char_columns(c) as nat
        },
{
    reveal_with_fuel(total_columns, 2);
    assert(columns_of(seq![c])[0] == char_columns(c));
}

proof fn lemma_shown_spaces(n: nat)
    requires
        char_width(' ') == Some(1usize),
    ensures
        shown_columns(repeated(' ', n)) == n,
    decreases n,
{
    let s = repeated(' ', n);
    if n > 0 {
        assert(s =~= seq![' '] + repeated(' ', (n - 1) as nat));
        lemma_shown_spaces((n - 1) as nat);
        lemma_shown_concat(seq![' '], repeated(' ', (n - 1) as nat));
        lemma_shown_one(' ');
    }
}

proof fn lemma_kept(s: Seq<char>, columns: Seq<usize>, room: int)
    requires
        s.len() == columns.len(),
        room >= 0,
    ensures
        kept_chars(s, columns, room) <= s.len(),
        total_columns(
            s.take(kept_chars(s, columns, room) as int),
            columns.take(kept_chars(s, columns, room) as int),
        ) <= room,
    decreases s.len(),
{
    let n = kept_chars(s, columns, room) as int;
    if n > 0 {
        let rest = if marker(s[0]) {
            room
        } else {
            room - columns[0]
        };
        lemma_kept(s.skip(1), columns.skip(1), rest);
        assert(s.take(n).skip(1) =~= s.skip(1).take(n - 1));
        assert(columns.take(n).skip(1) =~= columns.skip(1).take(n - 1));
    }
}

/// Whatever the text, a cell takes exactly its width on the screen.
proof fn lemma_fitted_width(s: Seq<char>, width: nat)
    requires
        char_width(' ') == Some(1usize),
        char_width('…') == Some(1usize),
    ensures
        shown_columns(fitted_text(s, width)) == width,
{
    let columns = columns_of(s);
    if width == 0 {
    } else if total_columns(s, columns) <= width {
        let fill = (width - total_columns(s, columns)) as nat;
        lemma_shown_spaces(fill);
        lemma_shown_concat(s, repeated(' ', fill));
    } else {
        lemma_kept(s, columns, width - 1);
        let n = kept_chars(s, columns, width - 1) as int;
        let head = s.take(n);
        assert(columns_of(head) =~= columns.take(n));
        let used = shown_columns(head);
        let end = if open_bold(head) {
            seq![BOLD_END]
        } else {
            seq![]
        };
        let fill = repeated(' ', (width - 1 - used) as nat);
        lemma_shown_spaces((width - 1 - used) as nat);
        lemma_shown_one('…');
        lemma_shown_one(BOLD_END);
        assert(shown_columns(end) == 0);
        lemma_shown_concat(head, end);
        lemma_shown_concat(head + end, seq!['…']);
        lemma_shown_concat(head + end + seq!['…'], fill);
    }
}

/// Puts a text into a cell, given the columns that its characters take.
pub fn fit_columns(text: &str, columns: &Vec<usize>, width: usize) -> (r: String)
    requires
        columns@.len() == text@.len(),
    ensures
        r@ == fitted(text@, columns@, width as nat),
{
    if width == 0 {
        return String::new();
    }
    let chars = to_chars(text);
    let ghost s = chars@;
    let ghost cs = columns@;
    let mut used: usize = 0;
    let mut i: usize = 0;
    let mut fits = true;
    assert(s.skip(0) =~= s);
    assert(cs.skip(0) =~= cs);
    while i < chars.len() && fits
        invariant
            i <= chars@.len(),
            chars@ == s,
            columns@ == cs,
            cs.len() == s.len(),
            used <= width,
            fits ==> total_columns(s, cs) == used + total_columns(
                s.skip(i as int),
                cs.skip(i as int),
            ),
            !fits ==> total_columns(s, cs) > width,
        decreases chars@.len() - i,
    {
        assert(s.skip(i as int).skip(1) =~= s.skip(i + 1));
        assert(cs.skip(i as int).skip(1) =~= cs.skip(i + 1));
        let c = chars[i];
        if c != BOLD_START && c != BOLD_END {
            let n: usize = columns[i];
            if n > width - used {
                fits = false;
            } else {
                used = used + n;
            }
        }
        i += 1;
    }
    if fits {
        assert(s.skip(i as int) =~= Seq::<char>::empty());
        let mut out = text.to_string();
        out.append(repeat_char(' ', width - used).as_str());
        return out;
    }
    let room: usize = width - 1;
    let mut value = String::new();
    let mut open = false;
    let mut k: usize = 0;
    used = 0;
    let mut stopped = false;
    assert(s.take(0) =~= Seq::<char>::empty());
    assert(cs.take(0) =~= Seq::<usize>::empty());
    proof {
        lemma_kept(s, cs, room as int);
    }
    while k < chars.len() && !stopped
        invariant
            k <= chars@.len(),
            chars@ == s,
            columns@ == cs,
            cs.len() == s.len(),
            used <= room,
            value@ == s.take(k as int),
            open == open_bold(value@),
            used == total_columns(s.take(k as int), cs.take(k as int)),
            stopped ==> kept_chars(s, cs, room as int) == k,
            !stopped ==> kept_chars(s, cs, room as int) == k + kept_chars(
                s.skip(k as int),
                cs.skip(k as int),
                room - used,
            ),
        decreases chars@.len() - k + (if stopped { 0int } else { 1int }),
    {
        let ghost rest = s.skip(k as int);
        let ghost restc = cs.skip(k as int);
        assert(rest.skip(1) =~= s.skip(k + 1));
        assert(restc.skip(1) =~= cs.skip(k + 1));
        let c = chars[k];
        let mut n: usize = 0;
        if c != BOLD_START && c != BOLD_END {
            n = columns[k];
        }
        if n > room - used {
            stopped = true;
        } else {
            proof {
                let one = seq![c];
                let onec = seq![cs[k as int]];
                assert(s.take(k + 1) =~= s.take(k as int) + one);
                assert(cs.take(k + 1) =~= cs.take(k as int) + onec);
                lemma_total_concat(s.take(k as int), cs.take(k as int), one, onec);
                reveal_with_fuel(total_columns, 2);
                assert(s.take(k + 1).drop_last() =~= s.take(k as int));
            }
            if c == BOLD_START {
                open = true;
            }
            if c == BOLD_END {
                open = false;
            }
            let ghost head = value@;
            value.push(c);
            assert(value@.drop_last() =~= head);
            used = used + n;
            k += 1;
        }
    }
    if open {
        value.push(BOLD_END);
    }
    value.push('…');
    value.append(repeat_char(' ', width - 1 - used).as_str());
    proof {
        let n = kept_chars(s, cs, room as int) as int;
        assert(n == k);
        let head = s.take(n);
        let end = if open {
            seq![BOLD_END]
        } else {
            seq![]
        };
        assert(value@ =~= head + end + seq!['…'] + repeated(' ', (width - 1 - used) as nat));
    }
    value
}

/// Puts a text into a cell of `width` columns, which it fills exactly.
pub fn fit_text(text: &str, width: usize) -> (r: String)
    ensures
        r@ == fitted_text(text@, width as nat),
        shown_columns(r@) == width,
{
    let chars = to_chars(text);
    let mut columns: Vec<usize> = Vec::new();
    let mut i: usize = 0;
    while i < chars.len()
        invariant
            i <= chars@.len(),
            chars@ == text@,
            columns@ =~= columns_of(text@).take(i as int),
        decreases chars@.len() - i,
    {
        let n: usize = match width_of_char(chars[i]) {
            Some(n) => n,
            None => 0,
        };
        columns.push(n);
        i += 1;
    }
    assert(columns@ =~= columns_of(text@));
    let _ = width_of_char(' ');
    let _ = width_of_char('…');
    proof {
        lemma_fitted_width(text@, width as nat);
    }
    fit_columns(text, &columns, width)
}

// ---------------------------------------------------------------------------
// Panels and frames
// ---------------------------------------------------------------------------

pub open spec fn rule(left: Seq<char>, n: nat, right: Seq<char>) -> Seq<char> {
    left + repeated('─', n) + right
}

/// The widest of some widths.
pub open spec fn widest(widths: Seq<usize>) -> int
    decreases widths.len(),
{
    if widths.len() == 0 {
        0
    } else {
        let before = widest(widths.drop_last());
        if widths.last() > before {
            widths.last() as int
        } else {
            before
        }
    }
}

/// The width of a panel whose widest text takes `content` columns, on a
/// terminal of `columns`: from 28 to 52, and not over the terminal's edge
/// unless that is narrower than 28.
pub open spec fn panel_width(content: int, columns: int) -> int {
    let room = if columns - 4 < 28 {
        28
    } else {
        columns - 4
    };
    let wanted = if content < 28 {
        28
    } else if content > 52 {
        52
    } else {
        content
    };
    if wanted < room {
        wanted
    } else {
        room
    }
}

/// The rows of a panel.
pub open spec fn panel_rows(rows: Seq<Seq<char>>, width: nat) -> Seq<char>
    decreases rows.len(),
{
    if rows.len() == 0 {
        seq![]
    } else {
        panel_rows(rows.drop_last(), width) + ("│ "@ + fitted_text(rows.last(), width) + " │\r\n"@)
    }
}

/// A panel: its title, and its rows below.
pub open spec fn panel_frame(title: Seq<char>, rows: Seq<Seq<char>>, width: nat) -> Seq<char> {
    rule("┌"@, width + 2, "┐\r\n"@) + ("│ "@ + bold(fitted_text(title, width)) + " │\r\n"@) + rule(
        "├"@,
        width + 2,
        "┤\r\n"@,
    ) + panel_rows(rows, width) + rule("└"@, width + 2, "┘"@)
}

pub fn format_rule(left: &str, n: usize, right: &str) -> (r: String)
    ensures
        r@ == rule(left@, n as nat, right@),
{
    let mut out = left.to_string();
    out.append(repeat_char('─', n).as_str());
    out.append(right);
    out
}

/// The width of a panel, given the columns of its texts.
pub fn choose_panel_width(widths: &Vec<usize>, columns: usize) -> (r: usize)
    ensures
        r == panel_width(widest(widths@), columns as int),
        28 <= r <= 52,
{
    let mut content: usize = 0;
    let mut i: usize = 0;
    while i < widths.len()
        invariant
            i <= widths@.len(),
            content == widest(widths@.take(i as int)),
        decreases widths@.len() - i,
    {
        assert(widths@.take(i + 1).drop_last() =~= widths@.take(i as int));
        if widths[i] > content {
            content = widths[i];
        }
        i += 1;
    }
    assert(widths@.take(i as int) =~= widths@);
    let room: usize = if columns < 32 {
        28
    } else {
        columns - 4
    };
    let wanted: usize = if content < 28 {
        28
    } else if content > 52 {
        52
    } else {
        content
    };
    if wanted < room {
        wanted
    } else {
        room
    }
}

/// A panel of a given width.
pub fn panel_of_width(title: &str, rows: &Vec<String>, width: usize) -> (r: String)
    requires
        width <= usize::MAX - 2,
    ensures
        r@ == panel_frame(title@, texts(rows@), width as nat),
{
    let mut out = format_rule("┌", width + 2, "┐\r\n");
    let mut head = "│ ".to_string();
    head.append(bold_text(fit_text(title, width).as_str()).as_str());
    head.append(" │\r\n");
    out.append(head.as_str());
    out.append(format_rule("├", width + 2, "┤\r\n").as_str());
    let ghost top = out@;
    let mut i: usize = 0;
    let mut body = String::new();
    while i < rows.len()
        invariant
            i <= rows@.len(),
            body@ =~= panel_rows(texts(rows@).take(i as int), width as nat),
        decreases rows@.len() - i,
    {
        let mut row = "│ ".to_string();
        row.append(fit_text(rows[i].as_str(), width).as_str());
        row.append(" │\r\n");
        body.append(row.as_str());
        proof {
            let next = texts(rows@).take(i + 1);
            assert(next.drop_last() =~= texts(rows@).take(i as int));
            assert(next.last() == rows@[i as int]@);
        }
        i += 1;
    }
    assert(texts(rows@).take(i as int) =~= texts(rows@));
    out.append(body.as_str());
    out.append(format_rule("└", width + 2, "┘").as_str());
    out
}

/// The columns that the rows and the title of a panel take.
pub open spec fn panel_widths(title: Seq<char>, rows: Seq<Seq<char>>) -> Seq<usize> {
    rows.map_values(|row: Seq<char>| text_width(row)).push(text_width(title))
}

/// A panel on a terminal of `columns`.
pub fn panel(title: &str, rows: &Vec<String>, columns: usize) -> (r: String)
    ensures
        r@ == panel_frame(
            title@,
            texts(rows@),
            panel_width(widest(panel_widths(title@, texts(rows@))), columns as int) as nat,
        ),
{
    let mut widths: Vec<usize> = Vec::new();
    let mut i: usize = 0;
    while i < rows.len()
        invariant
            i <= rows@.len(),
            widths@.len() == i,
            forall|j: int| 0 <= j < i ==> #[trigger] widths@[j] == text_width(rows@[j]@),
        decreases rows@.len() - i,
    {
        widths.push(width_of_text(rows[i].as_str()));
        i += 1;
    }
    widths.push(width_of_text(title));
    assert(widths@ =~= panel_widths(title@, texts(rows@)));
    let width: usize = choose_panel_width(&widths, columns);
    panel_of_width(title, rows, width)
}

/// A piece of a line: a text, and whether bold starts or ends behind it.
#[derive(Debug, PartialEq, Eq)]
pub struct FramePart {
    pub text: String,
    pub bold: Option<bool>,
}

pub struct PartData {
    pub text: Seq<char>,
    pub bold: Option<bool>,
}

impl FramePart {
    pub open spec fn view(&self) -> PartData {
        PartData { text: self.text@, bold: self.bold }
    }
}

pub open spec fn parts_view(v: Seq<FramePart>) -> Seq<PartData> {
    v.map_values(|p: FramePart| p@)
}

/// The position of the first mark, or the length.
pub open spec fn first_marker(s: Seq<char>) -> nat
    decreases s.len(),
{
    if s.len() == 0 || marker(s[0]) {
        0
    } else {
        1 + first_marker(s.skip(1))
    }
}

/// A line cut behind each of its marks.
pub open spec fn line_parts(s: Seq<char>) -> Seq<PartData>
    decreases s.len(),
{
    let at = first_marker(s) as int;
    if s.len() == 0 {
        seq![]
    } else if at >= s.len() {
        seq![PartData { text: s, bold: None }]
    } else {
        seq![PartData { text: s.take(at), bold: Some(s[at] == BOLD_START) }] + line_parts(
            s.skip(at + 1),
        )
    }
}

/// The texts of the parts of a line, one after the other.
pub open spec fn joined_parts(parts: Seq<PartData>) -> Seq<char>
    decreases parts.len(),
{
    if parts.len() == 0 {
        seq![]
    } else {
        parts[0].text + joined_parts(parts.skip(1))
    }
}

proof fn lemma_first_marker(s: Seq<char>)
    ensures
        first_marker(s) <= s.len(),
        forall|i: int| 0 <= i < first_marker(s) ==> !marker(#[trigger] s[i]),
        first_marker(s) < s.len() ==> marker(s[first_marker(s) as int]),
    decreases s.len(),
{
    if s.len() > 0 && !marker(s[0]) {
        lemma_first_marker(s.skip(1));
        assert forall|i: int| 0 <= i < first_marker(s) implies !marker(#[trigger] s[i]) by {
            if i > 0 {
                assert(s[i] == s.skip(1)[i - 1]);
            }
        }
    }
}

proof fn lemma_plain_fixed(s: Seq<char>)
    requires
        forall|i: int| 0 <= i < s.len() ==> !marker(#[trigger] s[i]),
    ensures
        plain(s) == s,
    decreases s.len(),
{
    if s.len() > 0 {
        lemma_plain_fixed(s.skip(1));
        assert(seq![s[0]] + s.skip(1) =~= s);
    }
}

/// The parts of a line show the line without its marks.
pub proof fn parts_show_the_line(s: Seq<char>)
    ensures
        joined_parts(line_parts(s)) == plain(s),
    decreases s.len(),
{
    if s.len() > 0 {
        lemma_first_marker(s);
        let at = first_marker(s) as int;
        let head = s.take(at);
        lemma_plain_fixed(head);
        reveal_with_fuel(joined_parts, 2);
        if at < s.len() {
            let tail = s.skip(at);
            parts_show_the_line(s.skip(at + 1));
            assert(s =~= head + tail);
            lemma_plain_concat(head, tail);
            assert(tail.skip(1) =~= s.skip(at + 1));
            let parts = line_parts(s);
            assert(parts.skip(1) =~= line_parts(s.skip(at + 1)));
        } else {
            assert(head =~= s);
            assert(joined_parts(line_parts(s)) =~= s);
        }
    }
}

/// How one line of a frame is drawn. The first line of a frame is bold.
pub open spec fn drawn_line(line: Seq<char>, first: bool) -> Seq<PartData> {
    let text = strip_end(line, '\r');
    line_parts(
        marked(
            if first && find(text, BOLD_START) >= text.len() {
                bold(text)
            } else {
                text
            },
            0,
        ),
    )
}

fn cut_line(text: &str) -> (r: Vec<FramePart>)
    ensures
        parts_view(r@) == line_parts(text@),
{
    let chars = to_chars(text);
    let mut out: Vec<FramePart> = Vec::new();
    let mut from: usize = 0;
    assert(chars@.skip(0) =~= chars@);
    assert(parts_view(out@) + line_parts(text@) =~= line_parts(text@));
    while from < chars.len()
        invariant
            from <= chars@.len(),
            chars@ == text@,
            parts_view(out@) + line_parts(text@.skip(from as int)) == line_parts(text@),
        decreases chars@.len() - from,
    {
        let ghost rest = text@.skip(from as int);
        let ghost before = parts_view(out@);
        let mut at: usize = from;
        while at < chars.len() && chars[at] != BOLD_START && chars[at] != BOLD_END
            invariant
                from <= at <= chars@.len(),
                chars@ == text@,
                rest == text@.skip(from as int),
                forall|i: int| 0 <= i < at - from ==> !marker(#[trigger] rest[i]),
            decreases chars@.len() - at,
        {
            assert(rest[at - from] == chars@[at as int]);
            at += 1;
        }
        proof {
            lemma_first_marker(rest);
            if at < chars.len() {
                assert(rest[at - from] == chars@[at as int]);
            }
            assert(first_marker(rest) == at - from);
        }
        let piece = slice_text(&chars, from, at);
        assert(piece@ =~= rest.take(at - from));
        if at < chars.len() {
            let part = FramePart { text: piece, bold: Some(chars[at] == BOLD_START) };
            out.push(part);
            assert(rest.skip(at - from + 1) =~= text@.skip(at + 1));
            from = at + 1;
            proof {
                assert(parts_view(out@) =~= before.push(part@));
                assert(parts_view(out@) + line_parts(text@.skip(from as int)) =~= before + (seq![
                    part@,
                ] + line_parts(text@.skip(from as int))));
            }
        } else {
            let part = FramePart { text: piece, bold: None };
            out.push(part);
            from = at;
            proof {
                assert(piece@ =~= rest);
                assert(text@.skip(from as int) =~= Seq::<char>::empty());
                assert(parts_view(out@) + line_parts(text@.skip(from as int)) =~= before + seq![
                    part@,
                ]);
            }
        }
    }
    assert(text@.skip(from as int) =~= Seq::<char>::empty());
    assert(parts_view(out@) + Seq::<PartData>::empty() =~= parts_view(out@));
    out
}

/// The parts in which the lines of a frame are drawn.
pub fn frame_lines(frame: &str) -> (r: Vec<Vec<FramePart>>)
    ensures
        r@.len() == lines(frame@).len(),
        forall|i: int|
            0 <= i < r@.len() ==> parts_view((#[trigger] r@[i])@) == drawn_line(
                lines(frame@)[i],
                i == 0,
            ),
{
    let rows = split_lines(frame);
    let mut out: Vec<Vec<FramePart>> = Vec::new();
    let mut i: usize = 0;
    while i < rows.len()
        invariant
            i <= rows@.len(),
            texts(rows@) == lines(frame@),
            out@.len() == i,
            forall|j: int|
                0 <= j < i ==> parts_view((#[trigger] out@[j])@) == drawn_line(
                    lines(frame@)[j],
                    j == 0,
                ),
        decreases rows@.len() - i,
    {
        assert(texts(rows@)[i as int] == rows@[i as int]@);
        let line = trim_end_char(rows[i].as_str(), '\r');
        proof {
            lemma_find(line@, BOLD_START);
        }
        let styled = if i == 0 && !contains_char(line.as_str(), BOLD_START) {
            bold_text(line.as_str())
        } else {
            line
        };
        out.push(cut_line(bold_key_bindings(styled.as_str()).as_str()));
        i += 1;
    }
    out
}

// ---------------------------------------------------------------------------
// What holds of every screen
// ---------------------------------------------------------------------------

/// A panel is as wide as what it holds, between twenty-eight and fifty-two
/// columns, and leaves four columns of the screen, where that has them.
pub proof fn panels_are_as_wide_as_what_they_hold(content: int, columns: int)
    ensures
        28 <= content <= 52 && content + 4 <= columns ==> panel_width(content, columns) == content,
        content <= 28 || columns <= 32 ==> panel_width(content, columns) == 28,
        content >= 52 && columns >= 56 ==> panel_width(content, columns) == 52,
        32 <= columns < content + 4 && columns <= 56 ==> panel_width(content, columns) == columns
            - 4,
{
}

/// The widest of some texts is as wide as one of them, and none is wider.
pub proof fn the_widest_is_among_them(widths: Seq<usize>, i: int)
    requires
        0 <= i < widths.len(),
    ensures
        widths[i] <= widest(widths),
        exists|k: int| 0 <= k < widths.len() && #[trigger] widths[k] == widest(widths),
    decreases widths.len(),
{
    let rest = widths.drop_last();
    if rest.len() > 0 {
        let j = if i < rest.len() {
            i
        } else {
            0
        };
        the_widest_is_among_them(rest, j);
        if widths.last() <= widest(rest) {
            let k = choose|k: int| 0 <= k < rest.len() && #[trigger] rest[k] == widest(rest);
            assert(widths[k] == widest(widths));
        } else {
            assert(widths[widths.len() - 1] == widest(widths));
        }
    } else {
        assert(widest(rest) == 0);
        assert(widths[0] == widths.last());
        assert(widths[0] == widest(widths));
    }
}

/// A text that fits its cell is kept, with blanks behind it. One that does not is
/// cut behind the last character that leaves a column, and an ellipsis follows.
pub proof fn texts_are_cut_to_their_cell(s: Seq<char>, width: nat)
    requires
        width > 0,
        forall|i: int| 0 <= i < s.len() ==> !marker(#[trigger] s[i]),
    ensures
        shown_columns(s) <= width ==> fitted_text(s, width) == s + repeated(
            ' ',
            (width - shown_columns(s)) as nat,
        ),
        shown_columns(s) > width ==> exists|n: int|
            0 <= n < s.len() && shown_columns(#[trigger] s.take(n)) <= width - 1 && shown_columns(
                s.take(n + 1),
            ) > width - 1 && fitted_text(s, width) == s.take(n) + seq!['…'] + repeated(
                ' ',
                (width - 1 - shown_columns(s.take(n))) as nat,
            ),
{
    if shown_columns(s) > width {
        let columns = columns_of(s);
        let n = kept_chars(s, columns, width - 1) as int;
        lemma_kept(s, columns, width - 1);
        lemma_next_does_not_fit(s, columns, width - 1);
        if n == s.len() {
            assert(s.take(n) =~= s);
            assert(columns.take(n) =~= columns);
        }
        assert(columns_of(s.take(n)) =~= columns.take(n));
        assert(columns_of(s.take(n + 1)) =~= columns.take(n + 1));
        lemma_not_bold(s.take(n));
        assert(s.take(n) + Seq::<char>::empty() =~= s.take(n));
        assert(shown_columns(s.take(n)) <= width - 1);
    }
}

proof fn lemma_not_bold(s: Seq<char>)
    requires
        forall|i: int| 0 <= i < s.len() ==> !marker(#[trigger] s[i]),
    ensures
        !open_bold(s),
    decreases s.len(),
{
    if s.len() > 0 {
        assert(!marker(s[s.len() - 1]));
        lemma_not_bold(s.drop_last());
    }
}

proof fn lemma_next_does_not_fit(s: Seq<char>, columns: Seq<usize>, room: int)
    requires
        s.len() == columns.len(),
        room >= 0,
    ensures
        ({
            let n = kept_chars(s, columns, room) as int;
            n < s.len() ==> total_columns(s.take(n + 1), columns.take(n + 1)) > room
        }),
    decreases s.len(),
{
    let n = kept_chars(s, columns, room) as int;
    if s.len() > 0 && n < s.len() {
        assert(s.take(n + 1).skip(1) =~= s.skip(1).take(n));
        assert(columns.take(n + 1).skip(1) =~= columns.skip(1).take(n));
        assert(s.take(n + 1)[0] == s[0] && columns.take(n + 1)[0] == columns[0]);
        if n > 0 {
            lemma_next_does_not_fit(
                s.skip(1),
                columns.skip(1),
                if marker(s[0]) {
                    room
                } else {
                    room - columns[0]
                },
            );
        }
    }
}

/// A line that starts with a key in brackets starts with that key in bold, the
/// brackets included.
pub proof fn bracketed_keys_are_bold(key: Seq<char>, rest: Seq<char>)
    requires
        binding(key),
        !key.contains(']'),
    ensures
        marked(seq!['['] + key + seq![']'] + rest, 0).take((key.len() + 4) as int) == seq![
            '\u{1}',
            '[',
        ] + key + seq![']', '\u{2}'],
{
    let s = seq!['['] + key + seq![']'] + rest;
    let inner = s.skip(1);
    assert(inner =~= key + seq![']'] + rest);
    assert forall|i: int| 0 <= i < key.len() implies #[trigger] inner[i] != ']' by {
        assert(key.contains(key[i]));
    }
    crate::text::lemma_find_is(inner, ']', key.len() as int);
    assert(inner.take(key.len() as int) =~= key);
    let n = (key.len() + 2) as int;
    assert(s.subrange(0, n) =~= seq!['['] + key + seq![']']);
    assert(marked(s, 0) == bold(s.subrange(0, n)) + marked(s, n));
    assert(marked(s, 0).take(n + 2) =~= bold(s.subrange(0, n)));
    assert(bold(s.subrange(0, n)) =~= seq!['\u{1}', '['] + key + seq![']', '\u{2}']);
}

/// The rows of a panel stand on lines of their own, in order, each in its cell.
pub proof fn panels_show_each_row(rows: Seq<Seq<char>>, width: nat)
    ensures
        panel_rows(rows, width) == rows.map_values(
            |row: Seq<char>| "│ "@ + fitted_text(row, width) + " │\r\n"@,
        ).flatten(),
    decreases rows.len(),
{
    let lines = rows.map_values(|row: Seq<char>| "│ "@ + fitted_text(row, width) + " │\r\n"@);
    lines.lemma_flatten_and_flatten_alt_are_equivalent();
    if rows.len() > 0 {
        panels_show_each_row(rows.drop_last(), width);
        lines.drop_last().lemma_flatten_and_flatten_alt_are_equivalent();
        assert(lines.drop_last() =~= rows.drop_last().map_values(
            |row: Seq<char>| "│ "@ + fitted_text(row, width) + " │\r\n"@,
        ));
    }
}

/// Of a title the first line is bold, and of one in a box all of it.
pub proof fn titles_are_bold(first: Seq<char>, rest: Seq<char>)
    requires
        !first.contains('\n'),
        first.len() > 0 ==> first[0] != '\u{1}',
    ensures
        first.len() == 0 || first[0] != '╭' ==> bold_title(first + seq!['\n'] + rest) == bold(first)
            + seq!['\n'] + rest,
        bold_title(first) == bold(first),
        first.len() > 0 && first[0] == '╭' ==> bold_title(first + seq!['\n'] + rest) == bold(
            first + seq!['\n'] + rest,
        ),
{
    let title = first + seq!['\n'] + rest;
    assert forall|i: int| 0 <= i < first.len() implies #[trigger] title[i] != '\n' by {
        assert(first.contains(first[i]));
    }
    crate::text::lemma_find_is(title, '\n', first.len() as int);
    crate::text::lemma_find_is(first, '\n', first.len() as int);
    assert(title.take(first.len() as int) =~= first);
    assert(title.skip(first.len() as int) =~= seq!['\n'] + rest);
    assert(bold(first) + (seq!['\n'] + rest) =~= bold(first) + seq!['\n'] + rest);
    assert(title[0] == if first.len() > 0 {
        first[0]
    } else {
        '\n'
    });
}

} // verus!
