//! File paths as text, by the rules of Windows: both slashes separate names, and
//! a drive, a network share or a device may lead.
use crate::text::{
    after_last, ascii_lower, behind_last, same_text, slice_text, to_ascii_lower, to_chars,
};
use vstd::prelude::*;

verus! {

pub open spec fn separator(c: char) -> bool {
    c == '/' || c == '\\'
}

/// What separates the names of a path. In a verbatim path, one that starts with
/// `\\?\`, only the backslash does.
pub open spec fn separates(c: char, verbatim: bool) -> bool {
    c == '\\' || c == '/' && !verbatim
}

/// Whether a path starts with a drive letter and a colon.
pub open spec fn has_drive(s: Seq<char>) -> bool {
    s.len() >= 2 && s[1] == ':' && 'a' <= ascii_lower(s[0]) <= 'z'
}

/// Whether a path starts with `\\?\`, which takes what follows as it stands.
pub open spec fn verbatim_path(s: Seq<char>) -> bool {
    s.len() >= 4 && s[0] == '\\' && s[1] == '\\' && s[2] == '?' && s[3] == '\\'
}

/// Whether a path starts with `\\.\`, which leads to a device.
pub open spec fn device_path(s: Seq<char>) -> bool {
    s.len() >= 4 && separator(s[0]) && separator(s[1]) && s[2] == '.' && separator(s[3])
}

/// Whether a verbatim path leads to a network share.
pub open spec fn verbatim_share(s: Seq<char>) -> bool {
    s.len() >= 8 && s[4] == 'U' && s[5] == 'N' && s[6] == 'C' && separator(s[7])
}

/// The end of the name that starts at `from`.
pub open spec fn component_end(s: Seq<char>, from: int, verbatim: bool) -> int
    decreases s.len() - from,
{
    if from >= s.len() || separates(s[from], verbatim) {
        from
    } else {
        component_end(s, from + 1, verbatim)
    }
}

/// The end of a server and its share, or of the server where no share follows.
pub open spec fn share_end(s: Seq<char>, from: int, verbatim: bool) -> int {
    let server = component_end(s, from, verbatim);
    let share = component_end(s, server + 1, verbatim);
    if server < s.len() && share > server + 1 {
        share
    } else {
        server
    }
}

/// The length of the prefix of a path: `\\?\UNC\server\share`, `\\?\C:`,
/// `\\?\name`, `\\.\name`, `\\server\share`, `C:` or nothing.
pub open spec fn prefix_len(s: Seq<char>) -> int {
    if verbatim_path(s) {
        if verbatim_share(s) {
            share_end(s, 8, true)
        } else if has_drive(s.skip(4)) && (s.len() == 6 || separator(s[6])) {
            6
        } else {
            component_end(s, 4, true)
        }
    } else if device_path(s) {
        component_end(s, 4, false)
    } else if s.len() >= 2 && separator(s[0]) && separator(s[1]) {
        let server = component_end(s, 2, false);
        let end = share_end(s, 2, false);
        if server > 2 && end > server {
            end
        } else {
            0
        }
    } else if has_drive(s) {
        2
    } else {
        0
    }
}

/// Whether a separator follows the prefix of a path.
pub open spec fn rooted(s: Seq<char>) -> bool {
    prefix_len(s) < s.len() && separator(s[prefix_len(s)])
}

/// The length of the prefix and the root of a path.
pub open spec fn anchor_len(s: Seq<char>) -> int {
    prefix_len(s) + if rooted(s) {
        1int
    } else {
        0
    }
}

/// The names of a path: what stands behind its prefix and root.
pub open spec fn path_body(s: Seq<char>) -> Seq<char> {
    s.skip(anchor_len(s))
}

/// The position behind the last separator.
pub open spec fn name_start(s: Seq<char>, verbatim: bool) -> nat
    decreases s.len(),
{
    if s.len() == 0 {
        0
    } else if separates(s.last(), verbatim) {
        s.len()
    } else {
        name_start(s.drop_last(), verbatim)
    }
}

proof fn lemma_name_start_is(s: Seq<char>, verbatim: bool, k: int)
    requires
        0 <= k <= s.len(),
        forall|i: int| k <= i < s.len() ==> !separates(#[trigger] s[i], verbatim),
        k > 0 ==> separates(s[k - 1], verbatim),
    ensures
        name_start(s, verbatim) == k,
    decreases s.len(),
{
    if s.len() > 0 && !separates(s.last(), verbatim) {
        assert(k < s.len());
        assert forall|i: int| k <= i < s.drop_last().len() implies !separates(
            #[trigger] s.drop_last()[i],
            verbatim,
        ) by {
            assert(s.drop_last()[i] == s[i]);
        }
        lemma_name_start_is(s.drop_last(), verbatim, k);
    } else if s.len() > 0 {
        assert(k == s.len()) by {
            if k < s.len() {
                assert(!separates(s[s.len() - 1], verbatim));
            }
        }
    }
}

proof fn lemma_name_start(s: Seq<char>, verbatim: bool)
    ensures
        name_start(s, verbatim) <= s.len(),
    decreases s.len(),
{
    if s.len() > 0 {
        lemma_name_start(s.drop_last(), verbatim);
    }
}

/// Where the last name of a sequence of names ends. Trailing separators are
/// passed over, and so is the name `.`, unless the path is verbatim or starts
/// with it.
pub open spec fn names_end(s: Seq<char>, verbatim: bool, rooted: bool) -> nat
    decreases s.len(),
{
    if s.len() == 0 {
        0
    } else if separates(s.last(), verbatim) {
        names_end(s.drop_last(), verbatim, rooted)
    } else {
        let start = name_start(s, verbatim) as int;
        if !verbatim && s.skip(start) == seq!['.'] {
            if 0 < start < s.len() {
                names_end(s.take(start), verbatim, rooted)
            } else if rooted {
                0
            } else {
                s.len()
            }
        } else {
            s.len()
        }
    }
}

/// The last name in a sequence of names; `.` and `..` are none.
pub open spec fn last_name(s: Seq<char>, verbatim: bool, rooted: bool) -> Option<Seq<char>> {
    let names = s.take(names_end(s, verbatim, rooted) as int);
    let name = names.skip(name_start(names, verbatim) as int);
    if name.len() == 0 || name == seq!['.'] || name == seq!['.', '.'] {
        None
    } else {
        Some(name)
    }
}

/// The name of the file or directory that a path leads to.
pub open spec fn path_name(path: Seq<char>) -> Option<Seq<char>> {
    last_name(path_body(path), verbatim_path(path), rooted(path))
}

/// The directory of a path; none where the path has no name. The name `.` right
/// behind a drive counts as none.
pub open spec fn parent_path(path: Seq<char>) -> Option<Seq<char>> {
    let verbatim = verbatim_path(path);
    let body = path_body(path);
    let names = body.take(names_end(body, verbatim, rooted(path)) as int);
    if names.len() == 0 || names == seq!['.'] && !verbatim && prefix_len(path) > 0 {
        None
    } else {
        let before = names.take(name_start(names, verbatim) as int);
        Some(path.take(anchor_len(path) + names_end(before, verbatim, rooted(path))))
    }
}

/// What stands behind the last dot of a name, unless that dot leads the name.
pub open spec fn name_extension(name: Seq<char>) -> Option<Seq<char>> {
    if after_last(name, '.') <= 1 {
        None
    } else {
        Some(name.skip(after_last(name, '.') as int))
    }
}

/// The extension of the file that a path leads to.
pub open spec fn path_extension(path: Seq<char>) -> Option<Seq<char>> {
    match path_name(path) {
        Some(name) => name_extension(name),
        None => None,
    }
}

/// Separators, with at most the name `.` behind each.
pub open spec fn blank_tail(s: Seq<char>) -> bool
    decreases s.len(),
{
    s.len() == 0 || separator(s[0]) && (blank_tail(s.skip(1)) || s.len() > 1 && s[1] == '.'
        && blank_tail(s.skip(2)))
}

/// The position of the first separator, or the length.
pub open spec fn first_separator(s: Seq<char>) -> nat
    decreases s.len(),
{
    if s.len() == 0 || separator(s[0]) {
        0
    } else {
        1 + first_separator(s.skip(1))
    }
}

/// The one name that a path without drive, root and directory consists of.
pub open spec fn only_name(path: Seq<char>) -> Option<Seq<char>> {
    let end = first_separator(path) as int;
    if end == 0 || has_drive(path) || path.take(end) == seq!['.'] || path.take(end) == seq![
        '.',
        '.',
    ] || !blank_tail(path.skip(end)) {
        None
    } else {
        Some(path.take(end))
    }
}

pub fn is_separator(c: char) -> (r: bool)
    ensures
        r == separator(c),
{
    c == '/' || c == '\\'
}

fn is_separating(c: char, verbatim: bool) -> (r: bool)
    ensures
        r == separates(c, verbatim),
{
    c == '\\' || c == '/' && !verbatim
}

fn find_component_end(chars: &Vec<char>, from: usize, verbatim: bool) -> (r: usize)
    requires
        from <= chars@.len(),
    ensures
        r == component_end(chars@, from as int, verbatim),
        from <= r <= chars@.len(),
{
    let mut end: usize = from;
    while end < chars.len() && !is_separating(chars[end], verbatim)
        invariant
            from <= end <= chars@.len(),
            component_end(chars@, from as int, verbatim) == component_end(
                chars@,
                end as int,
                verbatim,
            ),
        decreases chars@.len() - end,
    {
        end += 1;
    }
    end
}

fn find_share_end(chars: &Vec<char>, from: usize, verbatim: bool) -> (r: (usize, usize))
    requires
        from <= chars@.len(),
    ensures
        r.0 == component_end(chars@, from as int, verbatim),
        r.1 == share_end(chars@, from as int, verbatim),
        from <= r.0 <= r.1 <= chars@.len(),
{
    let server: usize = find_component_end(chars, from, verbatim);
    if server == chars.len() {
        return (server, server);
    }
    let share: usize = find_component_end(chars, server + 1, verbatim);
    if share > server + 1 {
        (server, share)
    } else {
        (server, server)
    }
}

fn has_drive_at(chars: &Vec<char>, from: usize) -> (r: bool)
    requires
        from <= chars@.len(),
    ensures
        r == has_drive(chars@.skip(from as int)),
{
    if chars.len() - from < 2 || chars[from + 1] != ':' {
        return false;
    }
    let letter = to_ascii_lower(chars[from]);
    'a' <= letter && letter <= 'z'
}

fn is_verbatim(chars: &Vec<char>) -> (r: bool)
    ensures
        r == verbatim_path(chars@),
{
    chars.len() >= 4 && chars[0] == '\\' && chars[1] == '\\' && chars[2] == '?' && chars[3]
        == '\\'
}

fn find_prefix(chars: &Vec<char>) -> (r: usize)
    ensures
        r == prefix_len(chars@),
        r <= chars@.len(),
{
    let len: usize = chars.len();
    assert(chars@.skip(0) =~= chars@);
    if is_verbatim(chars) {
        if len >= 8 && chars[4] == 'U' && chars[5] == 'N' && chars[6] == 'C' && is_separator(
            chars[7],
        ) {
            find_share_end(chars, 8, true).1
        } else if has_drive_at(chars, 4) && (len == 6 || is_separator(chars[6])) {
            6
        } else {
            find_component_end(chars, 4, true)
        }
    } else if len >= 4 && is_separator(chars[0]) && is_separator(chars[1]) && chars[2] == '.'
        && is_separator(chars[3]) {
        find_component_end(chars, 4, false)
    } else if len >= 2 && is_separator(chars[0]) && is_separator(chars[1]) {
        let (server, end) = find_share_end(chars, 2, false);
        if server > 2 && end > server {
            end
        } else {
            0
        }
    } else if has_drive_at(chars, 0) {
        2
    } else {
        0
    }
}

/// The length of the prefix and the root, and whether there is a root.
fn find_anchor(chars: &Vec<char>) -> (r: (usize, bool))
    ensures
        r.0 == anchor_len(chars@),
        r.0 <= chars@.len(),
        r.1 == rooted(chars@),
{
    let prefix: usize = find_prefix(chars);
    if prefix < chars.len() && is_separator(chars[prefix]) {
        (prefix + 1, true)
    } else {
        (prefix, false)
    }
}

/// Where the last name between two positions starts.
fn find_name_start(chars: &Vec<char>, from: usize, end: usize, verbatim: bool) -> (r: usize)
    requires
        from <= end <= chars@.len(),
    ensures
        from <= r <= end,
        r - from == name_start(chars@.subrange(from as int, end as int), verbatim),
{
    let ghost s = chars@.subrange(from as int, end as int);
    let mut start: usize = end;
    while start > from && !is_separating(chars[start - 1], verbatim)
        invariant
            from <= start <= end <= chars@.len(),
            forall|i: int| start <= i < end ==> !separates(#[trigger] chars@[i], verbatim),
        ensures
            from <= start <= end,
            forall|i: int| start <= i < end ==> !separates(#[trigger] chars@[i], verbatim),
            start > from ==> separates(chars@[start - 1], verbatim),
        decreases start,
    {
        start -= 1;
    }
    proof {
        let k = start - from;
        assert forall|i: int| k <= i < s.len() implies !separates(#[trigger] s[i], verbatim) by {
            assert(s[i] == chars@[from + i]);
        }
        if k > 0 {
            assert(s[k - 1] == chars@[start - 1]);
        }
        lemma_name_start_is(s, verbatim, k);
    }
    start
}

/// Where the last of the names between two positions ends.
fn find_names_end(chars: &Vec<char>, from: usize, to: usize, verbatim: bool, rooted: bool) -> (r:
    usize)
    requires
        from <= to <= chars@.len(),
    ensures
        from <= r <= to,
        r - from == names_end(chars@.subrange(from as int, to as int), verbatim, rooted),
{
    let ghost whole = chars@.subrange(from as int, to as int);
    let mut end: usize = to;
    while end > from
        invariant
            from <= end <= to <= chars@.len(),
            whole == chars@.subrange(from as int, to as int),
            names_end(whole, verbatim, rooted) == names_end(
                chars@.subrange(from as int, end as int),
                verbatim,
                rooted,
            ),
        decreases end,
    {
        let ghost s = chars@.subrange(from as int, end as int);
        assert(s.last() == chars@[end - 1]);
        if is_separating(chars[end - 1], verbatim) {
            assert(s.drop_last() =~= chars@.subrange(from as int, end - 1));
            end -= 1;
        } else {
            let start: usize = find_name_start(chars, from, end, verbatim);
            proof {
                lemma_name_start(s, verbatim);
                assert(s.skip(start - from) =~= chars@.subrange(start as int, end as int));
                assert(s.take(start - from) =~= chars@.subrange(from as int, start as int));
                let name = chars@.subrange(start as int, end as int);
                assert(name == seq!['.'] <==> (end - start == 1 && chars@[start as int] == '.')) by {
                    if end - start == 1 && chars@[start as int] == '.' {
                        assert(name =~= seq!['.']);
                    }
                    if name == seq!['.'] {
                        assert(name.len() == 1 && name[0] == '.');
                    }
                }
            }
            if !verbatim && end - start == 1 && chars[start] == '.' {
                if start > from {
                    end = start;
                } else if rooted {
                    return from;
                } else {
                    return end;
                }
            } else {
                return end;
            }
        }
    }
    end
}

/// The last of the names from a position on.
fn find_last_name(chars: &Vec<char>, from: usize, verbatim: bool, rooted: bool) -> (r: Option<
    String,
>)
    requires
        from <= chars@.len(),
    ensures
        match r {
            Some(name) => last_name(chars@.skip(from as int), verbatim, rooted) == Some(name@),
            None => last_name(chars@.skip(from as int), verbatim, rooted) is None,
        },
{
    let end: usize = find_names_end(chars, from, chars.len(), verbatim, rooted);
    let start: usize = find_name_start(chars, from, end, verbatim);
    let name = slice_text(chars, start, end);
    proof {
        let body = chars@.skip(from as int);
        assert(body =~= chars@.subrange(from as int, chars@.len() as int));
        let names = body.take(end - from);
        assert(names =~= chars@.subrange(from as int, end as int));
        assert(names.skip(start - from) =~= name@);
        assert(end - start == 1 && chars@[start as int] == '.' ==> name@ =~= seq!['.']);
        assert(end - start == 2 && chars@[start as int] == '.' && chars@[start + 1] == '.'
            ==> name@ =~= seq!['.', '.']);
        assert(end > start ==> name@[0] == chars@[start as int]);
        assert(name@.len() == 2 ==> name@[1] == chars@[start + 1]);
    }
    if start == end {
        return None;
    }
    if end - start == 1 && chars[start] == '.' {
        return None;
    }
    if end - start == 2 && chars[start] == '.' && chars[start + 1] == '.' {
        return None;
    }
    Some(name)
}

/// The name that a path leads to.
pub fn file_name(path: &str) -> (r: Option<String>)
    ensures
        match r {
            Some(name) => path_name(path@) == Some(name@),
            None => path_name(path@) is None,
        },
{
    let chars = to_chars(path);
    let (from, rooted) = find_anchor(&chars);
    find_last_name(&chars, from, is_verbatim(&chars), rooted)
}

/// The directory of a path.
pub fn directory_name(path: &str) -> (r: Option<String>)
    ensures
        match r {
            Some(dir) => parent_path(path@) == Some(dir@),
            None => parent_path(path@) is None,
        },
{
    let chars = to_chars(path);
    let verbatim = is_verbatim(&chars);
    let (from, rooted) = find_anchor(&chars);
    let end: usize = find_names_end(&chars, from, chars.len(), verbatim, rooted);
    let ghost body = path_body(path@);
    assert(body =~= chars@.subrange(from as int, chars@.len() as int));
    let ghost names = body.take(end - from);
    assert(names =~= chars@.subrange(from as int, end as int));
    if end == from {
        return None;
    }
    proof {
        assert(names[0] == chars@[from as int]);
        if end - from == 1 && chars@[from as int] == '.' {
            assert(names =~= seq!['.']);
        }
        if names == seq!['.'] {
            assert(names.len() == 1 && names[0] == '.');
        }
    }
    if end - from == 1 && chars[from] == '.' && !verbatim && find_prefix(&chars) > 0 {
        return None;
    }
    let start: usize = find_name_start(&chars, from, end, verbatim);
    assert(names.take(start - from) =~= chars@.subrange(from as int, start as int));
    let stop: usize = find_names_end(&chars, from, start, verbatim, rooted);
    let dir = slice_text(&chars, 0, stop);
    assert(dir@ =~= path@.take(stop as int));
    Some(dir)
}

/// The extension of a name.
pub fn extension_of_name(name: &str) -> (r: Option<String>)
    ensures
        match r {
            Some(ext) => name_extension(name@) == Some(ext@),
            None => name_extension(name@) is None,
        },
{
    let ext = behind_last(name, '.');
    proof {
        crate::text::lemma_after_last(name@, '.');
    }
    let chars = to_chars(name);
    let tail = to_chars(ext.as_str());
    assert(tail@.len() == name@.len() - after_last(name@, '.'));
    if chars.len() - tail.len() <= 1 {
        None
    } else {
        Some(ext)
    }
}

/// The extension of the file that a path leads to.
pub fn extension(path: &str) -> (r: Option<String>)
    ensures
        match r {
            Some(ext) => path_extension(path@) == Some(ext@),
            None => path_extension(path@) is None,
        },
{
    match file_name(path) {
        Some(name) => extension_of_name(name.as_str()),
        None => None,
    }
}

fn is_blank_tail(chars: &Vec<char>, from: usize) -> (r: bool)
    requires
        from <= chars@.len(),
    ensures
        r == blank_tail(chars@.skip(from as int)),
    decreases chars@.len() - from,
{
    let ghost s = chars@.skip(from as int);
    if from == chars.len() {
        return true;
    }
    assert(s[0] == chars@[from as int]);
    if !is_separator(chars[from]) {
        return false;
    }
    assert(s.skip(1) =~= chars@.skip(from + 1));
    if is_blank_tail(chars, from + 1) {
        return true;
    }
    if chars.len() - from > 1 && chars[from + 1] == '.' {
        assert(s.skip(2) =~= chars@.skip(from + 2));
        is_blank_tail(chars, from + 2)
    } else {
        false
    }
}

/// The one name that a path consists of.
pub fn single_name(path: &str) -> (r: Option<String>)
    ensures
        match r {
            Some(name) => only_name(path@) == Some(name@),
            None => only_name(path@) is None,
        },
{
    let chars = to_chars(path);
    let mut end: usize = 0;
    assert(chars@.skip(0) =~= chars@);
    while end < chars.len() && !is_separator(chars[end])
        invariant
            end <= chars@.len(),
            first_separator(chars@) == end + first_separator(chars@.skip(end as int)),
        ensures
            end <= chars@.len(),
            first_separator(chars@) == end,
        decreases chars@.len() - end,
    {
        assert(chars@.skip(end as int).skip(1) =~= chars@.skip(end + 1));
        end += 1;
    }
    if end == 0 || has_drive_at(&chars, 0) {
        return None;
    }
    let name = slice_text(&chars, 0, end);
    assert(name@ =~= path@.take(end as int));
    proof {
        assert(end == 1 && chars@[0] == '.' ==> name@ =~= seq!['.']);
        assert(end == 2 && chars@[0] == '.' && chars@[1] == '.' ==> name@ =~= seq!['.', '.']);
        assert(name@[0] == chars@[0]);
        assert(end == 2 ==> name@[1] == chars@[1]);
    }
    if end == 1 && chars[0] == '.' {
        return None;
    }
    if end == 2 && chars[0] == '.' && chars[1] == '.' {
        return None;
    }
    if is_blank_tail(&chars, end) {
        Some(name)
    } else {
        None
    }
}

// ---------------------------------------------------------------------------
// Comparing paths
// ---------------------------------------------------------------------------

/// What leads a path. The case of a drive letter does not count.
pub enum PathPrefix {
    Absent,
    Drive(char),
    Share(Seq<char>, Seq<char>),
    Device(Seq<char>),
    VerbatimDrive(char),
    VerbatimShare(Seq<char>, Seq<char>),
    Verbatim(Seq<char>),
}

/// What stands between the end of a server and the end of its share.
pub open spec fn share_name(s: Seq<char>, server: int, end: int) -> Seq<char> {
    if end > server {
        s.subrange(server + 1, end)
    } else {
        seq![]
    }
}

pub open spec fn path_prefix(s: Seq<char>) -> PathPrefix {
    let end = prefix_len(s);
    if verbatim_path(s) {
        if verbatim_share(s) {
            let server = component_end(s, 8, true);
            PathPrefix::VerbatimShare(s.subrange(8, server), share_name(s, server, end))
        } else if has_drive(s.skip(4)) && (s.len() == 6 || separator(s[6])) {
            PathPrefix::VerbatimDrive(ascii_lower(s[4]))
        } else {
            PathPrefix::Verbatim(s.subrange(4, end))
        }
    } else if device_path(s) {
        PathPrefix::Device(s.subrange(4, end))
    } else if end == 0 {
        PathPrefix::Absent
    } else if has_drive(s) {
        PathPrefix::Drive(ascii_lower(s[0]))
    } else {
        let server = component_end(s, 2, false);
        PathPrefix::Share(s.subrange(2, server), share_name(s, server, end))
    }
}

/// Whether a path starts at a root. One on a share or a device always does.
pub open spec fn has_root(s: Seq<char>) -> bool {
    rooted(s) || path_prefix(s) is Share || path_prefix(s) is Device
}

/// The names in a sequence of names. The name `.` is left out, unless the path
/// is verbatim.
pub open spec fn name_list(s: Seq<char>, verbatim: bool) -> Seq<Seq<char>>
    decreases s.len(),
{
    if s.len() == 0 {
        seq![]
    } else if separates(s.last(), verbatim) {
        name_list(s.drop_last(), verbatim)
    } else {
        let start = name_start(s, verbatim) as int;
        let before = if 0 < start < s.len() {
            name_list(s.take(start), verbatim)
        } else {
            seq![]
        };
        if !verbatim && s.skip(start) == seq!['.'] {
            before
        } else {
            before.push(s.skip(start))
        }
    }
}

/// Whether a path without prefix and root starts with the name `.`, which counts
/// there.
pub open spec fn starts_here(s: Seq<char>) -> bool {
    anchor_len(s) == 0 && s.len() > 0 && s[0] == '.' && (s.len() == 1 || separator(s[1]))
}

/// The names of a path.
pub open spec fn path_names(s: Seq<char>) -> Seq<Seq<char>> {
    let names = name_list(path_body(s), verbatim_path(s));
    if starts_here(s) {
        seq![seq!['.']] + names
    } else {
        names
    }
}

/// Whether two paths are the same: they have the same prefix, root and names.
pub open spec fn same_path(a: Seq<char>, b: Seq<char>) -> bool {
    path_prefix(a) == path_prefix(b) && has_root(a) == has_root(b) && path_names(a) == path_names(b)
}

/// A prefix as three texts.
pub open spec fn prefix_texts(p: PathPrefix) -> Seq<Seq<char>> {
    match p {
        PathPrefix::Absent => seq![seq!['0'], seq![], seq![]],
        PathPrefix::Drive(c) => seq![seq!['1'], seq![c], seq![]],
        PathPrefix::Share(server, share) => seq![seq!['2'], server, share],
        PathPrefix::Device(name) => seq![seq!['3'], name, seq![]],
        PathPrefix::VerbatimDrive(c) => seq![seq!['4'], seq![c], seq![]],
        PathPrefix::VerbatimShare(server, share) => seq![seq!['5'], server, share],
        PathPrefix::Verbatim(name) => seq![seq!['6'], name, seq![]],
    }
}

/// A path as texts: its prefix, its root and its names.
pub open spec fn path_texts(s: Seq<char>) -> Seq<Seq<char>> {
    prefix_texts(path_prefix(s)).push(
        if has_root(s) {
            seq!['r']
        } else {
            seq![]
        },
    ) + path_names(s)
}

/// Texts one after the other, each ended by a backslash.
pub open spec fn ended(items: Seq<Seq<char>>) -> Seq<char>
    decreases items.len(),
{
    if items.len() == 0 {
        seq![]
    } else {
        ended(items.drop_last()) + items.last().push('\\')
    }
}

/// The form of a path: the same text for the same paths, and for no others.
pub open spec fn path_form(s: Seq<char>) -> Seq<char> {
    ended(path_texts(s))
}

/// Whether no text holds a backslash.
pub open spec fn unended(items: Seq<Seq<char>>) -> bool {
    forall|i: int, k: int|
        0 <= i < items.len() && 0 <= k < items[i].len() ==> #[trigger] items[i][k] != '\\'
}

proof fn lemma_ended_differ(a: Seq<Seq<char>>, b: Seq<Seq<char>>)
    requires
        unended(a),
        unended(b),
        ended(a) == ended(b),
    ensures
        a == b,
    decreases a.len(),
{
    if a.len() > 0 && b.len() > 0 {
        let x = ended(a.drop_last());
        let y = ended(b.drop_last());
        lemma_ended_start(a);
        lemma_ended_start(b);
        assert(ended(a).drop_last() =~= x + a.last());
        assert(ended(b).drop_last() =~= y + b.last());
        assert(x =~= (x + a.last()).take(x.len() as int));
        assert(y =~= (y + b.last()).take(y.len() as int));
        assert(a.last() =~= (x + a.last()).skip(x.len() as int));
        assert(b.last() =~= (y + b.last()).skip(y.len() as int));
        lemma_unended_less(a);
        lemma_unended_less(b);
        lemma_ended_differ(a.drop_last(), b.drop_last());
        assert(a =~= a.drop_last().push(a.last()));
        assert(b =~= b.drop_last().push(b.last()));
    } else {
        assert(a.len() > 0 ==> ended(a).last() == '\\' && ended(a).len() > 0);
        assert(b.len() > 0 ==> ended(b).last() == '\\' && ended(b).len() > 0);
        assert(a =~= b);
    }
}

proof fn lemma_unended_less(a: Seq<Seq<char>>)
    requires
        unended(a),
        a.len() > 0,
    ensures
        unended(a.drop_last()),
{
    assert forall|i: int, k: int|
        0 <= i < a.drop_last().len() && 0 <= k < a.drop_last()[i].len() implies #[trigger] a.drop_last()[i][k]
        != '\\' by {
        assert(a.drop_last()[i] == a[i]);
        assert(a[i][k] != '\\');
    }
}

/// The last text starts behind the last backslash before its own.
proof fn lemma_ended_start(a: Seq<Seq<char>>)
    requires
        unended(a),
        a.len() > 0,
    ensures
        name_start(ended(a.drop_last()) + a.last(), true) == ended(a.drop_last()).len(),
{
    let x = ended(a.drop_last());
    let s = x + a.last();
    assert forall|i: int| x.len() <= i < s.len() implies !separates(#[trigger] s[i], true) by {
        assert(s[i] == a[a.len() - 1][i - x.len()]);
    }
    if x.len() > 0 {
        assert(a.drop_last().len() > 0);
        assert(x.last() == '\\');
        assert(s[x.len() - 1] == '\\');
    }
    lemma_name_start_is(s, true, x.len() as int);
}

proof fn lemma_name_start_apart(s: Seq<char>, verbatim: bool)
    ensures
        name_start(s, verbatim) <= s.len(),
        forall|i: int| name_start(s, verbatim) <= i < s.len() ==> !separates(
            #[trigger] s[i],
            verbatim,
        ),
    decreases s.len(),
{
    if s.len() > 0 && !separates(s.last(), verbatim) {
        lemma_name_start_apart(s.drop_last(), verbatim);
        assert forall|i: int| name_start(s, verbatim) <= i < s.len() implies !separates(
            #[trigger] s[i],
            verbatim,
        ) by {
            if i < s.len() - 1 {
                assert(s[i] == s.drop_last()[i]);
            }
        }
    }
}

proof fn lemma_name_list_unended(s: Seq<char>, verbatim: bool)
    ensures
        unended(name_list(s, verbatim)),
    decreases s.len(),
{
    if s.len() > 0 {
        if separates(s.last(), verbatim) {
            lemma_name_list_unended(s.drop_last(), verbatim);
        } else {
            lemma_name_start_apart(s, verbatim);
            let start = name_start(s, verbatim) as int;
            if 0 < start < s.len() {
                lemma_name_list_unended(s.take(start), verbatim);
            }
            let list = name_list(s, verbatim);
            assert forall|i: int, k: int|
                0 <= i < list.len() && 0 <= k < list[i].len() implies #[trigger] list[i][k]
                != '\\' by {
                if !(!verbatim && s.skip(start) == seq!['.']) && i == list.len() - 1 {
                    assert(list[i] == s.skip(start));
                    assert(!separates(s[start + k], verbatim));
                } else if 0 < start < s.len() {
                    assert(list[i] == name_list(s.take(start), verbatim)[i]);
                    assert(name_list(s.take(start), verbatim)[i][k] != '\\');
                }
            }
        }
    }
}

proof fn lemma_component_end(s: Seq<char>, from: int, verbatim: bool)
    requires
        0 <= from,
    ensures
        from <= component_end(s, from, verbatim),
        from <= s.len() ==> component_end(s, from, verbatim) <= s.len(),
        forall|i: int| from <= i < component_end(s, from, verbatim) ==> (#[trigger] s[i]) != '\\',
    decreases s.len() - from,
{
    if !(from >= s.len() || separates(s[from], verbatim)) {
        lemma_component_end(s, from + 1, verbatim);
    }
}

proof fn lemma_prefix_unended(s: Seq<char>)
    ensures
        unended(prefix_texts(path_prefix(s))),
{
    let server8 = component_end(s, 8, true);
    let server2 = component_end(s, 2, false);
    lemma_component_end(s, 8, true);
    lemma_component_end(s, server8 + 1, true);
    lemma_component_end(s, 4, true);
    lemma_component_end(s, 4, false);
    lemma_component_end(s, 2, false);
    lemma_component_end(s, server2 + 1, false);
    let items = prefix_texts(path_prefix(s));
    assert forall|i: int, k: int|
        0 <= i < items.len() && 0 <= k < items[i].len() implies #[trigger] items[i][k] != '\\' by {
        assert(i == 0 || i == 1 || i == 2);
    }
}

proof fn lemma_path_texts_unended(s: Seq<char>)
    ensures
        unended(path_texts(s)),
{
    lemma_prefix_unended(s);
    lemma_name_list_unended(path_body(s), verbatim_path(s));
    let items = path_texts(s);
    let head = prefix_texts(path_prefix(s));
    let listed = name_list(path_body(s), verbatim_path(s));
    let names = path_names(s);
    assert forall|i: int, k: int|
        0 <= i < items.len() && 0 <= k < items[i].len() implies #[trigger] items[i][k] != '\\' by {
        if i < 3 {
            assert(items[i] == head[i]);
            assert(head[i][k] != '\\');
        } else if i > 3 {
            assert(items[i] == names[i - 4]);
            if starts_here(s) {
                if i > 4 {
                    assert(names[i - 4] == listed[i - 5]);
                    assert(listed[i - 5][k] != '\\');
                }
            } else {
                assert(listed[i - 4][k] != '\\');
            }
        }
    }
}

/// Paths have the same form exactly where they are the same.
pub proof fn forms_tell_paths_apart(a: Seq<char>, b: Seq<char>)
    ensures
        path_form(a) == path_form(b) <==> same_path(a, b),
{
    if path_form(a) == path_form(b) {
        lemma_path_texts_unended(a);
        lemma_path_texts_unended(b);
        lemma_ended_differ(path_texts(a), path_texts(b));
        let p = prefix_texts(path_prefix(a));
        let q = prefix_texts(path_prefix(b));
        assert(path_texts(a).skip(4) =~= path_names(a));
        assert(path_texts(b).skip(4) =~= path_names(b));
        assert(path_texts(a)[0] == p[0] && path_texts(b)[0] == q[0]);
        assert(path_texts(a)[1] == p[1] && path_texts(b)[1] == q[1]);
        assert(path_texts(a)[2] == p[2] && path_texts(b)[2] == q[2]);
        assert(p[0][0] == q[0][0]);
        assert(path_prefix(a) is Drive || path_prefix(a) is VerbatimDrive ==> p[1][0] == q[1][0]);
        assert(path_texts(a)[3].len() == path_texts(b)[3].len());
    }
}

fn end_text(out: &mut String, text: &str)
    ensures
        final(out)@ == old(out)@ + text@.push('\\'),
{
    out.append(text);
    out.push('\\');
    assert(out@ =~= old(out)@ + text@.push('\\'));
}

proof fn lemma_ended_push(items: Seq<Seq<char>>, text: Seq<char>)
    ensures
        ended(items.push(text)) == ended(items) + text.push('\\'),
{
    assert(items.push(text).drop_last() =~= items);
}

/// The kind of the prefix of a path, its first text and its second.
fn find_prefix_texts(chars: &Vec<char>) -> (r: (String, String, String))
    ensures
        prefix_texts(path_prefix(chars@)) == seq![r.0@, r.1@, r.2@],
{
    let ghost s = chars@;
    let len: usize = chars.len();
    let end: usize = find_prefix(chars);
    assert(s.skip(0) =~= s);
    proof {
        lemma_component_end(s, 4, true);
        lemma_component_end(s, 4, false);
        reveal_strlit("0");
        reveal_strlit("1");
        reveal_strlit("2");
        reveal_strlit("3");
        reveal_strlit("4");
        reveal_strlit("5");
        reveal_strlit("6");
        assert("0"@ =~= seq!['0'] && "1"@ =~= seq!['1'] && "2"@ =~= seq!['2'] && "3"@ =~= seq!['3']
            && "4"@ =~= seq!['4'] && "5"@ =~= seq!['5'] && "6"@ =~= seq!['6']);
    }
    let none = String::new();
    assert(none@ =~= seq![]);
    if is_verbatim(chars) {
        if len >= 8 && chars[4] == 'U' && chars[5] == 'N' && chars[6] == 'C' && is_separator(
            chars[7],
        ) {
            let (server, end) = find_share_end(chars, 8, true);
            let share = if end > server {
                slice_text(chars, server + 1, end)
            } else {
                none
            };
            ("5".to_string(), slice_text(chars, 8, server), share)
        } else if has_drive_at(chars, 4) && (len == 6 || is_separator(chars[6])) {
            let mut letter = String::new();
            letter.push(to_ascii_lower(chars[4]));
            assert(letter@ =~= seq![ascii_lower(s[4])]);
            ("4".to_string(), letter, none)
        } else {
            ("6".to_string(), slice_text(chars, 4, end), none)
        }
    } else if len >= 4 && is_separator(chars[0]) && is_separator(chars[1]) && chars[2] == '.'
        && is_separator(chars[3]) {
        ("3".to_string(), slice_text(chars, 4, end), none)
    } else if end == 0 {
        let second = String::new();
        assert(second@ =~= seq![]);
        ("0".to_string(), second, none)
    } else if has_drive_at(chars, 0) {
        let mut letter = String::new();
        letter.push(to_ascii_lower(chars[0]));
        assert(letter@ =~= seq![ascii_lower(s[0])]);
        ("1".to_string(), letter, none)
    } else {
        let (server, end) = find_share_end(chars, 2, false);
        let share = if end > server {
            slice_text(chars, server + 1, end)
        } else {
            none
        };
        ("2".to_string(), slice_text(chars, 2, server), share)
    }
}

/// The names between two positions, each ended by a backslash.
fn format_names(chars: &Vec<char>, from: usize, to: usize, verbatim: bool) -> (r: String)
    requires
        from <= to <= chars@.len(),
    ensures
        r@ == ended(name_list(chars@.subrange(from as int, to as int), verbatim)),
    decreases to - from,
{
    let ghost s = chars@.subrange(from as int, to as int);
    if from == to {
        let none = String::new();
        assert(none@ =~= seq![]);
        return none;
    }
    assert(s.last() == chars@[to - 1]);
    if is_separating(chars[to - 1], verbatim) {
        assert(s.drop_last() =~= chars@.subrange(from as int, to - 1));
        return format_names(chars, from, to - 1, verbatim);
    }
    let start: usize = find_name_start(chars, from, to, verbatim);
    let name = slice_text(chars, start, to);
    proof {
        lemma_name_start_apart(s, verbatim);
        assert(s.skip(start - from) =~= name@);
        assert(s.take(start - from) =~= chars@.subrange(from as int, start as int));
        if to - start == 1 && chars@[start as int] == '.' {
            assert(name@ =~= seq!['.']);
        }
        if name@ == seq!['.'] {
            assert(name@.len() == 1 && name@[0] == '.');
        }
        lemma_name_start_before(s, verbatim);
    }
    let mut out = if start > from {
        format_names(chars, from, start, verbatim)
    } else {
        let none = String::new();
        assert(none@ =~= seq![]);
        none
    };
    if !verbatim && to - start == 1 && chars[start] == '.' {
        return out;
    }
    proof {
        let before = if start > from {
            name_list(s.take(start - from), verbatim)
        } else {
            seq![]
        };
        lemma_ended_push(before, name@);
    }
    end_text(&mut out, name.as_str());
    out
}

/// A name that does not end in a separator starts before its end.
proof fn lemma_name_start_before(s: Seq<char>, verbatim: bool)
    requires
        s.len() > 0,
        !separates(s.last(), verbatim),
    ensures
        name_start(s, verbatim) < s.len(),
{
    lemma_name_start(s.drop_last(), verbatim);
}

proof fn lemma_ended_concat(a: Seq<Seq<char>>, b: Seq<Seq<char>>)
    ensures
        ended(a + b) == ended(a) + ended(b),
    decreases b.len(),
{
    if b.len() == 0 {
        assert(a + b =~= a);
        assert(ended(a) + ended(b) =~= ended(a));
    } else {
        lemma_ended_concat(a, b.drop_last());
        assert((a + b).drop_last() =~= a + b.drop_last());
        assert(ended(a + b) =~= ended(a) + ended(b));
    }
}

/// Writes the form of a path.
pub fn format_path(path: &str) -> (r: String)
    ensures
        r@ == path_form(path@),
{
    let chars = to_chars(path);
    let (kind, first, second) = find_prefix_texts(&chars);
    let (from, rooted) = find_anchor(&chars);
    let mut out = String::new();
    let ghost head = prefix_texts(path_prefix(path@));
    proof {
        let empty = Seq::<Seq<char>>::empty();
        lemma_ended_push(empty, kind@);
        lemma_ended_push(empty.push(kind@), first@);
        lemma_ended_push(empty.push(kind@).push(first@), second@);
        assert(empty.push(kind@).push(first@).push(second@) =~= head);
        assert(out@ =~= ended(empty));
        reveal_strlit("2");
        reveal_strlit("3");
        reveal_strlit("r");
        reveal_strlit("");
        reveal_strlit(".");
        assert("2"@ =~= seq!['2']);
        assert("3"@ =~= seq!['3']);
        assert("r"@ =~= seq!['r']);
        assert(""@ =~= seq![]);
        assert("."@ =~= seq!['.']);
        assert(head[0] == kind@);
        assert(path_prefix(path@) is Share <==> kind@ == seq!['2']) by {
            assert(seq!['2'][0] == '2');
            assert(head[0][0] == kind@[0]);
        }
        assert(path_prefix(path@) is Device <==> kind@ == seq!['3']) by {
            assert(seq!['3'][0] == '3');
            assert(head[0][0] == kind@[0]);
        }
    }
    end_text(&mut out, kind.as_str());
    end_text(&mut out, first.as_str());
    end_text(&mut out, second.as_str());
    assert(out@ == ended(head));
    let root = if rooted || same_text(kind.as_str(), "2") || same_text(kind.as_str(), "3") {
        "r"
    } else {
        ""
    };
    proof {
        lemma_ended_push(head, root@);
    }
    end_text(&mut out, root);
    let ghost anchored = head.push(root@);
    assert(out@ == ended(anchored));
    let names = format_names(&chars, from, chars.len(), is_verbatim(&chars));
    let ghost listed = name_list(path_body(path@), verbatim_path(path@));
    assert(path_body(path@) =~= chars@.subrange(from as int, chars@.len() as int));
    if from == 0 && chars.len() > 0 && chars[0] == '.' && (chars.len() == 1 || is_separator(
        chars[1],
    )) {
        proof {
            lemma_ended_push(anchored, "."@);
            lemma_ended_concat(anchored.push("."@), listed);
            assert(anchored.push("."@) + listed =~= path_texts(path@));
        }
        end_text(&mut out, ".");
    } else {
        proof {
            lemma_ended_concat(anchored, listed);
        }
    }
    out.append(names.as_str());
    out
}

/// Whether two paths are the same.
pub fn is_same_path(a: &str, b: &str) -> (r: bool)
    ensures
        r == same_path(a@, b@),
{
    proof {
        forms_tell_paths_apart(a@, b@);
    }
    same_text(format_path(a).as_str(), format_path(b).as_str())
}

// ---------------------------------------------------------------------------
// What holds of every path
// ---------------------------------------------------------------------------

proof fn lemma_last_name(before: Seq<char>, name: Seq<char>, root: bool)
    requires
        before.len() > 0 ==> before.last() == '/' || before.last() == '\\',
        name.len() > 0,
        forall|i: int| 0 <= i < name.len() ==> #[trigger] name[i] != '/' && name[i] != '\\',
        name != seq!['.'],
        name != seq!['.', '.'],
    ensures
        last_name(before + name, false, root) == Some(name),
        name_list(before + name, false) == name_list(before, false).push(name),
        names_end(before + name, false, root) == before.len() + name.len(),
{
    let s = before + name;
    assert(s.last() == name[name.len() - 1]);
    assert forall|i: int| before.len() <= i < s.len() implies !separates(
        #[trigger] s[i],
        false,
    ) by {
        assert(s[i] == name[i - before.len()]);
    }
    if before.len() > 0 {
        assert(s[before.len() - 1] == before.last());
    }
    lemma_name_start_is(s, false, before.len() as int);
    assert(s.skip(before.len() as int) =~= name);
    assert(s.take(before.len() as int) =~= before);
    assert(s.take(s.len() as int) =~= s);
}

/// A path leads to what its last name says: behind directories, behind a root
/// and behind a drive. Either slash separates.
pub proof fn paths_lead_to_their_last_name(dirs: Seq<char>, name: Seq<char>, drive: char)
    requires
        dirs.len() > 0 ==> dirs.last() == '/' || dirs.last() == '\\',
        dirs.len() > 0 ==> dirs[0] != '/' && dirs[0] != '\\' && dirs[0] != ':',
        name.len() > 0,
        forall|i: int|
            0 <= i < name.len() ==> #[trigger] name[i] != '/' && name[i] != '\\' && name[i] != ':',
        name != seq!['.'],
        name != seq!['.', '.'],
        dirs.len() > 1 ==> dirs[1] != ':',
        'a' <= drive <= 'z' || 'A' <= drive <= 'Z',
    ensures
        path_name(dirs + name) == Some(name),
        path_name(seq!['/'] + dirs + name) == Some(name),
        path_name(seq!['\\'] + dirs + name) == Some(name),
        path_name(seq![drive, ':', '\\'] + dirs + name) == Some(name),
        path_name(seq![drive, ':', '/'] + dirs + name) == Some(name),
{
    let rest = dirs + name;
    assert(rest[0] == if dirs.len() > 0 {
        dirs[0]
    } else {
        name[0]
    });
    assert(rest.len() > 1 ==> rest[1] == if dirs.len() > 1 {
        dirs[1]
    } else {
        name[1 - dirs.len()]
    });
    assert(rest.skip(0) =~= rest);
    lemma_last_name(dirs, name, false);
    lemma_last_name(dirs, name, true);
    let slash = seq!['/'] + dirs + name;
    let back = seq!['\\'] + dirs + name;
    assert(slash[1] == rest[0] && back[1] == rest[0]);
    assert(slash.skip(1) =~= rest);
    assert(back.skip(1) =~= rest);
    let a = seq![drive, ':', '\\'] + dirs + name;
    let b = seq![drive, ':', '/'] + dirs + name;
    assert(a[0] == drive && a[1] == ':' && a[2] == '\\');
    assert(b[0] == drive && b[1] == ':' && b[2] == '/');
    assert(a.skip(3) =~= rest);
    assert(b.skip(3) =~= rest);
}

/// The extension of a name is what stands behind its last dot, and one that
/// starts with its only dot has none.
pub proof fn extensions_stand_behind_the_last_dot(stem: Seq<char>, ext: Seq<char>)
    requires
        !ext.contains('.'),
    ensures
        stem.len() > 0 ==> name_extension(stem + seq!['.'] + ext) == Some(ext),
        name_extension(seq!['.'] + ext) is None,
        name_extension(ext) is None,
{
    let name = stem + seq!['.'] + ext;
    lemma_after_last_dot(stem, ext);
    lemma_after_last_dot(seq![], ext);
    assert(seq![] + seq!['.'] + ext =~= seq!['.'] + ext);
    assert(name.skip((stem.len() + 1) as int) =~= ext);
    crate::text::lemma_after_last(ext, '.');
    if after_last(ext, '.') > 0 {
        assert(ext[after_last(ext, '.') - 1] == '.');
    }
}

proof fn lemma_after_last_dot(stem: Seq<char>, ext: Seq<char>)
    requires
        !ext.contains('.'),
    ensures
        after_last(stem + seq!['.'] + ext, '.') == stem.len() + 1,
{
    let name = stem + seq!['.'] + ext;
    crate::text::lemma_after_last(name, '.');
    let k = after_last(name, '.');
    assert(name[stem.len() as int] == '.');
    if k > stem.len() + 1 {
        assert(name[k - 1] == ext[k - 1 - stem.len() - 1]);
    }
}

/// Paths to two names in one directory are the same only where the names are.
/// Case counts.
pub proof fn paths_are_told_apart_by_name(dirs: Seq<char>, a: Seq<char>, b: Seq<char>)
    requires
        dirs.len() > 1,
        dirs.last() == '/' || dirs.last() == '\\',
        dirs[0] != '/' && dirs[0] != '\\',
        dirs[1] != ':',
        a.len() > 0 && b.len() > 0,
        forall|i: int| 0 <= i < a.len() ==> #[trigger] a[i] != '/' && a[i] != '\\',
        forall|i: int| 0 <= i < b.len() ==> #[trigger] b[i] != '/' && b[i] != '\\',
        a != seq!['.'] && a != seq!['.', '.'] && b != seq!['.'] && b != seq!['.', '.'],
    ensures
        same_path(dirs + a, dirs + b) <==> a == b,
{
    lemma_last_name(dirs, a, false);
    lemma_last_name(dirs, b, false);
    let x = dirs + a;
    let y = dirs + b;
    assert(x[0] == dirs[0] && y[0] == dirs[0] && x[1] == dirs[1] && y[1] == dirs[1]);
    assert(x.skip(0) =~= x);
    assert(y.skip(0) =~= y);
    let names = name_list(dirs, false);
    assert(path_names(x).last() == a);
    assert(path_names(y).last() == b);
}

/// A separator behind a path, a doubled one and the other slash make no other
/// path of it.
pub proof fn separators_make_no_difference(dirs: Seq<char>, name: Seq<char>)
    requires
        dirs.len() > 1,
        dirs.last() == '/' || dirs.last() == '\\',
        dirs[0] != '/' && dirs[0] != '\\',
        dirs[1] != ':',
        name.len() > 0,
        forall|i: int| 0 <= i < name.len() ==> #[trigger] name[i] != '/' && name[i] != '\\',
        name != seq!['.'] && name != seq!['.', '.'],
    ensures
        same_path(dirs + name, dirs + name + seq!['/']),
        same_path(dirs + name, dirs + seq!['/'] + name),
        same_path(dirs + name, dirs.drop_last() + seq!['\\'] + name),
{
    let p = dirs + name;
    let trailing = dirs + name + seq!['/'];
    let doubled = dirs + seq!['/'] + name;
    let other = dirs.drop_last() + seq!['\\'] + name;
    lemma_last_name(dirs, name, false);
    lemma_last_name(dirs + seq!['/'], name, false);
    lemma_last_name(dirs.drop_last() + seq!['\\'], name, false);
    assert(trailing.drop_last() =~= p);
    assert((dirs + seq!['/']).drop_last() =~= dirs);
    assert((dirs.drop_last() + seq!['\\']).drop_last() =~= dirs.drop_last());
    assert(p[0] == dirs[0] && trailing[0] == dirs[0] && doubled[0] == dirs[0] && other[0]
        == dirs[0]);
    assert(p[1] == dirs[1] && trailing[1] == dirs[1] && doubled[1] == dirs[1]);
    assert(p.skip(0) =~= p);
    assert(trailing.skip(0) =~= trailing);
    assert(doubled.skip(0) =~= doubled);
    assert(other.skip(0) =~= other);
    if dirs.len() == 2 {
        assert(other[1] == '\\');
    } else {
        assert(other[1] == dirs[1]);
    }
}

/// The directory of a path is what stands in front of its last name, without the
/// separator.
pub proof fn directories_hold_their_names(parents: Seq<char>, dir: Seq<char>, name: Seq<char>)
    requires
        parents.len() > 1,
        parents.last() == '/' || parents.last() == '\\',
        parents[0] != '/' && parents[0] != '\\',
        parents[1] != ':',
        dir.len() > 0 && name.len() > 0,
        forall|i: int| 0 <= i < dir.len() ==> #[trigger] dir[i] != '/' && dir[i] != '\\',
        forall|i: int| 0 <= i < name.len() ==> #[trigger] name[i] != '/' && name[i] != '\\',
        dir != seq!['.'] && dir != seq!['.', '.'] && name != seq!['.'] && name != seq!['.', '.'],
    ensures
        parent_path(parents + dir + seq!['\\'] + name) == Some(parents + dir),
        parent_path(parents + dir + seq!['/'] + name) == Some(parents + dir),
{
    lemma_directory(parents, dir, '\\', name);
    lemma_directory(parents, dir, '/', name);
}

proof fn lemma_directory(parents: Seq<char>, dir: Seq<char>, sep: char, name: Seq<char>)
    requires
        parents.len() > 1,
        parents.last() == '/' || parents.last() == '\\',
        parents[0] != '/' && parents[0] != '\\',
        parents[1] != ':',
        dir.len() > 0 && name.len() > 0,
        forall|i: int| 0 <= i < dir.len() ==> #[trigger] dir[i] != '/' && dir[i] != '\\',
        forall|i: int| 0 <= i < name.len() ==> #[trigger] name[i] != '/' && name[i] != '\\',
        dir != seq!['.'] && dir != seq!['.', '.'] && name != seq!['.'] && name != seq!['.', '.'],
        sep == '/' || sep == '\\',
    ensures
        parent_path(parents + dir + seq![sep] + name) == Some(parents + dir),
{
    let place = parents + dir;
    let before = place + seq![sep];
    let path = before + name;
    assert(path[0] == parents[0] && path[1] == parents[1]);
    assert(path.skip(0) =~= path);
    lemma_last_name(before, name, false);
    lemma_last_name(parents, dir, false);
    assert(path.take(path.len() as int) =~= path);
    assert forall|i: int| before.len() <= i < path.len() implies !separates(
        #[trigger] path[i],
        false,
    ) by {
        assert(path[i] == name[i - before.len()]);
    }
    assert(path[before.len() - 1] == sep);
    lemma_name_start_is(path, false, before.len() as int);
    assert(path.take(before.len() as int) =~= before);
    assert(before.drop_last() =~= place);
    assert(path.take(place.len() as int) =~= place);
}

} // verus!
