//! YouTube audio: addresses, tools, tracks, and the times of playback.
use crate::controls::{control_table, playback_controls};
use crate::language::Translation;
use crate::number::{decimal, format_two_digits, format_u64, two_digits};
use crate::paths::{directory_name, has_drive, is_separator, parent_path, separator};
use crate::sponsor::{SponsorSegment, SPONSOR_CHAPTER_TITLE};
use crate::text::{
    ascii_lower, ascii_lowered, has_prefix, is_empty_text, join_lines, joined_lines,
    lemma_lines_joined, lines, list_of, plain_line, same_text, slice_text, split_lines, split_n,
    split_words, splitn, strip_prefix, stripped, texts, to_ascii_lower, to_ascii_lowered, to_chars,
    trim, trim_char, trim_start, trimmed, words,
};
use crate::time::{span_difference, span_sum, Span, SECOND};
use vstd::prelude::*;

verus! {

// ---------------------------------------------------------------------------
// Addresses
// ---------------------------------------------------------------------------

/// What ends the host in an address.
pub open spec fn host_end_char(c: char) -> bool {
    c == '/' || c == '?' || c == '#' || c == ':'
}

/// The position of the first character that ends a host, or the length.
pub open spec fn host_length(s: Seq<char>) -> nat
    decreases s.len(),
{
    if s.len() == 0 || host_end_char(s[0]) {
        0
    } else {
        1 + host_length(s.skip(1))
    }
}

pub open spec fn youtube_host(host: Seq<char>) -> bool {
    ||| host == "youtube.com"@
    ||| host == "www.youtube.com"@
    ||| host == "m.youtube.com"@
    ||| host == "music.youtube.com"@
    ||| host == "youtu.be"@
}

/// What stands behind the scheme of an address.
pub open spec fn behind_scheme(url: Seq<char>) -> Option<Seq<char>> {
    if has_prefix(url, "https://"@) {
        Some(url.skip("https://"@.len() as int))
    } else if has_prefix(url, "http://"@) {
        Some(url.skip("http://"@.len() as int))
    } else {
        None
    }
}

/// Whether a text is an address on YouTube.
pub open spec fn youtube_url(value: Seq<char>) -> bool {
    behind_scheme(ascii_lowered(value)) matches Some(rest) && youtube_host(
        rest.take(host_length(rest) as int),
    )
}

/// The addresses among the first `n` words, or the first word that is none.
pub open spec fn youtube_urls(all: Seq<Seq<char>>, n: nat) -> Result<Seq<Seq<char>>, Seq<char>>
    decreases n,
{
    if n == 0 {
        Ok(seq![])
    } else {
        match youtube_urls(all, (n - 1) as nat) {
            Ok(found) => if youtube_url(all[n - 1]) {
                Ok(found.push(all[n - 1]))
            } else {
                Err("unsupported YouTube URL: "@ + all[n - 1])
            },
            Err(e) => Err(e),
        }
    }
}

fn is_youtube_url(value: &str) -> (r: bool)
    ensures
        r == youtube_url(value@),
{
    let lower = to_ascii_lowered(value);
    let rest = match strip_prefix(lower.as_str(), "https://") {
        Some(rest) => rest,
        None => match strip_prefix(lower.as_str(), "http://") {
            Some(rest) => rest,
            None => return false,
        },
    };
    let chars = to_chars(rest.as_str());
    let mut end: usize = 0;
    assert(chars@.skip(0) =~= chars@);
    while end < chars.len() && chars[end] != '/' && chars[end] != '?' && chars[end] != '#'
        && chars[end] != ':'
        invariant
            end <= chars@.len(),
            host_length(chars@) == end + host_length(chars@.skip(end as int)),
        ensures
            end <= chars@.len(),
            host_length(chars@) == end,
        decreases chars@.len() - end,
    {
        assert(chars@.skip(end as int)[0] == chars@[end as int]);
        assert(chars@.skip(end as int).skip(1) =~= chars@.skip(end + 1));
        end += 1;
    }
    let host = slice_text(&chars, 0, end);
    assert(host@ =~= rest@.take(end as int));
    let host = host.as_str();
    same_text(host, "youtube.com") || same_text(host, "www.youtube.com") || same_text(
        host,
        "m.youtube.com",
    ) || same_text(host, "music.youtube.com") || same_text(host, "youtu.be")
}

proof fn lemma_urls_fault(all: Seq<Seq<char>>, n: nat, m: nat)
    requires
        n <= m,
        youtube_urls(all, n) is Err,
    ensures
        youtube_urls(all, m) == youtube_urls(all, n),
    decreases m,
{
    if n < m {
        lemma_urls_fault(all, n, (m - 1) as nat);
    }
}

pub fn parse_youtube_urls(input: &str) -> (r: Result<Vec<String>, String>)
    ensures
        match r {
            Ok(urls) => youtube_urls(words(input@), words(input@).len()) == Ok::<
                Seq<Seq<char>>,
                Seq<char>,
            >(texts(urls@)),
            Err(e) => youtube_urls(words(input@), words(input@).len()) == Err::<
                Seq<Seq<char>>,
                Seq<char>,
            >(e@),
        },
{
    let found = split_words(input);
    let ghost all = words(input@);
    let mut urls: Vec<String> = Vec::new();
    let mut i: usize = 0;
    assert(texts(urls@) =~= seq![]);
    while i < found.len()
        invariant
            i <= found@.len(),
            texts(found@) == all,
            all == words(input@),
            youtube_urls(all, i as nat) == Ok::<Seq<Seq<char>>, Seq<char>>(texts(urls@)),
        decreases found@.len() - i,
    {
        assert(all[i as int] == found@[i as int]@);
        if !is_youtube_url(found[i].as_str()) {
            let mut e = "unsupported YouTube URL: ".to_string();
            e.append(found[i].as_str());
            proof {
                assert(youtube_urls(all, (i + 1) as nat) == Err::<Seq<Seq<char>>, Seq<char>>(e@));
                lemma_urls_fault(all, (i + 1) as nat, all.len());
            }
            return Err(e);
        }
        let url = found[i].as_str().to_string();
        let ghost before = urls@;
        urls.push(url);
        assert(texts(urls@) =~= texts(before).push(url@));
        i += 1;
    }
    Ok(urls)
}

// ---------------------------------------------------------------------------
// Tools
// ---------------------------------------------------------------------------

/// Where the two tools are.
#[derive(Debug, PartialEq, Eq)]
pub struct YouTubeTools {
    pub yt_dlp: String,
    pub ffmpeg: String,
}

/// The value of the last line that starts with a name.
pub open spec fn last_value(rows: Seq<Seq<char>>, name: Seq<char>) -> Option<Seq<char>>
    decreases rows.len(),
{
    if rows.len() == 0 {
        None
    } else if has_prefix(rows.last(), name) {
        Some(rows.last().skip(name.len() as int))
    } else {
        last_value(rows.drop_last(), name)
    }
}

/// A value that is there and not empty.
pub open spec fn filled_value(value: Option<Seq<char>>) -> Option<Seq<char>> {
    match value {
        Some(v) => if v.len() > 0 {
            Some(v)
        } else {
            None
        },
        None => None,
    }
}

/// The places of both tools, where a text has both.
pub open spec fn tools_of(text: Seq<char>) -> Option<(Seq<char>, Seq<char>)> {
    match (
        filled_value(last_value(lines(text), "yt_dlp="@)),
        filled_value(last_value(lines(text), "ffmpeg="@)),
    ) {
        (Some(a), Some(b)) => Some((a, b)),
        _ => None,
    }
}

fn find_value(rows: &Vec<String>, name: &str) -> (r: Option<String>)
    ensures
        match r {
            Some(value) => filled_value(last_value(texts(rows@), name@)) == Some(value@),
            None => filled_value(last_value(texts(rows@), name@)) is None,
        },
{
    let ghost all = texts(rows@);
    let mut n: usize = rows.len();
    assert(all.take(n as int) =~= all);
    while n > 0
        invariant
            n <= rows@.len(),
            all == texts(rows@),
            last_value(all, name@) == last_value(all.take(n as int), name@),
        decreases n,
    {
        let ghost part = all.take(n as int);
        assert(part.last() == rows@[n - 1]@);
        assert(part.drop_last() =~= all.take(n - 1));
        if let Some(value) = strip_prefix(rows[n - 1].as_str(), name) {
            if is_empty_text(value.as_str()) {
                return None;
            }
            return Some(value);
        }
        n -= 1;
    }
    None
}

pub fn parse_youtube_tools(text: &str) -> (r: Option<YouTubeTools>)
    ensures
        match r {
            Some(tools) => tools_of(text@) == Some((tools.yt_dlp@, tools.ffmpeg@)),
            None => tools_of(text@) is None,
        },
{
    let rows = split_lines(text);
    let yt_dlp = find_value(&rows, "yt_dlp=");
    let ffmpeg = find_value(&rows, "ffmpeg=");
    match (yt_dlp, ffmpeg) {
        (Some(yt_dlp), Some(ffmpeg)) => Some(YouTubeTools { yt_dlp, ffmpeg }),
        _ => None,
    }
}

/// The lines of the file that keeps the places of the tools.
pub open spec fn tool_lines(yt_dlp: Seq<char>, ffmpeg: Seq<char>) -> Seq<Seq<char>> {
    seq!["yt_dlp="@ + yt_dlp, "ffmpeg="@ + ffmpeg]
}

pub fn serialize_youtube_tools(tools: &YouTubeTools) -> (r: String)
    ensures
        r@ == joined_lines(tool_lines(tools.yt_dlp@, tools.ffmpeg@)),
{
    let mut first = "yt_dlp=".to_string();
    first.append(tools.yt_dlp.as_str());
    let mut second = "ffmpeg=".to_string();
    second.append(tools.ffmpeg.as_str());
    let mut rows: Vec<String> = Vec::new();
    rows.push(first);
    rows.push(second);
    assert(texts(rows@) =~= tool_lines(tools.yt_dlp@, tools.ffmpeg@));
    join_lines(&rows)
}

/// The places of tools that were saved are read back, for all places that fit
/// on a line.
pub proof fn tools_round_trip(yt_dlp: Seq<char>, ffmpeg: Seq<char>)
    requires
        yt_dlp.len() > 0,
        ffmpeg.len() > 0,
        plain_line(yt_dlp),
        plain_line(ffmpeg),
    ensures
        tools_of(joined_lines(tool_lines(yt_dlp, ffmpeg))) == Some((yt_dlp, ffmpeg)),
{
    reveal_strlit("yt_dlp=");
    reveal_strlit("ffmpeg=");
    let rows = tool_lines(yt_dlp, ffmpeg);
    let a = "yt_dlp="@;
    let b = "ffmpeg="@;
    let first = a + yt_dlp;
    let second = b + ffmpeg;
    assert(plain_line(first)) by {
        assert(first.last() == yt_dlp.last());
        if first.contains('\n') {
            let i = choose|i: int| 0 <= i < first.len() && first[i] == '\n';
            if i < a.len() {
                assert(a[i] == '\n');
            } else {
                assert(yt_dlp[i - a.len()] == '\n');
            }
        }
    }
    assert(plain_line(second)) by {
        assert(second.last() == ffmpeg.last());
        if second.contains('\n') {
            let i = choose|i: int| 0 <= i < second.len() && second[i] == '\n';
            if i < b.len() {
                assert(b[i] == '\n');
            } else {
                assert(ffmpeg[i - b.len()] == '\n');
            }
        }
    }
    lemma_lines_joined(rows);
    reveal_with_fuel(last_value, 3);
    assert(rows.drop_last() =~= seq![first]);
    assert(rows.last() == second);
    assert(seq![first].drop_last() =~= seq![]);
    assert(first.take(a.len() as int) =~= a);
    assert(second.take(b.len() as int) =~= b);
    assert(first.skip(a.len() as int) =~= yt_dlp);
    assert(second.skip(b.len() as int) =~= ffmpeg);
    assert(second[0] != a[0]);
    assert(!has_prefix(second, a)) by {
        if has_prefix(second, a) {
            assert(second.take(a.len() as int)[0] == a[0]);
        }
    }
}

/// A typed path of a program, without the quotes around it.
pub open spec fn executable_input(input: Seq<char>) -> Seq<char> {
    stripped(trimmed(input), '"')
}

pub fn normalize_executable_input(input: &str) -> (r: String)
    ensures
        r@ == executable_input(input@),
{
    trim_char(trim(input).as_str(), '"')
}

/// The tools that were typed; both are needed.
pub fn existing_tools(yt_dlp: &str, ffmpeg: &str) -> (r: Result<YouTubeTools, String>)
    ensures
        match r {
            Ok(tools) => tools.yt_dlp@ == executable_input(yt_dlp@) && tools.ffmpeg@
                == executable_input(ffmpeg@) && tools.yt_dlp@.len() > 0 && tools.ffmpeg@.len()
                > 0,
            Err(e) => (executable_input(yt_dlp@).len() == 0 || executable_input(ffmpeg@).len()
                == 0) && e@ == "both yt-dlp and FFmpeg executable paths are required"@,
        },
{
    let yt_dlp = normalize_executable_input(yt_dlp);
    let ffmpeg = normalize_executable_input(ffmpeg);
    if is_empty_text(yt_dlp.as_str()) || is_empty_text(ffmpeg.as_str()) {
        return Err("both yt-dlp and FFmpeg executable paths are required".to_string());
    }
    Ok(YouTubeTools { yt_dlp, ffmpeg })
}

/// Nothing, or a drive alone.
pub open spec fn rootless(s: Seq<char>) -> bool {
    s.len() == 0 || s.len() == 2 && has_drive(s)
}

/// A name in a directory.
pub open spec fn joined_path(dir: Seq<char>, name: Seq<char>) -> Seq<char> {
    if rootless(dir) || separator(dir.last()) {
        dir + name
    } else {
        dir + "\\"@ + name
    }
}

/// A path in the form in which paths are compared: with one sort of separator
/// and in lower case.
pub open spec fn comparable(path: Seq<char>) -> Seq<char> {
    path.map_values(
        |c: char|
            if c == '/' {
                '\\'
            } else {
                ascii_lower(c)
            },
    )
}

pub fn comparable_path(path: &str) -> (r: String)
    ensures
        r@ == comparable(path@),
{
    let chars = to_chars(path);
    let mut out = String::new();
    let mut i: usize = 0;
    while i < chars.len()
        invariant
            i <= chars@.len(),
            chars@ == path@,
            out@ =~= comparable(path@).take(i as int),
        decreases chars@.len() - i,
    {
        let c = chars[i];
        if c == '/' {
            out.push('\\');
        } else {
            out.push(to_ascii_lower(c));
        }
        i += 1;
    }
    assert(out@ =~= comparable(path@));
    out
}

fn is_rootless(chars: &Vec<char>, len: usize) -> (r: bool)
    requires
        len <= chars@.len(),
    ensures
        r == rootless(chars@.take(len as int)),
{
    if len == 0 {
        return true;
    }
    if len != 2 {
        return false;
    }
    let letter = to_ascii_lower(chars[0]);
    chars[1] == ':' && 'a' <= letter && letter <= 'z'
}

/// The directory of a path.
pub fn parent_directory(path: &str) -> (r: Option<String>)
    ensures
        match r {
            Some(dir) => parent_path(path@) == Some(dir@),
            None => parent_path(path@) is None,
        },
{
    directory_name(path)
}

/// A name in a directory.
pub fn join_path(dir: &str, name: &str) -> (r: String)
    ensures
        r@ == joined_path(dir@, name@),
{
    let chars = to_chars(dir);
    assert(chars@.take(chars@.len() as int) =~= dir@);
    let mut out = dir.to_string();
    if !is_rootless(&chars, chars.len()) && !is_separator(chars[chars.len() - 1]) {
        out.append("\\");
    }
    out.append(name);
    out
}

/// Where the player keeps its own yt-dlp, beside its executable.
pub open spec fn portable_path(executable: Seq<char>) -> Option<Seq<char>> {
    match parent_path(executable) {
        Some(dir) => Some(joined_path(joined_path(dir, "tools"@), "yt-dlp.exe"@)),
        None => None,
    }
}

/// What a function that makes paths absolute may return for a path.
pub open spec fn resolves<F: Fn(&str) -> String>(f: F, path: Seq<char>, full: Seq<char>) -> bool {
    exists|p: &str, r: String| p@ == path && r@ == full && #[trigger] f.ensures((p,), r)
}

/// Whether two paths, made absolute, are the same.
pub open spec fn same_resolved<F: Fn(&str) -> String>(
    f: F,
    a: Seq<char>,
    b: Seq<char>,
    same: bool,
) -> bool {
    exists|x: Seq<char>, y: Seq<char>| #[trigger]
        resolves(f, a, x) && #[trigger] resolves(f, b, y) && same == (comparable(x) == comparable(
            y,
        ))
}

/// Whether a configured yt-dlp is the one that the player keeps: both paths,
/// made absolute, are the same.
pub fn is_portable_yt_dlp<F: Fn(&str) -> String>(yt_dlp: &str, executable: &str, resolve: F) -> (r:
    bool)
    requires
        forall|p: &str| #[trigger] resolve.requires((p,)),
    ensures
        match portable_path(executable@) {
            None => !r,
            Some(portable) => same_resolved(resolve, yt_dlp@, portable, r),
        },
{
    let dir = match parent_directory(executable) {
        Some(dir) => dir,
        None => return false,
    };
    let portable = join_path(join_path(dir.as_str(), "tools").as_str(), "yt-dlp.exe");
    let portable_text = portable.as_str();
    let mine = resolve(yt_dlp);
    let own = resolve(portable_text);
    assert(resolve.ensures((yt_dlp,), mine));
    assert(resolve.ensures((portable_text,), own));
    assert(resolves(resolve, yt_dlp@, mine@));
    assert(resolves(resolve, portable_text@, own@));
    let same = same_text(
        comparable_path(mine.as_str()).as_str(),
        comparable_path(own.as_str()).as_str(),
    );
    assert(same_resolved(resolve, yt_dlp@, portable_text@, same));
    same
}

/// The first line of a text that is not blank, without space around it.
pub open spec fn first_filled(rows: Seq<Seq<char>>) -> Option<Seq<char>>
    decreases rows.len(),
{
    if rows.len() == 0 {
        None
    } else if trimmed(rows[0]).len() > 0 {
        Some(trimmed(rows[0]))
    } else {
        first_filled(rows.skip(1))
    }
}

pub fn first_filled_line(text: &str) -> (r: Option<String>)
    ensures
        match r {
            Some(line) => first_filled(lines(text@)) == Some(line@),
            None => first_filled(lines(text@)) is None,
        },
{
    let rows = split_lines(text);
    let ghost all = lines(text@);
    let mut i: usize = 0;
    assert(all.skip(0) =~= all);
    while i < rows.len()
        invariant
            i <= rows@.len(),
            texts(rows@) == all,
            all == lines(text@),
            first_filled(all) == first_filled(all.skip(i as int)),
        decreases rows@.len() - i,
    {
        assert(all.skip(i as int)[0] == rows@[i as int]@);
        assert(all.skip(i as int).skip(1) =~= all.skip(i + 1));
        let line = trim(rows[i].as_str());
        if !is_empty_text(line.as_str()) {
            return Some(line);
        }
        i += 1;
    }
    None
}

/// The version that a tool printed, where it ran well.
pub fn tool_version(success: bool, output: &str) -> (r: String)
    ensures
        r@ == if success && first_filled(lines(output@)) is Some {
            first_filled(lines(output@))->0
        } else {
            "unavailable"@
        },
{
    if success {
        if let Some(line) = first_filled_line(output) {
            return line;
        }
    }
    "unavailable".to_string()
}

/// The title of the menu of tools.
pub fn tools_title(yt_dlp_version: &str, ffmpeg_version: &str, portable: bool) -> (r: String)
    ensures
        r@ == "YouTube tools\nyt-dlp: "@ + yt_dlp_version@ + "\nFFmpeg: "@ + ffmpeg_version@
            + "\nUpdater: "@ + if portable {
            "portable stable channel"@
        } else {
            "disabled for external/PATH installation"@
        },
{
    let mut out = "YouTube tools\nyt-dlp: ".to_string();
    out.append(yt_dlp_version);
    out.append("\nFFmpeg: ");
    out.append(ffmpeg_version);
    out.append("\nUpdater: ");
    out.append(
        if portable {
            "portable stable channel"
        } else {
            "disabled for external/PATH installation"
        },
    );
    out
}

// ---------------------------------------------------------------------------
// Tracks
// ---------------------------------------------------------------------------

/// One video of the queue.
#[derive(Debug, PartialEq, Eq)]
pub struct YouTubeTrack {
    pub title: String,
    pub webpage_url: String,
    pub duration: Option<Span>,
    pub sponsor_segments: Option<Vec<SponsorSegment>>,
}

/// What one line of metadata says: address, title, and the text of the length.
pub open spec fn track_fields(line: Seq<char>) -> Option<(Seq<char>, Seq<char>, Seq<char>)> {
    let f = splitn(line, 3, '\t');
    if f.len() < 3 || trimmed(f[0]).len() == 0 || trimmed(f[1]).len() == 0 {
        None
    } else {
        Some((trimmed(f[0]), trimmed(f[1]), trimmed(f[2])))
    }
}

/// What a function that reads lengths may return for a text.
pub open spec fn reads_length<F: Fn(&str) -> Option<Span>>(
    f: F,
    text: Seq<char>,
    length: Option<Span>,
) -> bool {
    exists|t: &str| t@ == text && #[trigger] f.ensures((t,), length)
}

pub fn parse_youtube_track_line<F: Fn(&str) -> Option<Span>>(line: &str, read_seconds: F) -> (r:
    Option<YouTubeTrack>)
    requires
        forall|t: &str| #[trigger] read_seconds.requires((t,)),
    ensures
        match track_fields(line@) {
            Some(fields) => r matches Some(track) && track.webpage_url@ == fields.0 && track.title@
                == fields.1 && reads_length(read_seconds, fields.2, track.duration)
                && track.sponsor_segments is None,
            None => r is None,
        },
{
    let fields = split_n(line, 3, '\t');
    let ghost f = splitn(line@, 3, '\t');
    assert(f.len() == fields@.len());
    assert(forall|i: int| 0 <= i < f.len() ==> #[trigger] f[i] == fields@[i]@);
    if fields.len() < 3 {
        return None;
    }
    let webpage_url = trim(fields[0].as_str());
    let title = trim(fields[1].as_str());
    if is_empty_text(webpage_url.as_str()) || is_empty_text(title.as_str()) {
        return None;
    }
    let length = trim(fields[2].as_str());
    let length_text = length.as_str();
    let duration = read_seconds(length_text);
    assert(read_seconds.ensures((length_text,), duration));
    Some(YouTubeTrack { title, webpage_url, duration, sponsor_segments: None })
}

/// What a track was read from.
pub open spec fn track_read_from<F: Fn(&str) -> Option<Span>>(
    f: F,
    line: Seq<char>,
    track: YouTubeTrack,
) -> bool {
    track_fields(line) matches Some(fields) && track.webpage_url@ == fields.0 && track.title@
        == fields.1 && reads_length(f, fields.2, track.duration) && track.sponsor_segments is None
}

/// The lines of metadata that name a video, in order.
pub open spec fn track_lines(rows: Seq<Seq<char>>, n: nat) -> Seq<Seq<char>>
    decreases n,
{
    if n == 0 {
        seq![]
    } else {
        let before = track_lines(rows, (n - 1) as nat);
        if track_fields(rows[n - 1]) is Some {
            before.push(rows[n - 1])
        } else {
            before
        }
    }
}

/// The tracks in what yt-dlp printed.
pub fn resolved_tracks<F: Fn(&str) -> Option<Span>>(
    success: bool,
    output: &str,
    errors: &str,
    read_seconds: F,
) -> (r: Result<Vec<YouTubeTrack>, String>)
    requires
        forall|t: &str| #[trigger] read_seconds.requires((t,)),
    ensures
        ({
            let found = track_lines(lines(output@), lines(output@).len());
            match r {
                Ok(tracks) => success && found.len() > 0 && tracks@.len() == found.len()
                    && forall|i: int|
                    0 <= i < found.len() ==> track_read_from(
                        read_seconds,
                        found[i],
                        #[trigger] tracks@[i],
                    ),
                Err(e) => if !success {
                    e@ == "yt-dlp failed to resolve YouTube input: "@ + trimmed(errors@)
                } else {
                    found.len() == 0 && e@ == "yt-dlp returned no playable YouTube tracks"@
                },
            }
        }),
{
    if !success {
        let mut e = "yt-dlp failed to resolve YouTube input: ".to_string();
        e.append(trim(errors).as_str());
        return Err(e);
    }
    let rows = split_lines(output);
    let ghost all = lines(output@);
    let mut tracks: Vec<YouTubeTrack> = Vec::new();
    let mut i: usize = 0;
    while i < rows.len()
        invariant
            i <= rows@.len(),
            texts(rows@) == all,
            forall|t: &str| #[trigger] read_seconds.requires((t,)),
            tracks@.len() == track_lines(all, i as nat).len(),
            forall|k: int|
                0 <= k < tracks@.len() ==> track_read_from(
                    read_seconds,
                    track_lines(all, i as nat)[k],
                    #[trigger] tracks@[k],
                ),
        decreases rows@.len() - i,
    {
        assert(all[i as int] == rows@[i as int]@);
        if let Some(track) = parse_youtube_track_line(rows[i].as_str(), &read_seconds) {
            tracks.push(track);
        }
        i += 1;
    }
    if tracks.len() == 0 {
        return Err("yt-dlp returned no playable YouTube tracks".to_string());
    }
    Ok(tracks)
}

/// The address of a stream in what yt-dlp printed.
pub fn resolved_audio_url(success: bool, output: &str, errors: &str) -> (r: Result<String, String>)
    ensures
        match r {
            Ok(url) => success && first_filled(lines(output@)) == Some(url@),
            Err(e) => if !success {
                e@ == "yt-dlp failed to resolve audio stream: "@ + trimmed(errors@)
            } else {
                first_filled(lines(output@)) is None && e@
                    == "yt-dlp returned no direct audio stream URL"@
            },
        },
{
    if !success {
        let mut e = "yt-dlp failed to resolve audio stream: ".to_string();
        e.append(trim(errors).as_str());
        return Err(e);
    }
    match first_filled_line(output) {
        Some(url) => Ok(url),
        None => Err("yt-dlp returned no direct audio stream URL".to_string()),
    }
}

/// Keeps the segments of a track, unless it has them already.
pub fn cache_sponsor_segments(track: &mut YouTubeTrack, segments: Vec<SponsorSegment>)
    ensures
        final(track).sponsor_segments == match old(track).sponsor_segments {
            Some(known) => Some(known),
            None => Some(segments),
        },
        final(track).title == old(track).title,
        final(track).webpage_url == old(track).webpage_url,
        final(track).duration == old(track).duration,
{
    if track.sponsor_segments.is_none() {
        track.sponsor_segments = Some(segments);
    }
}

/// The stream that is preferred: one that can be searched from its front, else
/// the best there is.
pub fn youtube_stream_format() -> (r: &'static str)
    ensures
        r@ == "18/bestaudio/best"@,
{
    "18/bestaudio/best"
}

/// The arguments that make yt-dlp print the tracks of addresses.
pub fn metadata_arguments() -> (r: Vec<String>)
    ensures
        texts(r@) == seq![
            "--no-warnings"@,
            "--ignore-errors"@,
            "--yes-playlist"@,
            "--flat-playlist"@,
            "--print"@,
            "%(webpage_url)s\t%(title)S\t%(duration)s"@,
        ],
{
    let r = list_of(
        vec![
            "--no-warnings",
            "--ignore-errors",
            "--yes-playlist",
            "--flat-playlist",
            "--print",
            "%(webpage_url)s\t%(title)S\t%(duration)s",
        ],
    );
    assert(texts(r@) =~= seq![
        "--no-warnings"@,
        "--ignore-errors"@,
        "--yes-playlist"@,
        "--flat-playlist"@,
        "--print"@,
        "%(webpage_url)s\t%(title)S\t%(duration)s"@,
    ]);
    r
}

/// The arguments that make yt-dlp print the address of a stream.
pub fn stream_arguments(webpage_url: &str) -> (r: Vec<String>)
    ensures
        texts(r@) == seq![
            "--no-warnings"@,
            "--no-playlist"@,
            "--format"@,
            "18/bestaudio/best"@,
            "--get-url"@,
            webpage_url@,
        ],
{
    let mut r = list_of(
        vec!["--no-warnings", "--no-playlist", "--format", "18/bestaudio/best", "--get-url"],
    );
    r.push(webpage_url.to_string());
    assert(texts(r@) =~= seq![
        "--no-warnings"@,
        "--no-playlist"@,
        "--format"@,
        "18/bestaudio/best"@,
        "--get-url"@,
        webpage_url@,
    ]);
    r
}

/// The arguments that make yt-dlp print the chapters of a video with the
/// segments of some categories marked.
pub fn sponsor_arguments(categories: &str, webpage_url: &str) -> (r: Vec<String>)
    ensures
        texts(r@) == seq![
            "--no-warnings"@,
            "--no-playlist"@,
            "--skip-download"@,
            "--sponsorblock-mark"@,
            categories@,
            "--sponsorblock-chapter-title"@,
            SPONSOR_CHAPTER_TITLE@,
            "--print"@,
            "%(chapters)j"@,
            webpage_url@,
        ],
{
    let mut r = list_of(
        vec!["--no-warnings", "--no-playlist", "--skip-download", "--sponsorblock-mark"],
    );
    r.push(categories.to_string());
    r.push("--sponsorblock-chapter-title".to_string());
    r.push(SPONSOR_CHAPTER_TITLE.to_string());
    r.push("--print".to_string());
    r.push("%(chapters)j".to_string());
    r.push(webpage_url.to_string());
    assert(texts(r@) =~= seq![
        "--no-warnings"@,
        "--no-playlist"@,
        "--skip-download"@,
        "--sponsorblock-mark"@,
        categories@,
        "--sponsorblock-chapter-title"@,
        SPONSOR_CHAPTER_TITLE@,
        "--print"@,
        "%(chapters)j"@,
        webpage_url@,
    ]);
    r
}

// ---------------------------------------------------------------------------
// Speed and position
// ---------------------------------------------------------------------------

/// The slowest speed, in quarters.
pub const MIN_RATE: u32 = 2;

/// The fastest speed, in quarters.
pub const MAX_RATE: u32 = 8;

/// The next speed, one quarter faster or slower, from half to double.
pub open spec fn next_rate(quarters: int, increase: bool) -> int {
    let next = if increase {
        quarters + 1
    } else {
        quarters - 1
    };
    if next < MIN_RATE {
        MIN_RATE as int
    } else if next > MAX_RATE {
        MAX_RATE as int
    } else {
        next
    }
}

pub fn stepped_rate(quarters: u32, increase: bool) -> (r: u32)
    ensures
        r == next_rate(quarters as int, increase),
        MIN_RATE <= r <= MAX_RATE,
{
    if increase {
        if quarters < MIN_RATE - 1 {
            MIN_RATE
        } else if quarters >= MAX_RATE {
            MAX_RATE
        } else {
            quarters + 1
        }
    } else {
        if quarters <= MIN_RATE {
            MIN_RATE
        } else if quarters > MAX_RATE {
            MAX_RATE
        } else {
            quarters - 1
        }
    }
}

/// Inside the range a step down undoes a step up, and the other way round.
pub proof fn rate_steps_undo_each_other(quarters: int)
    ensures
        MIN_RATE <= quarters < MAX_RATE ==> next_rate(next_rate(quarters, true), false) == quarters,
        MIN_RATE < quarters <= MAX_RATE ==> next_rate(next_rate(quarters, false), true) == quarters,
{
}

/// A speed with two decimals.
pub open spec fn rate_text(quarters: nat) -> Seq<char> {
    decimal(quarters / 4) + "."@ + two_digits(quarters % 4 * 25)
}

pub fn format_rate(quarters: u32) -> (r: String)
    ensures
        r@ == rate_text(quarters as nat),
{
    let mut out = format_u64((quarters / 4) as u64);
    out.append(".");
    out.append(format_two_digits((quarters % 4 * 25) as u64).as_str());
    out
}

/// How far one press of a key seeks, in seconds.
pub const SEEK_SECONDS: u64 = 10;

/// A moment, but not behind the end of a track.
pub open spec fn at_most(moment: int, duration: Option<Span>) -> int {
    match duration {
        Some(total) => if moment < total.total() {
            moment
        } else {
            total.total()
        },
        None => moment,
    }
}

fn no_later(moment: Span, duration: Option<Span>) -> (r: Span)
    requires
        moment.valid(),
        duration matches Some(total) ==> total.valid(),
    ensures
        r.valid(),
        r.total() == at_most(moment.total(), duration),
{
    match duration {
        Some(total) => if moment.shorter_than(total) {
            moment
        } else {
            total
        },
        None => moment,
    }
}

/// The position in a track: where the stream was started, and what has played
/// since at the speed of the track.
pub fn logical_elapsed(offset: Span, played: Span, duration: Option<Span>) -> (r: Span)
    requires
        offset.valid(),
        played.valid(),
        duration matches Some(total) ==> total.valid(),
    ensures
        r.valid(),
        r.total() == at_most(span_sum(offset.total(), played.total()), duration),
{
    no_later(offset.plus(played), duration)
}

/// Where a seek goes.
pub open spec fn seek_moment(elapsed: int, duration: Option<Span>, forward: bool) -> int {
    if forward {
        at_most(span_sum(elapsed, SEEK_SECONDS * SECOND), duration)
    } else {
        span_difference(elapsed, SEEK_SECONDS * SECOND)
    }
}

pub fn seek_target(elapsed: Span, duration: Option<Span>, forward: bool) -> (r: Span)
    requires
        elapsed.valid(),
        duration matches Some(total) ==> total.valid(),
    ensures
        r.valid(),
        r.total() == seek_moment(elapsed.total(), duration, forward),
        ({
            let now = elapsed.secs * 1_000_000_000 + elapsed.nanos;
            let target = r.secs * 1_000_000_000 + r.nanos;
            &&& forward && now + 10_000_000_000 <= match duration {
                Some(total) => total.secs * 1_000_000_000 + total.nanos,
                None => u64::MAX * 1_000_000_000 + 999_999_999,
            } ==> target == now + 10_000_000_000
            &&& !forward && now >= 10_000_000_000 ==> target == now - 10_000_000_000
        }),
{
    let step = Span::from_secs(SEEK_SECONDS);
    if forward {
        no_later(elapsed.plus(step), duration)
    } else {
        elapsed.minus(step)
    }
}

/// A seek never leaves the track.
pub proof fn seeks_stay_in_the_track(elapsed: Span, total: Span, forward: bool)
    requires
        elapsed.valid(),
        total.valid(),
        elapsed.total() <= total.total(),
    ensures
        0 <= seek_moment(elapsed.total(), Some(total), forward) <= total.total(),
{
}

/// The arguments that make FFmpeg decode a stream from an offset, which is
/// given in seconds, at a speed.
pub open spec fn decoder_arguments(
    media_url: Seq<char>,
    offset: Option<Seq<char>>,
    quarters: nat,
) -> Seq<Seq<char>> {
    seq![
        "-nostdin"@,
        "-loglevel"@,
        "error"@,
        "-reconnect"@,
        "1"@,
        "-reconnect_streamed"@,
        "1"@,
        "-reconnect_delay_max"@,
        "5"@,
        "-seekable"@,
        "1"@,
    ] + (match offset {
        Some(seconds) => seq!["-ss"@, seconds],
        None => seq![],
    }) + seq!["-i"@, media_url, "-vn"@, "-filter:a"@, "atempo="@ + rate_text(quarters)] + seq![
        "-f"@,
        "f32le"@,
        "-acodec"@,
        "pcm_f32le"@,
        "-ac"@,
        "2"@,
        "-ar"@,
        "48000"@,
        "pipe:1"@,
    ]
}

pub fn ffmpeg_arguments(media_url: &str, offset: Option<&str>, quarters: u32) -> (r: Vec<String>)
    ensures
        texts(r@) == decoder_arguments(
            media_url@,
            crate::catalog::text_of(offset),
            quarters as nat,
        ),
{
    let mut r = list_of(
        vec![
            "-nostdin",
            "-loglevel",
            "error",
            "-reconnect",
            "1",
            "-reconnect_streamed",
            "1",
            "-reconnect_delay_max",
            "5",
            "-seekable",
            "1",
        ],
    );
    if let Some(seconds) = offset {
        r.push("-ss".to_string());
        r.push(seconds.to_string());
    }
    r.push("-i".to_string());
    r.push(media_url.to_string());
    r.push("-vn".to_string());
    r.push("-filter:a".to_string());
    let mut filter = "atempo=".to_string();
    filter.append(format_rate(quarters).as_str());
    r.push(filter);
    let mut rest = list_of(
        vec!["-f", "f32le", "-acodec", "pcm_f32le", "-ac", "2", "-ar", "48000", "pipe:1"],
    );
    r.append(&mut rest);
    assert(texts(r@) =~= decoder_arguments(
        media_url@,
        crate::catalog::text_of(offset),
        quarters as nat,
    ));
    r
}

/// The table of keys below the YouTube player.
pub open spec fn youtube_control_table(t: Translation) -> Seq<Seq<char>> {
    control_table(t).drop_last() + seq![
        "├────────────────┼────────────────┼────────────────┤"@,
        "│ [←/→] seek 10s │ [,/.] ±0.25x   │ [s] sponsors   │"@,
        "└────────────────┴────────────────┴────────────────┘"@,
    ]
}

pub fn youtube_playback_controls(translation: &Translation) -> (r: Vec<String>)
    ensures
        texts(r@) == youtube_control_table(*translation),
{
    let mut rows = playback_controls(translation);
    let ghost before = rows@;
    assert(texts(before).len() == before.len());
    let _ = rows.pop();
    rows.push("├────────────────┼────────────────┼────────────────┤".to_string());
    rows.push("│ [←/→] seek 10s │ [,/.] ±0.25x   │ [s] sponsors   │".to_string());
    rows.push("└────────────────┴────────────────┴────────────────┘".to_string());
    assert(texts(rows@) =~= youtube_control_table(*translation));
    rows
}

// ---------------------------------------------------------------------------
// What holds of seeking and speed
// ---------------------------------------------------------------------------

/// A seek goes exactly ten seconds, forward or back, within the track; back and
/// forward undo each other.
pub proof fn seeks_go_ten_seconds(elapsed: Span, duration: Option<Span>)
    requires
        elapsed.valid(),
        duration matches Some(total) ==> total.valid(),
    ensures
        ({
            let now = elapsed.secs * 1_000_000_000 + elapsed.nanos;
            let later = now + 10_000_000_000;
            let end = match duration {
                Some(total) => total.secs * 1_000_000_000 + total.nanos,
                None => u64::MAX * 1_000_000_000 + 999_999_999,
            };
            &&& later <= end ==> seek_moment(now, duration, true) == later && seek_moment(
                later,
                duration,
                false,
            ) == now
            &&& later > end ==> seek_moment(now, duration, true) == end
            &&& now >= 10_000_000_000 ==> seek_moment(now, duration, false) == now - 10_000_000_000
            &&& now < 10_000_000_000 ==> seek_moment(now, duration, false) == 0
        }),
{
}

/// The position in a track is what was played behind the place it was started
/// at, and never behind its end.
pub proof fn positions_count_from_the_start_of_playback(
    offset: int,
    played: int,
    duration: Option<Span>,
)
    requires
        0 <= offset,
        0 <= played,
        offset + played <= u64::MAX * 1_000_000_000 + 999_999_999,
    ensures
        ({
            let at = at_most(span_sum(offset, played), duration);
            match duration {
                None => at == offset + played,
                Some(total) => {
                    let end = total.secs * 1_000_000_000 + total.nanos;
                    (offset + played <= end ==> at == offset + played) && (offset + played >= end
                        ==> at == end)
                },
            }
        }),
{
}

/// The speed goes by quarters, one at a time, from a half to twice.
pub proof fn speed_goes_by_quarters(quarters: int)
    requires
        2 <= quarters <= 8,
    ensures
        next_rate(quarters, true) == if quarters < 8 {
            quarters + 1
        } else {
            8
        },
        next_rate(quarters, false) == if quarters > 2 {
            quarters - 1
        } else {
            2
        },
{
}

/// A speed is written as a decimal with two places.
pub proof fn speeds_are_decimals(whole: nat)
    ensures
        rate_text(4 * whole) == decimal(whole) + ".00"@,
        rate_text(4 * whole + 1) == decimal(whole) + ".25"@,
        rate_text(4 * whole + 2) == decimal(whole) + ".50"@,
        rate_text(4 * whole + 3) == decimal(whole) + ".75"@,
{
    reveal_strlit(".");
    reveal_strlit(".00");
    reveal_strlit(".25");
    reveal_strlit(".50");
    reveal_strlit(".75");
    assert(two_digits(0) =~= seq!['0', '0']) by {
        assert(decimal(0) =~= seq!['0']);
    }
    assert(two_digits(25) =~= seq!['2', '5']) by {
        reveal_with_fuel(decimal, 2);
    }
    assert(two_digits(50) =~= seq!['5', '0']) by {
        reveal_with_fuel(decimal, 2);
    }
    assert(two_digits(75) =~= seq!['7', '5']) by {
        reveal_with_fuel(decimal, 2);
    }
    assert(rate_text(4 * whole) =~= decimal(whole) + ".00"@);
    assert(rate_text(4 * whole + 1) =~= decimal(whole) + ".25"@);
    assert(rate_text(4 * whole + 2) =~= decimal(whole) + ".50"@);
    assert(rate_text(4 * whole + 3) =~= decimal(whole) + ".75"@);
}

/// The address of a page at one of the hosts is accepted, in either case of its
/// letters, and with anything behind the host.
pub proof fn pages_of_the_hosts_are_accepted(scheme: Seq<char>, host: Seq<char>, rest: Seq<char>)
    requires
        scheme == "https://"@ || scheme == "http://"@,
        host == "youtube.com"@ || host == "www.youtube.com"@ || host == "m.youtube.com"@ || host
            == "music.youtube.com"@ || host == "youtu.be"@,
        rest.len() > 0 ==> rest[0] == '/' || rest[0] == '?' || rest[0] == '#' || rest[0] == ':',
    ensures
        forall|value: Seq<char>|
            ascii_lowered(value) == ascii_lowered(scheme + host + rest) ==> #[trigger] youtube_url(
                value,
            ),
{
    reveal_strlit("https://");
    reveal_strlit("http://");
    reveal_strlit("youtube.com");
    reveal_strlit("www.youtube.com");
    reveal_strlit("m.youtube.com");
    reveal_strlit("music.youtube.com");
    reveal_strlit("youtu.be");
    let tail = ascii_lowered(rest);
    let whole = ascii_lowered(scheme + host + rest);
    assert(ascii_lowered(scheme) =~= scheme);
    assert(ascii_lowered(host) =~= host);
    assert(whole =~= scheme + host + tail);
    let behind = host + tail;
    assert(whole.take(scheme.len() as int) =~= scheme);
    assert(whole.skip(scheme.len() as int) =~= behind);
    if scheme == "http://"@ {
        assert(whole[4] == ':');
        if has_prefix(whole, "https://"@) {
            assert(whole.take("https://"@.len() as int)[4] == ':');
        }
    }
    assert forall|i: int| 0 <= i < host.len() implies !host_end_char(#[trigger] host[i]) by {}
    lemma_host_length(host, tail);
    assert(behind.take(host.len() as int) =~= host);
}

proof fn lemma_host_length(host: Seq<char>, tail: Seq<char>)
    requires
        forall|i: int| 0 <= i < host.len() ==> !host_end_char(#[trigger] host[i]),
        tail.len() > 0 ==> host_end_char(tail[0]),
    ensures
        host_length(host + tail) == host.len(),
    decreases host.len(),
{
    if host.len() > 0 {
        assert((host + tail)[0] == host[0]);
        assert((host + tail).skip(1) =~= host.skip(1) + tail);
        lemma_host_length(host.skip(1), tail);
    } else {
        assert(host + tail =~= tail);
    }
}

proof fn lemma_host_ends(s: Seq<char>)
    ensures
        host_length(s) <= s.len(),
        host_length(s) < s.len() ==> host_end_char(s[host_length(s) as int]),
    decreases s.len(),
{
    if s.len() > 0 && !host_end_char(s[0]) {
        lemma_host_ends(s.skip(1));
    }
}

/// No other address is accepted.
pub proof fn other_pages_are_refused(value: Seq<char>)
    requires
        youtube_url(value),
    ensures
        exists|scheme: Seq<char>, host: Seq<char>, rest: Seq<char>|
            (scheme == "https://"@ || scheme == "http://"@) && (host == "youtube.com"@ || host
                == "www.youtube.com"@ || host == "m.youtube.com"@ || host == "music.youtube.com"@
                || host == "youtu.be"@) && (rest.len() > 0 ==> rest[0] == '/' || rest[0] == '?'
                || rest[0] == '#' || rest[0] == ':') && ascii_lowered(value) == #[trigger] (scheme
                + host + rest),
{
    let lower = ascii_lowered(value);
    let scheme = if has_prefix(lower, "https://"@) {
        "https://"@
    } else {
        "http://"@
    };
    let behind = lower.skip(scheme.len() as int);
    lemma_host_ends(behind);
    let host = behind.take(host_length(behind) as int);
    let rest = behind.skip(host_length(behind) as int);
    assert(lower =~= lower.take(scheme.len() as int) + behind);
    assert(behind =~= host + rest);
    assert(lower =~= scheme + host + rest);
}

/// All addresses are taken where each is accepted, in their order; else the first
/// that is not is named.
pub proof fn addresses_are_all_taken_or_none(all: Seq<Seq<char>>, bad: int)
    requires
        0 <= bad <= all.len(),
        forall|i: int| 0 <= i < bad ==> youtube_url(#[trigger] all[i]),
        bad < all.len() ==> !youtube_url(all[bad]),
    ensures
        youtube_urls(all, all.len()) == if bad == all.len() {
            Ok::<Seq<Seq<char>>, Seq<char>>(all)
        } else {
            Err("unsupported YouTube URL: "@ + all[bad])
        },
{
    lemma_urls(all, bad, all.len());
    assert(all.take(all.len() as int) =~= all);
}

proof fn lemma_urls(all: Seq<Seq<char>>, bad: int, n: nat)
    requires
        n <= all.len(),
        0 <= bad <= all.len(),
        forall|i: int| 0 <= i < bad ==> youtube_url(#[trigger] all[i]),
        bad < all.len() ==> !youtube_url(all[bad]),
    ensures
        youtube_urls(all, n) == if n <= bad {
            Ok::<Seq<Seq<char>>, Seq<char>>(all.take(n as int))
        } else {
            Err("unsupported YouTube URL: "@ + all[bad])
        },
    decreases n,
{
    if n > 0 {
        lemma_urls(all, bad, (n - 1) as nat);
        if n <= bad {
            assert(youtube_url(all[n - 1]));
            assert(all.take(n as int) =~= all.take(n - 1).push(all[n - 1]));
        }
    } else {
        assert(all.take(0) =~= seq![]);
    }
}

/// A value is what the last line that names it says.
pub proof fn the_last_value_counts(
    before: Seq<Seq<char>>,
    name: Seq<char>,
    value: Seq<char>,
    after: Seq<Seq<char>>,
)
    requires
        forall|i: int| 0 <= i < after.len() ==> !has_prefix(#[trigger] after[i], name),
    ensures
        last_value(before + seq![name + value] + after, name) == Some(value),
        last_value(after, name) is None,
    decreases after.len(),
{
    let all = before + seq![name + value] + after;
    if after.len() > 0 {
        assert(all.last() == after[after.len() - 1]);
        assert(all.drop_last() =~= before + seq![name + value] + after.drop_last());
        the_last_value_counts(before, name, value, after.drop_last());
    } else {
        assert(all.last() == name + value);
        assert((name + value).take(name.len() as int) =~= name);
        assert((name + value).skip(name.len() as int) =~= value);
    }
}

/// The quotes around a path are taken off, and a path without them stays.
pub proof fn paths_may_be_quoted(path: Seq<char>)
    requires
        path.len() > 0,
        path[0] != '"' && !crate::text::white_space(path[0]),
        path.last() != '"' && !crate::text::white_space(path.last()),
    ensures
        executable_input(path) == path,
        executable_input(seq!['"'] + path + seq!['"']) == path,
{
    let quoted = seq!['"'] + path + seq!['"'];
    crate::text::lemma_trimmed_fixed(path);
    crate::text::lemma_trimmed_fixed(quoted);
    crate::text::stripping_removes_only_copies(path, '"', 0);
    crate::text::stripping_removes_only_copies(quoted, '"', 1);
    let half = quoted.skip(1);
    crate::text::stripping_removes_only_copies(half, '"', path.len() as int);
    crate::text::stripping_removes_only_copies(path, '"', path.len() as int);
    assert(half.take(path.len() as int) =~= path);
    assert(path.take(path.len() as int) =~= path);
    assert(path.skip(0) =~= path);
}

/// A name is joined to a directory by one backslash, where no separator is there.
pub proof fn names_are_joined_by_one_separator(dir: Seq<char>, name: Seq<char>)
    requires
        dir.len() > 2,
    ensures
        joined_path(dir, name) == if dir.last() == '/' || dir.last() == '\\' {
            dir + name
        } else {
            dir + seq!['\\'] + name
        },
        joined_path(seq![], name) == name,
{
    reveal_strlit("\\");
    assert("\\"@ =~= seq!['\\']);
    assert(seq![] + name =~= name);
}

/// Paths are compared without regard to case and to which slash separates.
pub proof fn paths_compare_by_letters(a: Seq<char>, b: Seq<char>)
    ensures
        comparable(a) == comparable(b) <==> a.len() == b.len() && forall|i: int|
            0 <= i < a.len() ==> (#[trigger] a[i] == b[i] || (a[i] == '/' && b[i] == '\\') || (a[i]
                == '\\' && b[i] == '/') || ('A' <= a[i] <= 'Z' && (a[i] as u32) + 32 == b[i] as u32)
                || ('A' <= b[i] <= 'Z' && (b[i] as u32) + 32 == a[i] as u32)),
{
    if comparable(a) == comparable(b) {
        assert(comparable(a).len() == a.len() && comparable(b).len() == b.len());
        assert forall|i: int| 0 <= i < a.len() implies (#[trigger] a[i] == b[i] || (a[i] == '/' && b[i]
            == '\\') || (a[i] == '\\' && b[i] == '/') || ('A' <= a[i] <= 'Z' && (a[i] as u32) + 32
            == b[i] as u32) || ('A' <= b[i] <= 'Z' && (b[i] as u32) + 32 == a[i] as u32)) by {
            assert(comparable(a)[i] == comparable(b)[i]);
        }
    }
    if a.len() == b.len() && forall|i: int|
        0 <= i < a.len() ==> (#[trigger] a[i] == b[i] || (a[i] == '/' && b[i] == '\\') || (a[i]
            == '\\' && b[i] == '/') || ('A' <= a[i] <= 'Z' && (a[i] as u32) + 32 == b[i] as u32) || (
        'A' <= b[i] <= 'Z' && (b[i] as u32) + 32 == a[i] as u32)) {
        assert(comparable(a) =~= comparable(b)) by {
            assert forall|i: int| 0 <= i < a.len() implies comparable(a)[i] == comparable(b)[i] by {
                assert(a[i] == a[i]);
            }
        }
    }
}

/// The first line that is not blank is taken, without the white space around it.
pub proof fn blank_lines_are_passed_over(before: Seq<Seq<char>>, line: Seq<char>, after: Seq<Seq<char>>)
    requires
        forall|i: int, k: int|
            0 <= i < before.len() && 0 <= k < before[i].len() ==> crate::text::white_space(
                #[trigger] before[i][k],
            ),
        line.len() > 0,
        !crate::text::white_space(line[0]) && !crate::text::white_space(line.last()),
    ensures
        first_filled(before + seq![line] + after) == Some(line),
        first_filled(before) is None,
    decreases before.len(),
{
    let all = before + seq![line] + after;
    if before.len() > 0 {
        let b = before[0];
        assert(all[0] == b);
        crate::text::trimming_removes_only_white_space(b);
        crate::text::lemma_trimmed(b);
        crate::text::lemma_trim_start(b);
        if trim_start(b).len() > 0 {
            assert(trim_start(b)[0] == b[b.len() - trim_start(b).len()]);
            assert(crate::text::white_space(before[0][b.len() - trim_start(b).len()]));
        }
        assert(all.skip(1) =~= before.skip(1) + seq![line] + after);
        assert forall|i: int, k: int|
            0 <= i < before.skip(1).len() && 0 <= k < before.skip(1)[i].len()
            implies crate::text::white_space(#[trigger] before.skip(1)[i][k]) by {
            assert(before.skip(1)[i] == before[i + 1]);
            assert(crate::text::white_space(before[i + 1][k]));
        }
        blank_lines_are_passed_over(before.skip(1), line, after);
    } else {
        assert(all[0] == line);
        crate::text::lemma_trimmed_fixed(line);
    }
}

/// A track is read from its address, title and length with tabs between them; a
/// line that lacks one of the first two, or a tab, is none.
pub proof fn tracks_are_read_by_tabs(url: Seq<char>, title: Seq<char>, length: Seq<char>)
    requires
        !url.contains('\t') && !title.contains('\t'),
        url.len() > 0 ==> !crate::text::white_space(url[0]) && !crate::text::white_space(url.last()),
        title.len() > 0 ==> !crate::text::white_space(title[0]) && !crate::text::white_space(
            title.last(),
        ),
        length.len() > 0 ==> !crate::text::white_space(length[0]) && !crate::text::white_space(
            length.last(),
        ),
    ensures
        url.len() > 0 && title.len() > 0 ==> track_fields(
            url + seq!['\t'] + title + seq!['\t'] + length,
        ) == Some((url, title, length)),
        url.len() == 0 || title.len() == 0 ==> track_fields(
            url + seq!['\t'] + title + seq!['\t'] + length,
        ) is None,
        track_fields(url + seq!['\t'] + title) is None,
        track_fields(url) is None,
{
    let tail = title + seq!['\t'] + length;
    let line = url + seq!['\t'] + title + seq!['\t'] + length;
    assert(line =~= url + seq!['\t'] + tail);
    crate::text::lemma_splitn_prepend(url, tail, 3, '\t');
    crate::text::lemma_splitn_prepend(title, length, 2, '\t');
    crate::text::lemma_splitn_prepend(url, title, 3, '\t');
    crate::text::lemma_splitn_single(title, 2, '\t');
    crate::text::lemma_splitn_single(url, 3, '\t');
    assert(splitn(length, 1, '\t') =~= seq![length]);
    crate::text::lemma_trimmed_fixed(url);
    crate::text::lemma_trimmed_fixed(title);
    crate::text::lemma_trimmed_fixed(length);
}

/// The lines that are tracks are kept, in their order.
pub proof fn other_lines_are_left_out(rows: Seq<Seq<char>>, n: nat)
    requires
        n <= rows.len(),
    ensures
        track_lines(rows, n) == rows.take(n as int).filter(
            |line: Seq<char>| track_fields(line) is Some,
        ),
    decreases n,
{
    reveal(Seq::filter);
    if n > 0 {
        other_lines_are_left_out(rows, (n - 1) as nat);
        assert(rows.take(n as int).drop_last() =~= rows.take(n - 1));
    } else {
        assert(rows.take(0) =~= seq![]);
    }
}

/// The portable tools are looked for beside the executable, in the directory
/// `tools`.
pub proof fn tools_are_beside_the_executable(parents: Seq<char>, dir: Seq<char>, name: Seq<char>)
    requires
        parents.len() > 1,
        parents.last() == '/' || parents.last() == '\\',
        parents[0] != '/' && parents[0] != '\\',
        parents[1] != ':',
        dir.len() > 0 && name.len() > 0,
        forall|i: int| 0 <= i < dir.len() ==> #[trigger] dir[i] != '/' && dir[i] != '\\',
        forall|i: int| 0 <= i < name.len() ==> #[trigger] name[i] != '/' && name[i] != '\\',
        dir != seq!['.'] && dir != seq!['.', '.'] && name != seq!['.'] && name != seq!['.', '.'],
    ensures
        portable_path(parents + dir + seq!['\\'] + name) == Some(
            parents + dir + "\\tools\\yt-dlp.exe"@,
        ),
{
    reveal_strlit("\\tools\\yt-dlp.exe");
    reveal_strlit("\\");
    reveal_strlit("tools");
    reveal_strlit("yt-dlp.exe");
    let place = parents + dir;
    crate::paths::directories_hold_their_names(parents, dir, name);
    assert(place.last() == dir[dir.len() - 1]);
    let tools = place + "\\"@ + "tools"@;
    assert(tools.last() == 's');
    assert(tools + "\\"@ + "yt-dlp.exe"@ =~= place + "\\tools\\yt-dlp.exe"@);
}

} // verus!
