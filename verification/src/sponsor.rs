//! Segments of a video that are skipped, and the categories that are asked
//! for.
use crate::json::{json_array, json_document, json_member, parse_json, text_member, Json, JsonData};
use crate::text::{
    has_prefix, join_lines, joined_lines, lemma_lines_joined, lines, plain_line, same_text,
    split_lines, strip_prefix, texts, trim, trimmed,
};
use crate::time::Span;
use vstd::prelude::*;

verus! {

/// The title under which the segments of a video are asked for.
pub const SPONSOR_CHAPTER_TITLE: &'static str = "__MTP_SPONSOR__";

/// A part of a video that is skipped.
#[derive(Clone, Copy, Debug, PartialEq, Eq, Structural)]
pub struct SponsorSegment {
    pub start: Span,
    pub end: Span,
}

impl SponsorSegment {
    pub open spec fn valid(self) -> bool {
        self.start.valid() && self.end.valid()
    }
}

/// Whether a moment lies in a segment.
pub open spec fn inside(segment: SponsorSegment, elapsed: Span) -> bool {
    segment.start.total() <= elapsed.total() < segment.end.total()
}

/// The first segment around a moment, but not the one that was skipped last.
pub open spec fn skip_target(
    segments: Seq<SponsorSegment>,
    elapsed: Span,
    last_skipped: Option<SponsorSegment>,
) -> Option<SponsorSegment>
    decreases segments.len(),
{
    if segments.len() == 0 {
        None
    } else if inside(segments[0], elapsed) && last_skipped != Some(segments[0]) {
        Some(segments[0])
    } else {
        skip_target(segments.skip(1), elapsed, last_skipped)
    }
}

pub fn sponsor_skip_target(
    segments: &[SponsorSegment],
    elapsed: Span,
    last_skipped: Option<SponsorSegment>,
) -> (r: Option<SponsorSegment>)
    requires
        elapsed.valid(),
        forall|i: int| 0 <= i < segments@.len() ==> (#[trigger] segments@[i]).valid(),
    ensures
        r == skip_target(segments@, elapsed, last_skipped),
{
    let mut i: usize = 0;
    assert(segments@.skip(0) =~= segments@);
    while i < segments.len()
        invariant
            i <= segments@.len(),
            elapsed.valid(),
            forall|k: int| 0 <= k < segments@.len() ==> (#[trigger] segments@[k]).valid(),
            skip_target(segments@, elapsed, last_skipped) == skip_target(
                segments@.skip(i as int),
                elapsed,
                last_skipped,
            ),
        decreases segments@.len() - i,
    {
        let segment = segments[i];
        assert(segments@.skip(i as int)[0] == segment);
        assert(segments@.skip(i as int).skip(1) =~= segments@.skip(i + 1));
        let skipped = match last_skipped {
            Some(last) => last == segment,
            None => false,
        };
        if !elapsed.shorter_than(segment.start) && elapsed.shorter_than(segment.end) && !skipped {
            return Some(segment);
        }
        i += 1;
    }
    None
}

proof fn lemma_skip_target(
    segments: Seq<SponsorSegment>,
    elapsed: Span,
    last_skipped: Option<SponsorSegment>,
)
    ensures
        match skip_target(segments, elapsed, last_skipped) {
            Some(segment) => segments.contains(segment) && inside(segment, elapsed)
                && last_skipped != Some(segment),
            None => forall|i: int|
                0 <= i < segments.len() ==> !inside(#[trigger] segments[i], elapsed) || last_skipped
                    == Some(segments[i]),
        },
    decreases segments.len(),
{
    if segments.len() > 0 {
        let rest = segments.skip(1);
        lemma_skip_target(rest, elapsed, last_skipped);
        match skip_target(segments, elapsed, last_skipped) {
            Some(segment) => {
                if inside(segments[0], elapsed) && last_skipped != Some(segments[0]) {
                    assert(segments.contains(segments[0]));
                } else {
                    let k = choose|k: int| 0 <= k < rest.len() && rest[k] == segment;
                    assert(segments[k + 1] == segment);
                }
            },
            None => {
                assert forall|i: int| 0 <= i < segments.len() implies !inside(
                    #[trigger] segments[i],
                    elapsed,
                ) || last_skipped == Some(segments[i]) by {
                    if i > 0 {
                        assert(rest[i - 1] == segments[i]);
                    }
                }
            },
        }
    }
}

/// A segment is skipped only while it plays, and its end lies ahead; the one
/// that was skipped last is not skipped again; and where no segment is skipped
/// none was due.
pub proof fn skipping_goes_forward_once(
    segments: Seq<SponsorSegment>,
    elapsed: Span,
    last_skipped: Option<SponsorSegment>,
)
    ensures
        match skip_target(segments, elapsed, last_skipped) {
            Some(segment) => {
                &&& segments.contains(segment)
                &&& segment.start.total() <= elapsed.total() < segment.end.total()
                &&& last_skipped != Some(segment)
                &&& skip_target(segments, segment.end, Some(segment)) != Some(segment)
            },
            None => forall|i: int|
                0 <= i < segments.len() ==> !inside(#[trigger] segments[i], elapsed) || last_skipped
                    == Some(segments[i]),
        },
{
    lemma_skip_target(segments, elapsed, last_skipped);
    if let Some(segment) = skip_target(segments, elapsed, last_skipped) {
        lemma_skip_target(segments, segment.end, Some(segment));
    }
}

// ---------------------------------------------------------------------------
// Reading segments
// ---------------------------------------------------------------------------

/// Puts a segment behind those that start no later.
pub open spec fn placed(sorted: Seq<SponsorSegment>, segment: SponsorSegment) -> Seq<SponsorSegment>
    decreases sorted.len(),
{
    if sorted.len() == 0 || sorted.last().start.total() <= segment.start.total() {
        sorted.push(segment)
    } else {
        placed(sorted.drop_last(), segment).push(sorted.last())
    }
}

/// Segments sorted by their start; those that start together keep their order.
pub open spec fn by_start(segments: Seq<SponsorSegment>) -> Seq<SponsorSegment>
    decreases segments.len(),
{
    if segments.len() == 0 {
        segments
    } else {
        placed(by_start(segments.drop_last()), segments.last())
    }
}

/// A sequence without items that equal the one before.
pub open spec fn without_repeats(s: Seq<SponsorSegment>) -> Seq<SponsorSegment>
    decreases s.len(),
{
    if s.len() <= 1 {
        s
    } else if s[s.len() - 1] == s[s.len() - 2] {
        without_repeats(s.drop_last())
    } else {
        without_repeats(s.drop_last()).push(s.last())
    }
}

pub open spec fn starts_ascend(s: Seq<SponsorSegment>) -> bool {
    forall|i: int, j: int|
        0 <= i < j < s.len() ==> (#[trigger] s[i]).start.total() <= (#[trigger] s[j]).start.total()
}

proof fn lemma_placed(sorted: Seq<SponsorSegment>, segment: SponsorSegment)
    requires
        starts_ascend(sorted),
    ensures
        starts_ascend(placed(sorted, segment)),
        placed(sorted, segment).len() == sorted.len() + 1,
        placed(sorted, segment).to_multiset() == sorted.to_multiset().insert(segment),
        forall|i: int|
            0 <= i < placed(sorted, segment).len() ==> #[trigger] placed(sorted, segment)[i]
                == segment || sorted.contains(placed(sorted, segment)[i]),
    decreases sorted.len(),
{
    broadcast use vstd::seq_lib::group_to_multiset_ensures;

    let r = placed(sorted, segment);
    if sorted.len() == 0 || sorted.last().start.total() <= segment.start.total() {
        assert forall|i: int, j: int| 0 <= i < j < r.len() implies (#[trigger] r[i]).start.total()
            <= (#[trigger] r[j]).start.total() by {
            if j < sorted.len() {
                assert(r[i] == sorted[i] && r[j] == sorted[j]);
            } else {
                assert(r[i] == sorted[i]);
                if i < sorted.len() - 1 {
                    assert(sorted[i].start.total() <= sorted[sorted.len() - 1].start.total());
                }
            }
        }
        assert forall|i: int| 0 <= i < r.len() implies #[trigger] r[i] == segment
            || sorted.contains(r[i]) by {
            if i < sorted.len() {
                assert(r[i] == sorted[i]);
            }
        }
    } else {
        let rest = sorted.drop_last();
        let last = sorted.last();
        let inner = placed(rest, segment);
        lemma_placed(rest, segment);
        assert forall|i: int, j: int| 0 <= i < j < r.len() implies (#[trigger] r[i]).start.total()
            <= (#[trigger] r[j]).start.total() by {
            if j < inner.len() {
                assert(r[i] == inner[i] && r[j] == inner[j]);
            } else {
                assert(r[i] == inner[i]);
                if inner[i] != segment {
                    let k = choose|k: int| 0 <= k < rest.len() && rest[k] == inner[i];
                    assert(sorted[k] == inner[i]);
                    assert(sorted[k].start.total() <= sorted[sorted.len() - 1].start.total());
                }
            }
        }
        assert forall|i: int| 0 <= i < r.len() implies #[trigger] r[i] == segment
            || sorted.contains(r[i]) by {
            if i < inner.len() {
                assert(r[i] == inner[i]);
                if inner[i] != segment {
                    let k = choose|k: int| 0 <= k < rest.len() && rest[k] == inner[i];
                    assert(sorted[k] == r[i]);
                }
            } else {
                assert(sorted[sorted.len() - 1] == r[i]);
            }
        }
        assert(sorted =~= rest.push(last));
        assert(r.to_multiset() =~= sorted.to_multiset().insert(segment));
    }
}

/// Sorted segments are in order, and none is lost or added.
pub proof fn sorting_segments_keeps_them(segments: Seq<SponsorSegment>)
    ensures
        starts_ascend(by_start(segments)),
        by_start(segments).len() == segments.len(),
        by_start(segments).to_multiset() == segments.to_multiset(),
    decreases segments.len(),
{
    broadcast use vstd::seq_lib::group_to_multiset_ensures;

    if segments.len() > 0 {
        sorting_segments_keeps_them(segments.drop_last());
        lemma_placed(by_start(segments.drop_last()), segments.last());
        assert(segments =~= segments.drop_last().push(segments.last()));
    }
}

/// What one chapter of a video says: the texts of its start and its end, where
/// it is a segment.
pub open spec fn segment_times(chapter: JsonData) -> Option<(Seq<char>, Seq<char>)> {
    if text_member(chapter, "title"@) != Some(SPONSOR_CHAPTER_TITLE@) {
        None
    } else {
        match (json_member(chapter, "start_time"@), json_member(chapter, "end_time"@)) {
            (Some(JsonData::Number(_, start)), Some(JsonData::Number(_, end))) => Some(
                (start, end),
            ),
            _ => None,
        }
    }
}

fn times_of(chapter: &Json) -> (r: Option<(&String, &String)>)
    ensures
        match r {
            Some(times) => segment_times(chapter@) == Some((times.0@, times.1@)),
            None => segment_times(chapter@) is None,
        },
{
    let title = match chapter.member("title") {
        Some(member) => member.as_text(),
        None => None,
    };
    match title {
        Some(title) => if !same_text(title.as_str(), SPONSOR_CHAPTER_TITLE) {
            return None;
        },
        None => return None,
    }
    let start = match chapter.member("start_time") {
        Some(Json::Number(_, start)) => start,
        _ => return None,
    };
    match chapter.member("end_time") {
        Some(Json::Number(_, end)) => Some((start, end)),
        _ => None,
    }
}

/// The segments that some chapters give when their times are read one by one.
/// `reads` says what may come of the texts of a start and an end.
pub open spec fn read_from(
    chapters: Seq<JsonData>,
    n: nat,
    reads: spec_fn(Seq<char>, Seq<char>, Option<SponsorSegment>) -> bool,
    found: Seq<SponsorSegment>,
) -> bool
    decreases n,
{
    if n == 0 {
        found.len() == 0
    } else {
        match segment_times(chapters[n - 1]) {
            None => read_from(chapters, (n - 1) as nat, reads, found),
            Some(times) => {
                ||| reads(times.0, times.1, None) && read_from(
                    chapters,
                    (n - 1) as nat,
                    reads,
                    found,
                )
                ||| found.len() > 0 && reads(times.0, times.1, Some(found.last())) && read_from(
                    chapters,
                    (n - 1) as nat,
                    reads,
                    found.drop_last(),
                )
            },
        }
    }
}

/// The segments that a list of chapters gives: sorted, and none twice in a row.
pub open spec fn segments_of(
    chapters: Seq<JsonData>,
    reads: spec_fn(Seq<char>, Seq<char>, Option<SponsorSegment>) -> bool,
    r: Seq<SponsorSegment>,
) -> bool {
    exists|found: Seq<SponsorSegment>| #[trigger]
        read_from(chapters, chapters.len(), reads, found) && r == without_repeats(by_start(found))
}

/// The segments that a document gives; one that is no list gives none.
pub open spec fn document_segments(
    document: Option<JsonData>,
    reads: spec_fn(Seq<char>, Seq<char>, Option<SponsorSegment>) -> bool,
    r: Seq<SponsorSegment>,
) -> bool {
    match document {
        Some(root) => match json_array(root) {
            Some(chapters) => segments_of(chapters, reads, r),
            None => r.len() == 0,
        },
        None => r.len() == 0,
    }
}

/// What a document that was read holds.
pub open spec fn document_data(document: Option<&Json>) -> Option<JsonData> {
    match document {
        Some(root) => Some(root@),
        None => None,
    }
}

/// What a function that reads times may return for two texts.
pub open spec fn read_by<F: Fn(&str, &str) -> Option<SponsorSegment>>(f: F) -> spec_fn(
    Seq<char>,
    Seq<char>,
    Option<SponsorSegment>,
) -> bool {
    |start: Seq<char>, end: Seq<char>, r: Option<SponsorSegment>|
        exists|a: &str, b: &str| a@ == start && b@ == end && #[trigger] f.ensures((a, b), r)
}

fn insert_by_start(sorted: &mut Vec<SponsorSegment>, segment: SponsorSegment)
    requires
        segment.valid(),
        forall|i: int| 0 <= i < old(sorted)@.len() ==> (#[trigger] old(sorted)@[i]).valid(),
    ensures
        final(sorted)@ == placed(old(sorted)@, segment),
        forall|i: int| 0 <= i < final(sorted)@.len() ==> (#[trigger] final(sorted)@[i]).valid(),
    decreases old(sorted)@.len(),
{
    let n: usize = sorted.len();
    if n == 0 {
        sorted.push(segment);
        return;
    }
    let last = sorted[n - 1];
    if !segment.start.shorter_than(last.start) {
        sorted.push(segment);
        return;
    }
    let ghost before = sorted@;
    let _ = sorted.pop();
    assert(sorted@ =~= before.drop_last());
    insert_by_start(sorted, segment);
    sorted.push(last);
}

/// The segments in a document of chapters, given how the times of one are
/// read.
pub fn sponsor_segments_in<F: Fn(&str, &str) -> Option<SponsorSegment>>(
    document: Option<&Json>,
    read: F,
) -> (r: Vec<SponsorSegment>)
    requires
        forall|a: &str, b: &str| #[trigger] read.requires((a, b)),
        forall|a: &str, b: &str, s: Option<SponsorSegment>| #[trigger]
            read.ensures((a, b), s) ==> (s matches Some(segment) ==> segment.valid()),
    ensures
        document_segments(document_data(document), read_by(read), r@),
        forall|i: int| 0 <= i < r@.len() ==> (#[trigger] r@[i]).valid(),
{
    let root = match document {
        Some(root) => root,
        None => return Vec::new(),
    };
    let chapters = match root.as_array() {
        Some(chapters) => chapters,
        None => return Vec::new(),
    };
    let ghost data = json_array(root@)->0;
    let mut sorted: Vec<SponsorSegment> = Vec::new();
    let ghost mut found: Seq<SponsorSegment> = seq![];
    let mut i: usize = 0;
    assert(sorted@ =~= by_start(found));
    while i < chapters.len()
        invariant
            i <= chapters@.len(),
            data.len() == chapters@.len(),
            forall|k: int| 0 <= k < data.len() ==> #[trigger] data[k] == chapters@[k]@,
            forall|a: &str, b: &str| #[trigger] read.requires((a, b)),
            forall|a: &str, b: &str, s: Option<SponsorSegment>| #[trigger]
                read.ensures((a, b), s) ==> (s matches Some(segment) ==> segment.valid()),
            read_from(data, i as nat, read_by(read), found),
            sorted@ == by_start(found),
            forall|k: int| 0 <= k < sorted@.len() ==> (#[trigger] sorted@[k]).valid(),
        decreases chapters@.len() - i,
    {
        assert(data[i as int] == chapters@[i as int]@);
        if let Some(times) = times_of(&chapters[i]) {
            let start = times.0.as_str();
            let end = times.1.as_str();
            let one = read(start, end);
            assert(read.ensures((start, end), one));
            assert(read_by(read)(start@, end@, one));
            if let Some(segment) = one {
                insert_by_start(&mut sorted, segment);
                proof {
                    let before = found;
                    found = found.push(segment);
                    assert(found.drop_last() =~= before);
                }
            }
        }
        i += 1;
    }
    let mut out: Vec<SponsorSegment> = Vec::new();
    let mut k: usize = 0;
    assert(sorted@.take(0) =~= seq![]);
    while k < sorted.len()
        invariant
            k <= sorted@.len(),
            forall|j: int| 0 <= j < sorted@.len() ==> (#[trigger] sorted@[j]).valid(),
            forall|j: int| 0 <= j < out@.len() ==> (#[trigger] out@[j]).valid(),
            out@ == without_repeats(sorted@.take(k as int)),
        decreases sorted@.len() - k,
    {
        let ghost part = sorted@.take(k + 1);
        assert(part.drop_last() =~= sorted@.take(k as int));
        let segment = sorted[k];
        if k == 0 || sorted[k - 1] != segment {
            out.push(segment);
            assert(k == 0 ==> out@ =~= part);
        }
        k += 1;
    }
    assert(sorted@.take(k as int) =~= sorted@);
    assert(read_from(data, data.len(), read_by(read), found));
    assert(segments_of(data, read_by(read), out@));
    out
}

/// The segments in the text of a document of chapters.
pub fn parse_sponsor_segments<F: Fn(&str, &str) -> Option<SponsorSegment>>(
    text: &str,
    read: F,
) -> (r: Vec<SponsorSegment>)
    requires
        forall|a: &str, b: &str| #[trigger] read.requires((a, b)),
        forall|a: &str, b: &str, s: Option<SponsorSegment>| #[trigger]
            read.ensures((a, b), s) ==> (s matches Some(segment) ==> segment.valid()),
    ensures
        document_segments(json_document(trimmed(text@)).ok(), read_by(read), r@),
        forall|i: int| 0 <= i < r@.len() ==> (#[trigger] r@[i]).valid(),
{
    match parse_json(trim(text).as_str()) {
        Ok(root) => sponsor_segments_in(Some(&root), read),
        Err(_) => sponsor_segments_in(None, read),
    }
}

// ---------------------------------------------------------------------------
// Categories
// ---------------------------------------------------------------------------

/// What a segment is submitted as.
#[derive(Clone, Copy, Debug, PartialEq, Eq, Structural)]
pub enum SponsorCategory {
    Sponsor,
    MusicOfftopic,
    Interaction,
    Intro,
    Outro,
    Preview,
}

/// The name of a category in requests and settings.
pub open spec fn category_name(category: SponsorCategory) -> Seq<char> {
    match category {
        SponsorCategory::Sponsor => "sponsor"@,
        SponsorCategory::MusicOfftopic => "music_offtopic"@,
        SponsorCategory::Interaction => "interaction"@,
        SponsorCategory::Intro => "intro"@,
        SponsorCategory::Outro => "outro"@,
        SponsorCategory::Preview => "preview"@,
    }
}

pub open spec fn category_label(category: SponsorCategory) -> Seq<char> {
    match category {
        SponsorCategory::Sponsor => "Sponsor"@,
        SponsorCategory::MusicOfftopic => "Non-music section"@,
        SponsorCategory::Interaction => "Interaction Reminder"@,
        SponsorCategory::Intro => "Intermission/Intro Animation"@,
        SponsorCategory::Outro => "Endcards/Credits (Outro)"@,
        SponsorCategory::Preview => "Preview/Recap"@,
    }
}

/// The categories in the order of the menu.
pub open spec fn category_at(index: int) -> SponsorCategory {
    if index == 0 {
        SponsorCategory::Sponsor
    } else if index == 1 {
        SponsorCategory::MusicOfftopic
    } else if index == 2 {
        SponsorCategory::Interaction
    } else if index == 3 {
        SponsorCategory::Intro
    } else if index == 4 {
        SponsorCategory::Outro
    } else {
        SponsorCategory::Preview
    }
}

impl SponsorCategory {
    pub fn name(self) -> (r: &'static str)
        ensures
            r@ == category_name(self),
    {
        match self {
            SponsorCategory::Sponsor => "sponsor",
            SponsorCategory::MusicOfftopic => "music_offtopic",
            SponsorCategory::Interaction => "interaction",
            SponsorCategory::Intro => "intro",
            SponsorCategory::Outro => "outro",
            SponsorCategory::Preview => "preview",
        }
    }

    pub fn label(self) -> (r: &'static str)
        ensures
            r@ == category_label(self),
    {
        match self {
            SponsorCategory::Sponsor => "Sponsor",
            SponsorCategory::MusicOfftopic => "Non-music section",
            SponsorCategory::Interaction => "Interaction Reminder",
            SponsorCategory::Intro => "Intermission/Intro Animation",
            SponsorCategory::Outro => "Endcards/Credits (Outro)",
            SponsorCategory::Preview => "Preview/Recap",
        }
    }

    pub fn at(index: usize) -> (r: SponsorCategory)
        ensures
            r == category_at(index as int),
    {
        if index == 0 {
            SponsorCategory::Sponsor
        } else if index == 1 {
            SponsorCategory::MusicOfftopic
        } else if index == 2 {
            SponsorCategory::Interaction
        } else if index == 3 {
            SponsorCategory::Intro
        } else if index == 4 {
            SponsorCategory::Outro
        } else {
            SponsorCategory::Preview
        }
    }
}

/// How many categories there are.
pub const CATEGORY_COUNT: usize = 6;

/// Which categories are skipped, in the order of the menu.
#[derive(Debug, PartialEq, Eq)]
pub struct SponsorSettings {
    pub skip: Vec<bool>,
}

impl SponsorSettings {
    pub open spec fn wf(&self) -> bool {
        self.skip@.len() == CATEGORY_COUNT
    }
}

/// What is skipped where nothing was chosen: sponsors and parts without music.
pub open spec fn default_skips() -> Seq<bool> {
    seq![true, true, false, false, false, false]
}

pub fn default_sponsor_settings() -> (r: SponsorSettings)
    ensures
        r.wf(),
        r.skip@ == default_skips(),
{
    let r = SponsorSettings { skip: vec![true, true, false, false, false, false] };
    assert(r.skip@ =~= default_skips());
    r
}

/// The line of a category in the settings file.
pub open spec fn setting_line(category: SponsorCategory, skip: bool) -> Seq<char> {
    category_name(category) + seq!['='] + if skip {
        "auto"@
    } else {
        "off"@
    }
}

pub open spec fn setting_lines(skip: Seq<bool>) -> Seq<Seq<char>> {
    Seq::new(skip.len(), |i: int| setting_line(category_at(i), skip[i]))
}

/// What one line of the settings file says of a category.
pub open spec fn line_setting(line: Seq<char>, category: SponsorCategory) -> Option<bool> {
    let name = category_name(category) + seq!['='];
    if !has_prefix(line, name) {
        None
    } else if line.skip(name.len() as int) == "auto"@ {
        Some(true)
    } else if line.skip(name.len() as int) == "off"@ {
        Some(false)
    } else {
        None
    }
}

/// The last setting of a category among lines, or the one it had before.
pub open spec fn last_setting(
    rows: Seq<Seq<char>>,
    category: SponsorCategory,
    before: bool,
) -> bool
    decreases rows.len(),
{
    if rows.len() == 0 {
        before
    } else {
        match line_setting(rows.last(), category) {
            Some(skip) => skip,
            None => last_setting(rows.drop_last(), category, before),
        }
    }
}

/// The settings in a file; what the file does not set stays as by default.
pub open spec fn settings_of(text: Seq<char>) -> Seq<bool> {
    Seq::new(
        CATEGORY_COUNT as nat,
        |i: int| last_setting(lines(text), category_at(i), default_skips()[i]),
    )
}

fn parse_setting(line: &str, category: SponsorCategory) -> (r: Option<bool>)
    ensures
        r == line_setting(line@, category),
{
    let mut name = category.name().to_string();
    name.push('=');
    assert(name@ =~= category_name(category) + seq!['=']);
    match strip_prefix(line, name.as_str()) {
        Some(value) => if same_text(value.as_str(), "auto") {
            Some(true)
        } else if same_text(value.as_str(), "off") {
            Some(false)
        } else {
            None
        },
        None => None,
    }
}

fn find_setting(rows: &Vec<String>, category: SponsorCategory, before: bool) -> (r: bool)
    ensures
        r == last_setting(texts(rows@), category, before),
{
    let ghost all = texts(rows@);
    let mut n: usize = rows.len();
    assert(all.take(n as int) =~= all);
    while n > 0
        invariant
            n <= rows@.len(),
            all == texts(rows@),
            last_setting(all, category, before) == last_setting(
                all.take(n as int),
                category,
                before,
            ),
        decreases n,
    {
        let ghost part = all.take(n as int);
        assert(part.last() == rows@[n - 1]@);
        assert(part.drop_last() =~= all.take(n - 1));
        match parse_setting(rows[n - 1].as_str(), category) {
            Some(skip) => return skip,
            None => {},
        }
        n -= 1;
    }
    before
}

pub fn parse_sponsor_settings(text: &str) -> (r: SponsorSettings)
    ensures
        r.wf(),
        r.skip@ == settings_of(text@),
{
    let rows = split_lines(text);
    let defaults = default_sponsor_settings();
    let mut skip: Vec<bool> = Vec::new();
    let mut i: usize = 0;
    while i < CATEGORY_COUNT
        invariant
            i <= CATEGORY_COUNT,
            texts(rows@) == lines(text@),
            defaults.skip@ == default_skips(),
            skip@ =~= settings_of(text@).take(i as int),
        decreases CATEGORY_COUNT - i,
    {
        skip.push(find_setting(&rows, SponsorCategory::at(i), defaults.skip[i]));
        i += 1;
    }
    assert(skip@ =~= settings_of(text@));
    SponsorSettings { skip }
}

pub fn serialize_sponsor_settings(settings: &SponsorSettings) -> (r: String)
    requires
        settings.wf(),
    ensures
        r@ == joined_lines(setting_lines(settings.skip@)),
{
    let mut rows: Vec<String> = Vec::new();
    let mut i: usize = 0;
    while i < settings.skip.len()
        invariant
            i <= settings.skip@.len(),
            texts(rows@) =~= setting_lines(settings.skip@).take(i as int),
        decreases settings.skip@.len() - i,
    {
        let mut row = SponsorCategory::at(i).name().to_string();
        row.push('=');
        row.append(
            if settings.skip[i] {
                "auto"
            } else {
                "off"
            },
        );
        assert(row@ =~= setting_line(category_at(i as int), settings.skip@[i as int]));
        let ghost before = rows@;
        rows.push(row);
        assert(texts(rows@) =~= texts(before).push(row@));
        i += 1;
    }
    assert(texts(rows@) =~= setting_lines(settings.skip@));
    join_lines(&rows)
}

proof fn lemma_category_names()
    ensures
        forall|a: SponsorCategory, b: SponsorCategory, skip: bool|
            #![trigger line_setting(setting_line(a, skip), b)]
            line_setting(setting_line(a, skip), b) == if a == b {
                Some(skip)
            } else {
                None
            },
        forall|a: SponsorCategory, skip: bool| plain_line(#[trigger] setting_line(a, skip)),
{
    reveal_strlit("sponsor");
    reveal_strlit("music_offtopic");
    reveal_strlit("interaction");
    reveal_strlit("intro");
    reveal_strlit("outro");
    reveal_strlit("preview");
    reveal_strlit("auto");
    reveal_strlit("off");
    assert("auto"@.len() != "off"@.len());
    assert forall|a: SponsorCategory, skip: bool| plain_line(#[trigger] setting_line(a, skip)) by {
        let line = setting_line(a, skip);
        let name = category_name(a);
        let value = if skip {
            "auto"@
        } else {
            "off"@
        };
        assert forall|i: int| 0 <= i < line.len() implies #[trigger] line[i] != '\n' && line[i]
            != '\r' by {
            if i < name.len() {
                assert(line[i] == name[i]);
            } else if i > name.len() {
                assert(line[i] == value[i - name.len() - 1]);
            }
        }
    }
    assert forall|a: SponsorCategory, b: SponsorCategory, skip: bool|
        #![trigger line_setting(setting_line(a, skip), b)]
        line_setting(setting_line(a, skip), b) == if a == b {
            Some(skip)
        } else {
            None
        } by {
        let line = setting_line(a, skip);
        let value = if skip {
            "auto"@
        } else {
            "off"@
        };
        let mine = category_name(a) + seq!['='];
        let other = category_name(b) + seq!['='];
        if a == b {
            assert(line.take(mine.len() as int) =~= mine);
            assert(line.skip(mine.len() as int) =~= value);
        } else if has_prefix(line, other) {
            let p = line.take(other.len() as int);
            assert(p == other);
            assert(line[0] == category_name(a)[0]);
            assert(p[0] == category_name(b)[0]);
            assert(line[2] == category_name(a)[2]);
            assert(p[2] == category_name(b)[2]);
            assert(line[4] == category_name(a)[4]);
            assert(p[4] == category_name(b)[4]);
        }
    }
}

proof fn lemma_last_setting(skip: Seq<bool>, n: nat, category: SponsorCategory, before: bool)
    requires
        n <= skip.len(),
        skip.len() == CATEGORY_COUNT,
    ensures
        last_setting(setting_lines(skip).take(n as int), category, before) == if exists|i: int|
            0 <= i < n && #[trigger] category_at(i) == category {
            skip[choose|i: int| 0 <= i < n && #[trigger] category_at(i) == category]
        } else {
            before
        },
    decreases n,
{
    lemma_category_names();
    if n > 0 {
        lemma_last_setting(skip, (n - 1) as nat, category, before);
        let part = setting_lines(skip).take(n as int);
        assert(part.drop_last() =~= setting_lines(skip).take(n - 1));
        assert(part.last() == setting_line(category_at(n - 1), skip[n - 1]));
        if category_at(n - 1) == category {
            assert(exists|i: int| 0 <= i < n && #[trigger] category_at(i) == category);
            let i = choose|i: int| 0 <= i < n && #[trigger] category_at(i) == category;
            assert(i == n - 1);
        } else {
            if exists|i: int| 0 <= i < n && #[trigger] category_at(i) == category {
                let i = choose|i: int| 0 <= i < n && #[trigger] category_at(i) == category;
                assert(i < n - 1);
                let j = choose|j: int| 0 <= j < n - 1 && #[trigger] category_at(j) == category;
                assert(i == j);
            }
        }
    }
}

/// Settings that were saved are read back.
pub proof fn sponsor_settings_round_trip(skip: Seq<bool>)
    requires
        skip.len() == CATEGORY_COUNT,
    ensures
        settings_of(joined_lines(setting_lines(skip))) == skip,
{
    lemma_category_names();
    let rows = setting_lines(skip);
    assert forall|i: int| 0 <= i < rows.len() implies plain_line(#[trigger] rows[i]) by {
        assert(rows[i] == setting_line(category_at(i), skip[i]));
    }
    lemma_lines_joined(rows);
    assert(rows.take(CATEGORY_COUNT as int) =~= rows);
    assert forall|i: int| 0 <= i < CATEGORY_COUNT implies #[trigger] settings_of(
        joined_lines(rows),
    )[i] == skip[i] by {
        lemma_last_setting(skip, CATEGORY_COUNT as nat, category_at(i), default_skips()[i]);
        assert(category_at(i) == category_at(i));
        let j = choose|j: int|
            0 <= j < CATEGORY_COUNT && #[trigger] category_at(j) == category_at(i);
        assert(i == j);
    }
    assert(settings_of(joined_lines(rows)) =~= skip);
}

/// The names of the categories that are skipped, joined by commas.
pub open spec fn requested(skip: Seq<bool>, n: nat) -> Seq<char>
    decreases n,
{
    if n == 0 {
        seq![]
    } else {
        let before = requested(skip, (n - 1) as nat);
        if !skip[n - 1] {
            before
        } else if before.len() == 0 {
            category_name(category_at(n - 1))
        } else {
            before + seq![','] + category_name(category_at(n - 1))
        }
    }
}

/// The categories that are asked for; none where nothing is skipped, so that
/// nothing is asked at all.
pub fn requested_categories(settings: &SponsorSettings) -> (r: Option<String>)
    requires
        settings.wf(),
    ensures
        match r {
            Some(names) => names@ == requested(settings.skip@, CATEGORY_COUNT as nat)
                && names@.len() > 0,
            None => requested(settings.skip@, CATEGORY_COUNT as nat).len() == 0,
        },
{
    let mut out = String::new();
    let mut empty = true;
    let mut i: usize = 0;
    assert(out@ =~= seq![]);
    while i < CATEGORY_COUNT
        invariant
            i <= CATEGORY_COUNT,
            settings.wf(),
            out@ == requested(settings.skip@, i as nat),
            empty == (out@.len() == 0),
        decreases CATEGORY_COUNT - i,
    {
        if settings.skip[i] {
            let ghost before = out@;
            if !empty {
                out.push(',');
            }
            let name = SponsorCategory::at(i).name();
            proof {
                reveal_strlit("sponsor");
                reveal_strlit("music_offtopic");
                reveal_strlit("interaction");
                reveal_strlit("intro");
                reveal_strlit("outro");
                reveal_strlit("preview");
            }
            out.append(name);
            assert(empty ==> out@ =~= name@);
            assert(!empty ==> out@ =~= before + seq![','] + name@);
            empty = false;
        }
        i += 1;
    }
    if empty {
        None
    } else {
        Some(out)
    }
}

/// No category is asked for exactly where every one is off.
pub proof fn nothing_is_asked_without_categories(skip: Seq<bool>, n: nat)
    requires
        n <= skip.len(),
    ensures
        requested(skip, n).len() == 0 <==> forall|i: int| 0 <= i < n ==> !#[trigger] skip[i],
    decreases n,
{
    if n > 0 {
        nothing_is_asked_without_categories(skip, (n - 1) as nat);
        reveal_strlit("sponsor");
        reveal_strlit("music_offtopic");
        reveal_strlit("interaction");
        reveal_strlit("intro");
        reveal_strlit("outro");
        reveal_strlit("preview");
        if skip[n - 1] {
            assert(requested(skip, n).len() > 0);
        }
    }
}

/// How a category is listed in the menu.
pub open spec fn category_row(index: int, skip: bool) -> Seq<char> {
    category_label(category_at(index)) + " ("@ + category_name(category_at(index)) + "): "@
        + if skip {
        "Auto skip"@
    } else {
        "No skip"@
    }
}

pub open spec fn category_rows(skip: Seq<bool>) -> Seq<Seq<char>> {
    Seq::new(skip.len(), |i: int| category_row(i, skip[i])).push("←  Back"@)
}

/// The rows of the menu of categories.
pub fn sponsor_menu(settings: &SponsorSettings) -> (r: Vec<String>)
    requires
        settings.wf(),
    ensures
        texts(r@) == category_rows(settings.skip@),
{
    let mut rows: Vec<String> = Vec::new();
    let mut i: usize = 0;
    let ghost all = Seq::new(settings.skip@.len(), |i: int| category_row(i, settings.skip@[i]));
    while i < CATEGORY_COUNT
        invariant
            i <= CATEGORY_COUNT,
            settings.wf(),
            all == Seq::new(settings.skip@.len(), |i: int| category_row(i, settings.skip@[i])),
            texts(rows@) =~= all.take(i as int),
        decreases CATEGORY_COUNT - i,
    {
        let category = SponsorCategory::at(i);
        let mut row = category.label().to_string();
        row.append(" (");
        row.append(category.name());
        row.append("): ");
        row.append(
            if settings.skip[i] {
                "Auto skip"
            } else {
                "No skip"
            },
        );
        let ghost before = rows@;
        rows.push(row);
        assert(texts(rows@) =~= texts(before).push(row@));
        i += 1;
    }
    assert(all.take(i as int) =~= all);
    let ghost before = rows@;
    let back = "←  Back".to_string();
    rows.push(back);
    assert(texts(rows@) =~= texts(before).push(back@));
    rows
}

/// Turns the category of a menu row over; the last row leaves the menu.
pub fn toggle_category(settings: &mut SponsorSettings, choice: Option<usize>) -> (r: bool)
    requires
        old(settings).wf(),
    ensures
        final(settings).wf(),
        r == (choice matches Some(i) && i < CATEGORY_COUNT),
        final(settings).skip@ == match choice {
            Some(i) => if i < CATEGORY_COUNT {
                old(settings).skip@.update(i as int, !old(settings).skip@[i as int])
            } else {
                old(settings).skip@
            },
            None => old(settings).skip@,
        },
{
    let index: usize = match choice {
        Some(i) => i,
        None => CATEGORY_COUNT,
    };
    if index < CATEGORY_COUNT {
        let skip = settings.skip[index];
        settings.skip.set(index, !skip);
        true
    } else {
        false
    }
}

// ---------------------------------------------------------------------------
// What holds of every segment
// ---------------------------------------------------------------------------

/// The first segment that playback stands in is skipped.
pub proof fn the_first_segment_is_skipped(
    before: Seq<SponsorSegment>,
    segment: SponsorSegment,
    after: Seq<SponsorSegment>,
    elapsed: Span,
    last_skipped: Option<SponsorSegment>,
)
    requires
        forall|i: int|
            0 <= i < before.len() ==> (elapsed.total() < (#[trigger] before[i]).start.total()
                || elapsed.total() >= before[i].end.total()),
        segment.start.total() <= elapsed.total() < segment.end.total(),
        last_skipped != Some(segment),
    ensures
        skip_target(before + seq![segment] + after, elapsed, last_skipped) == Some(segment),
    decreases before.len(),
{
    let all = before + seq![segment] + after;
    if before.len() > 0 {
        assert(all[0] == before[0]);
        assert(all.skip(1) =~= before.skip(1) + seq![segment] + after);
        the_first_segment_is_skipped(before.skip(1), segment, after, elapsed, last_skipped);
    } else {
        assert(all[0] == segment);
    }
}

/// Segments that start together keep their order when they are sorted.
pub proof fn sorting_segments_is_stable(segments: Seq<SponsorSegment>, start: int)
    ensures
        by_start(segments).filter(|s: SponsorSegment| s.start.total() == start) == segments.filter(
            |s: SponsorSegment| s.start.total() == start,
        ),
    decreases segments.len(),
{
    let at = |s: SponsorSegment| s.start.total() == start;
    if segments.len() > 0 {
        let rest = segments.drop_last();
        sorting_segments_is_stable(rest, start);
        sorting_segments_keeps_them(rest);
        lemma_placed_filter(by_start(rest), segments.last(), at);
        lemma_filter_push(by_start(rest), segments.last(), at);
        lemma_filter_push(rest, segments.last(), at);
        assert(rest.push(segments.last()) =~= segments);
    }
}

proof fn lemma_filter_push(
    s: Seq<SponsorSegment>,
    x: SponsorSegment,
    at: spec_fn(SponsorSegment) -> bool,
)
    ensures
        s.push(x).filter(at) == if at(x) {
            s.filter(at).push(x)
        } else {
            s.filter(at)
        },
{
    reveal(Seq::filter);
    assert(s.push(x).drop_last() =~= s);
}

proof fn lemma_placed_filter(
    sorted: Seq<SponsorSegment>,
    segment: SponsorSegment,
    at: spec_fn(SponsorSegment) -> bool,
)
    requires
        starts_ascend(sorted),
        forall|a: SponsorSegment, b: SponsorSegment|
            #[trigger] at(a) && #[trigger] at(b) ==> a.start.total() == b.start.total(),
    ensures
        placed(sorted, segment).filter(at) == sorted.push(segment).filter(at),
    decreases sorted.len(),
{
    if sorted.len() > 0 && sorted.last().start.total() > segment.start.total() {
        let rest = sorted.drop_last();
        assert(starts_ascend(rest));
        lemma_placed_filter(rest, segment, at);
        lemma_filter_push(placed(rest, segment), sorted.last(), at);
        lemma_filter_push(rest, segment, at);
        lemma_filter_push(rest, sorted.last(), at);
        lemma_filter_push(sorted, segment, at);
        assert(rest.push(sorted.last()) =~= sorted);
    }
}

/// Of equal segments side by side one stays; nothing else is lost, and nothing is
/// where no two are equal.
pub proof fn repeats_are_dropped(s: Seq<SponsorSegment>)
    ensures
        ({
            let r = without_repeats(s);
            &&& r.len() <= s.len()
            &&& s.len() > 0 ==> r.len() > 0 && r.last() == s.last()
            &&& forall|i: int| 0 < i < r.len() ==> r[i - 1] != #[trigger] r[i]
            &&& forall|x: SponsorSegment| s.contains(x) <==> #[trigger] r.contains(x)
            &&& (forall|i: int| 0 < i < s.len() ==> s[i - 1] != #[trigger] s[i]) ==> r == s
        }),
    decreases s.len(),
{
    if s.len() > 1 {
        let rest = s.drop_last();
        let before = without_repeats(rest);
        let r = without_repeats(s);
        repeats_are_dropped(rest);
        assert(rest.last() == s[s.len() - 2]);
        assert(s =~= rest.push(s.last()));
        assert forall|x: SponsorSegment| s.contains(x) <==> #[trigger] r.contains(x) by {
            if s.contains(x) {
                let i = choose|i: int| 0 <= i < s.len() && s[i] == x;
                if i < rest.len() {
                    assert(rest[i] == x);
                    assert(before.contains(x));
                    let j = choose|j: int| 0 <= j < before.len() && before[j] == x;
                    assert(r[j] == x);
                } else {
                    assert(r.last() == x);
                    assert(r[r.len() - 1] == x);
                }
            }
            if r.contains(x) {
                let j = choose|j: int| 0 <= j < r.len() && r[j] == x;
                if j < before.len() {
                    assert(before[j] == x);
                    assert(before.contains(x));
                    assert(rest.contains(x));
                    let i = choose|i: int| 0 <= i < rest.len() && rest[i] == x;
                    assert(s[i] == x);
                } else {
                    assert(s[s.len() - 1] == x);
                }
            }
        }
        if forall|i: int| 0 < i < s.len() ==> s[i - 1] != #[trigger] s[i] {
            assert forall|i: int| 0 < i < rest.len() implies rest[i - 1] != #[trigger] rest[i] by {
                assert(s[i] == rest[i]);
            }
            assert(s[s.len() - 1] != s[s.len() - 2]);
        }
    }
}

/// The categories, by their places in the settings.
pub proof fn categories_have_their_names(i: int)
    requires
        0 <= i < 6,
    ensures
        category_name(category_at(i)) == seq![
            "sponsor"@,
            "music_offtopic"@,
            "interaction"@,
            "intro"@,
            "outro"@,
            "preview"@,
        ][i],
        category_label(category_at(i)) == seq![
            "Sponsor"@,
            "Non-music section"@,
            "Interaction Reminder"@,
            "Intermission/Intro Animation"@,
            "Endcards/Credits (Outro)"@,
            "Preview/Recap"@,
        ][i],
        default_skips()[i] == (i < 2),
        settings_of(seq![])[i] == (i < 2),
{
    assert(lines(seq![]).len() == 0);
}

/// A category is set by the last line that names it, to `auto` or `off`; other
/// lines leave it.
pub proof fn the_last_setting_counts(rows: Seq<Seq<char>>, i: int, line: Seq<char>, before: bool)
    requires
        0 <= i < 6,
    ensures
        last_setting(
            rows.push(category_name(category_at(i)) + seq!['='] + "auto"@),
            category_at(i),
            before,
        ),
        !last_setting(
            rows.push(category_name(category_at(i)) + seq!['='] + "off"@),
            category_at(i),
            before,
        ),
        !has_prefix(line, category_name(category_at(i)) + seq!['=']) ==> last_setting(
            rows.push(line),
            category_at(i),
            before,
        ) == last_setting(rows, category_at(i), before),
        last_setting(seq![], category_at(i), before) == before,
{
    let name = category_name(category_at(i)) + seq!['='];
    let auto = name + "auto"@;
    let off = name + "off"@;
    reveal_strlit("auto");
    reveal_strlit("off");
    assert(auto.take(name.len() as int) =~= name);
    assert(auto.skip(name.len() as int) =~= "auto"@);
    assert(off.take(name.len() as int) =~= name);
    assert(off.skip(name.len() as int) =~= "off"@);
    assert("off"@.len() != "auto"@.len());
    assert(rows.push(line).drop_last() =~= rows);
}

/// The categories that are skipped are asked for by their names, in their order,
/// with a comma between them.
pub proof fn skipped_categories_are_asked_for(skip: Seq<bool>, n: nat)
    requires
        n <= skip.len(),
    ensures
        ({
            let skipped = Seq::new(n, |i: int| i).filter(|i: int| skip[i]);
            let names = skipped.map_values(|i: int| category_name(category_at(i)));
            let ended = names.map_values(|name: Seq<char>| name.push(','));
            &&& skipped.len() == 0 ==> requested(skip, n) == Seq::<char>::empty()
            &&& skipped.len() > 0 ==> requested(skip, n).len() > 0 && requested(skip, n).push(',')
                == ended.flatten()
        }),
    decreases n,
{
    reveal(Seq::filter);
    let all = Seq::new(n, |i: int| i);
    let skipped = all.filter(|i: int| skip[i]);
    let names = skipped.map_values(|i: int| category_name(category_at(i)));
    let ended = names.map_values(|name: Seq<char>| name.push(','));
    ended.lemma_flatten_and_flatten_alt_are_equivalent();
    if n > 0 {
        let m = (n - 1) as nat;
        let earlier = Seq::new(m, |i: int| i);
        let before = earlier.filter(|i: int| skip[i]);
        let named = before.map_values(|i: int| category_name(category_at(i)));
        let closed = named.map_values(|name: Seq<char>| name.push(','));
        skipped_categories_are_asked_for(skip, m);
        closed.lemma_flatten_and_flatten_alt_are_equivalent();
        assert(all.drop_last() =~= earlier);
        if skip[n - 1] {
            assert(skipped =~= before.push(n - 1));
            assert(ended.drop_last() =~= closed);
            assert(ended.last() == category_name(category_at(n - 1)).push(','));
            lemma_category_name_len(n - 1);
            if before.len() == 0 {
                assert(closed =~= seq![]);
                assert(requested(skip, n).push(',') =~= closed.flatten_alt() + ended.last());
            } else {
                assert(requested(skip, n).push(',') =~= requested(skip, m).push(',') + ended.last());
            }
        } else {
            assert(skipped =~= before);
        }
    }
}

proof fn lemma_category_name_len(i: int)
    ensures
        category_name(category_at(i)).len() > 0,
{
    reveal_strlit("sponsor");
    reveal_strlit("music_offtopic");
    reveal_strlit("interaction");
    reveal_strlit("intro");
    reveal_strlit("outro");
    reveal_strlit("preview");
}

/// A chapter is a segment where it has the title that marks one and two times that
/// are numbers.
pub proof fn marked_chapters_are_segments(
    title: Seq<char>,
    start: Seq<char>,
    end: Seq<char>,
    from: Option<u64>,
    to: Option<u64>,
)
    ensures
        segment_times(
            JsonData::Object(
                seq![
                    ("title"@, JsonData::Text(title)),
                    ("start_time"@, JsonData::Number(from, start)),
                    ("end_time"@, JsonData::Number(to, end)),
                ],
            ),
        ) == if title == "__MTP_SPONSOR__"@ {
            Some((start, end))
        } else {
            None
        },
{
    reveal_strlit("title");
    reveal_strlit("start_time");
    reveal_strlit("end_time");
    assert("title"@.len() == 5 && "start_time"@.len() == 10 && "end_time"@.len() == 8);
    let first = ("title"@, JsonData::Text(title));
    let second = ("start_time"@, JsonData::Number(from, start));
    let third = ("end_time"@, JsonData::Number(to, end));
    let all = seq![first, second, third];
    assert(all =~= seq![] + seq![first] + seq![second, third]);
    assert(all =~= seq![first] + seq![second] + seq![third]);
    assert(all =~= seq![first, second] + seq![third] + seq![]);
    crate::json::the_first_member_counts(seq![], "title"@, first.1, seq![second, third]);
    crate::json::the_first_member_counts(seq![first], "start_time"@, second.1, seq![third]);
    crate::json::the_first_member_counts(seq![first, second], "end_time"@, third.1, seq![]);
}

/// The segments of chapters are those that can be read, each of them, in the
/// order of the chapters.
pub proof fn chapters_give_their_segments(
    chapters: Seq<JsonData>,
    n: nat,
    read: spec_fn((Seq<char>, Seq<char>)) -> Option<SponsorSegment>,
    found: Seq<SponsorSegment>,
)
    requires
        n <= chapters.len(),
        read_from(
            chapters,
            n,
            |start: Seq<char>, end: Seq<char>, r: Option<SponsorSegment>| r == read((start, end)),
            found,
        ),
    ensures
        found == Seq::new(n, |i: int| i).filter(
            |i: int|
                segment_times(chapters[i]) is Some && read(segment_times(chapters[i])->0) is Some,
        ).map_values(
            |i: int|
                read(segment_times(chapters[i])->0)->0,
        ),
    decreases n,
{
    reveal(Seq::filter);
    let readable = |i: int|
        segment_times(chapters[i]) is Some && read(segment_times(chapters[i])->0) is Some;
    let segment = |i: int|
        read(segment_times(chapters[i])->0)->0;
    let all = Seq::new(n, |i: int| i);
    if n > 0 {
        let m = (n - 1) as nat;
        assert(all.drop_last() =~= Seq::new(m, |i: int| i));
        if readable(n - 1) {
            chapters_give_their_segments(chapters, m, read, found.drop_last());
            assert(found =~= found.drop_last().push(segment(n - 1)));
        } else {
            chapters_give_their_segments(chapters, m, read, found);
        }
    }
    assert(found =~= all.filter(readable).map_values(segment));
}

proof fn lemma_readable_segments(
    chapters: Seq<JsonData>,
    n: nat,
    read: spec_fn((Seq<char>, Seq<char>)) -> Option<SponsorSegment>,
)
    requires
        n <= chapters.len(),
    ensures
        read_from(
            chapters,
            n,
            |start: Seq<char>, end: Seq<char>, r: Option<SponsorSegment>| r == read((start, end)),
            Seq::new(n, |i: int| i).filter(
                |i: int|
                    segment_times(chapters[i]) is Some && read(segment_times(chapters[i])->0)
                        is Some,
            ).map_values(|i: int| read(segment_times(chapters[i])->0)->0),
        ),
    decreases n,
{
    reveal(Seq::filter);
    let readable = |i: int|
        segment_times(chapters[i]) is Some && read(segment_times(chapters[i])->0) is Some;
    let segment = |i: int| read(segment_times(chapters[i])->0)->0;
    let all = Seq::new(n, |i: int| i);
    if n > 0 {
        let m = (n - 1) as nat;
        lemma_readable_segments(chapters, m, read);
        let earlier = Seq::new(m, |i: int| i);
        assert(all.drop_last() =~= earlier);
        let found = all.filter(readable).map_values(segment);
        let before = earlier.filter(readable).map_values(segment);
        if readable(n - 1) {
            assert(found.drop_last() =~= before);
            assert(found.last() == segment(n - 1));
        } else {
            assert(found =~= before);
        }
    }
}

/// The segments of a document are those of its chapters that can be read, by
/// their start, without repeats. A document that is no list has none.
pub proof fn documents_give_their_segments(
    document: Option<JsonData>,
    read: spec_fn((Seq<char>, Seq<char>)) -> Option<SponsorSegment>,
    r: Seq<SponsorSegment>,
)
    ensures
        ({
            let reads = |start: Seq<char>, end: Seq<char>, r: Option<SponsorSegment>|
                r == read((start, end));
            let given = document_segments(document, reads, r);
            match document {
                Some(JsonData::Array(chapters)) => given <==> r == without_repeats(
                    by_start(
                        Seq::new(chapters.len(), |i: int| i).filter(
                            |i: int|
                                segment_times(chapters[i]) is Some && read(
                                    segment_times(chapters[i])->0,
                                ) is Some,
                        ).map_values(|i: int| read(segment_times(chapters[i])->0)->0),
                    ),
                ),
                _ => given <==> r == Seq::<SponsorSegment>::empty(),
            }
        }),
{
    let reads = |start: Seq<char>, end: Seq<char>, r: Option<SponsorSegment>|
        r == read((start, end));
    assert(r.len() == 0 <==> r =~= Seq::<SponsorSegment>::empty());
    if let Some(JsonData::Array(chapters)) = document {
        let all = Seq::new(chapters.len(), |i: int| i).filter(
            |i: int|
                segment_times(chapters[i]) is Some && read(segment_times(chapters[i])->0) is Some,
        ).map_values(|i: int| read(segment_times(chapters[i])->0)->0);
        lemma_readable_segments(chapters, chapters.len(), read);
        assert(read_from(chapters, chapters.len(), reads, all));
        if segments_of(chapters, reads, r) {
            let found = choose|found: Seq<SponsorSegment>| #[trigger]
                read_from(chapters, chapters.len(), reads, found) && r == without_repeats(
                    by_start(found),
                );
            chapters_give_their_segments(chapters, chapters.len(), read, found);
        }
    }
}

} // verus!
