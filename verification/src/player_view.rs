//! The panels of the players.
use crate::controls::{control_table, playback_controls};
use crate::language::Translation;
use crate::number::{decimal, format_u64, format_usize};
use crate::queue::{loop_label, LoopMode};
use crate::text::texts;
use crate::time::{bar, duration_text, format_duration, progress_bar, Span};
use crate::youtube::{format_rate, rate_text, youtube_control_table, youtube_playback_controls};
use vstd::prelude::*;

verus! {

/// The cells of the bar in a player.
pub const BAR_WIDTH: usize = 12;

/// What a player shows of a track. The volume is a whole number of hundredths,
/// written out.
pub struct TrackView<'a> {
    pub index: usize,
    pub count: usize,
    pub name: &'a str,
    pub elapsed: Span,
    pub duration: Option<Span>,
    pub volume: &'a str,
    pub shuffle: bool,
    pub loop_mode: LoopMode,
}

pub open spec fn view_ok(v: TrackView) -> bool {
    v.index < usize::MAX && v.elapsed.valid() && (v.duration matches Some(d) ==> d.valid())
}

pub open spec fn on_off(b: bool) -> Seq<char> {
    if b {
        "on"@
    } else {
        "off"@
    }
}

fn word_of(b: bool) -> (r: &'static str)
    ensures
        r@ == on_off(b),
{
    if b {
        "on"
    } else {
        "off"
    }
}

pub open spec fn track_row(v: TrackView) -> Seq<char> {
    "Track "@ + decimal((v.index + 1) as nat) + "/"@ + decimal(v.count as nat) + " | "@ + v.name@
}

pub open spec fn time_row(v: TrackView) -> Seq<char> {
    "["@ + bar(v.elapsed, v.duration, BAR_WIDTH as nat) + "] "@ + duration_text(
        v.elapsed.secs as nat,
    ) + "/"@ + match v.duration {
        Some(d) => duration_text(d.secs as nat),
        None => "?:??"@,
    }
}

fn format_track_row(v: &TrackView<'_>) -> (r: String)
    requires
        view_ok(*v),
    ensures
        r@ == track_row(*v),
{
    let mut out = "Track ".to_string();
    out.append(format_usize(v.index + 1).as_str());
    out.append("/");
    out.append(format_usize(v.count).as_str());
    out.append(" | ");
    out.append(v.name);
    out
}

fn format_time_row(v: &TrackView<'_>) -> (r: String)
    requires
        view_ok(*v),
    ensures
        r@ == time_row(*v),
{
    let mut out = "[".to_string();
    out.append(progress_bar(v.elapsed, v.duration, BAR_WIDTH).as_str());
    out.append("] ");
    out.append(format_duration(v.elapsed).as_str());
    out.append("/");
    let total = match v.duration {
        Some(d) => format_duration(d),
        None => "?:??".to_string(),
    };
    out.append(total.as_str());
    out
}

/// What a paused player says, and one that plays.
pub open spec fn pause_word(paused: bool) -> Seq<char> {
    if paused {
        "paused"@
    } else {
        "playing"@
    }
}

fn blank() -> (r: String)
    ensures
        r@ == Seq::<char>::empty(),
{
    let r = String::new();
    assert(r@ =~= seq![]);
    r
}

pub const LOCAL_TITLE: &'static str = "Music Terminal Player · Local";

pub const TELEGRAM_TITLE: &'static str = "Music Terminal Player · Telegram";

pub const YOUTUBE_TITLE: &'static str = "Music Terminal Player · YouTube";

/// The rows of the local player.
pub open spec fn local_panel(t: Translation, v: TrackView, paused: bool) -> Seq<Seq<char>> {
    seq![
        track_row(v),
        Seq::<char>::empty(),
        time_row(v),
        pause_word(paused) + " | volume "@ + v.volume@ + "% | shuffle "@ + on_off(v.shuffle)
            + " | loop "@ + loop_label(t, v.loop_mode),
        Seq::<char>::empty(),
    ] + control_table(t)
}

pub fn local_player_rows(translation: &Translation, v: &TrackView<'_>, paused: bool) -> (r: Vec<
    String,
>)
    requires
        view_ok(*v),
    ensures
        texts(r@) == local_panel(*translation, *v, paused),
{
    let mut rows: Vec<String> = Vec::new();
    rows.push(format_track_row(v));
    rows.push(blank());
    rows.push(format_time_row(v));
    let mut state = (if paused {
        "paused"
    } else {
        "playing"
    }).to_string();
    state.append(" | volume ");
    state.append(v.volume);
    state.append("% | shuffle ");
    state.append(word_of(v.shuffle));
    state.append(" | loop ");
    state.append(v.loop_mode.label(translation).as_str());
    rows.push(state);
    rows.push(blank());
    let mut controls = playback_controls(translation);
    assert(texts(controls@).len() == controls@.len());
    rows.append(&mut controls);
    assert(texts(rows@) =~= local_panel(*translation, *v, paused));
    rows
}

/// How much of a track is in the cache: a share where its size is known, which
/// is written out, else the bytes.
pub open spec fn cache_text(share: Option<Seq<char>>, downloaded: u64) -> Seq<char> {
    match share {
        Some(percent) => percent + "%"@,
        None => decimal((downloaded / 1024) as nat) + " KiB"@,
    }
}

pub open spec fn telegram_panel(
    t: Translation,
    v: TrackView,
    word: Seq<char>,
    share: Option<Seq<char>>,
    downloaded: u64,
) -> Seq<Seq<char>> {
    seq![
        track_row(v),
        Seq::<char>::empty(),
        time_row(v),
        word + " · "@ + v.volume@ + "% · cache "@ + cache_text(share, downloaded) + " · shuffle "@
            + on_off(v.shuffle) + " · loop "@ + loop_label(t, v.loop_mode),
        Seq::<char>::empty(),
    ] + control_table(t)
}

pub fn telegram_player_rows(
    translation: &Translation,
    v: &TrackView<'_>,
    word: &str,
    share: Option<&str>,
    downloaded: u64,
) -> (r: Vec<String>)
    requires
        view_ok(*v),
    ensures
        texts(r@) == telegram_panel(
            *translation,
            *v,
            word@,
            crate::catalog::text_of(share),
            downloaded,
        ),
{
    let mut rows: Vec<String> = Vec::new();
    rows.push(format_track_row(v));
    rows.push(blank());
    rows.push(format_time_row(v));
    let cache = match share {
        Some(percent) => {
            let mut out = percent.to_string();
            out.append("%");
            out
        },
        None => {
            let mut out = format_u64(downloaded / 1024);
            out.append(" KiB");
            out
        },
    };
    let mut state = word.to_string();
    state.append(" · ");
    state.append(v.volume);
    state.append("% · cache ");
    state.append(cache.as_str());
    state.append(" · shuffle ");
    state.append(word_of(v.shuffle));
    state.append(" · loop ");
    state.append(v.loop_mode.label(translation).as_str());
    rows.push(state);
    rows.push(blank());
    let mut controls = playback_controls(translation);
    assert(texts(controls@).len() == controls@.len());
    rows.append(&mut controls);
    assert(texts(rows@) =~= telegram_panel(
        *translation,
        *v,
        word@,
        crate::catalog::text_of(share),
        downloaded,
    ));
    rows
}

pub open spec fn youtube_panel(
    t: Translation,
    v: TrackView,
    paused: bool,
    rate: nat,
    sponsor: bool,
) -> Seq<Seq<char>> {
    seq![
        track_row(v),
        Seq::<char>::empty(),
        time_row(v),
        pause_word(paused) + " · "@ + v.volume@ + "% · "@ + rate_text(rate) + "x · shuffle "@
            + on_off(v.shuffle) + " · loop "@ + loop_label(t, v.loop_mode),
        "SponsorBlock "@ + on_off(sponsor) + " · [a] add next URL or playlist"@,
    ] + youtube_control_table(t)
}

pub fn youtube_player_rows(
    translation: &Translation,
    v: &TrackView<'_>,
    paused: bool,
    rate: u32,
    sponsor: bool,
) -> (r: Vec<String>)
    requires
        view_ok(*v),
    ensures
        texts(r@) == youtube_panel(*translation, *v, paused, rate as nat, sponsor),
{
    let mut rows: Vec<String> = Vec::new();
    rows.push(format_track_row(v));
    rows.push(blank());
    rows.push(format_time_row(v));
    let mut state = (if paused {
        "paused"
    } else {
        "playing"
    }).to_string();
    state.append(" · ");
    state.append(v.volume);
    state.append("% · ");
    state.append(format_rate(rate).as_str());
    state.append("x · shuffle ");
    state.append(word_of(v.shuffle));
    state.append(" · loop ");
    state.append(v.loop_mode.label(translation).as_str());
    rows.push(state);
    let mut skip = "SponsorBlock ".to_string();
    skip.append(word_of(sponsor));
    skip.append(" · [a] add next URL or playlist");
    rows.push(skip);
    let mut controls = youtube_playback_controls(translation);
    assert(texts(controls@).len() == controls@.len());
    rows.append(&mut controls);
    assert(texts(rows@) =~= youtube_panel(*translation, *v, paused, rate as nat, sponsor));
    rows
}

} // verus!
