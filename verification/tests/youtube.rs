use music_terminal_player::language::load_language;
use music_terminal_player::sponsor::{
    parse_sponsor_segments, sponsor_skip_target, SponsorSegment, SPONSOR_CHAPTER_TITLE,
};
use music_terminal_player::time::Span;
use music_terminal_player::youtube::{
    is_portable_yt_dlp, logical_elapsed, parse_youtube_track_line, seek_target, stepped_rate,
    youtube_playback_controls, youtube_stream_format,
};

fn span_of_seconds(seconds: f64) -> Span {
    let duration = std::time::Duration::from_secs_f64(seconds);
    Span::new(duration.as_secs(), duration.subsec_nanos())
}

fn seconds_of(span: Span) -> f64 {
    std::time::Duration::new(span.secs, span.nanos).as_secs_f64()
}

/// A length in seconds, where the text is a finite number.
fn read_seconds(text: &str) -> Option<Span> {
    let seconds = text.parse::<f64>().ok()?;
    if seconds.is_finite() {
        Some(span_of_seconds(seconds.max(0.0)))
    } else {
        None
    }
}

/// A segment, where its start and its end are times in order.
fn read_segment(start: &str, end: &str) -> Option<SponsorSegment> {
    let start = start.parse::<f64>().ok()?;
    let end = end.parse::<f64>().ok()?;
    if start.is_finite() && end.is_finite() && start >= 0.0 && end > start {
        Some(SponsorSegment {
            start: span_of_seconds(start),
            end: span_of_seconds(end),
        })
    } else {
        None
    }
}

#[test]
fn metadata_line_parses_duration_and_missing_duration() {
    let track =
        parse_youtube_track_line("https://youtu.be/abc\tExample title\t123.5", read_seconds)
            .unwrap();
    assert_eq!(track.title, "Example title");
    assert_eq!(seconds_of(track.duration.unwrap()), 123.5);

    let live =
        parse_youtube_track_line("https://youtu.be/live\tLive stream\tNA", read_seconds).unwrap();
    assert_eq!(live.duration, None);
}

#[test]
fn playback_time_helpers_clamp_seek_rate_and_logical_elapsed() {
    // Five seconds at one and a half times the speed.
    assert_eq!(
        logical_elapsed(
            Span::from_secs(20),
            span_of_seconds(5.0 * 1.5),
            Some(Span::from_secs(25)),
        ),
        Span::from_secs(25)
    );
    assert_eq!(
        seek_target(Span::from_secs(4), None, false),
        Span::from_secs(0)
    );
    assert_eq!(
        seek_target(Span::from_secs(55), Some(Span::from_secs(60)), true),
        Span::from_secs(60)
    );
    // Speeds are counted in quarters.
    assert_eq!(stepped_rate(2, false), 2);
    assert_eq!(stepped_rate(8, true), 8);
    assert_eq!(stepped_rate(4, true), 5);
}

#[test]
fn youtube_stream_prefers_seekable_progressive_mp4() {
    assert_eq!(youtube_stream_format(), "18/bestaudio/best");
}

#[test]
fn sponsor_segments_parse_and_do_not_repeat() {
    let json = format!(
        r#"[{{"title":"ignored","start_time":1,"end_time":2}},{{"title":"{SPONSOR_CHAPTER_TITLE}","start_time":10.5,"end_time":20}}]"#
    );
    let segments = parse_sponsor_segments(&json, read_segment);
    assert_eq!(segments.len(), 1);
    assert_eq!(segments[0].start, span_of_seconds(10.5));
    assert_eq!(
        sponsor_skip_target(&segments, Span::from_secs(15), None),
        Some(segments[0])
    );
    assert_eq!(
        sponsor_skip_target(&segments, Span::from_secs(15), Some(segments[0])),
        None
    );
    assert!(parse_sponsor_segments("invalid", read_segment).is_empty());
}

#[test]
fn sponsor_segments_are_sorted_and_equal_ones_joined() {
    let json = format!(
        r#"[{{"title":"{SPONSOR_CHAPTER_TITLE}","start_time":30,"end_time":40}},
            {{"title":"{SPONSOR_CHAPTER_TITLE}","start_time":10,"end_time":20}},
            {{"title":"{SPONSOR_CHAPTER_TITLE}","start_time":30,"end_time":40}},
            {{"title":"{SPONSOR_CHAPTER_TITLE}","start_time":5,"end_time":5}},
            {{"title":"{SPONSOR_CHAPTER_TITLE}","start_time":-1,"end_time":5}},
            {{"title":"{SPONSOR_CHAPTER_TITLE}","start_time":"1","end_time":5}}]"#
    );
    let segments = parse_sponsor_segments(&json, read_segment);
    assert_eq!(
        segments,
        vec![
            SponsorSegment {
                start: Span::from_secs(10),
                end: Span::from_secs(20),
            },
            SponsorSegment {
                start: Span::from_secs(30),
                end: Span::from_secs(40),
            },
        ]
    );
    assert!(parse_sponsor_segments("{\"title\":1}", read_segment).is_empty());
}

#[test]
fn updater_only_accepts_executable_relative_portable_yt_dlp() {
    let executable = r"C:\Player\music-terminal-player.exe";
    let resolve = |path: &str| path.to_string();
    assert!(is_portable_yt_dlp(
        r"C:\Player\tools\yt-dlp.exe",
        executable,
        resolve
    ));
    assert!(!is_portable_yt_dlp("yt-dlp", executable, resolve));
    assert!(!is_portable_yt_dlp(
        r"C:\Other\yt-dlp.exe",
        executable,
        resolve
    ));
}

#[test]
fn portable_paths_are_compared_without_case_and_separators() {
    let resolve = |path: &str| path.to_string();
    assert!(is_portable_yt_dlp(
        "c:/player/TOOLS/yt-dlp.exe",
        r"C:\Player\music-terminal-player.exe",
        resolve
    ));
    assert!(is_portable_yt_dlp(
        r"C:\tools\yt-dlp.exe",
        r"C:\player.exe",
        resolve
    ));
    assert!(!is_portable_yt_dlp(r"C:\tools\yt-dlp.exe", r"C:\", resolve));
}

#[test]
fn youtube_controls_add_seek_speed_and_sponsor_row() {
    let controls = youtube_playback_controls(&load_language(None, None));
    assert!(controls.iter().any(|row| row.contains("[←/→] seek 10s")));
    assert!(controls.iter().any(|row| row.contains("[,/.] ±0.25x")));
    assert!(controls.iter().any(|row| row.contains("[s] sponsors")));
    assert_eq!(
        controls.last().unwrap(),
        "└────────────────┴────────────────┴────────────────┘"
    );
}

#[test]
fn sponsor_segment_model_rejects_outside_elapsed_time() {
    let segment = SponsorSegment {
        start: Span::from_secs(10),
        end: Span::from_secs(20),
    };
    assert_eq!(
        sponsor_skip_target(&[segment], Span::from_secs(20), None),
        None
    );
}
