use music_terminal_player::language::{
    catalog_request, pack_request, PackDownload, CATALOG_URL,
};
use music_terminal_player::launcher::{
    playlist_source_items, quick_play_items, setup_items, stream_items, youtube_items,
};
use music_terminal_player::sponsor::{SponsorSegment, SPONSOR_CHAPTER_TITLE};
use music_terminal_player::time::Span;
use music_terminal_player::youtube::{
    cache_sponsor_segments, metadata_arguments, sponsor_arguments, stream_arguments, YouTubeTrack,
};

#[test]
fn language_downloads_are_bounded() {
    assert_eq!(
        catalog_request(),
        [
            "--fail",
            "--location",
            "--silent",
            "--show-error",
            "--max-filesize",
            "1048576",
            "--max-time",
            "10",
            CATALOG_URL,
        ]
    );
    let plan = PackDownload {
        url: "https://example.org/vi.lang".to_string(),
        temporary: "vi.lang.download".to_string(),
        destination: "vi.lang".to_string(),
    };
    assert_eq!(
        pack_request(&plan),
        [
            "--fail",
            "--location",
            "--silent",
            "--show-error",
            "--max-filesize",
            "1048576",
            "--max-time",
            "30",
            "--output",
            "vi.lang.download",
            "https://example.org/vi.lang",
        ]
    );
}

#[test]
fn yt_dlp_is_asked_for_metadata_streams_and_segments() {
    assert_eq!(
        metadata_arguments(),
        [
            "--no-warnings",
            "--ignore-errors",
            "--yes-playlist",
            "--flat-playlist",
            "--print",
            "%(webpage_url)s\t%(title)S\t%(duration)s",
        ]
    );
    assert_eq!(
        stream_arguments("https://youtu.be/abc"),
        [
            "--no-warnings",
            "--no-playlist",
            "--format",
            "18/bestaudio/best",
            "--get-url",
            "https://youtu.be/abc",
        ]
    );
    assert_eq!(
        sponsor_arguments("sponsor,intro", "https://youtu.be/abc"),
        [
            "--no-warnings",
            "--no-playlist",
            "--skip-download",
            "--sponsorblock-mark",
            "sponsor,intro",
            "--sponsorblock-chapter-title",
            SPONSOR_CHAPTER_TITLE,
            "--print",
            "%(chapters)j",
            "https://youtu.be/abc",
        ]
    );
}

#[test]
fn segments_are_kept_once_they_are_known() {
    let mut track = YouTubeTrack {
        title: "Title".to_string(),
        webpage_url: "https://youtu.be/abc".to_string(),
        duration: None,
        sponsor_segments: None,
    };
    let segment = SponsorSegment {
        start: Span::from_secs(1),
        end: Span::from_secs(2),
    };
    cache_sponsor_segments(&mut track, vec![segment]);
    assert_eq!(track.sponsor_segments, Some(vec![segment]));
    cache_sponsor_segments(&mut track, Vec::new());
    assert_eq!(track.sponsor_segments, Some(vec![segment]));
}

#[test]
fn menus_list_their_rows() {
    assert_eq!(
        quick_play_items(),
        [
            "▶  Shuffle Telegram library",
            "♫  Shuffle Local library",
            "←  Back"
        ]
    );
    assert_eq!(
        stream_items(),
        [
            "Play in order",
            "Shuffle",
            "Search and choose a track",
            "Search and choose multiple tracks",
            "Back"
        ]
    );
    assert_eq!(
        playlist_source_items(),
        ["☁  Telegram channel", "♫  Local folder"]
    );
    assert_eq!(
        youtube_items(),
        [
            "▶  Play YouTube URL or playlist",
            "⚙  YouTube tools and updater",
            "⚙  SponsorBlock categories",
            "←  Back"
        ]
    );
    assert_eq!(
        setup_items(),
        [
            "↓  Download portable yt-dlp and FFmpeg",
            "⌕  Use existing yt-dlp and FFmpeg installations",
            "←  Back"
        ]
    );
}
