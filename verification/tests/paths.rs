use music_terminal_player::catalog::{
    is_opus_path, is_supported_audio_path, telegram_format_hint,
};
use music_terminal_player::library::SavedLibrary;
use music_terminal_player::local::{collect_library_tracks, track_numbers};
use music_terminal_player::paths::{file_name, is_same_path};
use music_terminal_player::youtube::parent_directory;

#[test]
fn shares_devices_and_verbatim_names_are_no_files() {
    for path in [
        r"\\server\share.mp3",
        r"//server/share.mp3",
        r"\\?\name.mp3",
        r"\\.\name.mp3",
        r"//./name.mp3",
        r"\\?\UNC\server\share.mp3",
        r"\\?\UNC\server.mp3",
        r"C:",
        r"\\?\C:",
        r"\\?\C:\song.mp3\.",
    ] {
        assert!(!is_supported_audio_path(path), "{path}");
        assert_eq!(file_name(path), None, "{path}");
    }
    assert!(!is_opus_path(r"\\server\share.opus"));
    assert_eq!(telegram_format_hint(r"\\server\share.m4a"), None);
}

#[test]
fn files_behind_a_prefix_keep_their_names() {
    for path in [
        r"\\server\share\song.mp3",
        r"//server/share/song.mp3",
        r"\\?\UNC\server\share\song.mp3",
        r"\\?\name\song.mp3",
        r"\\.\name\song.mp3",
        r"\\?\C:\song.mp3",
        r"C:\music\song.mp3",
        r"C:song.mp3",
        r"\song.mp3",
        r"music/song.mp3/./",
    ] {
        assert!(is_supported_audio_path(path), "{path}");
        assert_eq!(file_name(path).as_deref(), Some("song.mp3"), "{path}");
    }
    // A server without a share is a name, and a slash is none in a verbatim path.
    assert_eq!(file_name(r"\\server.mp3").as_deref(), Some("server.mp3"));
    assert_eq!(file_name(r"\\\server\share").as_deref(), Some("share"));
    assert_eq!(file_name(r"\\?\C:\a/b.mp3").as_deref(), Some("a/b.mp3"));
    assert_eq!(file_name(r"\\?\C:/b.mp3").as_deref(), Some("b.mp3"));
    assert_eq!(file_name(r"//?/C:/b.mp3").as_deref(), Some("b.mp3"));
    assert_eq!(file_name(r"\\server/share.mp3/.\"), None);
}

#[test]
fn directories_end_at_the_prefix() {
    assert_eq!(
        parent_directory(r"C:\Player\player.exe").as_deref(),
        Some(r"C:\Player")
    );
    assert_eq!(
        parent_directory(r"C:\Player\.\player.exe").as_deref(),
        Some(r"C:\Player")
    );
    assert_eq!(parent_directory(r"C:\player.exe").as_deref(), Some(r"C:\"));
    assert_eq!(parent_directory(r"C:player.exe").as_deref(), Some("C:"));
    assert_eq!(parent_directory("player.exe").as_deref(), Some(""));
    assert_eq!(
        parent_directory(r"\\server\share\player.exe").as_deref(),
        Some(r"\\server\share\")
    );
    assert_eq!(parent_directory(r"\\server\share"), None);
    assert_eq!(parent_directory(r"C:\"), None);
    assert_eq!(parent_directory(""), None);
    assert_eq!(parent_directory("./a").as_deref(), Some("."));
    assert_eq!(parent_directory(r"\."), None);
    assert_eq!(parent_directory("C:."), None);
    assert_eq!(parent_directory("C:./a").as_deref(), Some("C:."));
    assert_eq!(parent_directory(".").as_deref(), Some(""));
}

#[test]
fn paths_are_the_same_by_their_names() {
    for (a, b) in [
        ("music/a.mp3", "music/./a.mp3"),
        ("music/a.mp3", r"music\a.mp3"),
        ("music/a.mp3", "music//a.mp3/"),
        (r"C:\music\a.mp3", "c:/music/a.mp3"),
        ("C:a", "C:./a"),
        (r"\\server\share", r"//server/share/"),
        (r"\\.\COM1", r"\\.\COM1\"),
        (r"\\?\C:\a", r"\\?\c:\a"),
        ("./a", "././a"),
        ("", ""),
    ] {
        assert!(is_same_path(a, b), "{a} {b}");
        assert!(is_same_path(b, a), "{b} {a}");
    }
    for (a, b) in [
        ("music/a.mp3", "music/A.mp3"),
        ("a", "./a"),
        ("a", "/a"),
        ("a", "b/../a"),
        (r"C:\a", r"\\?\C:\a"),
        (r"C:\a", "C:a"),
        (r"\\?\C:\a\b", r"\\?\C:\a/b"),
        (r"\\?\C:\a", r"\\?\C:\.\a"),
        (r"\\server\share", r"\\Server\share"),
        (r"\\?\UNC\server\share\a", r"\\server\share\a"),
        ("", "."),
    ] {
        assert!(!is_same_path(a, b), "{a} {b}");
    }
}

#[test]
fn folders_and_songs_are_compared_as_paths() {
    let list = |paths: &[&str]| -> Vec<String> {
        paths.iter().map(|path| path.to_string()).collect()
    };
    assert_eq!(
        collect_library_tracks(&vec![
            list(&["music/a.mp3", "music/b.mp3"]),
            list(&["music/./a.mp3", r"music\b.mp3", "music/c.mp3"]),
        ]),
        Ok(list(&["music/a.mp3", "music/b.mp3", "music/c.mp3"]))
    );
    let mut library = SavedLibrary::new();
    assert!(library.add_folder(r"C:\music"));
    assert!(!library.add_folder("c:/music/"));
    assert!(library.add_folder(r"C:\Music"));
    assert_eq!(library.folders, list(&[r"C:\music", r"C:\Music"]));
    assert_eq!(track_numbers(&list(&["a", "b", "a/"])), vec![0, 1, 0]);
}
