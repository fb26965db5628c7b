use music_terminal_player::catalog::{
    cached_file_name, channel_catalog, is_audio_document, parse_catalog, prepare_catalog,
    streamed_channel, CatalogFile, ChannelScan, MessageMedia, TelegramCatalogEntry,
};
use music_terminal_player::channel::{
    channel_address, channel_storage_key, choose_catalog_path, is_readable_identity,
    normalize_channel, normalize_channel_identity, parse_private_channel, private_channel_entry,
    private_channel_identity, private_invite_hash, safe_file_name, saved_flags,
    sort_private_channels, telegram_catalog_path, telegram_channel_label, CatalogPath,
    ChannelAddress, ChannelPeer,
};
use music_terminal_player::library::{
    all_channel_tracks, migration_target, volume_setting, SavedLibrary,
};
use music_terminal_player::local::{
    available_tracks, collect_library_tracks, collect_tracks, play_path, PathKind,
};
use music_terminal_player::playlist::{
    choose_playlist, clean_playlist_name, create_playlist, edit_local_playlist, edit_playlist,
    edit_telegram_playlist, empty_playlist, parse_playlists, playlist_choices, playlist_label,
    rename_playlist, selected_ids, serialize_playlists, Playlist, PlaylistSource,
};

fn texts(list: &[&str]) -> Vec<String> {
    list.iter().map(|text| text.to_string()).collect()
}

fn entry(channel: &str, message_id: i32, name: &str) -> TelegramCatalogEntry {
    TelegramCatalogEntry {
        channel: channel.to_string(),
        message_id,
        name: name.to_string(),
    }
}

fn peer(dialog_id: i64) -> ChannelPeer {
    ChannelPeer {
        dialog_id,
        access_hash: -5,
    }
}

#[test]
fn channel_names_come_from_names_and_addresses() {
    assert_eq!(normalize_channel("  t.me/@name//  "), "name");
    assert_eq!(normalize_channel(""), "");
    assert_eq!(normalize_channel_identity(" private:1:2:ff "), "private:1:2:ff");
    assert_eq!(normalize_channel_identity("@name"), "name");
}

#[test]
fn private_identities_hold_peer_and_title() {
    for title in ["", "plain", "音楽 ♫", "a:b:c"] {
        for id in [1, -1, -1_000_000_000_001, -2_002_147_483_649] {
            let identity = private_channel_identity(peer(id), title);
            assert!(is_readable_identity(&identity));
            let (found, label) = parse_private_channel(&identity).unwrap();
            assert_eq!(found, peer(id));
            assert_eq!(label, title);
        }
    }
    assert_eq!(
        private_channel_identity(peer(-1_000_000_000_001), "Aé"),
        "private:-1000000000001:-5:41c3a9"
    );
}

#[test]
fn broken_private_identities_are_refused() {
    for identity in [
        "channel",
        "private:",
        "private:x:1:41",
        "private:0:1:41",
        "private:-1000000000000:1:41",
        "private:1:x:41",
        "private:1:1",
        "private:1:1:4",
        "private:1:1:4g",
        "private:1:1:ff",
        "private:1:1:é",
    ] {
        assert!(is_readable_identity(identity));
        assert!(parse_private_channel(identity).is_none());
    }
    assert!(parse_private_channel("private:1:1:+a").is_some());
    assert!(!is_readable_identity("private:1:1:aé0"));
    assert!(!is_readable_identity("private:1:1:😀"));
    assert!(is_readable_identity("private:1:1:aé"));
}

#[test]
fn labels_and_storage_keys_of_channels() {
    let group = private_channel_identity(peer(-77), "Group");
    let channel = private_channel_identity(peer(-1_000_000_000_042), "Channel");
    let user = private_channel_identity(peer(9), "User");
    assert_eq!(channel_storage_key(&group), "private-77");
    assert_eq!(channel_storage_key(&channel), "private-42");
    assert_eq!(channel_storage_key(&user), "private-9");
    assert_eq!(channel_storage_key("https://t.me/na:me"), "na_me");
    assert_eq!(telegram_channel_label("@name"), "@name");
    assert_eq!(telegram_channel_label("private:broken"), "@private:broken");
    assert_eq!(
        telegram_catalog_path("name"),
        ".music-terminal/catalogs/name.tracks.txt"
    );
    assert_eq!(
        channel_address(&channel),
        Ok(ChannelAddress::Peer(peer(-1_000_000_000_042)))
    );
    assert_eq!(
        channel_address("@name"),
        Ok(ChannelAddress::UserName("name".to_string()))
    );
    assert_eq!(
        channel_address("private:broken"),
        Err("invalid saved private channel; forget it and add it again".to_string())
    );
}

#[test]
fn catalogs_of_earlier_versions_move() {
    let channel = private_channel_identity(peer(-1_000_000_000_042), "Channel");
    let current = ".music-terminal/catalogs/private-42.tracks.txt".to_string();
    let legacy = ".music-terminal/catalogs/private--1000000000042.tracks.txt".to_string();
    assert_eq!(
        choose_catalog_path(&channel, true, true),
        CatalogPath::Use(current.clone())
    );
    assert_eq!(
        choose_catalog_path(&channel, false, false),
        CatalogPath::Use(current.clone())
    );
    assert_eq!(
        choose_catalog_path(&channel, false, true),
        CatalogPath::Migrate {
            from: legacy,
            to: current
        }
    );
    assert_eq!(
        choose_catalog_path("name", false, true),
        CatalogPath::Use(".music-terminal/catalogs/name.tracks.txt".to_string())
    );
    assert_eq!(
        migration_target(".telegram.session-wal").as_deref(),
        Some(".music-terminal/telegram.session-wal")
    );
    assert_eq!(
        migration_target(".telegram-name.tracks.txt").as_deref(),
        Some(".music-terminal/catalogs/name.tracks.txt")
    );
    assert_eq!(migration_target("other"), None);
}

#[test]
fn invite_links_have_one_hash() {
    assert_eq!(
        private_invite_hash(" http://t.me/+x/ ").as_deref(),
        Some("x")
    );
    assert_eq!(
        private_invite_hash("https://telegram.me/joinchat/x").as_deref(),
        Some("x")
    );
    assert_eq!(private_invite_hash("https://t.me/+"), None);
    assert_eq!(private_invite_hash("https://t.me/+a/b"), None);
    assert_eq!(private_invite_hash("t.me/+a"), None);
}

#[test]
fn scanned_private_channels_are_sorted_and_marked() {
    assert!(private_channel_entry("Public", true, peer(-1_000_000_000_001)).is_none());
    assert!(private_channel_entry("Nobody", false, peer(0)).is_none());
    let found = vec![
        private_channel_entry("beta", false, peer(-1_000_000_000_002)).unwrap(),
        private_channel_entry("Alpha", false, peer(-1_000_000_000_001)).unwrap(),
        private_channel_entry("ALPHA", false, peer(-1_000_000_000_003)).unwrap(),
    ];
    let sorted = sort_private_channels(&found);
    let ids: Vec<i64> = sorted.iter().map(|channel| channel.1).collect();
    assert_eq!(ids, vec![1, 3, 2]);
    let saved = [
        private_channel_identity(peer(-1_000_000_000_002), "old title"),
        "public".to_string(),
    ];
    assert_eq!(saved_flags(&sorted, &saved), vec![false, false, true]);
}

#[test]
fn file_names_are_safe() {
    assert_eq!(safe_file_name("  .a\u{7}b. "), "a_b");
    assert_eq!(safe_file_name(""), "track.bin");
    assert_eq!(cached_file_name(7, "a/b.mp3"), "7-a_b.mp3");
}

#[test]
fn catalog_files_name_the_line_that_is_wrong() {
    assert_eq!(
        parse_catalog("1\ta\nbroken", "c.txt").unwrap_err(),
        "invalid song list entry at c.txt:2"
    );
    assert_eq!(
        parse_catalog("x\ta", "c.txt").unwrap_err(),
        "invalid message ID at c.txt:1: invalid digit found in string"
    );
    assert_eq!(
        parse_catalog("\ta", "c.txt").unwrap_err(),
        "invalid message ID at c.txt:1: cannot parse integer from empty string"
    );
    assert_eq!(
        parse_catalog("1\ta\n2147483648\ta", "c.txt").unwrap_err(),
        "invalid message ID at c.txt:2: number too large to fit in target type"
    );
    assert_eq!(
        parse_catalog("-2147483649\ta", "c.txt").unwrap_err(),
        "invalid message ID at c.txt:1: number too small to fit in target type"
    );
    assert_eq!(parse_catalog("", "c.txt").unwrap(), Vec::new());
    assert_eq!(parse_catalog("-3\ta\tb", "c").unwrap()[0].name, "a\tb");
}

#[test]
fn channel_catalogs_carry_their_channel() {
    let found = channel_catalog("@name", "c", CatalogFile::Text("1\tsong.mp3\n")).unwrap();
    assert_eq!(found, vec![entry("name", 1, "song.mp3")]);
    assert_eq!(
        channel_catalog("@name", "c", CatalogFile::Unreadable("gone")).unwrap_err(),
        "no song list for @name; sync and update the Telegram channel first: failed to read Telegram song list c: gone"
    );
    let streamed = streamed_channel("name", "c", CatalogFile::Text("1\tsong.mp3\n"))
        .ok()
        .unwrap();
    assert_eq!(streamed.title, "Telegram channel: @name\n1 tracks | c");
    assert_eq!(streamed.catalog, vec![entry("name", 1, "song.mp3")]);
    assert_eq!(
        streamed_channel("name", "c", CatalogFile::Text(""))
            .err()
            .unwrap(),
        "song list for @name is empty; run synchronization again"
    );
    assert_eq!(
        streamed_channel("name", "c", CatalogFile::Text("x"))
            .err()
            .unwrap(),
        "no usable song list for @name; run Sync and update Telegram channel first: invalid song list entry at c:1"
    );
}

#[test]
fn playlists_need_a_channel_for_each_song() {
    assert_eq!(
        prepare_catalog("x", &Vec::new()).unwrap_err(),
        "playlist has no songs"
    );
    let songs = vec![entry("", 1, "a"), entry("own", 2, "b")];
    assert_eq!(
        prepare_catalog("", &songs).unwrap_err(),
        "a Telegram playlist track has no source channel"
    );
    assert_eq!(
        prepare_catalog("@list", &songs).unwrap(),
        vec![entry("list", 1, "a"), entry("own", 2, "b")]
    );
}

#[test]
fn scans_list_songs_oldest_first() {
    let mut scan = ChannelScan::new("@name");
    assert_eq!(scan.message(5, MessageMedia::Nothing), None);
    assert_eq!(scan.message(4, MessageMedia::Other), None);
    let named = MessageMedia::Document {
        mime: None,
        name: Some("new.mp3"),
    };
    assert_eq!(scan.message(3, named).as_deref(), Some("new.mp3"));
    let nameless = MessageMedia::Document {
        mime: Some("audio/ogg"),
        name: None,
    };
    assert_eq!(scan.message(2, nameless).as_deref(), Some("telegram-2.bin"));
    let other = MessageMedia::Document {
        mime: Some("video/mp4"),
        name: Some("clip.mp4"),
    };
    assert_eq!(scan.message(1, other), None);
    assert_eq!(scan.message_count, 5);
    assert_eq!(scan.document_count, 3);
    assert_eq!(
        scan.finish("@name").unwrap(),
        vec![
            entry("name", 2, "telegram-2.bin"),
            entry("name", 3, "new.mp3")
        ]
    );
    let mut silent = ChannelScan::new("name");
    silent.message(1, MessageMedia::Other);
    assert_eq!(
        silent.finish("@name").unwrap_err(),
        "no supported audio found in @name: Telegram returned 1 messages and 0 documents; the existing song list was not overwritten"
    );
    assert!(is_audio_document(Some("audio/mpeg"), Some("x.txt")));
    assert!(!is_audio_document(None, None));
}

#[test]
fn local_songs_are_filtered_and_sorted() {
    let files = texts(&["b.MP3", "cover.png", "A.flac", "a.flac"]);
    assert_eq!(
        collect_tracks("d", PathKind::Directory, &files).unwrap(),
        texts(&["A.flac", "a.flac", "b.MP3"])
    );
    assert_eq!(
        collect_tracks("x.mp3", PathKind::File, &Vec::new()).unwrap(),
        texts(&["x.mp3"])
    );
    assert_eq!(
        collect_tracks("x.txt", PathKind::File, &Vec::new()).unwrap(),
        Vec::<String>::new()
    );
    assert_eq!(
        collect_tracks("gone", PathKind::Missing, &Vec::new()).unwrap_err(),
        "path does not exist: gone"
    );
    assert_eq!(
        play_path("d", Vec::new()).unwrap_err(),
        "no supported audio files found in d"
    );
    assert_eq!(play_path("d", texts(&["a"])).unwrap(), texts(&["a"]));
    assert_eq!(
        available_tracks(&texts(&["a.mp3", "b.mp3", "c.txt"]), &vec![true, false, true]).unwrap(),
        texts(&["a.mp3"])
    );
    assert_eq!(
        available_tracks(&texts(&["b.mp3"]), &vec![false]).unwrap_err(),
        "playlist has no available local songs"
    );
    assert_eq!(
        collect_library_tracks(&Vec::new()).unwrap_err(),
        "no saved local folders; add one from Play local folder"
    );
    assert_eq!(
        collect_library_tracks(&vec![Vec::new()]).unwrap_err(),
        "saved local folders contain no supported audio files"
    );
}

#[test]
fn playlist_files_skip_what_they_do_not_know() {
    let parsed = parse_playlists(
        "track\tearly\t1\tx\nplaylist\tMix\t@name\textra\ntrack\tname\tx\tbad\nlocal\ta.mp3\tmore\nnoise\n",
    );
    assert_eq!(parsed.len(), 1);
    assert_eq!(parsed[0].channel, "name");
    assert!(parsed[0].tracks.is_empty());
    assert_eq!(parsed[0].local_tracks, texts(&["a.mp3"]));
    assert_eq!(
        serialize_playlists(&parsed),
        "playlist\tMix\tname\nlocal\ta.mp3\n"
    );
    assert_eq!(clean_playlist_name(" a\tb\r\n"), "a b");
}

#[test]
fn playlists_are_edited_channel_by_channel() {
    let mut playlists: Vec<Playlist> = Vec::new();
    assert!(empty_playlist("  ").is_none());
    let mut mix = empty_playlist(" Mix ").unwrap();
    assert!(!create_playlist(&mut playlists, empty_playlist("None").unwrap()));
    edit_telegram_playlist(&mut mix, "a", vec![entry("a", 1, "one")]);
    edit_telegram_playlist(&mut mix, "b", vec![entry("b", 2, "two")]);
    assert_eq!(mix.channel, "a");
    assert_eq!(selected_ids(&mix, "b"), vec![2]);
    assert_eq!(mix.channel_count(), 2);
    assert!(!mix.is_local());
    assert_eq!(
        playlist_label(&mix),
        "▶  Mix (Telegram, 2 channels, 2 songs)"
    );
    edit_telegram_playlist(&mut mix, "a", Vec::new());
    assert_eq!(mix.channel, "b");
    assert_eq!(mix.song_count(), 1);
    edit_local_playlist(&mut mix, texts(&["x.mp3", "y.mp3"]));
    assert!(mix.is_local());
    assert_eq!(playlist_label(&mix), "▶  Mix (local, 2 songs)");
    assert!(create_playlist(&mut playlists, mix));
    assert!(!rename_playlist(&mut playlists, 0, " "));
    assert!(rename_playlist(&mut playlists, 0, " New "));
    assert_eq!(playlist_choices(&playlists), texts(&["New", "←  Cancel"]));
    assert_eq!(choose_playlist(1, Some(0)), Some(0));
    assert_eq!(choose_playlist(1, Some(1)), None);
    assert_eq!(edit_playlist(Some(0)), Some(PlaylistSource::Telegram));
    assert_eq!(edit_playlist(Some(1)), Some(PlaylistSource::Local));
    assert_eq!(edit_playlist(None), None);
}

#[test]
fn libraries_are_saved_and_read_back() {
    let mut library = SavedLibrary::new();
    assert!(library.channel_synced("name", true));
    assert!(!library.channel_synced("name", true));
    assert!(!library.channel_synced("other", false));
    assert!(library.add_folder(r"C:\Music"));
    assert!(!library.add_folder(r"C:\Music"));
    let text = library.serialize();
    assert_eq!(text, "channel\tname\nfolder\tC:\\Music\n");
    assert_eq!(SavedLibrary::parse(&text), library);
    assert_eq!(library.all_targets(), vec![("name".to_string(), false)]);
    assert_eq!(
        library.sync_targets(texts(&["name", "new"])),
        vec![("name".to_string(), false), ("new".to_string(), true)]
    );
    assert_eq!(
        library.public_target("https://t.me/new/"),
        Some(("new".to_string(), true))
    );
    assert_eq!(library.public_target(" / "), None);
    assert!(!library.forget_folder(Some(1)));
    assert!(!library.forget_folder(None));
    assert!(library.forget_folder(Some(0)));
    assert!(library.folders.is_empty());
    assert_eq!(
        all_channel_tracks(&Vec::new()).unwrap_err(),
        "no synchronized Telegram channels; add one from Sync and update Telegram channel"
    );
    assert_eq!(
        all_channel_tracks(&vec![Vec::new()]).unwrap_err(),
        "synchronized Telegram channels contain no tracks"
    );
    assert_eq!(
        all_channel_tracks(&vec![
            vec![entry("a", 1, "x")],
            vec![entry("b", 1, "y")]
        ])
        .unwrap()
        .len(),
        2
    );
}

#[test]
fn the_first_volume_setting_counts() {
    assert_eq!(
        volume_setting("x\nvolume=1.25\nvolume=2\n").as_deref(),
        Some("1.25")
    );
    assert_eq!(volume_setting("invalid\n"), None);
}
