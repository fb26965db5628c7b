use music_terminal_player::command::{parse_command_line, usage_lines, Command};
use music_terminal_player::download::{
    delete_step, is_cached, lock_error, retryable_download_error, seek_position, DeleteOutcome,
    DeleteStep, DownloadPlan, ReadPlan, RequestError, SeekTo, SharedDownload,
};
use music_terminal_player::keys::{Key, KeyPress, MediaCommand};
use music_terminal_player::language::load_language;
use music_terminal_player::launcher::{
    check_stream, choose_channel_to_sync, choose_local_folder, folder_items, forget_folder_items,
    launch_items, launch_menu, launch_title, manage_playlists, next_screen, plan_start,
    play_youtube, playlist_items, quick_play_menu, saved_channel_items, setup_menu, stream_menu,
    sync_items, sync_result, sync_title, tools_menu, FolderAction, LaunchAction, PlaylistAction,
    QuickPlay, Screen, ScreenEvent, SetupAction, StreamAction, SyncAction, ToolsAction,
    YouTubeAction,
};
use music_terminal_player::login::{
    credentials_text, environment_credentials, is_answer, saved_credentials,
    telegram_login_status, typed_api_id, typed_credentials, Credentials, Login, LoginState,
    SignInReply,
};
use music_terminal_player::player::{
    queue_reopens, Player, PlayerAction, PlayerExit, PlayerSource,
};
use music_terminal_player::player_view::{
    local_player_rows, telegram_player_rows, youtube_player_rows, TrackView,
};
use music_terminal_player::queue::{shuffle_with_seed, LoopMode};
use music_terminal_player::queue_view::{song_keys, QueueEdit, QueueStep};
use music_terminal_player::sponsor::{
    default_sponsor_settings, parse_sponsor_settings, requested_categories,
    serialize_sponsor_settings, sponsor_menu, toggle_category, SponsorSegment,
};
use music_terminal_player::time::Span;
use music_terminal_player::youtube::{
    existing_tools, ffmpeg_arguments, format_rate, parse_youtube_urls, resolved_audio_url,
    resolved_tracks, tool_version, tools_title,
};

fn texts(list: &[&str]) -> Vec<String> {
    list.iter().map(|text| text.to_string()).collect()
}

fn player(source: PlayerSource, count: u64) -> Player {
    let tracks: Vec<u64> = (0..count).collect();
    Player::new(source, tracks.clone(), tracks, 0, false, 0)
}

fn press(player: &mut Player, key: Key) -> PlayerAction {
    player.key(KeyPress::plain(key), Span::from_secs(30), None)
}

fn type_char(player: &mut Player, c: char) -> PlayerAction {
    press(player, Key::Char(c))
}

#[test]
fn players_go_forward_and_stop_behind_the_last_track() {
    let mut player = player(PlayerSource::Local, 2);
    assert_eq!(type_char(&mut player, 'n'), PlayerAction::Start);
    assert_eq!(player.index, 1);
    assert_eq!(
        player.track_finished(),
        PlayerAction::Exit(PlayerExit::Back)
    );
    assert_eq!(type_char(&mut player, 'l'), PlayerAction::Stay);
    assert_eq!(player.loop_mode, LoopMode::All);
    assert_eq!(player.track_finished(), PlayerAction::Start);
    assert_eq!(player.index, 0);
    type_char(&mut player, 'l');
    assert_eq!(player.track_finished(), PlayerAction::Start);
    assert_eq!(player.index, 0);
    assert_eq!(player.media(MediaCommand::Next), PlayerAction::Start);
    assert_eq!(player.index, 1);
}

#[test]
fn replays_come_back_to_where_they_started() {
    let mut player = player(PlayerSource::Telegram, 5);
    for _ in 0..3 {
        type_char(&mut player, 'n');
    }
    assert_eq!(type_char(&mut player, 'v'), PlayerAction::Start);
    assert_eq!(player.media(MediaCommand::Previous), PlayerAction::Start);
    assert_eq!(player.index, 1);
    assert_eq!(player.track_finished(), PlayerAction::Start);
    assert_eq!(player.index, 3);
    type_char(&mut player, 'n');
    assert_eq!(player.index, 4);
}

#[test]
fn player_keys_change_volume_pause_and_leave() {
    let mut local = player(PlayerSource::Local, 1);
    assert_eq!(press(&mut local, Key::Up), PlayerAction::Volume(10));
    assert_eq!(type_char(&mut local, '-'), PlayerAction::Volume(-10));
    assert_eq!(press(&mut local, Key::Right), PlayerAction::Volume(1));
    assert_eq!(press(&mut local, Key::Left), PlayerAction::Volume(-1));
    assert_eq!(type_char(&mut local, ' '), PlayerAction::SetPaused(true));
    assert_eq!(type_char(&mut local, 'p'), PlayerAction::SetPaused(false));
    assert_eq!(local.media(MediaCommand::Pause), PlayerAction::SetPaused(true));
    assert_eq!(local.media(MediaCommand::Play), PlayerAction::SetPaused(false));
    assert_eq!(type_char(&mut local, 's'), PlayerAction::Stay);
    assert_eq!(type_char(&mut local, 'a'), PlayerAction::Stay);
    assert_eq!(type_char(&mut local, '.'), PlayerAction::Stay);
    assert_eq!(type_char(&mut local, 'u'), PlayerAction::OpenQueue);
    assert_eq!(
        press(&mut local, Key::Esc),
        PlayerAction::Exit(PlayerExit::Back)
    );
    assert_eq!(
        type_char(&mut local, 'b'),
        PlayerAction::Exit(PlayerExit::Back)
    );
    assert_eq!(
        type_char(&mut local, 'q'),
        PlayerAction::Exit(PlayerExit::Quit)
    );
    assert_eq!(
        local.key(
            KeyPress::with_control(Key::Char('c')),
            Span::from_secs(0),
            None
        ),
        PlayerAction::Exit(PlayerExit::Quit)
    );
}

#[test]
fn youtube_keys_seek_and_change_the_speed() {
    let mut youtube = player(PlayerSource::YouTube, 1);
    assert_eq!(
        youtube.key(
            KeyPress::plain(Key::Right),
            Span::from_secs(30),
            Some(Span::from_secs(35))
        ),
        PlayerAction::MoveTo(Span::from_secs(35))
    );
    assert_eq!(
        press(&mut youtube, Key::Left),
        PlayerAction::MoveTo(Span::from_secs(20))
    );
    assert_eq!(
        type_char(&mut youtube, '.'),
        PlayerAction::MoveTo(Span::from_secs(30))
    );
    assert_eq!(youtube.rate, 5);
    for _ in 0..3 {
        type_char(&mut youtube, ',');
    }
    assert_eq!(youtube.rate, 2);
    assert_eq!(type_char(&mut youtube, ','), PlayerAction::Stay);
    assert_eq!(type_char(&mut youtube, 'a'), PlayerAction::AddTracks);
    type_char(&mut youtube, 's');
    assert!(!youtube.sponsor);
}

#[test]
fn segments_are_skipped_once() {
    let mut youtube = player(PlayerSource::YouTube, 2);
    let segment = SponsorSegment {
        start: Span::from_secs(10),
        end: Span::from_secs(20),
    };
    assert_eq!(
        youtube.skip_segment(Span::from_secs(12), &[segment]),
        PlayerAction::MoveTo(Span::from_secs(20))
    );
    assert_eq!(
        youtube.skip_segment(Span::from_secs(12), &[segment]),
        PlayerAction::Stay
    );
    type_char(&mut youtube, 'n');
    assert_eq!(
        youtube.skip_segment(Span::from_secs(12), &[segment]),
        PlayerAction::MoveTo(Span::from_secs(20))
    );
    type_char(&mut youtube, 's');
    press(&mut youtube, Key::Left);
    assert_eq!(
        youtube.skip_segment(Span::from_secs(12), &[segment]),
        PlayerAction::Stay
    );
}

#[test]
fn lost_outputs_end_local_players_and_suspend_youtube() {
    let mut local = player(PlayerSource::Local, 1);
    assert_eq!(
        local.output_lost(Span::from_secs(5)),
        PlayerAction::Fail
    );
    let mut telegram = player(PlayerSource::Telegram, 1);
    assert_eq!(
        telegram.output_lost(Span::from_secs(5)),
        PlayerAction::Fail
    );
    let mut youtube = player(PlayerSource::YouTube, 3);
    assert_eq!(youtube.output_ready(), PlayerAction::Stay);
    type_char(&mut youtube, 'p');
    assert_eq!(
        youtube.output_lost(Span::from_secs(5)),
        PlayerAction::Wait
    );
    assert_eq!(press(&mut youtube, Key::Right), PlayerAction::Stay);
    assert_eq!(
        youtube.output_ready(),
        PlayerAction::MoveTo(Span::from_secs(5))
    );
    assert!(youtube.paused);
    youtube.output_lost(Span::from_secs(7));
    assert_eq!(type_char(&mut youtube, 'n'), PlayerAction::Stay);
    assert_eq!(
        youtube.output_ready(),
        PlayerAction::MoveTo(Span::from_secs(0))
    );
    assert_eq!(youtube.index, 1);
}

#[test]
fn shuffle_moves_only_the_rest_and_comes_back() {
    let mut player = player(PlayerSource::Local, 30);
    type_char(&mut player, 'n');
    player.queue_tracks(vec![7, 9], false);
    let before = player.tracks.clone();
    type_char(&mut player, 'r');
    assert!(player.shuffle);
    assert_eq!(player.tracks[..4], before[..4]);
    let mut sorted = player.tracks.clone();
    sorted.sort_unstable();
    let mut expected = before.clone();
    expected.sort_unstable();
    assert_eq!(sorted, expected);
    type_char(&mut player, 'r');
    assert_eq!(player.tracks, before);
    let mut items = vec![0, 1, 2, 3, 4, 5, 6, 7];
    shuffle_with_seed(&mut items, 1);
    let first = items.clone();
    let mut again = vec![0, 1, 2, 3, 4, 5, 6, 7];
    shuffle_with_seed(&mut again, 1);
    assert_eq!(first, again);
    assert_ne!(first, vec![0, 1, 2, 3, 4, 5, 6, 7]);
}

#[test]
fn a_new_pass_restores_the_order() {
    let mut player = Player::new(
        PlayerSource::Local,
        vec![2, 0, 1],
        vec![0, 1, 2],
        2,
        false,
        0,
    );
    type_char(&mut player, 'l');
    assert_eq!(player.track_finished(), PlayerAction::Start);
    assert_eq!(player.tracks, vec![0, 1, 2]);
    assert_eq!(player.index, 0);
    let shuffled = Player::new(
        PlayerSource::Local,
        (0..20).collect(),
        (0..20).collect(),
        5,
        true,
        0,
    );
    assert_eq!(shuffled.index, 0);
    let mut tracks = shuffled.tracks.clone();
    tracks.sort_unstable();
    assert_eq!(tracks, (0..20).collect::<Vec<u64>>());
}

#[test]
fn added_tracks_play_next() {
    let mut youtube = player(PlayerSource::YouTube, 3);
    type_char(&mut youtube, 'r');
    youtube.add_tracks(vec![10, 11]);
    assert!(!youtube.shuffle);
    assert_eq!(youtube.original, vec![0, 1, 2, 10, 11]);
    assert_eq!(youtube.tracks[..3], [0, 10, 11]);
    assert_eq!(youtube.play_next, 2);
    type_char(&mut youtube, 'n');
    assert_eq!(youtube.tracks[youtube.index], 10);
    assert_eq!(youtube.play_next, 1);
    youtube.add_tracks(Vec::new());
    assert_eq!(youtube.play_next, 1);
}

#[test]
fn queues_are_edited_with_keys() {
    let mut player = player(PlayerSource::Local, 4);
    player.queue_tracks(vec![3, 9], false);
    let mut editor = player.open_queue();
    let mut key = |player: &mut Player, key: Key| player.queue_key(&mut editor, KeyPress::plain(key));
    assert_eq!(key(&mut player, Key::Down), QueueStep::Stay);
    assert_eq!(key(&mut player, Key::Delete), QueueStep::Stay);
    assert_eq!(player.tracks, vec![0, 9, 1, 2, 3]);
    assert_eq!(key(&mut player, Key::Delete), QueueStep::Stay);
    assert_eq!(player.tracks, vec![0, 1, 2, 3, 9]);
    assert_eq!(player.play_next, 0);
    assert_eq!(key(&mut player, Key::Delete), QueueStep::Stay);
    assert_eq!(player.tracks, vec![0, 1, 2, 3, 9]);
    assert_eq!(key(&mut player, Key::Char('a')), QueueStep::Add);
    assert_eq!(key(&mut player, Key::Up), QueueStep::Stay);
    assert_eq!(key(&mut player, Key::Up), QueueStep::Stay);
    let edit = QueueEdit {
        index: 4,
        restart: true,
        finished: false,
    };
    assert_eq!(key(&mut player, Key::Enter), QueueStep::Close(edit));
    assert_eq!(player.queue_closed(edit), PlayerAction::Start);
    assert_eq!(player.index, 4);
    let editor = player.open_queue();
    assert_eq!(editor.idle(4, false), QueueStep::Stay);
    let ended = QueueEdit {
        index: 4,
        restart: false,
        finished: true,
    };
    assert_eq!(editor.idle(4, true), QueueStep::Close(ended));
    assert_eq!(
        player.queue_closed(ended),
        PlayerAction::Exit(PlayerExit::Back)
    );
    assert_eq!(song_keys(&vec!["a", "b", "a"]), vec![0, 1, 0]);
}

#[test]
fn queue_stays_open_while_tracks_follow() {
    let mut local = player(PlayerSource::Local, 2);
    let editor = local.open_queue();
    let QueueStep::Close(ended) = editor.idle(local.index, true) else {
        panic!("the queue closes for a moment");
    };
    let action = local.queue_closed(ended);
    assert_eq!(action, PlayerAction::Start);
    assert!(queue_reopens(ended, action));
    let ended = QueueEdit {
        index: 1,
        restart: false,
        finished: true,
    };
    let action = local.queue_closed(ended);
    assert!(!queue_reopens(ended, action));
    let left = QueueEdit {
        index: 1,
        restart: false,
        finished: false,
    };
    assert!(!queue_reopens(left, PlayerAction::Stay));
}

#[test]
fn caches_are_deleted_in_five_attempts() {
    for attempt in 0..4 {
        assert_eq!(
            delete_step(attempt, DeleteOutcome::Failed),
            DeleteStep::Retry
        );
    }
    assert_eq!(delete_step(4, DeleteOutcome::Failed), DeleteStep::GiveUp);
    assert_eq!(delete_step(0, DeleteOutcome::NotFound), DeleteStep::Done);
    assert_eq!(delete_step(4, DeleteOutcome::Deleted), DeleteStep::Done);
}

#[test]
fn shuffle_during_a_replay_keeps_what_was_played() {
    let mut player = Player::new(PlayerSource::Local, vec![1, 3, 2], vec![1, 2, 3], 2, false, 0);
    player.shuffle = true;
    for key in ['v', 'v', 'r'] {
        type_char(&mut player, key);
    }
    assert_eq!(player.tracks, vec![1, 3, 2]);
    assert_eq!(player.progress(), 2);
    type_char(&mut player, 'n');
    assert_eq!(player.tracks[player.index], 2);
}

#[test]
fn queueing_during_a_replay_keeps_progress() {
    let mut local = player(PlayerSource::Local, 5);
    local.index = 3;
    type_char(&mut local, 'v');
    type_char(&mut local, 'v');
    assert_eq!((local.index, local.progress()), (1, 3));
    local.queue_tracks(vec![9], false);
    assert_eq!(local.tracks, vec![0, 1, 2, 3, 9, 4]);
    let mut played = Vec::new();
    for _ in 0..3 {
        type_char(&mut local, 'n');
        played.push(local.tracks[local.index]);
    }
    assert_eq!(played, vec![3, 9, 4]);
    assert_eq!(
        local.track_finished(),
        PlayerAction::Exit(PlayerExit::Back)
    );
}

#[test]
fn unqueueing_during_a_replay_keeps_progress() {
    let mut local = player(PlayerSource::Local, 4);
    local.index = 2;
    local.queue_tracks(vec![8, 9], false);
    type_char(&mut local, 'v');
    let mut editor = local.open_queue();
    assert_eq!(editor.selected(local.progress()), None);
    local.queue_key(&mut editor, KeyPress::plain(Key::Down));
    assert_eq!(editor.selected(local.progress()), Some(3));
    local.queue_key(&mut editor, KeyPress::plain(Key::Delete));
    assert_eq!(local.tracks, vec![0, 1, 2, 9, 3, 8]);
    assert_eq!((local.index, local.progress(), local.play_next), (1, 2, 1));
    type_char(&mut local, 'n');
    type_char(&mut local, 'n');
    assert_eq!(local.tracks[local.index], 9);
}

#[test]
fn a_replay_behind_progress_stays_the_current_track() {
    let mut local = player(PlayerSource::Local, 4);
    type_char(&mut local, 'v');
    assert_eq!((local.index, local.progress()), (3, 0));
    type_char(&mut local, 'r');
    assert_eq!((local.tracks[0], local.tracks[3]), (0, 3));
    type_char(&mut local, 'r');
    assert_eq!(local.tracks, vec![0, 1, 2, 3]);
    local.queue_tracks(vec![7, 8], false);
    assert_eq!(local.tracks, vec![0, 7, 8, 1, 2, 3]);
    assert_eq!(local.tracks[local.index], 3);
    let mut editor = local.open_queue();
    local.queue_key(&mut editor, KeyPress::plain(Key::Down));
    local.queue_key(&mut editor, KeyPress::plain(Key::Delete));
    assert_eq!(local.tracks, vec![0, 8, 1, 2, 3, 7]);
    assert_eq!(local.tracks[local.index], 3);
}

#[test]
fn a_pass_starts_every_entry_once() {
    let mut local = player(PlayerSource::Local, 5);
    let mut reached = vec![local.tracks[local.progress()]];
    let mut last = local.progress();
    for key in "nvvnrvnnvrnnnn".chars() {
        if local.progress() + 1 == local.tracks.len() && local.resume.is_none() && key == 'n' {
            break;
        }
        type_char(&mut local, key);
        if local.progress() != last {
            last = local.progress();
            reached.push(local.tracks[last]);
        }
    }
    assert_eq!(reached, local.tracks);
    reached.sort();
    assert_eq!(reached, vec![0, 1, 2, 3, 4]);
}

#[test]
fn downloads_give_what_has_come_in() {
    let mut download = SharedDownload::new(Some(1_500_000));
    assert_eq!(download.plan_read(0, 0), ReadPlan::End);
    assert_eq!(download.plan_read(0, 10), ReadPlan::Wait);
    assert!(download.buffering);
    assert_eq!(download.next_request(), DownloadPlan::Request(0));
    download.chunk_stored(524_288);
    assert_eq!(download.is_ready(), Ok(false));
    download.chunk_stored(524_288);
    assert_eq!(download.is_ready(), Ok(true));
    assert_eq!(download.next_request(), DownloadPlan::Request(2));
    assert_eq!(download.plan_read(1_048_570, 10), ReadPlan::Read(6));
    assert_eq!(download.plan_read(0, 10), ReadPlan::Read(10));
    assert!(!download.buffering);
    assert_eq!(download.playback_word(true), "paused");
    download.reconnect();
    assert_eq!(download.playback_word(false), "reconnecting");
    download.finish();
    assert_eq!(download.total, Some(1_500_000));
    assert_eq!(download.plan_read(1_048_576, 10), ReadPlan::End);
    assert_eq!(download.playback_word(false), "playing");
    download.fail("gone".to_string());
    assert_eq!(
        download.plan_read(0, 1),
        ReadPlan::Fail("gone".to_string())
    );
    assert_eq!(
        download.is_ready(),
        Err("Telegram download failed: gone".to_string())
    );
    let mut cancelled = SharedDownload::new(None);
    cancelled.cancel();
    assert_eq!(cancelled.plan_read(0, 1), ReadPlan::End);
    assert_eq!(cancelled.next_request(), DownloadPlan::Stop);
    let mut small = SharedDownload::new(None);
    small.chunk_stored(5);
    small.finish();
    assert_eq!(small.total, Some(5));
    let mut huge = SharedDownload::new(None);
    huge.use_cache(u64::MAX);
    assert_eq!(huge.next_request(), DownloadPlan::TooLarge);
    assert!(is_cached(Some(5), 5));
    assert!(!is_cached(Some(0), 0));
    assert!(!is_cached(None, 5));
    assert!(retryable_download_error(RequestError::Dropped));
    assert!(!retryable_download_error(RequestError::Other));
    assert_eq!(lock_error(), "progressive download state lock poisoned");
}

#[test]
fn readers_seek_inside_the_file() {
    assert_eq!(seek_position(5, None, SeekTo::Start(9)), Ok(9));
    assert_eq!(seek_position(5, None, SeekTo::Current(-5)), Ok(0));
    assert_eq!(seek_position(5, Some(10), SeekTo::End(-1)), Ok(9));
    assert_eq!(
        seek_position(5, None, SeekTo::End(0)),
        Err("Telegram file size is unknown".to_string())
    );
    assert_eq!(
        seek_position(5, None, SeekTo::Current(-6)),
        Err("invalid seek".to_string())
    );
    assert_eq!(
        seek_position(u64::MAX, None, SeekTo::Current(1)),
        Err("invalid seek".to_string())
    );
}

#[test]
fn credentials_are_checked_saved_and_read_back() {
    let hash = "0123456789abcdefABCDEF0123456789";
    assert_eq!(environment_credentials(None, Some(hash)), Ok(None));
    assert_eq!(
        environment_credentials(Some("x"), Some(hash)),
        Err("TG_ID must be an integer: invalid digit found in string".to_string())
    );
    assert_eq!(
        environment_credentials(Some("0"), Some(hash)),
        Err(
            "TG_ID/TG_HASH must contain a positive ID and a 32-character hexadecimal hash"
                .to_string()
        )
    );
    let credentials = environment_credentials(Some("7"), Some(hash)).unwrap().unwrap();
    assert_eq!(
        saved_credentials(&credentials_text(&credentials)),
        Some(Credentials {
            id: 7,
            hash: hash.to_string()
        })
    );
    assert_eq!(saved_credentials("7"), None);
    assert_eq!(saved_credentials("x\nhash"), None);
    assert_eq!(saved_credentials("7\nshort"), None);
    assert_eq!(typed_api_id(" 5 "), Some(5));
    assert_eq!(typed_api_id("-5"), None);
    assert!(typed_credentials(5, &format!(" {hash} ")).is_some());
    assert!(typed_credentials(5, "x").is_none());
    assert_eq!(
        telegram_login_status(true, true),
        "logged in (saved session)"
    );
    assert_eq!(telegram_login_status(true, false), "not logged in");
}

#[test]
fn logins_ask_until_an_account_is_ready() {
    let mut login = Login::new();
    login.typed("123");
    assert_eq!(
        login.message,
        "Invalid phone number. Include + and the country code."
    );
    login.typed(" +84901234567 ");
    assert_eq!(login.phone, "+84901234567");
    assert_eq!(login.state, LoginState::RequestCode);
    login.code_requested(Some("offline"));
    assert_eq!(login.message, "Could not request a login code: offline");
    login.typed("");
    assert_eq!(login.state, LoginState::RequestCode);
    login.code_requested(Some("offline"));
    login.typed(" PHONE ");
    assert_eq!(login.state, LoginState::AskPhone);
    login.typed("+1");
    login.code_requested(None);
    login.typed("  ");
    assert_eq!(login.message, "Login code cannot be empty.");
    login.typed("12345");
    assert_eq!(login.code, "12345");
    login.replied(SignInReply::InvalidCode);
    assert_eq!(login.state, LoginState::AskCode);
    login.typed("54321");
    login.replied(SignInReply::PasswordRequired);
    login.typed("secret");
    login.replied(SignInReply::InvalidPassword);
    assert_eq!(login.message, "Invalid two-step password. Try again.");
    login.typed("secret2");
    login.replied(SignInReply::Failed("flood".to_string()));
    assert_eq!(
        login.message,
        "Telegram login failed: flood. Requesting a new code."
    );
    assert_eq!(login.state, LoginState::AskPhone);
    login.typed("+1");
    login.code_requested(None);
    login.typed("1");
    login.replied(SignInReply::Accepted);
    assert_eq!(login.state, LoginState::Done);
    let mut cleared = Login::new();
    cleared.typed("+1");
    cleared.code_requested(Some("bad id"));
    cleared.typed("Credentials");
    assert_eq!(cleared.state, LoginState::ClearCredentials);
    assert!(is_answer(" BACK\n", "back"));
}

#[test]
fn command_lines_are_read() {
    let read = |args: &[&str]| parse_command_line(&texts(args));
    assert_eq!(read(&[]).command, Ok(Command::Menu));
    assert!(read(&["--borderless"]).borderless);
    assert!(read(&["--borderless"]).interactive);
    let play = read(&["--borderless", "play", "x"]);
    assert!(play.borderless && !play.interactive);
    assert_eq!(play.command, Ok(Command::Play("x".to_string())));
    assert_eq!(
        read(&["play"]).command,
        Err("missing path: music-terminal-player play <file-or-folder>".to_string())
    );
    assert_eq!(
        read(&["stream"]).command,
        Err("missing channel: music-terminal-player stream <public-channel>".to_string())
    );
    assert_eq!(
        read(&["sync"]).command,
        Err("missing channel: music-terminal-player sync <public-channel>".to_string())
    );
    assert_eq!(
        read(&["download"]).command,
        Err(
            "missing channel: music-terminal-player download <public-channel> [folder]"
                .to_string()
        )
    );
    assert_eq!(
        read(&["download", "c"]).command,
        Ok(Command::Download {
            channel: "c".to_string(),
            folder: "music".to_string()
        })
    );
    assert_eq!(
        read(&["download", "c", "d"]).command,
        Ok(Command::Download {
            channel: "c".to_string(),
            folder: "d".to_string()
        })
    );
    assert_eq!(read(&["login"]).command, Ok(Command::Login));
    assert_eq!(read(&["youtube"]).command, Ok(Command::YouTube));
    assert_eq!(read(&["-h"]).command, Ok(Command::Help));
    assert_eq!(
        read(&["sync", "c"]).command,
        Ok(Command::Sync("c".to_string()))
    );
    assert_eq!(
        read(&["stream", "c"]).command,
        Ok(Command::Stream("c".to_string()))
    );
    assert_eq!(
        read(&["x"]).command,
        Err("unknown command: x".to_string())
    );
    assert_eq!(usage_lines().len(), 17);
}

#[test]
fn launcher_rows_open_their_screens() {
    assert_eq!(launch_items().len(), 9);
    assert_eq!(launch_items()[1], "▶  Play YouTube audio");
    assert!(launch_title("not logged in").ends_with("\nTelegram · not logged in"));
    assert_eq!(launch_menu(Some(1)), LaunchAction::YouTube);
    assert_eq!(launch_menu(Some(8)), LaunchAction::Quit);
    assert_eq!(launch_menu(None), LaunchAction::Quit);
    let opened = next_screen(
        Screen::Main,
        ScreenEvent::Launched(LaunchAction::LocalFolder),
    );
    assert_eq!(opened, Screen::LocalFolders);
    assert_eq!(
        next_screen(opened, ScreenEvent::PlayerLeft(PlayerExit::Back)),
        Screen::LocalFolders
    );
    assert_eq!(
        next_screen(opened, ScreenEvent::PlayerLeft(PlayerExit::Quit)),
        Screen::Closed
    );
    assert_eq!(next_screen(opened, ScreenEvent::Left), Screen::Main);
    assert_eq!(
        next_screen(Screen::YouTube, ScreenEvent::Failed),
        Screen::Main
    );
    assert_eq!(quick_play_menu(Some(1)), QuickPlay::Local);
    assert_eq!(choose_local_folder(2, Some(1)), FolderAction::Play(1));
    assert_eq!(choose_local_folder(2, Some(2)), FolderAction::Add);
    assert_eq!(choose_local_folder(2, Some(3)), FolderAction::Forget);
    assert_eq!(choose_local_folder(2, None), FolderAction::Back);
    assert_eq!(folder_items(&texts(&["x"]))[0], "♫  x");
    assert_eq!(
        forget_folder_items(&texts(&["x"])),
        texts(&["♫  x", "←  Cancel"])
    );
    assert_eq!(
        saved_channel_items(texts(&["@a"])),
        texts(&["@a", "←  Back"])
    );
    assert_eq!(manage_playlists(1, Some(0)), PlaylistAction::Play(0));
    assert_eq!(manage_playlists(1, Some(4)), PlaylistAction::Delete);
    assert_eq!(manage_playlists(1, Some(5)), PlaylistAction::Back);
    assert_eq!(playlist_items(&Vec::new()).len(), 5);
    assert_eq!(play_youtube(Some(2)), YouTubeAction::Categories);
    assert_eq!(setup_menu(Some(1)), SetupAction::UseExisting);
    assert_eq!(tools_menu(false, Some(0)), ToolsAction::RefuseUpdate);
    assert_eq!(tools_menu(true, Some(0)), ToolsAction::Update);
}

#[test]
fn sync_menus_group_saved_channels() {
    let none = sync_items(&Vec::new());
    assert_eq!(none.len(), 5);
    assert!(sync_title(0).contains("ADD OR MANAGE"));
    let items = sync_items(&texts(&["@a", "@b"]));
    assert_eq!(items[0], "↻  Sync and update All channels");
    assert_eq!(items[1], "↻  Sync and update @a");
    assert!(items[2].starts_with("↻  Sync and update @b\r\n\r\n╭"));
    assert!(sync_title(2).contains("SAVED CHANNELS"));
    assert_eq!(choose_channel_to_sync(0, Some(0)), SyncAction::AddPublic);
    assert_eq!(choose_channel_to_sync(2, Some(0)), SyncAction::All);
    assert_eq!(choose_channel_to_sync(2, Some(2)), SyncAction::One(1));
    assert_eq!(choose_channel_to_sync(2, Some(3)), SyncAction::AddPublic);
    assert_eq!(choose_channel_to_sync(2, Some(4)), SyncAction::AddPrivate);
    assert_eq!(choose_channel_to_sync(2, Some(5)), SyncAction::AddInvite);
    assert_eq!(choose_channel_to_sync(2, Some(6)), SyncAction::Forget);
    assert_eq!(choose_channel_to_sync(2, Some(7)), SyncAction::Back);
    assert_eq!(sync_result("@a", None), "[OK] @a");
    assert_eq!(sync_result("@a", Some("gone")), "[FAILED] @a: gone");
}

#[test]
fn chosen_songs_start_and_the_others_are_queued() {
    assert_eq!(stream_menu(Some(3)), StreamAction::ChooseMany);
    assert!(plan_start(4, &Vec::new()).is_none());
    let plan = plan_start(5, &vec![1, 3]).unwrap();
    assert_eq!(plan.order, vec![1, 3, 0, 2, 4]);
    assert_eq!(plan.play_next, 1);
    assert_eq!(
        check_stream(0),
        Err("selected Telegram channels contain no tracks".to_string())
    );
}

#[test]
fn sponsor_categories_are_chosen_and_saved() {
    let mut settings = default_sponsor_settings();
    assert_eq!(
        requested_categories(&settings).as_deref(),
        Some("sponsor,music_offtopic")
    );
    assert_eq!(
        sponsor_menu(&settings)[2],
        "Interaction Reminder (interaction): No skip"
    );
    assert!(toggle_category(&mut settings, Some(5)));
    assert!(!toggle_category(&mut settings, Some(6)));
    let text = serialize_sponsor_settings(&settings);
    assert_eq!(parse_sponsor_settings(&text), settings);
    toggle_category(&mut settings, Some(0));
    toggle_category(&mut settings, Some(1));
    assert_eq!(
        requested_categories(&settings).as_deref(),
        Some("preview")
    );
    toggle_category(&mut settings, Some(5));
    assert_eq!(requested_categories(&settings), None);
    assert_eq!(parse_sponsor_settings("noise"), default_sponsor_settings());
}

#[test]
fn youtube_output_is_read() {
    let read = |text: &str| text.parse::<u64>().ok().map(Span::from_secs);
    let tracks = resolved_tracks(true, "u\tTitle\t5\nbroken\n\tx\t1\n", "", read)
        .ok()
        .unwrap();
    assert_eq!(tracks.len(), 1);
    assert_eq!(tracks[0].duration, Some(Span::from_secs(5)));
    assert_eq!(
        resolved_tracks(true, "", "", read).err().unwrap(),
        "yt-dlp returned no playable YouTube tracks"
    );
    assert_eq!(
        resolved_tracks(false, "", " gone \n", read).err().unwrap(),
        "yt-dlp failed to resolve YouTube input: gone"
    );
    assert_eq!(
        resolved_audio_url(true, "\n  url \n", "").unwrap(),
        "url"
    );
    assert_eq!(
        resolved_audio_url(true, "\n", "").unwrap_err(),
        "yt-dlp returned no direct audio stream URL"
    );
    assert_eq!(
        resolved_audio_url(false, "", "x").unwrap_err(),
        "yt-dlp failed to resolve audio stream: x"
    );
    assert_eq!(tool_version(true, "\n 1.0 \n"), "1.0");
    assert_eq!(tool_version(false, "1.0"), "unavailable");
    assert!(tools_title("1", "2", false).ends_with("disabled for external/PATH installation"));
    assert_eq!(
        existing_tools("\"a b\"", " x ").unwrap().yt_dlp,
        "a b"
    );
    assert_eq!(
        existing_tools("", "x").unwrap_err(),
        "both yt-dlp and FFmpeg executable paths are required"
    );
    assert_eq!(
        parse_youtube_urls("HTTPS://YouTu.be:443/x http://evil.com/youtu.be").unwrap_err(),
        "unsupported YouTube URL: http://evil.com/youtu.be"
    );
    assert_eq!(format_rate(4), "1.00");
    assert_eq!(format_rate(3), "0.75");
    let arguments = ffmpeg_arguments("url", Some("1.500"), 6);
    assert_eq!(arguments[11..15], texts(&["-ss", "1.500", "-i", "url"]));
    assert!(arguments.contains(&"atempo=1.50".to_string()));
    assert_eq!(ffmpeg_arguments("url", None, 4).len(), 25);
}

#[test]
fn panels_show_the_state_of_a_player() {
    let translation = load_language(None, None);
    let view = TrackView {
        index: 0,
        count: 2,
        name: "song.mp3",
        elapsed: Span::from_secs(30),
        duration: Some(Span::from_secs(60)),
        volume: "80",
        shuffle: true,
        loop_mode: LoopMode::One,
    };
    let rows = local_player_rows(&translation, &view, true);
    assert_eq!(rows[0], "Track 1/2 | song.mp3");
    assert_eq!(rows[2], "[//////      ] 0:30/1:00");
    assert_eq!(rows[3], "paused | volume 80% | shuffle on | loop one");
    let rows = telegram_player_rows(&translation, &view, "buffering", None, 4096);
    assert_eq!(
        rows[3],
        "buffering · 80% · cache 4 KiB · shuffle on · loop one"
    );
    let rows = telegram_player_rows(&translation, &view, "playing", Some("50"), 0);
    assert_eq!(
        rows[3],
        "playing · 80% · cache 50% · shuffle on · loop one"
    );
    let rows = youtube_player_rows(&translation, &view, false, 5, true);
    assert_eq!(rows[3], "playing · 80% · 1.25x · shuffle on · loop one");
    assert_eq!(rows[4], "SponsorBlock on · [a] add next URL or playlist");
    assert_eq!(rows.len(), 14);
}
