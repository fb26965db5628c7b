use std::collections::HashSet;

use music_terminal_player::catalog::TelegramCatalogEntry;
use music_terminal_player::checklist::{
    choose_telegram_catalog, forget_channel, remaining_channels, streamed_title, ListStep,
};
use music_terminal_player::keys::{menu_quit_key, Key, KeyPress};
use music_terminal_player::language::load_language;
use music_terminal_player::menu::{select_menu, select_menu_from, MenuStep};
use music_terminal_player::picker::{
    append_to_queue, choose_catalog_track, choose_catalog_tracks, choose_local_tracks,
    choose_priority_tracks, choose_private_channel, picked_entries, picked_texts, FindStep, Picker,
};
use music_terminal_player::queue_view::{queue_table, replay_table};
use music_terminal_player::screen::{
    bold_key_bindings, bold_menu_title, bold_text, choose_panel_width, fit_columns, fit_text,
    frame_lines, panel, panel_of_width,
};

fn plain(key: Key) -> KeyPress {
    KeyPress::plain(key)
}

fn ctrl(c: char) -> KeyPress {
    KeyPress::with_control(Key::Char(c))
}

fn texts(list: &[&str]) -> Vec<String> {
    list.iter().map(|text| text.to_string()).collect()
}

fn entry(message_id: i32, name: &str) -> TelegramCatalogEntry {
    TelegramCatalogEntry {
        channel: "channel".to_string(),
        message_id,
        name: name.to_string(),
    }
}

#[test]
fn key_bindings_are_marked_in_brackets_and_between_separators() {
    assert_eq!(
        bold_key_bindings("[Enter] play | Esc back"),
        "\u{1}[Enter]\u{2} play | \u{1}Esc\u{2} back"
    );
    assert_eq!(bold_key_bindings("[x] song"), "[x] song");
    assert_eq!(bold_key_bindings("Escape"), "Escape");
    assert_eq!(
        bold_key_bindings("Up/Down/Page Up/Page Down scroll"),
        "\u{1}Up/Down/Page Up/Page Down\u{2} scroll"
    );
    assert_eq!(
        bold_key_bindings("(Space), n"),
        "(\u{1}Space\u{2}), \u{1}n\u{2}"
    );
    assert_eq!(bold_key_bindings("[unclosed"), "[unclosed");
}

#[test]
fn marking_keys_changes_nothing_but_marks() {
    for text in ["[a] b · l", "| u |", "b\u{1}old\u{2} v", "音 n 楽"] {
        let strip = |s: &str| s.replace(['\u{1}', '\u{2}'], "");
        assert_eq!(strip(&bold_key_bindings(text)), strip(text));
    }
}

#[test]
fn menu_titles_are_bold_on_their_first_line() {
    assert_eq!(bold_menu_title("One\ntwo"), "\u{1}One\u{2}\ntwo");
    assert_eq!(bold_menu_title("One"), "\u{1}One\u{2}");
    assert_eq!(bold_menu_title("╭─╮\n│x│"), "\u{1}╭─╮\n│x│\u{2}");
    assert_eq!(bold_menu_title("\u{1}Bold\u{2}"), "\u{1}Bold\u{2}");
}

#[test]
fn cells_are_filled_or_cut_to_their_width() {
    assert_eq!(fit_text("", 3), "   ");
    assert_eq!(fit_text("abc", 0), "");
    assert_eq!(fit_text("abcd", 3), "ab…");
    assert_eq!(fit_text("音楽", 4), "音楽");
    assert_eq!(fit_text("音楽", 3), "音…");
    assert_eq!(fit_text("音楽", 2), "… ");
    assert_eq!(
        fit_text(&bold_text("long song"), 6),
        "\u{1}long \u{2}…"
    );
    assert_eq!(fit_columns("ab", &vec![2, 2], 3), "a…");
    assert_eq!(fit_columns("ab", &vec![1, 1], 3), "ab ");
}

#[test]
fn panels_have_a_width_between_bounds() {
    assert_eq!(choose_panel_width(&vec![10, 30], 80), 30);
    assert_eq!(choose_panel_width(&vec![10], 80), 28);
    assert_eq!(choose_panel_width(&vec![100], 80), 52);
    assert_eq!(choose_panel_width(&vec![100], 40), 36);
    assert_eq!(choose_panel_width(&vec![100], 10), 28);
    assert_eq!(
        panel_of_width("T", &texts(&["row"]), 4),
        "┌──────┐\r\n│ \u{1}T   \u{2} │\r\n├──────┤\r\n│ row  │\r\n└──────┘"
    );
    let wide = panel("Title", &texts(&["音楽音楽音楽音楽音楽音楽音楽音楽"]), 80);
    assert!(wide.starts_with(&format!("┌{}┐", "─".repeat(34))));
}

#[test]
fn frames_are_cut_into_plain_and_bold_parts() {
    let lines = frame_lines("Title\r\n[Enter] play");
    let parts = |line: usize| -> Vec<(String, Option<bool>)> {
        lines[line]
            .iter()
            .map(|part| (part.text.to_string(), part.bold))
            .collect()
    };
    assert_eq!(
        parts(0),
        vec![
            (String::new(), Some(true)),
            ("Title".to_string(), Some(false)),
        ]
    );
    assert_eq!(
        parts(1),
        vec![
            (String::new(), Some(true)),
            ("[Enter]".to_string(), Some(false)),
            (" play".to_string(), None),
        ]
    );
}

#[test]
fn quit_keys_are_q_and_control_c() {
    assert!(menu_quit_key(plain(Key::Char('q'))));
    assert!(menu_quit_key(ctrl('c')));
    assert!(!menu_quit_key(plain(Key::Char('c'))));
    assert!(!menu_quit_key(plain(Key::Esc)));
}

#[test]
fn menus_wrap_around_and_answer_keys() {
    assert!(select_menu("Empty", Vec::new()).is_none());
    let mut menu = select_menu("Menu", texts(&["one", "two", "three"])).unwrap();
    assert_eq!(menu.key(plain(Key::Up)), MenuStep::Stay);
    assert_eq!(menu.key(plain(Key::Enter)), MenuStep::Choose(2));
    assert_eq!(menu.key(plain(Key::Down)), MenuStep::Stay);
    assert_eq!(menu.selected, 0);
    assert_eq!(menu.key(plain(Key::Esc)), MenuStep::Cancel);
    assert_eq!(menu.key(plain(Key::Char('q'))), MenuStep::Quit);
    let frame = menu.frame(&load_language(None, None));
    assert!(frame.starts_with("\u{1}Menu\u{2}\r\n\r\n> one\r\n  two\r\n  three\r\n"));
    let from = select_menu_from("", texts(&["a", "b"]), 7).unwrap();
    assert_eq!(from.selected, 1);
    assert!(from
        .frame(&load_language(None, None))
        .starts_with("  a\r\n> b\r\n"));
}

#[test]
fn channel_lists_mark_rows_with_plain_space() {
    assert!(forget_channel(Vec::new()).is_none());
    let mut list = choose_telegram_catalog("Stream", texts(&["@a", "@b", "@c"])).unwrap();
    assert_eq!(list.chosen(), vec![0]);
    list.key(plain(Key::Down));
    list.key(plain(Key::Char(' ')));
    list.key(plain(Key::Down));
    list.key(plain(Key::Char(' ')));
    assert_eq!(list.chosen(), vec![1, 2]);
    assert!(list.frame().starts_with(
        "Stream\r\n2 selected | 3 synchronized\r\n\r\n  [ ] @a\r\n  [x] @b\r\n> [x] @c\r\n"
    ));
    list.key(ctrl('a'));
    assert_eq!(list.chosen(), vec![0, 1, 2]);
    list.key(ctrl('a'));
    assert_eq!(list.chosen(), vec![2]);
    list.key(plain(Key::PageUp));
    assert_eq!(list.row, 0);
    list.key(plain(Key::PageDown));
    assert_eq!(list.row, 2);
    assert_eq!(list.key(plain(Key::Enter)), ListStep::Accept);
    assert_eq!(list.key(plain(Key::Esc)), ListStep::Cancel);
    assert_eq!(
        remaining_channels(&list, &texts(&["a", "b", "c"])),
        texts(&["a", "b"])
    );
    assert_eq!(
        streamed_title(&texts(&["@a"]), 7),
        "Telegram channel: @a\n7 tracks"
    );
    assert_eq!(
        streamed_title(&texts(&["@a", "@b"]), 7),
        "2 selected Telegram channels\n7 tracks"
    );
}

fn typed(picker: &mut Picker, text: &str) {
    for c in text.chars() {
        assert_eq!(picker.key(plain(Key::Char(c))), ListStep::Stay);
    }
}

#[test]
fn song_picker_searches_and_selects_by_message() {
    let catalog = vec![
        entry(1, "First Song.mp3"),
        entry(2, "Other.flac"),
        entry(3, "Second SONG.ogg"),
    ];
    let mut picker = choose_catalog_tracks(&catalog, &[2, 99]);
    assert_eq!(picker.picked(), vec![1]);
    assert!(picker.frame().starts_with(
        "Choose playlist songs\r\nSearch: _ | 2 selected | 3 matches\r\n\r\n> [ ] First Song.mp3\r\n  [x] Other.flac\r\n"
    ));
    typed(&mut picker, "song");
    assert_eq!(picker.matches, vec![0, 2]);
    picker.key(ctrl('a'));
    assert_eq!(picker.picked(), vec![0, 1, 2]);
    picker.key(plain(Key::Up));
    picker.key(ctrl(' '));
    assert_eq!(picker.picked(), vec![0, 1]);
    typed(&mut picker, " x");
    assert_eq!(picker.query, "song x");
    assert!(picker.matches.is_empty());
    assert!(picker.frame().contains("No matching tracks.\r\n"));
    picker.key(ctrl(' '));
    picker.key(plain(Key::Backspace));
    picker.key(plain(Key::Backspace));
    assert_eq!(picker.matches, vec![0, 2]);
    assert_eq!(picker.key(plain(Key::Enter)), ListStep::Accept);
    let names: Vec<String> = picked_entries(&catalog, &picker.picked())
        .into_iter()
        .map(|entry| entry.name)
        .collect();
    assert_eq!(names, texts(&["First Song.mp3", "Other.flac"]));
    assert_eq!(picker.key(plain(Key::Esc)), ListStep::Cancel);
    assert!(choose_priority_tracks(&catalog).picked().is_empty());
}

#[test]
fn priority_picker_keeps_channels_apart() {
    let mut catalog = vec![entry(7, "One"), entry(7, "Two"), entry(8, "Three")];
    catalog[1].channel = "another".to_string();
    let mut picker = choose_priority_tracks(&catalog);
    picker.key(ctrl(' '));
    assert_eq!(picker.picked(), vec![0]);
    assert_eq!(picker.selected.len(), 1);
    picker.key(plain(Key::Down));
    picker.key(ctrl(' '));
    assert_eq!(picker.picked(), vec![0, 1]);
    picker.key(ctrl(' '));
    assert_eq!(picker.picked(), vec![0]);
    picker.key(ctrl('a'));
    assert_eq!(picker.picked(), vec![0, 1, 2]);
}

#[test]
fn local_picker_compares_paths() {
    let tracks = texts(&["music/a.mp3", "music/b.mp3"]);
    let picker = choose_local_tracks(&tracks, &texts(&[r"music\.\a.mp3"]));
    assert_eq!(picker.picked(), vec![0]);
}

#[test]
fn local_picker_keeps_selected_paths_that_are_not_listed() {
    let tracks = texts(&["a.mp3", "b.mp3", "a.mp3"]);
    let mut picker = choose_local_tracks(&tracks, &texts(&["b.mp3", "gone.mp3", "gone.mp3"]));
    assert_eq!(picker.selected.len(), 2);
    assert_eq!(picked_texts(&tracks, &picker.picked()), texts(&["b.mp3"]));
    picker.key(ctrl(' '));
    assert_eq!(
        picked_texts(&tracks, &picker.picked()),
        texts(&["a.mp3", "b.mp3", "a.mp3"])
    );
    typed(&mut picker, " B.");
    assert_eq!(picker.matches, vec![1]);
}

#[test]
fn private_picker_never_selects_saved_channels() {
    let channels: Vec<(String, i64, String)> = (0..30)
        .map(|i| (format!("Channel {i}"), 1000 + i, format!("identity {i}")))
        .collect();
    let saved: Vec<bool> = (0..30).map(|i| i % 2 == 0).collect();
    let mut picker = choose_private_channel(&channels, saved, 44).unwrap();
    assert!(picker
        .frame()
        .starts_with("Choose private Telegram channels\r\nSearch: _ | 0 selected | 30 matches | 44 scanned\r\n\r\n> [x] 🔒 Channel 0  [channel 1000]\r\n"));
    assert_eq!(picker.key(plain(Key::Enter)), ListStep::Stay);
    picker.key(ctrl(' '));
    assert!(picker.picked().is_empty());
    picker.key(plain(Key::PageDown));
    assert_eq!(picker.row, 20);
    picker.key(plain(Key::PageDown));
    assert_eq!(picker.row, 29);
    picker.key(plain(Key::PageUp));
    assert_eq!(picker.row, 9);
    assert_eq!(picker.key(plain(Key::Enter)), ListStep::Accept);
    assert_eq!(picker.picked(), vec![9]);
    picker.key(ctrl('a'));
    assert_eq!(picker.picked(), (0..30).filter(|i| i % 2 == 1).collect::<Vec<_>>());
    assert_eq!(
        choose_private_channel(&Vec::new(), Vec::new(), 3)
            .err()
            .as_deref(),
        Some("the logged-in account has no private broadcast channels")
    );
}

#[test]
fn queue_picker_selects_equal_songs_together() {
    let rows = vec![texts(&["one"]), texts(&["two"]), texts(&["one"])];
    let mut picker = append_to_queue(texts(&["One", "Two", "One"]), rows, vec![0, 1, 0]);
    picker.key(ctrl(' '));
    assert_eq!(picker.picked(), vec![0, 2]);
    assert_eq!(picker.selected, HashSet::from([0]));
}

#[test]
fn song_search_finds_one_song() {
    let catalog = vec![entry(1, "First"), entry(2, "Second"), entry(3, "Third")];
    let mut search = choose_catalog_track(&catalog, "My list");
    assert!(search.frame().starts_with(
        "Search songs\r\nList: My list\r\nSearch: _\r\n3 match(es)\r\n\r\n> First\r\n  Second\r\n"
    ));
    assert_eq!(search.key(plain(Key::Up)), FindStep::Stay);
    assert_eq!(search.key(plain(Key::Enter)), FindStep::Found(2));
    for c in "sec".chars() {
        search.key(plain(Key::Char(c)));
    }
    assert_eq!(search.key(plain(Key::Enter)), FindStep::Found(1));
    search.key(plain(Key::Char('!')));
    assert_eq!(search.key(plain(Key::Enter)), FindStep::Stay);
    search.key(plain(Key::Backspace));
    assert_eq!(search.key(plain(Key::Esc)), FindStep::Cancel);
}

#[test]
fn queue_table_shows_three_columns() {
    let labels = texts(&["played", "now", "queued", "rest one", "rest two"]);
    let table = queue_table(&load_language(None, None), &labels, 1, 1, 3);
    let rows: Vec<&str> = table.lines().collect();
    assert_eq!(rows[0], "Playback queue | 5 songs");
    let line = "─".repeat(34);
    assert_eq!(rows[2], format!("┌{line}┬{line}┬{line}┐"));
    assert_eq!(
        rows[5],
        format!(
            "│{:<34}│{:<34}│{:<34}│",
            "  now", "  queued", "> rest one"
        )
    );
    assert_eq!(
        rows[6],
        format!("│{:<34}│{:<34}│{:<34}│", "", "", "  rest two")
    );
    assert_eq!(rows[7], format!("└{line}┴{line}┴{line}┘"));
    let alone = queue_table(&load_language(None, None), &texts(&["only"]), 0, 0, 0);
    assert!(alone.contains(&format!("│{:<34}│{:<34}│{:<34}│", "> only", "", "")));
}

#[test]
fn queue_table_shows_no_played_track_again_during_a_replay() {
    let labels = texts(&["again", "played", "reached", "queued", "rest"]);
    let english = load_language(None, None);
    let table = replay_table(&english, &labels, 0, 2, 1, None);
    assert!(table.contains(&format!(
        "│{:<34}│{:<34}│{:<34}│",
        "> again", "  queued", "  rest"
    )));
    assert!(!table.contains("played"));
    let table = replay_table(&english, &labels, 0, 2, 1, Some(3));
    assert!(table.contains(&format!(
        "│{:<34}│{:<34}│{:<34}│",
        "  again", "> queued", "  rest"
    )));
}

#[test]
fn adding_to_the_queue_ends_with_the_track() {
    let picker = append_to_queue(
        texts(&["a", "b"]),
        vec![texts(&["a"]), texts(&["b"])],
        vec![0, 1],
    );
    assert_eq!(picker.idle(false), ListStep::Stay);
    assert_eq!(picker.idle(true), ListStep::Cancel);
}
