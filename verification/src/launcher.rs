//! The menus of the launcher: their rows, and what a chosen row means.
use crate::catalog::{prioritized_order, priority_order};

use crate::player::PlayerExit;
use crate::playlist::{playlist_label, playlist_row, playlists_view, Playlist, PlaylistData};
use crate::text::{list_of, texts};
use vstd::prelude::*;

verus! {

// ---------------------------------------------------------------------------
// The launcher
// ---------------------------------------------------------------------------

/// What is opened from the launcher.
#[derive(Clone, Copy, Debug, PartialEq, Eq, Structural)]
pub enum LaunchAction {
    QuickPlay,
    YouTube,
    LocalFolder,
    StreamTelegram,
    SyncTelegram,
    DownloadTelegram,
    Playlists,
    Login,
    Quit,
}

/// The row of the menu, counted from zero, that opens something.
pub open spec fn launch_choice(row: int) -> LaunchAction {
    if row == 0 {
        LaunchAction::QuickPlay
    } else if row == 1 {
        LaunchAction::YouTube
    } else if row == 2 {
        LaunchAction::LocalFolder
    } else if row == 3 {
        LaunchAction::StreamTelegram
    } else if row == 4 {
        LaunchAction::SyncTelegram
    } else if row == 5 {
        LaunchAction::DownloadTelegram
    } else if row == 6 {
        LaunchAction::Playlists
    } else if row == 7 {
        LaunchAction::Login
    } else {
        LaunchAction::Quit
    }
}

pub fn launch_items() -> (r: Vec<String>)
    ensures
        texts(r@) == seq![
            "▶  Quick play"@,
            "▶  Play YouTube audio"@,
            "♫  Play local folder"@,
            "☁  Stream Telegram channel"@,
            "↻  Sync and update Telegram channel"@,
            "↓  Download Telegram channel to .\\music"@,
            "≡  Open playlists"@,
            "●  Login to Telegram"@,
            "×  Quit"@,
        ],
{
    let r = list_of(
        vec![
            "▶  Quick play",
            "▶  Play YouTube audio",
            "♫  Play local folder",
            "☁  Stream Telegram channel",
            "↻  Sync and update Telegram channel",
            "↓  Download Telegram channel to .\\music",
            "≡  Open playlists",
            "●  Login to Telegram",
            "×  Quit",
        ],
    );
    assert(texts(r@) =~= seq![
        "▶  Quick play"@,
        "▶  Play YouTube audio"@,
        "♫  Play local folder"@,
        "☁  Stream Telegram channel"@,
        "↻  Sync and update Telegram channel"@,
        "↓  Download Telegram channel to .\\music"@,
        "≡  Open playlists"@,
        "●  Login to Telegram"@,
        "×  Quit"@,
    ]);
    r
}

pub const LAUNCH_BOX: &'static str =
    "╭──────────────────────────────────────╮\n│        MUSIC TERMINAL PLAYER         │\n╰──────────────────────────────────────╯\nTelegram · ";

pub fn launch_title(status: &str) -> (r: String)
    ensures
        r@ == LAUNCH_BOX@ + status@,
{
    let mut out = LAUNCH_BOX.to_string();
    out.append(status);
    out
}

/// What a row of the launcher opens; leaving the menu quits.
pub fn launch_menu(choice: Option<usize>) -> (r: LaunchAction)
    ensures
        r == match choice {
            Some(row) => launch_choice(row as int),
            None => LaunchAction::Quit,
        },
{
    let row: usize = match choice {
        Some(row) => row,
        None => return LaunchAction::Quit,
    };
    if row == 0 {
        LaunchAction::QuickPlay
    } else if row == 1 {
        LaunchAction::YouTube
    } else if row == 2 {
        LaunchAction::LocalFolder
    } else if row == 3 {
        LaunchAction::StreamTelegram
    } else if row == 4 {
        LaunchAction::SyncTelegram
    } else if row == 5 {
        LaunchAction::DownloadTelegram
    } else if row == 6 {
        LaunchAction::Playlists
    } else if row == 7 {
        LaunchAction::Login
    } else {
        LaunchAction::Quit
    }
}

/// Where the user is in the launcher.
#[derive(Clone, Copy, Debug, PartialEq, Eq, Structural)]
pub enum Screen {
    Main,
    QuickPlay,
    YouTube,
    LocalFolders,
    StreamChannels,
    SyncChannels,
    DownloadChannel,
    Playlists,
    Login,
    Closed,
}

/// What has happened on a screen.
#[derive(Clone, Copy, Debug, PartialEq, Eq, Structural)]
pub enum ScreenEvent {
    /// A row of the launcher was chosen, or the launcher was left.
    Launched(LaunchAction),
    /// A player was left.
    PlayerLeft(PlayerExit),
    /// Something failed, and the error was shown.
    Failed,
    /// The screen was left.
    Left,
}

/// The screen that a row of the launcher opens.
pub open spec fn opened(action: LaunchAction) -> Screen {
    match action {
        LaunchAction::QuickPlay => Screen::QuickPlay,
        LaunchAction::YouTube => Screen::YouTube,
        LaunchAction::LocalFolder => Screen::LocalFolders,
        LaunchAction::StreamTelegram => Screen::StreamChannels,
        LaunchAction::SyncTelegram => Screen::SyncChannels,
        LaunchAction::DownloadTelegram => Screen::DownloadChannel,
        LaunchAction::Playlists => Screen::Playlists,
        LaunchAction::Login => Screen::Login,
        LaunchAction::Quit => Screen::Closed,
    }
}

/// The screen that follows. Leaving a player goes back one level, and quitting
/// it closes the launcher. After an error the screen stays, but for the YouTube
/// menu, which is left.
pub open spec fn screen_after(screen: Screen, event: ScreenEvent) -> Screen {
    match event {
        ScreenEvent::Launched(action) => if screen == Screen::Main {
            opened(action)
        } else {
            screen
        },
        ScreenEvent::PlayerLeft(exit) => if exit == PlayerExit::Quit {
            Screen::Closed
        } else {
            screen
        },
        ScreenEvent::Failed => if screen == Screen::YouTube {
            Screen::Main
        } else {
            screen
        },
        ScreenEvent::Left => if screen == Screen::Main || screen == Screen::Closed {
            Screen::Closed
        } else {
            Screen::Main
        },
    }
}

pub fn next_screen(screen: Screen, event: ScreenEvent) -> (r: Screen)
    ensures
        r == screen_after(screen, event),
{
    match event {
        ScreenEvent::Launched(action) => {
            if screen != Screen::Main {
                return screen;
            }
            match action {
                LaunchAction::QuickPlay => Screen::QuickPlay,
                LaunchAction::YouTube => Screen::YouTube,
                LaunchAction::LocalFolder => Screen::LocalFolders,
                LaunchAction::StreamTelegram => Screen::StreamChannels,
                LaunchAction::SyncTelegram => Screen::SyncChannels,
                LaunchAction::DownloadTelegram => Screen::DownloadChannel,
                LaunchAction::Playlists => Screen::Playlists,
                LaunchAction::Login => Screen::Login,
                LaunchAction::Quit => Screen::Closed,
            }
        },
        ScreenEvent::PlayerLeft(exit) => if exit == PlayerExit::Quit {
            Screen::Closed
        } else {
            screen
        },
        ScreenEvent::Failed => if screen == Screen::YouTube {
            Screen::Main
        } else {
            screen
        },
        ScreenEvent::Left => if screen == Screen::Main || screen == Screen::Closed {
            Screen::Closed
        } else {
            Screen::Main
        },
    }
}

/// Quitting a player closes the launcher from every screen, and going back
/// from one never leaves the screen that opened it.
pub proof fn players_go_back_one_level(screen: Screen)
    ensures
        screen_after(screen, ScreenEvent::PlayerLeft(PlayerExit::Quit)) == Screen::Closed,
        screen_after(screen, ScreenEvent::PlayerLeft(PlayerExit::Back)) == screen,
{
}

/// What quick play plays.
#[derive(Clone, Copy, Debug, PartialEq, Eq, Structural)]
pub enum QuickPlay {
    Telegram,
    Local,
    Back,
}

pub fn quick_play_items() -> (r: Vec<String>)
    ensures
        texts(r@) == seq![
            "▶  Shuffle Telegram library"@,
            "♫  Shuffle Local library"@,
            "←  Back"@,
        ],
{
    let r = list_of(vec!["▶  Shuffle Telegram library", "♫  Shuffle Local library", "←  Back"]);
    assert(texts(r@) =~= seq![
        "▶  Shuffle Telegram library"@,
        "♫  Shuffle Local library"@,
        "←  Back"@,
    ]);
    r
}

pub fn quick_play_menu(choice: Option<usize>) -> (r: QuickPlay)
    ensures
        r == match choice {
            Some(row) => if row == 0 {
                QuickPlay::Telegram
            } else if row == 1 {
                QuickPlay::Local
            } else {
                QuickPlay::Back
            },
            None => QuickPlay::Back,
        },
{
    match choice {
        Some(row) => if row == 0 {
            QuickPlay::Telegram
        } else if row == 1 {
            QuickPlay::Local
        } else {
            QuickPlay::Back
        },
        None => QuickPlay::Back,
    }
}

// ---------------------------------------------------------------------------
// Local folders
// ---------------------------------------------------------------------------

/// What is done with local folders.
#[derive(Clone, Copy, Debug, PartialEq, Eq, Structural)]
pub enum FolderAction {
    Play(usize),
    Add,
    Forget,
    Back,
}

pub open spec fn prefixed(prefix: Seq<char>, list: Seq<Seq<char>>) -> Seq<Seq<char>> {
    list.map_values(|t: Seq<char>| prefix + t)
}

fn with_prefix(prefix: &str, list: &Vec<String>) -> (r: Vec<String>)
    ensures
        texts(r@) == prefixed(prefix@, texts(list@)),
{
    let mut out: Vec<String> = Vec::new();
    let mut i: usize = 0;
    while i < list.len()
        invariant
            i <= list@.len(),
            texts(out@) =~= prefixed(prefix@, texts(list@)).take(i as int),
        decreases list@.len() - i,
    {
        let mut row = prefix.to_string();
        row.append(list[i].as_str());
        let ghost before = out@;
        out.push(row);
        assert(texts(out@) =~= texts(before).push(row@));
        i += 1;
    }
    assert(texts(out@) =~= prefixed(prefix@, texts(list@)));
    out
}

fn extended(rows: Vec<String>, more: Vec<&'static str>) -> (r: Vec<String>)
    ensures
        r@.len() == rows@.len() + more@.len(),
        forall|i: int|
            0 <= i < r@.len() ==> (#[trigger] texts(r@)[i]) == if i < rows@.len() {
                texts(rows@)[i]
            } else {
                more@[i - rows@.len()]@
            },
{
    let mut out = rows;
    let mut rest = list_of(more);
    out.append(&mut rest);
    out
}

pub fn folder_items(folders: &Vec<String>) -> (r: Vec<String>)
    ensures
        texts(r@) == prefixed("♫  "@, texts(folders@)) + seq![
            "＋  Add folder"@,
            "−  Forget location"@,
            "←  Back"@,
        ],
{
    let rows = with_prefix("♫  ", folders);
    assert(texts(rows@).len() == rows@.len());
    let r = extended(rows, vec!["＋  Add folder", "−  Forget location", "←  Back"]);
    assert(texts(r@) =~= prefixed("♫  "@, texts(folders@)) + seq![
        "＋  Add folder"@,
        "−  Forget location"@,
        "←  Back"@,
    ]);
    r
}

pub fn choose_local_folder(count: usize, choice: Option<usize>) -> (r: FolderAction)
    ensures
        r == match choice {
            Some(row) => if row < count {
                FolderAction::Play(row)
            } else if row == count {
                FolderAction::Add
            } else if row == count + 1 {
                FolderAction::Forget
            } else {
                FolderAction::Back
            },
            None => FolderAction::Back,
        },
{
    match choice {
        Some(row) => if row < count {
            FolderAction::Play(row)
        } else if row == count {
            FolderAction::Add
        } else if row - count == 1 {
            FolderAction::Forget
        } else {
            FolderAction::Back
        },
        None => FolderAction::Back,
    }
}

/// The rows from which a folder to forget is chosen.
pub fn forget_folder_items(folders: &Vec<String>) -> (r: Vec<String>)
    ensures
        texts(r@) == prefixed("♫  "@, texts(folders@)) + seq!["←  Cancel"@],
{
    let rows = with_prefix("♫  ", folders);
    assert(texts(rows@).len() == rows@.len());
    let r = extended(rows, vec!["←  Cancel"]);
    assert(texts(r@) =~= prefixed("♫  "@, texts(folders@)) + seq!["←  Cancel"@]);
    r
}

// ---------------------------------------------------------------------------
// Telegram channels
// ---------------------------------------------------------------------------

/// The rows from which one saved channel is chosen.
pub fn saved_channel_items(labels: Vec<String>) -> (r: Vec<String>)
    ensures
        texts(r@) == texts(labels@) + seq!["←  Back"@],
{
    let ghost before = texts(labels@);
    let r = extended(labels, vec!["←  Back"]);
    assert(texts(r@) =~= before + seq!["←  Back"@]);
    r
}

/// What is synchronized.
#[derive(Clone, Copy, Debug, PartialEq, Eq, Structural)]
pub enum SyncAction {
    All,
    One(usize),
    AddPublic,
    AddPrivate,
    AddInvite,
    Forget,
    Back,
}

pub const MANAGE_BOX: &'static str =
    "╭────────────────────────────╮\n│       ADD OR MANAGE        │\n╰────────────────────────────╯";

pub const SAVED_BOX: &'static str =
    "╭────────────────────────────╮\n│       SAVED CHANNELS       │\n╰────────────────────────────╯";

pub const MANAGE_ROWS: &'static str =
    "\r\n\r\n╭────────────────────────────╮\r\n│       ADD OR MANAGE        │\r\n╰────────────────────────────╯";

pub const SYNC_TITLE: &'static str =
    "Sync and update Telegram channel\nAdd an accessible channel or paste an invite link for one already joined.\n\n";

/// The title of the menu, with the header of its first section.
pub fn sync_title(count: usize) -> (r: String)
    ensures
        r@ == SYNC_TITLE@ + if count == 0 {
            MANAGE_BOX@
        } else {
            SAVED_BOX@
        },
{
    let mut out = SYNC_TITLE.to_string();
    out.append(
        if count == 0 {
            MANAGE_BOX
        } else {
            SAVED_BOX
        },
    );
    out
}

/// The rows of the saved channels. Behind the last one stands the header of
/// the next section.
pub open spec fn sync_rows(labels: Seq<Seq<char>>) -> Seq<Seq<char>> {
    if labels.len() == 0 {
        seq![]
    } else {
        let rows = seq!["↻  Sync and update All channels"@] + prefixed(
            "↻  Sync and update "@,
            labels,
        );
        rows.update(rows.len() - 1, rows.last() + MANAGE_ROWS@)
    }
}

pub open spec fn sync_menu(labels: Seq<Seq<char>>) -> Seq<Seq<char>> {
    sync_rows(labels) + seq![
        "＋  Add public channel by username"@,
        "＋  Add private channel from this account"@,
        "＋  Add joined private channel by invite link"@,
        "−  Forget channel"@,
        "←  Back"@,
    ]
}

pub fn sync_items(labels: &Vec<String>) -> (r: Vec<String>)
    ensures
        texts(r@) == sync_menu(texts(labels@)),
{
    let mut rows: Vec<String> = Vec::new();
    assert(texts(labels@).len() == labels@.len());
    if labels.len() > 0 {
        let ghost all = seq!["↻  Sync and update All channels"@] + prefixed(
            "↻  Sync and update "@,
            texts(labels@),
        );
        rows.push("↻  Sync and update All channels".to_string());
        let mut each = with_prefix("↻  Sync and update ", labels);
        assert(texts(each@).len() == each@.len());
        rows.append(&mut each);
        assert(texts(rows@) =~= all);
        assert(texts(rows@).len() == rows@.len());
        let last: usize = rows.len() - 1;
        let mut row = rows[last].as_str().to_string();
        row.append(MANAGE_ROWS);
        let ghost before = rows@;
        rows.set(last, row);
        assert(texts(rows@) =~= all.update(all.len() - 1, all.last() + MANAGE_ROWS@));
    } else {
        assert(texts(rows@) =~= seq![]);
    }
    assert(texts(rows@) == sync_rows(texts(labels@)));
    assert(texts(rows@).len() == rows@.len());
    let r = extended(
        rows,
        vec![
            "＋  Add public channel by username",
            "＋  Add private channel from this account",
            "＋  Add joined private channel by invite link",
            "−  Forget channel",
            "←  Back",
        ],
    );
    assert(texts(r@) =~= sync_menu(texts(labels@)));
    r
}

/// How many rows the saved channels take.
pub open spec fn saved_rows(count: int) -> int {
    if count == 0 {
        0
    } else {
        count + 1
    }
}

pub open spec fn sync_choice(count: int, row: int) -> SyncAction {
    let first = saved_rows(count);
    if count > 0 && row == 0 {
        SyncAction::All
    } else if row < first {
        SyncAction::One((row - 1) as usize)
    } else if row == first {
        SyncAction::AddPublic
    } else if row == first + 1 {
        SyncAction::AddPrivate
    } else if row == first + 2 {
        SyncAction::AddInvite
    } else if row == first + 3 {
        SyncAction::Forget
    } else {
        SyncAction::Back
    }
}

/// What a row of the synchronization menu means. The rows of single channels
/// stand one behind their channel's position.
pub fn choose_channel_to_sync(count: usize, choice: Option<usize>) -> (r: SyncAction)
    requires
        count < usize::MAX,
    ensures
        r == match choice {
            Some(row) => sync_choice(count as int, row as int),
            None => SyncAction::Back,
        },
        r matches SyncAction::One(i) ==> i < count,
{
    let row: usize = match choice {
        Some(row) => row,
        None => return SyncAction::Back,
    };
    let first: usize = if count == 0 {
        0
    } else {
        count + 1
    };
    if count > 0 && row == 0 {
        return SyncAction::All;
    }
    if row < first {
        return SyncAction::One(row - 1);
    }
    let behind: usize = row - first;
    if behind == 0 {
        SyncAction::AddPublic
    } else if behind == 1 {
        SyncAction::AddPrivate
    } else if behind == 2 {
        SyncAction::AddInvite
    } else if behind == 3 {
        SyncAction::Forget
    } else {
        SyncAction::Back
    }
}

/// What the summary of a batch says of one channel.
pub fn sync_result(label: &str, error: Option<&str>) -> (r: String)
    ensures
        r@ == match error {
            None => "[OK] "@ + label@,
            Some(error) => "[FAILED] "@ + label@ + ": "@ + error@,
        },
{
    match error {
        None => {
            let mut out = "[OK] ".to_string();
            out.append(label);
            out
        },
        Some(error) => {
            let mut out = "[FAILED] ".to_string();
            out.append(label);
            out.append(": ");
            out.append(error);
            out
        },
    }
}

// ---------------------------------------------------------------------------
// Streaming a catalog
// ---------------------------------------------------------------------------

/// How a catalog is played.
#[derive(Clone, Copy, Debug, PartialEq, Eq, Structural)]
pub enum StreamAction {
    InOrder,
    Shuffle,
    ChooseOne,
    ChooseMany,
    Back,
}

pub fn stream_items() -> (r: Vec<String>)
    ensures
        texts(r@) == seq![
            "Play in order"@,
            "Shuffle"@,
            "Search and choose a track"@,
            "Search and choose multiple tracks"@,
            "Back"@,
        ],
{
    let r = list_of(
        vec![
            "Play in order",
            "Shuffle",
            "Search and choose a track",
            "Search and choose multiple tracks",
            "Back",
        ],
    );
    assert(texts(r@) =~= seq![
        "Play in order"@,
        "Shuffle"@,
        "Search and choose a track"@,
        "Search and choose multiple tracks"@,
        "Back"@,
    ]);
    r
}

pub fn stream_menu(choice: Option<usize>) -> (r: StreamAction)
    ensures
        r == match choice {
            Some(row) => if row == 0 {
                StreamAction::InOrder
            } else if row == 1 {
                StreamAction::Shuffle
            } else if row == 2 {
                StreamAction::ChooseOne
            } else if row == 3 {
                StreamAction::ChooseMany
            } else {
                StreamAction::Back
            },
            None => StreamAction::Back,
        },
{
    match choice {
        Some(row) => if row == 0 {
            StreamAction::InOrder
        } else if row == 1 {
            StreamAction::Shuffle
        } else if row == 2 {
            StreamAction::ChooseOne
        } else if row == 3 {
            StreamAction::ChooseMany
        } else {
            StreamAction::Back
        },
        None => StreamAction::Back,
    }
}

/// A catalog has songs before it is streamed.
pub fn check_stream(count: usize) -> (r: Result<(), String>)
    ensures
        match r {
            Ok(_) => count > 0,
            Err(e) => count == 0 && e@ == "selected Telegram channels contain no tracks"@,
        },
{
    if count == 0 {
        Err("selected Telegram channels contain no tracks".to_string())
    } else {
        Ok(())
    }
}

/// In which order a catalog plays, and how many songs behind the first are
/// queued.
pub struct StartPlan {
    pub order: Vec<usize>,
    pub play_next: usize,
}

/// Plays the chosen songs first: the first of them starts, the others are
/// queued, and all other songs follow. None where no song was chosen.
pub fn plan_start(count: usize, chosen: &Vec<usize>) -> (r: Option<StartPlan>)
    requires
        crate::selection::ascending(chosen@),
        forall|i: int| 0 <= i < chosen@.len() ==> (#[trigger] chosen@[i]) < count,
    ensures
        match r {
            Some(plan) => chosen@.len() > 0 && plan.order@ == priority_order(
                chosen@,
                count as nat,
            ) && plan.play_next == chosen@.len() - 1,
            None => chosen@.len() == 0,
        },
{
    if chosen.len() == 0 {
        return None;
    }
    let order = prioritized_order(count, chosen.as_slice());
    Some(StartPlan { order, play_next: chosen.len() - 1 })
}

/// The chosen songs are exactly the first songs of the order, so the first of
/// them starts and the others are those that are queued.
pub proof fn chosen_songs_start_and_queue(chosen: Seq<usize>, count: nat)
    requires
        crate::selection::ascending(chosen),
        count <= usize::MAX,
        forall|i: int| 0 <= i < chosen.len() ==> (#[trigger] chosen[i]) < count,
    ensures
        chosen.len() <= count,
        priority_order(chosen, count).take(chosen.len() as int) == chosen,
{
    lemma_positions_are(chosen, count, chosen.len());
    let first = crate::catalog::positions(chosen, true, count);
    assert(chosen.take(chosen.len() as int) =~= chosen);
    assert(first == chosen);
    crate::catalog::priority_order_keeps_every_song(chosen, count);
    assert(priority_order(chosen, count).take(chosen.len() as int) =~= first);
}

/// The chosen positions below `n` are the chosen ones up to some point.
proof fn lemma_positions_are(chosen: Seq<usize>, n: nat, m: nat)
    requires
        crate::selection::ascending(chosen),
        m <= chosen.len(),
        n <= usize::MAX,
        forall|i: int| 0 <= i < m ==> (#[trigger] chosen[i]) < n,
        forall|i: int| m <= i < chosen.len() ==> (#[trigger] chosen[i]) >= n,
    ensures
        crate::catalog::positions(chosen, true, n) == chosen.take(m as int),
    decreases n,
{
    if n == 0 {
        assert(m == 0) by {
            if m > 0 {
                assert(chosen[0] < n);
            }
        }
        assert(chosen.take(0) =~= seq![]);
    } else {
        let x = (n - 1) as usize;
        if chosen.contains(x) {
            let k = choose|k: int| 0 <= k < chosen.len() && chosen[k] == x;
            assert(k == m - 1) by {
                if k >= m {
                    assert(chosen[k] >= n);
                }
                if k < m - 1 {
                    assert(chosen[k] < chosen[m - 1]);
                    assert(chosen[m - 1] < n);
                }
            }
            assert forall|i: int| 0 <= i < m - 1 implies (#[trigger] chosen[i]) < n - 1 by {
                assert(chosen[i] < chosen[m - 1]);
            }
            assert forall|i: int| m - 1 <= i < chosen.len() implies (#[trigger] chosen[i]) >= n
                - 1 by {
                if i > m - 1 {
                    assert(chosen[m - 1] < chosen[i]);
                }
            }
            lemma_positions_are(chosen, (n - 1) as nat, (m - 1) as nat);
            assert(chosen.take(m as int) =~= chosen.take(m - 1).push(x));
        } else {
            assert forall|i: int| 0 <= i < m implies (#[trigger] chosen[i]) < n - 1 by {
                assert(chosen.contains(chosen[i]));
            }
            lemma_positions_are(chosen, (n - 1) as nat, m);
        }
    }
}

// ---------------------------------------------------------------------------
// Playlists
// ---------------------------------------------------------------------------

/// What is done with playlists.
#[derive(Clone, Copy, Debug, PartialEq, Eq, Structural)]
pub enum PlaylistAction {
    Play(usize),
    Create,
    Edit,
    Rename,
    Delete,
    Back,
}

pub open spec fn playlist_menu(ps: Seq<PlaylistData>) -> Seq<Seq<char>> {
    ps.map_values(|p: PlaylistData| playlist_row(p)) + seq![
        "＋  Create playlist"@,
        "✎  Edit playlist songs"@,
        "✎  Rename playlist"@,
        "−  Delete playlist"@,
        "←  Back"@,
    ]
}

pub fn playlist_items(playlists: &Vec<Playlist>) -> (r: Vec<String>)
    ensures
        texts(r@) == playlist_menu(playlists_view(playlists@)),
{
    let ghost all = playlists_view(playlists@).map_values(|p: PlaylistData| playlist_row(p));
    let mut rows: Vec<String> = Vec::new();
    let mut i: usize = 0;
    while i < playlists.len()
        invariant
            i <= playlists@.len(),
            all == playlists_view(playlists@).map_values(|p: PlaylistData| playlist_row(p)),
            texts(rows@) =~= all.take(i as int),
        decreases playlists@.len() - i,
    {
        let row = playlist_label(&playlists[i]);
        let ghost before = rows@;
        rows.push(row);
        assert(texts(rows@) =~= texts(before).push(row@));
        i += 1;
    }
    assert(all.take(i as int) =~= all);
    assert(texts(rows@).len() == rows@.len());
    let r = extended(
        rows,
        vec![
            "＋  Create playlist",
            "✎  Edit playlist songs",
            "✎  Rename playlist",
            "−  Delete playlist",
            "←  Back",
        ],
    );
    assert(texts(r@) =~= playlist_menu(playlists_view(playlists@)));
    r
}

pub fn manage_playlists(count: usize, choice: Option<usize>) -> (r: PlaylistAction)
    ensures
        r == match choice {
            Some(row) => if row < count {
                PlaylistAction::Play(row)
            } else if row == count {
                PlaylistAction::Create
            } else if row == count + 1 {
                PlaylistAction::Edit
            } else if row == count + 2 {
                PlaylistAction::Rename
            } else if row == count + 3 {
                PlaylistAction::Delete
            } else {
                PlaylistAction::Back
            },
            None => PlaylistAction::Back,
        },
{
    let row: usize = match choice {
        Some(row) => row,
        None => return PlaylistAction::Back,
    };
    if row < count {
        return PlaylistAction::Play(row);
    }
    let behind: usize = row - count;
    if behind == 0 {
        PlaylistAction::Create
    } else if behind == 1 {
        PlaylistAction::Edit
    } else if behind == 2 {
        PlaylistAction::Rename
    } else if behind == 3 {
        PlaylistAction::Delete
    } else {
        PlaylistAction::Back
    }
}

pub fn playlist_source_items() -> (r: Vec<String>)
    ensures
        texts(r@) == seq!["☁  Telegram channel"@, "♫  Local folder"@],
{
    let r = list_of(vec!["☁  Telegram channel", "♫  Local folder"]);
    assert(texts(r@) =~= seq!["☁  Telegram channel"@, "♫  Local folder"@]);
    r
}

// ---------------------------------------------------------------------------
// YouTube
// ---------------------------------------------------------------------------

/// What is done with YouTube audio.
#[derive(Clone, Copy, Debug, PartialEq, Eq, Structural)]
pub enum YouTubeAction {
    Play,
    Tools,
    Categories,
    Back,
}

pub fn youtube_items() -> (r: Vec<String>)
    ensures
        texts(r@) == seq![
            "▶  Play YouTube URL or playlist"@,
            "⚙  YouTube tools and updater"@,
            "⚙  SponsorBlock categories"@,
            "←  Back"@,
        ],
{
    let r = list_of(
        vec![
            "▶  Play YouTube URL or playlist",
            "⚙  YouTube tools and updater",
            "⚙  SponsorBlock categories",
            "←  Back",
        ],
    );
    assert(texts(r@) =~= seq![
        "▶  Play YouTube URL or playlist"@,
        "⚙  YouTube tools and updater"@,
        "⚙  SponsorBlock categories"@,
        "←  Back"@,
    ]);
    r
}

pub fn play_youtube(choice: Option<usize>) -> (r: YouTubeAction)
    ensures
        r == match choice {
            Some(row) => if row == 0 {
                YouTubeAction::Play
            } else if row == 1 {
                YouTubeAction::Tools
            } else if row == 2 {
                YouTubeAction::Categories
            } else {
                YouTubeAction::Back
            },
            None => YouTubeAction::Back,
        },
{
    match choice {
        Some(row) => if row == 0 {
            YouTubeAction::Play
        } else if row == 1 {
            YouTubeAction::Tools
        } else if row == 2 {
            YouTubeAction::Categories
        } else {
            YouTubeAction::Back
        },
        None => YouTubeAction::Back,
    }
}

/// How the tools for YouTube are set up.
#[derive(Clone, Copy, Debug, PartialEq, Eq, Structural)]
pub enum SetupAction {
    Download,
    UseExisting,
    Cancel,
}

pub fn setup_items() -> (r: Vec<String>)
    ensures
        texts(r@) == seq![
            "↓  Download portable yt-dlp and FFmpeg"@,
            "⌕  Use existing yt-dlp and FFmpeg installations"@,
            "←  Back"@,
        ],
{
    let r = list_of(
        vec![
            "↓  Download portable yt-dlp and FFmpeg",
            "⌕  Use existing yt-dlp and FFmpeg installations",
            "←  Back",
        ],
    );
    assert(texts(r@) =~= seq![
        "↓  Download portable yt-dlp and FFmpeg"@,
        "⌕  Use existing yt-dlp and FFmpeg installations"@,
        "←  Back"@,
    ]);
    r
}

pub fn setup_menu(choice: Option<usize>) -> (r: SetupAction)
    ensures
        r == match choice {
            Some(row) => if row == 0 {
                SetupAction::Download
            } else if row == 1 {
                SetupAction::UseExisting
            } else {
                SetupAction::Cancel
            },
            None => SetupAction::Cancel,
        },
{
    match choice {
        Some(row) => if row == 0 {
            SetupAction::Download
        } else if row == 1 {
            SetupAction::UseExisting
        } else {
            SetupAction::Cancel
        },
        None => SetupAction::Cancel,
    }
}

/// What is done with the tools.
#[derive(Clone, Copy, Debug, PartialEq, Eq, Structural)]
pub enum ToolsAction {
    Update,
    RefuseUpdate,
    Back,
}

/// What a row of the tools menu means: only the player's own yt-dlp is ever
/// updated.
pub fn tools_menu(portable: bool, choice: Option<usize>) -> (r: ToolsAction)
    ensures
        r == match choice {
            Some(row) => if row == 0 && portable {
                ToolsAction::Update
            } else if row == 0 {
                ToolsAction::RefuseUpdate
            } else {
                ToolsAction::Back
            },
            None => ToolsAction::Back,
        },
{
    match choice {
        Some(row) => if row == 0 && portable {
            ToolsAction::Update
        } else if row == 0 {
            ToolsAction::RefuseUpdate
        } else {
            ToolsAction::Back
        },
        None => ToolsAction::Back,
    }
}

/// The rows of the main menu and what each opens.
pub proof fn main_rows_open_their_screens(row: int)
    requires
        0 <= row < 9,
    ensures
        screen_after(Screen::Main, ScreenEvent::Launched(launch_choice(row))) == seq![
            Screen::QuickPlay,
            Screen::YouTube,
            Screen::LocalFolders,
            Screen::StreamChannels,
            Screen::SyncChannels,
            Screen::DownloadChannel,
            Screen::Playlists,
            Screen::Login,
            Screen::Closed,
        ][row],
{
}

/// Every screen is left to the main menu, and the main menu to the end.
pub proof fn screens_are_left_to_the_main_menu(screen: Screen, action: LaunchAction)
    ensures
        screen != Screen::Main && screen != Screen::Closed ==> screen_after(
            screen,
            ScreenEvent::Left,
        ) == Screen::Main,
        screen_after(Screen::Main, ScreenEvent::Left) == Screen::Closed,
        screen_after(Screen::YouTube, ScreenEvent::Failed) == Screen::Main,
        screen != Screen::YouTube ==> screen_after(screen, ScreenEvent::Failed) == screen,
        screen != Screen::Main ==> screen_after(screen, ScreenEvent::Launched(action)) == screen,
{
}

/// The rows of the synchronization menu and what each does: all channels first,
/// then each channel by its row, then what adds and forgets them.
pub proof fn sync_rows_do_what_they_say(labels: Seq<Seq<char>>, i: int)
    requires
        0 <= i < labels.len(),
        labels.len() < usize::MAX,
    ensures
        ({
            let n = labels.len() as int;
            let menu = sync_menu(labels);
            &&& menu.len() == n + 6
            &&& sync_choice(n, 0) == SyncAction::All
            &&& sync_choice(n, i + 1) == SyncAction::One(i as usize)
            &&& i < n - 1 ==> menu[i + 1] == "↻  Sync and update "@ + labels[i]
            &&& crate::text::has_prefix(menu[i + 1], "↻  Sync and update "@ + labels[i])
            &&& sync_choice(n, n + 1) == SyncAction::AddPublic
            &&& sync_choice(n, n + 2) == SyncAction::AddPrivate
            &&& sync_choice(n, n + 3) == SyncAction::AddInvite
            &&& sync_choice(n, n + 4) == SyncAction::Forget
            &&& sync_choice(n, n + 5) == SyncAction::Back
            &&& menu[0] == "↻  Sync and update All channels"@
            &&& menu[n + 1] == "＋  Add public channel by username"@
            &&& menu[n + 2] == "＋  Add private channel from this account"@
            &&& menu[n + 3] == "＋  Add joined private channel by invite link"@
            &&& menu[n + 4] == "−  Forget channel"@
            &&& menu[n + 5] == "←  Back"@
        }),
        ({
            let menu = sync_menu(seq![]);
            &&& menu.len() == 5
            &&& sync_choice(0, 0) == SyncAction::AddPublic
            &&& sync_choice(0, 1) == SyncAction::AddPrivate
            &&& sync_choice(0, 2) == SyncAction::AddInvite
            &&& sync_choice(0, 3) == SyncAction::Forget
            &&& sync_choice(0, 4) == SyncAction::Back
            &&& menu[0] == "＋  Add public channel by username"@
            &&& menu[4] == "←  Back"@
        }),
{
    let row = "↻  Sync and update "@ + labels[i];
    let last = row + MANAGE_ROWS@;
    assert(row.take(row.len() as int) =~= row);
    assert(last.take(row.len() as int) =~= row);
    let rows = seq!["↻  Sync and update All channels"@] + prefixed("↻  Sync and update "@, labels);
    assert(rows[i + 1] == row);
    assert(sync_menu(labels)[i + 1] == sync_rows(labels)[i + 1]);
}

/// The rows of the playlist menu: each playlist by its row, then what creates and
/// changes them.
pub proof fn playlist_rows_come_first(ps: Seq<PlaylistData>, i: int)
    requires
        0 <= i < ps.len(),
    ensures
        playlist_menu(ps).len() == ps.len() + 5,
        playlist_menu(ps)[i] == playlist_row(ps[i]),
        playlist_menu(ps)[ps.len() as int] == "＋  Create playlist"@,
        playlist_menu(ps)[ps.len() as int + 1] == "✎  Edit playlist songs"@,
        playlist_menu(ps)[ps.len() as int + 2] == "✎  Rename playlist"@,
        playlist_menu(ps)[ps.len() as int + 3] == "−  Delete playlist"@,
        playlist_menu(ps)[ps.len() as int + 4] == "←  Back"@,
{
}

} // verus!
