//! The saved channels and folders.
use crate::catalog::{entries, EntryData, TelegramCatalogEntry};
use crate::channel::{channel_identity, normalize_channel, channel_name, normalize_channel_identity};
use crate::local::holds_path;
use crate::paths::{is_same_path, same_path};
use crate::playlist::lemma_identity_end;
use crate::text::{
    has_prefix, is_empty_text, join_lines, joined_lines, lemma_lines_joined, lines, plain_line,
    same_text, split_lines, strip_prefix, texts,
};
use vstd::prelude::*;

verus! {

pub const LIBRARY_FILE: &'static str = ".music-terminal/library.txt";

pub const PLAYLIST_FILE: &'static str = ".music-terminal/playlists.txt";

/// What is saved between runs.
#[derive(Debug, PartialEq, Eq)]
pub struct SavedLibrary {
    pub channels: Vec<String>,
    pub folders: Vec<String>,
}

/// What a library holds.
pub struct LibraryData {
    pub channels: Seq<Seq<char>>,
    pub folders: Seq<Seq<char>>,
}

/// What one line of the file adds.
pub open spec fn read_library_line(l: LibraryData, line: Seq<char>) -> LibraryData {
    if has_prefix(line, "channel\t"@) {
        LibraryData {
            channels: l.channels.push(channel_identity(line.skip("channel\t"@.len() as int))),
            folders: l.folders,
        }
    } else if has_prefix(line, "folder\t"@) {
        LibraryData {
            channels: l.channels,
            folders: l.folders.push(line.skip("folder\t"@.len() as int)),
        }
    } else {
        l
    }
}

pub open spec fn read_library(rows: Seq<Seq<char>>) -> LibraryData
    decreases rows.len(),
{
    if rows.len() == 0 {
        LibraryData { channels: seq![], folders: seq![] }
    } else {
        read_library_line(read_library(rows.drop_last()), rows.last())
    }
}

/// The lines of the file.
pub open spec fn library_lines(l: LibraryData) -> Seq<Seq<char>> {
    l.channels.map_values(|c: Seq<char>| "channel\t"@ + c) + l.folders.map_values(
        |f: Seq<char>| "folder\t"@ + f,
    )
}

fn empty_list() -> (r: Vec<String>)
    ensures
        texts(r@) == Seq::<Seq<char>>::empty(),
{
    let r: Vec<String> = Vec::new();
    assert(texts(r@) =~= Seq::<Seq<char>>::empty());
    r
}

/// Whether a list holds a text.
pub fn contains_item(list: &Vec<String>, text: &str) -> (r: bool)
    ensures
        r == texts(list@).contains(text@),
{
    let mut i: usize = 0;
    while i < list.len()
        invariant
            i <= list@.len(),
            forall|k: int| 0 <= k < i ==> #[trigger] texts(list@)[k] != text@,
        decreases list@.len() - i,
    {
        assert(texts(list@)[i as int] == list@[i as int]@);
        if same_text(list[i].as_str(), text) {
            return true;
        }
        i += 1;
    }
    false
}

/// Whether a list holds a path.
fn contains_path(list: &Vec<String>, path: &str) -> (r: bool)
    ensures
        r == holds_path(texts(list@), path@),
{
    let mut i: usize = 0;
    while i < list.len()
        invariant
            i <= list@.len(),
            forall|k: int| 0 <= k < i ==> !same_path(#[trigger] texts(list@)[k], path@),
        decreases list@.len() - i,
    {
        assert(texts(list@)[i as int] == list@[i as int]@);
        if is_same_path(list[i].as_str(), path) {
            return true;
        }
        i += 1;
    }
    false
}

fn push_text(list: &mut Vec<String>, text: String)
    ensures
        texts(final(list)@) == texts(old(list)@).push(text@),
{
    let ghost before = list@;
    list.push(text);
    assert(texts(list@) =~= texts(before).push(text@));
}

impl SavedLibrary {
    pub open spec fn view(&self) -> LibraryData {
        LibraryData { channels: texts(self.channels@), folders: texts(self.folders@) }
    }

    /// A library with nothing in it.
    pub fn new() -> (r: SavedLibrary)
        ensures
            r@ == (LibraryData { channels: seq![], folders: seq![] }),
    {
        SavedLibrary { channels: empty_list(), folders: empty_list() }
    }

    /// Reads the file.
    pub fn parse(text: &str) -> (r: SavedLibrary)
        ensures
            r@ == read_library(lines(text@)),
    {
        let rows = split_lines(text);
        let ghost all = lines(text@);
        let mut library = SavedLibrary::new();
        let mut i: usize = 0;
        assert(all.take(0) =~= seq![]);
        while i < rows.len()
            invariant
                i <= rows@.len(),
                texts(rows@) == all,
                library@ == read_library(all.take(i as int)),
            decreases rows@.len() - i,
        {
            assert(all.take(i + 1).drop_last() =~= all.take(i as int));
            assert(all.take(i + 1).last() == rows@[i as int]@);
            let line = rows[i].as_str();
            if let Some(channel) = strip_prefix(line, "channel\t") {
                push_text(
                    &mut library.channels,
                    normalize_channel_identity(channel.as_str()),
                );
            } else if let Some(folder) = strip_prefix(line, "folder\t") {
                push_text(&mut library.folders, folder);
            }
            i += 1;
        }
        assert(all.take(i as int) =~= all);
        library
    }

    /// What the file holds.
    pub fn serialize(&self) -> (r: String)
        ensures
            r@ == joined_lines(library_lines(self@)),
    {
        let ghost channels = self@.channels.map_values(|c: Seq<char>| "channel\t"@ + c);
        let ghost folders = self@.folders.map_values(|f: Seq<char>| "folder\t"@ + f);
        let mut rows = empty_list();
        let mut i: usize = 0;
        while i < self.channels.len()
            invariant
                i <= self.channels@.len(),
                channels == self@.channels.map_values(|c: Seq<char>| "channel\t"@ + c),
                texts(rows@) =~= channels.take(i as int),
            decreases self.channels@.len() - i,
        {
            let mut row = "channel\t".to_string();
            row.append(self.channels[i].as_str());
            push_text(&mut rows, row);
            i += 1;
        }
        assert(channels.take(i as int) =~= channels);
        let mut k: usize = 0;
        while k < self.folders.len()
            invariant
                k <= self.folders@.len(),
                folders == self@.folders.map_values(|f: Seq<char>| "folder\t"@ + f),
                texts(rows@) =~= channels + folders.take(k as int),
            decreases self.folders@.len() - k,
        {
            let mut row = "folder\t".to_string();
            row.append(self.folders[k].as_str());
            push_text(&mut rows, row);
            k += 1;
        }
        assert(folders.take(k as int) =~= folders);
        join_lines(&rows)
    }

    /// Saves a channel after its first synchronization.
    pub fn channel_synced(&mut self, channel: &str, save: bool) -> (r: bool)
        ensures
            r == (save && !old(self)@.channels.contains(channel@)),
            final(self)@ == if r {
                LibraryData {
                    channels: old(self)@.channels.push(channel@),
                    folders: old(self)@.folders,
                }
            } else {
                old(self)@
            },
    {
        if save && !contains_item(&self.channels, channel) {
            push_text(&mut self.channels, channel.to_string());
            true
        } else {
            false
        }
    }

    /// Saves a folder, unless it is saved already, however its path is written.
    pub fn add_folder(&mut self, folder: &str) -> (r: bool)
        ensures
            r == !holds_path(old(self)@.folders, folder@),
            final(self)@ == if r {
                LibraryData {
                    channels: old(self)@.channels,
                    folders: old(self)@.folders.push(folder@),
                }
            } else {
                old(self)@
            },
    {
        if contains_path(&self.folders, folder) {
            return false;
        }
        push_text(&mut self.folders, folder.to_string());
        true
    }

    /// Forgets the folder that an answer means; the row behind the last one
    /// cancels.
    pub fn forget_folder(&mut self, choice: Option<usize>) -> (r: bool)
        ensures
            r == (choice matches Some(index) && index < old(self)@.folders.len()),
            final(self)@ == if r {
                LibraryData {
                    channels: old(self)@.channels,
                    folders: old(self)@.folders.remove(choice->0 as int),
                }
            } else {
                old(self)@
            },
    {
        let index: usize = match choice {
            Some(index) => index,
            None => return false,
        };
        assert(texts(self.folders@).len() == self.folders@.len());
        if index >= self.folders.len() {
            return false;
        }
        let ghost before = self.folders@;
        let _ = self.folders.remove(index);
        assert(texts(self.folders@) =~= texts(before).remove(index as int));
        true
    }

    /// A channel that is to be synchronized, and whether it is to be saved
    /// then: one that is saved already is not.
    pub fn sync_target(&self, channel: String) -> (r: (String, bool))
        ensures
            r.0 == channel,
            r.1 == !self@.channels.contains(channel@),
    {
        let new = !contains_item(&self.channels, channel.as_str());
        (channel, new)
    }

    /// Several channels that are to be synchronized.
    pub fn sync_targets(&self, channels: Vec<String>) -> (r: Vec<(String, bool)>)
        ensures
            r@.len() == channels@.len(),
            forall|i: int|
                0 <= i < r@.len() ==> (#[trigger] r@[i]).0@ == channels@[i]@ && r@[i].1
                    == !self@.channels.contains(channels@[i]@),
    {
        let mut out: Vec<(String, bool)> = Vec::new();
        let mut i: usize = 0;
        while i < channels.len()
            invariant
                i <= channels@.len(),
                out@.len() == i,
                forall|k: int|
                    0 <= k < i ==> (#[trigger] out@[k]).0@ == channels@[k]@ && out@[k].1
                        == !self@.channels.contains(channels@[k]@),
            decreases channels@.len() - i,
        {
            out.push(self.sync_target(channels[i].as_str().to_string()));
            i += 1;
        }
        out
    }

    /// All saved channels, of which none is to be saved again.
    pub fn all_targets(&self) -> (r: Vec<(String, bool)>)
        ensures
            r@.len() == self@.channels.len(),
            forall|i: int|
                0 <= i < r@.len() ==> (#[trigger] r@[i]).0@ == self@.channels[i] && !r@[i].1,
    {
        let mut out: Vec<(String, bool)> = Vec::new();
        let mut i: usize = 0;
        while i < self.channels.len()
            invariant
                i <= self.channels@.len(),
                out@.len() == i,
                forall|k: int|
                    0 <= k < i ==> (#[trigger] out@[k]).0@ == self@.channels[k] && !out@[k].1,
            decreases self.channels@.len() - i,
        {
            out.push((self.channels[i].as_str().to_string(), false));
            i += 1;
        }
        out
    }

    /// A public channel that was typed, where a name is left of it.
    pub fn public_target(&self, input: &str) -> (r: Option<(String, bool)>)
        ensures
            match r {
                Some(target) => target.0@ == channel_name(input@) && target.0@.len() > 0
                    && target.1 == !self@.channels.contains(channel_name(input@)),
                None => channel_name(input@).len() == 0,
            },
    {
        let channel = normalize_channel(input);
        if is_empty_text(channel.as_str()) {
            return None;
        }
        Some(self.sync_target(channel))
    }
}

proof fn lemma_library_lines(l: LibraryData, n: nat)
    requires
        n <= library_lines(l).len(),
        forall|i: int|
            0 <= i < l.channels.len() ==> channel_identity(#[trigger] l.channels[i])
                == l.channels[i],
    ensures
        ({
            let c = l.channels.len() as int;
            read_library(library_lines(l).take(n as int)) == (LibraryData {
                channels: l.channels.take(
                    if n < c {
                        n as int
                    } else {
                        c
                    },
                ),
                folders: l.folders.take(
                    if n < c {
                        0
                    } else {
                        n - c
                    },
                ),
            })
        }),
    decreases n,
{
    let rows = library_lines(l);
    let c = l.channels.len() as int;
    reveal_strlit("channel\t");
    reveal_strlit("folder\t");
    if n == 0 {
        assert(l.channels.take(0) =~= seq![]);
        assert(l.folders.take(0) =~= seq![]);
    } else {
        lemma_library_lines(l, (n - 1) as nat);
        let part = rows.take(n as int);
        assert(part.drop_last() =~= rows.take(n - 1));
        let line = part.last();
        if n - 1 < c {
            let p = "channel\t"@;
            let x = l.channels[n - 1];
            assert(line == p + x);
            assert(line.take(p.len() as int) =~= p);
            assert(line.skip(p.len() as int) =~= x);
            assert(l.channels.take(n as int) =~= l.channels.take(n - 1).push(x));
        } else {
            let p = "folder\t"@;
            let x = l.folders[n - 1 - c];
            assert(line == p + x);
            assert(line.take(p.len() as int) =~= p);
            assert(line.skip(p.len() as int) =~= x);
            assert(line[0] != "channel\t"@[0]);
            assert(!has_prefix(line, "channel\t"@)) by {
                if has_prefix(line, "channel\t"@) {
                    assert(line.take("channel\t"@.len() as int)[0] == "channel\t"@[0]);
                }
            }
            assert(l.folders.take(n - c) =~= l.folders.take(n - 1 - c).push(x));
        }
    }
}

/// A library that was saved is read back, for channels by their identity and
/// folders that fit on a line.
pub proof fn library_round_trips(l: LibraryData)
    requires
        forall|i: int|
            0 <= i < l.channels.len() ==> channel_identity(#[trigger] l.channels[i])
                == l.channels[i] && !l.channels[i].contains('\n'),
        forall|i: int| 0 <= i < l.folders.len() ==> plain_line(#[trigger] l.folders[i]),
    ensures
        read_library(lines(joined_lines(library_lines(l)))) == l,
{
    let rows = library_lines(l);
    let c = l.channels.len() as int;
    reveal_strlit("channel\t");
    reveal_strlit("folder\t");
    assert forall|i: int| 0 <= i < rows.len() implies plain_line(#[trigger] rows[i]) by {
        let (p, x) = if i < c {
            ("channel\t"@, l.channels[i])
        } else {
            ("folder\t"@, l.folders[i - c])
        };
        assert(rows[i] == p + x);
        if i < c {
            lemma_identity_end(x);
        } else {
            assert(plain_line(l.folders[i - c]));
        }
        let row = rows[i];
        if row.contains('\n') {
            let k = choose|k: int| 0 <= k < row.len() && row[k] == '\n';
            if k < p.len() {
                assert(p[k] == '\n');
            } else {
                assert(x[k - p.len()] == '\n');
            }
        }
        assert(row.last() == if x.len() > 0 {
            x.last()
        } else {
            '\t'
        });
    }
    lemma_lines_joined(rows);
    lemma_library_lines(l, rows.len());
    assert(rows.take(rows.len() as int) =~= rows);
    assert(l.channels.take(c) =~= l.channels);
    assert(l.folders.take(l.folders.len() as int) =~= l.folders);
}

/// Catalogs one after the other.
pub open spec fn combined(catalogs: Seq<Seq<EntryData>>) -> Seq<EntryData>
    decreases catalogs.len(),
{
    if catalogs.len() == 0 {
        seq![]
    } else {
        combined(catalogs.drop_last()) + catalogs.last()
    }
}

pub open spec fn catalogs_view(v: Seq<Vec<TelegramCatalogEntry>>) -> Seq<Seq<EntryData>> {
    v.map_values(|c: Vec<TelegramCatalogEntry>| entries(c@))
}

/// Puts catalogs one behind the other.
pub fn combine_catalogs(catalogs: &Vec<Vec<TelegramCatalogEntry>>) -> (r: Vec<
    TelegramCatalogEntry,
>)
    ensures
        entries(r@) == combined(catalogs_view(catalogs@)),
{
    let ghost all = catalogs_view(catalogs@);
    let mut tracks: Vec<TelegramCatalogEntry> = Vec::new();
    let mut i: usize = 0;
    assert(entries(tracks@) =~= combined(all.take(0)));
    while i < catalogs.len()
        invariant
            i <= catalogs@.len(),
            all == catalogs_view(catalogs@),
            entries(tracks@) == combined(all.take(i as int)),
        decreases catalogs@.len() - i,
    {
        assert(all.take(i + 1).drop_last() =~= all.take(i as int));
        assert(all.take(i + 1).last() == entries(catalogs@[i as int]@));
        let mut copy = crate::playlist::copy_entries(&catalogs[i]);
        let ghost before = tracks@;
        let ghost more = copy@;
        tracks.append(&mut copy);
        assert(entries(tracks@) =~= entries(before) + entries(more));
        i += 1;
    }
    assert(all.take(i as int) =~= all);
    tracks
}

/// The songs of all saved channels, one catalog for each of them.
pub fn all_channel_tracks(catalogs: &Vec<Vec<TelegramCatalogEntry>>) -> (r: Result<
    Vec<TelegramCatalogEntry>,
    String,
>)
    ensures
        ({
            let found = combined(catalogs_view(catalogs@));
            match r {
                Ok(tracks) => found.len() > 0 && entries(tracks@) == found,
                Err(e) => found.len() == 0 && e@ == if catalogs@.len() == 0 {
                    "no synchronized Telegram channels; add one from Sync and update Telegram channel"@
                } else {
                    "synchronized Telegram channels contain no tracks"@
                },
            }
        }),
{
    if catalogs.len() == 0 {
        return Err(
            "no synchronized Telegram channels; add one from Sync and update Telegram channel".to_string(),
        );
    }
    let tracks = combine_catalogs(catalogs);
    assert(entries(tracks@).len() == tracks@.len());
    if tracks.len() == 0 {
        return Err("synchronized Telegram channels contain no tracks".to_string());
    }
    Ok(tracks)
}

// ---------------------------------------------------------------------------
// Files of earlier versions, and the volume setting
// ---------------------------------------------------------------------------

/// Where a file of an earlier version moves to, by its name: sessions lose
/// their leading dots, catalogs move into their own directory.
pub open spec fn migrated_path(name: Seq<char>) -> Option<Seq<char>> {
    if has_prefix(name, ".telegram.session"@) {
        Some(".music-terminal/"@ + crate::text::strip_start(name, '.'))
    } else if has_prefix(name, ".telegram-"@) && crate::text::has_suffix(
        name.skip(".telegram-"@.len() as int),
        ".tracks.txt"@,
    ) {
        let rest = name.skip(".telegram-"@.len() as int);
        Some(
            crate::channel::catalog_file(rest.take(rest.len() - ".tracks.txt"@.len())),
        )
    } else {
        None
    }
}

pub fn migration_target(name: &str) -> (r: Option<String>)
    ensures
        match r {
            Some(path) => migrated_path(name@) == Some(path@),
            None => migrated_path(name@) is None,
        },
{
    if crate::text::starts_with(name, ".telegram.session") {
        let mut out = ".music-terminal/".to_string();
        out.append(crate::text::trim_start_char(name, '.').as_str());
        return Some(out);
    }
    let rest = match strip_prefix(name, ".telegram-") {
        Some(rest) => rest,
        None => return None,
    };
    match crate::text::strip_suffix(rest.as_str(), ".tracks.txt") {
        Some(channel) => {
            let mut out = crate::channel::CATALOG_DIR.to_string();
            out.append("/");
            out.append(channel.as_str());
            out.append(".tracks.txt");
            Some(out)
        },
        None => None,
    }
}

/// The text of the first volume setting among lines.
pub open spec fn first_volume(rows: Seq<Seq<char>>) -> Option<Seq<char>>
    decreases rows.len(),
{
    if rows.len() == 0 {
        None
    } else if has_prefix(rows[0], "volume="@) {
        Some(rows[0].skip("volume="@.len() as int))
    } else {
        first_volume(rows.skip(1))
    }
}

/// The text of the volume in the settings file.
pub fn volume_setting(text: &str) -> (r: Option<String>)
    ensures
        match r {
            Some(value) => first_volume(lines(text@)) == Some(value@),
            None => first_volume(lines(text@)) is None,
        },
{
    let rows = split_lines(text);
    let ghost all = lines(text@);
    let mut i: usize = 0;
    assert(all.skip(0) =~= all);
    while i < rows.len()
        invariant
            i <= rows@.len(),
            texts(rows@) == all,
            all == lines(text@),
            first_volume(all) == first_volume(all.skip(i as int)),
        decreases rows@.len() - i,
    {
        assert(all.skip(i as int)[0] == rows@[i as int]@);
        assert(all.skip(i as int).skip(1) =~= all.skip(i + 1));
        if let Some(value) = strip_prefix(rows[i].as_str(), "volume=") {
            return Some(value);
        }
        i += 1;
    }
    None
}

// ---------------------------------------------------------------------------
// What holds of every library
// ---------------------------------------------------------------------------

/// Each line of a library adds its channel or folder behind those before it, and
/// other lines add nothing.
pub proof fn library_lines_add_up(rows: Seq<Seq<char>>, name: Seq<char>, other: Seq<char>)
    requires
        name.len() > 0,
        forall|i: int|
            0 <= i < name.len() ==> #[trigger] name[i] != '/' && name[i] != '@' && name[i] != ':'
                && !crate::text::white_space(name[i]),
        !has_prefix(other, "channel\t"@) && !has_prefix(other, "folder\t"@),
    ensures
        ({
            let before = read_library(rows);
            &&& read_library(rows.push("channel\t"@ + name)) == (LibraryData {
                channels: before.channels.push(name),
                folders: before.folders,
            })
            &&& read_library(rows.push("folder\t"@ + name)) == (LibraryData {
                channels: before.channels,
                folders: before.folders.push(name),
            })
            &&& read_library(rows.push(other)) == before
        }),
        read_library(seq![]) == (LibraryData { channels: seq![], folders: seq![] }),
{
    reveal_strlit("channel\t");
    reveal_strlit("folder\t");
    reveal_strlit("private:");
    let channel = "channel\t"@ + name;
    let folder = "folder\t"@ + name;
    assert(channel.take("channel\t"@.len() as int) =~= "channel\t"@);
    assert(channel.skip("channel\t"@.len() as int) =~= name);
    assert(folder.take("folder\t"@.len() as int) =~= "folder\t"@);
    assert(folder.skip("folder\t"@.len() as int) =~= name);
    assert(folder[0] == 'f');
    if has_prefix(folder, "channel\t"@) {
        assert(folder.take("channel\t"@.len() as int)[0] == 'f');
    }
    assert(rows.push(channel).drop_last() =~= rows);
    assert(rows.push(folder).drop_last() =~= rows);
    assert(rows.push(other).drop_last() =~= rows);
    crate::channel::channels_are_named_by_name_or_address(seq!['/'], name);
    crate::text::lemma_trimmed_fixed(name);
    if has_prefix(name, "private:"@) {
        assert(name.take(8)[7] == ':');
        assert(name[7] == ':');
    }
    assert(channel_identity(name) == name);
}

/// The songs of all channels follow each other channel by channel.
pub proof fn catalogs_follow_each_other(catalogs: Seq<Seq<EntryData>>)
    ensures
        combined(catalogs) == catalogs.flatten(),
    decreases catalogs.len(),
{
    catalogs.lemma_flatten_and_flatten_alt_are_equivalent();
    if catalogs.len() > 0 {
        catalogs_follow_each_other(catalogs.drop_last());
        catalogs.drop_last().lemma_flatten_and_flatten_alt_are_equivalent();
    }
}

/// The volume is what the first line that names it says.
pub proof fn the_first_volume_counts(before: Seq<Seq<char>>, value: Seq<char>, after: Seq<Seq<char>>)
    requires
        forall|i: int| 0 <= i < before.len() ==> !has_prefix(#[trigger] before[i], "volume="@),
    ensures
        first_volume(before + seq!["volume="@ + value] + after) == Some(value),
        first_volume(before) is None,
    decreases before.len(),
{
    let line = "volume="@ + value;
    let all = before + seq![line] + after;
    if before.len() > 0 {
        assert(all[0] == before[0]);
        assert(all.skip(1) =~= before.skip(1) + seq![line] + after);
        the_first_volume_counts(before.skip(1), value, after);
    } else {
        assert(all[0] == line);
        assert(line.take("volume="@.len() as int) =~= "volume="@);
        assert(line.skip("volume="@.len() as int) =~= value);
    }
}

/// The files of the first version move into the data directory: the session
/// under its name without the dot, and a catalog under the name of its channel.
pub proof fn old_files_move_to_the_data_directory(rest: Seq<char>, channel: Seq<char>)
    ensures
        migrated_path(".telegram.session"@ + rest) == Some(
            ".music-terminal/telegram.session"@ + rest,
        ),
        migrated_path(".telegram-"@ + channel + ".tracks.txt"@) == Some(
            ".music-terminal/catalogs/"@ + channel + ".tracks.txt"@,
        ),
{
    reveal_strlit(".telegram.session");
    reveal_strlit(".telegram-");
    reveal_strlit(".tracks.txt");
    reveal_strlit(".music-terminal/");
    reveal_strlit(".music-terminal/telegram.session");
    reveal_strlit(".music-terminal/catalogs");
    reveal_strlit(".music-terminal/catalogs/");
    reveal_strlit("/");
    let session = ".telegram.session"@ + rest;
    assert(session.take(".telegram.session"@.len() as int) =~= ".telegram.session"@);
    crate::text::stripping_removes_only_copies(session, '.', 1);
    assert(".music-terminal/"@ + session.skip(1) =~= ".music-terminal/telegram.session"@ + rest);
    let catalog = ".telegram-"@ + channel + ".tracks.txt"@;
    let tail = channel + ".tracks.txt"@;
    assert(catalog[9] == '-');
    if has_prefix(catalog, ".telegram.session"@) {
        assert(catalog.take(".telegram.session"@.len() as int)[9] == '-');
    }
    assert(catalog.take(".telegram-"@.len() as int) =~= ".telegram-"@);
    assert(catalog.skip(".telegram-"@.len() as int) =~= tail);
    assert(tail.skip(tail.len() - ".tracks.txt"@.len()) =~= ".tracks.txt"@);
    assert(tail.take(tail.len() - ".tracks.txt"@.len()) =~= channel);
    assert(crate::channel::CATALOG_DIR@ + "/"@ =~= ".music-terminal/catalogs/"@);
}

} // verus!
