//! Playlists, and the file that keeps them.
use crate::catalog::{entries, EntryData, TelegramCatalogEntry};
use crate::channel::{channel_identity, channel_name, normalize_channel_identity};
use crate::number::{
    decimal, decimal_int, format_i64, format_usize, i32_value, lemma_decimal_int_round_trip,
    parse_i32,
};
use crate::text::{
    after_last, ascii_digit, is_empty_text, join_lines, joined_lines, lemma_after_last,
    lemma_lines_joined, lemma_splitn_prepend, lemma_splitn_single, lemma_strip_end,
    lemma_strip_start, lemma_trimmed, lemma_trimmed_fixed, lemma_unbroken, lines, plain_line,
    same_text, split_lines, split_n, splitn, strip_end, texts, to_unbroken, trim, trimmed, unbroken,
};
use vstd::prelude::*;

verus! {

/// A list of songs, from Telegram channels or from local files.
#[derive(Debug, PartialEq)]
pub struct Playlist {
    pub name: String,
    pub channel: String,
    pub tracks: Vec<TelegramCatalogEntry>,
    pub local_tracks: Vec<String>,
}

/// What a playlist holds.
pub struct PlaylistData {
    pub name: Seq<char>,
    pub channel: Seq<char>,
    pub tracks: Seq<EntryData>,
    pub local_tracks: Seq<Seq<char>>,
}

/// Whether a playlist counts as one of local files.
pub open spec fn local_playlist(p: PlaylistData) -> bool {
    p.local_tracks.len() > 0 || p.tracks.len() == 0
}

pub open spec fn songs_in(p: PlaylistData) -> nat {
    if local_playlist(p) {
        p.local_tracks.len()
    } else {
        p.tracks.len()
    }
}

/// The channels that the songs of a playlist come from.
pub open spec fn source_channels(tracks: Seq<EntryData>) -> Seq<Seq<char>> {
    tracks.map_values(|e: EntryData| e.channel)
}

impl Playlist {
    pub open spec fn view(&self) -> PlaylistData {
        PlaylistData {
            name: self.name@,
            channel: self.channel@,
            tracks: entries(self.tracks@),
            local_tracks: texts(self.local_tracks@),
        }
    }

    pub fn is_local(&self) -> (r: bool)
        ensures
            r == local_playlist(self@),
    {
        self.local_tracks.len() > 0 || self.tracks.len() == 0
    }

    pub fn song_count(&self) -> (r: usize)
        ensures
            r == songs_in(self@),
    {
        if self.is_local() {
            self.local_tracks.len()
        } else {
            self.tracks.len()
        }
    }

    /// How many channels the songs come from.
    pub fn channel_count(&self) -> (r: usize)
        ensures
            r == source_channels(self@.tracks).to_set().len(),
    {
        let ghost all = source_channels(self@.tracks);
        let mut seen: vstd::hash_set::StringHashSet = vstd::hash_set::StringHashSet::new();
        let mut i: usize = 0;
        assert(all.take(0).to_set() =~= Set::<Seq<char>>::empty());
        while i < self.tracks.len()
            invariant
                i <= self.tracks@.len(),
                all == source_channels(self@.tracks),
                seen@ =~= all.take(i as int).to_set(),
            decreases self.tracks@.len() - i,
        {
            let channel = self.tracks[i].channel.as_str().to_string();
            proof {
                let next = all.take(i + 1);
                assert(next =~= all.take(i as int).push(channel@));
                assert(next.to_set() =~= all.take(i as int).to_set().insert(channel@)) by {
                    assert forall|x: Seq<char>| next.to_set().contains(x) <==> all.take(
                        i as int,
                    ).to_set().insert(channel@).contains(x) by {
                        if next.contains(x) && x != channel@ {
                            let k = choose|k: int| 0 <= k < next.len() && next[k] == x;
                            assert(all.take(i as int)[k] == x);
                        }
                        if all.take(i as int).contains(x) {
                            let k = choose|k: int|
                                0 <= k < all.take(i as int).len() && all.take(i as int)[k] == x;
                            assert(next[k] == x);
                        }
                        assert(next[i as int] == channel@);
                    }
                }
            }
            seen.insert(channel);
            i += 1;
        }
        assert(all.take(i as int) =~= all);
        seen.len()
    }
}

impl Clone for Playlist {
    fn clone(&self) -> (r: Playlist)
        ensures
            r@ == self@,
    {
        let tracks = copy_entries(&self.tracks);
        let local_tracks = copy_texts(&self.local_tracks);
        Playlist {
            name: self.name.as_str().to_string(),
            channel: self.channel.as_str().to_string(),
            tracks,
            local_tracks,
        }
    }
}

pub open spec fn playlists_view(v: Seq<Playlist>) -> Seq<PlaylistData> {
    v.map_values(|p: Playlist| p@)
}

/// Copies entries.
pub fn copy_entries(v: &Vec<TelegramCatalogEntry>) -> (r: Vec<TelegramCatalogEntry>)
    ensures
        entries(r@) == entries(v@),
{
    let mut out: Vec<TelegramCatalogEntry> = Vec::new();
    let mut i: usize = 0;
    while i < v.len()
        invariant
            i <= v@.len(),
            entries(out@) =~= entries(v@).take(i as int),
        decreases v@.len() - i,
    {
        let entry = v[i].clone();
        let ghost before = out@;
        out.push(entry);
        assert(entries(out@) =~= entries(before).push(entry@));
        i += 1;
    }
    assert(entries(out@) =~= entries(v@));
    out
}

/// Copies texts.
pub fn copy_texts(v: &Vec<String>) -> (r: Vec<String>)
    ensures
        texts(r@) == texts(v@),
{
    let mut out: Vec<String> = Vec::new();
    let mut i: usize = 0;
    while i < v.len()
        invariant
            i <= v@.len(),
            texts(out@) =~= texts(v@).take(i as int),
        decreases v@.len() - i,
    {
        let text = v[i].as_str().to_string();
        let ghost before = out@;
        out.push(text);
        assert(texts(out@) =~= texts(before).push(text@));
        i += 1;
    }
    assert(texts(out@) =~= texts(v@));
    out
}

// ---------------------------------------------------------------------------
// The playlist file
// ---------------------------------------------------------------------------

/// A playlist name on one line, without space around it.
pub open spec fn clean_name(name: Seq<char>) -> Seq<char> {
    unbroken(trimmed(name))
}

pub fn clean_playlist_name(name: &str) -> (r: String)
    ensures
        r@ == clean_name(name@),
{
    to_unbroken(trim(name).as_str())
}

pub open spec fn head_line(p: PlaylistData) -> Seq<char> {
    "playlist"@ + seq!['\t'] + (clean_name(p.name) + seq!['\t'] + channel_identity(p.channel))
}

pub open spec fn track_line(e: EntryData) -> Seq<char> {
    "track"@ + seq!['\t'] + (channel_identity(e.channel) + seq!['\t'] + (decimal_int(
        e.message_id as int,
    ) + seq!['\t'] + unbroken(e.name)))
}

pub open spec fn local_line(path: Seq<char>) -> Seq<char> {
    "local"@ + seq!['\t'] + unbroken(path)
}

/// The lines of one playlist: its head, its Telegram songs, its local songs.
pub open spec fn playlist_lines(p: PlaylistData) -> Seq<Seq<char>> {
    seq![head_line(p)] + p.tracks.map_values(|e: EntryData| track_line(e))
        + p.local_tracks.map_values(|path: Seq<char>| local_line(path))
}

/// The lines of the playlist file.
pub open spec fn all_playlist_lines(ps: Seq<PlaylistData>) -> Seq<Seq<char>>
    decreases ps.len(),
{
    if ps.len() == 0 {
        seq![]
    } else {
        all_playlist_lines(ps.drop_last()) + playlist_lines(ps.last())
    }
}

fn tabbed(head: &str, rest: &str) -> (r: String)
    ensures
        r@ == head@ + seq!['\t'] + rest@,
{
    let mut out = head.to_string();
    out.push('\t');
    out.append(rest);
    assert(out@ =~= head@ + seq!['\t'] + rest@);
    out
}

fn push_playlist_lines(rows: &mut Vec<String>, p: &Playlist)
    ensures
        texts(final(rows)@) == texts(old(rows)@) + playlist_lines(p@),
{
    let ghost start = texts(rows@);
    let head = tabbed(
        "playlist",
        tabbed(
            clean_playlist_name(p.name.as_str()).as_str(),
            normalize_channel_identity(p.channel.as_str()).as_str(),
        ).as_str(),
    );
    rows.push(head);
    let ghost tracks = p@.tracks.map_values(|e: EntryData| track_line(e));
    let ghost locals = p@.local_tracks.map_values(|path: Seq<char>| local_line(path));
    assert(texts(rows@) =~= start + seq![head_line(p@)]);
    let ghost headed = texts(rows@);
    let mut i: usize = 0;
    while i < p.tracks.len()
        invariant
            i <= p.tracks@.len(),
            tracks == p@.tracks.map_values(|e: EntryData| track_line(e)),
            texts(rows@) =~= headed + tracks.take(i as int),
        decreases p.tracks@.len() - i,
    {
        let track = &p.tracks[i];
        let row = tabbed(
            "track",
            tabbed(
                normalize_channel_identity(track.channel.as_str()).as_str(),
                tabbed(
                    format_i64(track.message_id as i64).as_str(),
                    to_unbroken(track.name.as_str()).as_str(),
                ).as_str(),
            ).as_str(),
        );
        let ghost before = rows@;
        rows.push(row);
        assert(texts(rows@) =~= texts(before).push(row@));
        assert(p@.tracks[i as int] == track@);
        i += 1;
    }
    assert(tracks.take(i as int) =~= tracks);
    let ghost middle = texts(rows@);
    let mut k: usize = 0;
    while k < p.local_tracks.len()
        invariant
            k <= p.local_tracks@.len(),
            locals == p@.local_tracks.map_values(|path: Seq<char>| local_line(path)),
            texts(rows@) =~= middle + locals.take(k as int),
        decreases p.local_tracks@.len() - k,
    {
        let row = tabbed("local", to_unbroken(p.local_tracks[k].as_str()).as_str());
        let ghost before = rows@;
        rows.push(row);
        assert(texts(rows@) =~= texts(before).push(row@));
        assert(p@.local_tracks[k as int] == p.local_tracks@[k as int]@);
        k += 1;
    }
    assert(locals.take(k as int) =~= locals);
    assert(texts(rows@) =~= start + playlist_lines(p@));
}

pub fn serialize_playlists(playlists: &[Playlist]) -> (r: String)
    ensures
        r@ == joined_lines(all_playlist_lines(playlists_view(playlists@))),
{
    let ghost all = playlists_view(playlists@);
    let mut rows: Vec<String> = Vec::new();
    let mut i: usize = 0;
    assert(texts(rows@) =~= all_playlist_lines(all.take(0)));
    while i < playlists.len()
        invariant
            i <= playlists@.len(),
            all == playlists_view(playlists@),
            texts(rows@) == all_playlist_lines(all.take(i as int)),
        decreases playlists@.len() - i,
    {
        assert(all.take(i + 1).drop_last() =~= all.take(i as int));
        assert(all.take(i + 1).last() == playlists@[i as int]@);
        push_playlist_lines(&mut rows, &playlists[i]);
        i += 1;
    }
    assert(all.take(i as int) =~= all);
    join_lines(&rows)
}

/// The playlists with a song added to the last of them.
pub open spec fn with_track(ps: Seq<PlaylistData>, e: EntryData) -> Seq<PlaylistData> {
    let p = ps.last();
    ps.drop_last().push(
        PlaylistData {
            name: p.name,
            channel: p.channel,
            tracks: p.tracks.push(e),
            local_tracks: p.local_tracks,
        },
    )
}

pub open spec fn with_local_track(ps: Seq<PlaylistData>, path: Seq<char>) -> Seq<PlaylistData> {
    let p = ps.last();
    ps.drop_last().push(
        PlaylistData {
            name: p.name,
            channel: p.channel,
            tracks: p.tracks,
            local_tracks: p.local_tracks.push(path),
        },
    )
}

pub open spec fn new_playlist(name: Seq<char>, channel: Seq<char>) -> PlaylistData {
    PlaylistData { name, channel, tracks: seq![], local_tracks: seq![] }
}

/// What one line of the file adds to the playlists above it. A song line of
/// three fields has no channel of its own and takes that of its playlist.
pub open spec fn read_playlist_line(ps: Seq<PlaylistData>, line: Seq<char>) -> Seq<PlaylistData> {
    let f = splitn(line, 4, '\t');
    if f[0] == "playlist"@ && f.len() >= 3 {
        ps.push(new_playlist(f[1], channel_identity(f[2])))
    } else if f[0] == "track"@ && f.len() >= 4 && ps.len() > 0 {
        match i32_value(f[2]) {
            Some(id) => with_track(
                ps,
                EntryData { channel: channel_identity(f[1]), message_id: id, name: f[3] },
            ),
            None => ps,
        }
    } else if f[0] == "track"@ && f.len() == 3 && ps.len() > 0 {
        match i32_value(f[1]) {
            Some(id) => with_track(
                ps,
                EntryData { channel: ps.last().channel, message_id: id, name: f[2] },
            ),
            None => ps,
        }
    } else if f[0] == "local"@ && f.len() >= 2 && ps.len() > 0 {
        with_local_track(ps, f[1])
    } else {
        ps
    }
}

/// The playlists after some more lines.
pub open spec fn read_playlist_lines(ps: Seq<PlaylistData>, rows: Seq<Seq<char>>) -> Seq<
    PlaylistData,
>
    decreases rows.len(),
{
    if rows.len() == 0 {
        ps
    } else {
        read_playlist_lines(read_playlist_line(ps, rows[0]), rows.skip(1))
    }
}

/// The playlists in a file.
pub open spec fn playlists_of(text: Seq<char>) -> Seq<PlaylistData> {
    read_playlist_lines(seq![], lines(text))
}

proof fn lemma_view_last(v: Seq<Playlist>)
    requires
        v.len() > 0,
    ensures
        playlists_view(v).last() == v.last()@,
        playlists_view(v).drop_last() == playlists_view(v.drop_last()),
{
    assert(playlists_view(v).drop_last() =~= playlists_view(v.drop_last()));
}

fn add_track(playlists: &mut Vec<Playlist>, entry: TelegramCatalogEntry)
    requires
        old(playlists)@.len() > 0,
    ensures
        playlists_view(final(playlists)@) == with_track(playlists_view(old(playlists)@), entry@),
{
    let ghost before = playlists@;
    proof {
        lemma_view_last(before);
    }
    let mut last = match playlists.pop() {
        Some(last) => last,
        None => return,
    };
    assert(playlists@ =~= before.drop_last());
    let ghost tracks = last.tracks@;
    let ghost old_last = last@;
    last.tracks.push(entry);
    assert(entries(last.tracks@) =~= entries(tracks).push(entry@));
    playlists.push(last);
    assert(playlists_view(playlists@) =~= playlists_view(before.drop_last()).push(last@));
}

fn add_local_track(playlists: &mut Vec<Playlist>, path: String)
    requires
        old(playlists)@.len() > 0,
    ensures
        playlists_view(final(playlists)@) == with_local_track(
            playlists_view(old(playlists)@),
            path@,
        ),
{
    let ghost before = playlists@;
    proof {
        lemma_view_last(before);
    }
    let mut last = match playlists.pop() {
        Some(last) => last,
        None => return,
    };
    assert(playlists@ =~= before.drop_last());
    let ghost tracks = last.local_tracks@;
    last.local_tracks.push(path);
    assert(texts(last.local_tracks@) =~= texts(tracks).push(path@));
    playlists.push(last);
    assert(playlists_view(playlists@) =~= playlists_view(before.drop_last()).push(last@));
}

fn parse_playlist_line(playlists: &mut Vec<Playlist>, line: &str)
    ensures
        playlists_view(final(playlists)@) == read_playlist_line(
            playlists_view(old(playlists)@),
            line@,
        ),
{
    let fields = split_n(line, 4, '\t');
    let ghost f = splitn(line@, 4, '\t');
    assert(f.len() == fields@.len());
    assert(forall|i: int| 0 <= i < f.len() ==> #[trigger] f[i] == fields@[i]@);
    assert(playlists_view(playlists@).len() == playlists@.len());
    let ghost before = playlists@;
    assert(f.len() > 0);
    let tag = fields[0].as_str();
    proof {
        reveal_strlit("playlist");
        reveal_strlit("track");
        reveal_strlit("local");
        assert("playlist"@.len() != "track"@.len());
        assert("playlist"@.len() != "local"@.len());
        assert("track"@[0] != "local"@[0]);
    }
    if same_text(tag, "playlist") {
        if fields.len() >= 3 {
            let tracks: Vec<TelegramCatalogEntry> = Vec::new();
            let local_tracks: Vec<String> = Vec::new();
            assert(entries(tracks@) =~= seq![]);
            assert(texts(local_tracks@) =~= seq![]);
            let playlist = Playlist {
                name: fields[1].as_str().to_string(),
                channel: normalize_channel_identity(fields[2].as_str()),
                tracks,
                local_tracks,
            };
            playlists.push(playlist);
            assert(playlists_view(playlists@) =~= playlists_view(before).push(playlist@));
        }
    } else if same_text(tag, "track") {
        if fields.len() >= 4 && playlists.len() > 0 {
            if let Some(message_id) = parse_i32(fields[2].as_str()) {
                let entry = TelegramCatalogEntry {
                    channel: normalize_channel_identity(fields[1].as_str()),
                    message_id,
                    name: fields[3].as_str().to_string(),
                };
                add_track(playlists, entry);
            }
        } else if fields.len() == 3 && playlists.len() > 0 {
            if let Some(message_id) = parse_i32(fields[1].as_str()) {
                proof {
                    lemma_view_last(before);
                }
                let last: usize = playlists.len() - 1;
                let entry = TelegramCatalogEntry {
                    channel: playlists[last].channel.as_str().to_string(),
                    message_id,
                    name: fields[2].as_str().to_string(),
                };
                add_track(playlists, entry);
            }
        }
    } else if same_text(tag, "local") {
        if fields.len() >= 2 && playlists.len() > 0 {
            let path = fields[1].as_str().to_string();
            add_local_track(playlists, path);
        }
    }
}

pub fn parse_playlists(text: &str) -> (r: Vec<Playlist>)
    ensures
        playlists_view(r@) == playlists_of(text@),
{
    let rows = split_lines(text);
    let ghost all = lines(text@);
    let mut playlists: Vec<Playlist> = Vec::new();
    let mut i: usize = 0;
    assert(all.skip(0) =~= all);
    assert(playlists_view(playlists@) =~= seq![]);
    while i < rows.len()
        invariant
            i <= rows@.len(),
            texts(rows@) == all,
            all == lines(text@),
            read_playlist_lines(playlists_view(playlists@), all.skip(i as int)) == playlists_of(
                text@,
            ),
        decreases rows@.len() - i,
    {
        assert(all.skip(i as int)[0] == rows@[i as int]@);
        assert(all.skip(i as int).skip(1) =~= all.skip(i + 1));
        parse_playlist_line(&mut playlists, rows[i].as_str());
        i += 1;
    }
    assert(all.skip(i as int) =~= Seq::<Seq<char>>::empty());
    playlists
}

// ---------------------------------------------------------------------------
// Playlists come back from their file
// ---------------------------------------------------------------------------

/// A channel whose identity fits into a field of the file and stays what it is
/// when it is read.
pub open spec fn storable_channel(channel: Seq<char>) -> bool {
    let identity = channel_identity(channel);
    !identity.contains('\t') && !identity.contains('\n') && channel_identity(identity) == identity
}

pub open spec fn storable(p: PlaylistData) -> bool {
    storable_channel(p.channel) && forall|i: int|
        0 <= i < p.tracks.len() ==> storable_channel((#[trigger] p.tracks[i]).channel)
}

pub open spec fn stored_track(e: EntryData) -> EntryData {
    EntryData {
        channel: channel_identity(e.channel),
        message_id: e.message_id,
        name: unbroken(e.name),
    }
}

/// A playlist as it comes back from the file: names and paths on one line,
/// channels by their identity.
pub open spec fn stored_playlist(p: PlaylistData) -> PlaylistData {
    PlaylistData {
        name: clean_name(p.name),
        channel: channel_identity(p.channel),
        tracks: p.tracks.map_values(|e: EntryData| stored_track(e)),
        local_tracks: p.local_tracks.map_values(|path: Seq<char>| unbroken(path)),
    }
}

proof fn lemma_channel_name_length(s: Seq<char>)
    ensures
        channel_name(s).len() <= trimmed(s).len(),
{
    let t = strip_end(trimmed(s), '/');
    lemma_strip_end(trimmed(s), '/');
    lemma_after_last(t, '/');
    lemma_strip_start(t.skip(after_last(t, '/') as int), '@');
}

/// An identity that stays what it is does not end in a carriage return.
pub proof fn lemma_identity_end(identity: Seq<char>)
    requires
        channel_identity(identity) == identity,
    ensures
        identity.len() > 0 ==> identity.last() != '\r',
{
    if identity.len() > 0 && identity.last() == '\r' {
        lemma_trimmed(identity);
        let t = trimmed(identity);
        crate::text::lemma_trimmed_idempotent(identity);
        lemma_channel_name_length(t);
        assert(t.len() >= identity.len());
        assert(t.len() == identity.len());
        crate::text::lemma_trim_start(identity);
        crate::text::lemma_trim_end(crate::text::trim_start(identity));
        assert(t =~= identity);
    }
}

proof fn lemma_no_char_concat(a: Seq<char>, b: Seq<char>, sep: char, c: char)
    requires
        !a.contains(c),
        !b.contains(c),
        sep != c,
    ensures
        !(a + seq![sep] + b).contains(c),
{
    let s = a + seq![sep] + b;
    if s.contains(c) {
        let i = choose|i: int| 0 <= i < s.len() && s[i] == c;
        if i < a.len() {
            assert(a[i] == c);
        } else if i > a.len() {
            assert(b[i - a.len() - 1] == c);
        }
    }
}

proof fn lemma_decimal_field(n: int)
    ensures
        !decimal_int(n).contains('\t'),
        !decimal_int(n).contains('\n'),
{
    lemma_decimal_int_round_trip(n);
    let d = decimal_int(n);
    assert forall|c: char| c == '\t' || c == '\n' implies !d.contains(c) by {
        if d.contains(c) {
            let i = choose|i: int| 0 <= i < d.len() && d[i] == c;
            assert(ascii_digit(d[i]) || d[i] == '-');
        }
    }
}

proof fn lemma_tags()
    ensures
        !"playlist"@.contains('\t') && !"playlist"@.contains('\n'),
        !"track"@.contains('\t') && !"track"@.contains('\n'),
        !"local"@.contains('\t') && !"local"@.contains('\n'),
        "playlist"@ != "track"@,
        "playlist"@ != "local"@,
        "track"@ != "local"@,
{
    reveal_strlit("playlist");
    reveal_strlit("track");
    reveal_strlit("local");
    assert("playlist"@.len() != "track"@.len());
    assert("track"@[0] != "local"@[0]);
}

proof fn lemma_unbroken_end(s: Seq<char>)
    ensures
        unbroken(s).len() > 0 ==> unbroken(s).last() != '\r',
{
    lemma_unbroken(s);
    if unbroken(s).len() > 0 {
        assert(unbroken(s).contains(unbroken(s).last()));
    }
}

proof fn lemma_head_line(p: PlaylistData, ps: Seq<PlaylistData>)
    requires
        storable_channel(p.channel),
    ensures
        plain_line(head_line(p)),
        read_playlist_line(ps, head_line(p)) == ps.push(
            new_playlist(clean_name(p.name), channel_identity(p.channel)),
        ),
{
    lemma_tags();
    let name = clean_name(p.name);
    let id = channel_identity(p.channel);
    let rest = name + seq!['\t'] + id;
    lemma_unbroken(trimmed(p.name));
    lemma_splitn_prepend("playlist"@, rest, 4, '\t');
    lemma_splitn_prepend(name, id, 3, '\t');
    lemma_splitn_single(id, 2, '\t');
    let f = splitn(head_line(p), 4, '\t');
    assert(f =~= seq!["playlist"@, name, id]);
    lemma_no_char_concat(name, id, '\t', '\n');
    lemma_no_char_concat("playlist"@, rest, '\t', '\n');
    lemma_identity_end(id);
    let line = head_line(p);
    assert(line.last() == if id.len() > 0 {
        id.last()
    } else {
        '\t'
    });
}

proof fn lemma_track_line(e: EntryData, ps: Seq<PlaylistData>)
    requires
        storable_channel(e.channel),
        ps.len() > 0,
    ensures
        plain_line(track_line(e)),
        read_playlist_line(ps, track_line(e)) == with_track(ps, stored_track(e)),
{
    lemma_tags();
    let id = channel_identity(e.channel);
    let number = decimal_int(e.message_id as int);
    let name = unbroken(e.name);
    let tail = number + seq!['\t'] + name;
    let rest = id + seq!['\t'] + tail;
    lemma_unbroken(e.name);
    lemma_unbroken_end(e.name);
    lemma_decimal_field(e.message_id as int);
    lemma_decimal_int_round_trip(e.message_id as int);
    lemma_splitn_prepend("track"@, rest, 4, '\t');
    lemma_splitn_prepend(id, tail, 3, '\t');
    lemma_splitn_prepend(number, name, 2, '\t');
    assert(splitn(name, 1, '\t') == seq![name]);
    let f = splitn(track_line(e), 4, '\t');
    assert(f =~= seq!["track"@, id, number, name]);
    lemma_no_char_concat(number, name, '\t', '\n');
    lemma_no_char_concat(id, tail, '\t', '\n');
    lemma_no_char_concat("track"@, rest, '\t', '\n');
    let line = track_line(e);
    assert(line.last() == if name.len() > 0 {
        name.last()
    } else {
        '\t'
    });
}

proof fn lemma_local_line(path: Seq<char>, ps: Seq<PlaylistData>)
    requires
        ps.len() > 0,
    ensures
        plain_line(local_line(path)),
        read_playlist_line(ps, local_line(path)) == with_local_track(ps, unbroken(path)),
{
    lemma_tags();
    let p = unbroken(path);
    lemma_unbroken(path);
    lemma_unbroken_end(path);
    lemma_splitn_prepend("local"@, p, 4, '\t');
    lemma_splitn_single(p, 3, '\t');
    let f = splitn(local_line(path), 4, '\t');
    assert(f =~= seq!["local"@, p]);
    lemma_no_char_concat("local"@, p, '\t', '\n');
    let line = local_line(path);
    assert(line.last() == if p.len() > 0 {
        p.last()
    } else {
        '\t'
    });
}

proof fn lemma_read_concat(ps: Seq<PlaylistData>, a: Seq<Seq<char>>, b: Seq<Seq<char>>)
    ensures
        read_playlist_lines(ps, a + b) == read_playlist_lines(read_playlist_lines(ps, a), b),
    decreases a.len(),
{
    if a.len() == 0 {
        assert(a + b =~= b);
    } else {
        assert((a + b).skip(1) =~= a.skip(1) + b);
        lemma_read_concat(read_playlist_line(ps, a[0]), a.skip(1), b);
    }
}

/// The playlists after the first `n` song lines of one of them.
proof fn lemma_read_tracks(ps: Seq<PlaylistData>, p: PlaylistData, n: nat)
    requires
        storable(p),
        n <= p.tracks.len(),
    ensures
        ({
            let head = new_playlist(clean_name(p.name), channel_identity(p.channel));
            let rows = p.tracks.map_values(|e: EntryData| track_line(e)).take(n as int);
            read_playlist_lines(ps.push(head), rows) == ps.push(
                PlaylistData {
                    name: head.name,
                    channel: head.channel,
                    tracks: p.tracks.map_values(|e: EntryData| stored_track(e)).take(n as int),
                    local_tracks: seq![],
                },
            )
        }),
    decreases n,
{
    let head = new_playlist(clean_name(p.name), channel_identity(p.channel));
    let all = p.tracks.map_values(|e: EntryData| track_line(e));
    let stored = p.tracks.map_values(|e: EntryData| stored_track(e));
    if n == 0 {
        assert(all.take(0) =~= Seq::<Seq<char>>::empty());
        assert(stored.take(0) =~= seq![]);
    } else {
        lemma_read_tracks(ps, p, (n - 1) as nat);
        let e = p.tracks[n - 1];
        let before = read_playlist_lines(ps.push(head), all.take(n - 1));
        assert(all.take(n as int) =~= all.take(n - 1) + seq![track_line(e)]);
        lemma_read_concat(ps.push(head), all.take(n - 1), seq![track_line(e)]);
        lemma_track_line(e, before);
        reveal_with_fuel(read_playlist_lines, 2);
        assert(seq![track_line(e)].skip(1) =~= Seq::<Seq<char>>::empty());
        assert(before.drop_last() =~= ps);
        assert(stored.take(n as int) =~= stored.take(n - 1).push(stored_track(e)));
    }
}

proof fn lemma_read_locals(ps: Seq<PlaylistData>, p: PlaylistData, base: PlaylistData, n: nat)
    requires
        n <= p.local_tracks.len(),
        base.local_tracks.len() == 0,
    ensures
        ({
            let rows = p.local_tracks.map_values(|path: Seq<char>| local_line(path)).take(
                n as int,
            );
            read_playlist_lines(ps.push(base), rows) == ps.push(
                PlaylistData {
                    name: base.name,
                    channel: base.channel,
                    tracks: base.tracks,
                    local_tracks: p.local_tracks.map_values(
                        |path: Seq<char>| unbroken(path),
                    ).take(n as int),
                },
            )
        }),
    decreases n,
{
    let all = p.local_tracks.map_values(|path: Seq<char>| local_line(path));
    let stored = p.local_tracks.map_values(|path: Seq<char>| unbroken(path));
    if n == 0 {
        assert(all.take(0) =~= Seq::<Seq<char>>::empty());
        assert(stored.take(0) =~= base.local_tracks);
    } else {
        lemma_read_locals(ps, p, base, (n - 1) as nat);
        let path = p.local_tracks[n - 1];
        let before = read_playlist_lines(ps.push(base), all.take(n - 1));
        assert(all.take(n as int) =~= all.take(n - 1) + seq![local_line(path)]);
        lemma_read_concat(ps.push(base), all.take(n - 1), seq![local_line(path)]);
        lemma_local_line(path, before);
        reveal_with_fuel(read_playlist_lines, 2);
        assert(seq![local_line(path)].skip(1) =~= Seq::<Seq<char>>::empty());
        assert(before.drop_last() =~= ps);
        assert(stored.take(n as int) =~= stored.take(n - 1).push(unbroken(path)));
    }
}

proof fn lemma_read_playlist(ps: Seq<PlaylistData>, p: PlaylistData)
    requires
        storable(p),
    ensures
        read_playlist_lines(ps, playlist_lines(p)) == ps.push(stored_playlist(p)),
        forall|i: int|
            0 <= i < playlist_lines(p).len() ==> plain_line(#[trigger] playlist_lines(p)[i]),
{
    let head = new_playlist(clean_name(p.name), channel_identity(p.channel));
    let one = seq![head_line(p)];
    let tracks = p.tracks.map_values(|e: EntryData| track_line(e));
    let locals = p.local_tracks.map_values(|path: Seq<char>| local_line(path));
    lemma_head_line(p, ps);
    reveal_with_fuel(read_playlist_lines, 2);
    assert(one.skip(1) =~= Seq::<Seq<char>>::empty());
    assert(read_playlist_lines(ps, one) == ps.push(head));
    lemma_read_concat(ps, one, tracks);
    lemma_read_tracks(ps, p, p.tracks.len());
    assert(tracks.take(p.tracks.len() as int) =~= tracks);
    let stored = p.tracks.map_values(|e: EntryData| stored_track(e));
    assert(stored.take(p.tracks.len() as int) =~= stored);
    let base = PlaylistData {
        name: head.name,
        channel: head.channel,
        tracks: stored,
        local_tracks: seq![],
    };
    lemma_read_concat(ps, one + tracks, locals);
    lemma_read_locals(ps, p, base, p.local_tracks.len());
    assert(locals.take(p.local_tracks.len() as int) =~= locals);
    let stored_locals = p.local_tracks.map_values(|path: Seq<char>| unbroken(path));
    assert(stored_locals.take(p.local_tracks.len() as int) =~= stored_locals);
    let rows = playlist_lines(p);
    assert forall|i: int| 0 <= i < rows.len() implies plain_line(#[trigger] rows[i]) by {
        if i == 0 {
        } else if i < 1 + tracks.len() {
            lemma_track_line(p.tracks[i - 1], ps.push(head));
            assert(rows[i] == track_line(p.tracks[i - 1]));
        } else {
            lemma_local_line(p.local_tracks[i - 1 - tracks.len()], ps.push(head));
            assert(rows[i] == local_line(p.local_tracks[i - 1 - tracks.len()]));
        }
    }
}

proof fn lemma_read_playlists(ps: Seq<PlaylistData>)
    requires
        forall|i: int| 0 <= i < ps.len() ==> storable(#[trigger] ps[i]),
    ensures
        read_playlist_lines(seq![], all_playlist_lines(ps)) == ps.map_values(
            |p: PlaylistData| stored_playlist(p),
        ),
        forall|i: int|
            0 <= i < all_playlist_lines(ps).len() ==> plain_line(
                #[trigger] all_playlist_lines(ps)[i],
            ),
    decreases ps.len(),
{
    let want = ps.map_values(|p: PlaylistData| stored_playlist(p));
    if ps.len() == 0 {
        assert(want =~= seq![]);
    } else {
        let before = ps.drop_last();
        let p = ps.last();
        assert(storable(ps[ps.len() - 1]));
        lemma_read_playlists(before);
        lemma_read_concat(seq![], all_playlist_lines(before), playlist_lines(p));
        let done = before.map_values(|p: PlaylistData| stored_playlist(p));
        lemma_read_playlist(done, p);
        assert(want =~= done.push(stored_playlist(p)));
        let rows = all_playlist_lines(ps);
        let n = all_playlist_lines(before).len();
        assert forall|i: int| 0 <= i < rows.len() implies plain_line(#[trigger] rows[i]) by {
            if i < n {
                assert(rows[i] == all_playlist_lines(before)[i]);
            } else {
                assert(rows[i] == playlist_lines(p)[i - n]);
            }
        }
    }
}

/// Playlists that were saved are read back: every playlist with every song, in
/// order, for all channels whose identity fits into the file.
pub proof fn playlists_round_trip(ps: Seq<PlaylistData>)
    requires
        forall|i: int| 0 <= i < ps.len() ==> storable(#[trigger] ps[i]),
    ensures
        playlists_of(joined_lines(all_playlist_lines(ps))) == ps.map_values(
            |p: PlaylistData| stored_playlist(p),
        ),
{
    lemma_read_playlists(ps);
    lemma_lines_joined(all_playlist_lines(ps));
}

/// The identity of a private channel fits into the file.
pub proof fn private_channels_are_storable(
    peer: crate::channel::ChannelPeer,
    label: Seq<char>,
)
    ensures
        storable_channel(crate::channel::private_identity(peer, label)),
{
    crate::channel::private_identity_is_kept(peer, label);
}

/// Saving what was read changes nothing more.
pub proof fn storing_twice_is_storing_once(p: PlaylistData)
    requires
        storable(p),
    ensures
        stored_playlist(stored_playlist(p)) == stored_playlist(p),
{
    let once = stored_playlist(p);
    let twice = stored_playlist(once);
    lemma_trimmed(p.name);
    lemma_unbroken(trimmed(p.name));
    lemma_trimmed_fixed(clean_name(p.name));
    assert forall|i: int| 0 <= i < p.tracks.len() implies twice.tracks[i] == once.tracks[i] by {
        assert(storable_channel(p.tracks[i].channel));
        lemma_unbroken(p.tracks[i].name);
    }
    assert(twice.tracks =~= once.tracks);
    assert forall|i: int| 0 <= i < p.local_tracks.len() implies twice.local_tracks[i]
        == once.local_tracks[i] by {
        lemma_unbroken(p.local_tracks[i]);
    }
    assert(twice.local_tracks =~= once.local_tracks);
}

// ---------------------------------------------------------------------------
// Editing playlists
// ---------------------------------------------------------------------------

/// The messages of a playlist that come from a channel.
pub open spec fn chosen_ids(tracks: Seq<EntryData>, channel: Seq<char>) -> Seq<i32>
    decreases tracks.len(),
{
    if tracks.len() == 0 {
        seq![]
    } else {
        let before = chosen_ids(tracks.drop_last(), channel);
        if tracks.last().channel == channel {
            before.push(tracks.last().message_id)
        } else {
            before
        }
    }
}

/// The songs of a playlist that come from other channels.
pub open spec fn other_tracks(tracks: Seq<EntryData>, channel: Seq<char>) -> Seq<EntryData>
    decreases tracks.len(),
{
    if tracks.len() == 0 {
        seq![]
    } else {
        let before = other_tracks(tracks.drop_last(), channel);
        if tracks.last().channel == channel {
            before
        } else {
            before.push(tracks.last())
        }
    }
}

/// A playlist after the songs of one channel were chosen anew.
pub open spec fn with_channel_tracks(
    p: PlaylistData,
    channel: Seq<char>,
    selected: Seq<EntryData>,
) -> PlaylistData {
    let tracks = other_tracks(p.tracks, channel) + selected;
    PlaylistData {
        name: p.name,
        channel: if tracks.len() > 0 {
            tracks[0].channel
        } else {
            seq![]
        },
        tracks,
        local_tracks: seq![],
    }
}

/// The messages that are marked when the songs of a channel are chosen.
pub fn selected_ids(playlist: &Playlist, channel: &str) -> (r: Vec<i32>)
    ensures
        r@ == chosen_ids(playlist@.tracks, channel@),
{
    let ghost all = playlist@.tracks;
    let mut ids: Vec<i32> = Vec::new();
    let mut i: usize = 0;
    assert(all.take(0) =~= seq![]);
    while i < playlist.tracks.len()
        invariant
            i <= playlist.tracks@.len(),
            all == entries(playlist.tracks@),
            ids@ == chosen_ids(all.take(i as int), channel@),
        decreases playlist.tracks@.len() - i,
    {
        assert(all.take(i + 1).drop_last() =~= all.take(i as int));
        assert(all.take(i + 1).last() == playlist.tracks@[i as int]@);
        if same_text(playlist.tracks[i].channel.as_str(), channel) {
            ids.push(playlist.tracks[i].message_id);
        }
        i += 1;
    }
    assert(all.take(i as int) =~= all);
    ids
}

/// Puts the chosen songs of a channel in place of those that the playlist had
/// from it.
pub fn edit_telegram_playlist(
    playlist: &mut Playlist,
    channel: &str,
    selected: Vec<TelegramCatalogEntry>,
)
    ensures
        final(playlist)@ == with_channel_tracks(old(playlist)@, channel@, entries(selected@)),
{
    let ghost all = playlist@.tracks;
    let mut kept: Vec<TelegramCatalogEntry> = Vec::new();
    let mut i: usize = 0;
    assert(all.take(0) =~= seq![]);
    assert(entries(kept@) =~= seq![]);
    while i < playlist.tracks.len()
        invariant
            i <= playlist.tracks@.len(),
            all == entries(playlist.tracks@),
            entries(kept@) == other_tracks(all.take(i as int), channel@),
        decreases playlist.tracks@.len() - i,
    {
        assert(all.take(i + 1).drop_last() =~= all.take(i as int));
        assert(all.take(i + 1).last() == playlist.tracks@[i as int]@);
        if !same_text(playlist.tracks[i].channel.as_str(), channel) {
            let ghost before = kept@;
            let entry = playlist.tracks[i].clone();
            kept.push(entry);
            assert(entries(kept@) =~= entries(before).push(entry@));
        }
        i += 1;
    }
    assert(all.take(i as int) =~= all);
    let ghost others = kept@;
    let mut more = selected;
    let ghost chosen = more@;
    kept.append(&mut more);
    assert(entries(kept@) =~= entries(others) + entries(chosen));
    playlist.channel = if kept.len() > 0 {
        kept[0].channel.as_str().to_string()
    } else {
        String::new()
    };
    playlist.tracks = kept;
    playlist.local_tracks = Vec::new();
    assert(playlist@.channel =~= with_channel_tracks(old(playlist)@, channel@, entries(chosen)).channel);
    assert(playlist@.local_tracks =~= seq![]);
}

/// Makes a playlist one of local songs.
pub fn edit_local_playlist(playlist: &mut Playlist, selected: Vec<String>)
    ensures
        final(playlist)@ == (PlaylistData {
            name: old(playlist)@.name,
            channel: seq![],
            tracks: seq![],
            local_tracks: texts(selected@),
        }),
{
    playlist.channel = String::new();
    playlist.tracks = Vec::new();
    playlist.local_tracks = selected;
    assert(playlist@.channel =~= seq![]);
    assert(playlist@.tracks =~= seq![]);
}

/// The source that was chosen for the songs of a playlist.
#[derive(Clone, Copy, Debug, PartialEq, Eq, Structural)]
pub enum PlaylistSource {
    Telegram,
    Local,
}

/// What the answer to the source menu means.
pub fn edit_playlist(choice: Option<usize>) -> (r: Option<PlaylistSource>)
    ensures
        r == match choice {
            Some(index) => if index == 0 {
                Some(PlaylistSource::Telegram)
            } else {
                Some(PlaylistSource::Local)
            },
            None => None,
        },
{
    match choice {
        Some(index) => if index == 0 {
            Some(PlaylistSource::Telegram)
        } else {
            Some(PlaylistSource::Local)
        },
        None => None,
    }
}

/// A playlist without songs, under a name that was typed; an empty name makes
/// none.
pub fn empty_playlist(name: &str) -> (r: Option<Playlist>)
    ensures
        match r {
            Some(p) => clean_name(name@).len() > 0 && p@ == new_playlist(
                clean_name(name@),
                seq![],
            ),
            None => clean_name(name@).len() == 0,
        },
{
    let name = clean_playlist_name(name);
    if is_empty_text(name.as_str()) {
        return None;
    }
    let p = Playlist {
        name,
        channel: String::new(),
        tracks: Vec::new(),
        local_tracks: Vec::new(),
    };
    assert(p@.channel =~= seq![]);
    assert(p@.tracks =~= seq![]);
    assert(p@.local_tracks =~= seq![]);
    Some(p)
}

/// Keeps a new playlist if songs were chosen for it.
pub fn create_playlist(playlists: &mut Vec<Playlist>, playlist: Playlist) -> (r: bool)
    ensures
        r == (songs_in(playlist@) > 0),
        final(playlists)@ == if songs_in(playlist@) > 0 {
            old(playlists)@.push(playlist)
        } else {
            old(playlists)@
        },
{
    if playlist.song_count() > 0 {
        playlists.push(playlist);
        true
    } else {
        false
    }
}

/// Gives a playlist a new name, unless that is empty.
pub fn rename_playlist(playlists: &mut Vec<Playlist>, index: usize, name: &str) -> (r: bool)
    requires
        index < old(playlists)@.len(),
    ensures
        r == (clean_name(name@).len() > 0),
        !r ==> final(playlists)@ == old(playlists)@,
        r ==> playlists_view(final(playlists)@) == playlists_view(old(playlists)@).update(
            index as int,
            PlaylistData {
                name: clean_name(name@),
                channel: old(playlists)@[index as int]@.channel,
                tracks: old(playlists)@[index as int]@.tracks,
                local_tracks: old(playlists)@[index as int]@.local_tracks,
            },
        ),
{
    let name = clean_playlist_name(name);
    if is_empty_text(name.as_str()) {
        return false;
    }
    let mut p = playlists[index].clone();
    p.name = name;
    playlists.set(index, p);
    assert(playlists_view(playlists@) =~= playlists_view(old(playlists)@).update(index as int, p@));
    true
}

/// The playlist that an answer to a list of playlists means; the row behind
/// the last one cancels.
pub fn choose_playlist(count: usize, choice: Option<usize>) -> (r: Option<usize>)
    ensures
        r == match choice {
            Some(index) => if index < count {
                Some(index)
            } else {
                None
            },
            None => None,
        },
{
    match choice {
        Some(index) => if index < count {
            Some(index)
        } else {
            None
        },
        None => None,
    }
}

/// The rows from which a playlist is chosen.
pub open spec fn choice_rows(ps: Seq<PlaylistData>) -> Seq<Seq<char>> {
    ps.map_values(|p: PlaylistData| p.name).push("←  Cancel"@)
}

pub fn playlist_choices(playlists: &[Playlist]) -> (r: Vec<String>)
    ensures
        texts(r@) == choice_rows(playlists_view(playlists@)),
{
    let mut rows: Vec<String> = Vec::new();
    let ghost all = playlists_view(playlists@).map_values(|p: PlaylistData| p.name);
    let mut i: usize = 0;
    while i < playlists.len()
        invariant
            i <= playlists@.len(),
            all == playlists_view(playlists@).map_values(|p: PlaylistData| p.name),
            texts(rows@) =~= all.take(i as int),
        decreases playlists@.len() - i,
    {
        let name = playlists[i].name.as_str().to_string();
        let ghost before = rows@;
        rows.push(name);
        assert(texts(rows@) =~= texts(before).push(name@));
        i += 1;
    }
    assert(all.take(i as int) =~= all);
    let ghost before = rows@;
    let cancel = "←  Cancel".to_string();
    rows.push(cancel);
    assert(texts(rows@) =~= texts(before).push(cancel@));
    assert(texts(rows@) =~= choice_rows(playlists_view(playlists@)));
    rows
}

/// How a playlist is listed.
pub open spec fn playlist_row(p: PlaylistData) -> Seq<char> {
    "▶  "@ + p.name + " ("@ + (if local_playlist(p) {
        "local"@
    } else {
        "Telegram, "@ + decimal(source_channels(p.tracks).to_set().len()) + " channels"@
    }) + ", "@ + decimal(songs_in(p)) + " songs)"@
}

pub fn playlist_label(p: &Playlist) -> (r: String)
    ensures
        r@ == playlist_row(p@),
{
    let mut out = "▶  ".to_string();
    out.append(p.name.as_str());
    out.append(" (");
    let source = if p.is_local() {
        "local".to_string()
    } else {
        let mut source = "Telegram, ".to_string();
        source.append(format_usize(p.channel_count()).as_str());
        source.append(" channels");
        source
    };
    out.append(source.as_str());
    out.append(", ");
    out.append(format_usize(p.song_count()).as_str());
    out.append(" songs)");
    out
}

// ---------------------------------------------------------------------------
// What holds of edited playlists
// ---------------------------------------------------------------------------

/// An edit of the songs of a channel leaves exactly the selected ones of that
/// channel, in their order, behind the songs of the other channels, which stay as
/// they were. Nothing else of a Telegram playlist changes but the channel that it
/// is listed under.
pub proof fn edits_replace_the_songs_of_one_channel(
    p: PlaylistData,
    channel: Seq<char>,
    selected: Seq<EntryData>,
)
    requires
        forall|i: int| 0 <= i < selected.len() ==> (#[trigger] selected[i]).channel == channel,
    ensures
        ({
            let after = with_channel_tracks(p, channel, selected);
            &&& after.tracks.filter(|e: EntryData| e.channel == channel) == selected
            &&& after.tracks.filter(|e: EntryData| e.channel != channel) == p.tracks.filter(
                |e: EntryData| e.channel != channel,
            )
            &&& after.tracks == p.tracks.filter(|e: EntryData| e.channel != channel) + selected
            &&& after.local_tracks.len() == 0
            &&& after.name == p.name
            &&& after.tracks.len() > 0 ==> after.channel == after.tracks[0].channel
            &&& after.tracks.len() == 0 ==> after.channel.len() == 0
        }),
{
    let mine = |e: EntryData| e.channel == channel;
    let theirs = |e: EntryData| e.channel != channel;
    let others = p.tracks.filter(theirs);
    lemma_other_tracks(p.tracks, channel);
    lemma_filter_all(selected, mine);
    lemma_filter_none(selected, theirs);
    lemma_others_are_others(p.tracks, channel);
    lemma_filter_all(others, theirs);
    lemma_filter_none(others, mine);
    Seq::filter_distributes_over_add(others, selected, mine);
    Seq::filter_distributes_over_add(others, selected, theirs);
    assert(Seq::<EntryData>::empty() + selected =~= selected);
    assert(others + Seq::<EntryData>::empty() =~= others);
}

proof fn lemma_others_are_others(tracks: Seq<EntryData>, channel: Seq<char>)
    ensures
        ({
            let others = tracks.filter(|e: EntryData| e.channel != channel);
            forall|i: int| 0 <= i < others.len() ==> (#[trigger] others[i]).channel != channel
        }),
{
    broadcast use vstd::seq_lib::group_filter_ensures;

    let others = tracks.filter(|e: EntryData| e.channel != channel);
    assert(others.len() >= 0);
}

proof fn lemma_other_tracks(tracks: Seq<EntryData>, channel: Seq<char>)
    ensures
        other_tracks(tracks, channel) == tracks.filter(|e: EntryData| e.channel != channel),
    decreases tracks.len(),
{
    reveal(Seq::filter);
    if tracks.len() > 0 {
        lemma_other_tracks(tracks.drop_last(), channel);
    }
}

proof fn lemma_filter_all<A>(s: Seq<A>, keep: spec_fn(A) -> bool)
    requires
        forall|i: int| 0 <= i < s.len() ==> keep(#[trigger] s[i]),
    ensures
        s.filter(keep) == s,
    decreases s.len(),
{
    reveal(Seq::filter);
    if s.len() > 0 {
        assert forall|i: int| 0 <= i < s.drop_last().len() implies keep(
            #[trigger] s.drop_last()[i],
        ) by {
            assert(s.drop_last()[i] == s[i]);
        }
        lemma_filter_all(s.drop_last(), keep);
        assert(keep(s[s.len() - 1]));
        assert(s.drop_last().push(s.last()) =~= s);
    }
}

proof fn lemma_filter_none<A>(s: Seq<A>, keep: spec_fn(A) -> bool)
    requires
        forall|i: int| 0 <= i < s.len() ==> !keep(#[trigger] s[i]),
    ensures
        s.filter(keep) == Seq::<A>::empty(),
    decreases s.len(),
{
    reveal(Seq::filter);
    if s.len() > 0 {
        assert forall|i: int| 0 <= i < s.drop_last().len() implies !keep(
            #[trigger] s.drop_last()[i],
        ) by {
            assert(s.drop_last()[i] == s[i]);
        }
        lemma_filter_none(s.drop_last(), keep);
        assert(!keep(s[s.len() - 1]));
    }
}

/// The messages that a playlist has of a channel are those of its songs from
/// that channel, in their order.
pub proof fn selected_messages_are_those_of_the_channel(
    tracks: Seq<EntryData>,
    channel: Seq<char>,
)
    ensures
        chosen_ids(tracks, channel) == tracks.filter(
            |e: EntryData| e.channel == channel,
        ).map_values(|e: EntryData| e.message_id),
    decreases tracks.len(),
{
    reveal(Seq::filter);
    if tracks.len() > 0 {
        selected_messages_are_those_of_the_channel(tracks.drop_last(), channel);
    }
    assert(chosen_ids(tracks, channel) =~= tracks.filter(
        |e: EntryData| e.channel == channel,
    ).map_values(|e: EntryData| e.message_id));
}

/// A name is kept without white space around it, on one line.
pub proof fn names_are_kept_on_one_line(name: Seq<char>)
    requires
        name.len() > 0 ==> !crate::text::white_space(name[0]) && !crate::text::white_space(
            name.last(),
        ),
        forall|i: int|
            0 <= i < name.len() ==> #[trigger] name[i] != '\t' && name[i] != '\r' && name[i]
                != '\n',
    ensures
        clean_name(name) == name,
        clean_name(seq![' '] + name + seq![' ']) == name,
{
    crate::text::lemma_trimmed_fixed(name);
    assert(unbroken(name) =~= name);
    let padded = seq![' '] + name + seq![' '];
    lemma_padding(name);
}

proof fn lemma_padding(name: Seq<char>)
    requires
        name.len() > 0 ==> !crate::text::white_space(name[0]) && !crate::text::white_space(
            name.last(),
        ),
    ensures
        crate::text::trimmed(seq![' '] + name + seq![' ']) == name,
{
    let padded = seq![' '] + name + seq![' '];
    assert(padded.skip(1) =~= name.push(' '));
    let t = name.push(' ');
    if name.len() > 0 {
        assert(t[0] == name[0]);
        assert(crate::text::trim_start(t) == t);
        assert(t.drop_last() =~= name);
        assert(crate::text::trim_end(t) == crate::text::trim_end(name));
    } else {
        assert(t.skip(1) =~= name);
        assert(crate::text::trim_start(name) == name);
        assert(crate::text::trim_start(t) == name);
    }
    assert(crate::text::trim_start(padded) == crate::text::trim_start(t));
}

/// Saved playlists come back as they were, where their names fit on a line and
/// their channels are written as they are saved.
pub proof fn saved_playlists_come_back(ps: Seq<PlaylistData>)
    requires
        forall|i: int| 0 <= i < ps.len() ==> storable(#[trigger] ps[i]),
        forall|i: int|
            0 <= i < ps.len() ==> clean_name((#[trigger] ps[i]).name) == ps[i].name
                && channel_identity(ps[i].channel) == ps[i].channel,
        forall|i: int, k: int|
            #![trigger ps[i].tracks[k]]
            0 <= i < ps.len() && 0 <= k < ps[i].tracks.len() ==> channel_identity(
                ps[i].tracks[k].channel,
            ) == ps[i].tracks[k].channel && !ps[i].tracks[k].name.contains('\t')
                && !ps[i].tracks[k].name.contains('\n') && !ps[i].tracks[k].name.contains('\r'),
        forall|i: int, k: int|
            #![trigger ps[i].local_tracks[k]]
            0 <= i < ps.len() && 0 <= k < ps[i].local_tracks.len()
                ==> !ps[i].local_tracks[k].contains('\t') && !ps[i].local_tracks[k].contains('\n')
                && !ps[i].local_tracks[k].contains('\r'),
    ensures
        playlists_of(joined_lines(all_playlist_lines(ps))) == ps,
{
    playlists_round_trip(ps);
    let stored = ps.map_values(|p: PlaylistData| stored_playlist(p));
    assert forall|i: int| 0 <= i < ps.len() implies #[trigger] stored[i] == ps[i] by {
        let p = ps[i];
        let tracks = stored[i].tracks;
        assert forall|k: int| 0 <= k < p.tracks.len() implies #[trigger] tracks[k] == p.tracks[k] by {
            assert(!ps[i].tracks[k].name.contains('\t'));
            lemma_unbroken_name(p.tracks[k].name);
        }
        assert(tracks =~= p.tracks);
        let paths = stored[i].local_tracks;
        assert forall|k: int| 0 <= k < p.local_tracks.len() implies #[trigger] paths[k]
            == p.local_tracks[k] by {
            assert(!ps[i].local_tracks[k].contains('\t'));
            lemma_unbroken_name(p.local_tracks[k]);
        }
        assert(paths =~= p.local_tracks);
    }
    assert(stored =~= ps);
}

proof fn lemma_unbroken_name(name: Seq<char>)
    requires
        !name.contains('\t') && !name.contains('\n') && !name.contains('\r'),
    ensures
        unbroken(name) == name,
{
    assert forall|i: int| 0 <= i < name.len() implies #[trigger] unbroken(name)[i] == name[i] by {
        assert(name.contains(name[i]));
    }
    assert(unbroken(name) =~= name);
}

/// A playlist starts with its line, and each song is added behind the songs of
/// the last playlist.
pub proof fn playlist_lines_add_up(
    ps: Seq<PlaylistData>,
    name: Seq<char>,
    channel: Seq<char>,
    id: i32,
    path: Seq<char>,
)
    requires
        !name.contains('\t') && !channel.contains('\t') && !path.contains('\t'),
    ensures
        read_playlist_line(ps, "playlist"@ + seq!['\t'] + (name + seq!['\t'] + channel)) == ps.push(
            PlaylistData {
                name,
                channel: channel_identity(channel),
                tracks: seq![],
                local_tracks: seq![],
            },
        ),
        ps.len() > 0 ==> ({
            let p = ps.last();
            let after = read_playlist_line(
                ps,
                "track"@ + seq!['\t'] + (channel + seq!['\t'] + (decimal_int(id as int)
                    + seq!['\t'] + name)),
            );
            &&& after.len() == ps.len() && after.drop_last() == ps.drop_last()
            &&& after.last().tracks == p.tracks.push(
                EntryData { channel: channel_identity(channel), message_id: id, name },
            )
            &&& after.last().name == p.name && after.last().channel == p.channel
            &&& after.last().local_tracks == p.local_tracks
        }),
        ps.len() > 0 ==> ({
            let p = ps.last();
            let after = read_playlist_line(ps, "local"@ + seq!['\t'] + path);
            &&& after.len() == ps.len() && after.drop_last() == ps.drop_last()
            &&& after.last().local_tracks == p.local_tracks.push(path)
            &&& after.last().name == p.name && after.last().channel == p.channel
            &&& after.last().tracks == p.tracks
        }),
{
    reveal_strlit("playlist");
    reveal_strlit("track");
    reveal_strlit("local");
    assert("local"@[0] == 'l' && "track"@[0] == 't' && "playlist"@.len() == 8);
    let number = decimal_int(id as int);
    crate::number::lemma_decimal_int_round_trip(id as int);
    assert(!number.contains('\t')) by {
        assert forall|i: int| 0 <= i < number.len() implies #[trigger] number[i] != '\t' by {}
    }
    crate::text::lemma_splitn_prepend("playlist"@, name + seq!['\t'] + channel, 4, '\t');
    crate::text::lemma_splitn_prepend(name, channel, 3, '\t');
    crate::text::lemma_splitn_single(channel, 2, '\t');
    let tail = channel + seq!['\t'] + (number + seq!['\t'] + name);
    crate::text::lemma_splitn_prepend("track"@, tail, 4, '\t');
    crate::text::lemma_splitn_prepend(channel, number + seq!['\t'] + name, 3, '\t');
    crate::text::lemma_splitn_prepend(number, name, 2, '\t');
    crate::text::lemma_splitn_single(name, 1, '\t');
    crate::text::lemma_splitn_prepend("local"@, path, 4, '\t');
    crate::text::lemma_splitn_single(path, 3, '\t');
}

/// How a playlist is shown: local ones by their songs, and the others by their
/// songs and by how many channels these are of.
pub proof fn playlists_show_how_many_songs(p: PlaylistData)
    ensures
        p.local_tracks.len() > 0 ==> playlist_row(p) == "▶  "@ + p.name + " ("@ + "local"@ + ", "@
            + decimal(p.local_tracks.len()) + " songs)"@,
        p.local_tracks.len() == 0 && p.tracks.len() > 0 ==> playlist_row(p) == "▶  "@ + p.name + " ("@
            + ("Telegram, "@ + decimal(p.tracks.map_values(|e: EntryData| e.channel).to_set().len())
            + " channels"@) + ", "@ + decimal(p.tracks.len()) + " songs)"@,
{
}

} // verus!
