//! Catalogs of the songs in Telegram channels.
use crate::channel::{
    channel_identity, channel_label, normalize_channel_identity, readable_identity, safe_file_name,
    safe_name, telegram_channel_label,
};
use crate::number::{
    decimal, decimal_int, explain_number, format_i64, format_usize, i32_value,
    lemma_decimal_int_round_trip, number_error, parse_i32,
};
use crate::paths::{extension, path_extension};
use crate::search::{
    matching, matching_rows, needle_of, one_text_row, query_needle, row_texts,
};
use crate::text::{
    ascii_digit, ascii_lowered, find, find_from, has_prefix, is_empty_text, join_lines,
    joined_lines, lemma_find_is, lemma_lines_joined, lemma_unbroken, lines, lowercased, plain_line,
    same_text, slice_text, split_lines, starts_with, texts, to_ascii_lowered, to_chars, to_unbroken,
    trimmed, unbroken,
};
use vstd::prelude::*;

verus! {

/// One song of a channel.
#[derive(Debug)]
pub struct TelegramCatalogEntry {
    pub channel: String,
    pub message_id: i32,
    pub name: String,
}

/// What a catalog entry holds.
pub struct EntryData {
    pub channel: Seq<char>,
    pub message_id: i32,
    pub name: Seq<char>,
}

impl TelegramCatalogEntry {
    pub open spec fn view(&self) -> EntryData {
        EntryData { channel: self.channel@, message_id: self.message_id, name: self.name@ }
    }
}

impl Clone for TelegramCatalogEntry {
    fn clone(&self) -> (r: TelegramCatalogEntry)
        ensures
            r@ == self@,
    {
        TelegramCatalogEntry {
            channel: self.channel.as_str().to_string(),
            message_id: self.message_id,
            name: self.name.as_str().to_string(),
        }
    }
}

impl PartialEq for TelegramCatalogEntry {
    fn eq(&self, other: &TelegramCatalogEntry) -> (r: bool) {
        self.message_id == other.message_id && same_text(
            self.channel.as_str(),
            other.channel.as_str(),
        ) && same_text(self.name.as_str(), other.name.as_str())
    }
}

impl vstd::std_specs::cmp::PartialEqSpecImpl for TelegramCatalogEntry {
    open spec fn obeys_eq_spec() -> bool {
        true
    }

    open spec fn eq_spec(&self, other: &TelegramCatalogEntry) -> bool {
        self.message_id == other.message_id && self.channel@ == other.channel@ && self.name@
            == other.name@
    }
}

/// What the entries of a catalog hold.
pub open spec fn entries(v: Seq<TelegramCatalogEntry>) -> Seq<EntryData> {
    v.map_values(|e: TelegramCatalogEntry| e@)
}

// ---------------------------------------------------------------------------
// The catalog file
// ---------------------------------------------------------------------------

/// One line of a catalog: the message, a tab, and the name.
pub open spec fn entry_line(entry: EntryData) -> Seq<char> {
    decimal_int(entry.message_id as int) + seq!['\t'] + unbroken(entry.name)
}

pub open spec fn entry_lines(catalog: Seq<EntryData>) -> Seq<Seq<char>> {
    catalog.map_values(|e: EntryData| entry_line(e))
}

/// What the file of a catalog holds.
pub fn serialize_catalog(catalog: &[TelegramCatalogEntry]) -> (r: String)
    ensures
        r@ == joined_lines(entry_lines(entries(catalog@))),
{
    let mut rows: Vec<String> = Vec::new();
    let mut i: usize = 0;
    while i < catalog.len()
        invariant
            i <= catalog@.len(),
            texts(rows@) =~= entry_lines(entries(catalog@)).take(i as int),
        decreases catalog@.len() - i,
    {
        let mut row = format_i64(catalog[i].message_id as i64);
        row.push('\t');
        row.append(to_unbroken(catalog[i].name.as_str()).as_str());
        assert(row@ =~= entry_line(catalog@[i as int]@));
        let ghost before = rows@;
        rows.push(row);
        assert(texts(rows@) =~= texts(before).push(row@));
        i += 1;
    }
    assert(texts(rows@) =~= entry_lines(entries(catalog@)));
    join_lines(&rows)
}

/// A place in a catalog file, as errors name it.
pub open spec fn line_place(path: Seq<char>, index: int) -> Seq<char> {
    path + ":"@ + decimal((index + 1) as nat)
}

/// Reads one line of a catalog.
pub open spec fn read_entry(line: Seq<char>, path: Seq<char>, index: int) -> Result<
    EntryData,
    Seq<char>,
> {
    let at = find(line, '\t') as int;
    if at >= line.len() {
        Err("invalid song list entry at "@ + line_place(path, index))
    } else {
        match i32_value(line.take(at)) {
            Some(id) => Ok(
                EntryData { channel: seq![], message_id: id, name: line.skip(at + 1) },
            ),
            None => Err(
                "invalid message ID at "@ + line_place(path, index) + ": "@ + number_error(
                    line.take(at),
                    true,
                    i32::MAX as nat,
                ),
            ),
        }
    }
}

/// The entries of the first `n` lines of a catalog, or the first error.
pub open spec fn read_entries(rows: Seq<Seq<char>>, path: Seq<char>, n: nat) -> Result<
    Seq<EntryData>,
    Seq<char>,
>
    decreases n,
{
    if n == 0 {
        Ok(seq![])
    } else {
        match read_entries(rows, path, (n - 1) as nat) {
            Ok(found) => match read_entry(rows[n - 1], path, n - 1) {
                Ok(entry) => Ok(found.push(entry)),
                Err(e) => Err(e),
            },
            Err(e) => Err(e),
        }
    }
}

/// What a catalog file holds.
pub open spec fn catalog_of(text: Seq<char>, path: Seq<char>) -> Result<
    Seq<EntryData>,
    Seq<char>,
> {
    read_entries(lines(text), path, lines(text).len())
}

proof fn lemma_read_fault(rows: Seq<Seq<char>>, path: Seq<char>, n: nat, m: nat)
    requires
        n <= m,
        read_entries(rows, path, n) is Err,
    ensures
        read_entries(rows, path, m) == read_entries(rows, path, n),
    decreases m,
{
    if n < m {
        lemma_read_fault(rows, path, n, (m - 1) as nat);
    }
}

fn with_place(what: &str, path: &str, index: usize) -> (r: String)
    requires
        index < usize::MAX,
    ensures
        r@ == what@ + line_place(path@, index as int),
{
    let mut out = path.to_string();
    out.append(":");
    out.append(format_usize(index + 1).as_str());
    let mut all = what.to_string();
    all.append(out.as_str());
    all
}

fn parse_entry(line: &str, path: &str, index: usize) -> (r: Result<TelegramCatalogEntry, String>)
    requires
        index < usize::MAX,
    ensures
        match r {
            Ok(entry) => read_entry(line@, path@, index as int) == Ok::<EntryData, Seq<char>>(
                entry@,
            ),
            Err(e) => read_entry(line@, path@, index as int) == Err::<EntryData, Seq<char>>(e@),
        },
{
    let chars = to_chars(line);
    let at: usize = find_from(&chars, 0, '\t');
    assert(chars@.skip(0) =~= chars@);
    if at >= chars.len() {
        return Err(with_place("invalid song list entry at ", path, index));
    }
    let id = slice_text(&chars, 0, at);
    assert(id@ =~= line@.take(at as int));
    match parse_i32(id.as_str()) {
        Some(message_id) => {
            let name = slice_text(&chars, at + 1, chars.len());
            assert(name@ =~= line@.skip(at + 1));
            let channel = String::new();
            assert(channel@ =~= seq![]);
            Ok(TelegramCatalogEntry { channel, message_id, name })
        },
        None => {
            let mut e = with_place("invalid message ID at ", path, index);
            e.append(": ");
            e.append(explain_number(id.as_str(), true, 2147483647));
            Err(e)
        },
    }
}

/// Reads the file of a catalog.
pub fn parse_catalog(text: &str, path: &str) -> (r: Result<Vec<TelegramCatalogEntry>, String>)
    ensures
        match r {
            Ok(found) => catalog_of(text@, path@) == Ok::<Seq<EntryData>, Seq<char>>(
                entries(found@),
            ),
            Err(e) => catalog_of(text@, path@) == Err::<Seq<EntryData>, Seq<char>>(e@),
        },
{
    let rows = split_lines(text);
    let ghost all = lines(text@);
    let mut found: Vec<TelegramCatalogEntry> = Vec::new();
    let mut i: usize = 0;
    assert(entries(found@) =~= seq![]);
    while i < rows.len()
        invariant
            i <= rows@.len(),
            texts(rows@) == all,
            all == lines(text@),
            read_entries(all, path@, i as nat) == Ok::<Seq<EntryData>, Seq<char>>(
                entries(found@),
            ),
        decreases rows@.len() - i,
    {
        assert(all[i as int] == rows@[i as int]@);
        match parse_entry(rows[i].as_str(), path, i) {
            Ok(entry) => {
                let ghost before = found@;
                found.push(entry);
                assert(entries(found@) =~= entries(before).push(entry@));
            },
            Err(e) => {
                proof {
                    assert(read_entries(all, path@, (i + 1) as nat) == Err::<
                        Seq<EntryData>,
                        Seq<char>,
                    >(e@));
                    lemma_read_fault(all, path@, (i + 1) as nat, all.len());
                }
                return Err(e);
            },
        }
        i += 1;
    }
    Ok(found)
}

/// An entry as it comes back from a catalog file.
pub open spec fn stored_entry(entry: EntryData) -> EntryData {
    EntryData { channel: seq![], message_id: entry.message_id, name: unbroken(entry.name) }
}

proof fn lemma_entry_line(entry: EntryData, path: Seq<char>, index: int)
    ensures
        plain_line(entry_line(entry)),
        read_entry(entry_line(entry), path, index) == Ok::<EntryData, Seq<char>>(
            stored_entry(entry),
        ),
{
    let id = decimal_int(entry.message_id as int);
    let name = unbroken(entry.name);
    let line = entry_line(entry);
    lemma_decimal_int_round_trip(entry.message_id as int);
    lemma_unbroken(entry.name);
    assert(line.take(id.len() as int) =~= id);
    assert(line.skip(id.len() as int + 1) =~= name);
    assert forall|i: int| 0 <= i < line.len() implies #[trigger] line[i] != '\n' by {
        if i < id.len() {
            assert(line[i] == id[i]);
            assert(ascii_digit(id[i]) || id[i] == '-');
        } else if i > id.len() {
            assert(line[i] == name[i - id.len() - 1]);
            assert(name.contains(line[i]));
        }
    }
    if name.len() > 0 {
        assert(line.last() == name.last());
        assert(name.contains(name.last()));
    }
    assert forall|i: int| 0 <= i < id.len() implies #[trigger] line[i] != '\t' by {
        assert(line[i] == id[i]);
        assert(ascii_digit(id[i]) || id[i] == '-');
    }
    lemma_find_is(line, '\t', id.len() as int);
}

/// A catalog that was saved is read back: every message in its place, with its
/// name on one line. The channel is not part of the file.
pub proof fn catalog_round_trips(catalog: Seq<EntryData>, path: Seq<char>)
    ensures
        catalog_of(joined_lines(entry_lines(catalog)), path) == Ok::<Seq<EntryData>, Seq<char>>(
            catalog.map_values(|e: EntryData| stored_entry(e)),
        ),
{
    let rows = entry_lines(catalog);
    assert forall|i: int| 0 <= i < rows.len() implies plain_line(#[trigger] rows[i]) by {
        lemma_entry_line(catalog[i], path, i);
    }
    lemma_lines_joined(rows);
    lemma_read_entries(catalog, path, catalog.len());
    assert(catalog.take(catalog.len() as int) =~= catalog);
}

proof fn lemma_read_entries(catalog: Seq<EntryData>, path: Seq<char>, n: nat)
    requires
        n <= catalog.len(),
    ensures
        read_entries(entry_lines(catalog), path, n) == Ok::<Seq<EntryData>, Seq<char>>(
            catalog.take(n as int).map_values(|e: EntryData| stored_entry(e)),
        ),
    decreases n,
{
    let want = catalog.take(n as int).map_values(|e: EntryData| stored_entry(e));
    if n > 0 {
        lemma_read_entries(catalog, path, (n - 1) as nat);
        lemma_entry_line(catalog[n - 1], path, n - 1);
        let before = catalog.take(n - 1).map_values(|e: EntryData| stored_entry(e));
        assert(before.push(stored_entry(catalog[n - 1])) =~= want);
    } else {
        assert(want =~= seq![]);
    }
}

// ---------------------------------------------------------------------------
// Searching a catalog
// ---------------------------------------------------------------------------

/// The text by which a song is found: its channel and its name.
pub open spec fn entry_row(entry: EntryData) -> Seq<Seq<char>> {
    seq![lowercased(entry.channel + " "@ + entry.name)]
}

pub open spec fn entry_rows(catalog: Seq<EntryData>) -> Seq<Seq<Seq<char>>> {
    catalog.map_values(|e: EntryData| entry_row(e))
}

/// The texts by which the songs of a catalog are found.
pub fn catalog_rows(catalog: &[TelegramCatalogEntry]) -> (r: Vec<Vec<String>>)
    ensures
        row_texts(r@) == entry_rows(entries(catalog@)),
{
    let mut rows: Vec<Vec<String>> = Vec::new();
    let mut i: usize = 0;
    while i < catalog.len()
        invariant
            i <= catalog@.len(),
            row_texts(rows@) == entry_rows(entries(catalog@)).take(i as int),
        decreases catalog@.len() - i,
    {
        let mut text = catalog[i].channel.as_str().to_string();
        text.append(" ");
        text.append(catalog[i].name.as_str());
        let row = one_text_row(text.as_str());
        let ghost before = rows@;
        rows.push(row);
        assert(row_texts(rows@) =~= row_texts(before).push(texts(row@)));
        i += 1;
    }
    assert(row_texts(rows@) =~= entry_rows(entries(catalog@)));
    rows
}

pub fn search_catalog(catalog: &[TelegramCatalogEntry], query: &str) -> (r: Vec<usize>)
    ensures
        r@ == matching(entry_rows(entries(catalog@)), query_needle(query@)),
        forall|i: int, j: int| 0 <= i < j < r@.len() ==> (#[trigger] r@[i]) < (#[trigger] r@[j]),
        forall|i: int| 0 <= i < r@.len() ==> (#[trigger] r@[i]) < catalog@.len(),
        ({
            let needle = lowercased(trimmed(query@));
            forall|k: int|
                #![trigger catalog@[k]]
                0 <= k < catalog@.len() ==> (r@.contains(k as usize) <==> {
                    let text0 = lowercased(catalog@[k].channel@ + " "@ + catalog@[k].name@);
                    (exists|at: int|
                        0 <= at <= text0.len() - needle.len() && #[trigger] text0.subrange(
                            at,
                            at + needle.len(),
                        ) == needle)
                })
        }),
{
    let rows = catalog_rows(catalog);
    let found = matching_rows(&rows, needle_of(query).as_str());
    proof {
        let all = entry_rows(entries(catalog@));
        let needle = lowercased(trimmed(query@));
        assert(rows.len() == row_texts(rows@).len());
        crate::search::search_finds_exactly_the_matches(all, query_needle(query@));
        assert forall|k: int|
            #![trigger catalog@[k]]
            0 <= k < catalog@.len() implies (found@.contains(k as usize) <==> {
                    let text0 = lowercased(catalog@[k].channel@ + " "@ + catalog@[k].name@);
                    (exists|at: int|
                        0 <= at <= text0.len() - needle.len() && #[trigger] text0.subrange(
                            at,
                            at + needle.len(),
                        ) == needle)
            }) by {
            crate::search::searches_look_for_the_whole_query(all, query@, k);
            assert(all[k].len() == 1);
            assert(all[k][0] == lowercased(catalog@[k].channel@ + " "@ + catalog@[k].name@));
        }
    }
    found
}

// ---------------------------------------------------------------------------
// Songs that play first
// ---------------------------------------------------------------------------

/// The positions below `n` that are selected, or that are not, in order.
pub open spec fn positions(selected: Seq<usize>, wanted: bool, n: nat) -> Seq<usize>
    decreases n,
{
    if n == 0 {
        seq![]
    } else {
        let before = positions(selected, wanted, (n - 1) as nat);
        if selected.contains((n - 1) as usize) == wanted {
            before.push((n - 1) as usize)
        } else {
            before
        }
    }
}

/// The order in which a catalog of `n` songs plays when some are selected:
/// those first, then all others, both in the order of the catalog.
pub open spec fn priority_order(selected: Seq<usize>, n: nat) -> Seq<usize> {
    positions(selected, true, n) + positions(selected, false, n)
}

proof fn lemma_positions(selected: Seq<usize>, wanted: bool, n: nat)
    requires
        n <= usize::MAX,
    ensures
        ({
            let found = positions(selected, wanted, n);
            &&& forall|i: int|
                0 <= i < found.len() ==> (#[trigger] found[i]) < n && selected.contains(found[i])
                    == wanted
            &&& forall|i: int, j: int|
                0 <= i < j < found.len() ==> (#[trigger] found[i]) < (#[trigger] found[j])
            &&& forall|k: usize|
                k < n && #[trigger] selected.contains(k) == wanted ==> found.contains(k)
        }),
    decreases n,
{
    if n > 0 {
        lemma_positions(selected, wanted, (n - 1) as nat);
        let before = positions(selected, wanted, (n - 1) as nat);
        let found = positions(selected, wanted, n);
        assert forall|i: int| 0 <= i < found.len() implies (#[trigger] found[i]) < n
            && selected.contains(found[i]) == wanted by {
            if i < before.len() {
                assert(found[i] == before[i]);
            }
        }
        assert forall|i: int, j: int| 0 <= i < j < found.len() implies (#[trigger] found[i]) < (
        #[trigger] found[j]) by {
            assert(found[i] == before[i]);
            if j < before.len() {
                assert(found[j] == before[j]);
            }
        }
        assert forall|k: usize| k < n && #[trigger] selected.contains(k)
            == wanted implies found.contains(k) by {
            if k < n - 1 {
                let i = choose|i: int| 0 <= i < before.len() && before[i] == k;
                assert(found[i] == k);
            } else {
                assert(found[found.len() - 1] == k);
            }
        }
    }
}

proof fn lemma_positions_count(selected: Seq<usize>, n: nat)
    ensures
        positions(selected, true, n).len() + positions(selected, false, n).len() == n,
    decreases n,
{
    if n > 0 {
        lemma_positions_count(selected, (n - 1) as nat);
    }
}

/// Songs that play first lose no song of the catalog: each position occurs
/// exactly once, the selected ones stand before all others, and both parts
/// keep the order of the catalog.
pub proof fn priority_order_keeps_every_song(selected: Seq<usize>, n: nat)
    requires
        n <= usize::MAX,
    ensures
        ({
            let order = priority_order(selected, n);
            let first = positions(selected, true, n).len() as int;
            &&& order.len() == n
            &&& order.no_duplicates()
            &&& forall|k: usize| k < n ==> #[trigger] order.contains(k)
            &&& forall|i: int| 0 <= i < n ==> (#[trigger] order[i]) < n
            &&& forall|i: int| 0 <= i < n ==> (selected.contains(#[trigger] order[i]) == (i < first))
            &&& forall|i: int, j: int|
                0 <= i < j < n && (j < first || first <= i) ==> (#[trigger] order[i]) < (
                #[trigger] order[j])
        }),
{
    let order = priority_order(selected, n);
    let a = positions(selected, true, n);
    let b = positions(selected, false, n);
    lemma_positions(selected, true, n);
    lemma_positions(selected, false, n);
    lemma_positions_count(selected, n);
    assert forall|i: int| 0 <= i < n implies (#[trigger] order[i]) < n && (selected.contains(
        order[i],
    ) == (i < a.len())) by {
        if i < a.len() {
            assert(order[i] == a[i]);
        } else {
            assert(order[i] == b[i - a.len()]);
        }
    }
    assert forall|i: int, j: int| 0 <= i < j < n && (j < a.len() || a.len() <= i) implies (
    #[trigger] order[i]) < (#[trigger] order[j]) by {
        if j < a.len() {
            assert(order[i] == a[i] && order[j] == a[j]);
        } else {
            assert(order[i] == b[i - a.len()] && order[j] == b[j - a.len()]);
        }
    }
    assert forall|k: usize| k < n implies #[trigger] order.contains(k) by {
        if selected.contains(k) {
            assert(a.contains(k));
            let i = choose|i: int| 0 <= i < a.len() && a[i] == k;
            assert(order[i] == k);
        } else {
            assert(b.contains(k));
            let i = choose|i: int| 0 <= i < b.len() && b[i] == k;
            assert(order[a.len() + i] == k);
        }
    }
    assert forall|i: int, j: int| 0 <= i < order.len() && 0 <= j < order.len() && i
        != j implies order[i] != order[j] by {
        if i < j {
            if j < a.len() || a.len() <= i {
                assert(order[i] < order[j]);
            } else {
                assert(selected.contains(order[i]) && !selected.contains(order[j]));
            }
        } else {
            if i < a.len() || a.len() <= j {
                assert(order[j] < order[i]);
            } else {
                assert(selected.contains(order[j]) && !selected.contains(order[i]));
            }
        }
    }
}

fn holds_index(selected: &[usize], index: usize) -> (r: bool)
    ensures
        r == selected@.contains(index),
{
    let mut i: usize = 0;
    while i < selected.len()
        invariant
            i <= selected@.len(),
            forall|k: int| 0 <= k < i ==> #[trigger] selected@[k] != index,
        decreases selected@.len() - i,
    {
        if selected[i] == index {
            assert(selected@[i as int] == index);
            return true;
        }
        i += 1;
    }
    false
}

/// The order in which a catalog plays when some of its songs are selected.
pub fn prioritized_order(count: usize, selected: &[usize]) -> (r: Vec<usize>)
    ensures
        r@ == priority_order(selected@, count as nat),
        r@.len() == count,
        forall|i: int| 0 <= i < count ==> (#[trigger] r@[i]) < count,
{
    let mut first: Vec<usize> = Vec::new();
    let mut rest: Vec<usize> = Vec::new();
    let mut i: usize = 0;
    while i < count
        invariant
            i <= count,
            first@ == positions(selected@, true, i as nat),
            rest@ == positions(selected@, false, i as nat),
        decreases count - i,
    {
        if holds_index(selected, i) {
            first.push(i);
        } else {
            rest.push(i);
        }
        i += 1;
    }
    first.append(&mut rest);
    proof {
        priority_order_keeps_every_song(selected@, count as nat);
    }
    first
}

/// A catalog with the selected songs first.
pub fn prioritize_catalog_tracks<T: Clone>(catalog: &[T], selected: &[usize]) -> (r: Vec<T>)
    ensures
        r@.len() == catalog@.len(),
        forall|i: int|
            0 <= i < r@.len() ==> cloned(
                catalog@[priority_order(selected@, catalog@.len())[i] as int],
                #[trigger] r@[i],
            ),
{
    let order = prioritized_order(catalog.len(), selected);
    let mut out: Vec<T> = Vec::new();
    let mut i: usize = 0;
    while i < order.len()
        invariant
            i <= order@.len(),
            order@ == priority_order(selected@, catalog@.len()),
            order@.len() == catalog@.len(),
            forall|k: int| 0 <= k < order@.len() ==> (#[trigger] order@[k]) < catalog@.len(),
            out@.len() == i,
            forall|k: int|
                0 <= k < i ==> cloned(
                    catalog@[priority_order(selected@, catalog@.len())[k] as int],
                    #[trigger] out@[k],
                ),
        decreases order@.len() - i,
    {
        let at: usize = order[i];
        out.push(catalog[at].clone());
        i += 1;
    }
    out
}

// ---------------------------------------------------------------------------
// Audio files
// ---------------------------------------------------------------------------

/// The extensions that can be played.
pub open spec fn audio_extension(ext: Seq<char>) -> bool {
    ||| ext == "aac"@
    ||| ext == "aiff"@
    ||| ext == "alac"@
    ||| ext == "flac"@
    ||| ext == "m4a"@
    ||| ext == "mp3"@
    ||| ext == "ogg"@
    ||| ext == "opus"@
    ||| ext == "wav"@
    ||| ext == "webm"@
}

pub open spec fn audio_path(path: Seq<char>) -> bool {
    path_extension(path) matches Some(ext) && audio_extension(ascii_lowered(ext))
}

pub fn is_supported_audio_path(path: &str) -> (r: bool)
    ensures
        r == audio_path(path@),
{
    match extension(path) {
        Some(ext) => {
            let lowered = to_ascii_lowered(ext.as_str());
            let ext = lowered.as_str();
            same_text(ext, "aac") || same_text(ext, "aiff") || same_text(ext, "alac") || same_text(
                ext,
                "flac",
            ) || same_text(ext, "m4a") || same_text(ext, "mp3") || same_text(ext, "ogg")
                || same_text(ext, "opus") || same_text(ext, "wav") || same_text(ext, "webm")
        },
        None => false,
    }
}

pub open spec fn opus_path(path: Seq<char>) -> bool {
    path_extension(path) matches Some(ext) && ascii_lowered(ext) == ascii_lowered("opus"@)
}

pub fn is_opus_path(path: &str) -> (r: bool)
    ensures
        r == opus_path(path@),
{
    match extension(path) {
        Some(ext) => crate::text::equal_ignoring_ascii_case(ext.as_str(), "opus"),
        None => false,
    }
}

/// What tells a decoder the format of a file: its extension in lower case.
pub open spec fn format_hint(path: Seq<char>) -> Option<Seq<char>> {
    match path_extension(path) {
        Some(ext) => Some(ascii_lowered(ext)),
        None => None,
    }
}

pub fn telegram_format_hint(path: &str) -> (r: Option<String>)
    ensures
        match r {
            Some(hint) => format_hint(path@) == Some(hint@),
            None => format_hint(path@) is None,
        },
{
    match extension(path) {
        Some(ext) => Some(to_ascii_lowered(ext.as_str())),
        None => None,
    }
}

/// Whether a document is a song, by its media type or its name.
pub open spec fn audio_document(mime: Option<Seq<char>>, name: Option<Seq<char>>) -> bool {
    (mime matches Some(m) && has_prefix(m, "audio/"@)) || (name matches Some(n) && audio_path(n))
}

pub open spec fn text_of(text: Option<&str>) -> Option<Seq<char>> {
    match text {
        Some(t) => Some(t@),
        None => None,
    }
}

pub fn is_audio_document(mime: Option<&str>, name: Option<&str>) -> (r: bool)
    ensures
        r == audio_document(text_of(mime), text_of(name)),
{
    let by_type = match mime {
        Some(m) => starts_with(m, "audio/"),
        None => false,
    };
    let by_name = match name {
        Some(n) => is_supported_audio_path(n),
        None => false,
    };
    by_type || by_name
}

/// The file into which a song is stored: its message and its safe name.
pub open spec fn song_file_name(message_id: i32, name: Seq<char>) -> Seq<char> {
    decimal_int(message_id as int) + "-"@ + safe_name(name)
}

pub fn cached_file_name(message_id: i32, name: &str) -> (r: String)
    ensures
        r@ == song_file_name(message_id, name@),
{
    let mut out = format_i64(message_id as i64);
    out.append("-");
    out.append(safe_file_name(name).as_str());
    out
}

// ---------------------------------------------------------------------------
// Scanning a channel
// ---------------------------------------------------------------------------

/// The scan of a channel's messages, which come newest first.
pub struct ChannelScan {
    pub channel: String,
    pub found: Vec<TelegramCatalogEntry>,
    pub message_count: u64,
    pub document_count: u64,
}

/// What a message holds.
pub enum MessageMedia<'a> {
    /// No media at all.
    Nothing,
    /// Media other than a document.
    Other,
    /// A document with its media type and name.
    Document { mime: Option<&'a str>, name: Option<&'a str> },
}

/// The name under which a song is listed.
pub open spec fn listed_name(message_id: i32, name: Option<Seq<char>>) -> Seq<char> {
    match name {
        Some(n) => n,
        None => "telegram-"@ + decimal_int(message_id as int) + ".bin"@,
    }
}

/// Whether a message holds a song.
pub open spec fn song_message(media: MessageMedia) -> bool {
    media matches MessageMedia::Document { mime, name } && audio_document(
        text_of(mime),
        text_of(name),
    )
}

pub open spec fn document_message(media: MessageMedia) -> bool {
    media is Document
}

/// What a catalog lists for a song.
pub open spec fn listed_entry(channel: Seq<char>, message_id: i32, media: MessageMedia) -> EntryData {
    EntryData {
        channel,
        message_id,
        name: match media {
            MessageMedia::Document { mime, name } => listed_name(message_id, text_of(name)),
            _ => listed_name(message_id, None),
        },
    }
}

impl ChannelScan {
    pub fn new(channel: &str) -> (r: ChannelScan)
        ensures
            r.channel@ == channel_identity(channel@),
            entries(r.found@) == Seq::<EntryData>::empty(),
            r.message_count == 0,
            r.document_count == 0,
    {
        let scan = ChannelScan {
            channel: normalize_channel_identity(channel),
            found: Vec::new(),
            message_count: 0,
            document_count: 0,
        };
        assert(entries(scan.found@) =~= Seq::<EntryData>::empty());
        scan
    }

    /// Takes one message. A song is listed, and its name comes back.
    pub fn message(&mut self, message_id: i32, media: MessageMedia<'_>) -> (r: Option<String>)
        requires
            old(self).message_count < u64::MAX,
            old(self).document_count < u64::MAX,
        ensures
            final(self).channel@ == old(self).channel@,
            final(self).message_count == old(self).message_count + 1,
            final(self).document_count == old(self).document_count + (if document_message(media) {
                1int
            } else {
                0
            }),
            entries(final(self).found@) == if song_message(media) {
                entries(old(self).found@).push(
                    listed_entry(old(self).channel@, message_id, media),
                )
            } else {
                entries(old(self).found@)
            },
            match r {
                Some(name) => song_message(media) && name@ == listed_entry(
                    old(self).channel@,
                    message_id,
                    media,
                ).name,
                None => !song_message(media),
            },
    {
        self.message_count = self.message_count + 1;
        match media {
            MessageMedia::Document { mime, name } => {
                self.document_count = self.document_count + 1;
                if !is_audio_document(mime, name) {
                    return None;
                }
                let listed = match name {
                    Some(n) => n.to_string(),
                    None => {
                        let mut out = "telegram-".to_string();
                        out.append(format_i64(message_id as i64).as_str());
                        out.append(".bin");
                        out
                    },
                };
                let entry = TelegramCatalogEntry {
                    channel: self.channel.as_str().to_string(),
                    message_id,
                    name: listed.as_str().to_string(),
                };
                let ghost before = self.found@;
                self.found.push(entry);
                assert(entries(self.found@) =~= entries(before).push(entry@));
                Some(listed)
            },
            _ => None,
        }
    }

    /// Ends the scan: the catalog with the oldest song first. A scan without
    /// songs gives none, so that an earlier catalog stays.
    pub fn finish(self, label: &str) -> (r: Result<Vec<TelegramCatalogEntry>, String>)
        ensures
            match r {
                Ok(catalog) => self.found@.len() > 0 && entries(catalog@) == entries(
                    self.found@,
                ).reverse(),
                Err(e) => self.found@.len() == 0 && e@ == "no supported audio found in "@ + label@
                    + ": Telegram returned "@ + decimal(self.message_count as nat)
                    + " messages and "@ + decimal(self.document_count as nat)
                    + " documents; the existing song list was not overwritten"@,
            },
    {
        if self.found.len() == 0 {
            let mut e = "no supported audio found in ".to_string();
            e.append(label);
            e.append(": Telegram returned ");
            e.append(crate::number::format_u64(self.message_count).as_str());
            e.append(" messages and ");
            e.append(crate::number::format_u64(self.document_count).as_str());
            e.append(" documents; the existing song list was not overwritten");
            return Err(e);
        }
        let mut catalog: Vec<TelegramCatalogEntry> = Vec::new();
        let mut i: usize = self.found.len();
        let total: usize = self.found.len();
        while i > 0
            invariant
                i <= total,
                total == self.found@.len(),
                entries(catalog@) =~= entries(self.found@).reverse().take(total - i),
            decreases i,
        {
            i -= 1;
            let ghost before = catalog@;
            let entry = self.found[i].clone();
            catalog.push(entry);
            assert(entries(catalog@) =~= entries(before).push(entry@));
            assert(entries(self.found@).reverse()[total - 1 - i] == entry@);
        }
        Ok(catalog)
    }
}

// ---------------------------------------------------------------------------
// Catalogs that are played
// ---------------------------------------------------------------------------

/// A catalog whose songs all belong to one channel.
pub open spec fn owned_by(catalog: Seq<EntryData>, channel: Seq<char>) -> Seq<EntryData> {
    catalog.map_values(
        |e: EntryData| EntryData { channel, message_id: e.message_id, name: e.name },
    )
}

fn set_channel(catalog: &Vec<TelegramCatalogEntry>, channel: &str) -> (r: Vec<
    TelegramCatalogEntry,
>)
    ensures
        entries(r@) == owned_by(entries(catalog@), channel@),
{
    let mut out: Vec<TelegramCatalogEntry> = Vec::new();
    let mut i: usize = 0;
    while i < catalog.len()
        invariant
            i <= catalog@.len(),
            entries(out@) =~= owned_by(entries(catalog@), channel@).take(i as int),
        decreases catalog@.len() - i,
    {
        let entry = TelegramCatalogEntry {
            channel: channel.to_string(),
            message_id: catalog[i].message_id,
            name: catalog[i].name.as_str().to_string(),
        };
        let ghost before = out@;
        out.push(entry);
        assert(entries(out@) =~= entries(before).push(entry@));
        i += 1;
    }
    assert(entries(out@) =~= owned_by(entries(catalog@), channel@));
    out
}

/// What reading a catalog file gave: its text, or why it could not be read.
pub enum CatalogFile<'a> {
    Text(&'a str),
    Unreadable(&'a str),
}

/// The songs in a catalog file.
pub open spec fn file_catalog(file: CatalogFile, path: Seq<char>) -> Result<
    Seq<EntryData>,
    Seq<char>,
> {
    match file {
        CatalogFile::Text(text) => catalog_of(text@, path),
        CatalogFile::Unreadable(reason) => Err(
            "failed to read Telegram song list "@ + path + ": "@ + reason@,
        ),
    }
}

fn read_catalog_file(file: CatalogFile<'_>, path: &str) -> (r: Result<
    Vec<TelegramCatalogEntry>,
    String,
>)
    ensures
        match r {
            Ok(found) => file_catalog(file, path@) == Ok::<Seq<EntryData>, Seq<char>>(
                entries(found@),
            ),
            Err(e) => file_catalog(file, path@) == Err::<Seq<EntryData>, Seq<char>>(e@),
        },
{
    match file {
        CatalogFile::Text(text) => parse_catalog(text, path),
        CatalogFile::Unreadable(reason) => {
            let mut e = "failed to read Telegram song list ".to_string();
            e.append(path);
            e.append(": ");
            e.append(reason);
            Err(e)
        },
    }
}

/// The saved songs of a channel.
pub fn channel_catalog(channel: &str, path: &str, file: CatalogFile<'_>) -> (r: Result<
    Vec<TelegramCatalogEntry>,
    String,
>)
    requires
        readable_identity(channel_identity(channel@)),
    ensures
        match file_catalog(file, path@) {
            Ok(found) => r matches Ok(catalog) && entries(catalog@) == owned_by(
                found,
                channel_identity(channel@),
            ),
            Err(cause) => r matches Err(e) && e@ == "no song list for "@ + channel_label(
                channel_identity(channel@),
            ) + "; sync and update the Telegram channel first: "@ + cause,
        },
{
    let channel = normalize_channel_identity(channel);
    match read_catalog_file(file, path) {
        Ok(found) => Ok(set_channel(&found, channel.as_str())),
        Err(cause) => {
            let mut e = "no song list for ".to_string();
            e.append(telegram_channel_label(channel.as_str()).as_str());
            e.append("; sync and update the Telegram channel first: ");
            e.append(cause.as_str());
            Err(e)
        },
    }
}

/// A channel that is streamed by itself.
pub struct StreamedChannel {
    pub title: String,
    pub catalog: Vec<TelegramCatalogEntry>,
}

/// The saved songs of a channel that is streamed, and the title over them.
pub fn streamed_channel(channel: &str, path: &str, file: CatalogFile<'_>) -> (r: Result<
    StreamedChannel,
    String,
>)
    requires
        readable_identity(channel_identity(channel@)),
    ensures
        ({
            let identity = channel_identity(channel@);
            let label = channel_label(identity);
            match file_catalog(file, path@) {
                Ok(found) => if found.len() == 0 {
                    r matches Err(e) && e@ == "song list for "@ + label
                        + " is empty; run synchronization again"@
                } else {
                    r matches Ok(s) && entries(s.catalog@) == owned_by(found, identity)
                        && s.title@ == "Telegram channel: "@ + label + "\n"@ + decimal(found.len())
                        + " tracks | "@ + path@
                },
                Err(cause) => r matches Err(e) && e@ == "no usable song list for "@ + label
                    + "; run Sync and update Telegram channel first: "@ + cause,
            }
        }),
{
    let channel = normalize_channel_identity(channel);
    let label = telegram_channel_label(channel.as_str());
    match read_catalog_file(file, path) {
        Ok(found) => {
            let catalog = set_channel(&found, channel.as_str());
            assert(entries(found@).len() == found@.len());
            assert(entries(catalog@).len() == catalog@.len());
            if catalog.len() == 0 {
                let mut e = "song list for ".to_string();
                e.append(label.as_str());
                e.append(" is empty; run synchronization again");
                return Err(e);
            }
            let mut title = "Telegram channel: ".to_string();
            title.append(label.as_str());
            title.append("\n");
            title.append(format_usize(catalog.len()).as_str());
            title.append(" tracks | ");
            title.append(path);
            Ok(StreamedChannel { title, catalog })
        },
        Err(cause) => {
            let mut e = "no usable song list for ".to_string();
            e.append(label.as_str());
            e.append("; run Sync and update Telegram channel first: ");
            e.append(cause.as_str());
            Err(e)
        },
    }
}

/// A song with the channel of its playlist, where it has none of its own.
pub open spec fn with_fallback(entry: EntryData, fallback: Seq<char>) -> EntryData {
    if entry.channel.len() == 0 {
        EntryData { channel: fallback, message_id: entry.message_id, name: entry.name }
    } else {
        entry
    }
}

pub open spec fn all_with_fallback(catalog: Seq<EntryData>, fallback: Seq<char>) -> Seq<EntryData> {
    catalog.map_values(|e: EntryData| with_fallback(e, fallback))
}

/// Whether a song has no channel to play it from.
pub open spec fn lacks_channel(catalog: Seq<EntryData>) -> bool {
    exists|i: int| 0 <= i < catalog.len() && (#[trigger] catalog[i]).channel.len() == 0
}

/// Prepares songs for playback: every song needs a channel.
pub fn prepare_catalog(channel: &str, catalog: &Vec<TelegramCatalogEntry>) -> (r: Result<
    Vec<TelegramCatalogEntry>,
    String,
>)
    ensures
        ({
            let full = all_with_fallback(entries(catalog@), channel_identity(channel@));
            match r {
                Ok(ready) => catalog@.len() > 0 && !lacks_channel(full) && entries(ready@) == full,
                Err(e) => if catalog@.len() == 0 {
                    e@ == "playlist has no songs"@
                } else {
                    lacks_channel(full) && e@ == "a Telegram playlist track has no source channel"@
                },
            }
        }),
{
    if catalog.len() == 0 {
        return Err("playlist has no songs".to_string());
    }
    let fallback = normalize_channel_identity(channel);
    let ghost full = all_with_fallback(entries(catalog@), fallback@);
    let mut out: Vec<TelegramCatalogEntry> = Vec::new();
    let mut i: usize = 0;
    while i < catalog.len()
        invariant
            i <= catalog@.len(),
            catalog@.len() > 0,
            fallback@ == channel_identity(channel@),
            full == all_with_fallback(entries(catalog@), fallback@),
            entries(out@) =~= full.take(i as int),
            forall|k: int| 0 <= k < i ==> (#[trigger] full[k]).channel.len() > 0,
        decreases catalog@.len() - i,
    {
        let ghost before = out@;
        let mut entry = catalog[i].clone();
        if is_empty_text(entry.channel.as_str()) {
            entry = TelegramCatalogEntry {
                channel: fallback.as_str().to_string(),
                message_id: entry.message_id,
                name: entry.name,
            };
        }
        assert(entry@ == full[i as int]);
        if is_empty_text(entry.channel.as_str()) {
            assert(full[i as int].channel.len() == 0);
            return Err("a Telegram playlist track has no source channel".to_string());
        }
        out.push(entry);
        assert(entries(out@) =~= entries(before).push(entry@));
        i += 1;
    }
    assert(entries(out@) =~= full);
    Ok(out)
}

// ---------------------------------------------------------------------------
// What holds of every catalog
// ---------------------------------------------------------------------------

/// A song is saved as its message number, a tab and its name, and read back as
/// the same song.
pub proof fn songs_are_saved_by_number_and_name(
    message_id: i32,
    name: Seq<char>,
    path: Seq<char>,
    index: int,
)
    requires
        !name.contains('\t') && !name.contains('\n') && !name.contains('\r'),
    ensures
        ({
            let song = EntryData { channel: seq![], message_id, name };
            let line = decimal_int(message_id as int) + seq!['\t'] + name;
            &&& entry_line(song) == line
            &&& read_entry(line, path, index) == Ok::<EntryData, Seq<char>>(song)
        }),
{
    let number = decimal_int(message_id as int);
    let line = number + seq!['\t'] + name;
    assert forall|i: int| 0 <= i < name.len() implies #[trigger] unbroken(name)[i] == name[i] by {
        assert(name.contains(name[i]));
    }
    assert(unbroken(name) =~= name);
    lemma_decimal_int_round_trip(message_id as int);
    lemma_find_is(line, '\t', number.len() as int);
    assert(line.take(number.len() as int) =~= number);
    assert(line.skip((number.len() + 1) as int) =~= name);
}

/// A saved catalog comes back as it was, where no name breaks a line.
pub proof fn saved_catalogs_come_back(catalog: Seq<EntryData>, path: Seq<char>)
    requires
        forall|i: int|
            0 <= i < catalog.len() ==> (#[trigger] catalog[i]).channel.len() == 0
                && !catalog[i].name.contains('\t') && !catalog[i].name.contains('\n')
                && !catalog[i].name.contains('\r'),
    ensures
        catalog_of(joined_lines(entry_lines(catalog)), path) == Ok::<Seq<EntryData>, Seq<char>>(
            catalog,
        ),
{
    catalog_round_trips(catalog, path);
    let stored = catalog.map_values(|e: EntryData| stored_entry(e));
    assert forall|i: int| 0 <= i < catalog.len() implies #[trigger] stored[i] == catalog[i] by {
        let e = catalog[i];
        assert forall|k: int| 0 <= k < e.name.len() implies #[trigger] unbroken(e.name)[k]
            == e.name[k] by {
            assert(e.name.contains(e.name[k]));
        }
        assert(unbroken(e.name) =~= e.name);
        assert(e.channel =~= seq![]);
    }
    assert(stored =~= catalog);
}

/// A line without a tab is refused, and so is one whose number is none.
pub proof fn broken_lines_are_refused(line: Seq<char>, name: Seq<char>, path: Seq<char>, index: int)
    requires
        !line.contains('\t'),
    ensures
        read_entry(line, path, index) is Err,
        i32_value(line) is None ==> read_entry(line + seq!['\t'] + name, path, index) is Err,
{
    lemma_find_is(line, '\t', line.len() as int);
    let whole = line + seq!['\t'] + name;
    assert forall|i: int| 0 <= i < line.len() implies #[trigger] whole[i] != '\t' by {
        assert(line.contains(line[i]));
    }
    lemma_find_is(whole, '\t', line.len() as int);
    assert(whole.take(line.len() as int) =~= line);
}

/// A file is a song by what stands behind the last dot of its name, in either
/// case.
pub proof fn songs_are_told_by_their_extension(stem: Seq<char>, ext: Seq<char>)
    requires
        stem.len() > 0,
        forall|i: int|
            0 <= i < stem.len() ==> #[trigger] stem[i] != '/' && stem[i] != '\\' && stem[i] != ':',
        forall|i: int|
            0 <= i < ext.len() ==> #[trigger] ext[i] != '/' && ext[i] != '\\' && ext[i] != ':'
                && ext[i] != '.',
        ext.len() > 0,
    ensures
        ({
            let lower = Seq::new(
                ext.len(),
                |i: int|
                    if 'A' <= ext[i] <= 'Z' {
                        ((ext[i] as u32) + 32) as char
                    } else {
                        ext[i]
                    },
            );
            let path = stem + seq!['.'] + ext;
            &&& audio_path(path) <==> seq![
                "aac"@,
                "aiff"@,
                "alac"@,
                "flac"@,
                "m4a"@,
                "mp3"@,
                "ogg"@,
                "opus"@,
                "wav"@,
                "webm"@,
            ].contains(lower)
            &&& opus_path(path) <==> lower == "opus"@
            &&& format_hint(path) == Some(lower)
        }),
{
    let name = stem + seq!['.'] + ext;
    let lower = ascii_lowered(ext);
    assert(lower =~= Seq::new(
        ext.len(),
        |i: int|
            if 'A' <= ext[i] <= 'Z' {
                ((ext[i] as u32) + 32) as char
            } else {
                ext[i]
            },
    ));
    assert forall|i: int| 0 <= i < name.len() implies #[trigger] name[i] != '/' && name[i] != '\\'
        && name[i] != ':' by {
        if i < stem.len() {
            assert(name[i] == stem[i]);
        } else if i > stem.len() {
            assert(name[i] == ext[i - stem.len() - 1]);
        }
    }
    assert(name != seq!['.']);
    assert(name != seq!['.', '.']) by {
        assert(name.last() == ext[ext.len() - 1]);
    }
    crate::paths::paths_lead_to_their_last_name(seq![], name, 'c');
    assert(seq![] + name =~= name);
    crate::paths::extensions_stand_behind_the_last_dot(stem, ext);
    let list = seq![
        "aac"@,
        "aiff"@,
        "alac"@,
        "flac"@,
        "m4a"@,
        "mp3"@,
        "ogg"@,
        "opus"@,
        "wav"@,
        "webm"@,
    ];
    assert(list[0] == "aac"@ && list[1] == "aiff"@ && list[2] == "alac"@ && list[3] == "flac"@
        && list[4] == "m4a"@ && list[5] == "mp3"@ && list[6] == "ogg"@ && list[7] == "opus"@
        && list[8] == "wav"@ && list[9] == "webm"@);
    reveal_strlit("opus");
    assert(ascii_lowered("opus"@) =~= "opus"@);
}

/// A document is a song where its type says so or its name does.
pub proof fn documents_are_songs_by_type_or_name(kind: Seq<char>, name: Seq<char>)
    ensures
        audio_document(Some("audio/"@ + kind), None),
        audio_document(Some("audio/"@ + kind), Some(name)),
        audio_document(None, Some(name)) <==> audio_path(name),
        !audio_document(None, None),
        audio_document(Some("video/"@ + kind), Some(name)) <==> audio_path(name),
        !audio_document(Some("video/"@ + kind), None),
{
    reveal_strlit("audio/");
    reveal_strlit("video/");
    assert(("audio/"@ + kind).take(6) =~= "audio/"@);
    assert(("video/"@ + kind)[0] == 'v');
    assert(("video/"@ + kind).take(6)[0] == 'v');
}

/// The songs of a catalog belong to the channel it is of, in their order.
pub proof fn catalogs_belong_to_their_channel(catalog: Seq<EntryData>, channel: Seq<char>, i: int)
    requires
        0 <= i < catalog.len(),
    ensures
        owned_by(catalog, channel).len() == catalog.len(),
        owned_by(catalog, channel)[i].channel == channel,
        owned_by(catalog, channel)[i].message_id == catalog[i].message_id,
        owned_by(catalog, channel)[i].name == catalog[i].name,
        all_with_fallback(catalog, channel).len() == catalog.len(),
        all_with_fallback(catalog, channel)[i].message_id == catalog[i].message_id,
        all_with_fallback(catalog, channel)[i].name == catalog[i].name,
        all_with_fallback(catalog, channel)[i].channel == if catalog[i].channel.len() == 0 {
            channel
        } else {
            catalog[i].channel
        },
{
}

/// A song is downloaded under its message number, a hyphen and its name.
pub proof fn songs_are_downloaded_under_number_and_name(message_id: i32, name: Seq<char>)
    requires
        name.len() > 0,
        name[0] != '.' && !crate::text::white_space(name[0]),
        name.last() != '.' && !crate::text::white_space(name.last()),
        forall|i: int|
            0 <= i < name.len() ==> !"<>:\"/\\|?*"@.contains(#[trigger] name[i])
                && !crate::text::control(name[i]),
    ensures
        song_file_name(message_id, name) == decimal_int(message_id as int) + seq!['-'] + name,
        listed_name(message_id, Some(name)) == name,
        listed_name(message_id, None) == "telegram-"@ + decimal_int(message_id as int) + ".bin"@,
{
    reveal_strlit("-");
    assert("-"@ =~= seq!['-']);
    crate::channel::file_names_replace_only_forbidden_chars(name, 0);
    assert forall|i: int| 0 <= i < name.len() implies #[trigger] safe_name(name)[i] == name[i] by {
        assert(!crate::text::control(name[i]));
        crate::channel::file_names_replace_only_forbidden_chars(name, i);
    }
    assert(safe_name(name) =~= name);
}

/// A message is a song where its document is one; other messages are none.
pub proof fn messages_are_songs_by_their_document(media: MessageMedia, channel: Seq<char>, id: i32)
    ensures
        media is Document ==> (song_message(media) <==> audio_document(
            text_of(media->mime),
            text_of(media->name),
        )),
        media !is Document ==> !song_message(media),
        document_message(media) <==> media is Document,
        listed_entry(channel, id, media).channel == channel,
        listed_entry(channel, id, media).message_id == id,
        media is Document && media->name is Some ==> listed_entry(channel, id, media).name
            == media->name->0@,
{
}

/// A catalog whose songs all name their channel needs no other, and with another
/// to fall back on none lacks one.
pub proof fn fallbacks_fill_only_what_lacks(catalog: Seq<EntryData>, channel: Seq<char>, i: int)
    requires
        channel.len() > 0,
        0 <= i < catalog.len(),
    ensures
        !lacks_channel(catalog) ==> all_with_fallback(catalog, channel) == catalog,
        !lacks_channel(all_with_fallback(catalog, channel)),
        catalog[i].channel.len() == 0 ==> lacks_channel(catalog),
{
    if !lacks_channel(catalog) {
        assert forall|k: int| 0 <= k < catalog.len() implies #[trigger] all_with_fallback(
            catalog,
            channel,
        )[k] == catalog[k] by {
            assert(catalog[k].channel.len() > 0);
        }
        assert(all_with_fallback(catalog, channel) =~= catalog);
    }
}

} // verus!
