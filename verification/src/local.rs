//! Songs in local folders.
use crate::catalog::{audio_path, is_supported_audio_path};
use crate::paths::{format_path, forms_tell_paths_apart, path_form, same_path};
use crate::search::{matching, matching_rows, needle_of, one_text_row, query_needle, row_texts};
use crate::sorting::{stable_order, stable_sort};
use crate::text::{lowercased, same_text, texts, to_lowercase, trimmed};
use vstd::prelude::*;

verus! {

/// What stands at a path.
#[derive(Clone, Copy, Debug, PartialEq, Eq, Structural)]
pub enum PathKind {
    File,
    Directory,
    Missing,
}

/// The paths of songs among paths, in order.
pub open spec fn songs(paths: Seq<Seq<char>>) -> Seq<Seq<char>>
    decreases paths.len(),
{
    if paths.len() == 0 {
        seq![]
    } else if audio_path(paths.last()) {
        songs(paths.drop_last()).push(paths.last())
    } else {
        songs(paths.drop_last())
    }
}

/// The keys by which songs are sorted.
pub open spec fn sort_keys(paths: Seq<Seq<char>>) -> Seq<Seq<char>> {
    paths.map_values(|p: Seq<char>| lowercased(p))
}

/// Paths in a given order.
pub open spec fn reordered(paths: Seq<Seq<char>>, order: Seq<usize>) -> Seq<Seq<char>> {
    order.map_values(|i: usize| paths[i as int])
}

/// Whether `sorted` are the songs among `paths`, sorted by their paths without
/// regard to case.
pub open spec fn sorted_songs(paths: Seq<Seq<char>>, sorted: Seq<Seq<char>>) -> bool {
    exists|order: Seq<usize>|
        #![trigger stable_sort(sort_keys(songs(paths)), order)]
        stable_sort(sort_keys(songs(paths)), order) && sorted == reordered(songs(paths), order)
}

fn keep_songs(paths: &Vec<String>) -> (r: Vec<String>)
    ensures
        texts(r@) == songs(texts(paths@)),
{
    let mut found: Vec<String> = Vec::new();
    let mut i: usize = 0;
    assert(texts(found@) =~= songs(texts(paths@).take(0)));
    while i < paths.len()
        invariant
            i <= paths@.len(),
            texts(found@) == songs(texts(paths@).take(i as int)),
        decreases paths@.len() - i,
    {
        let ghost part = texts(paths@).take(i + 1);
        assert(part.drop_last() =~= texts(paths@).take(i as int));
        assert(part.last() == paths@[i as int]@);
        if is_supported_audio_path(paths[i].as_str()) {
            let ghost before = found@;
            let path = paths[i].as_str().to_string();
            found.push(path);
            assert(texts(found@) =~= texts(before).push(path@));
        }
        i += 1;
    }
    assert(texts(paths@).take(i as int) =~= texts(paths@));
    found
}

/// Paths in a given order.
fn reorder(paths: &Vec<String>, order: &Vec<usize>) -> (r: Vec<String>)
    requires
        forall|i: int| 0 <= i < order@.len() ==> (#[trigger] order@[i]) < paths@.len(),
    ensures
        texts(r@) == reordered(texts(paths@), order@),
{
    let mut out: Vec<String> = Vec::new();
    let mut i: usize = 0;
    while i < order.len()
        invariant
            i <= order@.len(),
            forall|k: int| 0 <= k < order@.len() ==> (#[trigger] order@[k]) < paths@.len(),
            texts(out@) =~= reordered(texts(paths@), order@).take(i as int),
        decreases order@.len() - i,
    {
        let at: usize = order[i];
        let path = paths[at].as_str().to_string();
        let ghost before = out@;
        out.push(path);
        assert(texts(out@) =~= texts(before).push(path@));
        i += 1;
    }
    assert(texts(out@) =~= reordered(texts(paths@), order@));
    out
}

/// The sort keys of paths.
fn lowered(paths: &Vec<String>) -> (r: Vec<String>)
    ensures
        texts(r@) == sort_keys(texts(paths@)),
{
    let mut keys: Vec<String> = Vec::new();
    let mut i: usize = 0;
    while i < paths.len()
        invariant
            i <= paths@.len(),
            texts(keys@) =~= sort_keys(texts(paths@)).take(i as int),
        decreases paths@.len() - i,
    {
        let key = to_lowercase(paths[i].as_str());
        let ghost before = keys@;
        keys.push(key);
        assert(texts(keys@) =~= texts(before).push(key@));
        i += 1;
    }
    assert(texts(keys@) =~= sort_keys(texts(paths@)));
    keys
}

/// The songs at a path: the file itself, or those among the files below a
/// directory.
pub fn collect_tracks(path: &str, kind: PathKind, files: &Vec<String>) -> (r: Result<
    Vec<String>,
    String,
>)
    ensures
        match kind {
            PathKind::File => r matches Ok(tracks) && sorted_songs(seq![path@], texts(tracks@)),
            PathKind::Directory => r matches Ok(tracks) && sorted_songs(
                texts(files@),
                texts(tracks@),
            ),
            PathKind::Missing => r matches Err(e) && e@ == "path does not exist: "@ + path@,
        },
{
    let found = match kind {
        PathKind::Missing => {
            let mut e = "path does not exist: ".to_string();
            e.append(path);
            return Err(e);
        },
        PathKind::File => {
            let mut one: Vec<String> = Vec::new();
            one.push(path.to_string());
            assert(texts(one@) =~= seq![path@]);
            keep_songs(&one)
        },
        PathKind::Directory => keep_songs(files),
    };
    let keys = lowered(&found);
    let order = stable_order(&keys);
    let tracks = reorder(&found, &order);
    assert(stable_sort(sort_keys(texts(found@)), order@));
    Ok(tracks)
}

/// The text by which a local song is found: its path.
pub open spec fn path_rows(paths: Seq<Seq<char>>) -> Seq<Seq<Seq<char>>> {
    paths.map_values(|p: Seq<char>| seq![lowercased(p)])
}

/// The texts by which local songs are found.
pub fn local_rows(tracks: &[String]) -> (r: Vec<Vec<String>>)
    ensures
        row_texts(r@) == path_rows(texts(tracks@)),
{
    let mut rows: Vec<Vec<String>> = Vec::new();
    let mut i: usize = 0;
    while i < tracks.len()
        invariant
            i <= tracks@.len(),
            row_texts(rows@) =~= path_rows(texts(tracks@)).take(i as int),
        decreases tracks@.len() - i,
    {
        let row = one_text_row(tracks[i].as_str());
        let ghost before = rows@;
        rows.push(row);
        assert(row_texts(rows@) =~= row_texts(before).push(texts(row@)));
        i += 1;
    }
    assert(row_texts(rows@) =~= path_rows(texts(tracks@)));
    rows
}

pub fn search_local_tracks(tracks: &[String], query: &str) -> (r: Vec<usize>)
    ensures
        r@ == matching(path_rows(texts(tracks@)), query_needle(query@)),
        forall|i: int, j: int| 0 <= i < j < r@.len() ==> (#[trigger] r@[i]) < (#[trigger] r@[j]),
        forall|i: int| 0 <= i < r@.len() ==> (#[trigger] r@[i]) < tracks@.len(),
        ({
            let needle = lowercased(trimmed(query@));
            forall|k: int|
                #![trigger tracks@[k]]
                0 <= k < tracks@.len() ==> (r@.contains(k as usize) <==> {
                    let text0 = lowercased(tracks@[k]@);
                    (exists|at: int|
                        0 <= at <= text0.len() - needle.len() && #[trigger] text0.subrange(
                            at,
                            at + needle.len(),
                        ) == needle)
                })
        }),
{
    let rows = local_rows(tracks);
    let found = matching_rows(&rows, needle_of(query).as_str());
    proof {
        let all = path_rows(texts(tracks@));
        let needle = lowercased(trimmed(query@));
        assert(rows.len() == row_texts(rows@).len());
        crate::search::search_finds_exactly_the_matches(all, query_needle(query@));
        assert forall|k: int|
            #![trigger tracks@[k]]
            0 <= k < tracks@.len() implies (found@.contains(k as usize) <==> {
                    let text0 = lowercased(tracks@[k]@);
                    (exists|at: int|
                        0 <= at <= text0.len() - needle.len() && #[trigger] text0.subrange(
                            at,
                            at + needle.len(),
                        ) == needle)
            }) by {
            crate::search::searches_look_for_the_whole_query(all, query@, k);
            assert(all[k].len() == 1);
            assert(all[k][0] == lowercased(tracks@[k]@));
        }
    }
    found
}

/// What the songs at a path play as.
pub fn play_path(path: &str, tracks: Vec<String>) -> (r: Result<Vec<String>, String>)
    ensures
        match r {
            Ok(ready) => tracks@.len() > 0 && ready == tracks,
            Err(e) => tracks@.len() == 0 && e@ == "no supported audio files found in "@ + path@,
        },
{
    if tracks.len() == 0 {
        let mut e = "no supported audio files found in ".to_string();
        e.append(path);
        return Err(e);
    }
    Ok(tracks)
}

/// The songs among the first `n` paths that still exist as files.
pub open spec fn available(paths: Seq<Seq<char>>, is_file: Seq<bool>, n: nat) -> Seq<Seq<char>>
    decreases n,
{
    if n == 0 {
        seq![]
    } else {
        let before = available(paths, is_file, (n - 1) as nat);
        if is_file[n - 1] && audio_path(paths[n - 1]) {
            before.push(paths[n - 1])
        } else {
            before
        }
    }
}

/// The songs of a list that can be played: those whose files exist.
pub fn available_tracks(tracks: &Vec<String>, is_file: &Vec<bool>) -> (r: Result<
    Vec<String>,
    String,
>)
    requires
        is_file@.len() == tracks@.len(),
    ensures
        ({
            let found = available(texts(tracks@), is_file@, tracks@.len());
            match r {
                Ok(ready) => found.len() > 0 && texts(ready@) == found,
                Err(e) => found.len() == 0 && e@ == "playlist has no available local songs"@,
            }
        }),
{
    let mut found: Vec<String> = Vec::new();
    let mut i: usize = 0;
    assert(texts(found@) =~= seq![]);
    while i < tracks.len()
        invariant
            i <= tracks@.len(),
            is_file@.len() == tracks@.len(),
            texts(found@) == available(texts(tracks@), is_file@, i as nat),
        decreases tracks@.len() - i,
    {
        assert(texts(tracks@)[i as int] == tracks@[i as int]@);
        if is_file[i] && is_supported_audio_path(tracks[i].as_str()) {
            let ghost before = found@;
            let path = tracks[i].as_str().to_string();
            found.push(path);
            assert(texts(found@) =~= texts(before).push(path@));
        }
        i += 1;
    }
    assert(texts(found@).len() == found@.len());
    if found.len() == 0 {
        return Err("playlist has no available local songs".to_string());
    }
    Ok(found)
}

/// Whether a list holds a path, however it is written.
pub open spec fn holds_path(s: Seq<Seq<char>>, path: Seq<char>) -> bool {
    exists|i: int| 0 <= i < s.len() && same_path(#[trigger] s[i], path)
}

/// Each path once, as it is written where it occurs first.
pub open spec fn first_occurrences(s: Seq<Seq<char>>) -> Seq<Seq<char>>
    decreases s.len(),
{
    if s.len() == 0 {
        seq![]
    } else {
        let before = first_occurrences(s.drop_last());
        if holds_path(s.drop_last(), s.last()) {
            before
        } else {
            before.push(s.last())
        }
    }
}

/// The songs of folders, one after the other.
pub open spec fn flat(folders: Seq<Seq<Seq<char>>>) -> Seq<Seq<char>>
    decreases folders.len(),
{
    if folders.len() == 0 {
        seq![]
    } else {
        flat(folders.drop_last()) + folders.last()
    }
}

/// Folders together hold every song of each of them, and none twice, however
/// its path is written.
pub proof fn combined_folders_hold_each_song_once(s: Seq<Seq<char>>)
    ensures
        ({
            let once = first_occurrences(s);
            &&& forall|i: int, j: int|
                0 <= i < j < once.len() ==> !same_path(#[trigger] once[i], #[trigger] once[j])
            &&& forall|i: int| 0 <= i < once.len() ==> s.contains(#[trigger] once[i])
            &&& forall|i: int| 0 <= i < s.len() ==> holds_path(once, #[trigger] s[i])
        }),
    decreases s.len(),
{
    if s.len() > 0 {
        let rest = s.drop_last();
        let before = first_occurrences(rest);
        let once = first_occurrences(s);
        combined_folders_hold_each_song_once(rest);
        assert forall|i: int| 0 <= i < once.len() implies s.contains(#[trigger] once[i]) by {
            if i < before.len() {
                assert(before[i] == once[i]);
                assert(rest.contains(before[i]));
                let k = choose|k: int| 0 <= k < rest.len() && rest[k] == before[i];
                assert(s[k] == once[i]);
            } else {
                assert(s[s.len() - 1] == once[i]);
            }
        }
        assert forall|i: int, j: int| 0 <= i < j < once.len() implies !same_path(
            #[trigger] once[i],
            #[trigger] once[j],
        ) by {
            assert(once[i] == before[i]);
            if j < before.len() {
                assert(once[j] == before[j]);
            } else {
                assert(rest.contains(before[i]));
                let k = choose|k: int| 0 <= k < rest.len() && rest[k] == before[i];
                assert(!same_path(rest[k], s.last()));
            }
        }
        assert forall|i: int| 0 <= i < s.len() implies holds_path(once, #[trigger] s[i]) by {
            let at = if i < rest.len() {
                i
            } else if holds_path(rest, s.last()) {
                choose|k: int| 0 <= k < rest.len() && same_path(#[trigger] rest[k], s.last())
            } else {
                i
            };
            if at < rest.len() {
                assert(holds_path(before, rest[at]));
                let k = choose|k: int|
                    0 <= k < before.len() && same_path(#[trigger] before[k], rest[at]);
                assert(once[k] == before[k]);
                assert(same_path(once[k], s[i]));
            } else {
                assert(same_path(once[once.len() - 1], s[i]));
            }
        }
    }
}

/// The forms of paths.
pub open spec fn path_forms(s: Seq<Seq<char>>) -> Seq<Seq<char>> {
    s.map_values(|p: Seq<char>| path_form(p))
}

proof fn lemma_forms_hold(s: Seq<Seq<char>>, path: Seq<char>)
    ensures
        path_forms(s).contains(path_form(path)) <==> holds_path(s, path),
{
    let forms = path_forms(s);
    if forms.contains(path_form(path)) {
        let i = choose|i: int| 0 <= i < forms.len() && forms[i] == path_form(path);
        forms_tell_paths_apart(s[i], path);
        assert(same_path(s[i], path));
    }
    if holds_path(s, path) {
        let i = choose|i: int| 0 <= i < s.len() && same_path(#[trigger] s[i], path);
        forms_tell_paths_apart(s[i], path);
        assert(forms[i] == path_form(path));
    }
}

/// Writes the forms of paths.
pub fn forms_of(paths: &[String]) -> (r: Vec<String>)
    ensures
        texts(r@) == path_forms(texts(paths@)),
{
    let mut out: Vec<String> = Vec::new();
    let mut i: usize = 0;
    while i < paths.len()
        invariant
            i <= paths@.len(),
            texts(out@) =~= path_forms(texts(paths@)).take(i as int),
        decreases paths@.len() - i,
    {
        let form = format_path(paths[i].as_str());
        let ghost before = out@;
        out.push(form);
        assert(texts(out@) =~= texts(before).push(form@));
        i += 1;
    }
    assert(texts(out@) =~= path_forms(texts(paths@)));
    out
}

/// The position of the first equal text, or the length.
pub open spec fn first_text(all: Seq<Seq<char>>, text: Seq<char>) -> nat
    decreases all.len(),
{
    if all.len() == 0 || all[0] == text {
        0
    } else {
        1 + first_text(all.skip(1), text)
    }
}

/// The position of the first text that equals one.
pub fn find_text(all: &[String], text: &str) -> (r: usize)
    ensures
        r == first_text(texts(all@), text@),
        r <= all@.len(),
{
    let ghost t = texts(all@);
    let mut i: usize = 0;
    assert(t.skip(0) =~= t);
    while i < all.len()
        invariant
            i <= all@.len(),
            t == texts(all@),
            first_text(t, text@) == i + first_text(t.skip(i as int), text@),
        decreases all@.len() - i,
    {
        assert(t.skip(i as int)[0] == all@[i as int]@);
        assert(t.skip(i as int).skip(1) =~= t.skip(i + 1));
        if same_text(all[i].as_str(), text) {
            return i;
        }
        i += 1;
    }
    i
}

/// The position of the first path that is the same as one, or the length.
pub open spec fn first_path(all: Seq<Seq<char>>, path: Seq<char>) -> nat
    decreases all.len(),
{
    if all.len() == 0 || same_path(all[0], path) {
        0
    } else {
        1 + first_path(all.skip(1), path)
    }
}

pub proof fn lemma_first_path(all: Seq<Seq<char>>, path: Seq<char>)
    ensures
        first_path(all, path) == first_text(path_forms(all), path_form(path)),
        first_path(all, path) <= all.len(),
        first_path(all, path) < all.len() ==> same_path(all[first_path(all, path) as int], path),
        holds_path(all, path) ==> first_path(all, path) < all.len(),
    decreases all.len(),
{
    if all.len() > 0 {
        forms_tell_paths_apart(all[0], path);
        assert(path_forms(all)[0] == path_form(all[0]));
        if !same_path(all[0], path) {
            lemma_first_path(all.skip(1), path);
            assert(path_forms(all).skip(1) =~= path_forms(all.skip(1)));
            if holds_path(all, path) {
                let k = choose|k: int| 0 <= k < all.len() && same_path(#[trigger] all[k], path);
                assert(same_path(all.skip(1)[k - 1], path));
            }
        }
    }
}

/// Numbers for songs: the same paths have the same number, that of the first of
/// them.
pub fn track_numbers(tracks: &Vec<String>) -> (r: Vec<u64>)
    ensures
        r@.len() == tracks@.len(),
        forall|i: int|
            0 <= i < r@.len() ==> #[trigger] r@[i] == first_path(
                texts(tracks@),
                texts(tracks@)[i],
            ),
{
    let forms = forms_of(tracks.as_slice());
    assert(texts(forms@).len() == forms@.len());
    let mut out: Vec<u64> = Vec::new();
    let mut i: usize = 0;
    while i < tracks.len()
        invariant
            i <= tracks@.len(),
            forms@.len() == tracks@.len(),
            texts(forms@) == path_forms(texts(tracks@)),
            out@.len() == i,
            forall|k: int|
                0 <= k < i ==> #[trigger] out@[k] == first_path(
                    texts(tracks@),
                    texts(tracks@)[k],
                ),
        decreases tracks@.len() - i,
    {
        assert(texts(forms@)[i as int] == forms@[i as int]@);
        proof {
            lemma_first_path(texts(tracks@), texts(tracks@)[i as int]);
        }
        let at: usize = find_text(forms.as_slice(), forms[i].as_str());
        out.push(at as u64);
        i += 1;
    }
    out
}

/// What folders hold, by their texts.
pub open spec fn folder_texts(folders: Seq<Vec<String>>) -> Seq<Seq<Seq<char>>> {
    folders.map_values(|v: Vec<String>| texts(v@))
}

proof fn lemma_first_occurrences_push(s: Seq<Seq<char>>, x: Seq<char>)
    ensures
        first_occurrences(s.push(x)) == if holds_path(s, x) {
            first_occurrences(s)
        } else {
            first_occurrences(s).push(x)
        },
{
    assert(s.push(x).drop_last() =~= s);
}

/// The songs of all saved folders.
pub fn collect_library_tracks(folders: &Vec<Vec<String>>) -> (r: Result<Vec<String>, String>)
    ensures
        ({
            let found = first_occurrences(flat(folder_texts(folders@)));
            match r {
                Ok(tracks) => found.len() > 0 && texts(tracks@) == found,
                Err(e) => found.len() == 0 && e@ == if folders@.len() == 0 {
                    "no saved local folders; add one from Play local folder"@
                } else {
                    "saved local folders contain no supported audio files"@
                },
            }
        }),
{
    if folders.len() == 0 {
        return Err("no saved local folders; add one from Play local folder".to_string());
    }
    let ghost all = folder_texts(folders@);
    let mut seen: vstd::hash_set::StringHashSet = vstd::hash_set::StringHashSet::new();
    let mut tracks: Vec<String> = Vec::new();
    let mut i: usize = 0;
    let ghost mut done: Seq<Seq<char>> = seq![];
    assert(texts(tracks@) =~= seq![]);
    assert(done =~= flat(all.take(0)));
    while i < folders.len()
        invariant
            i <= folders@.len(),
            folders@.len() > 0,
            all == folder_texts(folders@),
            done == flat(all.take(i as int)),
            texts(tracks@) == first_occurrences(done),
            forall|x: Seq<char>| #[trigger] seen@.contains(x) <==> path_forms(done).contains(x),
        decreases folders@.len() - i,
    {
        let folder = &folders[i];
        let ghost start = done;
        let mut k: usize = 0;
        assert(start + texts(folder@).take(0) =~= start);
        while k < folder.len()
            invariant
                k <= folder@.len(),
                done == start + texts(folder@).take(k as int),
                texts(tracks@) == first_occurrences(done),
                forall|x: Seq<char>| #[trigger]
                    seen@.contains(x) <==> path_forms(done).contains(x),
            decreases folder@.len() - k,
        {
            let ghost before = done;
            let path = folder[k].as_str().to_string();
            let form = format_path(path.as_str());
            proof {
                lemma_first_occurrences_push(done, path@);
                lemma_forms_hold(done, path@);
                done = done.push(path@);
                assert(done =~= start + texts(folder@).take(k + 1));
                assert(path_forms(done) =~= path_forms(before).push(form@));
            }
            if !seen.contains(form.as_str()) {
                let ghost old_tracks = tracks@;
                seen.insert(form.as_str().to_string());
                tracks.push(path);
                assert(texts(tracks@) =~= texts(old_tracks).push(path@));
            }
            proof {
                let known = path_forms(before);
                let forms = path_forms(done);
                assert forall|x: Seq<char>| #[trigger] seen@.contains(x) <==> forms.contains(
                x) by {
                    if known.contains(x) {
                        let j = choose|j: int| 0 <= j < known.len() && known[j] == x;
                        assert(forms[j] == x);
                    }
                    if forms.contains(x) && x != form@ {
                        let j = choose|j: int| 0 <= j < forms.len() && forms[j] == x;
                        assert(known[j] == x);
                    }
                    assert(forms[known.len() as int] == form@);
                }
            }
            k += 1;
        }
        proof {
            assert(texts(folder@).take(k as int) =~= texts(folder@));
            assert(all.take(i + 1).drop_last() =~= all.take(i as int));
            assert(all.take(i + 1).last() == texts(folder@));
        }
        i += 1;
    }
    assert(all.take(i as int) =~= all);
    assert(texts(tracks@).len() == tracks@.len());
    if tracks.len() == 0 {
        return Err("saved local folders contain no supported audio files".to_string());
    }
    Ok(tracks)
}

// ---------------------------------------------------------------------------
// What holds of every folder
// ---------------------------------------------------------------------------

/// The songs of a folder are its audio files, each of them, in their order.
pub proof fn folders_give_their_audio_files(paths: Seq<Seq<char>>)
    ensures
        songs(paths) == paths.filter(|p: Seq<char>| audio_path(p)),
    decreases paths.len(),
{
    reveal(Seq::filter);
    if paths.len() > 0 {
        folders_give_their_audio_files(paths.drop_last());
    }
}

/// The songs that can be played are the audio files that exist, each of them, in
/// their order.
pub proof fn missing_files_are_left_out(paths: Seq<Seq<char>>, is_file: Seq<bool>, n: nat)
    requires
        n <= paths.len(),
        paths.len() == is_file.len(),
    ensures
        available(paths, is_file, n) == Seq::new(n, |i: int| i).filter(
            |i: int| is_file[i] && audio_path(paths[i]),
        ).map_values(|i: int| paths[i]),
    decreases n,
{
    reveal(Seq::filter);
    let all = Seq::new(n, |i: int| i);
    if n > 0 {
        missing_files_are_left_out(paths, is_file, (n - 1) as nat);
        assert(all.drop_last() =~= Seq::new((n - 1) as nat, |i: int| i));
    }
    assert(available(paths, is_file, n) =~= all.filter(
        |i: int| is_file[i] && audio_path(paths[i]),
    ).map_values(|i: int| paths[i]));
}

/// The songs of folders follow each other folder by folder.
pub proof fn folders_follow_each_other(folders: Seq<Seq<Seq<char>>>)
    ensures
        flat(folders) == folders.flatten(),
    decreases folders.len(),
{
    folders.lemma_flatten_and_flatten_alt_are_equivalent();
    if folders.len() > 0 {
        folders_follow_each_other(folders.drop_last());
        folders.drop_last().lemma_flatten_and_flatten_alt_are_equivalent();
    }
}

/// Where the songs stay that are kept: each at its first occurrence, and in their
/// order.
pub proof fn first_occurrences_stay(s: Seq<Seq<char>>) -> (at: Seq<int>)
    ensures
        at.len() == first_occurrences(s).len(),
        forall|i: int|
            0 <= i < at.len() ==> 0 <= #[trigger] at[i] < s.len() && s[at[i]] == first_occurrences(
                s,
            )[i],
        forall|i: int, j: int| 0 <= i < j < at.len() ==> #[trigger] at[i] < #[trigger] at[j],
        forall|i: int, k: int|
            0 <= i < at.len() && 0 <= k < at[i] ==> !same_path(#[trigger] s[k], s[#[trigger] at[i]]),
    decreases s.len(),
{
    if s.len() == 0 {
        Seq::empty()
    } else {
        let rest = s.drop_last();
        let before = first_occurrences_stay(rest);
        let last = s.len() - 1;
        assert(forall|k: int| 0 <= k < last ==> #[trigger] rest[k] == s[k]);
        let at = if holds_path(rest, s.last()) {
            before
        } else {
            before.push(last)
        };
        assert forall|i: int, k: int| 0 <= i < at.len() && 0 <= k < at[i] implies !same_path(
            #[trigger] s[k],
            s[#[trigger] at[i]],
        ) by {
            assert(rest[k] == s[k]);
            if i < before.len() {
                assert(rest[before[i]] == s[at[i]]);
            } else {
                assert(!same_path(rest[k], s.last()));
            }
        }
        at
    }
}

/// Sorted songs ascend by their paths in lower case, and are the songs that there
/// were.
pub proof fn sorted_songs_ascend(paths: Seq<Seq<char>>, sorted: Seq<Seq<char>>, i: int, j: int)
    requires
        sorted_songs(paths, sorted),
        0 <= i < j < sorted.len(),
    ensures
        sorted.len() == songs(paths).len(),
        songs(paths).contains(sorted[i]) && songs(paths).contains(sorted[j]),
        crate::sorting::text_before(lowercased(sorted[i]), lowercased(sorted[j])) || lowercased(
            sorted[i],
        ) == lowercased(sorted[j]),
{
    let order = choose|order: Seq<usize>|
        #![trigger stable_sort(sort_keys(songs(paths)), order)]
        stable_sort(sort_keys(songs(paths)), order) && sorted == reordered(songs(paths), order);
    crate::sorting::sorted_items_ascend(sort_keys(songs(paths)), order, i, j);
    assert(sorted[i] == songs(paths)[order[i] as int]);
    assert(sorted[j] == songs(paths)[order[j] as int]);
}

} // verus!
