//! Searchable lists of which one or several rows are picked.
use crate::catalog::{
    catalog_rows, entries, entry_rows, EntryData, TelegramCatalogEntry,
};
use crate::channel::{channel_rows, private_channel_rows};
use crate::checklist::{
    all_rows, move_page_down, move_page_up, page_above, page_below, page_end, page_end_index,
    ListStep,
};
use crate::keys::{Key, KeyPress};
use crate::local::{
    find_text, first_path, forms_of, holds_path, lemma_first_path, local_rows, path_forms,
    path_rows,
};
use crate::menu::{move_down, move_up, row_above, row_below};
use crate::number::{decimal, decimal_int, format_i64, format_usize};
use crate::paths::{forms_tell_paths_apart, same_path};
use crate::queue::{window_offset, window_start};
use crate::search::{matching, matching_rows, needle_of, query_needle, row_texts};
use crate::selection::{toggle_all, toggle_key, toggled, toggled_all};
use crate::text::{control, is_control, slice_text, texts, to_chars};
use std::collections::HashSet;
use vstd::prelude::*;

verus! {

broadcast use vstd::std_specs::hash::group_hash_axioms;

// ---------------------------------------------------------------------------
// Searching
// ---------------------------------------------------------------------------

/// What was typed, the rows that match, and the highlighted one among them.
pub struct SearchState {
    pub query: Seq<char>,
    pub matches: Seq<usize>,
    pub row: int,
}

/// The search after the query changed.
pub open spec fn searched(rows: Seq<Seq<Seq<char>>>, query: Seq<char>) -> SearchState {
    SearchState { query, matches: matching(rows, query_needle(query)), row: 0 }
}

/// The query without its last character.
pub open spec fn erased(query: Seq<char>) -> Seq<char> {
    if query.len() == 0 {
        query
    } else {
        query.drop_last()
    }
}

fn erase_last(query: &str) -> (r: String)
    ensures
        r@ == erased(query@),
{
    let chars = to_chars(query);
    if chars.len() == 0 {
        return query.to_string();
    }
    let out = slice_text(&chars, 0, chars.len() - 1);
    assert(out@ =~= query@.drop_last());
    out
}

fn with_char(query: &str, c: char) -> (r: String)
    ensures
        r@ == query@.push(c),
{
    let mut out = query.to_string();
    out.push(c);
    out
}

/// The highlighted row is one of the matches, which are rows.
pub open spec fn search_wf(s: SearchState, count: nat) -> bool {
    &&& s.matches.len() == 0 ==> s.row == 0
    &&& s.matches.len() > 0 ==> 0 <= s.row < s.matches.len()
    &&& forall|i: int| 0 <= i < s.matches.len() ==> (#[trigger] s.matches[i]) < count
}

fn all_row_list(count: usize) -> (r: Vec<usize>)
    ensures
        r@ == all_rows(count as nat),
{
    let mut all: Vec<usize> = Vec::new();
    let mut i: usize = 0;
    while i < count
        invariant
            i <= count,
            all@ =~= all_rows(i as nat),
        decreases count - i,
    {
        all.push(i);
        i += 1;
    }
    all
}

// ---------------------------------------------------------------------------
// Picking several rows
// ---------------------------------------------------------------------------

/// What a picker is set up with: the texts by which its rows are found, the
/// key that is selected with a row, the rows that cannot be selected, the rows
/// on a page, whether whole pages can be scrolled, and whether Enter takes the
/// highlighted row where nothing is selected.
pub struct PickSetup {
    pub rows: Seq<Seq<Seq<char>>>,
    pub keys: Seq<u64>,
    pub locked: Seq<bool>,
    pub page: int,
    pub scroll: bool,
    pub highlight: bool,
}

pub struct PickState {
    pub search: SearchState,
    pub selected: Set<u64>,
}

/// The keys of the rows that can be selected among matches.
pub open spec fn open_keys(setup: PickSetup, matches: Seq<usize>) -> Seq<u64>
    decreases matches.len(),
{
    if matches.len() == 0 {
        seq![]
    } else {
        let before = open_keys(setup, matches.drop_last());
        if setup.locked[matches.last() as int] {
            before
        } else {
            before.push(setup.keys[matches.last() as int])
        }
    }
}

pub open spec fn at_row(s: PickState, row: int) -> PickState {
    PickState { search: SearchState { row, ..s.search }, ..s }
}

/// The row of the list that is highlighted.
pub open spec fn highlighted(s: PickState) -> int {
    s.search.matches[s.search.row] as int
}

/// What a key does to a picker.
pub open spec fn pick_step(setup: PickSetup, s: PickState, press: KeyPress) -> (
    PickState,
    ListStep,
) {
    let count = s.search.matches.len() as int;
    match press.key {
        Key::Up => (
            if count > 0 {
                at_row(s, row_above(s.search.row, count))
            } else {
                s
            },
            ListStep::Stay,
        ),
        Key::Down => (
            if count > 0 {
                at_row(s, row_below(s.search.row, count))
            } else {
                s
            },
            ListStep::Stay,
        ),
        Key::PageUp => (
            if setup.scroll && count > 0 {
                at_row(s, page_above(s.search.row, setup.page))
            } else {
                s
            },
            ListStep::Stay,
        ),
        Key::PageDown => (
            if setup.scroll && count > 0 {
                at_row(s, page_below(s.search.row, setup.page, count))
            } else {
                s
            },
            ListStep::Stay,
        ),
        Key::Backspace => (
            PickState { search: searched(setup.rows, erased(s.search.query)), ..s },
            ListStep::Stay,
        ),
        Key::Char(c) => (
            if press.control && c == ' ' {
                if count > 0 && !setup.locked[highlighted(s)] {
                    PickState { selected: toggled(s.selected, setup.keys[highlighted(s)]), ..s }
                } else {
                    s
                }
            } else if press.control && c == 'a' {
                PickState {
                    selected: toggled_all(s.selected, open_keys(setup, s.search.matches)),
                    ..s
                }
            } else if !press.control && !control(c) {
                PickState { search: searched(setup.rows, s.search.query.push(c)), ..s }
            } else {
                s
            },
            ListStep::Stay,
        ),
        Key::Enter => if setup.highlight && s.selected.is_empty() {
            if count == 0 || setup.locked[highlighted(s)] {
                (s, ListStep::Stay)
            } else {
                (
                    PickState { selected: s.selected.insert(setup.keys[highlighted(s)]), ..s },
                    ListStep::Accept,
                )
            }
        } else {
            (s, ListStep::Accept)
        },
        Key::Esc => (s, ListStep::Cancel),
        _ => (s, ListStep::Stay),
    }
}

/// A selected key is never that of a locked row, where each row has its own.
pub open spec fn no_locked_key(setup: PickSetup, s: PickState) -> bool {
    forall|i: int|
        0 <= i < setup.keys.len() && setup.locked[i] ==> !s.selected.contains(
            #[trigger] setup.keys[i],
        )
}

proof fn lemma_open_keys(setup: PickSetup, matches: Seq<usize>)
    requires
        forall|i: int| 0 <= i < matches.len() ==> (#[trigger] matches[i]) < setup.keys.len(),
    ensures
        forall|k: u64| #[trigger]
            open_keys(setup, matches).contains(k) ==> exists|i: int|
                0 <= i < setup.keys.len() && !setup.locked[i] && #[trigger] setup.keys[i] == k,
    decreases matches.len(),
{
    if matches.len() > 0 {
        let rest = matches.drop_last();
        assert forall|i: int| 0 <= i < rest.len() implies (#[trigger] rest[i])
            < setup.keys.len() by {
            assert(rest[i] == matches[i]);
        }
        lemma_open_keys(setup, rest);
        let before = open_keys(setup, rest);
        let after = open_keys(setup, matches);
        assert(matches[matches.len() - 1] < setup.keys.len());
        assert forall|k: u64| #[trigger] after.contains(k) implies exists|i: int|
            0 <= i < setup.keys.len() && !setup.locked[i] && #[trigger] setup.keys[i] == k by {
            let j = choose|j: int| 0 <= j < after.len() && after[j] == k;
            if j < before.len() {
                assert(before[j] == k);
                assert(before.contains(k));
            } else {
                assert(setup.keys[matches.last() as int] == k);
            }
        }
    }
}

/// No key press selects a locked row.
pub proof fn locked_rows_stay_unselected(setup: PickSetup, s: PickState, press: KeyPress)
    requires
        setup.keys.len() == setup.locked.len(),
        setup.keys.no_duplicates(),
        search_wf(s.search, setup.keys.len()),
        no_locked_key(setup, s),
    ensures
        no_locked_key(setup, pick_step(setup, s, press).0),
{
    lemma_open_keys(setup, s.search.matches);
    let after = pick_step(setup, s, press).0;
    assert forall|i: int| 0 <= i < setup.keys.len() && setup.locked[i] implies !after.selected.contains(
        #[trigger] setup.keys[i],
    ) by {
        let k = setup.keys[i];
        if open_keys(setup, s.search.matches).contains(k) {
            let j = choose|j: int|
                0 <= j < setup.keys.len() && !setup.locked[j] && #[trigger] setup.keys[j] == k;
            assert(i != j);
        }
    }
}

/// The rows among the first `n` whose key is selected.
pub open spec fn picked_rows(keys: Seq<u64>, selected: Set<u64>, n: nat) -> Seq<usize>
    decreases n,
{
    if n == 0 {
        seq![]
    } else {
        let before = picked_rows(keys, selected, (n - 1) as nat);
        if selected.contains(keys[n - 1]) {
            before.push((n - 1) as usize)
        } else {
            before
        }
    }
}

proof fn lemma_picked_rows(keys: Seq<u64>, selected: Set<u64>, n: nat)
    requires
        n <= keys.len() <= usize::MAX,
    ensures
        forall|i: int|
            0 <= i < picked_rows(keys, selected, n).len() ==> (#[trigger] picked_rows(
                keys,
                selected,
                n,
            )[i]) < n && selected.contains(keys[picked_rows(keys, selected, n)[i] as int]),
        crate::selection::ascending(picked_rows(keys, selected, n)),
    decreases n,
{
    if n > 0 {
        lemma_picked_rows(keys, selected, (n - 1) as nat);
        let before = picked_rows(keys, selected, (n - 1) as nat);
        let after = picked_rows(keys, selected, n);
        assert forall|i: int| 0 <= i < after.len() implies (#[trigger] after[i]) < n
            && selected.contains(keys[after[i] as int]) by {
            if i < before.len() {
                assert(after[i] == before[i]);
            }
        }
        assert forall|i: int, j: int| 0 <= i < j < after.len() implies (#[trigger] after[i]) < (
        #[trigger] after[j]) by {
            assert(after[i] == before[i]);
            if j < before.len() {
                assert(after[j] == before[j]);
            }
        }
    }
}

proof fn lemma_picked_are_selected(keys: Seq<u64>, selected: Set<u64>, n: nat, row: usize)
    requires
        n <= keys.len() <= usize::MAX,
    ensures
        picked_rows(keys, selected, n).contains(row) <==> row < n && selected.contains(
            keys[row as int],
        ),
    decreases n,
{
    if n > 0 {
        let before = picked_rows(keys, selected, (n - 1) as nat);
        let after = picked_rows(keys, selected, n);
        lemma_picked_are_selected(keys, selected, (n - 1) as nat, row);
        if before.contains(row) {
            let k = choose|k: int| 0 <= k < before.len() && before[k] == row;
            assert(after[k] == row);
        }
        if after.contains(row) && row != n - 1 {
            let k = choose|k: int| 0 <= k < after.len() && after[k] == row;
            assert(before[k] == row);
        }
        if row == n - 1 && selected.contains(keys[n - 1]) {
            assert(after[before.len() as int] == row);
        }
        if row == n - 1 && after.contains(row) && !selected.contains(keys[n - 1]) {
            assert(before.contains(row));
        }
    }
}

/// The picked rows are those whose keys are selected, each once and in order.
pub proof fn picked_rows_are_the_selected_ones(keys: Seq<u64>, selected: Set<u64>, row: usize)
    requires
        keys.len() <= usize::MAX,
    ensures
        picked_rows(keys, selected, keys.len()).contains(row) <==> row < keys.len()
            && selected.contains(keys[row as int]),
        forall|i: int, j: int|
            0 <= i < j < picked_rows(keys, selected, keys.len()).len() ==> (#[trigger] picked_rows(
                keys,
                selected,
                keys.len(),
            )[i]) < (#[trigger] picked_rows(keys, selected, keys.len())[j]),
{
    lemma_picked_rows(keys, selected, keys.len());
    lemma_picked_are_selected(keys, selected, keys.len(), row);
}

/// Where each row has its own key, Ctrl+Space on a row that is not locked
/// changes whether that row is picked, and no other.
pub proof fn toggling_changes_one_row(setup: PickSetup, s: PickState, row: usize)
    requires
        setup.keys.len() == setup.locked.len(),
        setup.keys.len() <= usize::MAX,
        setup.keys.no_duplicates(),
        search_wf(s.search, setup.keys.len()),
        s.search.matches.len() > 0,
        !setup.locked[highlighted(s)],
        row < setup.keys.len(),
    ensures
        ({
            let press = KeyPress { key: Key::Char(' '), control: true };
            let after = pick_step(setup, s, press).0;
            let picked = picked_rows(setup.keys, s.selected, setup.keys.len());
            let now = picked_rows(setup.keys, after.selected, setup.keys.len());
            now.contains(row) == if row == highlighted(s) {
                !picked.contains(row)
            } else {
                picked.contains(row)
            }
        }),
{
    let press = KeyPress { key: Key::Char(' '), control: true };
    let after = pick_step(setup, s, press).0;
    lemma_picked_are_selected(setup.keys, s.selected, setup.keys.len(), row);
    lemma_picked_are_selected(setup.keys, after.selected, setup.keys.len(), row);
    assert(s.search.matches[s.search.row] < setup.keys.len());
}

/// The rows that are shown, from one position among the matches to another.
pub open spec fn pick_lines(
    labels: Seq<Seq<char>>,
    setup: PickSetup,
    s: PickState,
    from: int,
    to: int,
) -> Seq<char>
    decreases to - from,
{
    if to <= from {
        seq![]
    } else {
        let at = s.search.matches[to - 1] as int;
        pick_lines(labels, setup, s, from, to - 1) + ((if to - 1 == s.search.row {
            ">"@
        } else {
            " "@
        }) + " ["@ + (if setup.locked[at] || s.selected.contains(setup.keys[at]) {
            "x"@
        } else {
            " "@
        }) + "] "@ + labels[at] + "\r\n"@)
    }
}

/// A searchable list of which several rows are picked.
pub struct Picker {
    pub title: String,
    pub suffix: String,
    pub none_found: String,
    pub hint: String,
    pub labels: Vec<String>,
    pub rows: Vec<Vec<String>>,
    pub keys: Vec<u64>,
    pub locked: Vec<bool>,
    pub page: usize,
    pub scroll: bool,
    pub highlight: bool,
    pub query: String,
    pub matches: Vec<usize>,
    pub row: usize,
    pub selected: HashSet<u64>,
}

impl Picker {
    pub open spec fn setup(&self) -> PickSetup {
        PickSetup {
            rows: row_texts(self.rows@),
            keys: self.keys@,
            locked: self.locked@,
            page: self.page as int,
            scroll: self.scroll,
            highlight: self.highlight,
        }
    }

    pub open spec fn state(&self) -> PickState {
        PickState {
            search: SearchState {
                query: self.query@,
                matches: self.matches@,
                row: self.row as int,
            },
            selected: self.selected@,
        }
    }

    pub open spec fn wf(&self) -> bool {
        &&& self.rows@.len() == self.labels@.len()
        &&& self.keys@.len() == self.labels@.len()
        &&& self.locked@.len() == self.labels@.len()
        &&& search_wf(self.state().search, self.labels@.len())
    }

    /// Two pickers that differ at most in their state.
    pub open spec fn same_setup(&self, other: &Picker) -> bool {
        &&& self.title == other.title
        &&& self.suffix == other.suffix
        &&& self.none_found == other.none_found
        &&& self.hint == other.hint
        &&& self.labels == other.labels
        &&& self.setup() == other.setup()
    }

    /// What the picker looks like.
    pub open spec fn look(&self) -> Seq<char> {
        let s = self.state();
        let count = self.matches@.len() as int;
        let start = window_start(self.row as int, count, self.page as int);
        let end = page_end(start, self.page as int, count);
        self.title@ + "\r\nSearch: "@ + self.query@ + "_ | "@ + decimal(self.selected@.len())
            + " selected | "@ + decimal(count as nat) + " matches"@ + self.suffix@ + "\r\n\r\n"@
            + pick_lines(texts(self.labels@), self.setup(), s, start, end) + (if count == 0 {
            self.none_found@
        } else {
            seq![]
        }) + self.hint@
    }

    fn search(&mut self, query: String)
        requires
            old(self).wf(),
        ensures
            final(self).wf(),
            final(self).same_setup(old(self)),
            final(self).selected == old(self).selected,
            final(self).state().search == searched(old(self).setup().rows, query@),
    {
        let found = matching_rows(&self.rows, needle_of(query.as_str()).as_str());
        self.query = query;
        self.matches = found;
        self.row = 0;
    }

    fn open_match_keys(&self) -> (r: Vec<u64>)
        requires
            self.wf(),
        ensures
            r@ == open_keys(self.setup(), self.matches@),
    {
        let mut keys: Vec<u64> = Vec::new();
        let mut i: usize = 0;
        assert(self.matches@.take(0) =~= seq![]);
        while i < self.matches.len()
            invariant
                self.wf(),
                i <= self.matches@.len(),
                keys@ == open_keys(self.setup(), self.matches@.take(i as int)),
            decreases self.matches@.len() - i,
        {
            let at: usize = self.matches[i];
            assert(self.state().search.matches[i as int] == at);
            assert(self.matches@.take(i + 1).drop_last() =~= self.matches@.take(i as int));
            if !self.locked[at] {
                keys.push(self.keys[at]);
            }
            i += 1;
        }
        assert(self.matches@.take(i as int) =~= self.matches@);
        keys
    }

    /// Takes a key.
    pub fn key(&mut self, press: KeyPress) -> (r: ListStep)
        requires
            old(self).wf(),
        ensures
            final(self).wf(),
            final(self).same_setup(old(self)),
            (final(self).state(), r) == pick_step(old(self).setup(), old(self).state(), press),
    {
        let count: usize = self.matches.len();
        match press.key {
            Key::Up => {
                if count > 0 {
                    self.row = move_up(self.row, count);
                }
                ListStep::Stay
            },
            Key::Down => {
                if count > 0 {
                    self.row = move_down(self.row, count);
                }
                ListStep::Stay
            },
            Key::PageUp => {
                if self.scroll && count > 0 {
                    self.row = move_page_up(self.row, self.page);
                }
                ListStep::Stay
            },
            Key::PageDown => {
                if self.scroll && count > 0 {
                    self.row = move_page_down(self.row, self.page, count);
                }
                ListStep::Stay
            },
            Key::Backspace => {
                let query = erase_last(self.query.as_str());
                self.search(query);
                ListStep::Stay
            },
            Key::Char(c) => {
                if press.control && c == ' ' {
                    if count > 0 {
                        let at: usize = self.matches[self.row];
                        assert(self.state().search.matches[self.row as int] == at);
                        if !self.locked[at] {
                            toggle_key(&mut self.selected, self.keys[at]);
                        }
                    }
                } else if press.control && c == 'a' {
                    let keys = self.open_match_keys();
                    toggle_all(&mut self.selected, keys);
                } else if !press.control && !is_control(c) {
                    let query = with_char(self.query.as_str(), c);
                    self.search(query);
                }
                ListStep::Stay
            },
            Key::Enter => {
                if self.highlight && self.selected.is_empty() {
                    if count == 0 {
                        return ListStep::Stay;
                    }
                    let at: usize = self.matches[self.row];
                    assert(self.state().search.matches[self.row as int] == at);
                    if self.locked[at] {
                        return ListStep::Stay;
                    }
                    let ghost before = self.selected@;
                    let key: u64 = self.keys[at];
                    self.selected.insert(key);
                    assert(self.selected@ =~= before.insert(key));
                }
                ListStep::Accept
            },
            Key::Esc => ListStep::Cancel,
            _ => ListStep::Stay,
        }
    }

    /// Asks whether the list closes because the current track has come to its end
    /// while tracks are picked for the queue. Nothing is picked then.
    pub fn idle(&self, finished: bool) -> (r: ListStep)
        ensures
            r == if finished {
                ListStep::Cancel
            } else {
                ListStep::Stay
            },
    {
        if finished {
            ListStep::Cancel
        } else {
            ListStep::Stay
        }
    }

    /// The picked rows, in the order of the list.
    pub fn picked(&self) -> (r: Vec<usize>)
        requires
            self.wf(),
        ensures
            r@ == picked_rows(self.keys@, self.selected@, self.keys@.len()),
            crate::selection::ascending(r@),
            forall|i: int| 0 <= i < r@.len() ==> (#[trigger] r@[i]) < self.labels@.len(),
    {
        let mut out: Vec<usize> = Vec::new();
        let mut i: usize = 0;
        while i < self.keys.len()
            invariant
                i <= self.keys@.len(),
                out@ == picked_rows(self.keys@, self.selected@, i as nat),
            decreases self.keys@.len() - i,
        {
            if self.selected.contains(&self.keys[i]) {
                out.push(i);
            }
            i += 1;
        }
        proof {
            lemma_picked_rows(self.keys@, self.selected@, self.keys@.len());
        }
        out
    }

    /// What the picker looks like.
    pub fn frame(&self) -> (r: String)
        requires
            self.wf(),
        ensures
            r@ == self.look(),
    {
        let count: usize = self.matches.len();
        let mut out = self.title.as_str().to_string();
        out.append("\r\nSearch: ");
        out.append(self.query.as_str());
        out.append("_ | ");
        out.append(format_usize(self.selected.len()).as_str());
        out.append(" selected | ");
        out.append(format_usize(count).as_str());
        out.append(" matches");
        out.append(self.suffix.as_str());
        out.append("\r\n\r\n");
        let start: usize = window_offset(self.row, count, self.page);
        let end: usize = page_end_index(start, self.page, count);
        let ghost labels = texts(self.labels@);
        let ghost s = self.state();
        let mut body = String::new();
        let mut i: usize = start;
        assert(body@ =~= pick_lines(labels, self.setup(), s, start as int, start as int));
        while i < end
            invariant
                self.wf(),
                labels == texts(self.labels@),
                s == self.state(),
                start <= i <= end <= self.matches@.len(),
                body@ == pick_lines(labels, self.setup(), s, start as int, i as int),
            decreases end - i,
        {
            let at: usize = self.matches[i];
            assert(s.search.matches[i as int] == at);
            let mut row = (if i == self.row {
                ">"
            } else {
                " "
            }).to_string();
            row.append(" [");
            row.append(
                if self.locked[at] || self.selected.contains(&self.keys[at]) {
                    "x"
                } else {
                    " "
                },
            );
            row.append("] ");
            row.append(self.labels[at].as_str());
            row.append("\r\n");
            body.append(row.as_str());
            assert(labels[at as int] == self.labels@[at as int]@);
            i += 1;
        }
        out.append(body.as_str());
        if count == 0 {
            out.append(self.none_found.as_str());
        } else {
            assert(out@ + seq![] =~= out@);
        }
        out.append(self.hint.as_str());
        out
    }

    /// A picker before anything was typed: every row matches.
    fn open(
        title: &str,
        suffix: String,
        none_found: &str,
        hint: &str,
        labels: Vec<String>,
        rows: Vec<Vec<String>>,
        keys: Vec<u64>,
        locked: Vec<bool>,
        page: usize,
        scroll: bool,
        selected: HashSet<u64>,
    ) -> (r: Picker)
        requires
            rows@.len() == labels@.len(),
            keys@.len() == labels@.len(),
            locked@.len() == labels@.len(),
        ensures
            r.wf(),
            r.title@ == title@,
            r.suffix == suffix,
            r.none_found@ == none_found@,
            r.hint@ == hint@,
            r.labels == labels,
            r.rows == rows,
            r.setup() == (PickSetup {
                rows: row_texts(rows@),
                keys: keys@,
                locked: locked@,
                page: page as int,
                scroll,
                highlight: scroll,
            }),
            r.state() == unsearched(labels@.len(), selected@),
    {
        let matches = all_row_list(labels.len());
        let query = String::new();
        assert(query@ =~= seq![]);
        Picker {
            title: title.to_string(),
            suffix,
            none_found: none_found.to_string(),
            hint: hint.to_string(),
            labels,
            rows,
            keys,
            locked,
            page,
            scroll,
            highlight: scroll,
            query,
            matches,
            row: 0,
            selected,
        }
    }
}

/// The state of a picker before anything was typed.
pub open spec fn unsearched(count: nat, selected: Set<u64>) -> PickState {
    PickState {
        search: SearchState { query: seq![], matches: all_rows(count), row: 0 },
        selected,
    }
}

pub open spec fn none_locked(count: nat) -> Seq<bool> {
    Seq::new(count, |i: int| false)
}

fn unlocked_list(count: usize) -> (r: Vec<bool>)
    ensures
        r@ == none_locked(count as nat),
{
    let mut out: Vec<bool> = Vec::new();
    let mut i: usize = 0;
    while i < count
        invariant
            i <= count,
            out@ =~= none_locked(i as nat),
        decreases count - i,
    {
        out.push(false);
        i += 1;
    }
    out
}

// ---------------------------------------------------------------------------
// The songs of a catalog
// ---------------------------------------------------------------------------

pub const TRACK_PAGE: usize = 25;

pub const LOCAL_PAGE: usize = 12;

pub const PRIVATE_PAGE: usize = 20;

pub const SAVE_HINT: &'static str =
    "\r\nType to search | [Ctrl+Space] toggle | [Ctrl+A] all matches | Up/Down select | [Enter] save | [Esc] cancel";

pub const PLAY_HINT: &'static str =
    "\r\nType to search | [Ctrl+Space] toggle | [Ctrl+A] all matches | Up/Down select | [Enter] play | [Esc] back";

pub const APPEND_HINT: &'static str =
    "\r\nType to search | [Ctrl+Space] toggle | [Ctrl+A] all matches | [Enter] append | [Esc] cancel";

pub const SYNC_HINT: &'static str =
    "\r\nType to search | [Ctrl+Space] toggle | [Ctrl+A] all matches | Up/Down/Page Up/Page Down scroll | [Enter] sync | [Esc] cancel";

pub const NO_TRACKS: &'static str = "No matching tracks.\r\n";

/// The key of a message.
pub open spec fn message_key(id: i32) -> u64 {
    (id + 0x8000_0000) as u64
}

fn id_key(id: i32) -> (r: u64)
    ensures
        r == message_key(id),
{
    (id as i64 + 0x8000_0000) as u64
}

/// Different messages have different keys.
pub proof fn message_keys_differ(a: i32, b: i32)
    ensures
        message_key(a) == message_key(b) <==> a == b,
{
}

pub open spec fn entry_keys(catalog: Seq<EntryData>) -> Seq<u64> {
    catalog.map_values(|e: EntryData| message_key(e.message_id))
}

pub open spec fn entry_names(catalog: Seq<EntryData>) -> Seq<Seq<char>> {
    catalog.map_values(|e: EntryData| e.name)
}

fn catalog_keys(catalog: &[TelegramCatalogEntry]) -> (r: Vec<u64>)
    ensures
        r@ == entry_keys(entries(catalog@)),
{
    let mut out: Vec<u64> = Vec::new();
    let mut i: usize = 0;
    while i < catalog.len()
        invariant
            i <= catalog@.len(),
            out@ =~= entry_keys(entries(catalog@)).take(i as int),
        decreases catalog@.len() - i,
    {
        out.push(id_key(catalog[i].message_id));
        i += 1;
    }
    assert(out@ =~= entry_keys(entries(catalog@)));
    out
}

/// The names of the songs of a catalog.
pub fn catalog_names(catalog: &[TelegramCatalogEntry]) -> (r: Vec<String>)
    ensures
        texts(r@) == entry_names(entries(catalog@)),
{
    let mut out: Vec<String> = Vec::new();
    let mut i: usize = 0;
    while i < catalog.len()
        invariant
            i <= catalog@.len(),
            texts(out@) =~= entry_names(entries(catalog@)).take(i as int),
        decreases catalog@.len() - i,
    {
        let name = catalog[i].name.as_str().to_string();
        let ghost before = out@;
        out.push(name);
        assert(texts(out@) =~= texts(before).push(name@));
        i += 1;
    }
    assert(texts(out@) =~= entry_names(entries(catalog@)));
    out
}

/// The keys of messages.
pub open spec fn id_set(ids: Seq<i32>) -> Set<u64> {
    ids.map_values(|id: i32| message_key(id)).to_set()
}

fn key_set(ids: &[i32]) -> (r: HashSet<u64>)
    ensures
        r@ == id_set(ids@),
{
    let ghost keys = ids@.map_values(|id: i32| message_key(id));
    let mut set: HashSet<u64> = HashSet::new();
    let mut i: usize = 0;
    assert(keys.take(0).to_set() =~= Set::<u64>::empty());
    while i < ids.len()
        invariant
            i <= ids@.len(),
            keys == ids@.map_values(|id: i32| message_key(id)),
            set@ =~= keys.take(i as int).to_set(),
        decreases ids@.len() - i,
    {
        let key: u64 = id_key(ids[i]);
        proof {
            crate::selection::lemma_to_set_push(keys, i as int);
        }
        set.insert(key);
        i += 1;
    }
    assert(keys.take(i as int) =~= keys);
    set
}

/// A key for each row.
pub open spec fn position_keys(count: nat) -> Seq<u64> {
    Seq::new(count, |i: int| i as u64)
}

/// Each row has its own key.
pub proof fn position_keys_differ(count: nat)
    requires
        count <= usize::MAX,
    ensures
        position_keys(count).no_duplicates(),
{
}

fn position_list(count: usize) -> (r: Vec<u64>)
    ensures
        r@ == position_keys(count as nat),
{
    let mut keys: Vec<u64> = Vec::new();
    let mut i: usize = 0;
    while i < count
        invariant
            i <= count,
            keys@ =~= position_keys(i as nat),
        decreases count - i,
    {
        keys.push(i as u64);
        i += 1;
    }
    keys
}

/// How a picker over a catalog is set up.
pub open spec fn catalog_setup(catalog: Seq<EntryData>) -> PickSetup {
    PickSetup {
        rows: entry_rows(catalog),
        keys: entry_keys(catalog),
        locked: none_locked(catalog.len()),
        page: TRACK_PAGE as int,
        scroll: false,
        highlight: false,
    }
}

fn catalog_picker(
    title: &str,
    hint: &str,
    catalog: &[TelegramCatalogEntry],
    keys: Vec<u64>,
    selected: HashSet<u64>,
) -> (r: Picker)
    requires
        keys@.len() == catalog@.len(),
    ensures
        r.wf(),
        r.title@ == title@,
        r.hint@ == hint@,
        r.suffix@ == Seq::<char>::empty(),
        r.none_found@ == NO_TRACKS@,
        texts(r.labels@) == entry_names(entries(catalog@)),
        r.setup() == (PickSetup { keys: keys@, ..catalog_setup(entries(catalog@)) }),
        r.state() == unsearched(catalog@.len(), selected@),
{
    let labels = catalog_names(catalog);
    let rows = catalog_rows(catalog);
    let locked = unlocked_list(catalog.len());
    proof {
        assert(texts(labels@).len() == labels@.len());
        assert(row_texts(rows@).len() == rows@.len());
    }
    let suffix = String::new();
    assert(suffix@ =~= seq![]);
    Picker::open(
        title,
        suffix,
        NO_TRACKS,
        hint,
        labels,
        rows,
        keys,
        locked,
        TRACK_PAGE,
        false,
        selected,
    )
}

/// The picker for the songs that a playlist takes from the catalog of one
/// channel.
pub fn choose_catalog_tracks(catalog: &[TelegramCatalogEntry], selected_ids: &[i32]) -> (r: Picker)
    ensures
        r.wf(),
        r.title@ == "Choose playlist songs"@,
        r.hint@ == SAVE_HINT@,
        r.suffix@ == Seq::<char>::empty(),
        r.none_found@ == NO_TRACKS@,
        texts(r.labels@) == entry_names(entries(catalog@)),
        r.setup() == catalog_setup(entries(catalog@)),
        r.state() == unsearched(catalog@.len(), id_set(selected_ids@)),
{
    let keys = catalog_keys(catalog);
    let selected = key_set(selected_ids);
    catalog_picker("Choose playlist songs", SAVE_HINT, catalog, keys, selected)
}

/// The picker for the songs of a catalog that play first. The catalog may hold
/// the songs of several channels, whose messages may have the same ids, so each
/// row is selected for itself.
pub fn choose_priority_tracks(catalog: &[TelegramCatalogEntry]) -> (r: Picker)
    ensures
        r.wf(),
        r.title@ == "Choose tracks to play"@,
        r.hint@ == PLAY_HINT@,
        r.suffix@ == Seq::<char>::empty(),
        r.none_found@ == NO_TRACKS@,
        texts(r.labels@) == entry_names(entries(catalog@)),
        r.setup() == (PickSetup {
            keys: position_keys(catalog@.len()),
            ..catalog_setup(entries(catalog@))
        }),
        r.state() == unsearched(catalog@.len(), Set::empty()),
{
    let keys = position_list(catalog.len());
    let none: HashSet<u64> = HashSet::new();
    catalog_picker("Choose tracks to play", PLAY_HINT, catalog, keys, none)
}

/// Entries at positions.
pub open spec fn entries_at(catalog: Seq<EntryData>, at: Seq<usize>) -> Seq<EntryData> {
    at.map_values(|i: usize| catalog[i as int])
}

/// The entries at some positions of a catalog.
pub fn picked_entries(catalog: &[TelegramCatalogEntry], at: &Vec<usize>) -> (r: Vec<
    TelegramCatalogEntry,
>)
    requires
        forall|i: int| 0 <= i < at@.len() ==> (#[trigger] at@[i]) < catalog@.len(),
    ensures
        entries(r@) == entries_at(entries(catalog@), at@),
{
    let mut out: Vec<TelegramCatalogEntry> = Vec::new();
    let mut i: usize = 0;
    while i < at.len()
        invariant
            i <= at@.len(),
            forall|k: int| 0 <= k < at@.len() ==> (#[trigger] at@[k]) < catalog@.len(),
            entries(out@) =~= entries_at(entries(catalog@), at@).take(i as int),
        decreases at@.len() - i,
    {
        let k: usize = at[i];
        let entry = catalog[k].clone();
        let ghost before = out@;
        out.push(entry);
        assert(entries(out@) =~= entries(before).push(entry@));
        i += 1;
    }
    assert(entries(out@) =~= entries_at(entries(catalog@), at@));
    out
}

// ---------------------------------------------------------------------------
// Local songs
// ---------------------------------------------------------------------------

/// The key of a path: where it occurs first among the tracks, or behind them
/// where it occurs first among the other paths.
pub open spec fn path_key(tracks: Seq<Seq<char>>, others: Seq<Seq<char>>, path: Seq<char>) -> u64 {
    let at = first_path(tracks, path);
    if at < tracks.len() {
        at as u64
    } else {
        (tracks.len() + first_path(others, path)) as u64
    }
}

/// Paths have the same key exactly where they are the same, however they are
/// written.
pub proof fn path_keys_tell_paths_apart(
    tracks: Seq<Seq<char>>,
    others: Seq<Seq<char>>,
    a: Seq<char>,
    b: Seq<char>,
)
    requires
        tracks.len() + others.len() <= u64::MAX,
        holds_path(tracks, a) || holds_path(others, a),
        holds_path(tracks, b) || holds_path(others, b),
    ensures
        path_key(tracks, others, a) == path_key(tracks, others, b) <==> same_path(a, b),
{
    lemma_first_path(tracks, a);
    lemma_first_path(tracks, b);
    lemma_first_path(others, a);
    lemma_first_path(others, b);
    forms_tell_paths_apart(a, b);
}

pub open spec fn track_keys(tracks: Seq<Seq<char>>, paths: Seq<Seq<char>>, others: Seq<Seq<char>>) -> Seq<
    u64,
> {
    paths.map_values(|p: Seq<char>| path_key(tracks, others, p))
}

/// The keys of paths, from the forms of the paths, the tracks and the others.
fn keys_of_paths(
    tracks: &[String],
    paths: &[String],
    others: &[String],
    Ghost(all): Ghost<(Seq<Seq<char>>, Seq<Seq<char>>, Seq<Seq<char>>)>,
) -> (r: Vec<u64>)
    requires
        tracks@.len() + others@.len() <= usize::MAX,
        texts(tracks@) == path_forms(all.0),
        texts(paths@) == path_forms(all.1),
        texts(others@) == path_forms(all.2),
    ensures
        r@ == track_keys(all.0, all.1, all.2),
{
    let mut out: Vec<u64> = Vec::new();
    let mut i: usize = 0;
    assert(texts(tracks@).len() == tracks@.len());
    assert(texts(paths@).len() == paths@.len());
    while i < paths.len()
        invariant
            i <= paths@.len(),
            tracks@.len() == all.0.len(),
            paths@.len() == all.1.len(),
            tracks@.len() + others@.len() <= usize::MAX,
            texts(tracks@) == path_forms(all.0),
            texts(paths@) == path_forms(all.1),
            texts(others@) == path_forms(all.2),
            out@ =~= track_keys(all.0, all.1, all.2).take(i as int),
        decreases paths@.len() - i,
    {
        assert(texts(paths@)[i as int] == paths@[i as int]@);
        proof {
            lemma_first_path(all.0, all.1[i as int]);
            lemma_first_path(all.2, all.1[i as int]);
        }
        let at: usize = find_text(tracks, paths[i].as_str());
        let key: u64 = if at < tracks.len() {
            at as u64
        } else {
            (tracks.len() + find_text(others, paths[i].as_str())) as u64
        };
        out.push(key);
        i += 1;
    }
    assert(out@ =~= track_keys(all.0, all.1, all.2));
    out
}

fn set_of_keys(keys: &Vec<u64>) -> (r: HashSet<u64>)
    ensures
        r@ == keys@.to_set(),
{
    let mut set: HashSet<u64> = HashSet::new();
    let mut i: usize = 0;
    assert(keys@.take(0).to_set() =~= Set::<u64>::empty());
    while i < keys.len()
        invariant
            i <= keys@.len(),
            set@ =~= keys@.take(i as int).to_set(),
        decreases keys@.len() - i,
    {
        proof {
            crate::selection::lemma_to_set_push(keys@, i as int);
        }
        set.insert(keys[i]);
        i += 1;
    }
    assert(keys@.take(i as int) =~= keys@);
    set
}

/// The picker for the local songs of a playlist.
pub fn choose_local_tracks(tracks: &Vec<String>, selected_paths: &Vec<String>) -> (r: Picker)
    requires
        tracks@.len() + selected_paths@.len() <= usize::MAX,
    ensures
        r.wf(),
        r.title@ == "Choose local playlist songs"@,
        r.hint@ == SAVE_HINT@,
        r.suffix@ == Seq::<char>::empty(),
        r.none_found@ == NO_TRACKS@,
        texts(r.labels@) == texts(tracks@),
        r.setup() == (PickSetup {
            rows: path_rows(texts(tracks@)),
            keys: track_keys(texts(tracks@), texts(tracks@), texts(selected_paths@)),
            locked: none_locked(tracks@.len()),
            page: LOCAL_PAGE as int,
            scroll: false,
            highlight: false,
        }),
        r.state() == unsearched(
            tracks@.len(),
            track_keys(
                texts(tracks@),
                texts(selected_paths@),
                texts(selected_paths@),
            ).to_set(),
        ),
{
    let labels = crate::playlist::copy_texts(tracks);
    let rows = local_rows(tracks.as_slice());
    let forms = forms_of(tracks.as_slice());
    let others = forms_of(selected_paths.as_slice());
    let ghost listed = texts(tracks@);
    let ghost kept = texts(selected_paths@);
    assert(texts(forms@).len() == forms@.len() && texts(others@).len() == others@.len());
    let keys = keys_of_paths(
        forms.as_slice(),
        forms.as_slice(),
        others.as_slice(),
        Ghost((listed, listed, kept)),
    );
    let chosen = keys_of_paths(
        forms.as_slice(),
        others.as_slice(),
        others.as_slice(),
        Ghost((listed, kept, kept)),
    );
    let selected = set_of_keys(&chosen);
    let locked = unlocked_list(tracks.len());
    proof {
        assert(texts(labels@).len() == labels@.len());
        assert(row_texts(rows@).len() == rows@.len());
    }
    let suffix = String::new();
    assert(suffix@ =~= seq![]);
    Picker::open(
        "Choose local playlist songs",
        suffix,
        NO_TRACKS,
        SAVE_HINT,
        labels,
        rows,
        keys,
        locked,
        LOCAL_PAGE,
        false,
        selected,
    )
}

pub open spec fn texts_at(all: Seq<Seq<char>>, at: Seq<usize>) -> Seq<Seq<char>> {
    at.map_values(|i: usize| all[i as int])
}

/// The texts at some positions.
pub fn picked_texts(all: &[String], at: &Vec<usize>) -> (r: Vec<String>)
    requires
        forall|i: int| 0 <= i < at@.len() ==> (#[trigger] at@[i]) < all@.len(),
    ensures
        texts(r@) == texts_at(texts(all@), at@),
{
    let mut out: Vec<String> = Vec::new();
    let mut i: usize = 0;
    while i < at.len()
        invariant
            i <= at@.len(),
            forall|k: int| 0 <= k < at@.len() ==> (#[trigger] at@[k]) < all@.len(),
            texts(out@) =~= texts_at(texts(all@), at@).take(i as int),
        decreases at@.len() - i,
    {
        let k: usize = at[i];
        let text = all[k].as_str().to_string();
        let ghost before = out@;
        out.push(text);
        assert(texts(out@) =~= texts(before).push(text@));
        i += 1;
    }
    assert(texts(out@) =~= texts_at(texts(all@), at@));
    out
}

// ---------------------------------------------------------------------------
// Songs for the queue
// ---------------------------------------------------------------------------

/// The picker for songs that are added to the queue. Songs with the same key
/// are selected together.
pub fn append_to_queue(labels: Vec<String>, rows: Vec<Vec<String>>, keys: Vec<u64>) -> (r: Picker)
    requires
        rows@.len() == labels@.len(),
        keys@.len() == labels@.len(),
    ensures
        r.wf(),
        r.title@ == "Add songs to queue"@,
        r.hint@ == APPEND_HINT@,
        r.suffix@ == Seq::<char>::empty(),
        r.none_found@ == NO_TRACKS@,
        r.labels == labels,
        r.setup() == (PickSetup {
            rows: row_texts(rows@),
            keys: keys@,
            locked: none_locked(labels@.len()),
            page: LOCAL_PAGE as int,
            scroll: false,
            highlight: false,
        }),
        r.state() == unsearched(labels@.len(), Set::empty()),
{
    let locked = unlocked_list(labels.len());
    let suffix = String::new();
    assert(suffix@ =~= seq![]);
    Picker::open(
        "Add songs to queue",
        suffix,
        NO_TRACKS,
        APPEND_HINT,
        labels,
        rows,
        keys,
        locked,
        LOCAL_PAGE,
        false,
        HashSet::new(),
    )
}

// ---------------------------------------------------------------------------
// Private channels
// ---------------------------------------------------------------------------

/// How a private channel is listed.
pub open spec fn private_label(channel: (String, i64, String)) -> Seq<char> {
    "🔒 "@ + channel.0@ + "  [channel "@ + decimal_int(channel.1 as int) + "]"@
}

pub open spec fn private_labels(channels: Seq<(String, i64, String)>) -> Seq<Seq<char>> {
    channels.map_values(|c: (String, i64, String)| private_label(c))
}

/// The picker for the private channels of an account. Channels that are saved
/// already are locked.
pub fn choose_private_channel(
    channels: &Vec<(String, i64, String)>,
    saved: Vec<bool>,
    scanned: usize,
) -> (r: Result<Picker, String>)
    requires
        saved@.len() == channels@.len(),
    ensures
        match r {
            Err(e) => channels@.len() == 0 && e@
                == "the logged-in account has no private broadcast channels"@,
            Ok(p) => {
                &&& channels@.len() > 0
                &&& p.wf()
                &&& p.title@ == "Choose private Telegram channels"@
                &&& p.suffix@ == " | "@ + decimal(scanned as nat) + " scanned"@
                &&& p.none_found@ == "No matching private channels.\r\n"@
                &&& p.hint@ == SYNC_HINT@
                &&& texts(p.labels@) == private_labels(channels@)
                &&& p.setup() == (PickSetup {
                    rows: channel_rows(channels@),
                    keys: position_keys(channels@.len()),
                    locked: saved@,
                    page: PRIVATE_PAGE as int,
                    scroll: true,
                    highlight: true,
                })
                &&& p.state() == unsearched(channels@.len(), Set::empty())
                &&& no_locked_key(p.setup(), p.state())
            },
        },
{
    if channels.len() == 0 {
        return Err("the logged-in account has no private broadcast channels".to_string());
    }
    let mut labels: Vec<String> = Vec::new();
    let keys = position_list(channels.len());
    let mut i: usize = 0;
    while i < channels.len()
        invariant
            i <= channels@.len(),
            texts(labels@) =~= private_labels(channels@).take(i as int),
        decreases channels@.len() - i,
    {
        let mut label = "🔒 ".to_string();
        label.append(channels[i].0.as_str());
        label.append("  [channel ");
        label.append(format_i64(channels[i].1).as_str());
        label.append("]");
        let ghost before = labels@;
        labels.push(label);
        assert(texts(labels@) =~= texts(before).push(label@));
        i += 1;
    }
    assert(texts(labels@) =~= private_labels(channels@));
    let rows = private_channel_rows(channels.as_slice());
    let mut suffix = " | ".to_string();
    suffix.append(format_usize(scanned).as_str());
    suffix.append(" scanned");
    proof {
        assert(texts(labels@).len() == labels@.len());
        assert(row_texts(rows@).len() == rows@.len());
    }
    Ok(
        Picker::open(
            "Choose private Telegram channels",
            suffix,
            "No matching private channels.\r\n",
            SYNC_HINT,
            labels,
            rows,
            keys,
            saved,
            PRIVATE_PAGE,
            true,
            HashSet::new(),
        ),
    )
}

// ---------------------------------------------------------------------------
// Picking one song
// ---------------------------------------------------------------------------

/// What a key does to a search for one song.
#[derive(Clone, Copy, Debug, PartialEq, Eq, Structural)]
pub enum FindStep {
    Stay,
    Found(usize),
    Cancel,
}

pub open spec fn find_step(rows: Seq<Seq<Seq<char>>>, s: SearchState, press: KeyPress) -> (
    SearchState,
    FindStep,
) {
    let count = s.matches.len() as int;
    match press.key {
        Key::Up => (
            if count > 0 {
                SearchState { row: row_above(s.row, count), ..s }
            } else {
                s
            },
            FindStep::Stay,
        ),
        Key::Down => (
            if count > 0 {
                SearchState { row: row_below(s.row, count), ..s }
            } else {
                s
            },
            FindStep::Stay,
        ),
        Key::Enter => (
            s,
            if count > 0 {
                FindStep::Found(s.matches[s.row])
            } else {
                FindStep::Stay
            },
        ),
        Key::Backspace => (searched(rows, erased(s.query)), FindStep::Stay),
        Key::Char(c) => (
            if !control(c) {
                searched(rows, s.query.push(c))
            } else {
                s
            },
            FindStep::Stay,
        ),
        Key::Esc => (s, FindStep::Cancel),
        _ => (s, FindStep::Stay),
    }
}

/// The rows that are shown, from one position among the matches to another.
pub open spec fn find_lines(labels: Seq<Seq<char>>, s: SearchState, from: int, to: int) -> Seq<char>
    decreases to - from,
{
    if to <= from {
        seq![]
    } else {
        find_lines(labels, s, from, to - 1) + ((if to - 1 == s.row {
            ">"@
        } else {
            " "@
        }) + " "@ + labels[s.matches[to - 1] as int] + "\r\n"@)
    }
}

/// A search for one song of a catalog.
pub struct SongSearch {
    pub list: String,
    pub labels: Vec<String>,
    pub rows: Vec<Vec<String>>,
    pub query: String,
    pub matches: Vec<usize>,
    pub row: usize,
}

pub const FIND_HINT: &'static str =
    "\r\nType to search | Backspace edit | Up/Down select | Enter play | Esc back";

impl SongSearch {
    pub open spec fn state(&self) -> SearchState {
        SearchState { query: self.query@, matches: self.matches@, row: self.row as int }
    }

    pub open spec fn wf(&self) -> bool {
        self.rows@.len() == self.labels@.len() && search_wf(self.state(), self.labels@.len())
    }

    pub open spec fn look(&self) -> Seq<char> {
        let count = self.matches@.len() as int;
        let start = window_start(self.row as int, count, TRACK_PAGE as int);
        let end = page_end(start, TRACK_PAGE as int, count);
        "Search songs\r\nList: "@ + self.list@ + "\r\nSearch: "@ + self.query@ + "_\r\n"@ + decimal(
            count as nat,
        ) + " match(es)\r\n\r\n"@ + find_lines(texts(self.labels@), self.state(), start, end) + (
        if count == 0 {
            NO_TRACKS@
        } else {
            seq![]
        }) + FIND_HINT@
    }

    fn search(&mut self, query: String)
        requires
            old(self).wf(),
        ensures
            final(self).wf(),
            final(self).list == old(self).list,
            final(self).labels == old(self).labels,
            final(self).rows == old(self).rows,
            final(self).state() == searched(row_texts(old(self).rows@), query@),
    {
        let found = matching_rows(&self.rows, needle_of(query.as_str()).as_str());
        self.query = query;
        self.matches = found;
        self.row = 0;
    }

    /// Takes a key.
    pub fn key(&mut self, press: KeyPress) -> (r: FindStep)
        requires
            old(self).wf(),
        ensures
            final(self).wf(),
            final(self).list == old(self).list,
            final(self).labels == old(self).labels,
            final(self).rows == old(self).rows,
            (final(self).state(), r) == find_step(
                row_texts(old(self).rows@),
                old(self).state(),
                press,
            ),
            r matches FindStep::Found(at) ==> at < old(self).labels@.len(),
    {
        let count: usize = self.matches.len();
        match press.key {
            Key::Up => {
                if count > 0 {
                    self.row = move_up(self.row, count);
                }
                FindStep::Stay
            },
            Key::Down => {
                if count > 0 {
                    self.row = move_down(self.row, count);
                }
                FindStep::Stay
            },
            Key::Enter => if count > 0 {
                assert(self.state().matches[self.row as int] < self.labels@.len());
                FindStep::Found(self.matches[self.row])
            } else {
                FindStep::Stay
            },
            Key::Backspace => {
                let query = erase_last(self.query.as_str());
                self.search(query);
                FindStep::Stay
            },
            Key::Char(c) => {
                if !is_control(c) {
                    let query = with_char(self.query.as_str(), c);
                    self.search(query);
                }
                FindStep::Stay
            },
            Key::Esc => FindStep::Cancel,
            _ => FindStep::Stay,
        }
    }

    /// What the search looks like.
    pub fn frame(&self) -> (r: String)
        requires
            self.wf(),
        ensures
            r@ == self.look(),
    {
        let count: usize = self.matches.len();
        let mut out = "Search songs\r\nList: ".to_string();
        out.append(self.list.as_str());
        out.append("\r\nSearch: ");
        out.append(self.query.as_str());
        out.append("_\r\n");
        out.append(format_usize(count).as_str());
        out.append(" match(es)\r\n\r\n");
        let start: usize = window_offset(self.row, count, TRACK_PAGE);
        let end: usize = page_end_index(start, TRACK_PAGE, count);
        let ghost labels = texts(self.labels@);
        let ghost s = self.state();
        let mut body = String::new();
        let mut i: usize = start;
        assert(body@ =~= find_lines(labels, s, start as int, start as int));
        while i < end
            invariant
                self.wf(),
                labels == texts(self.labels@),
                s == self.state(),
                start <= i <= end <= self.matches@.len(),
                body@ == find_lines(labels, s, start as int, i as int),
            decreases end - i,
        {
            let at: usize = self.matches[i];
            assert(s.matches[i as int] == at);
            let mut row = (if i == self.row {
                ">"
            } else {
                " "
            }).to_string();
            row.append(" ");
            row.append(self.labels[at].as_str());
            row.append("\r\n");
            body.append(row.as_str());
            assert(labels[at as int] == self.labels@[at as int]@);
            i += 1;
        }
        out.append(body.as_str());
        if count == 0 {
            out.append(NO_TRACKS);
        } else {
            assert(out@ + seq![] =~= out@);
        }
        out.append(FIND_HINT);
        out
    }
}

/// The search for one song of a catalog.
pub fn choose_catalog_track(catalog: &[TelegramCatalogEntry], list_label: &str) -> (r: SongSearch)
    ensures
        r.wf(),
        r.list@ == list_label@,
        texts(r.labels@) == entry_names(entries(catalog@)),
        row_texts(r.rows@) == entry_rows(entries(catalog@)),
        r.state() == (SearchState { query: seq![], matches: all_rows(catalog@.len()), row: 0 }),
{
    let labels = catalog_names(catalog);
    let rows = catalog_rows(catalog);
    let matches = all_row_list(catalog.len());
    proof {
        assert(texts(labels@).len() == labels@.len());
        assert(row_texts(rows@).len() == rows@.len());
    }
    let query = String::new();
    assert(query@ =~= seq![]);
    SongSearch { list: list_label.to_string(), labels, rows, query, matches, row: 0 }
}

// ---------------------------------------------------------------------------
// What holds of every picker
// ---------------------------------------------------------------------------

/// What is typed is searched for as a whole: a row is listed exactly where one of
/// its texts holds the query with the typed character, trimmed and in lower case.
/// Backspace takes the character back.
pub proof fn typing_narrows_the_list(
    setup: PickSetup,
    s: PickState,
    c: char,
    row: int,
)
    requires
        setup.rows.len() <= usize::MAX,
        0 <= row < setup.rows.len(),
        !crate::text::control(c),
    ensures
        ({
            let typed = pick_step(setup, s, KeyPress { key: Key::Char(c), control: false }).0;
            let erased = pick_step(
                setup,
                typed,
                KeyPress { key: Key::Backspace, control: false },
            ).0;
            let needle = crate::text::lowercased(
                crate::text::trimmed(s.search.query.push(c)),
            );
            let before = crate::text::lowercased(crate::text::trimmed(s.search.query));
            let texts = setup.rows[row];
            &&& typed.search.query == s.search.query.push(c)
            &&& typed.selected == s.selected
            &&& typed.search.row == 0
            &&& typed.search.matches.contains(row as usize) <==> exists|t: int, at: int|
                0 <= t < texts.len() && 0 <= at <= texts[t].len() - needle.len()
                    && #[trigger] texts[t].subrange(at, at + needle.len()) == needle
            &&& erased.search.query == s.search.query
            &&& erased.selected == s.selected
            &&& erased.search.matches.contains(row as usize) <==> exists|t: int, at: int|
                0 <= t < texts.len() && 0 <= at <= texts[t].len() - before.len()
                    && #[trigger] texts[t].subrange(at, at + before.len()) == before
        }),
{
    crate::search::searches_look_for_the_whole_query(setup.rows, s.search.query.push(c), row);
    crate::search::searches_look_for_the_whole_query(setup.rows, s.search.query, row);
    assert(s.search.query.push(c).drop_last() =~= s.search.query);
}

/// Up and Down go one row at a time round the matches, and change no selection;
/// Enter accepts and Esc cancels what is selected.
pub proof fn picker_keys_move_and_leave(setup: PickSetup, s: PickState)
    requires
        search_wf(s.search, setup.keys.len()),
        s.search.matches.len() > 0,
    ensures
        ({
            let last = s.search.matches.len() - 1;
            let up = pick_step(setup, s, KeyPress { key: Key::Up, control: false });
            let down = pick_step(setup, s, KeyPress { key: Key::Down, control: false });
            let enter = pick_step(setup, s, KeyPress { key: Key::Enter, control: false });
            let esc = pick_step(setup, s, KeyPress { key: Key::Esc, control: false });
            &&& up.0.search.row == if s.search.row == 0 {
                last
            } else {
                s.search.row - 1
            }
            &&& down.0.search.row == if s.search.row == last {
                0
            } else {
                s.search.row + 1
            }
            &&& up.0.search.matches == s.search.matches && up.0.selected == s.selected && up.1
                == ListStep::Stay
            &&& down.0.search.matches == s.search.matches && down.0.selected == s.selected
                && down.1 == ListStep::Stay
            &&& !setup.highlight || !s.selected.is_empty() ==> enter == (s, ListStep::Accept)
            &&& setup.highlight && s.selected.is_empty() && !setup.locked[s.search.matches[s.search.row] as int]
                ==> enter.1 == ListStep::Accept && enter.0.selected == set![
                setup.keys[s.search.matches[s.search.row] as int],
            ]
            &&& setup.highlight && s.selected.is_empty()
                && setup.locked[s.search.matches[s.search.row] as int] ==> enter == (
                s,
                ListStep::Stay,
            )
            &&& esc == (s, ListStep::Cancel)
        }),
{
    assert(setup.highlight && s.selected.is_empty() ==> s.selected.insert(
        setup.keys[s.search.matches[s.search.row] as int],
    ) =~= set![setup.keys[s.search.matches[s.search.row] as int]]);
}

/// Ctrl+A selects every listed row that is not locked, or none of them where all
/// are selected; rows that are not listed keep what they had.
pub proof fn ctrl_a_takes_all_listed_rows(setup: PickSetup, s: PickState, key: u64)
    requires
        setup.keys.len() == setup.locked.len(),
        search_wf(s.search, setup.keys.len()),
    ensures
        ({
            let after = pick_step(setup, s, KeyPress { key: Key::Char('a'), control: true }).0;
            let listed = exists|i: int|
                0 <= i < s.search.matches.len() && !setup.locked[#[trigger] s.search.matches[i] as int]
                    && setup.keys[s.search.matches[i] as int] == key;
            let all = forall|i: int|
                0 <= i < s.search.matches.len() && !setup.locked[#[trigger] s.search.matches[i] as int]
                    ==> s.selected.contains(setup.keys[s.search.matches[i] as int]);
            after.selected.contains(key) == if listed {
                !all
            } else {
                s.selected.contains(key)
            } && after.search == s.search
        }),
{
    let matches = s.search.matches;
    let keys = open_keys(setup, matches);
    lemma_open_keys_listed(setup, matches);
    if keys.contains(key) {
        let i = choose|i: int|
            0 <= i < matches.len() && !setup.locked[#[trigger] matches[i] as int]
                && setup.keys[matches[i] as int] == key;
        assert(setup.keys[matches[i] as int] == key);
    }
    if forall|i: int|
        0 <= i < matches.len() && !setup.locked[#[trigger] matches[i] as int]
            ==> s.selected.contains(setup.keys[matches[i] as int]) {
        assert forall|j: int| 0 <= j < keys.len() implies s.selected.contains(
            #[trigger] keys[j],
        ) by {
            assert(keys.contains(keys[j]));
            let i = choose|i: int|
                0 <= i < matches.len() && !setup.locked[#[trigger] matches[i] as int]
                    && setup.keys[matches[i] as int] == keys[j];
            assert(s.selected.contains(setup.keys[matches[i] as int]));
        }
        assert(crate::selection::all_selected(s.selected, keys));
    } else {
        let i = choose|i: int|
            0 <= i < matches.len() && !setup.locked[#[trigger] matches[i] as int]
                && !s.selected.contains(setup.keys[matches[i] as int]);
        let k = setup.keys[matches[i] as int];
        assert(keys.contains(k));
        let j = choose|j: int| 0 <= j < keys.len() && keys[j] == k;
        assert(!s.selected.contains(keys[j]));
        assert(!crate::selection::all_selected(s.selected, keys));
    }
}

proof fn lemma_open_keys_listed(setup: PickSetup, matches: Seq<usize>)
    ensures
        forall|k: u64|
            #![trigger open_keys(setup, matches).contains(k)]
            open_keys(setup, matches).contains(k) <==> exists|i: int|
                0 <= i < matches.len() && !setup.locked[#[trigger] matches[i] as int]
                    && setup.keys[matches[i] as int] == k,
    decreases matches.len(),
{
    if matches.len() > 0 {
        let rest = matches.drop_last();
        let before = open_keys(setup, rest);
        let after = open_keys(setup, matches);
        lemma_open_keys_listed(setup, rest);
        assert forall|k: u64|
            #![trigger open_keys(setup, matches).contains(k)]
            after.contains(k) <==> exists|i: int|
                0 <= i < matches.len() && !setup.locked[#[trigger] matches[i] as int]
                    && setup.keys[matches[i] as int] == k by {
            if after.contains(k) {
                let j = choose|j: int| 0 <= j < after.len() && after[j] == k;
                if j < before.len() {
                    assert(before[j] == k);
                    assert(before.contains(k));
                    let i = choose|i: int|
                        0 <= i < rest.len() && !setup.locked[#[trigger] rest[i] as int]
                            && setup.keys[rest[i] as int] == k;
                    assert(matches[i] == rest[i]);
                } else {
                    assert(!setup.locked[matches[matches.len() - 1] as int]);
                }
            }
            if exists|i: int|
                0 <= i < matches.len() && !setup.locked[#[trigger] matches[i] as int]
                    && setup.keys[matches[i] as int] == k {
                let i = choose|i: int|
                    0 <= i < matches.len() && !setup.locked[#[trigger] matches[i] as int]
                        && setup.keys[matches[i] as int] == k;
                if i < rest.len() {
                    assert(rest[i] == matches[i]);
                    assert(before.contains(k));
                    let j = choose|j: int| 0 <= j < before.len() && before[j] == k;
                    assert(after[j] == k);
                } else {
                    assert(after[before.len() as int] == k);
                }
            }
        }
    }
}

/// A search for one song finds the highlighted one on Enter, and changes with
/// what is typed as every search does.
pub proof fn song_searches_find_the_highlighted_song(
    rows: Seq<Seq<Seq<char>>>,
    s: SearchState,
    c: char,
)
    requires
        search_wf(s, rows.len()),
        !crate::text::control(c),
    ensures
        s.matches.len() > 0 ==> find_step(rows, s, KeyPress { key: Key::Enter, control: false }) == (
            s,
            FindStep::Found(s.matches[s.row]),
        ),
        find_step(rows, s, KeyPress { key: Key::Esc, control: false }) == (s, FindStep::Cancel),
        find_step(rows, s, KeyPress { key: Key::Char(c), control: false }).0.query
            == s.query.push(c),
        find_step(rows, s, KeyPress { key: Key::Char(c), control: false }).0.matches
            == crate::search::matching(
            rows,
            crate::text::lowercased(crate::text::trimmed(s.query.push(c))),
        ),
{
}

/// A picker shows each match on a line of its own, in order; it marks the
/// highlighted one, and checks those that are selected or locked.
pub proof fn pickers_check_what_is_selected(
    labels: Seq<Seq<char>>,
    setup: PickSetup,
    s: PickState,
    from: int,
    to: int,
)
    requires
        0 <= from <= to <= s.search.matches.len(),
    ensures
        pick_lines(labels, setup, s, from, to) == Seq::new(
            (to - from) as nat,
            |i: int|
                {
                    let at = s.search.matches[from + i] as int;
                    (if from + i == s.search.row {
                        ">"@
                    } else {
                        " "@
                    }) + " ["@ + (if setup.locked[at] || s.selected.contains(setup.keys[at]) {
                        "x"@
                    } else {
                        " "@
                    }) + "] "@ + labels[at] + "\r\n"@
                },
        ).flatten(),
    decreases to - from,
{
    let rows = Seq::new(
        (to - from) as nat,
        |i: int|
            {
                let at = s.search.matches[from + i] as int;
                (if from + i == s.search.row {
                    ">"@
                } else {
                    " "@
                }) + " ["@ + (if setup.locked[at] || s.selected.contains(setup.keys[at]) {
                    "x"@
                } else {
                    " "@
                }) + "] "@ + labels[at] + "\r\n"@
            },
    );
    rows.lemma_flatten_and_flatten_alt_are_equivalent();
    if from < to {
        pickers_check_what_is_selected(labels, setup, s, from, to - 1);
        let before = rows.drop_last();
        before.lemma_flatten_and_flatten_alt_are_equivalent();
        assert(before =~= Seq::new(
            (to - 1 - from) as nat,
            |i: int|
                {
                    let at = s.search.matches[from + i] as int;
                    (if from + i == s.search.row {
                        ">"@
                    } else {
                        " "@
                    }) + " ["@ + (if setup.locked[at] || s.selected.contains(setup.keys[at]) {
                        "x"@
                    } else {
                        " "@
                    }) + "] "@ + labels[at] + "\r\n"@
                },
        ));
    }
}

/// A search for one song shows each match on a line of its own, in order, and
/// marks the highlighted one.
pub proof fn song_searches_mark_the_highlighted_song(
    labels: Seq<Seq<char>>,
    s: SearchState,
    from: int,
    to: int,
)
    requires
        0 <= from <= to <= s.matches.len(),
    ensures
        find_lines(labels, s, from, to) == Seq::new(
            (to - from) as nat,
            |i: int|
                (if from + i == s.row {
                    ">"@
                } else {
                    " "@
                }) + " "@ + labels[s.matches[from + i] as int] + "\r\n"@,
        ).flatten(),
    decreases to - from,
{
    let rows = Seq::new(
        (to - from) as nat,
        |i: int|
            (if from + i == s.row {
                ">"@
            } else {
                " "@
            }) + " "@ + labels[s.matches[from + i] as int] + "\r\n"@,
    );
    rows.lemma_flatten_and_flatten_alt_are_equivalent();
    if from < to {
        song_searches_mark_the_highlighted_song(labels, s, from, to - 1);
        let before = rows.drop_last();
        before.lemma_flatten_and_flatten_alt_are_equivalent();
        assert(before =~= Seq::new(
            (to - 1 - from) as nat,
            |i: int|
                (if from + i == s.row {
                    ">"@
                } else {
                    " "@
                }) + " "@ + labels[s.matches[from + i] as int] + "\r\n"@,
        ));
    }
}

/// A picker of the songs of a channel opens with all songs listed, none locked,
/// and those selected whose messages are.
pub proof fn pickers_open_on_all_songs(catalog: Seq<EntryData>, ids: Seq<i32>, row: usize)
    requires
        row < catalog.len() <= usize::MAX,
    ensures
        ({
            let setup = catalog_setup(catalog);
            let s = unsearched(catalog.len(), id_set(ids));
            &&& s.search.query.len() == 0 && s.search.row == 0
            &&& s.search.matches.len() == catalog.len() && s.search.matches[row as int] == row
            &&& !setup.locked[row as int]
            &&& setup.rows[row as int] == seq![
                crate::text::lowercased(
                    catalog[row as int].channel + " "@ + catalog[row as int].name,
                ),
            ]
            &&& picked_rows(setup.keys, s.selected, setup.keys.len()).contains(row)
                <==> ids.contains(catalog[row as int].message_id)
        }),
{
    let keys = entry_keys(catalog);
    let selected = ids.map_values(|id: i32| message_key(id));
    let id = catalog[row as int].message_id;
    picked_rows_are_the_selected_ones(keys, id_set(ids), row);
    assert(keys[row as int] == message_key(id));
    if ids.contains(id) {
        let i = choose|i: int| 0 <= i < ids.len() && ids[i] == id;
        assert(selected[i] == message_key(id));
        assert(selected.contains(message_key(id)));
    }
    if selected.contains(message_key(id)) {
        let i = choose|i: int| 0 <= i < selected.len() && selected[i] == message_key(id);
        assert(message_key(ids[i]) == message_key(id));
        assert(ids[i] == id);
    }
    assert(entry_rows(catalog)[row as int] == seq![
        crate::text::lowercased(catalog[row as int].channel + " "@ + catalog[row as int].name),
    ]);
}

/// A picker of local songs opens with those selected that are among the selected
/// paths, whichever way these are written.
pub proof fn pickers_select_the_same_paths(
    tracks: Seq<Seq<char>>,
    selected: Seq<Seq<char>>,
    row: usize,
)
    requires
        tracks.len() + selected.len() <= usize::MAX,
        row < tracks.len(),
    ensures
        picked_rows(
            track_keys(tracks, tracks, selected),
            track_keys(tracks, selected, selected).to_set(),
            tracks.len(),
        ).contains(row) <==> exists|i: int|
            0 <= i < selected.len() && crate::paths::same_path(
                #[trigger] selected[i],
                tracks[row as int],
            ),
{
    let keys = track_keys(tracks, tracks, selected);
    let chosen = track_keys(tracks, selected, selected);
    let track = tracks[row as int];
    picked_rows_are_the_selected_ones(keys, chosen.to_set(), row);
    assert(crate::paths::same_path(tracks[row as int], track));
    assert(crate::local::holds_path(tracks, track));
    crate::local::lemma_first_path(tracks, track);
    let at = first_path(tracks, track) as int;
    assert(keys[row as int] == at as u64);
    if exists|i: int|
        0 <= i < selected.len() && crate::paths::same_path(#[trigger] selected[i], track) {
        let i = choose|i: int|
            0 <= i < selected.len() && crate::paths::same_path(#[trigger] selected[i], track);
        lemma_first_same_path(tracks, selected[i], track);
        assert(chosen[i] == at as u64);
        assert(chosen.contains(at as u64));
    }
    if chosen.contains(at as u64) {
        let i = choose|i: int| 0 <= i < chosen.len() && chosen[i] == at as u64;
        crate::local::lemma_first_path(tracks, selected[i]);
        crate::local::lemma_first_path(selected, selected[i]);
        assert(crate::paths::same_path(tracks[at], selected[i]));
        assert(crate::paths::same_path(selected[i], track));
    }
}

proof fn lemma_first_same_path(tracks: Seq<Seq<char>>, a: Seq<char>, b: Seq<char>)
    requires
        crate::paths::same_path(a, b),
    ensures
        first_path(tracks, a) == first_path(tracks, b),
    decreases tracks.len(),
{
    if tracks.len() > 0 {
        lemma_first_same_path(tracks.skip(1), a, b);
    }
}

/// The page keys move by a page in a list that has them, and not past its ends;
/// in the others, and in an empty list, they do nothing.
pub proof fn page_keys_move_by_a_page(setup: PickSetup, s: PickState, control: bool)
    requires
        search_wf(s.search, setup.keys.len()),
        0 < setup.page,
    ensures
        ({
            let last = s.search.matches.len() - 1;
            let up = pick_step(setup, s, KeyPress { key: Key::PageUp, control });
            let down = pick_step(setup, s, KeyPress { key: Key::PageDown, control });
            &&& up.1 == ListStep::Stay && down.1 == ListStep::Stay
            &&& up.0.selected == s.selected && down.0.selected == s.selected
            &&& up.0.search.matches == s.search.matches && down.0.search.matches
                == s.search.matches
            &&& !setup.scroll || last < 0 ==> up.0 == s && down.0 == s
            &&& setup.scroll && last >= 0 ==> up.0.search.row == if s.search.row >= setup.page {
                s.search.row - setup.page
            } else {
                0
            }
            &&& setup.scroll && last >= 0 ==> down.0.search.row == if s.search.row + setup.page
                <= last {
                s.search.row + setup.page
            } else {
                last
            }
        }),
{
}

/// In a picker of songs the page keys do nothing, and Enter accepts what is
/// selected, be it nothing.
pub proof fn song_pickers_accept_nothing_too(catalog: Seq<EntryData>, s: PickState)
    ensures
        pick_step(catalog_setup(catalog), s, KeyPress { key: Key::Enter, control: false }) == (
            s,
            ListStep::Accept,
        ),
        pick_step(catalog_setup(catalog), s, KeyPress { key: Key::PageUp, control: false }) == (
            s,
            ListStep::Stay,
        ),
        pick_step(catalog_setup(catalog), s, KeyPress { key: Key::PageDown, control: false }) == (
            s,
            ListStep::Stay,
        ),
{
}

} // verus!
