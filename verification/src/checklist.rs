//! Lists of saved channels of which any number is chosen.
use crate::keys::{Key, KeyPress};
use crate::menu::{move_down, move_up, row_above, row_below};
use crate::number::{decimal, format_usize};
use crate::queue::{window_offset, window_start};
use crate::selection::{
    selected_or_highlighted_channel_indexes, toggle_all, toggle_index, toggled, toggled_all,
};
use crate::text::texts;
use std::collections::HashSet;
use vstd::prelude::*;

verus! {

broadcast use vstd::std_specs::hash::group_hash_axioms;

/// How many rows are shown at once.
pub const CHECKLIST_PAGE: usize = 20;

/// A list with a mark on each row. `unit` says what the rows are counted as.
pub struct Checklist {
    pub title: String,
    pub unit: String,
    pub hint: String,
    pub labels: Vec<String>,
    pub row: usize,
    pub selected: HashSet<usize>,
}

/// What a key does to a list.
#[derive(Clone, Copy, Debug, PartialEq, Eq, Structural)]
pub enum ListStep {
    Stay,
    Accept,
    Cancel,
}

/// The highlighted row and the marked rows.
pub struct CheckState {
    pub row: int,
    pub selected: Set<usize>,
}

/// All positions of a list.
pub open spec fn all_rows(count: nat) -> Seq<usize> {
    Seq::new(count, |i: int| i as usize)
}

/// One page up, at most to the first row.
pub open spec fn page_above(row: int, page: int) -> int {
    if row < page {
        0
    } else {
        row - page
    }
}

/// One page down, at most to the last row.
pub open spec fn page_below(row: int, page: int, count: int) -> int {
    if row + page < count - 1 {
        row + page
    } else {
        count - 1
    }
}

pub open spec fn check_step(s: CheckState, count: nat, press: KeyPress) -> (CheckState, ListStep) {
    match press.key {
        Key::Up => (CheckState { row: row_above(s.row, count as int), ..s }, ListStep::Stay),
        Key::Down => (CheckState { row: row_below(s.row, count as int), ..s }, ListStep::Stay),
        Key::PageUp => (
            CheckState { row: page_above(s.row, CHECKLIST_PAGE as int), ..s },
            ListStep::Stay,
        ),
        Key::PageDown => (
            CheckState { row: page_below(s.row, CHECKLIST_PAGE as int, count as int), ..s },
            ListStep::Stay,
        ),
        Key::Char(c) => if c == ' ' {
            (CheckState { selected: toggled(s.selected, s.row as usize), ..s }, ListStep::Stay)
        } else if c == 'a' && press.control {
            (CheckState { selected: toggled_all(s.selected, all_rows(count)), ..s }, ListStep::Stay)
        } else {
            (s, ListStep::Stay)
        },
        Key::Enter => (s, ListStep::Accept),
        Key::Esc => (s, ListStep::Cancel),
        _ => (s, ListStep::Stay),
    }
}

pub fn move_page_up(row: usize, page: usize) -> (r: usize)
    ensures
        r == page_above(row as int, page as int),
{
    if row < page {
        0
    } else {
        row - page
    }
}

pub fn move_page_down(row: usize, page: usize, count: usize) -> (r: usize)
    requires
        row < count,
    ensures
        r == page_below(row as int, page as int, count as int),
        r < count,
{
    let last: usize = count - 1;
    if page < last - row {
        row + page
    } else {
        last
    }
}

/// The rows of a list from one position to another.
pub open spec fn check_rows(labels: Seq<Seq<char>>, s: CheckState, from: int, to: int) -> Seq<char>
    decreases to - from,
{
    if to <= from {
        seq![]
    } else {
        check_rows(labels, s, from, to - 1) + ((if to - 1 == s.row {
            ">"@
        } else {
            " "@
        }) + " ["@ + (if s.selected.contains((to - 1) as usize) {
            "x"@
        } else {
            " "@
        }) + "] "@ + labels[to - 1] + "\r\n"@)
    }
}

/// The end of a page that starts at a row.
pub open spec fn page_end(start: int, page: int, count: int) -> int {
    if start + page < count {
        start + page
    } else {
        count
    }
}

pub fn page_end_index(start: usize, page: usize, count: usize) -> (r: usize)
    requires
        start <= count,
    ensures
        r == page_end(start as int, page as int, count as int),
{
    if page < count - start {
        start + page
    } else {
        count
    }
}

impl Checklist {
    pub open spec fn wf(&self) -> bool {
        &&& self.row < self.labels@.len()
        &&& forall|i: usize| #[trigger] self.selected@.contains(i) ==> i < self.labels@.len()
        &&& self.selected@.finite()
    }

    pub open spec fn state(&self) -> CheckState {
        CheckState { row: self.row as int, selected: self.selected@ }
    }

    /// What the list looks like.
    pub open spec fn look(&self) -> Seq<char> {
        let count = self.labels@.len() as int;
        let start = window_start(self.row as int, count, CHECKLIST_PAGE as int);
        let end = page_end(start, CHECKLIST_PAGE as int, count);
        self.title@ + "\r\n"@ + decimal(self.selected@.len()) + " selected | "@ + decimal(
            count as nat,
        ) + " "@ + self.unit@ + "\r\n\r\n"@ + check_rows(
            texts(self.labels@),
            self.state(),
            start,
            end,
        ) + self.hint@
    }

    /// A list without marks; there is none without rows.
    pub fn new(title: &str, unit: &str, hint: &str, labels: Vec<String>) -> (r: Option<Checklist>)
        ensures
            match r {
                Some(list) => labels@.len() > 0 && list.wf() && list.title@ == title@ && list.unit@
                    == unit@ && list.hint@ == hint@ && list.labels == labels && list.row == 0
                    && list.selected@ == Set::<usize>::empty(),
                None => labels@.len() == 0,
            },
    {
        if labels.len() == 0 {
            return None;
        }
        Some(
            Checklist {
                title: title.to_string(),
                unit: unit.to_string(),
                hint: hint.to_string(),
                labels,
                row: 0,
                selected: HashSet::new(),
            },
        )
    }

    /// Takes a key.
    pub fn key(&mut self, press: KeyPress) -> (r: ListStep)
        requires
            old(self).wf(),
        ensures
            final(self).wf(),
            final(self).title == old(self).title,
            final(self).unit == old(self).unit,
            final(self).hint == old(self).hint,
            final(self).labels == old(self).labels,
            (final(self).state(), r) == check_step(
                old(self).state(),
                old(self).labels@.len(),
                press,
            ),
    {
        let count: usize = self.labels.len();
        match press.key {
            Key::Up => {
                self.row = move_up(self.row, count);
                ListStep::Stay
            },
            Key::Down => {
                self.row = move_down(self.row, count);
                ListStep::Stay
            },
            Key::PageUp => {
                self.row = move_page_up(self.row, CHECKLIST_PAGE);
                ListStep::Stay
            },
            Key::PageDown => {
                self.row = move_page_down(self.row, CHECKLIST_PAGE, count);
                ListStep::Stay
            },
            Key::Char(c) => {
                if c == ' ' {
                    toggle_index(&mut self.selected, self.row);
                } else if c == 'a' && press.control {
                    let mut all: Vec<usize> = Vec::new();
                    let mut i: usize = 0;
                    while i < count
                        invariant
                            i <= count,
                            all@ =~= all_rows(i as nat),
                        decreases count - i,
                    {
                        all.push(i);
                        i += 1;
                    }
                    proof {
                        assert forall|x: usize| #[trigger] all@.to_set().contains(x) implies x
                            < count by {
                            let k = choose|k: int| 0 <= k < all@.len() && all@[k] == x;
                            assert(all@[k] == k);
                        }
                    }
                    toggle_all(&mut self.selected, all);
                }
                ListStep::Stay
            },
            Key::Enter => ListStep::Accept,
            Key::Esc => ListStep::Cancel,
            _ => ListStep::Stay,
        }
    }

    /// What the list looks like.
    pub fn frame(&self) -> (r: String)
        requires
            self.wf(),
        ensures
            r@ == self.look(),
    {
        let count: usize = self.labels.len();
        let mut out = self.title.as_str().to_string();
        out.append("\r\n");
        out.append(format_usize(self.selected.len()).as_str());
        out.append(" selected | ");
        out.append(format_usize(count).as_str());
        out.append(" ");
        out.append(self.unit.as_str());
        out.append("\r\n\r\n");
        let start: usize = window_offset(self.row, count, CHECKLIST_PAGE);
        let end: usize = page_end_index(start, CHECKLIST_PAGE, count);
        let mut body = String::new();
        let mut i: usize = start;
        assert(body@ =~= check_rows(texts(self.labels@), self.state(), start as int, start as int));
        while i < end
            invariant
                start <= i <= end <= self.labels@.len(),
                body@ == check_rows(
                    texts(self.labels@),
                    self.state(),
                    start as int,
                    i as int,
                ),
            decreases end - i,
        {
            let mut row = (if i == self.row {
                ">"
            } else {
                " "
            }).to_string();
            row.append(" [");
            row.append(
                if self.selected.contains(&i) {
                    "x"
                } else {
                    " "
                },
            );
            row.append("] ");
            row.append(self.labels[i].as_str());
            row.append("\r\n");
            body.append(row.as_str());
            assert(texts(self.labels@)[i as int] == self.labels@[i as int]@);
            i += 1;
        }
        out.append(body.as_str());
        out.append(self.hint.as_str());
        out
    }

    /// The rows that are chosen: the marked ones, or the highlighted one where
    /// none is marked.
    pub fn chosen(&self) -> (r: Vec<usize>)
        requires
            self.wf(),
        ensures
            crate::selection::ascending(r@),
            r@.to_set() == chosen_set(self.state()),
            forall|i: int| 0 <= i < r@.len() ==> (#[trigger] r@[i]) < self.labels@.len(),
            r@.len() > 0,
    {
        let r = selected_or_highlighted_channel_indexes(&self.selected, self.row);
        proof {
            let want = chosen_set(self.state());
            assert(r@.to_set() == want);
            assert forall|i: int| 0 <= i < r@.len() implies (#[trigger] r@[i])
                < self.labels@.len() by {
                assert(r@.to_set().contains(r@[i]));
            }
            if self.selected@.is_empty() {
                assert(want.contains(self.row));
                assert(r@.to_set().contains(self.row));
                assert(r@.contains(self.row));
            } else {
                let x = self.selected@.choose();
                assert(self.selected@.contains(x)) by {
                    if forall|y: usize| !self.selected@.contains(y) {
                        assert(self.selected@ =~= Set::<usize>::empty());
                    }
                }
                assert(r@.to_set().contains(x));
                assert(r@.contains(x));
            }
        }
        r
    }
}

/// The rows that are chosen.
pub open spec fn chosen_set(s: CheckState) -> Set<usize> {
    if s.selected.is_empty() {
        set![s.row as usize]
    } else {
        s.selected
    }
}

/// The hint below the list of channels that can be streamed.
pub const STREAM_HINT: &'static str =
    "\r\n[Space] toggle | [Ctrl+A] toggle all | Up/Down/Page Up/Page Down scroll | [Enter] play | [Esc] back";

/// The hint below the list of channels that can be forgotten.
pub const FORGET_HINT: &'static str =
    "\r\n[Space] toggle | [Ctrl+A] toggle all | Up/Down/Page Up/Page Down scroll | [Enter] forget | [Esc] cancel";

/// The list from which channels are chosen to be streamed.
pub fn choose_telegram_catalog(title: &str, labels: Vec<String>) -> (r: Option<Checklist>)
    ensures
        match r {
            Some(list) => labels@.len() > 0 && list.wf() && list.title@ == title@ && list.unit@
                == "synchronized"@ && list.hint@ == STREAM_HINT@ && list.labels == labels
                && list.state() == (CheckState { row: 0, selected: Set::empty() }),
            None => labels@.len() == 0,
        },
{
    Checklist::new(title, "synchronized", STREAM_HINT, labels)
}

/// The list from which channels are chosen to be forgotten.
pub fn forget_channel(labels: Vec<String>) -> (r: Option<Checklist>)
    ensures
        match r {
            Some(list) => labels@.len() > 0 && list.wf() && list.title@
                == "Forget Telegram channels"@ && list.unit@ == "saved"@ && list.hint@
                == FORGET_HINT@ && list.labels == labels && list.state() == (CheckState {
                row: 0,
                selected: Set::empty(),
            }),
            None => labels@.len() == 0,
        },
{
    Checklist::new("Forget Telegram channels", "saved", FORGET_HINT, labels)
}

/// The first `n` channels without those that are chosen.
pub open spec fn unforgotten(channels: Seq<Seq<char>>, chosen: Set<usize>, n: nat) -> Seq<Seq<char>>
    decreases n,
{
    if n == 0 {
        seq![]
    } else {
        let before = unforgotten(channels, chosen, (n - 1) as nat);
        if chosen.contains((n - 1) as usize) {
            before
        } else {
            before.push(channels[n - 1])
        }
    }
}

/// The channels that stay when the chosen ones are forgotten.
pub fn remaining_channels(list: &Checklist, channels: &Vec<String>) -> (r: Vec<String>)
    requires
        list.wf(),
    ensures
        texts(r@) == unforgotten(texts(channels@), chosen_set(list.state()), channels@.len()),
{
    let none = list.selected.is_empty();
    let mut kept: Vec<String> = Vec::new();
    let mut i: usize = 0;
    assert(texts(kept@) =~= seq![]);
    assert(chosen_set(list.state()) =~= if none {
        set![list.row]
    } else {
        list.selected@
    });
    while i < channels.len()
        invariant
            i <= channels@.len(),
            chosen_set(list.state()) == if none {
                set![list.row]
            } else {
                list.selected@
            },
            texts(kept@) == unforgotten(
                texts(channels@),
                chosen_set(list.state()),
                i as nat,
            ),
        decreases channels@.len() - i,
    {
        assert(texts(channels@)[i as int] == channels@[i as int]@);
        let chosen = if none {
            i == list.row
        } else {
            list.selected.contains(&i)
        };
        if !chosen {
            let ghost before = kept@;
            let channel = channels[i].as_str().to_string();
            kept.push(channel);
            assert(texts(kept@) =~= texts(before).push(channel@));
        }
        i += 1;
    }
    kept
}

/// Forgetting keeps exactly the channels that were not chosen, in their order.
pub proof fn forgetting_keeps_the_others(channels: Seq<Seq<char>>, chosen: Set<usize>, n: nat)
    requires
        n <= channels.len() <= usize::MAX,
    ensures
        forall|k: int|
            0 <= k < n && !chosen.contains(k as usize) ==> #[trigger] unforgotten(
                channels,
                chosen,
                n,
            ).contains(channels[k]),
        forall|j: int|
            0 <= j < unforgotten(channels, chosen, n).len() ==> exists|k: int|
                0 <= k < n && !chosen.contains(k as usize) && #[trigger] channels[k]
                    == #[trigger] unforgotten(channels, chosen, n)[j],
    decreases n,
{
    if n > 0 {
        forgetting_keeps_the_others(channels, chosen, (n - 1) as nat);
        let before = unforgotten(channels, chosen, (n - 1) as nat);
        let after = unforgotten(channels, chosen, n);
        assert forall|k: int| 0 <= k < n && !chosen.contains(
            k as usize,
        ) implies #[trigger] after.contains(channels[k]) by {
            if k < n - 1 {
                assert(before.contains(channels[k]));
                let j = choose|j: int| 0 <= j < before.len() && before[j] == channels[k];
                assert(after[j] == channels[k]);
            } else {
                assert(after[before.len() as int] == channels[k]);
            }
        }
        assert forall|j: int| 0 <= j < after.len() implies exists|k: int|
            0 <= k < n && !chosen.contains(k as usize) && #[trigger] channels[k]
                == #[trigger] after[j] by {
            if j < before.len() {
                assert(after[j] == before[j]);
                let k = choose|k: int|
                    0 <= k < n - 1 && !chosen.contains(k as usize) && #[trigger] channels[k]
                        == before[j];
                assert(channels[k] == after[j]);
            } else {
                assert(channels[n - 1] == after[j]);
            }
        }
    }
}

/// The title over the songs of the chosen channels.
pub open spec fn stream_title(labels: Seq<Seq<char>>, tracks: nat) -> Seq<char> {
    if labels.len() == 1 {
        "Telegram channel: "@ + labels[0] + "\n"@ + decimal(tracks) + " tracks"@
    } else {
        decimal(labels.len()) + " selected Telegram channels\n"@ + decimal(tracks) + " tracks"@
    }
}

pub fn streamed_title(labels: &Vec<String>, tracks: usize) -> (r: String)
    ensures
        r@ == stream_title(texts(labels@), tracks as nat),
{
    if labels.len() == 1 {
        let mut out = "Telegram channel: ".to_string();
        out.append(labels[0].as_str());
        out.append("\n");
        out.append(format_usize(tracks).as_str());
        out.append(" tracks");
        assert(texts(labels@)[0] == labels@[0]@);
        out
    } else {
        let mut out = format_usize(labels.len());
        out.append(" selected Telegram channels\n");
        out.append(format_usize(tracks).as_str());
        out.append(" tracks");
        out
    }
}

/// The rows of a list that were not chosen stay, in their order.
pub proof fn forgetting_keeps_the_order(channels: Seq<Seq<char>>, chosen: Set<usize>, n: nat)
    requires
        n <= channels.len() <= usize::MAX,
    ensures
        unforgotten(channels, chosen, n) == Seq::new(n, |i: int| i as usize).filter(
            |i: usize| !chosen.contains(i),
        ).map_values(|i: usize| channels[i as int]),
    decreases n,
{
    reveal(Seq::filter);
    let all = Seq::new(n, |i: int| i as usize);
    if n > 0 {
        forgetting_keeps_the_order(channels, chosen, (n - 1) as nat);
        assert(all.drop_last() =~= Seq::new((n - 1) as nat, |i: int| i as usize));
    }
    assert(unforgotten(channels, chosen, n) =~= all.filter(
        |i: usize| !chosen.contains(i),
    ).map_values(|i: usize| channels[i as int]));
}

/// With nothing selected the highlighted row is chosen, and else what is
/// selected.
pub proof fn nothing_selected_means_the_highlighted_row(s: CheckState, row: usize)
    requires
        0 <= s.row <= usize::MAX,
    ensures
        (forall|i: usize| !s.selected.contains(i)) ==> (chosen_set(s).contains(row) <==> row
            == s.row),
        (exists|i: usize| s.selected.contains(i)) ==> (chosen_set(s).contains(row)
            <==> s.selected.contains(row)),
{
    if forall|i: usize| !s.selected.contains(i) {
        assert(s.selected =~= Set::<usize>::empty());
    } else {
        let i = choose|i: usize| s.selected.contains(i);
        assert(!s.selected.is_empty());
    }
}

/// Space toggles the highlighted row alone, Ctrl+A all rows; the arrows and the
/// page keys only move; Enter accepts and Esc cancels.
pub proof fn checklist_keys_do_what_they_say(s: CheckState, count: nat, row: usize)
    requires
        0 <= s.row < count <= usize::MAX,
        row < count,
    ensures
        ({
            let space = check_step(s, count, KeyPress { key: Key::Char(' '), control: false });
            let all = check_step(s, count, KeyPress { key: Key::Char('a'), control: true });
            &&& space.0.selected.contains(row) == if row == s.row {
                !s.selected.contains(row)
            } else {
                s.selected.contains(row)
            }
            &&& space.0.row == s.row && all.0.row == s.row
            &&& (forall|i: usize| i < count ==> s.selected.contains(i)) ==> !all.0.selected.contains(
                row,
            )
            &&& (exists|i: usize| i < count && !s.selected.contains(i)) ==> all.0.selected.contains(
                row,
            )
        }),
        ({
            let up = check_step(s, count, KeyPress { key: Key::Up, control: false });
            let down = check_step(s, count, KeyPress { key: Key::Down, control: false });
            let page_up = check_step(s, count, KeyPress { key: Key::PageUp, control: false });
            let page_down = check_step(s, count, KeyPress { key: Key::PageDown, control: false });
            &&& up.0.row == if s.row == 0 {
                count - 1
            } else {
                s.row - 1
            }
            &&& down.0.row == if s.row == count - 1 {
                0
            } else {
                s.row + 1
            }
            &&& page_up.0.row == if s.row >= 20 {
                s.row - 20
            } else {
                0
            }
            &&& page_down.0.row == if s.row + 20 <= count - 1 {
                s.row + 20
            } else {
                count - 1
            }
            &&& up.0.selected == s.selected && down.0.selected == s.selected
            &&& page_up.0.selected == s.selected && page_down.0.selected == s.selected
        }),
        check_step(s, count, KeyPress { key: Key::Enter, control: false }) == (s, ListStep::Accept),
        check_step(s, count, KeyPress { key: Key::Esc, control: false }) == (s, ListStep::Cancel),
{
    let rows = all_rows(count);
    assert(rows[row as int] == row);
    if exists|i: usize| i < count && !s.selected.contains(i) {
        let i = choose|i: usize| i < count && !s.selected.contains(i);
        assert(rows[i as int] == i);
        assert(!crate::selection::all_selected(s.selected, rows));
    } else {
        assert(crate::selection::all_selected(s.selected, rows));
    }
    assert(rows.to_set().contains(row));
}

/// A checklist shows each of its items on a line of its own, in order; it marks
/// the highlighted one, and checks those that are selected.
pub proof fn checklists_check_what_is_selected(
    labels: Seq<Seq<char>>,
    s: CheckState,
    from: int,
    to: int,
)
    requires
        0 <= from <= to <= labels.len() <= usize::MAX,
    ensures
        check_rows(labels, s, from, to) == Seq::new(
            (to - from) as nat,
            |i: int|
                (if from + i == s.row {
                    ">"@
                } else {
                    " "@
                }) + " ["@ + (if s.selected.contains((from + i) as usize) {
                    "x"@
                } else {
                    " "@
                }) + "] "@ + labels[from + i] + "\r\n"@,
        ).flatten(),
    decreases to - from,
{
    let rows = Seq::new(
        (to - from) as nat,
        |i: int|
            (if from + i == s.row {
                ">"@
            } else {
                " "@
            }) + " ["@ + (if s.selected.contains((from + i) as usize) {
                "x"@
            } else {
                " "@
            }) + "] "@ + labels[from + i] + "\r\n"@,
    );
    rows.lemma_flatten_and_flatten_alt_are_equivalent();
    if from < to {
        checklists_check_what_is_selected(labels, s, from, to - 1);
        let before = Seq::new(
            (to - 1 - from) as nat,
            |i: int|
                (if from + i == s.row {
                    ">"@
                } else {
                    " "@
                }) + " ["@ + (if s.selected.contains((from + i) as usize) {
                    "x"@
                } else {
                    " "@
                }) + "] "@ + labels[from + i] + "\r\n"@,
        );
        before.lemma_flatten_and_flatten_alt_are_equivalent();
        assert(rows.drop_last() =~= before);
    }
}

/// One chosen channel is named over its songs, and more are counted.
pub proof fn titles_name_one_channel(label: Seq<char>, labels: Seq<Seq<char>>, tracks: nat)
    requires
        labels.len() > 1,
    ensures
        stream_title(seq![label], tracks) == "Telegram channel: "@ + label + "\n"@ + decimal(tracks)
            + " tracks"@,
        stream_title(labels, tracks) == decimal(labels.len()) + " selected Telegram channels\n"@
            + decimal(tracks) + " tracks"@,
{
}

} // verus!
