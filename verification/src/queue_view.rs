//! The queue on the screen, and the keys that change it.
use crate::keys::{Key, KeyPress};
use crate::language::{tr, Translation};
use crate::number::{decimal, format_usize};
use crate::queue::{
    insert_queue_next, queue_window_start, segment_window, tail_index, tail_start,
    unqueue_next_item, with_next, without_next,
};
use crate::screen::{bold, bold_text, fit_text, fitted_text, format_rule, rule};
use crate::text::{repeat_char, repeated, texts};
use vstd::prelude::*;
use vstd::std_specs::cmp::PartialEqSpec;

verus! {

/// The columns of one cell of the table.
pub const QUEUE_WIDTH: usize = 34;

/// The rows of the table.
pub const QUEUE_PAGE: usize = 12;

/// Which tracks are shown: the first and the end of those that are queued, and
/// of the rest of the track list.
pub struct QueueWindow {
    pub queued_from: int,
    pub queued_to: int,
    pub rest_from: int,
    pub rest_to: int,
}

pub open spec fn smaller(a: int, b: int) -> int {
    if a < b {
        a
    } else {
        b
    }
}

/// The window onto the tracks behind `progress`, up to which tracks were played.
pub open spec fn queue_window(len: int, progress: int, play_next: int, selected: int) -> QueueWindow {
    let start = smaller(progress + 1, len);
    let end = tail_start(progress, play_next, len);
    let queued_from = start + segment_window(selected, start, end, QUEUE_PAGE as int);
    let rest_from = end + segment_window(selected, end, len, QUEUE_PAGE as int);
    QueueWindow {
        queued_from,
        queued_to: smaller(end, queued_from + QUEUE_PAGE),
        rest_from,
        rest_to: smaller(len, rest_from + QUEUE_PAGE),
    }
}

/// How many rows the table has.
pub open spec fn table_rows(w: QueueWindow) -> int {
    let queued = w.queued_to - w.queued_from;
    let rest = w.rest_to - w.rest_from;
    if queued < 1 && rest < 1 {
        1
    } else if queued < rest {
        rest
    } else {
        queued
    }
}

/// One cell of the table: a track, or nothing.
pub open spec fn table_cell(labels: Seq<Seq<char>>, selected: bool, at: int, shown: bool) -> Seq<
    char,
> {
    if shown {
        fitted_text(
            (if selected {
                ">"@
            } else {
                " "@
            }) + " "@ + labels[at],
            QUEUE_WIDTH as nat,
        )
    } else {
        repeated(' ', QUEUE_WIDTH as nat)
    }
}

/// The first `n` rows of the table. Selected is a track to come, or else the
/// current one.
pub open spec fn table_body(
    labels: Seq<Seq<char>>,
    current: int,
    selected: Option<usize>,
    w: QueueWindow,
    n: nat,
) -> Seq<char>
    decreases n,
{
    if n == 0 {
        seq![]
    } else {
        let row = n - 1;
        table_body(labels, current, selected, w, (n - 1) as nat) + ("│"@ + table_cell(
            labels,
            selected is None,
            current,
            row == 0,
        ) + "│"@ + table_cell(
            labels,
            selected is Some && selected->0 == w.queued_from + row,
            w.queued_from + row,
            w.queued_from + row < w.queued_to,
        ) + "│"@ + table_cell(
            labels,
            selected is Some && selected->0 == w.rest_from + row,
            w.rest_from + row,
            w.rest_from + row < w.rest_to,
        ) + "│\r\n"@)
    }
}

pub open spec fn table_line(left: Seq<char>, middle: Seq<char>, right: Seq<char>) -> Seq<char> {
    rule(left, QUEUE_WIDTH as nat, middle) + rule(seq![], QUEUE_WIDTH as nat, middle) + rule(
        seq![],
        QUEUE_WIDTH as nat,
        right,
    )
}

pub open spec fn title_cell(text: Seq<char>) -> Seq<char> {
    bold(fitted_text(text, QUEUE_WIDTH as nat))
}

/// The track around which the window opens.
pub open spec fn window_track(progress: int, selected: Option<usize>) -> int {
    match selected {
        Some(at) => at as int,
        None => progress,
    }
}

/// The table of the queue: the current track, and the tracks behind `progress`.
pub open spec fn queue_look(
    t: Translation,
    labels: Seq<Seq<char>>,
    current: int,
    progress: int,
    play_next: int,
    selected: Option<usize>,
) -> Seq<char> {
    let w = queue_window(
        labels.len() as int,
        progress,
        play_next,
        window_track(progress, selected),
    );
    t.text("msg.playback_queue"@) + " | "@ + decimal(labels.len()) + " "@ + t.text("msg.songs"@)
        + "\r\n\r\n"@ + table_line("┌"@, "┬"@, "┐\r\n"@) + ("│"@ + title_cell(
        t.text("msg.now_playing"@),
    ) + "│"@ + title_cell(t.text("msg.next_in_queue"@)) + "│"@ + title_cell(
        t.text("msg.next_from_track_list"@),
    ) + "│\r\n"@) + table_line("├"@, "┼"@, "┤\r\n"@) + table_body(
        labels,
        current,
        selected,
        w,
        table_rows(w) as nat,
    ) + table_line("└"@, "┴"@, "┘\r\n\r\n"@) + t.text(
        "msg.up_down_select_enter_play_delete_unqueue_a"@,
    )
}

fn format_table_line(left: &str, middle: &str, right: &str) -> (r: String)
    ensures
        r@ == table_line(left@, middle@, right@),
{
    proof {
        reveal_strlit("");
        assert(""@ =~= seq![]);
    }
    let mut out = format_rule(left, QUEUE_WIDTH, middle);
    out.append(format_rule("", QUEUE_WIDTH, middle).as_str());
    out.append(format_rule("", QUEUE_WIDTH, right).as_str());
    out
}

fn format_title_cell(text: &str) -> (r: String)
    ensures
        r@ == title_cell(text@),
{
    bold_text(fit_text(text, QUEUE_WIDTH).as_str())
}

fn is_at(selected: Option<usize>, at: usize) -> (r: bool)
    ensures
        r == (selected == Some(at)),
{
    match selected {
        Some(i) => i == at,
        None => false,
    }
}

fn format_cell(labels: &Vec<String>, selected: bool, at: usize, shown: bool) -> (r: String)
    requires
        shown ==> at < labels@.len(),
    ensures
        r@ == table_cell(texts(labels@), selected, at as int, shown),
{
    if shown {
        let mut text = (if selected {
            ">"
        } else {
            " "
        }).to_string();
        text.append(" ");
        text.append(labels[at].as_str());
        assert(texts(labels@)[at as int] == labels@[at as int]@);
        fit_text(text.as_str(), QUEUE_WIDTH)
    } else {
        repeat_char(' ', QUEUE_WIDTH)
    }
}

/// Draws the queue: the current track, the queued tracks, and the rest of the
/// track list.
pub fn queue_table(
    translation: &Translation,
    labels: &Vec<String>,
    current: usize,
    play_next: usize,
    selected: usize,
) -> (r: String)
    requires
        current < labels@.len(),
    ensures
        r@ == queue_look(
            *translation,
            texts(labels@),
            current as int,
            current as int,
            play_next as int,
            if selected == current {
                None
            } else {
                Some(selected)
            },
        ),
{
    let selected = if selected == current {
        None
    } else {
        Some(selected)
    };
    replay_table(translation, labels, current, current, play_next, selected)
}

/// Draws the queue while a track plays again: the current track, and the tracks
/// behind the one up to which the list was played.
pub fn replay_table(
    translation: &Translation,
    labels: &Vec<String>,
    current: usize,
    progress: usize,
    play_next: usize,
    selected: Option<usize>,
) -> (r: String)
    requires
        current < labels@.len(),
        progress < labels@.len(),
    ensures
        r@ == queue_look(
            *translation,
            texts(labels@),
            current as int,
            progress as int,
            play_next as int,
            selected,
        ),
{
    let len: usize = labels.len();
    let ghost all = texts(labels@);
    let around: usize = match selected {
        Some(at) => at,
        None => progress,
    };
    let ghost w = queue_window(len as int, progress as int, play_next as int, around as int);
    let start: usize = progress + 1;
    let end: usize = tail_index(progress, play_next, len);
    let queued_offset: usize = queue_window_start(around, start, end, QUEUE_PAGE);
    let rest_offset: usize = queue_window_start(around, end, len, QUEUE_PAGE);
    let queued_from: usize = start + queued_offset;
    let rest_from: usize = end + rest_offset;
    let queued_to: usize = if QUEUE_PAGE < end - queued_from {
        queued_from + QUEUE_PAGE
    } else {
        end
    };
    let rest_to: usize = if QUEUE_PAGE < len - rest_from {
        rest_from + QUEUE_PAGE
    } else {
        len
    };
    assert(w == (QueueWindow {
        queued_from: queued_from as int,
        queued_to: queued_to as int,
        rest_from: rest_from as int,
        rest_to: rest_to as int,
    }));
    let queued: usize = queued_to - queued_from;
    let rest: usize = rest_to - rest_from;
    let rows: usize = if queued < 1 && rest < 1 {
        1
    } else if queued < rest {
        rest
    } else {
        queued
    };
    let mut out = tr(translation, "msg.playback_queue");
    out.append(" | ");
    out.append(format_usize(len).as_str());
    out.append(" ");
    out.append(tr(translation, "msg.songs").as_str());
    out.append("\r\n\r\n");
    out.append(format_table_line("┌", "┬", "┐\r\n").as_str());
    let mut head = "│".to_string();
    head.append(format_title_cell(tr(translation, "msg.now_playing").as_str()).as_str());
    head.append("│");
    head.append(format_title_cell(tr(translation, "msg.next_in_queue").as_str()).as_str());
    head.append("│");
    head.append(format_title_cell(tr(translation, "msg.next_from_track_list").as_str()).as_str());
    head.append("│\r\n");
    out.append(head.as_str());
    out.append(format_table_line("├", "┼", "┤\r\n").as_str());
    let mut body = String::new();
    let mut row: usize = 0;
    assert(body@ =~= table_body(all, current as int, selected, w, 0));
    while row < rows
        invariant
            row <= rows,
            rows <= QUEUE_PAGE,
            current < len,
            len == labels@.len(),
            all == texts(labels@),
            queued_from <= queued_to <= len,
            rest_from <= rest_to <= len,
            w == (QueueWindow {
                queued_from: queued_from as int,
                queued_to: queued_to as int,
                rest_from: rest_from as int,
                rest_to: rest_to as int,
            }),
            body@ == table_body(all, current as int, selected, w, row as nat),
        decreases rows - row,
    {
        let mut line = "│".to_string();
        line.append(format_cell(labels, selected.is_none(), current, row == 0).as_str());
        line.append("│");
        let in_queue = row < queued_to - queued_from;
        let queued_at: usize = if in_queue {
            queued_from + row
        } else {
            0
        };
        line.append(format_cell(labels, is_at(selected, queued_at), queued_at, in_queue).as_str());
        line.append("│");
        let in_rest = row < rest_to - rest_from;
        let rest_at: usize = if in_rest {
            rest_from + row
        } else {
            0
        };
        line.append(format_cell(labels, is_at(selected, rest_at), rest_at, in_rest).as_str());
        line.append("│\r\n");
        body.append(line.as_str());
        row += 1;
    }
    out.append(body.as_str());
    out.append(format_table_line("└", "┴", "┘\r\n\r\n").as_str());
    out.append(tr(translation, "msg.up_down_select_enter_play_delete_unqueue_a").as_str());
    out
}

/// A selected track that is to come is always in the table.
pub proof fn selected_track_is_in_the_table(
    len: int,
    progress: int,
    play_next: int,
    selected: int,
)
    requires
        0 <= progress < selected < len,
        0 <= play_next,
    ensures
        ({
            let w = queue_window(len, progress, play_next, selected);
            w.queued_from <= selected < w.queued_to || w.rest_from <= selected < w.rest_to
        }),
{
    let start = smaller(progress + 1, len);
    let end = tail_start(progress, play_next, len);
    if start <= selected < end {
        crate::queue::selected_track_is_shown(selected, start, end, QUEUE_PAGE as int);
    } else {
        crate::queue::selected_track_is_shown(selected, end, len, QUEUE_PAGE as int);
    }
}

/// The table shows no track again that was played: both lists start behind
/// `progress`.
pub proof fn table_shows_only_tracks_to_come(
    len: int,
    progress: int,
    play_next: int,
    selected: int,
)
    requires
        0 <= progress < len,
        0 <= play_next,
    ensures
        ({
            let w = queue_window(len, progress, play_next, selected);
            progress < w.queued_from && progress < w.rest_from
        }),
{
}

// ---------------------------------------------------------------------------
// Editing the queue
// ---------------------------------------------------------------------------

/// What was decided while the queue was open: the track at `index` plays, from
/// its start where `restart` says so. `finished` says that the current track
/// came to its end.
#[derive(Clone, Copy, Debug, PartialEq, Eq, Structural)]
pub struct QueueEdit {
    pub index: usize,
    pub restart: bool,
    pub finished: bool,
}

/// What a key does to the open queue.
#[derive(Clone, Copy, Debug, PartialEq, Eq, Structural)]
pub enum QueueStep {
    Stay,
    Add,
    Close(QueueEdit),
}

/// The open queue: which row is selected. Row 0 is the current track; the rows
/// below it are the tracks to come, behind the one up to which the list was
/// played.
pub struct QueueEditor {
    pub row: usize,
}

/// The row above, from the current track to the last one to come.
pub open spec fn row_above(row: int, last: int) -> int {
    if row == 0 {
        last
    } else {
        row - 1
    }
}

/// The row below, from the last track to come to the current one.
pub open spec fn row_below(row: int, last: int) -> int {
    if row >= last {
        0
    } else {
        row + 1
    }
}

/// The track on a row.
pub open spec fn row_track(row: int, current: int, progress: int) -> int {
    if row == 0 {
        current
    } else {
        progress + row
    }
}

/// Whether the track on a row can be unqueued: it is queued, and does not play.
pub open spec fn can_unqueue(row: int, current: int, progress: int, play_next: int) -> bool {
    1 <= row <= play_next && progress + row != current
}

/// Where the current track stands after a track before or behind it is removed.
pub open spec fn place_without(current: int, removed: int) -> int {
    if current > removed {
        current - 1
    } else {
        current
    }
}

/// Where the current track stands after `added` tracks are put in at a place.
pub open spec fn place_with(current: int, at: int, added: int) -> int {
    if current >= at {
        current + added
    } else {
        current
    }
}

impl QueueEditor {
    pub open spec fn wf(&self, len: nat, progress: int) -> bool {
        0 <= progress && progress + self.row < len
    }

    /// Opens the queue on the current track.
    pub fn new() -> (r: QueueEditor)
        ensures
            r.row == 0,
    {
        QueueEditor { row: 0 }
    }

    /// The track to come that is selected; none where it is the current one.
    pub fn selected(&self, progress: usize) -> (r: Option<usize>)
        requires
            progress + self.row <= usize::MAX,
        ensures
            r == if self.row == 0 {
                None
            } else {
                Some((progress + self.row) as usize)
            },
    {
        if self.row == 0 {
            None
        } else {
            Some(progress + self.row)
        }
    }

    /// Takes a key. The list was played up to `progress`, and the track at
    /// `current` plays, which is another one while a track plays again.
    pub fn key<T: PartialEq>(
        &mut self,
        queue: &mut Vec<T>,
        current: &mut usize,
        progress: usize,
        play_next: &mut usize,
        press: KeyPress,
    ) -> (r: QueueStep)
        requires
            old(self).wf(old(queue)@.len(), progress as int),
            *old(current) < old(queue)@.len(),
        ensures
            final(self).wf(final(queue)@.len(), progress as int),
            *final(current) < final(queue)@.len(),
            ({
                let row = old(self).row as int;
                let last = old(queue)@.len() - 1 - progress;
                let selected = row_track(row, *old(current) as int, progress as int);
                let removed = press.key == Key::Delete && can_unqueue(
                    row,
                    *old(current) as int,
                    progress as int,
                    *old(play_next) as int,
                );
                &&& !removed ==> final(queue)@ == old(queue)@
                &&& removed ==> {
                    let rest = old(queue)@.remove(selected);
                    &&& final(queue)@ == rest || final(queue)@ == rest.push(old(queue)@[selected])
                    &&& T::obeys_eq_spec() ==> final(queue)@ == without_next(
                        old(queue)@,
                        progress as int,
                        *old(play_next) as int,
                        selected,
                    )
                }
                &&& *final(current) == if removed {
                    place_without(*old(current) as int, selected)
                } else {
                    *old(current) as int
                }
                &&& *final(play_next) == if removed {
                    *old(play_next) - 1
                } else if press.key == Key::Enter && selected != *old(current) {
                    0
                } else {
                    *old(play_next) as int
                }
                &&& final(self).row == match press.key {
                    Key::Up => row_above(row, last),
                    Key::Down => row_below(row, last),
                    Key::Delete => smaller(row, final(queue)@.len() - 1 - progress),
                    _ => row,
                }
                &&& match press.key {
                    Key::Enter => r matches QueueStep::Close(edit) && edit.index == selected
                        && !edit.finished && (T::obeys_eq_spec() ==> edit.restart == !old(
                        queue,
                    )@[selected].eq_spec(&old(queue)@[*old(current) as int])),
                    Key::Esc => r == QueueStep::Close(
                        QueueEdit { index: *old(current), restart: false, finished: false },
                    ),
                    Key::Char(c) => r == if c == 'a' {
                        QueueStep::Add
                    } else {
                        QueueStep::Stay
                    },
                    _ => r == QueueStep::Stay,
                }
            }),
    {
        let last: usize = queue.len() - 1 - progress;
        let selected: usize = if self.row == 0 {
            *current
        } else {
            progress + self.row
        };
        match press.key {
            Key::Up => {
                self.row = if self.row == 0 {
                    last
                } else {
                    self.row - 1
                };
                QueueStep::Stay
            },
            Key::Down => {
                self.row = if self.row >= last {
                    0
                } else {
                    self.row + 1
                };
                QueueStep::Stay
            },
            Key::Enter => {
                if selected != *current {
                    *play_next = 0;
                }
                let restart = !(queue[selected] == queue[*current]);
                QueueStep::Close(QueueEdit { index: selected, restart, finished: false })
            },
            Key::Delete => {
                if 1 <= self.row && self.row <= *play_next && selected != *current {
                    unqueue_next_item(queue, progress, play_next, selected);
                    if *current > selected {
                        *current = *current - 1;
                    }
                    if self.row > queue.len() - 1 - progress {
                        self.row = queue.len() - 1 - progress;
                    }
                }
                QueueStep::Stay
            },
            Key::Esc => QueueStep::Close(
                QueueEdit { index: *current, restart: false, finished: false },
            ),
            Key::Char(c) => if c == 'a' {
                QueueStep::Add
            } else {
                QueueStep::Stay
            },
            _ => QueueStep::Stay,
        }
    }

    /// Asks, while no key was pressed, whether the queue closes because the
    /// current track has come to its end.
    pub fn idle(&self, current: usize, finished: bool) -> (r: QueueStep)
        ensures
            r == if finished {
                QueueStep::Close(QueueEdit { index: current, restart: false, finished: true })
            } else {
                QueueStep::Stay
            },
    {
        if finished {
            QueueStep::Close(QueueEdit { index: current, restart: false, finished: true })
        } else {
            QueueStep::Stay
        }
    }
}

/// Puts added tracks behind those that are queued. The list was played up to
/// `progress`; the current track stays the current one.
pub fn add_next<T>(
    queue: &mut Vec<T>,
    current: &mut usize,
    progress: usize,
    play_next: &mut usize,
    additions: Vec<T>,
) -> (r: bool)
    requires
        progress < old(queue)@.len(),
        *old(current) < old(queue)@.len(),
        *old(play_next) + additions@.len() <= usize::MAX,
        old(queue)@.len() + additions@.len() <= usize::MAX,
    ensures
        r == (additions@.len() > 0),
        final(queue)@ == with_next(
            old(queue)@,
            progress as int,
            *old(play_next) as int,
            additions@,
        ),
        *final(current) == place_with(
            *old(current) as int,
            tail_start(progress as int, *old(play_next) as int, old(queue)@.len() as int),
            additions@.len() as int,
        ),
        *final(current) < final(queue)@.len(),
        final(queue)@[*final(current) as int] == old(queue)@[*old(current) as int],
        *final(play_next) == *old(play_next) + additions@.len(),
{
    let count: usize = additions.len();
    let at: usize = tail_index(progress, *play_next, queue.len());
    insert_queue_next(queue, progress, play_next, additions);
    if *current >= at {
        *current = *current + count;
    }
    count > 0
}

/// The position of the first item that equals item `i`.
pub open spec fn first_same<T: PartialEq>(items: Seq<T>, i: int) -> nat {
    crate::queue::first_equal(items, items[i])
}

/// The keys under which songs are selected for the queue: equal songs have the
/// same key, that of the first of them.
pub fn song_keys<T: PartialEq>(items: &Vec<T>) -> (r: Vec<u64>)
    ensures
        r@.len() == items@.len(),
        T::obeys_eq_spec() ==> forall|i: int|
            0 <= i < items@.len() ==> #[trigger] r@[i] == first_same(items@, i),
{
    let mut keys: Vec<u64> = Vec::new();
    let mut i: usize = 0;
    while i < items.len()
        invariant
            i <= items@.len(),
            keys@.len() == i,
            T::obeys_eq_spec() ==> forall|k: int|
                0 <= k < i ==> #[trigger] keys@[k] == first_same(items@, k),
        decreases items@.len() - i,
    {
        let mut at: usize = 0;
        while at < items.len() && !(items[at] == items[i])
            invariant
                i < items@.len(),
                at <= items@.len(),
                T::obeys_eq_spec() ==> forall|k: int|
                    0 <= k < at ==> !(#[trigger] items@[k]).eq_spec(&items@[i as int]),
            ensures
                at <= items@.len(),
                T::obeys_eq_spec() ==> forall|k: int|
                    0 <= k < at ==> !(#[trigger] items@[k]).eq_spec(&items@[i as int]),
                T::obeys_eq_spec() && at < items@.len() ==> items@[at as int].eq_spec(
                    &items@[i as int],
                ),
            decreases items@.len() - at,
        {
            at += 1;
        }
        proof {
            if T::obeys_eq_spec() {
                crate::queue::lemma_first_equal_is(items@, items@[i as int], at as int);
            }
        }
        keys.push(at as u64);
        i += 1;
    }
    keys
}

/// Up and Down go one row at a time, round from the current track to the last
/// one to come.
pub proof fn queue_rows_go_round(row: int, last: int)
    requires
        0 <= row <= last,
    ensures
        row > 0 ==> row_above(row, last) == row - 1,
        row_above(0, last) == last,
        row < last ==> row_below(row, last) == row + 1,
        row_below(last, last) == 0,
{
}

/// The queued tracks are listed from the one behind `progress` on, and the rest
/// from behind them to the end, as far as the page has room.
pub proof fn table_lists_queued_then_rest(len: int, progress: int, play_next: int)
    requires
        0 <= progress < len,
        0 <= play_next,
        progress + 1 + play_next <= len,
    ensures
        ({
            let w = queue_window(len, progress, play_next, progress);
            &&& w.queued_from == progress + 1
            &&& w.queued_to - w.queued_from == if play_next < 12 {
                play_next
            } else {
                12
            }
            &&& w.rest_from == progress + 1 + play_next
            &&& w.rest_to - w.rest_from == if len - w.rest_from < 12 {
                len - w.rest_from
            } else {
                12
            }
        }),
{
}

/// Whatever is taken out of the list or put into it, the current track stays the
/// current one.
pub proof fn the_current_track_stays<T>(
    queue: Seq<T>,
    current: int,
    removed: int,
    at: int,
    added: Seq<T>,
)
    requires
        0 <= current < queue.len(),
        0 <= removed < queue.len(),
        0 <= at <= queue.len(),
    ensures
        removed != current ==> 0 <= place_without(current, removed) < queue.len() - 1
            && queue.remove(removed)[place_without(current, removed)] == queue[current],
        (queue.take(at) + added + queue.skip(at))[place_with(current, at, added.len() as int)]
            == queue[current],
{
}

/// The first row is the current track, and the rows below it the tracks to come,
/// one after the other. Those that are queued can be unqueued, but for one that
/// plays.
pub proof fn rows_are_the_tracks_to_come(row: int, current: int, progress: int, play_next: int)
    requires
        0 <= row,
        0 <= play_next,
    ensures
        row_track(0, current, progress) == current,
        row > 0 ==> row_track(row, current, progress) == progress + row,
        can_unqueue(row, current, progress, play_next) <==> row > 0 && row <= play_next
            && row_track(row, current, progress) != current,
{
}

} // verus!
