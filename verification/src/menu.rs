//! Menus: one row of several is chosen.
use crate::keys::{menu_quit_key, quits, Key, KeyPress};
use crate::language::{tr, Translation};
use crate::screen::{bold_menu_title, bold_title};
use crate::text::{is_empty_text, texts};
use vstd::prelude::*;

verus! {

/// The row above, from the first to the last.
pub open spec fn row_above(row: int, count: int) -> int {
    if row == 0 {
        count - 1
    } else {
        row - 1
    }
}

/// The row below, from the last to the first.
pub open spec fn row_below(row: int, count: int) -> int {
    if row + 1 < count {
        row + 1
    } else {
        0
    }
}

pub fn move_up(row: usize, count: usize) -> (r: usize)
    requires
        row < count,
    ensures
        r == row_above(row as int, count as int),
        r < count,
{
    if row == 0 {
        count - 1
    } else {
        row - 1
    }
}

pub fn move_down(row: usize, count: usize) -> (r: usize)
    requires
        row < count,
    ensures
        r == row_below(row as int, count as int),
        r < count,
{
    if row + 1 < count {
        row + 1
    } else {
        0
    }
}

/// Going up undoes going down, and the other way round.
pub proof fn up_and_down_undo_each_other(row: int, count: int)
    requires
        0 <= row < count,
    ensures
        row_above(row_below(row, count), count) == row,
        row_below(row_above(row, count), count) == row,
{
}

/// A menu with at least one row.
pub struct Menu {
    pub title: String,
    pub items: Vec<String>,
    pub selected: usize,
}

/// What a key does to a menu.
#[derive(Clone, Copy, Debug, PartialEq, Eq, Structural)]
pub enum MenuStep {
    Stay,
    Choose(usize),
    Cancel,
    Quit,
}

/// The row that is selected after a key, and what else the key does.
pub open spec fn menu_step(selected: int, count: int, press: KeyPress) -> (int, MenuStep) {
    if quits(press) {
        (selected, MenuStep::Quit)
    } else {
        match press.key {
            Key::Up => (row_above(selected, count), MenuStep::Stay),
            Key::Down => (row_below(selected, count), MenuStep::Stay),
            Key::Enter => (selected, MenuStep::Choose(selected as usize)),
            Key::Esc => (selected, MenuStep::Cancel),
            _ => (selected, MenuStep::Stay),
        }
    }
}

/// The rows of a menu.
pub open spec fn menu_rows(items: Seq<Seq<char>>, selected: int, n: nat) -> Seq<char>
    decreases n,
{
    if n == 0 {
        seq![]
    } else {
        menu_rows(items, selected, (n - 1) as nat) + (if n - 1 == selected {
            ">"@
        } else {
            " "@
        } + " "@ + items[n - 1] + "\r\n"@)
    }
}

/// What a menu looks like.
pub open spec fn menu_frame(
    title: Seq<char>,
    items: Seq<Seq<char>>,
    selected: int,
    hint: Seq<char>,
) -> Seq<char> {
    (if title.len() == 0 {
        seq![]
    } else {
        bold_title(title) + "\r\n\r\n"@
    }) + menu_rows(items, selected, items.len()) + hint
}

impl Menu {
    pub open spec fn wf(&self) -> bool {
        self.selected < self.items@.len()
    }

    /// Takes a key.
    pub fn key(&mut self, press: KeyPress) -> (r: MenuStep)
        requires
            old(self).wf(),
        ensures
            final(self).wf(),
            final(self).title@ == old(self).title@,
            texts(final(self).items@) == texts(old(self).items@),
            (final(self).selected as int, r) == menu_step(
                old(self).selected as int,
                old(self).items@.len() as int,
                press,
            ),
    {
        if menu_quit_key(press) {
            return MenuStep::Quit;
        }
        match press.key {
            Key::Up => {
                self.selected = move_up(self.selected, self.items.len());
                MenuStep::Stay
            },
            Key::Down => {
                self.selected = move_down(self.selected, self.items.len());
                MenuStep::Stay
            },
            Key::Enter => MenuStep::Choose(self.selected),
            Key::Esc => MenuStep::Cancel,
            _ => MenuStep::Stay,
        }
    }

    /// What the menu looks like.
    pub fn frame(&self, translation: &Translation) -> (r: String)
        ensures
            r@ == menu_frame(
                self.title@,
                texts(self.items@),
                self.selected as int,
                translation.text("msg.up_down_select_enter_confirm_esc_back_q"@),
            ),
    {
        let mut out = String::new();
        if !is_empty_text(self.title.as_str()) {
            out.append(bold_menu_title(self.title.as_str()).as_str());
            out.append("\r\n\r\n");
            assert(out@ =~= bold_title(self.title@) + "\r\n\r\n"@);
        } else {
            assert(out@ =~= seq![]);
        }
        let mut body = String::new();
        let mut i: usize = 0;
        assert(body@ =~= menu_rows(texts(self.items@), self.selected as int, 0));
        while i < self.items.len()
            invariant
                i <= self.items@.len(),
                body@ == menu_rows(texts(self.items@), self.selected as int, i as nat),
            decreases self.items@.len() - i,
        {
            assert(texts(self.items@)[i as int] == self.items@[i as int]@);
            let mut row = (if i == self.selected {
                ">"
            } else {
                " "
            }).to_string();
            row.append(" ");
            row.append(self.items[i].as_str());
            row.append("\r\n");
            body.append(row.as_str());
            i += 1;
        }
        out.append(body.as_str());
        out.append(tr(translation, "msg.up_down_select_enter_confirm_esc_back_q").as_str());
        out
    }
}

/// A menu on which a row is selected already; without rows there is no menu.
pub fn select_menu_from(title: &str, items: Vec<String>, initial_selection: usize) -> (r: Option<
    Menu,
>)
    ensures
        match r {
            Some(menu) => items@.len() > 0 && menu.wf() && menu.title@ == title@ && menu.items
                == items && menu.selected == if initial_selection < items@.len() {
                initial_selection as int
            } else {
                items@.len() - 1
            },
            None => items@.len() == 0,
        },
{
    if items.len() == 0 {
        return None;
    }
    let last: usize = items.len() - 1;
    let selected: usize = if initial_selection < last {
        initial_selection
    } else {
        last
    };
    Some(Menu { title: title.to_string(), items, selected })
}

/// A menu on which the first row is selected.
pub fn select_menu(title: &str, items: Vec<String>) -> (r: Option<Menu>)
    ensures
        match r {
            Some(menu) => items@.len() > 0 && menu.wf() && menu.title@ == title@ && menu.items
                == items && menu.selected == 0,
            None => items@.len() == 0,
        },
{
    select_menu_from(title, items, 0)
}

/// The arrows go one row at a time and round the ends; Enter chooses the
/// highlighted row, Esc goes back, and `q` and Ctrl+C quit.
pub proof fn menu_keys_do_what_they_say(selected: int, count: int)
    requires
        0 <= selected < count <= usize::MAX,
    ensures
        menu_step(selected, count, KeyPress { key: Key::Up, control: false }) == (
            if selected == 0 {
                count - 1
            } else {
                selected - 1
            },
            MenuStep::Stay,
        ),
        menu_step(selected, count, KeyPress { key: Key::Down, control: false }) == (
            if selected == count - 1 {
                0
            } else {
                selected + 1
            },
            MenuStep::Stay,
        ),
        menu_step(selected, count, KeyPress { key: Key::Enter, control: false }) == (
            selected,
            MenuStep::Choose(selected as usize),
        ),
        menu_step(selected, count, KeyPress { key: Key::Esc, control: false }) == (
            selected,
            MenuStep::Cancel,
        ),
        menu_step(selected, count, KeyPress { key: Key::Char('q'), control: false }) == (
            selected,
            MenuStep::Quit,
        ),
        menu_step(selected, count, KeyPress { key: Key::Char('c'), control: true }) == (
            selected,
            MenuStep::Quit,
        ),
        menu_step(selected, count, KeyPress { key: Key::Char('c'), control: false }) == (
            selected,
            MenuStep::Stay,
        ),
{
}

/// A menu shows each of its items on a line of its own, in order, and marks the
/// selected one alone.
pub proof fn menus_mark_the_selected_item(items: Seq<Seq<char>>, selected: int, n: nat)
    requires
        n <= items.len(),
    ensures
        menu_rows(items, selected, n) == Seq::new(
            n,
            |i: int|
                (if i == selected {
                    ">"@
                } else {
                    " "@
                }) + " "@ + items[i] + "\r\n"@,
        ).flatten(),
    decreases n,
{
    let rows = Seq::new(
        n,
        |i: int|
            (if i == selected {
                ">"@
            } else {
                " "@
            }) + " "@ + items[i] + "\r\n"@,
    );
    rows.lemma_flatten_and_flatten_alt_are_equivalent();
    if n > 0 {
        let m = (n - 1) as nat;
        menus_mark_the_selected_item(items, selected, m);
        let before = Seq::new(
            m,
            |i: int|
                (if i == selected {
                    ">"@
                } else {
                    " "@
                }) + " "@ + items[i] + "\r\n"@,
        );
        before.lemma_flatten_and_flatten_alt_are_equivalent();
        assert(rows.drop_last() =~= before);
    }
}

} // verus!
