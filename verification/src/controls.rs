//! The tables of keys below the players.
use crate::language::{tr, Translation};
use crate::screen::{fit_text, fitted_text, format_rule, rule};
use crate::text::texts;
use vstd::prelude::*;

verus! {

/// The columns of a cell.
pub const CELL_WIDTH: usize = 14;

/// A line between the rows of the table.
pub open spec fn control_line(left: Seq<char>, middle: Seq<char>, right: Seq<char>) -> Seq<char> {
    rule(left, (CELL_WIDTH + 2) as nat, middle) + rule(seq![], (CELL_WIDTH + 2) as nat, middle)
        + rule(seq![], (CELL_WIDTH + 2) as nat, right)
}

/// A row of the table.
pub open spec fn control_row(a: Seq<char>, b: Seq<char>, c: Seq<char>) -> Seq<char> {
    "│ "@ + fitted_text(a, CELL_WIDTH as nat) + " │ "@ + fitted_text(b, CELL_WIDTH as nat)
        + " │ "@ + fitted_text(c, CELL_WIDTH as nat) + " │"@
}

/// The table of keys that all players have.
pub open spec fn control_table(t: Translation) -> Seq<Seq<char>> {
    seq![
        control_line("┌"@, "┬"@, "┐"@),
        control_row(
            t.text("msg.p_play_pause"@),
            t.text("msg.v_previous"@),
            t.text("msg.n_next"@),
        ),
        control_line("├"@, "┼"@, "┤"@),
        control_row(
            t.text("msg.r_shuffle"@),
            t.text("msg.l_loop"@),
            t.text("msg.u_queue"@),
        ),
        control_line("├"@, "┼"@, "┤"@),
        control_row(t.text("msg.volume"@), t.text("msg.b_menu"@), t.text("msg.q_quit"@)),
        control_line("└"@, "┴"@, "┘"@),
    ]
}

pub fn format_control_line(left: &str, middle: &str, right: &str) -> (r: String)
    ensures
        r@ == control_line(left@, middle@, right@),
{
    proof {
        reveal_strlit("");
        assert(""@ =~= seq![]);
    }
    let mut out = format_rule(left, CELL_WIDTH + 2, middle);
    out.append(format_rule("", CELL_WIDTH + 2, middle).as_str());
    out.append(format_rule("", CELL_WIDTH + 2, right).as_str());
    out
}

pub fn format_control_row(a: &str, b: &str, c: &str) -> (r: String)
    ensures
        r@ == control_row(a@, b@, c@),
{
    let mut out = "│ ".to_string();
    out.append(fit_text(a, CELL_WIDTH).as_str());
    out.append(" │ ");
    out.append(fit_text(b, CELL_WIDTH).as_str());
    out.append(" │ ");
    out.append(fit_text(c, CELL_WIDTH).as_str());
    out.append(" │");
    out
}

pub fn playback_controls(translation: &Translation) -> (r: Vec<String>)
    ensures
        texts(r@) == control_table(*translation),
{
    let mut rows: Vec<String> = Vec::new();
    rows.push(format_control_line("┌", "┬", "┐"));
    rows.push(
        format_control_row(
            tr(translation, "msg.p_play_pause").as_str(),
            tr(translation, "msg.v_previous").as_str(),
            tr(translation, "msg.n_next").as_str(),
        ),
    );
    rows.push(format_control_line("├", "┼", "┤"));
    rows.push(
        format_control_row(
            tr(translation, "msg.r_shuffle").as_str(),
            tr(translation, "msg.l_loop").as_str(),
            tr(translation, "msg.u_queue").as_str(),
        ),
    );
    rows.push(format_control_line("├", "┼", "┤"));
    rows.push(
        format_control_row(
            tr(translation, "msg.volume").as_str(),
            tr(translation, "msg.b_menu").as_str(),
            tr(translation, "msg.q_quit").as_str(),
        ),
    );
    rows.push(format_control_line("└", "┴", "┘"));
    assert(texts(rows@) =~= control_table(*translation));
    rows
}

} // verus!
