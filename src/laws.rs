//! Laws that tie the board's operations together.

use crate::minesweeper::{
    lemma_index_in_range, lemma_mine_total_full, lemma_mine_total_same_values,
    lemma_same_mines_same_counts, mine_total, BoardView, CellState, RevealResult,
};
use vstd::prelude::*;

verus! {

/// The number of mines on a board is its `mine_count`, and a board that keeps
/// the mines of a well-formed one (as revealing and flagging do) keeps that
/// number too.
pub proof fn law_mine_count_fixed(before: BoardView, after: BoardView)
    requires
        before.wf(),
        after.same_mines(before),
    ensures
        mine_total(before.cells) == before.mine_count,
        mine_total(after.cells) == after.mine_count,
        after.mine_count == before.mine_count,
{
    lemma_mine_total_same_values(after.cells, before.cells);
}

/// On a board without mines every cell counts zero mines around it.
pub proof fn law_no_mines_no_counts(v: BoardView)
    requires
        v.wf(),
        v.mine_count == 0,
    ensures
        forall|r: int, c: int| #[trigger] v.neighbor_mines(r, c) == 0,
{
    lemma_mine_total_full(v.cells);
    assert forall|r: int, c: int| !#[trigger] v.mine_at(r, c) by {
        if v.in_bounds(r, c) {
            lemma_index_in_range(v.width as int, v.height as int, r, c);
        }
    }
}

/// On a board where every cell holds a mine, revealing any cell finds one.
pub proof fn law_full_board_all_mines(v: BoardView)
    requires
        v.wf(),
        v.mine_count == v.width * v.height,
    ensures
        forall|r: int, c: int|
            v.in_bounds(r, c) ==> #[trigger] v.reveal_outcome(r, c) == RevealResult::Mine,
{
    lemma_mine_total_full(v.cells);
    assert forall|r: int, c: int| v.in_bounds(r, c) implies #[trigger] v.mine_at(r, c) by {
        lemma_index_in_range(v.width as int, v.height as int, r, c);
    }
}

/// Toggling a flag twice gives the board back, and toggling it once on a
/// closed cell flags that cell.
pub proof fn law_toggle_twice(v: BoardView, r: int, c: int)
    requires
        v.wf(),
        v.in_bounds(r, c),
    ensures
        v.flag_toggled(r, c).flag_toggled(r, c) == v,
        v.cell(r, c).state == CellState::Closed ==> v.flag_toggled(r, c).cell(r, c).state
            == CellState::Flagged,
{
    lemma_index_in_range(v.width as int, v.height as int, r, c);
    let w = v.flag_toggled(r, c).flag_toggled(r, c);
    assert(w.cells =~= v.cells);
}

/// Toggling the flag of a revealed cell changes nothing.
pub proof fn law_toggle_revealed(v: BoardView, r: int, c: int)
    requires
        v.wf(),
        v.in_bounds(r, c),
        v.cell(r, c).state == CellState::Revealed,
    ensures
        v.flag_toggled(r, c) == v,
{
    lemma_index_in_range(v.width as int, v.height as int, r, c);
    assert(v.flag_toggled(r, c).cells =~= v.cells);
}

/// Revealing a cell a second time leaves it revealed, changes nothing more,
/// and uncovers what the first time did.
pub proof fn law_reveal_idempotent(v: BoardView, r: int, c: int)
    requires
        v.wf(),
        v.in_bounds(r, c),
    ensures
        v.revealed(r, c).cell(r, c).state == CellState::Revealed,
        v.revealed(r, c).revealed(r, c) == v.revealed(r, c),
        v.revealed(r, c).reveal_outcome(r, c) == v.reveal_outcome(r, c),
{
    lemma_index_in_range(v.width as int, v.height as int, r, c);
    let once = v.revealed(r, c);
    assert(once.revealed(r, c).cells =~= once.cells);
    assert(once.same_mines(v));
    lemma_same_mines_same_counts(once, v);
}

} // verus!
