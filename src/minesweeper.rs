//! The board: cells, mine placement, reveal and flag rules, neighbour counts.

use crate::random::{draw_below, entropy_rng};
use rand::rngs::StdRng;
use vstd::prelude::*;

verus! {

/// What a cell holds. The number shown on an empty cell is never stored: it is
/// counted from the neighbours whenever it is asked for.
#[derive(Debug, Clone, Copy, PartialEq, Eq, Structural)]
pub enum CellValue {
    Mine,
    Empty,
}

/// Where a cell stands in play.
#[derive(Debug, Clone, Copy, PartialEq, Eq, Structural)]
pub enum CellState {
    Closed,
    Revealed,
    Flagged,
}

#[derive(Debug, Clone, Copy, PartialEq, Eq, Structural)]
pub struct Cell {
    pub state: CellState,
    pub value: CellValue,
}

/// What revealing a cell uncovers.
#[derive(Debug, Clone, Copy, PartialEq, Eq, Structural)]
pub enum RevealResult {
    Mine,
    MineCount(u8),
}

/// What a player may see of a cell: its state, and what a revealed cell
/// uncovered.
#[derive(Debug, Clone, Copy, PartialEq, Eq, Structural)]
pub enum ShownCell {
    Closed,
    Flagged,
    Mine,
    MineCount(u8),
}

#[derive(Debug, Clone, Copy, PartialEq, Eq, Structural)]
pub enum BoardError {
    /// The width or the height is zero.
    InvalidDimensions,
    /// More mines were asked for than the board has cells.
    TooManyMines,
    /// A row or a column lies outside the board.
    OutOfBounds,
}

/// A board of `width * height` cells, stored row by row.
#[derive(Debug)]
pub struct Minesweeper {
    width: usize,
    height: usize,
    mine_count: usize,
    cells: Vec<Cell>,
}

/// The mathematical picture of a board.
pub struct BoardView {
    pub width: nat,
    pub height: nat,
    pub mine_count: nat,
    pub cells: Seq<Cell>,
}

pub open spec fn closed_cell(value: CellValue) -> Cell {
    Cell { state: CellState::Closed, value }
}

/// The number of mines in a sequence of cells.
pub open spec fn mine_total(s: Seq<Cell>) -> nat
    decreases s.len(),
{
    if s.len() == 0 {
        0
    } else {
        mine_total(s.drop_last()) + if s.last().value == CellValue::Mine {
            1nat
        } else {
            0nat
        }
    }
}

pub open spec fn indicator(b: bool) -> nat {
    if b {
        1
    } else {
        0
    }
}

/// The decimal digit of a count of at most eight.
pub open spec fn digit(n: nat) -> char {
    if n == 0 {
        '0'
    } else if n == 1 {
        '1'
    } else if n == 2 {
        '2'
    } else if n == 3 {
        '3'
    } else if n == 4 {
        '4'
    } else if n == 5 {
        '5'
    } else if n == 6 {
        '6'
    } else if n == 7 {
        '7'
    } else {
        '8'
    }
}

/// What `toggle_flag` does to the state of one cell.
pub open spec fn toggled(s: CellState) -> CellState {
    match s {
        CellState::Closed => CellState::Flagged,
        CellState::Flagged => CellState::Closed,
        CellState::Revealed => CellState::Revealed,
    }
}

/// Why a board of these dimensions and this many mines cannot be built, if it
/// cannot.
pub open spec fn construction_error(width: nat, height: nat, mine_count: nat) -> Option<BoardError> {
    if width == 0 || height == 0 {
        Some(BoardError::InvalidDimensions)
    } else if mine_count > width * height {
        Some(BoardError::TooManyMines)
    } else {
        None
    }
}

impl BoardView {
    pub open spec fn in_bounds(self, r: int, c: int) -> bool {
        0 <= r < self.height && 0 <= c < self.width
    }

    pub open spec fn index(self, r: int, c: int) -> int {
        r * self.width + c
    }

    pub open spec fn cell(self, r: int, c: int) -> Cell {
        self.cells[self.index(r, c)]
    }

    /// The dimensions are positive, there is one cell per position, and exactly
    /// `mine_count` of them are mines.
    pub open spec fn wf(self) -> bool {
        &&& self.width > 0
        &&& self.height > 0
        &&& self.cells.len() == self.width * self.height
        &&& mine_total(self.cells) == self.mine_count
    }

    pub open spec fn mine_at(self, r: int, c: int) -> bool {
        self.in_bounds(r, c) && self.cell(r, c).value == CellValue::Mine
    }

    /// The number of mines among the up to eight cells around `(r, c)`.
    pub open spec fn neighbor_mines(self, r: int, c: int) -> nat {
        indicator(self.mine_at(r - 1, c - 1)) + indicator(self.mine_at(r - 1, c)) + indicator(
            self.mine_at(r - 1, c + 1),
        ) + indicator(self.mine_at(r, c - 1)) + indicator(self.mine_at(r, c + 1)) + indicator(
            self.mine_at(r + 1, c - 1),
        ) + indicator(self.mine_at(r + 1, c)) + indicator(self.mine_at(r + 1, c + 1))
    }

    /// `(i, j)` is one of the cells around `(r, c)`, on the board.
    pub open spec fn is_neighbor(self, r: int, c: int, i: int, j: int) -> bool {
        &&& self.in_bounds(i, j)
        &&& r - 1 <= i <= r + 1
        &&& c - 1 <= j <= c + 1
        &&& (i, j) != (r, c)
    }

    /// How many rows (or columns) the block around `x` spans on a side of
    /// length `n`: one, plus one on each side that does not run off the board.
    pub open spec fn span(x: int, n: int) -> int {
        (if x > 0 {
            1int
        } else {
            0int
        }) + 1 + (if x + 1 < n {
            1int
        } else {
            0int
        })
    }

    /// The symbol shown for `(r, c)`: `*` for a revealed mine, the digit of
    /// its count for another revealed cell, `F` for a flag, `#` for a closed
    /// cell.
    pub open spec fn symbol(self, r: int, c: int) -> char {
        match self.cell(r, c).state {
            CellState::Revealed => if self.cell(r, c).value == CellValue::Mine {
                '*'
            } else {
                digit(self.neighbor_mines(r, c))
            },
            CellState::Flagged => 'F',
            CellState::Closed => '#',
        }
    }

    /// The first `n` cells of row `r`, each symbol set between two spaces.
    pub open spec fn row_text(self, r: int, n: nat) -> Seq<char>
        decreases n,
    {
        if n == 0 {
            Seq::empty()
        } else {
            self.row_text(r, (n - 1) as nat) + seq![' ', self.symbol(r, n - 1), ' ']
        }
    }

    /// The first `n` rows of the board, each ended by a line break.
    pub open spec fn text(self, n: nat) -> Seq<char>
        decreases n,
    {
        if n == 0 {
            Seq::empty()
        } else {
            self.text((n - 1) as nat) + self.row_text(n - 1, self.width) + seq!['\n']
        }
    }

    /// What a player sees of `(r, c)`.
    pub open spec fn shown(self, r: int, c: int) -> ShownCell {
        match self.cell(r, c).state {
            CellState::Revealed => if self.cell(r, c).value == CellValue::Mine {
                ShownCell::Mine
            } else {
                ShownCell::MineCount(self.neighbor_mines(r, c) as u8)
            },
            CellState::Flagged => ShownCell::Flagged,
            CellState::Closed => ShownCell::Closed,
        }
    }

    pub open spec fn with_state(self, r: int, c: int, s: CellState) -> BoardView {
        BoardView {
            width: self.width,
            height: self.height,
            mine_count: self.mine_count,
            cells: self.cells.update(
                self.index(r, c),
                Cell { state: s, value: self.cell(r, c).value },
            ),
        }
    }

    /// The board after `(r, c)` is revealed.
    pub open spec fn revealed(self, r: int, c: int) -> BoardView {
        self.with_state(r, c, CellState::Revealed)
    }

    /// The board after the flag on `(r, c)` is toggled.
    pub open spec fn flag_toggled(self, r: int, c: int) -> BoardView {
        self.with_state(r, c, toggled(self.cell(r, c).state))
    }

    /// What revealing `(r, c)` uncovers.
    pub open spec fn reveal_outcome(self, r: int, c: int) -> RevealResult {
        if self.mine_at(r, c) {
            RevealResult::Mine
        } else {
            RevealResult::MineCount(self.neighbor_mines(r, c) as u8)
        }
    }

    /// Same dimensions, same number of mines, and a mine in the same places.
    pub open spec fn same_mines(self, other: BoardView) -> bool {
        &&& self.width == other.width
        &&& self.height == other.height
        &&& self.mine_count == other.mine_count
        &&& self.cells.len() == other.cells.len()
        &&& forall|i: int|
            0 <= i < self.cells.len() ==> #[trigger] self.cells[i].value == other.cells[i].value
    }

    pub open spec fn all_closed(self) -> bool {
        forall|i: int| 0 <= i < self.cells.len() ==> #[trigger] self.cells[i].state == CellState::Closed
    }
}

impl View for Minesweeper {
    type V = BoardView;

    closed spec fn view(&self) -> BoardView {
        BoardView {
            width: self.width as nat,
            height: self.height as nat,
            mine_count: self.mine_count as nat,
            cells: self.cells@,
        }
    }
}

pub proof fn lemma_index_in_range(w: int, h: int, r: int, c: int)
    requires
        0 <= r < h,
        0 <= c < w,
    ensures
        0 <= r * w + c < w * h,
{
    assert(0 <= r * w + c < w * h) by (nonlinear_arith)
        requires
            0 <= r < h,
            0 <= c < w,
    ;
}

/// Replacing one cell changes the mine total by what the two cells differ in.
pub proof fn lemma_mine_total_update(s: Seq<Cell>, i: int, c: Cell)
    requires
        0 <= i < s.len(),
    ensures
        mine_total(s.update(i, c)) + indicator(s[i].value == CellValue::Mine) == mine_total(s)
            + indicator(c.value == CellValue::Mine),
    decreases s.len(),
{
    let t = s.update(i, c);
    if i == s.len() - 1 {
        assert(t.drop_last() =~= s.drop_last());
    } else {
        assert(t.drop_last() =~= s.drop_last().update(i, c));
        lemma_mine_total_update(s.drop_last(), i, c);
    }
}

/// Two sequences with mines in the same places hold as many mines.
pub proof fn lemma_mine_total_same_values(s: Seq<Cell>, t: Seq<Cell>)
    requires
        s.len() == t.len(),
        forall|i: int| 0 <= i < s.len() ==> #[trigger] s[i].value == t[i].value,
    ensures
        mine_total(s) == mine_total(t),
    decreases s.len(),
{
    if s.len() > 0 {
        lemma_mine_total_same_values(s.drop_last(), t.drop_last());
    }
}

/// The mine total never exceeds the length, and reaches it only when every
/// cell is a mine.
pub proof fn lemma_mine_total_full(s: Seq<Cell>)
    ensures
        mine_total(s) <= s.len(),
        mine_total(s) == s.len() ==> forall|i: int|
            0 <= i < s.len() ==> #[trigger] s[i].value == CellValue::Mine,
        mine_total(s) == 0 ==> forall|i: int|
            0 <= i < s.len() ==> #[trigger] s[i].value != CellValue::Mine,
    decreases s.len(),
{
    if s.len() > 0 {
        let p = s.drop_last();
        lemma_mine_total_full(p);
        assert forall|i: int| 0 <= i < s.len() - 1 implies s[i] == #[trigger] p[i] by {}
        if mine_total(s) == s.len() {
            assert forall|i: int| 0 <= i < s.len() implies #[trigger] s[i].value
                == CellValue::Mine by {
                if i < s.len() - 1 {
                    assert(s[i] == p[i]);
                }
            }
        }
        if mine_total(s) == 0 {
            assert forall|i: int| 0 <= i < s.len() implies #[trigger] s[i].value
                != CellValue::Mine by {
                if i < s.len() - 1 {
                    assert(s[i] == p[i]);
                }
            }
        }
    }
}

/// Boards with mines in the same places agree on every mine and every count.
pub proof fn lemma_same_mines_same_counts(a: BoardView, b: BoardView)
    requires
        a.same_mines(b),
        a.cells.len() == a.width * a.height,
    ensures
        forall|r: int, c: int| #[trigger] a.mine_at(r, c) == b.mine_at(r, c),
        forall|r: int, c: int| #[trigger] a.neighbor_mines(r, c) == b.neighbor_mines(r, c),
        forall|r: int, c: int| #[trigger] a.reveal_outcome(r, c) == b.reveal_outcome(r, c),
{
    assert forall|r: int, c: int| #[trigger] a.mine_at(r, c) == b.mine_at(r, c) by {
        if a.in_bounds(r, c) {
            lemma_index_in_range(a.width as int, a.height as int, r, c);
            assert(a.cells[a.index(r, c)].value == b.cells[a.index(r, c)].value);
        }
    }
}

/// A sequence of mines only holds as many mines as it is long.
pub proof fn lemma_mine_total_all_mines(s: Seq<Cell>)
    requires
        forall|i: int| 0 <= i < s.len() ==> #[trigger] s[i].value == CellValue::Mine,
    ensures
        mine_total(s) == s.len(),
    decreases s.len(),
{
    if s.len() > 0 {
        lemma_mine_total_all_mines(s.drop_last());
    }
}

/// A sequence without mines holds none.
pub proof fn lemma_mine_total_no_mines(s: Seq<Cell>)
    requires
        forall|i: int| 0 <= i < s.len() ==> #[trigger] s[i].value != CellValue::Mine,
    ensures
        mine_total(s) == 0,
    decreases s.len(),
{
    if s.len() > 0 {
        lemma_mine_total_no_mines(s.drop_last());
    }
}

impl Minesweeper {
    /// The view is well formed, and every cell has an index that fits a `usize`.
    pub open spec fn wf(&self) -> bool {
        &&& self@.wf()
        &&& self@.width * self@.height <= usize::MAX
    }

    /// Builds a board with `mine_count` mines placed at random.
    pub fn new(width: usize, height: usize, mine_count: usize) -> (r: Result<Minesweeper, BoardError>)
        requires
            width * height <= usize::MAX,
        ensures
            Self::constructed(width, height, mine_count, r),
    {
        let mut rng = entropy_rng();
        Self::with_rng(width, height, mine_count, &mut rng)
    }

    /// What a constructor returns: the error that the arguments call for, or a
    /// well-formed board of those dimensions with every cell closed.
    pub open spec fn constructed(
        width: usize,
        height: usize,
        mine_count: usize,
        r: Result<Minesweeper, BoardError>,
    ) -> bool {
        match construction_error(width as nat, height as nat, mine_count as nat) {
            Some(e) => r == Err::<Minesweeper, BoardError>(e),
            None => match r {
                Ok(b) => {
                    &&& b.wf()
                    &&& b@.width == width
                    &&& b@.height == height
                    &&& b@.mine_count == mine_count
                    &&& b@.all_closed()
                },
                Err(_) => false,
            },
        }
    }

    /// Builds a board whose mines are drawn from `rng`: positions are drawn
    /// uniformly over the whole grid, and a draw that lands on a mine is
    /// dropped, until `mine_count` distinct cells hold one.
    pub fn with_rng(width: usize, height: usize, mine_count: usize, rng: &mut StdRng) -> (r: Result<
        Minesweeper,
        BoardError,
    >)
        requires
            width * height <= usize::MAX,
        ensures
            Self::constructed(width, height, mine_count, r),
    {
        if width == 0 || height == 0 {
            return Err(BoardError::InvalidDimensions);
        }
        let n: usize = width * height;
        if mine_count > n {
            return Err(BoardError::TooManyMines);
        }
        let mut cells: Vec<Cell> = Vec::new();
        let mut i: usize = 0;
        while i < n
            invariant
                i <= n,
                cells@.len() == i,
                forall|k: int| 0 <= k < i ==> #[trigger] cells@[k] == closed_cell(CellValue::Empty),
            decreases n - i,
        {
            cells.push(Cell { state: CellState::Closed, value: CellValue::Empty });
            i = i + 1;
        }
        proof {
            lemma_mine_total_no_mines(cells@);
        }
        let mut placed: usize = 0;
        // Rejection sampling ends with probability one; the budget of draws,
        // which no run can use up, keeps the loop finite for the prover.
        let mut budget: u64 = u64::MAX;
        while placed < mine_count && budget > 0
            invariant
                cells@.len() == n,
                placed <= mine_count,
                mine_count <= n,
                mine_total(cells@) == placed,
                forall|k: int| 0 <= k < n ==> #[trigger] cells@[k].state == CellState::Closed,
            decreases budget,
        {
            let k = draw_below(rng, n);
            if cells[k].value == CellValue::Empty {
                proof {
                    lemma_mine_total_update(cells@, k as int, closed_cell(CellValue::Mine));
                }
                cells[k] = Cell { state: CellState::Closed, value: CellValue::Mine };
                placed = placed + 1;
            }
            budget = budget - 1;
        }
        // Should the budget ever run out, the remaining mines take the first
        // free cells.
        let mut k: usize = 0;
        while placed < mine_count && k < n
            invariant
                cells@.len() == n,
                placed <= mine_count,
                mine_count <= n,
                k <= n,
                mine_total(cells@) == placed,
                forall|j: int| 0 <= j < n ==> #[trigger] cells@[j].state == CellState::Closed,
                placed < mine_count ==> forall|j: int|
                    0 <= j < k ==> #[trigger] cells@[j].value == CellValue::Mine,
            decreases n - k,
        {
            if cells[k].value == CellValue::Empty {
                proof {
                    lemma_mine_total_update(cells@, k as int, closed_cell(CellValue::Mine));
                }
                cells[k] = Cell { state: CellState::Closed, value: CellValue::Mine };
                placed = placed + 1;
            }
            k = k + 1;
        }
        if placed < mine_count {
            proof {
                lemma_mine_total_all_mines(cells@);
            }
        }
        let board = Minesweeper { width, height, mine_count, cells };
        Ok(board)
    }
}

impl Minesweeper {
    pub fn width(&self) -> (r: usize)
        ensures
            r == self@.width,
    {
        self.width
    }

    pub fn height(&self) -> (r: usize)
        ensures
            r == self@.height,
    {
        self.height
    }

    pub fn mine_count(&self) -> (r: usize)
        ensures
            r == self@.mine_count,
    {
        self.mine_count
    }

    fn get_index(&self, row: usize, col: usize) -> (r: usize)
        requires
            self.wf(),
            row < self@.height,
            col < self@.width,
        ensures
            r == self@.index(row as int, col as int),
            r < self@.cells.len(),
    {
        proof {
            lemma_index_in_range(self.width as int, self.height as int, row as int, col as int);
        }
        row * self.width + col
    }

    /// Whether `(row, col)` lies on the board and holds a mine.
    fn has_mine(&self, row: usize, col: usize) -> (r: bool)
        requires
            self.wf(),
        ensures
            r == self@.mine_at(row as int, col as int),
    {
        if row < self.height && col < self.width {
            let idx = self.get_index(row, col);
            self.cells[idx].value == CellValue::Mine
        } else {
            false
        }
    }

    /// The number of mines around `(row, col)`, counted afresh from the cells.
    pub fn count_mines(&self, row: usize, col: usize) -> (r: u8)
        requires
            self.wf(),
            row < self@.height,
            col < self@.width,
        ensures
            r as nat == self@.neighbor_mines(row as int, col as int),
    {
        let up = row > 0;
        let left = col > 0;
        let mut n: u8 = 0;
        if up && left && self.has_mine(row - 1, col - 1) {
            n = n + 1;
        }
        if up && self.has_mine(row - 1, col) {
            n = n + 1;
        }
        if up && self.has_mine(row - 1, col + 1) {
            n = n + 1;
        }
        if left && self.has_mine(row, col - 1) {
            n = n + 1;
        }
        if self.has_mine(row, col + 1) {
            n = n + 1;
        }
        if left && self.has_mine(row + 1, col - 1) {
            n = n + 1;
        }
        if self.has_mine(row + 1, col) {
            n = n + 1;
        }
        if self.has_mine(row + 1, col + 1) {
            n = n + 1;
        }
        n
    }

    /// Reveals `(row, col)`, whatever its state was, and says what it holds.
    pub fn reveal_cell(&mut self, row: usize, col: usize) -> (r: Result<RevealResult, BoardError>)
        requires
            old(self).wf(),
        ensures
            final(self).wf(),
            final(self)@.same_mines(old(self)@),
            old(self)@.in_bounds(row as int, col as int) ==> {
                &&& r == Ok::<RevealResult, BoardError>(
                    old(self)@.reveal_outcome(row as int, col as int),
                )
                &&& final(self)@ == old(self)@.revealed(row as int, col as int)
            },
            !old(self)@.in_bounds(row as int, col as int) ==> {
                &&& r == Err::<RevealResult, BoardError>(BoardError::OutOfBounds)
                &&& final(self)@ == old(self)@
            },
    {
        if row >= self.height || col >= self.width {
            return Err(BoardError::OutOfBounds);
        }
        let idx = self.get_index(row, col);
        let value = self.cells[idx].value;
        proof {
            lemma_mine_total_update(self.cells@, idx as int, Cell { state: CellState::Revealed, value });
        }
        self.cells[idx] = Cell { state: CellState::Revealed, value };
        proof {
            lemma_same_mines_same_counts(self@, old(self)@);
        }
        if value == CellValue::Mine {
            Ok(RevealResult::Mine)
        } else {
            Ok(RevealResult::MineCount(self.count_mines(row, col)))
        }
    }

    /// Puts a flag on a closed cell or takes it off a flagged one; a revealed
    /// cell stays as it is.
    pub fn toggle_flag(&mut self, row: usize, col: usize) -> (r: Result<(), BoardError>)
        requires
            old(self).wf(),
        ensures
            final(self).wf(),
            final(self)@.same_mines(old(self)@),
            old(self)@.in_bounds(row as int, col as int) ==> {
                &&& r == Ok::<(), BoardError>(())
                &&& final(self)@ == old(self)@.flag_toggled(row as int, col as int)
            },
            !old(self)@.in_bounds(row as int, col as int) ==> {
                &&& r == Err::<(), BoardError>(BoardError::OutOfBounds)
                &&& final(self)@ == old(self)@
            },
    {
        if row >= self.height || col >= self.width {
            return Err(BoardError::OutOfBounds);
        }
        let idx = self.get_index(row, col);
        let cell = self.cells[idx];
        let state = match cell.state {
            CellState::Closed => CellState::Flagged,
            CellState::Flagged => CellState::Closed,
            CellState::Revealed => CellState::Revealed,
        };
        proof {
            lemma_mine_total_update(self.cells@, idx as int, Cell { state, value: cell.value });
        }
        self.cells[idx] = Cell { state, value: cell.value };
        Ok(())
    }

    /// The cells around `(row, col)` that lie on the board, row by row, each
    /// once: three at a corner, five along an edge, eight inside.
    pub fn neighbors(&self, row: usize, col: usize) -> (r: Vec<(usize, usize)>)
        requires
            self.wf(),
            row < self@.height,
            col < self@.width,
        ensures
            forall|k: int|
                0 <= k < r@.len() ==> self@.is_neighbor(
                    row as int,
                    col as int,
                    (#[trigger] r@[k]).0 as int,
                    r@[k].1 as int,
                ),
            forall|i: usize, j: usize|
                self@.is_neighbor(row as int, col as int, i as int, j as int) ==> #[trigger] r@.contains(
                    (i, j),
                ),
            r@.no_duplicates(),
            r@.len() + 1 == BoardView::span(row as int, self@.height as int) * BoardView::span(
                col as int,
                self@.width as int,
            ),
    {
        let r_lo: usize = if row > 0 { row - 1 } else { row };
        let r_hi: usize = if row + 1 < self.height { row + 1 } else { row };
        let c_lo: usize = if col > 0 { col - 1 } else { col };
        let c_hi: usize = if col + 1 < self.width { col + 1 } else { col };
        let ghost cw: int = c_hi - c_lo + 1;
        let mut out: Vec<(usize, usize)> = Vec::new();
        let mut i: usize = r_lo;
        while i <= r_hi
            invariant
                r_lo <= i <= r_hi + 1,
                r_hi < self@.height,
                c_hi < self@.width,
                r_lo == (if row > 0 { row - 1 } else { row as int }),
                r_hi == (if row + 1 < self@.height { row + 1 } else { row as int }),
                c_lo == (if col > 0 { col - 1 } else { col as int }),
                c_hi == (if col + 1 < self@.width { col + 1 } else { col as int }),
                cw == c_hi - c_lo + 1,
                forall|k: int|
                    0 <= k < out@.len() ==> self@.is_neighbor(
                        row as int,
                        col as int,
                        (#[trigger] out@[k]).0 as int,
                        out@[k].1 as int,
                    ) && out@[k].0 < i,
                forall|a: usize, b: usize|
                    a < i && self@.is_neighbor(row as int, col as int, a as int, b as int)
                        ==> #[trigger] out@.contains((a, b)),
                out@.no_duplicates(),
                out@.len() == (i - r_lo) * cw - (if i > row { 1int } else { 0int }),
            decreases r_hi + 1 - i,
        {
            let mut j: usize = c_lo;
            while j <= c_hi
                invariant
                    r_lo <= i <= r_hi,
                    c_lo <= j <= c_hi + 1,
                    r_hi < self@.height,
                    c_hi < self@.width,
                    r_lo == (if row > 0 { row - 1 } else { row as int }),
                    r_hi == (if row + 1 < self@.height { row + 1 } else { row as int }),
                    c_lo == (if col > 0 { col - 1 } else { col as int }),
                    c_hi == (if col + 1 < self@.width { col + 1 } else { col as int }),
                    cw == c_hi - c_lo + 1,
                    forall|k: int|
                        0 <= k < out@.len() ==> self@.is_neighbor(
                            row as int,
                            col as int,
                            (#[trigger] out@[k]).0 as int,
                            out@[k].1 as int,
                        ) && (out@[k].0 < i || (out@[k].0 == i && out@[k].1 < j)),
                    forall|a: usize, b: usize|
                        (a < i || (a == i && b < j)) && self@.is_neighbor(
                            row as int,
                            col as int,
                            a as int,
                            b as int,
                        ) ==> #[trigger] out@.contains((a, b)),
                    out@.no_duplicates(),
                    out@.len() == (i - r_lo) * cw + (j - c_lo) - (if i > row || (i == row && j
                        > col) { 1int } else { 0int }),
                decreases c_hi + 1 - j,
            {
                let ghost before = out@;
                if i != row || j != col {
                    proof {
                        assert(!out@.contains((i, j)));
                    }
                    out.push((i, j));
                }
                proof {
                    assert forall|a: usize, b: usize|
                        (a < i || (a == i && b <= j)) && self@.is_neighbor(
                            row as int,
                            col as int,
                            a as int,
                            b as int,
                        ) implies #[trigger] out@.contains((a, b)) by {
                        if a == i && b == j {
                            assert(out@[out@.len() - 1] == (i, j));
                        } else {
                            assert(before.contains((a, b)));
                            let k = choose|k: int| 0 <= k < before.len() && before[k] == (a, b);
                            assert(out@[k] == (a, b));
                        }
                    }
                }
                j = j + 1;
            }
            proof {
                assert((i - r_lo) * cw + cw == (i + 1 - r_lo) * cw) by (nonlinear_arith);
            }
            i = i + 1;
        }
        proof {
            assert(r_hi + 1 - r_lo == BoardView::span(row as int, self@.height as int));
            assert(cw == BoardView::span(col as int, self@.width as int));
        }
        out
    }

    /// The symbol of `(row, col)` between two spaces.
    fn format_cell(&self, row: usize, col: usize) -> (r: &'static str)
        requires
            self.wf(),
            row < self@.height,
            col < self@.width,
        ensures
            r@ == seq![' ', self@.symbol(row as int, col as int), ' '],
    {
        let idx = self.get_index(row, col);
        let cell = self.cells[idx];
        match cell.state {
            CellState::Revealed => {
                if cell.value == CellValue::Mine {
                    proof { reveal_strlit(" * "); }
                    " * "
                } else {
                    let n = self.count_mines(row, col);
                    if n == 0 {
                        proof { reveal_strlit(" 0 "); }
                        " 0 "
                    } else if n == 1 {
                        proof { reveal_strlit(" 1 "); }
                        " 1 "
                    } else if n == 2 {
                        proof { reveal_strlit(" 2 "); }
                        " 2 "
                    } else if n == 3 {
                        proof { reveal_strlit(" 3 "); }
                        " 3 "
                    } else if n == 4 {
                        proof { reveal_strlit(" 4 "); }
                        " 4 "
                    } else if n == 5 {
                        proof { reveal_strlit(" 5 "); }
                        " 5 "
                    } else if n == 6 {
                        proof { reveal_strlit(" 6 "); }
                        " 6 "
                    } else if n == 7 {
                        proof { reveal_strlit(" 7 "); }
                        " 7 "
                    } else {
                        proof { reveal_strlit(" 8 "); }
                        " 8 "
                    }
                }
            },
            CellState::Flagged => {
                proof { reveal_strlit(" F "); }
                " F "
            },
            CellState::Closed => {
                proof { reveal_strlit(" # "); }
                " # "
            },
        }
    }

    /// The board as text: one line per row, each symbol between two spaces.
    pub fn render(&self) -> (r: String)
        requires
            self.wf(),
        ensures
            r@ == self@.text(self@.height),
    {
        let mut out = String::new();
        let mut i: usize = 0;
        while i < self.height
            invariant
                self.wf(),
                i <= self@.height,
                out@ == self@.text(i as nat),
            decreases self@.height - i,
        {
            let ghost start = out@;
            let mut j: usize = 0;
            while j < self.width
                invariant
                    self.wf(),
                    i < self@.height,
                    j <= self@.width,
                    out@ == start + self@.row_text(i as int, j as nat),
                decreases self@.width - j,
            {
                out.append(self.format_cell(i, j));
                assert(out@ =~= start + self@.row_text(i as int, (j + 1) as nat));
                j = j + 1;
            }
            proof { reveal_strlit("\n"); }
            out.append("\n");
            assert(out@ =~= self@.text((i + 1) as nat));
            i = i + 1;
        }
        out
    }

    /// What a player sees of every cell, row by row: mines stay hidden until
    /// their cell is revealed.
    pub fn shown_cells(&self) -> (r: Vec<ShownCell>)
        requires
            self.wf(),
        ensures
            r@.len() == self@.cells.len(),
            forall|row: int, col: int|
                self@.in_bounds(row, col) ==> r@[self@.index(row, col)] == #[trigger] self@.shown(
                    row,
                    col,
                ),
    {
        let mut out: Vec<ShownCell> = Vec::new();
        let mut i: usize = 0;
        while i < self.height
            invariant
                self.wf(),
                i <= self@.height,
                out@.len() == i * self@.width,
                forall|row: int, col: int|
                    self@.in_bounds(row, col) && row < i ==> out@[self@.index(row, col)]
                        == #[trigger] self@.shown(row, col),
            decreases self@.height - i,
        {
            let mut j: usize = 0;
            while j < self.width
                invariant
                    self.wf(),
                    i < self@.height,
                    j <= self@.width,
                    out@.len() == i * self@.width + j,
                    forall|row: int, col: int|
                        self@.in_bounds(row, col) && (row < i || (row == i && col < j))
                            ==> out@[self@.index(row, col)] == #[trigger] self@.shown(row, col),
                decreases self@.width - j,
            {
                proof {
                    lemma_index_in_range(self@.width as int, self@.height as int, i as int, j as int);
                }
                let idx = self.get_index(i, j);
                let cell = self.cells[idx];
                let shown = match cell.state {
                    CellState::Revealed => if cell.value == CellValue::Mine {
                        ShownCell::Mine
                    } else {
                        ShownCell::MineCount(self.count_mines(i, j))
                    },
                    CellState::Flagged => ShownCell::Flagged,
                    CellState::Closed => ShownCell::Closed,
                };
                let ghost before = out@;
                out.push(shown);
                proof {
                    assert forall|row: int, col: int|
                        self@.in_bounds(row, col) && (row < i || (row == i && col <= j)) implies out@[self@.index(row, col)]
                            == #[trigger] self@.shown(row, col) by {
                        if row < i {
                            lemma_index_in_range(self@.width as int, i as int, row, col);
                            assert(out@[self@.index(row, col)] == before[self@.index(row, col)]);
                        } else if col < j {
                            assert(out@[self@.index(row, col)] == before[self@.index(row, col)]);
                        }
                    }
                }
                j = j + 1;
            }
            proof {
                assert((i + 1) * self@.width == i * self@.width + self@.width) by (nonlinear_arith);
            }
            i = i + 1;
        }
        proof {
            assert(self@.height * self@.width == self@.width * self@.height) by (nonlinear_arith);
        }
        out
    }

    /// A copy of every cell, row by row.
    pub fn cells(&self) -> (r: Vec<Cell>)
        ensures
            r@ == self@.cells,
    {
        let mut out: Vec<Cell> = Vec::new();
        let mut i: usize = 0;
        while i < self.cells.len()
            invariant
                i <= self.cells@.len(),
                out@ == self.cells@.subrange(0, i as int),
            decreases self.cells@.len() - i,
        {
            out.push(self.cells[i]);
            i = i + 1;
            assert(out@ =~= self.cells@.subrange(0, i as int));
        }
        assert(out@ =~= self.cells@);
        out
    }
}

} // verus!
