use minesweeper::{BoardError, Cell, CellState, CellValue, Minesweeper, RevealResult, ShownCell};
use rand::rngs::StdRng;
use rand::SeedableRng;

fn mines(cells: &[Cell]) -> usize {
    cells.iter().filter(|c| c.value == CellValue::Mine).count()
}

fn state_at(ms: &Minesweeper, row: usize, col: usize) -> CellState {
    ms.cells()[row * ms.width() + col].state
}

#[test]
fn new_board_is_closed_and_has_its_mines() {
    let ms = Minesweeper::new(7, 3, 9).unwrap();
    let cells = ms.cells();
    assert_eq!(cells.len(), 21);
    assert_eq!(mines(&cells), 9);
    assert!(cells.iter().all(|c| c.state == CellState::Closed));
    assert_eq!((ms.width(), ms.height(), ms.mine_count()), (7, 3, 9));
}

#[test]
fn mine_count_unchanged_by_play() {
    let mut ms = Minesweeper::new(6, 5, 12).unwrap();
    let before = ms.cells();
    for r in 0..5 {
        for c in 0..6 {
            if (r + c) % 2 == 0 {
                ms.reveal_cell(r, c).unwrap();
            } else {
                ms.toggle_flag(r, c).unwrap();
            }
        }
    }
    let after = ms.cells();
    assert_eq!(mines(&after), 12);
    for (a, b) in before.iter().zip(after.iter()) {
        assert_eq!(a.value, b.value);
    }
}

#[test]
fn every_board_size_can_be_filled() {
    let ms = Minesweeper::new(3, 2, 6).unwrap();
    assert_eq!(mines(&ms.cells()), 6);
    let ms = Minesweeper::new(1, 1, 0).unwrap();
    assert_eq!(mines(&ms.cells()), 0);
}

#[test]
fn no_mines_counts_zero_everywhere() {
    let ms = Minesweeper::new(10, 10, 0).unwrap();
    for r in 0..10 {
        for c in 0..10 {
            assert_eq!(ms.count_mines(r, c), 0);
        }
    }
}

#[test]
fn full_two_by_two_reveals_mines_everywhere() {
    let mut ms = Minesweeper::new(2, 2, 4).unwrap();
    for r in 0..2 {
        for c in 0..2 {
            assert_eq!(ms.reveal_cell(r, c), Ok(RevealResult::Mine));
        }
    }
}

#[test]
fn neighbour_counts_by_position() {
    let ms = Minesweeper::new(10, 10, 0).unwrap();
    assert_eq!(ms.neighbors(0, 0).len(), 3);
    assert_eq!(ms.neighbors(9, 9).len(), 3);
    assert_eq!(ms.neighbors(0, 9).len(), 3);
    assert_eq!(ms.neighbors(0, 5).len(), 5);
    assert_eq!(ms.neighbors(5, 0).len(), 5);
    assert_eq!(ms.neighbors(9, 4).len(), 5);
    assert_eq!(ms.neighbors(4, 4).len(), 8);
    let mut around = ms.neighbors(0, 0);
    around.sort();
    assert_eq!(around, vec![(0, 1), (1, 0), (1, 1)]);
}

#[test]
fn single_cell_has_no_neighbours() {
    let ms = Minesweeper::new(1, 1, 0).unwrap();
    assert!(ms.neighbors(0, 0).is_empty());
    assert_eq!(ms.count_mines(0, 0), 0);
}

#[test]
fn count_of_the_only_empty_cell() {
    for _ in 0..20 {
        let mut ms = Minesweeper::new(3, 3, 8).unwrap();
        let idx = ms.cells().iter().position(|c| c.value == CellValue::Empty).unwrap();
        let (r, c) = (idx / 3, idx % 3);
        let expected = ms.neighbors(r, c).len() as u8;
        assert_eq!(ms.count_mines(r, c), expected);
        assert_eq!(ms.reveal_cell(r, c), Ok(RevealResult::MineCount(expected)));
    }
}

#[test]
fn count_in_the_middle_of_a_full_ring() {
    let mut ms = Minesweeper::new(3, 3, 8).unwrap();
    let idx = ms.cells().iter().position(|c| c.value == CellValue::Empty).unwrap();
    if idx == 4 {
        assert_eq!(ms.reveal_cell(1, 1), Ok(RevealResult::MineCount(8)));
    } else {
        assert_eq!(ms.reveal_cell(1, 1), Ok(RevealResult::Mine));
    }
}

#[test]
fn flag_toggles_back_and_forth() {
    let mut ms = Minesweeper::new(4, 4, 3).unwrap();
    assert_eq!(state_at(&ms, 2, 3), CellState::Closed);
    ms.toggle_flag(2, 3).unwrap();
    assert_eq!(state_at(&ms, 2, 3), CellState::Flagged);
    ms.toggle_flag(2, 3).unwrap();
    assert_eq!(state_at(&ms, 2, 3), CellState::Closed);
}

#[test]
fn flag_leaves_revealed_cell() {
    let mut ms = Minesweeper::new(4, 4, 3).unwrap();
    ms.reveal_cell(1, 2).unwrap();
    let before = ms.cells();
    ms.toggle_flag(1, 2).unwrap();
    assert_eq!(state_at(&ms, 1, 2), CellState::Revealed);
    assert_eq!(ms.cells(), before);
}

#[test]
fn reveal_overrides_flag() {
    let mut ms = Minesweeper::new(4, 4, 0).unwrap();
    ms.toggle_flag(0, 0).unwrap();
    assert_eq!(ms.reveal_cell(0, 0), Ok(RevealResult::MineCount(0)));
    assert_eq!(state_at(&ms, 0, 0), CellState::Revealed);
}

#[test]
fn reveal_twice_is_stable() {
    let mut ms = Minesweeper::new(8, 8, 10).unwrap();
    let idx = ms.cells().iter().position(|c| c.value == CellValue::Empty).unwrap();
    let (r, c) = (idx / 8, idx % 8);
    let first = ms.reveal_cell(r, c).unwrap();
    assert_eq!(state_at(&ms, r, c), CellState::Revealed);
    let snapshot = ms.cells();
    let second = ms.reveal_cell(r, c).unwrap();
    assert_eq!(state_at(&ms, r, c), CellState::Revealed);
    assert_eq!(first, second);
    assert_eq!(ms.cells(), snapshot);
    assert!(matches!(first, RevealResult::MineCount(_)));
}

#[test]
fn too_many_mines_is_refused() {
    assert_eq!(Minesweeper::new(2, 2, 5).unwrap_err(), BoardError::TooManyMines);
    assert_eq!(Minesweeper::new(2, 2, 9).unwrap_err(), BoardError::TooManyMines);
}

#[test]
fn zero_dimension_is_refused() {
    assert_eq!(Minesweeper::new(0, 4, 0).unwrap_err(), BoardError::InvalidDimensions);
    assert_eq!(Minesweeper::new(4, 0, 0).unwrap_err(), BoardError::InvalidDimensions);
    assert_eq!(Minesweeper::new(0, 0, 3).unwrap_err(), BoardError::InvalidDimensions);
}

#[test]
fn out_of_range_is_refused() {
    let mut ms = Minesweeper::new(3, 2, 1).unwrap();
    let before = ms.cells();
    assert_eq!(ms.reveal_cell(2, 0), Err(BoardError::OutOfBounds));
    assert_eq!(ms.reveal_cell(0, 3), Err(BoardError::OutOfBounds));
    assert_eq!(ms.toggle_flag(2, 0), Err(BoardError::OutOfBounds));
    assert_eq!(ms.toggle_flag(0, 3), Err(BoardError::OutOfBounds));
    assert_eq!(ms.cells(), before);
}

#[test]
fn render_of_closed_flagged_and_revealed() {
    let mut ms = Minesweeper::new(3, 2, 0).unwrap();
    assert_eq!(ms.render(), " #  #  # \n #  #  # \n");
    ms.toggle_flag(0, 1).unwrap();
    ms.reveal_cell(1, 2).unwrap();
    assert_eq!(ms.render(), " #  F  # \n #  #  0 \n");
}

#[test]
fn render_of_revealed_mines() {
    let mut ms = Minesweeper::new(2, 1, 2).unwrap();
    ms.reveal_cell(0, 0).unwrap();
    assert_eq!(ms.render(), " *  # \n");
}

#[test]
fn render_shows_counts() {
    let mut ms = Minesweeper::new(3, 3, 8).unwrap();
    let idx = ms.cells().iter().position(|c| c.value == CellValue::Empty).unwrap();
    let (r, c) = (idx / 3, idx % 3);
    let n = ms.neighbors(r, c).len();
    ms.reveal_cell(r, c).unwrap();
    let text = ms.render();
    let line = text.lines().nth(r).unwrap();
    assert_eq!(line.len(), 9);
    assert_eq!(&line[3 * c..3 * c + 3], format!(" {} ", n));
}

#[test]
fn same_seed_same_layout() {
    let mut a = StdRng::seed_from_u64(17);
    let mut b = StdRng::seed_from_u64(17);
    let x = Minesweeper::with_rng(9, 9, 10, &mut a).unwrap();
    let y = Minesweeper::with_rng(9, 9, 10, &mut b).unwrap();
    assert_eq!(x.cells(), y.cells());
    assert_eq!(mines(&x.cells()), 10);
}

#[test]
fn seeded_boards_differ_between_draws() {
    let mut rng = StdRng::seed_from_u64(3);
    let layouts: Vec<Vec<Cell>> = (0..8)
        .map(|_| Minesweeper::with_rng(10, 10, 10, &mut rng).unwrap().cells())
        .collect();
    assert!(layouts.iter().any(|l| l != &layouts[0]));
    for l in &layouts {
        assert_eq!(mines(l), 10);
    }
}

#[test]
fn shown_cells_hide_closed_mines() {
    let mut ms = Minesweeper::new(2, 1, 2).unwrap();
    assert_eq!(ms.shown_cells(), vec![ShownCell::Closed, ShownCell::Closed]);
    ms.reveal_cell(0, 0).unwrap();
    ms.toggle_flag(0, 1).unwrap();
    assert_eq!(ms.shown_cells(), vec![ShownCell::Mine, ShownCell::Flagged]);
}

#[test]
fn shown_cells_give_counts() {
    let mut ms = Minesweeper::new(3, 2, 0).unwrap();
    ms.toggle_flag(0, 1).unwrap();
    ms.reveal_cell(1, 2).unwrap();
    assert_eq!(
        ms.shown_cells(),
        vec![
            ShownCell::Closed,
            ShownCell::Flagged,
            ShownCell::Closed,
            ShownCell::Closed,
            ShownCell::Closed,
            ShownCell::MineCount(0),
        ]
    );
    let mut ring = Minesweeper::new(3, 3, 8).unwrap();
    let idx = ring.cells().iter().position(|c| c.value == CellValue::Empty).unwrap();
    let (r, c) = (idx / 3, idx % 3);
    let n = ring.neighbors(r, c).len() as u8;
    ring.reveal_cell(r, c).unwrap();
    assert_eq!(ring.shown_cells()[idx], ShownCell::MineCount(n));
}
