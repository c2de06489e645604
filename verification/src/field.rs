use vstd::prelude::*;
use crate::piece::Piece;
use crate::text::{decimal, push_decimal, push_text};

verus! {

/// Number of rows of the grid. Row 0 is the top row, row `HEIGHT - 1` the bottom row.
pub const HEIGHT: usize = 6;

/// Number of columns of the grid.
pub const WIDTH: usize = 7;

/// The mathematical model of a grid: a sequence of rows, top row first,
/// each row a sequence of cells, leftmost column first.
pub type Grid = Seq<Seq<Option<Piece>>>;

/// Why a piece could not be dropped. Each variant carries the column that was asked for.
#[derive(Copy, Clone, PartialEq, Eq, Debug, Structural)]
pub enum Error {
    /// The column lies outside `0..WIDTH`.
    InvalidColumn(usize),
    /// The column has no empty cell left.
    ColumnFull(usize),
}

/// The text that tells a player why the piece could not be dropped.
pub open spec fn message_text(e: Error) -> Seq<char> {
    match e {
        Error::InvalidColumn(c) => "Invalid column '"@ + decimal(c as nat) + "'"@,
        Error::ColumnFull(c) => "Column '"@ + decimal(c as nat) + "' is already full"@,
    }
}

impl Error {
    /// The text that tells a player why the piece could not be dropped.
    pub fn message(&self) -> (s: String)
        ensures
            s@ == message_text(*self),
    {
        let mut s = String::new();
        match self {
            Error::InvalidColumn(c) => {
                push_text(&mut s, "Invalid column '");
                push_decimal(&mut s, *c);
                push_text(&mut s, "'");
            },
            Error::ColumnFull(c) => {
                push_text(&mut s, "Column '");
                push_decimal(&mut s, *c);
                push_text(&mut s, "' is already full");
            },
        }
        assert(s@ =~= message_text(*self));
        s
    }
}

/// The grid has `HEIGHT` rows of `WIDTH` cells each.
pub open spec fn well_shaped(grid: Grid) -> bool {
    &&& grid.len() == HEIGHT
    &&& forall|y: int| 0 <= y < HEIGHT ==> (#[trigger] grid[y]).len() == WIDTH
}

/// What the grid holds at column `x`, row `y`. Every position outside the grid is empty.
pub open spec fn cell(grid: Grid, x: int, y: int) -> Option<Piece> {
    if 0 <= x < WIDTH && 0 <= y < HEIGHT {
        grid[y][x]
    } else {
        None
    }
}

/// Gravity: no column has an empty cell anywhere beneath an occupied one.
pub open spec fn grounded(grid: Grid) -> bool {
    forall|x: int, y: int, below: int|
        0 <= x < WIDTH && 0 <= y < below < HEIGHT && (#[trigger] cell(grid, x, y)) is Some
            ==> (#[trigger] cell(grid, x, below)) is Some
}

/// Every cell of column `x` is occupied.
pub open spec fn column_full(grid: Grid, x: int) -> bool {
    forall|y: int| 0 <= y < HEIGHT ==> (#[trigger] cell(grid, x, y)) is Some
}

/// Every cell of the grid is occupied.
pub open spec fn grid_full(grid: Grid) -> bool {
    forall|x: int, y: int| 0 <= x < WIDTH && 0 <= y < HEIGHT ==> (#[trigger] cell(grid, x, y)) is Some
}

/// `row` is the lowest empty cell of column `x`: the cell where a dropped piece comes to rest.
pub open spec fn lands_at(grid: Grid, x: int, row: int) -> bool {
    &&& 0 <= x < WIDTH
    &&& 0 <= row < HEIGHT
    &&& cell(grid, x, row) is None
    &&& forall|y: int| row < y < HEIGHT ==> (#[trigger] cell(grid, x, y)) is Some
}

/// The grid with `piece` at column `x`, row `row`, and every other cell as before.
pub open spec fn with_piece(grid: Grid, x: int, row: int, piece: Piece) -> Grid {
    grid.update(row, grid[row].update(x, Some(piece)))
}

/// The grid after `piece` was dropped into column `x`: the piece rests on
/// the lowest empty cell of the column. Where the column has none, or `x` is
/// no column, the grid is as before.
pub open spec fn dropped(grid: Grid, x: int, piece: Piece) -> Grid {
    if exists|row: int| lands_at(grid, x, row) {
        with_piece(grid, x, choose|row: int| lands_at(grid, x, row), piece)
    } else {
        grid
    }
}

/// The grid in which every cell is empty.
pub open spec fn empty_grid() -> Grid {
    Seq::new(HEIGHT as nat, |y: int| Seq::new(WIDTH as nat, |x: int| None::<Piece>))
}

/// The grid that is reached from `start` by the given drops, each a column
/// and a piece, the first drop first.
pub open spec fn after_drops(start: Grid, drops: Seq<(int, Piece)>) -> Grid
    decreases drops.len(),
{
    if drops.len() == 0 {
        start
    } else {
        dropped(after_drops(start, drops.drop_last()), drops.last().0, drops.last().1)
    }
}

/// A column has at most one lowest empty cell.
pub proof fn lemma_landing_row_unique(grid: Grid, x: int, r1: int, r2: int)
    requires
        lands_at(grid, x, r1),
        lands_at(grid, x, r2),
    ensures
        r1 == r2,
{
    if r1 < r2 {
        assert(cell(grid, x, r2) is Some);
    }
    if r2 < r1 {
        assert(cell(grid, x, r1) is Some);
    }
}

/// Dropping a piece onto the lowest empty cell of a column keeps every column free of gaps.
pub proof fn lemma_drop_keeps_grounded(grid: Grid, x: int, row: int, piece: Piece)
    requires
        well_shaped(grid),
        grounded(grid),
        lands_at(grid, x, row),
    ensures
        well_shaped(with_piece(grid, x, row, piece)),
        grounded(with_piece(grid, x, row, piece)),
        forall|a: int, b: int| #[trigger]
            cell(with_piece(grid, x, row, piece), a, b) == if a == x && b == row {
                Some(piece)
            } else {
                cell(grid, a, b)
            },
{
    let after = with_piece(grid, x, row, piece);
    assert forall|a: int, b: int| #[trigger]
        cell(after, a, b) == if a == x && b == row {
            Some(piece)
        } else {
            cell(grid, a, b)
        } by {}
    assert forall|a: int, y: int, below: int|
        0 <= a < WIDTH && 0 <= y < below < HEIGHT && (#[trigger] cell(after, a, y)) is Some
            implies (#[trigger] cell(after, a, below)) is Some by {
        if a == x && y != row {
            assert(cell(grid, x, y) is Some);
            if below != row {
                assert(cell(grid, x, below) is Some);
            } else {
                assert(cell(grid, x, row) is Some);
            }
        } else if a != x {
            assert(cell(grid, a, y) is Some);
            assert(cell(grid, a, below) is Some);
        }
    }
}

/// Gravity holds after every sequence of drops: whatever is dropped onto a
/// grid without gaps, and wherever, no column has an empty cell beneath an
/// occupied one.
pub proof fn lemma_drops_keep_grounded(start: Grid, drops: Seq<(int, Piece)>)
    requires
        well_shaped(start),
        grounded(start),
    ensures
        well_shaped(after_drops(start, drops)),
        grounded(after_drops(start, drops)),
    decreases drops.len(),
{
    if drops.len() > 0 {
        let before = after_drops(start, drops.drop_last());
        let x = drops.last().0;
        lemma_drops_keep_grounded(start, drops.drop_last());
        if exists|row: int| lands_at(before, x, row) {
            let row = choose|row: int| lands_at(before, x, row);
            lemma_drop_keeps_grounded(before, x, row, drops.last().1);
        }
    }
}

/// The empty grid has its shape and, trivially, no gaps.
pub proof fn lemma_empty_grid_grounded()
    ensures
        well_shaped(empty_grid()),
        grounded(empty_grid()),
        forall|x: int, y: int| #[trigger] cell(empty_grid(), x, y) is None,
{
}

proof fn lemma_lowest_empty_from(grid: Grid, x: int, y: int)
    requires
        0 <= x < WIDTH,
        -1 <= y < HEIGHT,
        forall|b: int| y < b < HEIGHT ==> (#[trigger] cell(grid, x, b)) is Some,
        !column_full(grid, x),
    ensures
        exists|row: int| lands_at(grid, x, row),
    decreases y + 1,
{
    if y >= 0 {
        if cell(grid, x, y) is None {
            assert(lands_at(grid, x, y));
        } else {
            lemma_lowest_empty_from(grid, x, y - 1);
        }
    }
}

/// A piece comes to rest in a column of the grid exactly when the column is not full.
pub proof fn lemma_lands_unless_full(grid: Grid, x: int)
    requires
        0 <= x < WIDTH,
    ensures
        column_full(grid, x) <==> !exists|row: int| lands_at(grid, x, row),
{
    if column_full(grid, x) {
        assert forall|row: int| !lands_at(grid, x, row) by {
            if 0 <= row < HEIGHT {
                assert(cell(grid, x, row) is Some);
            }
        }
    } else {
        lemma_lowest_empty_from(grid, x, HEIGHT - 1);
    }
}

proof fn lemma_column_rises(start: Grid, x: int, drops: Seq<(int, Piece)>)
    requires
        well_shaped(start),
        grounded(start),
        0 <= x < WIDTH,
        forall|i: int| 0 <= i < drops.len() ==> (#[trigger] drops[i]).0 == x,
    ensures
        forall|y: int|
            0 <= y && HEIGHT - drops.len() <= y < HEIGHT ==> (#[trigger] cell(
                after_drops(start, drops),
                x,
                y,
            )) is Some,
    decreases drops.len(),
{
    if drops.len() > 0 {
        let earlier = drops.drop_last();
        let before = after_drops(start, earlier);
        let piece = drops.last().1;
        assert(drops.last().0 == x);
        lemma_column_rises(start, x, earlier);
        lemma_drops_keep_grounded(start, earlier);
        if exists|row: int| lands_at(before, x, row) {
            let row = choose|row: int| lands_at(before, x, row);
            lemma_drop_keeps_grounded(before, x, row, piece);
            let after = with_piece(before, x, row, piece);
            assert forall|y: int|
                0 <= y && HEIGHT - drops.len() <= y < HEIGHT implies (#[trigger] cell(
                after,
                x,
                y,
            )) is Some by {
                if y != row {
                    if y > row {
                        assert(cell(before, x, y) is Some);
                    } else {
                        assert(cell(before, x, y + 1) is Some);
                    }
                }
            }
        } else {
            lemma_lands_unless_full(before, x);
            assert forall|y: int|
                0 <= y && HEIGHT - drops.len() <= y < HEIGHT implies (#[trigger] cell(
                before,
                x,
                y,
            )) is Some by {}
        }
    }
}

/// A column into which `HEIGHT` pieces or more were dropped is full, and a
/// further drop into it leaves the grid as it is.
pub proof fn lemma_column_fills(start: Grid, x: int, drops: Seq<(int, Piece)>, piece: Piece)
    requires
        well_shaped(start),
        grounded(start),
        0 <= x < WIDTH,
        drops.len() >= HEIGHT,
        forall|i: int| 0 <= i < drops.len() ==> (#[trigger] drops[i]).0 == x,
    ensures
        column_full(after_drops(start, drops), x),
        dropped(after_drops(start, drops), x, piece) == after_drops(start, drops),
{
    lemma_column_rises(start, x, drops);
    lemma_lands_unless_full(after_drops(start, drops), x);
}

/// The playing grid: `HEIGHT` rows of `WIDTH` cells, each empty or holding one piece.
pub struct Field {
    cells: [[Option<Piece>; WIDTH]; HEIGHT],
}

impl View for Field {
    type V = Grid;

    closed spec fn view(&self) -> Grid {
        Seq::new(HEIGHT as nat, |y: int| self.cells[y]@)
    }
}

impl Field {
    /// What the grid holds at column `x`, row `y`; empty outside the grid.
    pub open spec fn at(&self, x: int, y: int) -> Option<Piece> {
        cell(self@, x, y)
    }

    /// The grid has its fixed shape and obeys gravity.
    pub open spec fn wf(&self) -> bool {
        &&& well_shaped(self@)
        &&& grounded(self@)
    }

    /// An empty grid.
    pub fn new() -> (f: Field)
        ensures
            f.wf(),
            f@ == empty_grid(),
            forall|x: int, y: int| #[trigger] cell(f@, x, y) is None,
    {
        let f = Field { cells: [[None; WIDTH]; HEIGHT] };
        assert(f@ =~~= empty_grid());
        f
    }

    /// Drops `piece` into column `x`, where it comes to rest on the lowest empty cell.
    ///
    /// Fails, and leaves the grid as it was, when `x` is no column of the grid
    /// or when the column has no empty cell.
    pub fn insert(&mut self, x: usize, piece: Piece) -> (r: Result<(), Error>)
        requires
            old(self).wf(),
        ensures
            final(self).wf(),
            final(self)@ == dropped(old(self)@, x as int, piece),
            r is Ok <==> x < WIDTH && !column_full(old(self)@, x as int),
            x >= WIDTH <==> r == Err::<(), Error>(Error::InvalidColumn(x)),
            x < WIDTH && column_full(old(self)@, x as int) <==> r == Err::<(), Error>(
                Error::ColumnFull(x),
            ),
            r is Ok ==> exists|row: int|
                lands_at(old(self)@, x as int, row) && final(self)@ == #[trigger] with_piece(
                    old(self)@,
                    x as int,
                    row,
                    piece,
                ),
            r is Err ==> *final(self) == *old(self),
    {
        if x >= WIDTH {
            return Err(Error::InvalidColumn(x));
        }
        let ghost before = self@;
        let mut row: usize = HEIGHT;
        while row > 0
            invariant
                x < WIDTH,
                row <= HEIGHT,
                *self == *old(self),
                before == self@,
                well_shaped(before),
                grounded(before),
                forall|y: int| row <= y < HEIGHT ==> (#[trigger] cell(before, x as int, y)) is Some,
            decreases row,
        {
            row = row - 1;
            if self.cells[row][x].is_none() {
                self.cells[row][x] = Some(piece);
                proof {
                    assert(lands_at(before, x as int, row as int));
                    assert(self@ =~~= with_piece(before, x as int, row as int, piece));
                    lemma_drop_keeps_grounded(before, x as int, row as int, piece);
                    let landed = choose|landed: int| lands_at(before, x as int, landed);
                    lemma_landing_row_unique(before, x as int, row as int, landed);
                }
                return Ok(());
            }
        }
        assert(column_full(before, x as int));
        assert forall|landed: int| !lands_at(before, x as int, landed) by {
            if 0 <= landed < HEIGHT {
                assert(cell(before, x as int, landed) is Some);
            }
        }
        Err(Error::ColumnFull(x))
    }

    /// Whether no cell of the grid is empty. The answer depends on the grid
    /// alone: asked again of the same grid, it is the same.
    pub fn is_full(&self) -> (full: bool)
        ensures
            full == grid_full(self@),
    {
        let mut y: usize = 0;
        while y < HEIGHT
            invariant
                y <= HEIGHT,
                forall|a: int, b: int|
                    0 <= a < WIDTH && 0 <= b < y ==> (#[trigger] cell(self@, a, b)) is Some,
            decreases HEIGHT - y,
        {
            let mut x: usize = 0;
            while x < WIDTH
                invariant
                    y < HEIGHT,
                    x <= WIDTH,
                    forall|a: int, b: int|
                        0 <= a < WIDTH && 0 <= b < y ==> (#[trigger] cell(self@, a, b)) is Some,
                    forall|a: int| 0 <= a < x ==> (#[trigger] cell(self@, a, y as int)) is Some,
                decreases WIDTH - x,
            {
                if self.cells[y][x].is_none() {
                    assert(cell(self@, x as int, y as int) is None);
                    return false;
                }
                x = x + 1;
            }
            y = y + 1;
        }
        true
    }

    /// The cell at column `x`, row `y`. A position outside the grid, on any side, is empty.
    pub fn get(&self, x: isize, y: isize) -> (c: Option<Piece>)
        ensures
            c == self.at(x as int, y as int),
    {
        if x < 0 || y < 0 {
            return None;
        }
        let x = x as usize;
        let y = y as usize;
        if x >= WIDTH || y >= HEIGHT {
            return None;
        }
        self.cells[y][x]
    }
}

} // verus!
