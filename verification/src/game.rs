use vstd::prelude::*;
use std::ops::Not;
use crate::piece::Piece;
use crate::field::{
    cell, column_full, dropped, empty_grid, grid_full, grounded, lands_at, lemma_drop_keeps_grounded, well_shaped,
    with_piece, Error, Field, Grid, HEIGHT, WIDTH,
};

verus! {

/// Length of the straight line of equal pieces that wins the game.
pub const REQUIRED_PIECES_TO_WIN: usize = 4;

/// Where a game stands.
#[derive(Copy, Clone, PartialEq, Eq, Debug, Structural)]
pub enum Status {
    /// The game goes on: the current player moves next.
    InProgress,
    /// The player has a winning line. The game is over.
    Won(Piece),
    /// The grid is full and the last move did not win. The game is over.
    Draw,
}

/// The cell `n` steps from `(x, y)` in direction `(dx, dy)`.
pub open spec fn nth_of_line(grid: Grid, x: int, y: int, dx: int, dy: int, n: int) -> Option<
    Piece,
> {
    cell(grid, x + n * dx, y + n * dy)
}

/// The `REQUIRED_PIECES_TO_WIN` cells that start at `(x, y)` and go on in
/// direction `(dx, dy)` all hold `player`.
pub open spec fn run_from(grid: Grid, player: Piece, x: int, y: int, dx: int, dy: int) -> bool {
    forall|n: int|
        0 <= n < REQUIRED_PIECES_TO_WIN ==> #[trigger] nth_of_line(grid, x, y, dx, dy, n) == Some(
            player,
        )
}

/// A winning line of `player` starts at `(x, y)`: downwards, to the right,
/// or along one of the two diagonals.
pub open spec fn run_at(grid: Grid, player: Piece, x: int, y: int) -> bool {
    ||| run_from(grid, player, x, y, 0, 1)
    ||| run_from(grid, player, x, y, 1, 1)
    ||| run_from(grid, player, x, y, 1, 0)
    ||| run_from(grid, player, x, y, 1, -1)
}

/// Somewhere in the grid `player` has a winning line.
pub open spec fn wins(grid: Grid, player: Piece) -> bool {
    exists|x: int, y: int| 0 <= x < WIDTH && 0 <= y < HEIGHT && #[trigger] run_at(grid, player, x, y)
}

/// The status of a game in which `player` has just moved, or is about to move.
pub open spec fn status_of(grid: Grid, player: Piece) -> Status {
    if wins(grid, player) {
        Status::Won(player)
    } else if grid_full(grid) {
        Status::Draw
    } else {
        Status::InProgress
    }
}

proof fn lemma_run_survives_removal(
    grid: Grid,
    x: int,
    row: int,
    piece: Piece,
    a: int,
    b: int,
    dx: int,
    dy: int,
)
    requires
        well_shaped(grid),
        grounded(grid),
        lands_at(grid, x, row),
        run_from(with_piece(grid, x, row, piece), piece.other(), a, b, dx, dy),
    ensures
        run_from(grid, piece.other(), a, b, dx, dy),
{
    let after = with_piece(grid, x, row, piece);
    lemma_drop_keeps_grounded(grid, x, row, piece);
    assert forall|n: int| 0 <= n < REQUIRED_PIECES_TO_WIN implies #[trigger] nth_of_line(
        grid,
        a,
        b,
        dx,
        dy,
        n,
    ) == Some(piece.other()) by {
        assert(nth_of_line(after, a, b, dx, dy, n) == Some(piece.other()));
    }
}

/// A piece that is dropped makes no winning line for the opponent.
pub proof fn lemma_drop_gives_opponent_no_line(grid: Grid, x: int, row: int, piece: Piece)
    requires
        well_shaped(grid),
        grounded(grid),
        lands_at(grid, x, row),
        !wins(grid, piece.other()),
    ensures
        !wins(with_piece(grid, x, row, piece), piece.other()),
{
    let after = with_piece(grid, x, row, piece);
    let other = piece.other();
    if wins(after, other) {
        let (a, b) = choose|a: int, b: int|
            0 <= a < WIDTH && 0 <= b < HEIGHT && #[trigger] run_at(after, other, a, b);
        if run_from(after, other, a, b, 0, 1) {
            lemma_run_survives_removal(grid, x, row, piece, a, b, 0, 1);
        } else if run_from(after, other, a, b, 1, 1) {
            lemma_run_survives_removal(grid, x, row, piece, a, b, 1, 1);
        } else if run_from(after, other, a, b, 1, 0) {
            lemma_run_survives_removal(grid, x, row, piece, a, b, 1, 0);
        } else {
            lemma_run_survives_removal(grid, x, row, piece, a, b, 1, -1);
        }
        assert(run_at(grid, other, a, b));
    }
}

/// The mathematical model of a game: the grid and the player whose turn it is.
pub struct GameView {
    pub grid: Grid,
    pub current_player: Piece,
}

/// A game of two players who drop pieces in turn until one has a winning
/// line or the grid is full.
pub struct Game {
    field: Field,
    current_player: Piece,
}

impl View for Game {
    type V = GameView;

    closed spec fn view(&self) -> GameView {
        GameView { grid: self.field@, current_player: self.current_player }
    }
}

impl Game {
    /// The grid is well formed, and the player whose turn it is not has no winning line.
    pub open spec fn wf(&self) -> bool {
        &&& well_shaped(self@.grid)
        &&& grounded(self@.grid)
        &&& !wins(self@.grid, self@.current_player.other())
    }

    /// The status, as a function of the grid and the current player.
    pub open spec fn spec_status(&self) -> Status {
        status_of(self@.grid, self@.current_player)
    }

    /// A new game: the grid is empty and `Piece::X` moves first.
    pub fn new() -> (g: Game)
        ensures
            g.wf(),
            g@.current_player == Piece::X,
            g@.grid == empty_grid(),
            forall|x: int, y: int| #[trigger] cell(g@.grid, x, y) is None,
            g.spec_status() == Status::InProgress,
    {
        let g = Game { field: Field::new(), current_player: Piece::X };
        proof {
            assert forall|p: Piece| !wins(g@.grid, p) by {
                assert forall|x: int, y: int| !#[trigger] run_at(g@.grid, p, x, y) by {
                    assert(nth_of_line(g@.grid, x, y, 0, 1, 0) is None);
                    assert(nth_of_line(g@.grid, x, y, 1, 1, 0) is None);
                    assert(nth_of_line(g@.grid, x, y, 1, 0, 0) is None);
                    assert(nth_of_line(g@.grid, x, y, 1, -1, 0) is None);
                }
            }
            assert(cell(g@.grid, 0, 0) is None);
            assert(!grid_full(g@.grid));
        }
        g
    }

    /// The grid.
    pub fn field(&self) -> (f: &Field)
        ensures
            f@ == self@.grid,
    {
        &self.field
    }

    /// The player whose turn it is, or who made the last move of a game that is over.
    pub fn current_player(&self) -> (p: Piece)
        ensures
            p == self@.current_player,
    {
        self.current_player
    }

    /// The cell at column `x`, row `y`. A position outside the grid, on any side, is empty.
    pub fn get_piece(&self, x: isize, y: isize) -> (c: Option<Piece>)
        ensures
            c == cell(self@.grid, x as int, y as int),
    {
        self.field.get(x, y)
    }

    fn has_run(&self, player: Piece, x: isize, y: isize, xd: isize, yd: isize) -> (r: bool)
        requires
            0 <= x <= WIDTH,
            0 <= y <= WIDTH,
            -1 <= xd <= 1,
            -1 <= yd <= 1,
        ensures
            r == run_from(self@.grid, player, x as int, y as int, xd as int, yd as int),
    {
        let mut n: isize = 0;
        while n < REQUIRED_PIECES_TO_WIN as isize
            invariant
                0 <= n <= REQUIRED_PIECES_TO_WIN,
                0 <= x <= WIDTH,
                0 <= y <= WIDTH,
                -1 <= xd <= 1,
                -1 <= yd <= 1,
                forall|m: int|
                    0 <= m < n ==> #[trigger] nth_of_line(
                        self@.grid,
                        x as int,
                        y as int,
                        xd as int,
                        yd as int,
                        m,
                    ) == Some(player),
            decreases REQUIRED_PIECES_TO_WIN - n,
        {
            assert(-3 <= n * xd <= 3 && -3 <= n * yd <= 3) by (nonlinear_arith)
                requires
                    0 <= n < 4,
                    -1 <= xd <= 1,
                    -1 <= yd <= 1,
            ;
            let px: isize = x + n * xd;
            let py: isize = y + n * yd;
            match self.get_piece(px, py) {
                Some(p) => {
                    if p != player {
                        assert(nth_of_line(
                            self@.grid,
                            x as int,
                            y as int,
                            xd as int,
                            yd as int,
                            n as int,
                        ) != Some(player));
                        return false;
                    }
                },
                None => {
                    assert(nth_of_line(
                        self@.grid,
                        x as int,
                        y as int,
                        xd as int,
                        yd as int,
                        n as int,
                    ) is None);
                    return false;
                },
            }
            n = n + 1;
        }
        true
    }

    /// Whether `player` has a winning line anywhere in the grid. The answer
    /// depends on the grid alone: asked again of the same grid, it is the same.
    ///
    /// Every position is tried as the start of a line in each of the four
    /// directions. The rows are walked as far as the grid is wide, which is
    /// one row beyond the bottom: no line starts there, since every cell
    /// outside the grid is empty.
    pub fn won(&self, player: Piece) -> (r: bool)
        ensures
            r == wins(self@.grid, player),
    {
        let mut x: isize = 0;
        while x < WIDTH as isize
            invariant
                0 <= x <= WIDTH,
                forall|a: int, b: int|
                    0 <= a < x && 0 <= b < HEIGHT ==> !#[trigger] run_at(self@.grid, player, a, b),
            decreases WIDTH - x,
        {
            let mut y: isize = 0;
            while y < WIDTH as isize
                invariant
                    0 <= x < WIDTH,
                    0 <= y <= WIDTH,
                    forall|a: int, b: int|
                        0 <= a < x && 0 <= b < HEIGHT ==> !#[trigger] run_at(
                            self@.grid,
                            player,
                            a,
                            b,
                        ),
                    forall|b: int|
                        0 <= b < y && b < HEIGHT ==> !#[trigger] run_at(
                            self@.grid,
                            player,
                            x as int,
                            b,
                        ),
                decreases WIDTH - y,
            {
                if self.has_run(player, x, y, 0, 1) || self.has_run(player, x, y, 1, 1)
                    || self.has_run(player, x, y, 1, 0) || self.has_run(player, x, y, 1, -1) {
                    proof {
                        let ghost g = self@.grid;
                        let (xi, yi) = (x as int, y as int);
                        assert(nth_of_line(g, xi, yi, 0, 1, 0) == cell(g, xi, yi));
                        assert(nth_of_line(g, xi, yi, 1, 1, 0) == cell(g, xi, yi));
                        assert(nth_of_line(g, xi, yi, 1, 0, 0) == cell(g, xi, yi));
                        assert(nth_of_line(g, xi, yi, 1, -1, 0) == cell(g, xi, yi));
                        assert(run_at(g, player, xi, yi) && yi < HEIGHT);
                    }
                    return true;
                }
                y = y + 1;
            }
            x = x + 1;
        }
        false
    }

    /// Where the game stands, as the grid and the current player show it.
    #[verifier::when_used_as_spec(spec_status)]
    pub fn status(&self) -> (s: Status)
        ensures
            s == self.spec_status(),
    {
        if self.won(self.current_player) {
            Status::Won(self.current_player)
        } else if self.field.is_full() {
            Status::Draw
        } else {
            Status::InProgress
        }
    }

    /// One turn of a game that is in progress: the current player drops a
    /// piece into `column`.
    ///
    /// Where the piece cannot be dropped, nothing changes and the same player
    /// is to choose again. Where it can, the result is the new status: the
    /// game is won by the player who moved, or drawn, or it goes on and the
    /// turn passes to the opponent.
    pub fn play(&mut self, column: usize) -> (r: Result<Status, Error>)
        requires
            old(self).wf(),
            old(self).spec_status() == Status::InProgress,
        ensures
            final(self).wf(),
            r is Ok <==> column < WIDTH && !column_full(old(self)@.grid, column as int),
            column >= WIDTH <==> r == Err::<Status, Error>(Error::InvalidColumn(column)),
            column < WIDTH && column_full(old(self)@.grid, column as int) <==> r == Err::<
                Status,
                Error,
            >(Error::ColumnFull(column)),
            r is Err ==> *final(self) == *old(self),
            final(self)@.grid == dropped(
                old(self)@.grid,
                column as int,
                old(self)@.current_player,
            ),
            r is Ok ==> exists|row: int|
                lands_at(old(self)@.grid, column as int, row) && final(self)@.grid
                    == #[trigger] with_piece(
                    old(self)@.grid,
                    column as int,
                    row,
                    old(self)@.current_player,
                ),
            r is Ok ==> r == Ok::<Status, Error>(
                status_of(final(self)@.grid, old(self)@.current_player),
            ),
            r is Ok ==> r == Ok::<Status, Error>(final(self).spec_status()),
            r is Ok ==> final(self)@.current_player == if r == Ok::<Status, Error>(
                Status::InProgress,
            ) {
                old(self)@.current_player.other()
            } else {
                old(self)@.current_player
            },
    {
        let player = self.current_player;
        match self.field.insert(column, player) {
            Err(e) => Err(e),
            Ok(()) => {
                proof {
                    let row = choose|row: int|
                        lands_at(old(self)@.grid, column as int, row) && self@.grid
                            == #[trigger] with_piece(old(self)@.grid, column as int, row, player);
                    lemma_drop_gives_opponent_no_line(old(self)@.grid, column as int, row, player);
                }
                if self.won(player) {
                    Ok(Status::Won(player))
                } else if self.field.is_full() {
                    Ok(Status::Draw)
                } else {
                    self.current_player = player.not();
                    Ok(Status::InProgress)
                }
            },
        }
    }
}

} // verus!
