use vstd::prelude::*;
use crate::piece::Piece;
use crate::field::{cell, Field, Grid, HEIGHT, WIDTH};
use crate::text::{decimal, push_decimal};

verus! {

/// Vertical line between two cells of a row.
pub const BAR: char = '\u{2502}';

/// Horizontal line beneath a cell.
pub const DASH: char = '\u{2500}';

/// Left end of the rule between two rows.
pub const TEE_LEFT: char = '\u{251c}';

/// Joint of the rule between two rows.
pub const CROSS: char = '\u{253c}';

/// Right end of the rule between two rows.
pub const TEE_RIGHT: char = '\u{2524}';

/// Left end of the rule beneath the bottom row.
pub const CORNER_LEFT: char = '\u{2514}';

/// Joint of the rule beneath the bottom row.
pub const TEE_UP: char = '\u{2534}';

/// Right end of the rule beneath the bottom row.
pub const CORNER_RIGHT: char = '\u{2518}';

/// How a cell is drawn: the piece's character, or a blank for an empty cell.
pub open spec fn cell_glyph(c: Option<Piece>) -> char {
    match c {
        Some(p) => p.glyph(),
        None => ' ',
    }
}

/// A blank and the column's number, for each of the first `n` columns.
pub open spec fn index_cells(n: nat) -> Seq<char>
    decreases n,
{
    if n == 0 {
        Seq::empty()
    } else {
        index_cells((n - 1) as nat).push(' ') + decimal((n - 1) as nat)
    }
}

/// The line of column numbers that stands above and beneath the picture.
pub open spec fn index_line() -> Seq<char> {
    index_cells(WIDTH as nat).push('\n')
}

/// A joint and a dash, `n` times.
pub open spec fn rule_cells(joint: char, n: nat) -> Seq<char>
    decreases n,
{
    if n == 0 {
        Seq::empty()
    } else {
        rule_cells(joint, (n - 1) as nat) + seq![joint, DASH]
    }
}

/// A horizontal rule as wide as the grid: a dash beneath each column, a
/// joint between two columns, and the two ends.
pub open spec fn rule_line(left: char, joint: char, right: char) -> Seq<char> {
    seq![left, DASH] + rule_cells(joint, (WIDTH - 1) as nat) + seq![right, '\n']
}

/// A bar and the cell's character, for each of the first `n` cells of row `y`.
pub open spec fn row_cells(grid: Grid, y: int, n: nat) -> Seq<char>
    decreases n,
{
    if n == 0 {
        Seq::empty()
    } else {
        row_cells(grid, y, (n - 1) as nat) + seq![BAR, cell_glyph(cell(grid, n - 1, y))]
    }
}

/// The line that shows row `y`.
pub open spec fn row_line(grid: Grid, y: int) -> Seq<char> {
    row_cells(grid, y, WIDTH as nat) + seq![BAR, '\n']
}

/// The lines of the first `n` rows, with a rule between each two of them.
pub open spec fn rows_text(grid: Grid, n: nat) -> Seq<char>
    decreases n,
{
    if n == 0 {
        Seq::empty()
    } else if n == 1 {
        row_line(grid, 0)
    } else {
        rows_text(grid, (n - 1) as nat) + rule_line(TEE_LEFT, CROSS, TEE_RIGHT) + row_line(
            grid,
            n - 1,
        )
    }
}

/// The picture of a grid: the column numbers, the rows from top to bottom
/// with a rule between them, the closing rule, and the column numbers again.
pub open spec fn picture(grid: Grid) -> Seq<char> {
    index_line() + rows_text(grid, HEIGHT as nat) + rule_line(CORNER_LEFT, TEE_UP, CORNER_RIGHT)
        + index_line()
}

fn push_index_line(out: &mut String)
    ensures
        final(out)@ == old(out)@ + index_line(),
{
    let ghost before = out@;
    let mut pos: usize = 0;
    while pos < WIDTH
        invariant
            pos <= WIDTH,
            out@ == before + index_cells(pos as nat),
        decreases WIDTH - pos,
    {
        out.push(' ');
        push_decimal(out, pos);
        pos = pos + 1;
        assert(out@ =~= before + index_cells(pos as nat));
    }
    out.push('\n');
    assert(out@ =~= before + index_line());
}

fn push_rule_line(out: &mut String, left: char, joint: char, right: char)
    ensures
        final(out)@ == old(out)@ + rule_line(left, joint, right),
{
    let ghost before = out@;
    out.push(left);
    out.push(DASH);
    let mut pos: usize = 1;
    while pos < WIDTH
        invariant
            1 <= pos <= WIDTH,
            out@ == before + seq![left, DASH] + rule_cells(joint, (pos - 1) as nat),
        decreases WIDTH - pos,
    {
        out.push(joint);
        out.push(DASH);
        pos = pos + 1;
        assert(out@ =~= before + seq![left, DASH] + rule_cells(joint, (pos - 1) as nat));
    }
    out.push(right);
    out.push('\n');
    assert(out@ =~= before + rule_line(left, joint, right));
}

fn push_row_line(out: &mut String, field: &Field, y: usize)
    requires
        y < HEIGHT,
    ensures
        final(out)@ == old(out)@ + row_line(field@, y as int),
{
    let ghost before = out@;
    let mut x: usize = 0;
    while x < WIDTH
        invariant
            y < HEIGHT,
            x <= WIDTH,
            out@ == before + row_cells(field@, y as int, x as nat),
        decreases WIDTH - x,
    {
        out.push(BAR);
        let glyph = match field.get(x as isize, y as isize) {
            Some(p) => p.char(),
            None => ' ',
        };
        out.push(glyph);
        x = x + 1;
        assert(out@ =~= before + row_cells(field@, y as int, x as nat));
    }
    out.push(BAR);
    out.push('\n');
    assert(out@ =~= before + row_line(field@, y as int));
}

impl Field {
    /// The picture of the grid as text.
    pub fn render(&self) -> (text: String)
        ensures
            text@ == picture(self@),
    {
        let mut out: String = String::new();
        push_index_line(&mut out);
        let mut y: usize = 0;
        while y < HEIGHT
            invariant
                y <= HEIGHT,
                out@ == index_line() + rows_text(self@, y as nat),
            decreases HEIGHT - y,
        {
            if y > 0 {
                push_rule_line(&mut out, TEE_LEFT, CROSS, TEE_RIGHT);
            }
            push_row_line(&mut out, self, y);
            y = y + 1;
            assert(out@ =~= index_line() + rows_text(self@, y as nat));
        }
        push_rule_line(&mut out, CORNER_LEFT, TEE_UP, CORNER_RIGHT);
        push_index_line(&mut out);
        assert(out@ =~= picture(self@));
        out
    }
}

} // verus!
