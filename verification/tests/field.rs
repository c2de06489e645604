use connect_four::field::{Error, Field, HEIGHT, WIDTH};
use connect_four::piece::Piece;

fn cells(f: &Field) -> Vec<Vec<Option<Piece>>> {
    (0..HEIGHT as isize)
        .map(|y| (0..WIDTH as isize).map(|x| f.get(x, y)).collect())
        .collect()
}

fn no_gaps(f: &Field) -> bool {
    (0..WIDTH as isize).all(|x| {
        (0..HEIGHT as isize - 1).all(|y| f.get(x, y).is_none() || f.get(x, y + 1).is_some())
    })
}

#[test]
fn dimensions() {
    assert_eq!(HEIGHT, 6);
    assert_eq!(WIDTH, 7);
}

#[test]
fn new_field_is_empty() {
    let f = Field::new();
    for row in cells(&f) {
        assert_eq!(row.len(), 7);
        for c in row {
            assert_eq!(c, None);
        }
    }
    assert!(!f.is_full());
}

#[test]
fn first_piece_lands_on_the_bottom_row() {
    let mut f = Field::new();
    assert_eq!(f.insert(3, Piece::X), Ok(()));
    assert_eq!(f.get(3, 5), Some(Piece::X));
    let occupied: usize = cells(&f).iter().flatten().filter(|c| c.is_some()).count();
    assert_eq!(occupied, 1);
}

#[test]
fn pieces_stack_upwards() {
    let mut f = Field::new();
    assert_eq!(f.insert(2, Piece::X), Ok(()));
    assert_eq!(f.insert(2, Piece::O), Ok(()));
    assert_eq!(f.insert(2, Piece::O), Ok(()));
    assert_eq!(f.get(2, 5), Some(Piece::X));
    assert_eq!(f.get(2, 4), Some(Piece::O));
    assert_eq!(f.get(2, 3), Some(Piece::O));
    assert_eq!(f.get(2, 2), None);
    assert_eq!(f.get(1, 5), None);
    assert_eq!(f.get(3, 5), None);
}

#[test]
fn gravity_holds_after_every_insertion() {
    let columns = [3, 3, 0, 6, 3, 1, 1, 6, 6, 6, 2, 3, 3, 3, 3, 0, 5, 4, 4, 6, 6, 6];
    let mut f = Field::new();
    let mut piece = Piece::X;
    for &x in columns.iter() {
        let _ = f.insert(x, piece);
        assert!(no_gaps(&f));
        piece = !piece;
    }
}

#[test]
fn insert_rejects_column_out_of_range() {
    let mut f = Field::new();
    f.insert(1, Piece::O).unwrap();
    let before = cells(&f);
    assert_eq!(f.insert(WIDTH, Piece::X), Err(Error::InvalidColumn(7)));
    assert_eq!(cells(&f), before);
    assert_eq!(f.insert(usize::MAX, Piece::X), Err(Error::InvalidColumn(usize::MAX)));
    assert_eq!(cells(&f), before);
    assert_eq!(f.insert(100, Piece::O), Err(Error::InvalidColumn(100)));
    assert_eq!(cells(&f), before);
}

#[test]
fn insert_accepts_first_and_last_column() {
    let mut f = Field::new();
    assert_eq!(f.insert(0, Piece::X), Ok(()));
    assert_eq!(f.insert(WIDTH - 1, Piece::O), Ok(()));
    assert_eq!(f.get(0, 5), Some(Piece::X));
    assert_eq!(f.get(6, 5), Some(Piece::O));
}

#[test]
fn insert_rejects_full_column() {
    let mut f = Field::new();
    for i in 0..HEIGHT {
        let piece = if i % 2 == 0 { Piece::X } else { Piece::O };
        assert_eq!(f.insert(4, piece), Ok(()));
    }
    assert_eq!(f.get(4, 0), Some(Piece::O));
    assert_eq!(f.get(4, 5), Some(Piece::X));
    let before = cells(&f);
    assert_eq!(f.insert(4, Piece::X), Err(Error::ColumnFull(4)));
    assert_eq!(cells(&f), before);
    assert_eq!(f.insert(4, Piece::O), Err(Error::ColumnFull(4)));
    assert_eq!(cells(&f), before);
    assert_eq!(f.insert(5, Piece::O), Ok(()));
}

#[test]
fn get_outside_the_grid_is_empty() {
    let mut f = Field::new();
    for x in 0..WIDTH {
        for _ in 0..HEIGHT {
            f.insert(x, Piece::X).unwrap();
        }
    }
    assert_eq!(f.get(0, 0), Some(Piece::X));
    assert_eq!(f.get(6, 5), Some(Piece::X));
    assert_eq!(f.get(-1, 0), None);
    assert_eq!(f.get(0, -1), None);
    assert_eq!(f.get(7, 0), None);
    assert_eq!(f.get(0, 6), None);
    assert_eq!(f.get(6, 6), None);
    assert_eq!(f.get(isize::MIN, isize::MIN), None);
    assert_eq!(f.get(isize::MAX, isize::MAX), None);
}

#[test]
fn is_full_only_when_every_cell_is_occupied() {
    let mut f = Field::new();
    let mut placed = 0;
    for x in 0..WIDTH {
        for _ in 0..HEIGHT {
            assert!(!f.is_full());
            f.insert(x, Piece::O).unwrap();
            placed += 1;
        }
    }
    assert_eq!(placed, 42);
    assert!(f.is_full());
    assert!(f.is_full());
}

#[test]
fn error_messages() {
    assert_eq!(Error::InvalidColumn(7).message(), "Invalid column '7'");
    assert_eq!(Error::InvalidColumn(120).message(), "Invalid column '120'");
    assert_eq!(
        Error::InvalidColumn(usize::MAX).message(),
        format!("Invalid column '{}'", usize::MAX)
    );
    assert_eq!(Error::ColumnFull(0).message(), "Column '0' is already full");
    assert_eq!(Error::ColumnFull(3).message(), "Column '3' is already full");
    assert_eq!(Error::ColumnFull(10).message(), "Column '10' is already full");
}

#[test]
fn message_of_a_failed_insert() {
    let mut f = Field::new();
    let e = f.insert(9, Piece::X).unwrap_err();
    assert_eq!(e.message(), "Invalid column '9'");
}
