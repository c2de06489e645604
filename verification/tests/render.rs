use connect_four::field::Field;
use connect_four::piece::Piece;

#[test]
fn render_empty_field() {
    let expected = " 0 1 2 3 4 5 6
│ │ │ │ │ │ │ │
├─┼─┼─┼─┼─┼─┼─┤
│ │ │ │ │ │ │ │
├─┼─┼─┼─┼─┼─┼─┤
│ │ │ │ │ │ │ │
├─┼─┼─┼─┼─┼─┼─┤
│ │ │ │ │ │ │ │
├─┼─┼─┼─┼─┼─┼─┤
│ │ │ │ │ │ │ │
├─┼─┼─┼─┼─┼─┼─┤
│ │ │ │ │ │ │ │
└─┴─┴─┴─┴─┴─┴─┘
 0 1 2 3 4 5 6
";
    assert_eq!(Field::new().render(), expected);
}

#[test]
fn render_field_with_pieces() {
    let mut f = Field::new();
    f.insert(0, Piece::X).unwrap();
    f.insert(0, Piece::O).unwrap();
    f.insert(3, Piece::O).unwrap();
    f.insert(6, Piece::X).unwrap();
    f.insert(6, Piece::X).unwrap();
    f.insert(6, Piece::O).unwrap();
    let expected = " 0 1 2 3 4 5 6
│ │ │ │ │ │ │ │
├─┼─┼─┼─┼─┼─┼─┤
│ │ │ │ │ │ │ │
├─┼─┼─┼─┼─┼─┼─┤
│ │ │ │ │ │ │ │
├─┼─┼─┼─┼─┼─┼─┤
│ │ │ │ │ │ │O│
├─┼─┼─┼─┼─┼─┼─┤
│O│ │ │ │ │ │X│
├─┼─┼─┼─┼─┼─┼─┤
│X│ │ │O│ │ │X│
└─┴─┴─┴─┴─┴─┴─┘
 0 1 2 3 4 5 6
";
    assert_eq!(f.render(), expected);
}

#[test]
fn render_has_one_line_per_row_rule_and_index() {
    let text = Field::new().render();
    assert_eq!(text.lines().count(), 14);
    for line in text.lines() {
        assert_eq!(line.chars().count(), 15 - usize::from(line.starts_with(' ')));
    }
}
