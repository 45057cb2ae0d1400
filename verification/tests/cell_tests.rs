use chessmusic::cell::Cell;

#[test]
fn test_cell_with_values() {
    let cell = Cell::new("a2");
    assert_eq!(cell.file, 'a');
    assert_eq!(cell.row, 2);
}

#[test]
fn test_new_from_cell_with_row_offset() {
    let cell = Cell::new("a2");
    match Cell::new_from_cell(&cell, 0, 1) {
        Some(new_cell) => {
            assert_eq!(new_cell.file, 'a');
            assert_eq!(new_cell.row, 3);
        }
        None => assert!(false),
    };
}

#[test]
fn test_new_from_cell_with_file_offset() {
    let cell = Cell::new("a2");
    match Cell::new_from_cell(&cell, 1, 0) {
        Some(new_cell) => {
            assert_eq!(new_cell.file, 'b');
            assert_eq!(new_cell.row, 2);
        }
        None => assert!(false),
    };
}

#[test]
fn test_new_from_cell_with_file_and_row_offsets() {
    let cell = Cell::new("a2");
    match Cell::new_from_cell(&cell, 1, 1) {
        Some(new_cell) => {
            assert_eq!(new_cell.file, 'b');
            assert_eq!(new_cell.row, 3);
        }
        None => assert!(false),
    };
}

#[test]
fn test_new_from_cell_with_negative_offsets() {
    let cell = Cell::new("b2");
    match Cell::new_from_cell(&cell, -1, -1) {
        Some(new_cell) => {
            assert_eq!(new_cell.file, 'a');
            assert_eq!(new_cell.row, 1);
        }
        None => assert!(false),
    };
}

#[test]
fn test_new_from_cell_to_invalid_row() {
    let cell = Cell::new("a1");
    match Cell::new_from_cell(&cell, 0, -1) {
        Some(_new_cell) => assert!(false),
        None => assert!(true),
    };

    match Cell::new_from_cell(&cell, 0, 8) {
        Some(_new_cell) => assert!(false),
        None => assert!(true),
    };
}

#[test]
fn test_new_from_cell_to_invalid_file() {
    let cell = Cell::new("a1");
    match Cell::new_from_cell(&cell, -1, 0) {
        Some(_new_cell) => assert!(false),
        None => assert!(true),
    };

    match Cell::new_from_cell(&cell, 8, 0) {
        Some(_new_cell) => assert!(false),
        None => assert!(true),
    };
}

#[test]
fn test_new_cell() {
    let cell = Cell::new("a1");
    assert_eq!(cell, Cell { file: 'a', row: 1 });
}

#[test]
fn test_get_cell_positive_diff() {
    let base_cell = Cell::new("a1");
    let (x, y) = base_cell.get_cell_diff(&Cell::new("b2"));
    assert_eq!(x, 1);
    assert_eq!(y, 1);

    let (x, y) = base_cell.get_cell_diff(&Cell::new("h8"));
    assert_eq!(x, 7);
    assert_eq!(y, 7);

    let (x, y) = base_cell.get_cell_diff(&Cell::new("a8"));
    assert_eq!(x, 0);
    assert_eq!(y, 7);

    let (x, y) = base_cell.get_cell_diff(&Cell::new("h1"));
    assert_eq!(x, 7);
    assert_eq!(y, 0);
}

#[test]
fn test_get_cell_negative_diff() {
    let base_cell = Cell::new("h8");
    let (x, y) = base_cell.get_cell_diff(&Cell::new("g7"));
    assert_eq!(x, -1);
    assert_eq!(y, -1);

    let (x, y) = base_cell.get_cell_diff(&Cell::new("a1"));
    assert_eq!(x, -7);
    assert_eq!(y, -7);

    let (x, y) = base_cell.get_cell_diff(&Cell::new("h1"));
    assert_eq!(x, 0);
    assert_eq!(y, -7);

    let (x, y) = base_cell.get_cell_diff(&Cell::new("a8"));
    assert_eq!(x, -7);
    assert_eq!(y, 0);
}

#[test]
fn test_new_with_name_reads_first_character() {
    // Both fields come from the first character, which must be a digit.
    let cell = Cell::new_with_name("42");
    assert_eq!(cell.file, '4');
    assert_eq!(cell.row, 4);
}

#[test]
fn test_offset_by_zero_returns_same_cell() {
    for file in ['a', 'd', 'h'] {
        for row in [1, 5, 8] {
            let cell = Cell { file, row };
            assert_eq!(Cell::new_from_cell(&cell, 0, 0), Some(cell));
        }
    }
}

#[test]
fn test_offset_of_delta_reaches_target() {
    let from = Cell::new("e2");
    let to = Cell::new("g7");
    let (df, dr) = from.get_cell_diff(&to);
    assert_eq!(Cell::new_from_cell(&from, df, dr), Some(to));
}

#[test]
fn test_offset_then_inverse_returns_original() {
    let cell = Cell::new("c3");
    let stepped = Cell::new_from_cell(&cell, 2, 4).unwrap();
    assert_eq!(stepped, Cell { file: 'e', row: 7 });
    assert_eq!(Cell::new_from_cell(&stepped, -2, -4), Some(cell));
}
