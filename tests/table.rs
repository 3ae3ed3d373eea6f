use tdm::{Cell, DecimalSeparator, FormatOptions, ParseTableError, Table};

fn options() -> FormatOptions {
    FormatOptions {
        precision: None,
        exponent: false,
        decimal_sep: DecimalSeparator::Dot,
        sign: false,
        hline: false,
        csv_sep: ",".to_string(),
        prefix: Vec::new(),
        suffix: Vec::new(),
    }
}

fn int_table(width: usize, height: usize, base: i64) -> Table {
    let mut rows = Vec::new();
    for r in 0..height {
        let mut row = Vec::new();
        for c in 0..width {
            row.push(Cell::Int(base + (r * width + c) as i64));
        }
        rows.push(row);
    }
    Table::from_rows(rows)
}

fn row_of(t: &Table, r: usize) -> Vec<Cell> {
    (0..t.width()).map(|c| t.cell(r, c).clone()).collect()
}

#[test]
fn new_table_is_blank() {
    let t = Table::new(3, 2);
    assert_eq!((t.width(), t.height()), (3, 2));
    for r in 0..2 {
        for c in 0..3 {
            assert_eq!(t.cell(r, c), &Cell::Blank);
        }
    }
}

#[test]
fn concat_equal_heights() {
    let a = int_table(3, 2, 0);
    let b = int_table(2, 2, 100);
    let mut t = int_table(3, 2, 0);
    t.concat(int_table(2, 2, 100));
    assert_eq!((t.width(), t.height()), (5, 2));
    for r in 0..2 {
        let row = row_of(&t, r);
        assert_eq!(&row[..3], &row_of(&a, r)[..]);
        assert_eq!(&row[3..], &row_of(&b, r)[..]);
    }
}

#[test]
fn concat_pads_shorter_table() {
    let mut t = int_table(1, 1, 0);
    t.concat(int_table(2, 3, 10));
    assert_eq!((t.width(), t.height()), (3, 3));
    assert_eq!(row_of(&t, 0), vec![Cell::Int(0), Cell::Int(10), Cell::Int(11)]);
    assert_eq!(row_of(&t, 2), vec![Cell::Blank, Cell::Int(14), Cell::Int(15)]);
}

#[test]
fn stack_pads_narrower_table() {
    let a = int_table(3, 2, 0);
    let mut t = int_table(3, 2, 0);
    t.stack(int_table(2, 2, 100));
    assert_eq!((t.width(), t.height()), (3, 4));
    assert_eq!(row_of(&t, 0), row_of(&a, 0));
    assert_eq!(row_of(&t, 1), row_of(&a, 1));
    assert_eq!(row_of(&t, 2), vec![Cell::Int(100), Cell::Int(101), Cell::Blank]);
    assert_eq!(row_of(&t, 3), vec![Cell::Int(102), Cell::Int(103), Cell::Blank]);
}

#[test]
fn merges_are_not_commutative() {
    let mut ab = int_table(1, 1, 1);
    ab.concat(int_table(1, 1, 2));
    let mut ba = int_table(1, 1, 2);
    ba.concat(int_table(1, 1, 1));
    assert_ne!(row_of(&ab, 0), row_of(&ba, 0));
}

#[test]
fn from_rows_pads_ragged_rows() {
    let t = Table::from_rows(vec![vec![Cell::Int(1)], vec![], vec![Cell::Int(2), Cell::Int(3)]]);
    assert_eq!((t.width(), t.height()), (2, 3));
    assert_eq!(row_of(&t, 0), vec![Cell::Int(1), Cell::Blank]);
    assert_eq!(row_of(&t, 1), vec![Cell::Blank, Cell::Blank]);
    let empty = Table::from_rows(Vec::new());
    assert_eq!((empty.width(), empty.height()), (0, 0));
}

#[test]
fn set_cell_replaces_one_cell() {
    let mut t = Table::new(2, 2);
    t.set_cell(1, 0, Cell::Int(9));
    assert_eq!(t.cell(1, 0), &Cell::Int(9));
    assert_eq!(t.cell(0, 0), &Cell::Blank);
}

#[test]
fn dat_decode_splits_and_pads() {
    let t = Table::from_dat("1\t2.5\tx\n  3\r\n\n", &None).unwrap();
    assert_eq!((t.width(), t.height()), (3, 3));
    assert_eq!(
        row_of(&t, 0),
        vec![Cell::Int(1), Cell::Float("2.5".to_string()), Cell::Str("x".to_string())]
    );
    assert_eq!(row_of(&t, 1), vec![Cell::Str("  3".to_string()), Cell::Blank, Cell::Blank]);
    assert_eq!(row_of(&t, 2), vec![Cell::Blank, Cell::Blank, Cell::Blank]);
}

#[test]
fn dat_keeps_edge_blank_cells() {
    let t = Table::from_dat("\t5\t\n", &None).unwrap();
    assert_eq!((t.width(), t.height()), (3, 1));
    assert_eq!(row_of(&t, 0), vec![Cell::Blank, Cell::Int(5), Cell::Blank]);
}

#[test]
fn dat_round_trip_of_blank_cells() {
    let o = options();
    let t = Table::new(2, 1);
    let text = t.to_dat(&o);
    assert_eq!(text, "\t\n");
    let back = Table::from_dat(&text, &None).unwrap();
    assert_eq!((back.width(), back.height()), (2, 1));
    assert_eq!(row_of(&back, 0), vec![Cell::Blank, Cell::Blank]);
}

#[test]
fn dat_encode_uses_column_index() {
    let mut o = options();
    o.prefix = vec![(tdm::AnyRange::Index(1), "#".to_string())];
    let t = int_table(2, 2, 1);
    assert_eq!(t.to_dat(&o), "1\t#2\n3\t#4\n");
}

#[test]
fn dat_round_trip() {
    let o = options();
    let t = Table::from_rows(vec![
        vec![Cell::Int(1), Cell::Str("a b".to_string()), Cell::Int(-4)],
        vec![Cell::Float("2.5".to_string()), Cell::Blank, Cell::Str("z".to_string())],
    ]);
    let back = Table::from_dat(&t.to_dat(&o), &None).unwrap();
    assert_eq!((back.width(), back.height()), (3, 2));
    for r in 0..2 {
        assert_eq!(row_of(&back, r), row_of(&t, r));
    }
}

#[test]
fn csv_default_and_custom_delimiters() {
    let t = Table::from_csv("1;2\n3;x\n", &None).unwrap();
    assert_eq!((t.width(), t.height()), (2, 2));
    assert_eq!(row_of(&t, 1), vec![Cell::Int(3), Cell::Str("x".to_string())]);
    let t = Table::from_csv("1|2,5\n", &Some("|".to_string())).unwrap();
    assert_eq!(row_of(&t, 0), vec![Cell::Int(1), Cell::Float("2.5".to_string())]);
    let t = Table::from_csv("\"a;b\";c\n", &None).unwrap();
    assert_eq!(row_of(&t, 0), vec![Cell::Str("a;b".to_string()), Cell::Str("c".to_string())]);
}

#[test]
fn csv_ragged_records_fail() {
    assert!(matches!(
        Table::from_csv("1;2\n3\n", &None),
        Err(ParseTableError::Csv(_))
    ));
}

#[test]
fn csv_encode_joins_rows() {
    let mut o = options();
    o.csv_sep = ";".to_string();
    let t = int_table(2, 2, 1);
    assert_eq!(t.to_csv(&o), "1;2\n3;4");
}

#[test]
fn json_decode_and_errors() {
    let t = Table::from_json("[[\"1\", \"a\"], [\"2,5\"]]", &None).unwrap();
    assert_eq!((t.width(), t.height()), (2, 2));
    assert_eq!(row_of(&t, 1), vec![Cell::Float("2.5".to_string()), Cell::Blank]);
    assert!(matches!(Table::from_json("[1, 2]", &None), Err(ParseTableError::Json(_))));
    assert!(matches!(Table::from_json("nope", &None), Err(ParseTableError::Json(_))));
}

#[test]
fn json_encode_is_rectangular_strings() {
    let o = options();
    let t = Table::from_rows(vec![
        vec![Cell::Int(1), Cell::Int(2), Cell::Int(3)],
        vec![Cell::Str("x".to_string())],
    ]);
    let text = t.to_json(&o);
    let back: Vec<Vec<String>> = serde_json::from_str(&text).unwrap();
    assert_eq!(back.len(), 2);
    assert!(back.iter().all(|r| r.len() == 3));
    assert_eq!(back[0], vec!["1", "2", "3"]);
    assert_eq!(back[1], vec!["x", "", ""]);
    assert!(text.contains('\n'));
}

#[test]
fn matrix_literal_decode() {
    let t = Table::from_m("A = [1 2 3; 4 5 ...\n 6];\nB = [7]", &None).unwrap();
    assert_eq!((t.width(), t.height()), (3, 2));
    assert_eq!(row_of(&t, 0), vec![Cell::Int(1), Cell::Int(2), Cell::Int(3)]);
    assert_eq!(row_of(&t, 1), vec![Cell::Int(4), Cell::Int(5), Cell::Int(6)]);
    let t = Table::from_m("[1  2\t3]", &None).unwrap();
    assert_eq!(row_of(&t, 0), vec![Cell::Int(1), Cell::Int(2), Cell::Int(3)]);
    let t = Table::from_m("[ 1 ;  ; 2 3 ]", &None).unwrap();
    assert_eq!((t.width(), t.height()), (2, 3));
    assert_eq!(row_of(&t, 1), vec![Cell::Blank, Cell::Blank]);
    let t = Table::from_m("[1 2;3 4]", &None).unwrap();
    assert_eq!((t.width(), t.height()), (2, 2));
    let t = Table::from_m("[] [[x] [0.5]", &None).unwrap();
    assert_eq!((t.width(), t.height()), (1, 1));
    assert_eq!(t.cell(0, 0), &Cell::Str("x".to_string()));
}

#[test]
fn matrix_literal_missing() {
    assert!(matches!(Table::from_m("no matrix", &None), Err(ParseTableError::M(_))));
    assert!(matches!(Table::from_m("[]", &None), Err(ParseTableError::M(_))));
}

#[test]
fn markdown_encode() {
    let o = options();
    let t = int_table(2, 2, 1);
    assert_eq!(t.to_md(&o), "| 1 | 2 | \n| --- | --- | \n| 3 | 4 | \n");
}

#[test]
fn latex_encode() {
    let mut o = options();
    let t = int_table(2, 2, 1);
    assert_eq!(t.to_tex(&o), "1 & 2 \\\\\n3 & 4");
    o.hline = true;
    assert_eq!(
        t.to_tex(&o),
        "1 & 2 \\\\\n\\hline\n3 & 4\\\\\n\\hline\n"
    );
}

fn all_rows(t: &Table) -> Vec<Vec<Cell>> {
    (0..t.height()).map(|r| row_of(t, r)).collect()
}

#[test]
fn merges_are_associative() {
    let mut left = int_table(1, 2, 0);
    left.concat(int_table(2, 1, 10));
    left.concat(int_table(1, 3, 20));
    let mut right_tail = int_table(2, 1, 10);
    right_tail.concat(int_table(1, 3, 20));
    let mut right = int_table(1, 2, 0);
    right.concat(right_tail);
    assert_eq!((left.width(), left.height()), (right.width(), right.height()));
    assert_eq!(all_rows(&left), all_rows(&right));

    let mut left = int_table(1, 2, 0);
    left.stack(int_table(3, 1, 10));
    left.stack(int_table(2, 1, 20));
    let mut right_tail = int_table(3, 1, 10);
    right_tail.stack(int_table(2, 1, 20));
    let mut right = int_table(1, 2, 0);
    right.stack(right_tail);
    assert_eq!((left.width(), left.height()), (3, 4));
    assert_eq!(all_rows(&left), all_rows(&right));
}

#[test]
fn merge_all_folds_left_to_right() {
    let merged = tdm::table::merge_all(
        vec![int_table(1, 1, 0), int_table(2, 2, 10), int_table(1, 1, 20)],
        false,
    )
    .unwrap();
    assert_eq!((merged.width(), merged.height()), (4, 2));
    assert_eq!(
        row_of(&merged, 0),
        vec![Cell::Int(0), Cell::Int(10), Cell::Int(11), Cell::Int(20)]
    );
    assert_eq!(
        row_of(&merged, 1),
        vec![Cell::Blank, Cell::Int(12), Cell::Int(13), Cell::Blank]
    );
    let stacked = tdm::table::merge_all(vec![int_table(2, 1, 0), int_table(1, 1, 5)], true).unwrap();
    assert_eq!(all_rows(&stacked), vec![vec![Cell::Int(0), Cell::Int(1)], vec![Cell::Int(5), Cell::Blank]]);
}
