use ironcalc_base::model_util::Model;
use ironcalc_base::types::{WorksheetDimension, LAST_COLUMN, LAST_ROW};

fn model() -> Model {
    Model {
        worksheets: vec![WorksheetDimension { min_row: 1, max_row: 20, min_column: 1, max_column: 5 }],
    }
}

#[test]
fn max_rc_keeps_bounded_ranges() {
    let d = model().get_max_rc(0, 2, 3, 10, 4).unwrap();
    assert_eq!(d, WorksheetDimension { min_row: 2, max_row: 10, min_column: 3, max_column: 4 });
}

#[test]
fn max_rc_resolves_whole_columns_and_rows() {
    let whole_column = model().get_max_rc(0, 1, 2, LAST_ROW, 2).unwrap();
    assert_eq!(whole_column, WorksheetDimension { min_row: 1, max_row: 20, min_column: 2, max_column: 2 });
    let whole_row = model().get_max_rc(0, 3, 1, 3, LAST_COLUMN).unwrap();
    assert_eq!(whole_row, WorksheetDimension { min_row: 3, max_row: 3, min_column: 1, max_column: 5 });
}

#[test]
fn max_rc_rejects_unknown_sheets() {
    assert_eq!(model().get_max_rc(4, 1, 1, LAST_ROW, 1), Err("Invalid sheet index".to_string()));
    assert_eq!(model().get_max_rc(4, 2, 2, 3, 3), Err("Invalid sheet index".to_string()));
}

#[test]
fn worksheet_dimension_by_index() {
    assert_eq!(model().worksheet_dimension(0).unwrap().max_row, 20);
    assert!(model().worksheet_dimension(1).is_err());
}
