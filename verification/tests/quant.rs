use finstack_blotter::quant::calendar_code::{
    canonical_calendar_code, holiday_calendar_code, holiday_calendar_repr,
};
use finstack_blotter::quant::factors::{factor_labels, FactorNamesMismatch};
use finstack_blotter::quant::grid::{
    check_grid_index, grid_axis_columns, grid_rows, pair_optional, GridIndexOutOfRange,
    UnpairedInputs,
};
use finstack_blotter::quant::indexing::{resolve_python_index, IndexOutOfRange};
use finstack_blotter::quant::labels::{
    dimension_label, parse_price_curve_kind, price_curve_kind_message, price_curve_kind_name,
    HierarchyDimension,
    InvalidPriceCurveKind, PriceCurveKind, Thirty360Convention,
};
use finstack_blotter::quant::periods::{
    contains_period, find_period, period_index, NoFlowsInPeriod,
};
use finstack_blotter::quant::matrix::{
    check_rhs_length, extract_matrix, extract_square_matrix, require_square, MatrixShapeError,
};

#[test]
fn composite_calendar_codes_are_canonical() {
    assert_eq!(canonical_calendar_code("USNY + gblo"), "gblo+usny");
    assert_eq!(canonical_calendar_code("gblo+usny"), "gblo+usny");
    assert_eq!(canonical_calendar_code("nyse+gblo+NYSE"), "gblo+nyse");
    assert_eq!(canonical_calendar_code(" TARGET2 "), "target2");
    assert_eq!(canonical_calendar_code("a++b+"), "a+b");
    assert_eq!(canonical_calendar_code(""), "");
    assert_eq!(canonical_calendar_code(" + + "), "");
    assert_eq!(canonical_calendar_code("b+a+ab+A"), "a+ab+b");
}

#[test]
fn canonical_code_is_idempotent_and_order_free() {
    for code in ["USNY + gblo", "x+Y+x", "  ", "Zz+zz+ZZ", "\u{3000}Tk\t+ ln"] {
        let once = canonical_calendar_code(code);
        assert_eq!(canonical_calendar_code(&once), once);
    }
    assert_eq!(
        canonical_calendar_code("JPTO+gblo+usny"),
        canonical_calendar_code(" usny+ GBLO +jpto +usny")
    );
}

#[test]
fn canonical_code_trims_unicode_white_space_and_keeps_non_ascii_case() {
    assert_eq!(canonical_calendar_code("\u{3000}Tk\t+ ln"), "ln+tk");
    assert_eq!(canonical_calendar_code("ÄB+äb"), "Äb+äb");
}

#[test]
fn holiday_calendar_code_prefers_registry_id() {
    assert_eq!(holiday_calendar_code(Some("usny"), "USNY"), "usny");
    assert_eq!(holiday_calendar_code(None, "USNY + gblo"), "gblo+usny");
    assert_eq!(holiday_calendar_repr("gblo+usny"), "HolidayCalendar('gblo+usny')");
}

#[test]
fn python_indices_resolve_from_either_end() {
    assert_eq!(resolve_python_index(0, 3), Ok(0));
    assert_eq!(resolve_python_index(2, 3), Ok(2));
    assert_eq!(resolve_python_index(-1, 3), Ok(2));
    assert_eq!(resolve_python_index(-3, 3), Ok(0));
    assert_eq!(
        resolve_python_index(3, 3),
        Err(IndexOutOfRange { index: 3, len: 3 })
    );
    assert_eq!(
        resolve_python_index(-4, 3),
        Err(IndexOutOfRange { index: -4, len: 3 })
    );
    assert_eq!(
        resolve_python_index(0, 0),
        Err(IndexOutOfRange { index: 0, len: 0 })
    );
}

#[test]
fn grid_axis_columns_are_long_form() {
    let expiries = vec![0.5_f64, 1.0];
    let strikes = vec![90.0_f64, 100.0, 110.0];
    let (e, k) = grid_axis_columns(&expiries, &strikes);
    assert_eq!(e, vec![0.5, 0.5, 0.5, 1.0, 1.0, 1.0]);
    assert_eq!(k, vec![90.0, 100.0, 110.0, 90.0, 100.0, 110.0]);
    let (e, k) = grid_axis_columns(&expiries, &Vec::<f64>::new());
    assert!(e.is_empty() && k.is_empty());
}

#[test]
fn grid_rows_cut_like_chunks() {
    let flat = vec![1.0_f64, 2.0, 3.0, 4.0, 5.0, 6.0];
    assert_eq!(
        grid_rows(&flat, 3),
        vec![vec![1.0, 2.0, 3.0], vec![4.0, 5.0, 6.0]]
    );
    assert_eq!(
        grid_rows(&flat, 4),
        vec![vec![1.0, 2.0, 3.0, 4.0], vec![5.0, 6.0]]
    );
    assert_eq!(grid_rows(&vec![7_i32, 8], 0), vec![vec![7], vec![8]]);
    assert!(grid_rows(&Vec::<f64>::new(), 3).is_empty());
    let rows = grid_rows(&flat, 5);
    let joined: Vec<f64> = rows.into_iter().flatten().collect();
    assert_eq!(joined, flat);
}

#[test]
fn grid_indices_are_checked_against_the_shape() {
    assert_eq!(check_grid_index(1, 2, 2, 3), Ok(()));
    assert_eq!(
        check_grid_index(2, 0, 2, 3),
        Err(GridIndexOutOfRange { outer: 2, inner: 0, n_outer: 2, n_inner: 3 })
    );
    assert_eq!(
        check_grid_index(0, 3, 2, 3),
        Err(GridIndexOutOfRange { outer: 0, inner: 3, n_outer: 2, n_inner: 3 })
    );
}

#[test]
fn ten_delta_wings_come_in_pairs() {
    let rr = Some(vec![0.01_f64]);
    let bf = Some(vec![0.005_f64]);
    assert_eq!(
        pair_optional(rr.clone(), bf.clone()),
        Ok(Some((vec![0.01], vec![0.005])))
    );
    assert_eq!(pair_optional::<Vec<f64>, Vec<f64>>(None, None), Ok(None));
    assert_eq!(pair_optional(rr, None::<Vec<f64>>), Err(UnpairedInputs));
    assert_eq!(pair_optional(None::<Vec<f64>>, bf), Err(UnpairedInputs));
}

#[test]
fn nested_lists_flatten_row_major() {
    let m = vec![vec![1.0_f64, 2.0], vec![3.0, 4.0], vec![5.0, 6.0]];
    assert_eq!(
        extract_matrix(&m),
        Ok((vec![1.0, 2.0, 3.0, 4.0, 5.0, 6.0], 3, 2))
    );
    assert_eq!(extract_matrix(&Vec::<Vec<f64>>::new()), Ok((vec![], 0, 0)));
    let ragged = vec![vec![1.0_f64, 2.0], vec![3.0], vec![4.0]];
    assert_eq!(
        extract_matrix(&ragged),
        Err(MatrixShapeError::Ragged { row: 1, len: 1, expected: 2 })
    );
}

#[test]
fn square_matrices_and_right_hand_sides() {
    let m = vec![vec![4.0_f64, 0.0], vec![2.0, 3.0]];
    assert_eq!(extract_square_matrix(&m), Ok((vec![4.0, 0.0, 2.0, 3.0], 2)));
    let wide = vec![vec![1.0_f64, 2.0, 3.0]];
    assert_eq!(
        extract_square_matrix(&wide),
        Err(MatrixShapeError::NotSquare { rows: 1, cols: 3 })
    );
    assert_eq!(require_square(3, 3), Ok(3));
    assert_eq!(
        require_square(2, 3),
        Err(MatrixShapeError::NotSquare { rows: 2, cols: 3 })
    );
    assert_eq!(check_rhs_length(2, 2), Ok(()));
    assert_eq!(
        check_rhs_length(3, 2),
        Err(MatrixShapeError::RhsLength { len: 3, n: 2 })
    );
}

#[test]
fn price_curve_kinds_parse_and_print() {
    assert_eq!(parse_price_curve_kind("price"), Ok(PriceCurveKind::Price));
    assert_eq!(parse_price_curve_kind("vol_index"), Ok(PriceCurveKind::VolIndex));
    assert_eq!(
        parse_price_curve_kind("Price"),
        Err(InvalidPriceCurveKind { given: "Price".to_string() })
    );
    assert_eq!(
        parse_price_curve_kind(""),
        Err(InvalidPriceCurveKind { given: String::new() })
    );
    for kind in [PriceCurveKind::Price, PriceCurveKind::VolIndex] {
        assert_eq!(parse_price_curve_kind(price_curve_kind_name(kind)), Ok(kind));
    }
}

#[test]
fn thirty360_conventions_print() {
    assert_eq!(Thirty360Convention::UsSia.repr(), "Thirty360Convention.US_SIA");
    assert_eq!(Thirty360Convention::Isda.repr(), "Thirty360Convention.ISDA");
    assert_eq!(Thirty360Convention::European.repr(), "Thirty360Convention.EUROPEAN");
    assert_eq!(Thirty360Convention::Italian.repr(), "Thirty360Convention.ITALIAN");
    assert_eq!(Thirty360Convention::UsSia.label(), "us_sia");
    assert_eq!(Thirty360Convention::Isda.label(), "isda");
    assert_eq!(Thirty360Convention::European.label(), "european");
    assert_eq!(Thirty360Convention::Italian.label(), "italian");
}

#[test]
fn hierarchy_dimensions_label() {
    assert_eq!(dimension_label(&HierarchyDimension::Rating), "Rating");
    assert_eq!(dimension_label(&HierarchyDimension::Region), "Region");
    assert_eq!(dimension_label(&HierarchyDimension::Sector), "Sector");
    assert_eq!(
        dimension_label(&HierarchyDimension::Custom("Currency".to_string())),
        "Currency"
    );
}

#[test]
fn shape_errors_report_their_numbers() {
    assert_eq!(
        MatrixShapeError::Ragged { row: 1, len: 1, expected: 2 }.message(),
        "Row 1 has length 1 but expected 2 (ragged matrix)"
    );
    assert_eq!(
        MatrixShapeError::NotSquare { rows: 2, cols: 30 }.message(),
        "Matrix must be square, got 2x30; expected a square nested list or 2-D array"
    );
    assert_eq!(
        MatrixShapeError::RhsLength { len: 0, n: 107 }.message(),
        "Right-hand side has length 0 but Cholesky factor is 107x107"
    );
    assert_eq!(
        GridIndexOutOfRange { outer: 12, inner: 0, n_outer: 10, n_inner: 1000 }.message(),
        "grid index (12, 0) outside shape (10, 1000)"
    );
    assert_eq!(
        UnpairedInputs.message(),
        "rr_10d and bf_10d must both be provided or both omitted"
    );
    assert_eq!(
        IndexOutOfRange { index: -9, len: 2 }.message(),
        "ScorecardScale index out of range"
    );
    let big = usize::MAX;
    assert_eq!(
        MatrixShapeError::RhsLength { len: big, n: 1 }.message(),
        format!("Right-hand side has length {big} but Cholesky factor is 1x1")
    );
}

#[test]
fn periods_are_found_by_label() {
    let labels = vec![
        "2025Q1".to_string(),
        "2025Q2".to_string(),
        "2025Q2".to_string(),
    ];
    assert_eq!(find_period(&labels, "2025Q2"), Some(1));
    assert_eq!(find_period(&labels, "2025Q3"), None);
    assert!(contains_period(&labels, "2025Q1"));
    assert!(!contains_period(&labels, "2025q1"));
    assert!(!contains_period(&Vec::new(), ""));
    assert_eq!(period_index(&labels, "2025Q1"), Ok(0));
    let e = period_index(&labels, "2026Q1").unwrap_err();
    assert_eq!(e, NoFlowsInPeriod { period: "2026Q1".to_string() });
    assert_eq!(e.message(), "no flows in period '2026Q1'");
}

#[test]
fn unknown_price_curve_kinds_are_reported_quoted() {
    let e = parse_price_curve_kind("spot").unwrap_err();
    assert_eq!(
        e.message(),
        "Invalid price curve kind \"spot\": expected \"price\" or \"vol_index\""
    );
    let e = parse_price_curve_kind("a\"b\n").unwrap_err();
    assert_eq!(
        e.message(),
        "Invalid price curve kind \"a\\\"b\\n\": expected \"price\" or \"vol_index\""
    );
    assert_eq!(
        price_curve_kind_message("'x'"),
        "Invalid price curve kind 'x': expected \"price\" or \"vol_index\""
    );
}

#[test]
fn factor_labels_default_or_checked() {
    assert_eq!(
        factor_labels(None, 3),
        Ok(vec!["factor_0".to_string(), "factor_1".to_string(), "factor_2".to_string()])
    );
    let labels = factor_labels(None, 12).unwrap();
    assert_eq!(labels[10], "factor_10");
    assert_eq!(factor_labels(None, 0), Ok(vec![]));
    let names = vec!["mkt".to_string(), "smb".to_string()];
    assert_eq!(factor_labels(Some(names.clone()), 2), Ok(names.clone()));
    let e = factor_labels(Some(names), 3).unwrap_err();
    assert_eq!(e, FactorNamesMismatch { given: 2, expected: 3 });
    assert_eq!(
        e.message(),
        "factor_names has 2 entries but the regression fitted 3 betas"
    );
}
