use level_preview::geometry::{get_polygon, get_polygon_point, Offset, Point};
use level_preview::pair::{Axis, NumKind, PairError};
use level_preview::split::{split_lines, split_on_exec};

fn zero() -> Offset {
    Offset { dx: 0, dy: 0 }
}

#[test]
fn transform_with_zero_offset_truncates_and_flips() {
    assert_eq!(
        get_polygon_point("12.7, 3.9", zero()),
        Ok(Point { x: 12, y: -3 })
    );
}

#[test]
fn transform_truncates_toward_zero_on_negatives() {
    assert_eq!(
        get_polygon_point("-2.5, -0.5", zero()),
        Ok(Point { x: -2, y: 0 })
    );
}

#[test]
fn transform_adds_the_offset_after_the_flip() {
    assert_eq!(
        get_polygon_point("10.0, 5.0", Offset { dx: 3, dy: -4 }),
        Ok(Point { x: 13, y: -9 })
    );
}

#[test]
fn subtracting_the_offset_and_negating_y_recovers_the_truncation() {
    let off = Offset { dx: 17, dy: -29 };
    let p = get_polygon_point("10.6, 5.2", off).unwrap();
    assert_eq!(p.x - off.dx as i64, 10);
    assert_eq!(-(p.y - off.dy as i64), 5);
}

#[test]
fn malformed_coordinate_names_token_and_kind() {
    assert_eq!(
        get_polygon_point("abc, 1", zero()),
        Err(PairError::Conversion {
            axis: Axis::X,
            token: "abc".to_string(),
            kind: NumKind::Decimal,
        })
    );
}

#[test]
fn polygon_preserves_input_order() {
    let polygon = get_polygon("(0, 0), (1, 2), (3, 4)", zero()).unwrap();
    assert_eq!(
        polygon.points,
        vec![
            Point { x: 0, y: 0 },
            Point { x: 1, y: -2 },
            Point { x: 3, y: -4 },
        ]
    );
}

#[test]
fn polygon_with_one_point_keeps_its_parentheses_stripped() {
    let polygon = get_polygon("(1.5, 2.5)", zero()).unwrap();
    assert_eq!(polygon.points, vec![Point { x: 1, y: -2 }]);
}

#[test]
fn polygon_applies_the_offset_to_every_point() {
    let polygon = get_polygon("(0, 0), (10, 10)", Offset { dx: 5, dy: 7 }).unwrap();
    assert_eq!(
        polygon.points,
        vec![Point { x: 5, y: 7 }, Point { x: 15, y: -3 }]
    );
}

#[test]
fn empty_polygon_line_is_rejected() {
    assert_eq!(get_polygon("", zero()), Err(PairError::Format));
}

#[test]
fn polygon_fails_on_a_malformed_inner_token() {
    assert_eq!(
        get_polygon("(0, 0), (abc, 1), (2, 2)", zero()),
        Err(PairError::Conversion {
            axis: Axis::X,
            token: "abc".to_string(),
            kind: NumKind::Decimal,
        })
    );
}

#[test]
fn split_on_separates_on_every_occurrence() {
    let segments = split_on_exec("(0, 0), (1, 1)", "), (");
    assert_eq!(segments, vec!["(0, 0".to_string(), "1, 1)".to_string()]);
}

#[test]
fn split_on_without_a_match_returns_the_whole_string() {
    assert_eq!(split_on_exec("abc", ", "), vec!["abc".to_string()]);
}

#[test]
fn split_lines_matches_str_lines() {
    assert_eq!(
        split_lines("a\nb\nc"),
        vec!["a".to_string(), "b".to_string(), "c".to_string()]
    );
    assert_eq!(split_lines("a\r\nb\r\n"), vec!["a".to_string(), "b".to_string()]);
    assert_eq!(split_lines("a\n"), vec!["a".to_string()]);
    assert_eq!(split_lines(""), Vec::<String>::new());
    assert_eq!(split_lines("\n"), vec!["".to_string()]);
}
