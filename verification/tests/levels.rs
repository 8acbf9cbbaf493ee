use level_preview::geometry::{CanvasSize, Offset, Point};
use level_preview::level::{
    ensure_dir, ensure_exists, ensure_file, get_metadata, get_polygons, load_level, LevelError,
    PathKind, Role,
};
use level_preview::pair::{Axis, NumKind, PairError};

fn lines(ls: &[&str]) -> Vec<String> {
    ls.iter().map(|l| l.to_string()).collect()
}

#[test]
fn metadata_returns_size_and_offset() {
    let m = get_metadata(&lines(&["800, 600", "-5, 7"]), "collision_info.txt").unwrap();
    assert_eq!(m.0, CanvasSize { width: 800, height: 600 });
    assert_eq!(m.1, Offset { dx: -5, dy: 7 });
}

#[test]
fn metadata_with_one_line_is_a_structure_error() {
    assert_eq!(
        get_metadata(&lines(&["800, 600"]), "info"),
        Err(LevelError::Structure { path: "info".to_string(), lines: 1 })
    );
}

#[test]
fn metadata_with_three_lines_is_a_structure_error_regardless_of_content() {
    assert_eq!(
        get_metadata(&lines(&["800, 600", "0, 0", "1, 1"]), "info"),
        Err(LevelError::Structure { path: "info".to_string(), lines: 3 })
    );
}

#[test]
fn metadata_size_error_names_the_size_role() {
    assert_eq!(
        get_metadata(&lines(&["80x, 600", "0, 0"]), "info"),
        Err(LevelError::Metadata {
            path: "info".to_string(),
            role: Role::Size,
            inner: PairError::Conversion {
                axis: Axis::X,
                token: "80x".to_string(),
                kind: NumKind::Unsigned,
            },
        })
    );
}

#[test]
fn metadata_offset_error_names_the_offset_role() {
    assert_eq!(
        get_metadata(&lines(&["800, 600", "a, 0"]), "info"),
        Err(LevelError::Metadata {
            path: "info".to_string(),
            role: Role::Offset,
            inner: PairError::Conversion {
                axis: Axis::X,
                token: "a".to_string(),
                kind: NumKind::Signed,
            },
        })
    );
}

#[test]
fn negative_size_is_not_unsigned() {
    assert!(matches!(
        get_metadata(&lines(&["-800, 600", "0, 0"]), "info"),
        Err(LevelError::Metadata { role: Role::Size, .. })
    ));
}

#[test]
fn polygons_keep_file_order() {
    let ps = get_polygons(&lines(&["(0, 0), (1, 1)", "(2, 2)"]), Offset { dx: 0, dy: 0 }).unwrap();
    assert_eq!(ps.len(), 2);
    assert_eq!(ps[0].points, vec![Point { x: 0, y: 0 }, Point { x: 1, y: -1 }]);
    assert_eq!(ps[1].points, vec![Point { x: 2, y: -2 }]);
}

#[test]
fn polygons_error_names_the_bad_line_index() {
    assert_eq!(
        get_polygons(&lines(&["(0, 0)", "(bad, 1)"]), Offset { dx: 0, dy: 0 }),
        Err(LevelError::Polygon {
            line: 1,
            inner: PairError::Conversion {
                axis: Axis::X,
                token: "bad".to_string(),
                kind: NumKind::Decimal,
            },
        })
    );
}

#[test]
fn empty_polygon_file_yields_a_level_with_no_polygons() {
    let level = load_level("800, 600\n0, 0", "", "info").unwrap();
    assert_eq!(level.size, CanvasSize { width: 800, height: 600 });
    assert!(level.polygons.is_empty());
}

#[test]
fn end_to_end_square_is_flipped_and_kept_in_order() {
    let level = load_level(
        "800, 600\n0, 0",
        "(0, 0), (10, 0), (10, 10), (0, 10)",
        "collision_info.txt",
    )
    .unwrap();
    assert_eq!(level.size, CanvasSize { width: 800, height: 600 });
    assert_eq!(level.polygons.len(), 1);
    assert_eq!(
        level.polygons[0].points,
        vec![
            Point { x: 0, y: 0 },
            Point { x: 10, y: 0 },
            Point { x: 10, y: -10 },
            Point { x: 0, y: -10 },
        ]
    );
}

#[test]
fn load_level_applies_the_offset_from_the_metadata() {
    let level = load_level("100, 100\n3, -4", "(1.9, 2.9)", "info").unwrap();
    assert_eq!(level.polygons[0].points, vec![Point { x: 4, y: -6 }]);
}

#[test]
fn load_level_reports_a_blank_polygon_line() {
    assert_eq!(
        load_level("100, 100\n0, 0", "(0, 0)\n\n(1, 1)", "info"),
        Err(LevelError::Polygon { line: 1, inner: PairError::Format })
    );
}

#[test]
fn load_level_with_crlf_metadata_parses_the_same() {
    let level = load_level("800, 600\r\n0, 0\r\n", "", "info").unwrap();
    assert_eq!(level.size, CanvasSize { width: 800, height: 600 });
}

#[test]
fn ensure_exists_accepts_and_refuses() {
    assert_eq!(ensure_exists(true, "d"), Ok(()));
    assert_eq!(
        ensure_exists(false, "d"),
        Err(LevelError::Path { path: "d".to_string(), kind: PathKind::Missing })
    );
}

#[test]
fn ensure_dir_names_what_the_path_failed_to_be() {
    assert_eq!(ensure_dir(true, true, "d"), Ok(()));
    assert_eq!(
        ensure_dir(false, false, "d"),
        Err(LevelError::Path { path: "d".to_string(), kind: PathKind::Missing })
    );
    assert_eq!(
        ensure_dir(true, false, "d"),
        Err(LevelError::Path { path: "d".to_string(), kind: PathKind::NotADirectory })
    );
}

#[test]
fn ensure_file_names_what_the_path_failed_to_be() {
    assert_eq!(ensure_file(true, true, "f"), Ok(()));
    assert_eq!(
        ensure_file(false, true, "f"),
        Err(LevelError::Path { path: "f".to_string(), kind: PathKind::Missing })
    );
    assert_eq!(
        ensure_file(true, false, "f"),
        Err(LevelError::Path { path: "f".to_string(), kind: PathKind::NotAFile })
    );
}
