use vstd::prelude::*;
use vstd::string::*;
use crate::geometry::{
    polygon_line_error_spec, polygon_matches_line, valid_polygon_line, CanvasSize, Offset, Polygon,
};
use crate::num::{i32_value, u32_value};
use crate::pair::{get_pair, is_valid_pair, pair_error_spec, pair_left, pair_right, PairError};
use crate::split::{line_seq, split_lines};

verus! {

/// What a path failed to be.
#[derive(Clone, Copy, Debug, PartialEq, Eq, Structural)]
pub enum PathKind {
    Missing,
    NotADirectory,
    NotAFile,
}

/// Which metadata line an error belongs to.
#[derive(Clone, Copy, Debug, PartialEq, Eq, Structural)]
pub enum Role {
    Size,
    Offset,
}

/// How loading a level fails.  Every failure is terminal for a run and names
/// what a user needs to locate it: the offending path, the line's role or
/// index, and the raw offending token.
#[derive(Clone, Debug, PartialEq, Eq)]
pub enum LevelError {
    Path { path: String, kind: PathKind },
    Structure { path: String, lines: usize },
    Metadata { path: String, role: Role, inner: PairError },
    Polygon { line: usize, inner: PairError },
}

/// A parsed level: the ordered polygons and the canvas size.  Built once from
/// the two input files and immutable afterwards.
#[derive(Clone, Debug, PartialEq, Eq)]
pub struct Level {
    pub polygons: Vec<Polygon>,
    pub size: CanvasSize,
}

/// Checks that a path was found; the caller supplies what the filesystem
/// said of it.  Refusal names the path.
pub fn ensure_exists(exists: bool, path: &str) -> (r: Result<(), LevelError>)
    ensures
        r is Ok <==> exists,
        r is Err ==> (r->Err_0 matches LevelError::Path { path: p, kind } && p@ == path@ && kind
            == PathKind::Missing),
{
    if exists {
        Ok(())
    } else {
        Err(LevelError::Path { path: String::from_str(path), kind: PathKind::Missing })
    }
}

/// Checks that a path was found and is a directory; the caller supplies what
/// the filesystem said of it.  Refusal names the path and what it failed to
/// be, a missing path before a miskinded one.
pub fn ensure_dir(exists: bool, is_dir: bool, path: &str) -> (r: Result<(), LevelError>)
    ensures
        r is Ok <==> exists && is_dir,
        !exists ==> (r->Err_0 matches LevelError::Path { path: p, kind } && p@ == path@ && kind
            == PathKind::Missing),
        exists && !is_dir ==> (r->Err_0 matches LevelError::Path { path: p, kind } && p@ == path@
            && kind == PathKind::NotADirectory),
{
    match ensure_exists(exists, path) {
        Ok(_) => {
            if is_dir {
                Ok(())
            } else {
                Err(
                    LevelError::Path {
                        path: String::from_str(path),
                        kind: PathKind::NotADirectory,
                    },
                )
            }
        },
        Err(e) => Err(e),
    }
}

/// Checks that a path was found and is a file; the caller supplies what the
/// filesystem said of it.  Refusal names the path and what it failed to be,
/// a missing path before a miskinded one.
pub fn ensure_file(exists: bool, is_file: bool, path: &str) -> (r: Result<(), LevelError>)
    ensures
        r is Ok <==> exists && is_file,
        !exists ==> (r->Err_0 matches LevelError::Path { path: p, kind } && p@ == path@ && kind
            == PathKind::Missing),
        exists && !is_file ==> (r->Err_0 matches LevelError::Path { path: p, kind } && p@ == path@
            && kind == PathKind::NotAFile),
{
    match ensure_exists(exists, path) {
        Ok(_) => {
            if is_file {
                Ok(())
            } else {
                Err(LevelError::Path { path: String::from_str(path), kind: PathKind::NotAFile })
            }
        },
        Err(e) => Err(e),
    }
}

/// True when `s` is a size line: a pair of two unsigned numerals.
pub open spec fn valid_size_line(s: Seq<char>) -> bool {
    is_valid_pair::<u32>(s)
}

/// True when `s` is an offset line: a pair of two signed numerals.
pub open spec fn valid_offset_line(s: Seq<char>) -> bool {
    is_valid_pair::<i32>(s)
}

/// The canvas size a size line denotes.
pub open spec fn spec_size(s: Seq<char>) -> CanvasSize {
    CanvasSize {
        width: u32_value(pair_left(s)) as u32,
        height: u32_value(pair_right(s)) as u32,
    }
}

/// The origin offset an offset line denotes.
pub open spec fn spec_offset(s: Seq<char>) -> Offset {
    Offset { dx: i32_value(pair_left(s)) as i32, dy: i32_value(pair_right(s)) as i32 }
}

/// True when the metadata lines are exactly two: a size line and an offset
/// line.
pub open spec fn valid_metadata_lines(ls: Seq<Seq<char>>) -> bool {
    ls.len() == 2 && valid_size_line(ls[0]) && valid_offset_line(ls[1])
}

/// The error reading the metadata lines owes: a structure error when the line
/// count is not two, regardless of content, else the first line's pair error
/// under its role.
pub open spec fn metadata_error_spec(ls: Seq<Seq<char>>, path: Seq<char>, e: LevelError) -> bool {
    if ls.len() != 2 {
        &&& e matches LevelError::Structure { path: p, lines: n }
        &&& p@ == path
        &&& n == ls.len()
    } else if !valid_size_line(ls[0]) {
        &&& e matches LevelError::Metadata { path: p, role, inner }
        &&& p@ == path
        &&& role == Role::Size
        &&& pair_error_spec::<u32>(ls[0], inner)
    } else {
        &&& !valid_offset_line(ls[1])
        &&& e matches LevelError::Metadata { path: p, role, inner }
        &&& p@ == path
        &&& role == Role::Offset
        &&& pair_error_spec::<i32>(ls[1], inner)
    }
}

/// Reads the metadata lines: exactly two are required, the first the canvas
/// size as an unsigned pair, the second the origin offset as a signed pair.
/// Errors carry the source path and the offending line's role.
pub fn get_metadata(lines: &Vec<String>, path: &str) -> (r: Result<(CanvasSize, Offset), LevelError>)
    ensures
        r is Ok <==> valid_metadata_lines(lines.deep_view()),
        r is Ok ==> r->Ok_0.0 == spec_size(lines.deep_view()[0]) && r->Ok_0.1 == spec_offset(
            lines.deep_view()[1],
        ),
        r is Err ==> metadata_error_spec(lines.deep_view(), path@, r->Err_0),
{
    proof {
        assert(lines.deep_view().len() == lines@.len());
    }
    if lines.len() != 2 {
        return Err(LevelError::Structure { path: String::from_str(path), lines: lines.len() });
    }
    proof {
        assert(lines.deep_view()[0] == lines@[0]@);
        assert(lines.deep_view()[1] == lines@[1]@);
    }
    let size = match get_pair::<u32>(lines[0].as_str()) {
        Ok(p) => CanvasSize { width: p.0, height: p.1 },
        Err(e) => {
            return Err(
                LevelError::Metadata { path: String::from_str(path), role: Role::Size, inner: e },
            );
        },
    };
    let offset = match get_pair::<i32>(lines[1].as_str()) {
        Ok(p) => Offset { dx: p.0, dy: p.1 },
        Err(e) => {
            return Err(
                LevelError::Metadata {
                    path: String::from_str(path),
                    role: Role::Offset,
                    inner: e,
                },
            );
        },
    };
    Ok((size, offset))
}

/// True when every line is a valid polygon line.
pub open spec fn valid_polygon_lines(ls: Seq<Seq<char>>) -> bool {
    forall|i: int| 0 <= i < ls.len() ==> valid_polygon_line(#[trigger] ls[i])
}

/// True when `ps` holds exactly one polygon per line, each matching its line,
/// in file order.
pub open spec fn polygons_match_lines(ps: Seq<Polygon>, ls: Seq<Seq<char>>, off: Offset) -> bool {
    &&& ps.len() == ls.len()
    &&& forall|i: int| 0 <= i < ls.len() ==> polygon_matches_line(#[trigger] ps[i], ls[i], off)
}

/// The error reading the polygon lines owes: the error of the first line that
/// is not a valid polygon line, under that line's index.
pub open spec fn polygons_error_spec(ls: Seq<Seq<char>>, e: LevelError) -> bool {
    exists|i: int|
        #![trigger ls[i]]
        {
            &&& 0 <= i < ls.len()
            &&& (forall|j: int| 0 <= j < i ==> valid_polygon_line(#[trigger] ls[j]))
            &&& !valid_polygon_line(ls[i])
            &&& e matches LevelError::Polygon { line, inner }
            &&& line == i
            &&& polygon_line_error_spec(ls[i], inner)
        }
}

/// Reads every polygon line under the offset, in file order: one polygon per
/// line.  Fails with the first bad line's error, under that line's index.
pub fn get_polygons(lines: &Vec<String>, offset: Offset) -> (r: Result<Vec<Polygon>, LevelError>)
    ensures
        r is Ok <==> valid_polygon_lines(lines.deep_view()),
        r is Ok ==> polygons_match_lines(r->Ok_0@, lines.deep_view(), offset),
        r is Err ==> polygons_error_spec(lines.deep_view(), r->Err_0),
{
    let n = lines.len();
    proof {
        assert(lines.deep_view().len() == lines@.len());
    }
    let mut out: Vec<Polygon> = Vec::new();
    let mut i: usize = 0;
    while i < n
        invariant
            n == lines.len(),
            n == lines.deep_view().len(),
            i <= n,
            out@.len() == i,
            forall|j: int| 0 <= j < i ==> valid_polygon_line(#[trigger] lines.deep_view()[j]),
            forall|j: int| 0 <= j < i ==> polygon_matches_line(
                #[trigger] out@[j],
                lines.deep_view()[j],
                offset,
            ),
        decreases n - i,
    {
        proof {
            assert(lines.deep_view()[i as int] == lines@[i as int]@);
        }
        match crate::geometry::get_polygon(lines[i].as_str(), offset) {
            Ok(p) => {
                out.push(p);
            },
            Err(e) => {
                let wrapped = LevelError::Polygon { line: i, inner: e };
                proof {
                    let ghost ls = lines.deep_view();
                    assert(!valid_polygon_line(ls[i as int]) && polygon_line_error_spec(
                        ls[i as int],
                        e,
                    ));
                }
                return Err(wrapped);
            },
        }
        i = i + 1;
    }
    Ok(out)
}

/// True when the metadata file's contents are two valid lines.
pub open spec fn valid_metadata(s: Seq<char>) -> bool {
    valid_metadata_lines(line_seq(s))
}

/// True when every line of the polygon file's contents is a valid polygon
/// line.  A file with no lines is valid: zero polygons is a valid level.
pub open spec fn valid_polygon_file(s: Seq<char>) -> bool {
    valid_polygon_lines(line_seq(s))
}

/// Builds the level from the contents of the two input files: the metadata
/// file names the canvas size and the origin offset, and each line of the
/// polygon file yields one polygon under that offset, in file order.
pub fn load_level(info: &str, polygons: &str, info_path: &str) -> (r: Result<Level, LevelError>)
    ensures
        r is Ok <==> valid_metadata(info@) && valid_polygon_file(polygons@),
        r is Ok ==> r->Ok_0.size == spec_size(line_seq(info@)[0]),
        r is Ok ==> polygons_match_lines(
            r->Ok_0.polygons@,
            line_seq(polygons@),
            spec_offset(line_seq(info@)[1]),
        ),
        r is Err ==> if !valid_metadata(info@) {
            metadata_error_spec(line_seq(info@), info_path@, r->Err_0)
        } else {
            polygons_error_spec(line_seq(polygons@), r->Err_0)
        },
{
    let info_lines = split_lines(info);
    let (size, offset) = match get_metadata(&info_lines, info_path) {
        Ok(m) => m,
        Err(e) => {
            return Err(e);
        },
    };
    let poly_lines = split_lines(polygons);
    let polys = match get_polygons(&poly_lines, offset) {
        Ok(p) => p,
        Err(e) => {
            return Err(e);
        },
    };
    Ok(Level { polygons: polys, size })
}

/// A polygon file with no contents has no lines, so it is valid and yields a
/// level with no polygons — while a polygon line with no coordinate tokens is
/// not valid.
pub proof fn lemma_empty_polygon_file(s: Seq<char>)
    requires
        s.len() == 0,
    ensures
        valid_polygon_file(s),
        line_seq(s).len() == 0,
{
    crate::split::lemma_split_len(s, crate::split::newline());
    assert(!crate::split::sep_at(s, crate::split::newline(), 0));
    assert(crate::split::split_on(s, crate::split::newline()) == seq![Seq::<char>::empty()]);
}

} // verus!
