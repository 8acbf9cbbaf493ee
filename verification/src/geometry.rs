use vstd::prelude::*;
use vstd::string::*;
use crate::num::{decimal_trunc, Coord};
use crate::pair::{get_pair, is_valid_pair, pair_error_spec, pair_left, pair_right, PairError};
use crate::split::{lemma_split_len, split_on, split_on_exec};

verus! {

/// Pixel dimensions of the display surface.
#[derive(Clone, Copy, Debug, PartialEq, Eq, Structural)]
pub struct CanvasSize {
    pub width: u32,
    pub height: u32,
}

/// The translation added to every transformed point.
#[derive(Clone, Copy, Debug, PartialEq, Eq, Structural)]
pub struct Offset {
    pub dx: i32,
    pub dy: i32,
}

/// A screen-space point.  The components are wide enough to hold any truncated
/// source coordinate plus any offset, so the transform is exact.
#[derive(Clone, Copy, Debug, PartialEq, Eq, Structural)]
pub struct Point {
    pub x: i64,
    pub y: i64,
}

/// Where the transform sends a truncated source coordinate pair: the vertical
/// axis is flipped from the source's y-up convention to the screen's y-down
/// convention, and the offset is added.
pub open spec fn transform_spec(x: int, y: int, off: Offset) -> (int, int) {
    (x + off.dx, -y + off.dy)
}

/// With a zero offset the transform only flips the vertical axis: the
/// truncated coordinates (x, y) go to exactly (x, -y).
pub proof fn lemma_transform_zero_offset(x: int, y: int)
    ensures
        transform_spec(x, y, Offset { dx: 0, dy: 0 }) == (x, -y),
{
}

/// The transform loses nothing: subtracting the offset from a transformed
/// point and negating the vertical component recovers the truncated source
/// coordinates.
pub proof fn lemma_transform_inverse(x: int, y: int, off: Offset)
    ensures
        transform_spec(x, y, off).0 - off.dx == x,
        -(transform_spec(x, y, off).1 - off.dy) == y,
{
}

/// True when `t` is a coordinate token: a pair of two decimal numerals.
pub open spec fn valid_point_token(t: Seq<char>) -> bool {
    is_valid_pair::<Coord>(t)
}

/// The screen point a coordinate token denotes under an offset.
pub open spec fn token_point(t: Seq<char>, off: Offset) -> (int, int) {
    transform_spec(decimal_trunc(pair_left(t)), decimal_trunc(pair_right(t)), off)
}

/// Under a zero offset, a coordinate token's point is exactly its coordinates
/// truncated toward zero, with the vertical one negated.
pub proof fn lemma_token_point_zero_offset(t: Seq<char>)
    ensures
        token_point(t, Offset { dx: 0, dy: 0 }) == (
            decimal_trunc(pair_left(t)),
            -decimal_trunc(pair_right(t)),
        ),
{
}

/// Reads one coordinate token "x, y" of two decimal numerals and transforms it
/// into a screen point: each coordinate truncated toward zero, the vertical
/// axis flipped, the offset added.
pub fn get_polygon_point(token: &str, offset: Offset) -> (r: Result<Point, PairError>)
    ensures
        r is Ok <==> valid_point_token(token@),
        r is Ok ==> r->Ok_0.x == token_point(token@, offset).0 && r->Ok_0.y == token_point(
            token@,
            offset,
        ).1,
        r is Err ==> pair_error_spec::<Coord>(token@, r->Err_0),
{
    let (cx, cy) = match get_pair::<Coord>(token) {
        Ok(p) => p,
        Err(e) => {
            return Err(e);
        },
    };
    let x = cx.trunc as i64 + offset.dx as i64;
    let y = -(cy.trunc as i64) + offset.dy as i64;
    Ok(Point { x, y })
}

/// The polygon-token separator: the text between two adjacent parenthesised
/// coordinate tokens.
pub open spec fn point_sep() -> Seq<char> {
    seq![')', ',', ' ', '(']
}

/// Removes one leading opening parenthesis, if one is there.
pub open spec fn strip_open(t: Seq<char>) -> Seq<char> {
    if t.len() > 0 && t[0] == '(' {
        t.skip(1)
    } else {
        t
    }
}

/// Removes one trailing closing parenthesis, if one is there.
pub open spec fn strip_close(t: Seq<char>) -> Seq<char> {
    if t.len() > 0 && t.last() == ')' {
        t.drop_last()
    } else {
        t
    }
}

/// The coordinate tokens of one polygon line: the segments between the point
/// separators, with the leading parenthesis stripped from the first segment
/// and the trailing parenthesis stripped from the last.
pub open spec fn polygon_tokens(s: Seq<char>) -> Seq<Seq<char>> {
    let raw = split_on(s, point_sep());
    Seq::new(
        raw.len(),
        |i: int|
            {
                let t = if i == 0 {
                    strip_open(raw[i])
                } else {
                    raw[i]
                };
                if i == raw.len() - 1 {
                    strip_close(t)
                } else {
                    t
                }
            },
    )
}

/// True when every token of the line is a coordinate token.
pub open spec fn valid_polygon_line(s: Seq<char>) -> bool {
    forall|i: int| 0 <= i < polygon_tokens(s).len() ==> valid_point_token(
        #[trigger] polygon_tokens(s)[i],
    )
}

/// The points of one polygon line under an offset, in the line's own order.
pub open spec fn line_points(s: Seq<char>, off: Offset) -> Seq<(int, int)> {
    polygon_tokens(s).map_values(|t: Seq<char>| token_point(t, off))
}

/// An ordered polygon outline: screen points connected in order, with an
/// implicit closing edge from the last point back to the first.
#[derive(Clone, Debug, PartialEq, Eq)]
pub struct Polygon {
    pub points: Vec<Point>,
}

impl Polygon {
    /// A polygon is well formed when it has at least one point: an outline
    /// with no points has no closing edge and is a malformed-input condition.
    pub open spec fn wf(&self) -> bool {
        self.points@.len() >= 1
    }
}

/// The error one polygon line owes its caller: the error of the leftmost of
/// its tokens that is not a coordinate token.
pub open spec fn polygon_line_error_spec(s: Seq<char>, e: PairError) -> bool {
    exists|i: int|
        #![trigger polygon_tokens(s)[i]]
        {
            &&& 0 <= i < polygon_tokens(s).len()
            &&& (forall|j: int| 0 <= j < i ==> valid_point_token(#[trigger] polygon_tokens(s)[j]))
            &&& !valid_point_token(polygon_tokens(s)[i])
            &&& pair_error_spec::<Coord>(polygon_tokens(s)[i], e)
        }
}

/// True when `p` holds exactly the points of polygon line `s` under `off`,
/// in the line's own order.
pub open spec fn polygon_matches_line(p: Polygon, s: Seq<char>, off: Offset) -> bool {
    &&& p.wf()
    &&& p.points@.len() == line_points(s, off).len()
    &&& forall|k: int| 0 <= k < p.points@.len() ==> (#[trigger] p.points@[k]).x == line_points(
        s,
        off,
    )[k].0 && p.points@[k].y == line_points(s, off)[k].1
}

/// Reads one polygon line "(x1, y1), (x2, y2), ..." under an offset into its
/// ordered points: every token transformed by `get_polygon_point`, in the
/// line's own left-to-right order.  Fails with the error of the leftmost
/// token that is not a coordinate token.
pub fn get_polygon(line: &str, offset: Offset) -> (r: Result<Polygon, PairError>)
    ensures
        r is Ok <==> valid_polygon_line(line@),
        r is Ok ==> polygon_matches_line(r->Ok_0, line@, offset),
        r is Err ==> polygon_line_error_spec(line@, r->Err_0),
{
    let sep = "), (";
    proof {
        reveal_strlit("), (");
        assert(sep@ =~= point_sep());
    }
    let mut segs = split_on_exec(line, sep);
    let ghost raw = split_on(line@, point_sep());
    proof {
        lemma_split_len(line@, point_sep());
        assert(segs.deep_view().len() == segs@.len());
        assert(segs.deep_view()[0] == segs@[0]@);
    }
    let m = segs.len();
    let flen = segs[0].as_str().unicode_len();
    if flen > 0 && segs[0].as_str().get_char(0) == '(' {
        let stripped = String::from_str(segs[0].as_str().substring_char(1, flen));
        proof {
            assert(raw[0].subrange(1, raw[0].len() as int) =~= strip_open(raw[0]));
        }
        segs.set(0, stripped);
    }
    proof {
        assert(segs.deep_view()[0] == segs@[0]@);
        assert(segs.deep_view()[0] == strip_open(raw[0]));
        assert(segs.deep_view()[m - 1] == segs@[m - 1]@);
    }
    let ghost after_open = segs.deep_view();
    let llen = segs[m - 1].as_str().unicode_len();
    if llen > 0 && segs[m - 1].as_str().get_char(llen - 1) == ')' {
        let stripped = String::from_str(segs[m - 1].as_str().substring_char(0, llen - 1));
        proof {
            assert(after_open[m - 1].subrange(0, after_open[m - 1].len() - 1) =~= strip_close(
                after_open[m - 1],
            ));
        }
        segs.set(m - 1, stripped);
    }
    let ghost toks = polygon_tokens(line@);
    proof {
        assert forall|i: int| 0 <= i < m implies segs.deep_view()[i] == toks[i] by {
            assert(segs.deep_view()[i] == segs@[i]@);
        }
        assert(segs.deep_view() =~= toks);
    }
    let mut points: Vec<Point> = Vec::new();
    let mut i: usize = 0;
    while i < m
        invariant
            m == segs.len(),
            segs.deep_view() == toks,
            toks == polygon_tokens(line@),
            toks.len() == m,
            i <= m,
            forall|j: int| 0 <= j < i ==> valid_point_token(#[trigger] toks[j]),
            points@.len() == i,
            forall|j: int| 0 <= j < i ==> (#[trigger] points@[j]).x == line_points(
                line@,
                offset,
            )[j].0 && points@[j].y == line_points(line@, offset)[j].1,
        decreases m - i,
    {
        proof {
            assert(segs.deep_view()[i as int] == segs@[i as int]@);
        }
        match get_polygon_point(segs[i].as_str(), offset) {
            Ok(p) => {
                points.push(p);
            },
            Err(e) => {
                proof {
                    let wi = i as int;
                    assert(!valid_point_token(toks[wi]) && pair_error_spec::<Coord>(toks[wi], e));
                }
                return Err(e);
            },
        }
        i = i + 1;
    }
    proof {
        assert(line_points(line@, offset).len() == m);
    }
    Ok(Polygon { points })
}

} // verus!
