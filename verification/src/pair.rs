use vstd::prelude::*;
use vstd::string::*;
use crate::split::{sep_at, split_on, split_on_exec};

verus! {

/// The numeric types a pair can be read as, named for diagnostics.
#[derive(Clone, Copy, Debug, PartialEq, Eq, Structural)]
pub enum NumKind {
    Unsigned,
    Signed,
    Decimal,
}

/// Which side of a pair a token came from.
#[derive(Clone, Copy, Debug, PartialEq, Eq, Structural)]
pub enum Axis {
    X,
    Y,
}

/// How reading a pair can fail: the string is not two separated segments, or
/// one segment is not a numeral of the requested kind.  A conversion error
/// carries the offending token and the kind that was asked of it.
#[derive(Clone, Debug, PartialEq, Eq)]
pub enum PairError {
    Format,
    Conversion { axis: Axis, token: String, kind: NumKind },
}

/// A numeric type a pair can be parsed into: how its numerals look, what they
/// mean, and an executable parser held to both.
pub trait PairValue: Sized {
    /// True when `s` is a numeral of this type.
    spec fn spec_valid(s: Seq<char>) -> bool;

    /// The value the numeral `s` denotes.
    spec fn spec_value(s: Seq<char>) -> Self;

    /// The kind named in diagnostics.
    spec fn spec_kind() -> NumKind;

    /// Parses one numeral: a value exactly when `s` is valid, and then exactly
    /// the denoted value.
    fn parse_value(s: &str) -> (r: Option<Self>)
        ensures
            r is Some <==> Self::spec_valid(s@),
            r is Some ==> r->0 == Self::spec_value(s@),
    ;

    /// Names the kind for diagnostics.
    fn kind() -> (k: NumKind)
        ensures
            k == Self::spec_kind(),
    ;
}

impl PairValue for u32 {
    open spec fn spec_valid(s: Seq<char>) -> bool {
        crate::num::is_valid_u32(s)
    }

    open spec fn spec_value(s: Seq<char>) -> u32 {
        crate::num::u32_value(s) as u32
    }

    open spec fn spec_kind() -> NumKind {
        NumKind::Unsigned
    }

    fn parse_value(s: &str) -> (r: Option<u32>) {
        crate::num::parse_u32(s)
    }

    fn kind() -> (k: NumKind) {
        NumKind::Unsigned
    }
}

impl PairValue for i32 {
    open spec fn spec_valid(s: Seq<char>) -> bool {
        crate::num::is_valid_i32(s)
    }

    open spec fn spec_value(s: Seq<char>) -> i32 {
        crate::num::i32_value(s) as i32
    }

    open spec fn spec_kind() -> NumKind {
        NumKind::Signed
    }

    fn parse_value(s: &str) -> (r: Option<i32>) {
        crate::num::parse_i32(s)
    }

    fn kind() -> (k: NumKind) {
        NumKind::Signed
    }
}

impl PairValue for crate::num::Coord {
    open spec fn spec_valid(s: Seq<char>) -> bool {
        crate::num::is_valid_decimal(s)
    }

    open spec fn spec_value(s: Seq<char>) -> crate::num::Coord {
        crate::num::Coord { trunc: crate::num::decimal_trunc(s) as i32 }
    }

    open spec fn spec_kind() -> NumKind {
        NumKind::Decimal
    }

    fn parse_value(s: &str) -> (r: Option<crate::num::Coord>) {
        match crate::num::parse_decimal_trunc(s) {
            Some(v) => Some(crate::num::Coord { trunc: v }),
            None => None,
        }
    }

    fn kind() -> (k: NumKind) {
        NumKind::Decimal
    }
}

/// The pair separator: a comma and one space.
pub open spec fn pair_sep() -> Seq<char> {
    seq![',', ' ']
}

/// The segments of `s` between occurrences of the pair separator.
pub open spec fn pair_segments(s: Seq<char>) -> Seq<Seq<char>> {
    split_on(s, pair_sep())
}

/// True when `s` has the shape of a pair: exactly two segments.
pub open spec fn is_pair_shape(s: Seq<char>) -> bool {
    pair_segments(s).len() == 2
}

/// The first segment of a pair.
pub open spec fn pair_left(s: Seq<char>) -> Seq<char> {
    pair_segments(s)[0]
}

/// The second segment of a pair.
pub open spec fn pair_right(s: Seq<char>) -> Seq<char> {
    pair_segments(s)[1]
}

/// True when `s` is a pair whose two segments are both numerals of `T`.
pub open spec fn is_valid_pair<T: PairValue>(s: Seq<char>) -> bool {
    is_pair_shape(s) && T::spec_valid(pair_left(s)) && T::spec_valid(pair_right(s))
}

/// The one error that reading `s` as a pair of `T` values owes its caller:
/// a format error when the shape is wrong, else a conversion error naming the
/// leftmost segment that is not a numeral of `T`.
pub open spec fn pair_error_spec<T: PairValue>(s: Seq<char>, e: PairError) -> bool {
    if !is_pair_shape(s) {
        e is Format
    } else if !T::spec_valid(pair_left(s)) {
        &&& e matches PairError::Conversion { axis, token, kind }
        &&& axis == Axis::X
        &&& token@ == pair_left(s)
        &&& kind == T::spec_kind()
    } else {
        &&& !T::spec_valid(pair_right(s))
        &&& e matches PairError::Conversion { axis, token, kind }
        &&& axis == Axis::Y
        &&& token@ == pair_right(s)
        &&& kind == T::spec_kind()
    }
}

/// Reads `s` as a pair "x, y" of two `T` numerals.  Returns both values, in
/// order, exactly when `s` splits on the separator into exactly two segments
/// and both are numerals of `T`; otherwise returns the owed error.
pub fn get_pair<T: PairValue>(s: &str) -> (r: Result<(T, T), PairError>)
    ensures
        r is Ok <==> is_valid_pair::<T>(s@),
        r is Ok ==> r->Ok_0.0 == T::spec_value(pair_left(s@)) && r->Ok_0.1 == T::spec_value(
            pair_right(s@),
        ),
        r is Err ==> pair_error_spec::<T>(s@, r->Err_0),
{
    let sep = ", ";
    proof {
        reveal_strlit(", ");
        assert(sep@ =~= pair_sep());
    }
    let segs = split_on_exec(s, sep);
    proof {
        assert(segs.deep_view().len() == segs@.len());
    }
    if segs.len() != 2 {
        return Err(PairError::Format);
    }
    proof {
        assert(segs.deep_view()[0] == segs@[0]@);
        assert(segs.deep_view()[1] == segs@[1]@);
    }
    let x = match T::parse_value(segs[0].as_str()) {
        Some(v) => v,
        None => {
            return Err(
                PairError::Conversion { axis: Axis::X, token: segs[0].clone(), kind: T::kind() },
            );
        },
    };
    let y = match T::parse_value(segs[1].as_str()) {
        Some(v) => v,
        None => {
            return Err(
                PairError::Conversion { axis: Axis::Y, token: segs[1].clone(), kind: T::kind() },
            );
        },
    };
    Ok((x, y))
}

/// How often the pair separator occurs in `s`.
pub open spec fn pair_sep_count(s: Seq<char>) -> nat
    decreases s.len(),
{
    if s.len() < 2 {
        0
    } else {
        (if s[0] == ',' && s[1] == ' ' {
            1nat
        } else {
            0nat
        }) + pair_sep_count(s.skip(1))
    }
}

/// Splitting on the pair separator yields one more segment than the separator
/// occurs in the string.
proof fn lemma_pair_segment_count(s: Seq<char>)
    ensures
        pair_segments(s).len() == pair_sep_count(s) + 1,
    decreases s.len(),
{
    crate::split::lemma_split_len(s, pair_sep());
    if s.len() >= 2 && s[0] == ',' && s[1] == ' ' {
        assert(s.subrange(0, 2) =~= pair_sep());
        assert(sep_at(s, pair_sep(), 0));
        lemma_pair_segment_count(s.skip(2));
        crate::split::lemma_split_len(s.skip(2), pair_sep());
        if s.len() >= 3 {
            assert(s.skip(1)[0] == s[1]);
            assert(s.skip(1).skip(1) =~= s.skip(2));
        } else {
            assert(s.skip(1).len() == 1);
            assert(s.skip(2).len() == 0);
        }
    } else {
        if sep_at(s, pair_sep(), 0) {
            assert(s.subrange(0, 2)[0] == s[0]);
            assert(s.subrange(0, 2)[1] == s[1]);
            assert(false);
        }
        if s.len() == 0 {
        } else {
            lemma_pair_segment_count(s.skip(1));
            crate::split::lemma_split_len(s.skip(1), pair_sep());
        }
    }
}

/// A string has the shape of a pair exactly when the separator occurs in it
/// exactly once; any string lacking exactly one separator is refused with a
/// format error.
pub proof fn lemma_pair_shape_iff_one_separator(s: Seq<char>)
    ensures
        is_pair_shape(s) <==> pair_sep_count(s) == 1,
{
    lemma_pair_segment_count(s);
}

} // verus!
