use vstd::prelude::*;
use vstd::string::*;

verus! {

/// True when `c` is an ASCII decimal digit.
pub open spec fn is_digit(c: char) -> bool {
    '0' as u32 <= c as u32 && c as u32 <= '9' as u32
}

/// Numeric value of a digit character; zero for anything else.
pub open spec fn digit_value(c: char) -> nat {
    if is_digit(c) {
        (c as u32 - '0' as u32) as nat
    } else {
        0
    }
}

/// True when every character of `s` is a decimal digit.
pub open spec fn all_digits(s: Seq<char>) -> bool {
    forall|i: int| 0 <= i < s.len() ==> is_digit(s[i])
}

/// The base-ten value of a digit string.
pub open spec fn digits_value(s: Seq<char>) -> nat
    decreases s.len(),
{
    if s.len() == 0 {
        0
    } else {
        digits_value(s.drop_last()) * 10 + digit_value(s.last())
    }
}

/// Reading one more digit multiplies the value so far by ten and adds it.
proof fn lemma_digits_value_snoc(s: Seq<char>, a: int, i: int)
    requires
        0 <= a <= i < s.len(),
    ensures
        digits_value(s.subrange(a, i + 1)) == digits_value(s.subrange(a, i)) * 10 + digit_value(
            s[i],
        ),
{
    assert(s.subrange(a, i + 1).drop_last() =~= s.subrange(a, i));
    assert(s.subrange(a, i + 1).last() == s[i]);
}

/// Reads the digits of `s` in `[start, end)` and returns their value, capped:
/// any value above `u32::MAX` comes back as exactly `0x1_0000_0000`.  Returns
/// `None` when a non-digit stands in the range.
fn scan_digits(s: &str, start: usize, end: usize) -> (r: Option<u64>)
    requires
        start <= end <= s@.len(),
    ensures
        r is Some <==> all_digits(s@.subrange(start as int, end as int)),
        r is Some ==> ({
            let dv = digits_value(s@.subrange(start as int, end as int));
            &&& (dv <= 4294967295 ==> r->0 == dv)
            &&& (dv > 4294967295 <==> r->0 == 4294967296)
        }),
{
    let mut acc: u64 = 0;
    let mut i = start;
    proof {
        assert(s@.subrange(start as int, start as int) =~= Seq::<char>::empty());
    }
    while i < end
        invariant
            start <= i <= end <= s@.len(),
            all_digits(s@.subrange(start as int, i as int)),
            acc <= 4294967296,
            ({
                let dv = digits_value(s@.subrange(start as int, i as int));
                &&& (dv <= 4294967295 ==> acc == dv)
                &&& (dv > 4294967295 <==> acc == 4294967296)
            }),
        decreases end - i,
    {
        let c = s.get_char(i);
        if !('0' as u32 <= c as u32 && c as u32 <= '9' as u32) {
            proof {
                assert(s@.subrange(start as int, end as int)[i - start] == s@[i as int]);
            }
            return None;
        }
        let d = (c as u32 - '0' as u32) as u64;
        proof {
            lemma_digits_value_snoc(s@, start as int, i as int);
            assert(s@.subrange(start as int, i + 1)[i - start] == s@[i as int]);
            assert forall|j: int| 0 <= j < i + 1 - start implies #[trigger] is_digit(
                s@.subrange(start as int, i + 1)[j],
            ) by {
                assert(s@.subrange(start as int, i + 1)[j] == s@[start + j]);
                if j < i - start {
                    assert(s@.subrange(start as int, i as int)[j] == s@[start + j]);
                }
            }
        }
        let next = acc * 10 + d;
        acc = if next > 4294967295 {
            4294967296
        } else {
            next
        };
        i = i + 1;
    }
    Some(acc)
}

/// The numeral after an optional leading plus sign.
pub open spec fn unsigned_body(s: Seq<char>) -> Seq<char> {
    if s.len() > 0 && s[0] == '+' {
        s.skip(1)
    } else {
        s
    }
}

/// True when `s` parses as a `u32`: an optional plus sign, then at least one
/// digit, with a value no greater than `u32::MAX`.
pub open spec fn is_valid_u32(s: Seq<char>) -> bool {
    let b = unsigned_body(s);
    b.len() > 0 && all_digits(b) && digits_value(b) <= u32::MAX
}

/// The value `s` parses to as a `u32`.
pub open spec fn u32_value(s: Seq<char>) -> nat {
    digits_value(unsigned_body(s))
}

/// Parses `s` as a `u32`, exactly as `str::parse::<u32>` accepts or rejects it.
pub fn parse_u32(s: &str) -> (r: Option<u32>)
    ensures
        r is Some <==> is_valid_u32(s@),
        r is Some ==> r->0 == u32_value(s@),
{
    let n = s.unicode_len();
    let start: usize = if n > 0 && s.get_char(0) == '+' {
        1
    } else {
        0
    };
    proof {
        assert(unsigned_body(s@) =~= s@.subrange(start as int, n as int));
    }
    if start == n {
        return None;
    }
    let v = match scan_digits(s, start, n) {
        None => {
            return None;
        },
        Some(v) => v,
    };
    if v > 4294967295 {
        return None;
    }
    Some(v as u32)
}

/// The numeral after an optional leading plus or minus sign.
pub open spec fn signed_body(s: Seq<char>) -> Seq<char> {
    if s.len() > 0 && (s[0] == '+' || s[0] == '-') {
        s.skip(1)
    } else {
        s
    }
}

/// The sign a leading minus gives the value.
pub open spec fn sign_of(s: Seq<char>) -> int {
    if s.len() > 0 && s[0] == '-' {
        -1
    } else {
        1
    }
}

/// The value `s` parses to as an `i32`.
pub open spec fn i32_value(s: Seq<char>) -> int {
    sign_of(s) * digits_value(signed_body(s))
}

/// True when `s` parses as an `i32`: an optional sign, then at least one
/// digit, with a value in the range of `i32`.
pub open spec fn is_valid_i32(s: Seq<char>) -> bool {
    let b = signed_body(s);
    b.len() > 0 && all_digits(b) && i32::MIN <= i32_value(s) <= i32::MAX
}

/// Parses `s` as an `i32`, exactly as `str::parse::<i32>` accepts or rejects
/// it.
pub fn parse_i32(s: &str) -> (r: Option<i32>)
    ensures
        r is Some <==> is_valid_i32(s@),
        r is Some ==> r->0 == i32_value(s@),
{
    let n = s.unicode_len();
    let mut neg = false;
    let mut start: usize = 0;
    if n > 0 {
        let c = s.get_char(0);
        if c == '-' {
            neg = true;
            start = 1;
        } else if c == '+' {
            start = 1;
        }
    }
    proof {
        assert(signed_body(s@) =~= s@.subrange(start as int, n as int));
    }
    if start == n {
        return None;
    }
    let v = match scan_digits(s, start, n) {
        None => {
            return None;
        },
        Some(v) => v,
    };
    if neg {
        if v > 2147483648 {
            return None;
        }
        if v == 2147483648 {
            Some(i32::MIN)
        } else {
            Some(-(v as i32))
        }
    } else {
        if v > 2147483647 {
            return None;
        }
        Some(v as i32)
    }
}

/// A screen coordinate read from one decimal numeral: the numeral's value
/// truncated toward zero and clamped to the range of `i32`.
#[derive(Clone, Copy, Debug, PartialEq, Eq, Structural)]
pub struct Coord {
    pub trunc: i32,
}

/// True when `k` splits the unsigned part of a decimal numeral correctly:
/// digits up to `k`, then either the end of the numeral or a decimal point
/// followed by digits, with at least one digit overall.
pub open spec fn decimal_witness_at(b: Seq<char>, k: int) -> bool {
    &&& 0 <= k <= b.len()
    &&& all_digits(b.take(k))
    &&& (k == b.len() || (b[k] == '.' && all_digits(b.skip(k + 1))))
    &&& (if k == b.len() {
        b.len() > 0
    } else {
        b.len() > 1
    })
}

/// True when `s` parses as a plain decimal numeral: an optional sign, then
/// digits with at most one decimal point among them and at least one digit.
pub open spec fn is_valid_decimal(s: Seq<char>) -> bool {
    exists|k: int| decimal_witness_at(signed_body(s), k)
}

/// Where the integer digits of a decimal numeral end.
pub open spec fn decimal_dot(b: Seq<char>) -> int {
    choose|k: int| decimal_witness_at(b, k)
}

/// `v` forced into the range of `i32`, as a saturating cast would.
pub open spec fn clamp_i32(v: int) -> int {
    if v < i32::MIN {
        i32::MIN as int
    } else if v > i32::MAX {
        i32::MAX as int
    } else {
        v
    }
}

/// The value of a decimal numeral truncated toward zero — its sign applied to
/// its integer digits alone — and clamped to the range of `i32`, as casting a
/// parsed floating-point coordinate to `i32` would truncate and saturate it.
pub open spec fn decimal_trunc(s: Seq<char>) -> int {
    let b = signed_body(s);
    clamp_i32(sign_of(s) * digits_value(b.take(decimal_dot(b))))
}

/// A decimal numeral splits at only one place: its decimal point, or its end.
proof fn lemma_decimal_dot_unique(b: Seq<char>, k: int)
    requires
        decimal_witness_at(b, k),
    ensures
        is_valid_decimal_body_at(b, k),
{
    let k2 = decimal_dot(b);
    assert(decimal_witness_at(b, k2));
    if k2 < k {
        assert(is_digit(b.take(k)[k2]));
        assert(k2 < b.len());
        assert(b[k2] == '.');
        assert(false);
    }
    if k < k2 {
        assert(is_digit(b.take(k2)[k]));
        assert(k < b.len());
        assert(b[k] == '.');
        assert(false);
    }
}

/// True when the numeral is valid and its integer digits end at `k`.
pub open spec fn is_valid_decimal_body_at(b: Seq<char>, k: int) -> bool {
    decimal_witness_at(b, k) && decimal_dot(b) == k
}

/// Parses `s` as a decimal numeral and truncates it toward zero, clamped to
/// the range of `i32`.  Accepts and rejects exactly as `str::parse::<f32>`
/// does on plain numerals, ones without an exponent part or a named value
/// such as an infinity.
pub fn parse_decimal_trunc(s: &str) -> (r: Option<i32>)
    ensures
        r is Some <==> is_valid_decimal(s@),
        r is Some ==> r->0 == decimal_trunc(s@),
{
    let n = s.unicode_len();
    let mut neg = false;
    let mut start: usize = 0;
    if n > 0 {
        let c = s.get_char(0);
        if c == '-' {
            neg = true;
            start = 1;
        } else if c == '+' {
            start = 1;
        }
    }
    let ghost b = signed_body(s@);
    proof {
        assert(b =~= s@.subrange(start as int, n as int));
    }
    let mut dend: usize = start;
    while dend < n && s.get_char(dend) != '.'
        invariant
            start <= dend <= n <= s@.len(),
            forall|j: int| start <= j < dend ==> s@[j] != '.',
        decreases n - dend,
    {
        dend = dend + 1;
    }
    let ghost k: int = dend as int - start as int;
    let int_v = match scan_digits(s, start, dend) {
        None => {
            proof {
                let bad = choose|j: int|
                    0 <= j < dend - start && !is_digit(
                        #[trigger] s@.subrange(start as int, dend as int)[j],
                    );
                assert(s@.subrange(start as int, dend as int)[bad] == b[bad]);
                assert forall|k2: int| !decimal_witness_at(b, k2) by {
                    if decimal_witness_at(b, k2) {
                        if bad < k2 {
                            assert(is_digit(b.take(k2)[bad]));
                        } else if bad == k2 {
                            assert(k2 < b.len());
                            assert(b[k2] == '.');
                            assert(s@[start + bad] != '.');
                        } else {
                            assert(k2 < bad < b.len());
                            assert(b[k2] == '.');
                            assert(s@[start + k2] != '.');
                        }
                    }
                }
            }
            return None;
        },
        Some(v) => v,
    };
    let has_dot = dend < n;
    if has_dot {
        match scan_digits(s, dend + 1, n) {
            None => {
                proof {
                    let off = choose|j: int|
                        0 <= j < n - dend - 1 && !is_digit(
                            #[trigger] s@.subrange(dend + 1, n as int)[j],
                        );
                    let bad = k + 1 + off;
                    assert(s@.subrange(dend + 1, n as int)[off] == b[bad]);
                    assert(s@[dend as int] == '.');
                    assert(b[k] == '.');
                    assert forall|k2: int| !decimal_witness_at(b, k2) by {
                        if decimal_witness_at(b, k2) {
                            if k2 < k {
                                assert(k2 < b.len());
                                assert(b[k2] == '.');
                                assert(is_digit(s@.subrange(start as int, dend as int)[k2]));
                                assert(s@.subrange(start as int, dend as int)[k2] == b[k2]);
                            } else if k2 == k {
                                assert(is_digit(b.skip(k2 + 1)[off]));
                            } else {
                                assert(is_digit(b.take(k2)[k]));
                            }
                        }
                    }
                }
                return None;
            },
            Some(_) => {},
        }
    }
    let digit_count = (dend - start) + if has_dot {
        (n - dend) - 1
    } else {
        0
    };
    if digit_count == 0 {
        proof {
            assert forall|k2: int| !decimal_witness_at(b, k2) by {
                if decimal_witness_at(b, k2) {
                    if has_dot {
                        assert(b.len() == 1);
                        assert(b[0] == '.');
                        if k2 == 0 {
                            assert(b.len() > 1);
                        } else {
                            assert(is_digit(b.take(k2)[0]));
                        }
                    } else {
                        assert(b.len() == 0);
                    }
                }
            }
        }
        return None;
    }
    proof {
        assert(b.take(k) =~= s@.subrange(start as int, dend as int));
        if has_dot {
            assert(b[k] == s@[dend as int]);
            assert(b.skip(k + 1) =~= s@.subrange(dend + 1, n as int));
        }
        assert(decimal_witness_at(b, k));
        lemma_decimal_dot_unique(b, k);
    }
    let r: i32 = if neg {
        if int_v >= 2147483648 {
            i32::MIN
        } else {
            -(int_v as i32)
        }
    } else {
        if int_v >= 2147483648 {
            i32::MAX
        } else {
            int_v as i32
        }
    };
    Some(r)
}

} // verus!
