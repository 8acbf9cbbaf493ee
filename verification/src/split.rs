use vstd::prelude::*;
use vstd::string::*;

verus! {

/// True when `sep` occurs in `s` starting at index `i`.
pub open spec fn sep_at(s: Seq<char>, sep: Seq<char>, i: int) -> bool {
    0 <= i && i + sep.len() <= s.len() && s.subrange(i, i + sep.len() as int) == sep
}

/// The segments of `s` between the leftmost-first, non-overlapping occurrences
/// of `sep`, in order, exactly as `str::split` yields them.  There is always at
/// least one segment: splitting the empty string gives one empty segment.
pub open spec fn split_on(s: Seq<char>, sep: Seq<char>) -> Seq<Seq<char>>
    decreases s.len(),
{
    if sep.len() > 0 && sep_at(s, sep, 0) {
        seq![Seq::<char>::empty()] + split_on(s.skip(sep.len() as int), sep)
    } else if s.len() == 0 {
        seq![Seq::<char>::empty()]
    } else {
        let rest = split_on(s.skip(1), sep);
        seq![seq![s[0]] + rest[0]] + rest.skip(1)
    }
}

pub proof fn lemma_split_len(s: Seq<char>, sep: Seq<char>)
    ensures
        split_on(s, sep).len() >= 1,
    decreases s.len(),
{
    if sep.len() > 0 && sep_at(s, sep, 0) {
    } else if s.len() == 0 {
    } else {
        lemma_split_len(s.skip(1), sep);
    }
}

/// An occurrence of `sep` within a suffix of `s` is an occurrence within `s`,
/// shifted by the start of the suffix.
pub proof fn lemma_sep_at_skip(s: Seq<char>, sep: Seq<char>, m: int, j: int)
    requires
        0 <= m <= s.len(),
        0 <= j,
    ensures
        sep_at(s.skip(m), sep, j) <==> sep_at(s, sep, j + m),
{
    if 0 <= j && j + sep.len() <= s.len() - m {
        assert(s.skip(m).subrange(j, j + sep.len() as int) =~= s.subrange(
            j + m,
            j + m + sep.len() as int,
        ));
    }
}

/// A prefix of `s` in which `sep` never starts lies entirely within the first
/// segment of the split: the split of `s` is the split of the rest of `s` with
/// that prefix glued onto its first segment.
pub proof fn lemma_split_clean_prefix(s: Seq<char>, sep: Seq<char>, k: int)
    requires
        sep.len() > 0,
        0 <= k <= s.len(),
        forall|j: int| 0 <= j < k ==> !sep_at(s, sep, j),
    ensures
        split_on(s, sep).len() == split_on(s.skip(k), sep).len(),
        split_on(s, sep)[0] == s.take(k) + split_on(s.skip(k), sep)[0],
        split_on(s, sep).skip(1) == split_on(s.skip(k), sep).skip(1),
    decreases k,
{
    lemma_split_len(s, sep);
    if k == 0 {
        assert(s.skip(0) =~= s);
        assert(s.take(0) + split_on(s, sep)[0] =~= split_on(s, sep)[0]);
    } else {
        assert(!sep_at(s, sep, 0));
        let rest = split_on(s.skip(1), sep);
        lemma_split_len(s.skip(1), sep);
        assert forall|j: int| 0 <= j < k - 1 implies !sep_at(s.skip(1), sep, j) by {
            lemma_sep_at_skip(s, sep, 1, j);
        }
        lemma_split_clean_prefix(s.skip(1), sep, k - 1);
        assert(s.skip(1).skip(k - 1) =~= s.skip(k));
        assert(s.take(k) =~= seq![s[0]] + s.skip(1).take(k - 1));
        assert(split_on(s, sep)[0] == seq![s[0]] + rest[0]);
        assert(seq![s[0]] + (s.skip(1).take(k - 1) + split_on(s.skip(k), sep)[0]) =~= s.take(k)
            + split_on(s.skip(k), sep)[0]);
        assert(split_on(s, sep).skip(1) =~= rest.skip(1));
    }
}

/// One segment, closed off by an occurrence of `sep` at `i`: splitting from
/// `start` yields the piece `[start, i)` and then the split of what follows
/// the separator.
pub proof fn lemma_split_step(s: Seq<char>, sep: Seq<char>, start: int, i: int)
    requires
        sep.len() > 0,
        0 <= start <= i,
        i + sep.len() <= s.len(),
        forall|j: int| start <= j < i ==> !sep_at(s, sep, j),
        sep_at(s, sep, i),
    ensures
        split_on(s.skip(start), sep) =~= seq![s.subrange(start, i)] + split_on(
            s.skip(i + sep.len()),
            sep,
        ),
{
    let tail = s.skip(start);
    assert forall|j: int| 0 <= j < i - start implies !sep_at(tail, sep, j) by {
        lemma_sep_at_skip(s, sep, start, j);
    }
    lemma_split_clean_prefix(tail, sep, i - start);
    lemma_sep_at_skip(s, sep, i, 0);
    assert(tail.skip(i - start) =~= s.skip(i));
    assert(sep_at(s.skip(i), sep, 0));
    assert(split_on(s.skip(i), sep) == seq![Seq::<char>::empty()] + split_on(
        s.skip(i).skip(sep.len() as int),
        sep,
    ));
    assert(s.skip(i).skip(sep.len() as int) =~= s.skip(i + sep.len()));
    lemma_split_len(s.skip(i + sep.len()), sep);
    assert(split_on(s.skip(i), sep)[0] == Seq::<char>::empty());
    assert(tail.take(i - start) + Seq::<char>::empty() =~= s.subrange(start, i));
    assert(split_on(s.skip(i), sep).skip(1) =~= split_on(s.skip(i + sep.len()), sep));
}

/// A suffix of `s` in which `sep` never starts is the whole last segment:
/// splitting from `start` yields exactly the piece `[start, len)`.
pub proof fn lemma_split_last(s: Seq<char>, sep: Seq<char>, start: int)
    requires
        sep.len() > 0,
        0 <= start <= s.len(),
        forall|j: int| start <= j ==> !sep_at(s, sep, j),
    ensures
        split_on(s.skip(start), sep) =~= seq![s.subrange(start, s.len() as int)],
{
    let tail = s.skip(start);
    assert forall|j: int| 0 <= j < tail.len() implies !sep_at(tail, sep, j) by {
        lemma_sep_at_skip(s, sep, start, j);
    }
    lemma_split_clean_prefix(tail, sep, tail.len() as int);
    let empty = tail.skip(tail.len() as int);
    assert(empty =~= Seq::<char>::empty());
    assert(!sep_at(empty, sep, 0));
    assert(split_on(empty, sep) == seq![Seq::<char>::empty()]);
    assert(tail.take(tail.len() as int) + Seq::<char>::empty() =~= s.subrange(
        start,
        s.len() as int,
    ));
    assert(split_on(tail, sep).skip(1) =~= Seq::<Seq<char>>::empty());
}

/// The line separator.
pub open spec fn newline() -> Seq<char> {
    seq!['\n']
}

/// Removes one carriage return from the end of a line, if one is there.
pub open spec fn strip_trailing_cr(l: Seq<char>) -> Seq<char> {
    if l.len() > 0 && l.last() == '\r' {
        l.drop_last()
    } else {
        l
    }
}

/// The lines of `s`, exactly as `str::lines` yields them: the segments between
/// newlines, with a final empty segment dropped, and with one carriage return
/// stripped from the end of every segment that a newline closed off.
pub open spec fn line_seq(s: Seq<char>) -> Seq<Seq<char>> {
    let raw = split_on(s, newline());
    let kept = if raw.last().len() == 0 {
        raw.drop_last()
    } else {
        raw
    };
    Seq::new(
        kept.len(),
        |i: int|
            if i < raw.len() - 1 {
                strip_trailing_cr(kept[i])
            } else {
                kept[i]
            },
    )
}

/// Splits `s` into its lines, exactly as `str::lines` does.
pub fn split_lines(s: &str) -> (r: Vec<String>)
    ensures
        r.deep_view() == line_seq(s@),
{
    let sep = "\n";
    proof {
        reveal_strlit("\n");
        assert(sep@ =~= newline());
    }
    let mut raw = split_on_exec(s, sep);
    let ghost raw_view = split_on(s@, newline());
    proof {
        lemma_split_len(s@, newline());
        assert(raw.deep_view() == raw_view);
        assert(raw.deep_view()[raw_view.len() - 1] == raw@[raw_view.len() - 1]@);
    }
    let rlen = raw.len();
    if raw[rlen - 1].as_str().is_empty() {
        let _ = raw.pop();
        proof {
            assert(raw.deep_view() =~= raw_view.drop_last());
        }
    }
    let keep = raw.len();
    proof {
        assert forall|j: int| 0 <= j < keep implies line_seq(s@)[j] == if j < rlen - 1 {
            strip_trailing_cr(raw.deep_view()[j])
        } else {
            raw.deep_view()[j]
        } by {
            assert(raw.deep_view()[j] == raw_view[j]);
        }
    }
    let mut out: Vec<String> = Vec::new();
    let mut i: usize = 0;
    while i < keep
        invariant
            keep == raw.len(),
            rlen == raw_view.len(),
            keep == line_seq(s@).len(),
            i <= keep,
            forall|j: int| 0 <= j < keep ==> line_seq(s@)[j] == if j < rlen - 1 {
                strip_trailing_cr(raw.deep_view()[j])
            } else {
                raw.deep_view()[j]
            },
            out.deep_view().len() == i,
            forall|j: int| 0 <= j < i ==> out.deep_view()[j] == line_seq(s@)[j],
        decreases keep - i,
    {
        let piece = &raw[i];
        let plen = piece.as_str().unicode_len();
        let ghost l = raw.deep_view()[i as int];
        let ghost target = line_seq(s@)[i as int];
        let ghost old_dv = out.deep_view();
        proof {
            assert(l == raw@[i as int]@);
        }
        if i + 1 < rlen && plen > 0 && piece.as_str().get_char(plen - 1) == '\r' {
            proof {
                assert(target == l.drop_last());
                assert(l.subrange(0, plen - 1) =~= target);
            }
            out.push(String::from_str(piece.as_str().substring_char(0, plen - 1)));
        } else {
            proof {
                assert(target == l);
            }
            out.push(String::from_str(piece.as_str()));
        }
        proof {
            assert(out.deep_view() =~= old_dv.push(target));
        }
        i = i + 1;
    }
    proof {
        assert(out.deep_view() =~= line_seq(s@));
    }
    out
}

/// Splits `s` on the separator `sep`, leftmost first, exactly as `str::split`
/// does.
pub fn split_on_exec(s: &str, sep: &str) -> (r: Vec<String>)
    requires
        sep@.len() > 0,
    ensures
        r.deep_view() == split_on(s@, sep@),
{
    let n = s.unicode_len();
    let m = sep.unicode_len();
    let mut out: Vec<String> = Vec::new();
    let mut start: usize = 0;
    let mut i: usize = 0;
    proof {
        assert(out.deep_view() =~= Seq::<Seq<char>>::empty());
        assert(s@.skip(0) =~= s@);
        assert(out.deep_view() + split_on(s@.skip(0), sep@) =~= split_on(s@, sep@));
    }
    if m <= n {
        while i <= n - m
            invariant
                sep@.len() == m,
                s@.len() == n,
                m >= 1,
                m <= n,
                start <= i <= n,
                out.deep_view() + split_on(s@.skip(start as int), sep@) =~= split_on(s@, sep@),
                forall|j: int| start <= j < i ==> !sep_at(s@, sep@, j),
            decreases n - i,
        {
            let mut j: usize = 0;
            let mut hit = true;
            while j < m
                invariant
                    sep@.len() == m,
                    s@.len() == n,
                    i + m <= n,
                    j <= m,
                    hit <==> (forall|j2: int| 0 <= j2 < j ==> s@[i + j2] == sep@[j2]),
                decreases m - j,
            {
                if s.get_char(i + j) != sep.get_char(j) {
                    hit = false;
                    assert(s@[i + j] != sep@[j as int]);
                    j = m;
                } else {
                    j = j + 1;
                }
            }
            if hit {
                proof {
                    assert(s@.subrange(i as int, i + m) =~= sep@);
                    assert(sep_at(s@, sep@, i as int));
                    lemma_split_step(s@, sep@, start as int, i as int);
                }
                let piece = String::from_str(s.substring_char(start, i));
                let ghost old_out = out.deep_view();
                out.push(piece);
                proof {
                    assert(out.deep_view() =~= old_out.push(s@.subrange(start as int, i as int)));
                    assert(old_out + (seq![s@.subrange(start as int, i as int)] + split_on(
                        s@.skip(i + m),
                        sep@,
                    )) =~= out.deep_view() + split_on(s@.skip(i + m), sep@));
                    assert(out.deep_view() + split_on(s@.skip(i + m), sep@) =~= split_on(
                        s@,
                        sep@,
                    ));
                }
                start = i + m;
                i = i + m;
            } else {
                proof {
                    let j_bad = choose|j2: int| 0 <= j2 < m && s@[i + j2] != sep@[j2];
                    if sep_at(s@, sep@, i as int) {
                        assert(s@.subrange(i as int, i + m)[j_bad] == s@[i + j_bad]);
                    }
                    assert(!sep_at(s@, sep@, i as int));
                }
                i = i + 1;
            }
        }
    }
    proof {
        assert forall|j: int| start <= j implies !sep_at(s@, sep@, j) by {
            if j + m <= n {
                assert(start <= j < i);
            }
        }
        lemma_split_last(s@, sep@, start as int);
    }
    let piece = String::from_str(s.substring_char(start, n));
    let ghost old_out = out.deep_view();
    out.push(piece);
    proof {
        assert(out.deep_view() =~= old_out.push(s@.subrange(start as int, n as int)));
        assert(out.deep_view() =~= old_out + split_on(s@.skip(start as int), sep@));
        assert(out.deep_view() =~= split_on(s@, sep@));
    }
    out
}

} // verus!
