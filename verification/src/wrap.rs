use vstd::prelude::*;
use vstd::string::StrSliceExecFns;

verus! {

/// The characters of `s`, in order, as a vector.
pub fn str_chars(s: &str) -> (r: Vec<char>)
    ensures
        r@ == s@,
{
    let n = s.unicode_len();
    let mut r: Vec<char> = Vec::new();
    let mut i: usize = 0;
    while i < n
        invariant
            i <= n,
            n == s@.len(),
            r@ == s@.take(i as int),
        decreases n - i,
    {
        r.push(s.get_char(i));
        proof {
            assert(s@.take(i as int).push(s@[i as int]) =~= s@.take(i as int + 1));
        }
        i += 1;
    }
    proof {
        assert(s@.take(n as int) =~= s@);
    }
    r
}

/// The views of a sequence of character vectors, as a sequence of rows.
pub open spec fn view_rows(v: Seq<Vec<char>>) -> Seq<Seq<char>> {
    Seq::new(v.len(), |i: int| v[i]@)
}

/// Index of the first newline in `s`, or `s.len()` when there is none.
pub open spec fn first_newline(s: Seq<char>) -> nat
    decreases s.len(),
{
    if s.len() == 0 {
        0
    } else if s[0] == '\n' {
        0
    } else {
        1 + first_newline(s.drop_first())
    }
}

/// The segments of `s` between newline characters: one (possibly empty)
/// segment more than there are newlines, in order.
pub open spec fn split_newlines(s: Seq<char>) -> Seq<Seq<char>>
    decreases s.len(),
{
    let i = first_newline(s);
    if i >= s.len() {
        seq![s]
    } else {
        seq![s.take(i as int)] + split_newlines(s.skip(i as int + 1))
    }
}

/// Greedy wrap of one newline-free segment: full rows of exactly `mw`
/// characters, and a final (possibly empty, possibly full) shorter row.
pub open spec fn wrap_segment(s: Seq<char>, mw: int) -> Seq<Seq<char>>
    decreases s.len(),
{
    if mw < 1 || s.len() <= mw {
        seq![s]
    } else {
        seq![s.take(mw)] + wrap_segment(s.skip(mw), mw)
    }
}

/// The rows produced by wrapping each segment in order.
pub open spec fn wrap_all(segs: Seq<Seq<char>>, mw: int) -> Seq<Seq<char>>
    decreases segs.len(),
{
    if segs.len() == 0 {
        Seq::empty()
    } else {
        wrap_segment(segs[0], mw) + wrap_all(segs.drop_first(), mw)
    }
}

/// All rows produced for the text `s`: split on newlines, then wrap each
/// segment at `mw` characters.
pub open spec fn wrap_rows(s: Seq<char>, mw: int) -> Seq<Seq<char>> {
    wrap_all(split_newlines(s), mw)
}

/// The concatenation of a sequence of rows.
pub open spec fn concat_rows(rows: Seq<Seq<char>>) -> Seq<char>
    decreases rows.len(),
{
    if rows.len() == 0 {
        Seq::empty()
    } else {
        rows[0] + concat_rows(rows.drop_first())
    }
}

pub proof fn lemma_first_newline(s: Seq<char>)
    ensures
        first_newline(s) <= s.len(),
        forall|k: int| 0 <= k < first_newline(s) ==> s[k] != '\n',
        first_newline(s) < s.len() ==> s[first_newline(s) as int] == '\n',
    decreases s.len(),
{
    if s.len() != 0 && s[0] != '\n' {
        lemma_first_newline(s.drop_first());
        assert forall|k: int| 0 <= k < first_newline(s) implies s[k] != '\n' by {
            if k > 0 {
                assert(s.drop_first()[k - 1] != '\n');
            }
        }
    }
}

pub proof fn lemma_first_newline_prefix(a: Seq<char>, b: Seq<char>)
    requires
        forall|k: int| 0 <= k < a.len() ==> a[k] != '\n',
    ensures
        first_newline(a + b) == a.len() + first_newline(b),
    decreases a.len(),
{
    if a.len() == 0 {
        assert(a + b =~= b);
    } else {
        assert((a + b)[0] == a[0]);
        assert((a + b).drop_first() =~= a.drop_first() + b);
        assert(forall|k: int| 0 <= k < a.drop_first().len() ==> a.drop_first()[k] != '\n');
        lemma_first_newline_prefix(a.drop_first(), b);
    }
}

/// A text without newlines is a single segment.
pub proof fn lemma_split_no_newline(s: Seq<char>)
    requires
        forall|k: int| 0 <= k < s.len() ==> s[k] != '\n',
    ensures
        split_newlines(s) == seq![s],
{
    lemma_first_newline(s);
    if first_newline(s) < s.len() {
        assert(s[first_newline(s) as int] == '\n');
        assert(false);
    }
}

/// Splitting a text that starts with a newline-free segment, a newline, and a
/// remainder yields that segment followed by the split of the remainder.
pub proof fn lemma_split_step(a: Seq<char>, rest: Seq<char>)
    requires
        forall|k: int| 0 <= k < a.len() ==> a[k] != '\n',
    ensures
        split_newlines(a + seq!['\n'] + rest) == seq![a] + split_newlines(rest),
{
    let s = a + seq!['\n'] + rest;
    assert(seq!['\n'] + rest =~= (seq!['\n'] + rest));
    assert(s =~= a + (seq!['\n'] + rest));
    lemma_first_newline_prefix(a, seq!['\n'] + rest);
    assert((seq!['\n'] + rest)[0] == '\n');
    assert(first_newline(seq!['\n'] + rest) == 0);
    let i = first_newline(s);
    assert(i == a.len());
    assert(i < s.len());
    assert(s.take(i as int) =~= a);
    assert(s.skip(i as int + 1) =~= rest);
}

/// Each row a segment wraps to holds at most `mw` characters.
pub proof fn lemma_wrap_segment_bounded(s: Seq<char>, mw: int)
    requires
        mw >= 1,
    ensures
        forall|k: int|
            0 <= k < wrap_segment(s, mw).len() ==> #[trigger] wrap_segment(s, mw)[k].len() <= mw,
    decreases s.len(),
{
    if s.len() > mw {
        lemma_wrap_segment_bounded(s.skip(mw), mw);
        assert forall|k: int|
            0 <= k < wrap_segment(s, mw).len() implies #[trigger] wrap_segment(s, mw)[k].len()
            <= mw by {
            if k > 0 {
                assert(wrap_segment(s, mw)[k] == wrap_segment(s.skip(mw), mw)[k - 1]);
            }
        }
    }
}

/// The rows a segment wraps to concatenate back to the segment.
pub proof fn lemma_wrap_segment_lossless(s: Seq<char>, mw: int)
    requires
        mw >= 1,
    ensures
        concat_rows(wrap_segment(s, mw)) == s,
    decreases s.len(),
{
    if s.len() <= mw {
        let rows = wrap_segment(s, mw);
        assert(rows == seq![s]);
        assert(rows.drop_first() =~= Seq::<Seq<char>>::empty());
        assert(concat_rows(rows) == s + concat_rows(Seq::empty()));
        assert(s + Seq::<char>::empty() =~= s);
    } else {
        lemma_wrap_segment_lossless(s.skip(mw), mw);
        let rows = wrap_segment(s, mw);
        assert(rows.drop_first() =~= wrap_segment(s.skip(mw), mw));
        assert(concat_rows(rows) == s.take(mw) + concat_rows(wrap_segment(s.skip(mw), mw)));
        assert(s.take(mw) + s.skip(mw) =~= s);
    }
}

/// Wrapping is lossless and order-preserving: for a text without newlines,
/// each produced row holds at most `mw` characters, and the produced rows
/// concatenate back to the original character sequence.
pub proof fn lemma_wrap_lossless(s: Seq<char>, mw: int)
    requires
        mw >= 1,
        forall|k: int| 0 <= k < s.len() ==> s[k] != '\n',
    ensures
        concat_rows(wrap_rows(s, mw)) == s,
        forall|k: int|
            0 <= k < wrap_rows(s, mw).len() ==> #[trigger] wrap_rows(s, mw)[k].len() <= mw,
    decreases s.len(),
{
    lemma_split_no_newline(s);
    let segs = seq![s];
    assert(segs.drop_first() =~= Seq::<Seq<char>>::empty());
    assert(wrap_all(segs, mw) == wrap_segment(s, mw) + wrap_all(Seq::empty(), mw));
    assert(wrap_all(segs, mw) =~= wrap_segment(s, mw));
    lemma_wrap_segment_bounded(s, mw);
    lemma_wrap_segment_lossless(s, mw);
}

/// Empty text wraps to exactly one empty row, whatever the width.
pub proof fn lemma_wrap_empty(mw: int)
    ensures
        wrap_rows(Seq::empty(), mw) == seq![Seq::<char>::empty()],
{
    let segs = split_newlines(Seq::empty());
    assert(segs == seq![Seq::<char>::empty()]);
    assert(segs.drop_first() =~= Seq::<Seq<char>>::empty());
    assert(wrap_segment(Seq::empty(), mw) == seq![Seq::<char>::empty()]);
    assert(wrap_all(segs, mw) == wrap_segment(segs[0], mw) + wrap_all(segs.drop_first(), mw));
    assert(wrap_segment(Seq::empty(), mw) + wrap_all(Seq::empty(), mw) =~= seq![
        Seq::<char>::empty(),
    ]);
}

/// Every newline-separated segment yields at least one row, blank segments
/// included: there are at least as many rows as segments.
pub proof fn lemma_one_row_per_segment(segs: Seq<Seq<char>>, mw: int)
    ensures
        wrap_all(segs, mw).len() >= segs.len(),
    decreases segs.len(),
{
    if segs.len() > 0 {
        lemma_one_row_per_segment(segs.drop_first(), mw);
        assert(wrap_segment(segs[0], mw).len() >= 1) by {
            if segs[0].len() > mw && mw >= 1 {
            }
        }
    }
}

/// Wrapping the segments one more segment in: the rows of the added segment
/// come after the rows of the earlier segments.
pub proof fn lemma_wrap_all_push(segs: Seq<Seq<char>>, seg: Seq<char>, mw: int)
    ensures
        wrap_all(segs.push(seg), mw) == wrap_all(segs, mw) + wrap_segment(seg, mw),
    decreases segs.len(),
{
    if segs.len() == 0 {
        assert(segs.push(seg)[0] == seg);
        assert(segs.push(seg).drop_first() =~= Seq::<Seq<char>>::empty());
        assert(wrap_all(segs.push(seg), mw) == wrap_segment(segs.push(seg)[0], mw) + wrap_all(
            segs.push(seg).drop_first(),
            mw,
        ));
        assert(wrap_segment(seg, mw) + wrap_all(Seq::empty(), mw) =~= wrap_segment(seg, mw));
        assert(wrap_all(segs, mw) + wrap_segment(seg, mw) =~= wrap_segment(seg, mw));
    } else {
        assert(segs.push(seg).drop_first() =~= segs.drop_first().push(seg));
        lemma_wrap_all_push(segs.drop_first(), seg, mw);
        assert(segs.push(seg)[0] == segs[0]);
        assert(wrap_all(segs.push(seg), mw) == wrap_segment(segs[0], mw) + (wrap_all(
            segs.drop_first(),
            mw,
        ) + wrap_segment(seg, mw)));
        assert(wrap_segment(segs[0], mw) + (wrap_all(segs.drop_first(), mw) + wrap_segment(
            seg,
            mw,
        )) =~= (wrap_segment(segs[0], mw) + wrap_all(segs.drop_first(), mw)) + wrap_segment(
            seg,
            mw,
        ));
    }
}

/// Splits `text` into its newline-separated segments.
pub fn split_newline_segments(text: &Vec<char>) -> (segs: Vec<Vec<char>>)
    ensures
        view_rows(segs@) == split_newlines(text@),
{
    let mut segs: Vec<Vec<char>> = Vec::new();
    let mut cur: Vec<char> = Vec::new();
    let mut i: usize = 0;
    proof {
        assert(cur@ + text@.skip(0) =~= text@);
        assert(view_rows(segs@) =~= Seq::<Seq<char>>::empty());
    }
    while i < text.len()
        invariant
            i <= text.len(),
            forall|k: int| 0 <= k < cur@.len() ==> cur@[k] != '\n',
            split_newlines(text@) == view_rows(segs@) + split_newlines(cur@ + text@.skip(i as int)),
        decreases text.len() - i,
    {
        let c = text[i];
        if c == '\n' {
            proof {
                lemma_split_step(cur@, text@.skip(i as int + 1));
                assert(cur@ + text@.skip(i as int) =~= cur@ + seq!['\n'] + text@.skip(i as int + 1));
                assert(view_rows(segs@.push(cur)) =~= view_rows(segs@).push(cur@));
                assert(view_rows(segs@) + (seq![cur@] + split_newlines(text@.skip(i as int + 1)))
                    =~= view_rows(segs@).push(cur@) + split_newlines(text@.skip(i as int + 1)));
            }
            segs.push(cur);
            cur = Vec::new();
            proof {
                assert(cur@ + text@.skip(i as int + 1) =~= text@.skip(i as int + 1));
            }
        } else {
            proof {
                assert(cur@.push(c) + text@.skip(i as int + 1) =~= cur@ + text@.skip(i as int));
            }
            cur.push(c);
        }
        i += 1;
    }
    proof {
        lemma_split_no_newline(cur@);
        assert(cur@ + text@.skip(text@.len() as int) =~= cur@);
        assert(view_rows(segs@.push(cur)) =~= view_rows(segs@).push(cur@));
        assert(view_rows(segs@) + seq![cur@] =~= view_rows(segs@).push(cur@));
    }
    segs.push(cur);
    segs
}

/// Greedily wraps one newline-free segment into rows of at most `mw`
/// characters; the final working row is kept even when it is empty.
pub fn wrap_line(seg: &Vec<char>, mw: usize) -> (rows: Vec<Vec<char>>)
    requires
        mw >= 1,
    ensures
        view_rows(rows@) == wrap_segment(seg@, mw as int),
{
    let mut rows: Vec<Vec<char>> = Vec::new();
    let mut line: Vec<char> = Vec::new();
    let mut i: usize = 0;
    proof {
        assert(line@ + seg@.skip(0) =~= seg@);
        assert(view_rows(rows@) =~= Seq::<Seq<char>>::empty());
        assert(Seq::<Seq<char>>::empty() + wrap_segment(seg@, mw as int) =~= wrap_segment(
            seg@,
            mw as int,
        ));
    }
    while i < seg.len()
        invariant
            mw >= 1,
            i <= seg.len(),
            line@.len() <= mw,
            wrap_segment(seg@, mw as int) == view_rows(rows@) + wrap_segment(
                line@ + seg@.skip(i as int),
                mw as int,
            ),
        decreases seg.len() - i,
    {
        if line.len() == mw {
            proof {
                let rest = line@ + seg@.skip(i as int);
                assert(rest.len() > mw);
                assert(rest.take(mw as int) =~= line@);
                assert(rest.skip(mw as int) =~= seg@.skip(i as int));
                assert(view_rows(rows@.push(line)) =~= view_rows(rows@).push(line@));
                assert(view_rows(rows@) + (seq![line@] + wrap_segment(
                    seg@.skip(i as int),
                    mw as int,
                )) =~= view_rows(rows@).push(line@) + wrap_segment(seg@.skip(i as int), mw as int));
            }
            rows.push(line);
            line = Vec::new();
            proof {
                assert(line@ + seg@.skip(i as int) =~= seg@.skip(i as int));
            }
        }
        proof {
            assert(line@.push(seg@[i as int]) + seg@.skip(i as int + 1) =~= line@ + seg@.skip(
                i as int,
            ));
        }
        line.push(seg[i]);
        i += 1;
    }
    proof {
        assert(line@ + seg@.skip(seg@.len() as int) =~= line@);
        assert(wrap_segment(line@, mw as int) == seq![line@]);
        assert(view_rows(rows@.push(line)) =~= view_rows(rows@).push(line@));
        assert(view_rows(rows@) + seq![line@] =~= view_rows(rows@).push(line@));
    }
    rows.push(line);
    rows
}

} // verus!
