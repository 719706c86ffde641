use vstd::prelude::*;
use crate::wrap::{
    split_newline_segments, split_newlines, str_chars, view_rows, wrap_all, wrap_line, wrap_rows,
};

verus! {

/// One push: the oldest row (index 0) leaves, the new row enters at the end.
pub open spec fn pushed(rows: Seq<Seq<char>>, line: Seq<char>) -> Seq<Seq<char>> {
    rows.drop_first().push(line)
}

/// Pushing each of `lines` in order, oldest first.
pub open spec fn pushed_all(rows: Seq<Seq<char>>, lines: Seq<Seq<char>>) -> Seq<Seq<char>>
    decreases lines.len(),
{
    if lines.len() == 0 {
        rows
    } else {
        pushed_all(pushed(rows, lines[0]), lines.drop_first())
    }
}

/// Pushing a batch of lines keeps the buffer length constant: the result is
/// the concatenation of old rows and new lines, with as many of the oldest
/// entries dropped as lines were pushed.
pub proof fn lemma_pushed_all(rows: Seq<Seq<char>>, lines: Seq<Seq<char>>)
    requires
        rows.len() >= 1,
    ensures
        pushed_all(rows, lines) == (rows + lines).skip(lines.len() as int),
        pushed_all(rows, lines).len() == rows.len(),
    decreases lines.len(),
{
    if lines.len() == 0 {
        assert((rows + lines).skip(0) =~= rows);
    } else {
        let first = pushed(rows, lines[0]);
        lemma_pushed_all(first, lines.drop_first());
        assert(first + lines.drop_first() =~= (rows + lines).skip(1));
        assert((rows + lines).skip(1).skip(lines.len() - 1) =~= (rows + lines).skip(
            lines.len() as int,
        ));
    }
}

/// The FIFO property: pushing at least as many lines as the buffer holds
/// leaves exactly the newest `rows.len()` lines, oldest first.
pub proof fn lemma_scrollback_fifo(rows: Seq<Seq<char>>, lines: Seq<Seq<char>>)
    requires
        rows.len() >= 1,
        lines.len() >= rows.len(),
    ensures
        pushed_all(rows, lines) == lines.skip(lines.len() - rows.len()),
{
    lemma_pushed_all(rows, lines);
    assert((rows + lines).skip(lines.len() as int) =~= lines.skip(lines.len() - rows.len()));
}

/// A fixed-capacity ordered history of rows: the oldest row stands at index
/// 0, the newest at the last index, and every push evicts the oldest.
pub struct Scrollback {
    /// The rows, oldest first; the length is the fixed capacity.
    pub rows: Vec<Vec<char>>,
    /// The wrap width, in characters.
    pub max_width: usize,
}

impl Scrollback {
    pub open spec fn wf(&self) -> bool {
        &&& self.rows.len() >= 1
        &&& self.max_width >= 1
    }

    /// The rows as a sequence of character sequences, oldest first.
    pub open spec fn rows_view(&self) -> Seq<Seq<char>> {
        view_rows(self.rows@)
    }

    /// A buffer of `capacity` empty rows that wraps at `max_width` characters.
    pub fn new(capacity: usize, max_width: usize) -> (s: Scrollback)
        requires
            capacity >= 1,
            max_width >= 1,
        ensures
            s.wf(),
            s.max_width == max_width,
            s.rows_view() == Seq::new(capacity as nat, |i: int| Seq::<char>::empty()),
    {
        let mut rows: Vec<Vec<char>> = Vec::new();
        let mut i: usize = 0;
        while i < capacity
            invariant
                i <= capacity,
                rows@.len() == i,
                forall|k: int| 0 <= k < i ==> #[trigger] rows@[k]@ == Seq::<char>::empty(),
            decreases capacity - i,
        {
            rows.push(Vec::new());
            i += 1;
        }
        let s = Scrollback { rows, max_width };
        proof {
            assert(s.rows_view() =~= Seq::new(capacity as nat, |i: int| Seq::<char>::empty()));
        }
        s
    }

    /// Inserts `line` as the newest row; the oldest row is evicted.
    pub fn push(&mut self, line: Vec<char>)
        requires
            old(self).wf(),
        ensures
            final(self).wf(),
            final(self).max_width == old(self).max_width,
            final(self).rows_view() == pushed(old(self).rows_view(), line@),
            final(self).rows_view().len() == old(self).rows_view().len(),
    {
        let ghost line_view = line@;
        self.rows.remove(0);
        self.rows.push(line);
        proof {
            assert(self.rows_view() =~= pushed(old(self).rows_view(), line_view));
        }
    }

    /// Splits `text` on newlines, greedily wraps each segment at `max_width`
    /// characters, and pushes every resulting row, oldest first.
    pub fn wrap_and_push_chars(&mut self, text: &Vec<char>)
        requires
            old(self).wf(),
        ensures
            final(self).wf(),
            final(self).max_width == old(self).max_width,
            final(self).rows_view() == (old(self).rows_view() + wrap_rows(
                text@,
                old(self).max_width as int,
            )).skip(wrap_rows(text@, old(self).max_width as int).len() as int),
            final(self).rows_view().len() == old(self).rows_view().len(),
    {
        let ghost mw = self.max_width as int;
        let segs = split_newline_segments(text);
        let mut flat: Vec<Vec<char>> = Vec::new();
        let mut j: usize = 0;
        proof {
            assert(view_rows(segs@).take(0) =~= Seq::<Seq<char>>::empty());
            assert(view_rows(flat@) =~= wrap_all(view_rows(segs@).take(0), mw));
        }
        while j < segs.len()
            invariant
                self == old(self),
                self.wf(),
                j <= segs.len(),
                view_rows(segs@) == split_newlines(text@),
                mw == self.max_width as int,
                view_rows(flat@) == wrap_all(view_rows(segs@).take(j as int), mw),
            decreases segs.len() - j,
        {
            let mut rows = wrap_line(&segs[j], self.max_width);
            proof {
                let upto = view_rows(segs@).take(j as int);
                crate::wrap::lemma_wrap_all_push(upto, segs@[j as int]@, mw);
                assert(upto.push(segs@[j as int]@) =~= view_rows(segs@).take(j as int + 1));
                assert(view_rows(flat@) + view_rows(rows@) =~= view_rows(
                    flat@ + rows@,
                ));
            }
            flat.append(&mut rows);
            j += 1;
        }
        proof {
            assert(view_rows(segs@).take(segs@.len() as int) =~= view_rows(segs@));
        }
        let ghost rows0 = self.rows_view();
        let ghost total = wrap_rows(text@, mw);
        assert(view_rows(flat@) == total);
        let mut k: usize = 0;
        proof {
            assert((rows0 + total.take(0)).skip(0) =~= rows0);
        }
        while k < flat.len()
            invariant
                self.wf(),
                self.max_width == old(self).max_width,
                k <= flat.len(),
                view_rows(flat@) == total,
                rows0.len() >= 1,
                self.rows_view().len() == rows0.len(),
                self.rows_view() == (rows0 + total.take(k as int)).skip(k as int),
            decreases flat.len() - k,
        {
            let line = flat[k].clone();
            proof {
                assert(line@ =~= flat@[k as int]@);
            }
            self.push(line);
            proof {
                let before = (rows0 + total.take(k as int)).skip(k as int);
                assert(before.drop_first().push(total[k as int]) =~= (rows0 + total.take(
                    k as int + 1,
                )).skip(k as int + 1));
            }
            k += 1;
        }
        proof {
            assert(total.take(total.len() as int) =~= total);
        }
    }

    /// As `wrap_and_push_chars`, taking the text as a string slice.
    pub fn wrap_and_push(&mut self, text: &str)
        requires
            old(self).wf(),
        ensures
            final(self).wf(),
            final(self).max_width == old(self).max_width,
            final(self).rows_view() == (old(self).rows_view() + wrap_rows(
                text@,
                old(self).max_width as int,
            )).skip(wrap_rows(text@, old(self).max_width as int).len() as int),
            final(self).rows_view().len() == old(self).rows_view().len(),
    {
        let cs = str_chars(text);
        self.wrap_and_push_chars(&cs);
    }
}

} // verus!
