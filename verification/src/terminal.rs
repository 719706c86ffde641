use vstd::prelude::*;
use crate::scrollback::{pushed, Scrollback};
use crate::wrap::wrap_rows;
use crate::GLYPH_HEIGHT;
use crate::GLYPH_WIDTH;

verus! {

/// The committed command line as it enters the history: a prompt marker,
/// then the command itself.
pub open spec fn prompt_line(cmd: Seq<char>) -> Seq<char> {
    seq!['>', ' '] + cmd
}

/// The effect of recalling the previous command line on the pair of current
/// and previous command line.
pub open spec fn recall_spec(cmd: Seq<char>, prev: Seq<char>) -> (Seq<char>, Seq<char>) {
    (prev, prev)
}

/// Recall is single-level: recalling twice leaves the same pair of current
/// and previous command line as recalling once.
pub proof fn lemma_recall_twice(cmd: Seq<char>, prev: Seq<char>)
    ensures
        recall_spec(recall_spec(cmd, prev).0, recall_spec(cmd, prev).1) == recall_spec(cmd, prev),
{
}

/// The number of history rows for a screen of the given pixel height: one
/// per started glyph row, and two more.
pub open spec fn spec_capacity(screen_height: int) -> int {
    (screen_height + GLYPH_HEIGHT - 1) / (GLYPH_HEIGHT as int) + 2
}

/// The wrap width for a screen of the given pixel width: one column per
/// whole glyph width, minus two margin columns.
pub open spec fn spec_max_width(screen_width: int) -> int {
    screen_width / (GLYPH_WIDTH as int) - 2
}

/// Builds the prompt-marked form of a command line: a prompt marker, then
/// the command's characters.
pub fn make_prompt_row(cmd: &Vec<char>) -> (r: Vec<char>)
    ensures
        r@ == prompt_line(cmd@),
{
    let mut text: Vec<char> = Vec::new();
    text.push('>');
    text.push(' ');
    let mut i: usize = 0;
    while i < cmd.len()
        invariant
            i <= cmd.len(),
            text@ == seq!['>', ' '] + cmd@.take(i as int),
        decreases cmd.len() - i,
    {
        text.push(cmd[i]);
        proof {
            assert((seq!['>', ' '] + cmd@.take(i as int)).push(cmd@[i as int]) =~= seq!['>', ' ']
                + cmd@.take(i as int + 1));
        }
        i += 1;
    }
    proof {
        assert(seq!['>', ' '] + cmd@.take(cmd@.len() as int) =~= prompt_line(cmd@));
    }
    text
}

/// The terminal: a scrollback history, the command line being edited, and
/// the previously submitted command line, for single-level recall.
pub struct TerminalState {
    /// The scrollback history.
    pub history: Scrollback,
    /// The command line being edited.
    pub command_line: Vec<char>,
    /// The last submitted command line.
    pub previous_command_line: Vec<char>,
    /// The screen width in pixels, fixed at construction.
    pub screen_width: usize,
    /// The screen height in pixels, fixed at construction.
    pub screen_height: usize,
}

impl TerminalState {
    pub open spec fn wf(&self) -> bool {
        self.history.wf()
    }

    /// A terminal for a screen of the given pixel dimensions, with an empty
    /// history and empty command lines.
    pub fn new(screen_width: usize, screen_height: usize) -> (s: TerminalState)
        requires
            screen_width / GLYPH_WIDTH >= 3,
            screen_height + GLYPH_HEIGHT <= usize::MAX,
        ensures
            s.wf(),
            s.history.max_width == spec_max_width(screen_width as int),
            s.history.rows_view() == Seq::new(
                spec_capacity(screen_height as int) as nat,
                |i: int| Seq::<char>::empty(),
            ),
            s.command_line@ == Seq::<char>::empty(),
            s.previous_command_line@ == Seq::<char>::empty(),
            s.screen_width == screen_width,
            s.screen_height == screen_height,
    {
        let max_width = screen_width / GLYPH_WIDTH - 2;
        let capacity = (screen_height + (GLYPH_HEIGHT - 1)) / GLYPH_HEIGHT + 2;
        TerminalState {
            history: Scrollback::new(capacity, max_width),
            command_line: Vec::new(),
            previous_command_line: Vec::new(),
            screen_width,
            screen_height,
        }
    }

    /// Inserts `line` as the newest history row; the oldest row is evicted.
    pub fn push(&mut self, line: Vec<char>)
        requires
            old(self).wf(),
        ensures
            final(self).wf(),
            final(self).screen_width == old(self).screen_width,
            final(self).screen_height == old(self).screen_height,
            final(self).history.max_width == old(self).history.max_width,
            final(self).history.rows_view() == pushed(old(self).history.rows_view(), line@),
            final(self).command_line == old(self).command_line,
            final(self).previous_command_line == old(self).previous_command_line,
    {
        self.history.push(line);
    }

    /// Wraps `line` at the screen width and appends the resulting rows to
    /// the history; the oldest rows scroll off.
    pub fn println(&mut self, line: &str)
        requires
            old(self).wf(),
        ensures
            final(self).wf(),
            final(self).screen_width == old(self).screen_width,
            final(self).screen_height == old(self).screen_height,
            final(self).history.max_width == old(self).history.max_width,
            final(self).history.rows_view() == (old(self).history.rows_view() + wrap_rows(
                line@,
                old(self).history.max_width as int,
            )).skip(wrap_rows(line@, old(self).history.max_width as int).len() as int),
            final(self).history.rows_view().len() == old(self).history.rows_view().len(),
            final(self).command_line == old(self).command_line,
            final(self).previous_command_line == old(self).previous_command_line,
    {
        self.history.wrap_and_push(line);
    }

    /// Submits the command line: the prompt-marked command enters the
    /// history, becomes the previous command line, and the command line is
    /// cleared.
    pub fn enter(&mut self)
        requires
            old(self).wf(),
        ensures
            final(self).wf(),
            final(self).screen_width == old(self).screen_width,
            final(self).screen_height == old(self).screen_height,
            final(self).history.max_width == old(self).history.max_width,
            final(self).history.rows_view() == (old(self).history.rows_view() + wrap_rows(
                prompt_line(old(self).command_line@),
                old(self).history.max_width as int,
            )).skip(
                wrap_rows(
                    prompt_line(old(self).command_line@),
                    old(self).history.max_width as int,
                ).len() as int,
            ),
            final(self).previous_command_line@ == old(self).command_line@,
            final(self).command_line@ == Seq::<char>::empty(),
    {
        let text = make_prompt_row(&self.command_line);
        self.history.wrap_and_push_chars(&text);
        let recalled = self.command_line.clone();
        proof {
            assert(recalled@ =~= self.command_line@);
        }
        self.previous_command_line = recalled;
        self.command_line.clear();
    }

    /// Replaces the command line with the previous command line; recall is
    /// single-level, so a second recall changes nothing.
    pub fn arrow_up(&mut self)
        requires
            old(self).wf(),
        ensures
            final(self).wf(),
            final(self).screen_width == old(self).screen_width,
            final(self).screen_height == old(self).screen_height,
            final(self).history == old(self).history,
            (final(self).command_line@, final(self).previous_command_line@) == recall_spec(
                old(self).command_line@,
                old(self).previous_command_line@,
            ),
    {
        let recalled = self.previous_command_line.clone();
        proof {
            assert(recalled@ =~= self.previous_command_line@);
        }
        self.command_line = recalled;
    }

    /// Appends one character to the command line; no wrapping happens until
    /// the line is submitted.
    pub fn append_char(&mut self, c: char)
        requires
            old(self).wf(),
        ensures
            final(self).wf(),
            final(self).screen_width == old(self).screen_width,
            final(self).screen_height == old(self).screen_height,
            final(self).history == old(self).history,
            final(self).previous_command_line == old(self).previous_command_line,
            final(self).command_line@ == old(self).command_line@.push(c),
    {
        self.command_line.push(c);
    }

    /// Removes the last character of the command line, if there is one.
    pub fn backspace(&mut self)
        requires
            old(self).wf(),
        ensures
            final(self).wf(),
            final(self).screen_width == old(self).screen_width,
            final(self).screen_height == old(self).screen_height,
            final(self).history == old(self).history,
            final(self).previous_command_line == old(self).previous_command_line,
            old(self).command_line@.len() > 0 ==> final(self).command_line@ == old(
                self,
            ).command_line@.drop_last(),
            old(self).command_line@.len() == 0 ==> final(self).command_line@ == old(
                self,
            ).command_line@,
    {
        let _ = self.command_line.pop();
    }
}

} // verus!
