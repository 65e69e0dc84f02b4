//! Running a parsed program over lines, one line after another.
use vstd::prelude::*;

use crate::functions::{run, CmdSpec, SedCmd};

verus! {

/// The line as the commands see it: ending in exactly the one newline it
/// had, or with a newline added where it had none.
pub open spec fn terminated(line: Seq<char>) -> Seq<char> {
    if line.len() > 0 && line.last() == '\n' {
        line
    } else {
        line.push('\n')
    }
}

/// A program in the middle of a run: the command tree, whose addresses
/// remember what they have seen, the hold space, and the number of the next
/// line.
pub struct Editor {
    cmd: SedCmd,
    hold: String,
    linenum: u64,
}

impl Editor {
    pub closed spec fn program(&self) -> CmdSpec {
        self.cmd@
    }

    pub closed spec fn hold_space(&self) -> Seq<char> {
        self.hold@
    }

    pub closed spec fn spec_next_line(&self) -> u64 {
        self.linenum
    }

    /// Starts a run: the first line is line 1 and the hold space is empty.
    pub fn new(cmd: SedCmd) -> (r: Editor)
        ensures
            r.program() == cmd@,
            r.hold_space() == Seq::<char>::empty(),
            r.spec_next_line() == 1,
    {
        Editor { cmd, hold: String::new(), linenum: 1 }
    }

    /// The number that the next line fed will have.
    pub fn next_line(&self) -> (r: u64)
        ensures
            r == self.spec_next_line(),
    {
        self.linenum
    }

    /// Runs the program on the next line and returns the pattern space to
    /// be written out.
    pub fn feed(&mut self, line: String) -> (out: String)
        requires
            old(self).spec_next_line() < u64::MAX,
        ensures
            (final(self).program(), out@) == run(
                old(self).program(),
                old(self).spec_next_line(),
                old(self).hold_space(),
                terminated(line@),
            ),
            final(self).hold_space() == old(self).hold_space(),
            final(self).spec_next_line() == old(self).spec_next_line() + 1,
    {
        let mut pattern_space = line;
        let n = pattern_space.unicode_len();
        if n == 0 || pattern_space.as_str().get_char(n - 1) != '\n' {
            proof {
                reveal_strlit("\n");
            }
            pattern_space.append("\n");
        }
        assert(pattern_space@ == terminated(line@));
        self.cmd.execute(self.linenum, &mut self.hold, &mut pattern_space);
        self.linenum = self.linenum + 1;
        pattern_space
    }
}

} // verus!
