//! Commands: what runs on the pattern space of a line.
use vstd::prelude::*;

use crate::addr::{Addr, AddrSpec, Arity};
use crate::pattern::{regex_finds, regex_replace_all, regex_replaced, Pattern};

verus! {

/// What a command is, as a value.
pub enum CmdSpec {
    Subst { find: Seq<char>, replace: Seq<char> },
    Append { text: Seq<char> },
    AppendHold,
    Block { pairs: Seq<(AddrSpec, CmdSpec)> },
}

/// The pattern space after substituting `replace` for every match of `find`;
/// unchanged where `find` does not match.
pub open spec fn substituted(find: Seq<char>, replace: Seq<char>, ps: Seq<char>) -> Seq<char> {
    if regex_finds(find, ps) {
        regex_replaced(find, ps, replace)
    } else {
        ps
    }
}

/// The pattern space with a newline and the hold space appended.
pub open spec fn with_hold(ps: Seq<char>, hold: Seq<char>) -> Seq<char> {
    ps + seq!['\n'] + hold
}

/// Runs a command on line `line`: the command afterwards (the states of its
/// addresses move) and the pattern space afterwards. No command writes the
/// hold space.
pub open spec fn run(c: CmdSpec, line: u64, hold: Seq<char>, ps: Seq<char>) -> (CmdSpec, Seq<char>)
    decreases c, 0nat,
{
    match c {
        CmdSpec::Subst { find, replace } => (c, substituted(find, replace, ps)),
        CmdSpec::Append { text } => (c, ps + text),
        CmdSpec::AppendHold => (c, with_hold(ps, hold)),
        CmdSpec::Block { pairs } => {
            let (pairs2, ps2) = run_block(pairs, pairs.len(), line, hold, ps);
            (CmdSpec::Block { pairs: pairs2 }, ps2)
        },
    }
}

/// Runs the first `n` pairs of a block, in order: each address is asked
/// about the pattern space as the pairs before it left it, and its command
/// runs where it answers yes. The pairs from `n` on are left as they are.
pub open spec fn run_block(
    pairs: Seq<(AddrSpec, CmdSpec)>,
    n: nat,
    line: u64,
    hold: Seq<char>,
    ps: Seq<char>,
) -> (Seq<(AddrSpec, CmdSpec)>, Seq<char>)
    decreases pairs, n,
{
    if n == 0 || n > pairs.len() {
        (pairs, ps)
    } else {
        let (pairs1, ps1) = run_block(pairs, (n - 1) as nat, line, hold, ps);
        let a = pairs[n - 1].0;
        let sub = pairs[n - 1].1;
        if a.hit(line, ps1) {
            let (sub2, ps2) = run(sub, line, hold, ps1);
            (pairs1.update(n - 1, (a.step(line, ps1), sub2)), ps2)
        } else {
            (pairs1.update(n - 1, (a.step(line, ps1), sub)), ps1)
        }
    }
}

/// Within a block the pairs run in order, each on the pattern space as the
/// pairs before it left it: two pairs whose addresses have no bound give
/// what their two commands give when run one after the other.
pub proof fn lemma_block_runs_in_order(
    a1: AddrSpec,
    c1: CmdSpec,
    a2: AddrSpec,
    c2: CmdSpec,
    line: u64,
    hold: Seq<char>,
    ps: Seq<char>,
)
    requires
        a1.wf(),
        a1.arity == Arity::Zero,
        a2.wf(),
        a2.arity == Arity::Zero,
    ensures
        run(CmdSpec::Block { pairs: seq![(a1, c1), (a2, c2)] }, line, hold, ps).1 == run(
            c2,
            line,
            hold,
            run(c1, line, hold, ps).1,
        ).1,
{
    let pairs = seq![(a1, c1), (a2, c2)];
    assert(pairs[0] == (a1, c1));
    assert(pairs[1] == (a2, c2));
    let ps1 = run(c1, line, hold, ps).1;
    assert(run_block(pairs, 0, line, hold, ps).1 == ps);
    assert(run_block(pairs, 1, line, hold, ps).1 == ps1);
    assert(run_block(pairs, 2, line, hold, ps).1 == run(c2, line, hold, ps1).1);
}

/// Substitutes `replace`, taken literally, for every match of `find`.
#[derive(Debug)]
pub struct Subst {
    pub find: Pattern,
    pub replace: String,
}

impl Subst {
    pub fn new(regex: Pattern, replace: String) -> (r: Subst)
        ensures
            r.find@ == regex@,
            r.replace@ == replace@,
    {
        Subst { find: regex, replace }
    }

    pub fn execute(&self, _linenum: u64, hold_space: &mut String, pattern_space: &mut String)
        ensures
            final(pattern_space)@ == substituted(self.find@, self.replace@, old(pattern_space)@),
            final(hold_space)@ == old(hold_space)@,
    {
        if self.find.is_match(pattern_space.as_str()) {
            let replaced = regex_replace_all(
                &self.find,
                pattern_space.as_str(),
                self.replace.as_str(),
            );
            *pattern_space = replaced;
        }
    }
}

/// Appends a fixed text to the pattern space.
#[derive(Debug)]
pub struct Append {
    text: String,
}

impl Append {
    pub fn new(text: String) -> (r: Append)
        ensures
            r.text() == text@,
    {
        Append { text }
    }

    pub closed spec fn text(&self) -> Seq<char> {
        self.text@
    }

    pub fn execute(&self, _linenum: u64, hold_space: &mut String, pattern_space: &mut String)
        ensures
            final(pattern_space)@ == old(pattern_space)@ + self.text(),
            final(hold_space)@ == old(hold_space)@,
    {
        pattern_space.append(self.text.as_str());
    }
}

/// Appends a newline and then the hold space to the pattern space.
#[derive(Debug)]
pub struct AppendHold {}

impl AppendHold {
    pub fn execute(&self, _linenum: u64, hold_space: &mut String, pattern_space: &mut String)
        ensures
            final(pattern_space)@ == with_hold(old(pattern_space)@, old(hold_space)@),
            final(hold_space)@ == old(hold_space)@,
    {
        proof {
            reveal_strlit("\n");
        }
        pattern_space.append("\n");
        pattern_space.append(hold_space.as_str());
    }
}

/// A command tree: a substitution, an append, or a block of address-gated
/// commands.
#[derive(Debug)]
pub enum SedCmd {
    Subst(Subst),
    Append(Append),
    AppendHold(AppendHold),
    More(MoreSedCmds),
}

/// An ordered block of (address, command) pairs.
#[derive(Debug)]
pub struct MoreSedCmds {
    pub cmds: Vec<(Addr, SedCmd)>,
}

impl View for SedCmd {
    type V = CmdSpec;

    open spec fn view(&self) -> CmdSpec
        decreases self,
    {
        match self {
            SedCmd::Subst(s) => CmdSpec::Subst { find: s.find@, replace: s.replace@ },
            SedCmd::Append(a) => CmdSpec::Append { text: a.text() },
            SedCmd::AppendHold(_) => CmdSpec::AppendHold,
            SedCmd::More(m) => CmdSpec::Block {
                pairs: Seq::new(
                    m.cmds.len() as nat,
                    |i: int|
                        if 0 <= i < m.cmds.len() {
                            (m.cmds[i].0@, m.cmds[i].1.view())
                        } else {
                            arbitrary()
                        },
                ),
            },
        }
    }
}

impl View for MoreSedCmds {
    type V = Seq<(AddrSpec, CmdSpec)>;

    open spec fn view(&self) -> Seq<(AddrSpec, CmdSpec)> {
        Seq::new(self.cmds.len() as nat, |i: int| (self.cmds[i].0@, self.cmds[i].1@))
    }
}

/// The view of a block command is the view of its pairs.
pub proof fn lemma_block_view(m: MoreSedCmds)
    ensures
        SedCmd::More(m)@ == (CmdSpec::Block { pairs: m@ }),
{
    reveal_with_fuel(<SedCmd as View>::view, 2);
    assert(SedCmd::More(m)@->pairs =~= m@);
}

impl SedCmd {
    /// Runs the command on one line: `pattern_space` is edited in place, and
    /// the addresses inside the tree move their states.
    pub fn execute(&mut self, linenum: u64, hold_space: &mut String, pattern_space: &mut String)
        ensures
            (final(self)@, final(pattern_space)@) == run(
                old(self)@,
                linenum,
                old(hold_space)@,
                old(pattern_space)@,
            ),
            final(hold_space)@ == old(hold_space)@,
        decreases *old(self), 1nat,
    {
        match self {
            SedCmd::Subst(s) => s.execute(linenum, hold_space, pattern_space),
            SedCmd::Append(a) => a.execute(linenum, hold_space, pattern_space),
            SedCmd::AppendHold(a) => a.execute(linenum, hold_space, pattern_space),
            SedCmd::More(m) => {
                proof {
                    lemma_block_view(*m);
                }
                m.execute(linenum, hold_space, pattern_space);
                proof {
                    lemma_block_view(*m);
                }
            },
        }
    }
}

impl MoreSedCmds {
    /// Runs the pairs in order on one line; each address sees the pattern
    /// space as the pairs before it left it.
    pub fn execute(&mut self, linenum: u64, hold_space: &mut String, pattern_space: &mut String)
        ensures
            (final(self)@, final(pattern_space)@) == run_block(
                old(self)@,
                old(self)@.len(),
                linenum,
                old(hold_space)@,
                old(pattern_space)@,
            ),
            final(hold_space)@ == old(hold_space)@,
        decreases *old(self), 0nat,
    {
        let n = self.cmds.len();
        let mut i: usize = 0;
        while i < n
            invariant
                0 <= i <= n,
                n == self.cmds.len(),
                n == old(self).cmds.len(),
                (self@, pattern_space@) == run_block(
                    old(self)@,
                    i as nat,
                    linenum,
                    old(hold_space)@,
                    old(pattern_space)@,
                ),
                hold_space@ == old(hold_space)@,
                forall|j: int| i <= j < n ==> self.cmds[j] == old(self).cmds[j],
            decreases n - i,
        {
            let pair = &mut self.cmds[i];
            let hit = pair.0.matches(linenum, pattern_space.clone());
            if hit {
                pair.1.execute(linenum, hold_space, pattern_space);
            }
            i += 1;
        }
    }
}

} // verus!
