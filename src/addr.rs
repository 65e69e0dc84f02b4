//! Bounds and addresses: which lines a command applies to.
use vstd::prelude::*;

use crate::pattern::{regex_finds, Pattern};

verus! {

/// How many bounds an address was built with.
#[derive(Debug, Clone, Copy, PartialEq, Eq, Structural)]
pub enum Arity {
    Zero,
    One,
    Two,
}

/// Where a range address stands: not yet opened, inside the range, or past it.
#[derive(Debug, Clone, Copy, PartialEq, Eq, Structural)]
pub enum AddrState {
    Unborn,
    Open,
    Closed,
}

impl AddrState {
    /// Order of the states: an address only ever moves up in it.
    pub open spec fn rank(self) -> int {
        match self {
            AddrState::Unborn => 0,
            AddrState::Open => 1,
            AddrState::Closed => 2,
        }
    }
}

/// What a bound is, as a value: a line number, or the text of a regex.
pub enum BoundSpec {
    Num(u64),
    Regex(Seq<char>),
}

impl BoundSpec {
    /// Whether the bound picks the line with this number and content.
    pub open spec fn holds(self, line: u64, text: Seq<char>) -> bool {
        match self {
            BoundSpec::Num(n) => n == line,
            BoundSpec::Regex(p) => regex_finds(p, text),
        }
    }
}

/// What an address is, as a value.
pub struct AddrSpec {
    pub arity: Arity,
    pub start: Option<BoundSpec>,
    pub end: Option<BoundSpec>,
    pub state: AddrState,
}

impl AddrSpec {
    /// The bounds agree with the arity, and only a range ever leaves `Unborn`.
    pub open spec fn wf(self) -> bool {
        match self.arity {
            Arity::Zero => self.start is None && self.end is None && self.state == AddrState::Unborn,
            Arity::One => self.start is Some && self.end is None && self.state == AddrState::Unborn,
            Arity::Two => self.start is Some && self.end is Some,
        }
    }

    /// Whether the address picks the line.
    pub open spec fn hit(self, line: u64, text: Seq<char>) -> bool {
        match self.state {
            AddrState::Unborn => match self.start {
                Some(b) => b.holds(line, text),
                None => true,
            },
            AddrState::Open => true,
            AddrState::Closed => false,
        }
    }

    /// The address after it has been offered the line.
    pub open spec fn step(self, line: u64, text: Seq<char>) -> AddrSpec {
        let next = match self.state {
            AddrState::Unborn => match self.start {
                Some(b) => if self.arity == Arity::Two && b.holds(line, text) {
                    AddrState::Open
                } else {
                    AddrState::Unborn
                },
                None => AddrState::Unborn,
            },
            AddrState::Open => match self.end {
                Some(b) => if b.holds(line, text) {
                    AddrState::Closed
                } else {
                    AddrState::Open
                },
                None => AddrState::Open,
            },
            AddrState::Closed => AddrState::Closed,
        };
        AddrSpec { arity: self.arity, start: self.start, end: self.end, state: next }
    }
}

/// A bound that picks one line by its number.
#[derive(Debug, PartialEq, Eq, Structural)]
pub struct NumBound {
    pub num: u64,
}

impl NumBound {
    pub fn matches(&self, linenum: u64, _line_contents: &str) -> (r: bool)
        ensures
            r == (self.num == linenum),
    {
        self.num == linenum
    }
}

/// A bound that picks the lines in which a regex matches somewhere.
#[derive(Debug)]
pub struct RegexBound {
    pub regex: Pattern,
}

impl RegexBound {
    pub fn matches(&self, _linenum: u64, line_contents: &str) -> (r: bool)
        ensures
            r == regex_finds(self.regex@, line_contents@),
    {
        self.regex.is_match(line_contents)
    }
}

impl PartialEq for RegexBound {
    fn eq(&self, other: &RegexBound) -> (r: bool) {
        self.regex.same_source(&other.regex)
    }
}

impl vstd::std_specs::cmp::PartialEqSpecImpl for RegexBound {
    open spec fn obeys_eq_spec() -> bool {
        true
    }

    open spec fn eq_spec(&self, other: &RegexBound) -> bool {
        self.regex@ == other.regex@
    }
}

/// A single predicate on a line.
#[derive(Debug)]
pub enum Bound {
    Num(NumBound),
    Regex(RegexBound),
}

impl View for Bound {
    type V = BoundSpec;

    open spec fn view(&self) -> BoundSpec {
        match self {
            Bound::Num(n) => BoundSpec::Num(n.num),
            Bound::Regex(r) => BoundSpec::Regex(r.regex@),
        }
    }
}

impl Bound {
    pub fn matches(&self, linenum: u64, line_contents: &str) -> (r: bool)
        ensures
            r == self@.holds(linenum, line_contents@),
    {
        match self {
            Bound::Num(n) => n.matches(linenum, line_contents),
            Bound::Regex(b) => b.matches(linenum, line_contents),
        }
    }
}

/// The view of an optional bound.
pub open spec fn opt_bound_view(b: Option<Bound>) -> Option<BoundSpec> {
    match b {
        Some(x) => Some(x@),
        None => None,
    }
}

/// An address: zero, one or two bounds, and the state of the range.
#[derive(Debug)]
pub struct Addr {
    arity: Arity,
    pub start: Option<Bound>,
    pub end: Option<Bound>,
    state: AddrState,
}

impl View for Addr {
    type V = AddrSpec;

    closed spec fn view(&self) -> AddrSpec {
        AddrSpec {
            arity: self.arity,
            start: opt_bound_view(self.start),
            end: opt_bound_view(self.end),
            state: self.state,
        }
    }
}

impl Addr {
    /// An address with no bound: it picks every line.
    pub fn new0() -> (r: Addr)
        ensures
            r@ == (AddrSpec { arity: Arity::Zero, start: None, end: None, state: AddrState::Unborn }),
            r@.wf(),
    {
        Addr { arity: Arity::Zero, start: None, end: None, state: AddrState::Unborn }
    }

    /// An address with one bound: it picks each line that the bound picks.
    pub fn new1(start: Bound) -> (r: Addr)
        ensures
            r@ == (AddrSpec {
                arity: Arity::One,
                start: Some(start@),
                end: None,
                state: AddrState::Unborn,
            }),
            r@.wf(),
    {
        Addr { arity: Arity::One, start: Some(start), end: None, state: AddrState::Unborn }
    }

    /// A range from the first line that `start` picks to the next line that
    /// `end` picks, both included.
    pub fn new2(start: Bound, end: Bound) -> (r: Addr)
        ensures
            r@ == (AddrSpec {
                arity: Arity::Two,
                start: Some(start@),
                end: Some(end@),
                state: AddrState::Unborn,
            }),
            r@.wf(),
    {
        Addr { arity: Arity::Two, start: Some(start), end: Some(end), state: AddrState::Unborn }
    }

    pub fn arity(&self) -> (r: Arity)
        ensures
            r == self@.arity,
    {
        self.arity
    }

    pub fn state(&self) -> (r: AddrState)
        ensures
            r == self@.state,
    {
        self.state
    }

    /// Whether the address picks this line; a range also moves its state.
    pub fn matches(&mut self, linenum: u64, line_contents: String) -> (r: bool)
        ensures
            r == old(self)@.hit(linenum, line_contents@),
            final(self)@ == old(self)@.step(linenum, line_contents@),
            old(self)@.wf() ==> final(self)@.wf(),
            old(self)@.state.rank() <= final(self)@.state.rank(),
    {
        match self.state {
            AddrState::Unborn => match &self.start {
                Some(bound) => {
                    if bound.matches(linenum, line_contents.as_str()) {
                        if self.arity == Arity::Two {
                            self.state = AddrState::Open;
                        }
                        true
                    } else {
                        false
                    }
                },
                None => true,
            },
            AddrState::Open => {
                match &self.end {
                    Some(bound) => {
                        if bound.matches(linenum, line_contents.as_str()) {
                            self.state = AddrState::Closed;
                        }
                    },
                    None => {},
                }
                true
            },
            AddrState::Closed => false,
        }
    }
}

/// The answers an address gives to lines offered one after another.
pub open spec fn answers(a: AddrSpec, calls: Seq<(u64, Seq<char>)>) -> Seq<bool>
    decreases calls.len(),
{
    if calls.len() == 0 {
        Seq::empty()
    } else {
        seq![a.hit(calls[0].0, calls[0].1)] + answers(
            a.step(calls[0].0, calls[0].1),
            calls.drop_first(),
        )
    }
}

/// The address after lines have been offered to it one after another.
pub open spec fn after(a: AddrSpec, calls: Seq<(u64, Seq<char>)>) -> AddrSpec
    decreases calls.len(),
{
    if calls.len() == 0 {
        a
    } else {
        after(a.step(calls[0].0, calls[0].1), calls.drop_first())
    }
}

/// One answer per line offered.
pub proof fn lemma_answers_len(a: AddrSpec, calls: Seq<(u64, Seq<char>)>)
    ensures
        answers(a, calls).len() == calls.len(),
    decreases calls.len(),
{
    if calls.len() > 0 {
        lemma_answers_len(a.step(calls[0].0, calls[0].1), calls.drop_first());
    }
}

/// An address with no bound picks every line, however many lines are
/// offered and in whatever order, and its state never changes.
pub proof fn lemma_zero_arity_picks_every_line(a: AddrSpec, calls: Seq<(u64, Seq<char>)>)
    requires
        a.wf(),
        a.arity == Arity::Zero,
    ensures
        answers(a, calls).len() == calls.len(),
        forall|k: int| 0 <= k < calls.len() ==> #[trigger] answers(a, calls)[k],
        after(a, calls) == a,
    decreases calls.len(),
{
    lemma_answers_len(a, calls);
    if calls.len() > 0 {
        let rest = calls.drop_first();
        lemma_zero_arity_picks_every_line(a, rest);
        assert forall|k: int| 0 <= k < calls.len() implies #[trigger] answers(a, calls)[k] by {
            if k > 0 {
                assert(answers(a, calls)[k] == answers(a, rest)[k - 1]);
            }
        }
    }
}

/// An address with one bound keeps no memory: it picks exactly the lines
/// that its bound picks, whatever came before, and its state never changes.
pub proof fn lemma_one_arity_is_stateless(a: AddrSpec, calls: Seq<(u64, Seq<char>)>)
    requires
        a.wf(),
        a.arity == Arity::One,
    ensures
        answers(a, calls).len() == calls.len(),
        forall|k: int|
            0 <= k < calls.len() ==> #[trigger] answers(a, calls)[k] == a.start->0.holds(
                calls[k].0,
                calls[k].1,
            ),
        after(a, calls) == a,
    decreases calls.len(),
{
    lemma_answers_len(a, calls);
    if calls.len() > 0 {
        let rest = calls.drop_first();
        lemma_one_arity_is_stateless(a, rest);
        assert forall|k: int| 0 <= k < calls.len() implies #[trigger] answers(a, calls)[k]
            == a.start->0.holds(calls[k].0, calls[k].1) by {
            if k > 0 {
                assert(answers(a, calls)[k] == answers(a, rest)[k - 1]);
                assert(calls[k] == rest[k - 1]);
            }
        }
    }
}

/// An address with the single bound line `n` picks a line if and only if its
/// number is `n`, on every call.
pub proof fn lemma_line_number_address(n: u64, calls: Seq<(u64, Seq<char>)>)
    ensures
        ({
            let a = AddrSpec {
                arity: Arity::One,
                start: Some(BoundSpec::Num(n)),
                end: None,
                state: AddrState::Unborn,
            };
            &&& answers(a, calls).len() == calls.len()
            &&& forall|k: int|
                0 <= k < calls.len() ==> (#[trigger] answers(a, calls)[k] <==> calls[k].0 == n)
        }),
{
    let a = AddrSpec {
        arity: Arity::One,
        start: Some(BoundSpec::Num(n)),
        end: None,
        state: AddrState::Unborn,
    };
    lemma_one_arity_is_stateless(a, calls);
}

/// A closed range never picks a line again, even where its bounds would.
pub proof fn lemma_closed_picks_nothing(a: AddrSpec, calls: Seq<(u64, Seq<char>)>)
    requires
        a.state == AddrState::Closed,
    ensures
        answers(a, calls).len() == calls.len(),
        forall|k: int| 0 <= k < calls.len() ==> !#[trigger] answers(a, calls)[k],
        after(a, calls) == a,
    decreases calls.len(),
{
    lemma_answers_len(a, calls);
    if calls.len() > 0 {
        let rest = calls.drop_first();
        lemma_closed_picks_nothing(a, rest);
        assert forall|k: int| 0 <= k < calls.len() implies !#[trigger] answers(a, calls)[k] by {
            if k > 0 {
                assert(answers(a, calls)[k] == answers(a, rest)[k - 1]);
            }
        }
    }
}

/// From inside a range (or past it), the picked lines come first: once a
/// line is let go, no later line is picked.
proof fn lemma_open_range_only_narrows(a: AddrSpec, calls: Seq<(u64, Seq<char>)>)
    requires
        a.state == AddrState::Open || a.state == AddrState::Closed,
    ensures
        answers(a, calls).len() == calls.len(),
        forall|j: int, k: int|
            0 <= j < k < calls.len() && #[trigger] answers(a, calls)[k] ==> #[trigger] answers(
                a,
                calls,
            )[j],
    decreases calls.len(),
{
    lemma_answers_len(a, calls);
    if a.state == AddrState::Closed {
        lemma_closed_picks_nothing(a, calls);
    } else if calls.len() > 0 {
        let a1 = a.step(calls[0].0, calls[0].1);
        let rest = calls.drop_first();
        let r = answers(a, calls);
        let r1 = answers(a1, rest);
        lemma_open_range_only_narrows(a1, rest);
        assert(r == seq![true] + r1);
        assert forall|j: int, k: int| 0 <= j < k < calls.len() && #[trigger] r[k] implies #[trigger] r[j] by {
            if j > 0 {
                assert(r[k] == r1[k - 1]);
                assert(r[j] == r1[j - 1]);
            }
        }
    }
}

/// A range address picks one unbroken run of lines: between two lines that
/// it picks it picks every line, so it never opens a second time.
pub proof fn lemma_range_picks_one_run(a: AddrSpec, calls: Seq<(u64, Seq<char>)>)
    requires
        a.wf(),
        a.arity == Arity::Two,
    ensures
        answers(a, calls).len() == calls.len(),
        forall|i: int, j: int, k: int|
            0 <= i < j < k < calls.len() && #[trigger] answers(a, calls)[i] && #[trigger] answers(
                a,
                calls,
            )[k] ==> #[trigger] answers(a, calls)[j],
    decreases calls.len(),
{
    lemma_answers_len(a, calls);
    let r = answers(a, calls);
    if a.state != AddrState::Unborn {
        lemma_open_range_only_narrows(a, calls);
    } else if calls.len() > 0 {
        let a1 = a.step(calls[0].0, calls[0].1);
        let rest = calls.drop_first();
        let r1 = answers(a1, rest);
        lemma_answers_len(a1, rest);
        assert(r == seq![r[0]] + r1);
        if r[0] {
            lemma_open_range_only_narrows(a1, rest);
        } else {
            lemma_range_picks_one_run(a1, rest);
        }
        assert forall|i: int, j: int, k: int|
            0 <= i < j < k < calls.len() && #[trigger] r[i] && #[trigger] r[k] implies #[trigger] r[j] by {
            assert(r[k] == r1[k - 1]);
            assert(r[j] == r1[j - 1]);
            if i > 0 {
                assert(r[i] == r1[i - 1]);
            }
        }
    }
}

} // verus!
