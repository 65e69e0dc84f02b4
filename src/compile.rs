//! The parser: program text to a command tree.
//!
//! Grammar, over characters (`ws` is any run of spaces, tabs, carriage
//! returns and newlines):
//!
//! ```text
//! program   := command (';' command)*
//! command   := address action ws
//! address   := ws (bound (',' bound)? ws)?
//! bound     := digits | '/' body '/' | '\' delim body delim
//! action    := '{' program '}' | 'G' | 's' delim body delim text delim modifier?
//! ```
//!
//! A whole program may be followed by whitespace and nothing else. The
//! modifier is one character that is neither whitespace nor `;` nor `}`; it
//! is read and has no effect. Regex bodies are compiled as they are read, so
//! a bad pattern fails the parse.
use vstd::prelude::*;

use crate::addr::{Addr, AddrSpec, AddrState, Arity, Bound, BoundSpec, NumBound, RegexBound};
use crate::functions::{AppendHold, CmdSpec, MoreSedCmds, SedCmd, Subst};
use crate::pattern::{regex_compiles, Pattern};

verus! {

/// Why a program text was refused.
#[derive(Debug, PartialEq, Eq)]
pub enum ParseError {
    /// The character at `pos` (or the end of the text, when `pos` is its
    /// length) does not fit the grammar.
    Syntax { pos: usize },
    /// The regex compiler refused this pattern.
    BadRegex { pattern: String },
}

/// A parse error, as a value.
pub enum ErrSpec {
    Syntax(int),
    BadRegex(Seq<char>),
}

impl View for ParseError {
    type V = ErrSpec;

    open spec fn view(&self) -> ErrSpec {
        match self {
            ParseError::Syntax { pos } => ErrSpec::Syntax(*pos as int),
            ParseError::BadRegex { pattern } => ErrSpec::BadRegex(pattern@),
        }
    }
}

/// What a parsing step gives: a value and the position after it, or an error.
pub type SpecResult<V> = Result<(V, int), ErrSpec>;

pub open spec fn is_space(c: char) -> bool {
    c == ' ' || c == '\t' || c == '\r' || c == '\n'
}

pub open spec fn is_digit(c: char) -> bool {
    '0' <= c <= '9'
}

pub open spec fn digit_value(c: char) -> int {
    (c as u32) as int - ('0' as u32) as int
}

/// The first position from `i` on that holds no whitespace.
pub open spec fn spec_skip_ws(s: Seq<char>, i: int) -> int
    decreases s.len() - i,
{
    if 0 <= i < s.len() && is_space(s[i]) {
        spec_skip_ws(s, i + 1)
    } else {
        i
    }
}

/// The first position from `i` on that holds no digit.
pub open spec fn spec_digits_end(s: Seq<char>, i: int) -> int
    decreases s.len() - i,
{
    if 0 <= i < s.len() && is_digit(s[i]) {
        spec_digits_end(s, i + 1)
    } else {
        i
    }
}

/// The number written in decimal by the digits `s[i..j]`.
pub open spec fn digits_value(s: Seq<char>, i: int, j: int) -> int
    decreases j - i,
{
    if j <= i {
        0
    } else {
        digits_value(s, i, j - 1) * 10 + digit_value(s[j - 1])
    }
}

/// The first position from `i` on that holds `c`; the length of the text
/// when there is none.
pub open spec fn spec_find(s: Seq<char>, i: int, c: char) -> int
    decreases s.len() - i,
{
    if i < 0 || i >= s.len() {
        s.len() as int
    } else if s[i] == c {
        i
    } else {
        spec_find(s, i + 1, c)
    }
}

/// A line-number bound at `i`.
pub open spec fn spec_num_bound(s: Seq<char>, i: int) -> SpecResult<BoundSpec> {
    let j = spec_digits_end(s, i);
    if j == i || digits_value(s, i, j) > u64::MAX {
        Err(ErrSpec::Syntax(i))
    } else {
        Ok((BoundSpec::Num(digits_value(s, i, j) as u64), j))
    }
}

/// A regex bound at `i`: `/body/`, or `\` then any delimiter around the body.
pub open spec fn spec_regex_bound(s: Seq<char>, i: int) -> SpecResult<BoundSpec> {
    if !(0 <= i < s.len()) || (s[i] != '/' && !(s[i] == '\\' && i + 1 < s.len())) {
        Err(ErrSpec::Syntax(i))
    } else {
        let d = if s[i] == '/' { '/' } else { s[i + 1] };
        let b = if s[i] == '/' { i + 1 } else { i + 2 };
        let k = spec_find(s, b, d);
        if k >= s.len() {
            Err(ErrSpec::Syntax(s.len() as int))
        } else if !regex_compiles(s.subrange(b, k)) {
            Err(ErrSpec::BadRegex(s.subrange(b, k)))
        } else {
            Ok((BoundSpec::Regex(s.subrange(b, k)), k + 1))
        }
    }
}

/// Whether a bound starts at `i`.
pub open spec fn starts_bound(s: Seq<char>, i: int) -> bool {
    0 <= i < s.len() && (is_digit(s[i]) || s[i] == '/' || s[i] == '\\')
}

/// A bound of either kind at `i`.
pub open spec fn spec_bound(s: Seq<char>, i: int) -> SpecResult<BoundSpec> {
    if 0 <= i < s.len() && is_digit(s[i]) {
        spec_num_bound(s, i)
    } else {
        spec_regex_bound(s, i)
    }
}

/// An address at `i`, with the whitespace around it.
pub open spec fn spec_addr(s: Seq<char>, i: int) -> SpecResult<AddrSpec> {
    let i0 = spec_skip_ws(s, i);
    if !starts_bound(s, i0) {
        Ok((AddrSpec { arity: Arity::Zero, start: None, end: None, state: AddrState::Unborn }, i0))
    } else {
        match spec_bound(s, i0) {
            Err(e) => Err(e),
            Ok((b1, j)) => if 0 <= j < s.len() && s[j] == ',' {
                match spec_bound(s, j + 1) {
                    Err(e) => Err(e),
                    Ok((b2, k)) => Ok(
                        (
                            AddrSpec {
                                arity: Arity::Two,
                                start: Some(b1),
                                end: Some(b2),
                                state: AddrState::Unborn,
                            },
                            spec_skip_ws(s, k),
                        ),
                    ),
                }
            } else {
                Ok(
                    (
                        AddrSpec {
                            arity: Arity::One,
                            start: Some(b1),
                            end: None,
                            state: AddrState::Unborn,
                        },
                        spec_skip_ws(s, j),
                    ),
                )
            },
        }
    }
}

/// Whether `c` can stand as the modifier after a substitution.
pub open spec fn is_modifier(c: char) -> bool {
    !is_space(c) && c != ';' && c != '}'
}

/// The rest of a substitution, from its first delimiter at `i`.
pub open spec fn spec_substitute(s: Seq<char>, i: int) -> SpecResult<CmdSpec> {
    if !(0 <= i < s.len()) {
        Err(ErrSpec::Syntax(i))
    } else {
        let d = s[i];
        let k1 = spec_find(s, i + 1, d);
        let k2 = spec_find(s, k1 + 1, d);
        if k1 >= s.len() || k2 >= s.len() {
            Err(ErrSpec::Syntax(s.len() as int))
        } else if !regex_compiles(s.subrange(i + 1, k1)) {
            Err(ErrSpec::BadRegex(s.subrange(i + 1, k1)))
        } else {
            let end = if k2 + 1 < s.len() && is_modifier(s[k2 + 1]) {
                k2 + 2
            } else {
                k2 + 1
            };
            Ok((CmdSpec::Subst { find: s.subrange(i + 1, k1), replace: s.subrange(k1 + 1, k2) }, end))
        }
    }
}

/// One (address, action) pair at `i`, with the whitespace after it.
///
/// Positions only move forward (`i <= j` below always holds); the test is
/// written out so that the recursion is plainly finite.
pub open spec fn spec_command(s: Seq<char>, i: int) -> SpecResult<(AddrSpec, CmdSpec)>
    decreases s.len() - i, 0nat,
{
    match spec_addr(s, i) {
        Err(e) => Err(e),
        Ok((a, j)) => if !(0 <= j < s.len()) {
            Err(ErrSpec::Syntax(j))
        } else if s[j] == '{' && i <= j {
            match spec_program(s, j + 1) {
                Err(e) => Err(e),
                Ok((pairs, k)) => if 0 <= k < s.len() && s[k] == '}' {
                    Ok(((a, CmdSpec::Block { pairs }), spec_skip_ws(s, k + 1)))
                } else {
                    Err(ErrSpec::Syntax(k))
                },
            }
        } else if s[j] == 'G' {
            Ok(((a, CmdSpec::AppendHold), spec_skip_ws(s, j + 1)))
        } else if s[j] == 's' {
            match spec_substitute(s, j + 1) {
                Err(e) => Err(e),
                Ok((c, k)) => Ok(((a, c), spec_skip_ws(s, k))),
            }
        } else {
            Err(ErrSpec::Syntax(j))
        },
    }
}

/// Commands separated by `;`, from `i`.
///
/// As above, `i < j` always holds and is written out for the recursion.
pub open spec fn spec_program(s: Seq<char>, i: int) -> SpecResult<Seq<(AddrSpec, CmdSpec)>>
    decreases s.len() - i, 1nat,
{
    match spec_command(s, i) {
        Err(e) => Err(e),
        Ok((p, j)) => if 0 <= j < s.len() && s[j] == ';' && i < j {
            match spec_program(s, j + 1) {
                Err(e) => Err(e),
                Ok((rest, k)) => Ok((seq![p] + rest, k)),
            }
        } else {
            Ok((seq![p], j))
        },
    }
}

/// A whole program text: a program, then whitespace to the end.
pub open spec fn spec_parse(s: Seq<char>) -> Result<CmdSpec, ErrSpec> {
    match spec_program(s, 0) {
        Err(e) => Err(e),
        Ok((pairs, j)) => if spec_skip_ws(s, j) == s.len() {
            Ok(CmdSpec::Block { pairs })
        } else {
            Err(ErrSpec::Syntax(spec_skip_ws(s, j)))
        },
    }
}

/// The spec form of an executable step's result.
pub open spec fn res_view<T: View>(r: Result<(T, usize), ParseError>) -> SpecResult<T::V> {
    match r {
        Ok((t, j)) => Ok((t@, j as int)),
        Err(e) => Err(e@),
    }
}

/// Whether a step ended at or before the end of the text.
pub open spec fn ends_within<T>(r: Result<(T, usize), ParseError>, len: usize) -> bool {
    r matches Ok((_, j)) ==> j <= len
}

proof fn lemma_skip_ws_bounds(s: Seq<char>, i: int)
    requires
        0 <= i <= s.len(),
    ensures
        i <= spec_skip_ws(s, i) <= s.len(),
    decreases s.len() - i,
{
    if i < s.len() && is_space(s[i]) {
        lemma_skip_ws_bounds(s, i + 1);
    }
}

proof fn lemma_find_bounds(s: Seq<char>, i: int, c: char)
    requires
        0 <= i <= s.len(),
    ensures
        i <= spec_find(s, i, c) <= s.len(),
        spec_find(s, i, c) < s.len() ==> s[spec_find(s, i, c)] == c,
    decreases s.len() - i,
{
    if i < s.len() && s[i] != c {
        lemma_find_bounds(s, i + 1, c);
    }
}

/// Every position of a digit run holds a digit.
proof fn lemma_digits_run(s: Seq<char>, i: int)
    requires
        0 <= i <= s.len(),
    ensures
        i <= spec_digits_end(s, i) <= s.len(),
        forall|m: int| i <= m < spec_digits_end(s, i) ==> is_digit(#[trigger] s[m]),
    decreases s.len() - i,
{
    if i < s.len() && is_digit(s[i]) {
        lemma_digits_run(s, i + 1);
    }
}

/// A longer run of digits never writes a smaller number.
proof fn lemma_digits_value_grows(s: Seq<char>, i: int, k: int, j: int)
    requires
        0 <= i <= k <= j <= s.len(),
        forall|m: int| i <= m < j ==> is_digit(#[trigger] s[m]),
    ensures
        0 <= digits_value(s, i, k) <= digits_value(s, i, j),
    decreases j - i,
{
    if j > i {
        if k < j {
            lemma_digits_value_grows(s, i, k, j - 1);
        } else {
            lemma_digits_value_grows(s, i, j - 1, j - 1);
        }
        assert(is_digit(s[j - 1]));
    }
}

fn is_space_char(c: char) -> (r: bool)
    ensures
        r == is_space(c),
{
    c == ' ' || c == '\t' || c == '\r' || c == '\n'
}

fn is_digit_char(c: char) -> (r: bool)
    ensures
        r == is_digit(c),
{
    '0' <= c && c <= '9'
}

fn skip_ws(s: &str, len: usize, i: usize) -> (r: usize)
    requires
        len == s@.len(),
        i <= len,
    ensures
        r == spec_skip_ws(s@, i as int),
        i <= r <= len,
{
    let mut j = i;
    while j < len && is_space_char(s.get_char(j))
        invariant
            i <= j <= len,
            len == s@.len(),
            spec_skip_ws(s@, j as int) == spec_skip_ws(s@, i as int),
        decreases len - j,
    {
        j += 1;
    }
    j
}

fn find_char(s: &str, len: usize, i: usize, c: char) -> (r: usize)
    requires
        len == s@.len(),
        i <= len,
    ensures
        r == spec_find(s@, i as int, c),
        i <= r <= len,
{
    let mut j = i;
    while j < len && s.get_char(j) != c
        invariant
            i <= j <= len,
            len == s@.len(),
            spec_find(s@, j as int, c) == spec_find(s@, i as int, c),
        decreases len - j,
    {
        j += 1;
    }
    j
}

fn digits_end(s: &str, len: usize, i: usize) -> (r: usize)
    requires
        len == s@.len(),
        i <= len,
    ensures
        r == spec_digits_end(s@, i as int),
        i <= r <= len,
{
    let mut j = i;
    while j < len && is_digit_char(s.get_char(j))
        invariant
            i <= j <= len,
            len == s@.len(),
            spec_digits_end(s@, j as int) == spec_digits_end(s@, i as int),
        decreases len - j,
    {
        j += 1;
    }
    j
}

fn num_bound_at(s: &str, len: usize, i: usize) -> (r: Result<(Bound, usize), ParseError>)
    requires
        len == s@.len(),
        i <= len,
    ensures
        res_view(r) == spec_num_bound(s@, i as int),
        ends_within(r, len),
{
    let j = digits_end(s, len, i);
    proof {
        lemma_digits_run(s@, i as int);
    }
    if j == i {
        return Err(ParseError::Syntax { pos: i });
    }
    let mut v: u64 = 0;
    let mut k = i;
    while k < j
        invariant
            i <= k <= j <= len,
            len == s@.len(),
            j == spec_digits_end(s@, i as int),
            forall|m: int| i <= m < j ==> is_digit(#[trigger] s@[m]),
            v == digits_value(s@, i as int, k as int),
        decreases j - k,
    {
        let c = s.get_char(k);
        assert(is_digit(s@[k as int]));
        let d: u64 = (c as u32 - '0' as u32) as u64;
        let next = match v.checked_mul(10) {
            Some(t) => t.checked_add(d),
            None => None,
        };
        match next {
            Some(t) => {
                v = t;
                k += 1;
            },
            None => {
                proof {
                    assert(digits_value(s@, i as int, k + 1) == v * 10 + d);
                    lemma_digits_value_grows(s@, i as int, k + 1, j as int);
                }
                return Err(ParseError::Syntax { pos: i });
            },
        }
    }
    Ok((Bound::Num(NumBound { num: v }), j))
}

fn regex_bound_at(s: &str, len: usize, i: usize) -> (r: Result<(Bound, usize), ParseError>)
    requires
        len == s@.len(),
        i <= len,
    ensures
        res_view(r) == spec_regex_bound(s@, i as int),
        ends_within(r, len),
{
    if i >= len {
        return Err(ParseError::Syntax { pos: i });
    }
    let c = s.get_char(i);
    let d: char;
    let b: usize;
    if c == '/' {
        d = '/';
        b = i + 1;
    } else if c == '\\' && i + 1 < len {
        d = s.get_char(i + 1);
        b = i + 2;
    } else {
        return Err(ParseError::Syntax { pos: i });
    }
    let k = find_char(s, len, b, d);
    if k >= len {
        return Err(ParseError::Syntax { pos: len });
    }
    let body = s.substring_char(b, k);
    match Pattern::new(body) {
        Some(p) => Ok((Bound::Regex(RegexBound { regex: p }), k + 1)),
        None => Err(ParseError::BadRegex { pattern: body.to_owned() }),
    }
}

fn bound_at(s: &str, len: usize, i: usize) -> (r: Result<(Bound, usize), ParseError>)
    requires
        len == s@.len(),
        i <= len,
    ensures
        res_view(r) == spec_bound(s@, i as int),
        ends_within(r, len),
{
    if i < len && is_digit_char(s.get_char(i)) {
        num_bound_at(s, len, i)
    } else {
        regex_bound_at(s, len, i)
    }
}

fn addr_at(s: &str, len: usize, i: usize) -> (r: Result<(Addr, usize), ParseError>)
    requires
        len == s@.len(),
        i <= len,
    ensures
        res_view(r) == spec_addr(s@, i as int),
        ends_within(r, len),
{
    let i0 = skip_ws(s, len, i);
    if !(i0 < len && (is_digit_char(s.get_char(i0)) || s.get_char(i0) == '/' || s.get_char(i0)
        == '\\')) {
        return Ok((Addr::new0(), i0));
    }
    match bound_at(s, len, i0) {
        Err(e) => Err(e),
        Ok((b1, j)) => {
            if j < len && s.get_char(j) == ',' {
                match bound_at(s, len, j + 1) {
                    Err(e) => Err(e),
                    Ok((b2, k)) => Ok((Addr::new2(b1, b2), skip_ws(s, len, k))),
                }
            } else {
                Ok((Addr::new1(b1), skip_ws(s, len, j)))
            }
        },
    }
}

fn is_modifier_char(c: char) -> (r: bool)
    ensures
        r == is_modifier(c),
{
    !is_space_char(c) && c != ';' && c != '}'
}

fn substitute_at(s: &str, len: usize, i: usize) -> (r: Result<(SedCmd, usize), ParseError>)
    requires
        len == s@.len(),
        i <= len,
    ensures
        res_view(r) == spec_substitute(s@, i as int),
        ends_within(r, len),
{
    if i >= len {
        return Err(ParseError::Syntax { pos: i });
    }
    let d = s.get_char(i);
    let k1 = find_char(s, len, i + 1, d);
    if k1 >= len {
        return Err(ParseError::Syntax { pos: len });
    }
    let k2 = find_char(s, len, k1 + 1, d);
    if k2 >= len {
        return Err(ParseError::Syntax { pos: len });
    }
    let find = s.substring_char(i + 1, k1);
    match Pattern::new(find) {
        None => Err(ParseError::BadRegex { pattern: find.to_owned() }),
        Some(p) => {
            let replace = s.substring_char(k1 + 1, k2).to_owned();
            let end = if k2 + 1 < len && is_modifier_char(s.get_char(k2 + 1)) {
                k2 + 2
            } else {
                k2 + 1
            };
            Ok((SedCmd::Subst(Subst::new(p, replace)), end))
        },
    }
}

fn command_at(s: &str, len: usize, i: usize) -> (r: Result<((Addr, SedCmd), usize), ParseError>)
    requires
        len == s@.len(),
        i <= len,
    ensures
        res_view(r) == spec_command(s@, i as int),
        ends_within(r, len),
    decreases len - i, 0nat,
{
    match addr_at(s, len, i) {
        Err(e) => Err(e),
        Ok((a, j)) => {
            if j >= len {
                return Err(ParseError::Syntax { pos: j });
            }
            let c = s.get_char(j);
            if c == '{' && i <= j {
                match program_at(s, len, j + 1) {
                    Err(e) => Err(e),
                    Ok((m, k)) => {
                        if k < len && s.get_char(k) == '}' {
                            proof {
                                crate::functions::lemma_block_view(m);
                            }
                            Ok(((a, SedCmd::More(m)), skip_ws(s, len, k + 1)))
                        } else {
                            Err(ParseError::Syntax { pos: k })
                        }
                    },
                }
            } else if c == 'G' {
                Ok(((a, SedCmd::AppendHold(AppendHold {})), skip_ws(s, len, j + 1)))
            } else if c == 's' {
                match substitute_at(s, len, j + 1) {
                    Err(e) => Err(e),
                    Ok((cmd, k)) => Ok(((a, cmd), skip_ws(s, len, k))),
                }
            } else {
                Err(ParseError::Syntax { pos: j })
            }
        },
    }
}

fn program_at(s: &str, len: usize, i: usize) -> (r: Result<(MoreSedCmds, usize), ParseError>)
    requires
        len == s@.len(),
        i <= len,
    ensures
        res_view(r) == spec_program(s@, i as int),
        ends_within(r, len),
    decreases len - i, 1nat,
{
    match command_at(s, len, i) {
        Err(e) => Err(e),
        Ok((p, j)) => {
            if j < len && s.get_char(j) == ';' && i < j {
                match program_at(s, len, j + 1) {
                    Err(e) => Err(e),
                    Ok((rest, k)) => {
                        let ghost pv = p@;
                        let ghost rv = rest@;
                        let mut cmds = rest.cmds;
                        cmds.insert(0, p);
                        let m = MoreSedCmds { cmds };
                        assert(m@ =~= seq![pv] + rv);
                        Ok((m, k))
                    },
                }
            } else {
                let ghost pv = p@;
                let mut cmds = Vec::new();
                cmds.push(p);
                let m = MoreSedCmds { cmds };
                assert(m@ =~= seq![pv]);
                Ok((m, j))
            }
        },
    }
}

/// Whether `r`, which hands back what is left of `input`, agrees with the
/// spec result of reading `input` from its start.
pub open spec fn reads_as<T: View>(
    input: Seq<char>,
    spec: SpecResult<T::V>,
    r: Result<(&str, T), ParseError>,
) -> bool {
    match spec {
        Ok((v, j)) => r matches Ok((rest, t)) && t@ == v && rest@ == input.subrange(
            j,
            input.len() as int,
        ),
        Err(e) => r matches Err(x) && x@ == e,
    }
}

/// Splits a step's result into what was read and what is left of the text.
fn with_rest<'a, T: View>(s: &'a str, len: usize, r: Result<(T, usize), ParseError>) -> (out: Result<
    (&'a str, T),
    ParseError,
>)
    requires
        len == s@.len(),
        ends_within(r, len),
    ensures
        reads_as(s@, res_view(r), out),
{
    match r {
        Ok((t, j)) => Ok((s.substring_char(j, len), t)),
        Err(e) => Err(e),
    }
}

/// Reads a line-number bound at the start of `input`.
pub fn num_bound(input: &str) -> (r: Result<(&str, Bound), ParseError>)
    ensures
        reads_as(input@, spec_num_bound(input@, 0), r),
{
    let len = input.unicode_len();
    with_rest(input, len, num_bound_at(input, len, 0))
}

/// Reads a regex bound (`/re/` or `\` with a delimiter of its own) at the
/// start of `input`.
pub fn regex_bound(input: &str) -> (r: Result<(&str, Bound), ParseError>)
    ensures
        reads_as(input@, spec_regex_bound(input@, 0), r),
{
    let len = input.unicode_len();
    with_rest(input, len, regex_bound_at(input, len, 0))
}

/// Reads an address, with the whitespace around it, at the start of `input`.
pub fn addr(input: &str) -> (r: Result<(&str, Addr), ParseError>)
    ensures
        reads_as(input@, spec_addr(input@, 0), r),
{
    let len = input.unicode_len();
    with_rest(input, len, addr_at(input, len, 0))
}

/// Reads the part of a substitution that follows the `s`.
pub fn substitute(input: &str) -> (r: Result<(&str, SedCmd), ParseError>)
    ensures
        reads_as(input@, spec_substitute(input@, 0), r),
{
    let len = input.unicode_len();
    with_rest(input, len, substitute_at(input, len, 0))
}

/// Parses a whole program text into a block command.
pub fn toplevelparser(input: &str) -> (r: Result<SedCmd, ParseError>)
    ensures
        match spec_parse(input@) {
            Ok(c) => r matches Ok(x) && x@ == c,
            Err(e) => r matches Err(x) && x@ == e,
        },
{
    let len = input.unicode_len();
    match program_at(input, len, 0) {
        Err(e) => Err(e),
        Ok((m, j)) => {
            let k = skip_ws(input, len, j);
            if k == len {
                proof {
                    crate::functions::lemma_block_view(m);
                }
                Ok(SedCmd::More(m))
            } else {
                Err(ParseError::Syntax { pos: k })
            }
        },
    }
}

} // verus!
