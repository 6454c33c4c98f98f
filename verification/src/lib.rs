//! A small language front end and interpreter: a backtracking
//! parser-combinator engine, a lexer, a recursive-descent grammar and a
//! tree-walking evaluator for a minimal imperative language.
//!
//! The crate root holds the character-level combinators: parsers over
//! character slices that consume a prefix and return the parsed value with
//! the position after it. Each parser's contract is a mathematical model
//! of exactly which inputs it accepts (`ok`), what it returns, and which
//! error it reports where it fails (`err`).
use vstd::prelude::*;

pub mod evaluator;
pub mod grammar;
pub mod lexer;
pub mod parser;
pub mod parsers;
pub mod pretty;

verus! {

/// How a character-level parser can fail.
#[derive(Debug, Clone, PartialEq, Eq)]
pub enum CharParseError {
    /// No characters were left to read.
    EndOfInput,
    /// The character at the given position was not an expected one.
    Mismatch { at: usize },
}

/// A parser over characters: it consumes a prefix of the input beginning
/// at a position and hands back a value and the position after what it
/// consumed. `ok` is the mathematical model: `parse` succeeds on exactly
/// the inputs where `ok` is `Some`, and returns precisely its value;
/// where `ok` is `None`, the error that comes back is exactly `err`.
pub trait Parser: Sized {
    type Output: DeepView;

    /// The model: what the parser accepts at position `i` of `s`, and
    /// where the remainder starts.
    spec fn ok(&self, s: Seq<char>, i: int) -> Option<(<Self::Output as DeepView>::V, int)>;

    /// The model of failure: the error reported where `ok` is `None`.
    spec fn err(&self, s: Seq<char>, i: int) -> CharParseError;

    /// Runs the parser at `pos`.
    fn parse(&self, data: &[char], pos: usize) -> (r: Result<(Self::Output, usize), CharParseError>)
        requires
            pos <= data@.len(),
        ensures
            match r {
                Ok((o, k)) => self.ok(data@, pos as int) == Some((o.deep_view(), k as int)) && pos
                    <= k <= data@.len(),
                Err(e) => self.ok(data@, pos as int) is None && e == self.err(
                    data@,
                    pos as int,
                ),
            },
    ;

}

/// A parser that accepts exactly one expected character.
pub struct CharParser {
    pub the_char: char,
}

impl CharParser {
    /// Builds a parser that accepts exactly `c`.
    pub fn new(c: char) -> (r: CharParser)
        ensures
            r.the_char == c,
    {
        CharParser { the_char: c }
    }

    /// Sequences this parser with `next`: both must succeed, in order.
    pub fn and_then<B: Parser>(self, next: B) -> (r: DualParser<CharParser, B>)
        ensures
            r == (DualParser { first: self, second: next }),
    {
        DualParser { first: self, second: next }
    }

    /// Tries this parser; where it fails, tries `next` on the same input.
    pub fn or<B: Parser>(self, next: B) -> (r: OrParser<CharParser, B>)
        ensures
            r == (OrParser { a: self, b: next }),
    {
        OrParser { a: self, b: next }
    }
}

impl Parser for CharParser {
    type Output = char;

    open spec fn ok(&self, s: Seq<char>, i: int) -> Option<(char, int)> {
        if 0 <= i < s.len() && s[i] == self.the_char {
            Some((self.the_char, i + 1))
        } else {
            None
        }
    }

    /// Reading past the end reports the end of input; a character other
    /// than the expected one reports a mismatch at its position.
    open spec fn err(&self, s: Seq<char>, i: int) -> CharParseError {
        if 0 <= i < s.len() {
            CharParseError::Mismatch { at: i as usize }
        } else {
            CharParseError::EndOfInput
        }
    }

    /// Succeeds where the character at `pos` is the expected one,
    /// consuming exactly that character.
    fn parse(&self, data: &[char], pos: usize) -> (r: Result<(char, usize), CharParseError>) {
        if pos < data.len() {
            if data[pos] == self.the_char {
                Ok((self.the_char, pos + 1))
            } else {
                Err(CharParseError::Mismatch { at: pos })
            }
        } else {
            Err(CharParseError::EndOfInput)
        }
    }
}

/// What `RepParser` accepts: exactly `n` repetitions of the inner parser,
/// one after the other.
pub open spec fn rep_ok<P: Parser>(p: P, n: nat, s: Seq<char>, i: int) -> Option<
    (Seq<<P::Output as DeepView>::V>, int),
>
    decreases n,
{
    if n == 0 {
        Some((Seq::empty(), i))
    } else {
        match p.ok(s, i) {
            None => None,
            Some((v, k)) => match rep_ok(p, (n - 1) as nat, s, k) {
                None => None,
                Some((rest, end)) => Some((seq![v] + rest, end)),
            },
        }
    }
}

/// The error of a fixed-count repetition: the inner parser's error at the
/// first repetition that fails.
pub open spec fn rep_err<P: Parser>(p: P, n: nat, s: Seq<char>, i: int) -> CharParseError
    decreases n,
{
    if n == 0 {
        CharParseError::EndOfInput
    } else {
        match p.ok(s, i) {
            None => p.err(s, i),
            Some((v, k)) => rep_err(p, (n - 1) as nat, s, k),
        }
    }
}

/// A parser that applies an inner parser a fixed number of times and
/// collects the results.
pub struct RepParser<P: Parser> {
    pub reps: usize,
    pub parser: P,
}

impl<P: Parser> Parser for RepParser<P> {
    type Output = Vec<P::Output>;

    open spec fn ok(&self, s: Seq<char>, i: int) -> Option<
        (Seq<<P::Output as DeepView>::V>, int),
    > {
        rep_ok(self.parser, self.reps as nat, s, i)
    }

    /// The inner parser's error at the first repetition that fails.
    open spec fn err(&self, s: Seq<char>, i: int) -> CharParseError {
        rep_err(self.parser, self.reps as nat, s, i)
    }

    /// Runs the inner parser exactly `reps` times; fails on the first
    /// repetition that fails, reporting that repetition's error.
    fn parse(&self, data: &[char], pos: usize) -> (r: Result<
        (Vec<P::Output>, usize),
        CharParseError,
    >) {
        let mut v: Vec<P::Output> = Vec::new();
        let mut cur: usize = pos;
        let mut cnt: usize = 0;
        proof {
            assert(v.deep_view() =~= Seq::<<P::Output as DeepView>::V>::empty());
        }
        loop
            invariant
                cnt <= self.reps,
                pos <= cur <= data@.len(),
                match rep_ok(self.parser, (self.reps - cnt) as nat, data@, cur as int) {
                    Some((rest, end)) => rep_ok(self.parser, self.reps as nat, data@, pos as int)
                        == Some((v.deep_view() + rest, end)),
                    None => rep_ok(self.parser, self.reps as nat, data@, pos as int) is None,
                },
                rep_err(self.parser, self.reps as nat, data@, pos as int) == rep_err(
                    self.parser,
                    (self.reps - cnt) as nat,
                    data@,
                    cur as int,
                ),
            decreases self.reps - cnt,
        {
            if cnt >= self.reps {
                proof {
                    assert(v.deep_view() + Seq::<<P::Output as DeepView>::V>::empty()
                        =~= v.deep_view());
                }
                return Ok((v, cur));
            }
            match self.parser.parse(data, cur) {
                Err(e) => {
                    return Err(e);
                },
                Ok((o, k)) => {
                    let ghost oldv = v.deep_view();
                    let ghost ov = o.deep_view();
                    v.push(o);
                    proof {
                        assert(v.deep_view() =~= oldv + seq![ov]);
                        match rep_ok(self.parser, (self.reps - cnt - 1) as nat, data@, k as int) {
                            Some((rest, end)) => {
                                assert(oldv + (seq![ov] + rest) =~= v.deep_view() + rest);
                            },
                            None => {},
                        }
                    }
                    cur = k;
                    cnt = cnt + 1;
                },
            }
        }
    }
}

/// A parser that runs two parsers in sequence and pairs their results.
pub struct DualParser<A: Parser, B: Parser> {
    pub first: A,
    pub second: B,
}

impl<A: Parser, B: Parser> Parser for DualParser<A, B> {
    type Output = (A::Output, B::Output);

    open spec fn ok(&self, s: Seq<char>, i: int) -> Option<
        ((<A::Output as DeepView>::V, <B::Output as DeepView>::V), int),
    > {
        match self.first.ok(s, i) {
            None => None,
            Some((va, k)) => match self.second.ok(s, k) {
                None => None,
                Some((vb, end)) => Some(((va, vb), end)),
            },
        }
    }

    /// The failing side's error, unchanged.
    open spec fn err(&self, s: Seq<char>, i: int) -> CharParseError {
        match self.first.ok(s, i) {
            None => self.first.err(s, i),
            Some((va, k)) => self.second.err(s, k),
        }
    }

    /// Runs the first parser, then the second on the remainder; succeeds
    /// only where both succeed, propagating the failing side's error.
    fn parse(&self, data: &[char], pos: usize) -> (r: Result<
        ((A::Output, B::Output), usize),
        CharParseError,
    >) {
        match self.first.parse(data, pos) {
            Err(e) => Err(e),
            Ok((a, k)) => match self.second.parse(data, k) {
                Err(e) => Err(e),
                Ok((b, end)) => Ok(((a, b), end)),
            },
        }
    }
}

/// Which of two alternatives matched.
#[derive(Debug, Clone, PartialEq, Eq)]
pub enum Or<A, B> {
    OrA(A),
    OrB(B),
}

impl<A: DeepView, B: DeepView> DeepView for Or<A, B> {
    type V = Or<A::V, B::V>;

    open spec fn deep_view(&self) -> Or<A::V, B::V> {
        match self {
            Or::OrA(a) => Or::OrA(a.deep_view()),
            Or::OrB(b) => Or::OrB(b.deep_view()),
        }
    }
}

/// A parser that tries one alternative and falls back to a second on the
/// original input: ordered backtracking choice.
pub struct OrParser<A: Parser, B: Parser> {
    pub a: A,
    pub b: B,
}

impl<A: Parser, B: Parser> Parser for OrParser<A, B> {
    type Output = Or<A::Output, B::Output>;

    open spec fn ok(&self, s: Seq<char>, i: int) -> Option<
        (Or<<A::Output as DeepView>::V, <B::Output as DeepView>::V>, int),
    > {
        match self.a.ok(s, i) {
            Some((va, k)) => Some((Or::OrA(va), k)),
            None => match self.b.ok(s, i) {
                Some((vb, k)) => Some((Or::OrB(vb), k)),
                None => None,
            },
        }
    }

    /// Where both alternatives fail, the second one's error is reported.
    open spec fn err(&self, s: Seq<char>, i: int) -> CharParseError {
        self.b.err(s, i)
    }

    /// Tries the first alternative; where it fails, tries the second on
    /// the same position, reporting the second's error where both fail.
    /// The first alternative that matches wins, so callers put the longer
    /// or more specific one first.
    fn parse(&self, data: &[char], pos: usize) -> (r: Result<
        (Or<A::Output, B::Output>, usize),
        CharParseError,
    >) {
        match self.a.parse(data, pos) {
            Ok((a, k)) => Ok((Or::OrA(a), k)),
            Err(_) => match self.b.parse(data, pos) {
                Ok((b, k)) => Ok((Or::OrB(b), k)),
                Err(e) => Err(e),
            },
        }
    }
}

} // verus!
