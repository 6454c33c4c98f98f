//! The generic combinator engine: composable parsing building blocks over
//! token slices. A parser consumes a prefix of the input beginning at a
//! position and hands back a typed value with the position after it; each
//! combinator's contract is a mathematical model of exactly which inputs
//! it accepts (`ok`), what it returns, and which error it reports where it
//! fails (`err`).
use vstd::prelude::*;

use crate::grammar::{SpecToken, Token};

verus! {

/// How a parser can fail.
#[derive(Debug, Clone, PartialEq, Eq)]
pub enum ParseError {
    /// The input ended where an element was required.
    EndOfInput,
    /// The element at the given position fits no expected shape.
    UnexpectedToken { at: usize },
    /// A repetition with separators collected fewer elements than required.
    TooFewReps { required: usize, got: usize },
}

/// A parser over tokens. `ok` is the model: `parse` succeeds on exactly
/// the inputs where `ok` is `Some`, and returns precisely its value;
/// where `ok` is `None`, the error that comes back is exactly `err`.
pub trait Parser: Sized {
    type Output: DeepView;

    /// The model: what the parser accepts at position `i` of `t`, and
    /// where the remainder starts.
    spec fn ok(&self, t: Seq<SpecToken>, i: int) -> Option<(<Self::Output as DeepView>::V, int)>;

    /// The model of failure: the error reported where `ok` is `None`.
    spec fn err(&self, t: Seq<SpecToken>, i: int) -> ParseError;

    /// Runs the parser at `pos`.
    fn parse(&self, data: &[Token], pos: usize) -> (r: Result<(Self::Output, usize), ParseError>)
        requires
            pos <= data@.len(),
        ensures
            match r {
                Ok((o, k)) => self.ok(data.deep_view(), pos as int) == Some(
                    (o.deep_view(), k as int),
                ) && pos <= k <= data@.len(),
                Err(e) => self.ok(data.deep_view(), pos as int) is None && e == self.err(
                    data.deep_view(),
                    pos as int,
                ),
            },
    ;
}

/// A single-token failure: the end of the input where a token was needed,
/// and otherwise an unexpected token at the given position.
pub open spec fn one_token_err(t: Seq<SpecToken>, i: int) -> ParseError {
    if 0 <= i < t.len() {
        ParseError::UnexpectedToken { at: i as usize }
    } else {
        ParseError::EndOfInput
    }
}

/// Whether two tokens carry the same value.
pub fn token_eq(a: &Token, b: &Token) -> (r: bool)
    ensures
        r == (a.deep_view() == b.deep_view()),
{
    match (a, b) {
        (Token::Equals, Token::Equals) => true,
        (Token::Ident(x), Token::Ident(y)) => *x == *y,
        (Token::Number(x), Token::Number(y)) => *x == *y,
        (Token::PlusSign, Token::PlusSign) => true,
        (Token::MinusSign, Token::MinusSign) => true,
        (Token::MultSign, Token::MultSign) => true,
        (Token::DivideSign, Token::DivideSign) => true,
        (Token::ModuloSign, Token::ModuloSign) => true,
        (Token::OutputCmd, Token::OutputCmd) => true,
        (Token::NewLine, Token::NewLine) => true,
        (Token::OpenParen, Token::OpenParen) => true,
        (Token::CloseParen, Token::CloseParen) => true,
        (Token::OpenBrace, Token::OpenBrace) => true,
        (Token::CloseBrace, Token::CloseBrace) => true,
        (Token::IfKeyword, Token::IfKeyword) => true,
        (Token::ElseKeyword, Token::ElseKeyword) => true,
        (Token::WhileKeyword, Token::WhileKeyword) => true,
        (Token::Cmp(x), Token::Cmp(y)) => *x == *y,
        _ => false,
    }
}

/// A parser that accepts one token equal to an expected literal.
pub struct LiteralParser {
    pub literal: Token,
}

impl Parser for LiteralParser {
    type Output = Token;

    open spec fn ok(&self, t: Seq<SpecToken>, i: int) -> Option<(SpecToken, int)> {
        if 0 <= i < t.len() && t[i] == self.literal.deep_view() {
            Some((t[i], i + 1))
        } else {
            None
        }
    }

    open spec fn err(&self, t: Seq<SpecToken>, i: int) -> ParseError {
        one_token_err(t, i)
    }

    /// Succeeds where the token at `pos` equals the expected literal,
    /// consuming exactly that token; fails with the end of input or the
    /// position of the mismatching token.
    fn parse(&self, data: &[Token], pos: usize) -> (r: Result<(Token, usize), ParseError>) {
        if pos >= data.len() {
            return Err(ParseError::EndOfInput);
        }
        if token_eq(&data[pos], &self.literal) {
            Ok((self.literal.duplicate(), pos + 1))
        } else {
            Err(ParseError::UnexpectedToken { at: pos })
        }
    }
}

/// Builds a parser for one expected token.
pub fn literal(t: Token) -> (r: LiteralParser)
    ensures
        r == (LiteralParser { literal: t }),
{
    LiteralParser { literal: t }
}

/// A predicate over single tokens that yields a typed value: the heart of
/// `MatchParser`.
pub trait TokenMatcher: Sized {
    type Out: DeepView;

    /// The model of the predicate.
    spec fn spec_match(&self, t: SpecToken) -> Option<<Self::Out as DeepView>::V>;

    /// Applies the predicate to one token.
    fn check(&self, t: &Token) -> (r: Option<Self::Out>)
        ensures
            match r {
                Some(o) => self.spec_match(t.deep_view()) == Some(o.deep_view()),
                None => self.spec_match(t.deep_view()) is None,
            },
    ;
}

/// A matcher that accepts an integer-literal token and yields its value.
pub struct NumberMatcher;

impl TokenMatcher for NumberMatcher {
    type Out = i32;

    open spec fn spec_match(&self, t: SpecToken) -> Option<i32> {
        match t {
            SpecToken::Number(n) => Some(n),
            _ => None,
        }
    }

    fn check(&self, t: &Token) -> (r: Option<i32>) {
        match t {
            Token::Number(n) => Some(*n),
            _ => None,
        }
    }
}

/// A matcher that accepts an identifier token and yields its name.
pub struct IdentMatcher;

impl TokenMatcher for IdentMatcher {
    type Out = String;

    open spec fn spec_match(&self, t: SpecToken) -> Option<Seq<char>> {
        match t {
            SpecToken::Ident(name) => Some(name),
            _ => None,
        }
    }

    fn check(&self, t: &Token) -> (r: Option<String>) {
        match t {
            Token::Ident(name) => Some(name.clone()),
            _ => None,
        }
    }
}

/// A parser that applies a matcher to the first token; it consumes one
/// token where the matcher accepts it.
pub struct MatchParser<M: TokenMatcher> {
    pub matcher: M,
}

impl<M: TokenMatcher> Parser for MatchParser<M> {
    type Output = M::Out;

    open spec fn ok(&self, t: Seq<SpecToken>, i: int) -> Option<(<M::Out as DeepView>::V, int)> {
        if 0 <= i < t.len() {
            match self.matcher.spec_match(t[i]) {
                Some(v) => Some((v, i + 1)),
                None => None,
            }
        } else {
            None
        }
    }

    open spec fn err(&self, t: Seq<SpecToken>, i: int) -> ParseError {
        one_token_err(t, i)
    }

    /// Succeeds where the matcher accepts the token at `pos`, consuming
    /// exactly that token; fails with the end of input or the position of
    /// the rejected token.
    fn parse(&self, data: &[Token], pos: usize) -> (r: Result<(M::Out, usize), ParseError>) {
        if pos >= data.len() {
            return Err(ParseError::EndOfInput);
        }
        match self.matcher.check(&data[pos]) {
            Some(o) => Ok((o, pos + 1)),
            None => Err(ParseError::UnexpectedToken { at: pos }),
        }
    }
}

/// What `RepParser` accepts: the inner parser as many times as it
/// succeeds, stopping at its first failure or at a repetition that
/// consumed nothing. It never fails overall.
pub open spec fn many_ok<P: Parser>(p: P, t: Seq<SpecToken>, i: int) -> (
    Seq<<P::Output as DeepView>::V>,
    int,
)
    decreases t.len() - i,
{
    match p.ok(t, i) {
        None => (Seq::empty(), i),
        Some((v, k)) => if i < k <= t.len() {
            let rest = many_ok(p, t, k);
            (seq![v] + rest.0, rest.1)
        } else {
            (seq![v], k)
        },
    }
}

/// A parser that applies an inner parser zero or more times, until it
/// fails, and collects the results; it never itself fails.
pub struct RepParser<P: Parser> {
    pub parser: P,
}

impl<P: Parser> Parser for RepParser<P> {
    type Output = Vec<P::Output>;

    open spec fn ok(&self, t: Seq<SpecToken>, i: int) -> Option<
        (Seq<<P::Output as DeepView>::V>, int),
    > {
        Some(many_ok(self.parser, t, i))
    }

    /// The repetition never fails, so no error is ever reported.
    open spec fn err(&self, t: Seq<SpecToken>, i: int) -> ParseError {
        ParseError::EndOfInput
    }

    /// Applies the inner parser until it fails; partial progress of the
    /// failing attempt is discarded, and what was collected up to the last
    /// success is returned.
    fn parse(&self, data: &[Token], pos: usize) -> (r: Result<
        (Vec<P::Output>, usize),
        ParseError,
    >) {
        let mut v: Vec<P::Output> = Vec::new();
        let mut cur: usize = pos;
        proof {
            assert(v.deep_view() =~= Seq::<<P::Output as DeepView>::V>::empty());
        }
        loop
            invariant
                pos <= cur <= data@.len(),
                ({
                    let rest = many_ok(self.parser, data.deep_view(), cur as int);
                    many_ok(self.parser, data.deep_view(), pos as int) == (
                        v.deep_view() + rest.0,
                        rest.1,
                    )
                }),
            decreases data@.len() - cur,
        {
            match self.parser.parse(data, cur) {
                Err(_) => {
                    proof {
                        assert(v.deep_view() + Seq::<<P::Output as DeepView>::V>::empty()
                            =~= v.deep_view());
                    }
                    return Ok((v, cur));
                },
                Ok((o, k)) => {
                    let ghost oldv = v.deep_view();
                    let ghost ov = o.deep_view();
                    v.push(o);
                    proof {
                        assert(v.deep_view() =~= oldv + seq![ov]);
                    }
                    if k <= cur {
                        proof {
                            assert(oldv + seq![ov] =~= v.deep_view() + Seq::<
                                <P::Output as DeepView>::V,
                            >::empty());
                        }
                        return Ok((v, k));
                    }
                    proof {
                        let rest = many_ok(self.parser, data.deep_view(), k as int);
                        assert(oldv + (seq![ov] + rest.0) =~= v.deep_view() + rest.0);
                    }
                    cur = k;
                },
            }
        }
    }
}

/// What the repetitions of `RepSepParser` accept: an element, then as
/// many (separator, element) rounds as the separator opens. The
/// separator's failure ends the chain cleanly after the last element; an
/// element's failure anywhere fails the whole chain.
pub open spec fn repsep_ok<R: Parser, S: Parser>(rep: R, sep: S, t: Seq<SpecToken>, i: int) ->
    Option<(Seq<<R::Output as DeepView>::V>, int)>
    decreases t.len() - i, 1int,
{
    if i < 0 || i > t.len() {
        None
    } else {
        match rep.ok(t, i) {
            None => None,
            Some((v, k)) => {
                let kk = if i <= k <= t.len() {
                    k
                } else {
                    i
                };
                match repsep_cont(rep, sep, t, kk) {
                    None => None,
                    Some((rest, end)) => Some((seq![v] + rest, end)),
                }
            },
        }
    }
}

/// The chain behind one parsed element that ended at `k`. Where the
/// separator fails, the chain ends there. Where it succeeds, the next
/// element follows; a separator success that consumes nothing is followed
/// by that element attempt at the same position, and only where the
/// element also consumes nothing — a chain that could never end — is the
/// repetition cut short after it.
pub open spec fn repsep_cont<R: Parser, S: Parser>(rep: R, sep: S, t: Seq<SpecToken>, k: int) ->
    Option<(Seq<<R::Output as DeepView>::V>, int)>
    decreases t.len() - k, 0int,
{
    if k < 0 || k > t.len() {
        Some((Seq::empty(), k))
    } else {
        match sep.ok(t, k) {
            None => Some((Seq::empty(), k)),
            Some((_, k2)) => if k < k2 <= t.len() {
                repsep_ok(rep, sep, t, k2)
            } else {
                match rep.ok(t, k) {
                    None => None,
                    Some((v2, k3)) => if k < k3 <= t.len() {
                        match repsep_cont(rep, sep, t, k3) {
                            None => None,
                            Some((rest, end)) => Some((seq![v2] + rest, end)),
                        }
                    } else {
                        Some((seq![v2], k))
                    },
                }
            },
        }
    }
}

/// The error of a failed separated repetition: the element parser's error
/// at the element that failed.
pub open spec fn repsep_err<R: Parser, S: Parser>(
    rep: R,
    sep: S,
    t: Seq<SpecToken>,
    i: int,
) -> ParseError
    decreases t.len() - i, 1int,
{
    if i < 0 || i > t.len() {
        ParseError::EndOfInput
    } else {
        match rep.ok(t, i) {
            None => rep.err(t, i),
            Some((v, k)) => {
                let kk = if i <= k <= t.len() {
                    k
                } else {
                    i
                };
                repsep_cont_err(rep, sep, t, kk)
            },
        }
    }
}

/// See `repsep_err`: the failing element behind one parsed element.
pub open spec fn repsep_cont_err<R: Parser, S: Parser>(
    rep: R,
    sep: S,
    t: Seq<SpecToken>,
    k: int,
) -> ParseError
    decreases t.len() - k, 0int,
{
    if k < 0 || k > t.len() {
        ParseError::EndOfInput
    } else {
        match sep.ok(t, k) {
            None => ParseError::EndOfInput,
            Some((_, k2)) => if k < k2 <= t.len() {
                repsep_err(rep, sep, t, k2)
            } else {
                match rep.ok(t, k) {
                    None => rep.err(t, k),
                    Some((v2, k3)) => if k < k3 <= t.len() {
                        repsep_cont_err(rep, sep, t, k3)
                    } else {
                        ParseError::EndOfInput
                    },
                }
            },
        }
    }
}

/// A parser for separated repetitions: it applies `rep`, then `sep`, and
/// continues with the next element while the separator succeeds. The
/// separator's failure is how the repetition ends; an element's failure
/// fails the whole parse, as does collecting fewer than `min_reps`
/// elements.
pub struct RepSepParser<R: Parser, S: Parser> {
    pub rep: R,
    pub sep: S,
    pub min_reps: usize,
}

impl<R: Parser, S: Parser> RepSepParser<R, S> {
    /// The separated elements themselves, before the minimum count is
    /// checked.
    fn parse_elements(&self, data: &[Token], pos: usize) -> (r: Result<
        (Vec<R::Output>, usize),
        ParseError,
    >)
        requires
            pos <= data@.len(),
        ensures
            match r {
                Ok((o, k)) => repsep_ok(self.rep, self.sep, data.deep_view(), pos as int) == Some(
                    (o.deep_view(), k as int),
                ) && pos <= k <= data@.len(),
                Err(e) => repsep_ok(self.rep, self.sep, data.deep_view(), pos as int) is None && e
                    == repsep_err(self.rep, self.sep, data.deep_view(), pos as int),
            },
        decreases data@.len() - pos, 1int,
    {
        match self.rep.parse(data, pos) {
            Err(e) => Err(e),
            Ok((o, k)) => {
                let ghost ov = o.deep_view();
                match self.parse_cont(data, k) {
                    Err(e) => Err(e),
                    Ok((mut rest, end)) => {
                        let ghost restv = rest.deep_view();
                        let mut v: Vec<R::Output> = Vec::new();
                        v.push(o);
                        v.append(&mut rest);
                        proof {
                            assert(v.deep_view() =~= seq![ov] + restv);
                        }
                        Ok((v, end))
                    },
                }
            },
        }
    }

    /// The chain behind one parsed element that ended at `pos`.
    fn parse_cont(&self, data: &[Token], pos: usize) -> (r: Result<
        (Vec<R::Output>, usize),
        ParseError,
    >)
        requires
            pos <= data@.len(),
        ensures
            match r {
                Ok((o, k)) => repsep_cont(self.rep, self.sep, data.deep_view(), pos as int)
                    == Some((o.deep_view(), k as int)) && pos <= k <= data@.len(),
                Err(e) => repsep_cont(self.rep, self.sep, data.deep_view(), pos as int) is None
                    && e == repsep_cont_err(self.rep, self.sep, data.deep_view(), pos as int),
            },
        decreases data@.len() - pos, 0int,
    {
        match self.sep.parse(data, pos) {
            Err(_) => {
                let v: Vec<R::Output> = Vec::new();
                proof {
                    assert(v.deep_view() =~= Seq::<<R::Output as DeepView>::V>::empty());
                }
                Ok((v, pos))
            },
            Ok((_, k2)) => {
                if k2 > pos {
                    self.parse_elements(data, k2)
                } else {
                    match self.rep.parse(data, pos) {
                        Err(e) => Err(e),
                        Ok((o2, k3)) => {
                            let ghost ov2 = o2.deep_view();
                            if k3 > pos {
                                match self.parse_cont(data, k3) {
                                    Err(e) => Err(e),
                                    Ok((mut rest, end)) => {
                                        let ghost restv = rest.deep_view();
                                        let mut v: Vec<R::Output> = Vec::new();
                                        v.push(o2);
                                        v.append(&mut rest);
                                        proof {
                                            assert(v.deep_view() =~= seq![ov2] + restv);
                                        }
                                        Ok((v, end))
                                    },
                                }
                            } else {
                                let mut v: Vec<R::Output> = Vec::new();
                                v.push(o2);
                                proof {
                                    assert(v.deep_view() =~= seq![ov2]);
                                }
                                Ok((v, pos))
                            }
                        },
                    }
                }
            },
        }
    }
}

impl<R: Parser, S: Parser> Parser for RepSepParser<R, S> {
    type Output = Vec<R::Output>;

    open spec fn ok(&self, t: Seq<SpecToken>, i: int) -> Option<
        (Seq<<R::Output as DeepView>::V>, int),
    > {
        match repsep_ok(self.rep, self.sep, t, i) {
            None => None,
            Some((s, end)) => if s.len() >= self.min_reps {
                Some((s, end))
            } else {
                None
            },
        }
    }

    /// A failing element's error propagates unchanged; a chain shorter
    /// than the minimum reports the count mismatch.
    open spec fn err(&self, t: Seq<SpecToken>, i: int) -> ParseError {
        match repsep_ok(self.rep, self.sep, t, i) {
            None => repsep_err(self.rep, self.sep, t, i),
            Some((s, end)) => ParseError::TooFewReps {
                required: self.min_reps,
                got: s.len() as usize,
            },
        }
    }

    /// Collects separated elements and checks the minimum count.
    fn parse(&self, data: &[Token], pos: usize) -> (r: Result<
        (Vec<R::Output>, usize),
        ParseError,
    >) {
        match self.parse_elements(data, pos) {
            Err(e) => Err(e),
            Ok((v, k)) => {
                if v.len() >= self.min_reps {
                    Ok((v, k))
                } else {
                    Err(ParseError::TooFewReps { required: self.min_reps, got: v.len() })
                }
            },
        }
    }
}

/// A parser that runs two parsers in sequence and pairs their results.
pub struct DualParser<A: Parser, B: Parser> {
    pub first: A,
    pub second: B,
}

impl<A: Parser, B: Parser> Parser for DualParser<A, B> {
    type Output = (A::Output, B::Output);

    open spec fn ok(&self, t: Seq<SpecToken>, i: int) -> Option<
        ((<A::Output as DeepView>::V, <B::Output as DeepView>::V), int),
    > {
        match self.first.ok(t, i) {
            None => None,
            Some((va, k)) => match self.second.ok(t, k) {
                None => None,
                Some((vb, end)) => Some(((va, vb), end)),
            },
        }
    }

    /// The failing side's error, unchanged.
    open spec fn err(&self, t: Seq<SpecToken>, i: int) -> ParseError {
        match self.first.ok(t, i) {
            None => self.first.err(t, i),
            Some((va, k)) => self.second.err(t, k),
        }
    }

    /// Runs the first parser, then the second on the remainder; succeeds
    /// only where both succeed, propagating the failing side's error.
    fn parse(&self, data: &[Token], pos: usize) -> (r: Result<
        ((A::Output, B::Output), usize),
        ParseError,
    >) {
        match self.first.parse(data, pos) {
            Err(e) => Err(e),
            Ok((a, k)) => match self.second.parse(data, k) {
                Err(e) => Err(e),
                Ok((b, end)) => Ok(((a, b), end)),
            },
        }
    }
}

/// A parser that tries one alternative and falls back to a second on the
/// original input: ordered backtracking choice between parsers of one
/// output type.
pub struct OrParser<A: Parser, B: Parser> {
    pub a: A,
    pub b: B,
}

impl<A: Parser, B: Parser<Output = A::Output>> Parser for OrParser<A, B> {
    type Output = A::Output;

    open spec fn ok(&self, t: Seq<SpecToken>, i: int) -> Option<
        (<A::Output as DeepView>::V, int),
    > {
        match self.a.ok(t, i) {
            Some((va, k)) => Some((va, k)),
            None => self.b.ok(t, i),
        }
    }

    /// Where both alternatives fail, the second one's error is reported.
    open spec fn err(&self, t: Seq<SpecToken>, i: int) -> ParseError {
        self.b.err(t, i)
    }

    /// Tries the first alternative; where it fails, tries the second on
    /// the same position, reporting the second's error where both fail.
    /// The first alternative that matches wins, so callers put the longer
    /// or more specific one first.
    fn parse(&self, data: &[Token], pos: usize) -> (r: Result<(A::Output, usize), ParseError>) {
        match self.a.parse(data, pos) {
            Ok((a, k)) => Ok((a, k)),
            Err(_) => self.b.parse(data, pos),
        }
    }
}

/// What `OneOfParser` accepts: the first of its alternatives, in order,
/// that accepts the input.
pub open spec fn oneof_ok<P: Parser>(ps: Seq<P>, t: Seq<SpecToken>, i: int) -> Option<
    (<P::Output as DeepView>::V, int),
>
    decreases ps.len(),
{
    if ps.len() == 0 {
        None
    } else {
        match ps[0].ok(t, i) {
            Some((v, k)) => Some((v, k)),
            None => oneof_ok(ps.drop_first(), t, i),
        }
    }
}

/// A parser that tries a list of alternatives of one shape in order and
/// takes the first that matches.
pub struct OneOfParser<P: Parser> {
    pub parsers: Vec<P>,
}

impl<P: Parser> Parser for OneOfParser<P> {
    type Output = P::Output;

    open spec fn ok(&self, t: Seq<SpecToken>, i: int) -> Option<
        (<P::Output as DeepView>::V, int),
    > {
        oneof_ok(self.parsers@, t, i)
    }

    /// Where every alternative fails, the position that fit none of them
    /// is reported.
    open spec fn err(&self, t: Seq<SpecToken>, i: int) -> ParseError {
        ParseError::UnexpectedToken { at: i as usize }
    }

    /// Tries each alternative in order on the same position; fails only
    /// where all fail.
    fn parse(&self, data: &[Token], pos: usize) -> (r: Result<(P::Output, usize), ParseError>) {
        let n = self.parsers.len();
        let mut j: usize = 0;
        proof {
            assert(self.parsers@.skip(0) =~= self.parsers@);
        }
        while j < n
            invariant
                pos <= data@.len(),
                n == self.parsers@.len(),
                j <= n,
                oneof_ok(self.parsers@, data.deep_view(), pos as int) == oneof_ok(
                    self.parsers@.skip(j as int),
                    data.deep_view(),
                    pos as int,
                ),
            decreases n - j,
        {
            proof {
                assert(self.parsers@.skip(j as int)[0] == self.parsers@[j as int]);
                assert(self.parsers@.skip(j as int).drop_first() =~= self.parsers@.skip(j + 1));
            }
            match self.parsers[j].parse(data, pos) {
                Ok((o, k)) => {
                    return Ok((o, k));
                },
                Err(_) => {
                    j = j + 1;
                },
            }
        }
        proof {
            assert(self.parsers@.skip(n as int) =~= Seq::<P>::empty());
        }
        Err(ParseError::UnexpectedToken { at: pos })
    }
}

/// A value-level transform with a model: the heart of `MapParser`.
pub trait Mapper: Sized {
    type In: DeepView;

    type Out: DeepView;

    /// The model of the transform.
    spec fn spec_map(&self, x: <Self::In as DeepView>::V) -> <Self::Out as DeepView>::V;

    /// Applies the transform.
    fn map(&self, x: Self::In) -> (r: Self::Out)
        ensures
            r.deep_view() == self.spec_map(x.deep_view()),
    ;
}

/// A mapper that wraps an integer value as a literal expression, the way
/// the grammar turns a number token into a leaf of the syntax tree.
pub struct NumToExpr;

impl Mapper for NumToExpr {
    type In = i32;

    type Out = crate::grammar::Expr;

    open spec fn spec_map(&self, x: i32) -> crate::grammar::SpecExpr {
        crate::grammar::SpecExpr::Num(x)
    }

    fn map(&self, x: i32) -> (r: crate::grammar::Expr) {
        crate::grammar::Expr::Num(x)
    }
}

/// A parser that runs an inner parser and transforms its output,
/// preserving success and failure.
pub struct MapParser<P: Parser, M: Mapper<In = P::Output>> {
    pub parser: P,
    pub mapper: M,
}

impl<P: Parser, M: Mapper<In = P::Output>> Parser for MapParser<P, M> {
    type Output = M::Out;

    open spec fn ok(&self, t: Seq<SpecToken>, i: int) -> Option<(<M::Out as DeepView>::V, int)> {
        match self.parser.ok(t, i) {
            None => None,
            Some((v, k)) => Some((self.mapper.spec_map(v), k)),
        }
    }

    /// The inner parser's error, unchanged.
    open spec fn err(&self, t: Seq<SpecToken>, i: int) -> ParseError {
        self.parser.err(t, i)
    }

    /// Runs the inner parser, then applies the transform to its output,
    /// preserving success, failure and the failure's error.
    fn parse(&self, data: &[Token], pos: usize) -> (r: Result<(M::Out, usize), ParseError>) {
        match self.parser.parse(data, pos) {
            Err(e) => Err(e),
            Ok((o, k)) => Ok((self.mapper.map(o), k)),
        }
    }
}


} // verus!

