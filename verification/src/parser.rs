//! The grammar: recursive descent over tokens, producing the syntax tree.
//!
//! The expression grammar is the usual two-level precedence chain:
//! a `term` is a parenthesized expression, a variable or a number; a
//! multiplicative chain binds tighter than an additive chain. Chains are
//! flattened: the whole expression is always an `AddSub` list whose first
//! element carries the identity operator `Add`, and a multiplicative chain
//! of more than one term becomes a `MultDiv` list headed by `Multiply`.
//!
//! Each executable function mirrors a specification function over the token
//! sequence and is proved to return exactly what the specification says.
use vstd::prelude::*;

use crate::grammar::{
    view_add_terms, view_block, view_mult_terms, view_statements, AddOp, AddTerm, Block,
    Comparator, Expr, MultOp, MultTerm, SpecExpr, SpecStatement, SpecToken, Statement, Token,
};
use crate::parsers::ParseError;

verus! {

/// A term at position `i`: a parenthesized expression, a variable or an
/// integer literal. The parenthesized alternative is tried first.
pub open spec fn spec_parse_term(t: Seq<SpecToken>, i: int) -> Option<(SpecExpr, int)>
    decreases t.len() - i, 0int,
{
    if i < 0 || i >= t.len() {
        None
    } else {
        match t[i] {
            SpecToken::OpenParen => match spec_parse_expr(t, i + 1) {
                Some((e, k)) => if k < t.len() && t[k] is CloseParen {
                    Some((e, k + 1))
                } else {
                    None
                },
                None => None,
            },
            SpecToken::Ident(name) => Some((SpecExpr::Variable(name), i + 1)),
            SpecToken::Number(n) => Some((SpecExpr::Num(n), i + 1)),
            _ => None,
        }
    }
}

/// The continuation of a multiplicative chain: zero or more
/// (operator, term) pairs starting at `i`. Never fails; stops before the
/// first position that does not continue the chain.
pub open spec fn spec_parse_mult_rest(t: Seq<SpecToken>, i: int) -> (Seq<(MultOp, SpecExpr)>, int)
    decreases t.len() - i, 1int,
{
    if i < 0 || i >= t.len() {
        (Seq::empty(), i)
    } else {
        let op = match t[i] {
            SpecToken::MultSign => Some(MultOp::Multiply),
            SpecToken::DivideSign => Some(MultOp::Divide),
            SpecToken::ModuloSign => Some(MultOp::Modulo),
            _ => None,
        };
        match op {
            None => (Seq::empty(), i),
            Some(m) => match spec_parse_term(t, i + 1) {
                None => (Seq::empty(), i),
                Some((e, k)) => if i < k <= t.len() {
                    let rest = spec_parse_mult_rest(t, k);
                    (seq![(m, e)] + rest.0, rest.1)
                } else {
                    (Seq::empty(), i)
                },
            },
        }
    }
}

/// A multiplicative chain at `i`: a term, then zero or more `* / %` steps.
/// A single bare term stays as it is; a longer chain is flattened into a
/// `MultDiv` list headed by the identity operator `Multiply`.
pub open spec fn spec_parse_mult(t: Seq<SpecToken>, i: int) -> Option<(SpecExpr, int)>
    decreases t.len() - i, 2int,
{
    match spec_parse_term(t, i) {
        None => None,
        Some((first, k)) => if i < k <= t.len() {
            let rest = spec_parse_mult_rest(t, k);
            if rest.0.len() == 0 {
                Some((first, k))
            } else {
                Some((SpecExpr::MultDiv(seq![(MultOp::Multiply, first)] + rest.0), rest.1))
            }
        } else {
            None
        },
    }
}

/// The continuation of an additive chain: zero or more (operator, chain)
/// pairs starting at `i`.
pub open spec fn spec_parse_add_rest(t: Seq<SpecToken>, i: int) -> (Seq<(AddOp, SpecExpr)>, int)
    decreases t.len() - i, 3int,
{
    if i < 0 || i >= t.len() {
        (Seq::empty(), i)
    } else {
        let op = match t[i] {
            SpecToken::PlusSign => Some(AddOp::Add),
            SpecToken::MinusSign => Some(AddOp::Subtract),
            _ => None,
        };
        match op {
            None => (Seq::empty(), i),
            Some(m) => match spec_parse_mult(t, i + 1) {
                None => (Seq::empty(), i),
                Some((e, k)) => if i < k <= t.len() {
                    let rest = spec_parse_add_rest(t, k);
                    (seq![(m, e)] + rest.0, rest.1)
                } else {
                    (Seq::empty(), i)
                },
            },
        }
    }
}

/// A whole expression at `i`: an additive chain, always flattened into an
/// `AddSub` list whose first element carries the identity operator `Add`.
pub open spec fn spec_parse_expr(t: Seq<SpecToken>, i: int) -> Option<(SpecExpr, int)>
    decreases t.len() - i, 4int,
{
    match spec_parse_mult(t, i) {
        None => None,
        Some((first, k)) => if i < k <= t.len() {
            let rest = spec_parse_add_rest(t, k);
            Some((SpecExpr::AddSub(seq![(AddOp::Add, first)] + rest.0), rest.1))
        } else {
            None
        },
    }
}

/// An `if` statement at `i`:
/// `if expr cmp expr { block }` with an optional else part. A malformed
/// else part is not consumed: the statement then ends after the brace.
pub open spec fn spec_parse_if(t: Seq<SpecToken>, i: int) -> Option<(SpecStatement, int)>
    decreases t.len() - i, 5int,
{
    if i < 0 || i >= t.len() || !(t[i] is IfKeyword) {
        None
    } else {
        match spec_parse_expr(t, i + 1) {
            None => None,
            Some((l, k1)) => if !(i + 1 < k1 <= t.len()) {
                None
            } else if k1 < t.len() && t[k1] is Cmp {
                let c = t[k1]->Cmp_0;
                match spec_parse_expr(t, k1 + 1) {
                    None => None,
                    Some((r, k2)) => if !(k1 + 1 < k2 <= t.len()) {
                        None
                    } else if k2 < t.len() && t[k2] is OpenBrace {
                        let bl = spec_parse_block(t, k2 + 1);
                        let k3 = bl.1;
                        if k2 + 1 <= k3 < t.len() && t[k3] is CloseBrace {
                            match spec_parse_else(t, k3 + 1) {
                                Some((eb, k4)) => Some(
                                    (SpecStatement::If(l, c, r, bl.0, Some(eb)), k4),
                                ),
                                None => Some((SpecStatement::If(l, c, r, bl.0, None), k3 + 1)),
                            }
                        } else {
                            None
                        }
                    } else {
                        None
                    },
                }
            } else {
                None
            },
        }
    }
}

/// The else part of an `if` statement: `else` followed either by another
/// `if` statement (which becomes a one-statement block) or by a braced
/// block.
pub open spec fn spec_parse_else(t: Seq<SpecToken>, i: int) -> Option<(Seq<SpecStatement>, int)>
    decreases t.len() - i, 6int,
{
    if i < 0 || i >= t.len() || !(t[i] is ElseKeyword) {
        None
    } else if i + 1 < t.len() && t[i + 1] is IfKeyword {
        match spec_parse_if(t, i + 1) {
            Some((s, k)) => Some((seq![s], k)),
            None => if i + 1 < t.len() && t[i + 1] is OpenBrace {
                let bl = spec_parse_block(t, i + 2);
                let k = bl.1;
                if i + 2 <= k < t.len() && t[k] is CloseBrace {
                    Some((bl.0, k + 1))
                } else {
                    None
                }
            } else {
                None
            },
        }
    } else if i + 1 < t.len() && t[i + 1] is OpenBrace {
        let bl = spec_parse_block(t, i + 2);
        let k = bl.1;
        if i + 2 <= k < t.len() && t[k] is CloseBrace {
            Some((bl.0, k + 1))
        } else {
            None
        }
    } else {
        None
    }
}

/// A single statement at `i`: an assignment, an `out` statement, an `if`
/// or a `while`, recognized by its first token.
pub open spec fn spec_parse_stmt(t: Seq<SpecToken>, i: int) -> Option<(SpecStatement, int)>
    decreases t.len() - i, 7int,
{
    if i < 0 || i >= t.len() {
        None
    } else {
        match t[i] {
            SpecToken::Ident(name) => if i + 1 < t.len() && t[i + 1] is Equals {
                match spec_parse_expr(t, i + 2) {
                    Some((e, k)) => Some((SpecStatement::Assign(name, e), k)),
                    None => None,
                }
            } else {
                None
            },
            SpecToken::OutputCmd => match spec_parse_expr(t, i + 1) {
                Some((e, k)) => Some((SpecStatement::Output(e), k)),
                None => None,
            },
            SpecToken::IfKeyword => spec_parse_if(t, i),
            SpecToken::WhileKeyword => match spec_parse_expr(t, i + 1) {
                None => None,
                Some((l, k1)) => if !(i + 1 < k1 <= t.len()) {
                    None
                } else if k1 < t.len() && t[k1] is Cmp {
                    let c = t[k1]->Cmp_0;
                    match spec_parse_expr(t, k1 + 1) {
                        None => None,
                        Some((r, k2)) => if !(k1 + 1 < k2 <= t.len()) {
                            None
                        } else if k2 < t.len() && t[k2] is OpenBrace {
                            let bl = spec_parse_block(t, k2 + 1);
                            let k3 = bl.1;
                            if k2 + 1 <= k3 < t.len() && t[k3] is CloseBrace {
                                Some((SpecStatement::While(l, c, r, bl.0), k3 + 1))
                            } else {
                                None
                            }
                        } else {
                            None
                        },
                    }
                } else {
                    None
                },
            },
            _ => None,
        }
    }
}

/// A block at `i`: statements each followed by a mandatory newline token,
/// repeated until a statement or its newline fails to parse. Never fails;
/// partial progress of the failing repetition is discarded.
pub open spec fn spec_parse_block(t: Seq<SpecToken>, i: int) -> (Seq<SpecStatement>, int)
    decreases t.len() - i, 8int,
{
    if i < 0 || i > t.len() {
        (Seq::empty(), i)
    } else {
        match spec_parse_stmt(t, i) {
            None => (Seq::empty(), i),
            Some((s, k)) => if i < k < t.len() && t[k] is NewLine {
                let rest = spec_parse_block(t, k + 1);
                (seq![s] + rest.0, rest.1)
            } else {
                (Seq::empty(), i)
            },
        }
    }
}

/// Parses a term.
pub fn parse_term(data: &[Token], pos: usize) -> (r: Result<(Expr, usize), ParseError>)
    requires
        pos <= data@.len(),
    ensures
        match r {
            Ok((e, k)) => spec_parse_term(data.deep_view(), pos as int) == Some(
                (e.deep_view(), k as int),
            ) && pos < k <= data@.len(),
            Err(_) => spec_parse_term(data.deep_view(), pos as int) is None,
        },
    decreases data@.len() - pos, 0int,
{
    proof {
        if pos < data@.len() {
            assert(data.deep_view()[pos as int] == data@[pos as int].deep_view());
        }
    }
    if pos >= data.len() {
        return Err(ParseError::EndOfInput);
    }
    match &data[pos] {
        Token::OpenParen => {
            match parse_expr(data, pos + 1) {
                Ok((e, k)) => {
                    proof {
                        if k < data@.len() {
                            assert(data.deep_view()[k as int] == data@[k as int].deep_view());
                        }
                    }
                    if k < data.len() && matches!(&data[k], Token::CloseParen) {
                        Ok((e, k + 1))
                    } else {
                        Err(ParseError::UnexpectedToken { at: k })
                    }
                },
                Err(e) => Err(e),
            }
        },
        Token::Ident(name) => {
            let s: String = name.clone();
            Ok((Expr::Variable(s), pos + 1))
        },
        Token::Number(n) => Ok((Expr::Num(*n), pos + 1)),
        _ => Err(ParseError::UnexpectedToken { at: pos }),
    }
}

/// Parses the continuation of a multiplicative chain.
pub fn parse_mult_rest(data: &[Token], pos: usize) -> (r: (Vec<MultTerm>, usize))
    requires
        pos <= data@.len(),
    ensures
        spec_parse_mult_rest(data.deep_view(), pos as int) == (r.0.deep_view(), r.1 as int),
        pos <= r.1 <= data@.len(),
    decreases data@.len() - pos, 1int,
{
    proof {
        if pos < data@.len() {
            assert(data.deep_view()[pos as int] == data@[pos as int].deep_view());
        }
    }
    if pos >= data.len() {
        let v: Vec<MultTerm> = Vec::new();
        proof {
            assert(v.deep_view() =~= Seq::<(MultOp, SpecExpr)>::empty());
        }
        return (v, pos);
    }
    let op: Option<MultOp> = match &data[pos] {
        Token::MultSign => Some(MultOp::Multiply),
        Token::DivideSign => Some(MultOp::Divide),
        Token::ModuloSign => Some(MultOp::Modulo),
        _ => None,
    };
    match op {
        None => {
            let v: Vec<MultTerm> = Vec::new();
            proof {
                assert(v.deep_view() =~= Seq::<(MultOp, SpecExpr)>::empty());
            }
            (v, pos)
        },
        Some(m) => {
            match parse_term(data, pos + 1) {
                Err(_) => {
                    let v: Vec<MultTerm> = Vec::new();
                    proof {
                        assert(v.deep_view() =~= Seq::<(MultOp, SpecExpr)>::empty());
                    }
                    (v, pos)
                },
                Ok((e, k)) => {
                    let ghost ev = e.deep_view();
                    let (mut rest, end) = parse_mult_rest(data, k);
                    let ghost restv = rest.deep_view();
                    let mut v: Vec<MultTerm> = Vec::new();
                    v.push(MultTerm(m, e));
                    v.append(&mut rest);
                    proof {
                        assert(v.deep_view() =~= seq![(m, ev)] + restv);
                    }
                    (v, end)
                },
            }
        },
    }
}

/// Parses a multiplicative chain.
pub fn parse_mult(data: &[Token], pos: usize) -> (r: Result<(Expr, usize), ParseError>)
    requires
        pos <= data@.len(),
    ensures
        match r {
            Ok((e, k)) => spec_parse_mult(data.deep_view(), pos as int) == Some(
                (e.deep_view(), k as int),
            ) && pos < k <= data@.len(),
            Err(_) => spec_parse_mult(data.deep_view(), pos as int) is None,
        },
    decreases data@.len() - pos, 2int,
{
    match parse_term(data, pos) {
        Err(e) => Err(e),
        Ok((first, k)) => {
            let ghost firstv = first.deep_view();
            let (mut rest, end) = parse_mult_rest(data, k);
            let ghost restv = rest.deep_view();
            if rest.len() == 0 {
                proof {
                    assert(restv =~= Seq::<(MultOp, SpecExpr)>::empty());
                }
                Ok((first, k))
            } else {
                let mut v: Vec<MultTerm> = Vec::new();
                v.push(MultTerm(MultOp::Multiply, first));
                v.append(&mut rest);
                proof {
                    assert(v.deep_view() =~= seq![(MultOp::Multiply, firstv)] + restv);
                    crate::grammar::lemma_view_mult_terms_index(v@);
                    assert(view_mult_terms(v@) =~= v.deep_view());
                }
                Ok((Expr::MultDiv(v), end))
            }
        },
    }
}

/// Parses the continuation of an additive chain.
pub fn parse_add_rest(data: &[Token], pos: usize) -> (r: (Vec<AddTerm>, usize))
    requires
        pos <= data@.len(),
    ensures
        spec_parse_add_rest(data.deep_view(), pos as int) == (r.0.deep_view(), r.1 as int),
        pos <= r.1 <= data@.len(),
    decreases data@.len() - pos, 3int,
{
    proof {
        if pos < data@.len() {
            assert(data.deep_view()[pos as int] == data@[pos as int].deep_view());
        }
    }
    if pos >= data.len() {
        let v: Vec<AddTerm> = Vec::new();
        proof {
            assert(v.deep_view() =~= Seq::<(AddOp, SpecExpr)>::empty());
        }
        return (v, pos);
    }
    let op: Option<AddOp> = match &data[pos] {
        Token::PlusSign => Some(AddOp::Add),
        Token::MinusSign => Some(AddOp::Subtract),
        _ => None,
    };
    match op {
        None => {
            let v: Vec<AddTerm> = Vec::new();
            proof {
                assert(v.deep_view() =~= Seq::<(AddOp, SpecExpr)>::empty());
            }
            (v, pos)
        },
        Some(m) => {
            match parse_mult(data, pos + 1) {
                Err(_) => {
                    let v: Vec<AddTerm> = Vec::new();
                    proof {
                        assert(v.deep_view() =~= Seq::<(AddOp, SpecExpr)>::empty());
                    }
                    (v, pos)
                },
                Ok((e, k)) => {
                    let ghost ev = e.deep_view();
                    let (mut rest, end) = parse_add_rest(data, k);
                    let ghost restv = rest.deep_view();
                    let mut v: Vec<AddTerm> = Vec::new();
                    v.push(AddTerm(m, e));
                    v.append(&mut rest);
                    proof {
                        assert(v.deep_view() =~= seq![(m, ev)] + restv);
                    }
                    (v, end)
                },
            }
        },
    }
}

/// Parses a whole expression.
pub fn parse_expr(data: &[Token], pos: usize) -> (r: Result<(Expr, usize), ParseError>)
    requires
        pos <= data@.len(),
    ensures
        match r {
            Ok((e, k)) => spec_parse_expr(data.deep_view(), pos as int) == Some(
                (e.deep_view(), k as int),
            ) && pos < k <= data@.len(),
            Err(_) => spec_parse_expr(data.deep_view(), pos as int) is None,
        },
    decreases data@.len() - pos, 4int,
{
    match parse_mult(data, pos) {
        Err(e) => Err(e),
        Ok((first, k)) => {
            let ghost firstv = first.deep_view();
            let (mut rest, end) = parse_add_rest(data, k);
            let ghost restv = rest.deep_view();
            let mut v: Vec<AddTerm> = Vec::new();
            v.push(AddTerm(AddOp::Add, first));
            v.append(&mut rest);
            proof {
                assert(v.deep_view() =~= seq![(AddOp::Add, firstv)] + restv);
                crate::grammar::lemma_view_add_terms_index(v@);
                assert(view_add_terms(v@) =~= v.deep_view());
            }
            Ok((Expr::AddSub(v), end))
        },
    }
}

/// Parses an `if` statement, including any else part.
pub fn parse_if(data: &[Token], pos: usize) -> (r: Result<(Statement, usize), ParseError>)
    requires
        pos <= data@.len(),
    ensures
        match r {
            Ok((s, k)) => spec_parse_if(data.deep_view(), pos as int) == Some(
                (s.deep_view(), k as int),
            ) && pos < k <= data@.len(),
            Err(_) => spec_parse_if(data.deep_view(), pos as int) is None,
        },
    decreases data@.len() - pos, 5int,
{
    proof {
        if pos < data@.len() {
            assert(data.deep_view()[pos as int] == data@[pos as int].deep_view());
        }
    }
    if pos >= data.len() || !matches!(&data[pos], Token::IfKeyword) {
        return Err(ParseError::UnexpectedToken { at: pos });
    }
    let (l, k1) = match parse_expr(data, pos + 1) {
        Ok(x) => x,
        Err(e) => {
            return Err(e);
        },
    };
    proof {
        if k1 < data@.len() {
            assert(data.deep_view()[k1 as int] == data@[k1 as int].deep_view());
        }
    }
    if !(k1 < data.len() && matches!(&data[k1], Token::Cmp(_))) {
        return Err(ParseError::UnexpectedToken { at: k1 });
    }
    let c: Comparator = match &data[k1] {
        Token::Cmp(c) => *c,
        _ => {
            return Err(ParseError::UnexpectedToken { at: k1 });
        },
    };
    let (rr, k2) = match parse_expr(data, k1 + 1) {
        Ok(x) => x,
        Err(e) => {
            return Err(e);
        },
    };
    proof {
        if k2 < data@.len() {
            assert(data.deep_view()[k2 as int] == data@[k2 as int].deep_view());
        }
    }
    if !(k2 < data.len() && matches!(&data[k2], Token::OpenBrace)) {
        return Err(ParseError::UnexpectedToken { at: k2 });
    }
    let (thn, k3) = parse_block(data, k2 + 1);
    proof {
        if k3 < data@.len() {
            assert(data.deep_view()[k3 as int] == data@[k3 as int].deep_view());
        }
    }
    if !(k3 < data.len() && matches!(&data[k3], Token::CloseBrace)) {
        return Err(ParseError::UnexpectedToken { at: k3 });
    }
    match parse_else(data, k3 + 1) {
        Ok((eb, k4)) => Ok((Statement::If(l, c, rr, Block(thn), Some(Block(eb))), k4)),
        Err(_) => Ok((Statement::If(l, c, rr, Block(thn), None), k3 + 1)),
    }
}

/// Parses the else part of an `if` statement.
pub fn parse_else(data: &[Token], pos: usize) -> (r: Result<(Vec<Statement>, usize), ParseError>)
    requires
        pos <= data@.len(),
    ensures
        match r {
            Ok((b, k)) => spec_parse_else(data.deep_view(), pos as int) == Some(
                (view_statements(b@), k as int),
            ) && pos < k <= data@.len(),
            Err(_) => spec_parse_else(data.deep_view(), pos as int) is None,
        },
    decreases data@.len() - pos, 6int,
{
    proof {
        if pos < data@.len() {
            assert(data.deep_view()[pos as int] == data@[pos as int].deep_view());
        }
        if pos + 1 < data@.len() {
            assert(data.deep_view()[pos + 1] == data@[pos as int + 1].deep_view());
        }
    }
    if pos >= data.len() || !matches!(&data[pos], Token::ElseKeyword) {
        return Err(ParseError::UnexpectedToken { at: pos });
    }
    if pos + 1 < data.len() && matches!(&data[pos + 1], Token::IfKeyword) {
        match parse_if(data, pos + 1) {
            Ok((s, k)) => {
                let mut v: Vec<Statement> = Vec::new();
                let ghost sv = s.deep_view();
                v.push(s);
                proof {
                    crate::grammar::lemma_view_statements_index(v@);
                    assert(view_statements(v@) =~= seq![sv]);
                }
                return Ok((v, k));
            },
            Err(_) => {
                return parse_else_block(data, pos);
            },
        }
    }
    parse_else_block(data, pos)
}

/// Parses the braced-block form of an else part, `pos` standing on the
/// `else` keyword.
fn parse_else_block(data: &[Token], pos: usize) -> (r: Result<
    (Vec<Statement>, usize),
    ParseError,
>)
    requires
        pos < data@.len(),
        data.deep_view()[pos as int] is ElseKeyword,
        !(pos + 1 < data@.len() && data.deep_view()[pos + 1] is IfKeyword) || spec_parse_if(
            data.deep_view(),
            pos + 1,
        ) is None,
    ensures
        match r {
            Ok((b, k)) => spec_parse_else(data.deep_view(), pos as int) == Some(
                (view_statements(b@), k as int),
            ) && pos < k <= data@.len(),
            Err(_) => spec_parse_else(data.deep_view(), pos as int) is None,
        },
    decreases data@.len() - pos, 5int,
{
    proof {
        if pos + 1 < data@.len() {
            assert(data.deep_view()[pos + 1] == data@[pos as int + 1].deep_view());
        }
    }
    if !(pos < data.len() - 1 && matches!(&data[pos + 1], Token::OpenBrace)) {
        return Err(ParseError::UnexpectedToken { at: pos });
    }
    let (b, k) = parse_block(data, pos + 2);
    proof {
        if k < data@.len() {
            assert(data.deep_view()[k as int] == data@[k as int].deep_view());
        }
    }
    if k < data.len() && matches!(&data[k], Token::CloseBrace) {
        Ok((b, k + 1))
    } else {
        Err(ParseError::UnexpectedToken { at: k })
    }
}

/// Parses a single statement.
pub fn parse_stmt(data: &[Token], pos: usize) -> (r: Result<(Statement, usize), ParseError>)
    requires
        pos <= data@.len(),
    ensures
        match r {
            Ok((s, k)) => spec_parse_stmt(data.deep_view(), pos as int) == Some(
                (s.deep_view(), k as int),
            ) && pos < k <= data@.len(),
            Err(_) => spec_parse_stmt(data.deep_view(), pos as int) is None,
        },
    decreases data@.len() - pos, 7int,
{
    proof {
        if pos < data@.len() {
            assert(data.deep_view()[pos as int] == data@[pos as int].deep_view());
        }
    }
    if pos >= data.len() {
        return Err(ParseError::EndOfInput);
    }
    match &data[pos] {
        Token::Ident(name) => {
            proof {
                if pos + 1 < data@.len() {
                    assert(data.deep_view()[pos + 1] == data@[pos as int + 1].deep_view());
                }
            }
            if pos + 1 < data.len() && matches!(&data[pos + 1], Token::Equals) {
                let target: String = name.clone();
                match parse_expr(data, pos + 2) {
                    Ok((e, k)) => Ok((Statement::Assign(target, e), k)),
                    Err(e) => Err(e),
                }
            } else {
                Err(ParseError::UnexpectedToken { at: pos })
            }
        },
        Token::OutputCmd => {
            match parse_expr(data, pos + 1) {
                Ok((e, k)) => Ok((Statement::Output(e), k)),
                Err(e) => Err(e),
            }
        },
        Token::IfKeyword => parse_if(data, pos),
        Token::WhileKeyword => {
            let (l, k1) = match parse_expr(data, pos + 1) {
                Ok(x) => x,
                Err(e) => {
                    return Err(e);
                },
            };
            proof {
                if k1 < data@.len() {
                    assert(data.deep_view()[k1 as int] == data@[k1 as int].deep_view());
                }
            }
            if !(k1 < data.len() && matches!(&data[k1], Token::Cmp(_))) {
                return Err(ParseError::UnexpectedToken { at: k1 });
            }
            let c: Comparator = match &data[k1] {
                Token::Cmp(c) => *c,
                _ => {
                    return Err(ParseError::UnexpectedToken { at: k1 });
                },
            };
            let (rr, k2) = match parse_expr(data, k1 + 1) {
                Ok(x) => x,
                Err(e) => {
                    return Err(e);
                },
            };
            proof {
                if k2 < data@.len() {
                    assert(data.deep_view()[k2 as int] == data@[k2 as int].deep_view());
                }
            }
            if !(k2 < data.len() && matches!(&data[k2], Token::OpenBrace)) {
                return Err(ParseError::UnexpectedToken { at: k2 });
            }
            let (b, k3) = parse_block(data, k2 + 1);
            proof {
                if k3 < data@.len() {
                    assert(data.deep_view()[k3 as int] == data@[k3 as int].deep_view());
                }
            }
            if !(k3 < data.len() && matches!(&data[k3], Token::CloseBrace)) {
                return Err(ParseError::UnexpectedToken { at: k3 });
            }
            Ok((Statement::While(l, c, rr, Block(b)), k3 + 1))
        },
        _ => Err(ParseError::UnexpectedToken { at: pos }),
    }
}

/// Parses a block: statements each followed by a newline, as many as parse.
pub fn parse_block(data: &[Token], pos: usize) -> (r: (Vec<Statement>, usize))
    requires
        pos <= data@.len(),
    ensures
        spec_parse_block(data.deep_view(), pos as int) == (view_statements(r.0@), r.1 as int),
        pos <= r.1 <= data@.len(),
    decreases data@.len() - pos, 8int,
{
    match parse_stmt(data, pos) {
        Err(_) => {
            let v: Vec<Statement> = Vec::new();
            proof {
                assert(view_statements(v@) =~= Seq::<SpecStatement>::empty());
            }
            (v, pos)
        },
        Ok((s, k)) => {
            proof {
                if k < data@.len() {
                    assert(data.deep_view()[k as int] == data@[k as int].deep_view());
                }
            }
            if k < data.len() && matches!(&data[k], Token::NewLine) {
                let ghost sv = s.deep_view();
                let (mut rest, end) = parse_block(data, k + 1);
                let ghost restseq = rest@;
                let ghost restv = view_statements(rest@);
                let mut v: Vec<Statement> = Vec::new();
                v.push(s);
                v.append(&mut rest);
                proof {
                    crate::grammar::lemma_view_statements_index(v@);
                    crate::grammar::lemma_view_statements_index(restseq);
                    assert(view_statements(v@) =~= seq![sv] + restv);
                }
                (v, end)
            } else {
                let v: Vec<Statement> = Vec::new();
                proof {
                    assert(view_statements(v@) =~= Seq::<SpecStatement>::empty());
                }
                (v, pos)
            }
        },
    }
}

/// The program parser: a block covering as much of the input as parses.
pub struct ProgramParser;

impl ProgramParser {
    /// Parses a program from the whole token slice. Returns the block and
    /// the number of tokens consumed; parsing as such never fails, and a
    /// caller detects a bad program by a remainder of unconsumed tokens.
    pub fn parse(&self, data: &[Token]) -> (r: (Block, usize))
        ensures
            spec_parse_block(data.deep_view(), 0) == (view_block(r.0), r.1 as int),
            r.1 <= data@.len(),
    {
        let (v, end) = parse_block(data, 0);
        (Block(v), end)
    }
}

/// Builds the program parser.
pub fn program() -> (r: ProgramParser) {
    ProgramParser
}

/// For every single-token numeric input, parsing an expression yields the
/// normalized single-element additive chain around that number: the bare
/// term is wrapped in an `AddSub` list headed by the identity operator.
pub proof fn lemma_parse_single_number(n: i32)
    ensures
        spec_parse_expr(seq![SpecToken::Number(n)], 0) == Some(
            (SpecExpr::AddSub(seq![(AddOp::Add, SpecExpr::Num(n))]), 1int),
        ),
{
    let t = seq![SpecToken::Number(n)];
    assert(t[0] == SpecToken::Number(n));
    assert(spec_parse_term(t, 0) == Some((SpecExpr::Num(n), 1int)));
    assert(spec_parse_mult_rest(t, 1) == (Seq::<(MultOp, SpecExpr)>::empty(), 1int));
    assert(spec_parse_mult(t, 0) == Some((SpecExpr::Num(n), 1int)));
    assert(spec_parse_add_rest(t, 1) == (Seq::<(AddOp, SpecExpr)>::empty(), 1int));
    assert(seq![(AddOp::Add, SpecExpr::Num(n))] + Seq::<(AddOp, SpecExpr)>::empty() =~= seq![
        (AddOp::Add, SpecExpr::Num(n))
    ]);
}

} // verus!
