//! Reconstruction of source tokens from a syntax tree, and the proof that
//! re-parsing the reconstruction gives the tree back.
//!
//! The grammar is unambiguous for the trees the parser itself produces, so
//! printing and re-parsing is the identity on them. The well-formedness
//! predicates below say exactly which trees those are: chains are never
//! empty, a flattened multiplicative list has at least two elements, and
//! the first element of a chain carries the identity operator.
use vstd::prelude::*;

use crate::grammar::{
    view_add_terms, view_block, view_mult_terms, view_statements, AddOp, AddTerm, Block, Expr,
    MultOp, MultTerm, SpecExpr, SpecStatement, SpecToken, Statement, Token,
};
use crate::parser::{
    spec_parse_add_rest, spec_parse_block, spec_parse_else, spec_parse_expr, spec_parse_if,
    spec_parse_mult, spec_parse_mult_rest, spec_parse_stmt, spec_parse_term,
};

verus! {

/// A term as the parser produces it: a leaf, or a parenthesized
/// expression, which is always a whole additive chain.
pub open spec fn wf_term(e: SpecExpr) -> bool
    decreases e, 1int,
{
    match e {
        SpecExpr::Num(_) => true,
        SpecExpr::Variable(_) => true,
        SpecExpr::AddSub(_) => wf_expr(e),
        SpecExpr::MultDiv(_) => false,
    }
}

/// A multiplicative chain as the parser produces it: a bare term, or a
/// flattened list of at least two terms headed by the identity operator.
pub open spec fn wf_mult(e: SpecExpr) -> bool
    decreases e, 2int,
{
    match e {
        SpecExpr::MultDiv(ts) => ts.len() >= 2 && ts[0].0 == MultOp::Multiply && (forall|k: int|
            0 <= k < ts.len() ==> wf_term(#[trigger] ts[k].1)),
        _ => wf_term(e),
    }
}

/// An expression as the parser produces it: a non-empty additive chain
/// headed by the identity operator.
pub open spec fn wf_expr(e: SpecExpr) -> bool
    decreases e, 0int,
{
    match e {
        SpecExpr::AddSub(ts) => ts.len() >= 1 && ts[0].0 == AddOp::Add && (forall|k: int|
            0 <= k < ts.len() ==> wf_mult(#[trigger] ts[k].1)),
        _ => false,
    }
}

pub open spec fn add_op_token(op: AddOp) -> SpecToken {
    match op {
        AddOp::Add => SpecToken::PlusSign,
        AddOp::Subtract => SpecToken::MinusSign,
    }
}

pub open spec fn mult_op_token(op: MultOp) -> SpecToken {
    match op {
        MultOp::Multiply => SpecToken::MultSign,
        MultOp::Divide => SpecToken::DivideSign,
        MultOp::Modulo => SpecToken::ModuloSign,
    }
}

/// The tokens of a term: a leaf token, or an expression in parentheses.
pub open spec fn print_term(e: SpecExpr) -> Seq<SpecToken>
    decreases e, 1int,
{
    match e {
        SpecExpr::Num(n) => seq![SpecToken::Number(n)],
        SpecExpr::Variable(name) => seq![SpecToken::Ident(name)],
        _ => seq![SpecToken::OpenParen] + print_expr(e) + seq![SpecToken::CloseParen],
    }
}

/// The tokens of a multiplicative chain: its first term, then each
/// further term behind its operator.
pub open spec fn print_mult(e: SpecExpr) -> Seq<SpecToken>
    decreases e, 2int,
{
    match e {
        SpecExpr::MultDiv(ts) => if ts.len() >= 1 {
            print_term(ts[0].1) + print_mult_chain(ts.drop_first())
        } else {
            Seq::empty()
        },
        _ => print_term(e),
    }
}

pub open spec fn print_mult_chain(s: Seq<(MultOp, SpecExpr)>) -> Seq<SpecToken>
    decreases s,
{
    if s.len() == 0 {
        Seq::empty()
    } else {
        seq![mult_op_token(s[0].0)] + print_term(s[0].1) + print_mult_chain(s.drop_first())
    }
}

/// The tokens of an expression: its first multiplicative chain, then each
/// further chain behind its operator.
pub open spec fn print_expr(e: SpecExpr) -> Seq<SpecToken>
    decreases e, 0int,
{
    match e {
        SpecExpr::AddSub(ts) => if ts.len() >= 1 {
            print_mult(ts[0].1) + print_add_chain(ts.drop_first())
        } else {
            Seq::empty()
        },
        _ => Seq::empty(),
    }
}

pub open spec fn print_add_chain(s: Seq<(AddOp, SpecExpr)>) -> Seq<SpecToken>
    decreases s,
{
    if s.len() == 0 {
        Seq::empty()
    } else {
        seq![add_op_token(s[0].0)] + print_mult(s[0].1) + print_add_chain(s.drop_first())
    }
}

/// `p` stands at position `i` of `t`.
pub open spec fn at(t: Seq<SpecToken>, i: int, p: Seq<SpecToken>) -> bool {
    0 <= i && i + p.len() <= t.len() && t.subrange(i, i + p.len()) == p
}

/// The token at `j` (if any) cannot continue an arithmetic chain.
pub open spec fn no_chain_follow(t: Seq<SpecToken>, j: int) -> bool {
    j == t.len() || (!(t[j] is PlusSign) && !(t[j] is MinusSign) && !(t[j] is MultSign) && !(t[j]
        is DivideSign) && !(t[j] is ModuloSign))
}

/// The token at `j` (if any) cannot continue a multiplicative chain; an
/// additive operator may well stand there.
pub open spec fn no_mult_follow(t: Seq<SpecToken>, j: int) -> bool {
    j == t.len() || (!(t[j] is MultSign) && !(t[j] is DivideSign) && !(t[j] is ModuloSign))
}

/// Re-parsing a printed term finds exactly that term.
pub proof fn lemma_parse_term_print(t: Seq<SpecToken>, i: int, e: SpecExpr)
    requires
        wf_term(e),
        at(t, i, print_term(e)),
    ensures
        spec_parse_term(t, i) == Some((e, i + print_term(e).len())),
    decreases e, 1int,
{
    let p = print_term(e);
    assert(t[i] == p[0]);
    match e {
        SpecExpr::Num(n) => {},
        SpecExpr::Variable(name) => {},
        SpecExpr::AddSub(ts) => {
            let inner = print_expr(e);
            assert(p == seq![SpecToken::OpenParen] + inner + seq![SpecToken::CloseParen]);
            assert(at(t, i + 1, inner)) by {
                assert forall|k: int| 0 <= k < inner.len() implies t.subrange(
                    i + 1,
                    i + 1 + inner.len(),
                )[k] == inner[k] by {
                    assert(t[i + 1 + k] == p[1 + k]);
                }
                assert(t.subrange(i + 1, i + 1 + inner.len()) =~= inner);
            }
            let j = i + 1 + inner.len();
            assert(t[j] == p[p.len() - 1]);
            assert(t[j] is CloseParen);
            assert(no_chain_follow(t, j));
            lemma_parse_expr_print(t, i + 1, e);
        },
        SpecExpr::MultDiv(_) => {},
    }
}

/// Re-parsing a printed multiplicative chain finds exactly that chain,
/// wherever no further chain operator follows it.
pub proof fn lemma_parse_mult_print(t: Seq<SpecToken>, i: int, e: SpecExpr)
    requires
        wf_mult(e),
        at(t, i, print_mult(e)),
        no_mult_follow(t, i + print_mult(e).len()),
    ensures
        spec_parse_mult(t, i) == Some((e, i + print_mult(e).len())),
    decreases e, 2int,
{
    let p = print_mult(e);
    match e {
        SpecExpr::MultDiv(ts) => {
            let first = print_term(ts[0].1);
            let chain = print_mult_chain(ts.drop_first());
            assert(p == first + chain);
            assert(at(t, i, first)) by {
                assert(t.subrange(i, i + first.len()) =~= first) by {
                    assert forall|k: int| 0 <= k < first.len() implies t[i + k] == first[k] by {
                        assert(t[i + k] == p[k]);
                    }
                }
            }
            assert(wf_term(ts[0].1));
            lemma_parse_term_print(t, i, ts[0].1);
            let m = i + first.len();
            assert(at(t, m, chain)) by {
                assert(t.subrange(m, m + chain.len()) =~= chain) by {
                    assert forall|k: int| 0 <= k < chain.len() implies t[m + k] == chain[k] by {
                        assert(t[m + k] == p[first.len() + k]);
                    }
                }
            }
            lemma_parse_mult_chain_print(t, m, ts.drop_first());
            assert(spec_parse_mult_rest(t, m) == (ts.drop_first(), i + p.len()));
            assert(ts.drop_first().len() >= 1);
            assert(ts[0] == (MultOp::Multiply, ts[0].1));
            assert(seq![(MultOp::Multiply, ts[0].1)] + ts.drop_first() =~= ts);
        },
        _ => {
            lemma_parse_term_print(t, i, e);
            let m = i + p.len();
            lemma_parse_mult_chain_empty(t, m);
        },
    }
}

/// Where no chain operator stands at `j`, the chain continuation is empty.
pub proof fn lemma_parse_mult_chain_empty(t: Seq<SpecToken>, j: int)
    requires
        j == t.len() || (!(t[j] is MultSign) && !(t[j] is DivideSign) && !(t[j] is ModuloSign)),
    ensures
        spec_parse_mult_rest(t, j) == (Seq::<(MultOp, SpecExpr)>::empty(), j),
{
}

/// Re-parsing a printed chain continuation finds exactly its elements,
/// wherever no further chain operator follows.
pub proof fn lemma_parse_mult_chain_print(t: Seq<SpecToken>, i: int, s: Seq<(MultOp, SpecExpr)>)
    requires
        forall|k: int| 0 <= k < s.len() ==> wf_term(#[trigger] s[k].1),
        at(t, i, print_mult_chain(s)),
        no_mult_follow(t, i + print_mult_chain(s).len()),
    ensures
        spec_parse_mult_rest(t, i) == (s, i + print_mult_chain(s).len()),
    decreases s,
{
    let p = print_mult_chain(s);
    if s.len() == 0 {
        lemma_parse_mult_chain_empty(t, i);
    } else {
        let first = print_term(s[0].1);
        let rest = print_mult_chain(s.drop_first());
        assert(p == seq![mult_op_token(s[0].0)] + first + rest);
        assert(t[i] == p[0]);
        assert(at(t, i + 1, first)) by {
            assert(t.subrange(i + 1, i + 1 + first.len()) =~= first) by {
                assert forall|k: int| 0 <= k < first.len() implies t[i + 1 + k] == first[k] by {
                    assert(t[i + 1 + k] == p[1 + k]);
                }
            }
        }
        lemma_parse_term_print(t, i + 1, s[0].1);
        let m = i + 1 + first.len();
        assert(at(t, m, rest)) by {
            assert(t.subrange(m, m + rest.len()) =~= rest) by {
                assert forall|k: int| 0 <= k < rest.len() implies t[m + k] == rest[k] by {
                    assert(t[m + k] == p[1 + first.len() + k]);
                }
            }
        }
        lemma_parse_mult_chain_print(t, m, s.drop_first());
        assert(seq![s[0]] + s.drop_first() =~= s);
        assert(s[0] == (s[0].0, s[0].1));
    }
}

/// Re-parsing a printed expression finds exactly that expression,
/// wherever no further chain operator follows it.
pub proof fn lemma_parse_expr_print(t: Seq<SpecToken>, i: int, e: SpecExpr)
    requires
        wf_expr(e),
        at(t, i, print_expr(e)),
        no_chain_follow(t, i + print_expr(e).len()),
    ensures
        spec_parse_expr(t, i) == Some((e, i + print_expr(e).len())),
    decreases e, 0int,
{
    let p = print_expr(e);
    match e {
        SpecExpr::AddSub(ts) => {
            let first = print_mult(ts[0].1);
            let chain = print_add_chain(ts.drop_first());
            assert(p == first + chain);
            assert(at(t, i, first)) by {
                assert(t.subrange(i, i + first.len()) =~= first) by {
                    assert forall|k: int| 0 <= k < first.len() implies t[i + k] == first[k] by {
                        assert(t[i + k] == p[k]);
                    }
                }
            }
            let m = i + first.len();
            assert(no_mult_follow(t, m)) by {
                if ts.drop_first().len() == 0 {
                    assert(chain.len() == 0);
                } else {
                    assert(t[m] == p[first.len() as int]);
                    assert(chain[0] == add_op_token(ts.drop_first()[0].0));
                }
            }
            lemma_parse_mult_print(t, i, ts[0].1);
            assert(at(t, m, chain)) by {
                assert(t.subrange(m, m + chain.len()) =~= chain) by {
                    assert forall|k: int| 0 <= k < chain.len() implies t[m + k] == chain[k] by {
                        assert(t[m + k] == p[first.len() + k]);
                    }
                }
            }
            lemma_parse_add_chain_print(t, m, ts.drop_first());
            assert(seq![(AddOp::Add, ts[0].1)] + ts.drop_first() =~= ts) by {
                assert(ts[0] == (AddOp::Add, ts[0].1));
            }
        },
        _ => {},
    }
}

/// Re-parsing a printed additive chain continuation finds exactly its
/// elements, wherever no further chain operator follows.
pub proof fn lemma_parse_add_chain_print(t: Seq<SpecToken>, i: int, s: Seq<(AddOp, SpecExpr)>)
    requires
        forall|k: int| 0 <= k < s.len() ==> wf_mult(#[trigger] s[k].1),
        at(t, i, print_add_chain(s)),
        no_chain_follow(t, i + print_add_chain(s).len()),
    ensures
        spec_parse_add_rest(t, i) == (s, i + print_add_chain(s).len()),
    decreases s,
{
    let p = print_add_chain(s);
    if s.len() == 0 {
    } else {
        let first = print_mult(s[0].1);
        let rest = print_add_chain(s.drop_first());
        assert(p == seq![add_op_token(s[0].0)] + first + rest);
        assert(t[i] == p[0]);
        assert(at(t, i + 1, first)) by {
            assert(t.subrange(i + 1, i + 1 + first.len()) =~= first) by {
                assert forall|k: int| 0 <= k < first.len() implies t[i + 1 + k] == first[k] by {
                    assert(t[i + 1 + k] == p[1 + k]);
                }
            }
        }
        let m = i + 1 + first.len();
        assert(no_mult_follow(t, m)) by {
            if s.drop_first().len() == 0 {
                assert(rest.len() == 0);
            } else {
                assert(t[m] == p[1 + first.len() as int]);
                assert(rest[0] == add_op_token(s.drop_first()[0].0));
            }
        }
        lemma_parse_mult_print(t, i + 1, s[0].1);
        assert(at(t, m, rest)) by {
            assert(t.subrange(m, m + rest.len()) =~= rest) by {
                assert forall|k: int| 0 <= k < rest.len() implies t[m + k] == rest[k] by {
                    assert(t[m + k] == p[1 + first.len() + k]);
                }
            }
        }
        lemma_parse_add_chain_print(t, m, s.drop_first());
        assert(seq![s[0]] + s.drop_first() =~= s);
        assert(s[0] == (s[0].0, s[0].1));
    }
}

/// The round trip on expressions: re-parsing the reconstructed tokens of
/// any well-formed expression yields a structurally equal expression,
/// consuming them all.
pub proof fn lemma_expr_round_trip(e: SpecExpr)
    requires
        wf_expr(e),
    ensures
        spec_parse_expr(print_expr(e), 0) == Some((e, print_expr(e).len() as int)),
{
    let t = print_expr(e);
    assert(t.subrange(0, t.len() as int) =~= t);
    lemma_parse_expr_print(t, 0, e);
}

/// A statement as the parser produces it: every expression in it is a
/// well-formed chain, recursively.
pub open spec fn wf_stmt(s: SpecStatement) -> bool
    decreases s, 0int,
{
    match s {
        SpecStatement::Assign(_, e) => wf_expr(e),
        SpecStatement::Output(e) => wf_expr(e),
        SpecStatement::If(l, _, r, thn, els) => wf_expr(l) && wf_expr(r) && wf_block(thn)
            && (match els {
            Some(b) => wf_block(b),
            None => true,
        }),
        SpecStatement::While(l, _, r, b) => wf_expr(l) && wf_expr(r) && wf_block(b),
    }
}

/// A block as the parser produces it.
pub open spec fn wf_block(b: Seq<SpecStatement>) -> bool
    decreases b, 1int,
{
    forall|k: int| 0 <= k < b.len() ==> wf_stmt(#[trigger] b[k])
}

/// The tokens of a statement.
pub open spec fn print_stmt(s: SpecStatement) -> Seq<SpecToken>
    decreases s, 0int,
{
    match s {
        SpecStatement::Assign(name, e) => seq![SpecToken::Ident(name), SpecToken::Equals]
            + print_expr(e),
        SpecStatement::Output(e) => seq![SpecToken::OutputCmd] + print_expr(e),
        SpecStatement::If(l, c, r, thn, els) => seq![SpecToken::IfKeyword] + print_expr(l) + seq![
            SpecToken::Cmp(c)
        ] + print_expr(r) + seq![SpecToken::OpenBrace] + print_block(thn) + seq![
            SpecToken::CloseBrace
        ] + print_else(els),
        SpecStatement::While(l, c, r, b) => seq![SpecToken::WhileKeyword] + print_expr(l) + seq![
            SpecToken::Cmp(c)
        ] + print_expr(r) + seq![SpecToken::OpenBrace] + print_block(b) + seq![
            SpecToken::CloseBrace
        ],
    }
}

/// The tokens of an optional else part: an `else` keyword and a braced
/// block. An `else if` chain is reconstructed as a block holding the
/// nested `if`, which is the tree the parser builds for it anyway.
pub open spec fn print_else(els: Option<Seq<SpecStatement>>) -> Seq<SpecToken>
    decreases els, 2int,
{
    match els {
        None => Seq::empty(),
        Some(b) => seq![SpecToken::ElseKeyword, SpecToken::OpenBrace] + print_block(b) + seq![
            SpecToken::CloseBrace
        ],
    }
}

/// The tokens of a block: each statement followed by a newline token.
pub open spec fn print_block(b: Seq<SpecStatement>) -> Seq<SpecToken>
    decreases b, 1int,
{
    if b.len() == 0 {
        Seq::empty()
    } else {
        print_stmt(b[0]) + seq![SpecToken::NewLine] + print_block(b.drop_first())
    }
}

/// The token at `j` (if any) can neither continue an arithmetic chain nor
/// begin an else part.
pub open spec fn stmt_follow(t: Seq<SpecToken>, j: int) -> bool {
    no_chain_follow(t, j) && (j == t.len() || !(t[j] is ElseKeyword))
}

/// The token at `j` (if any) ends a block: only the input's end or a
/// closing brace may stand where a block stops.
pub open spec fn block_end(t: Seq<SpecToken>, j: int) -> bool {
    j == t.len() || t[j] is CloseBrace
}

/// Re-parsing a printed statement finds exactly that statement, wherever
/// what follows cannot extend it.
#[verifier::rlimit(60)]
pub proof fn lemma_parse_stmt_print(t: Seq<SpecToken>, i: int, s: SpecStatement)
    requires
        wf_stmt(s),
        at(t, i, print_stmt(s)),
        stmt_follow(t, i + print_stmt(s).len()),
    ensures
        spec_parse_stmt(t, i) == Some((s, i + print_stmt(s).len())),
    decreases s, 1int,
{
    let p = print_stmt(s);
    assert(t[i] == p[0]);
    match s {
        SpecStatement::Assign(name, e) => {
            let body = print_expr(e);
            assert(t[i + 1] == p[1]);
            assert(at(t, i + 2, body)) by {
                assert(t.subrange(i + 2, i + 2 + body.len()) =~= body) by {
                    assert forall|k: int| 0 <= k < body.len() implies t[i + 2 + k] == body[k] by {
                        assert(t[i + 2 + k] == p[2 + k]);
                    }
                }
            }
            lemma_parse_expr_print(t, i + 2, e);
        },
        SpecStatement::Output(e) => {
            let body = print_expr(e);
            assert(at(t, i + 1, body)) by {
                assert(t.subrange(i + 1, i + 1 + body.len()) =~= body) by {
                    assert forall|k: int| 0 <= k < body.len() implies t[i + 1 + k] == body[k] by {
                        assert(t[i + 1 + k] == p[1 + k]);
                    }
                }
            }
            lemma_parse_expr_print(t, i + 1, e);
        },
        SpecStatement::If(l, c, r, thn, els) => {
            lemma_parse_if_print(t, i, s);
        },
        SpecStatement::While(l, c, r, b) => {
            let pl = print_expr(l);
            let pr = print_expr(r);
            let pb = print_block(b);
            let k1 = i + 1 + pl.len();
            let k2 = k1 + 1 + pr.len();
            let k3 = k2 + 1 + pb.len();
            assert(at(t, i + 1, pl)) by {
                assert(t.subrange(i + 1, i + 1 + pl.len()) =~= pl) by {
                    assert forall|k: int| 0 <= k < pl.len() implies t[i + 1 + k] == pl[k] by {
                        assert(t[i + 1 + k] == p[1 + k]);
                    }
                }
            }
            assert(t[k1] == p[k1 - i]);
            assert(t[k1] == SpecToken::Cmp(c));
            lemma_parse_expr_print(t, i + 1, l);
            assert(at(t, k1 + 1, pr)) by {
                assert(t.subrange(k1 + 1, k1 + 1 + pr.len()) =~= pr) by {
                    assert forall|k: int| 0 <= k < pr.len() implies t[k1 + 1 + k] == pr[k] by {
                        assert(t[k1 + 1 + k] == p[k1 + 1 + k - i]);
                    }
                }
            }
            assert(t[k2] == p[k2 - i]);
            assert(t[k2] is OpenBrace);
            lemma_parse_expr_print(t, k1 + 1, r);
            assert(at(t, k2 + 1, pb)) by {
                assert(t.subrange(k2 + 1, k2 + 1 + pb.len()) =~= pb) by {
                    assert forall|k: int| 0 <= k < pb.len() implies t[k2 + 1 + k] == pb[k] by {
                        assert(t[k2 + 1 + k] == p[k2 + 1 + k - i]);
                    }
                }
            }
            assert(t[k3] == p[k3 - i]);
            assert(t[k3] is CloseBrace);
            lemma_parse_block_print(t, k2 + 1, b);
        },
    }
}

/// Re-parsing a printed `if` statement finds exactly it.
#[verifier::rlimit(60)]
pub proof fn lemma_parse_if_print(t: Seq<SpecToken>, i: int, s: SpecStatement)
    requires
        wf_stmt(s),
        s is If,
        at(t, i, print_stmt(s)),
        stmt_follow(t, i + print_stmt(s).len()),
    ensures
        spec_parse_if(t, i) == Some((s, i + print_stmt(s).len())),
    decreases s, 0int,
{
    let p = print_stmt(s);
    match s {
        SpecStatement::If(l, c, r, thn, els) => {
            let pl = print_expr(l);
            let pr = print_expr(r);
            let pb = print_block(thn);
            let pe = print_else(els);
            let k1 = i + 1 + pl.len();
            let k2 = k1 + 1 + pr.len();
            let k3 = k2 + 1 + pb.len();
            assert(t[i] == p[0]);
            assert(at(t, i + 1, pl)) by {
                assert(t.subrange(i + 1, i + 1 + pl.len()) =~= pl) by {
                    assert forall|k: int| 0 <= k < pl.len() implies t[i + 1 + k] == pl[k] by {
                        assert(t[i + 1 + k] == p[1 + k]);
                    }
                }
            }
            assert(t[k1] == p[k1 - i]);
            assert(t[k1] == SpecToken::Cmp(c));
            lemma_parse_expr_print(t, i + 1, l);
            assert(at(t, k1 + 1, pr)) by {
                assert(t.subrange(k1 + 1, k1 + 1 + pr.len()) =~= pr) by {
                    assert forall|k: int| 0 <= k < pr.len() implies t[k1 + 1 + k] == pr[k] by {
                        assert(t[k1 + 1 + k] == p[k1 + 1 + k - i]);
                    }
                }
            }
            assert(t[k2] == p[k2 - i]);
            assert(t[k2] is OpenBrace);
            lemma_parse_expr_print(t, k1 + 1, r);
            assert(at(t, k2 + 1, pb)) by {
                assert(t.subrange(k2 + 1, k2 + 1 + pb.len()) =~= pb) by {
                    assert forall|k: int| 0 <= k < pb.len() implies t[k2 + 1 + k] == pb[k] by {
                        assert(t[k2 + 1 + k] == p[k2 + 1 + k - i]);
                    }
                }
            }
            assert(t[k3] == p[k3 - i]);
            assert(t[k3] is CloseBrace);
            lemma_parse_block_print(t, k2 + 1, thn);
            match els {
                None => {
                    assert(pe.len() == 0);
                    assert(spec_parse_else(t, k3 + 1) is None);
                },
                Some(eb) => {
                    let peb = print_block(eb);
                    assert(t[k3 + 1] == p[k3 + 1 - i]);
                    assert(t[k3 + 1] is ElseKeyword);
                    assert(t[k3 + 2] == p[k3 + 2 - i]);
                    assert(t[k3 + 2] is OpenBrace);
                    assert(at(t, k3 + 3, peb)) by {
                        assert(t.subrange(k3 + 3, k3 + 3 + peb.len()) =~= peb) by {
                            assert forall|k: int| 0 <= k < peb.len() implies t[k3 + 3 + k]
                                == peb[k] by {
                                assert(t[k3 + 3 + k] == p[k3 + 3 + k - i]);
                            }
                        }
                    }
                    let k4 = k3 + 3 + peb.len();
                    assert(t[k4] == p[k4 - i]);
                    assert(t[k4] is CloseBrace);
                    lemma_parse_block_print(t, k3 + 3, eb);
                    assert(spec_parse_else(t, k3 + 1) == Some((eb, k4 + 1)));
                },
            }
        },
        _ => {},
    }
}

/// Re-parsing a printed block finds exactly its statements, wherever it
/// stops at the input's end or at a closing brace.
pub proof fn lemma_parse_block_print(t: Seq<SpecToken>, i: int, b: Seq<SpecStatement>)
    requires
        wf_block(b),
        at(t, i, print_block(b)),
        block_end(t, i + print_block(b).len()),
    ensures
        spec_parse_block(t, i) == (b, i + print_block(b).len()),
    decreases b, 2int,
{
    let p = print_block(b);
    if b.len() == 0 {
        assert(spec_parse_stmt(t, i) is None);
    } else {
        let ps = print_stmt(b[0]);
        let rest = print_block(b.drop_first());
        assert(p == ps + seq![SpecToken::NewLine] + rest);
        assert(at(t, i, ps)) by {
            assert(t.subrange(i, i + ps.len()) =~= ps) by {
                assert forall|k: int| 0 <= k < ps.len() implies t[i + k] == ps[k] by {
                    assert(t[i + k] == p[k]);
                }
            }
        }
        let m = i + ps.len();
        assert(t[m] == p[m - i]);
        assert(t[m] is NewLine);
        lemma_parse_stmt_print(t, i, b[0]);
        assert(at(t, m + 1, rest)) by {
            assert(t.subrange(m + 1, m + 1 + rest.len()) =~= rest) by {
                assert forall|k: int| 0 <= k < rest.len() implies t[m + 1 + k] == rest[k] by {
                    assert(t[m + 1 + k] == p[ps.len() + 1 + k]);
                }
            }
        }
        lemma_parse_block_print(t, m + 1, b.drop_first());
        assert(seq![b[0]] + b.drop_first() =~= b);
    }
}

/// The round trip on programs: re-parsing the reconstructed tokens of any
/// well-formed block yields a structurally equal block, consuming them
/// all.
pub proof fn lemma_block_round_trip(b: Seq<SpecStatement>)
    requires
        wf_block(b),
    ensures
        spec_parse_block(print_block(b), 0) == (b, print_block(b).len() as int),
{
    let t = print_block(b);
    assert(t.subrange(0, t.len() as int) =~= t);
    lemma_parse_block_print(t, 0, b);
}

/// What the term parser accepts is well formed.
pub proof fn lemma_parse_term_wf(t: Seq<SpecToken>, i: int)
    ensures
        match spec_parse_term(t, i) {
            Some((e, _)) => wf_term(e),
            None => true,
        },
    decreases t.len() - i, 0int,
{
    if 0 <= i < t.len() {
        match t[i] {
            SpecToken::OpenParen => {
                lemma_parse_expr_wf(t, i + 1);
            },
            _ => {},
        }
    }
}

/// What the multiplicative chain continuation accepts is well formed.
pub proof fn lemma_parse_mult_rest_wf(t: Seq<SpecToken>, i: int)
    ensures
        forall|k: int|
            0 <= k < spec_parse_mult_rest(t, i).0.len() ==> wf_term(
                #[trigger] spec_parse_mult_rest(t, i).0[k].1,
            ),
    decreases t.len() - i, 1int,
{
    if 0 <= i < t.len() {
        let op = match t[i] {
            SpecToken::MultSign => Some(MultOp::Multiply),
            SpecToken::DivideSign => Some(MultOp::Divide),
            SpecToken::ModuloSign => Some(MultOp::Modulo),
            _ => None,
        };
        match op {
            None => {},
            Some(m) => {
                lemma_parse_term_wf(t, i + 1);
                match spec_parse_term(t, i + 1) {
                    None => {},
                    Some((e, k)) => {
                        if i < k <= t.len() {
                            lemma_parse_mult_rest_wf(t, k);
                            let rest = spec_parse_mult_rest(t, k).0;
                            assert(forall|j: int|
                                0 <= j < (seq![(m, e)] + rest).len() ==> (seq![(m, e)] + rest)[j]
                                    == (if j == 0 {
                                    (m, e)
                                } else {
                                    rest[j - 1]
                                }));
                        }
                    },
                }
            },
        }
    }
}

/// What the multiplicative chain parser accepts is well formed.
pub proof fn lemma_parse_mult_wf(t: Seq<SpecToken>, i: int)
    ensures
        match spec_parse_mult(t, i) {
            Some((e, _)) => wf_mult(e),
            None => true,
        },
    decreases t.len() - i, 2int,
{
    lemma_parse_term_wf(t, i);
    match spec_parse_term(t, i) {
        None => {},
        Some((first, k)) => {
            if i < k <= t.len() {
                lemma_parse_mult_rest_wf(t, k);
                let rest = spec_parse_mult_rest(t, k).0;
                if rest.len() > 0 {
                    let ts = seq![(MultOp::Multiply, first)] + rest;
                    assert(forall|j: int|
                        0 <= j < ts.len() ==> ts[j] == (if j == 0 {
                            (MultOp::Multiply, first)
                        } else {
                            rest[j - 1]
                        }));
                }
            }
        },
    }
}

/// What the additive chain continuation accepts is well formed.
pub proof fn lemma_parse_add_rest_wf(t: Seq<SpecToken>, i: int)
    ensures
        forall|k: int|
            0 <= k < spec_parse_add_rest(t, i).0.len() ==> wf_mult(
                #[trigger] spec_parse_add_rest(t, i).0[k].1,
            ),
    decreases t.len() - i, 3int,
{
    if 0 <= i < t.len() {
        let op = match t[i] {
            SpecToken::PlusSign => Some(AddOp::Add),
            SpecToken::MinusSign => Some(AddOp::Subtract),
            _ => None,
        };
        match op {
            None => {},
            Some(m) => {
                lemma_parse_mult_wf(t, i + 1);
                match spec_parse_mult(t, i + 1) {
                    None => {},
                    Some((e, k)) => {
                        if i < k <= t.len() {
                            lemma_parse_add_rest_wf(t, k);
                            let rest = spec_parse_add_rest(t, k).0;
                            assert(forall|j: int|
                                0 <= j < (seq![(m, e)] + rest).len() ==> (seq![(m, e)] + rest)[j]
                                    == (if j == 0 {
                                    (m, e)
                                } else {
                                    rest[j - 1]
                                }));
                        }
                    },
                }
            },
        }
    }
}

/// What the expression parser accepts is well formed.
pub proof fn lemma_parse_expr_wf(t: Seq<SpecToken>, i: int)
    ensures
        match spec_parse_expr(t, i) {
            Some((e, _)) => wf_expr(e),
            None => true,
        },
    decreases t.len() - i, 4int,
{
    lemma_parse_mult_wf(t, i);
    match spec_parse_mult(t, i) {
        None => {},
        Some((first, k)) => {
            if i < k <= t.len() {
                lemma_parse_add_rest_wf(t, k);
                let rest = spec_parse_add_rest(t, k).0;
                let ts = seq![(AddOp::Add, first)] + rest;
                assert(forall|j: int|
                    0 <= j < ts.len() ==> ts[j] == (if j == 0 {
                        (AddOp::Add, first)
                    } else {
                        rest[j - 1]
                    }));
            }
        },
    }
}

/// What the `if` parser accepts is well formed.
pub proof fn lemma_parse_if_wf(t: Seq<SpecToken>, i: int)
    ensures
        match spec_parse_if(t, i) {
            Some((s, _)) => wf_stmt(s),
            None => true,
        },
    decreases t.len() - i, 5int,
{
    if 0 <= i < t.len() && t[i] is IfKeyword {
        lemma_parse_expr_wf(t, i + 1);
        match spec_parse_expr(t, i + 1) {
            None => {},
            Some((l, k1)) => {
                if i + 1 < k1 <= t.len() && k1 < t.len() && t[k1] is Cmp {
                    lemma_parse_expr_wf(t, k1 + 1);
                    match spec_parse_expr(t, k1 + 1) {
                        None => {},
                        Some((r, k2)) => {
                            if k1 + 1 < k2 <= t.len() && k2 < t.len() && t[k2] is OpenBrace {
                                lemma_parse_block_wf(t, k2 + 1);
                                let k3 = spec_parse_block(t, k2 + 1).1;
                                if k2 + 1 <= k3 < t.len() && t[k3] is CloseBrace {
                                    lemma_parse_else_wf(t, k3 + 1);
                                }
                            }
                        },
                    }
                }
            },
        }
    }
}

/// What the else-part parser accepts is well formed.
pub proof fn lemma_parse_else_wf(t: Seq<SpecToken>, i: int)
    ensures
        match spec_parse_else(t, i) {
            Some((b, _)) => wf_block(b),
            None => true,
        },
    decreases t.len() - i, 6int,
{
    if 0 <= i < t.len() && t[i] is ElseKeyword {
        if i + 1 < t.len() && t[i + 1] is IfKeyword {
            lemma_parse_if_wf(t, i + 1);
            match spec_parse_if(t, i + 1) {
                Some((s, k)) => {
                    assert(wf_block(seq![s])) by {
                        assert(seq![s][0] == s);
                    }
                },
                None => {
                    if i + 2 <= t.len() {
                        lemma_parse_block_wf(t, i + 2);
                    }
                },
            }
        } else {
            if i + 2 <= t.len() {
                lemma_parse_block_wf(t, i + 2);
            }
        }
    }
}

/// What the statement parser accepts is well formed.
pub proof fn lemma_parse_stmt_wf(t: Seq<SpecToken>, i: int)
    ensures
        match spec_parse_stmt(t, i) {
            Some((s, _)) => wf_stmt(s),
            None => true,
        },
    decreases t.len() - i, 7int,
{
    if 0 <= i < t.len() {
        match t[i] {
            SpecToken::Ident(_) => {
                lemma_parse_expr_wf(t, i + 2);
            },
            SpecToken::OutputCmd => {
                lemma_parse_expr_wf(t, i + 1);
            },
            SpecToken::IfKeyword => {
                lemma_parse_if_wf(t, i);
            },
            SpecToken::WhileKeyword => {
                lemma_parse_expr_wf(t, i + 1);
                match spec_parse_expr(t, i + 1) {
                    None => {},
                    Some((l, k1)) => {
                        if i + 1 < k1 <= t.len() && k1 < t.len() && t[k1] is Cmp {
                            lemma_parse_expr_wf(t, k1 + 1);
                            match spec_parse_expr(t, k1 + 1) {
                                None => {},
                                Some((r, k2)) => {
                                    if k1 + 1 < k2 <= t.len() && k2 < t.len() && t[k2]
                                        is OpenBrace {
                                        lemma_parse_block_wf(t, k2 + 1);
                                    }
                                },
                            }
                        }
                    },
                }
            },
            _ => {},
        }
    }
}

/// What the block parser accepts is well formed.
pub proof fn lemma_parse_block_wf(t: Seq<SpecToken>, i: int)
    ensures
        wf_block(spec_parse_block(t, i).0),
    decreases t.len() - i, 8int,
{
    if 0 <= i <= t.len() {
        lemma_parse_stmt_wf(t, i);
        match spec_parse_stmt(t, i) {
            None => {},
            Some((s, k)) => {
                if i < k < t.len() && t[k] is NewLine {
                    lemma_parse_block_wf(t, k + 1);
                    let rest = spec_parse_block(t, k + 1).0;
                    assert(forall|j: int|
                        0 <= j < (seq![s] + rest).len() ==> (seq![s] + rest)[j] == (if j == 0 {
                            s
                        } else {
                            rest[j - 1]
                        }));
                }
            },
        }
    }
}

/// The round trip on whatever the parser produced: parse a token
/// sequence, reconstruct tokens from the tree, parse again, and the same
/// tree comes back, with the reconstruction wholly consumed.
pub proof fn lemma_reparse_parsed(t: Seq<SpecToken>)
    ensures
        ({
            let b = spec_parse_block(t, 0).0;
            spec_parse_block(print_block(b), 0) == (b, print_block(b).len() as int)
        }),
{
    lemma_parse_block_wf(t, 0);
    lemma_block_round_trip(spec_parse_block(t, 0).0);
}

/// Appends one token, tracked at the view level.
fn push_tok(out: &mut Vec<Token>, t: Token)
    ensures
        final(out).deep_view() == old(out).deep_view() + seq![t.deep_view()],
{
    let ghost base = out.deep_view();
    let ghost tv = t.deep_view();
    out.push(t);
    proof {
        assert(out.deep_view() =~= base + seq![tv]);
    }
}

/// Appends the tokens of a term.
fn term_tokens(e: &Expr, out: &mut Vec<Token>)
    ensures
        final(out).deep_view() == old(out).deep_view() + print_term(e.deep_view()),
    decreases e, 1int,
{
    let ghost base = out.deep_view();
    match e {
        Expr::Num(n) => {
            push_tok(out, Token::Number(*n));
            proof {
                assert(out.deep_view() =~= base + print_term(e.deep_view()));
            }
        },
        Expr::Variable(name) => {
            push_tok(out, Token::Ident(name.clone()));
            proof {
                assert(out.deep_view() =~= base + print_term(e.deep_view()));
            }
        },
        _ => {
            push_tok(out, Token::OpenParen);
            expr_tokens(e, out);
            push_tok(out, Token::CloseParen);
            proof {
                assert(out.deep_view() =~= base + (seq![SpecToken::OpenParen] + print_expr(
                    e.deep_view(),
                ) + seq![SpecToken::CloseParen]));
                assert(print_term(e.deep_view()) == seq![SpecToken::OpenParen] + print_expr(
                    e.deep_view(),
                ) + seq![SpecToken::CloseParen]);
            }
        },
    }
}

/// Appends the tokens of a multiplicative chain.
fn mult_tokens(e: &Expr, out: &mut Vec<Token>)
    ensures
        final(out).deep_view() == old(out).deep_view() + print_mult(e.deep_view()),
    decreases e, 2int,
{
    let ghost base = out.deep_view();
    match e {
        Expr::MultDiv(ts) => {
            proof {
                crate::grammar::lemma_view_mult_terms_index(ts@);
            }
            if ts.len() >= 1 {
                let MultTerm(_, first) = &ts[0];
                term_tokens(first, out);
                mult_chain_tokens(ts, 1, out);
                proof {
                    let vts = view_mult_terms(ts@);
                    assert(vts.skip(1) =~= vts.drop_first());
                    assert(out.deep_view() =~= base + (print_term(vts[0].1) + print_mult_chain(
                        vts.drop_first(),
                    )));
                }
            } else {
                proof {
                    assert(out.deep_view() =~= base + print_mult(e.deep_view()));
                }
            }
        },
        _ => {
            term_tokens(e, out);
        },
    }
}

/// Appends the operator-and-term pairs of a multiplicative chain from
/// index `i` on.
fn mult_chain_tokens(ts: &Vec<MultTerm>, i: usize, out: &mut Vec<Token>)
    requires
        i <= ts@.len(),
    ensures
        final(out).deep_view() == old(out).deep_view() + print_mult_chain(
            view_mult_terms(ts@).skip(i as int),
        ),
    decreases ts@, 3int, ts@.len() - i,
{
    let ghost base = out.deep_view();
    let ghost vts = view_mult_terms(ts@);
    proof {
        crate::grammar::lemma_view_mult_terms_index(ts@);
    }
    if i >= ts.len() {
        proof {
            assert(vts.skip(i as int) =~= Seq::<(MultOp, SpecExpr)>::empty());
            assert(out.deep_view() =~= base + print_mult_chain(vts.skip(i as int)));
        }
        return ;
    }
    proof {
        assert(vts.skip(i as int)[0] == vts[i as int]);
        assert(vts.skip(i as int).drop_first() =~= vts.skip(i + 1));
    }
    let MultTerm(op, operand) = &ts[i];
    let tok = match op {
        MultOp::Multiply => Token::MultSign,
        MultOp::Divide => Token::DivideSign,
        MultOp::Modulo => Token::ModuloSign,
    };
    push_tok(out, tok);
    proof {
        assert(out.deep_view() =~= base + seq![mult_op_token(vts[i as int].0)]);
    }
    term_tokens(operand, out);
    mult_chain_tokens(ts, i + 1, out);
    proof {
        assert(out.deep_view() =~= base + (seq![mult_op_token(vts[i as int].0)] + print_term(
            vts[i as int].1,
        ) + print_mult_chain(vts.skip(i + 1))));
    }
}

/// Appends the tokens of an expression.
fn expr_tokens(e: &Expr, out: &mut Vec<Token>)
    ensures
        final(out).deep_view() == old(out).deep_view() + print_expr(e.deep_view()),
    decreases e, 0int,
{
    let ghost base = out.deep_view();
    match e {
        Expr::AddSub(ts) => {
            proof {
                crate::grammar::lemma_view_add_terms_index(ts@);
            }
            if ts.len() >= 1 {
                let AddTerm(_, first) = &ts[0];
                mult_tokens(first, out);
                add_chain_tokens(ts, 1, out);
                proof {
                    let vts = view_add_terms(ts@);
                    assert(vts.skip(1) =~= vts.drop_first());
                    assert(out.deep_view() =~= base + (print_mult(vts[0].1) + print_add_chain(
                        vts.drop_first(),
                    )));
                }
            } else {
                proof {
                    assert(out.deep_view() =~= base + print_expr(e.deep_view()));
                }
            }
        },
        _ => {
            proof {
                assert(out.deep_view() =~= base + print_expr(e.deep_view()));
            }
        },
    }
}

/// Appends the operator-and-chain pairs of an additive chain from index
/// `i` on.
fn add_chain_tokens(ts: &Vec<AddTerm>, i: usize, out: &mut Vec<Token>)
    requires
        i <= ts@.len(),
    ensures
        final(out).deep_view() == old(out).deep_view() + print_add_chain(
            view_add_terms(ts@).skip(i as int),
        ),
    decreases ts@, 3int, ts@.len() - i,
{
    let ghost base = out.deep_view();
    let ghost vts = view_add_terms(ts@);
    proof {
        crate::grammar::lemma_view_add_terms_index(ts@);
    }
    if i >= ts.len() {
        proof {
            assert(vts.skip(i as int) =~= Seq::<(AddOp, SpecExpr)>::empty());
            assert(out.deep_view() =~= base + print_add_chain(vts.skip(i as int)));
        }
        return ;
    }
    proof {
        assert(vts.skip(i as int)[0] == vts[i as int]);
        assert(vts.skip(i as int).drop_first() =~= vts.skip(i + 1));
    }
    let AddTerm(op, operand) = &ts[i];
    let tok = match op {
        AddOp::Add => Token::PlusSign,
        AddOp::Subtract => Token::MinusSign,
    };
    push_tok(out, tok);
    proof {
        assert(out.deep_view() =~= base + seq![add_op_token(vts[i as int].0)]);
    }
    mult_tokens(operand, out);
    add_chain_tokens(ts, i + 1, out);
    proof {
        assert(out.deep_view() =~= base + (seq![add_op_token(vts[i as int].0)] + print_mult(
            vts[i as int].1,
        ) + print_add_chain(vts.skip(i + 1))));
    }
}

/// Appends the tokens of one statement.
#[verifier::rlimit(100)]
fn stmt_tokens(s: &Statement, out: &mut Vec<Token>)
    ensures
        final(out).deep_view() == old(out).deep_view() + print_stmt(s.deep_view()),
    decreases s, 0int,
{
    let ghost base = out.deep_view();
    match s {
        Statement::Assign(name, e) => {
            push_tok(out, Token::Ident(name.clone()));
            push_tok(out, Token::Equals);
            proof {
                assert(out.deep_view() =~= base + seq![
                    SpecToken::Ident(name@),
                    SpecToken::Equals,
                ]);
            }
            expr_tokens(e, out);
            proof {
                assert(out.deep_view() =~= base + (seq![
                    SpecToken::Ident(name@),
                    SpecToken::Equals,
                ] + print_expr(e.deep_view())));
            }
        },
        Statement::Output(e) => {
            push_tok(out, Token::OutputCmd);
            proof {
                assert(out.deep_view() =~= base + seq![SpecToken::OutputCmd]);
            }
            expr_tokens(e, out);
            proof {
                assert(out.deep_view() =~= base + (seq![SpecToken::OutputCmd] + print_expr(
                    e.deep_view(),
                )));
            }
        },
        Statement::If(l, c, r, thn, els) => {
            push_tok(out, Token::IfKeyword);
            proof {
                assert(out.deep_view() =~= base + seq![SpecToken::IfKeyword]);
            }
            expr_tokens(l, out);
            push_tok(out, Token::Cmp(*c));
            expr_tokens(r, out);
            push_tok(out, Token::OpenBrace);
            let Block(thn_stmts) = thn;
            block_chain_tokens(thn_stmts, 0, out);
            push_tok(out, Token::CloseBrace);
            let ghost upto = base + (seq![SpecToken::IfKeyword] + print_expr(l.deep_view()) + seq![
                SpecToken::Cmp(*c)
            ] + print_expr(r.deep_view()) + seq![SpecToken::OpenBrace] + print_block(
                view_block(*thn),
            ) + seq![SpecToken::CloseBrace]);
            proof {
                assert(view_statements(thn_stmts@).skip(0) =~= view_block(*thn));
                assert(out.deep_view() =~= upto);
            }
            match els {
                Some(eb) => {
                    push_tok(out, Token::ElseKeyword);
                    push_tok(out, Token::OpenBrace);
                    let Block(eb_stmts) = eb;
                    block_chain_tokens(eb_stmts, 0, out);
                    push_tok(out, Token::CloseBrace);
                    proof {
                        assert(view_statements(eb_stmts@).skip(0) =~= view_block(*eb));
                        assert(out.deep_view() =~= upto + (seq![
                            SpecToken::ElseKeyword,
                            SpecToken::OpenBrace,
                        ] + print_block(view_block(*eb)) + seq![SpecToken::CloseBrace]));
                        assert(out.deep_view() =~= base + print_stmt(s.deep_view()));
                    }
                },
                None => {
                    proof {
                        assert(out.deep_view() =~= base + print_stmt(s.deep_view()));
                    }
                },
            }
        },
        Statement::While(l, c, r, body) => {
            push_tok(out, Token::WhileKeyword);
            proof {
                assert(out.deep_view() =~= base + seq![SpecToken::WhileKeyword]);
            }
            expr_tokens(l, out);
            push_tok(out, Token::Cmp(*c));
            expr_tokens(r, out);
            push_tok(out, Token::OpenBrace);
            let Block(body_stmts) = body;
            block_chain_tokens(body_stmts, 0, out);
            push_tok(out, Token::CloseBrace);
            proof {
                assert(view_statements(body_stmts@).skip(0) =~= view_block(*body));
                assert(out.deep_view() =~= base + (seq![SpecToken::WhileKeyword] + print_expr(
                    l.deep_view(),
                ) + seq![SpecToken::Cmp(*c)] + print_expr(r.deep_view()) + seq![
                    SpecToken::OpenBrace
                ] + print_block(view_block(*body)) + seq![SpecToken::CloseBrace]));
            }
        },
    }
}

/// Appends the tokens of the statements from index `i` on, each followed
/// by a newline token.
fn block_chain_tokens(b: &Vec<Statement>, i: usize, out: &mut Vec<Token>)
    requires
        i <= b@.len(),
    ensures
        final(out).deep_view() == old(out).deep_view() + print_block(
            view_statements(b@).skip(i as int),
        ),
    decreases b@, 1int, b@.len() - i,
{
    let ghost base = out.deep_view();
    let ghost vb = view_statements(b@);
    proof {
        crate::grammar::lemma_view_statements_index(b@);
    }
    if i >= b.len() {
        proof {
            assert(vb.skip(i as int) =~= Seq::<SpecStatement>::empty());
            assert(out.deep_view() =~= base + print_block(vb.skip(i as int)));
        }
        return ;
    }
    proof {
        assert(vb.skip(i as int)[0] == vb[i as int]);
        assert(vb.skip(i as int).drop_first() =~= vb.skip(i + 1));
    }
    stmt_tokens(&b[i], out);
    push_tok(out, Token::NewLine);
    block_chain_tokens(b, i + 1, out);
    proof {
        assert(out.deep_view() =~= base + (print_stmt(vb[i as int]) + seq![SpecToken::NewLine]
            + print_block(vb.skip(i + 1))));
    }
}

/// The reconstructed tokens of an expression.
pub fn expr_to_tokens(e: &Expr) -> (r: Vec<Token>)
    ensures
        r.deep_view() == print_expr(e.deep_view()),
{
    let mut out: Vec<Token> = Vec::new();
    proof {
        assert(out.deep_view() =~= Seq::<SpecToken>::empty());
    }
    expr_tokens(e, &mut out);
    proof {
        assert(out.deep_view() =~= print_expr(e.deep_view()));
    }
    out
}

/// The reconstructed tokens of a whole program.
pub fn program_to_tokens(b: &Block) -> (r: Vec<Token>)
    ensures
        r.deep_view() == print_block(view_block(*b)),
{
    let mut out: Vec<Token> = Vec::new();
    proof {
        assert(out.deep_view() =~= Seq::<SpecToken>::empty());
    }
    let Block(stmts) = b;
    block_chain_tokens(stmts, 0, &mut out);
    proof {
        assert(view_statements(stmts@).skip(0) =~= view_block(*b));
        assert(out.deep_view() =~= print_block(view_block(*b)));
    }
    out
}

} // verus!
