//! The data model of the language: tokens, expressions, statements and
//! blocks, together with the mathematical views the contracts speak of.
use vstd::prelude::*;

verus! {

/// An additive operator.
#[derive(Debug, Clone, Copy, PartialEq, Eq, Structural)]
pub enum AddOp {
    Add,
    Subtract,
}

/// A multiplicative operator.
#[derive(Debug, Clone, Copy, PartialEq, Eq, Structural)]
pub enum MultOp {
    Multiply,
    Divide,
    Modulo,
}

/// A comparison operator, used only in `if` and `while` conditions.
#[derive(Debug, Clone, Copy, PartialEq, Eq, Structural)]
pub enum Comparator {
    /// `==`
    CEq,
    /// `>`
    CGt,
    /// `<`
    CLt,
    /// `!=`
    CNeq,
    /// `>=`
    CGeq,
    /// `<=`
    CLeq,
}

/// One element of a flattened additive chain: `a + b - c` becomes
/// `[(Add, a), (Add, b), (Subtract, c)]`.
#[derive(Debug, PartialEq)]
pub struct AddTerm(pub AddOp, pub Expr);

/// One element of a flattened multiplicative chain.
#[derive(Debug, PartialEq)]
pub struct MultTerm(pub MultOp, pub Expr);

/// An expression. An `AddSub` or `MultDiv` list is never empty and its
/// first element carries the identity operator (`Add` / `Multiply`).
#[derive(Debug, PartialEq)]
pub enum Expr {
    Variable(String),
    Num(i32),
    AddSub(Vec<AddTerm>),
    MultDiv(Vec<MultTerm>),
}

/// An ordered sequence of statements.
#[derive(Debug, PartialEq)]
pub struct Block(pub Vec<Statement>);

/// A statement of the language.
#[derive(Debug, PartialEq)]
pub enum Statement {
    Assign(String, Expr),
    Output(Expr),
    If(Expr, Comparator, Expr, Block, Option<Block>),
    While(Expr, Comparator, Expr, Block),
}

/// A lexical token.
#[derive(Debug, Clone, PartialEq, Eq)]
pub enum Token {
    Equals,
    Ident(String),
    Number(i32),
    PlusSign,
    MinusSign,
    MultSign,
    DivideSign,
    ModuloSign,
    OutputCmd,
    NewLine,
    OpenParen,
    CloseParen,
    OpenBrace,
    CloseBrace,
    IfKeyword,
    ElseKeyword,
    WhileKeyword,
    Cmp(Comparator),
}

/// The mathematical value of a token: identifier names become character
/// sequences.
pub enum SpecToken {
    Equals,
    Ident(Seq<char>),
    Number(i32),
    PlusSign,
    MinusSign,
    MultSign,
    DivideSign,
    ModuloSign,
    OutputCmd,
    NewLine,
    OpenParen,
    CloseParen,
    OpenBrace,
    CloseBrace,
    IfKeyword,
    ElseKeyword,
    WhileKeyword,
    Cmp(Comparator),
}

/// The mathematical value of an expression: chains become sequences of
/// (operator, operand) pairs.
pub enum SpecExpr {
    Variable(Seq<char>),
    Num(i32),
    AddSub(Seq<(AddOp, SpecExpr)>),
    MultDiv(Seq<(MultOp, SpecExpr)>),
}

/// The mathematical value of a statement; a block becomes a sequence of
/// statement values.
pub enum SpecStatement {
    Assign(Seq<char>, SpecExpr),
    Output(SpecExpr),
    If(SpecExpr, Comparator, SpecExpr, Seq<SpecStatement>, Option<Seq<SpecStatement>>),
    While(SpecExpr, Comparator, SpecExpr, Seq<SpecStatement>),
}

pub open spec fn view_expr(e: Expr) -> SpecExpr
    decreases e,
{
    match e {
        Expr::Variable(name) => SpecExpr::Variable(name@),
        Expr::Num(n) => SpecExpr::Num(n),
        Expr::AddSub(terms) => SpecExpr::AddSub(view_add_terms(terms@)),
        Expr::MultDiv(terms) => SpecExpr::MultDiv(view_mult_terms(terms@)),
    }
}

pub open spec fn view_add_terms(s: Seq<AddTerm>) -> Seq<(AddOp, SpecExpr)>
    decreases s,
{
    if s.len() == 0 {
        Seq::empty()
    } else {
        seq![(s[0].0, view_expr(s[0].1))] + view_add_terms(s.drop_first())
    }
}

pub open spec fn view_mult_terms(s: Seq<MultTerm>) -> Seq<(MultOp, SpecExpr)>
    decreases s,
{
    if s.len() == 0 {
        Seq::empty()
    } else {
        seq![(s[0].0, view_expr(s[0].1))] + view_mult_terms(s.drop_first())
    }
}

pub open spec fn view_statement(s: Statement) -> SpecStatement
    decreases s,
{
    match s {
        Statement::Assign(name, e) => SpecStatement::Assign(name@, view_expr(e)),
        Statement::Output(e) => SpecStatement::Output(view_expr(e)),
        Statement::If(l, c, r, t, els) => SpecStatement::If(
            view_expr(l),
            c,
            view_expr(r),
            view_block(t),
            match els {
                Some(b) => Some(view_block(b)),
                None => None,
            },
        ),
        Statement::While(l, c, r, b) => SpecStatement::While(
            view_expr(l),
            c,
            view_expr(r),
            view_block(b),
        ),
    }
}

pub open spec fn view_block(b: Block) -> Seq<SpecStatement>
    decreases b,
{
    view_statements(b.0@)
}

pub open spec fn view_statements(s: Seq<Statement>) -> Seq<SpecStatement>
    decreases s,
{
    if s.len() == 0 {
        Seq::empty()
    } else {
        seq![view_statement(s[0])] + view_statements(s.drop_first())
    }
}

impl DeepView for Expr {
    type V = SpecExpr;

    open spec fn deep_view(&self) -> SpecExpr {
        view_expr(*self)
    }
}

impl DeepView for AddTerm {
    type V = (AddOp, SpecExpr);

    open spec fn deep_view(&self) -> (AddOp, SpecExpr) {
        (self.0, view_expr(self.1))
    }
}

impl DeepView for MultTerm {
    type V = (MultOp, SpecExpr);

    open spec fn deep_view(&self) -> (MultOp, SpecExpr) {
        (self.0, view_expr(self.1))
    }
}

impl DeepView for Statement {
    type V = SpecStatement;

    open spec fn deep_view(&self) -> SpecStatement {
        view_statement(*self)
    }
}

impl DeepView for Block {
    type V = Seq<SpecStatement>;

    open spec fn deep_view(&self) -> Seq<SpecStatement> {
        view_block(*self)
    }
}

pub open spec fn view_token(t: Token) -> SpecToken {
    match t {
        Token::Equals => SpecToken::Equals,
        Token::Ident(name) => SpecToken::Ident(name@),
        Token::Number(n) => SpecToken::Number(n),
        Token::PlusSign => SpecToken::PlusSign,
        Token::MinusSign => SpecToken::MinusSign,
        Token::MultSign => SpecToken::MultSign,
        Token::DivideSign => SpecToken::DivideSign,
        Token::ModuloSign => SpecToken::ModuloSign,
        Token::OutputCmd => SpecToken::OutputCmd,
        Token::NewLine => SpecToken::NewLine,
        Token::OpenParen => SpecToken::OpenParen,
        Token::CloseParen => SpecToken::CloseParen,
        Token::OpenBrace => SpecToken::OpenBrace,
        Token::CloseBrace => SpecToken::CloseBrace,
        Token::IfKeyword => SpecToken::IfKeyword,
        Token::ElseKeyword => SpecToken::ElseKeyword,
        Token::WhileKeyword => SpecToken::WhileKeyword,
        Token::Cmp(c) => SpecToken::Cmp(c),
    }
}

impl DeepView for Token {
    type V = SpecToken;

    open spec fn deep_view(&self) -> SpecToken {
        view_token(*self)
    }
}

impl Token {
    /// A fresh token carrying the same value.
    pub fn duplicate(&self) -> (r: Token)
        ensures
            r.deep_view() == self.deep_view(),
    {
        match self {
            Token::Equals => Token::Equals,
            Token::Ident(name) => Token::Ident(name.clone()),
            Token::Number(n) => Token::Number(*n),
            Token::PlusSign => Token::PlusSign,
            Token::MinusSign => Token::MinusSign,
            Token::MultSign => Token::MultSign,
            Token::DivideSign => Token::DivideSign,
            Token::ModuloSign => Token::ModuloSign,
            Token::OutputCmd => Token::OutputCmd,
            Token::NewLine => Token::NewLine,
            Token::OpenParen => Token::OpenParen,
            Token::CloseParen => Token::CloseParen,
            Token::OpenBrace => Token::OpenBrace,
            Token::CloseBrace => Token::CloseBrace,
            Token::IfKeyword => Token::IfKeyword,
            Token::ElseKeyword => Token::ElseKeyword,
            Token::WhileKeyword => Token::WhileKeyword,
            Token::Cmp(c) => Token::Cmp(*c),
        }
    }
}

/// The views of a sequence of viewed add terms are the pairwise views:
/// `view_add_terms` indexes like `map`.
pub proof fn lemma_view_add_terms_index(s: Seq<AddTerm>)
    ensures
        view_add_terms(s).len() == s.len(),
        forall|i: int| 0 <= i < s.len() ==> view_add_terms(s)[i] == s[i].deep_view(),
    decreases s,
{
    if s.len() > 0 {
        lemma_view_add_terms_index(s.drop_first());
    }
}

/// `view_mult_terms` indexes like `map`.
pub proof fn lemma_view_mult_terms_index(s: Seq<MultTerm>)
    ensures
        view_mult_terms(s).len() == s.len(),
        forall|i: int| 0 <= i < s.len() ==> view_mult_terms(s)[i] == s[i].deep_view(),
    decreases s,
{
    if s.len() > 0 {
        lemma_view_mult_terms_index(s.drop_first());
    }
}

/// `view_statements` indexes like `map`.
pub proof fn lemma_view_statements_index(s: Seq<Statement>)
    ensures
        view_statements(s).len() == s.len(),
        forall|i: int| 0 <= i < s.len() ==> view_statements(s)[i] == view_statement(s[i]),
    decreases s,
{
    if s.len() > 0 {
        lemma_view_statements_index(s.drop_first());
    }
}

} // verus!
