//! The lexer: turns raw source text into a flat token sequence.
//!
//! Each token may be preceded by horizontal whitespace, which is skipped.
//! Alternatives are tried in a fixed order; keyword and two-character
//! literals come before the shorter and more general alternatives, so that
//! `while` does not lex as an identifier and `==` does not lex as two
//! `=` tokens. A newline is a significant token (it terminates statements)
//! and swallows any whitespace that follows it, as do `(` and `{`.
use vstd::prelude::*;

use crate::grammar::{Comparator, SpecToken, Token};
use vstd::string::StrSliceExecFns;

verus! {

pub open spec fn is_blank(c: char) -> bool {
    c == ' ' || c == '\t'
}

pub open spec fn is_space(c: char) -> bool {
    c == ' ' || c == '\t' || c == '\r' || c == '\n'
}

pub open spec fn is_digit(c: char) -> bool {
    48 <= c as u32 && c as u32 <= 57
}

pub open spec fn is_alpha(c: char) -> bool {
    (97 <= c as u32 && c as u32 <= 122) || (65 <= c as u32 && c as u32 <= 90)
}

/// A character that may continue an identifier: a letter, a digit or `_`.
pub open spec fn is_word_char(c: char) -> bool {
    is_alpha(c) || is_digit(c) || c == '_'
}

/// The first position at or after `i` that does not hold horizontal
/// whitespace.
pub open spec fn skip_blanks(s: Seq<char>, i: int) -> int
    decreases s.len() - i,
{
    if i < 0 || i >= s.len() {
        i
    } else if is_blank(s[i]) {
        skip_blanks(s, i + 1)
    } else {
        i
    }
}

/// The first position at or after `i` that does not hold whitespace of any
/// kind (including line breaks).
pub open spec fn skip_spaces(s: Seq<char>, i: int) -> int
    decreases s.len() - i,
{
    if i < 0 || i >= s.len() {
        i
    } else if is_space(s[i]) {
        skip_spaces(s, i + 1)
    } else {
        i
    }
}

/// The first position at or after `i` that does not hold a digit.
pub open spec fn scan_digits(s: Seq<char>, i: int) -> int
    decreases s.len() - i,
{
    if i < 0 || i >= s.len() {
        i
    } else if is_digit(s[i]) {
        scan_digits(s, i + 1)
    } else {
        i
    }
}

/// The first position at or after `i` that does not hold a word character.
pub open spec fn scan_word(s: Seq<char>, i: int) -> int
    decreases s.len() - i,
{
    if i < 0 || i >= s.len() {
        i
    } else if is_word_char(s[i]) {
        scan_word(s, i + 1)
    } else {
        i
    }
}

/// The decimal value of the digit run `s[i..j)`.
pub open spec fn digits_val(s: Seq<char>, i: int, j: int) -> int
    decreases j - i,
{
    if j <= i {
        0
    } else {
        digits_val(s, i, j - 1) * 10 + (s[j - 1] as u32 - 48)
    }
}

pub open spec fn lit2(s: Seq<char>, i: int, a: char, b: char) -> bool {
    i + 2 <= s.len() && s[i] == a && s[i + 1] == b
}

pub open spec fn kw_out(s: Seq<char>, i: int) -> bool {
    i + 3 <= s.len() && s[i] == 'o' && s[i + 1] == 'u' && s[i + 2] == 't'
}

pub open spec fn kw_if(s: Seq<char>, i: int) -> bool {
    lit2(s, i, 'i', 'f')
}

pub open spec fn kw_else(s: Seq<char>, i: int) -> bool {
    i + 4 <= s.len() && s[i] == 'e' && s[i + 1] == 'l' && s[i + 2] == 's' && s[i + 3] == 'e'
}

pub open spec fn kw_while(s: Seq<char>, i: int) -> bool {
    i + 5 <= s.len() && s[i] == 'w' && s[i + 1] == 'h' && s[i + 2] == 'i' && s[i + 3] == 'l'
        && s[i + 4] == 'e'
}

/// What one scanning step found, at the mathematical level: a token and the
/// position after it, the clean end of the input, or a position where no
/// alternative matches.
pub enum NextTok {
    Tok(SpecToken, int),
    End,
    Fail(int),
}

/// One scanning step at position `i`: skip horizontal whitespace, then try
/// the alternatives in their fixed order.
pub open spec fn next_token(s: Seq<char>, i: int) -> NextTok {
    let j = skip_blanks(s, i);
    if j >= s.len() {
        NextTok::End
    } else if kw_out(s, j) {
        NextTok::Tok(SpecToken::OutputCmd, j + 3)
    } else if kw_if(s, j) {
        NextTok::Tok(SpecToken::IfKeyword, j + 2)
    } else if kw_else(s, j) {
        NextTok::Tok(SpecToken::ElseKeyword, j + 4)
    } else if kw_while(s, j) {
        NextTok::Tok(SpecToken::WhileKeyword, j + 5)
    } else if lit2(s, j, '\r', '\n') {
        NextTok::Tok(SpecToken::NewLine, skip_spaces(s, j + 2))
    } else if s[j] == '\n' {
        NextTok::Tok(SpecToken::NewLine, skip_spaces(s, j + 1))
    } else if s[j] == '(' {
        NextTok::Tok(SpecToken::OpenParen, skip_spaces(s, j + 1))
    } else if s[j] == ')' {
        NextTok::Tok(SpecToken::CloseParen, j + 1)
    } else if s[j] == '{' {
        NextTok::Tok(SpecToken::OpenBrace, skip_spaces(s, j + 1))
    } else if s[j] == '}' {
        NextTok::Tok(SpecToken::CloseBrace, j + 1)
    } else if lit2(s, j, '=', '=') {
        NextTok::Tok(SpecToken::Cmp(Comparator::CEq), j + 2)
    } else if lit2(s, j, '!', '=') {
        NextTok::Tok(SpecToken::Cmp(Comparator::CNeq), j + 2)
    } else if lit2(s, j, '>', '=') {
        NextTok::Tok(SpecToken::Cmp(Comparator::CGeq), j + 2)
    } else if lit2(s, j, '<', '=') {
        NextTok::Tok(SpecToken::Cmp(Comparator::CLeq), j + 2)
    } else if s[j] == '>' {
        NextTok::Tok(SpecToken::Cmp(Comparator::CGt), j + 1)
    } else if s[j] == '<' {
        NextTok::Tok(SpecToken::Cmp(Comparator::CLt), j + 1)
    } else if s[j] == '+' {
        NextTok::Tok(SpecToken::PlusSign, j + 1)
    } else if s[j] == '-' {
        NextTok::Tok(SpecToken::MinusSign, j + 1)
    } else if s[j] == '=' {
        NextTok::Tok(SpecToken::Equals, j + 1)
    } else if s[j] == '*' {
        NextTok::Tok(SpecToken::MultSign, j + 1)
    } else if s[j] == '/' {
        NextTok::Tok(SpecToken::DivideSign, j + 1)
    } else if s[j] == '%' {
        NextTok::Tok(SpecToken::ModuloSign, j + 1)
    } else if is_digit(s[j]) {
        let k = scan_digits(s, j);
        if digits_val(s, j, k) <= i32::MAX {
            NextTok::Tok(SpecToken::Number(digits_val(s, j, k) as i32), k)
        } else {
            NextTok::Fail(j)
        }
    } else if is_alpha(s[j]) {
        let k = scan_word(s, j + 1);
        NextTok::Tok(SpecToken::Ident(s.subrange(j, k)), k)
    } else {
        NextTok::Fail(j)
    }
}

/// The token sequence starting at `i`, and the position where scanning
/// stopped: the input's length when every character was consumed, and the
/// position of the offending character otherwise.
pub open spec fn spec_lex(s: Seq<char>, i: int) -> (Seq<SpecToken>, int)
    decreases s.len() - i,
{
    if i < 0 || i > s.len() {
        (Seq::empty(), i)
    } else {
        match next_token(s, i) {
            NextTok::End => (Seq::empty(), s.len() as int),
            NextTok::Fail(j) => (Seq::empty(), j),
            NextTok::Tok(t, k) => if i < k <= s.len() {
                let rest = spec_lex(s, k);
                (seq![t] + rest.0, rest.1)
            } else {
                (seq![t], k)
            },
        }
    }
}

pub proof fn lemma_skip_blanks_bounds(s: Seq<char>, i: int)
    requires
        0 <= i <= s.len(),
    ensures
        i <= skip_blanks(s, i) <= s.len(),
    decreases s.len() - i,
{
    if i < s.len() && is_blank(s[i]) {
        lemma_skip_blanks_bounds(s, i + 1);
    }
}

pub proof fn lemma_skip_spaces_bounds(s: Seq<char>, i: int)
    requires
        0 <= i <= s.len(),
    ensures
        i <= skip_spaces(s, i) <= s.len(),
    decreases s.len() - i,
{
    if i < s.len() && is_space(s[i]) {
        lemma_skip_spaces_bounds(s, i + 1);
    }
}

pub proof fn lemma_scan_digits_bounds(s: Seq<char>, i: int)
    requires
        0 <= i <= s.len(),
    ensures
        i <= scan_digits(s, i) <= s.len(),
    decreases s.len() - i,
{
    if i < s.len() && is_digit(s[i]) {
        lemma_scan_digits_bounds(s, i + 1);
    }
}

pub proof fn lemma_scan_word_bounds(s: Seq<char>, i: int)
    requires
        0 <= i <= s.len(),
    ensures
        i <= scan_word(s, i) <= s.len(),
    decreases s.len() - i,
{
    if i < s.len() && is_word_char(s[i]) {
        lemma_scan_word_bounds(s, i + 1);
    }
}

/// A digit run's value is non-negative and grows (weakly) with its length.
pub proof fn lemma_digits_val_mono(s: Seq<char>, i: int, t: int, k: int)
    requires
        i <= t <= k,
        forall|u: int| i <= u < k ==> is_digit(s[u]),
    ensures
        0 <= digits_val(s, i, t) <= digits_val(s, i, k),
    decreases k - t,
{
    if t == k {
        lemma_digits_val_nonneg(s, i, t);
    } else {
        lemma_digits_val_mono(s, i, t, k - 1);
    }
}

pub proof fn lemma_digits_val_nonneg(s: Seq<char>, i: int, j: int)
    requires
        forall|u: int| i <= u < j ==> is_digit(s[u]),
    ensures
        digits_val(s, i, j) >= 0,
    decreases j - i,
{
    if j > i {
        lemma_digits_val_nonneg(s, i, j - 1);
    }
}

/// A successful scanning step consumes at least one character and stays in
/// bounds.
pub proof fn lemma_next_token_advances(s: Seq<char>, i: int)
    requires
        0 <= i <= s.len(),
    ensures
        match next_token(s, i) {
            NextTok::Tok(t, k) => i < k <= s.len(),
            NextTok::End => true,
            NextTok::Fail(j) => i <= j <= s.len(),
        },
{
    lemma_skip_blanks_bounds(s, i);
    let j = skip_blanks(s, i);
    if j < s.len() {
        lemma_skip_spaces_bounds(s, j + 1);
        if j + 2 <= s.len() {
            lemma_skip_spaces_bounds(s, j + 2);
        }
        if is_digit(s[j]) {
            lemma_scan_digits_bounds(s, j + 1);
            assert(scan_digits(s, j) == scan_digits(s, j + 1));
        }
        if is_alpha(s[j]) {
            lemma_scan_word_bounds(s, j + 1);
        }
    }
}

/// The stop position of lexing lies between the start and the input's end.
pub proof fn lemma_spec_lex_bounds(s: Seq<char>, i: int)
    requires
        0 <= i <= s.len(),
    ensures
        i <= spec_lex(s, i).1 <= s.len(),
    decreases s.len() - i,
{
    lemma_next_token_advances(s, i);
    match next_token(s, i) {
        NextTok::Tok(t, k) => {
            lemma_spec_lex_bounds(s, k);
        },
        _ => {},
    }
}

fn skip_blanks_exec(data: &Vec<char>, i: usize) -> (j: usize)
    requires
        i <= data@.len(),
    ensures
        j == skip_blanks(data@, i as int),
        i <= j <= data@.len(),
{
    let mut j: usize = i;
    loop
        invariant
            i <= j <= data@.len(),
            skip_blanks(data@, i as int) == skip_blanks(data@, j as int),
        decreases data@.len() - j,
    {
        if j < data.len() && (data[j] == ' ' || data[j] == '\t') {
            j = j + 1;
        } else {
            return j;
        }
    }
}

fn skip_spaces_exec(data: &Vec<char>, i: usize) -> (j: usize)
    requires
        i <= data@.len(),
    ensures
        j == skip_spaces(data@, i as int),
        i <= j <= data@.len(),
{
    let mut j: usize = i;
    loop
        invariant
            i <= j <= data@.len(),
            skip_spaces(data@, i as int) == skip_spaces(data@, j as int),
        decreases data@.len() - j,
    {
        if j < data.len() && (data[j] == ' ' || data[j] == '\t' || data[j] == '\r' || data[j]
            == '\n') {
            j = j + 1;
        } else {
            return j;
        }
    }
}

fn scan_digits_exec(data: &Vec<char>, i: usize) -> (j: usize)
    requires
        i <= data@.len(),
    ensures
        j == scan_digits(data@, i as int),
        i <= j <= data@.len(),
{
    let mut j: usize = i;
    loop
        invariant
            i <= j <= data@.len(),
            scan_digits(data@, i as int) == scan_digits(data@, j as int),
        decreases data@.len() - j,
    {
        if j < data.len() && data[j] as u32 >= 48 && data[j] as u32 <= 57 {
            j = j + 1;
        } else {
            return j;
        }
    }
}

fn scan_word_exec(data: &Vec<char>, i: usize) -> (j: usize)
    requires
        i <= data@.len(),
    ensures
        j == scan_word(data@, i as int),
        i <= j <= data@.len(),
{
    let mut j: usize = i;
    loop
        invariant
            i <= j <= data@.len(),
            scan_word(data@, i as int) == scan_word(data@, j as int),
        decreases data@.len() - j,
    {
        if j < data.len() && (data[j] as u32 >= 48 && data[j] as u32 <= 57 || data[j] as u32 >= 97
            && data[j] as u32 <= 122 || data[j] as u32 >= 65 && data[j] as u32 <= 90 || data[j]
            == '_') {
            j = j + 1;
        } else {
            return j;
        }
    }
}

/// Reads the value of the digit run `data[i..k)`, or reports that it does
/// not fit in a 32-bit signed integer.
fn digits_val_exec(data: &Vec<char>, i: usize, k: usize) -> (r: Option<i32>)
    requires
        i <= k <= data@.len(),
        forall|t: int| i <= t < k ==> is_digit(data@[t]),
    ensures
        match r {
            Some(v) => v == digits_val(data@, i as int, k as int) && digits_val(
                data@,
                i as int,
                k as int,
            ) <= i32::MAX,
            None => digits_val(data@, i as int, k as int) > i32::MAX,
        },
{
    let mut v: u64 = 0;
    let mut t: usize = i;
    while t < k
        invariant
            i <= t <= k <= data@.len(),
            forall|u: int| i <= u < k ==> is_digit(data@[u]),
            v == digits_val(data@, i as int, t as int),
            v <= i32::MAX,
        decreases k - t,
    {
        let d: u32 = data[t] as u32 - 48;
        let w: u64 = v * 10 + d as u64;
        proof {
            assert(digits_val(data@, i as int, t + 1) == digits_val(data@, i as int, t as int) * 10
                + (data@[t as int] as u32 - 48));
        }
        if w > 2147483647 {
            proof {
                lemma_digits_val_mono(data@, i as int, t + 1, k as int);
            }
            return None;
        }
        v = w;
        t = t + 1;
    }
    Some(v as i32)
}

/// What one executable scanning step found.
enum Scan {
    Tok(Token, usize),
    End,
    Fail(usize),
}

/// One scanning step of the executable lexer; it agrees with `next_token`.
fn next_token_exec(raw: &str, data: &Vec<char>, pos: usize) -> (r: Scan)
    requires
        raw@ == data@,
        pos <= data@.len(),
    ensures
        match r {
            Scan::Tok(t, k) => next_token(data@, pos as int) == NextTok::Tok(
                t.deep_view(),
                k as int,
            ) && pos < k <= data@.len(),
            Scan::End => next_token(data@, pos as int) is End,
            Scan::Fail(j) => next_token(data@, pos as int) == NextTok::Fail(j as int) && pos <= j
                <= data@.len(),
        },
{
    proof {
        lemma_next_token_advances(data@, pos as int);
    }
    let j = skip_blanks_exec(data, pos);
    if j >= data.len() {
        return Scan::End;
    }
    let rem: usize = data.len() - j;
    if rem >= 3 && data[j] == 'o' && data[j + 1] == 'u' && data[j + 2] == 't' {
        return Scan::Tok(Token::OutputCmd, j + 3);
    }
    if rem >= 2 && data[j] == 'i' && data[j + 1] == 'f' {
        return Scan::Tok(Token::IfKeyword, j + 2);
    }
    if rem >= 4 && data[j] == 'e' && data[j + 1] == 'l' && data[j + 2] == 's' && data[j + 3]
        == 'e' {
        return Scan::Tok(Token::ElseKeyword, j + 4);
    }
    if rem >= 5 && data[j] == 'w' && data[j + 1] == 'h' && data[j + 2] == 'i' && data[j + 3] == 'l'
        && data[j + 4] == 'e' {
        return Scan::Tok(Token::WhileKeyword, j + 5);
    }
    if rem >= 2 && data[j] == '\r' && data[j + 1] == '\n' {
        return Scan::Tok(Token::NewLine, skip_spaces_exec(data, j + 2));
    }
    if data[j] == '\n' {
        return Scan::Tok(Token::NewLine, skip_spaces_exec(data, j + 1));
    }
    if data[j] == '(' {
        return Scan::Tok(Token::OpenParen, skip_spaces_exec(data, j + 1));
    }
    if data[j] == ')' {
        return Scan::Tok(Token::CloseParen, j + 1);
    }
    if data[j] == '{' {
        return Scan::Tok(Token::OpenBrace, skip_spaces_exec(data, j + 1));
    }
    if data[j] == '}' {
        return Scan::Tok(Token::CloseBrace, j + 1);
    }
    if rem >= 2 && data[j] == '=' && data[j + 1] == '=' {
        return Scan::Tok(Token::Cmp(Comparator::CEq), j + 2);
    }
    if rem >= 2 && data[j] == '!' && data[j + 1] == '=' {
        return Scan::Tok(Token::Cmp(Comparator::CNeq), j + 2);
    }
    if rem >= 2 && data[j] == '>' && data[j + 1] == '=' {
        return Scan::Tok(Token::Cmp(Comparator::CGeq), j + 2);
    }
    if rem >= 2 && data[j] == '<' && data[j + 1] == '=' {
        return Scan::Tok(Token::Cmp(Comparator::CLeq), j + 2);
    }
    if data[j] == '>' {
        return Scan::Tok(Token::Cmp(Comparator::CGt), j + 1);
    }
    if data[j] == '<' {
        return Scan::Tok(Token::Cmp(Comparator::CLt), j + 1);
    }
    if data[j] == '+' {
        return Scan::Tok(Token::PlusSign, j + 1);
    }
    if data[j] == '-' {
        return Scan::Tok(Token::MinusSign, j + 1);
    }
    if data[j] == '=' {
        return Scan::Tok(Token::Equals, j + 1);
    }
    if data[j] == '*' {
        return Scan::Tok(Token::MultSign, j + 1);
    }
    if data[j] == '/' {
        return Scan::Tok(Token::DivideSign, j + 1);
    }
    if data[j] == '%' {
        return Scan::Tok(Token::ModuloSign, j + 1);
    }
    if data[j] as u32 >= 48 && data[j] as u32 <= 57 {
        let k = scan_digits_exec(data, j + 1);
        proof {
            assert(scan_digits(data@, j as int) == scan_digits(data@, j + 1));
            lemma_scan_digits_range(data@, j as int);
        }
        match digits_val_exec(data, j, k) {
            Some(v) => {
                return Scan::Tok(Token::Number(v), k);
            },
            None => {
                return Scan::Fail(j);
            },
        }
    }
    if data[j] as u32 >= 97 && data[j] as u32 <= 122 || data[j] as u32 >= 65 && data[j] as u32
        <= 90 {
        let k = scan_word_exec(data, j + 1);
        let name = raw.substring_char(j, k).to_owned();
        return Scan::Tok(Token::Ident(name), k);
    }
    Scan::Fail(j)
}

/// Every position of a scanned digit run holds a digit.
pub proof fn lemma_scan_digits_range(s: Seq<char>, i: int)
    requires
        0 <= i <= s.len(),
    ensures
        forall|t: int| i <= t < scan_digits(s, i) ==> is_digit(s[t]),
    decreases s.len() - i,
{
    if i < s.len() && is_digit(s[i]) {
        lemma_scan_digits_range(s, i + 1);
    }
}

/// The lexer: a parser from raw text to the token sequence.
pub struct Lexer;

impl Lexer {
    /// Lexes the whole input. Returns the tokens read and the number of
    /// characters consumed; the count equals the input's length exactly
    /// when the whole input lexed cleanly.
    pub fn parse(&self, raw: &str) -> (r: (Vec<Token>, usize))
        ensures
            r.0.deep_view() == spec_lex(raw@, 0).0,
            r.1 == spec_lex(raw@, 0).1,
            r.1 <= raw@.len(),
    {
        let data = str_to_chars(raw);
        let mut out: Vec<Token> = Vec::new();
        let mut pos: usize = 0;
        proof {
            lemma_spec_lex_bounds(data@, 0);
            assert(out.deep_view() =~= Seq::<SpecToken>::empty());
        }
        loop
            invariant
                raw@ == data@,
                pos <= data@.len(),
                spec_lex(data@, 0).0 =~= out.deep_view() + spec_lex(data@, pos as int).0,
                spec_lex(data@, 0).1 == spec_lex(data@, pos as int).1,
            decreases data@.len() - pos,
        {
            match next_token_exec(raw, &data, pos) {
                Scan::End => {
                    proof {
                        assert(spec_lex(data@, pos as int).0 =~= Seq::<SpecToken>::empty());
                        assert(out.deep_view() + Seq::<SpecToken>::empty() =~= out.deep_view());
                    }
                    return (out, data.len());
                },
                Scan::Fail(j) => {
                    proof {
                        assert(spec_lex(data@, pos as int).0 =~= Seq::<SpecToken>::empty());
                        assert(out.deep_view() + Seq::<SpecToken>::empty() =~= out.deep_view());
                    }
                    return (out, j);
                },
                Scan::Tok(t, k) => {
                    proof {
                        lemma_spec_lex_bounds(data@, k as int);
                        let gt = t.deep_view();
                        assert(spec_lex(data@, pos as int).0 =~= seq![gt] + spec_lex(
                            data@,
                            k as int,
                        ).0);
                    }
                    let ghost old_out = out.deep_view();
                    out.push(t);
                    proof {
                        assert(out.deep_view() =~= old_out + seq![t.deep_view()]);
                        assert(out.deep_view() + spec_lex(data@, k as int).0 =~= old_out + (seq![
                            t.deep_view()
                        ] + spec_lex(data@, k as int).0));
                    }
                    pos = k;
                },
            }
        }
    }
}

/// Builds the lexer.
pub fn token() -> (r: Lexer) {
    Lexer
}

/// The characters of a string, one by one.
fn str_to_chars(s: &str) -> (v: Vec<char>)
    ensures
        v@ == s@,
{
    let n = s.unicode_len();
    let mut v: Vec<char> = Vec::new();
    let mut i: usize = 0;
    while i < n
        invariant
            n == s@.len(),
            i <= n,
            v@ == s@.subrange(0, i as int),
        decreases n - i,
    {
        v.push(s.get_char(i));
        proof {
            assert(v@ =~= s@.subrange(0, i + 1));
        }
        i = i + 1;
    }
    proof {
        assert(v@ =~= s@);
    }
    v
}

} // verus!
