use coki::grammar::{Comparator, Expr, Token};
use coki::parsers::{
    literal, IdentMatcher, LiteralParser, MapParser, MatchParser, NumToExpr, NumberMatcher,
    OneOfParser, OrParser as TokenOrParser, ParseError, Parser as TokenParser, RepParser
    as TokenRepParser, RepSepParser,
};
use coki::{CharParseError, CharParser, DualParser, Or, OrParser, Parser, RepParser};

#[test]
fn test_char() {
    let ch = CharParser::new('v');
    let data: Vec<char> = "vbx".chars().collect();
    match ch.parse(&data, 0) {
        Ok((c, rest)) => {
            assert!(c == 'v');
            assert!(data.len() - rest == 2);
            assert!(data[rest] == 'b');
        }
        Err(err) => {
            panic!("unepected error: {:?}", err);
        }
    }
}

#[test]
fn test_rep() {
    let ch = CharParser::new('v');
    let rep = RepParser { reps: 3, parser: ch };
    let data: Vec<char> = "vvvx".chars().collect();
    match rep.parse(&data, 0) {
        Ok((vec, _rest)) => {
            assert!(vec.len() == 3);
            for c in vec.iter() {
                assert!(*c == 'v');
            }
        }
        Err(err) => {
            panic!("unepected error: {:?}", err);
        }
    }
}

#[test]
fn test_and_then() {
    let a = CharParser::new('a');
    let b = CharParser::new('b');
    let ab = a.and_then(b);
    let data: Vec<char> = "abvx".chars().collect();
    match ab.parse(&data, 0) {
        Ok(((a, b), rem)) => {
            assert!(a == 'a');
            assert!(b == 'b');
            assert!(data.len() - rem == 2);
        }
        Err(err) => {
            panic!("{:?}", err);
        }
    }
}

#[test]
fn test_or() {
    let a = CharParser::new('a');
    let b = CharParser::new('b');
    let ab = a.or(b);
    let data: Vec<char> = "abvx".chars().collect();
    match ab.parse(&data, 0) {
        Ok((Or::OrA('a'), rem)) => match ab.parse(&data, rem) {
            Ok((Or::OrB('b'), rem)) => {
                assert!(data.len() - rem == 2);
            }
            _ => {
                panic!("wrong b");
            }
        },
        _ => {
            panic!("wrong a");
        }
    }
}

#[test]
fn test_rep_failure_midway() {
    let ch = CharParser::new('v');
    let rep = RepParser { reps: 3, parser: ch };
    let data: Vec<char> = "vvx".chars().collect();
    assert!(rep.parse(&data, 0).is_err());
}

#[test]
fn test_literal_token() {
    let p = literal(Token::PlusSign);
    let data = vec![Token::PlusSign, Token::Number(4)];
    let (tok, pos) = p.parse(&data, 0).unwrap();
    assert_eq!(tok, Token::PlusSign);
    assert_eq!(pos, 1);
    assert!(p.parse(&data, 1).is_err());
}

#[test]
fn test_literal_ident_value() {
    let p = LiteralParser { literal: Token::Ident("x".to_string()) };
    let data = vec![Token::Ident("x".to_string()), Token::Ident("y".to_string())];
    let (tok, pos) = p.parse(&data, 0).unwrap();
    assert_eq!(tok, Token::Ident("x".to_string()));
    assert_eq!(pos, 1);
    assert!(p.parse(&data, 1).is_err());
}

#[test]
fn test_match_parser() {
    let p = MatchParser { matcher: NumberMatcher };
    let data = vec![Token::Number(7), Token::PlusSign];
    assert_eq!(p.parse(&data, 0).unwrap(), (7, 1));
    assert!(p.parse(&data, 1).is_err());

    let q = MatchParser { matcher: IdentMatcher };
    let names = vec![Token::Ident("spam".to_string())];
    assert_eq!(q.parse(&names, 0).unwrap(), ("spam".to_string(), 1));
}

#[test]
fn test_token_rep_zero_or_more() {
    let p = TokenRepParser { parser: MatchParser { matcher: NumberMatcher } };
    let data = vec![Token::Number(1), Token::Number(2), Token::PlusSign];
    let (v, pos) = p.parse(&data, 0).unwrap();
    assert_eq!(v, vec![1, 2]);
    assert_eq!(pos, 2);
    // zero repetitions still succeed
    let (v2, pos2) = p.parse(&data, 2).unwrap();
    assert!(v2.is_empty());
    assert_eq!(pos2, 2);
}

#[test]
fn test_rep_sep() {
    let p = RepSepParser {
        rep: MatchParser { matcher: NumberMatcher },
        sep: literal(Token::PlusSign),
        min_reps: 2,
    };
    let data = vec![
        Token::Number(1),
        Token::PlusSign,
        Token::Number(2),
        Token::PlusSign,
        Token::Number(3),
        Token::NewLine,
    ];
    let (v, pos) = p.parse(&data, 0).unwrap();
    assert_eq!(v, vec![1, 2, 3]);
    assert_eq!(pos, 5);
}

#[test]
fn test_rep_sep_too_few() {
    let p = RepSepParser {
        rep: MatchParser { matcher: NumberMatcher },
        sep: literal(Token::PlusSign),
        min_reps: 2,
    };
    let data = vec![Token::Number(1), Token::NewLine];
    match p.parse(&data, 0) {
        Err(ParseError::TooFewReps { required, got }) => {
            assert_eq!(required, 2);
            assert_eq!(got, 1);
        }
        other => panic!("expected a repetition count failure, got {:?}", other),
    }
}

#[test]
fn test_dual_token_parser() {
    let p = coki::parsers::DualParser {
        first: MatchParser { matcher: IdentMatcher },
        second: literal(Token::Equals),
    };
    let data = vec![Token::Ident("x".to_string()), Token::Equals, Token::Number(1)];
    let ((name, eq), pos) = p.parse(&data, 0).unwrap();
    assert_eq!(name, "x".to_string());
    assert_eq!(eq, Token::Equals);
    assert_eq!(pos, 2);
}

#[test]
fn test_or_token_parser_ordering() {
    // the first alternative that matches wins
    let p = TokenOrParser { a: literal(Token::Cmp(Comparator::CGeq)), b: literal(Token::Cmp(Comparator::CGt)) };
    let data = vec![Token::Cmp(Comparator::CGeq)];
    let (tok, pos) = p.parse(&data, 0).unwrap();
    assert_eq!(tok, Token::Cmp(Comparator::CGeq));
    assert_eq!(pos, 1);
    let data2 = vec![Token::Cmp(Comparator::CGt)];
    let (tok2, _) = p.parse(&data2, 0).unwrap();
    assert_eq!(tok2, Token::Cmp(Comparator::CGt));
}

#[test]
fn test_one_of_parser() {
    let p = OneOfParser {
        parsers: vec![
            literal(Token::PlusSign),
            literal(Token::MinusSign),
            literal(Token::MultSign),
        ],
    };
    let data = vec![Token::MinusSign];
    let (tok, pos) = p.parse(&data, 0).unwrap();
    assert_eq!(tok, Token::MinusSign);
    assert_eq!(pos, 1);
    let bad = vec![Token::NewLine];
    assert!(p.parse(&bad, 0).is_err());
}

#[test]
fn test_map_parser() {
    let p = MapParser { parser: MatchParser { matcher: NumberMatcher }, mapper: NumToExpr };
    let data = vec![Token::Number(9)];
    let (e, pos) = p.parse(&data, 0).unwrap();
    assert_eq!(e, Expr::Num(9));
    assert_eq!(pos, 1);
}

#[test]
fn test_char_error_kinds() {
    let ch = CharParser::new('v');
    let empty: Vec<char> = Vec::new();
    assert_eq!(ch.parse(&empty, 0), Err(CharParseError::EndOfInput));
    let data: Vec<char> = "xv".chars().collect();
    assert_eq!(ch.parse(&data, 0), Err(CharParseError::Mismatch { at: 0 }));
    assert_eq!(ch.parse(&data, 1), Ok(('v', 2)));
}

#[test]
fn test_dual_propagates_failing_side() {
    let ab = DualParser { first: CharParser::new('a'), second: CharParser::new('b') };
    let first_bad: Vec<char> = "zb".chars().collect();
    assert_eq!(ab.parse(&first_bad, 0), Err(CharParseError::Mismatch { at: 0 }));
    let second_bad: Vec<char> = "az".chars().collect();
    assert_eq!(ab.parse(&second_bad, 0), Err(CharParseError::Mismatch { at: 1 }));
    let second_end: Vec<char> = "a".chars().collect();
    assert_eq!(ab.parse(&second_end, 0), Err(CharParseError::EndOfInput));
}

#[test]
fn test_or_returns_second_error() {
    // the second alternative consumes one character before failing, so its
    // error is distinguishable from the first's
    let p = OrParser {
        a: CharParser::new('x'),
        b: DualParser { first: CharParser::new('a'), second: CharParser::new('b') },
    };
    let data: Vec<char> = "a".chars().collect();
    // both fail: `x` mismatches at 0, the sequence runs out after `a`;
    // the second alternative's error is the one reported
    assert_eq!(p.parse(&data, 0), Err(CharParseError::EndOfInput));
}

#[test]
fn test_rep_sep_zero_width_separator_fails_on_missing_element() {
    // a zero-or-more repetition never fails, so as a separator it can
    // succeed while consuming nothing; the element parser must then still
    // follow, and its failure fails the whole parse
    let p = RepSepParser {
        rep: literal(Token::PlusSign),
        sep: TokenRepParser { parser: literal(Token::MinusSign) },
        min_reps: 1,
    };
    let data = vec![Token::PlusSign, Token::NewLine];
    assert_eq!(
        p.parse(&data, 0),
        Err(ParseError::UnexpectedToken { at: 1 })
    );
}

#[test]
fn test_rep_sep_zero_width_separator_continues_through_elements() {
    // with a zero-width separator every element must be followed by
    // another, so the chain can only end by failing at the input's end
    let p = RepSepParser {
        rep: literal(Token::PlusSign),
        sep: TokenRepParser { parser: literal(Token::MinusSign) },
        min_reps: 1,
    };
    let data = vec![Token::PlusSign, Token::PlusSign, Token::NewLine];
    assert_eq!(
        p.parse(&data, 0),
        Err(ParseError::UnexpectedToken { at: 2 })
    );
}

#[test]
fn test_rep_sep_cuts_only_a_chain_that_could_never_end() {
    // element and separator both consume nothing: such a chain could never
    // end, and the repetition is cut short after the repeated element
    let p = RepSepParser {
        rep: TokenRepParser { parser: literal(Token::PlusSign) },
        sep: TokenRepParser { parser: literal(Token::MinusSign) },
        min_reps: 1,
    };
    let data = vec![Token::NewLine];
    let (v, pos) = p.parse(&data, 0).unwrap();
    assert_eq!(v, vec![Vec::<Token>::new(), Vec::<Token>::new()]);
    assert_eq!(pos, 0);
}

#[test]
fn test_rep_sep_element_fails_after_separator() {
    let p = RepSepParser {
        rep: MatchParser { matcher: NumberMatcher },
        sep: literal(Token::PlusSign),
        min_reps: 1,
    };
    let data = vec![Token::Number(1), Token::PlusSign, Token::NewLine];
    assert_eq!(
        p.parse(&data, 0),
        Err(ParseError::UnexpectedToken { at: 2 })
    );
}

#[test]
fn test_literal_end_of_input() {
    let p = literal(Token::PlusSign);
    let data: Vec<Token> = Vec::new();
    assert_eq!(p.parse(&data, 0), Err(ParseError::EndOfInput));
}
