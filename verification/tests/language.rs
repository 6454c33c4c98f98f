use coki::evaluator::{compare, eval, interp, run, Environment, EvalError, InterpResult};
use coki::grammar::{AddOp, AddTerm, Comparator, Expr, MultOp, MultTerm, Statement, Token};
use coki::lexer::token;
use coki::parser::{parse_expr, program};
use coki::pretty::program_to_tokens;

const FUEL: u64 = 1_000_000;

fn outputs_of(src: &str) -> Vec<i32> {
    match interp(src, FUEL) {
        InterpResult::Ran(rep) => {
            assert!(rep.error.is_none(), "unexpected error: {:?}", rep.error);
            assert!(!rep.out_of_fuel);
            rep.outputs
        }
        other => panic!("did not run: {:?}", dbg_kind(&other)),
    }
}

fn dbg_kind(r: &InterpResult) -> String {
    match r {
        InterpResult::LexError { at } => format!("lex error at {}", at),
        InterpResult::ParseError { at } => format!("parse error at {}", at),
        InterpResult::Ran(_) => "ran".to_string(),
    }
}

#[test]
fn test_lexer_tokens() {
    let lexer = token();
    let (tokens, consumed) = lexer.parse("while n <= 5 { out n }");
    assert_eq!(consumed, 22);
    assert_eq!(
        tokens,
        vec![
            Token::WhileKeyword,
            Token::Ident("n".to_string()),
            Token::Cmp(Comparator::CLeq),
            Token::Number(5),
            Token::OpenBrace,
            Token::OutputCmd,
            Token::Ident("n".to_string()),
            Token::CloseBrace,
        ]
    );
}

#[test]
fn test_lexer_orders_two_char_comparators_first() {
    let lexer = token();
    let (tokens, _) = lexer.parse("== = >= > <= < !=");
    assert_eq!(
        tokens,
        vec![
            Token::Cmp(Comparator::CEq),
            Token::Equals,
            Token::Cmp(Comparator::CGeq),
            Token::Cmp(Comparator::CGt),
            Token::Cmp(Comparator::CLeq),
            Token::Cmp(Comparator::CLt),
            Token::Cmp(Comparator::CNeq),
        ]
    );
}

#[test]
fn test_lexer_newline_swallows_blank_lines() {
    let lexer = token();
    let (tokens, _) = lexer.parse("x\n\n  \ny");
    assert_eq!(
        tokens,
        vec![
            Token::Ident("x".to_string()),
            Token::NewLine,
            Token::Ident("y".to_string()),
        ]
    );
}

#[test]
fn test_lexer_rejects_stray_character() {
    let lexer = token();
    let (tokens, consumed) = lexer.parse("x $ y");
    assert_eq!(tokens, vec![Token::Ident("x".to_string())]);
    assert_eq!(consumed, 2); // stops on the '$'
}

#[test]
fn test_lexer_number_too_large() {
    let lexer = token();
    let (tokens, consumed) = lexer.parse("99999999999999999999");
    assert!(tokens.is_empty());
    assert_eq!(consumed, 0);
    // the largest value that fits lexes cleanly
    let (tokens2, consumed2) = lexer.parse("2147483647");
    assert_eq!(tokens2, vec![Token::Number(2147483647)]);
    assert_eq!(consumed2, 10);
}

#[test]
fn test_parse_single_number_normalizes() {
    // a bare numeric token becomes a one-element additive chain
    let data = vec![Token::Number(5)];
    let (e, pos) = parse_expr(&data, 0).unwrap();
    assert_eq!(e, Expr::AddSub(vec![AddTerm(AddOp::Add, Expr::Num(5))]));
    assert_eq!(pos, 1);
}

#[test]
fn test_precedence_parse_and_eval() {
    let lexer = token();
    let (tokens, _) = lexer.parse("3 + 4 * 5");
    let (e, pos) = parse_expr(&tokens, 0).unwrap();
    assert_eq!(pos, tokens.len());
    assert_eq!(
        e,
        Expr::AddSub(vec![
            AddTerm(AddOp::Add, Expr::Num(3)),
            AddTerm(
                AddOp::Add,
                Expr::MultDiv(vec![
                    MultTerm(MultOp::Multiply, Expr::Num(4)),
                    MultTerm(MultOp::Multiply, Expr::Num(5)),
                ])
            ),
        ])
    );
    let env = Environment::new();
    assert_eq!(eval(&e, &env), Ok(23));
}

#[test]
fn test_assign_read_round_trip() {
    assert_eq!(outputs_of("x = 7\nout x\n"), vec![7]);
}

#[test]
fn test_subtraction_folds_left_to_right() {
    assert_eq!(outputs_of("out 10 - 2 - 3\n"), vec![5]);
}

#[test]
fn test_while_loop_counts() {
    let src = "n = 1\nwhile n <= 5 {\nout n\nn = n + 1\n}\n";
    assert_eq!(outputs_of(src), vec![1, 2, 3, 4, 5]);
}

#[test]
fn test_undefined_variable() {
    match interp("out y\n", FUEL) {
        InterpResult::Ran(rep) => {
            assert!(rep.outputs.is_empty());
            assert_eq!(rep.error, Some(EvalError::UndefinedVariable("y".to_string())));
        }
        other => panic!("did not run: {}", dbg_kind(&other)),
    }
}

#[test]
fn test_division_by_zero() {
    match interp("out 1 / 0\n", FUEL) {
        InterpResult::Ran(rep) => {
            assert!(rep.outputs.is_empty());
            assert_eq!(rep.error, Some(EvalError::DivisionByZero));
        }
        other => panic!("did not run: {}", dbg_kind(&other)),
    }
    match interp("out 1 % 0\n", FUEL) {
        InterpResult::Ran(rep) => {
            assert_eq!(rep.error, Some(EvalError::DivisionByZero));
        }
        other => panic!("did not run: {}", dbg_kind(&other)),
    }
}

#[test]
fn test_error_aborts_remaining_program() {
    // the failure in the middle stops everything after it
    let src = "out 1\nout y\nout 2\n";
    match interp(src, FUEL) {
        InterpResult::Ran(rep) => {
            assert_eq!(rep.outputs, vec![1]);
            assert_eq!(rep.error, Some(EvalError::UndefinedVariable("y".to_string())));
        }
        other => panic!("did not run: {}", dbg_kind(&other)),
    }
}

#[test]
fn test_truncated_division_and_modulo() {
    assert_eq!(outputs_of("out (0 - 7) / 2\n"), vec![-3]);
    assert_eq!(outputs_of("out (0 - 7) % 2\n"), vec![-1]);
    assert_eq!(outputs_of("out 7 / (0 - 2)\n"), vec![-3]);
    assert_eq!(outputs_of("out 7 % 2\n"), vec![1]);
}

#[test]
fn test_arithmetic_wraps_on_overflow() {
    assert_eq!(outputs_of("out 2147483647 + 1\n"), vec![-2147483648]);
    assert_eq!(
        outputs_of("out (0 - 2147483647 - 1) / (0 - 1)\n"),
        vec![-2147483648]
    );
}

#[test]
fn test_parentheses_override_precedence() {
    assert_eq!(outputs_of("out (3 + 4) * 5\n"), vec![35]);
}

#[test]
fn test_if_else_chain() {
    let src = "n = 1\nwhile n <= 15 {\nif n % 3 == 0 {\nif n % 5 == 0 {\nout 15\n} else {\nout 3\n}\n} else if n % 5 == 0 {\nout 5\n} else {\nout n\n}\nn = n + 1\n}\n";
    assert_eq!(
        outputs_of(src),
        vec![1, 2, 3, 4, 5, 3, 7, 8, 3, 5, 11, 3, 13, 14, 15]
    );
}

#[test]
fn test_if_without_else() {
    assert_eq!(outputs_of("if 1 < 2 {\nout 1\n}\nif 2 < 1 {\nout 2\n}\nout 3\n"), vec![1, 3]);
}

#[test]
fn test_comparators() {
    let src = "if 1 == 1 {\nout 1\n}\nif 1 != 2 {\nout 2\n}\nif 1 < 2 {\nout 3\n}\nif 2 > 1 {\nout 4\n}\nif 1 <= 1 {\nout 5\n}\nif 2 >= 2 {\nout 6\n}\n";
    assert_eq!(outputs_of(src), vec![1, 2, 3, 4, 5, 6]);
}

#[test]
fn test_compare_propagates_errors() {
    let env = Environment::new();
    let lhs = Expr::Variable("a".to_string());
    let rhs = Expr::Num(0);
    assert_eq!(
        compare(&lhs, &Comparator::CEq, &rhs, &env),
        Err(EvalError::UndefinedVariable("a".to_string()))
    );
}

#[test]
fn test_environment_insert_overwrites() {
    let mut env = Environment::new();
    assert_eq!(env.get(&"x".to_string()), None);
    env.insert("x".to_string(), 1);
    env.insert("y".to_string(), 2);
    env.insert("x".to_string(), 3);
    assert_eq!(env.get(&"x".to_string()), Some(3));
    assert_eq!(env.get(&"y".to_string()), Some(2));
    assert_eq!(env.get(&"z".to_string()), None);
}

#[test]
fn test_run_reports_out_of_fuel() {
    let prog = vec![Statement::While(
        Expr::Num(0),
        Comparator::CLt,
        Expr::Num(1),
        coki::grammar::Block(vec![]),
    )];
    let rep = run(&prog, 10);
    assert!(rep.out_of_fuel);
    assert!(rep.error.is_none());
}

#[test]
fn test_parse_error_reported() {
    match interp("out +\n", FUEL) {
        InterpResult::ParseError { at } => assert_eq!(at, 0),
        other => panic!("expected a parse error, got {}", dbg_kind(&other)),
    }
}

#[test]
fn test_lex_error_reported() {
    match interp("x = 1 ?\n", FUEL) {
        InterpResult::LexError { at } => assert_eq!(at, 6),
        other => panic!("expected a lex error, got {}", dbg_kind(&other)),
    }
}

#[test]
fn test_reparse_printed_program() {
    let src = "x = 1 + 2 * (3 - 4)\nif x < 0 {\nout 0 - x\n} else {\nout x\n}\nwhile x > 0 {\nx = x - 1\nout x\n}\n";
    let lexer = token();
    let (tokens, consumed) = lexer.parse(src);
    assert_eq!(consumed, src.chars().count());
    let parser = program();
    let (block, used) = parser.parse(&tokens);
    assert_eq!(used, tokens.len());
    let printed = program_to_tokens(&block);
    let (block2, used2) = parser.parse(&printed);
    assert_eq!(used2, printed.len());
    assert_eq!(block, block2);
}

#[test]
fn test_reparse_printed_else_if() {
    let src = "if 1 > 2 {\nout 1\n} else if 2 > 3 {\nout 2\n} else {\nout 3\n}\n";
    let lexer = token();
    let (tokens, consumed) = lexer.parse(src);
    assert_eq!(consumed, src.chars().count());
    let parser = program();
    let (block, used) = parser.parse(&tokens);
    assert_eq!(used, tokens.len());
    let printed = program_to_tokens(&block);
    let (block2, used2) = parser.parse(&printed);
    assert_eq!(used2, printed.len());
    assert_eq!(block, block2);
}

#[test]
fn test_keyword_binds_before_identifier() {
    let lexer = token();
    let (tokens, _) = lexer.parse("output");
    // the keyword wins over the identifier, as the fixed ordering demands
    assert_eq!(tokens, vec![Token::OutputCmd, Token::Ident("put".to_string())]);
}

fn tokens_to_source(ts: &[Token]) -> String {
    let mut parts: Vec<String> = Vec::new();
    for t in ts {
        parts.push(match t {
            Token::Equals => "=".to_string(),
            Token::Ident(name) => name.clone(),
            Token::Number(n) => format!("{}", n),
            Token::PlusSign => "+".to_string(),
            Token::MinusSign => "-".to_string(),
            Token::MultSign => "*".to_string(),
            Token::DivideSign => "/".to_string(),
            Token::ModuloSign => "%".to_string(),
            Token::OutputCmd => "out".to_string(),
            Token::NewLine => "\n".to_string(),
            Token::OpenParen => "(".to_string(),
            Token::CloseParen => ")".to_string(),
            Token::OpenBrace => "{".to_string(),
            Token::CloseBrace => "}".to_string(),
            Token::IfKeyword => "if".to_string(),
            Token::ElseKeyword => "else".to_string(),
            Token::WhileKeyword => "while".to_string(),
            Token::Cmp(Comparator::CEq) => "==".to_string(),
            Token::Cmp(Comparator::CNeq) => "!=".to_string(),
            Token::Cmp(Comparator::CLt) => "<".to_string(),
            Token::Cmp(Comparator::CGt) => ">".to_string(),
            Token::Cmp(Comparator::CLeq) => "<=".to_string(),
            Token::Cmp(Comparator::CGeq) => ">=".to_string(),
        });
    }
    parts.join(" ")
}

#[test]
fn test_pretty_printed_source_round_trip() {
    let src = "x = 1 + 2 * (3 - 4)\nif x < 0 {\nout 0 - x\n} else if x == 0 {\nout 0\n} else {\nout x\n}\nwhile x > 0 {\nx = x - 1\n}\nout x * 12 % 5\n";
    let lexer = token();
    let (tokens, consumed) = lexer.parse(src);
    assert_eq!(consumed, src.chars().count());
    let parser = program();
    let (block, used) = parser.parse(&tokens);
    assert_eq!(used, tokens.len());

    let rendered = tokens_to_source(&program_to_tokens(&block));
    let (tokens2, consumed2) = lexer.parse(&rendered);
    assert_eq!(consumed2, rendered.chars().count());
    let (block2, used2) = parser.parse(&tokens2);
    assert_eq!(used2, tokens2.len());
    assert_eq!(block, block2);

    // both forms behave identically as programs
    assert_eq!(outputs_of(src), outputs_of(&rendered));
}

#[test]
fn test_empty_program() {
    match interp("", FUEL) {
        InterpResult::Ran(rep) => {
            assert!(rep.outputs.is_empty());
            assert!(rep.error.is_none());
            assert!(!rep.out_of_fuel);
        }
        other => panic!("did not run: {}", dbg_kind(&other)),
    }
    // horizontal whitespace alone is still an empty program
    match interp("   ", FUEL) {
        InterpResult::Ran(rep) => {
            assert!(rep.outputs.is_empty());
            assert!(rep.error.is_none());
        }
        other => panic!("did not run: {}", dbg_kind(&other)),
    }
    // a leading blank line is a newline token that no statement owns
    match interp("\nout 1\n", FUEL) {
        InterpResult::ParseError { at } => assert_eq!(at, 0),
        other => panic!("expected a parse error, got {}", dbg_kind(&other)),
    }
}
