use ripc::lex::{ErrorKind as LexErrorKind, Lexer};
use ripc::parse::{Ast, BinaryExpr, BinaryOp, ErrorKind, Expr, ExprKind, Lit, Parser};
use ripc::Span;

fn parse(src: &str) -> Result<Ast, ripc::parse::Error> {
    let mut parser = Parser::new(Lexer::new(src));
    parser.parse()
}

fn as_binary(e: &Expr) -> &BinaryExpr {
    match &e.kind {
        ExprKind::Binary(b) => b,
        _ => panic!("expected a binary expression"),
    }
}

fn as_num(e: &Expr) -> usize {
    match &e.kind {
        ExprKind::Lit(ws) => match &ws.value {
            Lit::Num(n) => *n,
            _ => panic!("expected a number literal"),
        },
        _ => panic!("expected a literal"),
    }
}

fn as_var(e: &Expr) -> usize {
    match &e.kind {
        ExprKind::Var(i) => *i,
        _ => panic!("expected a variable reference"),
    }
}

/// Interprets an expression the way the generated code computes it: a
/// single current value, variables in slots, division truncating.
fn eval(e: &Expr, env: &mut Vec<i64>) -> i64 {
    match &e.kind {
        ExprKind::Lit(ws) => match &ws.value {
            Lit::Num(n) => *n as i64,
            Lit::String(_) => panic!("a string has no integer value"),
        },
        ExprKind::Var(i) => env[*i],
        ExprKind::Binary(b) => {
            if b.op.value == BinaryOp::Assign {
                let v = eval(&b.right, env);
                env[as_var(&b.left)] = v;
                v
            } else {
                let l = eval(&b.left, env);
                let r = eval(&b.right, env);
                match b.op.value {
                    BinaryOp::Add => l + r,
                    BinaryOp::Sub => l - r,
                    BinaryOp::Mul => l * r,
                    BinaryOp::Div => l / r,
                    BinaryOp::Assign => unreachable!(),
                }
            }
        }
        ExprKind::Call(_) => panic!("the parser builds no calls"),
    }
}

/// The accumulator value after the last statement.
fn eval_program(ast: &Ast) -> i64 {
    let mut env = vec![0i64; ast.vars.len()];
    let mut last = 0;
    for e in &ast.exprs {
        last = eval(e, &mut env);
    }
    last
}

#[test]
fn multiplication_binds_tighter_than_addition() {
    let ast = parse("2+3*4;").unwrap();
    assert_eq!(ast.exprs.len(), 1);
    let root = as_binary(&ast.exprs[0]);
    assert_eq!(root.op.value, BinaryOp::Add);
    assert_eq!(as_num(&root.left), 2);
    let right = as_binary(&root.right);
    assert_eq!(right.op.value, BinaryOp::Mul);
    assert_eq!(as_num(&right.left), 3);
    assert_eq!(as_num(&right.right), 4);
    assert_eq!(eval_program(&ast), 14);
    // the whole expression spans left to right
    assert_eq!(ast.exprs[0].span, Span::new(0..5));
    assert_eq!(root.op.span, Span::new(1..2));
}

#[test]
fn subtraction_associates_left_to_right() {
    let ast = parse("10-3-2;").unwrap();
    let root = as_binary(&ast.exprs[0]);
    assert_eq!(root.op.value, BinaryOp::Sub);
    let left = as_binary(&root.left);
    assert_eq!(as_num(&left.left), 10);
    assert_eq!(as_num(&left.right), 3);
    assert_eq!(as_num(&root.right), 2);
    assert_eq!(eval_program(&ast), 5);
}

#[test]
fn division_truncates() {
    let ast = parse("7/2;").unwrap();
    let root = as_binary(&ast.exprs[0]);
    assert_eq!(root.op.value, BinaryOp::Div);
    assert_eq!(eval_program(&ast), 3);
}

#[test]
fn whitespace_changes_nothing() {
    let ast = parse(" 2 +\t3 * 4 ;\n").unwrap();
    let root = as_binary(&ast.exprs[0]);
    assert_eq!(root.op.value, BinaryOp::Add);
    assert_eq!(eval_program(&ast), 14);
}

#[test]
fn variable_slots_are_first_seen_and_stable() {
    let ast = parse("a=1; b=2; a=a+b;").unwrap();
    assert_eq!(ast.exprs.len(), 3);
    assert_eq!(ast.vars.len(), 2);
    assert_eq!(ast.vars[0].name(), "a");
    assert_eq!(ast.vars[1].name(), "b");
    let s0 = as_binary(&ast.exprs[0]);
    assert_eq!(s0.op.value, BinaryOp::Assign);
    assert_eq!(as_var(&s0.left), 0);
    let s1 = as_binary(&ast.exprs[1]);
    assert_eq!(as_var(&s1.left), 1);
    let s2 = as_binary(&ast.exprs[2]);
    // `a` resolves to the same slot on both appearances, `b` to a distinct one
    assert_eq!(as_var(&s2.left), 0);
    let sum = as_binary(&s2.right);
    assert_eq!(as_var(&sum.left), 0);
    assert_eq!(as_var(&sum.right), 1);
    assert_eq!(eval_program(&ast), 3);
}

#[test]
fn assignment_to_a_non_variable_parses() {
    // validating the target is the code generator's job, not the parser's
    let ast = parse("1+2=3;").unwrap();
    let root = as_binary(&ast.exprs[0]);
    assert_eq!(root.op.value, BinaryOp::Assign);
    let target = as_binary(&root.left);
    assert_eq!(target.op.value, BinaryOp::Add);
    assert_eq!(as_num(&root.right), 3);
}

#[test]
fn operator_alone_is_expected_expression_at_offset_zero() {
    let e = parse("+").unwrap_err();
    assert_eq!(e.kind, ErrorKind::ExpectedExpression);
    assert_eq!(e.span, Span::new(0..1));
}

#[test]
fn lexical_errors_surface_unchanged_through_the_parser() {
    let e = parse("\"abc").unwrap_err();
    match e.kind {
        ErrorKind::Lex(inner) => {
            assert_eq!(inner.kind, LexErrorKind::UnexpectedEof);
            assert_eq!(inner.span, Span::new(0..4));
        }
        _ => panic!("expected a wrapped lexical error"),
    }
    assert_eq!(e.span, Span::new(0..4));

    let e = parse("#").unwrap_err();
    match e.kind {
        ErrorKind::Lex(inner) => {
            assert_eq!(inner.kind, LexErrorKind::InvalidCharacter('#'));
        }
        _ => panic!("expected a wrapped lexical error"),
    }
}

#[test]
fn missing_semicolon_is_unterminated_expression() {
    let e = parse("1+2").unwrap_err();
    assert_eq!(e.kind, ErrorKind::UnterminatedExpression);
    assert_eq!(e.span, Span::eof());
}

#[test]
fn value_after_expression_is_expected_operator() {
    let e = parse("1 2;").unwrap_err();
    assert_eq!(e.kind, ErrorKind::ExpectedOperator);
    assert_eq!(e.span, Span::new(2..3));
}

#[test]
fn operand_missing_after_operator_is_unexpected_eof() {
    let e = parse("1+").unwrap_err();
    assert_eq!(e.kind, ErrorKind::UnexpectedEof);
    assert_eq!(e.span, Span::eof());
}

#[test]
fn parens_are_lexed_but_not_part_of_the_grammar() {
    let e = parse("(1);").unwrap_err();
    assert_eq!(e.kind, ErrorKind::ExpectedExpression);
    assert_eq!(e.span, Span::new(0..1));
}

#[test]
fn empty_source_is_an_empty_program() {
    let ast = parse("").unwrap();
    assert!(ast.exprs.is_empty());
    assert!(ast.vars.is_empty());
    let ast = parse("   ").unwrap();
    assert!(ast.exprs.is_empty());
}

#[test]
fn string_literals_parse_as_primaries() {
    let ast = parse("\"hi\";").unwrap();
    match &ast.exprs[0].kind {
        ExprKind::Lit(ws) => match &ws.value {
            Lit::String(s) => assert_eq!(s, "hi"),
            _ => panic!("expected a string literal"),
        },
        _ => panic!("expected a literal"),
    }
}
