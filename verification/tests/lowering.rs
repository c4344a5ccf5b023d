use ripc::codegen::{Codegen, ErrorKind};
use ripc::lex::Lexer;
use ripc::parse::{Ast, Call, Expr, ExprKind, Lit, Parser};
use ripc::{Span, WithSpan};

const ENTRY: &str =
    ".text\n\t.global _start\n_start:\n\txor %ebp, %ebp\n\tcall main\n\tmov $1, %edi\n\tcall exit\n";
const PROLOGUE: &str = "main:\n\tpush %rbp\n\tmov %rsp, %rbp\n\t";
const EPILOGUE: &str = "mov %rbp, %rsp\n\tpop %rbp\n\tret\n";

fn parse(src: &str) -> Ast {
    let mut parser = Parser::new(Lexer::new(src));
    parser.parse().unwrap()
}

fn lower(src: &str) -> Result<String, ripc::codegen::Error> {
    Codegen::new(String::new()).write(&parse(src))
}

fn program(body: &str) -> String {
    format!("{}{}{}{}", ENTRY, PROLOGUE, body, EPILOGUE)
}

#[test]
fn literals_load_the_accumulator() {
    assert_eq!(lower("42;").unwrap(), program("mov $42, %eax\n\t"));
}

#[test]
fn precedence_orders_the_emitted_operations() {
    let body = "mov $2, %eax\n\tpush %rax\n\t\
                mov $3, %eax\n\tpush %rax\n\tmov $4, %eax\n\tpop %rbx\n\timul %ebx, %eax\n\t\
                pop %rbx\n\tadd %ebx, %eax\n\t";
    assert_eq!(lower("2+3*4;").unwrap(), program(body));
}

#[test]
fn division_discards_the_remainder() {
    let body = "mov $7, %eax\n\tpush %rax\n\tmov $2, %eax\n\t\
                mov %eax, %ebx\n\tpop %rax\n\tmov $0, %edx\n\tidiv %ebx\n\t";
    assert_eq!(lower("7/2;").unwrap(), program(body));
}

#[test]
fn assignment_stores_into_a_fixed_slot() {
    assert_eq!(
        lower("a=1;").unwrap(),
        program("mov $1, %eax\n\tmov %eax, -4(%rbp)\n\t")
    );
}

#[test]
fn each_variable_keeps_its_own_offset() {
    let body = "mov $1, %eax\n\tmov %eax, -4(%rbp)\n\t\
                mov $2, %eax\n\tmov %eax, -8(%rbp)\n\t\
                mov -4(%rbp), %eax\n\tpush %rax\n\tmov -8(%rbp), %eax\n\tpop %rbx\n\tadd %ebx, %eax\n\t\
                mov %eax, -4(%rbp)\n\t";
    assert_eq!(lower("a=1; b=2; a=a+b;").unwrap(), program(body));
}

#[test]
fn assignment_target_must_be_an_identifier() {
    // this fails at code generation time, not at parse time
    let e = lower("1+2=3;").unwrap_err();
    assert_eq!(e.kind, ErrorKind::ExpectedIdent);
    assert_eq!(e.span, Span::new(0..3));
}

#[test]
fn string_operand_is_expected_int_expr() {
    let e = lower("\"x\"+1;").unwrap_err();
    assert_eq!(e.kind, ErrorKind::ExpectedIntExpr);
    assert_eq!(e.span, Span::new(0..3));

    let e = lower("\"x\";").unwrap_err();
    assert_eq!(e.kind, ErrorKind::ExpectedIntExpr);
}

#[test]
fn write_appends_to_the_buffer_it_was_given() {
    let out = Codegen::new("# prelude\n".to_string())
        .write(&parse("1;"))
        .unwrap();
    assert_eq!(out, format!("# prelude\n{}", program("mov $1, %eax\n\t")));
}

#[test]
fn call_marshals_arguments_into_registers() {
    let call = Expr {
        kind: ExprKind::Call(Call {
            name: "foo".to_string(),
            args: vec![
                Expr {
                    kind: ExprKind::Lit(WithSpan::new(Lit::Num(7), Span::new(0..1))),
                    span: Span::new(0..1),
                },
                Expr {
                    kind: ExprKind::Lit(WithSpan::new(Lit::Num(9), Span::new(2..3))),
                    span: Span::new(2..3),
                },
                Expr {
                    kind: ExprKind::Lit(WithSpan::new(Lit::Num(11), Span::new(4..6))),
                    span: Span::new(4..6),
                },
            ],
        }),
        span: Span::new(0..6),
    };
    let ast = Ast { exprs: vec![call], vars: Vec::new() };
    let out = Codegen::new(String::new()).write(&ast).unwrap();
    // the used registers beyond the first slot are saved in ascending order
    // and restored in reverse; the arguments are pushed left to right and
    // popped in descending register order, so the i-th argument ends in the
    // i-th register
    let body = "push %rsi\n\tpush %rdx\n\t\
                mov $7, %eax\n\tpush %rax\n\tmov $9, %eax\n\tpush %rax\n\tmov $11, %eax\n\tpush %rax\n\t\
                pop %rdx\n\tpop %rsi\n\tpop %rdi\n\t\
                mov $0, %eax\n\tcall foo\n\t\
                pop %rdx\n\tpop %rsi\n\t";
    assert_eq!(out, program(body));
}

#[test]
fn single_argument_call_uses_the_first_register_alone() {
    let call = Expr {
        kind: ExprKind::Call(Call {
            name: "putchar".to_string(),
            args: vec![Expr {
                kind: ExprKind::Lit(WithSpan::new(Lit::Num(65), Span::new(0..2))),
                span: Span::new(0..2),
            }],
        }),
        span: Span::new(0..2),
    };
    let ast = Ast { exprs: vec![call], vars: Vec::new() };
    let out = Codegen::new(String::new()).write(&ast).unwrap();
    let body = "mov $65, %eax\n\tpush %rax\n\t\
                pop %rdi\n\t\
                mov $0, %eax\n\tcall putchar\n\t";
    assert_eq!(out, program(body));
}

#[test]
fn empty_program_is_prologue_and_epilogue_alone() {
    assert_eq!(ripc::run("").unwrap(), program(""));
}

#[test]
fn run_compiles_like_the_codegen_path() {
    let src = "a=1; b=2; a=a+b;";
    let direct = Codegen::new(String::new()).write(&parse(src)).unwrap();
    assert_eq!(ripc::run(src).unwrap(), direct);
}

#[test]
fn run_reports_errors_from_every_stage() {
    assert!(matches!(ripc::run("#"), Err(ripc::CompileError::Parse(_))));
    assert!(matches!(ripc::run("1+"), Err(ripc::CompileError::Parse(_))));
    assert!(matches!(
        ripc::run("1+2=3;"),
        Err(ripc::CompileError::Codegen(_))
    ));
    assert!(ripc::run("2+3*4;").is_ok());
}
