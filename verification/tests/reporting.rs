use ripc::error::Reporter;
use ripc::lex::Lexer;
use ripc::parse::Parser;

fn parse_err(src: &str) -> ripc::parse::Error {
    let mut parser = Parser::new(Lexer::new(src));
    parser.parse().unwrap_err()
}

#[test]
fn invalid_character_diagnostic() {
    let src = "#";
    let err = parse_err(src);
    let reporter = Reporter::new(src);
    assert_eq!(reporter.report(&err), "[error]: Invalid character '#'\n#\n^ \n");
}

#[test]
fn expected_expression_diagnostic_quotes_the_found_text() {
    let src = "+";
    let err = parse_err(src);
    let reporter = Reporter::new(src);
    assert_eq!(
        reporter.report(&err),
        "[error]: Expected expression, found '+'\n+\n^ \n"
    );
}

#[test]
fn expected_operator_diagnostic_points_at_the_token() {
    let src = "1 2;";
    let err = parse_err(src);
    let reporter = Reporter::new(src);
    assert_eq!(
        reporter.report(&err),
        "[error]: Expected binary operator, found '2'\n1 2;\n  ^ \n"
    );
}

#[test]
fn end_of_input_errors_point_at_the_final_character() {
    let src = "1+2";
    let err = parse_err(src);
    let reporter = Reporter::new(src);
    assert_eq!(
        reporter.report(&err),
        "[error]: Unterminated expression\n1+2\n  ^ \n"
    );
}

#[test]
fn unterminated_string_diagnostic() {
    let src = "\"abc";
    let err = parse_err(src);
    let reporter = Reporter::new(src);
    assert_eq!(
        reporter.report(&err),
        "[error]: Found unexpected EOF\n\"abc\n^ \n"
    );
}

#[test]
fn number_too_large_diagnostic() {
    let src = "99999999999999999999;";
    let err = parse_err(src);
    let reporter = Reporter::new(src);
    assert_eq!(
        reporter.report(&err),
        format!("[error]: Number literal too large\n{}\n^ \n", src)
    );
}

#[test]
fn codegen_diagnostic_points_at_the_assignment_target() {
    let src = "1+2=3;";
    let err = match ripc::run(src) {
        Err(e) => e,
        Ok(_) => panic!("expected a codegen error"),
    };
    let reporter = Reporter::new(src);
    assert_eq!(
        reporter.report(&err),
        "[error]: Expected identifier\n1+2=3;\n^ \n"
    );
}

#[test]
fn reporting_the_same_error_twice_is_byte_identical() {
    let src = "a = ?;";
    let err = parse_err(src);
    let reporter = Reporter::new(src);
    let first = reporter.report(&err);
    let second = reporter.report(&err);
    assert_eq!(first, second);
    assert_eq!(first.as_bytes(), second.as_bytes());
}
