use ripc::lex::{Error, Lexer, Token, TokenKind};
use ripc::parse::Tokens;

fn raw_nonws(src: &str) -> Vec<Result<Token<'_>, Error>> {
    let mut lexer = Lexer::new(src);
    let mut out = Vec::new();
    loop {
        match lexer.next() {
            None => return out,
            Some(Ok(t)) => {
                if t.kind != TokenKind::Whitespace {
                    out.push(Ok(t));
                }
            }
            Some(Err(e)) => {
                out.push(Err(e));
                return out;
            }
        }
    }
}

fn buffered(src: &str) -> Vec<Result<Token<'_>, Error>> {
    let mut tokens = Tokens { lexer: Lexer::new(src), peeked: None };
    let mut out = Vec::new();
    loop {
        match tokens.next() {
            None => return out,
            Some(Ok(t)) => out.push(Ok(t)),
            Some(Err(e)) => {
                out.push(Err(e));
                return out;
            }
        }
    }
}

#[test]
fn buffer_filters_whitespace_like_a_manual_filter() {
    for src in [
        "",
        "   ",
        "1 + 2 ;",
        "a=1; b = 2;\n a = a + b ;",
        "\t 7/2;",
        "12  34",
        "x \"s t\" y",
        "1 + #",
        "  \"unterminated",
    ] {
        assert_eq!(buffered(src), raw_nonws(src), "source: {:?}", src);
    }
}

#[test]
fn peek_fills_without_consuming() {
    let mut tokens = Tokens { lexer: Lexer::new("  12 +"), peeked: None };
    let p1 = tokens.peek();
    let p2 = tokens.peek();
    assert_eq!(p1, p2);
    let n1 = tokens.next();
    assert_eq!(p1, n1);
    assert_eq!(n1.unwrap().unwrap().kind, TokenKind::Num(12));
    let n2 = tokens.next();
    assert_eq!(n2.unwrap().unwrap().kind, TokenKind::Add);
    assert!(tokens.next().is_none());
    assert!(tokens.peek().is_none());
}

#[test]
fn neither_peek_nor_next_ever_yields_whitespace() {
    let mut tokens = Tokens { lexer: Lexer::new(" 1  2\t3 "), peeked: None };
    let mut seen = 0;
    loop {
        if let Some(p) = tokens.peek() {
            assert!(p.unwrap().kind != TokenKind::Whitespace);
        }
        match tokens.next() {
            None => break,
            Some(r) => {
                assert!(r.unwrap().kind != TokenKind::Whitespace);
                seen += 1;
            }
        }
    }
    assert_eq!(seen, 3);
}
