use gn_language_server::ast::{BinaryOp, Expr, PrimaryExpr, Statement, SyntaxErrorKind};
use gn_language_server::parser::parse;

fn parse_no_errors(input: &str) {
    let block = parse(input);
    let errors = block.errors();
    assert!(
        errors.is_empty(),
        "parse failed!\n\tinput = {:?}\n\terrors = {:?}",
        input,
        errors
    );
}

#[test]
fn smoke() {
    // Empty
    parse_no_errors("");
    parse_no_errors(" \r\n\t");

    // Assignment
    parse_no_errors("a = 1");
    parse_no_errors("a += 1");
    parse_no_errors("a -= 1");
    parse_no_errors("a[1] = 1");
    parse_no_errors("a.b = 1");

    // Conditional
    parse_no_errors("if (true) {}");
    parse_no_errors("if (true) { a = 1 }");
    parse_no_errors("if (true) {} else {}");
    parse_no_errors("if (true) { a = 1 } else { a = 2 }");
    parse_no_errors("if (true) {} else if (true) {}");
    parse_no_errors("if (true) { a = 1 } else if (true) { a = 2 }");
    parse_no_errors("if (true) {} else if (true) {} else {}");
    parse_no_errors("if (true) { a = 1 } else if (true) { a = 2 } else { a = 3 }");

    // Call
    parse_no_errors("assert(true)");
    parse_no_errors("declare_args() {}");
    parse_no_errors("declare_args() { a = 1 }");
    parse_no_errors("template(\"foo\") {}");
    parse_no_errors("template(\"foo\") { bar(target_name) }");

    // Expressions
    parse_no_errors("a = 1");
    parse_no_errors("a = b[1]");
    parse_no_errors("a = b.c");
    parse_no_errors("a = 1 + 2 - 3");
    parse_no_errors("a = 1 == 2");
    parse_no_errors("a = 1 <= 2");
    parse_no_errors("a = true && false || !false");
    parse_no_errors(r#"a = "foo\"bar\\baz""#);
    parse_no_errors("a = b(c)");
    parse_no_errors("a = b.c");
    parse_no_errors("a = {}");
    parse_no_errors("a = { b = 1 }");
    parse_no_errors("a = (((1)))");
    parse_no_errors("a = []");
    parse_no_errors("a = [1]");
    parse_no_errors("a = [1, ]");
    parse_no_errors("a = [1, 2]");
    parse_no_errors("a = [1, 2, ]");
}

#[test]
fn comments() {
    parse_no_errors("# comment");
    parse_no_errors("# comment\n  # comment\n");
    parse_no_errors("a = 1 # comment");
}

#[test]
fn error_recovery() {
    parse("a = 1 2 3");
    parse("a = \"foo\nb = 1");
    parse("declare_args() {}}");
}

#[test]
fn missing_comma() {
    let block = parse("a = [1, 2 3]");
    let errors: Vec<_> = block
        .errors()
        .iter()
        .map(|e| (e.span.start, e.span.end))
        .collect();
    assert_eq!(errors, [(9, 9)]);
}

#[test]
fn open_string() {
    let input = r#"
a = [
  "aaa",
  "bb
  "ccc",
]
"#;
    let block = parse(input);
    let errors: Vec<_> = block
        .errors()
        .iter()
        .map(|e| &input[e.span.start..e.span.end])
        .collect();
    assert_eq!(errors, ["\"bb\n", ""]);
}

#[test]
fn comments_attach_to_the_next_statement() {
    let block = parse("# first\n# second\na = 1\nb = 2\n# trailing\n");
    assert_eq!(block.statements.len(), 2);
    match &block.statements[0] {
        Statement::Assignment(a) => {
            assert_eq!(a.comments.lines, vec![b" first".to_vec(), b" second".to_vec()]);
            assert_eq!((a.span.start, a.span.end), (17, 22));
        }
        other => panic!("expected an assignment, got {:?}", other),
    }
    match &block.statements[1] {
        Statement::Assignment(a) => assert!(a.comments.lines.is_empty()),
        other => panic!("expected an assignment, got {:?}", other),
    }
}

#[test]
fn binary_operators_bind_by_precedence() {
    // `||` binds loosest, then `&&`, so this is `a || (b && c)`.
    let block = parse("x = a || b && c");
    let rvalue = match &block.statements[0] {
        Statement::Assignment(a) => &a.rvalue,
        other => panic!("expected an assignment, got {:?}", other),
    };
    match &**rvalue {
        Expr::Binary(b) => {
            assert_eq!(b.op, BinaryOp::Or);
            assert_eq!((b.span.start, b.span.end), (4, 15));
            match &*b.rhs {
                Expr::Binary(inner) => {
                    assert_eq!(inner.op, BinaryOp::And);
                    assert_eq!((inner.span.start, inner.span.end), (9, 15));
                }
                other => panic!("expected `b && c`, got {:?}", other),
            }
        }
        other => panic!("expected a binary expression, got {:?}", other),
    }
}

#[test]
fn same_precedence_associates_left() {
    // `1 - 2 + 3` is `(1 - 2) + 3`.
    let block = parse("x = 1 - 2 + 3");
    let rvalue = match &block.statements[0] {
        Statement::Assignment(a) => &a.rvalue,
        other => panic!("expected an assignment, got {:?}", other),
    };
    match &**rvalue {
        Expr::Binary(b) => {
            assert_eq!(b.op, BinaryOp::Add);
            match &*b.lhs {
                Expr::Binary(inner) => assert_eq!(inner.op, BinaryOp::Sub),
                other => panic!("expected `1 - 2`, got {:?}", other),
            }
        }
        other => panic!("expected a binary expression, got {:?}", other),
    }
}

#[test]
fn integer_literals_and_their_limits() {
    let value_of = |input: &str| -> Option<i64> {
        let block = parse(input);
        match &block.statements[0] {
            Statement::Assignment(a) => match &*a.rvalue {
                Expr::Primary(p) => match &**p {
                    PrimaryExpr::Integer(x) => Some(x.value),
                    _ => None,
                },
                _ => None,
            },
            _ => None,
        }
    };
    assert_eq!(value_of("x = 42"), Some(42));
    assert_eq!(value_of("x = -7"), Some(-7));
    assert_eq!(value_of("x = 9223372036854775807"), Some(i64::MAX));
    assert_eq!(value_of("x = -9223372036854775808"), Some(i64::MIN));
    // Too large for 64 bits: the line is not a statement.
    assert_eq!(value_of("x = 9223372036854775808"), None);
    let block = parse("x = 9223372036854775808");
    match &block.statements[0] {
        Statement::Error(e) => assert_eq!(e.error.kind, SyntaxErrorKind::UnknownStatement),
        other => panic!("expected an error statement, got {:?}", other),
    }
}

#[test]
fn string_expansions() {
    let block = parse(r#"x = "$a ${b} ${c.d} \$e""#);
    let rvalue = match &block.statements[0] {
        Statement::Assignment(a) => &a.rvalue,
        other => panic!("expected an assignment, got {:?}", other),
    };
    let exprs = match &**rvalue {
        Expr::Primary(p) => match &**p {
            PrimaryExpr::String(s) => &s.embedded_exprs,
            other => panic!("expected a string, got {:?}", other),
        },
        other => panic!("expected a string, got {:?}", other),
    };
    assert_eq!(exprs.len(), 3);
    let spans: Vec<(usize, usize)> = exprs
        .iter()
        .map(|e| match e {
            Expr::Primary(p) => match &**p {
                PrimaryExpr::Identifier(i) => (i.span.start, i.span.end),
                PrimaryExpr::ScopeAccess(s) => (s.span.start, s.span.end),
                other => panic!("unexpected {:?}", other),
            },
            other => panic!("unexpected {:?}", other),
        })
        .collect();
    assert_eq!(spans, vec![(6, 7), (10, 11), (15, 18)]);
}
