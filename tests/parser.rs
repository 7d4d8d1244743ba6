use minilang::ast::{BinaryOperator, Expression, Statement, UnaryOperator};
use minilang::lexer::Lexer;
use minilang::parser::Parser;
use minilang::token::Token;
use minilang::utils::{ParseError, Type};

fn parse(source: &str) -> (Vec<Statement>, Vec<ParseError>) {
    let lexer = Lexer::new(source.to_string());
    let mut parser = Parser::new(lexer);
    let program = parser.parse_program();
    let errors = parser.get_errors().to_vec();
    (program.statements, errors)
}

#[test]
fn parse_assignment() -> Result<(), ParseError> {
    let source = r#"
            var x : int := 1 + 2;
            x := x - 1;
            var yY_1 : string := "hello";
            var Zz2_ : bool;
        "#;
    let lexer = Lexer::new(source.to_string());
    let mut parser = Parser::new(lexer);
    let program = parser.parse_program();
    let expected = vec![
        Statement::NewAssignment(
            "x".to_string(),
            Type::Integer,
            Expression::Binary(
                Box::new(Expression::IntegerConstant(1)),
                BinaryOperator::Plus,
                Box::new(Expression::IntegerConstant(2)),
            ),
        ),
        Statement::Assignment(
            "x".to_string(),
            Expression::Binary(
                Box::new(Expression::Identifier("x".to_string())),
                BinaryOperator::Minus,
                Box::new(Expression::IntegerConstant(1)),
            ),
        ),
        Statement::NewAssignment(
            "yY_1".to_string(),
            Type::String,
            Expression::StringValue("hello".to_string()),
        ),
        Statement::VarInitialization("Zz2_".to_string(), Type::Boolean),
    ];
    assert_eq!(program.statements, expected);
    Ok(())
}

#[test]
fn parse_print() -> Result<(), ParseError> {
    let source = r#"
            print "hello";
            print (1 + 2);
            print !true;
            print 1 + (2 / (3 * 2));
            print 1 = 1;
        "#;
    let lexer = Lexer::new(source.to_string());
    let mut parser = Parser::new(lexer);

    let program = parser.parse_program();
    let expected = vec![
        Statement::Print(Expression::StringValue("hello".to_string())),
        Statement::Print(Expression::Binary(
            Box::new(Expression::IntegerConstant(1)),
            BinaryOperator::Plus,
            Box::new(Expression::IntegerConstant(2)),
        )),
        Statement::Print(Expression::Unary(
            UnaryOperator::Not,
            Box::new(Expression::Boolean(true)),
        )),
        Statement::Print(Expression::Binary(
            Box::new(Expression::IntegerConstant(1)),
            BinaryOperator::Plus,
            Box::new(Expression::Binary(
                Box::new(Expression::IntegerConstant(2)),
                BinaryOperator::Division,
                Box::new(Expression::Binary(
                    Box::new(Expression::IntegerConstant(3)),
                    BinaryOperator::Multiplication,
                    Box::new(Expression::IntegerConstant(2)),
                )),
            )),
        )),
        Statement::Print(Expression::Binary(
            Box::new(Expression::IntegerConstant(1)),
            BinaryOperator::Equals,
            Box::new(Expression::IntegerConstant(1)),
        )),
    ];
    assert_eq!(program.statements, expected);
    Ok(())
}

#[test]
fn parse_for() -> Result<(), ParseError> {
    let source = r#"
            for x in 1..5 do
                print x;
                print "hello";
            end for;
        "#;
    let lexer = Lexer::new(source.to_string());
    let mut parser = Parser::new(lexer);
    let program = parser.parse_program();
    let expected = vec![Statement::For(
        "x".to_string(),
        Expression::IntegerConstant(1),
        Expression::IntegerConstant(5),
        vec![
            Box::new(Statement::Print(Expression::Identifier("x".to_string()))),
            Box::new(Statement::Print(Expression::StringValue(
                "hello".to_string(),
            ))),
        ],
    )];
    println!("{}", expected[0].to_string());
    assert_eq!(program.statements, expected);
    Ok(())
}

#[test]
fn report_error() {
    let source = "print 1);";
    let lexer = Lexer::new(source.to_string());
    let mut parser = Parser::new(lexer);
    parser.parse_program();
    let errors = parser.get_errors();
    assert_eq!(
        true,
        errors.contains(&ParseError::ExpectedSemiColon(Token::RightBracket))
    );
}

#[test]
fn two_malformed_statements_give_two_errors() {
    let (stmts, errors) = parse("print 1); var x int; print 2;");
    assert_eq!(
        errors,
        vec![
            ParseError::ExpectedSemiColon(Token::RightBracket),
            ParseError::ExpectedColon(Token::IntegerType),
        ]
    );
    assert_eq!(stmts, vec![Statement::Print(Expression::IntegerConstant(2))]);
}

#[test]
fn binary_chain_nests_to_the_right() {
    let (stmts, errors) = parse("print 1 + 2 - 3;");
    assert!(errors.is_empty());
    assert_eq!(
        stmts,
        vec![Statement::Print(Expression::Binary(
            Box::new(Expression::IntegerConstant(1)),
            BinaryOperator::Plus,
            Box::new(Expression::Binary(
                Box::new(Expression::IntegerConstant(2)),
                BinaryOperator::Minus,
                Box::new(Expression::IntegerConstant(3)),
            )),
        ))]
    );
}

#[test]
fn negation_covers_the_whole_chain() {
    let (stmts, _) = parse("print !a & b;");
    assert_eq!(
        stmts,
        vec![Statement::Print(Expression::Unary(
            UnaryOperator::Not,
            Box::new(Expression::Binary(
                Box::new(Expression::Identifier("a".to_string())),
                BinaryOperator::And,
                Box::new(Expression::Identifier("b".to_string())),
            )),
        ))]
    );
}

#[test]
fn read_and_assert_statements() {
    let (stmts, errors) = parse("read n; assert (n > 1);");
    assert!(errors.is_empty());
    assert_eq!(
        stmts,
        vec![
            Statement::Read("n".to_string()),
            Statement::Assert(Expression::Binary(
                Box::new(Expression::Identifier("n".to_string())),
                BinaryOperator::GreaterThan,
                Box::new(Expression::IntegerConstant(1)),
            )),
        ]
    );
}

#[test]
fn each_syntax_error_kind() {
    assert_eq!(parse("+;").1[0], ParseError::UnexpectedToken(Token::Plus));
    assert_eq!(parse("var x int;").1[0], ParseError::ExpectedColon(Token::IntegerType));
    assert_eq!(parse("var x : y;").1[0], ParseError::ExpectedTypeDefinition(Token::Identifier("y".to_string())));
    assert_eq!(parse("var x : int 1;").1[0], ParseError::ExpectedAssignment(Token::IntegerConstant("1".to_string())));
    assert_eq!(parse("x = 1;").1[0], ParseError::ExpectedAssignment(Token::Equals));
    assert_eq!(parse("var 1 : int;").1[0], ParseError::ExpectedIdentifier(Token::IntegerConstant("1".to_string())));
    assert_eq!(parse("print ;").1[0], ParseError::ExpectedOperand(Token::SemiColon));
    assert_eq!(parse("print (1;").1[0], ParseError::ExpectedClosingBracket(Token::SemiColon));
    assert_eq!(parse("assert 1;").1[0], ParseError::ExpectedLeftBracket(Token::IntegerConstant("1".to_string())));
    assert_eq!(parse("for i 1..2 do end for;").1[0], ParseError::ExpectedIn(Token::IntegerConstant("1".to_string())));
    assert_eq!(parse("for i in 1..2; end for;").1[0], ParseError::ExpectedDo(Token::SemiColon));
    assert_eq!(parse("for i in 1 2 do end for;").1[0], ParseError::UnexpectedToken(Token::IntegerConstant("2".to_string())));
    assert_eq!(parse("for i in 1;").1[0], ParseError::ExpectedRange(Token::SemiColon));
    assert_eq!(parse("for i in 1..2 do end;").1[0], ParseError::ExpectedFor(Token::SemiColon));
    assert_eq!(
        parse("print 2147483648;").1,
        vec![ParseError::InvalidInteger(Token::IntegerConstant("2147483648".to_string()))]
    );
    assert_eq!(parse("for i in 1..2 print i; end for;").1.len(), 2);
}

#[test]
fn largest_integer_literal_parses() {
    let (stmts, errors) = parse("print 2147483647;");
    assert!(errors.is_empty());
    assert_eq!(stmts, vec![Statement::Print(Expression::IntegerConstant(2147483647))]);
}

#[test]
fn error_messages() {
    assert_eq!(ParseError::ExpectedSemiColon(Token::RightBracket).to_string(), "Expected ; got )");
    assert_eq!(ParseError::UnexpectedToken(Token::Plus).to_string(), "Unexpected token: +");
    assert_eq!(ParseError::ExpectedIn(Token::Do).to_string(), "Expected in keyword got do");
}

#[test]
fn rendered_statements_parse_back() {
    let source = r#"
        var s : string := "a\"b\\c\nd";
        x := !(a & (b = c));
        for i in 1..n do
            print (i * 2) + 1;
            for j in i..3 do assert (j < 3); end for;
        end for;
        read x;
        var b : bool;
    "#;
    let (stmts, errors) = parse(source);
    assert!(errors.is_empty());
    for s in stmts {
        let text = s.to_string();
        let (again, errors) = parse(&text);
        assert!(errors.is_empty(), "{}", text);
        assert_eq!(again, vec![s]);
    }
}

#[test]
fn statement_and_expression_rendering() {
    let (stmts, _) = parse("print 1 + 2 - 3; assert (!x);");
    assert_eq!(stmts[0].to_string(), "print (1 + (2 - 3));");
    assert_eq!(stmts[1].to_string(), "assert ((!x));");
    let e = Expression::StringValue("a\tb".to_string());
    assert_eq!(e.to_string(), "\"a\\tb\"");
    assert_eq!(Expression::IntegerConstant(-17).to_string(), "-17");
    assert_eq!(
        Statement::For("i".to_string(), Expression::IntegerConstant(1), Expression::IntegerConstant(2), vec![]).to_string(),
        "for i in 1..2 do\nend for;"
    );
}
