use lib::ast::{ASTNode, Type};
use lib::lexer::tokenize;
use lib::parser::{ParseError, Parser};
use lib::token::Token;

fn parse_float(text: String) -> u64 {
    text.parse::<f64>().unwrap().to_bits()
}

fn parser_for(text: &str) -> Parser {
    Parser::new(tokenize(&text.to_string(), &parse_float).unwrap())
}

fn program(text: &str) -> Result<ASTNode, ParseError> {
    parser_for(text).try_parse_program()
}

fn shape(node: &ASTNode) -> String {
    format!("{:?}", node)
}

#[test]
fn parses_a_declaration() {
    let ast = program("let x: int = 10;").unwrap();
    assert_eq!(
        shape(&ast),
        "Program([LetDeclaration { identifier: \"x\", var_type: Int, expression: Number(10) }])"
    );
}

#[test]
fn subtraction_groups_from_the_left() {
    let ast = parser_for("a - b - c").parse_expression();
    assert_eq!(
        shape(&ast),
        "BinaryExpression { left: BinaryExpression { left: Identifier(\"a\"), operator: Minus, right: Identifier(\"b\") }, operator: Minus, right: Identifier(\"c\") }"
    );
}

#[test]
fn products_bind_tighter_than_sums() {
    let ast = parser_for("1 + 2 * 3").parse_expression();
    assert_eq!(
        shape(&ast),
        "BinaryExpression { left: Number(1), operator: Plus, right: BinaryExpression { left: Number(2), operator: Multiply, right: Number(3) } }"
    );
}

#[test]
fn parentheses_group() {
    let ast = parser_for("(1 + 2) * 3").parse_expression();
    assert_eq!(
        shape(&ast),
        "BinaryExpression { left: BinaryExpression { left: Number(1), operator: Plus, right: Number(2) }, operator: Multiply, right: Number(3) }"
    );
}

#[test]
fn declares_and_calls_functions() {
    let ast = program("function add(a, b) { return a + b; } let r: int = add(2, 3);").unwrap();
    assert_eq!(
        shape(&ast),
        "Program([FunctionDeclaration { name: \"add\", parameters: [\"a\", \"b\"], body: [Return { expression: BinaryExpression { left: Identifier(\"a\"), operator: Plus, right: Identifier(\"b\") } }] }, LetDeclaration { identifier: \"r\", var_type: Int, expression: FunctionCall { name: \"add\", arguments: [Number(2), Number(3)] } }])"
    );
}

#[test]
fn parameters_need_no_commas() {
    let ast = program("function f(a b,,c) { return a; }").unwrap();
    assert_eq!(
        shape(&ast),
        "Program([FunctionDeclaration { name: \"f\", parameters: [\"a\", \"b\", \"c\"], body: [Return { expression: Identifier(\"a\") }] }])"
    );
}

#[test]
fn parses_if_and_else() {
    let ast = program("if (x) { let y: int = 1; } Else { let y: int = 2; }").unwrap();
    assert_eq!(
        shape(&ast),
        "Program([IfElse { condition: Identifier(\"x\"), if_branch: [LetDeclaration { identifier: \"y\", var_type: Int, expression: Number(1) }], else_branch: Some([LetDeclaration { identifier: \"y\", var_type: Int, expression: Number(2) }]) }])"
    );
    let ast = program("if (x) { }").unwrap();
    assert_eq!(
        shape(&ast),
        "Program([IfElse { condition: Identifier(\"x\"), if_branch: [], else_branch: None }])"
    );
}

#[test]
fn a_comparison_is_no_condition() {
    let result = program("if (x < y) { let z: int = 1; }");
    match result {
        Err(ParseError::UnexpectedToken { expected, found }) => {
            assert_eq!(expected, Token::RParen);
            assert_eq!(found, Token::Less);
        },
        other => panic!("unexpected {:?}", other),
    }
}

#[test]
fn comparisons_parse_on_their_own() {
    let mut parser = parser_for("1 < 2 == x");
    let ast = parser.parse_comparison_expression();
    assert_eq!(
        shape(&ast),
        "BinaryExpression { left: BinaryExpression { left: Number(1), operator: Less, right: Number(2) }, operator: EqualEqual, right: Identifier(\"x\") }"
    );
    assert_eq!(parser.position(), 5);
}

#[test]
fn a_string_declaration_never_parses() {
    match program("let s: string = \"a\";") {
        Err(ParseError::UnexpectedToken { expected, found }) => {
            assert_eq!(expected, Token::BoolType);
            assert_eq!(found, Token::StringType);
        },
        other => panic!("unexpected {:?}", other),
    }
}

#[test]
fn declaration_errors() {
    assert!(matches!(program("let 1"), Err(ParseError::MissingLetIdentifier)));
    assert!(matches!(program("let x: = 1;"), Err(ParseError::MissingType)));
    assert!(matches!(program("let x: int = ;"), Err(ParseError::UnexpectedFactor)));
    assert!(matches!(program("function (a) {}"), Err(ParseError::MissingFunctionName)));
    assert!(matches!(program("function f(1) {}"), Err(ParseError::MalformedParameters)));
    assert!(matches!(program("function f(a"), Err(ParseError::MalformedParameters)));
    match program("let x int = 1;") {
        Err(ParseError::UnexpectedToken { expected, found }) => {
            assert_eq!(expected, Token::Colon);
            assert_eq!(found, Token::IntType);
        },
        other => panic!("unexpected {:?}", other),
    }
}

#[test]
fn an_expression_statement_leaves_its_semicolon() {
    assert!(matches!(program("f();"), Err(ParseError::UnexpectedFactor)));
    let ast = program("f()").unwrap();
    assert_eq!(shape(&ast), "Program([FunctionCall { name: \"f\", arguments: [] }])");
}

#[test]
fn a_block_stops_at_the_end_of_the_tokens() {
    let mut parser = parser_for("let x: int = 1;");
    let block = parser.parse_block();
    assert_eq!(block.len(), 1);
    assert_eq!(parser.position(), 7);
    assert_eq!(parser.current_token(), Token::Eof);
}

#[test]
fn a_program_is_read_to_the_end() {
    let text = "let x: int = 1; function f(a) { return a; } return f(x);";
    let mut parser = parser_for(text);
    parser.parse_program();
    assert_eq!(parser.current_token(), Token::Eof);
    assert_eq!(parser.position(), tokenize(&text.to_string(), &parse_float).unwrap().len() - 1);
}

#[test]
fn eat_moves_only_on_a_match() {
    let mut parser = parser_for("let x");
    assert!(matches!(parser.try_eat(Token::Function), Err(ParseError::UnexpectedToken { .. })));
    assert_eq!(parser.position(), 0);
    parser.eat(Token::Let);
    assert_eq!(parser.position(), 1);
    parser.eat(Token::Ident("x".to_string()));
    assert_eq!(parser.current_token(), Token::Eof);
}

#[test]
fn the_sample_program_fails_at_its_comparison() {
    let text = "
    let x: int = 10;
    let y: int = 20;

    if (x < y) {
        let z: int = x + y;
    } Else {
        let z: int = x - y;
    }
    ";
    assert!(matches!(program(text), Err(ParseError::UnexpectedToken { .. })));
}

#[test]
fn parses_float_literals_and_types() {
    let ast = program("let f: float = 1.5; let b: bool = 2;").unwrap();
    assert_eq!(
        shape(&ast),
        format!(
            "Program([LetDeclaration {{ identifier: \"f\", var_type: Float, expression: FloatLiteral({}) }}, LetDeclaration {{ identifier: \"b\", var_type: Bool, expression: Number(2) }}])",
            1.5f64.to_bits()
        )
    );
    let _ = Type::Int;
}

#[test]
fn parse_let_declaration_reads_one_declaration() {
    let mut parser = parser_for("let y: float = 1.5; 2");
    let node = parser.parse_let_declaration();
    assert_eq!(
        shape(&node),
        format!("LetDeclaration {{ identifier: \"y\", var_type: Float, expression: FloatLiteral({}) }}", 1.5f64.to_bits())
    );
    assert_eq!(parser.position(), 7);
    let mut parser = parser_for("let x: int = 1");
    assert!(parser.try_parse_let_declaration().is_err());
}

#[test]
fn statement_forms_parse_one_by_one() {
    let mut parser = parser_for("return 2 * x;");
    assert_eq!(
        shape(&parser.parse_return_declaration()),
        "Return { expression: BinaryExpression { left: Number(2), operator: Multiply, right: Identifier(\"x\") } }"
    );
    let mut parser = parser_for("f(1, y)");
    assert_eq!(
        shape(&parser.parse_statement()),
        "FunctionCall { name: \"f\", arguments: [Number(1), Identifier(\"y\")] }"
    );
    let mut parser = parser_for("function g(a) { return a; }");
    assert_eq!(
        shape(&parser.parse_function_declaration()),
        "FunctionDeclaration { name: \"g\", parameters: [\"a\"], body: [Return { expression: Identifier(\"a\") }] }"
    );
    let mut parser = parser_for("if (x) { 1 }");
    assert_eq!(
        shape(&parser.parse_if_statement()),
        "IfElse { condition: Identifier(\"x\"), if_branch: [Number(1)], else_branch: None }"
    );
}

#[test]
fn expression_levels_parse_alone() {
    assert_eq!(shape(&parser_for("7").parse_factor()), "Number(7)");
    assert_eq!(
        shape(&parser_for("6 / 3").parse_term()),
        "BinaryExpression { left: Number(6), operator: Divide, right: Number(3) }"
    );
    assert_eq!(
        shape(&parser_for("1 - 2").parse_additive_expression()),
        "BinaryExpression { left: Number(1), operator: Minus, right: Number(2) }"
    );
    let mut parser = parser_for("h()");
    parser.eat(Token::Ident("h".to_string()));
    assert_eq!(shape(&parser.parse_function_call("h".to_string())), "FunctionCall { name: \"h\", arguments: [] }");
    assert!(parser_for(";").try_parse_factor().is_err());
}
