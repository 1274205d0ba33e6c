use minilang::lexer::Lexer;
use minilang::mtree::MTree;
use minilang::parser::{Expected, ParseError, Parser};
use minilang::pipeline::{parse_source, tokenize_source};
use minilang::tokens::{TCode, TLoc, TPos, Token, TreeCode};

fn parser_over(source: &str) -> Parser {
    Parser::new(Lexer::new(source))
}

fn lines(tree: &MTree) -> Vec<String> {
    tree.print()
}

fn program_lines(source: &str) -> Vec<String> {
    match parse_source(source) {
        Ok(tree) => lines(&tree),
        Err(e) => panic!("{}", e.message()),
    }
}

fn expr_lines(source: &str) -> Vec<String> {
    let mut p = parser_over(source);
    match p.parse_expression() {
        Ok(tree) => lines(&tree),
        Err(e) => panic!("{}", e.message()),
    }
}

fn parse_error(source: &str) -> ParseError {
    match parse_source(source) {
        Ok(_) => panic!("the text parsed"),
        Err(e) => e,
    }
}

#[test]
fn empty_program_is_a_bare_root() {
    assert_eq!(program_lines(""), vec!["PROGRAM"]);
    assert_eq!(program_lines("  \n\t "), vec!["PROGRAM"]);
}

#[test]
fn function_has_name_parameters_and_body_in_order() {
    assert_eq!(
        program_lines("func main() [ ]"),
        vec!["PROGRAM", "  FUNCTION", "    IDENTIFIER(\"main\")", "    PARAM_LIST", "    BLOCK"]
    );
    let tree = parse_source("func f(a, b) [ ]").unwrap();
    assert_eq!(tree.children.len(), 1);
    let f = &tree.children[0];
    assert!(matches!(f.token, TreeCode::FUNCTION));
    assert_eq!(f.children.len(), 3);
    assert!(matches!(&f.children[0].token, TreeCode::IDENTIFIER(n) if n == "f"));
    assert!(matches!(f.children[1].token, TreeCode::PARAM_LIST));
    assert!(matches!(f.children[2].token, TreeCode::BLOCK));
    assert_eq!(
        lines(&f.children[1]),
        vec![
            "PARAM_LIST",
            "  PARAMETER",
            "    IDENTIFIER(\"a\")",
            "  PARAMETER",
            "    IDENTIFIER(\"b\")"
        ]
    );
}

#[test]
fn functions_come_in_source_order() {
    let tree = parse_source("func a() [ ] func b() [ ] func c() [ ]").unwrap();
    let names: Vec<String> = tree.children.iter().map(|f| f.children[0].node_string()).collect();
    assert_eq!(names, vec!["IDENTIFIER(\"a\")", "IDENTIFIER(\"b\")", "IDENTIFIER(\"c\")"]);
}

#[test]
fn each_statement_is_wrapped_in_a_statement_node() {
    assert_eq!(
        program_lines("func main() [ let a; let b = 1; a = 2; print a; return b; ; [ ] f(a); ]"),
        vec![
            "PROGRAM",
            "  FUNCTION",
            "    IDENTIFIER(\"main\")",
            "    PARAM_LIST",
            "    BLOCK",
            "      STATEMENT",
            "        LET",
            "          IDENTIFIER(\"a\")",
            "      STATEMENT",
            "        LET",
            "          IDENTIFIER(\"b\")",
            "          INT_LITERAL(1)",
            "      STATEMENT",
            "        ASSIGN",
            "          IDENTIFIER(\"a\")",
            "          INT_LITERAL(2)",
            "      STATEMENT",
            "        PRINT",
            "          IDENTIFIER(\"a\")",
            "      STATEMENT",
            "        RETURN",
            "          IDENTIFIER(\"b\")",
            "      STATEMENT",
            "      STATEMENT",
            "        BLOCK",
            "      STATEMENT",
            "        FUNCTION_CALL(\"f\")",
            "          IDENTIFIER(\"f\")",
            "          IDENTIFIER(\"a\")",
        ]
    );
}

#[test]
fn if_holds_condition_then_block_and_optional_else_block() {
    assert_eq!(
        program_lines("func main() [ if x < 1 [ print 1; ] if true [ ] else [ print 2; ] ]"),
        vec![
            "PROGRAM",
            "  FUNCTION",
            "    IDENTIFIER(\"main\")",
            "    PARAM_LIST",
            "    BLOCK",
            "      STATEMENT",
            "        IF",
            "          OPERATOR(\"<\")",
            "            IDENTIFIER(\"x\")",
            "            INT_LITERAL(1)",
            "          BLOCK",
            "            STATEMENT",
            "              PRINT",
            "                INT_LITERAL(1)",
            "      STATEMENT",
            "        IF",
            "          BOOL_LITERAL(true)",
            "          BLOCK",
            "          BLOCK",
            "            STATEMENT",
            "              PRINT",
            "                INT_LITERAL(2)",
        ]
    );
}

#[test]
fn while_holds_condition_and_body() {
    assert_eq!(
        program_lines("func main() [ while n > 0 [ n = n - 1; ] ]"),
        vec![
            "PROGRAM",
            "  FUNCTION",
            "    IDENTIFIER(\"main\")",
            "    PARAM_LIST",
            "    BLOCK",
            "      STATEMENT",
            "        WHILE",
            "          OPERATOR(\">\")",
            "            IDENTIFIER(\"n\")",
            "            INT_LITERAL(0)",
            "          BLOCK",
            "            STATEMENT",
            "              ASSIGN",
            "                IDENTIFIER(\"n\")",
            "                OPERATOR(\"-\")",
            "                  IDENTIFIER(\"n\")",
            "                  INT_LITERAL(1)",
        ]
    );
}

#[test]
fn identifier_followed_by_assign_is_an_assignment() {
    let tree = parse_source("func main() [ x = 1; x == 1; x; ]").unwrap();
    let body = &tree.children[0].children[2];
    assert!(matches!(body.children[0].children[0].token, TreeCode::ASSIGN));
    assert!(matches!(body.children[1].children[0].token, TreeCode::OPERATOR(_)));
    assert!(matches!(body.children[2].children[0].token, TreeCode::IDENTIFIER(_)));
}

#[test]
fn expression_statement_may_begin_with_any_expression_token() {
    assert!(parse_source("func main() [ 1 + 2; (x); -x; !x; true; ]").is_ok());
}

#[test]
fn binary_operators_associate_to_the_left() {
    assert_eq!(
        expr_lines("1 - 2 - 3"),
        vec![
            "OPERATOR(\"-\")",
            "  OPERATOR(\"-\")",
            "    INT_LITERAL(1)",
            "    INT_LITERAL(2)",
            "  INT_LITERAL(3)",
        ]
    );
}

#[test]
fn precedence_rises_from_or_to_unary() {
    assert_eq!(
        expr_lines("a | b & c == d < e + f * -g"),
        vec![
            "OPERATOR(\"|\")",
            "  IDENTIFIER(\"a\")",
            "  OPERATOR(\"&\")",
            "    IDENTIFIER(\"b\")",
            "    OPERATOR(\"==\")",
            "      IDENTIFIER(\"c\")",
            "      OPERATOR(\"<\")",
            "        IDENTIFIER(\"d\")",
            "        OPERATOR(\"+\")",
            "          IDENTIFIER(\"e\")",
            "          OPERATOR(\"*\")",
            "            IDENTIFIER(\"f\")",
            "            OPERATOR(\"-\")",
            "              IDENTIFIER(\"g\")",
        ]
    );
    assert_eq!(
        expr_lines("a * b + c"),
        vec![
            "OPERATOR(\"+\")",
            "  OPERATOR(\"*\")",
            "    IDENTIFIER(\"a\")",
            "    IDENTIFIER(\"b\")",
            "  IDENTIFIER(\"c\")",
        ]
    );
    assert_eq!(
        expr_lines("a != b / c > d"),
        vec![
            "OPERATOR(\"!=\")",
            "  IDENTIFIER(\"a\")",
            "  OPERATOR(\">\")",
            "    OPERATOR(\"/\")",
            "      IDENTIFIER(\"b\")",
            "      IDENTIFIER(\"c\")",
            "    IDENTIFIER(\"d\")",
        ]
    );
}

#[test]
fn unary_operators_nest() {
    assert_eq!(
        expr_lines("!-x"),
        vec!["OPERATOR(\"!\")", "  OPERATOR(\"-\")", "    IDENTIFIER(\"x\")"]
    );
}

#[test]
fn call_holds_callee_then_arguments() {
    assert_eq!(expr_lines("f()"), vec!["FUNCTION_CALL(\"f\")", "  IDENTIFIER(\"f\")"]);
    assert_eq!(
        expr_lines("f(1, g(x), 2 + 3)"),
        vec![
            "FUNCTION_CALL(\"f\")",
            "  IDENTIFIER(\"f\")",
            "  INT_LITERAL(1)",
            "  FUNCTION_CALL(\"g\")",
            "    IDENTIFIER(\"g\")",
            "    IDENTIFIER(\"x\")",
            "  OPERATOR(\"+\")",
            "    INT_LITERAL(2)",
            "    INT_LITERAL(3)",
        ]
    );
}

#[test]
fn brackets_leave_no_node() {
    assert_eq!(expr_lines("((7))"), vec!["INT_LITERAL(7)"]);
}

#[test]
fn expression_stops_before_what_does_not_continue_it() {
    let mut p = parser_over("1 + 2 ; 3");
    assert!(p.parse_expression().is_ok());
    assert!(matches!(p.curr(), TCode::SEMICOLON));
}

#[test]
fn same_source_gives_the_same_tree() {
    let source = "func f(x) [ if x [ return x * 2; ] else [ while x < 3 [ x = x + 1; ] ] ] func main() [ print f(1); ]";
    assert_eq!(program_lines(source), program_lines(source));
    // positions of the tokens do not matter
    assert_eq!(
        program_lines("func main() [ print 1 + 2; ]"),
        program_lines("func   main ( )\n[\n  print 1\n+ 2 ;\n]\n")
    );
}

#[test]
fn error_expected_symbol() {
    let e = parse_error("func main() [ print 1 ]");
    assert!(matches!(&e.expected, Expected::Symbol(TCode::SEMICOLON)));
    assert!(matches!(e.found, TCode::BRACKET_R));
    assert_eq!(e.loc, TLoc { first: TPos::new(1, 23, 1), last: TPos::new(1, 23, 1) });
    assert_eq!(e.message(), "Syntax error: expected ;, but found ] at row 1, column 23");
}

#[test]
fn error_expected_identifier() {
    let e = parse_error("func 1() [ ]");
    assert!(matches!(e.expected, Expected::Identifier));
    assert!(matches!(e.found, TCode::INT(1)));
    assert_eq!(e.message(), "Syntax error: expected identifier, found INT(1) at row 1, column 6");
    let e = parse_error("func f(a,) [ ]");
    assert!(matches!(e.expected, Expected::Identifier));
    assert!(matches!(e.found, TCode::PAREN_R));
    let e = parse_error("func f() [ let 3; ]");
    assert!(matches!(e.expected, Expected::Identifier));
}

#[test]
fn error_expected_function_or_end() {
    let e = parse_error("print 1;");
    assert!(matches!(e.expected, Expected::FunctionOrEnd));
    assert!(matches!(e.found, TCode::KW_PRINT));
    assert_eq!(
        e.message(),
        "Syntax error: expected function declaration or end of input, found PRINT at row 1, column 1"
    );
    let e = parse_error("func f() [ ] ]");
    assert!(matches!(e.expected, Expected::FunctionOrEnd));
    assert!(matches!(e.found, TCode::BRACKET_R));
}

#[test]
fn error_unexpected_statement_token() {
    let e = parse_error("func f() [ else ]");
    assert!(matches!(e.expected, Expected::Statement));
    assert!(matches!(e.found, TCode::KW_ELSE));
    assert_eq!(
        e.message(),
        "Syntax error: unexpected statement token, found ELSE at row 1, column 12"
    );
    // the end of the input inside a block
    let e = parse_error("func f() [ print 1;");
    assert!(matches!(e.expected, Expected::Statement));
    assert!(matches!(e.found, TCode::EOI));
}

#[test]
fn error_unexpected_token_in_expression() {
    let e = parse_error("func f() [ print ; ]");
    assert!(matches!(e.expected, Expected::Expression));
    assert!(matches!(e.found, TCode::SEMICOLON));
    assert_eq!(
        e.message(),
        "Syntax error: unexpected token in expression: ; at row 1, column 18"
    );
    let e = parse_error("func f() [ x = 1 + ; ]");
    assert!(matches!(e.expected, Expected::Expression));
    let e = parse_error("func f() [ print f(1, ); ]");
    assert!(matches!(e.expected, Expected::Expression));
    assert!(matches!(e.found, TCode::PAREN_R));
}

#[test]
fn error_on_error_token() {
    let e = parse_error("func f() [ print 1 # 2; ]");
    assert!(matches!(&e.expected, Expected::Symbol(TCode::SEMICOLON)));
    assert!(matches!(e.found, TCode::ERROR));
}

#[test]
fn error_missing_brackets() {
    let e = parse_error("func f [ ]");
    assert!(matches!(&e.expected, Expected::Symbol(TCode::PAREN_L)));
    let e = parse_error("func f(a [ ]");
    assert!(matches!(&e.expected, Expected::Symbol(TCode::PAREN_R)));
    let e = parse_error("func f() print 1;");
    assert!(matches!(&e.expected, Expected::Symbol(TCode::BRACKET_L)));
    let e = parse_error("func f() [ print (1; ]");
    assert!(matches!(&e.expected, Expected::Symbol(TCode::PAREN_R)));
    let e = parse_error("func f() [ print g(1; ]");
    assert!(matches!(&e.expected, Expected::Symbol(TCode::PAREN_R)));
    let e = parse_error("func f() [ if 1 print 1; ]");
    assert!(matches!(&e.expected, Expected::Symbol(TCode::BRACKET_L)));
    let e = parse_error("func f() [ while 1 ; ]");
    assert!(matches!(&e.expected, Expected::Symbol(TCode::BRACKET_L)));
    let e = parse_error("func f() [ let x 1; ]");
    assert!(matches!(&e.expected, Expected::Symbol(TCode::SEMICOLON)));
}

#[test]
fn failed_parse_leaves_the_parent_unchanged_and_the_cursor_on_the_token() {
    let mut p = parser_over("return 1 + ;");
    let mut parent = MTree::new(TreeCode::BLOCK);
    let r = p.parse_statement(&mut parent);
    assert!(r.is_err());
    assert_eq!(parent.children.len(), 0);
    assert!(matches!(p.curr(), TCode::SEMICOLON));
}

#[test]
fn parser_basic_operations() {
    let mut p = parser_over("func name ( ");
    assert!(matches!(p.curr(), TCode::KW_FUNC));
    assert!(p.peek(&TCode::KW_FUNC));
    assert!(!p.peek(&TCode::KW_LET));
    assert!(matches!(&p.peek_next().code, TCode::ID(n) if n == "name"));
    assert!(!p.accept(TCode::KW_LET));
    assert!(matches!(p.curr(), TCode::KW_FUNC));
    assert!(p.accept(TCode::KW_FUNC));
    assert!(p.expect(TCode::PAREN_L).is_err());
    assert!(matches!(p.curr(), TCode::ID(_)));
    assert_eq!(p.expect_id().unwrap(), "name");
    assert!(p.expect_id().is_err());
    assert!(p.expect(TCode::PAREN_L).is_ok());
    assert!(matches!(p.curr(), TCode::EOI));
    assert!(matches!(p.peek_next().code, TCode::EOI));
    p.advance();
    p.advance();
    assert!(matches!(p.curr(), TCode::EOI));
    assert!(p.expect(TCode::EOI).is_ok());
    assert!(matches!(p.curr(), TCode::EOI));
}

#[test]
fn parser_from_tokens_adds_the_end_of_input() {
    let mut p = Parser::from_tokens(vec![Token::from(TCode::INT(4))]);
    let t = p.parse_expression().unwrap();
    assert!(matches!(t.token, TreeCode::INT_LITERAL(4)));
    assert!(matches!(p.curr(), TCode::EOI));
    let mut q = Parser::from_tokens(Vec::new());
    assert!(matches!(q.curr(), TCode::EOI));
    assert!(q.parse().is_ok());
    let mut r = Parser::from_tokens(tokenize_source("func main() [ ]"));
    assert_eq!(r.parse().unwrap().children.len(), 1);
}

#[test]
fn public_statement_parsers_attach_to_the_parent() {
    let mut parent = MTree::new(TreeCode::BLOCK);
    let mut p = parser_over("return 1; let x = 2; print x; x = 3; if x [ ] while x [ ] [ ] f");
    assert!(p.parse_return_statement(&mut parent).is_ok());
    assert!(p.parse_let_statement(&mut parent).is_ok());
    assert!(p.parse_print_statement(&mut parent).is_ok());
    assert!(p.parse_assign_statement(&mut parent).is_ok());
    assert!(p.parse_if_statement(&mut parent).is_ok());
    assert!(p.parse_while_statement(&mut parent).is_ok());
    assert!(p.parse_block_nest(&mut parent).is_ok());
    assert!(p.parse_parameter(&mut parent).is_ok());
    let kinds: Vec<String> = parent.children.iter().map(|c| c.node_string()).collect();
    assert_eq!(
        kinds,
        vec!["RETURN", "LET", "PRINT", "ASSIGN", "IF", "WHILE", "BLOCK", "PARAMETER"]
    );
    let mut q = parser_over(") a, b)");
    let mut func = MTree::new(TreeCode::FUNCTION);
    assert!(q.parse_parameter_list(&mut func).is_ok());
    assert_eq!(func.children[0].children.len(), 0);
    assert!(q.expect(TCode::PAREN_R).is_ok());
    assert!(q.parse_parameter_list(&mut func).is_ok());
    assert_eq!(func.children[1].children.len(), 2);
    let mut r = parser_over("func f() [ ]");
    let mut root = MTree::new(TreeCode::PROGRAM);
    assert!(r.parse_func(&mut root).is_ok());
    assert_eq!(root.children.len(), 1);
}

#[test]
fn peek_next_gives_the_token_with_its_location() {
    let mut p = parser_over("let  x");
    assert_eq!(p.peek_next().loc, TLoc { first: TPos::new(1, 6, 1), last: TPos::new(1, 6, 1) });
    p.advance();
    // behind the last token of the text stands the end of input, which has no location
    assert!(matches!(p.peek_next().code, TCode::EOI));
    assert_eq!(p.peek_next().loc, TLoc::empty());
    assert_eq!(TLoc::empty(), TLoc { first: TPos::new(0, 0, 0), last: TPos::new(0, 0, 0) });
}
