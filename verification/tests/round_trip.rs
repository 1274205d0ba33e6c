use minilang::lexer::Lexer;
use minilang::mtree::MTree;
use minilang::parser::Parser;
use minilang::pipeline::{parse_source, reparse};
use minilang::printer::{op_token, write_expression, write_program};
use minilang::tokens::{Op, TCode, TLoc, Token, TreeCode};

fn texts(tokens: &[Token]) -> Vec<String> {
    tokens.iter().map(|t| t.code.text()).collect()
}

fn expression_texts(source: &str) -> Vec<String> {
    let mut p = Parser::new(Lexer::new(source));
    let tree = p.parse_expression().unwrap();
    let mut out = Vec::new();
    write_expression(&tree, &mut out);
    texts(&out)
}

fn round_trip(source: &str) {
    let tree = parse_source(source).unwrap();
    let again = match reparse(&tree) {
        Ok(t) => t,
        Err(e) => panic!("{}", e.message()),
    };
    assert_eq!(tree.print(), again.print());
}

#[test]
fn written_tokens_parse_to_the_same_tree() {
    round_trip("");
    round_trip("func main() [ ]");
    round_trip("func main() [ print 1; ]");
    round_trip("func f(x) [ return x * 2; ] func main() [ print f(5); ]");
    round_trip("func fact(n) [ if n < 2 [ return 1; ] else [ return n * fact(n - 1); ] ] func main() [ print fact(5); ]");
    round_trip("func f(a, b, c) [ let x; let y = a + b * c; x = (a + b) * c; ; [ ] [ ; ] while !x [ if x [ ] ] f(1, 2, 3); x; -x; 1 - 2 - 3; 1 - (2 - 3); x == y != (a < b) > c | a & b; g(); g(h(1), -2, !(3)); ]");
}

#[test]
fn written_program_ends_with_end_of_input_and_has_no_locations() {
    let tree = parse_source("func main ( a ) [\n print a ;\n]").unwrap();
    let tokens = write_program(&tree);
    assert_eq!(
        texts(&tokens),
        vec!["FUNC", "ID(\"main\")", "(", "ID(\"a\")", ")", "[", "PRINT", "ID(\"a\")", ";", "]", "EOI"]
    );
    assert!(tokens.iter().all(|t| t.loc == TLoc::empty()));
    assert_eq!(texts(&write_program(&MTree::new(TreeCode::PROGRAM))), vec!["EOI"]);
}

#[test]
fn operands_that_are_no_atoms_are_written_in_brackets() {
    assert_eq!(expression_texts("1 + 2 * 3"), vec!["INT(1)", "+", "(", "INT(2)", "*", "INT(3)", ")"]);
    assert_eq!(expression_texts("(1 + 2) * 3"), vec!["(", "INT(1)", "+", "INT(2)", ")", "*", "INT(3)"]);
    assert_eq!(expression_texts("a"), vec!["ID(\"a\")"]);
    assert_eq!(expression_texts("-f(x, 1)"), vec!["-", "ID(\"f\")", "(", "ID(\"x\")", ",", "INT(1)", ")"]);
    assert_eq!(expression_texts("!-x"), vec!["!", "(", "-", "ID(\"x\")", ")"]);
}

#[test]
fn a_tree_that_is_no_program_does_not_come_back() {
    // an operator node without operands is written with no token
    let mut program = MTree::new(TreeCode::PROGRAM);
    let mut f = MTree::new(TreeCode::FUNCTION);
    f._push(MTree::new(TreeCode::IDENTIFIER("main".to_string())));
    f._push(MTree::new(TreeCode::PARAM_LIST));
    let mut block = MTree::new(TreeCode::BLOCK);
    let mut stmt = MTree::new(TreeCode::STATEMENT);
    let mut print = MTree::new(TreeCode::PRINT);
    print._push(MTree::new(TreeCode::OPERATOR(Op::ADD)));
    stmt._push(print);
    block._push(stmt);
    f._push(block);
    program._push(f);
    assert!(reparse(&program).is_err());
}

#[test]
fn operator_tokens() {
    assert!(matches!(op_token(Op::ADD), TCode::OP_ADD));
    assert!(matches!(op_token(Op::SUB), TCode::OP_SUB));
    assert!(matches!(op_token(Op::MUL), TCode::OP_MUL));
    assert!(matches!(op_token(Op::DIV), TCode::OP_DIV));
    assert!(matches!(op_token(Op::EQUAL), TCode::OP_EQUAL));
    assert!(matches!(op_token(Op::NOT_EQUAL), TCode::OP_NOT_EQUAL));
    assert!(matches!(op_token(Op::LT), TCode::OP_LT));
    assert!(matches!(op_token(Op::GT), TCode::OP_GT));
    assert!(matches!(op_token(Op::AND), TCode::OP_AND));
    assert!(matches!(op_token(Op::OR), TCode::OP_OR));
    assert!(matches!(op_token(Op::NOT), TCode::OP_NOT));
}
