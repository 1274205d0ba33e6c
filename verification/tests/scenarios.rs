use minilang::analyzer::{analyze, DiagnosticKind};
use minilang::evaluator::{Runtime, RuntimeError, Value};
use minilang::lexer::Lexer;
use minilang::mtree::MTree;
use minilang::parser::Parser;
use minilang::tokens::{Op, TreeCode};

fn parse_source(source: &str) -> MTree {
    let lexer = Lexer::new(source);
    let mut parser = Parser::new(lexer);
    match parser.parse() {
        Ok(tree) => tree,
        Err(e) => panic!("{}", e.message()),
    }
}

fn parse_expr(source: &str) -> MTree {
    let lexer = Lexer::new(source);
    let mut parser = Parser::new(lexer);
    match parser.parse_expression() {
        Ok(tree) => tree,
        Err(e) => panic!("{}", e.message()),
    }
}

fn is_op(t: &MTree, op: Op) -> bool {
    matches!(t.token, TreeCode::OPERATOR(o) if o == op)
}

fn is_int(t: &MTree, v: i64) -> bool {
    matches!(t.token, TreeCode::INT_LITERAL(i) if i == v)
}

#[test]
fn precedence_multiplication_binds_tighter() {
    let t = parse_expr("1 + 2 * 3");
    assert!(is_op(&t, Op::ADD));
    assert_eq!(t.children.len(), 2);
    assert!(is_int(&t.children[0], 1));
    let right = &t.children[1];
    assert!(is_op(right, Op::MUL));
    assert!(is_int(&right.children[0], 2));
    assert!(is_int(&right.children[1], 3));
}

#[test]
fn precedence_brackets_group() {
    let t = parse_expr("(1 + 2) * 3");
    assert!(is_op(&t, Op::MUL));
    let left = &t.children[0];
    assert!(is_op(left, Op::ADD));
    assert!(is_int(&left.children[0], 1));
    assert!(is_int(&left.children[1], 2));
    assert!(is_int(&t.children[1], 3));
}

#[test]
fn scenario_print_one() {
    let tree = parse_source("func main() [ print 1; ]");
    assert_eq!(analyze(&tree).len(), 0);
    let mut rt = Runtime::new();
    let r = rt.run_program(&tree, 1000);
    assert!(matches!(r, Ok(Value::VOID)));
    assert_eq!(rt.output, vec![Value::INT(1)]);
    assert_eq!(rt.output[0].text(), "1");
}

#[test]
fn scenario_call_with_argument() {
    let tree = parse_source("func f(x) [ return x * 2; ] func main() [ print f(5); ]");
    let mut rt = Runtime::new();
    let r = rt.run_program(&tree, 1000);
    assert!(r.is_ok());
    assert_eq!(rt.output, vec![Value::INT(10)]);
    assert_eq!(rt.output[0].text(), "10");
}

#[test]
fn scenario_let_then_assign() {
    let tree = parse_source("func main() [ let n; n = 5; print n; ]");
    let mut rt = Runtime::new();
    let r = rt.run_program(&tree, 1000);
    assert!(r.is_ok());
    assert_eq!(rt.output, vec![Value::INT(5)]);
}

#[test]
fn scenario_undeclared_use() {
    let tree = parse_source("func main() [ print y; ]");
    let diags = analyze(&tree);
    assert_eq!(diags.len(), 1);
    assert_eq!(diags[0].kind, DiagnosticKind::UseBeforeDeclaration);
    assert_eq!(diags[0].name, "y");
    assert_eq!(diags[0].message(), "SEMANTIC ERROR: variable `y` used before declaration");
    let mut rt = Runtime::new();
    let r = rt.run_program(&tree, 1000);
    match r {
        Err(RuntimeError::UndeclaredVariable(name)) => assert_eq!(name, "y"),
        other => panic!("unexpected result {:?}", other),
    }
    assert_eq!(rt.output.len(), 0);
}

#[test]
fn scenario_recursion_factorial() {
    let tree = parse_source(
        "func fact(n) [ if n < 2 [ return 1; ] else [ return n * fact(n - 1); ] ] func main() [ print fact(5); ]",
    );
    assert_eq!(analyze(&tree).len(), 0);
    let mut rt = Runtime::new();
    let r = rt.run_program(&tree, 1000);
    assert!(r.is_ok());
    assert_eq!(rt.output, vec![Value::INT(120)]);
    assert_eq!(rt.output[0].text(), "120");
}

#[test]
fn missing_main_in_empty_program() {
    let tree = parse_source("");
    let mut rt = Runtime::new();
    let r = rt.run_program(&tree, 1000);
    assert!(matches!(r, Err(RuntimeError::NoMain)));
    assert_eq!(rt.output.len(), 0);
}

#[test]
fn missing_main_with_other_functions() {
    let tree = parse_source("func f() [ print 1; ] func g() [ print 2; ]");
    let mut rt = Runtime::new();
    let r = rt.run_program(&tree, 1000);
    match r {
        Err(e) => assert_eq!(e.message(), "Runtime Error: no `main` function found in the program."),
        Ok(_) => panic!("a program without main ran"),
    }
    assert_eq!(rt.output.len(), 0);
}
