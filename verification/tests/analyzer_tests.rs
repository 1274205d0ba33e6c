use minilang::analyzer::{analyze, is_function_name, Diagnostic, DiagnosticKind, ScopeStack};
use minilang::mtree::MTree;
use minilang::pipeline::parse_source;
use minilang::tokens::TreeCode;

fn findings(source: &str) -> Vec<(DiagnosticKind, String)> {
    let tree = parse_source(source).unwrap();
    analyze(&tree).into_iter().map(|d| (d.kind, d.name)).collect()
}

fn read(name: &str) -> (DiagnosticKind, String) {
    (DiagnosticKind::UseBeforeDeclaration, name.to_string())
}

fn write(name: &str) -> (DiagnosticKind, String) {
    (DiagnosticKind::AssignUndeclared, name.to_string())
}

#[test]
fn declared_names_give_no_diagnostic() {
    assert_eq!(
        findings("func f(a, b) [ let c; c = a + b; if c [ let d; d = c; print d; ] return c; ] func main() [ print f(1, 2); ]"),
        vec![]
    );
}

#[test]
fn undeclared_read_is_reported_by_name() {
    assert_eq!(findings("func main() [ print y; ]"), vec![read("y")]);
    assert_eq!(
        findings("func main() [ print a + b * a; ]"),
        vec![read("a"), read("b"), read("a")]
    );
}

#[test]
fn undeclared_assignment_target_is_reported() {
    assert_eq!(findings("func main() [ x = 1; ]"), vec![write("x")]);
    assert_eq!(findings("func main() [ x = y; ]"), vec![write("x"), read("y")]);
}

#[test]
fn use_before_the_declaration_is_reported() {
    assert_eq!(findings("func main() [ print x; let x; print x; ]"), vec![read("x")]);
}

#[test]
fn a_block_closes_its_scope() {
    assert_eq!(findings("func main() [ [ let x; print x; ] print x; ]"), vec![read("x")]);
    assert_eq!(
        findings("func main() [ if 1 [ let x; ] else [ print x; ] while 1 [ let y; ] y = 1; ]"),
        vec![read("x"), write("y")]
    );
}

#[test]
fn inner_scopes_see_outer_declarations() {
    assert_eq!(
        findings("func main() [ let x; [ [ print x; x = 2; ] ] while x [ if x [ print x; ] ] ]"),
        vec![]
    );
}

#[test]
fn functions_may_be_called_before_their_definition() {
    assert_eq!(
        findings("func main() [ print later(1); ] func later(n) [ return main; ]"),
        vec![]
    );
}

#[test]
fn the_callee_of_a_call_is_not_looked_up() {
    assert_eq!(findings("func main() [ print nowhere(1); ]"), vec![]);
    assert_eq!(findings("func main() [ print nowhere(z); ]"), vec![read("z")]);
}

#[test]
fn parameters_are_local_to_their_function() {
    assert_eq!(
        findings("func f(a) [ print a; ] func g() [ print a; ]"),
        vec![read("a")]
    );
}

#[test]
fn let_declares_before_its_initializer_is_read() {
    assert_eq!(findings("func main() [ let x = x; ]"), vec![]);
    assert_eq!(findings("func main() [ let a = b; ]"), vec![read("b")]);
}

#[test]
fn diagnostic_messages() {
    let d = Diagnostic { kind: DiagnosticKind::UseBeforeDeclaration, name: "v".to_string() };
    assert_eq!(d.message(), "SEMANTIC ERROR: variable `v` used before declaration");
    let d = Diagnostic { kind: DiagnosticKind::AssignUndeclared, name: "w".to_string() };
    assert_eq!(d.message(), "SEMANTIC ERROR: assigning to undeclared variable `w`");
}

#[test]
fn analysis_of_a_bare_identifier() {
    let tree = MTree::new(TreeCode::IDENTIFIER("q".to_string()));
    let d = analyze(&tree);
    assert_eq!(d.len(), 1);
    assert_eq!(d[0].name, "q");
}

#[test]
fn scope_stack_operations() {
    let mut s = ScopeStack::new();
    assert!(!s.is_declared("a"));
    s.declare("a");
    assert!(s.is_declared("a"));
    s.push();
    assert!(s.is_declared("a"));
    s.declare("b");
    s.declare("a");
    assert!(s.is_declared("b"));
    s.pop();
    assert!(s.is_declared("a"));
    assert!(!s.is_declared("b"));
    s.pop();
    assert!(!s.is_declared("a"));
    s.pop();
    s.declare("c");
    assert!(!s.is_declared("c"));
}

#[test]
fn names_of_functions_and_new_variables_are_no_uses() {
    let f = MTree::new(TreeCode::FUNCTION);
    let call = MTree::new(TreeCode::FUNCTION_CALL("f".to_string()));
    let let_node = MTree::new(TreeCode::LET);
    let print = MTree::new(TreeCode::PRINT);
    assert!(is_function_name(&f, 0));
    assert!(!is_function_name(&f, 1));
    assert!(is_function_name(&call, 0));
    assert!(!is_function_name(&call, 1));
    assert!(is_function_name(&let_node, 0));
    assert!(!is_function_name(&print, 0));
}
