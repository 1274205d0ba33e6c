use minilang::evaluator::{binary, truth_value, unary, Frame, Runtime, RuntimeError, Value};
use minilang::mtree::MTree;
use minilang::pipeline::{execute, parse_source, Fatal};
use minilang::tokens::{Op, TreeCode};

fn run(source: &str, fuel: u64) -> (Result<Value, RuntimeError>, Vec<Value>) {
    let tree = parse_source(source).unwrap();
    let mut rt = Runtime::new();
    let r = rt.run_program(&tree, fuel);
    (r, rt.output)
}

fn printed(source: &str) -> Vec<Value> {
    let (r, out) = run(source, 10_000);
    match r {
        Ok(_) => out,
        Err(e) => panic!("{}", e.message()),
    }
}

fn ints(values: &[i64]) -> Vec<Value> {
    values.iter().map(|v| Value::INT(*v)).collect()
}

fn failure(source: &str) -> RuntimeError {
    match run(source, 10_000).0 {
        Ok(_) => panic!("the program ran"),
        Err(e) => e,
    }
}

#[test]
fn binary_arithmetic_exact_values() {
    assert_eq!(binary(Op::ADD, Value::INT(2), Value::INT(3)).unwrap(), Value::INT(5));
    assert_eq!(binary(Op::SUB, Value::INT(2), Value::INT(3)).unwrap(), Value::INT(-1));
    assert_eq!(binary(Op::MUL, Value::INT(-4), Value::INT(3)).unwrap(), Value::INT(-12));
}

#[test]
fn binary_arithmetic_wraps_in_64_bits() {
    assert_eq!(binary(Op::ADD, Value::INT(i64::MAX), Value::INT(1)).unwrap(), Value::INT(i64::MIN));
    assert_eq!(binary(Op::SUB, Value::INT(i64::MIN), Value::INT(1)).unwrap(), Value::INT(i64::MAX));
    assert_eq!(binary(Op::MUL, Value::INT(i64::MAX), Value::INT(2)).unwrap(), Value::INT(-2));
}

#[test]
fn comparisons_give_one_or_zero() {
    assert_eq!(binary(Op::LT, Value::INT(1), Value::INT(2)).unwrap(), Value::INT(1));
    assert_eq!(binary(Op::LT, Value::INT(2), Value::INT(2)).unwrap(), Value::INT(0));
    assert_eq!(binary(Op::GT, Value::INT(3), Value::INT(2)).unwrap(), Value::INT(1));
    assert_eq!(binary(Op::GT, Value::INT(2), Value::INT(2)).unwrap(), Value::INT(0));
    assert_eq!(binary(Op::EQUAL, Value::INT(2), Value::INT(2)).unwrap(), Value::INT(1));
    assert_eq!(binary(Op::EQUAL, Value::INT(2), Value::INT(3)).unwrap(), Value::INT(0));
    assert_eq!(binary(Op::NOT_EQUAL, Value::INT(2), Value::INT(3)).unwrap(), Value::INT(1));
    assert_eq!(binary(Op::NOT_EQUAL, Value::INT(2), Value::INT(2)).unwrap(), Value::INT(0));
}

#[test]
fn logical_operators_take_nonzero_for_true() {
    assert_eq!(binary(Op::AND, Value::INT(5), Value::INT(-1)).unwrap(), Value::INT(1));
    assert_eq!(binary(Op::AND, Value::INT(5), Value::INT(0)).unwrap(), Value::INT(0));
    assert_eq!(binary(Op::OR, Value::INT(0), Value::INT(9)).unwrap(), Value::INT(1));
    assert_eq!(binary(Op::OR, Value::INT(0), Value::INT(0)).unwrap(), Value::INT(0));
}

#[test]
fn unsupported_operators_and_operands() {
    assert!(matches!(
        binary(Op::DIV, Value::INT(6), Value::INT(3)),
        Err(RuntimeError::UnsupportedOperator(Op::DIV))
    ));
    assert!(matches!(
        binary(Op::NOT, Value::INT(6), Value::INT(3)),
        Err(RuntimeError::UnsupportedOperator(Op::NOT))
    ));
    assert!(matches!(
        binary(Op::ADD, Value::VOID, Value::INT(3)),
        Err(RuntimeError::NonIntegerOperand)
    ));
    assert!(matches!(
        binary(Op::DIV, Value::INT(3), Value::FUNC(0)),
        Err(RuntimeError::NonIntegerOperand)
    ));
    assert!(matches!(unary(Op::ADD, Value::INT(3)), Err(RuntimeError::UnsupportedOperator(Op::ADD))));
    assert!(matches!(unary(Op::SUB, Value::VOID), Err(RuntimeError::NonIntegerOperand)));
}

#[test]
fn unary_operators_exact_values() {
    assert_eq!(unary(Op::SUB, Value::INT(5)).unwrap(), Value::INT(-5));
    assert_eq!(unary(Op::SUB, Value::INT(i64::MIN)).unwrap(), Value::INT(i64::MIN));
    assert_eq!(unary(Op::NOT, Value::INT(0)).unwrap(), Value::INT(1));
    assert_eq!(unary(Op::NOT, Value::INT(7)).unwrap(), Value::INT(0));
    assert_eq!(truth_value(true), Value::INT(1));
    assert_eq!(truth_value(false), Value::INT(0));
}

#[test]
fn value_text() {
    assert_eq!(Value::INT(0).text(), "0");
    assert_eq!(Value::INT(-45).text(), "-45");
    assert_eq!(Value::INT(1000).text(), "1000");
    assert_eq!(Value::INT(i64::MAX).text(), "9223372036854775807");
    assert_eq!(Value::INT(i64::MIN).text(), "-9223372036854775808");
    assert_eq!(Value::VOID.text(), "void");
    assert_eq!(Value::FUNC(3).text(), "unknown");
}

#[test]
fn error_messages() {
    assert_eq!(
        RuntimeError::NoMain.message(),
        "Runtime Error: no `main` function found in the program."
    );
    assert_eq!(
        RuntimeError::UndeclaredVariable("v".to_string()).message(),
        "Runtime Error: variable `v` used before declaration"
    );
    assert_eq!(
        RuntimeError::UnknownFunction("g".to_string()).message(),
        "Runtime Error: function `g` not found"
    );
    assert_eq!(
        RuntimeError::UnsupportedOperator(Op::DIV).message(),
        "Runtime Error: unsupported operator `/`"
    );
    assert_eq!(
        RuntimeError::ArgumentCount.message(),
        "Runtime Error: wrong number of arguments in a call"
    );
    assert_eq!(
        RuntimeError::NonIntegerOperand.message(),
        "Runtime Error: operand is not an integer"
    );
    assert_eq!(
        RuntimeError::NonIntegerCondition.message(),
        "Runtime Error: WHILE condition must evaluate to INT"
    );
    assert_eq!(RuntimeError::Malformed.message(), "Runtime Error: malformed syntax tree");
    assert_eq!(RuntimeError::StepLimit.message(), "Runtime Error: step limit reached");
}

#[test]
fn expressions_in_programs() {
    assert_eq!(
        printed("func main() [ print 1 + 2 * 3; print (1 + 2) * 3; print 10 - 2 - 3; print -4; print !0; print !5; ]"),
        ints(&[7, 9, 5, -4, 1, 0])
    );
    assert_eq!(
        printed("func main() [ print 1 < 2; print 2 < 1; print 2 > 1; print 1 == 1; print 1 != 1; print 1 & 0; print 1 | 0; print true; print false; ]"),
        ints(&[1, 0, 1, 1, 0, 0, 1, 1, 0])
    );
}

#[test]
fn let_declares_zero_and_ignores_the_initializer() {
    assert_eq!(printed("func main() [ let x; print x; ]"), ints(&[0]));
    assert_eq!(printed("func main() [ let x = 5; print x; ]"), ints(&[0]));
    assert_eq!(printed("func main() [ let x = 5; x = 6; let x; print x; ]"), ints(&[0]));
}

#[test]
fn if_takes_nonzero_for_true() {
    assert_eq!(
        printed("func main() [ if 7 [ print 1; ] else [ print 2; ] if 0 [ print 3; ] else [ print 4; ] if 0 [ print 5; ] print 6; ]"),
        ints(&[1, 4, 6])
    );
}

#[test]
fn if_takes_a_value_that_is_no_integer_for_false() {
    assert_eq!(
        printed("func v() [ ] func main() [ if v() [ print 1; ] else [ print 2; ] ]"),
        ints(&[2])
    );
}

#[test]
fn while_repeats_until_zero() {
    assert_eq!(
        printed("func main() [ let n; let s; n = 4; while n [ s = s + n; n = n - 1; ] print s; print n; ]"),
        ints(&[10, 0])
    );
    assert_eq!(printed("func main() [ while 0 [ print 1; ] print 2; ]"), ints(&[2]));
}

#[test]
fn return_inside_a_loop_leaves_the_function() {
    assert_eq!(
        printed("func f() [ let n; while 1 [ n = n + 1; if n > 2 [ return n; ] ] print 99; ] func main() [ print f(); ]"),
        ints(&[3])
    );
}

#[test]
fn return_stops_the_enclosing_blocks() {
    assert_eq!(
        printed("func f() [ [ [ return 1; ] print 2; ] print 3; ] func main() [ print f(); print 4; ]"),
        ints(&[1, 4])
    );
}

#[test]
fn function_without_return_yields_void() {
    let (r, out) = run("func f() [ ] func main() [ print f(); ]", 100);
    assert!(matches!(r, Ok(Value::VOID)));
    assert_eq!(out, vec![Value::VOID]);
    let (r, _) = run("func main() [ return 5; ]", 100);
    assert!(matches!(r, Ok(Value::INT(5))));
}

#[test]
fn while_condition_must_be_an_integer() {
    assert!(matches!(
        failure("func v() [ ] func main() [ while v() [ print 1; ] ]"),
        RuntimeError::NonIntegerCondition
    ));
}

#[test]
fn operand_must_be_an_integer() {
    assert!(matches!(
        failure("func v() [ ] func main() [ print 1 + v(); ]"),
        RuntimeError::NonIntegerOperand
    ));
    assert!(matches!(
        failure("func v() [ ] func main() [ print -v(); ]"),
        RuntimeError::NonIntegerOperand
    ));
}

#[test]
fn division_is_an_unsupported_operator() {
    assert!(matches!(
        failure("func main() [ print 6 / 3; ]"),
        RuntimeError::UnsupportedOperator(Op::DIV)
    ));
}

#[test]
fn argument_count_must_match() {
    assert!(matches!(
        failure("func f(a) [ ] func main() [ print f(); ]"),
        RuntimeError::ArgumentCount
    ));
    assert!(matches!(
        failure("func f(a) [ ] func main() [ print f(1, 2); ]"),
        RuntimeError::ArgumentCount
    ));
    assert!(matches!(failure("func main(a) [ ]"), RuntimeError::ArgumentCount));
}

#[test]
fn unknown_function_is_fatal() {
    match failure("func main() [ print 1; print g(2); print 3; ]") {
        RuntimeError::UnknownFunction(name) => assert_eq!(name, "g"),
        other => panic!("{:?}", other),
    }
    let (_, out) = run("func main() [ print 1; print g(2); print 3; ]", 100);
    assert_eq!(out, ints(&[1]));
}

#[test]
fn assignment_to_undeclared_variable_is_fatal() {
    match failure("func main() [ x = 1; ]") {
        RuntimeError::UndeclaredVariable(name) => assert_eq!(name, "x"),
        other => panic!("{:?}", other),
    }
}

#[test]
fn arguments_are_evaluated_left_to_right_before_the_lookup() {
    let (r, out) = run(
        "func p(x) [ print x; return x; ] func main() [ print nothing(p(1), p(2)); ]",
        100,
    );
    assert!(matches!(r, Err(RuntimeError::UnknownFunction(_))));
    assert_eq!(out, ints(&[1, 2]));
}

#[test]
fn reads_do_not_see_the_callers_variables() {
    match failure("func g() [ return x; ] func main() [ let x; x = 1; print g(); ]") {
        RuntimeError::UndeclaredVariable(name) => assert_eq!(name, "x"),
        other => panic!("{:?}", other),
    }
}

#[test]
fn assignment_falls_back_to_the_callers_frame() {
    assert_eq!(
        printed("func set() [ x = 7; return 0; ] func main() [ let x; x = 1; print set(); print x; ]"),
        ints(&[0, 7])
    );
    // the nearest frame that declares the name is written
    assert_eq!(
        printed("func inner() [ x = 5; return 0; ] func outer() [ let x; print inner(); return x; ] func main() [ let x; x = 1; print outer(); print x; ]"),
        ints(&[0, 5, 1])
    );
}

#[test]
fn parameters_shadow_nothing_of_the_caller() {
    assert_eq!(
        printed("func f(x) [ x = x + 1; return x; ] func main() [ let x; x = 10; print f(1); print x; ]"),
        ints(&[2, 10])
    );
}

#[test]
fn a_variable_of_a_block_lives_on_in_the_call() {
    assert_eq!(
        printed("func main() [ if 1 [ let x; x = 3; ] print x; ]"),
        ints(&[3])
    );
}

#[test]
fn expression_statement_has_no_effect() {
    assert_eq!(
        printed("func f() [ print 1; ] func main() [ f(); 1 + 2; print 2; ]"),
        ints(&[2])
    );
}

#[test]
fn the_last_definition_of_a_name_is_called() {
    assert_eq!(
        printed("func f() [ return 1; ] func f() [ return 2; ] func main() [ print f(); ]"),
        ints(&[2])
    );
    let tree = parse_source("func f() [ ] func g() [ ] func f() [ ]").unwrap();
    let mut rt = Runtime::new();
    let _ = rt.run_program(&tree, 10);
    assert_eq!(rt.functions.len(), 3);
    assert_eq!(rt.find("f"), Some(2));
    assert_eq!(rt.find("g"), Some(1));
    assert_eq!(rt.find("h"), None);
}

#[test]
fn mutual_recursion() {
    assert_eq!(
        printed("func even(n) [ if n == 0 [ return 1; ] return odd(n - 1); ] func odd(n) [ if n == 0 [ return 0; ] return even(n - 1); ] func main() [ print even(10); print even(7); ]"),
        ints(&[1, 0])
    );
}

#[test]
fn step_limit_ends_an_endless_loop() {
    let (r, out) = run("func main() [ let n; while 1 [ n = n + 1; print n; ] ]", 3);
    assert!(matches!(r, Err(RuntimeError::StepLimit)));
    assert_eq!(out, ints(&[1, 2, 3, 4]));
}

#[test]
fn step_limit_ends_endless_recursion() {
    let (r, out) = run("func f(n) [ print n; return f(n + 1); ] func main() [ print f(0); ]", 5);
    assert!(matches!(r, Err(RuntimeError::StepLimit)));
    assert_eq!(out, ints(&[0, 1, 2, 3, 4]));
    let (r, _) = run("func f() [ return 1; ] func main() [ print f(); ]", 0);
    assert!(matches!(r, Err(RuntimeError::StepLimit)));
    let (r, out) = run("func f() [ return 1; ] func main() [ print f(); ]", 1);
    assert!(r.is_ok());
    assert_eq!(out, ints(&[1]));
}

#[test]
fn enough_fuel_does_not_change_the_result() {
    let source = "func fact(n) [ if n < 2 [ return 1; ] else [ return n * fact(n - 1); ] ] func main() [ print fact(10); ]";
    let (_, a) = run(source, 10);
    let (_, b) = run(source, 1_000_000);
    assert_eq!(a, ints(&[3628800]));
    assert_eq!(a, b);
}

#[test]
fn frame_declare_get_set() {
    let mut f = Frame::new(None);
    assert_eq!(f.get("x"), None);
    assert!(!f.set("x", Value::INT(1)));
    assert_eq!(f.get("x"), None);
    f.declare("x", Value::INT(1));
    assert_eq!(f.get("x"), Some(Value::INT(1)));
    f.declare("y", Value::VOID);
    f.declare("x", Value::INT(2));
    assert_eq!(f.get("x"), Some(Value::INT(2)));
    assert_eq!(f.get("y"), Some(Value::VOID));
    assert!(f.set("y", Value::INT(9)));
    assert_eq!(f.get("y"), Some(Value::INT(9)));
    assert_eq!(f.get("x"), Some(Value::INT(2)));
}

#[test]
fn frame_chain_reads_locally_and_writes_through() {
    let mut outer = Frame::new(None);
    outer.declare("a", Value::INT(1));
    outer.declare("b", Value::INT(2));
    let mut inner = Frame::new(Some(outer));
    inner.declare("b", Value::INT(20));
    assert_eq!(inner.get("a"), None);
    assert_eq!(inner.get("b"), Some(Value::INT(20)));
    assert!(inner.set("a", Value::INT(10)));
    assert!(inner.set("b", Value::INT(21)));
    assert!(!inner.set("c", Value::INT(3)));
    assert_eq!(inner.get("b"), Some(Value::INT(21)));
    let outer = inner.into_parent().unwrap();
    assert_eq!(outer.get("a"), Some(Value::INT(10)));
    assert_eq!(outer.get("b"), Some(Value::INT(2)));
    assert_eq!(outer.get("c"), None);
    assert!(outer.into_parent().is_none());
}

#[test]
fn frame_enter_and_leave() {
    let mut f = Frame::new(None);
    f.declare("a", Value::INT(1));
    f.enter();
    assert_eq!(f.get("a"), None);
    f.declare("b", Value::INT(2));
    assert!(f.set("a", Value::INT(5)));
    f.leave();
    assert_eq!(f.get("a"), Some(Value::INT(5)));
    assert_eq!(f.get("b"), None);
    f.leave();
    assert_eq!(f.get("a"), Some(Value::INT(5)));
}

#[test]
fn call_function_binds_parameters_and_hands_the_parent_back() {
    let tree = parse_source("func add(a, b) [ total = a + b; return (a + b) * 2; ]").unwrap();
    let mut rt = Runtime::new();
    let mut parent = Frame::new(None);
    parent.declare("total", Value::INT(0));
    let (r, back) =
        rt.call_function(&tree.children[0], vec![Value::INT(3), Value::INT(4)], Some(parent), 10);
    assert_eq!(r.unwrap(), Value::INT(14));
    let back = back.unwrap();
    assert_eq!(back.get("total"), Some(Value::INT(7)));
    assert_eq!(back.get("a"), None);
    let (r, back) = rt.call_function(&tree.children[0], vec![Value::INT(3)], None, 10);
    assert!(matches!(r, Err(RuntimeError::ArgumentCount)));
    assert!(back.is_none());
}

#[test]
fn malformed_trees_fail_without_panic() {
    let mut rt = Runtime::new();
    let mut main = MTree::new(TreeCode::FUNCTION);
    main._push(MTree::new(TreeCode::IDENTIFIER("main".to_string())));
    main._push(MTree::new(TreeCode::PARAM_LIST));
    let mut block = MTree::new(TreeCode::BLOCK);
    block._push(MTree::new(TreeCode::PRINT));
    main._push(block);
    let (r, _) = rt.call_function(&main, Vec::new(), None, 10);
    assert!(matches!(r, Err(RuntimeError::Malformed)));

    let mut no_body = MTree::new(TreeCode::FUNCTION);
    no_body._push(MTree::new(TreeCode::IDENTIFIER("main".to_string())));
    let (r, _) = rt.call_function(&no_body, Vec::new(), None, 10);
    assert!(matches!(r, Err(RuntimeError::Malformed)));

    let mut program = MTree::new(TreeCode::PROGRAM);
    let mut f = MTree::new(TreeCode::FUNCTION);
    f._push(MTree::new(TreeCode::IDENTIFIER("main".to_string())));
    f._push(MTree::new(TreeCode::PARAM_LIST));
    let mut body = MTree::new(TreeCode::BLOCK);
    let mut ret = MTree::new(TreeCode::RETURN);
    ret._push(MTree::new(TreeCode::BLOCK));
    body._push(ret);
    f._push(body);
    program._push(f);
    let mut rt = Runtime::new();
    assert!(matches!(rt.run_program(&program, 10), Err(RuntimeError::Malformed)));
}

#[test]
fn unwrap_block_looks_through_statement_nodes() {
    let rt = Runtime::new();
    let block = MTree::new(TreeCode::BLOCK);
    assert!(matches!(rt.unwrap_block(&block).unwrap().token, TreeCode::BLOCK));
    let mut stmt = MTree::new(TreeCode::STATEMENT);
    let mut inner = MTree::new(TreeCode::STATEMENT);
    let mut b = MTree::new(TreeCode::BLOCK);
    b._push(MTree::new(TreeCode::PRINT));
    inner._push(b);
    stmt._push(inner);
    assert_eq!(rt.unwrap_block(&stmt).unwrap().children.len(), 1);
    assert!(matches!(
        rt.unwrap_block(&MTree::new(TreeCode::STATEMENT)),
        Err(RuntimeError::Malformed)
    ));
    assert!(matches!(rt.unwrap_block(&MTree::new(TreeCode::PRINT)), Err(RuntimeError::Malformed)));
}

#[test]
fn execute_runs_the_whole_pipeline() {
    let done = execute("func main() [ print y; ]", 100);
    assert_eq!(done.diagnostics.len(), 1);
    assert_eq!(done.output.len(), 0);
    assert!(matches!(done.result, Err(Fatal::Evaluation(RuntimeError::UndeclaredVariable(_)))));

    let done = execute("func main() [ let y; y = 4; print y * y; return y; ]", 100);
    assert_eq!(done.diagnostics.len(), 0);
    assert_eq!(done.output, vec![Value::INT(16)]);
    assert!(matches!(done.result, Ok(Value::INT(4))));

    let done = execute("func main() [ print 1 ", 100);
    assert_eq!(done.diagnostics.len(), 0);
    assert_eq!(done.output.len(), 0);
    match done.result {
        Err(e) => {
            assert!(matches!(e, Fatal::Parse(_)));
            assert_eq!(e.message(), "Syntax error: expected ;, but found EOI at row 0, column 0");
        }
        Ok(_) => panic!("the text ran"),
    }
}

#[test]
fn diagnostics_do_not_keep_a_program_from_running() {
    let done = execute("func main() [ if 1 [ let x; x = 3; ] print x; ]", 100);
    assert_eq!(done.diagnostics.len(), 1);
    assert_eq!(done.output, vec![Value::INT(3)]);
    assert!(done.result.is_ok());
}

#[test]
fn parsed_programs_never_fail_as_malformed() {
    let sources = [
        "",
        "func main() [ ]",
        "func main() [ ; ; [ ] [ ; ] ]",
        "func main() [ print f(1); ]",
        "func main(a) [ ]",
        "func main() [ x = 1; ]",
        "func main() [ print 1 / 0; ]",
        "func main() [ print -v(); ] func v() [ ]",
        "func main() [ while v() [ ] ] func v() [ ]",
        "func main() [ while 1 [ ] ]",
        "func main() [ if v() [ ] else [ return !1; ] ] func v() [ return v; ]",
        "func main() [ let a = b; a = a + 1; print a == 1 | a != 1 & a > 0; return main(); ]",
    ];
    for source in sources {
        for fuel in [0u64, 1, 2, 50] {
            let (r, _) = run(source, fuel);
            assert!(!matches!(r, Err(RuntimeError::Malformed)), "{source}");
        }
    }
}

#[test]
fn what_was_printed_stays_printed() {
    let tree = parse_source("func main() [ print 2; print nothing(); ]").unwrap();
    let mut rt = Runtime::new();
    rt.output.push(Value::INT(1));
    let r = rt.run_program(&tree, 10);
    assert!(r.is_err());
    assert_eq!(rt.output, ints(&[1, 2]));
    let second = rt.run_program(&tree, 10);
    assert!(second.is_err());
    assert_eq!(rt.output, ints(&[1, 2, 2]));
    assert_eq!(rt.functions.len(), 2);
}
