use minilang::mtree::MTree;
use minilang::tokens::{Op, TreeCode};

#[test]
fn new_node_has_no_children() {
    let t = MTree::new(TreeCode::PROGRAM);
    assert!(matches!(t.token, TreeCode::PROGRAM));
    assert_eq!(t.children.len(), 0);
}

#[test]
fn push_adds_the_last_child() {
    let mut t = MTree::new(TreeCode::BLOCK);
    t._push(MTree::new(TreeCode::INT_LITERAL(1)));
    t._push(MTree::new(TreeCode::INT_LITERAL(2)));
    assert_eq!(t.children.len(), 2);
    assert!(matches!(t.children[0].token, TreeCode::INT_LITERAL(1)));
    assert!(matches!(t.children[1].token, TreeCode::INT_LITERAL(2)));
}

#[test]
fn node_string_shows_kind_and_payload() {
    assert_eq!(MTree::new(TreeCode::PROGRAM).node_string(), "PROGRAM");
    assert_eq!(MTree::new(TreeCode::FUNCTION).node_string(), "FUNCTION");
    assert_eq!(MTree::new(TreeCode::PARAM_LIST).node_string(), "PARAM_LIST");
    assert_eq!(MTree::new(TreeCode::PARAMETER).node_string(), "PARAMETER");
    assert_eq!(MTree::new(TreeCode::BLOCK).node_string(), "BLOCK");
    assert_eq!(MTree::new(TreeCode::STATEMENT).node_string(), "STATEMENT");
    assert_eq!(MTree::new(TreeCode::LET).node_string(), "LET");
    assert_eq!(MTree::new(TreeCode::ASSIGN).node_string(), "ASSIGN");
    assert_eq!(MTree::new(TreeCode::IF).node_string(), "IF");
    assert_eq!(MTree::new(TreeCode::WHILE).node_string(), "WHILE");
    assert_eq!(MTree::new(TreeCode::RETURN).node_string(), "RETURN");
    assert_eq!(MTree::new(TreeCode::PRINT).node_string(), "PRINT");
    assert_eq!(
        MTree::new(TreeCode::IDENTIFIER("x".to_string())).node_string(),
        "IDENTIFIER(\"x\")"
    );
    assert_eq!(MTree::new(TreeCode::INT_LITERAL(-7)).node_string(), "INT_LITERAL(-7)");
    assert_eq!(MTree::new(TreeCode::INT_LITERAL(1203)).node_string(), "INT_LITERAL(1203)");
    assert_eq!(MTree::new(TreeCode::BOOL_LITERAL(true)).node_string(), "BOOL_LITERAL(true)");
    assert_eq!(MTree::new(TreeCode::BOOL_LITERAL(false)).node_string(), "BOOL_LITERAL(false)");
    assert_eq!(MTree::new(TreeCode::OPERATOR(Op::NOT_EQUAL)).node_string(), "OPERATOR(\"!=\")");
    assert_eq!(
        MTree::new(TreeCode::FUNCTION_CALL("f".to_string())).node_string(),
        "FUNCTION_CALL(\"f\")"
    );
}

#[test]
fn print_indents_two_spaces_a_level() {
    let mut root = MTree::new(TreeCode::PROGRAM);
    let mut f = MTree::new(TreeCode::FUNCTION);
    f._push(MTree::new(TreeCode::IDENTIFIER("main".to_string())));
    let mut block = MTree::new(TreeCode::BLOCK);
    block._push(MTree::new(TreeCode::STATEMENT));
    f._push(block);
    root._push(f);
    root._push(MTree::new(TreeCode::FUNCTION));
    assert_eq!(
        root.print(),
        vec![
            "PROGRAM",
            "  FUNCTION",
            "    IDENTIFIER(\"main\")",
            "    BLOCK",
            "      STATEMENT",
            "  FUNCTION"
        ]
    );
}

#[test]
fn clone_is_a_deep_copy() {
    let mut root = MTree::new(TreeCode::OPERATOR(Op::ADD));
    root._push(MTree::new(TreeCode::IDENTIFIER("a".to_string())));
    root._push(MTree::new(TreeCode::INT_LITERAL(3)));
    let mut copy = root.clone();
    assert_eq!(copy.print(), root.print());
    copy._push(MTree::new(TreeCode::PRINT));
    assert_eq!(root.children.len(), 2);
    assert_eq!(copy.children.len(), 3);
}

#[test]
fn operator_symbols() {
    let all = [
        (Op::ADD, "+"),
        (Op::SUB, "-"),
        (Op::MUL, "*"),
        (Op::DIV, "/"),
        (Op::EQUAL, "=="),
        (Op::NOT_EQUAL, "!="),
        (Op::LT, "<"),
        (Op::GT, ">"),
        (Op::AND, "&"),
        (Op::OR, "|"),
        (Op::NOT, "!"),
    ];
    for (op, text) in all {
        assert_eq!(op.text(), text);
    }
}
