//! The recursive-descent parser: one function for each construct of the grammar, each
//! computing what the grammar says of the tokens at the cursor.
use crate::grammar::{
    advances, arguments, assign_statement, closing, begins_expression, binary, binary_rest, block,
    block_items, expression, expression_statement, function, if_statement, keyword_statement,
    left, let_statement, level_op, node, parameter, parameter_items, parameter_list,
    prefix_op, primary, print_statement, program, program_items, return_statement, statement, tok,
    unary, while_statement, Parsed,
};
use crate::mtree::{Ast, MTree};
use crate::parser::{error_at, Expected, ParseError, Parser};
use crate::tokens::{Op, TCode, TCodeView, TreeCode, TreeCodeView};
use vstd::prelude::*;

verus! {

/// A block that began at `start` and is complete behind `pos` has taken the tokens up to
/// its closing bracket at least.
pub proof fn lemma_block_items_span(ts: Seq<TCodeView>, start: int, pos: int, so_far: Ast)
    requires
        start <= pos,
    ensures
        block_items(ts, start, pos, so_far) matches Parsed::Done { used, .. } ==> used >= pos + 1
            - start,
    decreases left(ts, pos),
{
    if !(tok(ts, pos) is BRACKET_R) {
        match statement(ts, pos) {
            Parsed::Done { value, used } => {
                if advances(ts, pos, used) {
                    lemma_block_items_span(ts, start, pos + used, so_far.with_child(value));
                }
            },
            Parsed::Failed(_) => {},
        }
    }
}

/// Every statement takes at least one token, so that the parse moves on.
pub proof fn lemma_statement_advances(ts: Seq<TCodeView>, pos: int)
    ensures
        statement(ts, pos) matches Parsed::Done { used, .. } ==> used >= 1 && advances(
            ts,
            pos,
            used,
        ),
{
    if tok(ts, pos) is BRACKET_L {
        lemma_block_items_span(ts, pos, pos + 1, Ast::leaf(TreeCodeView::BLOCK));
    }
}

/// Every function takes at least one token, so that the parse moves on.
pub proof fn lemma_function_advances(ts: Seq<TCodeView>, pos: int)
    ensures
        function(ts, pos) matches Parsed::Done { used, .. } ==> used >= 1 && advances(
            ts,
            pos,
            used,
        ),
{
}

/// The binary operator of the given level that a code writes.
pub fn operator_at_level(level: u8, code: &TCode) -> (op: Option<Op>)
    ensures
        op == level_op(level as int, code@),
{
    match code {
        TCode::OP_OR => if level == 0 {
            Some(Op::OR)
        } else {
            None
        },
        TCode::OP_AND => if level == 1 {
            Some(Op::AND)
        } else {
            None
        },
        TCode::OP_EQUAL => if level == 2 {
            Some(Op::EQUAL)
        } else {
            None
        },
        TCode::OP_NOT_EQUAL => if level == 2 {
            Some(Op::NOT_EQUAL)
        } else {
            None
        },
        TCode::OP_LT => if level == 3 {
            Some(Op::LT)
        } else {
            None
        },
        TCode::OP_GT => if level == 3 {
            Some(Op::GT)
        } else {
            None
        },
        TCode::OP_ADD => if level == 4 {
            Some(Op::ADD)
        } else {
            None
        },
        TCode::OP_SUB => if level == 4 {
            Some(Op::SUB)
        } else {
            None
        },
        TCode::OP_MUL => if level == 5 {
            Some(Op::MUL)
        } else {
            None
        },
        TCode::OP_DIV => if level == 5 {
            Some(Op::DIV)
        } else {
            None
        },
        _ => None,
    }
}

/// The unary operator that a code writes.
pub fn prefix_operator(code: &TCode) -> (op: Option<Op>)
    ensures
        op == prefix_op(code@),
{
    match code {
        TCode::OP_NOT => Some(Op::NOT),
        TCode::OP_SUB => Some(Op::SUB),
        _ => None,
    }
}

/// Tells whether a code may begin an expression.
pub fn code_begins_expression(code: &TCode) -> (b: bool)
    ensures
        b == begins_expression(code@),
{
    match code {
        TCode::ID(_) => true,
        TCode::INT(_) => true,
        TCode::BOOL(_) => true,
        TCode::PAREN_L => true,
        TCode::OP_NOT => true,
        TCode::OP_SUB => true,
        _ => false,
    }
}

/// A leaf that holds an identifier.
fn identifier(name: String) -> (t: MTree)
    ensures
        t@ == Ast::leaf(TreeCodeView::IDENTIFIER(name@)),
{
    MTree::new(TreeCode::IDENTIFIER(name))
}

impl Parser {
    /// After a parse from `before` that the grammar describes by `p`, the parser is `self`
    /// and `r` was returned: on success `r` holds the tree and the cursor has passed the
    /// tokens used; on failure `r` holds the error and the cursor is on the token that
    /// did not fit.
    pub open spec fn yields(&self, before: &Parser, r: Result<MTree, ParseError>, p: Parsed<Ast>) -> bool {
        &&& self.continues(before)
        &&& match p {
            Parsed::Done { value, used } => {
                &&& r matches Ok(tree)
                &&& tree@ == value
                &&& self.cursor() == before.cursor() + used
            },
            Parsed::Failed(f) => {
                &&& r matches Err(e)
                &&& e@ == error_at(before.views(), f)
                &&& self.cursor() == f.at
            },
        }
    }

    /// As `yields`, for a parse that adds the tree to a node as its last child: on success
    /// the node has gained the child, on failure it is as it was.
    pub open spec fn extends(
        &self,
        before: &Parser,
        r: Result<(), ParseError>,
        parent: Ast,
        parent_after: Ast,
        p: Parsed<Ast>,
    ) -> bool {
        &&& self.continues(before)
        &&& match p {
            Parsed::Done { value, used } => {
                &&& r is Ok
                &&& parent_after == parent.with_child(value)
                &&& self.cursor() == before.cursor() + used
            },
            Parsed::Failed(f) => {
                &&& r matches Err(e)
                &&& e@ == error_at(before.views(), f)
                &&& self.cursor() == f.at
                &&& parent_after == parent
            },
        }
    }

    /// `program = { function } EOI`
    ///
    /// Parses a whole program and returns its root.
    pub fn parse(&mut self) -> (r: Result<MTree, ParseError>)
        requires
            old(self).wf(),
        ensures
            final(self).yields(old(self), r, program(old(self).codes(), old(self).cursor())),
    {
        let mut root = MTree::new(TreeCode::PROGRAM);
        let ghost ts = self.codes();
        let ghost start = self.cursor();
        loop
            invariant
                self.continues(old(self)),
                ts == old(self).codes(),
                start == old(self).cursor(),
                start <= self.cursor(),
                program(ts, start) == program_items(ts, start, self.cursor(), root@),
            decreases left(ts, self.cursor()),
        {
            match self.curr() {
                TCode::KW_FUNC => {
                    match self.parse_func(&mut root) {
                        Ok(()) => {},
                        Err(e) => {
                            return Err(e);
                        },
                    }
                },
                TCode::EOI => {
                    return Ok(root);
                },
                _ => {
                    return Err(self.error(Expected::FunctionOrEnd));
                },
            }
        }
    }

    /// `function = "func" ID "(" [ ID { "," ID } ] ")" block`
    pub fn parse_func(&mut self, ast_node: &mut MTree) -> (r: Result<(), ParseError>)
        requires
            old(self).wf(),
        ensures
            final(self).extends(
                old(self),
                r,
                old(ast_node)@,
                final(ast_node)@,
                function(old(self).codes(), old(self).cursor()),
            ),
    {
        match self.expect(TCode::KW_FUNC) {
            Ok(()) => {},
            Err(e) => {
                return Err(e);
            },
        }
        let mut func_node = MTree::new(TreeCode::FUNCTION);
        let name = match self.expect_id() {
            Ok(name) => name,
            Err(e) => {
                return Err(e);
            },
        };
        func_node._push(identifier(name));
        match self.expect(TCode::PAREN_L) {
            Ok(()) => {},
            Err(e) => {
                return Err(e);
            },
        }
        match self.parse_parameter_list(&mut func_node) {
            Ok(()) => {},
            Err(e) => {
                return Err(e);
            },
        }
        match self.expect(TCode::PAREN_R) {
            Ok(()) => {},
            Err(e) => {
                return Err(e);
            },
        }
        match self.parse_block_nest(&mut func_node) {
            Ok(()) => {},
            Err(e) => {
                return Err(e);
            },
        }
        assert(func_node@.children =~= seq![
            func_node@.children[0],
            func_node@.children[1],
            func_node@.children[2],
        ]);
        ast_node._push(func_node);
        Ok(())
    }

    /// `[ ID { "," ID } ]`
    pub fn parse_parameter_list(&mut self, ast_node: &mut MTree) -> (r: Result<(), ParseError>)
        requires
            old(self).wf(),
        ensures
            final(self).extends(
                old(self),
                r,
                old(ast_node)@,
                final(ast_node)@,
                parameter_list(old(self).codes(), old(self).cursor()),
            ),
    {
        let mut param_list_node = MTree::new(TreeCode::PARAM_LIST);
        if self.peek(&TCode::PAREN_R) {
            ast_node._push(param_list_node);
            return Ok(());
        }
        let ghost ts = self.codes();
        let ghost start = self.cursor();
        loop
            invariant
                self.continues(old(self)),
                ts == old(self).codes(),
                start == old(self).cursor(),
                start <= self.cursor(),
                *ast_node == *old(ast_node),
                parameter_list(ts, start) == parameter_items(
                    ts,
                    start,
                    self.cursor(),
                    param_list_node@,
                ),
            decreases left(ts, self.cursor()),
        {
            match self.parse_parameter(&mut param_list_node) {
                Ok(()) => {},
                Err(e) => {
                    return Err(e);
                },
            }
            if !self.accept(TCode::COMMA) {
                ast_node._push(param_list_node);
                return Ok(());
            }
        }
    }

    /// One parameter of a function.
    pub fn parse_parameter(&mut self, ast_node: &mut MTree) -> (r: Result<(), ParseError>)
        requires
            old(self).wf(),
        ensures
            final(self).extends(
                old(self),
                r,
                old(ast_node)@,
                final(ast_node)@,
                parameter(old(self).codes(), old(self).cursor()),
            ),
    {
        let mut param_node = MTree::new(TreeCode::PARAMETER);
        let name = match self.expect_id() {
            Ok(name) => name,
            Err(e) => {
                return Err(e);
            },
        };
        param_node._push(identifier(name));
        assert(param_node@.children =~= seq![param_node@.children[0]]);
        ast_node._push(param_node);
        Ok(())
    }

    /// `block = "[" { statement } "]"`
    pub fn parse_block_nest(&mut self, ast_node: &mut MTree) -> (r: Result<(), ParseError>)
        requires
            old(self).wf(),
        ensures
            final(self).extends(
                old(self),
                r,
                old(ast_node)@,
                final(ast_node)@,
                block(old(self).codes(), old(self).cursor()),
            ),
        decreases left(old(self).codes(), old(self).cursor()), 1int,
    {
        let mut block_node = MTree::new(TreeCode::BLOCK);
        match self.expect(TCode::BRACKET_L) {
            Ok(()) => {},
            Err(e) => {
                return Err(e);
            },
        }
        let ghost ts = self.codes();
        let ghost start = old(self).cursor();
        loop
            invariant
                self.continues(old(self)),
                ts == old(self).codes(),
                start == old(self).cursor(),
                start < self.cursor(),
                left(ts, self.cursor()) < left(ts, start),
                *ast_node == *old(ast_node),
                block(ts, start) == block_items(ts, start, self.cursor(), block_node@),
            decreases left(ts, self.cursor()),
        {
            if self.accept(TCode::BRACKET_R) {
                ast_node._push(block_node);
                return Ok(());
            }
            proof {
                lemma_statement_advances(ts, self.cursor());
            }
            match self.parse_statement(&mut block_node) {
                Ok(()) => {},
                Err(e) => {
                    return Err(e);
                },
            }
        }
    }

    /// A statement, of the kind that its first token announces.
    pub fn parse_statement(&mut self, ast_node: &mut MTree) -> (r: Result<(), ParseError>)
        requires
            old(self).wf(),
        ensures
            final(self).extends(
                old(self),
                r,
                old(ast_node)@,
                final(ast_node)@,
                statement(old(self).codes(), old(self).cursor()),
            ),
        decreases left(old(self).codes(), old(self).cursor()), 2int,
    {
        let mut statement_node = MTree::new(TreeCode::STATEMENT);
        let ghost empty = tok(self.codes(), self.cursor()) is SEMICOLON;
        let r = match self.curr() {
            TCode::KW_RETURN => self.parse_return_statement(&mut statement_node),
            TCode::KW_LET => self.parse_let_statement(&mut statement_node),
            TCode::KW_IF => self.parse_if_statement(&mut statement_node),
            TCode::KW_PRINT => self.parse_print_statement(&mut statement_node),
            TCode::KW_WHILE => self.parse_while_statement(&mut statement_node),
            TCode::BRACKET_L => self.parse_block_nest(&mut statement_node),
            TCode::ID(_) => {
                if self.peek_next().code == TCode::OP_ASSIGN {
                    self.parse_assign_statement(&mut statement_node)
                } else {
                    self.parse_expression_statement(&mut statement_node)
                }
            },
            TCode::SEMICOLON => {
                self.advance();
                Ok(())
            },
            other => {
                if code_begins_expression(other) {
                    self.parse_expression_statement(&mut statement_node)
                } else {
                    Err(self.error(Expected::Statement))
                }
            },
        };
        match r {
            Ok(()) => {
                proof {
                    if !empty {
                        assert(statement_node@.children =~= seq![statement_node@.children[0]]);
                    }
                }
                ast_node._push(statement_node);
                Ok(())
            },
            Err(e) => Err(e),
        }
    }

    /// A keyword, an expression and a semicolon.
    fn parse_keyword_statement(
        &mut self,
        ast_node: &mut MTree,
        keyword: TCode,
        code: TreeCode,
    ) -> (r: Result<(), ParseError>)
        requires
            old(self).wf(),
            !(keyword@ is EOI),
        ensures
            final(self).extends(
                old(self),
                r,
                old(ast_node)@,
                final(ast_node)@,
                keyword_statement(old(self).codes(), old(self).cursor(), keyword@, code@),
            ),
    {
        let mut stmt_node = MTree::new(code);
        match self.expect(keyword) {
            Ok(()) => {},
            Err(e) => {
                return Err(e);
            },
        }
        let expr_node = match self.parse_expression() {
            Ok(tree) => tree,
            Err(e) => {
                return Err(e);
            },
        };
        stmt_node._push(expr_node);
        match self.expect(TCode::SEMICOLON) {
            Ok(()) => {},
            Err(e) => {
                return Err(e);
            },
        }
        assert(stmt_node@.children =~= seq![stmt_node@.children[0]]);
        ast_node._push(stmt_node);
        Ok(())
    }

    /// `return = "return" expression ";"`
    pub fn parse_return_statement(&mut self, ast_node: &mut MTree) -> (r: Result<(), ParseError>)
        requires
            old(self).wf(),
        ensures
            final(self).extends(
                old(self),
                r,
                old(ast_node)@,
                final(ast_node)@,
                return_statement(old(self).codes(), old(self).cursor()),
            ),
    {
        self.parse_keyword_statement(ast_node, TCode::KW_RETURN, TreeCode::RETURN)
    }

    /// `print = "print" expression ";"`
    pub fn parse_print_statement(&mut self, ast_node: &mut MTree) -> (r: Result<(), ParseError>)
        requires
            old(self).wf(),
        ensures
            final(self).extends(
                old(self),
                r,
                old(ast_node)@,
                final(ast_node)@,
                print_statement(old(self).codes(), old(self).cursor()),
            ),
    {
        self.parse_keyword_statement(ast_node, TCode::KW_PRINT, TreeCode::PRINT)
    }

    /// `let = "let" ID [ "=" expression ] ";"`
    pub fn parse_let_statement(&mut self, ast_node: &mut MTree) -> (r: Result<(), ParseError>)
        requires
            old(self).wf(),
        ensures
            final(self).extends(
                old(self),
                r,
                old(ast_node)@,
                final(ast_node)@,
                let_statement(old(self).codes(), old(self).cursor()),
            ),
    {
        let mut let_node = MTree::new(TreeCode::LET);
        match self.expect(TCode::KW_LET) {
            Ok(()) => {},
            Err(e) => {
                return Err(e);
            },
        }
        let name = match self.expect_id() {
            Ok(name) => name,
            Err(e) => {
                return Err(e);
            },
        };
        let_node._push(identifier(name));
        assert(let_node@.children =~= seq![let_node@.children[0]]);
        if self.accept(TCode::OP_ASSIGN) {
            let expr_node = match self.parse_expression() {
                Ok(tree) => tree,
                Err(e) => {
                    return Err(e);
                },
            };
            let_node._push(expr_node);
        }
        match self.expect(TCode::SEMICOLON) {
            Ok(()) => {},
            Err(e) => {
                return Err(e);
            },
        }
        ast_node._push(let_node);
        Ok(())
    }

    /// `if = "if" expression block [ "else" block ]`
    pub fn parse_if_statement(&mut self, ast_node: &mut MTree) -> (r: Result<(), ParseError>)
        requires
            old(self).wf(),
        ensures
            final(self).extends(
                old(self),
                r,
                old(ast_node)@,
                final(ast_node)@,
                if_statement(old(self).codes(), old(self).cursor()),
            ),
        decreases left(old(self).codes(), old(self).cursor()), 1int,
    {
        let mut if_node = MTree::new(TreeCode::IF);
        match self.expect(TCode::KW_IF) {
            Ok(()) => {},
            Err(e) => {
                return Err(e);
            },
        }
        let expr_node = match self.parse_expression() {
            Ok(tree) => tree,
            Err(e) => {
                return Err(e);
            },
        };
        if_node._push(expr_node);
        match self.parse_block_nest(&mut if_node) {
            Ok(()) => {},
            Err(e) => {
                return Err(e);
            },
        }
        assert(if_node@.children =~= seq![if_node@.children[0], if_node@.children[1]]);
        if self.accept(TCode::KW_ELSE) {
            match self.parse_block_nest(&mut if_node) {
                Ok(()) => {},
                Err(e) => {
                    return Err(e);
                },
            }
        }
        ast_node._push(if_node);
        Ok(())
    }

    /// `while = "while" expression block`
    pub fn parse_while_statement(&mut self, ast_node: &mut MTree) -> (r: Result<(), ParseError>)
        requires
            old(self).wf(),
        ensures
            final(self).extends(
                old(self),
                r,
                old(ast_node)@,
                final(ast_node)@,
                while_statement(old(self).codes(), old(self).cursor()),
            ),
        decreases left(old(self).codes(), old(self).cursor()), 1int,
    {
        let mut while_node = MTree::new(TreeCode::WHILE);
        match self.expect(TCode::KW_WHILE) {
            Ok(()) => {},
            Err(e) => {
                return Err(e);
            },
        }
        let expr_node = match self.parse_expression() {
            Ok(tree) => tree,
            Err(e) => {
                return Err(e);
            },
        };
        while_node._push(expr_node);
        match self.parse_block_nest(&mut while_node) {
            Ok(()) => {},
            Err(e) => {
                return Err(e);
            },
        }
        assert(while_node@.children =~= seq![while_node@.children[0], while_node@.children[1]]);
        ast_node._push(while_node);
        Ok(())
    }

    /// `assign = ID "=" expression ";"`
    pub fn parse_assign_statement(&mut self, ast_node: &mut MTree) -> (r: Result<(), ParseError>)
        requires
            old(self).wf(),
        ensures
            final(self).extends(
                old(self),
                r,
                old(ast_node)@,
                final(ast_node)@,
                assign_statement(old(self).codes(), old(self).cursor()),
            ),
    {
        let mut assign_node = MTree::new(TreeCode::ASSIGN);
        let name = match self.expect_id() {
            Ok(name) => name,
            Err(e) => {
                return Err(e);
            },
        };
        assign_node._push(identifier(name));
        match self.expect(TCode::OP_ASSIGN) {
            Ok(()) => {},
            Err(e) => {
                return Err(e);
            },
        }
        let expr_node = match self.parse_expression() {
            Ok(tree) => tree,
            Err(e) => {
                return Err(e);
            },
        };
        assign_node._push(expr_node);
        match self.expect(TCode::SEMICOLON) {
            Ok(()) => {},
            Err(e) => {
                return Err(e);
            },
        }
        assert(assign_node@.children =~= seq![assign_node@.children[0], assign_node@.children[1]]);
        ast_node._push(assign_node);
        Ok(())
    }

    /// `expr_stmt = expression ";"`
    pub fn parse_expression_statement(&mut self, ast_node: &mut MTree) -> (r: Result<
        (),
        ParseError,
    >)
        requires
            old(self).wf(),
        ensures
            final(self).extends(
                old(self),
                r,
                old(ast_node)@,
                final(ast_node)@,
                expression_statement(old(self).codes(), old(self).cursor()),
            ),
    {
        let expr_node = match self.parse_expression() {
            Ok(tree) => tree,
            Err(e) => {
                return Err(e);
            },
        };
        match self.expect(TCode::SEMICOLON) {
            Ok(()) => {},
            Err(e) => {
                return Err(e);
            },
        }
        ast_node._push(expr_node);
        Ok(())
    }

    /// `expression = logic_or`
    pub fn parse_expression(&mut self) -> (r: Result<MTree, ParseError>)
        requires
            old(self).wf(),
        ensures
            final(self).yields(old(self), r, expression(old(self).codes(), old(self).cursor())),
        decreases left(old(self).codes(), old(self).cursor()), 30int,
    {
        self.parse_logic_or()
    }

    /// `logic_or = logic_and { "|" logic_and }`
    fn parse_logic_or(&mut self) -> (r: Result<MTree, ParseError>)
        requires
            old(self).wf(),
        ensures
            final(self).yields(old(self), r, binary(old(self).codes(), old(self).cursor(), 0)),
        decreases left(old(self).codes(), old(self).cursor()), 29int,
    {
        self.parse_binary(0)
    }

    /// `logic_and = equality { "&" equality }`
    fn parse_logic_and(&mut self) -> (r: Result<MTree, ParseError>)
        requires
            old(self).wf(),
        ensures
            final(self).yields(old(self), r, binary(old(self).codes(), old(self).cursor(), 1)),
        decreases left(old(self).codes(), old(self).cursor()), 25int,
    {
        self.parse_binary(1)
    }

    /// `equality = relational { ("==" | "!=") relational }`
    fn parse_equality(&mut self) -> (r: Result<MTree, ParseError>)
        requires
            old(self).wf(),
        ensures
            final(self).yields(old(self), r, binary(old(self).codes(), old(self).cursor(), 2)),
        decreases left(old(self).codes(), old(self).cursor()), 21int,
    {
        self.parse_binary(2)
    }

    /// `relational = additive { ("<" | ">") additive }`
    fn parse_relational(&mut self) -> (r: Result<MTree, ParseError>)
        requires
            old(self).wf(),
        ensures
            final(self).yields(old(self), r, binary(old(self).codes(), old(self).cursor(), 3)),
        decreases left(old(self).codes(), old(self).cursor()), 17int,
    {
        self.parse_binary(3)
    }

    /// `additive = multiplicative { ("+" | "-") multiplicative }`
    fn parse_additive(&mut self) -> (r: Result<MTree, ParseError>)
        requires
            old(self).wf(),
        ensures
            final(self).yields(old(self), r, binary(old(self).codes(), old(self).cursor(), 4)),
        decreases left(old(self).codes(), old(self).cursor()), 13int,
    {
        self.parse_binary(4)
    }

    /// `multiplicative = unary { ("*" | "/") unary }`
    fn parse_multiplicative(&mut self) -> (r: Result<MTree, ParseError>)
        requires
            old(self).wf(),
        ensures
            final(self).yields(old(self), r, binary(old(self).codes(), old(self).cursor(), 5)),
        decreases left(old(self).codes(), old(self).cursor()), 9int,
    {
        self.parse_binary(5)
    }

    /// An operand of the operators of `level`: an expression of the next level.
    fn parse_operand(&mut self, level: u8) -> (r: Result<MTree, ParseError>)
        requires
            old(self).wf(),
            level <= 5,
        ensures
            final(self).yields(
                old(self),
                r,
                binary(old(self).codes(), old(self).cursor(), level + 1),
            ),
        decreases left(old(self).codes(), old(self).cursor()), 27 - 4 * level,
    {
        if level == 0 {
            self.parse_logic_and()
        } else if level == 1 {
            self.parse_equality()
        } else if level == 2 {
            self.parse_relational()
        } else if level == 3 {
            self.parse_additive()
        } else if level == 4 {
            self.parse_multiplicative()
        } else {
            self.parse_unary()
        }
    }

    /// The expressions of one level: operands joined by the operators of the level, which
    /// associate to the left.
    fn parse_binary(&mut self, level: u8) -> (r: Result<MTree, ParseError>)
        requires
            old(self).wf(),
            level <= 5,
        ensures
            final(self).yields(
                old(self),
                r,
                binary(old(self).codes(), old(self).cursor(), level as int),
            ),
        decreases left(old(self).codes(), old(self).cursor()), 28 - 4 * level,
    {
        let ghost ts = self.codes();
        let ghost start = self.cursor();
        let mut so_far = match self.parse_operand(level) {
            Ok(tree) => tree,
            Err(e) => {
                return Err(e);
            },
        };
        loop
            invariant
                self.continues(old(self)),
                level <= 5,
                ts == old(self).codes(),
                start == old(self).cursor(),
                start <= self.cursor(),
                left(ts, self.cursor()) <= left(ts, start),
                binary(ts, start, level as int) == binary_rest(
                    ts,
                    start,
                    self.cursor(),
                    level as int,
                    so_far@,
                ),
            decreases left(ts, self.cursor()),
        {
            let op = match operator_at_level(level, self.curr()) {
                Some(op) => op,
                None => {
                    return Ok(so_far);
                },
            };
            self.advance();
            let right = match self.parse_operand(level) {
                Ok(tree) => tree,
                Err(e) => {
                    return Err(e);
                },
            };
            so_far = self.make_binary_op_node(op, so_far, right);
        }
    }

    /// `unary = ("!" | "-") unary | primary`
    fn parse_unary(&mut self) -> (r: Result<MTree, ParseError>)
        requires
            old(self).wf(),
        ensures
            final(self).yields(old(self), r, unary(old(self).codes(), old(self).cursor())),
        decreases left(old(self).codes(), old(self).cursor()), 2int,
    {
        match prefix_operator(self.curr()) {
            Some(op) => {
                self.advance();
                let operand = match self.parse_unary() {
                    Ok(tree) => tree,
                    Err(e) => {
                        return Err(e);
                    },
                };
                let mut op_node = MTree::new(TreeCode::OPERATOR(op));
                op_node._push(operand);
                assert(op_node@.children =~= seq![op_node@.children[0]]);
                Ok(op_node)
            },
            None => self.parse_primary(),
        }
    }

    /// `primary = INT | BOOL | ID [ "(" [ expression { "," expression } ] ")" ] | "(" expression ")"`
    fn parse_primary(&mut self) -> (r: Result<MTree, ParseError>)
        requires
            old(self).wf(),
        ensures
            final(self).yields(old(self), r, primary(old(self).codes(), old(self).cursor())),
        decreases left(old(self).codes(), old(self).cursor()), 1int,
    {
        let current = self.curr().clone();
        match current {
            TCode::INT(value) => {
                self.advance();
                Ok(MTree::new(TreeCode::INT_LITERAL(value)))
            },
            TCode::BOOL(value) => {
                self.advance();
                Ok(MTree::new(TreeCode::BOOL_LITERAL(value)))
            },
            TCode::ID(name) => {
                self.advance();
                if self.accept(TCode::PAREN_L) {
                    let mut call_node = MTree::new(TreeCode::FUNCTION_CALL(name.clone()));
                    call_node._push(identifier(name));
                    assert(call_node@.children =~= seq![call_node@.children[0]]);
                    if !self.peek(&TCode::PAREN_R) {
                        let ghost ts = self.codes();
                        let ghost start = old(self).cursor();
                        let ghost call = call_node@;
                        loop
                            invariant_except_break
                                arguments(ts, start, start + 2, call) == arguments(
                                    ts,
                                    start,
                                    self.cursor(),
                                    call_node@,
                                ),
                            invariant
                                self.continues(old(self)),
                                ts == old(self).codes(),
                                start == old(self).cursor(),
                                start + 2 <= self.cursor(),
                                left(ts, self.cursor()) < left(ts, start),
                                primary(ts, start) == closing(
                                    ts,
                                    start,
                                    arguments(ts, start, start + 2, call),
                                ),
                            ensures
                                self.continues(old(self)),
                                arguments(ts, start, start + 2, call) == (Parsed::Done {
                                    value: call_node@,
                                    used: (self.cursor() - start) as nat,
                                }),
                                start + 2 <= self.cursor(),
                            decreases left(ts, self.cursor()),
                        {
                            let arg = match self.parse_expression() {
                                Ok(tree) => tree,
                                Err(e) => {
                                    return Err(e);
                                },
                            };
                            call_node._push(arg);
                            if !self.accept(TCode::COMMA) {
                                break ;
                            }
                        }
                    }
                    match self.expect(TCode::PAREN_R) {
                        Ok(()) => {},
                        Err(e) => {
                            return Err(e);
                        },
                    }
                    Ok(call_node)
                } else {
                    Ok(identifier(name))
                }
            },
            TCode::PAREN_L => {
                self.advance();
                let inner = match self.parse_expression() {
                    Ok(tree) => tree,
                    Err(e) => {
                        return Err(e);
                    },
                };
                match self.expect(TCode::PAREN_R) {
                    Ok(()) => {},
                    Err(e) => {
                        return Err(e);
                    },
                }
                Ok(inner)
            },
            _ => Err(self.error(Expected::Expression)),
        }
    }

    /// The node of a binary operator over its two operands.
    fn make_binary_op_node(&self, op: Op, left_operand: MTree, right_operand: MTree) -> (t: MTree)
        ensures
            t@ == node(TreeCodeView::OPERATOR(op), seq![left_operand@, right_operand@]),
    {
        let mut op_node = MTree::new(TreeCode::OPERATOR(op));
        op_node._push(left_operand);
        op_node._push(right_operand);
        assert(op_node@.children =~= seq![left_operand@, right_operand@]);
        op_node
    }
}

} // verus!
