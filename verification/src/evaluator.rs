//! The evaluator: a tree-walking interpreter over a chain of frames.
//!
//! A run is described by mathematical functions over the tree, the frames and the output
//! written so far. They take a budget: each call of a function and each repetition of a
//! loop spends one unit, and a run that has none left for the next one ends with
//! `RuntimeError::StepLimit`. The executable functions compute exactly what those
//! functions say.
//!
//! Three choices deserve a word:
//! - `let x = e;` declares `x` with the value 0 and does not evaluate `e`. Whether an
//!   initializer should be stored is left open; a program that wants the value assigns it.
//! - A block does not get a frame of its own: a variable declared in a block lives on to
//!   the end of the call, though the analyzer, which scopes by blocks, reports a use of it
//!   behind the block.
//! - A function reads the variables of its own frame alone. The link to the caller's frame
//!   serves assignments: a name that the frame does not declare is written in the nearest
//!   frame of the chain that does.
//!
//! Division is parsed and has no meaning yet: it ends the run as an unsupported operator.
use crate::analyzer::{binder_name, declared_name};
use crate::mtree::{lemma_view_unfold, views_of, Ast, MTree};
use crate::text::str_eq;
use crate::tokens::{Op, TreeCode, TreeCodeView};
use vstd::prelude::*;
use vstd::string::StringExecFns;

verus! {

/// A value at run time. A truth value is the integer 1 or 0. A function reference is the
/// position of the function in the table of the runtime.
#[derive(Debug, Clone, Copy, PartialEq, Eq, Structural)]
pub enum Value {
    INT(i64),
    FUNC(usize),
    VOID,
}

/// A fatal error of a run. Each one ends the run.
#[derive(Debug)]
pub enum RuntimeError {
    /// The program has no function named `main`.
    NoMain,
    /// A variable is read or assigned that no frame within reach declares.
    UndeclaredVariable(String),
    /// A call passes another number of arguments than the function has parameters.
    ArgumentCount,
    /// An operand of an operator is not an integer.
    NonIntegerOperand,
    /// The condition of a loop is not an integer.
    NonIntegerCondition,
    /// A call names a function that the program does not define.
    UnknownFunction(String),
    /// The operator has no meaning for the number of operands it is applied to.
    UnsupportedOperator(Op),
    /// The tree lacks a child that the node needs, or holds a node where it cannot stand.
    Malformed,
    /// The budget of calls and repetitions is spent.
    StepLimit,
}

/// What a `RuntimeError` stands for.
pub ghost enum RuntimeErrorView {
    NoMain,
    UndeclaredVariable(Seq<char>),
    ArgumentCount,
    NonIntegerOperand,
    NonIntegerCondition,
    UnknownFunction(Seq<char>),
    UnsupportedOperator(Op),
    Malformed,
    StepLimit,
}

impl View for RuntimeError {
    type V = RuntimeErrorView;

    open spec fn view(&self) -> RuntimeErrorView {
        match self {
            RuntimeError::NoMain => RuntimeErrorView::NoMain,
            RuntimeError::UndeclaredVariable(name) => RuntimeErrorView::UndeclaredVariable(name@),
            RuntimeError::ArgumentCount => RuntimeErrorView::ArgumentCount,
            RuntimeError::NonIntegerOperand => RuntimeErrorView::NonIntegerOperand,
            RuntimeError::NonIntegerCondition => RuntimeErrorView::NonIntegerCondition,
            RuntimeError::UnknownFunction(name) => RuntimeErrorView::UnknownFunction(name@),
            RuntimeError::UnsupportedOperator(op) => RuntimeErrorView::UnsupportedOperator(*op),
            RuntimeError::Malformed => RuntimeErrorView::Malformed,
            RuntimeError::StepLimit => RuntimeErrorView::StepLimit,
        }
    }
}

impl RuntimeErrorView {
    /// The message that reports the error to a reader.
    pub open spec fn message(self) -> Seq<char> {
        match self {
            RuntimeErrorView::NoMain => "Runtime Error: no `main` function found in the program."@,
            RuntimeErrorView::UndeclaredVariable(name) => "Runtime Error: variable `"@ + name
                + "` used before declaration"@,
            RuntimeErrorView::ArgumentCount =>
                "Runtime Error: wrong number of arguments in a call"@,
            RuntimeErrorView::NonIntegerOperand => "Runtime Error: operand is not an integer"@,
            RuntimeErrorView::NonIntegerCondition =>
                "Runtime Error: WHILE condition must evaluate to INT"@,
            RuntimeErrorView::UnknownFunction(name) => "Runtime Error: function `"@ + name
                + "` not found"@,
            RuntimeErrorView::UnsupportedOperator(op) => "Runtime Error: unsupported operator `"@
                + op.symbol() + "`"@,
            RuntimeErrorView::Malformed => "Runtime Error: malformed syntax tree"@,
            RuntimeErrorView::StepLimit => "Runtime Error: step limit reached"@,
        }
    }
}

impl RuntimeError {
    /// The message that reports the error to a reader.
    pub fn message(&self) -> (s: String)
        ensures
            s@ == self@.message(),
    {
        match self {
            RuntimeError::NoMain => String::from_str(
                "Runtime Error: no `main` function found in the program.",
            ),
            RuntimeError::UndeclaredVariable(name) => {
                let mut s = String::from_str("Runtime Error: variable `");
                s.append(name.as_str());
                s.append("` used before declaration");
                s
            },
            RuntimeError::ArgumentCount => String::from_str(
                "Runtime Error: wrong number of arguments in a call",
            ),
            RuntimeError::NonIntegerOperand => String::from_str(
                "Runtime Error: operand is not an integer",
            ),
            RuntimeError::NonIntegerCondition => String::from_str(
                "Runtime Error: WHILE condition must evaluate to INT",
            ),
            RuntimeError::UnknownFunction(name) => {
                let mut s = String::from_str("Runtime Error: function `");
                s.append(name.as_str());
                s.append("` not found");
                s
            },
            RuntimeError::UnsupportedOperator(op) => {
                let mut s = String::from_str("Runtime Error: unsupported operator `");
                let symbol = op.text();
                s.append(symbol.as_str());
                s.append("`");
                s
            },
            RuntimeError::Malformed => String::from_str("Runtime Error: malformed syntax tree"),
            RuntimeError::StepLimit => String::from_str("Runtime Error: step limit reached"),
        }
    }
}

/// An executable result agrees with a mathematical one when both succeed with the same
/// value or both fail with the same error.
pub open spec fn agrees<T>(r: Result<T, RuntimeError>, expected: Result<T, RuntimeErrorView>) -> bool {
    match r {
        Ok(v) => expected == Ok::<T, RuntimeErrorView>(v),
        Err(e) => expected == Err::<T, RuntimeErrorView>(e@),
    }
}

/// The text that `print` writes for a value: the decimal numeral of an integer, and a
/// marker for the two other kinds.
pub open spec fn value_text(v: Value) -> Seq<char> {
    match v {
        Value::INT(i) => crate::text::decimal(i as int),
        Value::VOID => "void"@,
        Value::FUNC(_) => "unknown"@,
    }
}

impl Value {
    /// The line that `print` writes for this value.
    pub fn text(&self) -> (s: String)
        ensures
            s@ == value_text(*self),
    {
        match self {
            Value::INT(i) => {
                let mut s = String::new();
                crate::text::push_decimal(&mut s, *i);
                assert(s@ =~= crate::text::decimal(*i as int));
                s
            },
            Value::VOID => String::from_str("void"),
            Value::FUNC(_) => String::from_str("unknown"),
        }
    }
}

/// The truth value 1 or 0.
pub open spec fn truth(b: bool) -> Value {
    if b {
        Value::INT(1)
    } else {
        Value::INT(0)
    }
}

/// The result of a binary operator. Both operands must be integers. Arithmetic wraps
/// around in 64 bits; comparisons and the logical operators give 1 or 0, and any integer
/// but 0 counts as true. Division has no meaning here, nor has `!` with two operands.
pub open spec fn apply_binary(op: Op, left: Value, right: Value) -> Result<
    Value,
    RuntimeErrorView,
> {
    match (left, right) {
        (Value::INT(l), Value::INT(r)) => match op {
            Op::ADD => Ok(Value::INT(l.wrapping_add(r))),
            Op::SUB => Ok(Value::INT(l.wrapping_sub(r))),
            Op::MUL => Ok(Value::INT(l.wrapping_mul(r))),
            Op::LT => Ok(truth(l < r)),
            Op::GT => Ok(truth(l > r)),
            Op::EQUAL => Ok(truth(l == r)),
            Op::NOT_EQUAL => Ok(truth(l != r)),
            Op::AND => Ok(truth(l != 0 && r != 0)),
            Op::OR => Ok(truth(l != 0 || r != 0)),
            Op::DIV => Err(RuntimeErrorView::UnsupportedOperator(op)),
            Op::NOT => Err(RuntimeErrorView::UnsupportedOperator(op)),
        },
        _ => Err(RuntimeErrorView::NonIntegerOperand),
    }
}

/// The result of a unary operator: `-` negates, wrapping around in 64 bits, and `!` gives
/// 1 for 0 and 0 for any other integer. The operand must be an integer.
pub open spec fn apply_unary(op: Op, operand: Value) -> Result<Value, RuntimeErrorView> {
    match operand {
        Value::INT(i) => match op {
            Op::SUB => Ok(Value::INT(0i64.wrapping_sub(i))),
            Op::NOT => Ok(truth(i == 0)),
            _ => Err(RuntimeErrorView::UnsupportedOperator(op)),
        },
        _ => Err(RuntimeErrorView::NonIntegerOperand),
    }
}

/// Applies a binary operator to two values.
pub fn binary(op: Op, left: Value, right: Value) -> (r: Result<Value, RuntimeError>)
    ensures
        agrees(r, apply_binary(op, left, right)),
{
    match (left, right) {
        (Value::INT(l), Value::INT(r)) => match op {
            Op::ADD => Ok(Value::INT(l.wrapping_add(r))),
            Op::SUB => Ok(Value::INT(l.wrapping_sub(r))),
            Op::MUL => Ok(Value::INT(l.wrapping_mul(r))),
            Op::LT => Ok(truth_value(l < r)),
            Op::GT => Ok(truth_value(l > r)),
            Op::EQUAL => Ok(truth_value(l == r)),
            Op::NOT_EQUAL => Ok(truth_value(l != r)),
            Op::AND => Ok(truth_value(l != 0 && r != 0)),
            Op::OR => Ok(truth_value(l != 0 || r != 0)),
            Op::DIV => Err(RuntimeError::UnsupportedOperator(op)),
            Op::NOT => Err(RuntimeError::UnsupportedOperator(op)),
        },
        _ => Err(RuntimeError::NonIntegerOperand),
    }
}

/// Applies a unary operator to a value.
pub fn unary(op: Op, operand: Value) -> (r: Result<Value, RuntimeError>)
    ensures
        agrees(r, apply_unary(op, operand)),
{
    match operand {
        Value::INT(i) => match op {
            Op::SUB => Ok(Value::INT(0i64.wrapping_sub(i))),
            Op::NOT => Ok(truth_value(i == 0)),
            _ => Err(RuntimeError::UnsupportedOperator(op)),
        },
        _ => Err(RuntimeError::NonIntegerOperand),
    }
}

/// The truth value 1 or 0.
pub fn truth_value(b: bool) -> (v: Value)
    ensures
        v == truth(b),
{
    if b {
        Value::INT(1)
    } else {
        Value::INT(0)
    }
}

/// A frame as the evaluator sees it: the variables it declares, and the frame it was
/// entered from, if any.
pub ghost struct Scope {
    pub vars: Map<Seq<char>, Value>,
    pub parent: Option<Box<Scope>>,
}

impl Scope {
    /// A frame without variables, entered from `parent`.
    pub open spec fn fresh(parent: Option<Scope>) -> Scope {
        Scope {
            vars: Map::empty(),
            parent: match parent {
                Some(p) => Some(Box::new(p)),
                None => None,
            },
        }
    }

    /// The frame with `name` declared in it and bound to `v`, whatever it was bound to.
    pub open spec fn declare(self, name: Seq<char>, v: Value) -> Scope {
        Scope { vars: self.vars.insert(name, v), parent: self.parent }
    }

    /// The value of `name` in this frame. The frames it was entered from are not searched:
    /// a function does not see the variables of its caller.
    pub open spec fn get(self, name: Seq<char>) -> Option<Value> {
        if self.vars.dom().contains(name) {
            Some(self.vars[name])
        } else {
            None
        }
    }

    /// The chain with `name` bound to `v` in the nearest frame that declares it, searching
    /// outward from this one; `None` where no frame of the chain declares it.
    pub open spec fn set(self, name: Seq<char>, v: Value) -> Option<Scope>
        decreases self,
    {
        if self.vars.dom().contains(name) {
            Some(self.declare(name, v))
        } else {
            match self.parent {
                Some(p) => match p.set(name, v) {
                    Some(q) => Some(Scope { vars: self.vars, parent: Some(Box::new(q)) }),
                    None => None,
                },
                None => None,
            }
        }
    }

    /// The frame that this one was entered from; this frame itself where there is none.
    pub open spec fn leave(self) -> Scope {
        match self.parent {
            Some(p) => *p,
            None => self,
        }
    }

    /// The frame that this one was entered from, if any.
    pub open spec fn outer(self) -> Option<Scope> {
        match self.parent {
            Some(p) => Some(*p),
            None => None,
        }
    }
}

/// One variable of a frame.
struct Binding {
    name: String,
    value: Value,
}

/// The variables that a list of bindings declares. Of two bindings of one name the later
/// one counts.
spec fn vars_of(bindings: Seq<Binding>) -> Map<Seq<char>, Value>
    decreases bindings.len(),
{
    if bindings.len() == 0 {
        Map::empty()
    } else {
        vars_of(bindings.drop_last()).insert(bindings.last().name@, bindings.last().value)
    }
}

/// A name is declared exactly where some binding has it.
proof fn lemma_vars_dom(s: Seq<Binding>, name: Seq<char>)
    ensures
        vars_of(s).dom().contains(name) <==> exists|j: int|
            0 <= j < s.len() && (#[trigger] s[j]).name@ == name,
    decreases s.len(),
{
    if s.len() > 0 {
        lemma_vars_dom(s.drop_last(), name);
        if vars_of(s).dom().contains(name) {
            if s.last().name@ == name {
                assert(s[s.len() - 1].name@ == name);
            } else {
                let j = choose|j: int|
                    0 <= j < s.drop_last().len() && (#[trigger] s.drop_last()[j]).name@ == name;
                assert(s[j].name@ == name);
            }
        }
        if exists|j: int| 0 <= j < s.len() && (#[trigger] s[j]).name@ == name {
            let j = choose|j: int| 0 <= j < s.len() && (#[trigger] s[j]).name@ == name;
            if j < s.len() - 1 {
                assert(s.drop_last()[j].name@ == name);
            }
        }
    }
}

/// The value of a name is that of the last binding that has it.
proof fn lemma_vars_value(s: Seq<Binding>, i: int)
    requires
        0 <= i < s.len(),
        forall|j: int| i < j < s.len() ==> (#[trigger] s[j]).name@ != s[i].name@,
    ensures
        vars_of(s).dom().contains(s[i].name@),
        vars_of(s)[s[i].name@] == s[i].value,
    decreases s.len(),
{
    if i < s.len() - 1 {
        assert(s[s.len() - 1].name@ != s[i].name@);
        assert forall|j: int| i < j < s.drop_last().len() implies (#[trigger] s.drop_last()[j]).name@
            != s.drop_last()[i].name@ by {
            assert(s[j].name@ != s[i].name@);
        }
        lemma_vars_value(s.drop_last(), i);
    }
}

/// Writing the last binding of a name binds the name to the new value.
proof fn lemma_vars_update(s: Seq<Binding>, i: int, v: Value)
    requires
        0 <= i < s.len(),
        forall|j: int| i < j < s.len() ==> (#[trigger] s[j]).name@ != s[i].name@,
    ensures
        vars_of(s.update(i, Binding { name: s[i].name, value: v })) == vars_of(s).insert(
            s[i].name@,
            v,
        ),
    decreases s.len(),
{
    let t = s.update(i, Binding { name: s[i].name, value: v });
    if i == s.len() - 1 {
        assert(t.drop_last() =~= s.drop_last());
        assert(vars_of(t) =~= vars_of(s).insert(s[i].name@, v));
    } else {
        assert(s[s.len() - 1].name@ != s[i].name@);
        assert forall|j: int| i < j < s.drop_last().len() implies (#[trigger] s.drop_last()[j]).name@
            != s.drop_last()[i].name@ by {
            assert(s[j].name@ != s[i].name@);
        }
        lemma_vars_update(s.drop_last(), i, v);
        assert(t.drop_last() =~= s.drop_last().update(i, Binding { name: s[i].name, value: v }));
        assert(vars_of(t) =~= vars_of(s).insert(s[i].name@, v));
    }
}

/// The variables of one function activation, linked to the frame that the function was
/// called from. The link serves assignments only.
pub struct Frame {
    variables: Vec<Binding>,
    parent: Option<Box<Frame>>,
}

impl View for Frame {
    type V = Scope;

    closed spec fn view(&self) -> Scope
        decreases self,
    {
        Scope {
            vars: vars_of(self.variables@),
            parent: match self.parent {
                Some(p) => Some(Box::new((*p).view())),
                None => None,
            },
        }
    }
}

/// The frame that an optional frame stands for.
pub open spec fn frame_view(frame: Option<Frame>) -> Option<Scope> {
    match frame {
        Some(f) => Some(f@),
        None => None,
    }
}

impl Frame {
    /// A frame without variables, linked to `parent`.
    pub fn new(parent: Option<Frame>) -> (f: Frame)
        ensures
            f@ == Scope::fresh(frame_view(parent)),
    {
        let link = match parent {
            Some(p) => Some(Box::new(p)),
            None => None,
        };
        Frame { variables: Vec::new(), parent: link }
    }

    /// The position of the last binding of `name` in this frame.
    fn find(&self, name: &str) -> (r: Option<usize>)
        ensures
            match r {
                Some(i) => i < self.variables@.len() && self.variables@[i as int].name@ == name@
                    && forall|j: int|
                    i < j < self.variables@.len() ==> (#[trigger] self.variables@[j]).name@
                        != name@,
                None => forall|j: int|
                    0 <= j < self.variables@.len() ==> (#[trigger] self.variables@[j]).name@
                        != name@,
            },
    {
        let mut i = self.variables.len();
        while i > 0
            invariant
                i <= self.variables@.len(),
                forall|j: int|
                    i <= j < self.variables@.len() ==> (#[trigger] self.variables@[j]).name@
                        != name@,
            decreases i,
        {
            i -= 1;
            if str_eq(self.variables[i].name.as_str(), name) {
                return Some(i);
            }
        }
        None
    }

    /// Declares `name` in this frame with the value `val`. A name that the frame declares
    /// already gets the new value.
    pub fn declare(&mut self, name: &str, val: Value)
        ensures
            final(self)@ == old(self)@.declare(name@, val),
    {
        match self.find(name) {
            Some(i) => {
                self.variables[i].value = val;
                proof {
                    lemma_vars_update(old(self).variables@, i as int, val);
                    assert(self.variables@ =~= old(self).variables@.update(
                        i as int,
                        Binding { name: old(self).variables@[i as int].name, value: val },
                    ));
                }
            },
            None => {
                self.variables.push(Binding { name: String::from_str(name), value: val });
                assert(self.variables@.drop_last() =~= old(self).variables@);
            },
        }
    }

    /// Assigns `val` to `name` in the nearest frame that declares it, searching outward
    /// from this one. Returns whether a frame declared it; if none did, nothing is changed.
    pub fn set(&mut self, name: &str, val: Value) -> (found: bool)
        ensures
            match old(self)@.set(name@, val) {
                Some(s) => found && final(self)@ == s,
                None => !found && final(self)@ == old(self)@,
            },
        decreases old(self)@,
    {
        proof {
            lemma_vars_dom(self.variables@, name@);
        }
        match self.find(name) {
            Some(i) => {
                self.variables[i].value = val;
                proof {
                    lemma_vars_update(old(self).variables@, i as int, val);
                    assert(self.variables@ =~= old(self).variables@.update(
                        i as int,
                        Binding { name: old(self).variables@[i as int].name, value: val },
                    ));
                }
                true
            },
            None => {
                match &mut self.parent {
                    Some(p) => p.set(name, val),
                    None => false,
                }
            },
        }
    }

    /// The value of `name` in this frame, if the frame declares it. The frames that this
    /// one is linked to are not searched.
    pub fn get(&self, name: &str) -> (r: Option<Value>)
        ensures
            r == self@.get(name@),
    {
        proof {
            lemma_vars_dom(self.variables@, name@);
        }
        match self.find(name) {
            Some(i) => {
                proof {
                    lemma_vars_value(self.variables@, i as int);
                }
                Some(self.variables[i].value)
            },
            None => None,
        }
    }

    /// Enters a new frame: afterwards this is a frame without variables, linked to what it
    /// was before.
    pub fn enter(&mut self)
        ensures
            final(self)@ == Scope::fresh(Some(old(self)@)),
    {
        let mut caller = Frame { variables: Vec::new(), parent: None };
        core::mem::swap(self, &mut caller);
        self.parent = Some(Box::new(caller));
    }

    /// Leaves this frame: afterwards this is the frame it was linked to. A frame without a
    /// link stays as it is.
    pub fn leave(&mut self)
        ensures
            final(self)@ == old(self)@.leave(),
    {
        match self.parent.take() {
            Some(outer) => {
                *self = *outer;
            },
            None => {},
        }
    }

    /// Gives up this frame and hands out the frame it was linked to, if any.
    pub fn into_parent(self) -> (outer: Option<Frame>)
        ensures
            frame_view(outer) == self@.outer(),
    {
        match self.parent {
            Some(p) => Some(*p),
            None => None,
        }
    }
}

/// The state of a run: the current frame with the frames it is linked to, and the values
/// printed so far.
pub ghost struct World {
    pub scope: Scope,
    pub output: Seq<Value>,
}

impl World {
    /// The same output, with another frame.
    pub open spec fn with_scope(self, scope: Scope) -> World {
        World { scope, output: self.output }
    }

    /// The same frames, with one more value printed.
    pub open spec fn print(self, v: Value) -> World {
        World { scope: self.scope, output: self.output.push(v) }
    }
}

/// What a step of a run yields: the state it leaves, and its value or the error that
/// ended the run.
pub ghost struct Outcome<T> {
    pub world: World,
    pub result: Result<T, RuntimeErrorView>,
}

/// A step that succeeded with `value`.
pub open spec fn done<T>(world: World, value: T) -> Outcome<T> {
    Outcome { world, result: Ok(value) }
}

/// A step that failed with `error`.
pub open spec fn failed<T>(world: World, error: RuntimeErrorView) -> Outcome<T> {
    Outcome { world, result: Err(error) }
}

/// The function that a call of `name` reaches: the last one of that name in the table.
pub open spec fn find_function(funcs: Seq<Ast>, name: Seq<char>) -> Option<int>
    decreases funcs.len(),
{
    if funcs.len() == 0 {
        None
    } else if binder_name(funcs.last(), TreeCodeView::FUNCTION) == Some(name) {
        Some(funcs.len() - 1)
    } else {
        find_function(funcs.drop_last(), name)
    }
}

/// The table after the functions of `node` and of all that lies below it are recorded
/// behind those of `table`, in pre-order.
pub open spec fn collect(node: Ast, table: Seq<Ast>) -> Seq<Ast>
    decreases node,
{
    collect_list(
        node.children,
        if binder_name(node, TreeCodeView::FUNCTION) is Some {
            table.push(node)
        } else {
            table
        },
    )
}

/// The table after the functions of each of `nodes` are recorded, from the first node to
/// the last.
pub open spec fn collect_list(nodes: Seq<Ast>, table: Seq<Ast>) -> Seq<Ast>
    decreases nodes,
{
    if nodes.len() == 0 {
        table
    } else {
        collect(nodes.last(), collect_list(nodes.drop_last(), table))
    }
}

/// The block that a statement is or wraps: a block is itself, a statement node is what its
/// first child is or wraps, and nothing else is a block.
pub open spec fn block_of(stmt: Ast) -> Option<Ast>
    decreases stmt,
{
    match stmt.code {
        TreeCodeView::BLOCK => Some(stmt),
        TreeCodeView::STATEMENT => if stmt.children.len() > 0 {
            block_of(stmt.children[0])
        } else {
            None
        },
        _ => None,
    }
}

/// The block that a statement is or wraps is the statement or a part of it.
pub proof fn lemma_block_of_within(stmt: Ast)
    ensures
        block_of(stmt) matches Some(b) ==> b == stmt || decreases_to!(stmt => b),
    decreases stmt,
{
    if stmt.code is STATEMENT && stmt.children.len() > 0 {
        lemma_block_of_within(stmt.children[0]);
    }
}

/// The frame after each parameter is bound to the argument at its position, from the first
/// to the last. A parameter node without a name binds nothing.
pub open spec fn bind(params: Seq<Ast>, args: Seq<Value>, scope: Scope) -> Scope
    decreases params.len(),
{
    if params.len() == 0 {
        scope
    } else {
        let before = bind(params.drop_last(), args, scope);
        match binder_name(params.last(), TreeCodeView::PARAMETER) {
            Some(name) => before.declare(name, args[params.len() - 1]),
            None => before,
        }
    }
}

/// The parameters of a function: the children of its second child.
pub open spec fn parameters(f: Ast) -> Seq<Ast> {
    if f.children.len() > 1 {
        f.children[1].children
    } else {
        Seq::empty()
    }
}

/// The value of an expression. A literal is itself, a truth literal 1 or 0. An identifier
/// is read from the current frame alone. An operator node with one child applies the
/// unary operator, one with two children the binary operator, operands from left to right.
/// A call evaluates its arguments from left to right, finds the function by the name of
/// its first child and runs it in a fresh frame linked to the current one; it spends one
/// unit of the budget.
pub open spec fn eval_expr(funcs: Seq<Ast>, e: Ast, w: World, fuel: nat) -> Outcome<Value>
    decreases fuel, e, 0int,
{
    match e.code {
        TreeCodeView::INT_LITERAL(i) => done(w, Value::INT(i)),
        TreeCodeView::BOOL_LITERAL(b) => done(w, truth(b)),
        TreeCodeView::IDENTIFIER(name) => match w.scope.get(name) {
            Some(v) => done(w, v),
            None => failed(w, RuntimeErrorView::UndeclaredVariable(name)),
        },
        TreeCodeView::OPERATOR(op) => if e.children.len() == 1 {
            let a = eval_expr(funcs, e.children[0], w, fuel);
            match a.result {
                Ok(v) => Outcome { world: a.world, result: apply_unary(op, v) },
                Err(error) => failed(a.world, error),
            }
        } else if e.children.len() == 2 {
            let a = eval_expr(funcs, e.children[0], w, fuel);
            match a.result {
                Ok(left) => {
                    let b = eval_expr(funcs, e.children[1], a.world, fuel);
                    match b.result {
                        Ok(right) => Outcome { world: b.world, result: apply_binary(op, left, right) },
                        Err(error) => failed(b.world, error),
                    }
                },
                Err(error) => failed(a.world, error),
            }
        } else {
            failed(w, RuntimeErrorView::Malformed)
        },
        TreeCodeView::FUNCTION_CALL(_) => if e.children.len() == 0 {
            failed(w, RuntimeErrorView::Malformed)
        } else {
            match e.children[0].code {
                TreeCodeView::IDENTIFIER(name) => {
                    let a = eval_args(funcs, e.children, 1, Seq::empty(), w, fuel);
                    match a.result {
                        Ok(args) => match find_function(funcs, name) {
                            Some(i) => if fuel == 0 {
                                failed(a.world, RuntimeErrorView::StepLimit)
                            } else {
                                let c = run_function(
                                    funcs,
                                    funcs[i],
                                    args,
                                    a.world.with_scope(Scope::fresh(Some(a.world.scope))),
                                    (fuel - 1) as nat,
                                );
                                Outcome {
                                    world: c.world.with_scope(c.world.scope.leave()),
                                    result: c.result,
                                }
                            },
                            None => failed(a.world, RuntimeErrorView::UnknownFunction(name)),
                        },
                        Err(error) => failed(a.world, error),
                    }
                },
                _ => failed(w, RuntimeErrorView::Malformed),
            }
        },
        _ => failed(w, RuntimeErrorView::Malformed),
    }
}

/// The values of the expressions `args[i..]`, from left to right, behind those of `acc`.
pub open spec fn eval_args(
    funcs: Seq<Ast>,
    args: Seq<Ast>,
    i: int,
    acc: Seq<Value>,
    w: World,
    fuel: nat,
) -> Outcome<Seq<Value>>
    decreases fuel, args, args.len() - i,
{
    if i < 0 || i >= args.len() {
        done(w, acc)
    } else {
        let a = eval_expr(funcs, args[i], w, fuel);
        match a.result {
            Ok(v) => eval_args(funcs, args, i + 1, acc.push(v), a.world, fuel),
            Err(error) => failed(a.world, error),
        }
    }
}

/// The run of the function `f` on `args` in the frame of `w`, which is the fresh frame of
/// this activation. The number of arguments must be that of the parameters. The result is
/// the value of the `return` that ended the body, or void where none did.
pub open spec fn run_function(
    funcs: Seq<Ast>,
    f: Ast,
    args: Seq<Value>,
    w: World,
    fuel: nat,
) -> Outcome<Value>
    decreases fuel, f, 0int,
{
    if parameters(f).len() != args.len() {
        failed(w, RuntimeErrorView::ArgumentCount)
    } else if f.children.len() <= 2 {
        failed(w, RuntimeErrorView::Malformed)
    } else {
        let r = run_stmts(
            funcs,
            f.children[2].children,
            0,
            w.with_scope(bind(parameters(f), args, w.scope)),
            fuel,
        );
        Outcome {
            world: r.world,
            result: match r.result {
                Ok(Some(v)) => Ok(v),
                Ok(None) => Ok(Value::VOID),
                Err(error) => Err(error),
            },
        }
    }
}

/// The run of the statements `stmts[i..]`, one after the other. It ends at the first
/// statement that returns a value or fails.
pub open spec fn run_stmts(
    funcs: Seq<Ast>,
    stmts: Seq<Ast>,
    i: int,
    w: World,
    fuel: nat,
) -> Outcome<Option<Value>>
    decreases fuel, stmts, stmts.len() - i,
{
    if i < 0 || i >= stmts.len() {
        done(w, None)
    } else {
        let r = run_stmt(funcs, stmts[i], w, fuel);
        match r.result {
            Ok(None) => run_stmts(funcs, stmts, i + 1, r.world, fuel),
            _ => r,
        }
    }
}

/// The run of the block that `branch` is or wraps.
pub open spec fn run_branch(funcs: Seq<Ast>, branch: Ast, w: World, fuel: nat) -> Outcome<
    Option<Value>,
>
    decreases fuel, branch, 0int,
{
    match block_of(branch) {
        Some(block) => {
            proof {
                lemma_block_of_within(branch);
            }
            run_stmts(funcs, block.children, 0, w, fuel)
        },
        None => failed(w, RuntimeErrorView::Malformed),
    }
}

/// The run of one statement. The result is the value of a `return` met in it, if any.
///
/// A `let` declares its variable in the current frame with the value 0; an initializer is
/// not evaluated. An assignment evaluates its right side and writes the nearest frame that
/// declares the target. `if` takes any integer but 0 for true and everything else for
/// false. A block runs in the frame of the function that holds it. A statement of any
/// other kind has no effect.
pub open spec fn run_stmt(funcs: Seq<Ast>, s: Ast, w: World, fuel: nat) -> Outcome<Option<Value>>
    decreases fuel, s, 1int,
{
    match s.code {
        TreeCodeView::STATEMENT => if s.children.len() > 0 {
            run_stmt(funcs, s.children[0], w, fuel)
        } else {
            done(w, None)
        },
        TreeCodeView::BLOCK => run_stmts(funcs, s.children, 0, w, fuel),
        TreeCodeView::LET => if s.children.len() > 0 {
            match s.children[0].code {
                TreeCodeView::IDENTIFIER(name) => done(
                    w.with_scope(w.scope.declare(name, Value::INT(0))),
                    None,
                ),
                _ => done(w, None),
            }
        } else {
            done(w, None)
        },
        TreeCodeView::ASSIGN => if s.children.len() < 2 {
            failed(w, RuntimeErrorView::Malformed)
        } else {
            let a = eval_expr(funcs, s.children[1], w, fuel);
            match a.result {
                Ok(v) => match s.children[0].code {
                    TreeCodeView::IDENTIFIER(name) => match a.world.scope.set(name, v) {
                        Some(scope) => done(a.world.with_scope(scope), None),
                        None => failed(a.world, RuntimeErrorView::UndeclaredVariable(name)),
                    },
                    _ => done(a.world, None),
                },
                Err(error) => failed(a.world, error),
            }
        },
        TreeCodeView::PRINT => if s.children.len() < 1 {
            failed(w, RuntimeErrorView::Malformed)
        } else {
            let a = eval_expr(funcs, s.children[0], w, fuel);
            match a.result {
                Ok(v) => done(a.world.print(v), None),
                Err(error) => failed(a.world, error),
            }
        },
        TreeCodeView::RETURN => if s.children.len() < 1 {
            failed(w, RuntimeErrorView::Malformed)
        } else {
            let a = eval_expr(funcs, s.children[0], w, fuel);
            match a.result {
                Ok(v) => done(a.world, Some(v)),
                Err(error) => failed(a.world, error),
            }
        },
        TreeCodeView::IF => if s.children.len() < 1 {
            failed(w, RuntimeErrorView::Malformed)
        } else {
            let a = eval_expr(funcs, s.children[0], w, fuel);
            match a.result {
                Ok(v) => if is_true(v) {
                    if s.children.len() > 1 {
                        run_branch(funcs, s.children[1], a.world, fuel)
                    } else {
                        failed(a.world, RuntimeErrorView::Malformed)
                    }
                } else {
                    if s.children.len() > 2 {
                        run_branch(funcs, s.children[2], a.world, fuel)
                    } else {
                        done(a.world, None)
                    }
                },
                Err(error) => failed(a.world, error),
            }
        },
        TreeCodeView::WHILE => run_while(funcs, s, w, fuel),
        _ => done(w, None),
    }
}

/// Any integer but 0 is true; everything else is false.
pub open spec fn is_true(v: Value) -> bool {
    v matches Value::INT(i) && i != 0
}

/// The run of the loop `s`: while its condition, which must be an integer, is not 0, its
/// body is run. A `return` in the body ends the loop with that value. Each repetition
/// after the first spends one unit of the budget.
pub open spec fn run_while(funcs: Seq<Ast>, s: Ast, w: World, fuel: nat) -> Outcome<Option<Value>>
    decreases fuel, s, 0int,
{
    if s.children.len() < 2 {
        failed(w, RuntimeErrorView::Malformed)
    } else {
        let a = eval_expr(funcs, s.children[0], w, fuel);
        match a.result {
            Ok(Value::INT(i)) => if i == 0 {
                done(a.world, None)
            } else {
                let body = s.children[1];
                let r = if body.code is BLOCK || body.code is STATEMENT {
                    run_branch(funcs, body, a.world, fuel)
                } else {
                    run_stmt(funcs, body, a.world, fuel)
                };
                match r.result {
                    Ok(None) => if fuel == 0 {
                        failed(r.world, RuntimeErrorView::StepLimit)
                    } else {
                        run_while(funcs, s, r.world, (fuel - 1) as nat)
                    },
                    _ => r,
                }
            },
            Ok(_) => failed(a.world, RuntimeErrorView::NonIntegerCondition),
            Err(error) => failed(a.world, error),
        }
    }
}

/// What a call from outside yields: the frame that was handed in as the caller's, the
/// values printed, and the value of the call or the error.
pub ghost struct CallOutcome {
    pub parent: Option<Scope>,
    pub output: Seq<Value>,
    pub result: Result<Value, RuntimeErrorView>,
}

/// The call of `f` on `args` in a fresh frame linked to `parent`.
pub open spec fn call_function(
    funcs: Seq<Ast>,
    f: Ast,
    args: Seq<Value>,
    parent: Option<Scope>,
    output: Seq<Value>,
    fuel: nat,
) -> CallOutcome {
    let c = run_function(funcs, f, args, World { scope: Scope::fresh(parent), output }, fuel);
    CallOutcome { parent: c.world.scope.outer(), output: c.world.output, result: c.result }
}

/// The run of a whole program: its functions are recorded behind those of `table`, and
/// the function `main` is called without arguments and without a caller.
pub open spec fn run_program(program: Ast, table: Seq<Ast>, output: Seq<Value>, fuel: nat) -> CallOutcome {
    let funcs = collect(program, table);
    match find_function(funcs, "main"@) {
        Some(i) => call_function(funcs, funcs[i], Seq::empty(), None, output, fuel),
        None => CallOutcome { parent: None, output, result: Err(RuntimeErrorView::NoMain) },
    }
}

/// The trees that a list of borrowed nodes stands for.
pub open spec fn table_of(functions: Seq<&MTree>) -> Seq<Ast> {
    functions.map_values(|f: &MTree| f@)
}

/// The interpreter: the table of the functions of the program, in the order in which they
/// were recorded, and the values printed so far.
pub struct Runtime<'a> {
    pub functions: Vec<&'a MTree>,
    pub output: Vec<Value>,
}

/// Binds each parameter to the argument at its position.
fn bind_parameters(params: &Vec<MTree>, args: &Vec<Value>, frame: &mut Frame)
    requires
        params@.len() == args@.len(),
    ensures
        final(frame)@ == bind(views_of(params@), args@, old(frame)@),
{
    let ghost all = views_of(params@);
    let mut i: usize = 0;
    while i < params.len()
        invariant
            i <= params.len(),
            params@.len() == args@.len(),
            all == views_of(params@),
            frame@ == bind(all.take(i as int), args@, old(frame)@),
        decreases params.len() - i,
    {
        proof {
            assert(all.take(i as int + 1).drop_last() =~= all.take(i as int));
            assert(all.take(i as int + 1).last() == params@[i as int]@);
        }
        match declared_name(&params[i], false) {
            Some(name) => {
                frame.declare(name.as_str(), args[i]);
            },
            None => {},
        }
        i += 1;
    }
    assert(all.take(i as int) =~= all);
}

impl<'a> Runtime<'a> {
    /// The trees of the functions in the table.
    pub open spec fn table(&self) -> Seq<Ast> {
        table_of(self.functions@)
    }

    /// The state of the run, with `frame` as the current frame.
    pub open spec fn world(&self, frame: &Frame) -> World {
        World { scope: frame@, output: self.output@ }
    }

    /// The runtime and `frame` are in the state that `o` leaves, and `r` is its result.
    pub open spec fn reached<T>(
        &self,
        frame: &Frame,
        r: Result<T, RuntimeError>,
        o: Outcome<T>,
    ) -> bool {
        &&& frame@ == o.world.scope
        &&& self.output@ == o.world.output
        &&& agrees(r, o.result)
    }

    /// A runtime without functions and without output.
    pub fn new() -> (rt: Runtime<'a>)
        ensures
            rt.functions@.len() == 0,
            rt.output@.len() == 0,
    {
        Runtime { functions: Vec::new(), output: Vec::new() }
    }

    /// The position in the table of the function that a call of `name` reaches.
    pub fn find(&self, name: &str) -> (r: Option<usize>)
        ensures
            match r {
                Some(i) => i < self.functions@.len() && find_function(self.table(), name@) == Some(
                    i as int,
                ),
                None => find_function(self.table(), name@) is None,
            },
    {
        let ghost all = self.table();
        let mut i: usize = self.functions.len();
        assert(all.take(i as int) =~= all);
        while i > 0
            invariant
                i <= self.functions@.len(),
                all == self.table(),
                find_function(all, name@) == find_function(all.take(i as int), name@),
            decreases i,
        {
            proof {
                assert(all.take(i as int).drop_last() =~= all.take(i as int - 1));
                assert(all.take(i as int).last() == self.functions@[i as int - 1]@);
            }
            i -= 1;
            match declared_name(self.functions[i], true) {
                Some(own) => {
                    if str_eq(own.as_str(), name) {
                        return Some(i);
                    }
                },
                None => {},
            }
        }
        None
    }

    /// Records the functions of `node` and of all that lies below it, in pre-order.
    fn collect_functions(&mut self, node: &'a MTree)
        ensures
            final(self).table() == collect(node@, old(self).table()),
            final(self).output == old(self).output,
        decreases node,
    {
        proof {
            lemma_view_unfold(*node);
        }
        if declared_name(node, true).is_some() {
            self.functions.push(node);
            assert(self.table() =~= old(self).table().push(node@));
        }
        let ghost start = self.table();
        let ghost all = node@.children;
        let mut i: usize = 0;
        while i < node.children.len()
            invariant
                i <= node.children.len(),
                all == node@.children,
                all == views_of(node.children@),
                self.table() == collect_list(all.take(i as int), start),
                self.output == old(self).output,
            decreases node.children.len() - i,
        {
            proof {
                assert(all.take(i as int + 1).drop_last() =~= all.take(i as int));
                assert(all.take(i as int + 1).last() == node.children@[i as int]@);
            }
            self.collect_functions(&node.children[i]);
            i += 1;
        }
        assert(all.take(i as int) =~= all);
    }

    /// Runs a whole program: records its functions, then calls `main` without arguments.
    /// `fuel` is the budget of calls and loop repetitions. The values printed are added to
    /// `output`, also where the run fails.
    pub fn run_program(&mut self, program: &'a MTree, fuel: u64) -> (r: Result<Value, RuntimeError>)
        ensures
            final(self).table() == collect(program@, old(self).table()),
            ({
                let o = run_program(program@, old(self).table(), old(self).output@, fuel as nat);
                &&& final(self).output@ == o.output
                &&& agrees(r, o.result)
            }),
    {
        self.collect_functions(program);
        match self.find("main") {
            Some(i) => {
                let main = self.functions[i];
                let (r, _) = self.call_function(main, Vec::new(), None, fuel);
                r
            },
            None => Err(RuntimeError::NoMain),
        }
    }

    /// Calls the function `func_node` on `args` in a fresh frame linked to `parent_frame`.
    /// Returns the value of the call, and hands `parent_frame` back as the call left it.
    pub fn call_function(
        &mut self,
        func_node: &MTree,
        args: Vec<Value>,
        parent_frame: Option<Frame>,
        fuel: u64,
    ) -> (r: (Result<Value, RuntimeError>, Option<Frame>))
        ensures
            final(self).functions == old(self).functions,
            ({
                let o = call_function(
                    old(self).table(),
                    func_node@,
                    args@,
                    frame_view(parent_frame),
                    old(self).output@,
                    fuel as nat,
                );
                &&& frame_view(r.1) == o.parent
                &&& final(self).output@ == o.output
                &&& agrees(r.0, o.result)
            }),
    {
        let mut frame = Frame::new(parent_frame);
        let r = self.run_function(func_node, &args, &mut frame, fuel);
        (r, frame.into_parent())
    }

    /// Runs the function `f` on `args` in `frame`, the fresh frame of this activation.
    fn run_function(
        &mut self,
        f: &MTree,
        args: &Vec<Value>,
        frame: &mut Frame,
        fuel: u64,
    ) -> (r: Result<Value, RuntimeError>)
        ensures
            final(self).functions == old(self).functions,
            final(self).reached(
                final(frame),
                r,
                run_function(old(self).table(), f@, args@, old(self).world(old(frame)), fuel as nat),
            ),
        decreases fuel, f, 0int,
    {
        proof {
            lemma_view_unfold(*f);
            if f.children@.len() > 1 {
                lemma_view_unfold(f.children@[1]);
            }
            if f.children@.len() > 2 {
                lemma_view_unfold(f.children@[2]);
            }
        }
        let expected = if f.children.len() > 1 {
            f.children[1].children.len()
        } else {
            0
        };
        if expected != args.len() {
            return Err(RuntimeError::ArgumentCount);
        }
        if f.children.len() <= 2 {
            return Err(RuntimeError::Malformed);
        }
        bind_parameters(&f.children[1].children, args, frame);
        match self.run_block(&f.children[2], frame, fuel) {
            Ok(Some(v)) => Ok(v),
            Ok(None) => Ok(Value::VOID),
            Err(e) => Err(e),
        }
    }

    /// Runs the statements of `block`, one after the other, until one returns a value or
    /// fails.
    fn run_block(&mut self, block: &MTree, frame: &mut Frame, fuel: u64) -> (r: Result<
        Option<Value>,
        RuntimeError,
    >)
        ensures
            final(self).functions == old(self).functions,
            final(self).reached(
                final(frame),
                r,
                run_stmts(
                    old(self).table(),
                    block@.children,
                    0,
                    old(self).world(old(frame)),
                    fuel as nat,
                ),
            ),
        decreases fuel, block, 0int,
    {
        proof {
            lemma_view_unfold(*block);
        }
        let ghost funcs = self.table();
        let ghost whole = run_stmts(funcs, block@.children, 0, self.world(frame), fuel as nat);
        let mut i: usize = 0;
        while i < block.children.len()
            invariant
                i <= block.children.len(),
                block@.children == views_of(block.children@),
                self.functions == old(self).functions,
                funcs == self.table(),
                whole == run_stmts(
                    old(self).table(),
                    block@.children,
                    0,
                    old(self).world(old(frame)),
                    fuel as nat,
                ),
                whole == run_stmts(funcs, block@.children, i as int, self.world(frame), fuel as nat),
            decreases block.children.len() - i,
        {
            match self.run_stmt(&block.children[i], frame, fuel) {
                Ok(None) => {},
                Ok(Some(v)) => {
                    return Ok(Some(v));
                },
                Err(e) => {
                    return Err(e);
                },
            }
            i += 1;
        }
        Ok(None)
    }

    /// The block that `stmt` is or wraps.
    pub fn unwrap_block<'b>(&self, stmt: &'b MTree) -> (r: Result<&'b MTree, RuntimeError>)
        ensures
            match r {
                Ok(block) => block_of(stmt@) == Some(block@) && (*block == *stmt
                    || decreases_to!(*stmt => *block)),
                Err(e) => block_of(stmt@) is None && e@ == RuntimeErrorView::Malformed,
            },
        decreases stmt,
    {
        proof {
            lemma_view_unfold(*stmt);
        }
        match stmt.token {
            TreeCode::BLOCK => Ok(stmt),
            TreeCode::STATEMENT => {
                if stmt.children.len() > 0 {
                    self.unwrap_block(&stmt.children[0])
                } else {
                    Err(RuntimeError::Malformed)
                }
            },
            _ => Err(RuntimeError::Malformed),
        }
    }

    /// Runs the block that `branch` is or wraps.
    fn run_branch(&mut self, branch: &MTree, frame: &mut Frame, fuel: u64) -> (r: Result<
        Option<Value>,
        RuntimeError,
    >)
        ensures
            final(self).functions == old(self).functions,
            final(self).reached(
                final(frame),
                r,
                run_branch(old(self).table(), branch@, old(self).world(old(frame)), fuel as nat),
            ),
        decreases fuel, branch, 1int,
    {
        match self.unwrap_block(branch) {
            Ok(block) => self.run_block(block, frame, fuel),
            Err(e) => Err(e),
        }
    }

    /// Runs one statement.
    fn run_stmt(&mut self, stmt: &MTree, frame: &mut Frame, fuel: u64) -> (r: Result<
        Option<Value>,
        RuntimeError,
    >)
        ensures
            final(self).functions == old(self).functions,
            final(self).reached(
                final(frame),
                r,
                run_stmt(old(self).table(), stmt@, old(self).world(old(frame)), fuel as nat),
            ),
        decreases fuel, stmt, 2int,
    {
        proof {
            lemma_view_unfold(*stmt);
            if stmt.children@.len() > 0 {
                lemma_view_unfold(stmt.children@[0]);
            }
        }
        match &stmt.token {
            TreeCode::STATEMENT => {
                if stmt.children.len() > 0 {
                    self.run_stmt(&stmt.children[0], frame, fuel)
                } else {
                    Ok(None)
                }
            },
            TreeCode::BLOCK => self.run_block(stmt, frame, fuel),
            TreeCode::LET => {
                if stmt.children.len() > 0 {
                    match &stmt.children[0].token {
                        TreeCode::IDENTIFIER(name) => {
                            frame.declare(name.as_str(), Value::INT(0));
                        },
                        _ => {},
                    }
                }
                Ok(None)
            },
            TreeCode::ASSIGN => {
                if stmt.children.len() < 2 {
                    return Err(RuntimeError::Malformed);
                }
                match self.eval_expr(&stmt.children[1], frame, fuel) {
                    Ok(v) => match &stmt.children[0].token {
                        TreeCode::IDENTIFIER(name) => {
                            if frame.set(name.as_str(), v) {
                                Ok(None)
                            } else {
                                Err(RuntimeError::UndeclaredVariable(name.clone()))
                            }
                        },
                        _ => Ok(None),
                    },
                    Err(e) => Err(e),
                }
            },
            TreeCode::PRINT => {
                if stmt.children.len() < 1 {
                    return Err(RuntimeError::Malformed);
                }
                match self.eval_expr(&stmt.children[0], frame, fuel) {
                    Ok(v) => {
                        self.output.push(v);
                        Ok(None)
                    },
                    Err(e) => Err(e),
                }
            },
            TreeCode::RETURN => {
                if stmt.children.len() < 1 {
                    return Err(RuntimeError::Malformed);
                }
                match self.eval_expr(&stmt.children[0], frame, fuel) {
                    Ok(v) => Ok(Some(v)),
                    Err(e) => Err(e),
                }
            },
            TreeCode::IF => {
                if stmt.children.len() < 1 {
                    return Err(RuntimeError::Malformed);
                }
                match self.eval_expr(&stmt.children[0], frame, fuel) {
                    Ok(v) => {
                        let taken = match v {
                            Value::INT(i) => i != 0,
                            _ => false,
                        };
                        if taken {
                            if stmt.children.len() > 1 {
                                self.run_branch(&stmt.children[1], frame, fuel)
                            } else {
                                Err(RuntimeError::Malformed)
                            }
                        } else {
                            if stmt.children.len() > 2 {
                                self.run_branch(&stmt.children[2], frame, fuel)
                            } else {
                                Ok(None)
                            }
                        }
                    },
                    Err(e) => Err(e),
                }
            },
            TreeCode::WHILE => self.run_while(stmt, frame, fuel),
            _ => Ok(None),
        }
    }

    /// Runs the loop `stmt`.
    fn run_while(&mut self, stmt: &MTree, frame: &mut Frame, fuel: u64) -> (r: Result<
        Option<Value>,
        RuntimeError,
    >)
        ensures
            final(self).functions == old(self).functions,
            final(self).reached(
                final(frame),
                r,
                run_while(old(self).table(), stmt@, old(self).world(old(frame)), fuel as nat),
            ),
        decreases fuel, stmt, 0int,
    {
        proof {
            lemma_view_unfold(*stmt);
        }
        if stmt.children.len() < 2 {
            return Err(RuntimeError::Malformed);
        }
        let ghost funcs = self.table();
        let ghost whole = run_while(funcs, stmt@, self.world(frame), fuel as nat);
        let body = &stmt.children[1];
        let wrapped = match body.token {
            TreeCode::BLOCK => true,
            TreeCode::STATEMENT => true,
            _ => false,
        };
        proof {
            lemma_view_unfold(*body);
        }
        let mut left: u64 = fuel;
        loop
            invariant
                left <= fuel,
                stmt.children@.len() >= 2,
                stmt@.children == views_of(stmt.children@),
                *body == stmt.children@[1],
                wrapped == (body@.code is BLOCK || body@.code is STATEMENT),
                self.functions == old(self).functions,
                funcs == self.table(),
                whole == run_while(
                    old(self).table(),
                    stmt@,
                    old(self).world(old(frame)),
                    fuel as nat,
                ),
                whole == run_while(funcs, stmt@, self.world(frame), left as nat),
            decreases left,
        {
            match self.eval_expr(&stmt.children[0], frame, left) {
                Ok(Value::INT(i)) => {
                    if i == 0 {
                        return Ok(None);
                    }
                    let r = if wrapped {
                        self.run_branch(body, frame, left)
                    } else {
                        self.run_stmt(body, frame, left)
                    };
                    match r {
                        Ok(None) => {
                            if left == 0 {
                                return Err(RuntimeError::StepLimit);
                            }
                            left -= 1;
                        },
                        Ok(Some(v)) => {
                            return Ok(Some(v));
                        },
                        Err(e) => {
                            return Err(e);
                        },
                    }
                },
                Ok(_) => {
                    return Err(RuntimeError::NonIntegerCondition);
                },
                Err(e) => {
                    return Err(e);
                },
            }
        }
    }

    /// Evaluates an expression.
    fn eval_expr(&mut self, expr: &MTree, frame: &mut Frame, fuel: u64) -> (r: Result<
        Value,
        RuntimeError,
    >)
        ensures
            final(self).functions == old(self).functions,
            final(self).reached(
                final(frame),
                r,
                eval_expr(old(self).table(), expr@, old(self).world(old(frame)), fuel as nat),
            ),
        decreases fuel, expr, 0int,
    {
        proof {
            lemma_view_unfold(*expr);
            if expr.children@.len() > 0 {
                lemma_view_unfold(expr.children@[0]);
            }
        }
        match &expr.token {
            TreeCode::INT_LITERAL(i) => Ok(Value::INT(*i)),
            TreeCode::BOOL_LITERAL(b) => Ok(truth_value(*b)),
            TreeCode::IDENTIFIER(name) => match frame.get(name.as_str()) {
                Some(v) => Ok(v),
                None => Err(RuntimeError::UndeclaredVariable(name.clone())),
            },
            TreeCode::OPERATOR(op) => {
                if expr.children.len() == 1 {
                    match self.eval_expr(&expr.children[0], frame, fuel) {
                        Ok(v) => unary(*op, v),
                        Err(e) => Err(e),
                    }
                } else if expr.children.len() == 2 {
                    match self.eval_expr(&expr.children[0], frame, fuel) {
                        Ok(left) => match self.eval_expr(&expr.children[1], frame, fuel) {
                            Ok(right) => binary(*op, left, right),
                            Err(e) => Err(e),
                        },
                        Err(e) => Err(e),
                    }
                } else {
                    Err(RuntimeError::Malformed)
                }
            },
            TreeCode::FUNCTION_CALL(_) => {
                if expr.children.len() == 0 {
                    return Err(RuntimeError::Malformed);
                }
                match &expr.children[0].token {
                    TreeCode::IDENTIFIER(name) => {
                        let ghost funcs = self.table();
                        let ghost whole = eval_args(
                            funcs,
                            expr@.children,
                            1,
                            Seq::empty(),
                            self.world(frame),
                            fuel as nat,
                        );
                        let mut args: Vec<Value> = Vec::new();
                        let mut i: usize = 1;
                        while i < expr.children.len()
                            invariant
                                1 <= i <= expr.children.len(),
                                expr@.children == views_of(expr.children@),
                                self.functions == old(self).functions,
                                funcs == self.table(),
                                whole == eval_args(
                                    old(self).table(),
                                    expr@.children,
                                    1,
                                    Seq::empty(),
                                    old(self).world(old(frame)),
                                    fuel as nat,
                                ),
                                expr@.code is FUNCTION_CALL,
                                expr@.children.len() > 0,
                                expr@.children[0].code == TreeCodeView::IDENTIFIER(name@),
                                whole == eval_args(
                                    funcs,
                                    expr@.children,
                                    i as int,
                                    args@,
                                    self.world(frame),
                                    fuel as nat,
                                ),
                            decreases expr.children.len() - i,
                        {
                            match self.eval_expr(&expr.children[i], frame, fuel) {
                                Ok(v) => {
                                    args.push(v);
                                },
                                Err(e) => {
                                    return Err(e);
                                },
                            }
                            i += 1;
                        }
                        match self.find(name.as_str()) {
                            Some(k) => {
                                if fuel == 0 {
                                    return Err(RuntimeError::StepLimit);
                                }
                                let f = self.functions[k];
                                frame.enter();
                                let r = self.run_function(f, &args, frame, fuel - 1);
                                frame.leave();
                                r
                            },
                            None => Err(RuntimeError::UnknownFunction(name.clone())),
                        }
                    },
                    _ => Err(RuntimeError::Malformed),
                }
            },
            _ => Err(RuntimeError::Malformed),
        }
    }
}

} // verus!
