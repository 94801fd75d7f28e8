// The evaluator: a machine that walks a syntax tree step by step. What a
// step does is said in `machine`; each function here does what its part of
// that says.

use crate::ast_nodes::{
    tree_pairs, trees, ASTNode, Ast, AssignmentNode, BinaryOpNode, BlockNode, CallNode, ForNode,
    FunctionNode, IfNode, ListNode, ReturnNode, UnaryOpNode, WhileNode,
};
use crate::environment::{
    duplicate_values, env_ok, fits, lemma_fits_more, unbound_name, vals, EnvView, Environment, Val,
    Value,
};
use crate::errors::{ErrorView, KyaroError, RuntimeKind};
use crate::lexer::symbol_str;
use crate::machine::{
    all_fit, answer, arity_error, binary, bind_all, control_ok, define_and_leave, descend, enter,
    exact,
    failed, failure, invalid_operands, invoke, kont_ok, leave, load, resume, run, settle,
    is_running, lemma_answer_ok, lemma_load_ok, lemma_step_ok, number_literal, request_of,
    stack_ok, state_ok,
    step, take, takes_signals, unary, value, value_or_null, values_equal, with_control,
    ControlView, FlowView, KontView, MachineView, PendingView, ReplyView, RequestView,
};
use crate::number::{
    exact_add, exact_divide, exact_modulo, exact_multiply, exact_subtract, from_whole, negate,
    number_less, number_less_or_equal, numbers_equal, zero, EXACT,
};
use crate::text::{contains_text, push_decimal, push_str, texts, whole_numeral};
use crate::token_types::TokenType;
use vstd::prelude::*;
use vstd::string::StringExecFns;

verus! {

/// The mathematical value of a value that may be absent.
pub open spec fn opt(v: Option<Value>) -> Option<Val> {
    match v {
        Some(v) => Some(v@),
        None => None,
    }
}

/// What evaluating a node gives: a value, or a signal that unwinds to the
/// construct that takes it.
#[derive(Debug)]
pub enum Flow {
    Normal(Option<Value>),
    Return(Value),
    Break,
    Continue,
}

impl View for Flow {
    type V = FlowView;

    open spec fn view(&self) -> FlowView {
        match self {
            Flow::Normal(v) => FlowView::Normal(opt(*v)),
            Flow::Return(v) => FlowView::Return(v@),
            Flow::Break => FlowView::Break,
            Flow::Continue => FlowView::Continue,
        }
    }
}

/// What the machine waits for from the embedding program.
#[derive(Debug)]
pub enum Pending {
    Number { numeral: String },
    Arithmetic { operator: TokenType, left: u64, right: u64 },
    Native { name: String, arguments: Vec<Value> },
}

impl View for Pending {
    type V = PendingView;

    open spec fn view(&self) -> PendingView {
        match self {
            Pending::Number { numeral } => PendingView::Number { numeral: numeral@ },
            Pending::Arithmetic { operator, left, right } => PendingView::Arithmetic {
                operator: *operator,
                left: *left,
                right: *right,
            },
            Pending::Native { name, arguments } => PendingView::Native {
                name: name@,
                arguments: vals(arguments@),
            },
        }
    }
}

/// What the machine does next.
#[derive(Debug)]
pub enum Control {
    Idle,
    Enter(ASTNode),
    Leave(Flow),
    Await(Pending),
    Done(Option<Value>),
    Failed(KyaroError),
}

impl View for Control {
    type V = ControlView;

    open spec fn view(&self) -> ControlView {
        match self {
            Control::Idle => ControlView::Idle,
            Control::Enter(node) => ControlView::Enter(node@),
            Control::Leave(flow) => ControlView::Leave(flow@),
            Control::Await(pending) => ControlView::Await(pending@),
            Control::Done(v) => ControlView::Done(opt(*v)),
            Control::Failed(e) => ControlView::Failed(e@),
        }
    }
}

/// A construct that waits for the outcome of one of its parts.
#[derive(Debug)]
pub enum Kont {
    BinaryLeft { operator: TokenType, right: ASTNode, line: usize, column: usize },
    BinaryRight { operator: TokenType, left: Value, line: usize, column: usize },
    Unary { operator: TokenType },
    Assign { name: String },
    Callee { arguments: Vec<ASTNode> },
    Arguments { callee: Value, arguments: Vec<ASTNode>, next: usize, done: Vec<Value> },
    Body { caller: usize },
    Block { statements: Vec<ASTNode>, next: usize },
    Condition {
        then_branch: ASTNode,
        elif_branches: Vec<(ASTNode, ASTNode)>,
        next: usize,
        else_branch: Option<ASTNode>,
    },
    Branch,
    WhileCondition { condition: ASTNode, body: ASTNode, last: Option<Value> },
    WhileBody { condition: ASTNode, body: ASTNode },
    ForIterable { variable: String, body: ASTNode },
    ForBody { variable: String, items: Vec<Value>, next: usize, body: ASTNode },
    Return,
    Element { elements: Vec<ASTNode>, next: usize, done: Vec<Value> },
}

impl View for Kont {
    type V = KontView;

    open spec fn view(&self) -> KontView {
        match self {
            Kont::BinaryLeft { operator, right, line, column } => KontView::BinaryLeft {
                operator: *operator,
                right: right@,
                line: *line as nat,
                column: *column as nat,
            },
            Kont::BinaryRight { operator, left, line, column } => KontView::BinaryRight {
                operator: *operator,
                left: left@,
                line: *line as nat,
                column: *column as nat,
            },
            Kont::Unary { operator } => KontView::Unary { operator: *operator },
            Kont::Assign { name } => KontView::Assign { name: name@ },
            Kont::Callee { arguments } => KontView::Callee { arguments: trees(arguments@) },
            Kont::Arguments { callee, arguments, next, done } => KontView::Arguments {
                callee: callee@,
                arguments: trees(arguments@),
                next: *next as nat,
                done: vals(done@),
            },
            Kont::Body { caller } => KontView::Body { caller: *caller as nat },
            Kont::Block { statements, next } => KontView::Block {
                statements: trees(statements@),
                next: *next as nat,
            },
            Kont::Condition { then_branch, elif_branches, next, else_branch } => KontView::Condition {
                then_branch: then_branch@,
                elif_branches: tree_pairs(elif_branches@),
                next: *next as nat,
                else_branch: match else_branch {
                    Some(e) => Some(e@),
                    None => None,
                },
            },
            Kont::Branch => KontView::Branch,
            Kont::WhileCondition { condition, body, last } => KontView::WhileCondition {
                condition: condition@,
                body: body@,
                last: opt(*last),
            },
            Kont::WhileBody { condition, body } => KontView::WhileBody {
                condition: condition@,
                body: body@,
            },
            Kont::ForIterable { variable, body } => KontView::ForIterable {
                variable: variable@,
                body: body@,
            },
            Kont::ForBody { variable, items, next, body } => KontView::ForBody {
                variable: variable@,
                items: vals(items@),
                next: *next as nat,
                body: body@,
            },
            Kont::Return => KontView::Return,
            Kont::Element { elements, next, done } => KontView::Element {
                elements: trees(elements@),
                next: *next as nat,
                done: vals(done@),
            },
        }
    }
}

/// What the embedding program answers.
#[derive(Debug)]
pub enum Reply {
    /// The number asked for, as its 64 bits: the value of a numeral, or the
    /// result of an arithmetic operation.
    Number(u64),
    /// What a native function returned.
    Value(Value),
    /// The error that a native function failed with.
    Failure(KyaroError),
}

impl View for Reply {
    type V = ReplyView;

    open spec fn view(&self) -> ReplyView {
        match self {
            Reply::Number(bits) => ReplyView::Number(*bits),
            Reply::Value(v) => ReplyView::Value(v@),
            Reply::Failure(e) => ReplyView::Failure(e@),
        }
    }
}

/// What the machine tells the embedding program when it stops.
#[derive(Debug)]
pub enum Request {
    /// The program ended with this value; an empty program has none.
    Done(Option<Value>),
    /// The program ended with this error.
    Failed(KyaroError),
    /// The machine asks for the number that a numeral stands for: one with
    /// a `.` in it, or one for a whole number above two to the power 53.
    Number { numeral: String },
    /// The machine asks for the result of `+`, `-`, `*`, `/` or `%` on two
    /// numbers, each given as its 64 bits, where it does not find the result
    /// itself.
    Arithmetic { operator: TokenType, left: u64, right: u64 },
    /// The machine asks for the result of a native function.
    Native { name: String, arguments: Vec<Value> },
    /// The machine has used up its steps and can go on.
    Paused,
}

impl View for Request {
    type V = RequestView;

    open spec fn view(&self) -> RequestView {
        match self {
            Request::Done(v) => RequestView::Done(opt(*v)),
            Request::Failed(e) => RequestView::Failed(e@),
            Request::Number { numeral } => RequestView::Number { numeral: numeral@ },
            Request::Arithmetic { operator, left, right } => RequestView::Arithmetic {
                operator: *operator,
                left: *left,
                right: *right,
            },
            Request::Native { name, arguments } => RequestView::Native {
                name: name@,
                arguments: vals(arguments@),
            },
            Request::Paused => RequestView::Paused,
        }
    }
}

/// The views of the constructs on a stack, the innermost last.
pub open spec fn konts(stack: Seq<Kont>) -> Seq<KontView> {
    Seq::new(stack.len(), |i: int| stack[i]@)
}


/// A runtime error of kind `kind` with the message `message`.
fn fail_with(kind: RuntimeKind, message: &str, line: usize, column: usize) -> (e: KyaroError)
    ensures
        e@ == failure(kind, message@, line as nat, column as nat),
{
    KyaroError::runtime(kind, String::from_str(message), line, column)
}

/// Equality of two values, as `==` of the language sees it.
pub fn equal_values(a: &Value, b: &Value) -> (r: bool)
    ensures
        r == values_equal(a@, b@),
{
    match (a, b) {
        (Value::Number(x), Value::Number(y)) => numbers_equal(*x, *y),
        (Value::String(x), Value::String(y)) => *x == *y,
        (Value::Boolean(x), Value::Boolean(y)) => *x == *y,
        (Value::Null, Value::Null) => true,
        _ => false,
    }
}

fn invalid_operands_error(operator: TokenType, line: usize, column: usize) -> (e: KyaroError)
    ensures
        e@ == invalid_operands(operator, line as nat, column as nat),
{
    let mut message = String::from_str("Invalid operands for ");
    push_str(&mut message, symbol_str(operator));
    KyaroError::runtime(RuntimeKind::TypeError, message, line, column)
}

fn is_arithmetic_operator(operator: TokenType) -> (r: bool)
    ensures
        r == crate::machine::is_arithmetic(operator),
{
    operator == TokenType::Plus || operator == TokenType::Minus || operator == TokenType::Star
        || operator == TokenType::Slash || operator == TokenType::Percent
}

fn is_ordering_operator(operator: TokenType) -> (r: bool)
    ensures
        r == crate::machine::is_ordering(operator),
{
    operator == TokenType::LessThan || operator == TokenType::LessEquals || operator
        == TokenType::GreaterThan || operator == TokenType::GreaterEquals
}

/// The result of an arithmetic operator on two numbers, where both are
/// whole numbers and the result is a whole number of a size up to two to the
/// power 53.
pub fn exact_operation(operator: TokenType, a: u64, b: u64) -> (r: Option<u64>)
    ensures
        r == exact(operator, a, b),
{
    if operator == TokenType::Plus {
        exact_add(a, b)
    } else if operator == TokenType::Minus {
        exact_subtract(a, b)
    } else if operator == TokenType::Star {
        exact_multiply(a, b)
    } else if operator == TokenType::Slash {
        exact_divide(a, b)
    } else if operator == TokenType::Percent {
        exact_modulo(a, b)
    } else {
        None
    }
}

/// What a binary operator other than `and` and `or` makes of two values: a
/// value to hand on, a request for arithmetic, or an error at the operator's
/// place.
pub fn binary_operation(
    operator: TokenType,
    left: Value,
    right: Value,
    line: usize,
    column: usize,
) -> (c: Control)
    ensures
        c@ == binary(operator, left@, right@, line as nat, column as nat),
{
    if operator == TokenType::EqualsEquals {
        Control::Leave(Flow::Normal(Some(Value::Boolean(equal_values(&left, &right)))))
    } else if operator == TokenType::NotEquals {
        Control::Leave(Flow::Normal(Some(Value::Boolean(!equal_values(&left, &right)))))
    } else if is_arithmetic_operator(operator) {
        match (left, right) {
            (Value::Number(a), Value::Number(b)) => {
                if operator == TokenType::Slash && zero(b) {
                    Control::Failed(
                        fail_with(RuntimeKind::DivisionByZero, "Division by zero", line, column),
                    )
                } else {
                    match exact_operation(operator, a, b) {
                        Some(result) => Control::Leave(
                            Flow::Normal(Some(Value::Number(result))),
                        ),
                        None => Control::Await(Pending::Arithmetic { operator, left: a, right: b }),
                    }
                }
            },
            (Value::String(a), Value::String(b)) => {
                if operator == TokenType::Plus {
                    let mut joined = a;
                    push_str(&mut joined, b.as_str());
                    Control::Leave(Flow::Normal(Some(Value::String(joined))))
                } else {
                    Control::Failed(invalid_operands_error(operator, line, column))
                }
            },
            _ => Control::Failed(invalid_operands_error(operator, line, column)),
        }
    } else if is_ordering_operator(operator) {
        match (left, right) {
            (Value::Number(a), Value::Number(b)) => {
                let holds = if operator == TokenType::LessThan {
                    number_less(a, b)
                } else if operator == TokenType::LessEquals {
                    number_less_or_equal(a, b)
                } else if operator == TokenType::GreaterThan {
                    number_less(b, a)
                } else {
                    number_less_or_equal(b, a)
                };
                Control::Leave(Flow::Normal(Some(Value::Boolean(holds))))
            },
            _ => Control::Failed(invalid_operands_error(operator, line, column)),
        }
    } else {
        Control::Failed(
            fail_with(RuntimeKind::NotImplemented, "Unsupported binary operator", line, column),
        )
    }
}

/// What a number literal makes of its numeral: the number, where the
/// numeral stands for a whole number up to two to the power 53, else the
/// question to the embedding program.
pub fn number_literal_of(numeral: String) -> (c: Control)
    ensures
        c@ == number_literal(numeral@),
{
    let bits = match whole_numeral(numeral.as_str(), EXACT) {
        Some(n) => from_whole(n),
        None => None,
    };
    match bits {
        Some(bits) => Control::Leave(Flow::Normal(Some(Value::Number(bits)))),
        None => Control::Await(Pending::Number { numeral }),
    }
}

/// What a unary operator makes of a value.
pub fn unary_operation(operator: TokenType, operand: Value) -> (c: Control)
    ensures
        c@ == unary(operator, operand@),
{
    if operator == TokenType::Minus {
        match operand {
            Value::Number(bits) => Control::Leave(
                Flow::Normal(Some(Value::Number(negate(bits)))),
            ),
            _ => Control::Failed(
                fail_with(RuntimeKind::TypeError, "Invalid operand for unary -", 0, 0),
            ),
        }
    } else if operator == TokenType::KeywordNot {
        Control::Leave(Flow::Normal(Some(Value::Boolean(!operand.is_truthy()))))
    } else {
        Control::Failed(fail_with(RuntimeKind::NotImplemented, "Unsupported unary operator", 0, 0))
    }
}

fn arity_failure(wanted: usize, given: usize) -> (e: KyaroError)
    ensures
        e@ == arity_error(wanted as nat, given as nat),
{
    let mut message = String::from_str("Expected ");
    push_decimal(&mut message, wanted as u64);
    push_str(&mut message, " arguments, got ");
    push_decimal(&mut message, given as u64);
    KyaroError::runtime(RuntimeKind::ArityError, message, 0, 0)
}

fn value_of(v: Option<Value>) -> (r: Value)
    ensures
        r@ == value_or_null(opt(v)),
{
    match v {
        Some(v) => v,
        None => Value::Null,
    }
}

/// The evaluator: a machine that walks a syntax tree step by step, and asks
/// the embedding program for arithmetic on numbers and for the native
/// functions.
pub struct Interpreter {
    environment: Environment,
    stack: Vec<Kont>,
    control: Control,
    natives: Vec<String>,
}

impl View for Interpreter {
    type V = MachineView;

    closed spec fn view(&self) -> MachineView {
        MachineView {
            env: self.environment@,
            stack: konts(self.stack@),
            control: self.control@,
            natives: texts(self.natives@),
        }
    }
}

impl Interpreter {
    /// The machine's invariant. It implies `state_ok` of the view.
    pub closed spec fn wf(&self) -> bool {
        &&& self.environment.wf()
        &&& state_ok(self@)
    }

    /// The machine's invariant implies that the machine hangs together.
    pub proof fn lemma_wf(&self)
        requires
            self.wf(),
        ensures
            state_ok(self@),
    {
    }

    /// A machine with one empty scope, no program, and the native functions
    /// named in `natives`.
    pub fn with_natives(natives: Vec<String>) -> (machine: Self)
        ensures
            machine.wf(),
            machine@.control is Idle,
            machine@.stack.len() == 0,
            machine@.natives == texts(natives@),
            machine@.env == crate::environment::fresh(),
    {
        let environment = Environment::new();
        proof {
            environment.lemma_wf();
        }
        let machine = Self { environment, stack: Vec::new(), control: Control::Idle, natives };
        assert(machine@.stack =~= Seq::empty());
        machine
    }

    /// The scopes of the program.
    pub fn environment(&self) -> (env: &Environment)
        ensures
            env@ == self@.env,
            self.wf() ==> env.wf(),
    {
        &self.environment
    }

    fn set_control(&mut self, control: Control)
        requires
            old(self).environment.wf(),
        ensures
            final(self).environment.wf(),
            final(self)@ == with_control(old(self)@, control@),
    {
        self.control = control;
    }

    fn finish(&mut self, v: Value)
        requires
            old(self).environment.wf(),
        ensures
            final(self).environment.wf(),
            final(self)@ == with_control(old(self)@, value(v@)),
    {
        self.control = Control::Leave(Flow::Normal(Some(v)));
    }

    fn fail(&mut self, e: KyaroError)
        requires
            old(self).environment.wf(),
        ensures
            final(self).environment.wf(),
            final(self)@ == failed(old(self)@, e@),
    {
        proof {
            self.environment.lemma_wf();
        }
        self.stack.clear();
        self.environment.switch_to(0);
        self.control = Control::Failed(e);
        assert(self@.stack =~= Seq::empty());
    }

    fn settle(&mut self, control: Control)
        requires
            old(self).environment.wf(),
        ensures
            final(self).environment.wf(),
            final(self)@ == settle(old(self)@, control@),
    {
        match control {
            Control::Failed(e) => self.fail(e),
            other => self.set_control(other),
        }
    }

    fn descend(&mut self, k: Kont, node: ASTNode)
        requires
            old(self).environment.wf(),
        ensures
            final(self).environment.wf(),
            final(self)@ == descend(old(self)@, k@, node@),
    {
        let ghost pushed = k@;
        self.stack.push(k);
        self.control = Control::Enter(node);
        assert(self@.stack =~= old(self)@.stack.push(pushed));
    }

    fn define_and_finish(&mut self, name: String, v: Value)
        requires
            old(self).environment.wf(),
            fits(v@, old(self)@.env.scopes.len()),
        ensures
            final(self).environment.wf(),
            final(self)@ == define_and_leave(old(self)@, name@, v@),
    {
        self.environment.define(name, v.duplicate());
        self.control = Control::Leave(Flow::Normal(Some(v)));
    }

    /// Begins to evaluate `node`.
    fn evaluate(&mut self, node: ASTNode)
        requires
            old(self).environment.wf(),
        ensures
            final(self).environment.wf(),
            final(self)@ == enter(old(self)@, node@),
    {
        match node {
            ASTNode::Number(n) => self.set_control(number_literal_of(n.value)),
            ASTNode::String(n) => self.finish(Value::String(n.value)),
            ASTNode::Boolean(n) => self.finish(Value::Boolean(n.value)),
            ASTNode::Null(_) => self.finish(Value::Null),
            ASTNode::Identifier(n) => self.evaluate_identifier(n.name),
            ASTNode::BinaryOp(n) => self.enter_binary_op(n),
            ASTNode::UnaryOp(n) => self.enter_unary_op(n),
            ASTNode::Assignment(n) => self.enter_assignment(n),
            ASTNode::Call(n) => self.enter_call(n),
            ASTNode::Function(n) => self.evaluate_function(n),
            ASTNode::Return(n) => self.enter_return(n),
            ASTNode::If(n) => self.enter_if(n),
            ASTNode::While(n) => self.enter_while(n),
            ASTNode::For(n) => self.enter_for(n),
            ASTNode::Break(_) => self.set_control(Control::Leave(Flow::Break)),
            ASTNode::Continue(_) => self.set_control(Control::Leave(Flow::Continue)),
            ASTNode::Block(n) => {
                proof {
                    ASTNode::Block(n).lemma_tree_of_children();
                }
                self.evaluate_block(n.statements, 0, None)
            },
            ASTNode::List(n) => {
                proof {
                    ASTNode::List(n).lemma_tree_of_children();
                }
                let done: Vec<Value> = Vec::new();
                assert(vals(done@) =~= Seq::<Val>::empty());
                self.evaluate_list(n.elements, 0, done)
            },
            ASTNode::CompoundAssignment(_) | ASTNode::Index(_) | ASTNode::MemberAccess(_) => {
                self.fail(fail_with(RuntimeKind::NotImplemented, "Unsupported AST node", 0, 0))
            },
        }
    }

    /// Looks a name up: in the scopes from the current one outward, then
    /// among the native functions.
    fn evaluate_identifier(&mut self, name: String)
        requires
            old(self).environment.wf(),
        ensures
            final(self).environment.wf(),
            final(self)@ == enter(old(self)@, Ast::Identifier { name: name@ }),
    {
        match self.environment.lookup(name.as_str()) {
            Some(v) => self.finish(v),
            None => {
                if contains_text(&self.natives, &name) {
                    self.finish(Value::Native(name))
                } else {
                    self.fail(unbound_name(name.as_str()))
                }
            },
        }
    }

    fn enter_binary_op(&mut self, n: BinaryOpNode)
        requires
            old(self).environment.wf(),
        ensures
            final(self).environment.wf(),
            final(self)@ == enter(old(self)@, ASTNode::BinaryOp(n)@),
    {
        let BinaryOpNode { left, operator, right, line, column } = n;
        self.descend(Kont::BinaryLeft { operator, right: *right, line, column }, *left)
    }

    fn enter_unary_op(&mut self, n: UnaryOpNode)
        requires
            old(self).environment.wf(),
        ensures
            final(self).environment.wf(),
            final(self)@ == enter(old(self)@, ASTNode::UnaryOp(n)@),
    {
        let UnaryOpNode { operator, operand } = n;
        self.descend(Kont::Unary { operator }, *operand)
    }

    fn enter_assignment(&mut self, n: AssignmentNode)
        requires
            old(self).environment.wf(),
        ensures
            final(self).environment.wf(),
            final(self)@ == enter(old(self)@, ASTNode::Assignment(n)@),
    {
        let AssignmentNode { name, value } = n;
        self.descend(Kont::Assign { name }, *value)
    }

    fn enter_call(&mut self, n: CallNode)
        requires
            old(self).environment.wf(),
        ensures
            final(self).environment.wf(),
            final(self)@ == enter(old(self)@, ASTNode::Call(n)@),
    {
        proof {
            ASTNode::Call(n).lemma_tree_of_children();
        }
        let CallNode { callee, arguments } = n;
        self.descend(Kont::Callee { arguments }, *callee)
    }

    fn enter_return(&mut self, n: ReturnNode)
        requires
            old(self).environment.wf(),
        ensures
            final(self).environment.wf(),
            final(self)@ == enter(old(self)@, ASTNode::Return(n)@),
    {
        match n.value {
            Some(e) => self.descend(Kont::Return, *e),
            None => self.set_control(Control::Leave(Flow::Return(Value::Null))),
        }
    }

    fn enter_if(&mut self, n: IfNode)
        requires
            old(self).environment.wf(),
        ensures
            final(self).environment.wf(),
            final(self)@ == enter(old(self)@, ASTNode::If(n)@),
    {
        proof {
            ASTNode::If(n).lemma_tree_of_children();
        }
        let IfNode { condition, then_branch, elif_branches, else_branch } = n;
        let otherwise = match else_branch {
            Some(e) => Some(*e),
            None => None,
        };
        self.descend(
            Kont::Condition {
                then_branch: *then_branch,
                elif_branches,
                next: 0,
                else_branch: otherwise,
            },
            *condition,
        )
    }

    fn enter_while(&mut self, n: WhileNode)
        requires
            old(self).environment.wf(),
        ensures
            final(self).environment.wf(),
            final(self)@ == enter(old(self)@, ASTNode::While(n)@),
    {
        let WhileNode { condition, body } = n;
        let first = condition.duplicate();
        self.descend(Kont::WhileCondition { condition: *condition, body: *body, last: None }, first)
    }

    fn enter_for(&mut self, n: ForNode)
        requires
            old(self).environment.wf(),
        ensures
            final(self).environment.wf(),
            final(self)@ == enter(old(self)@, ASTNode::For(n)@),
    {
        let ForNode { variable, iterable, body } = n;
        self.descend(Kont::ForIterable { variable, body: *body }, *iterable)
    }

    /// Declares a function: binds its name, in the current scope, to the
    /// function with that scope as the one it was declared in.
    fn evaluate_function(&mut self, declaration: FunctionNode)
        requires
            old(self).environment.wf(),
        ensures
            final(self).environment.wf(),
            final(self)@ == define_and_leave(
                old(self)@,
                declaration.name@,
                Val::Function {
                    name: declaration.name@,
                    parameters: texts(declaration.parameters@),
                    body: declaration.body@,
                    scope: old(self)@.env.current,
                },
            ),
    {
        proof {
            self.environment.lemma_wf();
        }
        let FunctionNode { name, parameters, body } = declaration;
        let function = Value::Function {
            name: name.clone(),
            parameters,
            body: *body,
            scope: self.environment.current(),
        };
        self.define_and_finish(name, function);
    }

    /// Goes on with a block after `next` of its statements: evaluates the
    /// next one or, after the last, hands on `last`, the value of that one.
    fn evaluate_block(&mut self, statements: Vec<ASTNode>, next: usize, last: Option<Value>)
        requires
            old(self).environment.wf(),
        ensures
            final(self).environment.wf(),
            final(self)@ == (if next < statements@.len() {
                descend(
                    old(self)@,
                    KontView::Block { statements: trees(statements@), next: (next + 1) as nat },
                    trees(statements@)[next as int],
                )
            } else {
                with_control(old(self)@, ControlView::Leave(FlowView::Normal(opt(last))))
            }),
    {
        if next < statements.len() {
            let statement = statements[next].duplicate();
            self.descend(Kont::Block { statements, next: next + 1 }, statement)
        } else {
            self.set_control(Control::Leave(Flow::Normal(last)))
        }
    }

    /// Goes on with a list after `next` of its elements, which have the
    /// values `done`: evaluates the next one or, after the last, hands on
    /// the list.
    fn evaluate_list(&mut self, elements: Vec<ASTNode>, next: usize, done: Vec<Value>)
        requires
            old(self).environment.wf(),
        ensures
            final(self).environment.wf(),
            final(self)@ == (if next < elements@.len() {
                descend(
                    old(self)@,
                    KontView::Element {
                        elements: trees(elements@),
                        next: (next + 1) as nat,
                        done: vals(done@),
                    },
                    trees(elements@)[next as int],
                )
            } else {
                with_control(old(self)@, value(Val::List(vals(done@))))
            }),
    {
        if next < elements.len() {
            let element = elements[next].duplicate();
            self.descend(Kont::Element { elements, next: next + 1, done }, element)
        } else {
            let list = Value::List(done);
            proof {
                list.lemma_list();
            }
            self.finish(list)
        }
    }

    /// Binds each parameter, in order, to the argument at the same index, in
    /// the current scope. Where their numbers differ, nothing is bound.
    fn bind_parameters(&mut self, parameters: &Vec<String>, arguments: &Vec<Value>)
        requires
            old(self).environment.wf(),
            all_fit(vals(arguments@), old(self)@.env.scopes.len()),
        ensures
            final(self).environment.wf(),
            final(self)@ == (MachineView {
                env: EnvView {
                    scopes: bind_all(
                        old(self)@.env.scopes,
                        old(self)@.env.current,
                        texts(parameters@),
                        vals(arguments@),
                    ),
                    current: old(self)@.env.current,
                },
                stack: old(self)@.stack,
                control: old(self)@.control,
                natives: old(self)@.natives,
            }),
    {
        if parameters.len() != arguments.len() {
            return ;
        }
        let ghost names = texts(parameters@);
        let ghost values = vals(arguments@);
        let mut i: usize = 0;
        assert(names.take(0) =~= Seq::<Seq<char>>::empty());
        while i < parameters.len()
            invariant
                i <= parameters.len(),
                parameters.len() == arguments.len(),
                names == texts(parameters@),
                values == vals(arguments@),
                self.environment.wf(),
                all_fit(values, self@.env.scopes.len()),
                self@.stack == old(self)@.stack,
                self@.control == old(self)@.control,
                self@.natives == old(self)@.natives,
                self@.env.current == old(self)@.env.current,
                self@.env.scopes.len() == old(self)@.env.scopes.len(),
                self@.env.scopes == bind_all(
                    old(self)@.env.scopes,
                    old(self)@.env.current,
                    names.take(i as int),
                    values.take(i as int),
                ),
            decreases parameters.len() - i,
        {
            assert(fits(values[i as int], self@.env.scopes.len()));
            proof {
                self.environment.lemma_wf();
            }
            self.environment.define(parameters[i].clone(), arguments[i].duplicate());
            proof {
                assert(names.take(i + 1).drop_last() =~= names.take(i as int));
                assert(values.take(i + 1).drop_last() =~= values.take(i as int));
                assert(names.take(i + 1).last() == names[i as int]);
                assert(values.take(i + 1).last() == values[i as int]);
            }
            i += 1;
        }
        assert(names.take(i as int) =~= names);
        assert(values.take(i as int) =~= values);
    }

    /// Takes up the call of `callee` with the values `arguments`. A function
    /// of the program gets a new scope inside the one it was declared in,
    /// with its parameters bound there, and its body is evaluated; a native
    /// function is asked for from the embedding program.
    fn evaluate_call(&mut self, callee: Value, arguments: Vec<Value>)
        requires
            old(self).environment.wf(),
            fits(callee@, old(self)@.env.scopes.len()),
            all_fit(vals(arguments@), old(self)@.env.scopes.len()),
        ensures
            final(self).environment.wf(),
            final(self)@ == invoke(old(self)@, callee@, vals(arguments@)),
    {
        match callee {
            Value::Function { name, parameters, body, scope } => {
                let caller = self.environment.current();
                self.environment.enter(scope);
                proof {
                    assert forall|i: int| 0 <= i < vals(arguments@).len() implies fits(
                        #[trigger] vals(arguments@)[i],
                        self@.env.scopes.len(),
                    ) by {
                        lemma_fits_more(
                            vals(arguments@)[i],
                            old(self)@.env.scopes.len(),
                            self@.env.scopes.len(),
                        );
                    }
                }
                self.bind_parameters(&parameters, &arguments);
                self.descend(Kont::Body { caller }, body);
            },
            Value::Native(name) => self.set_control(
                Control::Await(Pending::Native { name, arguments }),
            ),
            _ => self.fail(fail_with(RuntimeKind::TypeError, "Not callable", 0, 0)),
        }
    }

    fn resume_binary_left(
        &mut self,
        operator: TokenType,
        right: ASTNode,
        line: usize,
        column: usize,
        got: Value,
    )
        requires
            old(self).environment.wf(),
        ensures
            final(self).environment.wf(),
            final(self)@ == resume(
                old(self)@,
                KontView::BinaryLeft {
                    operator,
                    right: right@,
                    line: line as nat,
                    column: column as nat,
                },
                Some(got@),
            ),
    {
        if operator == TokenType::KeywordAnd && !got.is_truthy() {
            self.finish(Value::Boolean(false))
        } else if operator == TokenType::KeywordOr && got.is_truthy() {
            self.finish(Value::Boolean(true))
        } else {
            self.descend(Kont::BinaryRight { operator, left: got, line, column }, right)
        }
    }

    /// Applies a binary operator to the values of its operands.
    fn evaluate_binary_op(
        &mut self,
        operator: TokenType,
        left: Value,
        line: usize,
        column: usize,
        got: Value,
    )
        requires
            old(self).environment.wf(),
        ensures
            final(self).environment.wf(),
            final(self)@ == resume(
                old(self)@,
                KontView::BinaryRight {
                    operator,
                    left: left@,
                    line: line as nat,
                    column: column as nat,
                },
                Some(got@),
            ),
    {
        if operator == TokenType::KeywordAnd || operator == TokenType::KeywordOr {
            self.finish(Value::Boolean(got.is_truthy()))
        } else {
            self.settle(binary_operation(operator, left, got, line, column))
        }
    }

    /// Applies a unary operator to the value of its operand.
    fn evaluate_unary_op(&mut self, operator: TokenType, got: Value)
        requires
            old(self).environment.wf(),
        ensures
            final(self).environment.wf(),
            final(self)@ == resume(old(self)@, KontView::Unary { operator }, Some(got@)),
    {
        self.settle(unary_operation(operator, got))
    }

    /// Binds a name to the value that was assigned to it, in the current
    /// scope, and hands that value on.
    fn evaluate_assignment(&mut self, name: String, got: Value)
        requires
            old(self).environment.wf(),
            fits(got@, old(self)@.env.scopes.len()),
        ensures
            final(self).environment.wf(),
            final(self)@ == resume(old(self)@, KontView::Assign { name: name@ }, Some(got@)),
    {
        self.define_and_finish(name, got)
    }

    /// Goes on with a call once the value that is called is known: a
    /// function of the program must get as many arguments as it has
    /// parameters; then the arguments are evaluated from left to right.
    fn begin_call(&mut self, arguments: Vec<ASTNode>, callee: Value)
        requires
            old(self).environment.wf(),
            fits(callee@, old(self)@.env.scopes.len()),
        ensures
            final(self).environment.wf(),
            final(self)@ == resume(
                old(self)@,
                KontView::Callee { arguments: trees(arguments@) },
                Some(callee@),
            ),
    {
        let callable = match &callee {
            Value::Function { parameters, .. } => {
                if parameters.len() != arguments.len() {
                    self.fail(arity_failure(parameters.len(), arguments.len()));
                    return ;
                }
                true
            },
            Value::Native(_) => true,
            _ => false,
        };
        if !callable {
            self.fail(fail_with(RuntimeKind::TypeError, "Not callable", 0, 0));
            return ;
        }
        let done: Vec<Value> = Vec::new();
        assert(vals(done@) =~= Seq::<Val>::empty());
        if arguments.len() == 0 {
            self.evaluate_call(callee, done)
        } else {
            let first = arguments[0].duplicate();
            self.descend(Kont::Arguments { callee, arguments, next: 1, done }, first)
        }
    }

    fn next_argument(
        &mut self,
        callee: Value,
        arguments: Vec<ASTNode>,
        next: usize,
        done: Vec<Value>,
        got: Value,
    )
        requires
            old(self).environment.wf(),
            fits(callee@, old(self)@.env.scopes.len()),
            all_fit(vals(done@), old(self)@.env.scopes.len()),
            fits(got@, old(self)@.env.scopes.len()),
        ensures
            final(self).environment.wf(),
            final(self)@ == resume(
                old(self)@,
                KontView::Arguments {
                    callee: callee@,
                    arguments: trees(arguments@),
                    next: next as nat,
                    done: vals(done@),
                },
                Some(got@),
            ),
    {
        let mut done = done;
        let ghost before = vals(done@);
        let ghost added = got@;
        done.push(got);
        assert(vals(done@) =~= before.push(added));
        if next < arguments.len() {
            let argument = arguments[next].duplicate();
            self.descend(Kont::Arguments { callee, arguments, next: next + 1, done }, argument)
        } else {
            self.evaluate_call(callee, done)
        }
    }

    /// Goes on with a conditional once a condition is known: evaluates the
    /// branch of a condition that holds, else the next `elif` condition,
    /// else the `else` branch; with none of these the conditional is null.
    fn evaluate_if(
        &mut self,
        then_branch: ASTNode,
        elif_branches: Vec<(ASTNode, ASTNode)>,
        next: usize,
        else_branch: Option<ASTNode>,
        got: Value,
    )
        requires
            old(self).environment.wf(),
        ensures
            final(self).environment.wf(),
            final(self)@ == resume(
                old(self)@,
                KontView::Condition {
                    then_branch: then_branch@,
                    elif_branches: tree_pairs(elif_branches@),
                    next: next as nat,
                    else_branch: match else_branch {
                        Some(e) => Some(e@),
                        None => None,
                    },
                },
                Some(got@),
            ),
    {
        if got.is_truthy() {
            if next == 0 || next > elif_branches.len() {
                self.descend(Kont::Branch, then_branch)
            } else {
                let body = elif_branches[next - 1].1.duplicate();
                self.descend(Kont::Branch, body)
            }
        } else if next < elif_branches.len() {
            let condition = elif_branches[next].0.duplicate();
            self.descend(
                Kont::Condition { then_branch, elif_branches, next: next + 1, else_branch },
                condition,
            )
        } else {
            match else_branch {
                Some(e) => self.descend(Kont::Branch, e),
                None => self.finish(Value::Null),
            }
        }
    }

    /// Goes on with a `while` loop once its condition is known: evaluates
    /// the body, or ends the loop with the value of the body's last run.
    fn evaluate_while(&mut self, condition: ASTNode, body: ASTNode, last: Option<Value>, got: Value)
        requires
            old(self).environment.wf(),
        ensures
            final(self).environment.wf(),
            final(self)@ == resume(
                old(self)@,
                KontView::WhileCondition { condition: condition@, body: body@, last: opt(last) },
                Some(got@),
            ),
    {
        if got.is_truthy() {
            let run = body.duplicate();
            self.descend(Kont::WhileBody { condition, body }, run)
        } else {
            self.finish(value_of(last))
        }
    }

    /// Begins a `for` loop once the value it runs over is known, which must
    /// be a list: binds the variable to the first item and evaluates the
    /// body.
    fn begin_for(&mut self, variable: String, body: ASTNode, got: Value)
        requires
            old(self).environment.wf(),
            fits(got@, old(self)@.env.scopes.len()),
        ensures
            final(self).environment.wf(),
            final(self)@ == resume(
                old(self)@,
                KontView::ForIterable { variable: variable@, body: body@ },
                Some(got@),
            ),
    {
        proof {
            got.lemma_list();
        }
        match got {
            Value::List(items) => self.next_item(variable, items, 0, body, None),
            _ => self.fail(
                fail_with(RuntimeKind::TypeError, "Can only iterate over a list", 0, 0),
            ),
        }
    }

    /// Goes on with a `for` loop after `next` of its items: binds the
    /// variable to the next item and evaluates the body or, after the last
    /// item, ends the loop with `last`, or with null where it is absent.
    fn next_item(
        &mut self,
        variable: String,
        items: Vec<Value>,
        next: usize,
        body: ASTNode,
        last: Option<Value>,
    )
        requires
            old(self).environment.wf(),
            all_fit(vals(items@), old(self)@.env.scopes.len()),
        ensures
            final(self).environment.wf(),
            final(self)@ == (if next < items@.len() {
                MachineView {
                    env: EnvView {
                        scopes: crate::environment::bind(
                            old(self)@.env.scopes,
                            old(self)@.env.current,
                            variable@,
                            vals(items@)[next as int],
                        ),
                        current: old(self)@.env.current,
                    },
                    stack: old(self)@.stack.push(
                        KontView::ForBody {
                            variable: variable@,
                            items: vals(items@),
                            next: (next + 1) as nat,
                            body: body@,
                        },
                    ),
                    control: ControlView::Enter(body@),
                    natives: old(self)@.natives,
                }
            } else {
                with_control(old(self)@, value(value_or_null(opt(last))))
            }),
    {
        if next < items.len() {
            assert(fits(vals(items@)[next as int], self@.env.scopes.len()));
            self.environment.define(variable.clone(), items[next].duplicate());
            let run = body.duplicate();
            self.descend(Kont::ForBody { variable, items, next: next + 1, body }, run)
        } else {
            self.finish(value_of(last))
        }
    }

    /// Hands the value of a `return` on as the signal that ends a call.
    fn evaluate_return(&mut self, got: Value)
        requires
            old(self).environment.wf(),
        ensures
            final(self).environment.wf(),
            final(self)@ == resume(old(self)@, KontView::Return, Some(got@)),
    {
        self.set_control(Control::Leave(Flow::Return(got)))
    }

    fn next_element(&mut self, elements: Vec<ASTNode>, next: usize, done: Vec<Value>, got: Value)
        requires
            old(self).environment.wf(),
        ensures
            final(self).environment.wf(),
            final(self)@ == resume(
                old(self)@,
                KontView::Element {
                    elements: trees(elements@),
                    next: next as nat,
                    done: vals(done@),
                },
                Some(got@),
            ),
    {
        let mut done = done;
        let ghost before = vals(done@);
        let ghost added = got@;
        done.push(got);
        assert(vals(done@) =~= before.push(added));
        self.evaluate_list(elements, next, done)
    }

    /// Hands the value `v` to the construct `k`, which waited for it and
    /// was taken from the stack.
    fn deliver(&mut self, k: Kont, v: Option<Value>)
        requires
            old(self).environment.wf(),
            kont_ok(k@, old(self)@.env.scopes.len()),
            crate::machine::option_fits(opt(v), old(self)@.env.scopes.len()),
            !takes_signals(k@),
        ensures
            final(self).environment.wf(),
            final(self)@ == resume(old(self)@, k@, opt(v)),
    {
        match k {
            Kont::Block { statements, next } => self.evaluate_block(statements, next, v),
            other => {
                let got = value_of(v);
                assert(resume(old(self)@, other@, opt(v)) == resume(
                    old(self)@,
                    other@,
                    Some(got@),
                ));
                self.resume_with(other, got)
            },
        }
    }

    fn resume_with(&mut self, k: Kont, got: Value)
        requires
            old(self).environment.wf(),
            kont_ok(k@, old(self)@.env.scopes.len()),
            fits(got@, old(self)@.env.scopes.len()),
            !takes_signals(k@),
            !(k is Block),
        ensures
            final(self).environment.wf(),
            final(self)@ == resume(old(self)@, k@, Some(got@)),
    {
        match k {
            Kont::BinaryLeft { operator, right, line, column } => self.resume_binary_left(
                operator,
                right,
                line,
                column,
                got,
            ),
            Kont::BinaryRight { operator, left, line, column } => self.evaluate_binary_op(
                operator,
                left,
                line,
                column,
                got,
            ),
            Kont::Unary { operator } => self.evaluate_unary_op(operator, got),
            Kont::Assign { name } => self.evaluate_assignment(name, got),
            Kont::Callee { arguments } => self.begin_call(arguments, got),
            Kont::Arguments { callee, arguments, next, done } => self.next_argument(
                callee,
                arguments,
                next,
                done,
                got,
            ),
            Kont::Condition { then_branch, elif_branches, next, else_branch } => self.evaluate_if(
                then_branch,
                elif_branches,
                next,
                else_branch,
                got,
            ),
            Kont::Branch => self.finish(got),
            Kont::WhileCondition { condition, body, last } => self.evaluate_while(
                condition,
                body,
                last,
                got,
            ),
            Kont::ForIterable { variable, body } => self.begin_for(variable, body, got),
            Kont::Return => self.evaluate_return(got),
            Kont::Element { elements, next, done } => self.next_element(elements, next, done, got),
            _ => {},
        }
    }

    /// Hands the outcome of a function's body to the call that waited for
    /// it, and goes back to the caller's scope: the call's value is what the
    /// body returned, or null where it came to its end.
    fn end_call(&mut self, caller: usize, flow: Flow)
        requires
            old(self).environment.wf(),
            caller < old(self)@.env.scopes.len(),
        ensures
            final(self).environment.wf(),
            final(self)@ == take(old(self)@, KontView::Body { caller: caller as nat }, flow@),
    {
        match flow {
            Flow::Normal(_) => {
                self.environment.switch_to(caller);
                self.finish(Value::Null)
            },
            Flow::Return(v) => {
                self.environment.switch_to(caller);
                self.finish(v)
            },
            Flow::Break => self.fail(fail_with(RuntimeKind::Other, "Break outside loop", 0, 0)),
            Flow::Continue => self.fail(
                fail_with(RuntimeKind::Other, "Continue outside loop", 0, 0),
            ),
        }
    }

    fn end_while_body(&mut self, condition: ASTNode, body: ASTNode, flow: Flow)
        requires
            old(self).environment.wf(),
        ensures
            final(self).environment.wf(),
            final(self)@ == take(
                old(self)@,
                KontView::WhileBody { condition: condition@, body: body@ },
                flow@,
            ),
    {
        match flow {
            Flow::Normal(v) => {
                let again = condition.duplicate();
                self.descend(Kont::WhileCondition { condition, body, last: v }, again)
            },
            Flow::Continue => {
                let again = condition.duplicate();
                self.descend(Kont::WhileCondition { condition, body, last: None }, again)
            },
            Flow::Break => self.finish(Value::Null),
            Flow::Return(v) => self.set_control(Control::Leave(Flow::Return(v))),
        }
    }

    fn end_for_body(
        &mut self,
        variable: String,
        items: Vec<Value>,
        next: usize,
        body: ASTNode,
        flow: Flow,
    )
        requires
            old(self).environment.wf(),
            all_fit(vals(items@), old(self)@.env.scopes.len()),
        ensures
            final(self).environment.wf(),
            final(self)@ == take(
                old(self)@,
                KontView::ForBody {
                    variable: variable@,
                    items: vals(items@),
                    next: next as nat,
                    body: body@,
                },
                flow@,
            ),
    {
        match flow {
            Flow::Break => self.finish(Value::Null),
            Flow::Return(v) => self.set_control(Control::Leave(Flow::Return(v))),
            Flow::Normal(v) => self.next_item(variable, items, next, body, v),
            Flow::Continue => self.next_item(variable, items, next, body, None),
        }
    }

    /// Hands the outcome `flow` to the construct that waits innermost, or
    /// ends the program with it where none waits.
    fn leave(&mut self, flow: Flow)
        requires
            old(self).environment.wf(),
            stack_ok(old(self)@.stack, old(self)@.env.scopes.len()),
            crate::machine::flow_ok(flow@, old(self)@.env.scopes.len()),
        ensures
            final(self).environment.wf(),
            final(self)@ == leave(old(self)@, flow@),
    {
        let ghost before = self@;
        match self.stack.pop() {
            None => match flow {
                Flow::Normal(v) => self.set_control(Control::Done(v)),
                Flow::Return(_) => self.fail(
                    fail_with(RuntimeKind::Other, "Return outside function", 0, 0),
                ),
                Flow::Break => self.fail(fail_with(RuntimeKind::Other, "Break outside loop", 0, 0)),
                Flow::Continue => self.fail(
                    fail_with(RuntimeKind::Other, "Continue outside loop", 0, 0),
                ),
            },
            Some(k) => {
                assert(self@.stack =~= before.stack.drop_last());
                assert(k@ == before.stack.last());
                assert(kont_ok(before.stack[before.stack.len() - 1], before.env.scopes.len()));
                match k {
                    Kont::Body { caller } => self.end_call(caller, flow),
                    Kont::WhileBody { condition, body } => self.end_while_body(
                        condition,
                        body,
                        flow,
                    ),
                    Kont::ForBody { variable, items, next, body } => self.end_for_body(
                        variable,
                        items,
                        next,
                        body,
                        flow,
                    ),
                    other => match flow {
                        Flow::Normal(v) => self.deliver(other, v),
                        signal => self.set_control(Control::Leave(signal)),
                    },
                }
            },
        }
    }

    /// A machine with one empty scope, no program, and the native functions
    /// of the language.
    pub fn new() -> (machine: Self)
        ensures
            machine.wf(),
            machine@.control is Idle,
            machine@.stack.len() == 0,
            machine@.natives == crate::builtins::builtin_names(),
            machine@.env == crate::environment::fresh(),
    {
        Self::with_natives(crate::builtins::get_builtin_functions())
    }

    /// Loads a program. What was running is dropped; the scopes stay, and
    /// the outermost one is the current one.
    pub fn start(&mut self, program: ASTNode)
        requires
            old(self).wf(),
        ensures
            final(self).wf(),
            final(self)@ == load(old(self)@, program@),
    {
        proof {
            self.environment.lemma_wf();
            lemma_load_ok(self@, program@);
        }
        self.stack.clear();
        self.environment.switch_to(0);
        self.control = Control::Enter(program);
        assert(self@.stack =~= Seq::empty());
    }

    /// Takes one step.
    pub fn step(&mut self)
        requires
            old(self).wf(),
        ensures
            final(self).wf(),
            final(self)@ == step(old(self)@),
    {
        proof {
            lemma_step_ok(self@);
        }
        let mut control = Control::Idle;
        core::mem::swap(&mut self.control, &mut control);
        match control {
            Control::Enter(node) => self.evaluate(node),
            Control::Leave(flow) => self.leave(flow),
            other => {
                self.control = other;
            },
        }
    }

    /// Whether the machine can take a step on its own.
    pub fn is_running(&self) -> (r: bool)
        ensures
            r == is_running(self@),
    {
        match &self.control {
            Control::Enter(_) => true,
            Control::Leave(_) => true,
            _ => false,
        }
    }

    /// Takes the answer of the embedding program to what the machine asked
    /// for.
    pub fn answer(&mut self, reply: Reply)
        requires
            old(self).wf(),
        ensures
            final(self).wf(),
            final(self)@ == answer(old(self)@, reply@),
    {
        proof {
            lemma_answer_ok(self@, reply@);
        }
        let expected: u8 = match &self.control {
            Control::Await(Pending::Number { .. }) => 1,
            Control::Await(Pending::Arithmetic { .. }) => 1,
            Control::Await(Pending::Native { .. }) => 2,
            _ => 0,
        };
        match reply {
            Reply::Number(bits) => {
                if expected == 1 {
                    self.finish(Value::Number(bits))
                } else {
                    self.fail(fail_with(RuntimeKind::Other, "Unexpected reply", 0, 0))
                }
            },
            Reply::Value(v) => {
                if expected == 2 {
                    if v.fits_in(self.environment.count()) {
                        self.finish(v)
                    } else {
                        self.fail(
                            fail_with(
                                RuntimeKind::Other,
                                "Invalid value from native function",
                                0,
                                0,
                            ),
                        )
                    }
                } else {
                    self.fail(fail_with(RuntimeKind::Other, "Unexpected reply", 0, 0))
                }
            },
            Reply::Failure(e) => {
                if expected != 0 {
                    self.fail(e)
                } else {
                    self.fail(fail_with(RuntimeKind::Other, "Unexpected reply", 0, 0))
                }
            },
        }
    }

    /// What the machine tells the embedding program in the state it is in.
    pub fn request(&self) -> (r: Request)
        ensures
            r@ == request_of(self@.control),
    {
        match &self.control {
            Control::Idle => Request::Done(None),
            Control::Done(v) => Request::Done(
                match v {
                    Some(v) => Some(v.duplicate()),
                    None => None,
                },
            ),
            Control::Failed(e) => Request::Failed(copy_error(e)),
            Control::Await(Pending::Number { numeral }) => Request::Number {
                numeral: numeral.clone(),
            },
            Control::Await(Pending::Arithmetic { operator, left, right }) => Request::Arithmetic {
                operator: *operator,
                left: *left,
                right: *right,
            },
            Control::Await(Pending::Native { name, arguments }) => Request::Native {
                name: name.clone(),
                arguments: duplicate_values(arguments),
            },
            Control::Enter(_) => Request::Paused,
            Control::Leave(_) => Request::Paused,
        }
    }

    /// Takes steps until the machine needs the embedding program or the
    /// program has ended, at most `budget` of them, and tells what it
    /// stopped for.
    pub fn run(&mut self, budget: u64) -> (r: Request)
        requires
            old(self).wf(),
        ensures
            final(self).wf(),
            final(self)@ == run(old(self)@, budget as nat),
            r@ == request_of(final(self)@.control),
    {
        let mut left = budget;
        while left > 0 && self.is_running()
            invariant
                self.wf(),
                run(self@, left as nat) == run(old(self)@, budget as nat),
            decreases left,
        {
            self.step();
            left -= 1;
        }
        self.request()
    }

    /// Ends what was running with the error `e`, as a program does that
    /// cannot begin: a source text that has an error.
    pub fn refuse(&mut self, e: KyaroError) -> (r: Request)
        requires
            old(self).wf(),
        ensures
            final(self).wf(),
            final(self)@ == failed(old(self)@, e@),
            r@ == request_of(final(self)@.control),
    {
        proof {
            self.lemma_wf();
            crate::machine::lemma_failed_ok(self@, e@);
        }
        self.fail(e);
        self.request()
    }

    /// Loads a program and runs it until the machine needs the embedding
    /// program or the program has ended.
    pub fn interpret(&mut self, node: ASTNode) -> (r: Request)
        requires
            old(self).wf(),
        ensures
            final(self).wf(),
            final(self)@ == run(load(old(self)@, node@), u64::MAX as nat),
            r@ == request_of(final(self)@.control),
    {
        self.start(node);
        self.run(u64::MAX)
    }

    /// Takes the answer of the embedding program and runs on until the
    /// machine needs it again or the program has ended.
    pub fn resume(&mut self, reply: Reply) -> (r: Request)
        requires
            old(self).wf(),
        ensures
            final(self).wf(),
            final(self)@ == run(answer(old(self)@, reply@), u64::MAX as nat),
            r@ == request_of(final(self)@.control),
    {
        self.answer(reply);
        self.run(u64::MAX)
    }
}

/// A copy of an error.
pub fn copy_error(e: &KyaroError) -> (copy: KyaroError)
    ensures
        copy@ == e@,
{
    match e {
        KyaroError::LexerError { message, line, column } => KyaroError::LexerError {
            message: message.clone(),
            line: *line,
            column: *column,
        },
        KyaroError::ParserError { message, line, column } => KyaroError::ParserError {
            message: message.clone(),
            line: *line,
            column: *column,
        },
        KyaroError::RuntimeError { kind, message, line, column } => KyaroError::RuntimeError {
            kind: *kind,
            message: message.clone(),
            line: *line,
            column: *column,
        },
        KyaroError::GenericError { message } => KyaroError::GenericError {
            message: message.clone(),
        },
    }
}

} // verus!
