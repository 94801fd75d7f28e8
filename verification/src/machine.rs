use crate::ast_nodes::Ast;
use crate::environment::{
    bind, env_ok, fits, lemma_bind_ok, lemma_fits_more, lemma_open_ok, lemma_resolve_fits,
    open_scope, resolve, scopes_ok, truthy, unbound, EnvView, ScopeView, Val,
};
use crate::errors::{ErrorKind, ErrorView, RuntimeKind};
use crate::lexer::symbol_text;
use crate::number::{
    equal, exact_difference, exact_product, exact_quotient, exact_remainder, exact_sum,
    integer_of, is_negative, is_zero, lemma_small_bits, less, less_or_equal, negated, small_bits,
    EXACT,
};
use crate::text::{decimal, digits_value};
use crate::token_types::TokenType;
use vstd::prelude::*;

verus! {

// The evaluator is a machine that walks the syntax tree one step at a time.
// It works on everything but three things, which it asks the embedding
// program for: the numbers that numerals stand for, arithmetic on numbers,
// and the functions that the program has not declared itself. Of the first
// two it asks only for what is no matter of whole numbers up to two to the
// power 53. This file says, on mathematical values, what one step does; the
// machine itself is in `interpreter`.

/// What evaluating a node gives: a value, or a signal that unwinds to the
/// construct that takes it.
pub enum FlowView {
    /// The node's value; an empty block has none.
    Normal(Option<Val>),
    /// A `return` with its value, on its way to the call it ends.
    Return(Val),
    /// A `break`, on its way to the loop it ends.
    Break,
    /// A `continue`, on its way to the loop it goes on with.
    Continue,
}

/// What the machine waits for from the embedding program.
pub enum PendingView {
    /// The number that a numeral stands for: one with a `.` in it, or one
    /// for a whole number above two to the power 53.
    Number { numeral: Seq<char> },
    /// The result of `+`, `-`, `*`, `/` or `%` on two numbers, where the
    /// machine does not find it itself.
    Arithmetic { operator: TokenType, left: u64, right: u64 },
    /// The result of calling a native function.
    Native { name: Seq<char>, arguments: Seq<Val> },
}

/// What the machine does next.
pub enum ControlView {
    /// Nothing: no program was started.
    Idle,
    /// Evaluate this node.
    Enter(Ast),
    /// Hand this outcome to the construct that waits for it.
    Leave(FlowView),
    /// Wait for the embedding program.
    Await(PendingView),
    /// Nothing: the program ended with this value.
    Done(Option<Val>),
    /// Nothing: the program ended with this error.
    Failed(ErrorView),
}

/// A construct that waits for the outcome of one of its parts, with what it
/// needs to go on.
pub enum KontView {
    /// A binary operation waits for its left operand.
    BinaryLeft { operator: TokenType, right: Ast, line: nat, column: nat },
    /// A binary operation waits for its right operand.
    BinaryRight { operator: TokenType, left: Val, line: nat, column: nat },
    /// A unary operation waits for its operand.
    Unary { operator: TokenType },
    /// An assignment waits for its value.
    Assign { name: Seq<char> },
    /// A call waits for the value that is called.
    Callee { arguments: Seq<Ast> },
    /// A call waits for argument `next - 1`; the arguments before it have
    /// the values `done`.
    Arguments { callee: Val, arguments: Seq<Ast>, next: nat, done: Seq<Val> },
    /// A call waits for the body of the function; `caller` is the scope to
    /// go back to.
    Body { caller: nat },
    /// A block waits for statement `next - 1`.
    Block { statements: Seq<Ast>, next: nat },
    /// A conditional waits for a condition: its own where `next` is zero,
    /// else that of `elif` branch `next - 1`.
    Condition {
        then_branch: Ast,
        elif_branches: Seq<(Ast, Ast)>,
        next: nat,
        else_branch: Option<Ast>,
    },
    /// A conditional waits for the branch it chose.
    Branch,
    /// A `while` loop waits for its condition; `last` is the value of the
    /// body's last run.
    WhileCondition { condition: Ast, body: Ast, last: Option<Val> },
    /// A `while` loop waits for its body.
    WhileBody { condition: Ast, body: Ast },
    /// A `for` loop waits for the value it runs over.
    ForIterable { variable: Seq<char>, body: Ast },
    /// A `for` loop waits for its body, run for item `next - 1`.
    ForBody { variable: Seq<char>, items: Seq<Val>, next: nat, body: Ast },
    /// A `return` waits for its value.
    Return,
    /// A list waits for element `next - 1`; the elements before it have the
    /// values `done`.
    Element { elements: Seq<Ast>, next: nat, done: Seq<Val> },
}

/// The machine as a mathematical value.
pub struct MachineView {
    pub env: EnvView,
    /// The constructs that wait, the innermost last.
    pub stack: Seq<KontView>,
    pub control: ControlView,
    /// The names of the native functions.
    pub natives: Seq<Seq<char>>,
}

/// What the embedding program answers.
pub enum ReplyView {
    Number(u64),
    Value(Val),
    Failure(ErrorView),
}

/// The value `v`, or null where there is none.
pub open spec fn value_or_null(v: Option<Val>) -> Val {
    match v {
        Some(v) => v,
        None => Val::Null,
    }
}

/// A runtime error of kind `kind`.
pub open spec fn failure(kind: RuntimeKind, message: Seq<char>, line: nat, column: nat) -> ErrorView {
    ErrorView { kind: ErrorKind::Runtime(kind), message, line, column }
}

/// Equality of two values, as `==` of the language sees it: numbers by
/// their value, strings by their text, booleans and null as they are; a list
/// or a function equals nothing.
pub open spec fn values_equal(a: Val, b: Val) -> bool {
    match (a, b) {
        (Val::Number(x), Val::Number(y)) => equal(x, y),
        (Val::String(x), Val::String(y)) => x == y,
        (Val::Boolean(x), Val::Boolean(y)) => x == y,
        (Val::Null, Val::Null) => true,
        _ => false,
    }
}

/// The control that hands on the value `v`.
pub open spec fn value(v: Val) -> ControlView {
    ControlView::Leave(FlowView::Normal(Some(v)))
}

/// Whether `operator` is one of `+`, `-`, `*`, `/` and `%`.
pub open spec fn is_arithmetic(operator: TokenType) -> bool {
    operator == TokenType::Plus || operator == TokenType::Minus || operator == TokenType::Star
        || operator == TokenType::Slash || operator == TokenType::Percent
}

/// Whether `operator` is one of `<`, `<=`, `>` and `>=`.
pub open spec fn is_ordering(operator: TokenType) -> bool {
    operator == TokenType::LessThan || operator == TokenType::LessEquals || operator
        == TokenType::GreaterThan || operator == TokenType::GreaterEquals
}

/// The error for operands that `operator` does not take.
pub open spec fn invalid_operands(operator: TokenType, line: nat, column: nat) -> ErrorView {
    failure(RuntimeKind::TypeError, "Invalid operands for "@ + symbol_text(operator), line, column)
}

/// The result of an arithmetic operator on two numbers, where both are
/// whole numbers and the result is a whole number of a size up to two to the
/// power 53. These results the machine finds itself.
pub open spec fn exact(operator: TokenType, a: u64, b: u64) -> Option<u64> {
    if operator == TokenType::Plus {
        exact_sum(a, b)
    } else if operator == TokenType::Minus {
        exact_difference(a, b)
    } else if operator == TokenType::Star {
        exact_product(a, b)
    } else if operator == TokenType::Slash {
        exact_quotient(a, b)
    } else if operator == TokenType::Percent {
        exact_remainder(a, b)
    } else {
        None
    }
}

/// What a binary operator other than `and` and `or` makes of two values: a
/// value, a request for arithmetic, or an error at the operator's place.
pub open spec fn binary(operator: TokenType, left: Val, right: Val, line: nat, column: nat) -> ControlView {
    if operator == TokenType::EqualsEquals {
        value(Val::Boolean(values_equal(left, right)))
    } else if operator == TokenType::NotEquals {
        value(Val::Boolean(!values_equal(left, right)))
    } else if is_arithmetic(operator) {
        match (left, right) {
            (Val::Number(a), Val::Number(b)) => if operator == TokenType::Slash && is_zero(b) {
                ControlView::Failed(
                    failure(RuntimeKind::DivisionByZero, "Division by zero"@, line, column),
                )
            } else {
                match exact(operator, a, b) {
                    Some(result) => value(Val::Number(result)),
                    None => ControlView::Await(
                        PendingView::Arithmetic { operator, left: a, right: b },
                    ),
                }
            },
            (Val::String(a), Val::String(b)) => if operator == TokenType::Plus {
                value(Val::String(a + b))
            } else {
                ControlView::Failed(invalid_operands(operator, line, column))
            },
            _ => ControlView::Failed(invalid_operands(operator, line, column)),
        }
    } else if is_ordering(operator) {
        match (left, right) {
            (Val::Number(a), Val::Number(b)) => value(
                Val::Boolean(
                    if operator == TokenType::LessThan {
                        less(a, b)
                    } else if operator == TokenType::LessEquals {
                        less_or_equal(a, b)
                    } else if operator == TokenType::GreaterThan {
                        less(b, a)
                    } else {
                        less_or_equal(b, a)
                    },
                ),
            ),
            _ => ControlView::Failed(invalid_operands(operator, line, column)),
        }
    } else {
        ControlView::Failed(
            failure(RuntimeKind::NotImplemented, "Unsupported binary operator"@, line, column),
        )
    }
}

/// What a unary operator makes of a value.
pub open spec fn unary(operator: TokenType, operand: Val) -> ControlView {
    if operator == TokenType::Minus {
        match operand {
            Val::Number(bits) => value(Val::Number(negated(bits))),
            _ => ControlView::Failed(
                failure(RuntimeKind::TypeError, "Invalid operand for unary -"@, 0, 0),
            ),
        }
    } else if operator == TokenType::KeywordNot {
        value(Val::Boolean(!truthy(operand)))
    } else {
        ControlView::Failed(failure(RuntimeKind::NotImplemented, "Unsupported unary operator"@, 0, 0))
    }
}

/// The scopes after each of `names` was bound, in order, to the value at
/// the same index of `values`, in scope `id`.
pub open spec fn bind_all(
    scopes: Seq<ScopeView>,
    id: nat,
    names: Seq<Seq<char>>,
    values: Seq<Val>,
) -> Seq<ScopeView>
    decreases names.len(),
{
    if names.len() == 0 || values.len() != names.len() {
        scopes
    } else {
        bind(
            bind_all(scopes, id, names.drop_last(), values.drop_last()),
            id,
            names.last(),
            values.last(),
        )
    }
}

/// The error for a call with `given` arguments of a function with `wanted`
/// parameters.
pub open spec fn arity_error(wanted: nat, given: nat) -> ErrorView {
    failure(
        RuntimeKind::ArityError,
        "Expected "@ + decimal(wanted) + " arguments, got "@ + decimal(given),
        0,
        0,
    )
}

/// The machine with another control.
pub open spec fn with_control(m: MachineView, control: ControlView) -> MachineView {
    MachineView { env: m.env, stack: m.stack, control, natives: m.natives }
}

/// The machine after `k` was put on the stack, about to evaluate `node`.
pub open spec fn descend(m: MachineView, k: KontView, node: Ast) -> MachineView {
    MachineView {
        env: m.env,
        stack: m.stack.push(k),
        control: ControlView::Enter(node),
        natives: m.natives,
    }
}

/// The machine after the program failed with `e`: nothing waits any more,
/// and the outermost scope is the current one again.
pub open spec fn failed(m: MachineView, e: ErrorView) -> MachineView {
    MachineView {
        env: EnvView { scopes: m.env.scopes, current: 0 },
        stack: Seq::empty(),
        control: ControlView::Failed(e),
        natives: m.natives,
    }
}

/// The machine with control `c`; where `c` is a failure, the machine after
/// that failure.
pub open spec fn settle(m: MachineView, c: ControlView) -> MachineView {
    match c {
        ControlView::Failed(e) => failed(m, e),
        _ => with_control(m, c),
    }
}

/// The machine after `name` was bound to `v` in the current scope, about to
/// hand on `v`.
pub open spec fn define_and_leave(m: MachineView, name: Seq<char>, v: Val) -> MachineView {
    MachineView {
        env: EnvView {
            scopes: bind(m.env.scopes, m.env.current, name, v),
            current: m.env.current,
        },
        stack: m.stack,
        control: value(v),
        natives: m.natives,
    }
}

/// The machine after it took up the call of `callee` with `arguments`.
pub open spec fn invoke(m: MachineView, callee: Val, arguments: Seq<Val>) -> MachineView {
    match callee {
        Val::Function { name, parameters, body, scope } => MachineView {
            env: EnvView {
                scopes: bind_all(
                    open_scope(m.env.scopes, scope),
                    m.env.scopes.len(),
                    parameters,
                    arguments,
                ),
                current: m.env.scopes.len(),
            },
            stack: m.stack.push(KontView::Body { caller: m.env.current }),
            control: ControlView::Enter(body),
            natives: m.natives,
        },
        Val::Native(name) => with_control(
            m,
            ControlView::Await(PendingView::Native { name, arguments }),
        ),
        _ => failed(m, failure(RuntimeKind::TypeError, "Not callable"@, 0, 0)),
    }
}

/// What a number literal makes of its numeral: the number itself, where the
/// numeral is made of digits alone and stands for a whole number up to two to
/// the power 53, each of which is a number of the language; for every other
/// numeral, the question to the embedding program which number it stands for.
pub open spec fn number_literal(numeral: Seq<char>) -> ControlView {
    match digits_value(numeral) {
        Some(n) => if n <= EXACT {
            value(Val::Number(small_bits(n)))
        } else {
            ControlView::Await(PendingView::Number { numeral })
        },
        None => ControlView::Await(PendingView::Number { numeral }),
    }
}

/// The machine after it began to evaluate `node`.
pub open spec fn enter(m: MachineView, node: Ast) -> MachineView {
    match node {
        Ast::Number { numeral } => with_control(m, number_literal(numeral)),
        Ast::String { value: s } => with_control(m, value(Val::String(s))),
        Ast::Boolean { value: b } => with_control(m, value(Val::Boolean(b))),
        Ast::Null => with_control(m, value(Val::Null)),
        Ast::Identifier { name } => match resolve(m.env.scopes, m.env.current, name) {
            Some(v) => with_control(m, value(v)),
            None => if m.natives.contains(name) {
                with_control(m, value(Val::Native(name)))
            } else {
                failed(m, unbound(name))
            },
        },
        Ast::BinaryOp { left, operator, right, line, column } => descend(
            m,
            KontView::BinaryLeft { operator, right: *right, line, column },
            *left,
        ),
        Ast::UnaryOp { operator, operand } => descend(m, KontView::Unary { operator }, *operand),
        Ast::Assignment { name, value: v } => descend(m, KontView::Assign { name }, *v),
        Ast::Call { callee, arguments } => descend(m, KontView::Callee { arguments }, *callee),
        Ast::Function { name, parameters, body } => define_and_leave(
            m,
            name,
            Val::Function { name, parameters, body: *body, scope: m.env.current },
        ),
        Ast::Return { value: v } => match v {
            Some(e) => descend(m, KontView::Return, *e),
            None => with_control(m, ControlView::Leave(FlowView::Return(Val::Null))),
        },
        Ast::If { condition, then_branch, elif_branches, else_branch } => descend(
            m,
            KontView::Condition {
                then_branch: *then_branch,
                elif_branches,
                next: 0,
                else_branch: match else_branch {
                    Some(e) => Some(*e),
                    None => None,
                },
            },
            *condition,
        ),
        Ast::While { condition, body } => descend(
            m,
            KontView::WhileCondition { condition: *condition, body: *body, last: None },
            *condition,
        ),
        Ast::For { variable, iterable, body } => descend(
            m,
            KontView::ForIterable { variable, body: *body },
            *iterable,
        ),
        Ast::Break => with_control(m, ControlView::Leave(FlowView::Break)),
        Ast::Continue => with_control(m, ControlView::Leave(FlowView::Continue)),
        Ast::Block { statements } => if statements.len() == 0 {
            with_control(m, ControlView::Leave(FlowView::Normal(None)))
        } else {
            descend(m, KontView::Block { statements, next: 1 }, statements[0])
        },
        Ast::List { elements } => if elements.len() == 0 {
            with_control(m, value(Val::List(Seq::empty())))
        } else {
            descend(
                m,
                KontView::Element { elements, next: 1, done: Seq::empty() },
                elements[0],
            )
        },
        Ast::CompoundAssignment { .. } | Ast::Index { .. } | Ast::MemberAccess { .. } => failed(
            m,
            failure(RuntimeKind::NotImplemented, "Unsupported AST node"@, 0, 0),
        ),
    }
}

/// Whether a construct takes signals itself. Every other construct hands a
/// signal on to the construct that waits for it in turn.
pub open spec fn takes_signals(k: KontView) -> bool {
    k is Body || k is WhileBody || k is ForBody
}

/// The machine after the construct `k`, taken from the stack of `m`, got
/// the value `v` that it waited for.
pub open spec fn resume(m: MachineView, k: KontView, v: Option<Val>) -> MachineView {
    let got = value_or_null(v);
    match k {
        KontView::BinaryLeft { operator, right, line, column } => if operator
            == TokenType::KeywordAnd && !truthy(got) {
            with_control(m, value(Val::Boolean(false)))
        } else if operator == TokenType::KeywordOr && truthy(got) {
            with_control(m, value(Val::Boolean(true)))
        } else {
            descend(m, KontView::BinaryRight { operator, left: got, line, column }, right)
        },
        KontView::BinaryRight { operator, left, line, column } => if operator
            == TokenType::KeywordAnd || operator == TokenType::KeywordOr {
            with_control(m, value(Val::Boolean(truthy(got))))
        } else {
            settle(m, binary(operator, left, got, line, column))
        },
        KontView::Unary { operator } => settle(m, unary(operator, got)),
        KontView::Assign { name } => define_and_leave(m, name, got),
        KontView::Callee { arguments } => match got {
            Val::Function { parameters, .. } => if parameters.len() != arguments.len() {
                failed(m, arity_error(parameters.len(), arguments.len()))
            } else if arguments.len() == 0 {
                invoke(m, got, Seq::empty())
            } else {
                descend(
                    m,
                    KontView::Arguments { callee: got, arguments, next: 1, done: Seq::empty() },
                    arguments[0],
                )
            },
            Val::Native(_) => if arguments.len() == 0 {
                invoke(m, got, Seq::empty())
            } else {
                descend(
                    m,
                    KontView::Arguments { callee: got, arguments, next: 1, done: Seq::empty() },
                    arguments[0],
                )
            },
            _ => failed(m, failure(RuntimeKind::TypeError, "Not callable"@, 0, 0)),
        },
        KontView::Arguments { callee, arguments, next, done } => if next < arguments.len() {
            descend(
                m,
                KontView::Arguments { callee, arguments, next: next + 1, done: done.push(got) },
                arguments[next as int],
            )
        } else {
            invoke(m, callee, done.push(got))
        },
        KontView::Block { statements, next } => if next < statements.len() {
            descend(m, KontView::Block { statements, next: next + 1 }, statements[next as int])
        } else {
            with_control(m, ControlView::Leave(FlowView::Normal(v)))
        },
        KontView::Condition { then_branch, elif_branches, next, else_branch } => if truthy(got) {
            descend(
                m,
                KontView::Branch,
                if next == 0 || next > elif_branches.len() {
                    then_branch
                } else {
                    elif_branches[next - 1].1
                },
            )
        } else if next < elif_branches.len() {
            descend(
                m,
                KontView::Condition { then_branch, elif_branches, next: next + 1, else_branch },
                elif_branches[next as int].0,
            )
        } else {
            match else_branch {
                Some(e) => descend(m, KontView::Branch, e),
                None => with_control(m, value(Val::Null)),
            }
        },
        KontView::Branch => with_control(m, value(got)),
        KontView::WhileCondition { condition, body, last } => if truthy(got) {
            descend(m, KontView::WhileBody { condition, body }, body)
        } else {
            with_control(m, value(value_or_null(last)))
        },
        KontView::ForIterable { variable, body } => match got {
            Val::List(items) => if items.len() == 0 {
                with_control(m, value(Val::Null))
            } else {
                MachineView {
                    env: EnvView {
                        scopes: bind(m.env.scopes, m.env.current, variable, items[0]),
                        current: m.env.current,
                    },
                    stack: m.stack.push(KontView::ForBody { variable, items, next: 1, body }),
                    control: ControlView::Enter(body),
                    natives: m.natives,
                }
            },
            _ => failed(m, failure(RuntimeKind::TypeError, "Can only iterate over a list"@, 0, 0)),
        },
        KontView::Return => with_control(m, ControlView::Leave(FlowView::Return(got))),
        KontView::Element { elements, next, done } => if next < elements.len() {
            descend(
                m,
                KontView::Element { elements, next: next + 1, done: done.push(got) },
                elements[next as int],
            )
        } else {
            with_control(m, value(Val::List(done.push(got))))
        },
        // These take every outcome themselves, see `take`; `leave` never
        // hands them a value this way.
        KontView::Body { .. } | KontView::WhileBody { .. } | KontView::ForBody { .. } => {
            with_control(m, ControlView::Leave(FlowView::Normal(v)))
        },
    }
}

/// The machine after the construct `k`, one that takes signals and was taken
/// from the stack of `m`, got the outcome `flow` of its body.
pub open spec fn take(m: MachineView, k: KontView, flow: FlowView) -> MachineView {
    match k {
        KontView::Body { caller } => {
            let back = MachineView {
                env: EnvView { scopes: m.env.scopes, current: caller },
                stack: m.stack,
                control: m.control,
                natives: m.natives,
            };
            match flow {
                FlowView::Normal(_) => with_control(back, value(Val::Null)),
                FlowView::Return(v) => with_control(back, value(v)),
                FlowView::Break => failed(
                    m,
                    failure(RuntimeKind::Other, "Break outside loop"@, 0, 0),
                ),
                FlowView::Continue => failed(
                    m,
                    failure(RuntimeKind::Other, "Continue outside loop"@, 0, 0),
                ),
            }
        },
        KontView::WhileBody { condition, body } => match flow {
            FlowView::Normal(v) => descend(
                m,
                KontView::WhileCondition { condition, body, last: v },
                condition,
            ),
            FlowView::Continue => descend(
                m,
                KontView::WhileCondition { condition, body, last: None },
                condition,
            ),
            FlowView::Break => with_control(m, value(Val::Null)),
            FlowView::Return(v) => with_control(m, ControlView::Leave(flow)),
        },
        KontView::ForBody { variable, items, next, body } => match flow {
            FlowView::Break => with_control(m, value(Val::Null)),
            FlowView::Return(v) => with_control(m, ControlView::Leave(flow)),
            _ => if next < items.len() {
                MachineView {
                    env: EnvView {
                        scopes: bind(m.env.scopes, m.env.current, variable, items[next as int]),
                        current: m.env.current,
                    },
                    stack: m.stack.push(
                        KontView::ForBody { variable, items, next: next + 1, body },
                    ),
                    control: ControlView::Enter(body),
                    natives: m.natives,
                }
            } else {
                with_control(
                    m,
                    value(
                        match flow {
                            FlowView::Normal(v) => value_or_null(v),
                            _ => Val::Null,
                        },
                    ),
                )
            },
        },
        // Every other construct hands a signal on, see `leave`.
        _ => with_control(m, ControlView::Leave(flow)),
    }
}

/// The machine after the outcome `flow` was handed to the construct that
/// waits innermost, or, where none waits, after the program ended with it.
pub open spec fn leave(m: MachineView, flow: FlowView) -> MachineView {
    if m.stack.len() == 0 {
        match flow {
            FlowView::Normal(v) => with_control(m, ControlView::Done(v)),
            FlowView::Return(_) => failed(
                m,
                failure(RuntimeKind::Other, "Return outside function"@, 0, 0),
            ),
            FlowView::Break => failed(m, failure(RuntimeKind::Other, "Break outside loop"@, 0, 0)),
            FlowView::Continue => failed(
                m,
                failure(RuntimeKind::Other, "Continue outside loop"@, 0, 0),
            ),
        }
    } else {
        let k = m.stack.last();
        let rest = MachineView {
            env: m.env,
            stack: m.stack.drop_last(),
            control: m.control,
            natives: m.natives,
        };
        if takes_signals(k) {
            take(rest, k, flow)
        } else {
            match flow {
                FlowView::Normal(v) => resume(rest, k, v),
                _ => with_control(rest, ControlView::Leave(flow)),
            }
        }
    }
}

/// The machine one step on. A machine that waits for the embedding program,
/// or whose program has ended, stays as it is.
pub open spec fn step(m: MachineView) -> MachineView {
    match m.control {
        ControlView::Enter(node) => enter(with_control(m, ControlView::Idle), node),
        ControlView::Leave(flow) => leave(with_control(m, ControlView::Idle), flow),
        _ => m,
    }
}

/// Whether the machine can take a step on its own.
pub open spec fn is_running(m: MachineView) -> bool {
    m.control is Enter || m.control is Leave
}

/// The machine after as many steps as it can take on its own, at most
/// `budget` of them.
pub open spec fn run(m: MachineView, budget: nat) -> MachineView
    decreases budget,
{
    if budget == 0 || !is_running(m) {
        m
    } else {
        run(step(m), (budget - 1) as nat)
    }
}

/// The machine after a program was loaded: nothing waits, the outermost
/// scope is the current one, and `program` is evaluated next.
pub open spec fn load(m: MachineView, program: Ast) -> MachineView {
    MachineView {
        env: EnvView { scopes: m.env.scopes, current: 0 },
        stack: Seq::empty(),
        control: ControlView::Enter(program),
        natives: m.natives,
    }
}

/// The machine after the embedding program answered what it waited for. A
/// number answers a numeral or an arithmetic request, a value answers a call
/// of a native function, and a failure answers any of them and fails the
/// program. So does an answer that nothing waits for, and a value with a
/// function of a scope that does not exist.
pub open spec fn answer(m: MachineView, reply: ReplyView) -> MachineView {
    match (m.control, reply) {
        (ControlView::Await(PendingView::Number { .. }), ReplyView::Number(bits)) => with_control(
            m,
            value(Val::Number(bits)),
        ),
        (ControlView::Await(PendingView::Arithmetic { .. }), ReplyView::Number(bits)) => {
            with_control(m, value(Val::Number(bits)))
        },
        (ControlView::Await(PendingView::Native { .. }), ReplyView::Value(v)) => if fits(v, m.env.scopes.len()) {
            with_control(m, value(v))
        } else {
            failed(m, failure(RuntimeKind::Other, "Invalid value from native function"@, 0, 0))
        },
        (ControlView::Await(_), ReplyView::Failure(e)) => failed(m, e),
        _ => failed(m, failure(RuntimeKind::Other, "Unexpected reply"@, 0, 0)),
    }
}


/// Whether every function inside the values was declared in one of the first
/// `count` scopes.
pub open spec fn all_fit(values: Seq<Val>, count: nat) -> bool {
    forall|i: int| 0 <= i < values.len() ==> fits(#[trigger] values[i], count)
}

/// Whether the value, where there is one, fits `count` scopes.
pub open spec fn option_fits(v: Option<Val>, count: nat) -> bool {
    match v {
        Some(v) => fits(v, count),
        None => true,
    }
}

/// Whether the value that an outcome carries fits `count` scopes.
pub open spec fn flow_ok(flow: FlowView, count: nat) -> bool {
    match flow {
        FlowView::Normal(v) => option_fits(v, count),
        FlowView::Return(v) => fits(v, count),
        _ => true,
    }
}

/// Whether every value that a control holds fits `count` scopes.
pub open spec fn control_ok(control: ControlView, count: nat) -> bool {
    match control {
        ControlView::Leave(flow) => flow_ok(flow, count),
        ControlView::Await(PendingView::Native { arguments, .. }) => all_fit(arguments, count),
        ControlView::Done(v) => option_fits(v, count),
        _ => true,
    }
}

/// Whether every value that a waiting construct holds fits `count` scopes,
/// and the scope that a call goes back to is one of them.
pub open spec fn kont_ok(k: KontView, count: nat) -> bool {
    match k {
        KontView::BinaryRight { left, .. } => fits(left, count),
        KontView::Arguments { callee, done, .. } => fits(callee, count) && all_fit(done, count),
        KontView::Body { caller } => caller < count,
        KontView::WhileCondition { last, .. } => option_fits(last, count),
        KontView::ForBody { items, .. } => all_fit(items, count),
        KontView::Element { done, .. } => all_fit(done, count),
        _ => true,
    }
}

/// Whether every construct on the stack is in order for `count` scopes.
pub open spec fn stack_ok(stack: Seq<KontView>, count: nat) -> bool {
    forall|i: int| 0 <= i < stack.len() ==> kont_ok(#[trigger] stack[i], count)
}

/// Whether the machine hangs together: its scopes do, and every function
/// that it holds anywhere was declared in a scope that exists, as does every
/// scope that a call goes back to.
pub open spec fn state_ok(m: MachineView) -> bool {
    &&& env_ok(m.env)
    &&& control_ok(m.control, m.env.scopes.len())
    &&& stack_ok(m.stack, m.env.scopes.len())
}


/// Whether the scopes and the stack of the machine hang together, whatever
/// its control.
pub open spec fn base_ok(m: MachineView) -> bool {
    &&& env_ok(m.env)
    &&& stack_ok(m.stack, m.env.scopes.len())
}

/// A list fits where all its items fit.
pub proof fn lemma_list_fits(items: Seq<Val>, count: nat)
    ensures
        fits(Val::List(items), count) == all_fit(items, count),
{
    if all_fit(items, count) {
        assert forall|i: int| 0 <= i < items.len() implies fits(#[trigger] items[i], count) by {}
    } else {
        let i = choose|i: int| 0 <= i < items.len() && !fits(#[trigger] items[i], count);
        assert(!fits(Val::List(items)->List_0[i], count));
    }
}

/// Values that fit a number of scopes fit every larger number of them.
pub proof fn lemma_all_fit_more(values: Seq<Val>, count: nat, more: nat)
    requires
        all_fit(values, count),
        count <= more,
    ensures
        all_fit(values, more),
{
    assert forall|i: int| 0 <= i < values.len() implies fits(#[trigger] values[i], more) by {
        lemma_fits_more(values[i], count, more);
    }
}

/// A waiting construct that is in order for a number of scopes is in order
/// for every larger number of them.
pub proof fn lemma_kont_more(k: KontView, count: nat, more: nat)
    requires
        kont_ok(k, count),
        count <= more,
    ensures
        kont_ok(k, more),
{
    match k {
        KontView::BinaryRight { left, .. } => lemma_fits_more(left, count, more),
        KontView::Arguments { callee, done, .. } => {
            lemma_fits_more(callee, count, more);
            lemma_all_fit_more(done, count, more);
        },
        KontView::WhileCondition { last, .. } => {
            if let Some(v) = last {
                lemma_fits_more(v, count, more);
            }
        },
        KontView::ForBody { items, .. } => lemma_all_fit_more(items, count, more),
        KontView::Element { done, .. } => lemma_all_fit_more(done, count, more),
        _ => {},
    }
}

/// A stack that is in order for a number of scopes is in order for every
/// larger number of them.
pub proof fn lemma_stack_more(stack: Seq<KontView>, count: nat, more: nat)
    requires
        stack_ok(stack, count),
        count <= more,
    ensures
        stack_ok(stack, more),
{
    assert forall|i: int| 0 <= i < stack.len() implies kont_ok(#[trigger] stack[i], more) by {
        lemma_kont_more(stack[i], count, more);
    }
}

/// Binding parameters to values that fit keeps the scopes together.
pub proof fn lemma_bind_all_ok(
    scopes: Seq<ScopeView>,
    id: nat,
    names: Seq<Seq<char>>,
    values: Seq<Val>,
)
    requires
        scopes_ok(scopes),
        id < scopes.len(),
        all_fit(values, scopes.len()),
    ensures
        scopes_ok(bind_all(scopes, id, names, values)),
        bind_all(scopes, id, names, values).len() == scopes.len(),
    decreases names.len(),
{
    if names.len() == 0 || values.len() != names.len() {
    } else {
        assert(all_fit(values.drop_last(), scopes.len())) by {
            assert forall|i: int| 0 <= i < values.drop_last().len() implies fits(
                #[trigger] values.drop_last()[i],
                scopes.len(),
            ) by {
                assert(fits(values[i], scopes.len()));
            }
        }
        lemma_bind_all_ok(scopes, id, names.drop_last(), values.drop_last());
        assert(fits(values[values.len() - 1], scopes.len()));
        lemma_bind_ok(
            bind_all(scopes, id, names.drop_last(), values.drop_last()),
            id,
            names.last(),
            values.last(),
        );
    }
}

/// A failure leaves the machine together.
pub proof fn lemma_failed_ok(m: MachineView, e: ErrorView)
    requires
        env_ok(m.env),
    ensures
        state_ok(failed(m, e)),
{
}

/// A control whose values fit leaves the machine together.
pub proof fn lemma_settle_ok(m: MachineView, c: ControlView)
    requires
        base_ok(m),
        control_ok(c, m.env.scopes.len()),
    ensures
        state_ok(settle(m, c)),
{
}

/// Going into a part of a construct keeps the machine together.
pub proof fn lemma_descend_ok(m: MachineView, k: KontView, node: Ast)
    requires
        base_ok(m),
        kont_ok(k, m.env.scopes.len()),
    ensures
        state_ok(descend(m, k, node)),
{
}

/// Binding a name to a value that fits keeps the machine together.
pub proof fn lemma_define_ok(m: MachineView, name: Seq<char>, v: Val)
    requires
        base_ok(m),
        fits(v, m.env.scopes.len()),
    ensures
        state_ok(define_and_leave(m, name, v)),
{
    lemma_bind_ok(m.env.scopes, m.env.current, name, v);
}

/// What a binary operator gives fits any number of scopes: it holds no
/// function.
pub proof fn lemma_binary_ok(
    operator: TokenType,
    left: Val,
    right: Val,
    line: nat,
    column: nat,
    count: nat,
)
    ensures
        control_ok(binary(operator, left, right, line, column), count),
{
}

/// What a unary operator gives fits any number of scopes: it holds no
/// function.
pub proof fn lemma_unary_ok(operator: TokenType, operand: Val, count: nat)
    ensures
        control_ok(unary(operator, operand), count),
{
}

/// Taking up a call keeps the machine together.
pub proof fn lemma_invoke_ok(m: MachineView, callee: Val, arguments: Seq<Val>)
    requires
        base_ok(m),
        fits(callee, m.env.scopes.len()),
        all_fit(arguments, m.env.scopes.len()),
    ensures
        state_ok(invoke(m, callee, arguments)),
{
    match callee {
        Val::Function { name, parameters, body, scope } => {
            let count = m.env.scopes.len();
            lemma_open_ok(m.env.scopes, scope);
            lemma_all_fit_more(arguments, count, count + 1);
            lemma_bind_all_ok(open_scope(m.env.scopes, scope), count, parameters, arguments);
            lemma_stack_more(m.stack, count, count + 1);
        },
        _ => {},
    }
}

/// Beginning to evaluate a node keeps the machine together.
pub proof fn lemma_enter_ok(m: MachineView, node: Ast)
    requires
        base_ok(m),
    ensures
        state_ok(enter(m, node)),
{
    let count = m.env.scopes.len();
    match node {
        Ast::Identifier { name } => {
            lemma_resolve_fits(m.env.scopes, m.env.current, name);
        },
        Ast::Function { name, parameters, body } => {
            lemma_define_ok(
                m,
                name,
                Val::Function { name, parameters, body: *body, scope: m.env.current },
            );
        },
        Ast::List { elements } => {
            lemma_list_fits(Seq::empty(), count);
        },
        _ => {},
    }
}

/// Values that fit, with one more that fits, fit.
pub proof fn lemma_all_fit_push(values: Seq<Val>, v: Val, count: nat)
    requires
        all_fit(values, count),
        fits(v, count),
    ensures
        all_fit(values.push(v), count),
{
    assert forall|i: int| 0 <= i < values.push(v).len() implies fits(
        #[trigger] values.push(v)[i],
        count,
    ) by {
        if i < values.len() {
            assert(fits(values[i], count));
        }
    }
}

/// Handing a value to a waiting construct keeps the machine together.
pub proof fn lemma_resume_ok(m: MachineView, k: KontView, v: Option<Val>)
    requires
        base_ok(m),
        kont_ok(k, m.env.scopes.len()),
        option_fits(v, m.env.scopes.len()),
    ensures
        state_ok(resume(m, k, v)),
{
    let count = m.env.scopes.len();
    let got = value_or_null(v);
    match k {
        KontView::BinaryLeft { operator, right, line, column } => {
            lemma_descend_ok(m, KontView::BinaryRight { operator, left: got, line, column }, right);
        },
        KontView::BinaryRight { operator, left, line, column } => {
            lemma_binary_ok(operator, left, got, line, column, count);
            lemma_settle_ok(m, binary(operator, left, got, line, column));
        },
        KontView::Unary { operator } => {
            lemma_unary_ok(operator, got, count);
            lemma_settle_ok(m, unary(operator, got));
        },
        KontView::Assign { name } => {
            lemma_define_ok(m, name, got);
        },
        KontView::Callee { arguments } => {
            lemma_invoke_ok(m, got, Seq::empty());
            if arguments.len() > 0 {
                lemma_descend_ok(
                    m,
                    KontView::Arguments { callee: got, arguments, next: 1, done: Seq::empty() },
                    arguments[0],
                );
            }
            lemma_failed_ok(m, failure(RuntimeKind::TypeError, "Not callable"@, 0, 0));
        },
        KontView::Arguments { callee, arguments, next, done } => {
            lemma_all_fit_push(done, got, count);
            lemma_invoke_ok(m, callee, done.push(got));
            if next < arguments.len() {
                lemma_descend_ok(
                    m,
                    KontView::Arguments { callee, arguments, next: next + 1, done: done.push(got) },
                    arguments[next as int],
                );
            }
        },
        KontView::Block { statements, next } => {
            if next < statements.len() {
                lemma_descend_ok(
                    m,
                    KontView::Block { statements, next: next + 1 },
                    statements[next as int],
                );
            }
        },
        KontView::Condition { then_branch, elif_branches, next, else_branch } => {
            if next < elif_branches.len() {
                lemma_descend_ok(
                    m,
                    KontView::Condition { then_branch, elif_branches, next: next + 1, else_branch },
                    elif_branches[next as int].0,
                );
            }
        },
        KontView::WhileCondition { condition, body, last } => {
            lemma_descend_ok(m, KontView::WhileBody { condition, body }, body);
        },
        KontView::ForIterable { variable, body } => {
            if let Val::List(items) = got {
                lemma_list_fits(items, count);
                if items.len() > 0 {
                    assert(fits(items[0], count));
                    lemma_bind_ok(m.env.scopes, m.env.current, variable, items[0]);
                    let bound = MachineView {
                        env: EnvView {
                            scopes: bind(m.env.scopes, m.env.current, variable, items[0]),
                            current: m.env.current,
                        },
                        stack: m.stack,
                        control: m.control,
                        natives: m.natives,
                    };
                    lemma_descend_ok(
                        bound,
                        KontView::ForBody { variable, items, next: 1, body },
                        body,
                    );
                }
            }
        },
        KontView::Element { elements, next, done } => {
            lemma_all_fit_push(done, got, count);
            lemma_list_fits(done.push(got), count);
            if next < elements.len() {
                lemma_descend_ok(
                    m,
                    KontView::Element { elements, next: next + 1, done: done.push(got) },
                    elements[next as int],
                );
            }
        },
        _ => {},
    }
}

/// Handing an outcome to a call or a loop keeps the machine together.
pub proof fn lemma_take_ok(m: MachineView, k: KontView, flow: FlowView)
    requires
        base_ok(m),
        kont_ok(k, m.env.scopes.len()),
        flow_ok(flow, m.env.scopes.len()),
    ensures
        state_ok(take(m, k, flow)),
{
    let count = m.env.scopes.len();
    match k {
        KontView::WhileBody { condition, body } => {
            match flow {
                FlowView::Normal(v) => lemma_descend_ok(
                    m,
                    KontView::WhileCondition { condition, body, last: v },
                    condition,
                ),
                FlowView::Continue => lemma_descend_ok(
                    m,
                    KontView::WhileCondition { condition, body, last: None },
                    condition,
                ),
                _ => {},
            }
        },
        KontView::ForBody { variable, items, next, body } => {
            if next < items.len() {
                assert(fits(items[next as int], count));
                lemma_bind_ok(m.env.scopes, m.env.current, variable, items[next as int]);
                let bound = MachineView {
                    env: EnvView {
                        scopes: bind(m.env.scopes, m.env.current, variable, items[next as int]),
                        current: m.env.current,
                    },
                    stack: m.stack,
                    control: m.control,
                    natives: m.natives,
                };
                lemma_descend_ok(
                    bound,
                    KontView::ForBody { variable, items, next: next + 1, body },
                    body,
                );
            }
        },
        _ => {},
    }
}

/// Handing an outcome on keeps the machine together.
pub proof fn lemma_leave_ok(m: MachineView, flow: FlowView)
    requires
        base_ok(m),
        flow_ok(flow, m.env.scopes.len()),
    ensures
        state_ok(leave(m, flow)),
{
    if m.stack.len() > 0 {
        let k = m.stack.last();
        let rest = MachineView {
            env: m.env,
            stack: m.stack.drop_last(),
            control: m.control,
            natives: m.natives,
        };
        assert(kont_ok(m.stack[m.stack.len() - 1], m.env.scopes.len()));
        assert(stack_ok(rest.stack, m.env.scopes.len())) by {
            assert forall|i: int| 0 <= i < rest.stack.len() implies kont_ok(
                #[trigger] rest.stack[i],
                m.env.scopes.len(),
            ) by {
                assert(rest.stack[i] == m.stack[i]);
            }
        }
        if takes_signals(k) {
            lemma_take_ok(rest, k, flow);
        } else {
            match flow {
                FlowView::Normal(v) => lemma_resume_ok(rest, k, v),
                _ => {},
            }
        }
    }
}

/// A step keeps the machine together.
pub proof fn lemma_step_ok(m: MachineView)
    requires
        state_ok(m),
    ensures
        state_ok(step(m)),
{
    match m.control {
        ControlView::Enter(node) => lemma_enter_ok(with_control(m, ControlView::Idle), node),
        ControlView::Leave(flow) => lemma_leave_ok(with_control(m, ControlView::Idle), flow),
        _ => {},
    }
}

/// Running keeps the machine together.
pub proof fn lemma_run_ok(m: MachineView, budget: nat)
    requires
        state_ok(m),
    ensures
        state_ok(run(m, budget)),
    decreases budget,
{
    if budget == 0 || !is_running(m) {
    } else {
        lemma_step_ok(m);
        lemma_run_ok(step(m), (budget - 1) as nat);
    }
}

/// An answer keeps the machine together.
pub proof fn lemma_answer_ok(m: MachineView, reply: ReplyView)
    requires
        state_ok(m),
    ensures
        state_ok(answer(m, reply)),
{
}

/// Loading a program keeps the machine together.
pub proof fn lemma_load_ok(m: MachineView, program: Ast)
    requires
        env_ok(m.env),
    ensures
        state_ok(load(m, program)),
{
}


/// What the machine tells the embedding program when it stops.
pub enum RequestView {
    /// The program ended with this value; an empty program has none.
    Done(Option<Val>),
    /// The program ended with this error.
    Failed(ErrorView),
    /// The machine asks for the number that a numeral stands for.
    Number { numeral: Seq<char> },
    /// The machine asks for the result of an arithmetic operation.
    Arithmetic { operator: TokenType, left: u64, right: u64 },
    /// The machine asks for the result of a native function.
    Native { name: Seq<char>, arguments: Seq<Val> },
    /// The machine has used up its steps and can go on.
    Paused,
}

/// What a machine with control `control` tells the embedding program.
pub open spec fn request_of(control: ControlView) -> RequestView {
    match control {
        ControlView::Idle => RequestView::Done(None),
        ControlView::Done(v) => RequestView::Done(v),
        ControlView::Failed(e) => RequestView::Failed(e),
        ControlView::Await(PendingView::Number { numeral }) => RequestView::Number { numeral },
        ControlView::Await(PendingView::Arithmetic { operator, left, right }) => {
            RequestView::Arithmetic { operator, left, right }
        },
        ControlView::Await(PendingView::Native { name, arguments }) => RequestView::Native {
            name,
            arguments,
        },
        ControlView::Enter(_) => RequestView::Paused,
        ControlView::Leave(_) => RequestView::Paused,
    }
}


/// Binding parameters changes the scope they are bound in and no other.
pub proof fn lemma_bind_all_is_local(
    scopes: Seq<ScopeView>,
    id: nat,
    names: Seq<Seq<char>>,
    values: Seq<Val>,
)
    requires
        id < scopes.len(),
    ensures
        bind_all(scopes, id, names, values).len() == scopes.len(),
        forall|j: int|
            0 <= j < scopes.len() && j != id ==> #[trigger] bind_all(scopes, id, names, values)[j]
                == scopes[j],
    decreases names.len(),
{
    if names.len() == 0 || values.len() != names.len() {
    } else {
        lemma_bind_all_is_local(scopes, id, names.drop_last(), values.drop_last());
    }
}

/// A step changes the bindings of no scope but the current one; it may open
/// new scopes after those that exist.
pub proof fn lemma_step_writes_current_scope(m: MachineView)
    requires
        state_ok(m),
    ensures
        step(m).env.scopes.len() >= m.env.scopes.len(),
        forall|j: int|
            0 <= j < m.env.scopes.len() && j != m.env.current ==> #[trigger] step(m).env.scopes[j]
                == m.env.scopes[j],
{
    let idle = with_control(m, ControlView::Idle);
    match m.control {
        ControlView::Enter(node) => {},
        ControlView::Leave(flow) => {
            if m.stack.len() > 0 {
                let k = m.stack.last();
                let rest = MachineView {
                    env: m.env,
                    stack: m.stack.drop_last(),
                    control: ControlView::Idle,
                    natives: m.natives,
                };
                assert(kont_ok(m.stack[m.stack.len() - 1], m.env.scopes.len()));
                match k {
                    KontView::Callee { arguments } => {
                        if let FlowView::Normal(v) = flow {
                            lemma_invoke_writes_new_scope(rest, value_or_null(v), Seq::empty());
                        }
                    },
                    KontView::Arguments { callee, arguments, next, done } => {
                        if let FlowView::Normal(v) = flow {
                            lemma_invoke_writes_new_scope(
                                rest,
                                callee,
                                done.push(value_or_null(v)),
                            );
                        }
                    },
                    _ => {},
                }
            }
        },
        _ => {},
    }
}

/// Taking up a call changes the bindings of no scope that exists: the
/// parameters are bound in a new one.
pub proof fn lemma_invoke_writes_new_scope(m: MachineView, callee: Val, arguments: Seq<Val>)
    ensures
        invoke(m, callee, arguments).env.scopes.len() >= m.env.scopes.len(),
        forall|j: int|
            0 <= j < m.env.scopes.len() ==> #[trigger] invoke(m, callee, arguments).env.scopes[j]
                == m.env.scopes[j],
{
    match callee {
        Val::Function { name, parameters, body, scope } => {
            let opened = open_scope(m.env.scopes, scope);
            lemma_bind_all_is_local(opened, m.env.scopes.len(), parameters, arguments);
            assert forall|j: int| 0 <= j < m.env.scopes.len() implies #[trigger] invoke(
                m,
                callee,
                arguments,
            ).env.scopes[j] == m.env.scopes[j] by {
                assert(opened[j] == m.env.scopes[j]);
            }
        },
        _ => {},
    }
}

/// Whether the machine `m` is inside a call whose `Body` entry is entry
/// `depth - 1` of the stack and whose scope is `frame`: that entry is still
/// on the stack, the current scope is `frame` or one opened after it, and so
/// is every scope that a call above that entry goes back to.
pub open spec fn inside_call(m: MachineView, depth: nat, frame: nat) -> bool {
    &&& m.stack.len() >= depth >= 1
    &&& m.stack[depth - 1] is Body
    &&& m.env.current >= frame
    &&& forall|i: int|
        depth <= i < m.stack.len() ==> ((#[trigger] m.stack[i]) matches KontView::Body { caller }
            ==> caller >= frame)
}

/// One move of the machine: a step, or an answer of the embedding program.
pub open spec fn moves(m: MachineView, next: MachineView) -> bool {
    next == step(m) || exists|reply: ReplyView| next == #[trigger] answer(m, reply)
}

/// A move inside a call that does not end it: the machine stays inside the
/// call, the stack up to the call's `Body` entry stays as it is, and so does
/// every scope that was opened before the call's own.
pub proof fn lemma_move_inside_call(m: MachineView, next: MachineView, depth: nat, frame: nat)
    requires
        state_ok(m),
        inside_call(m, depth, frame),
        frame < m.env.scopes.len(),
        moves(m, next),
        next.stack.len() >= depth,
        depth >= 1,
    ensures
        inside_call(next, depth, frame),
        next.stack.take(depth as int) == m.stack.take(depth as int),
        next.env.scopes.len() >= m.env.scopes.len(),
        forall|j: int| 0 <= j < frame ==> #[trigger] next.env.scopes[j] == m.env.scopes[j],
{
    if next == step(m) {
        lemma_step_writes_current_scope(m);
        lemma_step_inside_call(m, depth, frame);
    } else {
        let reply = choose|reply: ReplyView| next == #[trigger] answer(m, reply);
        assert(next.stack.take(depth as int) =~= m.stack.take(depth as int));
    }
}

/// The part of `lemma_move_inside_call` that is about a step.
pub proof fn lemma_step_inside_call(m: MachineView, depth: nat, frame: nat)
    requires
        state_ok(m),
        inside_call(m, depth, frame),
        frame < m.env.scopes.len(),
        step(m).stack.len() >= depth,
        depth >= 1,
    ensures
        inside_call(step(m), depth, frame),
        step(m).stack.take(depth as int) == m.stack.take(depth as int),
{
    let next = step(m);
    match m.control {
        ControlView::Enter(node) => {
            assert(next.stack.take(depth as int) =~= m.stack.take(depth as int));
        },
        ControlView::Leave(flow) => {
            if m.stack.len() > 0 {
                let k = m.stack.last();
                let rest = MachineView {
                    env: m.env,
                    stack: m.stack.drop_last(),
                    control: ControlView::Idle,
                    natives: m.natives,
                };
                assert(m.stack[m.stack.len() - 1] == k);
                assert(next.stack.len() <= rest.stack.len() + 1);
                assert(forall|i: int| 0 <= i < rest.stack.len() ==> rest.stack[i] == m.stack[i]);
                assert(m.stack.len() > depth);
                assert(next.stack.take(depth as int) =~= m.stack.take(depth as int));
            }
        },
        _ => {
            assert(next.stack.take(depth as int) =~= m.stack.take(depth as int));
        },
    }
}

/// The step that ends a call: where the innermost entry of the stack is a
/// `Body` entry and the body's outcome is a value or a `return`, the entry
/// is taken from the stack, the scope that the call goes back to is the
/// current one, and no scope has changed.
pub proof fn lemma_return_goes_back(m: MachineView, caller: nat)
    requires
        m.stack.len() >= 1,
        m.stack.last() == (KontView::Body { caller }),
        m.control matches ControlView::Leave(flow) && (flow is Normal || flow is Return),
    ensures
        step(m).env.current == caller,
        step(m).env.scopes == m.env.scopes,
        step(m).stack == m.stack.drop_last(),
        step(m).control matches ControlView::Leave(FlowView::Normal(Some(_))),
{
}

/// A run of moves of the machine, each from one state to the next.
pub open spec fn is_trace(trace: Seq<MachineView>) -> bool {
    forall|i: int| 0 <= i < trace.len() - 1 ==> moves(#[trigger] trace[i], trace[i + 1])
}

/// As long as a call has not ended, every scope that was opened before the
/// call's own holds what it held when the call began, whatever the machine
/// and the embedding program did in between.
pub proof fn lemma_call_keeps_scopes(trace: Seq<MachineView>, depth: nat, frame: nat, n: int)
    requires
        trace.len() >= 1,
        is_trace(trace),
        state_ok(trace[0]),
        depth >= 1,
        frame < trace[0].env.scopes.len(),
        inside_call(trace[0], depth, frame),
        0 <= n < trace.len(),
        forall|i: int| 0 <= i <= n ==> (#[trigger] trace[i]).stack.len() >= depth,
    ensures
        state_ok(trace[n]),
        inside_call(trace[n], depth, frame),
        trace[n].stack.take(depth as int) == trace[0].stack.take(depth as int),
        trace[n].env.scopes.len() >= trace[0].env.scopes.len(),
        forall|j: int| 0 <= j < frame ==> #[trigger] trace[n].env.scopes[j] == trace[0].env.scopes[j],
    decreases n,
{
    if n > 0 {
        lemma_call_keeps_scopes(trace, depth, frame, n - 1);
        let m = trace[n - 1];
        assert(moves(m, trace[n - 1 + 1]));
        assert(trace[n].stack.len() >= depth);
        lemma_move_ok(m, trace[n]);
        lemma_move_inside_call(m, trace[n], depth, frame);
    }
}

/// A move keeps the machine together.
pub proof fn lemma_move_ok(m: MachineView, next: MachineView)
    requires
        state_ok(m),
        moves(m, next),
    ensures
        state_ok(next),
{
    if next == step(m) {
        lemma_step_ok(m);
    } else {
        let reply = choose|reply: ReplyView| next == #[trigger] answer(m, reply);
        lemma_answer_ok(m, reply);
    }
}

/// After a function call has returned, the caller's scope is the current
/// one again, and it holds what it held when the call began, as does every
/// other scope that existed then: what the function bound, it bound in
/// scopes of its own.
///
/// The call begins in the first state of `trace`, with its `Body` entry
/// innermost on the stack and its own scope, the newest, the current one.
/// It ends with the last move of `trace`, which takes that entry from the
/// stack.
pub proof fn lemma_call_leaves_no_bindings(trace: Seq<MachineView>, caller: nat)
    requires
        trace.len() >= 2,
        is_trace(trace),
        state_ok(trace[0]),
        trace[0].stack.len() >= 1,
        trace[0].stack.last() == (KontView::Body { caller }),
        trace[0].env.current == trace[0].env.scopes.len() - 1,
        forall|i: int|
            0 <= i < trace.len() - 1 ==> (#[trigger] trace[i]).stack.len() >= trace[0].stack.len(),
        trace.last().stack.len() < trace[0].stack.len(),
        !(trace.last().control is Failed),
    ensures
        trace.last().env.current == caller,
        forall|j: int|
            0 <= j < trace[0].env.scopes.len() - 1 ==> #[trigger] trace.last().env.scopes[j]
                == trace[0].env.scopes[j],
{
    let depth = trace[0].stack.len();
    let frame = (trace[0].env.scopes.len() - 1) as nat;
    let n = trace.len() - 2;
    lemma_call_keeps_scopes(trace, depth, frame, n);
    let m = trace[n];
    let last = trace[n + 1];
    assert(moves(m, last));
    assert(last == trace.last());
    assert(m.stack.take(depth as int) == trace[0].stack.take(depth as int));
    assert(m.stack[depth - 1] == m.stack.take(depth as int)[depth - 1]);
    assert(trace[0].stack[depth - 1] == trace[0].stack.take(depth as int)[depth - 1]);
    if last == step(m) {
        lemma_step_writes_current_scope(m);
        lemma_step_stack(m);
        assert(m.stack.len() == depth);
        assert(m.stack.last() == (KontView::Body { caller }));
    } else {
        let reply = choose|reply: ReplyView| last == #[trigger] answer(m, reply);
    }
}

/// A step that does not fail takes at most the innermost entry from the
/// stack, and that only to hand an outcome to it.
pub proof fn lemma_step_stack(m: MachineView)
    ensures
        step(m).control is Failed || step(m).stack.len() >= m.stack.len() - 1,
        step(m).control is Failed || step(m).stack.len() >= m.stack.len() || m.control is Leave,
{
}


/// Taking up the call of a function of the program begins a call in the
/// sense of `lemma_call_leaves_no_bindings`: the call's `Body` entry is
/// innermost on the stack and goes back to the scope that was current, and
/// the current scope is the newest one, opened inside the scope that the
/// function was declared in.
pub proof fn lemma_invoke_begins_call(m: MachineView, callee: Val, arguments: Seq<Val>)
    requires
        callee is Function,
        callee->Function_scope < m.env.scopes.len(),
    ensures
        invoke(m, callee, arguments).stack == m.stack.push(KontView::Body { caller: m.env.current }),
        invoke(m, callee, arguments).env.scopes.len() == m.env.scopes.len() + 1,
        invoke(m, callee, arguments).env.current == m.env.scopes.len(),
        invoke(m, callee, arguments).env.scopes[m.env.scopes.len() as int].parent == Some(
            callee->Function_scope,
        ),
        invoke(m, callee, arguments).control == ControlView::Enter(callee->Function_body),
{
    let opened = open_scope(m.env.scopes, callee->Function_scope);
    lemma_bind_all_keeps_parents(
        opened,
        m.env.scopes.len(),
        callee->Function_parameters,
        arguments,
    );
}

/// Binding parameters changes no scope's parent.
pub proof fn lemma_bind_all_keeps_parents(
    scopes: Seq<ScopeView>,
    id: nat,
    names: Seq<Seq<char>>,
    values: Seq<Val>,
)
    requires
        id < scopes.len(),
    ensures
        bind_all(scopes, id, names, values).len() == scopes.len(),
        bind_all(scopes, id, names, values)[id as int].parent == scopes[id as int].parent,
    decreases names.len(),
{
    if names.len() == 0 || values.len() != names.len() {
    } else {
        lemma_bind_all_keeps_parents(scopes, id, names.drop_last(), values.drop_last());
    }
}

/// `and` and `or` do not evaluate their right operand where the left one
/// decides: where the left operand of `and` is false, or that of `or` is
/// true, the operation has its value at once, and the right operand is
/// dropped from the stack with the operation's entry.
pub proof fn lemma_short_circuit(m: MachineView, left: Val)
    requires
        m.control == ControlView::Leave(FlowView::Normal(Some(left))),
        m.stack.len() >= 1,
        m.stack.last() matches KontView::BinaryLeft { operator, .. } && ((operator
            == TokenType::KeywordAnd && !truthy(left)) || (operator == TokenType::KeywordOr
            && truthy(left))),
    ensures
        step(m).control == value(Val::Boolean(truthy(left))),
        step(m).stack == m.stack.drop_last(),
        step(m).env == m.env,
{
}

/// Where the left operand does not decide, `and` and `or` have the truth of
/// their right operand as their value.
pub proof fn lemma_and_or_take_right(m: MachineView, right: Val)
    requires
        m.control == ControlView::Leave(FlowView::Normal(Some(right))),
        m.stack.len() >= 1,
        m.stack.last() matches KontView::BinaryRight { operator, .. } && (operator
            == TokenType::KeywordAnd || operator == TokenType::KeywordOr),
    ensures
        step(m).control == value(Val::Boolean(truthy(right))),
        step(m).stack == m.stack.drop_last(),
        step(m).env == m.env,
{
}

/// The arguments of a call are evaluated from left to right: while one is
/// left, the step that takes the value of an argument goes on with the
/// argument after it, and keeps the values so far in their order.
pub proof fn lemma_arguments_in_order(m: MachineView, got: Val)
    requires
        m.control == ControlView::Leave(FlowView::Normal(Some(got))),
        m.stack.len() >= 1,
        m.stack.last() matches KontView::Arguments { arguments, next, .. } && next
            < arguments.len(),
    ensures
        step(m).control == ControlView::Enter(
            m.stack.last()->Arguments_arguments[m.stack.last()->Arguments_next as int],
        ),
        step(m).stack == m.stack.drop_last().push(
            KontView::Arguments {
                callee: m.stack.last()->Arguments_callee,
                arguments: m.stack.last()->Arguments_arguments,
                next: m.stack.last()->Arguments_next + 1,
                done: m.stack.last()->Arguments_done.push(got),
            },
        ),
{
}

/// The elements of a list are evaluated from left to right, as the
/// arguments of a call are.
pub proof fn lemma_elements_in_order(m: MachineView, got: Val)
    requires
        m.control == ControlView::Leave(FlowView::Normal(Some(got))),
        m.stack.len() >= 1,
        m.stack.last() matches KontView::Element { elements, next, .. } && next < elements.len(),
    ensures
        step(m).control == ControlView::Enter(
            m.stack.last()->Element_elements[m.stack.last()->Element_next as int],
        ),
        step(m).stack == m.stack.drop_last().push(
            KontView::Element {
                elements: m.stack.last()->Element_elements,
                next: m.stack.last()->Element_next + 1,
                done: m.stack.last()->Element_done.push(got),
            },
        ),
{
}

/// The value that a literal stands for, where the machine knows it without
/// a question to the embedding program: a string, a boolean, null, and a
/// numeral for a whole number up to two to the power 53.
pub open spec fn literal_value(literal: Ast) -> Option<Val> {
    match literal {
        Ast::String { value } => Some(Val::String(value)),
        Ast::Boolean { value } => Some(Val::Boolean(value)),
        Ast::Null => Some(Val::Null),
        Ast::Number { numeral } => match digits_value(numeral) {
            Some(n) => if n <= EXACT {
                Some(Val::Number(small_bits(n)))
            } else {
                None
            },
            None => None,
        },
        _ => None,
    }
}

/// A program of one statement that is such a literal has the value that the
/// literal stands for, and leaves the scopes as they were. A number that it
/// gives is not negative and has the whole number that the numeral stands
/// for as its value.
pub proof fn lemma_literal_program(m: MachineView, literal: Ast)
    requires
        literal_value(literal) is Some,
    ensures
        run(load(m, Ast::Block { statements: seq![literal] }), 4).control == ControlView::Done(
            literal_value(literal),
        ),
        run(load(m, Ast::Block { statements: seq![literal] }), 4).env.scopes == m.env.scopes,
        literal matches Ast::Number { numeral } ==> (literal_value(literal) matches Some(
            Val::Number(bits),
        ) && integer_of(bits) == Some(digits_value(numeral)->0 as int) && !is_negative(bits)),
{
    reveal_with_fuel(run, 5);
    let m0 = load(m, Ast::Block { statements: seq![literal] });
    let m1 = step(m0);
    assert(m1.stack =~= seq![KontView::Block { statements: seq![literal], next: 1 }]);
    assert(m1.control == ControlView::Enter(literal));
    let m2 = step(m1);
    assert(m2.control == value(literal_value(literal)->0));
    assert(m2.stack == m1.stack);
    let m3 = step(m2);
    assert(m3.stack =~= Seq::<KontView>::empty());
    let m4 = step(m3);
    if let Ast::Number { numeral } = literal {
        lemma_small_bits(digits_value(numeral)->0);
    }
}

/// What `+`, `-` and `*` make of two whole numbers, where the result is of
/// a size up to two to the power 53: the machine hands on, without a question
/// to the embedding program, the number that is their sum, their difference
/// or their product.
pub proof fn lemma_whole_arithmetic(m: MachineView, left: u64, right: u64)
    requires
        m.control == ControlView::Leave(FlowView::Normal(Some(Val::Number(right)))),
        m.stack.len() >= 1,
        m.stack.last() matches KontView::BinaryRight { operator, left: operand, .. } && operand
            == Val::Number(left) && (operator == TokenType::Plus || operator == TokenType::Minus
            || operator == TokenType::Star) && exact(operator, left, right) is Some,
    ensures
        step(m).control matches ControlView::Leave(FlowView::Normal(Some(Val::Number(result))))
            && integer_of(result) == Some(
            {
                let x = integer_of(left)->0;
                let y = integer_of(right)->0;
                let operator = m.stack.last()->BinaryRight_operator;
                if operator == TokenType::Plus {
                    x + y
                } else if operator == TokenType::Minus {
                    x - y
                } else {
                    x * y
                }
            },
        ),
        step(m).stack == m.stack.drop_last(),
        step(m).env == m.env,
{
    let operator = m.stack.last()->BinaryRight_operator;
    if operator == TokenType::Plus {
        crate::number::lemma_exact_sum(left, right);
    } else if operator == TokenType::Minus {
        crate::number::lemma_exact_difference(left, right);
    } else {
        crate::number::lemma_exact_product(left, right);
    }
}

} // verus!
