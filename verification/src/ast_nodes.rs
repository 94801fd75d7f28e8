// The syntax tree: one struct for each kind of node, the enum that joins
// them, and the tree as a mathematical value (`Ast`).

use crate::text::texts;
use crate::token_types::TokenType;
use vstd::prelude::*;

verus! {

/// A node of the syntax tree. Every node owns its children.
#[derive(Debug, PartialEq)]
pub enum ASTNode {
    Number(NumberNode),
    String(StringNode),
    Boolean(BooleanNode),
    Null(NullNode),
    Identifier(IdentifierNode),
    BinaryOp(BinaryOpNode),
    UnaryOp(UnaryOpNode),
    Assignment(AssignmentNode),
    CompoundAssignment(CompoundAssignmentNode),
    Call(CallNode),
    Function(FunctionNode),
    Return(ReturnNode),
    If(IfNode),
    While(WhileNode),
    For(ForNode),
    Break(BreakNode),
    Continue(ContinueNode),
    Block(BlockNode),
    List(ListNode),
    Index(IndexNode),
    MemberAccess(MemberAccessNode),
}

/// A syntax tree as a mathematical value.
pub enum Ast {
    Number { numeral: Seq<char> },
    String { value: Seq<char> },
    Boolean { value: bool },
    Null,
    Identifier { name: Seq<char> },
    BinaryOp { left: Box<Ast>, operator: TokenType, right: Box<Ast>, line: nat, column: nat },
    UnaryOp { operator: TokenType, operand: Box<Ast> },
    Assignment { name: Seq<char>, value: Box<Ast> },
    CompoundAssignment { name: Seq<char>, operator: TokenType, value: Box<Ast> },
    Call { callee: Box<Ast>, arguments: Seq<Ast> },
    Function { name: Seq<char>, parameters: Seq<Seq<char>>, body: Box<Ast> },
    Return { value: Option<Box<Ast>> },
    If {
        condition: Box<Ast>,
        then_branch: Box<Ast>,
        elif_branches: Seq<(Ast, Ast)>,
        else_branch: Option<Box<Ast>>,
    },
    While { condition: Box<Ast>, body: Box<Ast> },
    For { variable: Seq<char>, iterable: Box<Ast>, body: Box<Ast> },
    Break,
    Continue,
    Block { statements: Seq<Ast> },
    List { elements: Seq<Ast> },
    Index { object: Box<Ast>, index: Box<Ast> },
    MemberAccess { object: Box<Ast>, member: Seq<char> },
}

/// The trees of a run of nodes, in order.
pub open spec fn trees(nodes: Seq<ASTNode>) -> Seq<Ast> {
    Seq::new(nodes.len(), |i: int| nodes[i]@)
}

/// The trees of a run of condition and body pairs, in order.
pub open spec fn tree_pairs(pairs: Seq<(ASTNode, ASTNode)>) -> Seq<(Ast, Ast)> {
    Seq::new(pairs.len(), |i: int| (pairs[i].0@, pairs[i].1@))
}

impl View for ASTNode {
    type V = Ast;

    open spec fn view(&self) -> Ast {
        self.tree()
    }
}

impl ASTNode {
    /// The tree that this node is the root of.
    pub open spec fn tree(&self) -> Ast
        decreases self,
    {
        match self {
            ASTNode::Number(n) => Ast::Number { numeral: n.value@ },
            ASTNode::String(n) => Ast::String { value: n.value@ },
            ASTNode::Boolean(n) => Ast::Boolean { value: n.value },
            ASTNode::Null(_) => Ast::Null,
            ASTNode::Identifier(n) => Ast::Identifier { name: n.name@ },
            ASTNode::BinaryOp(n) => Ast::BinaryOp {
                left: Box::new(n.left.tree()),
                operator: n.operator,
                right: Box::new(n.right.tree()),
                line: n.line as nat,
                column: n.column as nat,
            },
            ASTNode::UnaryOp(n) => Ast::UnaryOp {
                operator: n.operator,
                operand: Box::new(n.operand.tree()),
            },
            ASTNode::Assignment(n) => Ast::Assignment {
                name: n.name@,
                value: Box::new(n.value.tree()),
            },
            ASTNode::CompoundAssignment(n) => Ast::CompoundAssignment {
                name: n.name@,
                operator: n.operator,
                value: Box::new(n.value.tree()),
            },
            ASTNode::Call(n) => Ast::Call {
                callee: Box::new(n.callee.tree()),
                arguments: Seq::new(
                    n.arguments@.len(),
                    |i: int|
                        if 0 <= i < n.arguments@.len() {
                            n.arguments@[i].tree()
                        } else {
                            Ast::Null
                        },
                ),
            },
            ASTNode::Function(n) => Ast::Function {
                name: n.name@,
                parameters: texts(n.parameters@),
                body: Box::new(n.body.tree()),
            },
            ASTNode::Return(n) => Ast::Return {
                value: match n.value {
                    Some(v) => Some(Box::new(v.tree())),
                    None => None,
                },
            },
            ASTNode::If(n) => Ast::If {
                condition: Box::new(n.condition.tree()),
                then_branch: Box::new(n.then_branch.tree()),
                elif_branches: Seq::new(
                    n.elif_branches@.len(),
                    |i: int|
                        if 0 <= i < n.elif_branches@.len() {
                            (n.elif_branches@[i].0.tree(), n.elif_branches@[i].1.tree())
                        } else {
                            (Ast::Null, Ast::Null)
                        },
                ),
                else_branch: match n.else_branch {
                    Some(e) => Some(Box::new(e.tree())),
                    None => None,
                },
            },
            ASTNode::While(n) => Ast::While {
                condition: Box::new(n.condition.tree()),
                body: Box::new(n.body.tree()),
            },
            ASTNode::For(n) => Ast::For {
                variable: n.variable@,
                iterable: Box::new(n.iterable.tree()),
                body: Box::new(n.body.tree()),
            },
            ASTNode::Break(_) => Ast::Break,
            ASTNode::Continue(_) => Ast::Continue,
            ASTNode::Block(n) => Ast::Block {
                statements: Seq::new(
                    n.statements@.len(),
                    |i: int|
                        if 0 <= i < n.statements@.len() {
                            n.statements@[i].tree()
                        } else {
                            Ast::Null
                        },
                ),
            },
            ASTNode::List(n) => Ast::List {
                elements: Seq::new(
                    n.elements@.len(),
                    |i: int|
                        if 0 <= i < n.elements@.len() {
                            n.elements@[i].tree()
                        } else {
                            Ast::Null
                        },
                ),
            },
            ASTNode::Index(n) => Ast::Index {
                object: Box::new(n.object.tree()),
                index: Box::new(n.index.tree()),
            },
            ASTNode::MemberAccess(n) => Ast::MemberAccess {
                object: Box::new(n.object.tree()),
                member: n.member@,
            },
        }
    }

    /// The tree of a node that holds nodes is built from the trees of those
    /// nodes.
    pub proof fn lemma_tree_of_children(&self)
        ensures
            self matches ASTNode::Call(n) ==> self@->Call_arguments == trees(n.arguments@),
            self matches ASTNode::Block(n) ==> self@->Block_statements == trees(n.statements@),
            self matches ASTNode::List(n) ==> self@->List_elements == trees(n.elements@),
            self matches ASTNode::If(n) ==> self@->If_elif_branches == tree_pairs(
                n.elif_branches@,
            ),
    {
        match self {
            ASTNode::Call(n) => {
                assert(self@->Call_arguments =~= trees(n.arguments@));
            },
            ASTNode::Block(n) => {
                assert(self@->Block_statements =~= trees(n.statements@));
            },
            ASTNode::List(n) => {
                assert(self@->List_elements =~= trees(n.elements@));
            },
            ASTNode::If(n) => {
                assert(self@->If_elif_branches =~= tree_pairs(n.elif_branches@));
            },
            _ => {},
        }
    }

    /// A copy of this node and of everything below it.
    pub fn duplicate(&self) -> (copy: ASTNode)
        ensures
            copy@ == self@,
        decreases self,
    {
        let copy = match self {
            ASTNode::Number(n) => ASTNode::Number(NumberNode { value: n.value.clone() }),
            ASTNode::String(n) => ASTNode::String(StringNode { value: n.value.clone() }),
            ASTNode::Boolean(n) => ASTNode::Boolean(BooleanNode { value: n.value }),
            ASTNode::Null(_) => ASTNode::Null(NullNode),
            ASTNode::Identifier(n) => ASTNode::Identifier(IdentifierNode { name: n.name.clone() }),
            ASTNode::BinaryOp(n) => ASTNode::BinaryOp(
                BinaryOpNode {
                    left: Box::new(n.left.duplicate()),
                    operator: n.operator,
                    right: Box::new(n.right.duplicate()),
                    line: n.line,
                    column: n.column,
                },
            ),
            ASTNode::UnaryOp(n) => ASTNode::UnaryOp(
                UnaryOpNode { operator: n.operator, operand: Box::new(n.operand.duplicate()) },
            ),
            ASTNode::Assignment(n) => ASTNode::Assignment(
                AssignmentNode { name: n.name.clone(), value: Box::new(n.value.duplicate()) },
            ),
            ASTNode::CompoundAssignment(n) => ASTNode::CompoundAssignment(
                CompoundAssignmentNode {
                    name: n.name.clone(),
                    operator: n.operator,
                    value: Box::new(n.value.duplicate()),
                },
            ),
            ASTNode::Call(n) => ASTNode::Call(
                CallNode {
                    callee: Box::new(n.callee.duplicate()),
                    arguments: duplicate_nodes(&n.arguments),
                },
            ),
            ASTNode::Function(n) => ASTNode::Function(
                FunctionNode {
                    name: n.name.clone(),
                    parameters: duplicate_strings(&n.parameters),
                    body: Box::new(n.body.duplicate()),
                },
            ),
            ASTNode::Return(n) => ASTNode::Return(
                ReturnNode {
                    value: match &n.value {
                        Some(v) => Some(Box::new(v.duplicate())),
                        None => None,
                    },
                },
            ),
            ASTNode::If(n) => ASTNode::If(
                IfNode {
                    condition: Box::new(n.condition.duplicate()),
                    then_branch: Box::new(n.then_branch.duplicate()),
                    elif_branches: duplicate_pairs(&n.elif_branches),
                    else_branch: match &n.else_branch {
                        Some(e) => Some(Box::new(e.duplicate())),
                        None => None,
                    },
                },
            ),
            ASTNode::While(n) => ASTNode::While(
                WhileNode {
                    condition: Box::new(n.condition.duplicate()),
                    body: Box::new(n.body.duplicate()),
                },
            ),
            ASTNode::For(n) => ASTNode::For(
                ForNode {
                    variable: n.variable.clone(),
                    iterable: Box::new(n.iterable.duplicate()),
                    body: Box::new(n.body.duplicate()),
                },
            ),
            ASTNode::Break(_) => ASTNode::Break(BreakNode),
            ASTNode::Continue(_) => ASTNode::Continue(ContinueNode),
            ASTNode::Block(n) => ASTNode::Block(
                BlockNode { statements: duplicate_nodes(&n.statements) },
            ),
            ASTNode::List(n) => ASTNode::List(ListNode { elements: duplicate_nodes(&n.elements) }),
            ASTNode::Index(n) => ASTNode::Index(
                IndexNode {
                    object: Box::new(n.object.duplicate()),
                    index: Box::new(n.index.duplicate()),
                },
            ),
            ASTNode::MemberAccess(n) => ASTNode::MemberAccess(
                MemberAccessNode {
                    object: Box::new(n.object.duplicate()),
                    member: n.member.clone(),
                },
            ),
        };
        proof {
            self.lemma_tree_of_children();
            copy.lemma_tree_of_children();
        }
        copy
    }
}

/// A copy of each node of `nodes`, in order.
pub fn duplicate_nodes(nodes: &Vec<ASTNode>) -> (copies: Vec<ASTNode>)
    ensures
        trees(copies@) == trees(nodes@),
    decreases nodes,
{
    let mut copies: Vec<ASTNode> = Vec::new();
    let mut i: usize = 0;
    while i < nodes.len()
        invariant
            i <= nodes.len(),
            copies@.len() == i,
            forall|j: int| 0 <= j < i ==> copies@[j]@ == nodes@[j]@,
        decreases nodes.len() - i,
    {
        copies.push(nodes[i].duplicate());
        i += 1;
    }
    assert(trees(copies@) =~= trees(nodes@));
    copies
}

/// A copy of each pair of `pairs`, in order.
pub fn duplicate_pairs(pairs: &Vec<(ASTNode, ASTNode)>) -> (copies: Vec<(ASTNode, ASTNode)>)
    ensures
        tree_pairs(copies@) == tree_pairs(pairs@),
    decreases pairs,
{
    let mut copies: Vec<(ASTNode, ASTNode)> = Vec::new();
    let mut i: usize = 0;
    while i < pairs.len()
        invariant
            i <= pairs.len(),
            copies@.len() == i,
            forall|j: int|
                0 <= j < i ==> copies@[j].0@ == pairs@[j].0@ && copies@[j].1@ == pairs@[j].1@,
        decreases pairs.len() - i,
    {
        let pair = &pairs[i];
        copies.push((pair.0.duplicate(), pair.1.duplicate()));
        i += 1;
    }
    assert(tree_pairs(copies@) =~= tree_pairs(pairs@));
    copies
}

/// A copy of each string of `strings`, in order.
pub fn duplicate_strings(strings: &Vec<String>) -> (copies: Vec<String>)
    ensures
        texts(copies@) == texts(strings@),
{
    let mut copies: Vec<String> = Vec::new();
    let mut i: usize = 0;
    while i < strings.len()
        invariant
            i <= strings.len(),
            copies@.len() == i,
            forall|j: int| 0 <= j < i ==> copies@[j]@ == strings@[j]@,
        decreases strings.len() - i,
    {
        copies.push(strings[i].clone());
        i += 1;
    }
    assert(texts(copies@) =~= texts(strings@));
    copies
}

/// A number literal. It holds the numeral as the source wrote it: a run of
/// digits with at most one `.` in it.
#[derive(Debug, PartialEq)]
pub struct NumberNode {
    pub value: String,
}

impl NumberNode {
    pub fn new(value: String) -> (node: Self)
        ensures
            node.value == value,
    {
        Self { value }
    }
}

/// A string literal.
#[derive(Debug, PartialEq)]
pub struct StringNode {
    pub value: String,
}

impl StringNode {
    pub fn new(value: String) -> (node: Self)
        ensures
            node.value == value,
    {
        Self { value }
    }
}

/// A boolean literal.
#[derive(Debug, PartialEq)]
pub struct BooleanNode {
    pub value: bool,
}

impl BooleanNode {
    pub fn new(value: bool) -> (node: Self)
        ensures
            node.value == value,
    {
        Self { value }
    }
}

/// The null literal.
#[derive(Debug, PartialEq)]
pub struct NullNode;

impl NullNode {
    pub fn new() -> (node: Self)
        ensures
            node == NullNode,
    {
        Self
    }
}

/// A name that is looked up.
#[derive(Debug, PartialEq)]
pub struct IdentifierNode {
    pub name: String,
}

impl IdentifierNode {
    pub fn new(name: String) -> (node: Self)
        ensures
            node.name == name,
    {
        Self { name }
    }
}

/// A binary operation. `line` and `column` are the place of the operator in
/// the source, or zero where the node was not read from a source.
#[derive(Debug, PartialEq)]
pub struct BinaryOpNode {
    pub left: Box<ASTNode>,
    pub operator: TokenType,
    pub right: Box<ASTNode>,
    pub line: usize,
    pub column: usize,
}

impl BinaryOpNode {
    pub fn new(left: ASTNode, operator: TokenType, right: ASTNode) -> (node: Self)
        ensures
            *node.left == left,
            node.operator == operator,
            *node.right == right,
            node.line == 0,
            node.column == 0,
    {
        Self { left: Box::new(left), operator, right: Box::new(right), line: 0, column: 0 }
    }

    /// A binary operation whose operator stands at `line` and `column`.
    pub fn with_position(
        left: ASTNode,
        operator: TokenType,
        right: ASTNode,
        line: usize,
        column: usize,
    ) -> (node: Self)
        ensures
            *node.left == left,
            node.operator == operator,
            *node.right == right,
            node.line == line,
            node.column == column,
    {
        Self { left: Box::new(left), operator, right: Box::new(right), line, column }
    }
}

/// A unary operation: an operator before its operand.
#[derive(Debug, PartialEq)]
pub struct UnaryOpNode {
    pub operator: TokenType,
    pub operand: Box<ASTNode>,
}

impl UnaryOpNode {
    pub fn new(operator: TokenType, operand: ASTNode) -> (node: Self)
        ensures
            node.operator == operator,
            *node.operand == operand,
    {
        Self { operator, operand: Box::new(operand) }
    }
}

/// An assignment, with or without `let`: it binds the name in the current
/// scope.
#[derive(Debug, PartialEq)]
pub struct AssignmentNode {
    pub name: String,
    pub value: Box<ASTNode>,
}

impl AssignmentNode {
    pub fn new(name: String, value: ASTNode) -> (node: Self)
        ensures
            node.name == name,
            *node.value == value,
    {
        Self { name, value: Box::new(value) }
    }
}

/// An assignment with an operator, such as `+=`. The parser makes none; the
/// evaluator refuses it.
#[derive(Debug, PartialEq)]
pub struct CompoundAssignmentNode {
    pub name: String,
    pub operator: TokenType,
    pub value: Box<ASTNode>,
}

impl CompoundAssignmentNode {
    pub fn new(name: String, operator: TokenType, value: ASTNode) -> (node: Self)
        ensures
            node.name == name,
            node.operator == operator,
            *node.value == value,
    {
        Self { name, operator, value: Box::new(value) }
    }
}

/// A call: what is called, and the arguments.
#[derive(Debug, PartialEq)]
pub struct CallNode {
    pub callee: Box<ASTNode>,
    pub arguments: Vec<ASTNode>,
}

impl CallNode {
    pub fn new(callee: ASTNode, arguments: Vec<ASTNode>) -> (node: Self)
        ensures
            *node.callee == callee,
            node.arguments == arguments,
    {
        Self { callee: Box::new(callee), arguments }
    }
}

/// A function declaration. The body is a block.
#[derive(Debug, PartialEq)]
pub struct FunctionNode {
    pub name: String,
    pub parameters: Vec<String>,
    pub body: Box<ASTNode>,
}

impl FunctionNode {
    pub fn new(name: String, parameters: Vec<String>, body: ASTNode) -> (node: Self)
        ensures
            node.name == name,
            node.parameters == parameters,
            *node.body == body,
    {
        Self { name, parameters, body: Box::new(body) }
    }
}

/// A `return`, with or without a value.
#[derive(Debug, PartialEq)]
pub struct ReturnNode {
    pub value: Option<Box<ASTNode>>,
}

impl ReturnNode {
    pub fn new(value: Option<ASTNode>) -> (node: Self)
        ensures
            match value {
                Some(v) => node.value == Some(Box::new(v)),
                None => node.value is None,
            },
    {
        Self {
            value: match value {
                Some(v) => Some(Box::new(v)),
                None => None,
            },
        }
    }
}

/// A conditional. The branches are blocks.
#[derive(Debug, PartialEq)]
pub struct IfNode {
    pub condition: Box<ASTNode>,
    pub then_branch: Box<ASTNode>,
    /// The `elif` branches in order, each a condition with its body.
    pub elif_branches: Vec<(ASTNode, ASTNode)>,
    pub else_branch: Option<Box<ASTNode>>,
}

impl IfNode {
    pub fn new(
        condition: ASTNode,
        then_branch: ASTNode,
        elif_branches: Vec<(ASTNode, ASTNode)>,
        else_branch: Option<ASTNode>,
    ) -> (node: Self)
        ensures
            *node.condition == condition,
            *node.then_branch == then_branch,
            node.elif_branches == elif_branches,
            match else_branch {
                Some(e) => node.else_branch == Some(Box::new(e)),
                None => node.else_branch is None,
            },
    {
        Self {
            condition: Box::new(condition),
            then_branch: Box::new(then_branch),
            elif_branches,
            else_branch: match else_branch {
                Some(e) => Some(Box::new(e)),
                None => None,
            },
        }
    }
}

/// A `while` loop. The body is a block.
#[derive(Debug, PartialEq)]
pub struct WhileNode {
    pub condition: Box<ASTNode>,
    pub body: Box<ASTNode>,
}

impl WhileNode {
    pub fn new(condition: ASTNode, body: ASTNode) -> (node: Self)
        ensures
            *node.condition == condition,
            *node.body == body,
    {
        Self { condition: Box::new(condition), body: Box::new(body) }
    }
}

/// A `for` loop over the items of a list. The body is a block.
#[derive(Debug, PartialEq)]
pub struct ForNode {
    pub variable: String,
    pub iterable: Box<ASTNode>,
    pub body: Box<ASTNode>,
}

impl ForNode {
    pub fn new(variable: String, iterable: ASTNode, body: ASTNode) -> (node: Self)
        ensures
            node.variable == variable,
            *node.iterable == iterable,
            *node.body == body,
    {
        Self { variable, iterable: Box::new(iterable), body: Box::new(body) }
    }
}

/// A `break`.
#[derive(Debug, PartialEq)]
pub struct BreakNode;

impl BreakNode {
    pub fn new() -> (node: Self)
        ensures
            node == BreakNode,
    {
        Self
    }
}

/// A `continue`.
#[derive(Debug, PartialEq)]
pub struct ContinueNode;

impl ContinueNode {
    pub fn new() -> (node: Self)
        ensures
            node == ContinueNode,
    {
        Self
    }
}

/// A run of statements.
#[derive(Debug, PartialEq)]
pub struct BlockNode {
    pub statements: Vec<ASTNode>,
}

impl BlockNode {
    pub fn new(statements: Vec<ASTNode>) -> (node: Self)
        ensures
            node.statements == statements,
    {
        Self { statements }
    }
}

/// A list literal.
#[derive(Debug, PartialEq)]
pub struct ListNode {
    pub elements: Vec<ASTNode>,
}

impl ListNode {
    pub fn new(elements: Vec<ASTNode>) -> (node: Self)
        ensures
            node.elements == elements,
    {
        Self { elements }
    }
}

/// An index into a value. The parser makes none; the evaluator refuses it.
#[derive(Debug, PartialEq)]
pub struct IndexNode {
    pub object: Box<ASTNode>,
    pub index: Box<ASTNode>,
}

impl IndexNode {
    pub fn new(object: ASTNode, index: ASTNode) -> (node: Self)
        ensures
            *node.object == object,
            *node.index == index,
    {
        Self { object: Box::new(object), index: Box::new(index) }
    }
}

/// A member of a value. The parser makes none; the evaluator refuses it.
#[derive(Debug, PartialEq)]
pub struct MemberAccessNode {
    pub object: Box<ASTNode>,
    pub member: String,
}

impl MemberAccessNode {
    pub fn new(object: ASTNode, member: String) -> (node: Self)
        ensures
            *node.object == object,
            node.member == member,
    {
        Self { object: Box::new(object), member }
    }
}

} // verus!
