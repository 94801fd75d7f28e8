use laminax_kpl::ast_nodes::{
    ASTNode, AssignmentNode, BinaryOpNode, BlockNode, BooleanNode, BreakNode, CallNode,
    CompoundAssignmentNode, ContinueNode, ForNode, FunctionNode, IdentifierNode, IfNode,
    IndexNode, ListNode, MemberAccessNode, NullNode, NumberNode, ReturnNode, StringNode,
    UnaryOpNode, WhileNode,
};
use laminax_kpl::errors::{ErrorKind, KyaroError};
use laminax_kpl::lexer::Lexer;
use laminax_kpl::parser::Parser;
use laminax_kpl::token_types::{Token, TokenType, TokenValue};

fn parse(source: &str) -> Result<ASTNode, KyaroError> {
    let tokens = Lexer::new(source).tokenize()?;
    Parser::new(tokens).parse()
}

/// The tree of `source` in a short form: operators by their kind, in
/// parentheses.
fn shape(source: &str) -> String {
    show(&parse(source).unwrap())
}

fn show_all(nodes: &[ASTNode]) -> String {
    nodes.iter().map(show).collect::<Vec<_>>().join(" ")
}

fn show(node: &ASTNode) -> String {
    match node {
        ASTNode::Number(n) => n.value.clone(),
        ASTNode::String(n) => format!("{:?}", n.value),
        ASTNode::Boolean(n) => n.value.to_string(),
        ASTNode::Null(_) => "null".to_string(),
        ASTNode::Identifier(n) => n.name.clone(),
        ASTNode::BinaryOp(n) => {
            format!("({:?} {} {})", n.operator, show(&n.left), show(&n.right))
        }
        ASTNode::UnaryOp(n) => format!("({:?} {})", n.operator, show(&n.operand)),
        ASTNode::Assignment(n) => format!("(set {} {})", n.name, show(&n.value)),
        ASTNode::CompoundAssignment(n) => {
            format!("({:?} {} {})", n.operator, n.name, show(&n.value))
        }
        ASTNode::Call(n) => format!("(call {} [{}])", show(&n.callee), show_all(&n.arguments)),
        ASTNode::Function(n) => {
            format!("(func {} [{}] {})", n.name, n.parameters.join(" "), show(&n.body))
        }
        ASTNode::Return(n) => match &n.value {
            Some(v) => format!("(return {})", show(v)),
            None => "(return)".to_string(),
        },
        ASTNode::If(n) => {
            let mut s = format!("(if {} {}", show(&n.condition), show(&n.then_branch));
            for (c, b) in &n.elif_branches {
                s += &format!(" elif {} {}", show(c), show(b));
            }
            if let Some(e) = &n.else_branch {
                s += &format!(" else {}", show(e));
            }
            s + ")"
        }
        ASTNode::While(n) => format!("(while {} {})", show(&n.condition), show(&n.body)),
        ASTNode::For(n) => {
            format!("(for {} {} {})", n.variable, show(&n.iterable), show(&n.body))
        }
        ASTNode::Break(_) => "break".to_string(),
        ASTNode::Continue(_) => "continue".to_string(),
        ASTNode::Block(n) => format!("{{{}}}", show_all(&n.statements)),
        ASTNode::List(n) => format!("[{}]", show_all(&n.elements)),
        ASTNode::Index(n) => format!("(index {} {})", show(&n.object), show(&n.index)),
        ASTNode::MemberAccess(n) => format!("(member {} {})", show(&n.object), n.member),
    }
}

fn error(source: &str) -> KyaroError {
    let e = parse(source).unwrap_err();
    assert_eq!(e.kind(), ErrorKind::Parser);
    e
}

#[test]
fn program_is_a_block() {
    for source in ["", "\n\n", "1", "let x = 1\nx", "func f() { }"] {
        assert!(matches!(parse(source).unwrap(), ASTNode::Block(_)), "{:?}", source);
    }
    assert_eq!(shape(""), "{}");
    assert_eq!(shape("1\n2"), "{1 2}");
}

#[test]
fn literals_parse_to_their_nodes() {
    assert_eq!(shape("1.5 \"s\" true false null x"), "{1.5 \"s\" true false null x}");
}

#[test]
fn multiplication_binds_tighter_than_addition() {
    assert_eq!(shape("1 + 2 * 3"), "{(Plus 1 (Star 2 3))}");
    assert_eq!(shape("1 * 2 + 3"), "{(Plus (Star 1 2) 3)}");
    assert_eq!(shape("(1 + 2) * 3"), "{(Star (Plus 1 2) 3)}");
}

#[test]
fn binary_operators_associate_to_the_left() {
    assert_eq!(shape("1 - 2 - 3"), "{(Minus (Minus 1 2) 3)}");
    assert_eq!(shape("8 / 4 % 3 * 2"), "{(Star (Percent (Slash 8 4) 3) 2)}");
    assert_eq!(shape("a or b or c"), "{(KeywordOr (KeywordOr a b) c)}");
}

#[test]
fn precedence_levels_are_ordered() {
    assert_eq!(
        shape("a or b and c == d < e + f * -g"),
        "{(KeywordOr a (KeywordAnd b (EqualsEquals c (LessThan d (Plus e (Star f (Minus g)))))))}"
    );
    assert_eq!(shape("true and false or true"), "{(KeywordOr (KeywordAnd true false) true)}");
    assert_eq!(shape("a != b >= c"), "{(NotEquals a (GreaterEquals b c))}");
    assert_eq!(shape("a <= b > c"), "{(GreaterThan (LessEquals a b) c)}");
}

#[test]
fn unary_operators_nest_to_the_right() {
    assert_eq!(shape("not not x"), "{(KeywordNot (KeywordNot x))}");
    assert_eq!(shape("- -1"), "{(Minus (Minus 1))}");
    assert_eq!(shape("-f(1)"), "{(Minus (call f [1]))}");
    assert_eq!(shape("not a == b"), "{(EqualsEquals (KeywordNot a) b)}");
}

#[test]
fn calls_chain_to_the_left() {
    assert_eq!(shape("f()"), "{(call f [])}");
    assert_eq!(shape("f(1, x + 2)(3)()"), "{(call (call (call f [1 (Plus x 2)]) [3]) [])}");
    assert_eq!(shape("f(1, 2,)"), "{(call f [1 2])}");
}

#[test]
fn lists_hold_their_elements() {
    assert_eq!(shape("[]"), "{[]}");
    assert_eq!(shape("[1, [2, 3], f(4)]"), "{[1 [2 3] (call f [4])]}");
}

#[test]
fn binary_operation_knows_where_its_operator_stands() {
    let tree = parse("x\n  + 1").unwrap_err();
    assert_eq!(tree.message(), "Expected expression, got Plus");
    let tree = parse("let y = 10 /\t2").unwrap();
    let ASTNode::Block(block) = tree else { panic!() };
    let ASTNode::Assignment(assignment) = &block.statements[0] else { panic!() };
    let ASTNode::BinaryOp(operation) = &*assignment.value else { panic!() };
    assert_eq!((operation.line, operation.column), (1, 12));
}

#[test]
fn let_and_bare_assignment_are_the_same_node() {
    assert_eq!(shape("let x = 1 + 2"), "{(set x (Plus 1 2))}");
    assert_eq!(shape("x = 1 + 2"), "{(set x (Plus 1 2))}");
    assert_eq!(shape("x == 1"), "{(EqualsEquals x 1)}");
}

#[test]
fn function_declaration_takes_names_and_a_block() {
    assert_eq!(shape("func f() { }"), "{(func f [] {})}");
    assert_eq!(
        shape("func add(a, b) {\n  return a + b\n}"),
        "{(func add [a b] {(return (Plus a b))})}"
    );
}

#[test]
fn trailing_comma_after_the_last_parameter_is_refused() {
    assert_eq!(error("func f(a, ) { }").message(), "Expected Identifier, got RParen");
    assert_eq!(error("func f(a b) { }").message(), "Expected RParen, got Identifier");
    assert_eq!(error("func f(, a) { }").message(), "Expected Identifier, got Comma");
}

#[test]
fn conditional_takes_elif_and_else_branches() {
    assert_eq!(shape("if a { 1 }"), "{(if a {1})}");
    assert_eq!(shape("if a { 1 } else { 2 }"), "{(if a {1} else {2})}");
    assert_eq!(
        shape("if a { 1 } elif b { 2 } elif c { 3 } else { 4 }"),
        "{(if a {1} elif b {2} elif c {3} else {4})}"
    );
    assert_eq!(
        shape("if a {\n 1\n}\nelif b {\n 2\n}\nelse {\n 3\n}\nx"),
        "{(if a {1} elif b {2} else {3}) x}"
    );
    assert_eq!(shape("if a { 1 }\nx"), "{(if a {1}) x}");
}

#[test]
fn else_without_if_is_refused() {
    assert_eq!(error("else { 1 }").message(), "Expected expression, got KeywordElse");
    assert_eq!(error("if a { } else { } else { }").message(), "Expected expression, got KeywordElse");
}

#[test]
fn loops_take_a_block() {
    assert_eq!(shape("while i < 3 { i = i + 1 }"), "{(while (LessThan i 3) {(set i (Plus i 1))})}");
    assert_eq!(shape("for x in [1, 2] { f(x) }"), "{(for x [1 2] {(call f [x])})}");
    assert_eq!(shape("while true { break\ncontinue }"), "{(while true {break continue})}");
}

#[test]
fn return_takes_an_expression_unless_the_line_or_block_ends() {
    assert_eq!(shape("func f() { return }"), "{(func f [] {(return)})}");
    assert_eq!(shape("func f() { return\n1 }"), "{(func f [] {(return) 1})}");
    assert_eq!(shape("func f() { return; 1 }"), "{(func f [] {(return) 1})}");
    assert_eq!(shape("func f() { return 1 }"), "{(func f [] {(return 1)})}");
    assert_eq!(error("return").message(), "Expected expression, got Eof");
}

#[test]
fn newlines_and_semicolons_separate_statements() {
    assert_eq!(shape("\n\na;b;;\n;c\n"), "{a b c}");
    assert_eq!(shape("while i < 3 { print(i); i = i + 1 }").matches("(set").count(), 1);
    assert_eq!(shape("a b"), "{a b}");
}

#[test]
fn newlines_inside_an_expression_that_is_not_complete_are_passed_over() {
    assert_eq!(shape("1 +\n2"), "{(Plus 1 2)}");
    assert_eq!(shape("1 +\n\n  2 *\n 3"), "{(Plus 1 (Star 2 3))}");
    assert_eq!(shape("a and\nb or\nc == \n d"), "{(KeywordOr (KeywordAnd a b) (EqualsEquals c d))}");
    assert_eq!(shape("not\nx"), "{(KeywordNot x)}");
    assert_eq!(shape("-\n1"), "{(Minus 1)}");
    assert_eq!(shape("f(\n1)"), "{(call f [1])}");
    assert_eq!(shape("f(\n1,\n2\n)"), "{(call f [1 2])}");
    assert_eq!(shape("f(1\n, 2)"), "{(call f [1 2])}");
    assert_eq!(shape("[\n1,\n\n2,\n]"), "{[1 2]}");
    assert_eq!(shape("[\n]"), "{[]}");
    assert_eq!(shape("(\n1 + 2\n)"), "{(Plus 1 2)}");
    assert_eq!(shape("let x =\n 5"), "{(set x 5)}");
    assert_eq!(shape("x =\n\n y"), "{(set x y)}");
}

#[test]
fn newline_after_a_complete_expression_ends_it() {
    assert_eq!(shape("f\n(1)"), "{f 1}");
    assert_eq!(shape("a\n-b"), "{a (Minus b)}");
    assert_eq!(shape("a\n[b]"), "{a [b]}");
    assert_eq!(error("1\n+ 2").message(), "Expected expression, got Plus");
    assert_eq!(error("1 +;2").message(), "Expected expression, got Semicolon");
    assert_eq!(error("f(1;)").message(), "Expected expression, got Semicolon");
    assert_eq!(error("if\nx { }").message(), "Expected expression, got Newline");
    assert_eq!(error("let\nx = 1").message(), "Expected Identifier, got Newline");
}

#[test]
fn let_without_a_name_is_refused() {
    let e = error("let = 1");
    assert_eq!(e.to_string(), "Parser error at line 1, column 5: Expected Identifier, got Equals");
    assert_eq!(error("let if = 1").message(), "Expected Identifier, got KeywordIf");
    assert_eq!(error("let x 1").message(), "Expected Equals, got Number");
}

#[test]
fn unexpected_tokens_are_named_with_their_place() {
    assert_eq!(error("(1 + 2").to_string(), "Parser error at line 1, column 7: Expected RParen, got Eof");
    assert_eq!(error("[1, 2").message(), "Expected expression, got Eof");
    assert_eq!(error("[1, 2 }").message(), "Expected expression, got RBrace");
    assert_eq!(error("f(1").message(), "Expected expression, got Eof");
    assert_eq!(error("2 ** 3").message(), "Expected expression, got Power");
    assert_eq!(error("x += 1").message(), "Expected expression, got PlusEquals");
    assert_eq!(error("if x 1").message(), "Expected LBrace, got Number");
    assert_eq!(error("while x {").message(), "Expected expression, got Eof");
    assert_eq!(error("for x [1] { }").message(), "Expected KeywordIn, got LBracket");
    assert_eq!(error("for 1 in x { }").message(), "Expected Identifier, got Number");
    assert_eq!(error("func (a) { }").message(), "Expected Identifier, got LParen");
    assert_eq!(error("func f a) { }").message(), "Expected LParen, got Identifier");
    assert_eq!(error("}").message(), "Expected expression, got RBrace");
    assert_eq!(error("class").message(), "Expected expression, got KeywordClass");
}

#[test]
fn tokens_that_run_out_are_reported_at_place_zero() {
    let mut parser = Parser::new(vec![
        Token::simple(TokenType::KeywordLet, 1, 1),
        Token::identifier("x".to_string(), 1, 5),
    ]);
    let e = parser.parse().unwrap_err();
    assert_eq!(e.to_string(), "Parser error at line 0, column 0: Expected Equals, got EOF");
    let mut empty = Parser::new(vec![]);
    assert_eq!(show(&empty.parse().unwrap()), "{}");
    let mut open = Parser::new(vec![Token::symbol(TokenType::LParen, "(".to_string(), 1, 1)]);
    assert_eq!(open.parse().unwrap_err().message(), "Expected expression, got EOF");
}

#[test]
fn token_whose_payload_does_not_fit_its_kind_is_refused() {
    let number = Token::new(TokenType::Number, TokenValue::Absent, 3, 4);
    let e = Parser::new(vec![number]).parse().unwrap_err();
    assert_eq!(e.to_string(), "Parser error at line 3, column 4: Invalid number token");
    let string = Token::new(TokenType::String, TokenValue::Absent, 1, 1);
    assert_eq!(Parser::new(vec![string]).parse().unwrap_err().message(), "Invalid string token");
    let name = Token::new(TokenType::Identifier, TokenValue::Absent, 1, 1);
    assert_eq!(Parser::new(vec![name]).parse().unwrap_err().message(), "Invalid identifier token");
    let tokens = vec![
        Token::simple(TokenType::KeywordLet, 1, 1),
        Token::new(TokenType::Identifier, TokenValue::Number("1".to_string()), 1, 5),
    ];
    assert_eq!(Parser::new(tokens).parse().unwrap_err().message(), "Expected identifier");
}

#[test]
fn parsing_stops_at_the_end_of_text_token() {
    let tokens = vec![
        Token::identifier("a".to_string(), 1, 1),
        Token::simple(TokenType::Eof, 1, 2),
        Token::identifier("b".to_string(), 1, 3),
    ];
    assert_eq!(show(&Parser::new(tokens).parse().unwrap()), "{a}");
}

#[test]
fn node_constructors_keep_their_parts() {
    let one = || ASTNode::Number(NumberNode::new("1".to_string()));
    let x = || ASTNode::Identifier(IdentifierNode::new("x".to_string()));
    assert_eq!(show(&ASTNode::String(StringNode::new("s".to_string()))), "\"s\"");
    assert_eq!(show(&ASTNode::Boolean(BooleanNode::new(true))), "true");
    assert_eq!(show(&ASTNode::Null(NullNode::new())), "null");
    assert_eq!(show(&ASTNode::Break(BreakNode::new())), "break");
    assert_eq!(show(&ASTNode::Continue(ContinueNode::new())), "continue");
    let operation = BinaryOpNode::new(one(), TokenType::Plus, x());
    assert_eq!((operation.line, operation.column), (0, 0));
    assert_eq!(show(&ASTNode::BinaryOp(operation)), "(Plus 1 x)");
    let placed = BinaryOpNode::with_position(one(), TokenType::Star, x(), 2, 7);
    assert_eq!((placed.line, placed.column), (2, 7));
    assert_eq!(show(&ASTNode::UnaryOp(UnaryOpNode::new(TokenType::Minus, x()))), "(Minus x)");
    assert_eq!(
        show(&ASTNode::Assignment(AssignmentNode::new("y".to_string(), one()))),
        "(set y 1)"
    );
    assert_eq!(
        show(&ASTNode::CompoundAssignment(CompoundAssignmentNode::new(
            "y".to_string(),
            TokenType::PlusEquals,
            one()
        ))),
        "(PlusEquals y 1)"
    );
    assert_eq!(show(&ASTNode::Call(CallNode::new(x(), vec![one(), one()]))), "(call x [1 1])");
    let body = || ASTNode::Block(BlockNode::new(vec![one()]));
    assert_eq!(
        show(&ASTNode::Function(FunctionNode::new("f".to_string(), vec!["a".to_string()], body()))),
        "(func f [a] {1})"
    );
    assert_eq!(show(&ASTNode::Return(ReturnNode::new(Some(one())))), "(return 1)");
    assert_eq!(show(&ASTNode::Return(ReturnNode::new(None))), "(return)");
    assert_eq!(
        show(&ASTNode::If(IfNode::new(x(), body(), vec![(x(), body())], Some(body())))),
        "(if x {1} elif x {1} else {1})"
    );
    assert_eq!(show(&ASTNode::While(WhileNode::new(x(), body()))), "(while x {1})");
    assert_eq!(show(&ASTNode::For(ForNode::new("i".to_string(), x(), body()))), "(for i x {1})");
    assert_eq!(show(&ASTNode::List(ListNode::new(vec![one(), x()]))), "[1 x]");
    assert_eq!(show(&ASTNode::Index(IndexNode::new(x(), one()))), "(index x 1)");
    assert_eq!(
        show(&ASTNode::MemberAccess(MemberAccessNode::new(x(), "m".to_string()))),
        "(member x m)"
    );
}

#[test]
fn copy_of_a_tree_is_the_same_tree() {
    let source = "func f(a, b) { if a { return [a, b] } elif b { while a { break } } else { \
                  for x in f(1, 2) { continue } }\n return -a + not b }";
    let tree = parse(source).unwrap();
    let copy = tree.duplicate();
    assert_eq!(copy, tree);
    assert_eq!(show(&copy), show(&tree));
}
