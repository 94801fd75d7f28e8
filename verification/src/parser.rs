// The parser: from tokens to a syntax tree, by recursive descent.
//
// The first half of the file is the grammar, written as functions from a
// run of tokens and an index to the tree of the construct that starts there
// and the index after it (`parse_program`). The second half is the parser
// itself, whose `parse` gives exactly that tree.

use crate::ast_nodes::{
    tree_pairs, trees, ASTNode, AssignmentNode, Ast, BinaryOpNode, BlockNode, BooleanNode,
    BreakNode, CallNode, ContinueNode, ForNode, FunctionNode, IdentifierNode, IfNode, ListNode,
    NullNode, NumberNode, ReturnNode, StringNode, UnaryOpNode, WhileNode,
};
use crate::errors::{ErrorKind, ErrorView, KyaroError};
use crate::text::{push_str, texts};
use crate::token_types::{kind_name, token_views, Token, TokenType, TokenValue, TokenValueView, TokenView};
use vstd::prelude::*;
use vstd::string::StringExecFns;

verus! {

/// The token at index `i`, if there is one.
pub open spec fn current(tokens: Seq<TokenView>, i: int) -> Option<TokenView> {
    if 0 <= i < tokens.len() {
        Some(tokens[i])
    } else {
        None
    }
}

/// The kind of the token at index `i`, if there is one.
pub open spec fn kind_at(tokens: Seq<TokenView>, i: int) -> Option<TokenType> {
    match current(tokens, i) {
        Some(t) => Some(t.token_type),
        None => None,
    }
}

/// A parser error that points at token `at`, or at line and column zero
/// where the tokens have run out.
pub open spec fn parser_failure(message: Seq<char>, at: Option<TokenView>) -> ErrorView {
    match at {
        Some(t) => ErrorView { kind: ErrorKind::Parser, message, line: t.line, column: t.column },
        None => ErrorView { kind: ErrorKind::Parser, message, line: 0, column: 0 },
    }
}

/// How an error names the token at index `i`.
pub open spec fn found(tokens: Seq<TokenView>, i: int) -> Seq<char> {
    match current(tokens, i) {
        Some(t) => kind_name(t.token_type),
        None => "EOF"@,
    }
}

/// The error for a token at index `i` that is not what the grammar asks
/// for there.
pub open spec fn expected(what: Seq<char>, tokens: Seq<TokenView>, i: int) -> ErrorView {
    parser_failure("Expected "@ + what + ", got "@ + found(tokens, i), current(tokens, i))
}

/// Takes a token of kind `t` at index `i`: the index after it, or the error.
pub open spec fn expect(tokens: Seq<TokenView>, i: int, t: TokenType) -> Result<int, ErrorView> {
    if kind_at(tokens, i) == Some(t) {
        Ok(i + 1)
    } else {
        Err(expected(kind_name(t), tokens, i))
    }
}

/// Takes an identifier at index `i`: its name and the index after it.
pub open spec fn expect_name(tokens: Seq<TokenView>, i: int) -> Result<(Seq<char>, int), ErrorView> {
    if kind_at(tokens, i) == Some(TokenType::Identifier) {
        match tokens[i].value {
            TokenValueView::Identifier(name) => Ok((name, i + 1)),
            _ => Err(parser_failure("Expected identifier"@, current(tokens, i))),
        }
    } else {
        Err(expected(kind_name(TokenType::Identifier), tokens, i))
    }
}

/// Newlines and semicolons separate statements and mean nothing else.
pub open spec fn is_separator(t: TokenType) -> bool {
    t == TokenType::Newline || t == TokenType::Semicolon
}

/// The index of the first token at or after `i` that is no separator.
pub open spec fn skip_separators(tokens: Seq<TokenView>, i: int) -> int
    decreases tokens.len() - i,
{
    if 0 <= i < tokens.len() && is_separator(tokens[i].token_type) {
        skip_separators(tokens, i + 1)
    } else {
        i
    }
}

/// Skipping separators ends at or after the index it began at, inside the
/// tokens, at a token that is no separator.
pub proof fn lemma_skip_advances(tokens: Seq<TokenView>, i: int)
    ensures
        i <= skip_separators(tokens, i),
        i <= tokens.len() ==> skip_separators(tokens, i) <= tokens.len(),
        kind_at(tokens, skip_separators(tokens, i)) matches Some(t) ==> !is_separator(t),
    decreases tokens.len() - i,
{
    if 0 <= i < tokens.len() && is_separator(tokens[i].token_type) {
        lemma_skip_advances(tokens, i + 1);
    }
}

/// The index of the first token at or after `i` that is no newline. Inside
/// an expression that is not complete, newlines are passed over: after an
/// operator, after `=`, and between the brackets of a group, a list or an
/// argument list.
pub open spec fn skip_newlines(tokens: Seq<TokenView>, i: int) -> int
    decreases tokens.len() - i,
{
    if 0 <= i < tokens.len() && tokens[i].token_type == TokenType::Newline {
        skip_newlines(tokens, i + 1)
    } else {
        i
    }
}

/// Skipping newlines ends at or after the index it began at, inside the
/// tokens, at a token that is no newline.
pub proof fn lemma_skip_newlines(tokens: Seq<TokenView>, i: int)
    ensures
        i <= skip_newlines(tokens, i),
        i <= tokens.len() ==> skip_newlines(tokens, i) <= tokens.len(),
        kind_at(tokens, skip_newlines(tokens, i)) != Some(TokenType::Newline),
    decreases tokens.len() - i,
{
    if 0 <= i < tokens.len() && tokens[i].token_type == TokenType::Newline {
        lemma_skip_newlines(tokens, i + 1);
    }
}

/// How many tokens stand at or after index `i`.
pub open spec fn remaining(tokens: Seq<TokenView>, i: int) -> nat {
    if i < tokens.len() {
        (tokens.len() - i) as nat
    } else {
        0
    }
}

/// The index at which parsing goes on after a construct that started at
/// index `i` and ended before index `j`. A construct takes at least one
/// token, so this is `j`; written so, the definitions below can be seen to
/// end.
pub open spec fn after(i: int, j: int) -> int {
    if j > i {
        j
    } else {
        i + 1
    }
}

/// The binary operators of a precedence level, the loosest level first:
/// `or`; `and`; equality; comparison; additive; multiplicative.
pub open spec fn is_level_operator(level: nat, t: TokenType) -> bool {
    if level == 0 {
        t == TokenType::KeywordOr
    } else if level == 1 {
        t == TokenType::KeywordAnd
    } else if level == 2 {
        t == TokenType::EqualsEquals || t == TokenType::NotEquals
    } else if level == 3 {
        t == TokenType::LessThan || t == TokenType::GreaterThan || t == TokenType::LessEquals || t
            == TokenType::GreaterEquals
    } else if level == 4 {
        t == TokenType::Plus || t == TokenType::Minus
    } else if level == 5 {
        t == TokenType::Star || t == TokenType::Slash || t == TokenType::Percent
    } else {
        false
    }
}

/// A measure that falls as the precedence level rises; it shows that the
/// descent through the levels ends.
pub open spec fn level_rank(level: nat) -> nat {
    if level < 6 {
        (12 - level) as nat
    } else {
        6
    }
}

/// Statements from index `i` on, added to `sofar`, up to a token of kind
/// `stop` or the end of the tokens. Gives the statements and the index of the
/// token that stopped it.
pub open spec fn parse_statements(
    tokens: Seq<TokenView>,
    i: int,
    stop: TokenType,
    sofar: Seq<Ast>,
) -> Result<(Seq<Ast>, int), ErrorView>
    decreases remaining(tokens, i), 30nat,
{
    let j = skip_separators(tokens, i);
    if kind_at(tokens, j) is None || kind_at(tokens, j) == Some(stop) {
        Ok((sofar, j))
    } else {
        proof {
            lemma_skip_advances(tokens, i);
        }
        match parse_statement(tokens, j) {
            Err(e) => Err(e),
            Ok((statement, k)) => parse_statements(tokens, after(j, k), stop, sofar.push(statement)),
        }
    }
}

/// A block in braces that starts at index `i`.
pub open spec fn parse_block(tokens: Seq<TokenView>, i: int) -> Result<(Ast, int), ErrorView>
    decreases remaining(tokens, i), 25nat,
{
    match expect(tokens, i, TokenType::LBrace) {
        Err(e) => Err(e),
        Ok(j) => match parse_statements(tokens, j, TokenType::RBrace, Seq::empty()) {
            Err(e) => Err(e),
            Ok((statements, k)) => match expect(tokens, k, TokenType::RBrace) {
                Err(e) => Err(e),
                Ok(m) => Ok((Ast::Block { statements }, m)),
            },
        },
    }
}

/// The statement that starts at index `i`.
pub open spec fn parse_statement(tokens: Seq<TokenView>, i: int) -> Result<(Ast, int), ErrorView>
    decreases remaining(tokens, i), 20nat,
{
    match kind_at(tokens, i) {
        None => Err(expected("statement"@, tokens, i)),
        Some(TokenType::KeywordLet) => parse_binding(tokens, i + 1),
        Some(TokenType::KeywordFunc) => parse_function(tokens, i),
        Some(TokenType::KeywordIf) => parse_if(tokens, i),
        Some(TokenType::KeywordWhile) => parse_while(tokens, i),
        Some(TokenType::KeywordFor) => parse_for(tokens, i),
        Some(TokenType::KeywordReturn) => parse_return(tokens, i),
        Some(TokenType::KeywordBreak) => Ok((Ast::Break, i + 1)),
        Some(TokenType::KeywordContinue) => Ok((Ast::Continue, i + 1)),
        Some(TokenType::Identifier) => if kind_at(tokens, i + 1) == Some(TokenType::Equals) {
            parse_binding(tokens, i)
        } else {
            parse_expression(tokens, i)
        },
        Some(_) => parse_expression(tokens, i),
    }
}

/// `name = expression`, with the name at index `i`.
pub open spec fn parse_binding(tokens: Seq<TokenView>, i: int) -> Result<(Ast, int), ErrorView>
    decreases remaining(tokens, i), 19nat,
{
    match expect_name(tokens, i) {
        Err(e) => Err(e),
        Ok((name, j)) => match expect(tokens, j, TokenType::Equals) {
            Err(e) => Err(e),
            Ok(k) => match parse_expression(tokens, skip_newlines(tokens, k)) {
                Err(e) => Err(e),
                Ok((value, m)) => Ok((Ast::Assignment { name, value: Box::new(value) }, m)),
            },
        },
    }
}

/// One or more parameter names separated by commas, from index `i` on.
pub open spec fn parse_more_parameters(
    tokens: Seq<TokenView>,
    i: int,
    sofar: Seq<Seq<char>>,
) -> Result<(Seq<Seq<char>>, int), ErrorView>
    decreases remaining(tokens, i),
{
    match expect_name(tokens, i) {
        Err(e) => Err(e),
        Ok((name, j)) => if kind_at(tokens, j) == Some(TokenType::Comma) {
            parse_more_parameters(tokens, j + 1, sofar.push(name))
        } else {
            Ok((sofar.push(name), j))
        },
    }
}

/// The parameter names between the parentheses of a declaration, from index
/// `i` on; gives the index of the token after the last name.
pub open spec fn parse_parameters(tokens: Seq<TokenView>, i: int) -> Result<
    (Seq<Seq<char>>, int),
    ErrorView,
> {
    if kind_at(tokens, i) == Some(TokenType::RParen) {
        Ok((Seq::empty(), i))
    } else {
        parse_more_parameters(tokens, i, Seq::empty())
    }
}

/// The head of a function declaration, with `func` at index `i`: the name
/// and the parameter names, and the index after the closing parenthesis.
pub open spec fn parse_signature(tokens: Seq<TokenView>, i: int) -> Result<
    (Seq<char>, Seq<Seq<char>>, int),
    ErrorView,
> {
    match expect(tokens, i, TokenType::KeywordFunc) {
        Err(e) => Err(e),
        Ok(h) => match expect_name(tokens, h) {
            Err(e) => Err(e),
            Ok((name, j)) => match expect(tokens, j, TokenType::LParen) {
                Err(e) => Err(e),
                Ok(k) => match parse_parameters(tokens, k) {
                    Err(e) => Err(e),
                    Ok((parameters, m)) => match expect(tokens, m, TokenType::RParen) {
                        Err(e) => Err(e),
                        Ok(n) => Ok((name, parameters, n)),
                    },
                },
            },
        },
    }
}

/// A function declaration, with `func` at index `i`.
pub open spec fn parse_function(tokens: Seq<TokenView>, i: int) -> Result<(Ast, int), ErrorView>
    decreases remaining(tokens, i), 19nat,
{
    match parse_signature(tokens, i) {
        Err(e) => Err(e),
        Ok((name, parameters, n)) => match parse_block(tokens, after(i, n)) {
            Err(e) => Err(e),
            Ok((body, end)) => Ok((Ast::Function { name, parameters, body: Box::new(body) }, end)),
        },
    }
}

/// The `elif` branches and the `else` branch that follow a block which ended
/// before index `i`.
pub open spec fn parse_branches(
    tokens: Seq<TokenView>,
    i: int,
    sofar: Seq<(Ast, Ast)>,
) -> Result<(Seq<(Ast, Ast)>, Option<Ast>, int), ErrorView>
    decreases remaining(tokens, i), 25nat,
{
    let j = skip_separators(tokens, i);
    if kind_at(tokens, j) == Some(TokenType::KeywordElif) {
        proof {
            lemma_skip_advances(tokens, i);
        }
        match parse_expression(tokens, j + 1) {
            Err(e) => Err(e),
            Ok((condition, k)) => match parse_block(tokens, after(j, k)) {
                Err(e) => Err(e),
                Ok((body, m)) => parse_branches(tokens, after(j, m), sofar.push((condition, body))),
            },
        }
    } else if kind_at(tokens, j) == Some(TokenType::KeywordElse) {
        proof {
            lemma_skip_advances(tokens, i);
        }
        match parse_block(tokens, j + 1) {
            Err(e) => Err(e),
            Ok((body, m)) => Ok((sofar, Some(body), m)),
        }
    } else {
        Ok((sofar, None, j))
    }
}

/// A conditional, with `if` at index `i`.
pub open spec fn parse_if(tokens: Seq<TokenView>, i: int) -> Result<(Ast, int), ErrorView>
    decreases remaining(tokens, i), 19nat,
{
    match expect(tokens, i, TokenType::KeywordIf) {
        Err(e) => Err(e),
        Ok(h) => match parse_expression(tokens, h) {
            Err(e) => Err(e),
            Ok((condition, j)) => match parse_block(tokens, after(i, j)) {
                Err(e) => Err(e),
                Ok((then_branch, k)) => match parse_branches(tokens, after(i, k), Seq::empty()) {
                    Err(e) => Err(e),
                    Ok((elif_branches, else_branch, m)) => Ok(
                        (
                            Ast::If {
                                condition: Box::new(condition),
                                then_branch: Box::new(then_branch),
                                elif_branches,
                                else_branch: match else_branch {
                                    Some(b) => Some(Box::new(b)),
                                    None => None,
                                },
                            },
                            m,
                        ),
                    ),
                },
            },
        },
    }
}

/// A `while` loop, with `while` at index `i`.
pub open spec fn parse_while(tokens: Seq<TokenView>, i: int) -> Result<(Ast, int), ErrorView>
    decreases remaining(tokens, i), 19nat,
{
    match expect(tokens, i, TokenType::KeywordWhile) {
        Err(e) => Err(e),
        Ok(h) => match parse_expression(tokens, h) {
            Err(e) => Err(e),
            Ok((condition, j)) => match parse_block(tokens, after(i, j)) {
                Err(e) => Err(e),
                Ok((body, k)) => Ok(
                    (Ast::While { condition: Box::new(condition), body: Box::new(body) }, k),
                ),
            },
        },
    }
}

/// A `for` loop, with `for` at index `i`.
pub open spec fn parse_for(tokens: Seq<TokenView>, i: int) -> Result<(Ast, int), ErrorView>
    decreases remaining(tokens, i), 19nat,
{
    match expect(tokens, i, TokenType::KeywordFor) {
        Err(e) => Err(e),
        Ok(h) => match expect_name(tokens, h) {
            Err(e) => Err(e),
            Ok((variable, j)) => match expect(tokens, j, TokenType::KeywordIn) {
                Err(e) => Err(e),
                Ok(k) => match parse_expression(tokens, k) {
                    Err(e) => Err(e),
                    Ok((iterable, m)) => match parse_block(tokens, after(i, m)) {
                        Err(e) => Err(e),
                        Ok((body, end)) => Ok(
                            (
                                Ast::For {
                                    variable,
                                    iterable: Box::new(iterable),
                                    body: Box::new(body),
                                },
                                end,
                            ),
                        ),
                    },
                },
            },
        },
    }
}

/// Whether a `return` that this token follows has no expression.
pub open spec fn ends_return(t: TokenType) -> bool {
    is_separator(t) || t == TokenType::RBrace
}

/// A `return`, with the keyword at index `i`.
pub open spec fn parse_return(tokens: Seq<TokenView>, i: int) -> Result<(Ast, int), ErrorView>
    decreases remaining(tokens, i), 19nat,
{
    match expect(tokens, i, TokenType::KeywordReturn) {
        Err(e) => Err(e),
        Ok(h) => if kind_at(tokens, h) matches Some(t) && ends_return(t) {
            Ok((Ast::Return { value: None }, h))
        } else {
            match parse_expression(tokens, h) {
                Err(e) => Err(e),
                Ok((value, j)) => Ok((Ast::Return { value: Some(Box::new(value)) }, j)),
            }
        },
    }
}

/// The expression that starts at index `i`.
pub open spec fn parse_expression(tokens: Seq<TokenView>, i: int) -> Result<(Ast, int), ErrorView>
    decreases remaining(tokens, i), 16nat,
{
    parse_level(tokens, i, 0)
}

/// An expression of precedence level `level` or tighter that starts at
/// index `i`. Levels from six on are the unary expressions.
pub open spec fn parse_level(tokens: Seq<TokenView>, i: int, level: nat) -> Result<
    (Ast, int),
    ErrorView,
>
    decreases remaining(tokens, i), level_rank(level),
{
    if current(tokens, i) is None {
        Err(expected("expression"@, tokens, i))
    } else if level >= 6 {
        parse_unary(tokens, i)
    } else {
        match parse_level(tokens, i, level + 1) {
            Err(e) => Err(e),
            Ok((left, j)) => parse_level_rest(tokens, after(i, j), level, left),
        }
    }
}

/// Goes on with an expression of level `level` whose operands so far make
/// up `left`: as long as an operator of the level stands at index `i`, its
/// right operand is read and joined to the left one.
pub open spec fn parse_level_rest(tokens: Seq<TokenView>, i: int, level: nat, left: Ast) -> Result<
    (Ast, int),
    ErrorView,
>
    decreases remaining(tokens, i), 0nat,
{
    if kind_at(tokens, i) matches Some(t) && is_level_operator(level, t) {
        proof {
            lemma_skip_newlines(tokens, i + 1);
        }
        match parse_level(tokens, skip_newlines(tokens, i + 1), level + 1) {
            Err(e) => Err(e),
            Ok((right, j)) => parse_level_rest(
                tokens,
                after(i, j),
                level,
                Ast::BinaryOp {
                    left: Box::new(left),
                    operator: tokens[i].token_type,
                    right: Box::new(right),
                    line: tokens[i].line,
                    column: tokens[i].column,
                },
            ),
        }
    } else {
        Ok((left, i))
    }
}

/// A unary expression that starts at index `i`.
pub open spec fn parse_unary(tokens: Seq<TokenView>, i: int) -> Result<(Ast, int), ErrorView>
    decreases remaining(tokens, i), 5nat,
{
    if kind_at(tokens, i) == Some(TokenType::Minus) || kind_at(tokens, i) == Some(
        TokenType::KeywordNot,
    ) {
        proof {
            lemma_skip_newlines(tokens, i + 1);
        }
        match parse_unary(tokens, skip_newlines(tokens, i + 1)) {
            Err(e) => Err(e),
            Ok((operand, j)) => Ok(
                (Ast::UnaryOp { operator: tokens[i].token_type, operand: Box::new(operand) }, j),
            ),
        }
    } else {
        parse_call(tokens, i)
    }
}

/// A primary expression with the calls that follow it, from index `i` on.
pub open spec fn parse_call(tokens: Seq<TokenView>, i: int) -> Result<(Ast, int), ErrorView>
    decreases remaining(tokens, i), 4nat,
{
    if current(tokens, i) is None {
        Err(expected("expression"@, tokens, i))
    } else {
        match parse_primary(tokens, i) {
            Err(e) => Err(e),
            Ok((callee, j)) => parse_call_rest(tokens, after(i, j), callee),
        }
    }
}

/// Goes on after `callee`: each argument list in parentheses that follows
/// makes a call of what stands before it.
pub open spec fn parse_call_rest(tokens: Seq<TokenView>, i: int, callee: Ast) -> Result<
    (Ast, int),
    ErrorView,
>
    decreases remaining(tokens, i), 0nat,
{
    if kind_at(tokens, i) == Some(TokenType::LParen) {
        match parse_items(tokens, i + 1, TokenType::RParen, Seq::empty()) {
            Err(e) => Err(e),
            Ok((arguments, j)) => match expect(tokens, j, TokenType::RParen) {
                Err(e) => Err(e),
                Ok(k) => parse_call_rest(
                    tokens,
                    after(i, k),
                    Ast::Call { callee: Box::new(callee), arguments },
                ),
            },
        }
    } else {
        Ok((callee, i))
    }
}

/// Expressions from index `i` on, added to `sofar`, up to a token of kind
/// `closer` or the end of the tokens. A comma after an expression is taken
/// with it, and newlines before an expression, before a comma and before
/// the closing token are passed over.
pub open spec fn parse_items(
    tokens: Seq<TokenView>,
    i: int,
    closer: TokenType,
    sofar: Seq<Ast>,
) -> Result<(Seq<Ast>, int), ErrorView>
    decreases remaining(tokens, i), 17nat,
{
    let from = skip_newlines(tokens, i);
    if kind_at(tokens, from) is None || kind_at(tokens, from) == Some(closer) {
        Ok((sofar, from))
    } else {
        proof {
            lemma_skip_newlines(tokens, i);
        }
        match parse_expression(tokens, from) {
            Err(e) => Err(e),
            Ok((item, j)) => {
                let comma = skip_newlines(tokens, j);
                let k = if kind_at(tokens, comma) == Some(TokenType::Comma) {
                    comma + 1
                } else {
                    j
                };
                parse_items(tokens, after(from, k), closer, sofar.push(item))
            },
        }
    }
}

/// The primary expression that starts at index `i`.
pub open spec fn parse_primary(tokens: Seq<TokenView>, i: int) -> Result<(Ast, int), ErrorView>
    decreases remaining(tokens, i), 3nat,
{
    match current(tokens, i) {
        None => Err(expected("expression"@, tokens, i)),
        Some(t) => match t.token_type {
            TokenType::Number => match t.value {
                TokenValueView::Number(numeral) => Ok((Ast::Number { numeral }, i + 1)),
                _ => Err(parser_failure("Invalid number token"@, Some(t))),
            },
            TokenType::String => match t.value {
                TokenValueView::String(value) => Ok((Ast::String { value }, i + 1)),
                _ => Err(parser_failure("Invalid string token"@, Some(t))),
            },
            TokenType::KeywordTrue => Ok((Ast::Boolean { value: true }, i + 1)),
            TokenType::KeywordFalse => Ok((Ast::Boolean { value: false }, i + 1)),
            TokenType::KeywordNull => Ok((Ast::Null, i + 1)),
            TokenType::Identifier => match t.value {
                TokenValueView::Identifier(name) => Ok((Ast::Identifier { name }, i + 1)),
                _ => Err(parser_failure("Invalid identifier token"@, Some(t))),
            },
            TokenType::LParen => {
                proof {
                    lemma_skip_newlines(tokens, i + 1);
                }
                match parse_expression(tokens, skip_newlines(tokens, i + 1)) {
                    Err(e) => Err(e),
                    Ok((inner, j)) => match expect(
                        tokens,
                        skip_newlines(tokens, j),
                        TokenType::RParen,
                    ) {
                        Err(e) => Err(e),
                        Ok(k) => Ok((inner, k)),
                    },
                }
            },
            TokenType::LBracket => match parse_items(
                tokens,
                i + 1,
                TokenType::RBracket,
                Seq::empty(),
            ) {
                Err(e) => Err(e),
                Ok((elements, j)) => match expect(tokens, j, TokenType::RBracket) {
                    Err(e) => Err(e),
                    Ok(k) => Ok((Ast::List { elements }, k)),
                },
            },
            _ => Err(expected("expression"@, tokens, i)),
        },
    }
}

/// The program that the tokens from index `i` on spell: the statements up
/// to the end-of-text token, as one block.
pub open spec fn parse_from(tokens: Seq<TokenView>, i: int) -> Result<Ast, ErrorView> {
    match parse_statements(tokens, i, TokenType::Eof, Seq::empty()) {
        Err(e) => Err(e),
        Ok((statements, _)) => Ok(Ast::Block { statements }),
    }
}

/// The program that a run of tokens spells.
pub open spec fn parse_program(tokens: Seq<TokenView>) -> Result<Ast, ErrorView> {
    parse_from(tokens, 0)
}

/// The tree of every program that parses has a block at its top.
pub proof fn lemma_program_is_block(tokens: Seq<TokenView>)
    ensures
        parse_program(tokens) matches Ok(tree) ==> tree is Block,
{
}


/// Whether a parse from index `i` that ended before index `j` took at least
/// one token and stayed inside the tokens.
pub open spec fn advanced(tokens: Seq<TokenView>, i: int, j: int) -> bool {
    i < j <= tokens.len()
}

/// Whether a parse from index `i` that ended before index `j` stayed inside
/// the tokens; it may have taken none of them.
pub open spec fn moved(tokens: Seq<TokenView>, i: int, j: int) -> bool {
    i <= j <= tokens.len()
}

/// Every construct takes at least one token: a statement that parses from
/// index `i` ends before a later index, inside the tokens. With this and the
/// lemmas beside it, `after(i, j)` is `j` wherever the grammar uses it.
pub proof fn lemma_statement_advances(tokens: Seq<TokenView>, i: int)
    requires
        0 <= i <= tokens.len(),
    ensures
        parse_statement(tokens, i) matches Ok((_, j)) ==> advanced(tokens, i, j),
    decreases remaining(tokens, i), 20nat,
{
    match kind_at(tokens, i) {
        None => {},
        Some(TokenType::KeywordLet) => lemma_binding_advances(tokens, i + 1),
        Some(TokenType::KeywordFunc) => lemma_function_advances(tokens, i),
        Some(TokenType::KeywordIf) => lemma_if_advances(tokens, i),
        Some(TokenType::KeywordWhile) => lemma_while_advances(tokens, i),
        Some(TokenType::KeywordFor) => lemma_for_advances(tokens, i),
        Some(TokenType::KeywordReturn) => lemma_return_advances(tokens, i),
        Some(TokenType::KeywordBreak) => {},
        Some(TokenType::KeywordContinue) => {},
        Some(TokenType::Identifier) => {
            if kind_at(tokens, i + 1) == Some(TokenType::Equals) {
                lemma_binding_advances(tokens, i);
            } else {
                lemma_expression_advances(tokens, i);
            }
        },
        Some(_) => lemma_expression_advances(tokens, i),
    }
}

/// A run of statements that parses ends inside the tokens.
pub proof fn lemma_statements_advance(
    tokens: Seq<TokenView>,
    i: int,
    stop: TokenType,
    sofar: Seq<Ast>,
)
    requires
        0 <= i <= tokens.len(),
    ensures
        parse_statements(tokens, i, stop, sofar) matches Ok((_, j)) ==> moved(tokens, i, j),
    decreases remaining(tokens, i), 30nat,
{
    lemma_skip_advances(tokens, i);
    let j = skip_separators(tokens, i);
    if kind_at(tokens, j) is None || kind_at(tokens, j) == Some(stop) {
    } else {
        lemma_statement_advances(tokens, j);
        if let Ok((statement, k)) = parse_statement(tokens, j) {
            lemma_statements_advance(tokens, k, stop, sofar.push(statement));
        }
    }
}

/// A block that parses takes at least one token.
pub proof fn lemma_block_advances(tokens: Seq<TokenView>, i: int)
    requires
        0 <= i <= tokens.len(),
    ensures
        parse_block(tokens, i) matches Ok((_, j)) ==> advanced(tokens, i, j),
    decreases remaining(tokens, i), 25nat,
{
    if let Ok(j) = expect(tokens, i, TokenType::LBrace) {
        lemma_statements_advance(tokens, j, TokenType::RBrace, Seq::empty());
    }
}

/// An assignment that parses takes at least one token.
pub proof fn lemma_binding_advances(tokens: Seq<TokenView>, i: int)
    requires
        0 <= i,
    ensures
        parse_binding(tokens, i) matches Ok((_, j)) ==> advanced(tokens, i, j),
    decreases remaining(tokens, i), 19nat,
{
    if let Ok((name, j)) = expect_name(tokens, i) {
        if let Ok(k) = expect(tokens, j, TokenType::Equals) {
            lemma_skip_newlines(tokens, k);
            lemma_expression_advances(tokens, skip_newlines(tokens, k));
        }
    }
}

/// Parameter names that parse take at least one token.
pub proof fn lemma_parameters_advance(tokens: Seq<TokenView>, i: int, sofar: Seq<Seq<char>>)
    requires
        0 <= i,
    ensures
        parse_more_parameters(tokens, i, sofar) matches Ok((_, j)) ==> advanced(tokens, i, j),
    decreases remaining(tokens, i),
{
    if let Ok((name, j)) = expect_name(tokens, i) {
        if kind_at(tokens, j) == Some(TokenType::Comma) {
            lemma_parameters_advance(tokens, j + 1, sofar.push(name));
        }
    }
}

/// A function declaration that parses takes at least one token.
pub proof fn lemma_function_advances(tokens: Seq<TokenView>, i: int)
    requires
        0 <= i <= tokens.len(),
    ensures
        parse_function(tokens, i) matches Ok((_, j)) ==> advanced(tokens, i, j),
    decreases remaining(tokens, i), 19nat,
{
    if let Ok(h) = expect(tokens, i, TokenType::KeywordFunc) {
        if let Ok((name, j)) = expect_name(tokens, h) {
            if let Ok(k) = expect(tokens, j, TokenType::LParen) {
                if kind_at(tokens, k) != Some(TokenType::RParen) {
                    lemma_parameters_advance(tokens, k, Seq::empty());
                }
                if let Ok((parameters, m)) = parse_parameters(tokens, k) {
                    if let Ok(n) = expect(tokens, m, TokenType::RParen) {
                        lemma_block_advances(tokens, n);
                    }
                }
            }
        }
    }
}

/// The `elif` and `else` branches that parse end inside the tokens.
pub proof fn lemma_branches_advance(tokens: Seq<TokenView>, i: int, sofar: Seq<(Ast, Ast)>)
    requires
        0 <= i <= tokens.len(),
    ensures
        parse_branches(tokens, i, sofar) matches Ok((_, _, j)) ==> moved(tokens, i, j),
    decreases remaining(tokens, i), 25nat,
{
    lemma_skip_advances(tokens, i);
    let j = skip_separators(tokens, i);
    if kind_at(tokens, j) == Some(TokenType::KeywordElif) {
        lemma_expression_advances(tokens, j + 1);
        if let Ok((condition, k)) = parse_expression(tokens, j + 1) {
            lemma_block_advances(tokens, k);
            if let Ok((body, m)) = parse_block(tokens, k) {
                lemma_branches_advance(tokens, m, sofar.push((condition, body)));
            }
        }
    } else if kind_at(tokens, j) == Some(TokenType::KeywordElse) {
        lemma_block_advances(tokens, j + 1);
    }
}

/// A conditional that parses takes at least one token.
pub proof fn lemma_if_advances(tokens: Seq<TokenView>, i: int)
    requires
        0 <= i <= tokens.len(),
    ensures
        parse_if(tokens, i) matches Ok((_, j)) ==> advanced(tokens, i, j),
    decreases remaining(tokens, i), 19nat,
{
    if let Ok(h) = expect(tokens, i, TokenType::KeywordIf) {
        lemma_expression_advances(tokens, h);
        if let Ok((condition, j)) = parse_expression(tokens, h) {
            lemma_block_advances(tokens, j);
            if let Ok((then_branch, k)) = parse_block(tokens, j) {
                lemma_branches_advance(tokens, k, Seq::empty());
            }
        }
    }
}

/// A `while` loop that parses takes at least one token.
pub proof fn lemma_while_advances(tokens: Seq<TokenView>, i: int)
    requires
        0 <= i <= tokens.len(),
    ensures
        parse_while(tokens, i) matches Ok((_, j)) ==> advanced(tokens, i, j),
    decreases remaining(tokens, i), 19nat,
{
    if let Ok(h) = expect(tokens, i, TokenType::KeywordWhile) {
        lemma_expression_advances(tokens, h);
        if let Ok((condition, j)) = parse_expression(tokens, h) {
            lemma_block_advances(tokens, j);
        }
    }
}

/// A `for` loop that parses takes at least one token.
pub proof fn lemma_for_advances(tokens: Seq<TokenView>, i: int)
    requires
        0 <= i <= tokens.len(),
    ensures
        parse_for(tokens, i) matches Ok((_, j)) ==> advanced(tokens, i, j),
    decreases remaining(tokens, i), 19nat,
{
    if let Ok(h) = expect(tokens, i, TokenType::KeywordFor) {
        if let Ok((variable, j)) = expect_name(tokens, h) {
            if let Ok(k) = expect(tokens, j, TokenType::KeywordIn) {
                lemma_expression_advances(tokens, k);
                if let Ok((iterable, m)) = parse_expression(tokens, k) {
                    lemma_block_advances(tokens, m);
                }
            }
        }
    }
}

/// A `return` that parses takes at least one token.
pub proof fn lemma_return_advances(tokens: Seq<TokenView>, i: int)
    requires
        0 <= i <= tokens.len(),
    ensures
        parse_return(tokens, i) matches Ok((_, j)) ==> advanced(tokens, i, j),
    decreases remaining(tokens, i), 19nat,
{
    if let Ok(h) = expect(tokens, i, TokenType::KeywordReturn) {
        if kind_at(tokens, h) matches Some(t) && ends_return(t) {
        } else {
            lemma_expression_advances(tokens, h);
        }
    }
}

/// An expression that parses from index `i` ends before a later index,
/// inside the tokens.
pub proof fn lemma_expression_advances(tokens: Seq<TokenView>, i: int)
    requires
        0 <= i,
    ensures
        parse_expression(tokens, i) matches Ok((_, j)) ==> advanced(tokens, i, j),
    decreases remaining(tokens, i), 16nat,
{
    lemma_level_advances(tokens, i, 0);
}

/// An expression of a precedence level that parses takes at least one
/// token.
pub proof fn lemma_level_advances(tokens: Seq<TokenView>, i: int, level: nat)
    requires
        0 <= i,
    ensures
        parse_level(tokens, i, level) matches Ok((_, j)) ==> advanced(tokens, i, j),
    decreases remaining(tokens, i), level_rank(level),
{
    if current(tokens, i) is None {
    } else if level >= 6 {
        lemma_unary_advances(tokens, i);
    } else {
        lemma_level_advances(tokens, i, level + 1);
        if let Ok((left, j)) = parse_level(tokens, i, level + 1) {
            lemma_level_rest_advances(tokens, j, level, left);
        }
    }
}

/// The operators and operands that go on an expression end inside the
/// tokens.
pub proof fn lemma_level_rest_advances(tokens: Seq<TokenView>, i: int, level: nat, left: Ast)
    requires
        0 <= i <= tokens.len(),
    ensures
        parse_level_rest(tokens, i, level, left) matches Ok((_, j)) ==> moved(tokens, i, j),
    decreases remaining(tokens, i), 0nat,
{
    if kind_at(tokens, i) matches Some(t) && is_level_operator(level, t) {
        lemma_skip_newlines(tokens, i + 1);
        lemma_level_advances(tokens, skip_newlines(tokens, i + 1), level + 1);
        if let Ok((right, j)) = parse_level(tokens, skip_newlines(tokens, i + 1), level + 1) {
            lemma_level_rest_advances(
                tokens,
                j,
                level,
                Ast::BinaryOp {
                    left: Box::new(left),
                    operator: tokens[i].token_type,
                    right: Box::new(right),
                    line: tokens[i].line,
                    column: tokens[i].column,
                },
            );
        }
    }
}

/// A unary expression that parses takes at least one token.
pub proof fn lemma_unary_advances(tokens: Seq<TokenView>, i: int)
    requires
        0 <= i,
    ensures
        parse_unary(tokens, i) matches Ok((_, j)) ==> advanced(tokens, i, j),
    decreases remaining(tokens, i), 5nat,
{
    if kind_at(tokens, i) == Some(TokenType::Minus) || kind_at(tokens, i) == Some(
        TokenType::KeywordNot,
    ) {
        lemma_skip_newlines(tokens, i + 1);
        lemma_unary_advances(tokens, skip_newlines(tokens, i + 1));
    } else {
        lemma_call_advances(tokens, i);
    }
}

/// A primary expression with its calls that parses takes at least one
/// token.
pub proof fn lemma_call_advances(tokens: Seq<TokenView>, i: int)
    requires
        0 <= i,
    ensures
        parse_call(tokens, i) matches Ok((_, j)) ==> advanced(tokens, i, j),
    decreases remaining(tokens, i), 4nat,
{
    if current(tokens, i) is Some {
        lemma_primary_advances(tokens, i);
        if let Ok((callee, j)) = parse_primary(tokens, i) {
            lemma_call_rest_advances(tokens, j, callee);
        }
    }
}

/// The argument lists that follow what is called end inside the tokens.
pub proof fn lemma_call_rest_advances(tokens: Seq<TokenView>, i: int, callee: Ast)
    requires
        0 <= i <= tokens.len(),
    ensures
        parse_call_rest(tokens, i, callee) matches Ok((_, j)) ==> moved(tokens, i, j),
    decreases remaining(tokens, i), 0nat,
{
    if kind_at(tokens, i) == Some(TokenType::LParen) {
        lemma_items_advance(tokens, i + 1, TokenType::RParen, Seq::empty());
        if let Ok((arguments, j)) = parse_items(tokens, i + 1, TokenType::RParen, Seq::empty()) {
            if let Ok(k) = expect(tokens, j, TokenType::RParen) {
                lemma_call_rest_advances(
                    tokens,
                    k,
                    Ast::Call { callee: Box::new(callee), arguments },
                );
            }
        }
    }
}

/// The items of a list or of an argument list that parse end inside the
/// tokens.
pub proof fn lemma_items_advance(
    tokens: Seq<TokenView>,
    i: int,
    closer: TokenType,
    sofar: Seq<Ast>,
)
    requires
        0 <= i <= tokens.len(),
    ensures
        parse_items(tokens, i, closer, sofar) matches Ok((_, j)) ==> moved(tokens, i, j),
    decreases remaining(tokens, i), 17nat,
{
    lemma_skip_newlines(tokens, i);
    let from = skip_newlines(tokens, i);
    if kind_at(tokens, from) is None || kind_at(tokens, from) == Some(closer) {
    } else {
        lemma_expression_advances(tokens, from);
        if let Ok((item, j)) = parse_expression(tokens, from) {
            lemma_skip_newlines(tokens, j);
            let comma = skip_newlines(tokens, j);
            let k = if kind_at(tokens, comma) == Some(TokenType::Comma) {
                comma + 1
            } else {
                j
            };
            lemma_items_advance(tokens, k, closer, sofar.push(item));
        }
    }
}

/// A primary expression that parses takes at least one token.
pub proof fn lemma_primary_advances(tokens: Seq<TokenView>, i: int)
    requires
        0 <= i,
    ensures
        parse_primary(tokens, i) matches Ok((_, j)) ==> advanced(tokens, i, j),
    decreases remaining(tokens, i), 3nat,
{
    if let Some(t) = current(tokens, i) {
        if t.token_type == TokenType::LParen {
            lemma_skip_newlines(tokens, i + 1);
            lemma_expression_advances(tokens, skip_newlines(tokens, i + 1));
            if let Ok((inner, j)) = parse_expression(tokens, skip_newlines(tokens, i + 1)) {
                lemma_skip_newlines(tokens, j);
            }
        } else if t.token_type == TokenType::LBracket {
            lemma_items_advance(tokens, i + 1, TokenType::RBracket, Seq::empty());
        }
    }
}

/// Whether what a parsing step returned, with the index it stopped at, is
/// what the grammar gives.
pub open spec fn agrees(
    r: Result<ASTNode, KyaroError>,
    next: int,
    wanted: Result<(Ast, int), ErrorView>,
) -> bool {
    match r {
        Ok(node) => wanted == Ok::<(Ast, int), ErrorView>((node@, next)),
        Err(e) => wanted == Err::<(Ast, int), ErrorView>(e@),
    }
}

/// Whether a run of nodes that a parsing step returned, with the index it
/// stopped at, is what the grammar gives.
pub open spec fn all_agree(
    r: Result<Vec<ASTNode>, KyaroError>,
    next: int,
    wanted: Result<(Seq<Ast>, int), ErrorView>,
) -> bool {
    match r {
        Ok(nodes) => wanted == Ok::<(Seq<Ast>, int), ErrorView>((trees(nodes@), next)),
        Err(e) => wanted == Err::<(Seq<Ast>, int), ErrorView>(e@),
    }
}

fn is_separator_kind(t: TokenType) -> (r: bool)
    ensures
        r == is_separator(t),
{
    t == TokenType::Newline || t == TokenType::Semicolon
}

fn is_operator_of(level: u8, t: TokenType) -> (r: bool)
    ensures
        r == is_level_operator(level as nat, t),
{
    if level == 0 {
        t == TokenType::KeywordOr
    } else if level == 1 {
        t == TokenType::KeywordAnd
    } else if level == 2 {
        t == TokenType::EqualsEquals || t == TokenType::NotEquals
    } else if level == 3 {
        t == TokenType::LessThan || t == TokenType::GreaterThan || t == TokenType::LessEquals || t
            == TokenType::GreaterEquals
    } else if level == 4 {
        t == TokenType::Plus || t == TokenType::Minus
    } else if level == 5 {
        t == TokenType::Star || t == TokenType::Slash || t == TokenType::Percent
    } else {
        false
    }
}

/// Turns tokens into a syntax tree by recursive descent.
pub struct Parser {
    tokens: Vec<Token>,
    position: usize,
}

impl Parser {
    /// The tokens that are parsed.
    pub closed spec fn tokens(&self) -> Seq<TokenView> {
        token_views(self.tokens@)
    }

    /// The index of the next token to read.
    pub closed spec fn position(&self) -> int {
        self.position as int
    }

    /// The parser's invariant: the position lies in the tokens or at their
    /// end.
    pub closed spec fn wf(&self) -> bool {
        self.position <= self.tokens@.len() <= usize::MAX
    }

    /// A parser at the first of `tokens`.
    pub fn new(tokens: Vec<Token>) -> (parser: Self)
        ensures
            parser.wf(),
            parser.tokens() == token_views(tokens@),
            parser.position() == 0,
    {
        let count = tokens.len();
        assert(count == tokens@.len());
        Self { tokens, position: 0 }
    }

    fn advance(&mut self)
        requires
            old(self).wf(),
            old(self).position() < old(self).tokens().len(),
        ensures
            final(self).wf(),
            final(self).tokens() == old(self).tokens(),
            final(self).position() == old(self).position() + 1,
    {
        self.position += 1;
    }

    /// The token `offset` places after the next one, if there is one.
    fn peek(&self, offset: usize) -> (t: Option<&Token>)
        requires
            self.wf(),
        ensures
            match t {
                Some(token) => current(self.tokens(), self.position() + offset) == Some(token@),
                None => current(self.tokens(), self.position() + offset) is None,
            },
    {
        if offset < self.tokens.len() - self.position {
            Some(&self.tokens[self.position + offset])
        } else {
            None
        }
    }

    fn kind(&self) -> (k: Option<TokenType>)
        requires
            self.wf(),
        ensures
            k == kind_at(self.tokens(), self.position()),
    {
        match self.peek(0) {
            Some(token) => Some(token.token_type),
            None => None,
        }
    }

    fn fail(&self, message: &str) -> (e: KyaroError)
        requires
            self.wf(),
        ensures
            e@ == parser_failure(message@, current(self.tokens(), self.position())),
    {
        match self.peek(0) {
            Some(token) => KyaroError::parser_error(
                String::from_str(message),
                token.line,
                token.column,
            ),
            None => KyaroError::parser_error(String::from_str(message), 0, 0),
        }
    }

    fn fail_expected(&self, what: &str) -> (e: KyaroError)
        requires
            self.wf(),
        ensures
            e@ == expected(what@, self.tokens(), self.position()),
    {
        let mut message = String::from_str("Expected ");
        push_str(&mut message, what);
        push_str(&mut message, ", got ");
        match self.peek(0) {
            Some(token) => push_str(&mut message, token.token_type.name()),
            None => push_str(&mut message, "EOF"),
        }
        self.fail(message.as_str())
    }

    fn expect(&mut self, token_type: TokenType) -> (r: Result<(), KyaroError>)
        requires
            old(self).wf(),
        ensures
            final(self).wf(),
            final(self).tokens() == old(self).tokens(),
            match r {
                Ok(_) => expect(old(self).tokens(), old(self).position(), token_type) == Ok::<
                    int,
                    ErrorView,
                >(final(self).position()),
                Err(e) => expect(old(self).tokens(), old(self).position(), token_type) == Err::<
                    int,
                    ErrorView,
                >(e@),
            },
    {
        if self.kind() == Some(token_type) {
            self.advance();
            Ok(())
        } else {
            Err(self.fail_expected(token_type.name()))
        }
    }

    fn expect_name(&mut self) -> (r: Result<String, KyaroError>)
        requires
            old(self).wf(),
        ensures
            final(self).wf(),
            final(self).tokens() == old(self).tokens(),
            match r {
                Ok(name) => expect_name(old(self).tokens(), old(self).position()) == Ok::<
                    (Seq<char>, int),
                    ErrorView,
                >((name@, final(self).position())),
                Err(e) => expect_name(old(self).tokens(), old(self).position()) == Err::<
                    (Seq<char>, int),
                    ErrorView,
                >(e@),
            },
    {
        if self.kind() == Some(TokenType::Identifier) {
            let name = match &self.tokens[self.position].value {
                TokenValue::Identifier(name) => name.clone(),
                _ => {
                    return Err(self.fail("Expected identifier"));
                },
            };
            self.advance();
            Ok(name)
        } else {
            Err(self.fail_expected(TokenType::Identifier.name()))
        }
    }

    /// Moves over the newlines at the position.
    fn skip_newlines(&mut self)
        requires
            old(self).wf(),
        ensures
            final(self).wf(),
            final(self).tokens() == old(self).tokens(),
            final(self).position() == skip_newlines(old(self).tokens(), old(self).position()),
    {
        while self.position < self.tokens.len() && self.tokens[self.position].token_type
            == TokenType::Newline
            invariant
                self.wf(),
                self.tokens() == old(self).tokens(),
                skip_newlines(self.tokens(), self.position()) == skip_newlines(
                    old(self).tokens(),
                    old(self).position(),
                ),
            decreases self.tokens.len() - self.position,
        {
            self.advance();
        }
    }

    /// Moves over the newlines and semicolons at the position.
    fn skip_separators(&mut self)
        requires
            old(self).wf(),
        ensures
            final(self).wf(),
            final(self).tokens() == old(self).tokens(),
            final(self).position() == skip_separators(old(self).tokens(), old(self).position()),
    {
        while self.position < self.tokens.len() && is_separator_kind(
            self.tokens[self.position].token_type,
        )
            invariant
                self.wf(),
                self.tokens() == old(self).tokens(),
                skip_separators(self.tokens(), self.position()) == skip_separators(
                    old(self).tokens(),
                    old(self).position(),
                ),
            decreases self.tokens.len() - self.position,
        {
            self.advance();
        }
    }

    /// Parses the tokens from the position to the end-of-text token. The
    /// tree has a block at its top, which holds the statements in order.
    pub fn parse(&mut self) -> (r: Result<ASTNode, KyaroError>)
        requires
            old(self).wf(),
        ensures
            final(self).wf(),
            final(self).tokens() == old(self).tokens(),
            match r {
                Ok(node) => node is Block && parse_from(old(self).tokens(), old(self).position())
                    == Ok::<Ast, ErrorView>(node@),
                Err(e) => parse_from(old(self).tokens(), old(self).position()) == Err::<
                    Ast,
                    ErrorView,
                >(e@),
            },
    {
        let statements = self.parse_statements(TokenType::Eof)?;
        let node = ASTNode::Block(BlockNode::new(statements));
        proof {
            node.lemma_tree_of_children();
        }
        Ok(node)
    }

    fn parse_statements(&mut self, stop: TokenType) -> (r: Result<Vec<ASTNode>, KyaroError>)
        requires
            old(self).wf(),
        ensures
            final(self).wf(),
            final(self).tokens() == old(self).tokens(),
            r is Ok ==> final(self).position() >= old(self).position(),
            all_agree(
                r,
                final(self).position(),
                parse_statements(old(self).tokens(), old(self).position(), stop, Seq::empty()),
            ),
        decreases remaining(old(self).tokens(), old(self).position()), 30nat,
    {
        let mut statements: Vec<ASTNode> = Vec::new();
        assert(trees(statements@) =~= Seq::<Ast>::empty());
        loop
            invariant
                self.wf(),
                self.tokens() == old(self).tokens(),
                self.position() >= old(self).position(),
                parse_statements(old(self).tokens(), old(self).position(), stop, Seq::empty())
                    == parse_statements(self.tokens(), self.position(), stop, trees(statements@)),
            ensures
                parse_statements(old(self).tokens(), old(self).position(), stop, Seq::empty())
                    == Ok::<(Seq<Ast>, int), ErrorView>((trees(statements@), self.position())),
            decreases remaining(self.tokens(), self.position()),
        {
            proof {
                lemma_skip_advances(self.tokens(), self.position());
            }
            self.skip_separators();
            let kind = self.kind();
            if kind.is_none() || kind == Some(stop) {
                break ;
            }
            let ghost before = trees(statements@);
            let statement = self.parse_statement()?;
            let ghost added = statement@;
            statements.push(statement);
            assert(trees(statements@) =~= before.push(added));
        }
        Ok(statements)
    }

    fn parse_block(&mut self) -> (r: Result<ASTNode, KyaroError>)
        requires
            old(self).wf(),
        ensures
            final(self).wf(),
            final(self).tokens() == old(self).tokens(),
            r is Ok ==> final(self).position() > old(self).position(),
            agrees(r, final(self).position(), parse_block(old(self).tokens(), old(self).position())),
        decreases remaining(old(self).tokens(), old(self).position()), 25nat,
    {
        self.expect(TokenType::LBrace)?;
        let statements = self.parse_statements(TokenType::RBrace)?;
        self.expect(TokenType::RBrace)?;
        let node = ASTNode::Block(BlockNode::new(statements));
        proof {
            node.lemma_tree_of_children();
        }
        Ok(node)
    }

    fn parse_statement(&mut self) -> (r: Result<ASTNode, KyaroError>)
        requires
            old(self).wf(),
        ensures
            final(self).wf(),
            final(self).tokens() == old(self).tokens(),
            r is Ok ==> final(self).position() > old(self).position(),
            agrees(
                r,
                final(self).position(),
                parse_statement(old(self).tokens(), old(self).position()),
            ),
        decreases remaining(old(self).tokens(), old(self).position()), 20nat,
    {
        match self.kind() {
            None => Err(self.fail_expected("statement")),
            Some(TokenType::KeywordLet) => self.parse_let_statement(),
            Some(TokenType::KeywordFunc) => self.parse_function(),
            Some(TokenType::KeywordIf) => self.parse_if_statement(),
            Some(TokenType::KeywordWhile) => self.parse_while_statement(),
            Some(TokenType::KeywordFor) => self.parse_for_statement(),
            Some(TokenType::KeywordReturn) => self.parse_return_statement(),
            Some(TokenType::KeywordBreak) => {
                self.advance();
                Ok(ASTNode::Break(BreakNode::new()))
            },
            Some(TokenType::KeywordContinue) => {
                self.advance();
                Ok(ASTNode::Continue(ContinueNode::new()))
            },
            Some(TokenType::Identifier) => {
                let assigns = match self.peek(1) {
                    Some(token) => token.token_type == TokenType::Equals,
                    None => false,
                };
                if assigns {
                    self.parse_assignment()
                } else {
                    self.parse_expression_statement()
                }
            },
            Some(_) => self.parse_expression_statement(),
        }
    }

    fn parse_let_statement(&mut self) -> (r: Result<ASTNode, KyaroError>)
        requires
            old(self).wf(),
            kind_at(old(self).tokens(), old(self).position()) == Some(TokenType::KeywordLet),
        ensures
            final(self).wf(),
            final(self).tokens() == old(self).tokens(),
            r is Ok ==> final(self).position() > old(self).position(),
            agrees(
                r,
                final(self).position(),
                parse_binding(old(self).tokens(), old(self).position() + 1),
            ),
        decreases remaining(old(self).tokens(), old(self).position()), 19nat,
    {
        self.advance();
        self.parse_assignment()
    }

    fn parse_assignment(&mut self) -> (r: Result<ASTNode, KyaroError>)
        requires
            old(self).wf(),
        ensures
            final(self).wf(),
            final(self).tokens() == old(self).tokens(),
            r is Ok ==> final(self).position() > old(self).position(),
            agrees(r, final(self).position(), parse_binding(old(self).tokens(), old(self).position())),
        decreases remaining(old(self).tokens(), old(self).position()), 18nat,
    {
        let name = self.expect_name()?;
        self.expect(TokenType::Equals)?;
        proof {
            lemma_skip_newlines(self.tokens(), self.position());
        }
        self.skip_newlines();
        let value = self.parse_expression()?;
        Ok(ASTNode::Assignment(AssignmentNode::new(name, value)))
    }

    fn parse_parameters(&mut self) -> (r: Result<Vec<String>, KyaroError>)
        requires
            old(self).wf(),
        ensures
            final(self).wf(),
            final(self).tokens() == old(self).tokens(),
            r is Ok ==> final(self).position() >= old(self).position(),
            match r {
                Ok(names) => parse_parameters(old(self).tokens(), old(self).position()) == Ok::<
                    (Seq<Seq<char>>, int),
                    ErrorView,
                >((texts(names@), final(self).position())),
                Err(e) => parse_parameters(old(self).tokens(), old(self).position()) == Err::<
                    (Seq<Seq<char>>, int),
                    ErrorView,
                >(e@),
            },
    {
        let mut parameters: Vec<String> = Vec::new();
        assert(texts(parameters@) =~= Seq::<Seq<char>>::empty());
        if self.kind() == Some(TokenType::RParen) {
            return Ok(parameters);
        }
        loop
            invariant_except_break
                parse_parameters(old(self).tokens(), old(self).position()) == parse_more_parameters(
                    self.tokens(),
                    self.position(),
                    texts(parameters@),
                ),
            invariant
                self.wf(),
                self.tokens() == old(self).tokens(),
                self.position() >= old(self).position(),
            ensures
                parse_parameters(old(self).tokens(), old(self).position()) == Ok::<
                    (Seq<Seq<char>>, int),
                    ErrorView,
                >((texts(parameters@), self.position())),
            decreases remaining(self.tokens(), self.position()),
        {
            let ghost before = texts(parameters@);
            let name = self.expect_name()?;
            let ghost added = name@;
            parameters.push(name);
            assert(texts(parameters@) =~= before.push(added));
            if self.kind() == Some(TokenType::Comma) {
                self.advance();
            } else {
                break ;
            }
        }
        Ok(parameters)
    }

    fn parse_function(&mut self) -> (r: Result<ASTNode, KyaroError>)
        requires
            old(self).wf(),
        ensures
            final(self).wf(),
            final(self).tokens() == old(self).tokens(),
            r is Ok ==> final(self).position() > old(self).position(),
            agrees(
                r,
                final(self).position(),
                parse_function(old(self).tokens(), old(self).position()),
            ),
        decreases remaining(old(self).tokens(), old(self).position()), 19nat,
    {
        self.expect(TokenType::KeywordFunc)?;
        let name = self.expect_name()?;
        self.expect(TokenType::LParen)?;
        let parameters = self.parse_parameters()?;
        self.expect(TokenType::RParen)?;
        let body = self.parse_block()?;
        Ok(ASTNode::Function(FunctionNode::new(name, parameters, body)))
    }

    fn parse_if_statement(&mut self) -> (r: Result<ASTNode, KyaroError>)
        requires
            old(self).wf(),
        ensures
            final(self).wf(),
            final(self).tokens() == old(self).tokens(),
            r is Ok ==> final(self).position() > old(self).position(),
            agrees(r, final(self).position(), parse_if(old(self).tokens(), old(self).position())),
        decreases remaining(old(self).tokens(), old(self).position()), 19nat,
    {
        self.expect(TokenType::KeywordIf)?;
        let condition = self.parse_expression()?;
        let then_branch = self.parse_block()?;
        let (elif_branches, else_branch) = self.parse_branches()?;
        let node = ASTNode::If(IfNode::new(condition, then_branch, elif_branches, else_branch));
        proof {
            node.lemma_tree_of_children();
        }
        Ok(node)
    }

    /// Parses the `elif` branches and the `else` branch that follow a block.
    fn parse_branches(&mut self) -> (r: Result<
        (Vec<(ASTNode, ASTNode)>, Option<ASTNode>),
        KyaroError,
    >)
        requires
            old(self).wf(),
        ensures
            final(self).wf(),
            final(self).tokens() == old(self).tokens(),
            r is Ok ==> final(self).position() >= old(self).position(),
            match r {
                Ok((elifs, last)) => parse_branches(
                    old(self).tokens(),
                    old(self).position(),
                    Seq::empty(),
                ) == Ok::<(Seq<(Ast, Ast)>, Option<Ast>, int), ErrorView>(
                    (
                        tree_pairs(elifs@),
                        match last {
                            Some(b) => Some(b@),
                            None => None,
                        },
                        final(self).position(),
                    ),
                ),
                Err(e) => parse_branches(old(self).tokens(), old(self).position(), Seq::empty())
                    == Err::<(Seq<(Ast, Ast)>, Option<Ast>, int), ErrorView>(e@),
            },
        decreases remaining(old(self).tokens(), old(self).position()), 18nat,
    {
        let mut elif_branches: Vec<(ASTNode, ASTNode)> = Vec::new();
        assert(tree_pairs(elif_branches@) =~= Seq::<(Ast, Ast)>::empty());
        loop
            invariant
                self.wf(),
                self.tokens() == old(self).tokens(),
                self.position() >= old(self).position(),
                parse_branches(old(self).tokens(), old(self).position(), Seq::empty())
                    == parse_branches(self.tokens(), self.position(), tree_pairs(elif_branches@)),
            ensures
                kind_at(self.tokens(), self.position()) != Some(TokenType::KeywordElif),
                skip_separators(self.tokens(), self.position()) == self.position(),
            decreases remaining(self.tokens(), self.position()),
        {
            proof {
                lemma_skip_advances(self.tokens(), self.position());
            }
            let ghost from = self.position();
            let ghost before = tree_pairs(elif_branches@);
            self.skip_separators();
            assert(skip_separators(self.tokens(), self.position()) == self.position());
            assert(parse_branches(self.tokens(), self.position(), before) == parse_branches(
                self.tokens(),
                from,
                before,
            ));
            if self.kind() != Some(TokenType::KeywordElif) {
                break ;
            }
            let ghost at = self.position();
            self.advance();
            let elif_condition = self.parse_expression()?;
            let elif_body = self.parse_block()?;
            let ghost added = (elif_condition@, elif_body@);
            elif_branches.push((elif_condition, elif_body));
            assert(tree_pairs(elif_branches@) =~= before.push(added));
            assert(parse_branches(self.tokens(), at, before) == parse_branches(
                self.tokens(),
                self.position(),
                before.push(added),
            ));
        }
        if self.kind() == Some(TokenType::KeywordElse) {
            self.advance();
            let else_body = self.parse_block()?;
            Ok((elif_branches, Some(else_body)))
        } else {
            Ok((elif_branches, None))
        }
    }

    fn parse_while_statement(&mut self) -> (r: Result<ASTNode, KyaroError>)
        requires
            old(self).wf(),
        ensures
            final(self).wf(),
            final(self).tokens() == old(self).tokens(),
            r is Ok ==> final(self).position() > old(self).position(),
            agrees(r, final(self).position(), parse_while(old(self).tokens(), old(self).position())),
        decreases remaining(old(self).tokens(), old(self).position()), 19nat,
    {
        self.expect(TokenType::KeywordWhile)?;
        let condition = self.parse_expression()?;
        let body = self.parse_block()?;
        Ok(ASTNode::While(WhileNode::new(condition, body)))
    }

    fn parse_for_statement(&mut self) -> (r: Result<ASTNode, KyaroError>)
        requires
            old(self).wf(),
        ensures
            final(self).wf(),
            final(self).tokens() == old(self).tokens(),
            r is Ok ==> final(self).position() > old(self).position(),
            agrees(r, final(self).position(), parse_for(old(self).tokens(), old(self).position())),
        decreases remaining(old(self).tokens(), old(self).position()), 19nat,
    {
        self.expect(TokenType::KeywordFor)?;
        let variable = self.expect_name()?;
        self.expect(TokenType::KeywordIn)?;
        let iterable = self.parse_expression()?;
        let body = self.parse_block()?;
        Ok(ASTNode::For(ForNode::new(variable, iterable, body)))
    }

    fn parse_return_statement(&mut self) -> (r: Result<ASTNode, KyaroError>)
        requires
            old(self).wf(),
        ensures
            final(self).wf(),
            final(self).tokens() == old(self).tokens(),
            r is Ok ==> final(self).position() > old(self).position(),
            agrees(r, final(self).position(), parse_return(old(self).tokens(), old(self).position())),
        decreases remaining(old(self).tokens(), old(self).position()), 19nat,
    {
        self.expect(TokenType::KeywordReturn)?;
        let bare = match self.kind() {
            Some(t) => is_separator_kind(t) || t == TokenType::RBrace,
            None => false,
        };
        if bare {
            return Ok(ASTNode::Return(ReturnNode::new(None)));
        }
        let value = self.parse_expression()?;
        Ok(ASTNode::Return(ReturnNode::new(Some(value))))
    }

    fn parse_expression_statement(&mut self) -> (r: Result<ASTNode, KyaroError>)
        requires
            old(self).wf(),
        ensures
            final(self).wf(),
            final(self).tokens() == old(self).tokens(),
            r is Ok ==> final(self).position() > old(self).position(),
            agrees(
                r,
                final(self).position(),
                parse_expression(old(self).tokens(), old(self).position()),
            ),
        decreases remaining(old(self).tokens(), old(self).position()), 17nat,
    {
        self.parse_expression()
    }

    fn parse_expression(&mut self) -> (r: Result<ASTNode, KyaroError>)
        requires
            old(self).wf(),
        ensures
            final(self).wf(),
            final(self).tokens() == old(self).tokens(),
            r is Ok ==> final(self).position() > old(self).position(),
            agrees(
                r,
                final(self).position(),
                parse_expression(old(self).tokens(), old(self).position()),
            ),
        decreases remaining(old(self).tokens(), old(self).position()), 16nat,
    {
        self.parse_level(0)
    }

    /// Parses an expression of precedence level `level` or tighter: `or`,
    /// `and`, equality, comparison, additive and multiplicative operators
    /// are levels zero to five, and what binds tighter is level six.
    fn parse_level(&mut self, level: u8) -> (r: Result<ASTNode, KyaroError>)
        requires
            old(self).wf(),
        ensures
            final(self).wf(),
            final(self).tokens() == old(self).tokens(),
            r is Ok ==> final(self).position() > old(self).position(),
            agrees(
                r,
                final(self).position(),
                parse_level(old(self).tokens(), old(self).position(), level as nat),
            ),
        decreases remaining(old(self).tokens(), old(self).position()), level_rank(level as nat),
    {
        if self.kind().is_none() {
            return Err(self.fail_expected("expression"));
        }
        if level >= 6 {
            return self.parse_unary();
        }
        let mut left = self.parse_level(level + 1)?;
        loop
            invariant
                self.wf(),
                self.tokens() == old(self).tokens(),
                self.position() > old(self).position(),
                level < 6,
                parse_level(old(self).tokens(), old(self).position(), level as nat)
                    == parse_level_rest(self.tokens(), self.position(), level as nat, left@),
            ensures
                self.position() > old(self).position(),
                parse_level(old(self).tokens(), old(self).position(), level as nat) == Ok::<
                    (Ast, int),
                    ErrorView,
                >((left@, self.position())),
            decreases remaining(self.tokens(), self.position()),
        {
            let operator = match self.peek(0) {
                Some(token) => if is_operator_of(level, token.token_type) {
                    Some((token.token_type, token.line, token.column))
                } else {
                    None
                },
                None => None,
            };
            match operator {
                Some((token_type, line, column)) => {
                    self.advance();
                    proof {
                        lemma_skip_newlines(self.tokens(), self.position());
                    }
                    self.skip_newlines();
                    let right = self.parse_level(level + 1)?;
                    left = ASTNode::BinaryOp(
                        BinaryOpNode::with_position(left, token_type, right, line, column),
                    );
                },
                None => {
                    break ;
                },
            }
        }
        Ok(left)
    }

    fn parse_unary(&mut self) -> (r: Result<ASTNode, KyaroError>)
        requires
            old(self).wf(),
        ensures
            final(self).wf(),
            final(self).tokens() == old(self).tokens(),
            r is Ok ==> final(self).position() > old(self).position(),
            agrees(r, final(self).position(), parse_unary(old(self).tokens(), old(self).position())),
        decreases remaining(old(self).tokens(), old(self).position()), 5nat,
    {
        let kind = self.kind();
        if kind == Some(TokenType::Minus) || kind == Some(TokenType::KeywordNot) {
            let operator = self.tokens[self.position].token_type;
            self.advance();
            proof {
                lemma_skip_newlines(self.tokens(), self.position());
            }
            self.skip_newlines();
            let operand = self.parse_unary()?;
            return Ok(ASTNode::UnaryOp(UnaryOpNode::new(operator, operand)));
        }
        self.parse_call()
    }

    fn parse_call(&mut self) -> (r: Result<ASTNode, KyaroError>)
        requires
            old(self).wf(),
        ensures
            final(self).wf(),
            final(self).tokens() == old(self).tokens(),
            r is Ok ==> final(self).position() > old(self).position(),
            agrees(r, final(self).position(), parse_call(old(self).tokens(), old(self).position())),
        decreases remaining(old(self).tokens(), old(self).position()), 4nat,
    {
        if self.kind().is_none() {
            return Err(self.fail_expected("expression"));
        }
        let mut expr = self.parse_primary()?;
        loop
            invariant
                self.wf(),
                self.tokens() == old(self).tokens(),
                self.position() > old(self).position(),
                parse_call(old(self).tokens(), old(self).position()) == parse_call_rest(
                    self.tokens(),
                    self.position(),
                    expr@,
                ),
            ensures
                self.position() > old(self).position(),
                parse_call(old(self).tokens(), old(self).position()) == Ok::<(Ast, int), ErrorView>(
                    (expr@, self.position()),
                ),
            decreases remaining(self.tokens(), self.position()),
        {
            if self.kind() != Some(TokenType::LParen) {
                break ;
            }
            self.advance();
            let arguments = self.parse_items(TokenType::RParen)?;
            self.expect(TokenType::RParen)?;
            expr = ASTNode::Call(CallNode::new(expr, arguments));
            proof {
                expr.lemma_tree_of_children();
            }
        }
        Ok(expr)
    }

    fn parse_items(&mut self, closer: TokenType) -> (r: Result<Vec<ASTNode>, KyaroError>)
        requires
            old(self).wf(),
        ensures
            final(self).wf(),
            final(self).tokens() == old(self).tokens(),
            r is Ok ==> final(self).position() >= old(self).position(),
            all_agree(
                r,
                final(self).position(),
                parse_items(old(self).tokens(), old(self).position(), closer, Seq::empty()),
            ),
        decreases remaining(old(self).tokens(), old(self).position()), 17nat,
    {
        let mut items: Vec<ASTNode> = Vec::new();
        assert(trees(items@) =~= Seq::<Ast>::empty());
        loop
            invariant
                self.wf(),
                self.tokens() == old(self).tokens(),
                self.position() >= old(self).position(),
                parse_items(old(self).tokens(), old(self).position(), closer, Seq::empty())
                    == parse_items(self.tokens(), self.position(), closer, trees(items@)),
            ensures
                parse_items(old(self).tokens(), old(self).position(), closer, Seq::empty()) == Ok::<
                    (Seq<Ast>, int),
                    ErrorView,
                >((trees(items@), self.position())),
            decreases remaining(self.tokens(), self.position()),
        {
            proof {
                lemma_skip_newlines(self.tokens(), self.position());
            }
            self.skip_newlines();
            let kind = self.kind();
            if kind.is_none() || kind == Some(closer) {
                break ;
            }
            let ghost before = trees(items@);
            let item = self.parse_expression()?;
            let ghost added = item@;
            items.push(item);
            assert(trees(items@) =~= before.push(added));
            let after_item = self.position;
            proof {
                lemma_skip_newlines(self.tokens(), self.position());
            }
            self.skip_newlines();
            if self.kind() == Some(TokenType::Comma) {
                self.advance();
            } else {
                self.position = after_item;
            }
        }
        Ok(items)
    }

    fn parse_primary(&mut self) -> (r: Result<ASTNode, KyaroError>)
        requires
            old(self).wf(),
        ensures
            final(self).wf(),
            final(self).tokens() == old(self).tokens(),
            r is Ok ==> final(self).position() > old(self).position(),
            agrees(
                r,
                final(self).position(),
                parse_primary(old(self).tokens(), old(self).position()),
            ),
        decreases remaining(old(self).tokens(), old(self).position()), 3nat,
    {
        let kind = match self.kind() {
            Some(kind) => kind,
            None => {
                return Err(self.fail_expected("expression"));
            },
        };
        match kind {
            TokenType::Number => {
                let numeral = match &self.tokens[self.position].value {
                    TokenValue::Number(numeral) => numeral.clone(),
                    _ => {
                        return Err(self.fail("Invalid number token"));
                    },
                };
                self.advance();
                Ok(ASTNode::Number(NumberNode::new(numeral)))
            },
            TokenType::String => {
                let value = match &self.tokens[self.position].value {
                    TokenValue::String(value) => value.clone(),
                    _ => {
                        return Err(self.fail("Invalid string token"));
                    },
                };
                self.advance();
                Ok(ASTNode::String(StringNode::new(value)))
            },
            TokenType::KeywordTrue => {
                self.advance();
                Ok(ASTNode::Boolean(BooleanNode::new(true)))
            },
            TokenType::KeywordFalse => {
                self.advance();
                Ok(ASTNode::Boolean(BooleanNode::new(false)))
            },
            TokenType::KeywordNull => {
                self.advance();
                Ok(ASTNode::Null(NullNode::new()))
            },
            TokenType::Identifier => {
                let name = match &self.tokens[self.position].value {
                    TokenValue::Identifier(name) => name.clone(),
                    _ => {
                        return Err(self.fail("Invalid identifier token"));
                    },
                };
                self.advance();
                Ok(ASTNode::Identifier(IdentifierNode::new(name)))
            },
            TokenType::LParen => {
                self.advance();
                proof {
                    lemma_skip_newlines(self.tokens(), self.position());
                }
                self.skip_newlines();
                let inner = self.parse_expression()?;
                proof {
                    lemma_skip_newlines(self.tokens(), self.position());
                }
                self.skip_newlines();
                self.expect(TokenType::RParen)?;
                Ok(inner)
            },
            TokenType::LBracket => {
                self.advance();
                let elements = self.parse_items(TokenType::RBracket)?;
                self.expect(TokenType::RBracket)?;
                let node = ASTNode::List(ListNode::new(elements));
                proof {
                    node.lemma_tree_of_children();
                }
                Ok(node)
            },
            _ => Err(self.fail_expected("expression")),
        }
    }
}

} // verus!
