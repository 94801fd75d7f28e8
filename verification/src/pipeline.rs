// The three stages put together: from a source text to a running program.

use crate::ast_nodes::Ast;
use crate::environment::Val;
use crate::errors::{ErrorView, KyaroError};
use crate::interpreter::{Interpreter, Request};
use crate::lexer::{
    inside, is_digit, lex, lex_from, number_end, start, step_over, string_body, token_at, Lexer,
    Position,
};
use crate::machine::{
    failed, lemma_literal_program, load, request_of, run, ControlView, MachineView,
};
use crate::number::{integer_of, is_negative, EXACT};
use crate::parser::{
    parse_call, parse_expression, parse_level, parse_level_rest, parse_primary, parse_program,
    parse_statement, parse_statements, parse_unary, skip_separators, Parser,
};
use crate::text::digits_value;
use crate::token_types::{TokenType, TokenValueView, TokenView};
use vstd::prelude::*;

verus! {

/// The syntax tree of a source text: what the parser makes of the tokens
/// that the lexer makes of the text, or the first error of the two.
pub open spec fn compile(source: Seq<char>) -> Result<Ast, ErrorView> {
    match lex(source) {
        Err(e) => Err(e),
        Ok(tokens) => parse_program(tokens),
    }
}

/// The machine after it was given the source text `source` to run: loaded
/// with the tree of the text and run as far as it goes on its own, or
/// failed with the error that the text has.
pub open spec fn launch(m: MachineView, source: Seq<char>) -> MachineView {
    match compile(source) {
        Ok(tree) => run(load(m, tree), u64::MAX as nat),
        Err(e) => failed(m, e),
    }
}

/// Lexes and parses `source` and runs it on `interpreter` until the machine
/// needs the embedding program or the program has ended. An error of the
/// source text ends the program before it begins.
pub fn execute_code(source: &str, interpreter: &mut Interpreter) -> (r: Request)
    requires
        old(interpreter).wf(),
        source@.len() < usize::MAX,
    ensures
        final(interpreter).wf(),
        final(interpreter)@ == launch(old(interpreter)@, source@),
        r@ == request_of(final(interpreter)@.control),
{
    let mut lexer = Lexer::new(source);
    let tokens = match lexer.tokenize() {
        Ok(tokens) => tokens,
        Err(e) => {
            return interpreter.refuse(e);
        },
    };
    let mut parser = Parser::new(tokens);
    match parser.parse() {
        Ok(program) => interpreter.interpret(program),
        Err(e) => interpreter.refuse(e),
    }
}

/// A numeral ends where its digits end.
pub proof fn lemma_number_end_of_digits(src: Seq<char>, p: Position, has_dot: bool)
    requires
        0 <= p.index <= src.len(),
        forall|i: int| p.index <= i < src.len() ==> is_digit(#[trigger] src[i]),
    ensures
        number_end(src, p, has_dot) == (Position {
            index: src.len() as int,
            line: p.line,
            column: (p.column + src.len() - p.index) as nat,
        }),
    decreases src.len() - p.index,
{
    if p.index < src.len() {
        assert(is_digit(src[p.index]));
        lemma_number_end_of_digits(src, step_over(src, p), has_dot);
    }
}

/// The tokens of a source text that is one numeral of digits: the number
/// with that numeral, and the end of the text.
pub proof fn lemma_lex_digits(digits: Seq<char>)
    requires
        digits.len() > 0,
        forall|i: int| 0 <= i < digits.len() ==> is_digit(#[trigger] digits[i]),
    ensures
        lex(digits) == Ok::<Seq<TokenView>, ErrorView>(
            seq![
                TokenView {
                    token_type: TokenType::Number,
                    value: TokenValueView::Number(digits),
                    line: 1,
                    column: 1,
                },
                TokenView {
                    token_type: TokenType::Eof,
                    value: TokenValueView::Absent,
                    line: 1,
                    column: 1 + digits.len(),
                },
            ],
        ),
{
    lemma_number_end_of_digits(digits, start(), false);
    let end = number_end(digits, start(), false);
    assert(is_digit(digits[0]));
    assert(digits.subrange(0, digits.len() as int) =~= digits);
    reveal_with_fuel(lex_from, 2);
    assert(lex_from(digits, end) == Ok::<Seq<TokenView>, ErrorView>(
        seq![
            TokenView {
                token_type: TokenType::Eof,
                value: TokenValueView::Absent,
                line: 1,
                column: 1 + digits.len(),
            },
        ],
    ));
    let number = TokenView {
        token_type: TokenType::Number,
        value: TokenValueView::Number(digits),
        line: 1,
        column: 1,
    };
    assert(token_at(digits, start()) == Ok::<(TokenView, Position), ErrorView>((number, end)));
    assert(seq![number] + seq![
        TokenView {
            token_type: TokenType::Eof,
            value: TokenValueView::Absent,
            line: 1,
            column: 1 + digits.len(),
        },
    ] =~= seq![
        number,
        TokenView {
            token_type: TokenType::Eof,
            value: TokenValueView::Absent,
            line: 1,
            column: 1 + digits.len(),
        },
    ]);
}

/// The tree of a token that is a number or a string.
pub open spec fn literal_tree(literal: TokenView) -> Option<Ast> {
    match (literal.token_type, literal.value) {
        (TokenType::Number, TokenValueView::Number(numeral)) => Some(Ast::Number { numeral }),
        (TokenType::String, TokenValueView::String(text)) => Some(Ast::String { value: text }),
        _ => None,
    }
}

/// The tree of two tokens, a number or a string and the end of the text, is
/// a block whose one statement is that literal.
pub proof fn lemma_parse_literal(literal: TokenView, end: TokenView, tree: Ast)
    requires
        end.token_type == TokenType::Eof,
        literal_tree(literal) == Some(tree),
    ensures
        parse_program(seq![literal, end]) == Ok::<Ast, ErrorView>(
            Ast::Block { statements: seq![tree] },
        ),
{
    let tokens = seq![literal, end];
    reveal_with_fuel(parse_level, 8);
    reveal_with_fuel(parse_statements, 3);
    reveal_with_fuel(skip_separators, 2);
    assert(parse_primary(tokens, 0) == Ok::<(Ast, int), ErrorView>((tree, 1)));
    assert(parse_call(tokens, 0) == Ok::<(Ast, int), ErrorView>((tree, 1)));
    assert(parse_unary(tokens, 0) == Ok::<(Ast, int), ErrorView>((tree, 1)));
    assert(parse_level(tokens, 0, 6) == Ok::<(Ast, int), ErrorView>((tree, 1)));
    assert(parse_level_rest(tokens, 1, 5, tree) == Ok::<(Ast, int), ErrorView>((tree, 1)));
    assert(parse_level(tokens, 0, 5) == Ok::<(Ast, int), ErrorView>((tree, 1)));
    assert(parse_level_rest(tokens, 1, 4, tree) == Ok::<(Ast, int), ErrorView>((tree, 1)));
    assert(parse_level(tokens, 0, 4) == Ok::<(Ast, int), ErrorView>((tree, 1)));
    assert(parse_level_rest(tokens, 1, 3, tree) == Ok::<(Ast, int), ErrorView>((tree, 1)));
    assert(parse_level(tokens, 0, 3) == Ok::<(Ast, int), ErrorView>((tree, 1)));
    assert(parse_level_rest(tokens, 1, 2, tree) == Ok::<(Ast, int), ErrorView>((tree, 1)));
    assert(parse_level(tokens, 0, 2) == Ok::<(Ast, int), ErrorView>((tree, 1)));
    assert(parse_level_rest(tokens, 1, 1, tree) == Ok::<(Ast, int), ErrorView>((tree, 1)));
    assert(parse_level(tokens, 0, 1) == Ok::<(Ast, int), ErrorView>((tree, 1)));
    assert(parse_level_rest(tokens, 1, 0, tree) == Ok::<(Ast, int), ErrorView>((tree, 1)));
    assert(parse_level(tokens, 0, 0) == Ok::<(Ast, int), ErrorView>((tree, 1)));
    assert(parse_expression(tokens, 0) == Ok::<(Ast, int), ErrorView>((tree, 1)));
    assert(parse_statement(tokens, 0) == Ok::<(Ast, int), ErrorView>((tree, 1)));
    assert(Seq::<Ast>::empty().push(tree) =~= seq![tree]);
    assert(parse_statements(tokens, 1, TokenType::Eof, seq![tree]) == Ok::<
        (Seq<Ast>, int),
        ErrorView,
    >((seq![tree], 1)));
}

/// A source text that is one numeral for a whole number up to two to the
/// power 53 goes through the lexer and the parser and evaluates, without a
/// question to the embedding program, to the number that the numeral stands
/// for: a number that is not negative and whose value is that whole number.
pub proof fn lemma_whole_number_round_trip(m: MachineView, digits: Seq<char>)
    requires
        digits.len() > 0,
        forall|i: int| 0 <= i < digits.len() ==> is_digit(#[trigger] digits[i]),
        digits_value(digits) matches Some(n) && n <= EXACT,
    ensures
        compile(digits) == Ok::<Ast, ErrorView>(
            Ast::Block { statements: seq![Ast::Number { numeral: digits }] },
        ),
        run(load(m, compile(digits)->Ok_0), 4).control matches ControlView::Done(
            Some(Val::Number(bits)),
        ) && integer_of(bits) == Some(digits_value(digits)->0 as int) && !is_negative(bits),
{
    lemma_lex_digits(digits);
    let tokens = lex(digits)->Ok_0;
    lemma_parse_literal(tokens[0], tokens[1], Ast::Number { numeral: digits });
    assert(tokens =~= seq![tokens[0], tokens[1]]);
    lemma_literal_program(m, Ast::Number { numeral: digits });
}

/// The body of a string without the quote and without `\` in it is the
/// text up to the closing quote.
pub proof fn lemma_string_body_plain(src: Seq<char>, p: Position, quote: char, close: int)
    requires
        0 <= p.index <= close < src.len(),
        src[close] == quote,
        forall|i: int| p.index <= i < close ==> (#[trigger] src[i]) != quote && src[i] != '\\',
    ensures
        string_body(src, p, quote) matches Some((content, q)) && content == src.subrange(
            p.index,
            close,
        ) && q.index == close,
    decreases close - p.index,
{
    if p.index == close {
        assert(src.subrange(p.index, close) =~= Seq::<char>::empty());
    } else {
        assert(src[p.index] != quote && src[p.index] != '\\');
        let next = step_over(src, p);
        lemma_string_body_plain(src, next, quote, close);
        assert(seq![src[p.index]] + src.subrange(next.index, close) =~= src.subrange(
            p.index,
            close,
        ));
    }
}

/// A source text that is one string in double quotes, with neither `"` nor
/// `\` in it, goes through the lexer and the parser and evaluates to that
/// string.
pub proof fn lemma_string_round_trip(m: MachineView, text: Seq<char>)
    requires
        forall|i: int| 0 <= i < text.len() ==> (#[trigger] text[i]) != '"' && text[i] != '\\',
    ensures
        compile(seq!['"'] + text + seq!['"']) == Ok::<Ast, ErrorView>(
            Ast::Block { statements: seq![Ast::String { value: text }] },
        ),
        run(load(m, compile(seq!['"'] + text + seq!['"'])->Ok_0), 4).control == ControlView::Done(
            Some(Val::String(text)),
        ),
{
    let src = seq!['"'] + text + seq!['"'];
    let close = text.len() + 1;
    assert(src.len() == text.len() + 2);
    assert(src[0] == '"');
    assert(src[close as int] == '"');
    assert forall|i: int| 1 <= i < close implies (#[trigger] src[i]) != '"' && src[i] != '\\' by {
        assert(src[i] == text[i - 1]);
    }
    let body = step_over(src, start());
    lemma_string_body_plain(src, body, '"', close as int);
    assert(src.subrange(1, close as int) =~= text);
    let found = string_body(src, body, '"')->0;
    let quote = found.1;
    let after = step_over(src, quote);
    assert(after.index == src.len());
    reveal_with_fuel(lex_from, 2);
    let string = TokenView {
        token_type: TokenType::String,
        value: TokenValueView::String(text),
        line: 1,
        column: 1,
    };
    let end = TokenView {
        token_type: TokenType::Eof,
        value: TokenValueView::Absent,
        line: after.line,
        column: after.column,
    };
    assert(token_at(src, start()) == Ok::<(TokenView, Position), ErrorView>((string, after)));
    assert(lex_from(src, after) == Ok::<Seq<TokenView>, ErrorView>(seq![end]));
    assert(seq![string] + seq![end] =~= seq![string, end]);
    assert(lex(src) == Ok::<Seq<TokenView>, ErrorView>(seq![string, end]));
    lemma_parse_literal(string, end, Ast::String { value: text });
    lemma_literal_program(m, Ast::String { value: text });
}

} // verus!
