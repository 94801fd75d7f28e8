// The lexer: from the characters of a source text to its tokens.
//
// The first half of the file says, on sequences of characters, what the
// tokens of a text are (`lex`). The second half is the lexer itself, whose
// `tokenize` gives exactly those tokens.

use crate::errors::{ErrorKind, ErrorView, KyaroError};
use crate::text::string_of;
use crate::token_types::{
    create_keywords_map, find_keyword, keyword_of, keyword_table, lookup, table_view,
    token_views, Token, TokenType, TokenValue, TokenValueView, TokenView,
};
use vstd::prelude::*;
use vstd::string::StringExecFns;

verus! {

/// Whether `c` has the Unicode property Alphabetic.
pub uninterp spec fn unicode_alphabetic(c: char) -> bool;

/// Whether `c` is alphabetic or numeric in the sense of Unicode.
pub uninterp spec fn unicode_alphanumeric(c: char) -> bool;

/// `char::is_alphabetic` tells whether the character has the Unicode
/// property Alphabetic; the answer depends on the character alone.
pub assume_specification[ char::is_alphabetic ](c: char) -> (r: bool)
    ensures
        r == unicode_alphabetic(c),
;

/// `char::is_alphanumeric` tells whether the character is alphabetic or
/// numeric in the sense of Unicode; the answer depends on the character
/// alone.
pub assume_specification[ char::is_alphanumeric ](c: char) -> (r: bool)
    ensures
        r == unicode_alphanumeric(c),
;

/// A place in a source text: the index of a character, and the line and
/// column of that character, both counted from one.
pub struct Position {
    pub index: int,
    pub line: nat,
    pub column: nat,
}

/// The place of the first character of a text.
pub open spec fn start() -> Position {
    Position { index: 0, line: 1, column: 1 }
}

/// The place after the character at `p`. A newline starts a new line at
/// column one, any other character moves one column on.
pub open spec fn step_over(src: Seq<char>, p: Position) -> Position {
    if src[p.index] == '\n' {
        Position { index: p.index + 1, line: p.line + 1, column: 1 }
    } else {
        Position { index: p.index + 1, line: p.line, column: p.column + 1 }
    }
}

/// Whether `p` is the place of a character of the text.
pub open spec fn inside(src: Seq<char>, p: Position) -> bool {
    0 <= p.index < src.len()
}

/// Space, tab and carriage return separate tokens and mean nothing else.
pub open spec fn is_blank(c: char) -> bool {
    c == ' ' || c == '\t' || c == '\r'
}

/// Whether `c` is one of the ten decimal digits.
pub open spec fn is_digit(c: char) -> bool {
    '0' <= c <= '9'
}

/// Whether a word can begin with `c`: a letter or `_`.
pub open spec fn is_word_start(c: char) -> bool {
    unicode_alphabetic(c) || c == '_'
}

/// Whether a word can go on with `c`: a letter, a digit or `_`.
pub open spec fn is_word_part(c: char) -> bool {
    unicode_alphanumeric(c) || c == '_'
}

/// The place of the first character at or after `p` that is not blank.
pub open spec fn skip_blanks(src: Seq<char>, p: Position) -> Position
    decreases src.len() - p.index,
{
    if inside(src, p) && is_blank(src[p.index]) {
        skip_blanks(src, step_over(src, p))
    } else {
        p
    }
}

/// The place of the first newline at or after `p`, or the end of the text.
pub open spec fn line_end(src: Seq<char>, p: Position) -> Position
    decreases src.len() - p.index,
{
    if inside(src, p) && src[p.index] != '\n' {
        line_end(src, step_over(src, p))
    } else {
        p
    }
}

/// The place after a numeral that goes on at `p`: digits, and one `.` as long
/// as none was seen.
pub open spec fn number_end(src: Seq<char>, p: Position, has_dot: bool) -> Position
    decreases src.len() - p.index,
{
    if inside(src, p) && is_digit(src[p.index]) {
        number_end(src, step_over(src, p), has_dot)
    } else if inside(src, p) && src[p.index] == '.' && !has_dot {
        number_end(src, step_over(src, p), true)
    } else {
        p
    }
}

/// The place after a word that goes on at `p`.
pub open spec fn word_end(src: Seq<char>, p: Position) -> Position
    decreases src.len() - p.index,
{
    if inside(src, p) && is_word_part(src[p.index]) {
        word_end(src, step_over(src, p))
    } else {
        p
    }
}

/// The character that `\c` stands for inside a string.
pub open spec fn unescape(c: char) -> char {
    if c == 'n' {
        '\n'
    } else if c == 't' {
        '\t'
    } else if c == 'r' {
        '\r'
    } else {
        c
    }
}

/// Reads the body of a string from `p` on: the decoded characters up to the
/// closing `quote` and the place of that quote, or `None` where the text ends
/// before it.
pub open spec fn string_body(src: Seq<char>, p: Position, quote: char) -> Option<
    (Seq<char>, Position),
>
    decreases src.len() - p.index,
{
    if !inside(src, p) {
        None
    } else if src[p.index] == quote {
        Some((Seq::empty(), p))
    } else if src[p.index] == '\\' {
        let q = step_over(src, p);
        if !inside(src, q) {
            None
        } else {
            prepend_char(unescape(src[q.index]), string_body(src, step_over(src, q), quote))
        }
    } else {
        prepend_char(src[p.index], string_body(src, step_over(src, p), quote))
    }
}

/// What was read of a string body, with `c` before its characters.
pub open spec fn prepend_char(c: char, rest: Option<(Seq<char>, Position)>) -> Option<
    (Seq<char>, Position),
> {
    match rest {
        None => None,
        Some((s, p)) => Some((seq![c] + s, p)),
    }
}

/// What was read of a string body, with `cs` before its characters.
pub open spec fn prepend_chars(cs: Seq<char>, rest: Option<(Seq<char>, Position)>) -> Option<
    (Seq<char>, Position),
> {
    match rest {
        None => None,
        Some((s, p)) => Some((cs + s, p)),
    }
}

/// The operator or delimiter that starts with `c`, and how many characters it
/// takes. `next` is the character after `c`, if there is one. The longest
/// match wins.
pub open spec fn symbol_of(c: char, next: Option<char>) -> Option<(TokenType, nat)> {
    if c == '+' {
        if next == Some('=') {
            Some((TokenType::PlusEquals, 2))
        } else {
            Some((TokenType::Plus, 1))
        }
    } else if c == '-' {
        if next == Some('=') {
            Some((TokenType::MinusEquals, 2))
        } else if next == Some('>') {
            Some((TokenType::Arrow, 2))
        } else {
            Some((TokenType::Minus, 1))
        }
    } else if c == '*' {
        if next == Some('=') {
            Some((TokenType::StarEquals, 2))
        } else if next == Some('*') {
            Some((TokenType::Power, 2))
        } else {
            Some((TokenType::Star, 1))
        }
    } else if c == '/' {
        if next == Some('=') {
            Some((TokenType::SlashEquals, 2))
        } else {
            Some((TokenType::Slash, 1))
        }
    } else if c == '%' {
        Some((TokenType::Percent, 1))
    } else if c == '=' {
        if next == Some('=') {
            Some((TokenType::EqualsEquals, 2))
        } else {
            Some((TokenType::Equals, 1))
        }
    } else if c == '!' {
        if next == Some('=') {
            Some((TokenType::NotEquals, 2))
        } else {
            None
        }
    } else if c == '<' {
        if next == Some('=') {
            Some((TokenType::LessEquals, 2))
        } else {
            Some((TokenType::LessThan, 1))
        }
    } else if c == '>' {
        if next == Some('=') {
            Some((TokenType::GreaterEquals, 2))
        } else {
            Some((TokenType::GreaterThan, 1))
        }
    } else if c == '(' {
        Some((TokenType::LParen, 1))
    } else if c == ')' {
        Some((TokenType::RParen, 1))
    } else if c == '{' {
        Some((TokenType::LBrace, 1))
    } else if c == '}' {
        Some((TokenType::RBrace, 1))
    } else if c == '[' {
        Some((TokenType::LBracket, 1))
    } else if c == ']' {
        Some((TokenType::RBracket, 1))
    } else if c == ',' {
        Some((TokenType::Comma, 1))
    } else if c == '.' {
        Some((TokenType::Dot, 1))
    } else if c == ':' {
        Some((TokenType::Colon, 1))
    } else if c == ';' {
        Some((TokenType::Semicolon, 1))
    } else {
        None
    }
}

/// How an operator or delimiter is written.
pub open spec fn symbol_text(t: TokenType) -> Seq<char> {
    match t {
        TokenType::Plus => "+"@,
        TokenType::Minus => "-"@,
        TokenType::Star => "*"@,
        TokenType::Slash => "/"@,
        TokenType::Percent => "%"@,
        TokenType::Power => "**"@,
        TokenType::Equals => "="@,
        TokenType::EqualsEquals => "=="@,
        TokenType::NotEquals => "!="@,
        TokenType::LessThan => "<"@,
        TokenType::GreaterThan => ">"@,
        TokenType::LessEquals => "<="@,
        TokenType::GreaterEquals => ">="@,
        TokenType::PlusEquals => "+="@,
        TokenType::MinusEquals => "-="@,
        TokenType::StarEquals => "*="@,
        TokenType::SlashEquals => "/="@,
        TokenType::LParen => "("@,
        TokenType::RParen => ")"@,
        TokenType::LBrace => "{"@,
        TokenType::RBrace => "}"@,
        TokenType::LBracket => "["@,
        TokenType::RBracket => "]"@,
        TokenType::Comma => ","@,
        TokenType::Dot => "."@,
        TokenType::Colon => ":"@,
        TokenType::Semicolon => ";"@,
        TokenType::Arrow => "->"@,
        _ => ""@,
    }
}

/// The character after the one at `p`, if there is one.
pub open spec fn next_char(src: Seq<char>, p: Position) -> Option<char> {
    if 0 <= p.index + 1 < src.len() {
        Some(src[p.index + 1])
    } else {
        None
    }
}

/// The lexer error with `message` that points at `p`.
pub open spec fn lexer_failure(message: Seq<char>, p: Position) -> ErrorView {
    ErrorView { kind: ErrorKind::Lexer, message, line: p.line, column: p.column }
}

/// The token of kind `token_type` with payload `value` that starts at `p`.
pub open spec fn token_view(
    token_type: TokenType,
    value: TokenValueView,
    p: Position,
) -> TokenView {
    TokenView { token_type, value, line: p.line, column: p.column }
}

/// The token that starts at `p`, with the place after it, or the error that
/// the text there gives. `p` is inside the text, at a character that is not
/// blank, not `#` and not a newline.
pub open spec fn token_at(src: Seq<char>, p: Position) -> Result<(TokenView, Position), ErrorView> {
    let c = src[p.index];
    if is_digit(c) {
        let end = number_end(src, p, false);
        Ok(
            (
                token_view(
                    TokenType::Number,
                    TokenValueView::Number(src.subrange(p.index, end.index)),
                    p,
                ),
                end,
            ),
        )
    } else if c == '"' || c == '\'' {
        match string_body(src, step_over(src, p), c) {
            None => Err(lexer_failure("Unterminated string"@, p)),
            Some((content, quote)) => Ok(
                (
                    token_view(TokenType::String, TokenValueView::String(content), p),
                    step_over(src, quote),
                ),
            ),
        }
    } else if is_word_start(c) {
        let end = word_end(src, step_over(src, p));
        let word = src.subrange(p.index, end.index);
        let token_type = match keyword_of(word) {
            Some(t) => t,
            None => TokenType::Identifier,
        };
        Ok((token_view(token_type, TokenValueView::Identifier(word), p), end))
    } else {
        match symbol_of(c, next_char(src, p)) {
            Some((t, n)) => Ok(
                (
                    token_view(t, TokenValueView::Symbol(symbol_text(t)), p),
                    if n == 2 {
                        step_over(src, step_over(src, p))
                    } else {
                        step_over(src, p)
                    },
                ),
            ),
            None => Err(lexer_failure("Unexpected character: "@.push(c), p)),
        }
    }
}

/// The tokens `rest` with `t` before them, or the error that `rest` is.
pub open spec fn push_front(t: TokenView, rest: Result<Seq<TokenView>, ErrorView>) -> Result<
    Seq<TokenView>,
    ErrorView,
> {
    match rest {
        Ok(ts) => Ok(seq![t] + ts),
        Err(e) => Err(e),
    }
}

/// The tokens `rest` with `prefix` before them, or the error that `rest` is.
pub open spec fn with_prefix(
    prefix: Seq<TokenView>,
    rest: Result<Seq<TokenView>, ErrorView>,
) -> Result<Seq<TokenView>, ErrorView> {
    match rest {
        Ok(ts) => Ok(prefix + ts),
        Err(e) => Err(e),
    }
}

/// The tokens of `src` from `p` on, ending with the end-of-text token, or the
/// first error.
pub open spec fn lex_from(src: Seq<char>, p: Position) -> Result<Seq<TokenView>, ErrorView>
    decreases src.len() - p.index,
{
    if !inside(src, p) {
        Ok(seq![token_view(TokenType::Eof, TokenValueView::Absent, p)])
    } else if is_blank(src[p.index]) {
        lex_from(src, step_over(src, p))
    } else if src[p.index] == '#' {
        proof {
            lemma_line_end_advances(src, step_over(src, p));
        }
        lex_from(src, line_end(src, step_over(src, p)))
    } else if src[p.index] == '\n' {
        push_front(
            token_view(TokenType::Newline, TokenValueView::Absent, p),
            lex_from(src, step_over(src, p)),
        )
    } else {
        match token_at(src, p) {
            Err(e) => Err(e),
            Ok((t, q)) => {
                proof {
                    lemma_token_advances(src, p);
                }
                push_front(t, lex_from(src, q))
            },
        }
    }
}

/// The tokens of a whole source text.
pub open spec fn lex(src: Seq<char>) -> Result<Seq<TokenView>, ErrorView> {
    lex_from(src, start())
}

/// Skipping blanks ends at or after the place it began, inside the text or
/// at its end.
pub proof fn lemma_blanks_advance(src: Seq<char>, p: Position)
    requires
        0 <= p.index <= src.len(),
    ensures
        p.index <= skip_blanks(src, p).index <= src.len(),
    decreases src.len() - p.index,
{
    if inside(src, p) && is_blank(src[p.index]) {
        lemma_blanks_advance(src, step_over(src, p));
    }
}

/// The end of a line lies at or after the place it is looked for from.
pub proof fn lemma_line_end_advances(src: Seq<char>, p: Position)
    requires
        0 <= p.index <= src.len(),
    ensures
        p.index <= line_end(src, p).index <= src.len(),
    decreases src.len() - p.index,
{
    if inside(src, p) && src[p.index] != '\n' {
        lemma_line_end_advances(src, step_over(src, p));
    }
}

/// A numeral ends at or after the place it goes on at.
pub proof fn lemma_number_end_advances(src: Seq<char>, p: Position, has_dot: bool)
    requires
        0 <= p.index <= src.len(),
    ensures
        p.index <= number_end(src, p, has_dot).index <= src.len(),
    decreases src.len() - p.index,
{
    if inside(src, p) && is_digit(src[p.index]) {
        lemma_number_end_advances(src, step_over(src, p), has_dot);
    } else if inside(src, p) && src[p.index] == '.' && !has_dot {
        lemma_number_end_advances(src, step_over(src, p), true);
    }
}

/// A word ends at or after the place it goes on at.
pub proof fn lemma_word_end_advances(src: Seq<char>, p: Position)
    requires
        0 <= p.index <= src.len(),
    ensures
        p.index <= word_end(src, p).index <= src.len(),
    decreases src.len() - p.index,
{
    if inside(src, p) && is_word_part(src[p.index]) {
        lemma_word_end_advances(src, step_over(src, p));
    }
}

/// The quote that closes a string lies at or after the place its body
/// begins, inside the text.
pub proof fn lemma_string_body_advances(src: Seq<char>, p: Position, quote: char)
    requires
        0 <= p.index <= src.len(),
    ensures
        string_body(src, p, quote) matches Some((_, q)) ==> p.index <= q.index < src.len()
            && src[q.index] == quote,
    decreases src.len() - p.index,
{
    if !inside(src, p) {
    } else if src[p.index] == quote {
    } else if src[p.index] == '\\' {
        let q = step_over(src, p);
        if inside(src, q) {
            lemma_string_body_advances(src, step_over(src, q), quote);
        }
    } else {
        lemma_string_body_advances(src, step_over(src, p), quote);
    }
}

/// A token takes at least one character and ends inside the text or at its
/// end.
pub proof fn lemma_token_advances(src: Seq<char>, p: Position)
    requires
        inside(src, p),
    ensures
        token_at(src, p) matches Ok((_, q)) ==> p.index < q.index <= src.len(),
{
    let c = src[p.index];
    if is_digit(c) {
        lemma_number_end_advances(src, step_over(src, p), false);
    } else if c == '"' || c == '\'' {
        lemma_string_body_advances(src, step_over(src, p), c);
    } else if is_word_start(c) {
        lemma_word_end_advances(src, step_over(src, p));
    }
}


/// Skipping blanks changes nothing in what is lexed.
pub proof fn lemma_lex_skips_blanks(src: Seq<char>, p: Position)
    requires
        0 <= p.index <= src.len(),
    ensures
        lex_from(src, skip_blanks(src, p)) == lex_from(src, p),
    decreases src.len() - p.index,
{
    if inside(src, p) && is_blank(src[p.index]) {
        lemma_lex_skips_blanks(src, step_over(src, p));
    }
}

/// What a table gives for a word is the kind of one of its entries.
pub proof fn lemma_lookup_is_entry(table: Seq<(Seq<char>, TokenType)>, word: Seq<char>)
    ensures
        lookup(table, word) matches Some(t) ==> exists|i: int|
            0 <= i < table.len() && (#[trigger] table[i]).1 == t,
    decreases table.len(),
{
    if table.len() == 0 {
    } else if table[0].0 == word {
    } else {
        lemma_lookup_is_entry(table.drop_first(), word);
        if let Some(t) = lookup(table.drop_first(), word) {
            let i = choose|i: int|
                0 <= i < table.drop_first().len() && (#[trigger] table.drop_first()[i]).1 == t;
            assert(table[i + 1].1 == t);
        }
    }
}

/// No token that starts at a character is the end-of-text token.
pub proof fn lemma_token_is_not_eof(src: Seq<char>, p: Position)
    requires
        inside(src, p),
    ensures
        token_at(src, p) matches Ok((t, _)) ==> t.token_type != TokenType::Eof,
{
    let c = src[p.index];
    if is_digit(c) {
    } else if c == '"' || c == '\'' {
    } else if is_word_start(c) {
        let end = word_end(src, step_over(src, p));
        let word = src.subrange(p.index, end.index);
        lemma_lookup_is_entry(keyword_table(), word);
    } else {
    }
}

/// What is lexed from any place on ends with the end-of-text token, and
/// holds no other such token.
pub proof fn lemma_lex_ends_with_eof(src: Seq<char>, p: Position)
    requires
        0 <= p.index <= src.len(),
    ensures
        lex_from(src, p) matches Ok(ts) ==> ts.len() > 0 && ts.last().token_type == TokenType::Eof
            && forall|i: int| 0 <= i < ts.len() - 1 ==> (#[trigger] ts[i]).token_type != TokenType::Eof,
    decreases src.len() - p.index,
{
    if !inside(src, p) {
    } else if is_blank(src[p.index]) {
        lemma_lex_ends_with_eof(src, step_over(src, p));
    } else if src[p.index] == '#' {
        lemma_line_end_advances(src, step_over(src, p));
        lemma_lex_ends_with_eof(src, line_end(src, step_over(src, p)));
    } else if src[p.index] == '\n' {
        lemma_lex_ends_with_eof(src, step_over(src, p));
    } else {
        match token_at(src, p) {
            Err(e) => {},
            Ok((t, q)) => {
                lemma_token_advances(src, p);
                lemma_token_is_not_eof(src, p);
                lemma_lex_ends_with_eof(src, q);
            },
        }
    }
}

/// Every source text that can be lexed gives a run of tokens that ends with
/// the end-of-text token and holds it nowhere else.
pub proof fn lemma_tokens_end_with_one_eof(src: Seq<char>)
    ensures
        lex(src) matches Ok(ts) ==> ts.len() > 0 && ts.last().token_type == TokenType::Eof
            && forall|i: int| 0 <= i < ts.len() - 1 ==> (#[trigger] ts[i]).token_type != TokenType::Eof,
{
    lemma_lex_ends_with_eof(src, start());
}

fn is_blank_char(c: char) -> (r: bool)
    ensures
        r == is_blank(c),
{
    c == ' ' || c == '\t' || c == '\r'
}

fn is_digit_char(c: char) -> (r: bool)
    ensures
        r == is_digit(c),
{
    '0' <= c && c <= '9'
}

fn unescape_char(c: char) -> (r: char)
    ensures
        r == unescape(c),
{
    if c == 'n' {
        '\n'
    } else if c == 't' {
        '\t'
    } else if c == 'r' {
        '\r'
    } else {
        c
    }
}

fn classify_symbol(c: char, next: Option<char>) -> (r: Option<(TokenType, usize)>)
    ensures
        match r {
            Some((t, n)) => symbol_of(c, next) == Some((t, n as nat)) && 1 <= n <= 2,
            None => symbol_of(c, next) is None,
        },
{
    let followed_by_equals = match next {
        Some(d) => d == '=',
        None => false,
    };
    if c == '+' {
        if followed_by_equals {
            Some((TokenType::PlusEquals, 2))
        } else {
            Some((TokenType::Plus, 1))
        }
    } else if c == '-' {
        if followed_by_equals {
            Some((TokenType::MinusEquals, 2))
        } else if next == Some('>') {
            Some((TokenType::Arrow, 2))
        } else {
            Some((TokenType::Minus, 1))
        }
    } else if c == '*' {
        if followed_by_equals {
            Some((TokenType::StarEquals, 2))
        } else if next == Some('*') {
            Some((TokenType::Power, 2))
        } else {
            Some((TokenType::Star, 1))
        }
    } else if c == '/' {
        if followed_by_equals {
            Some((TokenType::SlashEquals, 2))
        } else {
            Some((TokenType::Slash, 1))
        }
    } else if c == '%' {
        Some((TokenType::Percent, 1))
    } else if c == '=' {
        if followed_by_equals {
            Some((TokenType::EqualsEquals, 2))
        } else {
            Some((TokenType::Equals, 1))
        }
    } else if c == '!' {
        if followed_by_equals {
            Some((TokenType::NotEquals, 2))
        } else {
            None
        }
    } else if c == '<' {
        if followed_by_equals {
            Some((TokenType::LessEquals, 2))
        } else {
            Some((TokenType::LessThan, 1))
        }
    } else if c == '>' {
        if followed_by_equals {
            Some((TokenType::GreaterEquals, 2))
        } else {
            Some((TokenType::GreaterThan, 1))
        }
    } else if c == '(' {
        Some((TokenType::LParen, 1))
    } else if c == ')' {
        Some((TokenType::RParen, 1))
    } else if c == '{' {
        Some((TokenType::LBrace, 1))
    } else if c == '}' {
        Some((TokenType::RBrace, 1))
    } else if c == '[' {
        Some((TokenType::LBracket, 1))
    } else if c == ']' {
        Some((TokenType::RBracket, 1))
    } else if c == ',' {
        Some((TokenType::Comma, 1))
    } else if c == '.' {
        Some((TokenType::Dot, 1))
    } else if c == ':' {
        Some((TokenType::Colon, 1))
    } else if c == ';' {
        Some((TokenType::Semicolon, 1))
    } else {
        None
    }
}

/// How an operator or delimiter is written.
pub fn symbol_str(t: TokenType) -> (s: &'static str)
    ensures
        s@ == symbol_text(t),
{
    match t {
        TokenType::Plus => "+",
        TokenType::Minus => "-",
        TokenType::Star => "*",
        TokenType::Slash => "/",
        TokenType::Percent => "%",
        TokenType::Power => "**",
        TokenType::Equals => "=",
        TokenType::EqualsEquals => "==",
        TokenType::NotEquals => "!=",
        TokenType::LessThan => "<",
        TokenType::GreaterThan => ">",
        TokenType::LessEquals => "<=",
        TokenType::GreaterEquals => ">=",
        TokenType::PlusEquals => "+=",
        TokenType::MinusEquals => "-=",
        TokenType::StarEquals => "*=",
        TokenType::SlashEquals => "/=",
        TokenType::LParen => "(",
        TokenType::RParen => ")",
        TokenType::LBrace => "{",
        TokenType::RBrace => "}",
        TokenType::LBracket => "[",
        TokenType::RBracket => "]",
        TokenType::Comma => ",",
        TokenType::Dot => ".",
        TokenType::Colon => ":",
        TokenType::Semicolon => ";",
        TokenType::Arrow => "->",
        _ => "",
    }
}

/// Turns a source text into tokens.
pub struct Lexer {
    source: Vec<char>,
    position: usize,
    line: usize,
    column: usize,
    keywords: Vec<(String, TokenType)>,
}

impl Lexer {
    /// The text that is lexed.
    pub closed spec fn source(&self) -> Seq<char> {
        self.source@
    }

    /// The place of the next character to read.
    pub closed spec fn cursor(&self) -> Position {
        Position { index: self.position as int, line: self.line as nat, column: self.column as nat }
    }

    /// The lexer's invariant: the cursor lies in the text or at its end, and
    /// line and column can be counted in a `usize`.
    pub closed spec fn wf(&self) -> bool {
        &&& self.source@.len() < usize::MAX
        &&& self.position <= self.source@.len()
        &&& 1 <= self.line <= self.position + 1
        &&& 1 <= self.column <= self.position + 1
        &&& table_view(self.keywords@) == keyword_table()
    }

    /// A lexer at the start of `source`.
    pub fn new(source: &str) -> (lexer: Self)
        requires
            source@.len() < usize::MAX,
        ensures
            lexer.wf(),
            lexer.source() == source@,
            lexer.cursor() == start(),
    {
        let chars = crate::text::to_chars(source);
        Self { source: chars, position: 0, line: 1, column: 1, keywords: create_keywords_map() }
    }

    /// The character at the cursor, or `None` at the end of the text.
    pub fn current_char(&self) -> (c: Option<char>)
        requires
            self.wf(),
        ensures
            c == if inside(self.source(), self.cursor()) {
                Some(self.source()[self.cursor().index])
            } else {
                None
            },
    {
        if self.position < self.source.len() {
            Some(self.source[self.position])
        } else {
            None
        }
    }

    /// Moves the cursor over the character under it. At the end of the
    /// text the cursor stays where it is.
    pub fn advance(&mut self)
        requires
            old(self).wf(),
        ensures
            final(self).wf(),
            final(self).source() == old(self).source(),
            final(self).cursor() == if inside(old(self).source(), old(self).cursor()) {
                step_over(old(self).source(), old(self).cursor())
            } else {
                old(self).cursor()
            },
    {
        if self.position >= self.source.len() {
            return ;
        }
        if self.source[self.position] == '\n' {
            self.line += 1;
            self.column = 0;
        }
        self.position += 1;
        self.column += 1;
    }

    /// The character `offset` places after the cursor, or `None` past the
    /// end of the text.
    pub fn peek(&self, offset: usize) -> (c: Option<char>)
        requires
            self.wf(),
        ensures
            c == if self.cursor().index + offset < self.source().len() {
                Some(self.source()[self.cursor().index + offset])
            } else {
                None
            },
    {
        if offset < self.source.len() - self.position {
            Some(self.source[self.position + offset])
        } else {
            None
        }
    }

    /// Moves the cursor to the next character that is not a space, a tab or
    /// a carriage return.
    pub fn skip_whitespace(&mut self)
        requires
            old(self).wf(),
        ensures
            final(self).wf(),
            final(self).source() == old(self).source(),
            final(self).cursor() == skip_blanks(old(self).source(), old(self).cursor()),
            inside(final(self).source(), final(self).cursor()) ==> !is_blank(
                final(self).source()[final(self).cursor().index],
            ),
    {
        while self.position < self.source.len() && is_blank_char(self.source[self.position])
            invariant
                self.wf(),
                self.source() == old(self).source(),
                skip_blanks(self.source(), self.cursor()) == skip_blanks(
                    old(self).source(),
                    old(self).cursor(),
                ),
            decreases self.source.len() - self.position,
        {
            self.advance();
        }
    }

    /// At a `#`, moves the cursor to the newline that ends the comment, or to
    /// the end of the text.
    pub fn skip_comment(&mut self)
        requires
            old(self).wf(),
        ensures
            final(self).wf(),
            final(self).source() == old(self).source(),
            final(self).cursor() == if inside(old(self).source(), old(self).cursor())
                && old(self).source()[old(self).cursor().index] == '#' {
                line_end(old(self).source(), old(self).cursor())
            } else {
                old(self).cursor()
            },
    {
        if self.position < self.source.len() && self.source[self.position] == '#' {
            while self.position < self.source.len() && self.source[self.position] != '\n'
                invariant
                    self.wf(),
                    self.source() == old(self).source(),
                    line_end(self.source(), self.cursor()) == line_end(
                        old(self).source(),
                        old(self).cursor(),
                    ),
                decreases self.source.len() - self.position,
            {
                self.advance();
            }
        }
    }

    fn read_number(&mut self) -> (token: Token)
        requires
            old(self).wf(),
            inside(old(self).source(), old(self).cursor()),
            is_digit(old(self).source()[old(self).cursor().index]),
        ensures
            final(self).wf(),
            final(self).source() == old(self).source(),
            token_at(old(self).source(), old(self).cursor()) == Ok::<_, ErrorView>(
                (token@, final(self).cursor()),
            ),
    {
        let start_position = self.position;
        let start_line = self.line;
        let start_column = self.column;
        let mut has_dot = false;
        loop
            invariant
                self.wf(),
                self.source() == old(self).source(),
                start_position == old(self).cursor().index,
                start_position <= self.position,
                number_end(self.source(), self.cursor(), has_dot) == number_end(
                    old(self).source(),
                    old(self).cursor(),
                    false,
                ),
            ensures
                self.cursor() == number_end(old(self).source(), old(self).cursor(), false),
            decreases self.source.len() - self.position,
        {
            if self.position >= self.source.len() {
                break ;
            }
            let ch = self.source[self.position];
            if is_digit_char(ch) {
                self.advance();
            } else if ch == '.' && !has_dot {
                has_dot = true;
                self.advance();
            } else {
                break ;
            }
        }
        let numeral = string_of(&self.source, start_position, self.position);
        Token::number(numeral, start_line, start_column)
    }

    fn read_string(&mut self, quote_char: char) -> (r: Result<Token, KyaroError>)
        requires
            old(self).wf(),
            inside(old(self).source(), old(self).cursor()),
            old(self).source()[old(self).cursor().index] == quote_char,
            quote_char == '"' || quote_char == '\'',
        ensures
            final(self).wf(),
            final(self).source() == old(self).source(),
            match r {
                Ok(token) => token_at(old(self).source(), old(self).cursor()) == Ok::<_, ErrorView>(
                    (token@, final(self).cursor()),
                ),
                Err(e) => token_at(old(self).source(), old(self).cursor()) == Err::<
                    (TokenView, Position),
                    _,
                >(e@),
            },
    {
        let start_line = self.line;
        let start_column = self.column;
        self.advance();
        let ghost body = self.cursor();
        let mut string_value = String::new();
        loop
            invariant
                self.wf(),
                self.source() == old(self).source(),
                body == step_over(old(self).source(), old(self).cursor()),
                inside(old(self).source(), old(self).cursor()),
                old(self).source()[old(self).cursor().index] == quote_char,
                quote_char == '"' || quote_char == '\'',
                start_line == old(self).cursor().line,
                start_column == old(self).cursor().column,
                string_body(self.source(), body, quote_char) == prepend_chars(
                    string_value@,
                    string_body(self.source(), self.cursor(), quote_char),
                ),
            decreases self.source.len() - self.position,
        {
            if self.position >= self.source.len() {
                return Err(
                    KyaroError::lexer_error(
                        String::from_str("Unterminated string"),
                        start_line,
                        start_column,
                    ),
                );
            }
            let ch = self.source[self.position];
            if ch == quote_char {
                assert(string_body(self.source(), body, quote_char) == Some(
                    (string_value@, self.cursor()),
                )) by {
                    assert(string_value@ + Seq::<char>::empty() =~= string_value@);
                }
                self.advance();
                return Ok(Token::string(string_value, start_line, start_column));
            }
            let ghost before = string_value@;
            let ghost here = self.cursor();
            if ch == '\\' {
                self.advance();
                if self.position >= self.source.len() {
                    return Err(
                        KyaroError::lexer_error(
                            String::from_str("Unterminated string"),
                            start_line,
                            start_column,
                        ),
                    );
                }
                let escaped = self.source[self.position];
                string_value.push(unescape_char(escaped));
                self.advance();
            } else {
                string_value.push(ch);
                self.advance();
            }
            proof {
                let rest = string_body(self.source(), self.cursor(), quote_char);
                let added = string_value@.last();
                assert(string_body(self.source(), here, quote_char) == prepend_char(added, rest));
                if let Some((s, q)) = rest {
                    assert(before + (seq![added] + s) =~= string_value@ + s);
                }
            }
        }
    }

    fn read_identifier(&mut self) -> (token: Token)
        requires
            old(self).wf(),
            inside(old(self).source(), old(self).cursor()),
            is_word_start(old(self).source()[old(self).cursor().index]),
            !is_digit(old(self).source()[old(self).cursor().index]),
            old(self).source()[old(self).cursor().index] != '"',
            old(self).source()[old(self).cursor().index] != '\'',
        ensures
            final(self).wf(),
            final(self).source() == old(self).source(),
            token_at(old(self).source(), old(self).cursor()) == Ok::<_, ErrorView>(
                (token@, final(self).cursor()),
            ),
    {
        let start_position = self.position;
        let start_line = self.line;
        let start_column = self.column;
        self.advance();
        while self.position < self.source.len() && (self.source[self.position].is_alphanumeric()
            || self.source[self.position] == '_')
            invariant
                self.wf(),
                self.source() == old(self).source(),
                start_position == old(self).cursor().index,
                start_position < self.position,
                word_end(self.source(), self.cursor()) == word_end(
                    old(self).source(),
                    step_over(old(self).source(), old(self).cursor()),
                ),
            decreases self.source.len() - self.position,
        {
            self.advance();
        }
        let identifier = string_of(&self.source, start_position, self.position);
        let token_type = match find_keyword(&self.keywords, &identifier) {
            Some(t) => t,
            None => TokenType::Identifier,
        };
        Token::new(token_type, TokenValue::Identifier(identifier), start_line, start_column)
    }

    fn read_symbol(&mut self) -> (r: Result<Token, KyaroError>)
        requires
            old(self).wf(),
            inside(old(self).source(), old(self).cursor()),
            !is_digit(old(self).source()[old(self).cursor().index]),
            !is_word_start(old(self).source()[old(self).cursor().index]),
            old(self).source()[old(self).cursor().index] != '"',
            old(self).source()[old(self).cursor().index] != '\'',
        ensures
            final(self).wf(),
            final(self).source() == old(self).source(),
            match r {
                Ok(token) => token_at(old(self).source(), old(self).cursor()) == Ok::<_, ErrorView>(
                    (token@, final(self).cursor()),
                ),
                Err(e) => token_at(old(self).source(), old(self).cursor()) == Err::<
                    (TokenView, Position),
                    _,
                >(e@),
            },
    {
        let ch = self.source[self.position];
        let start_line = self.line;
        let start_column = self.column;
        match classify_symbol(ch, self.peek(1)) {
            Some((token_type, length)) => {
                self.advance();
                if length == 2 {
                    self.advance();
                }
                Ok(
                    Token::symbol(
                        token_type,
                        String::from_str(symbol_str(token_type)),
                        start_line,
                        start_column,
                    ),
                )
            },
            None => {
                let mut message = String::from_str("Unexpected character: ");
                message.push(ch);
                Err(KyaroError::lexer_error(message, start_line, start_column))
            },
        }
    }

    /// Lexes the text from the cursor to its end. The tokens end with the
    /// end-of-text token; the first malformed token ends the work with its
    /// error.
    pub fn tokenize(&mut self) -> (r: Result<Vec<Token>, KyaroError>)
        requires
            old(self).wf(),
        ensures
            final(self).wf(),
            final(self).source() == old(self).source(),
            match r {
                Ok(tokens) => {
                    &&& lex_from(old(self).source(), old(self).cursor()) == Ok::<_, ErrorView>(
                        token_views(tokens@),
                    )
                    &&& tokens@.len() > 0
                    &&& tokens@.last().token_type == TokenType::Eof
                    &&& forall|i: int|
                        0 <= i < tokens@.len() - 1 ==> (#[trigger] tokens@[i]).token_type
                            != TokenType::Eof
                },
                Err(e) => lex_from(old(self).source(), old(self).cursor()) == Err::<
                    Seq<TokenView>,
                    _,
                >(e@),
            },
    {
        let mut tokens: Vec<Token> = Vec::new();
        assert(token_views(tokens@) + token_views(tokens@) =~= token_views(tokens@));
        loop
            invariant
                self.wf(),
                self.source() == old(self).source(),
                lex_from(old(self).source(), old(self).cursor()) == with_prefix(
                    token_views(tokens@),
                    lex_from(self.source(), self.cursor()),
                ),
            ensures
                !inside(self.source(), self.cursor()),
            decreases self.source.len() - self.position,
        {
            proof {
                lemma_blanks_advance(self.source(), self.cursor());
                lemma_lex_skips_blanks(self.source(), self.cursor());
            }
            self.skip_whitespace();
            if self.position >= self.source.len() {
                break ;
            }
            let ch = self.source[self.position];
            let ghost here = self.cursor();
            let ghost before = token_views(tokens@);
            if ch == '#' {
                proof {
                    lemma_line_end_advances(self.source(), step_over(self.source(), here));
                }
                self.skip_comment();
                continue ;
            }
            let token = if ch == '\n' {
                let newline = Token::simple(TokenType::Newline, self.line, self.column);
                self.advance();
                newline
            } else {
                proof {
                    lemma_token_advances(self.source(), here);
                }
                if is_digit_char(ch) {
                    self.read_number()
                } else if ch == '"' || ch == '\'' {
                    self.read_string(ch)?
                } else if ch.is_alphabetic() || ch == '_' {
                    self.read_identifier()
                } else {
                    self.read_symbol()?
                }
            };
            let ghost added = token@;
            tokens.push(token);
            proof {
                let rest = lex_from(self.source(), self.cursor());
                assert(lex_from(self.source(), here) == push_front(added, rest));
                assert(token_views(tokens@) =~= before.push(added));
                if let Ok(ts) = rest {
                    assert(before + (seq![added] + ts) =~= before.push(added) + ts);
                }
            }
        }
        let ghost before = token_views(tokens@);
        tokens.push(Token::simple(TokenType::Eof, self.line, self.column));
        proof {
            assert(token_views(tokens@) =~= before + seq![tokens@.last()@]);
            lemma_lex_ends_with_eof(old(self).source(), old(self).cursor());
            let ts = token_views(tokens@);
            assert(ts.last() == tokens@.last()@);
            assert forall|i: int| 0 <= i < tokens@.len() - 1 implies (#[trigger] tokens@[i]).token_type
                != TokenType::Eof by {
                assert(ts[i] == tokens@[i]@);
            }
        }
        Ok(tokens)
    }
}

} // verus!
