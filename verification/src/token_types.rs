// Tokens: the closed set of token kinds, what a token carries, and the table
// of reserved words.

use vstd::prelude::*;
use vstd::string::StringExecFns;

verus! {

/// The closed set of token kinds.
#[derive(Debug, Clone, Copy, PartialEq, Eq, Structural)]
pub enum TokenType {
    // Literals and names
    Number,
    String,
    Identifier,
    // Keywords
    KeywordLet,
    KeywordFunc,
    KeywordIf,
    KeywordElse,
    KeywordElif,
    KeywordWhile,
    KeywordFor,
    KeywordIn,
    KeywordReturn,
    KeywordBreak,
    KeywordContinue,
    KeywordTrue,
    KeywordFalse,
    KeywordNull,
    KeywordAnd,
    KeywordOr,
    KeywordNot,
    KeywordClass,
    KeywordImport,
    // Operators
    Plus,
    Minus,
    Star,
    Slash,
    Percent,
    Power,
    // Comparison
    Equals,
    EqualsEquals,
    NotEquals,
    LessThan,
    GreaterThan,
    LessEquals,
    GreaterEquals,
    // Compound assignment
    PlusEquals,
    MinusEquals,
    StarEquals,
    SlashEquals,
    // Delimiters
    LParen,
    RParen,
    LBrace,
    RBrace,
    LBracket,
    RBracket,
    // Punctuation
    Comma,
    Dot,
    Colon,
    Semicolon,
    Arrow,
    // Special
    Newline,
    Eof,
}

/// The name of a token kind, as error messages print it.
pub open spec fn kind_name(t: TokenType) -> Seq<char> {
    match t {
        TokenType::Number => "Number"@,
        TokenType::String => "String"@,
        TokenType::Identifier => "Identifier"@,
        TokenType::KeywordLet => "KeywordLet"@,
        TokenType::KeywordFunc => "KeywordFunc"@,
        TokenType::KeywordIf => "KeywordIf"@,
        TokenType::KeywordElse => "KeywordElse"@,
        TokenType::KeywordElif => "KeywordElif"@,
        TokenType::KeywordWhile => "KeywordWhile"@,
        TokenType::KeywordFor => "KeywordFor"@,
        TokenType::KeywordIn => "KeywordIn"@,
        TokenType::KeywordReturn => "KeywordReturn"@,
        TokenType::KeywordBreak => "KeywordBreak"@,
        TokenType::KeywordContinue => "KeywordContinue"@,
        TokenType::KeywordTrue => "KeywordTrue"@,
        TokenType::KeywordFalse => "KeywordFalse"@,
        TokenType::KeywordNull => "KeywordNull"@,
        TokenType::KeywordAnd => "KeywordAnd"@,
        TokenType::KeywordOr => "KeywordOr"@,
        TokenType::KeywordNot => "KeywordNot"@,
        TokenType::KeywordClass => "KeywordClass"@,
        TokenType::KeywordImport => "KeywordImport"@,
        TokenType::Plus => "Plus"@,
        TokenType::Minus => "Minus"@,
        TokenType::Star => "Star"@,
        TokenType::Slash => "Slash"@,
        TokenType::Percent => "Percent"@,
        TokenType::Power => "Power"@,
        TokenType::Equals => "Equals"@,
        TokenType::EqualsEquals => "EqualsEquals"@,
        TokenType::NotEquals => "NotEquals"@,
        TokenType::LessThan => "LessThan"@,
        TokenType::GreaterThan => "GreaterThan"@,
        TokenType::LessEquals => "LessEquals"@,
        TokenType::GreaterEquals => "GreaterEquals"@,
        TokenType::PlusEquals => "PlusEquals"@,
        TokenType::MinusEquals => "MinusEquals"@,
        TokenType::StarEquals => "StarEquals"@,
        TokenType::SlashEquals => "SlashEquals"@,
        TokenType::LParen => "LParen"@,
        TokenType::RParen => "RParen"@,
        TokenType::LBrace => "LBrace"@,
        TokenType::RBrace => "RBrace"@,
        TokenType::LBracket => "LBracket"@,
        TokenType::RBracket => "RBracket"@,
        TokenType::Comma => "Comma"@,
        TokenType::Dot => "Dot"@,
        TokenType::Colon => "Colon"@,
        TokenType::Semicolon => "Semicolon"@,
        TokenType::Arrow => "Arrow"@,
        TokenType::Newline => "Newline"@,
        TokenType::Eof => "Eof"@,
    }
}

impl TokenType {
    /// The name of this kind, as error messages print it.
    pub fn name(&self) -> (s: &'static str)
        ensures
            s@ == kind_name(*self),
    {
        match self {
            TokenType::Number => "Number",
            TokenType::String => "String",
            TokenType::Identifier => "Identifier",
            TokenType::KeywordLet => "KeywordLet",
            TokenType::KeywordFunc => "KeywordFunc",
            TokenType::KeywordIf => "KeywordIf",
            TokenType::KeywordElse => "KeywordElse",
            TokenType::KeywordElif => "KeywordElif",
            TokenType::KeywordWhile => "KeywordWhile",
            TokenType::KeywordFor => "KeywordFor",
            TokenType::KeywordIn => "KeywordIn",
            TokenType::KeywordReturn => "KeywordReturn",
            TokenType::KeywordBreak => "KeywordBreak",
            TokenType::KeywordContinue => "KeywordContinue",
            TokenType::KeywordTrue => "KeywordTrue",
            TokenType::KeywordFalse => "KeywordFalse",
            TokenType::KeywordNull => "KeywordNull",
            TokenType::KeywordAnd => "KeywordAnd",
            TokenType::KeywordOr => "KeywordOr",
            TokenType::KeywordNot => "KeywordNot",
            TokenType::KeywordClass => "KeywordClass",
            TokenType::KeywordImport => "KeywordImport",
            TokenType::Plus => "Plus",
            TokenType::Minus => "Minus",
            TokenType::Star => "Star",
            TokenType::Slash => "Slash",
            TokenType::Percent => "Percent",
            TokenType::Power => "Power",
            TokenType::Equals => "Equals",
            TokenType::EqualsEquals => "EqualsEquals",
            TokenType::NotEquals => "NotEquals",
            TokenType::LessThan => "LessThan",
            TokenType::GreaterThan => "GreaterThan",
            TokenType::LessEquals => "LessEquals",
            TokenType::GreaterEquals => "GreaterEquals",
            TokenType::PlusEquals => "PlusEquals",
            TokenType::MinusEquals => "MinusEquals",
            TokenType::StarEquals => "StarEquals",
            TokenType::SlashEquals => "SlashEquals",
            TokenType::LParen => "LParen",
            TokenType::RParen => "RParen",
            TokenType::LBrace => "LBrace",
            TokenType::RBrace => "RBrace",
            TokenType::LBracket => "LBracket",
            TokenType::RBracket => "RBracket",
            TokenType::Comma => "Comma",
            TokenType::Dot => "Dot",
            TokenType::Colon => "Colon",
            TokenType::Semicolon => "Semicolon",
            TokenType::Arrow => "Arrow",
            TokenType::Newline => "Newline",
            TokenType::Eof => "Eof",
        }
    }
}

/// What a token carries besides its kind. A number carries its numeral as
/// written, a run of digits with at most one `.` in it.
#[derive(Debug, Clone)]
pub enum TokenValue {
    Number(String),
    String(String),
    Identifier(String),
    Symbol(String),
    /// No payload.
    Absent,
}

/// The payload of a token as a mathematical value.
pub enum TokenValueView {
    Number(Seq<char>),
    String(Seq<char>),
    Identifier(Seq<char>),
    Symbol(Seq<char>),
    Absent,
}

impl View for TokenValue {
    type V = TokenValueView;

    open spec fn view(&self) -> TokenValueView {
        match self {
            TokenValue::Number(s) => TokenValueView::Number(s@),
            TokenValue::String(s) => TokenValueView::String(s@),
            TokenValue::Identifier(s) => TokenValueView::Identifier(s@),
            TokenValue::Symbol(s) => TokenValueView::Symbol(s@),
            TokenValue::Absent => TokenValueView::Absent,
        }
    }
}

/// A token: its kind, its payload, and the line and column of its first
/// character, both counted from one.
#[derive(Debug, Clone)]
pub struct Token {
    pub token_type: TokenType,
    pub value: TokenValue,
    pub line: usize,
    pub column: usize,
}

/// A token as a mathematical value.
pub struct TokenView {
    pub token_type: TokenType,
    pub value: TokenValueView,
    pub line: nat,
    pub column: nat,
}

impl View for Token {
    type V = TokenView;

    open spec fn view(&self) -> TokenView {
        TokenView {
            token_type: self.token_type,
            value: self.value@,
            line: self.line as nat,
            column: self.column as nat,
        }
    }
}

/// The views of a run of tokens, in order.
pub open spec fn token_views(tokens: Seq<Token>) -> Seq<TokenView> {
    Seq::new(tokens.len(), |i: int| tokens[i]@)
}

impl Token {
    /// A token of kind `token_type` with the payload `value`.
    pub fn new(token_type: TokenType, value: TokenValue, line: usize, column: usize) -> (t: Self)
        ensures
            t.token_type == token_type,
            t.value == value,
            t.line == line,
            t.column == column,
    {
        Self { token_type, value, line, column }
    }

    /// A number token; `value` is the numeral as written.
    pub fn number(value: String, line: usize, column: usize) -> (t: Self)
        ensures
            t@ == (TokenView {
                token_type: TokenType::Number,
                value: TokenValueView::Number(value@),
                line: line as nat,
                column: column as nat,
            }),
    {
        Self::new(TokenType::Number, TokenValue::Number(value), line, column)
    }

    /// A string token; `value` is the text with its escapes decoded.
    pub fn string(value: String, line: usize, column: usize) -> (t: Self)
        ensures
            t@ == (TokenView {
                token_type: TokenType::String,
                value: TokenValueView::String(value@),
                line: line as nat,
                column: column as nat,
            }),
    {
        Self::new(TokenType::String, TokenValue::String(value), line, column)
    }

    /// An identifier token with the name `value`.
    pub fn identifier(value: String, line: usize, column: usize) -> (t: Self)
        ensures
            t@ == (TokenView {
                token_type: TokenType::Identifier,
                value: TokenValueView::Identifier(value@),
                line: line as nat,
                column: column as nat,
            }),
    {
        Self::new(TokenType::Identifier, TokenValue::Identifier(value), line, column)
    }

    /// An operator or delimiter token; `value` is how it is written.
    pub fn symbol(token_type: TokenType, value: String, line: usize, column: usize) -> (t: Self)
        ensures
            t@ == (TokenView {
                token_type,
                value: TokenValueView::Symbol(value@),
                line: line as nat,
                column: column as nat,
            }),
    {
        Self::new(token_type, TokenValue::Symbol(value), line, column)
    }

    /// A token without payload.
    pub fn simple(token_type: TokenType, line: usize, column: usize) -> (t: Self)
        ensures
            t@ == (TokenView {
                token_type,
                value: TokenValueView::Absent,
                line: line as nat,
                column: column as nat,
            }),
    {
        Self::new(token_type, TokenValue::Absent, line, column)
    }
}

/// The reserved words with the token kind of each.
pub open spec fn keyword_table() -> Seq<(Seq<char>, TokenType)> {
    seq![
        ("let"@, TokenType::KeywordLet),
        ("func"@, TokenType::KeywordFunc),
        ("if"@, TokenType::KeywordIf),
        ("else"@, TokenType::KeywordElse),
        ("elif"@, TokenType::KeywordElif),
        ("while"@, TokenType::KeywordWhile),
        ("for"@, TokenType::KeywordFor),
        ("in"@, TokenType::KeywordIn),
        ("return"@, TokenType::KeywordReturn),
        ("break"@, TokenType::KeywordBreak),
        ("continue"@, TokenType::KeywordContinue),
        ("true"@, TokenType::KeywordTrue),
        ("false"@, TokenType::KeywordFalse),
        ("null"@, TokenType::KeywordNull),
        ("and"@, TokenType::KeywordAnd),
        ("or"@, TokenType::KeywordOr),
        ("not"@, TokenType::KeywordNot),
        ("class"@, TokenType::KeywordClass),
        ("import"@, TokenType::KeywordImport),
    ]
}

/// The kind that the first entry for `word` in `table` gives, if any.
pub open spec fn lookup(table: Seq<(Seq<char>, TokenType)>, word: Seq<char>) -> Option<TokenType>
    decreases table.len(),
{
    if table.len() == 0 {
        None
    } else if table[0].0 == word {
        Some(table[0].1)
    } else {
        lookup(table.drop_first(), word)
    }
}

/// The keyword kind of `word`, or `None` where it is no reserved word.
pub open spec fn keyword_of(word: Seq<char>) -> Option<TokenType> {
    lookup(keyword_table(), word)
}

/// A keyword table as a mathematical value.
pub open spec fn table_view(table: Seq<(String, TokenType)>) -> Seq<(Seq<char>, TokenType)> {
    Seq::new(table.len(), |i: int| (table[i].0@, table[i].1))
}

/// The reserved words of the language, each with its token kind.
pub fn create_keywords_map() -> (keywords: Vec<(String, TokenType)>)
    ensures
        table_view(keywords@) == keyword_table(),
{
    let mut keywords: Vec<(String, TokenType)> = Vec::new();
    keywords.push((String::from_str("let"), TokenType::KeywordLet));
    keywords.push((String::from_str("func"), TokenType::KeywordFunc));
    keywords.push((String::from_str("if"), TokenType::KeywordIf));
    keywords.push((String::from_str("else"), TokenType::KeywordElse));
    keywords.push((String::from_str("elif"), TokenType::KeywordElif));
    keywords.push((String::from_str("while"), TokenType::KeywordWhile));
    keywords.push((String::from_str("for"), TokenType::KeywordFor));
    keywords.push((String::from_str("in"), TokenType::KeywordIn));
    keywords.push((String::from_str("return"), TokenType::KeywordReturn));
    keywords.push((String::from_str("break"), TokenType::KeywordBreak));
    keywords.push((String::from_str("continue"), TokenType::KeywordContinue));
    keywords.push((String::from_str("true"), TokenType::KeywordTrue));
    keywords.push((String::from_str("false"), TokenType::KeywordFalse));
    keywords.push((String::from_str("null"), TokenType::KeywordNull));
    keywords.push((String::from_str("and"), TokenType::KeywordAnd));
    keywords.push((String::from_str("or"), TokenType::KeywordOr));
    keywords.push((String::from_str("not"), TokenType::KeywordNot));
    keywords.push((String::from_str("class"), TokenType::KeywordClass));
    keywords.push((String::from_str("import"), TokenType::KeywordImport));
    assert(table_view(keywords@) =~= keyword_table());
    keywords
}

/// Looks `word` up in a keyword table.
pub fn find_keyword(table: &Vec<(String, TokenType)>, word: &String) -> (found: Option<TokenType>)
    ensures
        found == lookup(table_view(table@), word@),
{
    let mut i: usize = 0;
    assert(table_view(table@).subrange(0, table.len() as int) =~= table_view(table@));
    while i < table.len()
        invariant
            i <= table.len(),
            lookup(table_view(table@), word@) == lookup(
                table_view(table@).subrange(i as int, table.len() as int),
                word@,
            ),
        decreases table.len() - i,
    {
        let ghost rest = table_view(table@).subrange(i as int, table.len() as int);
        assert(rest[0] == (table@[i as int].0@, table@[i as int].1));
        if table[i].0 == *word {
            return Some(table[i].1);
        }
        assert(rest.drop_first() =~= table_view(table@).subrange(i as int + 1, table.len() as int));
        i += 1;
    }
    assert(table_view(table@).subrange(i as int, table.len() as int).len() == 0);
    None
}

} // verus!
