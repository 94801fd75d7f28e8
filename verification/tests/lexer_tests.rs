use laminax_kpl::errors::ErrorKind;
use laminax_kpl::token_types::{create_keywords_map, find_keyword};
use laminax_kpl::{Lexer, Token, TokenType, TokenValue};

fn tokens(source: &str) -> Vec<Token> {
    Lexer::new(source).tokenize().unwrap()
}

fn kinds(source: &str) -> Vec<TokenType> {
    tokens(source).iter().map(|t| t.token_type).collect()
}

fn places(source: &str) -> Vec<(usize, usize)> {
    tokens(source).iter().map(|t| (t.line, t.column)).collect()
}

fn text(token: &Token) -> String {
    match &token.value {
        TokenValue::Number(s) => format!("number {}", s),
        TokenValue::String(s) => format!("string {}", s),
        TokenValue::Identifier(s) => format!("identifier {}", s),
        TokenValue::Symbol(s) => format!("symbol {}", s),
        TokenValue::Absent => "nothing".to_string(),
    }
}

#[test]
fn empty_source_gives_only_eof() {
    assert_eq!(kinds(""), vec![TokenType::Eof]);
    assert_eq!(places(""), vec![(1, 1)]);
}

#[test]
fn every_token_run_ends_with_one_eof() {
    for source in ["", "   ", "# only a comment", "let x = 1\n", "a\n\nb", "f(1, 2)", "'s' + \"t\""] {
        let kinds = kinds(source);
        assert_eq!(kinds.last(), Some(&TokenType::Eof), "{:?}", source);
        assert_eq!(kinds.iter().filter(|k| **k == TokenType::Eof).count(), 1, "{:?}", source);
    }
}

#[test]
fn lone_quote_is_an_unterminated_string() {
    let error = Lexer::new("\"").tokenize().unwrap_err();
    assert_eq!(error.kind(), ErrorKind::Lexer);
    assert_eq!(error.to_string(), "Lexer error at line 1, column 1: Unterminated string");
}

#[test]
fn string_that_ends_in_a_backslash_is_unterminated() {
    let error = Lexer::new("x = 'ab\\").tokenize().unwrap_err();
    assert_eq!(error.message(), "Unterminated string");
    assert_eq!((error.line(), error.column()), (1, 5));
}

#[test]
fn number_keeps_its_numeral() {
    let tokens = tokens("12.5 7 3. 1.2.3");
    let texts: Vec<String> = tokens.iter().map(text).collect();
    assert_eq!(
        texts,
        vec!["number 12.5", "number 7", "number 3.", "number 1.2", "symbol .", "number 3", "nothing"]
    );
}

#[test]
fn lone_dot_is_no_number() {
    assert_eq!(kinds("."), vec![TokenType::Dot, TokenType::Eof]);
    assert_eq!(kinds(".5"), vec![TokenType::Dot, TokenType::Number, TokenType::Eof]);
}

#[test]
fn blanks_and_comments_are_skipped() {
    assert_eq!(
        kinds(" \t\r x # the rest of the line\n y"),
        vec![TokenType::Identifier, TokenType::Newline, TokenType::Identifier, TokenType::Eof]
    );
}

#[test]
fn comment_ends_before_the_newline() {
    assert_eq!(kinds("# a\n# b"), vec![TokenType::Newline, TokenType::Eof]);
    assert_eq!(places("# a\n# b"), vec![(1, 4), (2, 4)]);
}

#[test]
fn escapes_are_decoded() {
    let tokens = tokens(r#""a\nb\tc\rd\\e\"f\qg" 'it\'s "x"'"#);
    assert_eq!(text(&tokens[0]), "string a\nb\tc\rd\\e\"fqg");
    assert_eq!(text(&tokens[1]), "string it's \"x\"");
}

#[test]
fn newline_inside_a_string_counts_as_a_line() {
    let tokens = tokens("'a\nb' c");
    assert_eq!(text(&tokens[0]), "string a\nb");
    assert_eq!((tokens[1].line, tokens[1].column), (2, 4));
}

#[test]
fn keywords_are_told_from_identifiers() {
    let words = "let func if else elif while for in return break continue true false null and or \
                 not class import";
    let expected = vec![
        TokenType::KeywordLet,
        TokenType::KeywordFunc,
        TokenType::KeywordIf,
        TokenType::KeywordElse,
        TokenType::KeywordElif,
        TokenType::KeywordWhile,
        TokenType::KeywordFor,
        TokenType::KeywordIn,
        TokenType::KeywordReturn,
        TokenType::KeywordBreak,
        TokenType::KeywordContinue,
        TokenType::KeywordTrue,
        TokenType::KeywordFalse,
        TokenType::KeywordNull,
        TokenType::KeywordAnd,
        TokenType::KeywordOr,
        TokenType::KeywordNot,
        TokenType::KeywordClass,
        TokenType::KeywordImport,
        TokenType::Eof,
    ];
    assert_eq!(kinds(words), expected);
    assert_eq!(
        kinds("lets iff _x x1 Let"),
        vec![
            TokenType::Identifier,
            TokenType::Identifier,
            TokenType::Identifier,
            TokenType::Identifier,
            TokenType::Identifier,
            TokenType::Eof
        ]
    );
}

#[test]
fn keyword_token_carries_its_word() {
    let tokens = tokens("while");
    assert_eq!(text(&tokens[0]), "identifier while");
}

#[test]
fn identifiers_take_letters_digits_and_underscores() {
    let tokens = tokens("a_1b2 _ é2 x-y");
    let texts: Vec<String> = tokens.iter().map(text).collect();
    assert_eq!(
        texts,
        vec![
            "identifier a_1b2",
            "identifier _",
            "identifier é2",
            "identifier x",
            "symbol -",
            "identifier y",
            "nothing"
        ]
    );
}

#[test]
fn operators_take_the_longest_match() {
    assert_eq!(
        kinds("+ - * / % ** = == != < <= > >= += -= *= /= ( ) { } [ ] , . : ; ->"),
        vec![
            TokenType::Plus,
            TokenType::Minus,
            TokenType::Star,
            TokenType::Slash,
            TokenType::Percent,
            TokenType::Power,
            TokenType::Equals,
            TokenType::EqualsEquals,
            TokenType::NotEquals,
            TokenType::LessThan,
            TokenType::LessEquals,
            TokenType::GreaterThan,
            TokenType::GreaterEquals,
            TokenType::PlusEquals,
            TokenType::MinusEquals,
            TokenType::StarEquals,
            TokenType::SlashEquals,
            TokenType::LParen,
            TokenType::RParen,
            TokenType::LBrace,
            TokenType::RBrace,
            TokenType::LBracket,
            TokenType::RBracket,
            TokenType::Comma,
            TokenType::Dot,
            TokenType::Colon,
            TokenType::Semicolon,
            TokenType::Arrow,
            TokenType::Eof,
        ]
    );
    assert_eq!(
        kinds("===>=->-"),
        vec![
            TokenType::EqualsEquals,
            TokenType::Equals,
            TokenType::GreaterEquals,
            TokenType::Arrow,
            TokenType::Minus,
            TokenType::Eof
        ]
    );
    assert_eq!(kinds("***"), vec![TokenType::Power, TokenType::Star, TokenType::Eof]);
}

#[test]
fn symbol_token_carries_its_text() {
    let tokens = tokens("a <= b");
    assert_eq!(text(&tokens[1]), "symbol <=");
}

#[test]
fn lone_bang_is_refused() {
    let error = Lexer::new("a ! b").tokenize().unwrap_err();
    assert_eq!(error.to_string(), "Lexer error at line 1, column 3: Unexpected character: !");
}

#[test]
fn unknown_character_is_refused() {
    let error = Lexer::new("x = 1\n  @").tokenize().unwrap_err();
    assert_eq!(error.to_string(), "Lexer error at line 2, column 3: Unexpected character: @");
}

#[test]
fn lines_and_columns_start_at_one() {
    assert_eq!(
        places("let x = 10\n  x\r\n+ 'a'"),
        vec![(1, 1), (1, 5), (1, 7), (1, 9), (1, 11), (2, 3), (2, 5), (3, 1), (3, 3), (3, 6)]
    );
}

#[test]
fn lexer_goes_on_from_where_it_stands() {
    let mut lexer = Lexer::new("ab cd");
    assert_eq!(lexer.current_char(), Some('a'));
    assert_eq!(lexer.peek(1), Some('b'));
    assert_eq!(lexer.peek(5), None);
    lexer.advance();
    lexer.advance();
    lexer.skip_whitespace();
    assert_eq!(lexer.current_char(), Some('c'));
    let rest = lexer.tokenize().unwrap();
    assert_eq!(rest.len(), 2);
    assert_eq!((rest[0].line, rest[0].column), (1, 4));
    assert_eq!(lexer.current_char(), None);
}

#[test]
fn skip_comment_stops_at_the_newline() {
    let mut lexer = Lexer::new("# note\nx");
    lexer.skip_comment();
    assert_eq!(lexer.current_char(), Some('\n'));
    let mut other = Lexer::new("x # note");
    other.skip_comment();
    assert_eq!(other.current_char(), Some('x'));
}

#[test]
fn keyword_table_holds_the_reserved_words() {
    let table = create_keywords_map();
    assert_eq!(table.len(), 19);
    assert_eq!(find_keyword(&table, &"elif".to_string()), Some(TokenType::KeywordElif));
    assert_eq!(find_keyword(&table, &"import".to_string()), Some(TokenType::KeywordImport));
    assert_eq!(find_keyword(&table, &"print".to_string()), None);
    assert_eq!(find_keyword(&table, &"".to_string()), None);
}

#[test]
fn token_constructors_set_kind_and_payload() {
    let number = Token::number("1.5".to_string(), 2, 3);
    assert_eq!(number.token_type, TokenType::Number);
    assert_eq!(text(&number), "number 1.5");
    assert_eq!((number.line, number.column), (2, 3));
    assert_eq!(text(&Token::string("s".to_string(), 1, 1)), "string s");
    assert_eq!(text(&Token::identifier("x".to_string(), 1, 1)), "identifier x");
    let symbol = Token::symbol(TokenType::Arrow, "->".to_string(), 1, 1);
    assert_eq!(symbol.token_type, TokenType::Arrow);
    assert_eq!(text(&symbol), "symbol ->");
    let simple = Token::simple(TokenType::Newline, 4, 5);
    assert_eq!(text(&simple), "nothing");
    let made = Token::new(TokenType::KeywordIf, TokenValue::Identifier("if".to_string()), 1, 2);
    assert_eq!(made.token_type, TokenType::KeywordIf);
    assert_eq!(TokenType::GreaterEquals.name(), "GreaterEquals");
}
