use rlox::loxerr::{error, parse_error};
use rlox::respell::{rescans_alike, respell};
use rlox::scanner::{is_alpha, is_alpha_numeric, is_digit, keyword_or_identifier, Scanner};
use rlox::text::{same_text, spells};
use rlox::token::{Token, TokenType};

fn scan(source: &str) -> (Vec<(TokenType, String, usize)>, Vec<String>, bool) {
    let mut scanner = Scanner::new(source);
    let tokens: Vec<(TokenType, String, usize)> = scanner
        .scan_tokens()
        .iter()
        .map(|t| (t.token_type, t.lexeme.clone(), t.line))
        .collect();
    (tokens, scanner.errors().clone(), scanner.has_error())
}

fn kinds(source: &str) -> Vec<TokenType> {
    scan(source).0.into_iter().map(|t| t.0).collect()
}

fn lexemes(source: &str) -> Vec<String> {
    scan(source).0.into_iter().map(|t| t.1).collect()
}

#[test]
fn empty_source_gives_eof_alone() {
    let (tokens, errors, failed) = scan("");
    assert_eq!(tokens, vec![(TokenType::Eof, String::new(), 1)]);
    assert!(errors.is_empty());
    assert!(!failed);
}

#[test]
fn punctuation_is_one_token_each() {
    assert_eq!(
        kinds("(){},.-+;*/"),
        vec![
            TokenType::LeftParen,
            TokenType::RightParen,
            TokenType::LeftBrace,
            TokenType::RightBrace,
            TokenType::Comma,
            TokenType::Dot,
            TokenType::Minus,
            TokenType::Plus,
            TokenType::Semicolon,
            TokenType::Star,
            TokenType::Slash,
            TokenType::Eof,
        ]
    );
}

#[test]
fn operators_take_a_trailing_equal() {
    assert_eq!(
        kinds("! != = == < <= > >="),
        vec![
            TokenType::Bang,
            TokenType::BangEqual,
            TokenType::Equal,
            TokenType::EqualEqual,
            TokenType::Less,
            TokenType::LessEqual,
            TokenType::Greater,
            TokenType::GreaterEqual,
            TokenType::Eof,
        ]
    );
    assert_eq!(lexemes("a>=b"), vec!["a", ">=", "b", ""]);
    assert_eq!(kinds("==="), vec![TokenType::EqualEqual, TokenType::Equal, TokenType::Eof]);
}

#[test]
fn comment_runs_to_the_end_of_the_line() {
    let (tokens, errors, _) = scan("a // b c\nd");
    assert_eq!(
        tokens,
        vec![
            (TokenType::Identifier, "a".to_string(), 1),
            (TokenType::Identifier, "d".to_string(), 2),
            (TokenType::Eof, String::new(), 2),
        ]
    );
    assert!(errors.is_empty());
    assert_eq!(kinds("// only a comment"), vec![TokenType::Eof]);
}

#[test]
fn whitespace_is_skipped_and_lines_are_counted() {
    let (tokens, _, _) = scan(" \t\r\n\n  x\n");
    assert_eq!(
        tokens,
        vec![(TokenType::Identifier, "x".to_string(), 3), (TokenType::Eof, String::new(), 4)]
    );
}

#[test]
fn string_lexeme_is_the_text_between_the_quotes() {
    let (tokens, errors, _) = scan("\"hi there\"");
    assert_eq!(
        tokens,
        vec![
            (TokenType::StringLiteral, "hi there".to_string(), 1),
            (TokenType::Eof, String::new(), 1),
        ]
    );
    assert!(errors.is_empty());
    assert_eq!(lexemes("\"\""), vec!["", ""]);
}

#[test]
fn string_may_span_lines() {
    let (tokens, _, _) = scan("\"a\nb\" c");
    assert_eq!(
        tokens,
        vec![
            (TokenType::StringLiteral, "a\nb".to_string(), 2),
            (TokenType::Identifier, "c".to_string(), 2),
            (TokenType::Eof, String::new(), 2),
        ]
    );
}

#[test]
fn unterminated_string_is_reported_and_gives_no_token() {
    let (tokens, errors, failed) = scan("a \"open\nstill");
    assert_eq!(
        tokens,
        vec![(TokenType::Identifier, "a".to_string(), 1), (TokenType::Eof, String::new(), 2)]
    );
    assert_eq!(errors, vec!["[line 2] Error: Unterminated string."]);
    assert!(failed);
}

#[test]
fn numbers_take_a_fraction_only_before_a_digit() {
    assert_eq!(lexemes("12 3.25 7. .5 1.2.3"), vec![
        "12", "3.25", "7", ".", ".", "5", "1.2", ".", "3", ""
    ]);
    assert_eq!(
        kinds("7."),
        vec![TokenType::Number, TokenType::Dot, TokenType::Eof]
    );
}

#[test]
fn words_are_keywords_or_identifiers() {
    assert_eq!(
        kinds("and class else false for fun if nil or print return super this true var while"),
        vec![
            TokenType::And,
            TokenType::Class,
            TokenType::Else,
            TokenType::False,
            TokenType::For,
            TokenType::Fun,
            TokenType::If,
            TokenType::Nil,
            TokenType::Or,
            TokenType::Print,
            TokenType::Return,
            TokenType::Super,
            TokenType::This,
            TokenType::True,
            TokenType::Var,
            TokenType::While,
            TokenType::Eof,
        ]
    );
    assert_eq!(
        kinds("andy _x x1 classy For"),
        vec![
            TokenType::Identifier,
            TokenType::Identifier,
            TokenType::Identifier,
            TokenType::Identifier,
            TokenType::Identifier,
            TokenType::Eof,
        ]
    );
    assert_eq!(keyword_or_identifier("while"), TokenType::While);
    assert_eq!(keyword_or_identifier("whil"), TokenType::Identifier);
    assert_eq!(keyword_or_identifier(""), TokenType::Identifier);
}

#[test]
fn unexpected_character_is_reported_and_scanning_goes_on() {
    let (tokens, errors, failed) = scan("a @ b\n#");
    assert_eq!(
        tokens,
        vec![
            (TokenType::Identifier, "a".to_string(), 1),
            (TokenType::Identifier, "b".to_string(), 1),
            (TokenType::Eof, String::new(), 2),
        ]
    );
    assert_eq!(
        errors,
        vec!["[line 1] Error: Unexpected character @", "[line 2] Error: Unexpected character #"]
    );
    assert!(failed);
}

#[test]
fn characters_beyond_ascii_are_single_characters() {
    let (tokens, errors, _) = scan("\"häé\" ü x");
    assert_eq!(
        tokens,
        vec![
            (TokenType::StringLiteral, "häé".to_string(), 1),
            (TokenType::Identifier, "x".to_string(), 1),
            (TokenType::Eof, String::new(), 1),
        ]
    );
    assert_eq!(errors, vec!["[line 1] Error: Unexpected character ü"]);
}

#[test]
fn scanning_again_adds_another_eof() {
    let mut scanner = Scanner::new("x");
    assert_eq!(scanner.scan_tokens().len(), 2);
    assert_eq!(scanner.scan_tokens().len(), 3);
}

#[test]
fn character_classes() {
    assert!(is_digit('0') && is_digit('9') && !is_digit('a') && !is_digit('/'));
    assert!(is_alpha('a') && is_alpha('Z') && is_alpha('_') && !is_alpha('1') && !is_alpha('é'));
    assert!(is_alpha_numeric('a') && is_alpha_numeric('7') && !is_alpha_numeric('-'));
}

#[test]
fn lexemes_joined_by_spaces_scan_to_the_same_tokens() {
    let source = "var x1=3.5;// note\nif(x1>=2 and!done){print x1/2;}\n fun f(a,b){return a==b;}";
    let first = scan(source).0;
    let joined: String = first.iter().map(|t| format!("{} ", t.1)).collect();
    let second = scan(&joined).0;
    let strip =
        |tokens: &Vec<(TokenType, String, usize)>| -> Vec<(TokenType, String)> {
            tokens.iter().map(|t| (t.0, t.1.clone())).collect()
        };
    assert_eq!(strip(&first), strip(&second));
    assert_eq!(first.len(), 36);
}

#[test]
fn reports_carry_the_line_in_decimal() {
    assert_eq!(error(1, "Unterminated string."), "[line 1] Error: Unterminated string.");
    assert_eq!(error(0, "m"), "[line 0] Error: m");
    assert_eq!(error(10, "m"), "[line 10] Error: m");
    assert_eq!(error(4096, ""), "[line 4096] Error: ");
    assert_eq!(error(1234567890, "x"), "[line 1234567890] Error: x");
}

#[test]
fn parse_reports_point_at_the_token_or_the_end() {
    let token = Token::new(TokenType::Identifier, "name", 7);
    assert_eq!(parse_error(&token, "Expect ';'."), "[line 7] Error at 'name': Expect ';'.");
    let end = Token::new(TokenType::Eof, "", 12);
    assert_eq!(parse_error(&end, "Expect expression."), "[line 12] Error at end: Expect expression.");
}

#[test]
fn tokens_written_out_with_quotes_scan_to_the_same_tokens() {
    let source = "var s=\"two words\";print s+\"\"+\"line\nbreak\";// done\n@ \"open";
    let (first, errors, _) = scan(source);
    assert_eq!(errors.len(), 2);
    let written: String = first
        .iter()
        .map(|t| match t.0 {
            TokenType::Eof => String::new(),
            TokenType::StringLiteral => format!("\"{}\" ", t.1),
            _ => format!("{} ", t.1),
        })
        .collect();
    let (second, errors, failed) = scan(&written);
    assert!(errors.is_empty() && !failed);
    let strip =
        |tokens: &Vec<(TokenType, String, usize)>| -> Vec<(TokenType, String)> {
            tokens.iter().map(|t| (t.0, t.1.clone())).collect()
        };
    assert_eq!(strip(&first), strip(&second));
    assert_eq!(first.len(), 13);
}

#[test]
fn string_lexemes_alone_do_not_scan_back() {
    let first = scan("\"a b\"").0;
    let joined: String = first.iter().map(|t| format!("{} ", t.1)).collect();
    let second = scan(&joined).0;
    assert_eq!(first.len(), 2);
    assert_eq!(second.len(), 3);
    assert_eq!(second[0].0, TokenType::Identifier);
}

#[test]
fn texts_are_compared_character_by_character() {
    assert!(same_text("", ""));
    assert!(same_text("init", "init"));
    assert!(!same_text("init", "inif"));
    assert!(!same_text("init", "ini"));
    assert!(!same_text("a", ""));
    assert!(same_text("häé", "häé"));
    let word: Vec<char> = "while".chars().collect();
    assert!(spells(&word, "while"));
    assert!(!spells(&word, "whale"));
    assert!(!spells(&word, "whil"));
    assert!(!spells(&word, "whiles"));
    assert!(spells(&Vec::new(), ""));
    let accented: Vec<char> = "é1".chars().collect();
    assert!(spells(&accented, "é1"));
    assert!(!spells(&accented, "e1"));
}

#[test]
fn respelled_tokens_scan_to_the_same_tokens() {
    let source = "class A<B{init(x){this.s=\"a \\ b\";}}// c\nprint 1.5>=-2 or!\"\";\n\"open";
    let mut first = Scanner::new(source);
    let tokens = first.scan_tokens().clone();
    let written = respell(&tokens);
    assert_eq!(
        written,
        "class A < B { init ( x ) { this . s = \"a \\ b\" ; } } print 1.5 >= - 2 or ! \"\" ; "
    );
    let mut second = Scanner::new(&written);
    let again = second.scan_tokens().clone();
    assert!(!second.has_error());
    assert_eq!(again.len(), tokens.len());
    for (a, b) in tokens.iter().zip(again.iter()) {
        assert_eq!(a.token_type, b.token_type);
        assert_eq!(a.lexeme, b.lexeme);
    }
}

#[test]
fn every_source_scans_alike_when_respelled() {
    for source in [
        "",
        "a",
        "\"\"",
        "\"two words\" + 1.5 // note",
        "var x=1;{x=x+1;}\n@#\n\"unterminated",
        "1.2.3 ... a.b!=c==d<=e>=f<g>h!i=j/k",
        "\"line\nbreak\" é \"é\"",
    ] {
        assert!(rescans_alike(source), "{}", source);
    }
}
