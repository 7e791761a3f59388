use yp::lexer::{is_digit, is_digit_letter, is_letter, LexErrorKind, Lexer};
use yp::span::Span;
use yp::token::{Token, Whitespace};

#[test]
fn character_classes() {
    assert!(is_digit('0'));
    assert!(is_digit('9'));
    assert!(!is_digit('a'));
    assert!(is_letter('a'));
    assert!(is_letter('Z'));
    assert!(is_letter('_'));
    assert!(!is_letter('1'));
    assert!(is_digit_letter('1'));
    assert!(is_digit_letter('x'));
    assert!(!is_digit_letter('-'));
}

#[test]
fn punctuation_maps_to_single_tokens() {
    let mut lexer = Lexer::new("?+*:;#|=");
    let toks = lexer.tokens().unwrap();
    let kinds: Vec<Token> = toks.iter().map(|t| t.tok).collect();
    assert_eq!(
        kinds,
        vec![
            Token::Question,
            Token::Plus,
            Token::Asterisk,
            Token::Colon,
            Token::Semicolon,
            Token::NumSign,
            Token::Alt,
            Token::Assign
        ]
    );
    for (i, t) in toks.iter().enumerate() {
        assert_eq!(t.span, Span::new(i, i + 1));
    }
}

#[test]
fn white_space_is_kept_apart() {
    let mut lexer = Lexer::new(" \n\r\t");
    let toks = lexer.tokens().unwrap();
    let kinds: Vec<Token> = toks.iter().map(|t| t.tok).collect();
    assert_eq!(
        kinds,
        vec![
            Token::Whitespace(Whitespace::Space),
            Token::Whitespace(Whitespace::Newline),
            Token::Whitespace(Whitespace::CarriageReturn),
            Token::Whitespace(Whitespace::HorizontalTab)
        ]
    );
}

#[test]
fn names_and_attributes_are_as_long_as_they_can_be() {
    let mut lexer = Lexer::new("ab_1:@box9 x");
    let toks = lexer.tokens().unwrap();
    assert_eq!(toks.len(), 5);
    assert_eq!(toks[0].tok, Token::Ident);
    assert_eq!(toks[0].span, Span::new(0, 4));
    assert_eq!(toks[1].tok, Token::Colon);
    assert_eq!(toks[2].tok, Token::Attr);
    assert_eq!(toks[2].span, Span::new(5, 10));
    assert_eq!(toks[3].tok, Token::Whitespace(Whitespace::Space));
    assert_eq!(toks[4].tok, Token::Ident);
    assert_eq!(toks[4].span, Span::new(11, 12));
}

#[test]
fn string_literal_runs_to_the_next_quote() {
    let mut lexer = Lexer::new("\"a b\"x");
    let toks = lexer.tokens().unwrap();
    assert_eq!(toks.len(), 2);
    assert_eq!(toks[0].tok, Token::LitString);
    assert_eq!(toks[0].span, Span::new(0, 5));
    assert_eq!(toks[1].tok, Token::Ident);
}

#[test]
fn unclosed_string_literal_is_an_error() {
    let mut lexer = Lexer::new("a \"bc");
    let err = lexer.tokens().unwrap_err();
    assert_eq!(err.kind, LexErrorKind::LitStringNotClosed);
    assert_eq!(err.span, Span::new(2, 5));
}

#[test]
fn digit_at_the_start_of_a_name_is_an_error() {
    let mut lexer = Lexer::new("a 1b");
    let err = lexer.tokens().unwrap_err();
    assert_eq!(err.kind, LexErrorKind::NameStartWithDigit('1'));
    assert_eq!(err.span, Span::new(2, 3));
}

#[test]
fn unknown_character_is_an_error() {
    let mut lexer = Lexer::new("a-b");
    let err = lexer.tokens().unwrap_err();
    assert_eq!(err.kind, LexErrorKind::UnknownChar('-'));
    assert_eq!(err.span, Span::new(1, 2));
}

#[test]
fn next_stops_at_the_end() {
    let mut lexer = Lexer::new("a");
    assert_eq!(lexer.next().unwrap(), Some(Token::Ident));
    assert_eq!(lexer.span(), Span::new(0, 1));
    assert_eq!(lexer.next().unwrap(), None);
    assert_eq!(lexer.next().unwrap(), None);
}

#[test]
fn token_spans_cut_the_token_text_out_of_the_source() {
    let src = "@box expr : lhs = expr rhs = expr2 * \"s\" ;";
    let chars: Vec<char> = src.chars().collect();
    let mut lexer = Lexer::new(src);
    let toks = lexer.tokens().unwrap();
    let mut at = 0;
    for t in &toks {
        assert_eq!(t.span.start(), at);
        at = t.span.end();
        let text: String = chars[t.span.start()..t.span.end()].iter().collect();
        match t.tok {
            Token::Ident => assert!(["expr", "lhs", "rhs", "expr2"].contains(&text.as_str())),
            Token::Attr => assert_eq!(text, "@box"),
            Token::LitString => assert_eq!(text, "\"s\""),
            Token::Colon => assert_eq!(text, ":"),
            Token::Assign => assert_eq!(text, "="),
            Token::Asterisk => assert_eq!(text, "*"),
            Token::Semicolon => assert_eq!(text, ";"),
            Token::Whitespace(_) => assert_eq!(text, " "),
            _ => panic!("unexpected token"),
        }
    }
    assert_eq!(at, chars.len());
}

#[test]
fn offsets_count_characters() {
    let mut lexer = Lexer::new("\"é\" a");
    let toks = lexer.tokens().unwrap();
    assert_eq!(toks[0].span, Span::new(0, 3));
    assert_eq!(toks[2].span, Span::new(4, 5));
}
