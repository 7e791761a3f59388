use yp::ast::{Grammar, Quantifier, RuleKind};
use yp::ast_meta::N;
use yp::lexer::{LexErrorKind, Lexer};
use yp::parser::{ParseError, ParseErrorKind, Parser};
use yp::span::Span;
use yp::token::Token;

fn parser_for(src: &str) -> Parser {
    let parser = Parser::new(Lexer::new(src)).unwrap();
    assert!(parser.has_room());
    parser
}

fn parse(src: &str) -> Result<N<Grammar>, ParseError> {
    parser_for(src).parse_grammar()
}

#[test]
fn point_is_a_normal_rule_with_two_fields() {
    let g = parse("point : x = ident y = ident ;").unwrap();
    assert_eq!(g.t.rules.len(), 1);
    let rule = &g.t.rules[0];
    assert_eq!(rule.t.name.t.to_str(), "point");
    assert!(rule.t.attrs.is_empty());
    let body = match &rule.t.kind {
        RuleKind::Normal(b) => b,
        RuleKind::Enum(_) => panic!("a normal rule was expected"),
    };
    assert_eq!(body.t.body.len(), 2);
    let x = &body.t.body[0];
    assert_eq!(x.t.name.as_ref().unwrap().t.to_str(), "x");
    assert_eq!(x.t.nt.t.to_str(), "ident");
    assert!(x.t.quantifier.is_none());
    let y = &body.t.body[1];
    assert_eq!(y.t.name.as_ref().unwrap().t.to_str(), "y");
    assert_eq!(y.t.nt.t.to_str(), "ident");
    assert!(!y.t.has_many());
}

#[test]
fn spans_cover_the_tokens_read() {
    let g = parse("point : x = ident y = ident ;").unwrap();
    let rule = &g.t.rules[0];
    assert_eq!(g.span, Span::new(0, 29));
    assert_eq!(rule.span, Span::new(0, 29));
    assert_eq!(rule.t.name.span, Span::new(0, 5));
    let body = match &rule.t.kind {
        RuleKind::Normal(b) => b,
        RuleKind::Enum(_) => panic!("a normal rule was expected"),
    };
    assert_eq!(body.span, Span::new(8, 27));
    assert_eq!(body.t.body[0].span, Span::new(8, 17));
    assert_eq!(body.t.body[1].span, Span::new(18, 27));
    assert_eq!(body.t.body[1].t.nt.span, Span::new(22, 27));
}

#[test]
fn node_ids_are_given_in_the_order_in_which_nodes_are_finished() {
    let mut parser = parser_for("point : x = ident y = ident ;");
    let g = parser.parse_grammar().unwrap();
    let rule = &g.t.rules[0];
    let body = match &rule.t.kind {
        RuleKind::Normal(b) => b,
        RuleKind::Enum(_) => panic!("a normal rule was expected"),
    };
    assert_eq!(rule.t.name.id.index(), 0);
    assert_eq!(body.t.body[0].t.name.as_ref().unwrap().id.index(), 1);
    assert_eq!(body.t.body[0].t.nt.id.index(), 2);
    assert_eq!(body.t.body[0].id.index(), 3);
    assert_eq!(body.t.body[1].t.name.as_ref().unwrap().id.index(), 4);
    assert_eq!(body.t.body[1].t.nt.id.index(), 5);
    assert_eq!(body.t.body[1].id.index(), 6);
    assert_eq!(body.id.index(), 7);
    assert_eq!(rule.id.index(), 8);
    assert_eq!(g.id.index(), 9);
    assert_eq!(parser.next_node_id(), 10);
    assert!(parser.eof());
}

#[test]
fn list_has_a_sequence_field() {
    let g = parse("list : items = item * ;").unwrap();
    let rule = &g.t.rules[0];
    let body = match &rule.t.kind {
        RuleKind::Normal(b) => b,
        RuleKind::Enum(_) => panic!("a normal rule was expected"),
    };
    assert_eq!(body.t.body.len(), 1);
    let e = &body.t.body[0];
    assert_eq!(e.t.name.as_ref().unwrap().t.to_str(), "items");
    assert_eq!(e.t.nt.t.to_str(), "item");
    assert_eq!(e.t.quantifier.as_ref().unwrap().t, Quantifier::Multi);
    assert!(e.t.has_many());
}

#[test]
fn boxed_rule_keeps_its_attribute() {
    let g = parse("@box expr : lhs = expr rhs = expr ;").unwrap();
    let rule = &g.t.rules[0];
    assert_eq!(rule.t.attrs.len(), 1);
    assert_eq!(rule.t.attrs[0].t.to_str(), "box");
    assert_eq!(rule.t.attrs[0].span, Span::new(0, 4));
    assert_eq!(rule.t.name.t.to_str(), "expr");
}

#[test]
fn enum_rule_with_unit_and_field_variants() {
    let g = parse("stmt : #Empty | x = ident #Value ;").unwrap();
    let rule = &g.t.rules[0];
    assert_eq!(rule.t.name.t.to_str(), "stmt");
    let alts = match &rule.t.kind {
        RuleKind::Enum(a) => a,
        RuleKind::Normal(_) => panic!("an enum rule was expected"),
    };
    assert_eq!(alts.len(), 2);
    assert_eq!(alts[0].t.name.t.to_str(), "Empty");
    assert!(alts[0].t.body.is_none());
    assert_eq!(alts[1].t.name.t.to_str(), "Value");
    let body = alts[1].t.body.as_ref().unwrap();
    assert_eq!(body.t.body.len(), 1);
    assert_eq!(body.t.body[0].t.name.as_ref().unwrap().t.to_str(), "x");
    assert_eq!(body.t.body[0].t.nt.t.to_str(), "ident");
    assert_eq!(alts[0].span, Span::new(0, 13));
    assert_eq!(alts[1].span, Span::new(16, 32));
}

#[test]
fn enum_rule_whose_first_alternative_has_a_body() {
    let g = parse("e : a b ? #ab | #none | c + #cs ;").unwrap();
    let alts = match &g.t.rules[0].t.kind {
        RuleKind::Enum(a) => a,
        RuleKind::Normal(_) => panic!("an enum rule was expected"),
    };
    assert_eq!(alts.len(), 3);
    assert_eq!(alts[0].t.name.t.to_str(), "ab");
    let first = alts[0].t.body.as_ref().unwrap();
    assert_eq!(first.t.body.len(), 2);
    assert!(first.t.body[0].t.name.is_none());
    assert_eq!(first.t.body[1].t.quantifier.as_ref().unwrap().t, Quantifier::Maybe);
    assert!(alts[1].t.body.is_none());
    let last = alts[2].t.body.as_ref().unwrap();
    assert_eq!(last.t.body[0].t.quantifier.as_ref().unwrap().t, Quantifier::AtLeastOne);
    assert!(last.t.body[0].t.has_many());
}

#[test]
fn several_rules_are_read_in_order() {
    let g = parse("a : b ;\n@box @x c : d * ;").unwrap();
    assert_eq!(g.t.rules.len(), 2);
    assert_eq!(g.t.rules[0].t.name.t.to_str(), "a");
    assert_eq!(g.t.rules[1].t.name.t.to_str(), "c");
    assert_eq!(g.t.rules[1].t.attrs.len(), 2);
    assert_eq!(g.t.rules[1].t.attrs[1].t.to_str(), "x");
}

#[test]
fn white_space_never_reaches_the_parser() {
    let parser = parser_for(" a :\n\tb ;\r\n");
    let kinds: Vec<Token> = parser.tokens().iter().map(|t| t.tok).collect();
    assert_eq!(kinds, vec![Token::Ident, Token::Colon, Token::Ident, Token::Semicolon]);
}

#[test]
fn empty_input_is_the_end_of_input() {
    let err = parse("").unwrap_err();
    assert!(matches!(err.kind, ParseErrorKind::Eof));
    assert!(err.span.is_none());
    let err = parse("  \n").unwrap_err();
    assert!(matches!(err.kind, ParseErrorKind::Eof));
}

#[test]
fn lexical_error_stops_before_parsing() {
    let err = Parser::new(Lexer::new("a : 1 ;")).unwrap_err();
    assert!(err.span.is_none());
    match err.kind {
        ParseErrorKind::LexError(e) => {
            assert_eq!(e.kind, LexErrorKind::NameStartWithDigit('1'));
            assert_eq!(e.span, Span::new(4, 5));
        }
        _ => panic!("a lexical error was expected"),
    }
}

#[test]
fn missing_colon_is_an_unexpected_token() {
    let err = parse("a b ;").unwrap_err();
    match err.kind {
        ParseErrorKind::UnexpectedToken(expected, Some(found)) => {
            assert_eq!(expected, Token::Colon);
            assert_eq!(found.tok, Token::Ident);
            assert_eq!(found.span, Span::new(2, 3));
        }
        _ => panic!("an unexpected token was expected"),
    }
    assert_eq!(err.span, Some(Span::new(2, 3)));
}

#[test]
fn missing_token_at_the_end_is_found_none() {
    let err = parse("a").unwrap_err();
    assert!(matches!(err.kind, ParseErrorKind::UnexpectedToken(Token::Colon, None)));
    assert!(err.span.is_none());
    let err = parse("a : b").unwrap_err();
    assert!(matches!(err.kind, ParseErrorKind::UnexpectedToken(Token::Semicolon, None)));
}

#[test]
fn wrong_start_of_a_right_hand_side_names_what_could_come() {
    let err = parse("a : ;").unwrap_err();
    match err.kind {
        ParseErrorKind::UnexpectedTokenMulti(expected, Some(found)) => {
            assert_eq!(expected, vec![Token::NumSign, Token::Ident]);
            assert_eq!(found.tok, Token::Semicolon);
        }
        _ => panic!("a list of expected tokens was expected"),
    }
}

#[test]
fn wrong_token_after_first_alternative_names_what_could_come() {
    let err = parse("a : #x b").unwrap_err();
    match err.kind {
        ParseErrorKind::UnexpectedTokenMulti(expected, Some(found)) => {
            assert_eq!(expected, vec![Token::Alt, Token::Semicolon]);
            assert_eq!(found.tok, Token::Ident);
        }
        _ => panic!("a list of expected tokens was expected"),
    }
}

#[test]
fn separator_without_an_element_is_reported() {
    let err = parse("a : #x | #y | ;").unwrap_err();
    match err.kind {
        ParseErrorKind::DuplicatedSepOrParseError(sep, inner) => {
            assert_eq!(sep, Token::Alt);
            assert!(matches!(
                inner.kind,
                ParseErrorKind::UnexpectedToken(Token::NumSign, Some(_))
            ));
        }
        _ => panic!("a dangling separator was expected"),
    }
}

#[test]
fn first_alternative_after_a_bar_fails_as_itself() {
    let err = parse("a : #x | ;").unwrap_err();
    assert!(matches!(err.kind, ParseErrorKind::UnexpectedToken(Token::NumSign, Some(_))));
}

#[test]
fn attribute_in_place_of_a_name_fails_the_parse() {
    let err = parse("r : x = @weird ;").unwrap_err();
    match err.kind {
        ParseErrorKind::UnexpectedToken(expected, Some(found)) => {
            assert_eq!(expected, Token::Ident);
            assert_eq!(found.tok, Token::Attr);
            assert_eq!(found.span, Span::new(8, 14));
        }
        _ => panic!("an unexpected token was expected"),
    }
}

#[test]
fn failed_element_leaves_the_cursor_where_it_was() {
    let mut parser = parser_for("a = ;");
    let before = parser.position();
    let err = parser.parse_rule_element().unwrap_err();
    assert!(matches!(err.kind, ParseErrorKind::UnexpectedToken(Token::Ident, Some(_))));
    assert_eq!(parser.position(), before);
    assert_eq!(parser.next_node_id(), 1);
}

#[test]
fn failed_rule_leaves_the_cursor_where_it_was() {
    let mut parser = parser_for("x : y ; a : b c d");
    parser.parse_rule().unwrap();
    let before = parser.position();
    assert_eq!(before, 4);
    let ids = parser.next_node_id();
    assert!(parser.parse_rule().is_err());
    assert_eq!(parser.position(), before);
    assert!(parser.next_node_id() > ids);
}

#[test]
fn failed_alternative_leaves_the_cursor_where_it_was() {
    let mut parser = parser_for("a b c ;");
    assert!(parser.parse_named_rule_body().is_err());
    assert_eq!(parser.position(), 0);
    assert_eq!(parser.next_node_id(), 7);
}

#[test]
fn single_parsers_read_one_node() {
    let mut parser = parser_for("@box a ? b");
    let attr = parser.parse_attr().unwrap();
    assert_eq!(attr.t.to_str(), "box");
    assert_eq!(attr.id.index(), 0);
    assert!(parser.parse_attr().is_err());
    let e = parser.parse_rule_element().unwrap();
    assert_eq!(e.t.nt.t.to_str(), "a");
    assert_eq!(e.t.quantifier.as_ref().unwrap().t, Quantifier::Maybe);
    assert_eq!(e.span, Span::new(5, 8));
    let q = parser.parse_quantifier().unwrap_err();
    match q.kind {
        ParseErrorKind::UnexpectedTokenMulti(expected, Some(_)) => {
            assert_eq!(expected, vec![Token::Question, Token::Asterisk, Token::Plus]);
        }
        _ => panic!("a list of expected tokens was expected"),
    }
    let id = parser.parse_ident().unwrap();
    assert_eq!(id.t.to_str(), "b");
    assert!(matches!(parser.parse_ident().unwrap_err().kind, ParseErrorKind::Eof));
    assert!(matches!(parser.parse_rule_body().unwrap_err().kind, ParseErrorKind::Eof));
}

#[test]
fn node_ids_rise_across_a_parse() {
    let g = parse("@box a : b c ? #x | d #y | #z ;\nq : a * ;").unwrap();
    let mut ids: Vec<usize> = Vec::new();
    for rule in &g.t.rules {
        for a in &rule.t.attrs {
            ids.push(a.id.index());
        }
        ids.push(rule.t.name.id.index());
        match &rule.t.kind {
            RuleKind::Enum(alts) => {
                for alt in alts {
                    if let Some(b) = &alt.t.body {
                        for e in &b.t.body {
                            if let Some(n) = &e.t.name {
                                ids.push(n.id.index());
                            }
                            ids.push(e.t.nt.id.index());
                            if let Some(q) = &e.t.quantifier {
                                ids.push(q.id.index());
                            }
                            ids.push(e.id.index());
                        }
                        ids.push(b.id.index());
                    }
                    ids.push(alt.t.name.id.index());
                    ids.push(alt.id.index());
                }
            }
            RuleKind::Normal(b) => {
                for e in &b.t.body {
                    if let Some(n) = &e.t.name {
                        ids.push(n.id.index());
                    }
                    ids.push(e.t.nt.id.index());
                    if let Some(q) = &e.t.quantifier {
                        ids.push(q.id.index());
                    }
                    ids.push(e.id.index());
                }
                ids.push(b.id.index());
            }
        }
        ids.push(rule.id.index());
    }
    ids.push(g.id.index());
    for w in ids.windows(2) {
        assert!(w[0] < w[1], "{:?}", ids);
    }
}

#[test]
fn nodes_are_compared_by_their_payload() {
    let g = parse("a : b ;\nc : b ;").unwrap();
    let first = match &g.t.rules[0].t.kind {
        RuleKind::Normal(b) => &b.t.body[0].t.nt,
        RuleKind::Enum(_) => panic!("a normal rule was expected"),
    };
    let second = match &g.t.rules[1].t.kind {
        RuleKind::Normal(b) => &b.t.body[0].t.nt,
        RuleKind::Enum(_) => panic!("a normal rule was expected"),
    };
    assert_ne!(first.span, second.span);
    assert_ne!(first.id, second.id);
    assert!(first == second);
    assert!(g.t.rules[0].t.name != g.t.rules[1].t.name);
    assert_eq!(first.get().to_str(), "b");
}
