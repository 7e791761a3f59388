use yp::ast::{Grammar, Ident};
use yp::ast_meta::N;
use yp::lexer::Lexer;
use yp::mir::{is_valid_ident, lower, Error};
use yp::parser::Parser;

fn parse(src: &str) -> N<Grammar> {
    let mut parser = Parser::new(Lexer::new(src)).unwrap();
    assert!(parser.has_room());
    parser.parse_grammar().unwrap()
}

fn names(set: &indexmap::IndexSet<String>) -> Vec<String> {
    set.iter().cloned().collect()
}

#[test]
fn point_refers_to_one_leaf() {
    let g = parse("point : x = ident y = ident ;");
    let mir = lower(&g).unwrap();
    assert_eq!(mir.rules.len(), 1);
    assert_eq!(names(&mir.leaf_nodes), vec!["ident".to_string()]);
    assert!(mir.reserved_nodes.is_empty());
    assert!(mir.std_primary_nodes.is_empty());
    assert!(mir.boxed_rules.is_empty());
    assert!(mir.rule("point").is_some());
    assert!(mir.rule("ident").is_none());
}

#[test]
fn boxed_rule_is_in_the_boxed_set() {
    let g = parse("@box expr : lhs = expr rhs = expr ;");
    let mir = lower(&g).unwrap();
    assert_eq!(mir.boxed_rules.len(), 1);
    assert_eq!(mir.boxed_rules[0].t.to_str(), "expr");
    assert!(mir.is_boxed(&Ident { name: "expr".to_string() }));
    assert!(!mir.is_boxed(&Ident { name: "lhs".to_string() }));
    assert!(mir.leaf_nodes.is_empty());
}

#[test]
fn references_fall_into_one_class_each() {
    let g = parse("a : b u8 string c b x = bool ;\nb : a ? string ;\nd : #v | a c #w ;");
    let mir = lower(&g).unwrap();
    assert_eq!(names(&mir.std_primary_nodes), vec!["u8".to_string(), "bool".to_string()]);
    assert_eq!(names(&mir.reserved_nodes), vec!["string".to_string()]);
    assert_eq!(names(&mir.leaf_nodes), vec!["c".to_string()]);
    for n in ["a", "b", "d"] {
        assert!(mir.rule(n).is_some());
        assert!(!mir.leaf_nodes.contains(n));
        assert!(!mir.reserved_nodes.contains(n));
        assert!(!mir.std_primary_nodes.contains(n));
    }
    for n in ["v", "w", "x"] {
        assert!(!mir.leaf_nodes.contains(n));
    }
}

#[test]
fn primitive_wins_over_rule_of_the_same_name() {
    let g = parse("u8 : string ;\nstring : u8 ;");
    let mir = lower(&g).unwrap();
    assert_eq!(names(&mir.std_primary_nodes), vec!["u8".to_string()]);
    assert_eq!(names(&mir.reserved_nodes), vec!["string".to_string()]);
    assert!(mir.leaf_nodes.is_empty());
}

#[test]
fn later_rule_of_the_same_name_is_found() {
    let g = parse("a : b ;\na : c d ;");
    let mir = lower(&g).unwrap();
    let rule = mir.rule("a").unwrap();
    assert_eq!(rule.id.index(), g.t.rules[1].id.index());
}

#[test]
fn invalid_attribute_and_identifier_are_reported_together() {
    let g = parse("@weird r : x = MyId ;");
    match lower(&g) {
        Err(Error::BasicCheckError(ids, attrs)) => {
            assert_eq!(ids.len(), 1);
            assert_eq!(ids[0].t.to_str(), "MyId");
            assert_eq!(attrs.len(), 1);
            assert_eq!(attrs[0].t.to_str(), "weird");
        }
        Ok(_) => panic!("the grammar is invalid"),
    }
}

#[test]
fn every_violation_is_reported_in_the_order_of_the_text() {
    let g = parse("@a @box Ab : c = D e ;\n@box @b f : #G | H i ? #j ;");
    match lower(&g) {
        Err(Error::BasicCheckError(ids, attrs)) => {
            let ids: Vec<&str> = ids.iter().map(|n| n.t.to_str()).collect();
            let attrs: Vec<&str> = attrs.iter().map(|n| n.t.to_str()).collect();
            assert_eq!(ids, vec!["Ab", "D", "G", "H"]);
            assert_eq!(attrs, vec!["a", "b"]);
        }
        Ok(_) => panic!("the grammar is invalid"),
    }
}

#[test]
fn only_invalid_attributes_still_fail() {
    let g = parse("@boxed a : b ;");
    match lower(&g) {
        Err(Error::BasicCheckError(ids, attrs)) => {
            assert!(ids.is_empty());
            assert_eq!(attrs.len(), 1);
        }
        Ok(_) => panic!("the grammar is invalid"),
    }
}

#[test]
fn variant_names_are_checked_but_are_no_references() {
    let g = parse("stmt : #Empty | x = ident #Value ;");
    match lower(&g) {
        Err(Error::BasicCheckError(ids, attrs)) => {
            let ids: Vec<&str> = ids.iter().map(|n| n.t.to_str()).collect();
            assert_eq!(ids, vec!["Empty", "Value"]);
            assert!(attrs.is_empty());
        }
        Ok(_) => panic!("the grammar is invalid"),
    }
    let g = parse("stmt : #empty | x = ident #value ;");
    let mir = lower(&g).unwrap();
    assert_eq!(names(&mir.leaf_nodes), vec!["ident".to_string()]);
}

#[test]
fn identifier_characters() {
    assert!(is_valid_ident("abc_1"));
    assert!(is_valid_ident(""));
    assert!(is_valid_ident("_"));
    assert!(!is_valid_ident("aB"));
    assert!(!is_valid_ident("a-b"));
    assert!(is_valid_ident("é٣"));
}
