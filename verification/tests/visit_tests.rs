use yp::ast::{Attr, Grammar, Ident, NamedRuleBody, Quantifier, Rule, RuleBody, RuleElement};
use yp::ast_meta::N;
use yp::lexer::Lexer;
use yp::parser::Parser;
use yp::visit::{
    walk_attr, walk_grammar, walk_ident, walk_named_rule_body, walk_quantifier, walk_rule,
    walk_rule_body, walk_rule_element, Visitor,
};

struct Recorder {
    seen: Vec<String>,
    into_variants: bool,
}

impl<'ast> Visitor<'ast> for Recorder {
    fn visit_grammar(&mut self, n: &'ast N<Grammar>) {
        self.seen.push("grammar".to_string());
        walk_grammar(self, n)
    }

    fn visit_rule(&mut self, n: &'ast N<Rule>) {
        self.seen.push("rule".to_string());
        walk_rule(self, n)
    }

    fn visit_named_rule_body(&mut self, n: &'ast N<NamedRuleBody>) {
        self.seen.push("alt".to_string());
        if self.into_variants {
            walk_named_rule_body(self, n)
        } else if let Some(d) = &n.t.body {
            self.visit_rule_body(d);
        }
    }

    fn visit_rule_body(&mut self, n: &'ast N<RuleBody>) {
        self.seen.push("body".to_string());
        walk_rule_body(self, n)
    }

    fn visit_rule_element(&mut self, n: &'ast N<RuleElement>) {
        self.seen.push("element".to_string());
        walk_rule_element(self, n)
    }

    fn visit_quantifier(&mut self, n: &'ast N<Quantifier>) {
        self.seen.push(n.t.to_str().to_string());
        walk_quantifier(self, n)
    }

    fn visit_ident(&mut self, n: &'ast N<Ident>) {
        self.seen.push(n.t.to_str().to_string());
        walk_ident(self, n)
    }

    fn visit_attr(&mut self, n: &'ast N<Attr>) {
        self.seen.push(format!("@{}", n.t.to_str()));
        walk_attr(self, n)
    }
}

fn parse(src: &str) -> N<Grammar> {
    let mut parser = Parser::new(Lexer::new(src)).unwrap();
    assert!(parser.has_room());
    parser.parse_grammar().unwrap()
}

#[test]
fn walk_hands_out_the_parts_in_the_order_of_the_text() {
    let g = parse("@box @x a : b = c * d ;");
    let mut r = Recorder { seen: Vec::new(), into_variants: true };
    r.visit_grammar(&g);
    assert_eq!(
        r.seen,
        vec![
            "grammar", "rule", "@box", "@x", "a", "body", "element", "b", "c", "*", "element",
            "d"
        ]
    );
}

#[test]
fn walk_of_an_enum_rule_visits_each_alternative() {
    let g = parse("e : f ? #one | #two ;");
    let mut r = Recorder { seen: Vec::new(), into_variants: true };
    walk_grammar(&mut r, &g);
    assert_eq!(
        r.seen,
        vec!["rule", "e", "alt", "one", "body", "element", "f", "?", "alt", "two"]
    );
}

#[test]
fn visitor_decides_what_is_walked() {
    let g = parse("e : f #one | #two ;");
    let mut r = Recorder { seen: Vec::new(), into_variants: false };
    r.visit_rule(&g.t.rules[0]);
    assert_eq!(r.seen, vec!["rule", "e", "alt", "body", "element", "f", "alt"]);
}
