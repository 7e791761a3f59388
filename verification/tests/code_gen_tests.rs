use yp::ast::{Grammar, Ident};
use yp::ast_meta::N;
use yp::code_gen::gen_ast::META;
use yp::code_gen::gen_meta::gen_meta;
use yp::code_gen::gen_parser::parse_name;
use yp::code_gen::gen_visit::{deref_mut, visit_name, visitor_name, walk_name, wrap_mut};
use yp::code_gen::CodeGen;
use yp::lexer::Lexer;
use yp::mir::lower;
use yp::parser::Parser;

fn parse(src: &str) -> N<Grammar> {
    let mut parser = Parser::new(Lexer::new(src)).unwrap();
    assert!(parser.has_room());
    parser.parse_grammar().unwrap()
}

fn ast_of(src: &str) -> String {
    let g = parse(src);
    let cg = CodeGen::new(lower(&g).unwrap());
    cg.gen_ast()
}

fn visit_of(src: &str, is_mut: bool) -> String {
    let g = parse(src);
    let cg = CodeGen::new(lower(&g).unwrap());
    cg.gen_visit(is_mut)
}

fn ident(name: &str) -> Ident {
    Ident { name: name.to_string() }
}

#[test]
fn names_of_generated_items() {
    assert_eq!(walk_name(&ident("rule_body")), "walk_rule_body");
    assert_eq!(visit_name(&ident("rule_body")), "visit_rule_body");
    assert_eq!(parse_name(&ident("rule_body")), "parse_rule_body");
    assert_eq!(visitor_name(false), "Visitor<'ast>");
    assert_eq!(visitor_name(true), "VisitorMut");
    assert_eq!(wrap_mut(false, "N<A>"), "&'ast N<A>");
    assert_eq!(wrap_mut(true, "N<A>"), "&mut N<A>");
    assert_eq!(deref_mut(false, false, "n"), "&**n");
    assert_eq!(deref_mut(false, true, "n"), "&mut **n");
    assert_eq!(deref_mut(true, false, "n"), "&***n");
    assert_eq!(deref_mut(true, true, "n"), "&mut***n");
}

#[test]
fn point_becomes_a_struct_with_leaf_typed_fields() {
    let text = ast_of("point : x = ident y = ident ;");
    let expected = format!(
        "{}\n{}\n\n{}",
        META.trim(),
        "#[derive(Clone, Debug)]\npub struct Point {\n    pub x: N<Ident>,\n    pub y: N<Ident>\n}",
        "#[derive(Clone, Debug, Copy)]\npub struct Ident;"
    );
    assert_eq!(text, expected);
}

#[test]
fn list_field_is_a_sequence_of_nodes() {
    let text = ast_of("list : items = item * ;");
    let expected = format!(
        "{}\n{}\n\n{}",
        META.trim(),
        "#[derive(Clone, Debug)]\npub struct List {\n    pub items: Vec<N<Item>>\n}",
        "#[derive(Clone, Debug, Copy)]\npub struct Item;"
    );
    assert_eq!(text, expected);
}

#[test]
fn binding_name_is_the_field_name_as_it_is_written() {
    let text = ast_of("list : one = item + ;");
    assert!(text.contains("pub struct List {\n    pub one: Vec<N<Item>>\n}"), "{}", text);
    let text = ast_of("list : one = item * ;");
    assert!(text.contains("pub struct List {\n    pub one: Vec<N<Item>>\n}"), "{}", text);
    let text = ast_of("list : one = item ? ;");
    assert!(text.contains("pub struct List {\n    pub one: Option<N<Item>>\n}"), "{}", text);
    let text = ast_of("list : where = item * ;");
    assert!(text.contains("pub struct List {\n    pub r#where: Vec<N<Item>>\n}"), "{}", text);
    let text = visit_of("list : items = item * ;", false);
    assert!(text.contains("    for d in &n.items {\n        v.visit_item(d);\n    }"), "{}", text);
}

#[test]
fn unnamed_sequence_field_takes_the_plural_of_its_type() {
    let text = ast_of("list : item + other ? ;");
    assert!(
        text.contains("pub struct List {\n    pub items: Vec<N<Item>>,\n    pub other: Option<N<Other>>\n}"),
        "{}",
        text
    );
    assert!(text.ends_with(
        "#[derive(Clone, Debug, Copy)]\npub struct Item;\n\n#[derive(Clone, Debug, Copy)]\npub struct Other;"
    ));
}

#[test]
fn boxed_rule_is_referred_to_through_a_box() {
    let text = ast_of("@box expr : lhs = expr rhs = expr ;");
    let expected = format!(
        "{}\n{}\n\n",
        META.trim(),
        "#[derive(Clone, Debug)]\npub struct Expr {\n    pub lhs: N<Box<Expr>>,\n    pub rhs: N<Box<Expr>>\n}"
    );
    assert_eq!(text, expected);
}

#[test]
fn enum_rule_becomes_an_enum() {
    let text = ast_of("stmt : #empty | x = ident #value ;");
    assert!(
        text.contains("#[derive(Clone, Debug)]\npub enum Stmt {\n    Empty,\n    Value(N<Ident>)\n}"),
        "{}",
        text
    );
}

#[test]
fn variant_fields_follow_the_body() {
    let text = ast_of("@box e : e u8 * #bin_op | string ? #lit ;");
    assert!(
        text.contains("pub enum E {\n    BinOp(N<Box<E>>, Vec<N<u8>>),\n    Lit(Option<N<String>>)\n}"),
        "{}",
        text
    );
}

#[test]
fn keywords_are_escaped_in_field_names() {
    let text = ast_of("a : as = b where * break ? ;");
    assert!(
        text.contains(
            "pub struct A {\n    pub r#as: N<B>,\n    pub wheres: Vec<N<Where>>,\n    pub r#break: Option<N<Break>>\n}"
        ),
        "{}",
        text
    );
}

#[test]
fn names_that_are_no_rules_get_a_marker_type_once() {
    let text = ast_of("a : b u8 string b c u8 a ;");
    assert!(
        text.ends_with(
            "}\n\n#[derive(Clone, Debug, Copy)]\npub struct B;\n\n#[derive(Clone, Debug, Copy)]\npub struct C;\n\n#[derive(Clone, Debug, Copy)]\npub struct String;\n\n#[derive(Clone, Debug, Copy)]\npub struct u8;"
        ),
        "{}",
        text
    );
    assert_eq!(text.matches("pub struct B;").count(), 1);
    assert_eq!(text.matches("pub struct u8;").count(), 1);
    assert_eq!(text.matches("pub struct A;").count(), 0);
}

#[test]
fn rules_are_emitted_in_the_order_of_the_text() {
    let text = ast_of("b : a ;\na : c ;");
    let b = text.find("pub struct B").unwrap();
    let a = text.find("pub struct A").unwrap();
    assert!(b < a);
    assert!(text.ends_with("}\n\n#[derive(Clone, Debug, Copy)]\npub struct C;"));
}

#[test]
fn visitor_of_a_normal_rule() {
    let text = visit_of("point : x = ident y = ident ;", false);
    let expected = "use crate::ast::*;\n\npub trait Visitor<'ast>: Sized {\n    fn visit_point(&mut self, n: &'ast N<Point>) {\n        walk_point(self, n);\n    }\n\n    fn visit_ident(&mut self, _n: &'ast N<Ident>) {}\n\n\n\n\n}\n\n#[allow(unused)]\npub fn walk_point<'ast, V: Visitor<'ast>>(v: &mut V, n: &'ast N<Point>) {\n    v.visit_ident(&n.x);\n    v.visit_ident(&n.y);\n}\n";
    assert_eq!(text, expected);
}

#[test]
fn mutable_visitor_of_a_normal_rule() {
    let text = visit_of("point : x = ident y = ident ;", true);
    let expected = "use crate::ast::*;\n\npub trait VisitorMut: Sized {\n    fn visit_point(&mut self, n: &mut N<Point>) {\n        walk_point(self, n);\n    }\n\n    fn visit_ident(&mut self, _n: &mut N<Ident>) {}\n\n\n\n\n}\n\n#[allow(unused)]\npub fn walk_point<'ast, V: VisitorMut>(v: &mut V, n: &mut N<Point>) {\n    v.visit_ident(&mut n.x);\n    v.visit_ident(&mut n.y);\n}\n";
    assert_eq!(text, expected);
}

#[test]
fn walk_of_an_enum_rule_matches_on_the_variant() {
    let text = visit_of("stmt : #empty | x = ident y = item * z = opt ? #value ;", false);
    let walk = "#[allow(unused)]\npub fn walk_stmt<'ast, V: Visitor<'ast>>(v: &mut V, n: &'ast N<Stmt>) {\n    use Stmt::*;\n    match &**n {\n        Empty => {},\n        Value(a0, a1, a2) => {\n            v.visit_ident(a0);\n            for d in a1 {\n                v.visit_item(d);\n            }\n            if let Some(d) = a2 {\n                v.visit_opt(d);\n            }\n        },\n    }\n}\n";
    assert!(text.ends_with(walk), "{}", text);
}

#[test]
fn walk_of_a_boxed_enum_rule_goes_through_the_box() {
    let text = visit_of("@box e : e #again | #done ;", false);
    assert!(text.contains("n: &'ast N<Box<E>>) {\n    use E::*;\n    match &***n {\n"), "{}", text);
    let text = visit_of("@box e : e #again | #done ;", true);
    assert!(text.contains("n: &mut N<Box<E>>) {\n    use E::*;\n    match &mut***n {\n"), "{}", text);
    let text = visit_of("e : f #again | #done ;", true);
    assert!(text.contains("match &mut **n {\n"), "{}", text);
}

#[test]
fn fields_with_quantifiers_are_visited_element_by_element() {
    let text = visit_of("a : b * c ? d ;", false);
    assert!(
        text.ends_with(
            "{\n    for d in &n.bs {\n        v.visit_b(d);\n    }\n    if let Some(d) = &n.c {\n        v.visit_c(d);\n    }\n    v.visit_d(&n.d);\n}\n"
        ),
        "{}",
        text
    );
}

#[test]
fn names_that_are_no_rules_get_empty_methods_once() {
    let text = visit_of("a : b b u8 string u8 ;", false);
    assert_eq!(text.matches("fn visit_b(&mut self, _n: &'ast N<B>) {}").count(), 1);
    assert_eq!(text.matches("fn visit_u8(&mut self, _n: &'ast N<u8>) {}").count(), 1);
    assert_eq!(text.matches("fn visit_string(&mut self, _n: &'ast N<String>) {}").count(), 1);
    let leaf = text.find("fn visit_b(").unwrap();
    let reserved = text.find("fn visit_string(").unwrap();
    let primitive = text.find("fn visit_u8(").unwrap();
    assert!(leaf < reserved && reserved < primitive);
}

#[test]
fn more_than_ten_positional_fields_are_numbered_in_decimal() {
    let text = visit_of("a : b b b b b b b b b b b b #many ;", false);
    assert!(text.contains("Many(a0, a1, a2, a3, a4, a5, a6, a7, a8, a9, a10, a11) => {"), "{}", text);
    assert!(text.contains("v.visit_b(a11);"));
}

#[test]
fn parser_skeleton_has_a_method_for_each_name() {
    let g = parse("point : x = ident y = u8 ;");
    let cg = CodeGen::new(lower(&g).unwrap());
    let text = cg.gen_parse();
    assert!(text.starts_with(
        "\nuse crate::parser::{Parser, Result};\nuse crate::ast::*;\nuse crate::token::TokenKind;\n\nimpl Parser {\n    pub fn parse_point(&mut self) -> Result<N<Point>> {\n        self.parse(|parser| {\n"
    ));
    assert!(text.contains("    pub fn parse_ident(&mut self) -> Result<N<Ident>> {\n"));
    assert!(text.contains("    pub fn parse_u8(&mut self) -> Result<N<u8>> {\n"));
    assert!(text.ends_with("    }\n\n\n\n    pub fn parse_u8(&mut self) -> Result<N<u8>> {\n        self.parse(|parser| {\n            todo!()\n        })\n    }\n}\n        \n"), "{:?}", text);
}

#[test]
fn node_utilities_are_trimmed() {
    let text = gen_meta();
    assert!(text.starts_with("use std::fmt;\nuse std::ops::Deref;\n"));
    assert!(text.ends_with("        &self.t\n    }\n}"));
    assert!(text.contains("pub struct NodeId(pub(crate) usize);"));
}

#[test]
fn span_module_is_the_same_for_every_grammar() {
    let g = parse("a : b ;");
    let cg = CodeGen::new(lower(&g).unwrap());
    let one = cg.gen_span();
    let h = parse("c : d e ;");
    let other = CodeGen::new(lower(&h).unwrap()).gen_span();
    assert_eq!(one, other);
    assert!(one.contains("pub struct Span {\n    start: usize,\n    end: usize,\n}"));
    assert!(one.contains("pub fn merge(&self, other: Span) -> Span {"));
}
