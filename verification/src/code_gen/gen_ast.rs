//! The tree types of a grammar.

use crate::ast::{
    named_views, rule_views, NamedRuleBody, NamedRuleBodyView, Rule, RuleBody, RuleBodyView,
    RuleElement, RuleElementView, RuleKind, RuleKindView, RuleView,
};
use crate::ast_meta::{NodeView, N};
use crate::code_gen::{
    field_name_of, quantifier_type_of, type_name_of, variant_name_of, CodeGen, Model,
};

use crate::text::{cat, join_all, join_seq, views};
use crate::util::{indent, indented, trim, trimmed};
use vstd::prelude::*;

verus! {

/// What every generated tree module begins with: the node wrapper.
pub const META: &'static str = r#"
use std::fmt;
use std::cmp::Eq;
use std::hash::{Hash, Hasher};
use std::ops::Deref;
use std::ops::DerefMut;

use crate::span::Span;

#[derive(Debug, Clone, Copy)]
pub struct NodeId(pub(crate) usize);

#[derive(Clone)]
pub struct N<T> {
    pub span: Span,
    pub id: NodeId,
    pub t: T,
}

impl<T: fmt::Debug> fmt::Debug for N<T> {
    fn fmt(&self, f: &mut fmt::Formatter<'_>) -> fmt::Result {
        self.t.fmt(f)
    }
}

impl<T> Deref for N<T> {
    type Target = T;
    fn deref(&self) -> &Self::Target {
        &self.t
    }
}

impl<T> DerefMut for N<T> {
    fn deref_mut(&mut self) -> &mut Self::Target {
        &mut self.t
    }
}

impl<T: PartialEq> PartialEq for N<T> {
    fn eq(&self, other: &Self) -> bool {
        self.t == other.t
    }
}

impl<T: Eq> Eq for N<T> {}

impl<T: Hash> Hash for N<T> {
    fn hash<H: Hasher>(&self, state: &mut H) {
        self.t.hash(state)
    }
}
"#;

/// The declaration of the field for a rule element.
pub open spec fn ast_field_of(m: Model, e: RuleElementView) -> Seq<char> {
    "pub "@ + field_name_of(e) + ": "@ + quantifier_type_of(m, e)
}

/// The field declarations of a rule body, in its order.
pub open spec fn field_lines(m: Model, body: RuleBodyView) -> Seq<Seq<char>> {
    body.map_values(|e: NodeView<RuleElementView>| ast_field_of(m, e.t))
}

/// The fields of the product type for a rule body.
pub open spec fn ast_struct_of(m: Model, body: RuleBodyView) -> Seq<char> {
    join_seq(field_lines(m, body), ",\n"@)
}

/// The types of the positional fields of a variant, in the order of its body.
pub open spec fn variant_types(m: Model, body: RuleBodyView) -> Seq<Seq<char>> {
    body.map_values(|e: NodeView<RuleElementView>| quantifier_type_of(m, e.t))
}

/// The variant for an alternative: a unit variant where it has no body.
pub open spec fn ast_enum_of(m: Model, a: NamedRuleBodyView) -> Seq<char> {
    match a.body {
        Some(b) => variant_name_of(a.name.t) + "("@ + join_seq(variant_types(m, b.t), ", "@)
            + ")"@,
        None => variant_name_of(a.name.t),
    }
}

/// The variants of an enum rule, in its order.
pub open spec fn enum_lines(m: Model, alts: Seq<NodeView<NamedRuleBodyView>>) -> Seq<Seq<char>> {
    alts.map_values(|a: NodeView<NamedRuleBodyView>| ast_enum_of(m, a.t))
}

/// The type for a rule: a sum type for an enum rule, a product type for a normal one.
pub open spec fn rule_of(m: Model, r: RuleView) -> Seq<char> {
    "#[derive(Clone, Debug)]\n"@ + match r.kind {
        RuleKindView::Enum(s) => "pub enum "@ + type_name_of(r.name.t) + " {\n"@ + indented(
            join_seq(enum_lines(m, s), ",\n"@),
        ) + "\n}"@,
        RuleKindView::Normal(b) => "pub struct "@ + type_name_of(r.name.t) + " {\n"@ + indented(
            ast_struct_of(m, b.t),
        ) + "\n}"@,
    }
}

/// The marker type for a name that is no rule.
pub open spec fn leaf_node_of(name: Seq<char>) -> Seq<char> {
    "#[derive(Clone, Debug, Copy)]\n"@ + ("pub struct "@ + type_name_of(name) + ";"@)
}

/// The types of all rules, in their order.
pub open spec fn rule_texts(m: Model) -> Seq<Seq<char>> {
    m.rules.map_values(|r: NodeView<RuleView>| rule_of(m, r.t))
}

/// The names that get a marker type: the leaf names, then the reserved names, then the
/// primitive names, each once.
pub open spec fn marker_names(m: Model) -> Seq<Seq<char>> {
    m.leaves + m.reserved + m.primitives
}

/// The marker types of all names that are no rules, in their order.
pub open spec fn leaf_texts(m: Model) -> Seq<Seq<char>> {
    marker_names(m).map_values(|n: Seq<char>| leaf_node_of(n))
}

/// The text of the tree module: the node wrapper, the type of each rule, and a marker
/// type for each leaf, reserved and primitive name.
pub open spec fn ast_of(m: Model) -> Seq<char> {
    trimmed(META@) + "\n"@ + join_seq(rule_texts(m), "\n\n"@) + "\n\n"@ + join_seq(
        leaf_texts(m),
        "\n\n"@,
    )
}

impl<'ast> CodeGen<'ast> {
    #[verifier::rlimit(40)]
    pub fn gen_ast(&self) -> (r: String)
        ensures
            r@ == ast_of(self.model()),
    {
        let ghost m = self.model();
        let rules = self.rules();
        let mut parts: Vec<String> = Vec::new();
        let mut i: usize = 0;
        while i < rules.len()
            invariant
                i <= rules.len(),
                m == self.model(),
                rule_views(rules@) == m.rules,
                views(parts@) == rule_texts(m).take(i as int),
            decreases rules.len() - i,
        {
            let t = self.gen_rule(&rules[i].t);
            proof {
                assert(views(parts@.push(t)) == views(parts@).push(t@));
                assert(rule_texts(m).take(i as int + 1) == rule_texts(m).take(i as int).push(t@));
            }
            parts.push(t);
            i += 1;
        }
        proof {
            assert(rule_texts(m).take(rules@.len() as int) == rule_texts(m));
        }
        let body = join_all(&parts, "\n\n");
        let mut names = self.leaf_names();
        let mut reserved = self.reserved_names();
        let mut primitives = self.primitive_names();
        proof {
            assert(views(names@ + reserved@) == views(names@) + views(reserved@));
            assert(views(names@ + reserved@ + primitives@) == views(names@ + reserved@) + views(
                primitives@,
            ));
        }
        names.append(&mut reserved);
        names.append(&mut primitives);
        let mut leaves: Vec<String> = Vec::new();
        let mut j: usize = 0;
        while j < names.len()
            invariant
                j <= names.len(),
                m == self.model(),
                views(names@) == marker_names(m),
                views(leaves@) == leaf_texts(m).take(j as int),
            decreases names.len() - j,
        {
            let t = Self::gen_leaf_node(names[j].as_str());
            proof {
                assert(views(names@)[j as int] == names@[j as int]@);
                assert(views(leaves@.push(t)) == views(leaves@).push(t@));
                assert(leaf_texts(m).take(j as int + 1) == leaf_texts(m).take(j as int).push(t@));
            }
            leaves.push(t);
            j += 1;
        }
        proof {
            assert(leaf_texts(m).take(names@.len() as int) == leaf_texts(m));
        }
        let leaf_nodes = join_all(&leaves, "\n\n");
        let head = trim(META);
        cat(cat(cat(cat(head, "\n"), body.as_str()), "\n\n"), leaf_nodes.as_str())
    }

    fn gen_leaf_node(name: &str) -> (r: String)
        ensures
            r@ == leaf_node_of(name@),
    {
        let ty_name = Self::ty_name_str(name);
        let ret = cat(cat("pub struct ".to_owned(), ty_name.as_str()), ";");
        cat("#[derive(Clone, Debug, Copy)]\n".to_owned(), ret.as_str())
    }

    #[verifier::rlimit(40)]
    fn gen_rule(&self, rule: &Rule) -> (r: String)
        ensures
            r@ == rule_of(self.model(), rule@),
    {
        let ghost m = self.model();
        let ty_name = self.ty_name(&rule.name.t);
        let ret = match &rule.kind {
            RuleKind::Enum(s) => {
                let mut parts: Vec<String> = Vec::new();
                let mut i: usize = 0;
                while i < s.len()
                    invariant
                        i <= s.len(),
                        m == self.model(),
                        views(parts@) == enum_lines(m, named_views(s@)).take(i as int),
                    decreases s.len() - i,
                {
                    let t = self.gen_ast_enum(&s[i].t);
                    proof {
                        assert(views(parts@.push(t)) == views(parts@).push(t@));
                        assert(enum_lines(m, named_views(s@)).take(i as int + 1) == enum_lines(
                            m,
                            named_views(s@),
                        ).take(i as int).push(t@));
                    }
                    parts.push(t);
                    i += 1;
                }
                proof {
                    assert(enum_lines(m, named_views(s@)).take(s@.len() as int) == enum_lines(
                        m,
                        named_views(s@),
                    ));
                }
                let body = join_all(&parts, ",\n");
                cat(
                    cat(
                        cat(cat("pub enum ".to_owned(), ty_name.as_str()), " {\n"),
                        indent(body.as_str()).as_str(),
                    ),
                    "\n}",
                )
            },
            RuleKind::Normal(s) => {
                let body = self.gen_ast_struct(&s.t);
                cat(
                    cat(
                        cat(cat("pub struct ".to_owned(), ty_name.as_str()), " {\n"),
                        indent(body.as_str()).as_str(),
                    ),
                    "\n}",
                )
            },
        };
        cat("#[derive(Clone, Debug)]\n".to_owned(), ret.as_str())
    }

    fn gen_ast_struct(&self, body: &RuleBody) -> (r: String)
        ensures
            r@ == ast_struct_of(self.model(), body@),
    {
        let ghost m = self.model();
        let elems = &body.body;
        let mut parts: Vec<String> = Vec::new();
        let mut i: usize = 0;
        while i < elems.len()
            invariant
                i <= elems.len(),
                m == self.model(),
                elems == &body.body,
                views(parts@) == field_lines(m, body@).take(i as int),
            decreases elems.len() - i,
        {
            let t = self.gen_ast_field(&elems[i].t);
            proof {
                assert(views(parts@.push(t)) == views(parts@).push(t@));
                assert(field_lines(m, body@).take(i as int + 1) == field_lines(m, body@).take(
                    i as int,
                ).push(t@));
            }
            parts.push(t);
            i += 1;
        }
        proof {
            assert(field_lines(m, body@).take(elems@.len() as int) == field_lines(m, body@));
        }
        join_all(&parts, ",\n")
    }

    fn gen_ast_field(&self, ele: &RuleElement) -> (r: String)
        ensures
            r@ == ast_field_of(self.model(), ele@),
    {
        let ty = self.quantifier_type(ele);
        let name = self.field_name(ele);
        cat(cat(cat("pub ".to_owned(), name.as_str()), ": "), ty.as_str())
    }

    /// The types of the positional fields of a variant, in the order of its body.
    pub(crate) fn variant_type_list(&self, body: &RuleBody) -> (parts: Vec<String>)
        ensures
            views(parts@) == variant_types(self.model(), body@),
    {
        let ghost m = self.model();
        let elems = &body.body;
        let mut parts: Vec<String> = Vec::new();
        let mut i: usize = 0;
        while i < elems.len()
            invariant
                i <= elems.len(),
                m == self.model(),
                elems == &body.body,
                views(parts@) == variant_types(m, body@).take(i as int),
            decreases elems.len() - i,
        {
            let t = self.quantifier_type(&elems[i].t);
            proof {
                assert(views(parts@.push(t)) == views(parts@).push(t@));
                assert(variant_types(m, body@).take(i as int + 1) == variant_types(m, body@).take(
                    i as int,
                ).push(t@));
            }
            parts.push(t);
            i += 1;
        }
        proof {
            assert(variant_types(m, body@).take(elems@.len() as int) == variant_types(m, body@));
        }
        parts
    }

    fn gen_ast_enum(&self, body: &NamedRuleBody) -> (r: String)
        ensures
            r@ == ast_enum_of(self.model(), body@),
    {
        let variant = self.variant_name(&body.name.t);
        match &body.body {
            Some(b) => {
                let parts = self.variant_type_list(&b.t);
                let inner = join_all(&parts, ", ");
                cat(cat(cat(variant, "("), inner.as_str()), ")")
            },
            None => variant,
        }
    }
}

} // verus!
