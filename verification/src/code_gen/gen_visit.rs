//! The traversal interfaces of a grammar: a visitor trait and the walk functions.

use crate::ast::{
    named_views, rule_views, Ident, NamedRuleBody, NamedRuleBodyView, Quantifier, Rule, RuleBody,
    RuleBodyView, RuleElement, RuleElementView, RuleKind, RuleKindView, RuleView,
};
use crate::ast_meta::NodeView;
use crate::code_gen::{field_name_of, node_type_of, type_name_of, variant_name_of, CodeGen, Model};
use crate::text::{cat, decimal, decimal_string, join_all, join_iter, join_seq, views};
use crate::util::{indent, indented, trim, trimmed};
use vstd::prelude::*;

verus! {

/// The name of the walk function for a name of the grammar.
pub open spec fn walk_name_of(name: Seq<char>) -> Seq<char> {
    "walk_"@ + name
}

/// The name of the visit method for a name of the grammar.
pub open spec fn visit_name_of(name: Seq<char>) -> Seq<char> {
    "visit_"@ + name
}

/// The name of the visitor trait of each kind.
pub open spec fn visitor_name_of(is_mut: bool) -> Seq<char> {
    if is_mut {
        "VisitorMut"@
    } else {
        "Visitor<'ast>"@
    }
}

/// The borrow of a node type that a visitor of each kind takes.
pub open spec fn wrapped(is_mut: bool, ty: Seq<char>) -> Seq<char> {
    if is_mut {
        "&mut "@ + ty
    } else {
        "&'ast "@ + ty
    }
}

/// The expression that reaches the tree type behind a borrowed node, through the box
/// where there is one.
pub open spec fn deref_of(is_boxed: bool, is_mut: bool, variable: Seq<char>) -> Seq<char> {
    if is_boxed {
        if is_mut {
            "&mut***"@ + variable
        } else {
            "&***"@ + variable
        }
    } else {
        if is_mut {
            "&mut **"@ + variable
        } else {
            "&**"@ + variable
        }
    }
}

pub fn walk_name(id: &Ident) -> (r: String)
    ensures
        r@ == walk_name_of(id@),
{
    cat("walk_".to_owned(), id.to_str())
}

pub fn visit_name(id: &Ident) -> (r: String)
    ensures
        r@ == visit_name_of(id@),
{
    cat("visit_".to_owned(), id.to_str())
}

pub fn visitor_name(is_mut: bool) -> (r: &'static str)
    ensures
        r@ == visitor_name_of(is_mut),
{
    if is_mut {
        "VisitorMut"
    } else {
        "Visitor<'ast>"
    }
}

pub fn wrap_mut(is_mut: bool, ty: &str) -> (r: String)
    ensures
        r@ == wrapped(is_mut, ty@),
{
    if is_mut {
        cat("&mut ".to_owned(), ty)
    } else {
        cat("&'ast ".to_owned(), ty)
    }
}

pub fn deref_mut(is_boxed: bool, is_mut: bool, variable: &str) -> (r: String)
    ensures
        r@ == deref_of(is_boxed, is_mut, variable@),
{
    let x = if is_boxed {
        if is_mut {
            "&mut***"
        } else {
            "&***"
        }
    } else {
        if is_mut {
            "&mut **"
        } else {
            "&**"
        }
    };
    cat(x.to_owned(), variable)
}

/// The default visit method for a rule: it hands the node to the rule's walk function.
pub open spec fn visit_method_of(m: Model, r: RuleView, is_mut: bool) -> Seq<char> {
    trimmed(
        "\nfn "@ + visit_name_of(r.name.t) + "(&mut self, n: "@ + wrapped(
            is_mut,
            node_type_of(m, r.name.t),
        ) + ") {\n    "@ + walk_name_of(r.name.t) + "(self, n);\n}\n        "@,
    )
}

/// The default visit method for a name that is no rule: it does nothing.
pub open spec fn visit_method_empty_of(m: Model, name: Seq<char>, is_mut: bool) -> Seq<char> {
    "fn "@ + visit_name_of(name) + "(&mut self, _n: "@ + wrapped(is_mut, node_type_of(m, name))
        + ") {}"@
}

/// The empty visit methods of a list of names.
pub open spec fn empty_methods(m: Model, names: Seq<Seq<char>>, is_mut: bool) -> Seq<Seq<char>> {
    names.map_values(|n: Seq<char>| visit_method_empty_of(m, n, is_mut))
}

/// The statement that visits what `variable` holds for a rule element: the node
/// itself, the node in an `Option` if there is one, or each node of a `Vec`.
pub open spec fn visit_element_of(e: RuleElementView, variable: Seq<char>) -> Seq<char> {
    trimmed(
        match e.quantifier {
            Some(q) => match q.t {
                Quantifier::Maybe => "\nif let Some(d) = "@ + variable + " {\n    v."@
                    + visit_name_of(e.nt.t) + "(d);\n}\n                "@,
                _ => "\nfor d in "@ + variable + " {\n    v."@ + visit_name_of(e.nt.t)
                    + "(d);\n}\n                "@,
            },
            None => "v."@ + visit_name_of(e.nt.t) + "("@ + variable + ");"@,
        },
    )
}

/// The statement that visits the field of a rule element.
pub open spec fn visit_field_of(e: RuleElementView, prefix: Seq<char>) -> Seq<char> {
    visit_element_of(e, prefix + field_name_of(e))
}

/// The statements that visit the fields of a rule body, in its order.
pub open spec fn field_visits(body: RuleBodyView, prefix: Seq<char>) -> Seq<Seq<char>> {
    body.map_values(|e: NodeView<RuleElementView>| visit_field_of(e.t, prefix))
}

/// The names that the positional fields of a variant are bound to: `a0`, `a1`, ...
pub open spec fn variables(n: nat) -> Seq<Seq<char>> {
    Seq::new(n, |i: int| "a"@ + decimal(i as nat))
}

/// The statements that visit the positional fields of a variant, in its order.
pub open spec fn variable_visits(body: RuleBodyView, vars: Seq<Seq<char>>) -> Seq<Seq<char>> {
    Seq::new(body.len(), |i: int| visit_element_of(body[i].t, vars[i]))
}

/// The match arm for an alternative: it binds the positional fields and visits each.
pub open spec fn visit_enum_of(a: NamedRuleBodyView) -> Seq<char> {
    trimmed(
        match a.body {
            Some(b) => "\n"@ + variant_name_of(a.name.t) + "("@ + join_seq(
                variables(b.t.len()),
                ", "@,
            ) + ") => {\n"@ + indented(
                join_seq(variable_visits(b.t, variables(b.t.len())), "\n"@),
            ) + "\n},\n            "@,
            None => variant_name_of(a.name.t) + " => {},"@,
        },
    )
}

/// The match arms of an enum rule, in its order.
pub open spec fn enum_arms(alts: Seq<NodeView<NamedRuleBodyView>>) -> Seq<Seq<char>> {
    alts.map_values(|a: NodeView<NamedRuleBodyView>| visit_enum_of(a.t))
}

/// The body of the walk function for a rule: a match on the variant for an enum rule,
/// the visits of the fields for a normal rule.
pub open spec fn walk_body_of(m: Model, r: RuleView, is_mut: bool) -> Seq<char> {
    match r.kind {
        RuleKindView::Enum(s) => "use "@ + type_name_of(r.name.t) + "::*;\nmatch "@ + deref_of(
            m.boxed.contains(r.name.t),
            is_mut,
            "n"@,
        ) + " {\n"@ + indented(join_seq(enum_arms(s), "\n"@)) + "\n}"@,
        RuleKindView::Normal(b) => join_seq(
            field_visits(
                b.t,
                if is_mut {
                    "&mut n."@
                } else {
                    "&n."@
                },
            ),
            "\n"@,
        ),
    }
}

/// The walk function for a rule.
pub open spec fn walk_method_of(m: Model, r: RuleView, is_mut: bool) -> Seq<char> {
    trimmed(
        "\n#[allow(unused)]\npub fn "@ + walk_name_of(r.name.t) + "<'ast, V: "@ + visitor_name_of(
            is_mut,
        ) + ">(v: &mut V, n: "@ + wrapped(is_mut, node_type_of(m, r.name.t)) + ") {\n"@
            + indented(walk_body_of(m, r, is_mut)) + "\n}\n        "@,
    )
}

/// The visit methods of all rules, in their order.
pub open spec fn visit_methods(m: Model, is_mut: bool) -> Seq<Seq<char>> {
    m.rules.map_values(|r: NodeView<RuleView>| visit_method_of(m, r.t, is_mut))
}

/// The walk functions of all rules, in their order.
pub open spec fn walk_methods(m: Model, is_mut: bool) -> Seq<Seq<char>> {
    m.rules.map_values(|r: NodeView<RuleView>| walk_method_of(m, r.t, is_mut))
}

/// The visitor trait: a visit method for each rule, then an empty one for each leaf,
/// reserved and primitive name.
pub open spec fn visitor_of(m: Model, is_mut: bool) -> Seq<char> {
    "\nuse crate::ast::*;\n\npub trait "@ + visitor_name_of(is_mut) + ": Sized {\n"@ + indented(
        join_seq(visit_methods(m, is_mut), "\n\n"@),
    ) + "\n\n"@ + indented(join_seq(empty_methods(m, m.leaves, is_mut), "\n\n"@)) + "\n\n"@
        + indented(join_seq(empty_methods(m, m.reserved, is_mut), "\n\n"@)) + "\n\n"@ + indented(
        join_seq(empty_methods(m, m.primitives, is_mut), "\n\n"@),
    ) + "\n}\n        "@
}

/// The text of a traversal module: the visitor trait and the walk functions.
pub open spec fn visit_of(m: Model, is_mut: bool) -> Seq<char> {
    trimmed(visitor_of(m, is_mut)) + "\n\n"@ + trimmed(
        join_seq(walk_methods(m, is_mut), "\n\n"@),
    ) + "\n"@
}

impl<'ast> CodeGen<'ast> {
    /// The traversal module for shared borrows or, with `is_mut`, for mutable ones.
    #[verifier::rlimit(40)]
    pub fn gen_visit(&self, is_mut: bool) -> (r: String)
        ensures
            r@ == visit_of(self.model(), is_mut),
    {
        let ghost m = self.model();
        let rules = self.rules();
        let mut parts: Vec<String> = Vec::new();
        let mut i: usize = 0;
        while i < rules.len()
            invariant
                i <= rules.len(),
                m == self.model(),
                rule_views(rules@) == m.rules,
                views(parts@) == visit_methods(m, is_mut).take(i as int),
            decreases rules.len() - i,
        {
            let t = self.gen_visit_method(&rules[i].t, is_mut);
            proof {
                assert(views(parts@.push(t)) == views(parts@).push(t@));
                assert(visit_methods(m, is_mut).take(i as int + 1) == visit_methods(m, is_mut).take(
                    i as int,
                ).push(t@));
            }
            parts.push(t);
            i += 1;
        }
        proof {
            assert(visit_methods(m, is_mut).take(rules@.len() as int) == visit_methods(m, is_mut));
        }
        let body = join_all(&parts, "\n\n");
        let body_leaf = self.gen_visit_method_empty_multi(&self.leaf_names(), is_mut);
        let body_reserved = self.gen_visit_method_empty_multi(&self.reserved_names(), is_mut);
        let body_std_primary = self.gen_visit_method_empty_multi(&self.primitive_names(), is_mut);
        let mut visitor = "\nuse crate::ast::*;\n\npub trait ".to_owned();
        visitor = cat(visitor, visitor_name(is_mut));
        visitor = cat(visitor, ": Sized {\n");
        visitor = cat(visitor, indent(body.as_str()).as_str());
        visitor = cat(visitor, "\n\n");
        visitor = cat(visitor, indent(body_leaf.as_str()).as_str());
        visitor = cat(visitor, "\n\n");
        visitor = cat(visitor, indent(body_reserved.as_str()).as_str());
        visitor = cat(visitor, "\n\n");
        visitor = cat(visitor, indent(body_std_primary.as_str()).as_str());
        visitor = cat(visitor, "\n}\n        ");
        let mut walks: Vec<String> = Vec::new();
        let mut j: usize = 0;
        while j < rules.len()
            invariant
                j <= rules.len(),
                m == self.model(),
                rule_views(rules@) == m.rules,
                views(walks@) == walk_methods(m, is_mut).take(j as int),
            decreases rules.len() - j,
        {
            let t = self.gen_walk_method(&rules[j].t, is_mut);
            proof {
                assert(views(walks@.push(t)) == views(walks@).push(t@));
                assert(walk_methods(m, is_mut).take(j as int + 1) == walk_methods(m, is_mut).take(
                    j as int,
                ).push(t@));
            }
            walks.push(t);
            j += 1;
        }
        proof {
            assert(walk_methods(m, is_mut).take(rules@.len() as int) == walk_methods(m, is_mut));
        }
        let walk_text = join_all(&walks, "\n\n");
        let mut out = trim(visitor.as_str());
        out = cat(out, "\n\n");
        out = cat(out, trim(walk_text.as_str()).as_str());
        cat(out, "\n")
    }

    fn gen_visit_method(&self, rule: &Rule, is_mut: bool) -> (r: String)
        ensures
            r@ == visit_method_of(self.model(), rule@, is_mut),
    {
        let visit = visit_name(&rule.name.t);
        let walk = walk_name(&rule.name.t);
        let ty = self.node_type_name(&rule.name.t);
        let mut ret = "\nfn ".to_owned();
        ret = cat(ret, visit.as_str());
        ret = cat(ret, "(&mut self, n: ");
        ret = cat(ret, wrap_mut(is_mut, ty.as_str()).as_str());
        ret = cat(ret, ") {\n    ");
        ret = cat(ret, walk.as_str());
        ret = cat(ret, "(self, n);\n}\n        ");
        trim(ret.as_str())
    }

    fn gen_visit_method_empty_multi(&self, nodes: &Vec<String>, is_mut: bool) -> (r: String)
        ensures
            r@ == join_seq(empty_methods(self.model(), views(nodes@), is_mut), "\n\n"@),
    {
        let ghost m = self.model();
        let ghost all = empty_methods(m, views(nodes@), is_mut);
        let mut parts: Vec<String> = Vec::new();
        let mut i: usize = 0;
        while i < nodes.len()
            invariant
                i <= nodes.len(),
                m == self.model(),
                all == empty_methods(m, views(nodes@), is_mut),
                views(parts@) == all.take(i as int),
            decreases nodes.len() - i,
        {
            let t = self.gen_visit_method_empty(nodes[i].as_str(), is_mut);
            proof {
                assert(views(nodes@)[i as int] == nodes@[i as int]@);
                assert(views(parts@.push(t)) == views(parts@).push(t@));
                assert(all.take(i as int + 1) == all.take(i as int).push(t@));
            }
            parts.push(t);
            i += 1;
        }
        proof {
            assert(all.take(nodes@.len() as int) == all);
        }
        join_iter(&parts, "\n\n")
    }

    fn gen_visit_method_empty(&self, name: &str, is_mut: bool) -> (r: String)
        ensures
            r@ == visit_method_empty_of(self.model(), name@, is_mut),
    {
        let id = Ident { name: name.to_owned() };
        let visit = visit_name(&id);
        let ty = self.node_type_name(&id);
        let mut ret = "fn ".to_owned();
        ret = cat(ret, visit.as_str());
        ret = cat(ret, "(&mut self, _n: ");
        ret = cat(ret, wrap_mut(is_mut, ty.as_str()).as_str());
        cat(ret, ") {}")
    }

    #[verifier::rlimit(40)]
    fn gen_walk_method(&self, rule: &Rule, is_mut: bool) -> (r: String)
        ensures
            r@ == walk_method_of(self.model(), rule@, is_mut),
    {
        let ghost m = self.model();
        let walk = walk_name(&rule.name.t);
        let ty = self.node_type_name(&rule.name.t);
        let body = match &rule.kind {
            RuleKind::Enum(s) => {
                let ty_name = self.ty_name(&rule.name.t);
                let mut arms: Vec<String> = Vec::new();
                let mut i: usize = 0;
                while i < s.len()
                    invariant
                        i <= s.len(),
                        views(arms@) == enum_arms(named_views(s@)).take(i as int),
                    decreases s.len() - i,
                {
                    let t = self.gen_visit_enum(&s[i].t);
                    proof {
                        assert(views(arms@.push(t)) == views(arms@).push(t@));
                        assert(enum_arms(named_views(s@)).take(i as int + 1) == enum_arms(
                            named_views(s@),
                        ).take(i as int).push(t@));
                    }
                    arms.push(t);
                    i += 1;
                }
                proof {
                    assert(enum_arms(named_views(s@)).take(s@.len() as int) == enum_arms(
                        named_views(s@),
                    ));
                }
                let matches = join_all(&arms, "\n");
                let target = deref_mut(self.is_boxed_rule(&rule.name.t), is_mut, "n");
                let mut b = "use ".to_owned();
                b = cat(b, ty_name.as_str());
                b = cat(b, "::*;\nmatch ");
                b = cat(b, target.as_str());
                b = cat(b, " {\n");
                b = cat(b, indent(matches.as_str()).as_str());
                cat(b, "\n}")
            },
            RuleKind::Normal(s) => {
                let prefix = if is_mut {
                    "&mut n."
                } else {
                    "&n."
                };
                self.gen_visit_struct(&s.t, prefix)
            },
        };
        let mut ret = "\n#[allow(unused)]\npub fn ".to_owned();
        ret = cat(ret, walk.as_str());
        ret = cat(ret, "<'ast, V: ");
        ret = cat(ret, visitor_name(is_mut));
        ret = cat(ret, ">(v: &mut V, n: ");
        ret = cat(ret, wrap_mut(is_mut, ty.as_str()).as_str());
        ret = cat(ret, ") {\n");
        ret = cat(ret, indent(body.as_str()).as_str());
        ret = cat(ret, "\n}\n        ");
        trim(ret.as_str())
    }

    #[verifier::rlimit(40)]
    fn gen_visit_enum(&self, body: &NamedRuleBody) -> (r: String)
        ensures
            r@ == visit_enum_of(body@),
    {
        let variant = self.variant_name(&body.name.t);
        let ret = match &body.body {
            Some(b) => {
                let n = b.t.body.len();
                let mut vars: Vec<String> = Vec::new();
                let mut i: usize = 0;
                while i < n
                    invariant
                        i <= n,
                        views(vars@) == variables(n as nat).take(i as int),
                    decreases n - i,
                {
                    let t = cat("a".to_owned(), decimal_string(i).as_str());
                    proof {
                        assert(views(vars@.push(t)) == views(vars@).push(t@));
                        assert(variables(n as nat).take(i as int + 1) == variables(n as nat).take(
                            i as int,
                        ).push(t@));
                    }
                    vars.push(t);
                    i += 1;
                }
                proof {
                    assert(variables(n as nat).take(n as int) == variables(n as nat));
                    assert(b@.t.len() == n);
                }
                let inner = self.gen_visit_variable(&b.t, &vars);
                let match_variables = join_all(&vars, ", ");
                let mut s = "\n".to_owned();
                s = cat(s, variant.as_str());
                s = cat(s, "(");
                s = cat(s, match_variables.as_str());
                s = cat(s, ") => {\n");
                s = cat(s, indent(inner.as_str()).as_str());
                cat(s, "\n},\n            ")
            },
            None => cat(variant, " => {},"),
        };
        trim(ret.as_str())
    }

    fn gen_visit_variable(&self, body: &RuleBody, vars: &Vec<String>) -> (r: String)
        requires
            body.body@.len() == vars@.len(),
        ensures
            r@ == join_seq(variable_visits(body@, views(vars@)), "\n"@),
    {
        let ghost all = variable_visits(body@, views(vars@));
        let elems = &body.body;
        let mut parts: Vec<String> = Vec::new();
        let mut i: usize = 0;
        while i < elems.len()
            invariant
                i <= elems.len(),
                elems == &body.body,
                elems@.len() == vars@.len(),
                all == variable_visits(body@, views(vars@)),
                views(parts@) == all.take(i as int),
            decreases elems.len() - i,
        {
            let t = self.gen_visit_element(&elems[i].t, vars[i].as_str());
            proof {
                assert(views(vars@)[i as int] == vars@[i as int]@);
                assert(views(parts@.push(t)) == views(parts@).push(t@));
                assert(all.take(i as int + 1) == all.take(i as int).push(t@));
            }
            parts.push(t);
            i += 1;
        }
        proof {
            assert(all.take(elems@.len() as int) == all);
        }
        join_all(&parts, "\n")
    }

    fn gen_visit_struct(&self, body: &RuleBody, prefix: &str) -> (r: String)
        ensures
            r@ == join_seq(field_visits(body@, prefix@), "\n"@),
    {
        let ghost all = field_visits(body@, prefix@);
        let elems = &body.body;
        let mut parts: Vec<String> = Vec::new();
        let mut i: usize = 0;
        while i < elems.len()
            invariant
                i <= elems.len(),
                elems == &body.body,
                all == field_visits(body@, prefix@),
                views(parts@) == all.take(i as int),
            decreases elems.len() - i,
        {
            let t = self.gen_visit_field(&elems[i].t, prefix);
            proof {
                assert(views(parts@.push(t)) == views(parts@).push(t@));
                assert(all.take(i as int + 1) == all.take(i as int).push(t@));
            }
            parts.push(t);
            i += 1;
        }
        proof {
            assert(all.take(elems@.len() as int) == all);
        }
        join_all(&parts, "\n")
    }

    fn gen_visit_field(&self, ele: &RuleElement, prefix: &str) -> (r: String)
        ensures
            r@ == visit_field_of(ele@, prefix@),
    {
        let field = self.field_name(ele);
        let field = cat(prefix.to_owned(), field.as_str());
        self.gen_visit_element(ele, field.as_str())
    }

    fn gen_visit_element(&self, ele: &RuleElement, variable: &str) -> (r: String)
        ensures
            r@ == visit_element_of(ele@, variable@),
    {
        let visit = visit_name(&ele.nt.t);
        let ret = match &ele.quantifier {
            Some(d) => match d.t {
                Quantifier::Maybe => {
                    let mut s = "\nif let Some(d) = ".to_owned();
                    s = cat(s, variable);
                    s = cat(s, " {\n    v.");
                    s = cat(s, visit.as_str());
                    cat(s, "(d);\n}\n                ")
                },
                _ => {
                    let mut s = "\nfor d in ".to_owned();
                    s = cat(s, variable);
                    s = cat(s, " {\n    v.");
                    s = cat(s, visit.as_str());
                    cat(s, "(d);\n}\n                ")
                },
            },
            None => {
                let mut s = "v.".to_owned();
                s = cat(s, visit.as_str());
                s = cat(s, "(");
                s = cat(s, variable);
                cat(s, ");")
            },
        };
        trim(ret.as_str())
    }
}

} // verus!
