//! A traversal of the syntax tree: a visitor is handed nodes, and the walk functions
//! hand it the parts of a node in the order of the text.

use crate::ast::{
    Attr, Grammar, Ident, NamedRuleBody, Quantifier, Rule, RuleBody, RuleElement, RuleKind,
};
use crate::ast_meta::N;
use vstd::prelude::*;

verus! {

/// What is handed the nodes of a syntax tree. For each kind of node the visitor says
/// what it is after it was handed such a node; a visitor that does not say so is taken
/// to stay as it is. A method that wants the parts of its node visited calls the walk
/// function for that kind.
pub trait Visitor<'ast>: Sized {
    /// The visitor after it was handed a grammar.
    open spec fn seen_grammar(self, n: N<Grammar>) -> Self {
        self
    }

    /// The visitor after it was handed a rule.
    open spec fn seen_rule(self, n: N<Rule>) -> Self {
        self
    }

    /// The visitor after it was handed an alternative.
    open spec fn seen_named_rule_body(self, n: N<NamedRuleBody>) -> Self {
        self
    }

    /// The visitor after it was handed a rule body.
    open spec fn seen_rule_body(self, n: N<RuleBody>) -> Self {
        self
    }

    /// The visitor after it was handed a rule element.
    open spec fn seen_rule_element(self, n: N<RuleElement>) -> Self {
        self
    }

    /// The visitor after it was handed a quantifier.
    open spec fn seen_quantifier(self, n: N<Quantifier>) -> Self {
        self
    }

    /// The visitor after it was handed an identifier.
    open spec fn seen_ident(self, n: N<Ident>) -> Self {
        self
    }

    /// The visitor after it was handed an attribute.
    open spec fn seen_attr(self, n: N<Attr>) -> Self {
        self
    }

    fn visit_grammar(&mut self, n: &'ast N<Grammar>)
        ensures
            *final(self) == old(self).seen_grammar(*n),
    ;

    fn visit_rule(&mut self, n: &'ast N<Rule>)
        ensures
            *final(self) == old(self).seen_rule(*n),
    ;

    fn visit_named_rule_body(&mut self, n: &'ast N<NamedRuleBody>)
        ensures
            *final(self) == old(self).seen_named_rule_body(*n),
    ;

    fn visit_rule_body(&mut self, n: &'ast N<RuleBody>)
        ensures
            *final(self) == old(self).seen_rule_body(*n),
    ;

    fn visit_rule_element(&mut self, n: &'ast N<RuleElement>)
        ensures
            *final(self) == old(self).seen_rule_element(*n),
    ;

    fn visit_quantifier(&mut self, n: &'ast N<Quantifier>)
        ensures
            *final(self) == old(self).seen_quantifier(*n),
    ;

    fn visit_ident(&mut self, n: &'ast N<Ident>)
        ensures
            *final(self) == old(self).seen_ident(*n),
    ;

    fn visit_attr(&mut self, n: &'ast N<Attr>)
        ensures
            *final(self) == old(self).seen_attr(*n),
    ;
}

/// The visitor after it was handed each rule of `s` in turn.
pub open spec fn walked_rules<'a, V: Visitor<'a>>(v: V, s: Seq<N<Rule>>) -> V
    decreases s.len(),
{
    if s.len() == 0 {
        v
    } else {
        walked_rules(v, s.drop_last()).seen_rule(s.last())
    }
}

/// The visitor after it was handed each attribute of `s` in turn.
pub open spec fn walked_attrs<'a, V: Visitor<'a>>(v: V, s: Seq<N<Attr>>) -> V
    decreases s.len(),
{
    if s.len() == 0 {
        v
    } else {
        walked_attrs(v, s.drop_last()).seen_attr(s.last())
    }
}

/// The visitor after it was handed each alternative of `s` in turn.
pub open spec fn walked_alts<'a, V: Visitor<'a>>(v: V, s: Seq<N<NamedRuleBody>>) -> V
    decreases s.len(),
{
    if s.len() == 0 {
        v
    } else {
        walked_alts(v, s.drop_last()).seen_named_rule_body(s.last())
    }
}

/// The visitor after it was handed each rule element of `s` in turn.
pub open spec fn walked_elements<'a, V: Visitor<'a>>(v: V, s: Seq<N<RuleElement>>) -> V
    decreases s.len(),
{
    if s.len() == 0 {
        v
    } else {
        walked_elements(v, s.drop_last()).seen_rule_element(s.last())
    }
}

/// The visitor after the walk through a rule: it was handed the attributes, then the
/// name, then the alternatives of an enum rule or the body of a normal rule.
pub open spec fn walked_rule<'a, V: Visitor<'a>>(v: V, n: N<Rule>) -> V {
    let named = walked_attrs(v, n.t.attrs@).seen_ident(n.t.name);
    match n.t.kind {
        RuleKind::Enum(b) => walked_alts(named, b@),
        RuleKind::Normal(b) => named.seen_rule_body(b),
    }
}

/// The visitor after the walk through an alternative: it was handed the name, then the
/// body if there is one.
pub open spec fn walked_named_rule_body<'a, V: Visitor<'a>>(v: V, n: N<NamedRuleBody>) -> V {
    match n.t.body {
        Some(d) => v.seen_ident(n.t.name).seen_rule_body(d),
        None => v.seen_ident(n.t.name),
    }
}

/// The visitor after the walk through a rule element: it was handed the binding name
/// if there is one, then the name referred to, then the quantifier if there is one.
pub open spec fn walked_rule_element<'a, V: Visitor<'a>>(v: V, n: N<RuleElement>) -> V {
    let bound = match n.t.name {
        Some(d) => v.seen_ident(d),
        None => v,
    };
    match n.t.quantifier {
        Some(q) => bound.seen_ident(n.t.nt).seen_quantifier(q),
        None => bound.seen_ident(n.t.nt),
    }
}

/// Hands the visitor each rule of the grammar, in the order of the text.
pub fn walk_grammar<'a, V: Visitor<'a>>(v: &mut V, n: &'a N<Grammar>)
    ensures
        *final(v) == walked_rules(*old(v), n.t.rules@),
{
    let rules = &n.t.rules;
    let mut i: usize = 0;
    while i < rules.len()
        invariant
            i <= rules.len(),
            rules == &n.t.rules,
            *v == walked_rules(*old(v), rules@.take(i as int)),
        decreases rules.len() - i,
    {
        proof {
            assert(rules@.take(i as int + 1).drop_last() == rules@.take(i as int));
        }
        v.visit_rule(&rules[i]);
        i += 1;
    }
    proof {
        assert(rules@.take(rules@.len() as int) == rules@);
    }
}

/// Hands the visitor the parts of a rule: its attributes, its name, then its
/// alternatives or its body.
pub fn walk_rule<'a, V: Visitor<'a>>(v: &mut V, n: &'a N<Rule>)
    ensures
        *final(v) == walked_rule(*old(v), *n),
{
    let attrs = &n.t.attrs;
    let mut i: usize = 0;
    while i < attrs.len()
        invariant
            i <= attrs.len(),
            attrs == &n.t.attrs,
            *v == walked_attrs(*old(v), attrs@.take(i as int)),
        decreases attrs.len() - i,
    {
        proof {
            assert(attrs@.take(i as int + 1).drop_last() == attrs@.take(i as int));
        }
        v.visit_attr(&attrs[i]);
        i += 1;
    }
    proof {
        assert(attrs@.take(attrs@.len() as int) == attrs@);
    }
    v.visit_ident(&n.t.name);
    let ghost named = *v;
    match &n.t.kind {
        RuleKind::Enum(b) => {
            let mut j: usize = 0;
            while j < b.len()
                invariant
                    j <= b.len(),
                    *v == walked_alts(named, b@.take(j as int)),
                decreases b.len() - j,
            {
                proof {
                    assert(b@.take(j as int + 1).drop_last() == b@.take(j as int));
                }
                v.visit_named_rule_body(&b[j]);
                j += 1;
            }
            proof {
                assert(b@.take(b@.len() as int) == b@);
            }
        },
        RuleKind::Normal(b) => {
            v.visit_rule_body(b);
        },
    }
}

/// Hands the visitor the parts of an alternative: its name, then its body if it has
/// one.
pub fn walk_named_rule_body<'a, V: Visitor<'a>>(v: &mut V, n: &'a N<NamedRuleBody>)
    ensures
        *final(v) == walked_named_rule_body(*old(v), *n),
{
    v.visit_ident(&n.t.name);
    match &n.t.body {
        Some(d) => {
            v.visit_rule_body(d);
        },
        None => {},
    }
}

/// Hands the visitor each element of a rule body, in the order of the text.
pub fn walk_rule_body<'a, V: Visitor<'a>>(v: &mut V, n: &'a N<RuleBody>)
    ensures
        *final(v) == walked_elements(*old(v), n.t.body@),
{
    let elems = &n.t.body;
    let mut i: usize = 0;
    while i < elems.len()
        invariant
            i <= elems.len(),
            elems == &n.t.body,
            *v == walked_elements(*old(v), elems@.take(i as int)),
        decreases elems.len() - i,
    {
        proof {
            assert(elems@.take(i as int + 1).drop_last() == elems@.take(i as int));
        }
        v.visit_rule_element(&elems[i]);
        i += 1;
    }
    proof {
        assert(elems@.take(elems@.len() as int) == elems@);
    }
}

/// Hands the visitor the parts of a rule element: its binding name if it has one, the
/// name it refers to, then its quantifier if it has one.
pub fn walk_rule_element<'a, V: Visitor<'a>>(v: &mut V, n: &'a N<RuleElement>)
    ensures
        *final(v) == walked_rule_element(*old(v), *n),
{
    match &n.t.name {
        Some(d) => {
            v.visit_ident(d);
        },
        None => {},
    }
    v.visit_ident(&n.t.nt);
    match &n.t.quantifier {
        Some(q) => {
            v.visit_quantifier(q);
        },
        None => {},
    }
}

/// A quantifier has no parts: the visitor stays as it is.
pub fn walk_quantifier<'a, V: Visitor<'a>>(v: &mut V, n: &'a N<Quantifier>)
    ensures
        *final(v) == *old(v),
{
}

/// An identifier has no parts: the visitor stays as it is.
pub fn walk_ident<'a, V: Visitor<'a>>(v: &mut V, n: &'a N<Ident>)
    ensures
        *final(v) == *old(v),
{
}

/// An attribute has no parts: the visitor stays as it is.
pub fn walk_attr<'a, V: Visitor<'a>>(v: &mut V, n: &'a N<Attr>)
    ensures
        *final(v) == *old(v),
{
}

} // verus!
