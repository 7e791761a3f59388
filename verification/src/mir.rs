//! The semantic model of a grammar: validation, the boxed rules and the classes of the
//! names that rule bodies refer to.

use crate::ast::{
    attr_views, element_views, named_views, rule_views, Attr, Grammar, GrammarView, Ident,
    NamedRuleBody, NamedRuleBodyView, Rule, RuleBody, RuleBodyView, RuleElementView, RuleKind,
    RuleKindView, RuleView,
};
use crate::ast_meta::{NodeView, N};
use crate::name_set::{
    distinct, lemma_distinct_contains, name_seq, name_set_insert, name_set_new, noted,
};
use crate::text::{chars_of, str_eq};
use crate::util::{is_std_primary, std_primary};
use indexmap::IndexSet;
use std::hash::RandomState;
use vstd::prelude::*;

verus! {

/// Whether `char::is_lowercase` holds of a character.
pub uninterp spec fn lowercase(c: char) -> bool;

/// Whether `char::is_numeric` holds of a character.
pub uninterp spec fn numeric(c: char) -> bool;

/// `char::is_lowercase`: whether the character has the Unicode property `Lowercase`.
#[verifier::external_body]
pub(crate) fn char_is_lowercase(c: char) -> (r: bool)
    ensures
        r == lowercase(c),
{
    c.is_lowercase()
}

/// `char::is_numeric`: whether the character is in one of the Unicode number
/// categories.
#[verifier::external_body]
pub(crate) fn char_is_numeric(c: char) -> (r: bool)
    ensures
        r == numeric(c),
{
    c.is_numeric()
}

/// The characters that an identifier may hold.
pub open spec fn ident_char(c: char) -> bool {
    c == '_' || lowercase(c) || numeric(c)
}

/// Whether a name is made of lower-case letters, digits and underscores alone.
pub open spec fn valid_ident(name: Seq<char>) -> bool {
    forall|i: int| 0 <= i < name.len() ==> ident_char(#[trigger] name[i])
}

/// Whether an attribute is one that the language knows: only `box` is.
pub open spec fn allowed_attr(name: Seq<char>) -> bool {
    name == "box"@
}

/// The names that stand for a production that is built in.
pub open spec fn reserved_word(name: Seq<char>) -> bool {
    name == "string"@
}

/// The identifiers of a rule element: the binding name, if there is one, and the name
/// referred to.
pub open spec fn element_idents(e: RuleElementView) -> Seq<NodeView<Seq<char>>> {
    match e.name {
        Some(n) => seq![n, e.nt],
        None => seq![e.nt],
    }
}

/// The identifiers of a rule body, element by element.
pub open spec fn body_idents(b: RuleBodyView) -> Seq<NodeView<Seq<char>>>
    decreases b.len(),
{
    if b.len() == 0 {
        Seq::empty()
    } else {
        body_idents(b.drop_last()) + element_idents(b.last().t)
    }
}

/// The identifiers of an alternative: the name of the variant, then those of its body.
pub open spec fn named_idents(a: NamedRuleBodyView) -> Seq<NodeView<Seq<char>>> {
    seq![a.name] + match a.body {
        Some(b) => body_idents(b.t),
        None => Seq::empty(),
    }
}

/// The identifiers of a list of alternatives.
pub open spec fn alts_idents(alts: Seq<NodeView<NamedRuleBodyView>>) -> Seq<NodeView<Seq<char>>>
    decreases alts.len(),
{
    if alts.len() == 0 {
        Seq::empty()
    } else {
        alts_idents(alts.drop_last()) + named_idents(alts.last().t)
    }
}

/// The identifiers of a rule: its name, then those of its right-hand side.
pub open spec fn rule_idents(r: RuleView) -> Seq<NodeView<Seq<char>>> {
    seq![r.name] + match r.kind {
        RuleKindView::Enum(alts) => alts_idents(alts),
        RuleKindView::Normal(b) => body_idents(b.t),
    }
}

/// Every identifier of a grammar, in the order of the text.
pub open spec fn grammar_idents(g: GrammarView) -> Seq<NodeView<Seq<char>>>
    decreases g.len(),
{
    if g.len() == 0 {
        Seq::empty()
    } else {
        grammar_idents(g.drop_last()) + rule_idents(g.last().t)
    }
}

/// Every attribute of a grammar, in the order of the text.
pub open spec fn grammar_attrs(g: GrammarView) -> Seq<NodeView<Seq<char>>>
    decreases g.len(),
{
    if g.len() == 0 {
        Seq::empty()
    } else {
        grammar_attrs(g.drop_last()) + g.last().t.attrs
    }
}

/// The nodes of `s` whose names are no valid identifiers.
pub open spec fn invalid_among(s: Seq<NodeView<Seq<char>>>) -> Seq<NodeView<Seq<char>>>
    decreases s.len(),
{
    if s.len() == 0 {
        Seq::empty()
    } else if valid_ident(s.last().t) {
        invalid_among(s.drop_last())
    } else {
        invalid_among(s.drop_last()).push(s.last())
    }
}

/// The nodes of `s` whose names are no attributes that the language knows.
pub open spec fn unknown_among(s: Seq<NodeView<Seq<char>>>) -> Seq<NodeView<Seq<char>>>
    decreases s.len(),
{
    if s.len() == 0 {
        Seq::empty()
    } else if allowed_attr(s.last().t) {
        unknown_among(s.drop_last())
    } else {
        unknown_among(s.drop_last()).push(s.last())
    }
}

/// The invalid identifiers of a grammar, in the order of the text.
pub open spec fn invalid_idents(g: GrammarView) -> Seq<NodeView<Seq<char>>> {
    invalid_among(grammar_idents(g))
}

/// The unknown attributes of a grammar, in the order of the text.
pub open spec fn invalid_attrs(g: GrammarView) -> Seq<NodeView<Seq<char>>> {
    unknown_among(grammar_attrs(g))
}

/// The names that a rule body refers to.
pub open spec fn body_refs(b: RuleBodyView) -> Seq<Seq<char>> {
    b.map_values(|e: NodeView<RuleElementView>| e.t.nt.t)
}

/// The names that the bodies of a list of alternatives refer to. The names of the
/// variants are no references.
pub open spec fn alts_refs(alts: Seq<NodeView<NamedRuleBodyView>>) -> Seq<Seq<char>>
    decreases alts.len(),
{
    if alts.len() == 0 {
        Seq::empty()
    } else {
        alts_refs(alts.drop_last()) + match alts.last().t.body {
            Some(b) => body_refs(b.t),
            None => Seq::empty(),
        }
    }
}

/// The names that a rule refers to.
pub open spec fn rule_refs(r: RuleView) -> Seq<Seq<char>> {
    match r.kind {
        RuleKindView::Enum(alts) => alts_refs(alts),
        RuleKindView::Normal(b) => body_refs(b.t),
    }
}

/// Every name that a rule body of the grammar refers to, in the order of the text.
pub open spec fn grammar_refs(g: GrammarView) -> Seq<Seq<char>>
    decreases g.len(),
{
    if g.len() == 0 {
        Seq::empty()
    } else {
        grammar_refs(g.drop_last()) + rule_refs(g.last().t)
    }
}

/// Whether the grammar has a rule of this name.
pub open spec fn defined(g: GrammarView, name: Seq<char>) -> bool {
    exists|k: int| 0 <= k < g.len() && (#[trigger] g[k]).t.name.t == name
}

/// The class of a name that a rule body refers to.
#[derive(Debug, Clone, Copy, PartialEq, Eq, Structural)]
pub enum Class {
    /// A built-in primitive type.
    Primitive,
    /// A production that is built in.
    Reserved,
    /// A rule of the grammar.
    Defined,
    /// A terminal type that is supplied from outside.
    Leaf,
}

/// The class of a name: the first that fits of primitive, reserved, defined, leaf.
pub open spec fn class_of(g: GrammarView, name: Seq<char>) -> Class {
    if std_primary(name) {
        Class::Primitive
    } else if reserved_word(name) {
        Class::Reserved
    } else if defined(g, name) {
        Class::Defined
    } else {
        Class::Leaf
    }
}

/// The names of `s` that are of class `c`, in order.
pub open spec fn of_class(g: GrammarView, s: Seq<Seq<char>>, c: Class) -> Seq<Seq<char>>
    decreases s.len(),
{
    if s.len() == 0 {
        Seq::empty()
    } else if class_of(g, s.last()) == c {
        of_class(g, s.drop_last(), c).push(s.last())
    } else {
        of_class(g, s.drop_last(), c)
    }
}

/// The distinct names of class `c` that the grammar refers to, each at the place of its
/// first occurrence.
pub open spec fn class_names(g: GrammarView, c: Class) -> Seq<Seq<char>> {
    distinct(of_class(g, grammar_refs(g), c))
}

/// Whether a rule carries the attribute `box`.
pub open spec fn has_box(r: RuleView) -> bool {
    exists|k: int| 0 <= k < r.attrs.len() && (#[trigger] r.attrs[k]).t == "box"@
}

/// The names of the rules that carry the attribute `box`, in the order of the text.
pub open spec fn boxed(g: GrammarView) -> Seq<NodeView<Seq<char>>>
    decreases g.len(),
{
    if g.len() == 0 {
        Seq::empty()
    } else if has_box(g.last().t) {
        boxed(g.drop_last()).push(g.last().t.name)
    } else {
        boxed(g.drop_last())
    }
}

/// The views of a list of identifier nodes.
pub open spec fn ident_views(v: Seq<&N<Ident>>) -> Seq<NodeView<Seq<char>>> {
    v.map_values(|n: &N<Ident>| n@)
}

/// The views of a list of attribute nodes.
pub open spec fn attr_ref_views(v: Seq<&N<Attr>>) -> Seq<NodeView<Seq<char>>> {
    v.map_values(|n: &N<Attr>| n@)
}

/// The names of a list of identifier nodes.
pub open spec fn ident_names(v: Seq<&N<Ident>>) -> Seq<Seq<char>> {
    v.map_values(|n: &N<Ident>| n.t@)
}

/// A node is reported as an invalid identifier exactly when it is one of the nodes
/// looked at and its name is no valid identifier.
pub proof fn lemma_invalid_among(s: Seq<NodeView<Seq<char>>>, n: NodeView<Seq<char>>)
    ensures
        invalid_among(s).contains(n) <==> s.contains(n) && !valid_ident(n.t),
        invalid_among(s).len() <= s.len(),
    decreases s.len(),
{
    if s.len() > 0 {
        let init = s.drop_last();
        let x = s.last();
        let d = invalid_among(init);
        lemma_invalid_among(init, n);
        if invalid_among(s).contains(n) {
            let k = choose|k: int| 0 <= k < invalid_among(s).len() && invalid_among(s)[k] == n;
            if valid_ident(x.t) || k < d.len() {
                assert(d.contains(n)) by {
                    if !valid_ident(x.t) {
                        assert(d[k] == n);
                    }
                }
                let j = choose|j: int| 0 <= j < init.len() && init[j] == n;
                assert(s[j] == n);
            } else {
                assert(s[s.len() - 1] == n);
            }
        }
        if s.contains(n) && !valid_ident(n.t) {
            let k = choose|k: int| 0 <= k < s.len() && s[k] == n;
            if k < s.len() - 1 {
                assert(init[k] == n);
                let j = choose|j: int| 0 <= j < d.len() && d[j] == n;
                assert(invalid_among(s)[j] == n);
            } else {
                assert(d.push(x)[d.len() as int] == n);
            }
        }
    }
}

/// A node is reported as an unknown attribute exactly when it is one of the nodes
/// looked at and its name is not allowed.
pub proof fn lemma_unknown_among(s: Seq<NodeView<Seq<char>>>, n: NodeView<Seq<char>>)
    ensures
        unknown_among(s).contains(n) <==> s.contains(n) && !allowed_attr(n.t),
        unknown_among(s).len() <= s.len(),
    decreases s.len(),
{
    if s.len() > 0 {
        let init = s.drop_last();
        let x = s.last();
        let d = unknown_among(init);
        lemma_unknown_among(init, n);
        if unknown_among(s).contains(n) {
            let k = choose|k: int| 0 <= k < unknown_among(s).len() && unknown_among(s)[k] == n;
            if allowed_attr(x.t) || k < d.len() {
                assert(d.contains(n)) by {
                    if !allowed_attr(x.t) {
                        assert(d[k] == n);
                    }
                }
                let j = choose|j: int| 0 <= j < init.len() && init[j] == n;
                assert(s[j] == n);
            } else {
                assert(s[s.len() - 1] == n);
            }
        }
        if s.contains(n) && !allowed_attr(n.t) {
            let k = choose|k: int| 0 <= k < s.len() && s[k] == n;
            if k < s.len() - 1 {
                assert(init[k] == n);
                let j = choose|j: int| 0 <= j < d.len() && d[j] == n;
                assert(unknown_among(s)[j] == n);
            } else {
                assert(d.push(x)[d.len() as int] == n);
            }
        }
    }
}

/// The validation error of a grammar lists exactly its invalid identifiers and exactly
/// its unknown attributes: a node is listed if and only if it stands in the grammar
/// and breaks the rule for its kind.
pub proof fn lemma_validation_complete(g: GrammarView, n: NodeView<Seq<char>>)
    ensures
        invalid_idents(g).contains(n) <==> grammar_idents(g).contains(n) && !valid_ident(n.t),
        invalid_attrs(g).contains(n) <==> grammar_attrs(g).contains(n) && !allowed_attr(n.t),
{
    lemma_invalid_among(grammar_idents(g), n);
    lemma_unknown_among(grammar_attrs(g), n);
}

/// A name is among those of class `c` exactly when it is among the names and of that
/// class.
pub proof fn lemma_of_class(g: GrammarView, s: Seq<Seq<char>>, c: Class, n: Seq<char>)
    ensures
        of_class(g, s, c).contains(n) <==> s.contains(n) && class_of(g, n) == c,
    decreases s.len(),
{
    if s.len() > 0 {
        let init = s.drop_last();
        let x = s.last();
        let d = of_class(g, init, c);
        lemma_of_class(g, init, c, n);
        if of_class(g, s, c).contains(n) {
            let k = choose|k: int| 0 <= k < of_class(g, s, c).len() && of_class(g, s, c)[k] == n;
            if class_of(g, x) != c || k < d.len() {
                assert(d.contains(n)) by {
                    if class_of(g, x) == c {
                        assert(d[k] == n);
                    }
                }
                let j = choose|j: int| 0 <= j < init.len() && init[j] == n;
                assert(s[j] == n);
            } else {
                assert(s[s.len() - 1] == n);
            }
        }
        if s.contains(n) && class_of(g, n) == c {
            let k = choose|k: int| 0 <= k < s.len() && s[k] == n;
            if k < s.len() - 1 {
                assert(init[k] == n);
                let j = choose|j: int| 0 <= j < d.len() && d[j] == n;
                assert(of_class(g, s, c)[j] == n);
            } else {
                assert(d.push(x)[d.len() as int] == n);
            }
        }
    }
}

/// Every name that a rule body refers to belongs to exactly one class: it stands among
/// the primitive names, among the reserved names or among the leaf names exactly when
/// that is its class, and in none of the three exactly when it is a rule of the
/// grammar that is neither primitive nor reserved.
pub proof fn lemma_classification_partition(g: GrammarView, n: Seq<char>)
    requires
        grammar_refs(g).contains(n),
    ensures
        class_names(g, Class::Primitive).contains(n) <==> class_of(g, n) == Class::Primitive,
        class_names(g, Class::Reserved).contains(n) <==> class_of(g, n) == Class::Reserved,
        class_names(g, Class::Leaf).contains(n) <==> class_of(g, n) == Class::Leaf,
        class_names(g, Class::Defined).contains(n) <==> class_of(g, n) == Class::Defined,
        class_of(g, n) == Class::Defined ==> defined(g, n),
        class_of(g, n) == Class::Leaf ==> !defined(g, n),
{
    lemma_of_class(g, grammar_refs(g), Class::Primitive, n);
    lemma_of_class(g, grammar_refs(g), Class::Reserved, n);
    lemma_of_class(g, grammar_refs(g), Class::Leaf, n);
    lemma_of_class(g, grammar_refs(g), Class::Defined, n);
    lemma_distinct_contains(of_class(g, grammar_refs(g), Class::Primitive), n);
    lemma_distinct_contains(of_class(g, grammar_refs(g), Class::Reserved), n);
    lemma_distinct_contains(of_class(g, grammar_refs(g), Class::Leaf), n);
    lemma_distinct_contains(of_class(g, grammar_refs(g), Class::Defined), n);
}

/// The lowered model of a grammar. It borrows the syntax tree.
#[derive(Debug)]
pub struct Mir<'ast> {
    /// The names of the rules that carry the attribute `box`.
    pub boxed_rules: Vec<&'ast N<Ident>>,
    /// The rules, in the order of the text.
    pub rules: &'ast Vec<N<Rule>>,
    /// The names referred to that are neither built in nor rules of the grammar.
    pub leaf_nodes: IndexSet<String, RandomState>,
    /// The names referred to that stand for a production that is built in.
    pub reserved_nodes: IndexSet<String, RandomState>,
    /// The names referred to that are primitive types.
    pub std_primary_nodes: IndexSet<String, RandomState>,
}

/// Why a grammar could not be lowered.
#[derive(Debug, Clone)]
pub enum Error<'ast> {
    /// Every invalid identifier and every unknown attribute of the grammar.
    BasicCheckError(Vec<&'ast N<Ident>>, Vec<&'ast N<Attr>>),
}

impl<'ast> Mir<'ast> {
    /// The grammar that the model was made from.
    pub open spec fn grammar(&self) -> GrammarView {
        rule_views(self.rules@)
    }

    /// Whether the model is the one that lowering gives for its rules.
    pub open spec fn models(&self, g: GrammarView) -> bool {
        &&& rule_views(self.rules@) == g
        &&& ident_views(self.boxed_rules@) == boxed(g)
        &&& name_seq(self.leaf_nodes) == class_names(g, Class::Leaf)
        &&& name_seq(self.reserved_nodes) == class_names(g, Class::Reserved)
        &&& name_seq(self.std_primary_nodes) == class_names(g, Class::Primitive)
    }

    /// Whether a rule of this name carries the attribute `box`.
    pub open spec fn boxes(&self, name: Seq<char>) -> bool {
        ident_names(self.boxed_rules@).contains(name)
    }

    pub fn is_boxed(&self, id: &Ident) -> (r: bool)
        ensures
            r == self.boxes(id@),
    {
        let mut i: usize = 0;
        while i < self.boxed_rules.len()
            invariant
                i <= self.boxed_rules.len(),
                forall|k: int| 0 <= k < i ==> (#[trigger] self.boxed_rules@[k]).t@ != id@,
            decreases self.boxed_rules.len() - i,
        {
            if str_eq(self.boxed_rules[i].t.to_str(), id.to_str()) {
                proof {
                    assert(ident_names(self.boxed_rules@)[i as int] == id@);
                }
                return true;
            }
            i += 1;
        }
        proof {
            if ident_names(self.boxed_rules@).contains(id@) {
                let k = choose|k: int|
                    0 <= k < ident_names(self.boxed_rules@).len() && ident_names(
                        self.boxed_rules@,
                    )[k] == id@;
                assert(self.boxed_rules@[k].t@ == id@);
            }
        }
        false
    }

    /// The rule of this name. Of two rules with one name the later one is found.
    pub fn rule(&self, name: &str) -> (r: Option<&'ast N<Rule>>)
        ensures
            r is Some <==> defined(self.grammar(), name@),
            r is Some ==> exists|k: int|
                0 <= k < self.rules@.len() && *r->0 == #[trigger] self.rules@[k] && r->0.t.name.t@
                    == name@ && forall|j: int|
                    k < j < self.rules@.len() ==> (#[trigger] self.rules@[j]).t.name.t@ != name@,
    {
        find_rule(self.rules, name)
    }
}

/// The last rule of this name.
fn find_rule<'a>(rules: &'a Vec<N<Rule>>, name: &str) -> (r: Option<&'a N<Rule>>)
    ensures
        r is Some <==> defined(rule_views(rules@), name@),
        r is Some ==> exists|k: int|
            0 <= k < rules@.len() && *r->0 == #[trigger] rules@[k] && r->0.t.name.t@ == name@
                && forall|j: int| k < j < rules@.len() ==> (#[trigger] rules@[j]).t.name.t@ != name@,
{
    let mut i: usize = rules.len();
    while i > 0
        invariant
            i <= rules.len(),
            forall|j: int| i <= j < rules@.len() ==> (#[trigger] rules@[j]).t.name.t@ != name@,
        decreases i,
    {
        i -= 1;
        if str_eq(rules[i].t.name.t.to_str(), name) {
            proof {
                assert(rule_views(rules@)[i as int].t.name.t == name@);
            }
            return Some(&rules[i]);
        }
    }
    proof {
        if defined(rule_views(rules@), name@) {
            let k = choose|k: int|
                0 <= k < rule_views(rules@).len() && (#[trigger] rule_views(rules@)[k]).t.name.t
                    == name@;
            assert(rules@[k].t.name.t@ == name@);
        }
    }
    None
}

/// Whether a name is made of lower-case letters, digits and underscores alone.
pub fn is_valid_ident(name: &str) -> (r: bool)
    ensures
        r == valid_ident(name@),
{
    let v = chars_of(name);
    let mut i: usize = 0;
    while i < v.len()
        invariant
            i <= v.len(),
            v@ == name@,
            forall|k: int| 0 <= k < i ==> ident_char(#[trigger] v@[k]),
        decreases v.len() - i,
    {
        let c = v[i];
        if !(c == '_' || char_is_lowercase(c) || char_is_numeric(c)) {
            proof {
                assert(!ident_char(name@[i as int]));
            }
            return false;
        }
        i += 1;
    }
    true
}

#[verifier::rlimit(40)]
fn body_idents_into<'a>(body: &'a N<RuleBody>, out: &mut Vec<&'a N<Ident>>)
    ensures
        ident_views(final(out)@) == ident_views(old(out)@) + body_idents(body@.t),
{
    let elems = &body.t.body;
    let mut i: usize = 0;
    proof {
        assert(ident_views(out@) + Seq::empty() == ident_views(out@));
    }
    while i < elems.len()
        invariant
            i <= elems.len(),
            elems == &body.t.body,
            ident_views(out@) == ident_views(old(out)@) + body_idents(
                element_views(elems@).take(i as int),
            ),
        decreases elems.len() - i,
    {
        let e = &elems[i];
        let ghost before = out@;
        let ghost done = element_views(elems@).take(i as int);
        proof {
            let next = element_views(elems@).take(i as int + 1);
            assert(next.drop_last() == done);
            assert(next.last() == e@);
        }
        match &e.t.name {
            Some(n) => {
                out.push(n);
                proof {
                    assert(ident_views(before.push(n)) == ident_views(before).push(n@));
                }
            },
            None => {},
        }
        let ghost mid = out@;
        out.push(&e.t.nt);
        proof {
            assert(ident_views(mid.push(&e.t.nt)) == ident_views(mid).push(e.t.nt@));
            assert(ident_views(out@) == ident_views(before) + element_idents(e@.t));
            assert(ident_views(old(out)@) + body_idents(done) + element_idents(e@.t)
                == ident_views(old(out)@) + (body_idents(done) + element_idents(e@.t)));
        }
        i += 1;
    }
    proof {
        assert(element_views(elems@).take(elems@.len() as int) == element_views(elems@));
    }
}

#[verifier::rlimit(40)]
fn alts_idents_into<'a>(alts: &'a Vec<N<NamedRuleBody>>, out: &mut Vec<&'a N<Ident>>)
    ensures
        ident_views(final(out)@) == ident_views(old(out)@) + alts_idents(named_views(alts@)),
{
    let mut i: usize = 0;
    proof {
        assert(ident_views(out@) + Seq::empty() == ident_views(out@));
    }
    while i < alts.len()
        invariant
            i <= alts.len(),
            ident_views(out@) == ident_views(old(out)@) + alts_idents(
                named_views(alts@).take(i as int),
            ),
        decreases alts.len() - i,
    {
        let a = &alts[i];
        let ghost before = out@;
        let ghost done = named_views(alts@).take(i as int);
        proof {
            let next = named_views(alts@).take(i as int + 1);
            assert(next.drop_last() == done);
            assert(next.last() == a@);
        }
        out.push(&a.t.name);
        proof {
            assert(ident_views(before.push(&a.t.name)) == ident_views(before).push(a.t.name@));
        }
        let ghost mid = out@;
        match &a.t.body {
            Some(b) => {
                body_idents_into(b, out);
            },
            None => {
                proof {
                    assert(ident_views(out@) + Seq::empty() == ident_views(out@));
                }
            },
        }
        proof {
            assert(ident_views(out@) == ident_views(before) + named_idents(a@.t));
            assert(ident_views(old(out)@) + alts_idents(done) + named_idents(a@.t) == ident_views(
                old(out)@,
            ) + (alts_idents(done) + named_idents(a@.t)));
        }
        i += 1;
    }
    proof {
        assert(named_views(alts@).take(alts@.len() as int) == named_views(alts@));
    }
}

/// Every identifier of the rules, in the order of the text.
#[verifier::rlimit(40)]
fn collect_idents<'a>(rules: &'a Vec<N<Rule>>) -> (out: Vec<&'a N<Ident>>)
    ensures
        ident_views(out@) == grammar_idents(rule_views(rules@)),
{
    let mut out: Vec<&'a N<Ident>> = Vec::new();
    let mut i: usize = 0;
    proof {
        assert(ident_views(out@) == Seq::<NodeView<Seq<char>>>::empty());
    }
    while i < rules.len()
        invariant
            i <= rules.len(),
            ident_views(out@) == grammar_idents(rule_views(rules@).take(i as int)),
        decreases rules.len() - i,
    {
        let r = &rules[i];
        let ghost before = out@;
        let ghost done = rule_views(rules@).take(i as int);
        proof {
            let next = rule_views(rules@).take(i as int + 1);
            assert(next.drop_last() == done);
            assert(next.last() == r@);
        }
        out.push(&r.t.name);
        proof {
            assert(ident_views(before.push(&r.t.name)) == ident_views(before).push(r.t.name@));
        }
        match &r.t.kind {
            RuleKind::Enum(alts) => {
                alts_idents_into(alts, &mut out);
            },
            RuleKind::Normal(b) => {
                body_idents_into(b, &mut out);
            },
        }
        proof {
            assert(ident_views(out@) == ident_views(before) + rule_idents(r@.t));
        }
        i += 1;
    }
    proof {
        assert(rule_views(rules@).take(rules@.len() as int) == rule_views(rules@));
    }
    out
}

/// Every attribute of the rules, in the order of the text.
#[verifier::rlimit(40)]
fn collect_attrs<'a>(rules: &'a Vec<N<Rule>>) -> (out: Vec<&'a N<Attr>>)
    ensures
        attr_ref_views(out@) == grammar_attrs(rule_views(rules@)),
{
    let mut out: Vec<&'a N<Attr>> = Vec::new();
    let mut i: usize = 0;
    proof {
        assert(attr_ref_views(out@) == Seq::<NodeView<Seq<char>>>::empty());
    }
    while i < rules.len()
        invariant
            i <= rules.len(),
            attr_ref_views(out@) == grammar_attrs(rule_views(rules@).take(i as int)),
        decreases rules.len() - i,
    {
        let r = &rules[i];
        let ghost before = out@;
        proof {
            let next = rule_views(rules@).take(i as int + 1);
            assert(next.drop_last() == rule_views(rules@).take(i as int));
            assert(next.last() == r@);
        }
        let mut j: usize = 0;
        proof {
            assert(attr_ref_views(out@) + Seq::empty() == attr_ref_views(out@));
        }
        while j < r.t.attrs.len()
            invariant
                j <= r.t.attrs.len(),
                attr_ref_views(out@) == attr_ref_views(before) + attr_views(r.t.attrs@).take(
                    j as int,
                ),
            decreases r.t.attrs.len() - j,
        {
            let a = &r.t.attrs[j];
            let ghost mid = out@;
            out.push(a);
            proof {
                assert(attr_ref_views(mid.push(a)) == attr_ref_views(mid).push(a@));
                assert(attr_views(r.t.attrs@).take(j as int + 1) == attr_views(r.t.attrs@).take(
                    j as int,
                ).push(a@));
            }
            j += 1;
        }
        proof {
            assert(attr_views(r.t.attrs@).take(r.t.attrs@.len() as int) == attr_views(r.t.attrs@));
        }
        i += 1;
    }
    proof {
        assert(rule_views(rules@).take(rules@.len() as int) == rule_views(rules@));
    }
    out
}

fn body_refs_into<'a>(body: &'a N<RuleBody>, out: &mut Vec<&'a N<Ident>>)
    ensures
        ident_names(final(out)@) == ident_names(old(out)@) + body_refs(body@.t),
{
    let elems = &body.t.body;
    let mut i: usize = 0;
    proof {
        assert(ident_names(out@) + Seq::empty() == ident_names(out@));
    }
    while i < elems.len()
        invariant
            i <= elems.len(),
            elems == &body.t.body,
            ident_names(out@) == ident_names(old(out)@) + body_refs(element_views(elems@)).take(
                i as int,
            ),
        decreases elems.len() - i,
    {
        let e = &elems[i];
        let ghost mid = out@;
        out.push(&e.t.nt);
        proof {
            assert(ident_names(mid.push(&e.t.nt)) == ident_names(mid).push(e.t.nt.t@));
            assert(body_refs(element_views(elems@)).take(i as int + 1) == body_refs(
                element_views(elems@),
            ).take(i as int).push(e.t.nt.t@));
        }
        i += 1;
    }
    proof {
        assert(body_refs(element_views(elems@)).take(elems@.len() as int) == body_refs(
            element_views(elems@),
        ));
    }
}

#[verifier::rlimit(40)]
fn alts_refs_into<'a>(alts: &'a Vec<N<NamedRuleBody>>, out: &mut Vec<&'a N<Ident>>)
    ensures
        ident_names(final(out)@) == ident_names(old(out)@) + alts_refs(named_views(alts@)),
{
    let mut i: usize = 0;
    proof {
        assert(ident_names(out@) + Seq::empty() == ident_names(out@));
    }
    while i < alts.len()
        invariant
            i <= alts.len(),
            ident_names(out@) == ident_names(old(out)@) + alts_refs(
                named_views(alts@).take(i as int),
            ),
        decreases alts.len() - i,
    {
        let a = &alts[i];
        let ghost before = out@;
        let ghost done = named_views(alts@).take(i as int);
        proof {
            let next = named_views(alts@).take(i as int + 1);
            assert(next.drop_last() == done);
            assert(next.last() == a@);
        }
        match &a.t.body {
            Some(b) => {
                body_refs_into(b, out);
            },
            None => {
                proof {
                    assert(ident_names(out@) + Seq::empty() == ident_names(out@));
                }
            },
        }
        proof {
            let step = match a@.t.body {
                Some(b) => body_refs(b.t),
                None => Seq::empty(),
            };
            assert(ident_names(out@) == ident_names(before) + step);
            assert(ident_names(old(out)@) + alts_refs(done) + step == ident_names(old(out)@) + (
            alts_refs(done) + step));
        }
        i += 1;
    }
    proof {
        assert(named_views(alts@).take(alts@.len() as int) == named_views(alts@));
    }
}

/// Every name that a rule body refers to, in the order of the text.
#[verifier::rlimit(40)]
fn collect_refs<'a>(rules: &'a Vec<N<Rule>>) -> (out: Vec<&'a N<Ident>>)
    ensures
        ident_names(out@) == grammar_refs(rule_views(rules@)),
{
    let mut out: Vec<&'a N<Ident>> = Vec::new();
    let mut i: usize = 0;
    proof {
        assert(ident_names(out@) == Seq::<Seq<char>>::empty());
    }
    while i < rules.len()
        invariant
            i <= rules.len(),
            ident_names(out@) == grammar_refs(rule_views(rules@).take(i as int)),
        decreases rules.len() - i,
    {
        let r = &rules[i];
        proof {
            let next = rule_views(rules@).take(i as int + 1);
            assert(next.drop_last() == rule_views(rules@).take(i as int));
            assert(next.last() == r@);
        }
        match &r.t.kind {
            RuleKind::Enum(alts) => {
                alts_refs_into(alts, &mut out);
            },
            RuleKind::Normal(b) => {
                body_refs_into(b, &mut out);
            },
        }
        i += 1;
    }
    proof {
        assert(rule_views(rules@).take(rules@.len() as int) == rule_views(rules@));
    }
    out
}

/// The names of the rules that carry the attribute `box`.
#[verifier::rlimit(40)]
fn collect_boxed<'a>(rules: &'a Vec<N<Rule>>) -> (out: Vec<&'a N<Ident>>)
    ensures
        ident_views(out@) == boxed(rule_views(rules@)),
{
    let mut out: Vec<&'a N<Ident>> = Vec::new();
    let mut i: usize = 0;
    proof {
        assert(ident_views(out@) == Seq::<NodeView<Seq<char>>>::empty());
    }
    while i < rules.len()
        invariant
            i <= rules.len(),
            ident_views(out@) == boxed(rule_views(rules@).take(i as int)),
        decreases rules.len() - i,
    {
        let r = &rules[i];
        proof {
            let next = rule_views(rules@).take(i as int + 1);
            assert(next.drop_last() == rule_views(rules@).take(i as int));
            assert(next.last() == r@);
        }
        let mut j: usize = 0;
        let mut found = false;
        while j < r.t.attrs.len() && !found
            invariant
                j <= r.t.attrs.len(),
                found ==> has_box(r@.t),
                !found ==> forall|k: int| 0 <= k < j ==> (#[trigger] r@.t.attrs[k]).t != "box"@,
            decreases r.t.attrs.len() - j, if found { 0int } else { 1int },
        {
            if str_eq(r.t.attrs[j].t.to_str(), "box") {
                found = true;
                proof {
                    assert(r@.t.attrs[j as int].t == "box"@);
                }
            } else {
                j += 1;
            }
        }
        if found {
            let ghost mid = out@;
            out.push(&r.t.name);
            proof {
                assert(ident_views(mid.push(&r.t.name)) == ident_views(mid).push(r.t.name@));
            }
        }
        i += 1;
    }
    proof {
        assert(rule_views(rules@).take(rules@.len() as int) == rule_views(rules@));
    }
    out
}

/// Lowers a grammar. Every identifier and every attribute is checked first; if any is
/// invalid, all of them are reported and nothing else is done. Otherwise the boxed
/// rules are noted and each name that a rule body refers to is put into its class.
#[verifier::rlimit(40)]
pub fn lower<'a>(grammar: &'a N<Grammar>) -> (r: Result<Mir<'a>, Error<'a>>)
    ensures
        match r {
            Ok(mir) => invalid_idents(grammar@.t).len() == 0 && invalid_attrs(grammar@.t).len()
                == 0 && mir.rules == &grammar.t.rules && mir.models(grammar@.t),
            Err(Error::BasicCheckError(ids, attrs)) => ident_views(ids@) == invalid_idents(
                grammar@.t,
            ) && attr_ref_views(attrs@) == invalid_attrs(grammar@.t) && ids@.len() + attrs@.len()
                > 0,
        },
{
    let rules = &grammar.t.rules;
    let idents = collect_idents(rules);
    let mut invalid_ids: Vec<&'a N<Ident>> = Vec::new();
    let mut i: usize = 0;
    proof {
        assert(ident_views(invalid_ids@) == Seq::<NodeView<Seq<char>>>::empty());
    }
    while i < idents.len()
        invariant
            i <= idents.len(),
            ident_views(invalid_ids@) == invalid_among(ident_views(idents@).take(i as int)),
        decreases idents.len() - i,
    {
        let n = idents[i];
        proof {
            let next = ident_views(idents@).take(i as int + 1);
            assert(next.drop_last() == ident_views(idents@).take(i as int));
            assert(next.last() == n@);
        }
        if !is_valid_ident(n.t.to_str()) {
            let ghost mid = invalid_ids@;
            invalid_ids.push(n);
            proof {
                assert(ident_views(mid.push(n)) == ident_views(mid).push(n@));
            }
        }
        i += 1;
    }
    proof {
        assert(ident_views(idents@).take(idents@.len() as int) == ident_views(idents@));
    }
    let attrs = collect_attrs(rules);
    let mut invalid_attrs: Vec<&'a N<Attr>> = Vec::new();
    let mut j: usize = 0;
    proof {
        assert(attr_ref_views(invalid_attrs@) == Seq::<NodeView<Seq<char>>>::empty());
    }
    while j < attrs.len()
        invariant
            j <= attrs.len(),
            attr_ref_views(invalid_attrs@) == unknown_among(attr_ref_views(attrs@).take(j as int)),
        decreases attrs.len() - j,
    {
        let a = attrs[j];
        proof {
            let next = attr_ref_views(attrs@).take(j as int + 1);
            assert(next.drop_last() == attr_ref_views(attrs@).take(j as int));
            assert(next.last() == a@);
        }
        if !str_eq(a.t.to_str(), "box") {
            let ghost mid = invalid_attrs@;
            invalid_attrs.push(a);
            proof {
                assert(attr_ref_views(mid.push(a)) == attr_ref_views(mid).push(a@));
            }
        }
        j += 1;
    }
    proof {
        assert(attr_ref_views(attrs@).take(attrs@.len() as int) == attr_ref_views(attrs@));
    }
    if invalid_ids.len() > 0 || invalid_attrs.len() > 0 {
        return Err(Error::BasicCheckError(invalid_ids, invalid_attrs));
    }
    let ghost g = rule_views(rules@);
    let boxed_rules = collect_boxed(rules);
    let refs = collect_refs(rules);
    let mut leaf_nodes = name_set_new();
    let mut reserved_nodes = name_set_new();
    let mut std_primary_nodes = name_set_new();
    let mut k: usize = 0;
    while k < refs.len()
        invariant
            k <= refs.len(),
            g == rule_views(rules@),
            name_seq(leaf_nodes) == distinct(
                of_class(g, ident_names(refs@).take(k as int), Class::Leaf),
            ),
            name_seq(reserved_nodes) == distinct(
                of_class(g, ident_names(refs@).take(k as int), Class::Reserved),
            ),
            name_seq(std_primary_nodes) == distinct(
                of_class(g, ident_names(refs@).take(k as int), Class::Primitive),
            ),
        decreases refs.len() - k,
    {
        let n = refs[k];
        let name = n.t.to_str();
        proof {
            let next = ident_names(refs@).take(k as int + 1);
            assert(next.drop_last() == ident_names(refs@).take(k as int));
            assert(next.last() == name@);
        }
        if is_std_primary(name) {
            name_set_insert(&mut std_primary_nodes, name.to_owned());
        } else if str_eq(name, "string") {
            name_set_insert(&mut reserved_nodes, name.to_owned());
        } else if find_rule(rules, name).is_none() {
            name_set_insert(&mut leaf_nodes, name.to_owned());
        }
        proof {
            let all = ident_names(refs@).take(k as int + 1);
            let c = class_of(g, name@);
            assert(forall|d: Class|
                d != c ==> #[trigger] of_class(g, all, d) == of_class(g, all.drop_last(), d));
            assert(of_class(g, all, c).drop_last() == of_class(g, all.drop_last(), c));
        }
        k += 1;
    }
    proof {
        assert(ident_names(refs@).take(refs@.len() as int) == ident_names(refs@));
    }
    Ok(Mir { boxed_rules, rules, leaf_nodes, reserved_nodes, std_primary_nodes })
}

} // verus!
