//! The syntax tree of a grammar file.

use crate::ast_meta::{NodeView, N};
use vstd::prelude::*;

verus! {

#[derive(Debug, Clone)]
pub struct Grammar {
    pub rules: Vec<N<Rule>>,
}

#[derive(Debug, Clone)]
pub struct Rule {
    pub attrs: Vec<N<Attr>>,
    pub name: N<Ident>,
    pub kind: RuleKind,
}

#[derive(Debug, Clone)]
pub enum RuleKind {
    Enum(Vec<N<NamedRuleBody>>),
    Normal(N<RuleBody>),
}

#[derive(Debug, Clone)]
pub struct NamedRuleBody {
    pub name: N<Ident>,
    pub body: Option<N<RuleBody>>,
}

#[derive(Debug, Clone)]
pub struct RuleBody {
    pub body: Vec<N<RuleElement>>,
}

#[derive(Debug, Clone)]
pub struct RuleElement {
    pub name: Option<N<Ident>>,
    pub nt: N<Ident>,
    pub quantifier: Option<N<Quantifier>>,
}

#[derive(Debug, Clone, Copy, Eq, PartialEq, Structural)]
pub enum Quantifier {
    /// ?
    Maybe,
    /// *
    Multi,
    /// +
    AtLeastOne,
}

#[derive(Debug, Clone, Eq, PartialEq, Hash)]
pub struct Ident {
    pub name: String,
}

#[derive(Debug, Clone)]
pub struct Attr {
    pub name: String,
}

pub struct RuleElementView {
    pub name: Option<NodeView<Seq<char>>>,
    pub nt: NodeView<Seq<char>>,
    pub quantifier: Option<NodeView<Quantifier>>,
}

pub type RuleBodyView = Seq<NodeView<RuleElementView>>;

pub struct NamedRuleBodyView {
    pub name: NodeView<Seq<char>>,
    pub body: Option<NodeView<RuleBodyView>>,
}

pub enum RuleKindView {
    Enum(Seq<NodeView<NamedRuleBodyView>>),
    Normal(NodeView<RuleBodyView>),
}

pub struct RuleView {
    pub attrs: Seq<NodeView<Seq<char>>>,
    pub name: NodeView<Seq<char>>,
    pub kind: RuleKindView,
}

pub type GrammarView = Seq<NodeView<RuleView>>;

/// The views of a list of rule elements.
pub open spec fn element_views(v: Seq<N<RuleElement>>) -> RuleBodyView {
    v.map_values(|e: N<RuleElement>| e@)
}

/// The views of a list of alternatives.
pub open spec fn named_views(v: Seq<N<NamedRuleBody>>) -> Seq<NodeView<NamedRuleBodyView>> {
    v.map_values(|a: N<NamedRuleBody>| a@)
}

/// The views of a list of attributes.
pub open spec fn attr_views(v: Seq<N<Attr>>) -> Seq<NodeView<Seq<char>>> {
    v.map_values(|a: N<Attr>| a@)
}

/// The views of a list of rules.
pub open spec fn rule_views(v: Seq<N<Rule>>) -> GrammarView {
    v.map_values(|r: N<Rule>| r@)
}

impl View for Ident {
    type V = Seq<char>;

    open spec fn view(&self) -> Seq<char> {
        self.name@
    }
}

impl View for Attr {
    type V = Seq<char>;

    open spec fn view(&self) -> Seq<char> {
        self.name@
    }
}

impl View for Quantifier {
    type V = Quantifier;

    open spec fn view(&self) -> Quantifier {
        *self
    }
}

impl View for RuleElement {
    type V = RuleElementView;

    open spec fn view(&self) -> RuleElementView {
        RuleElementView {
            name: match self.name {
                Some(n) => Some(n@),
                None => None,
            },
            nt: self.nt@,
            quantifier: match self.quantifier {
                Some(q) => Some(q@),
                None => None,
            },
        }
    }
}

impl View for RuleBody {
    type V = RuleBodyView;

    open spec fn view(&self) -> RuleBodyView {
        element_views(self.body@)
    }
}

impl View for NamedRuleBody {
    type V = NamedRuleBodyView;

    open spec fn view(&self) -> NamedRuleBodyView {
        NamedRuleBodyView {
            name: self.name@,
            body: match self.body {
                Some(b) => Some(b@),
                None => None,
            },
        }
    }
}

impl View for RuleKind {
    type V = RuleKindView;

    open spec fn view(&self) -> RuleKindView {
        match self {
            RuleKind::Enum(alts) => RuleKindView::Enum(named_views(alts@)),
            RuleKind::Normal(body) => RuleKindView::Normal(body@),
        }
    }
}

impl View for Rule {
    type V = RuleView;

    open spec fn view(&self) -> RuleView {
        RuleView {
            attrs: attr_views(self.attrs@),
            name: self.name@,
            kind: self.kind@,
        }
    }
}

impl View for Grammar {
    type V = GrammarView;

    open spec fn view(&self) -> GrammarView {
        rule_views(self.rules@)
    }
}

impl RuleElementView {
    /// Whether the element stands for a sequence of nodes.
    pub open spec fn has_many(self) -> bool {
        match self.quantifier {
            Some(q) => q.t == Quantifier::Multi || q.t == Quantifier::AtLeastOne,
            None => false,
        }
    }
}

impl RuleElement {
    /// Whether the element stands for a sequence of nodes.
    pub fn has_many(&self) -> (r: bool)
        ensures
            r == self@.has_many(),
    {
        match &self.quantifier {
            Some(d) => d.t == Quantifier::Multi || d.t == Quantifier::AtLeastOne,
            None => false,
        }
    }
}

impl Quantifier {
    /// The sign that stands for the quantifier in a grammar file.
    pub open spec fn sign(self) -> Seq<char> {
        match self {
            Quantifier::Maybe => "?"@,
            Quantifier::Multi => "*"@,
            Quantifier::AtLeastOne => "+"@,
        }
    }

    pub fn to_str(&self) -> (r: &str)
        ensures
            r@ == self.sign(),
    {
        match self {
            Quantifier::Maybe => "?",
            Quantifier::Multi => "*",
            Quantifier::AtLeastOne => "+",
        }
    }
}

impl Ident {
    pub fn to_str(&self) -> (r: &str)
        ensures
            r@ == self@,
    {
        self.name.as_str()
    }
}

impl Attr {
    pub fn to_str(&self) -> (r: &str)
        ensures
            r@ == self@,
    {
        self.name.as_str()
    }
}

} // verus!
