//! The emitters: from the model of a grammar to the text of the generated modules.

use crate::ast::{rule_views, GrammarView, Ident, Quantifier, Rule, RuleElement, RuleElementView};
use crate::ast_meta::N;
use crate::mir::{ident_names, Mir};
use crate::name_set::{name_seq, name_set_to_vec};
use crate::text::{cat, views};
use crate::util::{camel, camel_case, is_keyword, is_std_primary, keyword, std_primary};
use vstd::prelude::*;

pub mod gen_ast;
pub mod gen_meta;
pub mod gen_parser;
pub mod gen_span;
pub mod gen_visit;

verus! {

/// What the emitters read of a model.
pub struct Model {
    /// The rules, in the order of the text.
    pub rules: GrammarView,
    /// The names of the boxed rules.
    pub boxed: Seq<Seq<char>>,
    /// The distinct leaf names.
    pub leaves: Seq<Seq<char>>,
    /// The distinct reserved names.
    pub reserved: Seq<Seq<char>>,
    /// The distinct primitive names.
    pub primitives: Seq<Seq<char>>,
}

pub struct CodeGen<'ast> {
    mir: Mir<'ast>,
}

/// The name of the type generated for a name of the grammar: a primitive type keeps
/// its name, every other name is put in camel case.
pub open spec fn type_name_of(name: Seq<char>) -> Seq<char> {
    if std_primary(name) {
        name
    } else {
        camel(name)
    }
}

/// The type of a node of the given name: the node wrapper around the named type, which
/// is boxed where the rule is.
pub open spec fn node_type_of(m: Model, name: Seq<char>) -> Seq<char> {
    if m.boxed.contains(name) {
        "N<Box<"@ + type_name_of(name) + ">>"@
    } else {
        "N<"@ + type_name_of(name) + ">"@
    }
}

/// The name of the variant generated for an alternative.
pub open spec fn variant_name_of(name: Seq<char>) -> Seq<char> {
    camel(name)
}

/// The field name before keywords are escaped: the binding name as it is written or,
/// where there is none, the name referred to, with an `s` behind it where the field
/// holds a sequence.
pub open spec fn plain_field_name(e: RuleElementView) -> Seq<char> {
    match e.name {
        Some(d) => d.t,
        None => if e.has_many() {
            e.nt.t + "s"@
        } else {
            e.nt.t
        },
    }
}

/// The name of the field generated for a rule element.
pub open spec fn field_name_of(e: RuleElementView) -> Seq<char> {
    if keyword(plain_field_name(e)) {
        "r#"@ + plain_field_name(e)
    } else {
        plain_field_name(e)
    }
}

/// The type of the field generated for a rule element: the node type of the name
/// referred to, in a `Vec` for `*` and `+`, in an `Option` for `?`.
pub open spec fn quantifier_type_of(m: Model, e: RuleElementView) -> Seq<char> {
    let ty = node_type_of(m, e.nt.t);
    match e.quantifier {
        Some(q) => match q.t {
            Quantifier::Maybe => "Option<"@ + ty + ">"@,
            _ => "Vec<"@ + ty + ">"@,
        },
        None => ty,
    }
}

impl<'ast> CodeGen<'ast> {
    /// What the emitters read of the model.
    pub closed spec fn model(&self) -> Model {
        Model {
            rules: self.mir.grammar(),
            boxed: ident_names(self.mir.boxed_rules@),
            leaves: name_seq(self.mir.leaf_nodes),
            reserved: name_seq(self.mir.reserved_nodes),
            primitives: name_seq(self.mir.std_primary_nodes),
        }
    }

    /// The model that the emitters read is that of `mir`.
    pub open spec fn model_of(mir: Mir<'ast>) -> Model {
        Model {
            rules: mir.grammar(),
            boxed: ident_names(mir.boxed_rules@),
            leaves: name_seq(mir.leaf_nodes),
            reserved: name_seq(mir.reserved_nodes),
            primitives: name_seq(mir.std_primary_nodes),
        }
    }

    pub fn new(mir: Mir<'ast>) -> (cg: Self)
        ensures
            cg.model() == Self::model_of(mir),
    {
        CodeGen { mir }
    }

    /// The rules of the model.
    pub(crate) fn rules(&self) -> (r: &Vec<N<Rule>>)
        ensures
            rule_views(r@) == self.model().rules,
    {
        self.mir.rules
    }

    /// The distinct leaf names of the model.
    pub(crate) fn leaf_names(&self) -> (r: Vec<String>)
        ensures
            views(r@) == self.model().leaves,
    {
        name_set_to_vec(&self.mir.leaf_nodes)
    }

    /// The distinct reserved names of the model.
    pub(crate) fn reserved_names(&self) -> (r: Vec<String>)
        ensures
            views(r@) == self.model().reserved,
    {
        name_set_to_vec(&self.mir.reserved_nodes)
    }

    /// The distinct primitive names of the model.
    pub(crate) fn primitive_names(&self) -> (r: Vec<String>)
        ensures
            views(r@) == self.model().primitives,
    {
        name_set_to_vec(&self.mir.std_primary_nodes)
    }

    /// Whether the rule of this name is boxed.
    pub(crate) fn is_boxed_rule(&self, id: &Ident) -> (r: bool)
        ensures
            r == self.model().boxed.contains(id@),
    {
        self.mir.is_boxed(id)
    }

    pub(crate) fn ty_name_str(s: &str) -> (r: String)
        ensures
            r@ == type_name_of(s@),
    {
        if is_std_primary(s) {
            s.to_owned()
        } else {
            camel_case(s)
        }
    }

    pub(crate) fn ty_name(&self, input: &Ident) -> (r: String)
        ensures
            r@ == type_name_of(input@),
    {
        Self::ty_name_str(input.to_str())
    }

    pub(crate) fn node_type_name(&self, input: &Ident) -> (r: String)
        ensures
            r@ == node_type_of(self.model(), input@),
    {
        let ty = self.ty_name(input);
        if self.mir.is_boxed(input) {
            cat(cat("N<Box<".to_owned(), ty.as_str()), ">>")
        } else {
            cat(cat("N<".to_owned(), ty.as_str()), ">")
        }
    }

    pub(crate) fn variant_name(&self, input: &Ident) -> (r: String)
        ensures
            r@ == variant_name_of(input@),
    {
        camel_case(input.to_str())
    }

    pub(crate) fn field_name(&self, ele: &RuleElement) -> (r: String)
        ensures
            r@ == field_name_of(ele@),
    {
        let name = match &ele.name {
            Some(d) => d.t.to_str().to_owned(),
            None => if ele.has_many() {
                cat(ele.nt.t.to_str().to_owned(), "s")
            } else {
                ele.nt.t.to_str().to_owned()
            },
        };
        if is_keyword(name.as_str()) {
            cat("r#".to_owned(), name.as_str())
        } else {
            name
        }
    }

    pub(crate) fn quantifier_type(&self, ele: &RuleElement) -> (r: String)
        ensures
            r@ == quantifier_type_of(self.model(), ele@),
    {
        let ty = self.node_type_name(&ele.nt.t);
        match &ele.quantifier {
            Some(d) => match d.t {
                Quantifier::Maybe => cat(cat("Option<".to_owned(), ty.as_str()), ">"),
                _ => cat(cat("Vec<".to_owned(), ty.as_str()), ">"),
            },
            None => ty,
        }
    }
}

} // verus!
