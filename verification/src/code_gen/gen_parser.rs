//! The skeleton of a parser for a grammar: one method for each name.

use crate::ast::{rule_views, Ident, RuleView};
use crate::ast_meta::NodeView;
use crate::code_gen::{node_type_of, CodeGen, Model};
use crate::text::{cat, join_all, join_seq, views};
use crate::util::{indent, indented, trim, trimmed};
use vstd::prelude::*;

verus! {

/// The name of the parse method for a name of the grammar.
pub open spec fn parse_name_of(name: Seq<char>) -> Seq<char> {
    "parse_"@ + name
}

pub fn parse_name(id: &Ident) -> (r: String)
    ensures
        r@ == parse_name_of(id@),
{
    cat("parse_".to_owned(), id.to_str())
}

/// The parse method for a name: its header around a body that is left open.
pub open spec fn parse_method_of(m: Model, name: Seq<char>) -> Seq<char> {
    trimmed(
        "\npub fn "@ + parse_name_of(name) + "(&mut self) -> Result<"@ + node_type_of(m, name)
            + "> {\n    self.parse(|parser| {\n        todo!()\n    })\n}\n        "@,
    )
}

/// The parse methods of a list of names.
pub open spec fn parse_methods(m: Model, names: Seq<Seq<char>>) -> Seq<Seq<char>> {
    names.map_values(|n: Seq<char>| parse_method_of(m, n))
}

/// The names of the rules, in their order.
pub open spec fn rule_names(m: Model) -> Seq<Seq<char>> {
    m.rules.map_values(|r: NodeView<RuleView>| r.t.name.t)
}

/// The text of the parser module: a parse method for each rule, then one for each
/// leaf, reserved and primitive name.
pub open spec fn parse_of(m: Model) -> Seq<char> {
    "\nuse crate::parser::{Parser, Result};\nuse crate::ast::*;\nuse crate::token::TokenKind;\n\nimpl Parser {\n"@
        + indented(join_seq(parse_methods(m, rule_names(m)), "\n\n"@)) + "\n\n"@ + indented(
        join_seq(parse_methods(m, m.leaves), "\n\n"@),
    ) + "\n\n"@ + indented(join_seq(parse_methods(m, m.reserved), "\n\n"@)) + "\n\n"@ + indented(
        join_seq(parse_methods(m, m.primitives), "\n\n"@),
    ) + "\n}\n        "@ + "\n"@
}

impl<'ast> CodeGen<'ast> {
    #[verifier::rlimit(40)]
    pub fn gen_parse(&self) -> (r: String)
        ensures
            r@ == parse_of(self.model()),
    {
        let ghost m = self.model();
        let rules = self.rules();
        let mut names: Vec<String> = Vec::new();
        let mut i: usize = 0;
        while i < rules.len()
            invariant
                i <= rules.len(),
                m == self.model(),
                rule_views(rules@) == m.rules,
                views(names@) == rule_names(m).take(i as int),
            decreases rules.len() - i,
        {
            let t = rules[i].t.name.t.to_str().to_owned();
            proof {
                assert(rule_views(rules@)[i as int] == rules@[i as int]@);
                assert(views(names@.push(t)) == views(names@).push(t@));
                assert(rule_names(m).take(i as int + 1) == rule_names(m).take(i as int).push(t@));
            }
            names.push(t);
            i += 1;
        }
        proof {
            assert(rule_names(m).take(rules@.len() as int) == rule_names(m));
        }
        let body = self.gen_parse_method_multi(&names);
        let body_leaf = self.gen_parse_method_multi(&self.leaf_names());
        let body_reserved = self.gen_parse_method_multi(&self.reserved_names());
        let body_std_primary = self.gen_parse_method_multi(&self.primitive_names());
        let mut ret =
            "\nuse crate::parser::{Parser, Result};\nuse crate::ast::*;\nuse crate::token::TokenKind;\n\nimpl Parser {\n".to_owned();
        ret = cat(ret, indent(body.as_str()).as_str());
        ret = cat(ret, "\n\n");
        ret = cat(ret, indent(body_leaf.as_str()).as_str());
        ret = cat(ret, "\n\n");
        ret = cat(ret, indent(body_reserved.as_str()).as_str());
        ret = cat(ret, "\n\n");
        ret = cat(ret, indent(body_std_primary.as_str()).as_str());
        ret = cat(ret, "\n}\n        ");
        cat(ret, "\n")
    }

    fn gen_parse_method_multi(&self, nodes: &Vec<String>) -> (r: String)
        ensures
            r@ == join_seq(parse_methods(self.model(), views(nodes@)), "\n\n"@),
    {
        let ghost m = self.model();
        let ghost all = parse_methods(m, views(nodes@));
        let mut parts: Vec<String> = Vec::new();
        let mut i: usize = 0;
        while i < nodes.len()
            invariant
                i <= nodes.len(),
                m == self.model(),
                all == parse_methods(m, views(nodes@)),
                views(parts@) == all.take(i as int),
            decreases nodes.len() - i,
        {
            let t = self.gen_parse_method(nodes[i].as_str());
            proof {
                assert(views(nodes@)[i as int] == nodes@[i as int]@);
                assert(views(parts@.push(t)) == views(parts@).push(t@));
                assert(all.take(i as int + 1) == all.take(i as int).push(t@));
            }
            parts.push(t);
            i += 1;
        }
        proof {
            assert(all.take(nodes@.len() as int) == all);
        }
        join_all(&parts, "\n\n")
    }

    fn gen_parse_method(&self, name: &str) -> (r: String)
        ensures
            r@ == parse_method_of(self.model(), name@),
    {
        let id = Ident { name: name.to_owned() };
        let parse = parse_name(&id);
        let ty = self.node_type_name(&id);
        let mut ret = "\npub fn ".to_owned();
        ret = cat(ret, parse.as_str());
        ret = cat(ret, "(&mut self) -> Result<");
        ret = cat(ret, ty.as_str());
        ret = cat(ret, "> {\n    self.parse(|parser| {\n        todo!()\n    })\n}\n        ");
        trim(ret.as_str())
    }
}

} // verus!
