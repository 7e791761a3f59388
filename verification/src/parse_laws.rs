//! What holds of every parse: the identifiers of the nodes rise in the order in which
//! the nodes are finished, and the tree that was read, written back as tokens, is the
//! input.

use crate::ast::{
    GrammarView, NamedRuleBodyView, Quantifier, RuleBodyView, RuleElementView, RuleKindView,
    RuleView,
};
use crate::ast_meta::NodeView;
use crate::parse_spec::{
    lemma_alts, lemma_attr, lemma_attrs, lemma_body, lemma_element, lemma_elements, lemma_ident,
    lemma_kind, lemma_more_alts, lemma_named, lemma_rule, lemma_rules, lemma_some_alts, p_alts,
    p_attr, p_attrs, p_body, p_element, p_elements, p_grammar, p_ident, p_kind, p_more_alts,
    p_named, p_rule, p_rules, p_some_alts, Input, Parsed,
};
use crate::token::Token;
use vstd::prelude::*;

verus! {

/// Whether every number of `s` lies in `[lo, hi)` and each is greater than the one
/// before it.
pub open spec fn rising(s: Seq<int>, lo: int, hi: int) -> bool {
    &&& forall|i: int| 0 <= i < s.len() ==> lo <= #[trigger] s[i] < hi
    &&& forall|i: int, j: int| 0 <= i < j < s.len() ==> #[trigger] s[i] < #[trigger] s[j]
}

/// The identifier of a node, as a number.
pub open spec fn id_of<T>(n: NodeView<T>) -> int {
    n.id.0 as int
}

/// The identifiers of a rule element and of the nodes in it, in the order in which the
/// nodes are finished.
pub open spec fn element_ids(e: NodeView<RuleElementView>) -> Seq<int> {
    (match e.t.name {
        Some(n) => seq![id_of(n)],
        None => Seq::empty(),
    }) + seq![id_of(e.t.nt)] + (match e.t.quantifier {
        Some(q) => seq![id_of(q)],
        None => Seq::empty(),
    }) + seq![id_of(e)]
}

pub open spec fn elements_ids(s: Seq<NodeView<RuleElementView>>) -> Seq<int>
    decreases s.len(),
{
    if s.len() == 0 {
        Seq::empty()
    } else {
        element_ids(s[0]) + elements_ids(s.drop_first())
    }
}

pub open spec fn body_ids(b: NodeView<RuleBodyView>) -> Seq<int> {
    elements_ids(b.t) + seq![id_of(b)]
}

pub open spec fn named_ids(a: NodeView<NamedRuleBodyView>) -> Seq<int> {
    (match a.t.body {
        Some(b) => body_ids(b),
        None => Seq::empty(),
    }) + seq![id_of(a.t.name)] + seq![id_of(a)]
}

pub open spec fn alts_ids(s: Seq<NodeView<NamedRuleBodyView>>) -> Seq<int>
    decreases s.len(),
{
    if s.len() == 0 {
        Seq::empty()
    } else {
        named_ids(s[0]) + alts_ids(s.drop_first())
    }
}

pub open spec fn attrs_ids(s: Seq<NodeView<Seq<char>>>) -> Seq<int>
    decreases s.len(),
{
    if s.len() == 0 {
        Seq::empty()
    } else {
        seq![id_of(s[0])] + attrs_ids(s.drop_first())
    }
}

pub open spec fn kind_ids(k: RuleKindView) -> Seq<int> {
    match k {
        RuleKindView::Enum(alts) => alts_ids(alts),
        RuleKindView::Normal(b) => body_ids(b),
    }
}

pub open spec fn rule_ids(r: NodeView<RuleView>) -> Seq<int> {
    attrs_ids(r.t.attrs) + seq![id_of(r.t.name)] + kind_ids(r.t.kind) + seq![id_of(r)]
}

pub open spec fn rules_ids(s: Seq<NodeView<RuleView>>) -> Seq<int>
    decreases s.len(),
{
    if s.len() == 0 {
        Seq::empty()
    } else {
        rule_ids(s[0]) + rules_ids(s.drop_first())
    }
}

/// The identifiers of all nodes of a grammar, in the order in which the nodes are
/// finished.
pub open spec fn grammar_ids(g: NodeView<GrammarView>) -> Seq<int> {
    rules_ids(g.t) + seq![id_of(g)]
}

/// Two rising runs, the second above the first, make one rising run.
pub proof fn lemma_rising_add(a: Seq<int>, b: Seq<int>, lo: int, mid: int, hi: int)
    requires
        rising(a, lo, mid),
        rising(b, mid, hi),
        lo <= mid <= hi,
    ensures
        rising(a + b, lo, hi),
{
    let c = a + b;
    assert forall|i: int| 0 <= i < c.len() implies lo <= #[trigger] c[i] < hi by {
        if i < a.len() {
            assert(c[i] == a[i]);
        } else {
            assert(c[i] == b[i - a.len()]);
        }
    }
    assert forall|i: int, j: int| 0 <= i < j < c.len() implies #[trigger] c[i] < #[trigger] c[j] by {
        if i < a.len() {
            assert(c[i] == a[i]);
        } else {
            assert(c[i] == b[i - a.len()]);
        }
        if j < a.len() {
            assert(c[j] == a[j]);
        } else {
            assert(c[j] == b[j - a.len()]);
        }
    }
}

pub proof fn lemma_element_ids(inp: Input, pos: int, id: int)
    requires
        0 <= id,
        id + 4 <= usize::MAX,
    ensures
        p_element(inp, pos, id) is Good ==> rising(
            element_ids(p_element(inp, pos, id)->val),
            id,
            p_element(inp, pos, id)->Good_id,
        ),
{
    reveal(p_element);
    lemma_element(inp, pos, id);
}

pub proof fn lemma_elements_ids(inp: Input, pos: int, id: int)
    requires
        0 <= id,
        0 <= pos <= inp.toks.len(),
        id + 2 * (inp.toks.len() - pos) + 4 <= usize::MAX,
    ensures
        rising(elements_ids(p_elements(inp, pos, id).vals), id, p_elements(inp, pos, id).id),
    decreases inp.toks.len() - pos,
{
    reveal(p_elements);
    lemma_element(inp, pos, id);
    lemma_elements(inp, pos, id);
    match p_element(inp, pos, id) {
        Parsed::Good { val, pos: p, id: i } => {
            lemma_element_ids(inp, pos, id);
            lemma_elements_ids(inp, p, i);
            lemma_elements(inp, p, i);
            let rest = p_elements(inp, p, i);
            assert((seq![val] + rest.vals).drop_first() == rest.vals);
            lemma_rising_add(element_ids(val), elements_ids(rest.vals), id, i, rest.id);
        },
        Parsed::Bad { err, id: i } => {},
    }
}

pub proof fn lemma_body_ids(inp: Input, pos: int, id: int)
    requires
        0 <= id,
        0 <= pos <= inp.toks.len(),
        id + 2 * (inp.toks.len() - pos) + 4 <= usize::MAX,
    ensures
        p_body(inp, pos, id) is Good ==> rising(
            body_ids(p_body(inp, pos, id)->val),
            id,
            p_body(inp, pos, id)->Good_id,
        ),
{
    reveal(p_body);
    lemma_element(inp, pos, id);
    lemma_body(inp, pos, id);
    if let Parsed::Good { val, pos: p, id: i } = p_element(inp, pos, id) {
        lemma_element_ids(inp, pos, id);
        lemma_elements_ids(inp, p, i);
        lemma_elements(inp, p, i);
        let rest = p_elements(inp, p, i);
        let all = seq![val] + rest.vals;
        assert(all.drop_first() == rest.vals);
        lemma_rising_add(element_ids(val), elements_ids(rest.vals), id, i, rest.id);
        lemma_rising_add(elements_ids(all), seq![rest.id], id, rest.id, rest.id + 1);
    }
}

#[verifier::rlimit(40)]
pub proof fn lemma_named_ids(inp: Input, pos: int, id: int)
    requires
        0 <= id,
        0 <= pos <= inp.toks.len(),
        id + 2 * (inp.toks.len() - pos) + 4 <= usize::MAX,
    ensures
        p_named(inp, pos, id) is Good ==> rising(
            named_ids(p_named(inp, pos, id)->val),
            id,
            p_named(inp, pos, id)->Good_id,
        ),
{
    reveal(p_named);
    lemma_body(inp, pos, id);
    lemma_named(inp, pos, id);
    if p_named(inp, pos, id) is Good {
        match p_body(inp, pos, id) {
            Parsed::Good { val: body, pos: p, id: i } => {
                lemma_body_ids(inp, pos, id);
                lemma_ident(inp, p + 1, i);
                lemma_rising_add(body_ids(body), seq![i], id, i, i + 1);
                lemma_rising_add(body_ids(body) + seq![i], seq![i + 1], id, i + 1, i + 2);
            },
            Parsed::Bad { err, id: i } => {
                lemma_ident(inp, pos + 1, i);
                lemma_rising_add(Seq::<int>::empty() + seq![i], seq![i + 1], id, i + 1, i + 2);
            },
        }
    }
}

pub proof fn lemma_more_alts_ids(inp: Input, pos: int, id: int)
    requires
        0 <= id,
        0 <= pos <= inp.toks.len(),
        id + 2 * (inp.toks.len() - pos) + 4 <= usize::MAX,
    ensures
        p_more_alts(inp, pos, id) is Good ==> rising(
            alts_ids(p_more_alts(inp, pos, id)->val),
            id,
            p_more_alts(inp, pos, id)->Good_id,
        ),
    decreases inp.toks.len() - pos,
{
    reveal(p_more_alts);
    lemma_more_alts(inp, pos, id);
    if inp.at(pos, Token::Alt) {
        lemma_named(inp, pos + 1, id);
        if let Parsed::Good { val, pos: p, id: i } = p_named(inp, pos + 1, id) {
            lemma_named_ids(inp, pos + 1, id);
            lemma_more_alts(inp, p, i);
            lemma_more_alts_ids(inp, p, i);
            if let Parsed::Good { val: rest, pos: pb, id: ib } = p_more_alts(inp, p, i) {
                assert((seq![val] + rest).drop_first() == rest);
                lemma_rising_add(named_ids(val), alts_ids(rest), id, i, ib);
            }
        }
    }
}

pub proof fn lemma_some_alts_ids(inp: Input, pos: int, id: int)
    requires
        0 <= id,
        0 <= pos <= inp.toks.len(),
        id + 2 * (inp.toks.len() - pos) + 4 <= usize::MAX,
    ensures
        p_some_alts(inp, pos, id) is Good ==> rising(
            alts_ids(p_some_alts(inp, pos, id)->val),
            id,
            p_some_alts(inp, pos, id)->Good_id,
        ),
{
    reveal(p_some_alts);
    lemma_named(inp, pos, id);
    if let Parsed::Good { val, pos: p, id: i } = p_named(inp, pos, id) {
        lemma_named_ids(inp, pos, id);
        lemma_more_alts(inp, p, i);
        lemma_more_alts_ids(inp, p, i);
        if let Parsed::Good { val: rest, pos: pb, id: ib } = p_more_alts(inp, p, i) {
            assert((seq![val] + rest).drop_first() == rest);
            lemma_rising_add(named_ids(val), alts_ids(rest), id, i, ib);
        }
    }
}

/// The identifiers of the nodes of an enum rule's alternatives, when those of its first
/// alternative's name and body are `before` and rise from `lo` to `id`.
#[verifier::rlimit(40)]
pub proof fn lemma_alts_ids(
    inp: Input,
    first: int,
    name: NodeView<Seq<char>>,
    body: Option<NodeView<RuleBodyView>>,
    pos: int,
    id: int,
    lo: int,
)
    requires
        0 <= lo <= id,
        0 <= pos <= inp.toks.len(),
        id + 2 * (inp.toks.len() - pos) + 4 <= usize::MAX,
        rising(
            (match body {
                Some(b) => body_ids(b),
                None => Seq::empty(),
            }) + seq![id_of(name)],
            lo,
            id,
        ),
    ensures
        p_alts(inp, first, name, body, pos, id) is Good ==> rising(
            kind_ids(p_alts(inp, first, name, body, pos, id)->val),
            lo,
            p_alts(inp, first, name, body, pos, id)->Good_id,
        ),
{
    reveal(p_alts);
    let head_ids = (match body {
        Some(b) => body_ids(b),
        None => Seq::empty(),
    }) + seq![id_of(name)] + seq![id];
    lemma_rising_add(
        (match body {
            Some(b) => body_ids(b),
            None => Seq::empty(),
        }) + seq![id_of(name)],
        seq![id],
        lo,
        id,
        id + 1,
    );
    lemma_alts(inp, first, name, body, pos, id);
    if let Parsed::Good { val, pos: p, id: i } = p_alts(inp, first, name, body, pos, id) {
        let alts = val->Enum_0;
        assert(alts.len() > 0);
        assert(id_of(alts[0]) == id);
        assert(named_ids(alts[0]) == head_ids);
        assert(alts_ids(alts) == named_ids(alts[0]) + alts_ids(alts.drop_first()));
        if inp.at(pos, Token::Alt) {
            lemma_some_alts(inp, pos + 1, id + 1);
            lemma_some_alts_ids(inp, pos + 1, id + 1);
            let rest = p_some_alts(inp, pos + 1, id + 1)->val;
            assert(alts.drop_first() == rest);
            lemma_rising_add(head_ids, alts_ids(rest), lo, id + 1, i);
        } else {
            assert(alts.drop_first() == Seq::<NodeView<NamedRuleBodyView>>::empty());
            assert(alts_ids(alts.drop_first()) == Seq::<int>::empty());
            assert(head_ids + Seq::<int>::empty() == head_ids);
        }
    }
}

pub proof fn lemma_attrs_ids(inp: Input, pos: int, id: int)
    requires
        0 <= id,
        0 <= pos <= inp.toks.len(),
        id + 2 * (inp.toks.len() - pos) + 4 <= usize::MAX,
    ensures
        rising(attrs_ids(p_attrs(inp, pos, id).vals), id, p_attrs(inp, pos, id).id),
    decreases inp.toks.len() - pos,
{
    reveal(p_attrs);
    lemma_attr(inp, pos, id);
    lemma_attrs(inp, pos, id);
    match p_attr(inp, pos, id) {
        Parsed::Good { val, pos: p, id: i } => {
            lemma_attrs_ids(inp, p, i);
            lemma_attrs(inp, p, i);
            let rest = p_attrs(inp, p, i);
            assert((seq![val] + rest.vals).drop_first() == rest.vals);
            lemma_rising_add(seq![id_of(val)], attrs_ids(rest.vals), id, i, rest.id);
        },
        Parsed::Bad { err, id: i } => {},
    }
}

#[verifier::rlimit(40)]
pub proof fn lemma_kind_ids(inp: Input, first: int, pos: int, id: int)
    requires
        0 <= id,
        0 <= pos <= inp.toks.len(),
        id + 2 * (inp.toks.len() - pos) + 4 <= usize::MAX,
    ensures
        p_kind(inp, first, pos, id) is Good ==> rising(
            kind_ids(p_kind(inp, first, pos, id)->val),
            id,
            p_kind(inp, first, pos, id)->Good_id,
        ),
{
    reveal(p_kind);
    lemma_kind(inp, first, pos, id);
    if inp.at(pos, Token::NumSign) {
        lemma_ident(inp, pos + 1, id);
        if let Parsed::Good { val: name, pos: p, id: i } = p_ident(inp, pos + 1, id) {
            assert(Seq::<int>::empty() + seq![id_of(name)] == seq![id_of(name)]);
            lemma_alts_ids(inp, first, name, None, p, i, id);
        }
    } else if inp.at(pos, Token::Ident) {
        lemma_body(inp, pos, id);
        if let Parsed::Good { val: body, pos: p, id: i } = p_body(inp, pos, id) {
            lemma_body_ids(inp, pos, id);
            if inp.at(p, Token::NumSign) {
                lemma_ident(inp, p + 1, i);
                if let Parsed::Good { val: name, pos: pb, id: ib } = p_ident(inp, p + 1, i) {
                    lemma_rising_add(body_ids(body), seq![id_of(name)], id, i, ib);
                    lemma_alts_ids(inp, first, name, Some(body), pb, ib, id);
                }
            }
        }
    }
}

#[verifier::rlimit(40)]
pub proof fn lemma_rule_ids(inp: Input, pos: int, id: int)
    requires
        0 <= id,
        0 <= pos <= inp.toks.len(),
        id + 2 * (inp.toks.len() - pos) + 4 <= usize::MAX,
    ensures
        p_rule(inp, pos, id) is Good ==> rising(
            rule_ids(p_rule(inp, pos, id)->val),
            id,
            p_rule(inp, pos, id)->Good_id,
        ),
{
    reveal(p_rule);
    lemma_rule(inp, pos, id);
    lemma_attrs(inp, pos, id);
    lemma_attrs_ids(inp, pos, id);
    let attrs = p_attrs(inp, pos, id);
    lemma_ident(inp, attrs.pos, attrs.id);
    if let Parsed::Good { val: name, pos: p, id: i } = p_ident(inp, attrs.pos, attrs.id) {
        if inp.at(p, Token::Colon) {
            lemma_kind(inp, pos, p + 1, i);
            lemma_kind_ids(inp, pos, p + 1, i);
            if let Parsed::Good { val: kind, pos: pb, id: ib } = p_kind(inp, pos, p + 1, i) {
                lemma_rising_add(attrs_ids(attrs.vals), seq![id_of(name)], id, attrs.id, i);
                lemma_rising_add(
                    attrs_ids(attrs.vals) + seq![id_of(name)],
                    kind_ids(kind),
                    id,
                    i,
                    ib,
                );
                lemma_rising_add(
                    attrs_ids(attrs.vals) + seq![id_of(name)] + kind_ids(kind),
                    seq![ib],
                    id,
                    ib,
                    ib + 1,
                );
            }
        }
    }
}

pub proof fn lemma_rules_ids(inp: Input, pos: int, id: int)
    requires
        0 <= id,
        0 <= pos <= inp.toks.len(),
        id + 2 * (inp.toks.len() - pos) + 4 <= usize::MAX,
    ensures
        p_rules(inp, pos, id) is Good ==> rising(
            rules_ids(p_rules(inp, pos, id)->val),
            id,
            p_rules(inp, pos, id)->Good_id,
        ),
    decreases inp.toks.len() - pos,
{
    reveal(p_rules);
    lemma_rules(inp, pos, id);
    if pos < inp.toks.len() {
        lemma_rule(inp, pos, id);
        if let Parsed::Good { val, pos: p, id: i } = p_rule(inp, pos, id) {
            lemma_rule_ids(inp, pos, id);
            lemma_rules(inp, p, i);
            lemma_rules_ids(inp, p, i);
            if let Parsed::Good { val: rest, pos: pb, id: ib } = p_rules(inp, p, i) {
                assert((seq![val] + rest).drop_first() == rest);
                lemma_rising_add(rule_ids(val), rules_ids(rest), id, i, ib);
            }
        }
    }
}

/// Across a whole parse the identifiers rise: every node has an identifier that is
/// greater than that of every node finished before it, so no two nodes share one, and
/// all lie between the next free identifier before the parse and the one after it.
pub proof fn lemma_grammar_ids(inp: Input, pos: int, id: int)
    requires
        0 <= id,
        0 <= pos <= inp.toks.len(),
        id + 2 * (inp.toks.len() - pos) + 4 <= usize::MAX,
        p_grammar(inp, pos, id) is Good,
    ensures
        rising(grammar_ids(p_grammar(inp, pos, id)->val), id, p_grammar(inp, pos, id)->Good_id),
{
    reveal(p_grammar);
    lemma_rules(inp, pos, id);
    lemma_rules_ids(inp, pos, id);
    let r = p_rules(inp, pos, id);
    lemma_rising_add(rules_ids(r->val), seq![r->Good_id], id, r->Good_id, r->Good_id + 1);
}

/// The sign that a quantifier is written with.
pub open spec fn sign_token(q: Quantifier) -> Token {
    match q {
        Quantifier::Maybe => Token::Question,
        Quantifier::Multi => Token::Asterisk,
        Quantifier::AtLeastOne => Token::Plus,
    }
}

/// The tokens that a rule element is written with.
pub open spec fn element_toks(e: RuleElementView) -> Seq<Token> {
    (match e.name {
        Some(n) => seq![Token::Ident, Token::Assign],
        None => Seq::empty(),
    }) + seq![Token::Ident] + (match e.quantifier {
        Some(q) => seq![sign_token(q.t)],
        None => Seq::empty(),
    })
}

pub open spec fn elements_toks(s: Seq<NodeView<RuleElementView>>) -> Seq<Token>
    decreases s.len(),
{
    if s.len() == 0 {
        Seq::empty()
    } else {
        element_toks(s[0].t) + elements_toks(s.drop_first())
    }
}

/// The tokens that an alternative is written with: its body, `#` and its name.
pub open spec fn named_toks(a: NamedRuleBodyView) -> Seq<Token> {
    (match a.body {
        Some(b) => elements_toks(b.t),
        None => Seq::empty(),
    }) + seq![Token::NumSign, Token::Ident]
}

/// The tokens that the alternatives after the first are written with: `|` before each.
pub open spec fn more_alts_toks(s: Seq<NodeView<NamedRuleBodyView>>) -> Seq<Token>
    decreases s.len(),
{
    if s.len() == 0 {
        Seq::empty()
    } else {
        seq![Token::Alt] + named_toks(s[0].t) + more_alts_toks(s.drop_first())
    }
}

/// The tokens that one alternative or more are written with: `|` between them.
pub open spec fn alts_toks(s: Seq<NodeView<NamedRuleBodyView>>) -> Seq<Token> {
    if s.len() == 0 {
        Seq::empty()
    } else {
        named_toks(s[0].t) + more_alts_toks(s.drop_first())
    }
}

/// The tokens that the right-hand side of a rule is written with, up to its `;`.
pub open spec fn kind_toks(k: RuleKindView) -> Seq<Token> {
    match k {
        RuleKindView::Enum(alts) => alts_toks(alts) + seq![Token::Semicolon],
        RuleKindView::Normal(b) => elements_toks(b.t) + seq![Token::Semicolon],
    }
}

/// The tokens that a rule is written with.
pub open spec fn rule_toks(r: RuleView) -> Seq<Token> {
    Seq::new(r.attrs.len(), |i: int| Token::Attr) + seq![Token::Ident, Token::Colon] + kind_toks(
        r.kind,
    )
}

pub open spec fn rules_toks(s: Seq<NodeView<RuleView>>) -> Seq<Token>
    decreases s.len(),
{
    if s.len() == 0 {
        Seq::empty()
    } else {
        rule_toks(s[0].t) + rules_toks(s.drop_first())
    }
}

/// The kinds of the tokens of the input from `from` up to `to`.
pub open spec fn kinds(inp: Input, from: int, to: int) -> Seq<Token> {
    Seq::new((to - from) as nat, |i: int| inp.toks[from + i].tok)
}

/// The kinds of two stretches of tokens that meet are those of the whole stretch.
pub proof fn lemma_kinds_add(inp: Input, a: int, b: int, c: int)
    requires
        0 <= a <= b <= c <= inp.toks.len(),
    ensures
        kinds(inp, a, b) + kinds(inp, b, c) == kinds(inp, a, c),
{
    assert(kinds(inp, a, b) + kinds(inp, b, c) =~= kinds(inp, a, c));
}

proof fn lemma_kinds_one(inp: Input, a: int)
    requires
        0 <= a < inp.toks.len(),
    ensures
        kinds(inp, a, a + 1) == seq![inp.toks[a].tok],
        kinds(inp, a, a) == Seq::<Token>::empty(),
{
    assert(kinds(inp, a, a + 1) =~= seq![inp.toks[a].tok]);
    assert(kinds(inp, a, a) =~= Seq::<Token>::empty());
}

pub proof fn lemma_element_toks(inp: Input, pos: int, id: int)
    requires
        0 <= pos <= inp.toks.len(),
    ensures
        p_element(inp, pos, id) is Good ==> element_toks(p_element(inp, pos, id)->val.t) == kinds(
            inp,
            pos,
            p_element(inp, pos, id)->pos,
        ),
{
    reveal(p_element);
    lemma_element(inp, pos, id);
    if let Parsed::Good { val, pos: p, id: i } = p_element(inp, pos, id) {
        assert(element_toks(val.t) =~= kinds(inp, pos, p));
    }
}

pub proof fn lemma_elements_toks(inp: Input, pos: int, id: int)
    requires
        0 <= pos <= inp.toks.len(),
    ensures
        elements_toks(p_elements(inp, pos, id).vals) == kinds(inp, pos, p_elements(inp, pos, id).pos),
    decreases inp.toks.len() - pos,
{
    reveal(p_elements);
    lemma_element(inp, pos, id);
    lemma_elements(inp, pos, id);
    match p_element(inp, pos, id) {
        Parsed::Good { val, pos: p, id: i } => {
            lemma_element_toks(inp, pos, id);
            lemma_elements_toks(inp, p, i);
            lemma_elements(inp, p, i);
            let rest = p_elements(inp, p, i);
            assert((seq![val] + rest.vals).drop_first() == rest.vals);
            lemma_kinds_add(inp, pos, p, rest.pos);
        },
        Parsed::Bad { err, id: i } => {
            assert(kinds(inp, pos, pos) =~= Seq::<Token>::empty());
        },
    }
}

pub proof fn lemma_body_toks(inp: Input, pos: int, id: int)
    requires
        0 <= pos <= inp.toks.len(),
    ensures
        p_body(inp, pos, id) is Good ==> elements_toks(p_body(inp, pos, id)->val.t) == kinds(
            inp,
            pos,
            p_body(inp, pos, id)->pos,
        ),
{
    reveal(p_body);
    lemma_element(inp, pos, id);
    lemma_body(inp, pos, id);
    if let Parsed::Good { val, pos: p, id: i } = p_element(inp, pos, id) {
        lemma_element_toks(inp, pos, id);
        lemma_elements_toks(inp, p, i);
        lemma_elements(inp, p, i);
        let rest = p_elements(inp, p, i);
        assert((seq![val] + rest.vals).drop_first() == rest.vals);
        lemma_kinds_add(inp, pos, p, rest.pos);
    }
}

pub proof fn lemma_named_toks(inp: Input, pos: int, id: int)
    requires
        0 <= pos <= inp.toks.len(),
    ensures
        p_named(inp, pos, id) is Good ==> named_toks(p_named(inp, pos, id)->val.t) == kinds(
            inp,
            pos,
            p_named(inp, pos, id)->pos,
        ),
{
    reveal(p_named);
    lemma_body(inp, pos, id);
    lemma_named(inp, pos, id);
    if let Parsed::Good { val, pos: q, id: j } = p_named(inp, pos, id) {
        match p_body(inp, pos, id) {
            Parsed::Good { val: body, pos: p, id: i } => {
                lemma_body_toks(inp, pos, id);
                lemma_ident(inp, p + 1, i);
                assert(kinds(inp, p, p + 2) =~= seq![Token::NumSign, Token::Ident]);
                lemma_kinds_add(inp, pos, p, p + 2);
            },
            Parsed::Bad { err, id: i } => {
                lemma_ident(inp, pos + 1, i);
                assert(named_toks(val.t) =~= kinds(inp, pos, pos + 2));
            },
        }
    }
}

pub proof fn lemma_more_alts_toks(inp: Input, pos: int, id: int)
    requires
        0 <= pos <= inp.toks.len(),
    ensures
        p_more_alts(inp, pos, id) is Good ==> more_alts_toks(p_more_alts(inp, pos, id)->val)
            == kinds(inp, pos, p_more_alts(inp, pos, id)->pos),
    decreases inp.toks.len() - pos,
{
    reveal(p_more_alts);
    lemma_more_alts(inp, pos, id);
    if inp.at(pos, Token::Alt) {
        lemma_named(inp, pos + 1, id);
        if let Parsed::Good { val, pos: p, id: i } = p_named(inp, pos + 1, id) {
            lemma_named_toks(inp, pos + 1, id);
            lemma_more_alts(inp, p, i);
            lemma_more_alts_toks(inp, p, i);
            if let Parsed::Good { val: rest, pos: pb, id: ib } = p_more_alts(inp, p, i) {
                assert((seq![val] + rest).drop_first() == rest);
                lemma_kinds_one(inp, pos);
                lemma_kinds_add(inp, pos, pos + 1, p);
                lemma_kinds_add(inp, pos, p, pb);
            }
        }
    } else {
        assert(kinds(inp, pos, pos) =~= Seq::<Token>::empty());
    }
}

pub proof fn lemma_some_alts_toks(inp: Input, pos: int, id: int)
    requires
        0 <= pos <= inp.toks.len(),
    ensures
        p_some_alts(inp, pos, id) is Good ==> more_alts_toks(p_some_alts(inp, pos, id)->val)
            == seq![Token::Alt] + kinds(inp, pos, p_some_alts(inp, pos, id)->pos),
{
    reveal(p_some_alts);
    lemma_named(inp, pos, id);
    if let Parsed::Good { val, pos: p, id: i } = p_named(inp, pos, id) {
        lemma_named_toks(inp, pos, id);
        lemma_more_alts(inp, p, i);
        lemma_more_alts_toks(inp, p, i);
        if let Parsed::Good { val: rest, pos: pb, id: ib } = p_more_alts(inp, p, i) {
            assert((seq![val] + rest).drop_first() == rest);
            lemma_kinds_add(inp, pos, p, pb);
            assert(seq![Token::Alt] + named_toks(val.t) + more_alts_toks(rest) == seq![Token::Alt]
                + (named_toks(val.t) + more_alts_toks(rest)));
        }
    }
}

/// The tokens of an enum rule's alternatives, when its first alternative, with the
/// name and body given, was read from the tokens `head`.
pub proof fn lemma_alts_toks(
    inp: Input,
    first: int,
    name: NodeView<Seq<char>>,
    body: Option<NodeView<RuleBodyView>>,
    pos: int,
    id: int,
    from: int,
)
    requires
        0 <= from <= pos <= inp.toks.len(),
        named_toks(NamedRuleBodyView { name, body }) == kinds(inp, from, pos),
    ensures
        p_alts(inp, first, name, body, pos, id) is Good ==> kind_toks(
            p_alts(inp, first, name, body, pos, id)->val,
        ) == kinds(inp, from, p_alts(inp, first, name, body, pos, id)->pos),
{
    reveal(p_alts);
    lemma_alts(inp, first, name, body, pos, id);
    if let Parsed::Good { val, pos: p, id: i } = p_alts(inp, first, name, body, pos, id) {
        let alts = val->Enum_0;
        assert(alts.len() > 0);
        assert(alts[0].t == NamedRuleBodyView { name, body });
        if inp.at(pos, Token::Alt) {
            lemma_some_alts(inp, pos + 1, id + 1);
            lemma_some_alts_toks(inp, pos + 1, id + 1);
            let r = p_some_alts(inp, pos + 1, id + 1);
            assert(alts.drop_first() == r->val);
            lemma_kinds_one(inp, pos);
            lemma_kinds_one(inp, r->pos);
            lemma_kinds_add(inp, pos, pos + 1, r->pos);
            lemma_kinds_add(inp, from, pos, r->pos);
            lemma_kinds_add(inp, from, r->pos, r->pos + 1);
        } else {
            assert(alts.drop_first() == Seq::<NodeView<NamedRuleBodyView>>::empty());
            lemma_kinds_one(inp, pos);
            lemma_kinds_add(inp, from, pos, pos + 1);
            assert(kinds(inp, from, pos) + Seq::<Token>::empty() == kinds(inp, from, pos));
        }
    }
}

pub proof fn lemma_kind_toks(inp: Input, first: int, pos: int, id: int)
    requires
        0 <= pos <= inp.toks.len(),
    ensures
        p_kind(inp, first, pos, id) is Good ==> kind_toks(p_kind(inp, first, pos, id)->val)
            == kinds(inp, pos, p_kind(inp, first, pos, id)->pos),
{
    reveal(p_kind);
    lemma_kind(inp, first, pos, id);
    if inp.at(pos, Token::NumSign) {
        lemma_ident(inp, pos + 1, id);
        if let Parsed::Good { val: name, pos: p, id: i } = p_ident(inp, pos + 1, id) {
            assert(named_toks(NamedRuleBodyView { name, body: None }) =~= kinds(inp, pos, p));
            lemma_alts_toks(inp, first, name, None, p, i, pos);
        }
    } else if inp.at(pos, Token::Ident) {
        lemma_body(inp, pos, id);
        if let Parsed::Good { val: body, pos: p, id: i } = p_body(inp, pos, id) {
            lemma_body_toks(inp, pos, id);
            if inp.at(p, Token::NumSign) {
                lemma_ident(inp, p + 1, i);
                if let Parsed::Good { val: name, pos: pb, id: ib } = p_ident(inp, p + 1, i) {
                    assert(kinds(inp, p, pb) =~= seq![Token::NumSign, Token::Ident]);
                    lemma_kinds_add(inp, pos, p, pb);
                    lemma_alts_toks(inp, first, name, Some(body), pb, ib, pos);
                }
            } else if inp.at(p, Token::Semicolon) {
                lemma_kinds_one(inp, p);
                lemma_kinds_add(inp, pos, p, p + 1);
            }
        }
    }
}

proof fn lemma_attrs_toks(inp: Input, pos: int, id: int)
    requires
        0 <= pos <= inp.toks.len(),
    ensures
        Seq::new(p_attrs(inp, pos, id).vals.len(), |i: int| Token::Attr) == kinds(
            inp,
            pos,
            p_attrs(inp, pos, id).pos,
        ),
        p_attrs(inp, pos, id).vals.len() == p_attrs(inp, pos, id).pos - pos,
    decreases inp.toks.len() - pos,
{
    reveal(p_attrs);
    lemma_attr(inp, pos, id);
    lemma_attrs(inp, pos, id);
    match p_attr(inp, pos, id) {
        Parsed::Good { val, pos: p, id: i } => {
            lemma_attrs_toks(inp, p, i);
            lemma_attrs(inp, p, i);
            let rest = p_attrs(inp, p, i);
            assert(Seq::new((seq![val] + rest.vals).len(), |i: int| Token::Attr) =~= seq![
                Token::Attr,
            ] + Seq::new(rest.vals.len(), |i: int| Token::Attr));
            lemma_kinds_one(inp, pos);
            lemma_kinds_add(inp, pos, p, rest.pos);
        },
        Parsed::Bad { err, id: i } => {
            assert(Seq::new(0, |i: int| Token::Attr) =~= kinds(inp, pos, pos));
        },
    }
}

pub proof fn lemma_rule_toks(inp: Input, pos: int, id: int)
    requires
        0 <= pos <= inp.toks.len(),
    ensures
        p_rule(inp, pos, id) is Good ==> rule_toks(p_rule(inp, pos, id)->val.t) == kinds(
            inp,
            pos,
            p_rule(inp, pos, id)->pos,
        ),
{
    reveal(p_rule);
    lemma_rule(inp, pos, id);
    lemma_attrs(inp, pos, id);
    lemma_attrs_toks(inp, pos, id);
    let attrs = p_attrs(inp, pos, id);
    lemma_ident(inp, attrs.pos, attrs.id);
    if let Parsed::Good { val: name, pos: p, id: i } = p_ident(inp, attrs.pos, attrs.id) {
        if inp.at(p, Token::Colon) {
            lemma_kind(inp, pos, p + 1, i);
            lemma_kind_toks(inp, pos, p + 1, i);
            if let Parsed::Good { val: kind, pos: pb, id: ib } = p_kind(inp, pos, p + 1, i) {
                assert(kinds(inp, attrs.pos, p + 1) =~= seq![Token::Ident, Token::Colon]);
                lemma_kinds_add(inp, pos, attrs.pos, p + 1);
                lemma_kinds_add(inp, pos, p + 1, pb);
            }
        }
    }
}

/// A grammar that was read, written back as tokens, is the input that it was read
/// from: the parser neither drops a token nor makes one up.
pub proof fn lemma_rules_toks(inp: Input, pos: int, id: int)
    requires
        0 <= pos <= inp.toks.len(),
    ensures
        p_rules(inp, pos, id) is Good ==> rules_toks(p_rules(inp, pos, id)->val) == kinds(
            inp,
            pos,
            inp.toks.len() as int,
        ),
    decreases inp.toks.len() - pos,
{
    reveal(p_rules);
    lemma_rules(inp, pos, id);
    if pos < inp.toks.len() {
        lemma_rule(inp, pos, id);
        if let Parsed::Good { val, pos: p, id: i } = p_rule(inp, pos, id) {
            lemma_rule_toks(inp, pos, id);
            lemma_rules(inp, p, i);
            lemma_rules_toks(inp, p, i);
            if let Parsed::Good { val: rest, pos: pb, id: ib } = p_rules(inp, p, i) {
                assert((seq![val] + rest).drop_first() == rest);
                lemma_kinds_add(inp, pos, p, inp.toks.len() as int);
            }
        }
    } else {
        assert(kinds(inp, pos, inp.toks.len() as int) =~= Seq::<Token>::empty());
    }
}

} // verus!
