//! The grammar of the rule language, as mathematical functions from a token stream to
//! syntax trees.

use crate::ast::{
    GrammarView, NamedRuleBodyView, Quantifier, RuleBodyView, RuleElementView, RuleKindView,
    RuleView,
};
use crate::ast_meta::{NodeId, NodeView};
use crate::lexer::LexError;
use crate::span::Span;
use crate::token::{Token, S};
use vstd::prelude::*;

verus! {

/// The mathematical form of a parse error.
pub struct ParseErrorView {
    pub span: Option<Span>,
    pub kind: ParseErrorKindView,
}

pub enum ParseErrorKindView {
    LexError(LexError),
    UnexpectedToken(Token, Option<S>),
    UnexpectedTokenMulti(Seq<Token>, Option<S>),
    DuplicatedSepOrParseError(Token, Box<ParseErrorView>),
    Eof,
}

/// What the parser reads: the tokens without white space, and the source they came from.
pub struct Input {
    pub toks: Seq<S>,
    pub src: Seq<char>,
}

/// The outcome of one parsing step that began at some position with some next free
/// node identifier.
pub enum Parsed<T> {
    /// A value was read; the next token is at `pos`, the next free identifier is `id`.
    Good { val: T, pos: int, id: int },
    /// Nothing was read and the position is the one before the step; identifiers that
    /// were given to nodes read on the way are used up, `id` is the next free one.
    Bad { err: ParseErrorView, id: int },
}

impl Input {
    /// The token at `pos`, if there is one.
    pub open spec fn found(self, pos: int) -> Option<S> {
        if 0 <= pos < self.toks.len() {
            Some(self.toks[pos])
        } else {
            None
        }
    }

    /// Whether the token at `pos` is `tok`.
    pub open spec fn at(self, pos: int, tok: Token) -> bool {
        0 <= pos < self.toks.len() && self.toks[pos].tok == tok
    }

    /// The source text under a span.
    pub open spec fn text(self, span: Span) -> Seq<char> {
        self.src.subrange(span.spec_start() as int, span.spec_end() as int)
    }

    /// The span from the token at `first` to the token before `pos`.
    pub open spec fn cover(self, first: int, pos: int) -> Span {
        Span::merged(self.toks[first].span, self.toks[pos - 1].span)
    }
}

/// The error for a token other than the one that had to come.
pub open spec fn unexpected(expected: Token, found: Option<S>) -> ParseErrorView {
    ParseErrorView {
        span: match found {
            Some(d) => Some(d.span),
            None => None,
        },
        kind: ParseErrorKindView::UnexpectedToken(expected, found),
    }
}

/// The error for a token that is none of those that could come.
pub open spec fn unexpected_multi(expected: Seq<Token>, found: Option<S>) -> ParseErrorView {
    ParseErrorView {
        span: match found {
            Some(d) => Some(d.span),
            None => None,
        },
        kind: ParseErrorKindView::UnexpectedTokenMulti(expected, found),
    }
}

/// The error for the end of the input where a node had to begin.
pub open spec fn eof() -> ParseErrorView {
    ParseErrorView { span: None, kind: ParseErrorKindView::Eof }
}

/// The error for a separator that no element follows.
pub open spec fn dangling(sep: Token, err: ParseErrorView) -> ParseErrorView {
    ParseErrorView {
        span: err.span,
        kind: ParseErrorKindView::DuplicatedSepOrParseError(sep, Box::new(err)),
    }
}

/// Wraps what was read from `first` on into a node: on success the node spans the
/// tokens read and takes the next free identifier; a failure is passed on.
pub open spec fn node<T>(inp: Input, first: int, r: Parsed<T>) -> Parsed<NodeView<T>> {
    match r {
        Parsed::Good { val, pos, id } => Parsed::Good {
            val: NodeView { span: inp.cover(first, pos), id: NodeId(id as usize), t: val },
            pos,
            id: id + 1,
        },
        Parsed::Bad { err, id } => Parsed::Bad { err, id },
    }
}

/// `text` without the `@` signs at its start and at its end.
pub open spec fn unmarked(text: Seq<char>) -> Seq<char> {
    let a = skip_marks(text, 0);
    let b = drop_marks(text, a, text.len() as int);
    text.subrange(a, b)
}

pub open spec fn skip_marks(s: Seq<char>, i: int) -> int
    decreases s.len() - i,
{
    if 0 <= i < s.len() && s[i] == '@' {
        skip_marks(s, i + 1)
    } else {
        i
    }
}

pub open spec fn drop_marks(s: Seq<char>, low: int, j: int) -> int
    decreases j,
{
    if 0 <= low < j <= s.len() && s[j - 1] == '@' {
        drop_marks(s, low, j - 1)
    } else {
        j
    }
}

/// An identifier: one `Ident` token, whose text is the name.
pub open spec fn p_ident(inp: Input, pos: int, id: int) -> Parsed<NodeView<Seq<char>>> {
    if !(0 <= pos < inp.toks.len()) {
        Parsed::Bad { err: eof(), id }
    } else if inp.at(pos, Token::Ident) {
        node(inp, pos, Parsed::Good { val: inp.text(inp.toks[pos].span), pos: pos + 1, id })
    } else {
        Parsed::Bad { err: unexpected(Token::Ident, inp.found(pos)), id }
    }
}

/// An attribute: one `Attr` token, whose text without the `@` is the name.
pub open spec fn p_attr(inp: Input, pos: int, id: int) -> Parsed<NodeView<Seq<char>>> {
    if !(0 <= pos < inp.toks.len()) {
        Parsed::Bad { err: eof(), id }
    } else if inp.at(pos, Token::Attr) {
        node(
            inp,
            pos,
            Parsed::Good { val: unmarked(inp.text(inp.toks[pos].span)), pos: pos + 1, id },
        )
    } else {
        Parsed::Bad { err: unexpected(Token::Attr, inp.found(pos)), id }
    }
}

/// The signs that a quantifier can be written with.
pub open spec fn quantifier_signs() -> Seq<Token> {
    seq![Token::Question, Token::Asterisk, Token::Plus]
}

/// A quantifier: `?`, `*` or `+`.
pub open spec fn p_quantifier(inp: Input, pos: int, id: int) -> Parsed<NodeView<Quantifier>> {
    if !(0 <= pos < inp.toks.len()) {
        Parsed::Bad { err: eof(), id }
    } else if inp.at(pos, Token::Question) {
        node(inp, pos, Parsed::Good { val: Quantifier::Maybe, pos: pos + 1, id })
    } else if inp.at(pos, Token::Asterisk) {
        node(inp, pos, Parsed::Good { val: Quantifier::Multi, pos: pos + 1, id })
    } else if inp.at(pos, Token::Plus) {
        node(inp, pos, Parsed::Good { val: Quantifier::AtLeastOne, pos: pos + 1, id })
    } else {
        Parsed::Bad { err: unexpected_multi(quantifier_signs(), inp.found(pos)), id }
    }
}

/// The inside of a rule element: a name, or a binding name, `=` and a name; then a
/// quantifier if one follows.
pub open spec fn element_inner(inp: Input, pos: int, id: int) -> Parsed<RuleElementView> {
    match p_ident(inp, pos, id) {
        Parsed::Bad { err, id } => Parsed::Bad { err, id },
        Parsed::Good { val: first, pos: pa, id: ia } => {
            if inp.at(pa, Token::Assign) {
                match p_ident(inp, pa + 1, ia) {
                    Parsed::Bad { err, id } => Parsed::Bad { err, id },
                    Parsed::Good { val: nt, pos: pb, id: ib } => with_quantifier(
                        inp,
                        Some(first),
                        nt,
                        pb,
                        ib,
                    ),
                }
            } else {
                with_quantifier(inp, None, first, pa, ia)
            }
        },
    }
}

/// The element with the names given and the quantifier that stands at `pos`, if any.
pub open spec fn with_quantifier(
    inp: Input,
    name: Option<NodeView<Seq<char>>>,
    nt: NodeView<Seq<char>>,
    pos: int,
    id: int,
) -> Parsed<RuleElementView> {
    match p_quantifier(inp, pos, id) {
        Parsed::Good { val: q, pos: p, id: i } => Parsed::Good {
            val: RuleElementView { name, nt, quantifier: Some(q) },
            pos: p,
            id: i,
        },
        Parsed::Bad { err, id: i } => Parsed::Good {
            val: RuleElementView { name, nt, quantifier: None },
            pos,
            id: i,
        },
    }
}

/// A rule element.
#[verifier::opaque]
pub open spec fn p_element(inp: Input, pos: int, id: int) -> Parsed<NodeView<RuleElementView>> {
    if !(0 <= pos < inp.toks.len()) {
        Parsed::Bad { err: eof(), id }
    } else {
        node(inp, pos, element_inner(inp, pos, id))
    }
}

/// A list that was read, with the position and the next free identifier behind it.
pub struct Run<T> {
    pub vals: Seq<T>,
    pub pos: int,
    pub id: int,
}

/// As many rule elements as follow one another: the list ends before the first
/// element that cannot be read.
#[verifier::opaque]
pub open spec fn p_elements(inp: Input, pos: int, id: int) -> Run<NodeView<RuleElementView>>
    decreases inp.toks.len() - pos,
{
    match p_element(inp, pos, id) {
        Parsed::Good { val, pos: p, id: i } => {
            if pos < p <= inp.toks.len() {
                let rest = p_elements(inp, p, i);
                Run { vals: seq![val] + rest.vals, pos: rest.pos, id: rest.id }
            } else {
                Run { vals: Seq::empty(), pos, id }
            }
        },
        Parsed::Bad { err, id: i } => Run { vals: Seq::empty(), pos, id: i },
    }
}

/// The inside of a rule body: one rule element or more.
pub open spec fn body_inner(inp: Input, pos: int, id: int) -> Parsed<RuleBodyView> {
    match p_element(inp, pos, id) {
        Parsed::Bad { err, id } => Parsed::Bad { err, id },
        Parsed::Good { val, pos: p, id: i } => {
            let rest = p_elements(inp, p, i);
            Parsed::Good { val: seq![val] + rest.vals, pos: rest.pos, id: rest.id }
        },
    }
}

/// A rule body.
#[verifier::opaque]
pub open spec fn p_body(inp: Input, pos: int, id: int) -> Parsed<NodeView<RuleBodyView>> {
    if !(0 <= pos < inp.toks.len()) {
        Parsed::Bad { err: eof(), id }
    } else {
        node(inp, pos, body_inner(inp, pos, id))
    }
}

/// The inside of an alternative: a rule body if one can be read, then `#` and the
/// name of the variant.
pub open spec fn named_inner(inp: Input, pos: int, id: int) -> Parsed<NamedRuleBodyView> {
    match p_body(inp, pos, id) {
        Parsed::Good { val: body, pos: p, id: i } => named_tail(inp, Some(body), p, i),
        Parsed::Bad { err, id: i } => named_tail(inp, None, pos, i),
    }
}

/// `#` and the name of a variant, behind the body given.
pub open spec fn named_tail(
    inp: Input,
    body: Option<NodeView<RuleBodyView>>,
    pos: int,
    id: int,
) -> Parsed<NamedRuleBodyView> {
    if !inp.at(pos, Token::NumSign) {
        Parsed::Bad { err: unexpected(Token::NumSign, inp.found(pos)), id }
    } else {
        match p_ident(inp, pos + 1, id) {
            Parsed::Bad { err, id } => Parsed::Bad { err, id },
            Parsed::Good { val: name, pos: p, id: i } => Parsed::Good {
                val: NamedRuleBodyView { name, body },
                pos: p,
                id: i,
            },
        }
    }
}

/// An alternative of an enum rule.
#[verifier::opaque]
pub open spec fn p_named(inp: Input, pos: int, id: int) -> Parsed<NodeView<NamedRuleBodyView>> {
    if !(0 <= pos < inp.toks.len()) {
        Parsed::Bad { err: eof(), id }
    } else {
        node(inp, pos, named_inner(inp, pos, id))
    }
}

/// As many times `|` and an alternative as follow one another. A `|` that no
/// alternative follows is an error.
#[verifier::opaque]
pub open spec fn p_more_alts(inp: Input, pos: int, id: int) -> Parsed<
    Seq<NodeView<NamedRuleBodyView>>,
>
    decreases inp.toks.len() - pos,
{
    if inp.at(pos, Token::Alt) {
        match p_named(inp, pos + 1, id) {
            Parsed::Bad { err, id } => Parsed::Bad { err: dangling(Token::Alt, err), id },
            Parsed::Good { val, pos: p, id: i } => {
                if pos < p <= inp.toks.len() {
                    match p_more_alts(inp, p, i) {
                        Parsed::Bad { err, id } => Parsed::Bad { err, id },
                        Parsed::Good { val: rest, pos: pb, id: ib } => Parsed::Good {
                            val: seq![val] + rest,
                            pos: pb,
                            id: ib,
                        },
                    }
                } else {
                    Parsed::Good { val: Seq::empty(), pos, id }
                }
            },
        }
    } else {
        Parsed::Good { val: Seq::empty(), pos, id }
    }
}

/// One alternative or more, with `|` between them.
#[verifier::opaque]
pub open spec fn p_some_alts(inp: Input, pos: int, id: int) -> Parsed<
    Seq<NodeView<NamedRuleBodyView>>,
> {
    match p_named(inp, pos, id) {
        Parsed::Bad { err, id } => Parsed::Bad { err, id },
        Parsed::Good { val, pos: p, id: i } => match p_more_alts(inp, p, i) {
            Parsed::Bad { err, id } => Parsed::Bad { err, id },
            Parsed::Good { val: rest, pos: pb, id: ib } => Parsed::Good {
                val: seq![val] + rest,
                pos: pb,
                id: ib,
            },
        },
    }
}

/// The tokens that can follow the first alternative of an enum rule.
pub open spec fn alt_or_end() -> Seq<Token> {
    seq![Token::Alt, Token::Semicolon]
}

/// The alternatives of an enum rule whose first one, read from `first` up to `pos`,
/// has the name and body given: the first becomes a node, then either `;` ends the
/// rule or `|` and the other alternatives follow, and then `;`.
#[verifier::opaque]
pub open spec fn p_alts(
    inp: Input,
    first: int,
    name: NodeView<Seq<char>>,
    body: Option<NodeView<RuleBodyView>>,
    pos: int,
    id: int,
) -> Parsed<RuleKindView> {
    let head = NodeView {
        span: inp.cover(first, pos),
        id: NodeId(id as usize),
        t: NamedRuleBodyView { name, body },
    };
    if inp.at(pos, Token::Alt) {
        match p_some_alts(inp, pos + 1, id + 1) {
            Parsed::Bad { err, id } => Parsed::Bad { err, id },
            Parsed::Good { val: rest, pos: p, id: i } => {
                if inp.at(p, Token::Semicolon) {
                    Parsed::Good { val: RuleKindView::Enum(seq![head] + rest), pos: p + 1, id: i }
                } else {
                    Parsed::Bad { err: unexpected(Token::Semicolon, inp.found(p)), id: i }
                }
            },
        }
    } else if inp.at(pos, Token::Semicolon) {
        Parsed::Good { val: RuleKindView::Enum(seq![head]), pos: pos + 1, id: id + 1 }
    } else {
        Parsed::Bad { err: unexpected_multi(alt_or_end(), inp.found(pos)), id: id + 1 }
    }
}

/// As many attributes as follow one another.
#[verifier::opaque]
pub open spec fn p_attrs(inp: Input, pos: int, id: int) -> Run<NodeView<Seq<char>>>
    decreases inp.toks.len() - pos,
{
    match p_attr(inp, pos, id) {
        Parsed::Good { val, pos: p, id: i } => {
            if pos < p <= inp.toks.len() {
                let rest = p_attrs(inp, p, i);
                Run { vals: seq![val] + rest.vals, pos: rest.pos, id: rest.id }
            } else {
                Run { vals: Seq::empty(), pos, id }
            }
        },
        Parsed::Bad { err, id: i } => Run { vals: Seq::empty(), pos, id: i },
    }
}

/// The tokens that the right-hand side of a rule can begin with.
pub open spec fn kind_starts() -> Seq<Token> {
    seq![Token::NumSign, Token::Ident]
}

/// The right-hand side of the rule that began at `first`: `#` and a name begin an enum
/// rule whose first alternative has no body; a body is either the whole of a normal
/// rule, ended by `;`, or, with `#` and a name behind it, the first alternative of an
/// enum rule.
#[verifier::opaque]
pub open spec fn p_kind(inp: Input, first: int, pos: int, id: int) -> Parsed<RuleKindView> {
    if inp.at(pos, Token::NumSign) {
        match p_ident(inp, pos + 1, id) {
            Parsed::Bad { err, id } => Parsed::Bad { err, id },
            Parsed::Good { val: name, pos: p, id: i } => p_alts(inp, first, name, None, p, i),
        }
    } else if inp.at(pos, Token::Ident) {
        match p_body(inp, pos, id) {
            Parsed::Bad { err, id } => Parsed::Bad { err, id },
            Parsed::Good { val: body, pos: p, id: i } => {
                if inp.at(p, Token::NumSign) {
                    match p_ident(inp, p + 1, i) {
                        Parsed::Bad { err, id } => Parsed::Bad { err, id },
                        Parsed::Good { val: name, pos: pb, id: ib } => p_alts(
                            inp,
                            first,
                            name,
                            Some(body),
                            pb,
                            ib,
                        ),
                    }
                } else if inp.at(p, Token::Semicolon) {
                    Parsed::Good { val: RuleKindView::Normal(body), pos: p + 1, id: i }
                } else {
                    Parsed::Bad { err: unexpected(Token::Semicolon, inp.found(p)), id: i }
                }
            },
        }
    } else {
        Parsed::Bad { err: unexpected_multi(kind_starts(), inp.found(pos)), id }
    }
}

/// The inside of a rule: attributes, the name, `:` and the right-hand side.
pub open spec fn rule_inner(inp: Input, pos: int, id: int) -> Parsed<RuleView> {
    let attrs = p_attrs(inp, pos, id);
    match p_ident(inp, attrs.pos, attrs.id) {
        Parsed::Bad { err, id } => Parsed::Bad { err, id },
        Parsed::Good { val: name, pos: p, id: i } => {
            if !inp.at(p, Token::Colon) {
                Parsed::Bad { err: unexpected(Token::Colon, inp.found(p)), id: i }
            } else {
                match p_kind(inp, pos, p + 1, i) {
                    Parsed::Bad { err, id } => Parsed::Bad { err, id },
                    Parsed::Good { val: kind, pos: pb, id: ib } => Parsed::Good {
                        val: RuleView { attrs: attrs.vals, name, kind },
                        pos: pb,
                        id: ib,
                    },
                }
            }
        },
    }
}

/// A rule.
#[verifier::opaque]
pub open spec fn p_rule(inp: Input, pos: int, id: int) -> Parsed<NodeView<RuleView>> {
    if !(0 <= pos < inp.toks.len()) {
        Parsed::Bad { err: eof(), id }
    } else {
        node(inp, pos, rule_inner(inp, pos, id))
    }
}

/// Rules up to the end of the input.
#[verifier::opaque]
pub open spec fn p_rules(inp: Input, pos: int, id: int) -> Parsed<GrammarView>
    decreases inp.toks.len() - pos,
{
    if !(0 <= pos < inp.toks.len()) {
        Parsed::Good { val: Seq::empty(), pos, id }
    } else {
        match p_rule(inp, pos, id) {
            Parsed::Bad { err, id } => Parsed::Bad { err, id },
            Parsed::Good { val, pos: p, id: i } => {
                if pos < p <= inp.toks.len() {
                    match p_rules(inp, p, i) {
                        Parsed::Bad { err, id } => Parsed::Bad { err, id },
                        Parsed::Good { val: rest, pos: pb, id: ib } => Parsed::Good {
                            val: seq![val] + rest,
                            pos: pb,
                            id: ib,
                        },
                    }
                } else {
                    Parsed::Good { val: Seq::empty(), pos, id }
                }
            },
        }
    }
}

/// A grammar: one rule or more, up to the end of the input.
#[verifier::opaque]
pub open spec fn p_grammar(inp: Input, pos: int, id: int) -> Parsed<NodeView<GrammarView>> {
    if !(0 <= pos < inp.toks.len()) {
        Parsed::Bad { err: eof(), id }
    } else {
        node(inp, pos, p_rules(inp, pos, id))
    }
}

/// Whether a step that began at `pos` with `id` as the next free identifier moved
/// forward inside the input and, for `n` tokens read, used at most `gain * n + extra`
/// identifiers or, where it failed, at most `loss` identifiers.
pub open spec fn within<T>(
    r: Parsed<T>,
    inp: Input,
    pos: int,
    id: int,
    gain: int,
    extra: int,
    loss: int,
) -> bool {
    match r {
        Parsed::Good { val, pos: p, id: i } => pos < p <= inp.toks.len() && id <= i <= id + gain * (
        p - pos) + extra,
        Parsed::Bad { err, id: i } => id <= i <= id + loss,
    }
}

/// The same for a list, which may be empty.
pub open spec fn run_within<T>(
    r: Run<T>,
    inp: Input,
    pos: int,
    id: int,
    gain: int,
    extra: int,
) -> bool {
    pos <= r.pos <= inp.toks.len() && id <= r.id <= id + gain * (r.pos - pos) + extra
}

/// The most identifiers that a failed step can use up with `left` tokens before it.
pub open spec fn worst(left: int) -> int {
    2 * left + 4
}

pub proof fn lemma_ident(inp: Input, pos: int, id: int)
    ensures
        within(p_ident(inp, pos, id), inp, pos, id, 1, 0, 0),
{
}

pub proof fn lemma_attr(inp: Input, pos: int, id: int)
    ensures
        within(p_attr(inp, pos, id), inp, pos, id, 1, 0, 0),
{
}

pub proof fn lemma_quantifier(inp: Input, pos: int, id: int)
    ensures
        within(p_quantifier(inp, pos, id), inp, pos, id, 1, 0, 0),
{
}

pub proof fn lemma_element(inp: Input, pos: int, id: int)
    ensures
        within(element_inner(inp, pos, id), inp, pos, id, 1, 0, 1),
        within(p_element(inp, pos, id), inp, pos, id, 1, 1, 1),
{
    reveal(p_element);
    lemma_ident(inp, pos, id);
    if let Parsed::Good { val: first, pos: pa, id: ia } = p_ident(inp, pos, id) {
        lemma_quantifier(inp, pa, ia);
        if inp.at(pa, Token::Assign) {
            lemma_ident(inp, pa + 1, ia);
            if let Parsed::Good { val: nt, pos: pb, id: ib } = p_ident(inp, pa + 1, ia) {
                lemma_quantifier(inp, pb, ib);
            }
        }
    }
}

pub proof fn lemma_elements(inp: Input, pos: int, id: int)
    requires
        0 <= pos <= inp.toks.len(),
    ensures
        run_within(p_elements(inp, pos, id), inp, pos, id, 2, 1),
    decreases inp.toks.len() - pos,
{
    reveal(p_elements);
    lemma_element(inp, pos, id);
    if let Parsed::Good { val, pos: p, id: i } = p_element(inp, pos, id) {
        lemma_elements(inp, p, i);
    }
}

pub proof fn lemma_body(inp: Input, pos: int, id: int)
    ensures
        within(body_inner(inp, pos, id), inp, pos, id, 2, 1, 1),
        within(p_body(inp, pos, id), inp, pos, id, 2, 2, 1),
{
    reveal(p_body);
    reveal(p_element);
    lemma_element(inp, pos, id);
    if let Parsed::Good { val, pos: p, id: i } = p_element(inp, pos, id) {
        lemma_elements(inp, p, i);
    }
}

pub proof fn lemma_named(inp: Input, pos: int, id: int)
    requires
        0 <= pos <= inp.toks.len(),
    ensures
        within(named_inner(inp, pos, id), inp, pos, id, 2, -1, worst(inp.toks.len() - pos)),
        within(p_named(inp, pos, id), inp, pos, id, 2, 0, worst(inp.toks.len() - pos)),
{
    reveal(p_named);
    lemma_body(inp, pos, id);
    match p_body(inp, pos, id) {
        Parsed::Good { val: body, pos: p, id: i } => {
            lemma_ident(inp, p + 1, i);
        },
        Parsed::Bad { err, id: i } => {
            lemma_ident(inp, pos + 1, i);
        },
    }
}

pub proof fn lemma_more_alts(inp: Input, pos: int, id: int)
    requires
        0 <= pos <= inp.toks.len(),
    ensures
        match p_more_alts(inp, pos, id) {
            Parsed::Good { val, pos: p, id: i } => pos <= p <= inp.toks.len() && id <= i <= id + 2
                * (p - pos),
            Parsed::Bad { err, id: i } => id <= i <= id + worst(inp.toks.len() - pos),
        },
    decreases inp.toks.len() - pos,
{
    reveal(p_more_alts);
    if inp.at(pos, Token::Alt) {
        lemma_named(inp, pos + 1, id);
        if let Parsed::Good { val, pos: p, id: i } = p_named(inp, pos + 1, id) {
            lemma_more_alts(inp, p, i);
        }
    }
}

pub proof fn lemma_some_alts(inp: Input, pos: int, id: int)
    requires
        0 <= pos <= inp.toks.len(),
    ensures
        within(p_some_alts(inp, pos, id), inp, pos, id, 2, 0, worst(inp.toks.len() - pos)),
{
    reveal(p_some_alts);
    lemma_named(inp, pos, id);
    if let Parsed::Good { val, pos: p, id: i } = p_named(inp, pos, id) {
        lemma_more_alts(inp, p, i);
    }
}

pub proof fn lemma_alts(
    inp: Input,
    first: int,
    name: NodeView<Seq<char>>,
    body: Option<NodeView<RuleBodyView>>,
    pos: int,
    id: int,
)
    requires
        0 <= pos <= inp.toks.len(),
    ensures
        within(
            p_alts(inp, first, name, body, pos, id),
            inp,
            pos,
            id,
            2,
            -1,
            worst(inp.toks.len() - pos),
        ),
{
    reveal(p_alts);
    if inp.at(pos, Token::Alt) {
        lemma_some_alts(inp, pos + 1, id + 1);
    }
}

pub proof fn lemma_attrs(inp: Input, pos: int, id: int)
    requires
        0 <= pos <= inp.toks.len(),
    ensures
        run_within(p_attrs(inp, pos, id), inp, pos, id, 1, 0),
    decreases inp.toks.len() - pos,
{
    reveal(p_attrs);
    lemma_attr(inp, pos, id);
    if let Parsed::Good { val, pos: p, id: i } = p_attr(inp, pos, id) {
        lemma_attrs(inp, p, i);
    }
}

pub proof fn lemma_kind(inp: Input, first: int, pos: int, id: int)
    requires
        0 <= pos <= inp.toks.len(),
    ensures
        within(p_kind(inp, first, pos, id), inp, pos, id, 2, 0, worst(inp.toks.len() - pos)),
{
    reveal(p_kind);
    if inp.at(pos, Token::NumSign) {
        lemma_ident(inp, pos + 1, id);
        if let Parsed::Good { val: name, pos: p, id: i } = p_ident(inp, pos + 1, id) {
            lemma_alts(inp, first, name, None, p, i);
        }
    } else if inp.at(pos, Token::Ident) {
        lemma_body(inp, pos, id);
        if let Parsed::Good { val: body, pos: p, id: i } = p_body(inp, pos, id) {
            if inp.at(p, Token::NumSign) {
                lemma_ident(inp, p + 1, i);
                if let Parsed::Good { val: name, pos: pb, id: ib } = p_ident(inp, p + 1, i) {
                    lemma_alts(inp, first, name, Some(body), pb, ib);
                }
            }
        }
    }
}

pub proof fn lemma_rule(inp: Input, pos: int, id: int)
    requires
        0 <= pos <= inp.toks.len(),
    ensures
        within(rule_inner(inp, pos, id), inp, pos, id, 2, -1, worst(inp.toks.len() - pos)),
        within(p_rule(inp, pos, id), inp, pos, id, 2, 0, worst(inp.toks.len() - pos)),
{
    reveal(p_rule);
    lemma_attrs(inp, pos, id);
    let attrs = p_attrs(inp, pos, id);
    lemma_ident(inp, attrs.pos, attrs.id);
    if let Parsed::Good { val: name, pos: p, id: i } = p_ident(inp, attrs.pos, attrs.id) {
        if inp.at(p, Token::Colon) {
            lemma_kind(inp, pos, p + 1, i);
        }
    }
}

pub proof fn lemma_rules(inp: Input, pos: int, id: int)
    requires
        0 <= pos <= inp.toks.len(),
    ensures
        match p_rules(inp, pos, id) {
            Parsed::Good { val, pos: p, id: i } => p == inp.toks.len() && id <= i <= id + 2 * (p
                - pos),
            Parsed::Bad { err, id: i } => id <= i <= id + worst(inp.toks.len() - pos),
        },
    decreases inp.toks.len() - pos,
{
    reveal(p_rules);
    if pos < inp.toks.len() {
        lemma_rule(inp, pos, id);
        if let Parsed::Good { val, pos: p, id: i } = p_rule(inp, pos, id) {
            lemma_rules(inp, p, i);
        }
    }
}

pub proof fn lemma_grammar(inp: Input, pos: int, id: int)
    requires
        0 <= pos <= inp.toks.len(),
    ensures
        within(p_grammar(inp, pos, id), inp, pos, id, 2, 1, worst(inp.toks.len() - pos)),
{
    reveal(p_grammar);
    lemma_rules(inp, pos, id);
}

} // verus!
