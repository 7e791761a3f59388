//! The parser: tokens to a syntax tree, by recursive descent with backtracking.

use crate::ast::{
    attr_views, element_views, named_views, rule_views, Attr, Grammar, Ident, NamedRuleBody,
    Quantifier, Rule, RuleBody, RuleElement, RuleKind,
};
use crate::ast_meta::{NodeId, N};
use crate::lexer::{
    in_order, lemma_tokens_in_order, lemma_tokens_round_trip, lex_all, placed, LexError, Lexer,
};
use crate::parse_laws::{grammar_ids, lemma_grammar_ids, rising};
use crate::parse_spec::{
    alt_or_end, drop_marks, eof, kind_starts, lemma_attr, lemma_attrs, lemma_body, lemma_element,
    lemma_elements, lemma_grammar, lemma_kind, lemma_named, lemma_rule, lemma_rules,
    lemma_some_alts, p_alts, p_attr, p_attrs, p_body, p_element, p_elements, p_grammar, p_ident,
    p_kind, p_more_alts, p_named, p_quantifier, p_rule, p_rules, p_some_alts, quantifier_signs,
    skip_marks, unexpected, unexpected_multi, unmarked, Input, ParseErrorKindView, ParseErrorView,
    Parsed,
};
use crate::span::Span;
use crate::text::{slice_chars, string_of_chars};
use crate::token::{Token, S};
use vstd::prelude::*;

verus! {

broadcast use Span::lemma_at;

#[derive(Debug)]
pub struct ParseError {
    pub span: Option<Span>,
    pub kind: ParseErrorKind,
}

#[derive(Debug)]
pub enum ParseErrorKind {
    LexError(LexError),
    /// The token that had to come and the one that came; none at the end of the input.
    UnexpectedToken(Token, Option<S>),
    /// The tokens that could come and the one that came; none at the end of the input.
    UnexpectedTokenMulti(Vec<Token>, Option<S>),
    /// The separator that no element follows, and why none could be read.
    DuplicatedSepOrParseError(Token, Box<ParseError>),
    Eof,
}

/// The mathematical form of an error.
pub open spec fn error_view(e: ParseError) -> ParseErrorView
    decreases e,
{
    ParseErrorView {
        span: e.span,
        kind: match e.kind {
            ParseErrorKind::LexError(l) => ParseErrorKindView::LexError(l),
            ParseErrorKind::UnexpectedToken(t, f) => ParseErrorKindView::UnexpectedToken(t, f),
            ParseErrorKind::UnexpectedTokenMulti(ts, f) => ParseErrorKindView::UnexpectedTokenMulti(
                ts@,
                f,
            ),
            ParseErrorKind::DuplicatedSepOrParseError(t, inner) => {
                ParseErrorKindView::DuplicatedSepOrParseError(t, Box::new(error_view(*inner)))
            },
            ParseErrorKind::Eof => ParseErrorKindView::Eof,
        },
    }
}

impl View for ParseError {
    type V = ParseErrorView;

    open spec fn view(&self) -> ParseErrorView {
        error_view(*self)
    }
}

/// The tokens of `toks` that are not white space, in order.
pub open spec fn without_junk(toks: Seq<S>) -> Seq<S>
    decreases toks.len(),
{
    if toks.len() == 0 {
        Seq::empty()
    } else if toks.last().tok.is_junk() {
        without_junk(toks.drop_last())
    } else {
        without_junk(toks.drop_last()).push(toks.last())
    }
}

/// Every token that is left after the white space is taken out was there before.
pub proof fn lemma_without_junk(toks: Seq<S>)
    ensures
        forall|k: int|
            0 <= k < without_junk(toks).len() ==> toks.contains(#[trigger] without_junk(toks)[k])
                && !without_junk(toks)[k].tok.is_junk(),
        without_junk(toks).len() <= toks.len(),
    decreases toks.len(),
{
    if toks.len() > 0 {
        lemma_without_junk(toks.drop_last());
        let inner = without_junk(toks.drop_last());
        assert forall|k: int| 0 <= k < without_junk(toks).len() implies toks.contains(
            #[trigger] without_junk(toks)[k],
        ) && !without_junk(toks)[k].tok.is_junk() by {
            if k < inner.len() {
                assert(toks.drop_last().contains(inner[k]));
                let j = choose|j: int|
                    0 <= j < toks.drop_last().len() && toks.drop_last()[j] == inner[k];
                assert(toks[j] == inner[k]);
            } else {
                assert(toks[toks.len() - 1] == toks.last());
            }
        }
    }
}

/// Taking the white space out leaves the other tokens in their order.
pub proof fn lemma_without_junk_in_order(toks: Seq<S>)
    requires
        in_order(toks),
    ensures
        in_order(without_junk(toks)),
    decreases toks.len(),
{
    reveal(in_order);
    if toks.len() > 0 {
        let init = toks.drop_last();
        let kept = without_junk(init);
        assert(in_order(init)) by {
            assert forall|a: int, b: int| 0 <= a < b < init.len() implies (
            #[trigger] init[a]).span.spec_end() <= (#[trigger] init[b]).span.spec_start() by {
                assert(init[a] == toks[a] && init[b] == toks[b]);
            }
        }
        lemma_without_junk_in_order(init);
        lemma_without_junk(init);
        let all = without_junk(toks);
        assert forall|a: int, b: int| 0 <= a < b < all.len() implies (
        #[trigger] all[a]).span.spec_end() <= (#[trigger] all[b]).span.spec_start() by {
            if b < kept.len() {
                assert(all[a] == kept[a] && all[b] == kept[b]);
            } else {
                assert(all[a] == kept[a]);
                assert(all[b] == toks.last());
                assert(init.contains(kept[a]));
                let j = choose|j: int| 0 <= j < init.len() && init[j] == kept[a];
                assert(toks[j] == kept[a]);
                assert(toks[toks.len() - 1] == toks.last());
            }
        }
    }
}

fn remove_junk(tokens: &Vec<S>) -> (ret: Vec<S>)
    ensures
        ret@ == without_junk(tokens@),
{
    let mut ret: Vec<S> = Vec::new();
    let mut i: usize = 0;
    while i < tokens.len()
        invariant
            i <= tokens.len(),
            ret@ == without_junk(tokens@.take(i as int)),
        decreases tokens.len() - i,
    {
        let t = tokens[i];
        proof {
            assert(tokens@.take(i as int + 1).drop_last() == tokens@.take(i as int));
        }
        match t.tok {
            Token::Whitespace(_) => {},
            _ => {
                ret.push(t);
            },
        }
        i += 1;
    }
    proof {
        assert(tokens@.take(tokens.len() as int) == tokens@);
    }
    ret
}

#[derive(Clone, Debug)]
pub struct Parser {
    chars: Vec<char>,
    tokens: Vec<S>,
    cursor: usize,
    next_id: usize,
}

/// Whether a call that began in the state `before` did what the grammar says of it:
/// on success it returns the tree that the grammar gives and stands behind it; on
/// failure it returns the grammar's error and stands where it began. Either way the next
/// free identifier is the one that the grammar gives.
pub open spec fn agrees<T: View>(
    r: Result<T, ParseError>,
    p: Parsed<T::V>,
    before: Parser,
    after: Parser,
) -> bool {
    &&& after.input() == before.input()
    &&& after.wf()
    &&& match p {
        Parsed::Good { val, pos, id } => r is Ok && r->Ok_0@ == val && after.pos() == pos
            && after.next_id() == id && after.roomy(),
        Parsed::Bad { err, id } => r is Err && r->Err_0@ == err && after.pos() == before.pos()
            && after.next_id() == id,
    }
}

impl Parser {
    /// What the parser reads.
    pub closed spec fn input(&self) -> Input {
        Input { toks: self.tokens@, src: self.chars@ }
    }

    /// The position of the next token.
    pub closed spec fn pos(&self) -> int {
        self.cursor as int
    }

    /// The identifier that the next node gets.
    pub closed spec fn next_id(&self) -> int {
        self.next_id as int
    }

    /// The cursor lies inside the input, and the tokens lie inside the source, one
    /// after the other.
    pub closed spec fn wf(&self) -> bool {
        &&& self.cursor <= self.tokens.len()
        &&& in_order(self.tokens@)
        &&& forall|k: int|
            0 <= k < self.tokens.len() ==> (#[trigger] self.tokens[k]).span.wf()
                && self.tokens[k].span.spec_end() <= self.chars.len()
    }

    /// There are identifiers left for every node that the rest of the input can give.
    pub closed spec fn roomy(&self) -> bool {
        self.next_id + 4 * (self.tokens.len() - self.cursor) + 8 <= usize::MAX
    }

    /// Across a whole parse the identifiers rise: when the parser, as it stands, reads
    /// a grammar, every node of it has an identifier that is greater than that of every
    /// node finished before it, none below the next free identifier before the parse
    /// and none above the last one given. So no two nodes share an identifier.
    pub proof fn lemma_ids_rise(&self)
        requires
            self.wf(),
            self.roomy(),
            p_grammar(self.input(), self.pos(), self.next_id()) is Good,
        ensures
            rising(
                grammar_ids(p_grammar(self.input(), self.pos(), self.next_id())->val),
                self.next_id(),
                p_grammar(self.input(), self.pos(), self.next_id())->Good_id,
            ),
            p_grammar(self.input(), self.pos(), self.next_id())->Good_id <= usize::MAX,
    {
        lemma_grammar_ids(self.input(), self.pos(), self.next_id());
        lemma_grammar(self.input(), self.pos(), self.next_id());
    }

    /// The span of a node runs from the start of its first token to the end of its
    /// last, and for every pair of spans that the parser merges the smallest enclosing
    /// span is that same span: the two ways to merge agree on all of them.
    pub proof fn lemma_cover_left_to_right(&self, first: int, pos: int)
        requires
            self.wf(),
            0 <= first < pos <= self.input().toks.len(),
        ensures
            self.input().cover(first, pos) == Span::at(
                self.input().toks[first].span.spec_start(),
                self.input().toks[pos - 1].span.spec_end(),
            ),
            self.input().cover(first, pos) == Span::at(
                Span::enclosing(
                    self.input().toks[first].span,
                    self.input().toks[pos - 1].span,
                ).0,
                Span::enclosing(
                    self.input().toks[first].span,
                    self.input().toks[pos - 1].span,
                ).1,
            ),
            self.input().cover(first, pos).wf(),
            self.input().toks[first].span.spec_start() < self.input().toks[pos
                - 1].span.spec_end(),
    {
        reveal(in_order);
        let a = self.tokens@[first].span;
        let b = self.tokens@[pos - 1].span;
        Span::lemma_merge_left_to_right(a, b);
    }

    /// Lexes the whole source and keeps the tokens that are not white space. A lexical
    /// error is handed on; no parser exists then.
    #[verifier::rlimit(40)]
    pub fn new(lexer: Lexer) -> (r: Result<Parser, ParseError>)
        requires
            lexer.wf(),
        ensures
            match lex_all(lexer.source(), lexer.pos()) {
                Ok(toks) => r is Ok && r->Ok_0.wf() && r->Ok_0.input() == (Input {
                    toks: without_junk(toks),
                    src: lexer.source(),
                }) && r->Ok_0.pos() == 0 && r->Ok_0.next_id() == 0 && (4 * toks.len() + 8
                    <= usize::MAX ==> r->Ok_0.roomy()),
                Err(e) => r is Err && r->Err_0@ == (ParseErrorView {
                    span: None,
                    kind: ParseErrorKindView::LexError(e),
                }),
            },
    {
        let mut lexer = lexer;
        let ghost src = lexer.source();
        let ghost at = lexer.pos();
        proof {
            lexer.lemma_pos_in_source();
        }
        let tokens = match lexer.tokens() {
            Ok(d) => d,
            Err(e) => {
                return Err(ParseError { span: None, kind: ParseErrorKind::LexError(e) });
            },
        };
        let chars = slice_chars(lexer.chars(), 0, lexer.chars().len());
        let kept = remove_junk(&tokens);
        proof {
            assert(chars@ == src);
            lemma_tokens_round_trip(src, at);
            lemma_tokens_in_order(src, at);
            lemma_without_junk(tokens@);
            lemma_without_junk_in_order(tokens@);
            assert forall|k: int| 0 <= k < kept.len() implies (#[trigger] kept[k]).span.wf()
                && kept[k].span.spec_end() <= chars.len() by {
                assert(tokens@.contains(kept@[k]));
                let j = choose|j: int| 0 <= j < tokens@.len() && tokens@[j] == kept@[k];
                assert(placed(src, tokens@, at, j));
            }
        }
        Ok(Parser { chars, tokens: kept, cursor: 0, next_id: 0 })
    }

    /// Whether there are identifiers left for every node that the rest of the input
    /// can give.
    pub fn has_room(&self) -> (r: bool)
        requires
            self.wf(),
        ensures
            r == self.roomy(),
    {
        let left = self.tokens.len() - self.cursor;
        left <= (usize::MAX - 8) / 4 && self.next_id <= usize::MAX - 8 - 4 * left
    }

    /// The position of the next token.
    pub fn position(&self) -> (r: usize)
        ensures
            r == self.pos(),
    {
        self.cursor
    }

    /// The identifier that the next node gets.
    pub fn next_node_id(&self) -> (r: usize)
        ensures
            r == self.next_id(),
    {
        self.next_id
    }

    /// The tokens that the parser reads.
    pub fn tokens(&self) -> (r: &Vec<S>)
        ensures
            r@ == self.input().toks,
    {
        &self.tokens
    }

    /// Whether the input is used up.
    pub fn eof(&self) -> (r: bool)
        requires
            self.wf(),
        ensures
            r == (self.pos() >= self.input().toks.len()),
    {
        self.cursor >= self.tokens.len()
    }

    fn found(&self) -> (r: Option<S>)
        requires
            self.wf(),
        ensures
            r == self.input().found(self.pos()),
    {
        if self.cursor < self.tokens.len() {
            Some(self.tokens[self.cursor])
        } else {
            None
        }
    }

    fn peek_is(&self, tok: Token) -> (r: bool)
        requires
            self.wf(),
        ensures
            r == self.input().at(self.pos(), tok),
    {
        self.cursor < self.tokens.len() && self.tokens[self.cursor].tok == tok
    }

    fn advance(&mut self)
        requires
            old(self).cursor < old(self).tokens.len(),
        ensures
            final(self).cursor == old(self).cursor + 1,
            final(self).tokens == old(self).tokens,
            final(self).chars == old(self).chars,
            final(self).next_id == old(self).next_id,
    {
        self.cursor += 1;
    }

    fn get_string(&self, span: Span) -> (r: String)
        requires
            span.wf(),
            span.spec_end() <= self.chars.len(),
        ensures
            r@ == self.input().text(span),
    {
        let v = slice_chars(&self.chars, span.start(), span.end());
        string_of_chars(&v)
    }

    fn make_node<T>(&mut self, first: usize, t: T) -> (n: N<T>)
        requires
            old(self).wf(),
            first < old(self).cursor,
            old(self).next_id < usize::MAX,
        ensures
            n.span == old(self).input().cover(first as int, old(self).cursor as int),
            n.id == NodeId(old(self).next_id),
            n.t == t,
            final(self).next_id == old(self).next_id + 1,
            final(self).cursor == old(self).cursor,
            final(self).tokens == old(self).tokens,
            final(self).chars == old(self).chars,
    {
        proof {
            self.lemma_cover_left_to_right(first as int, self.cursor as int);
        }
        let span = self.tokens[first].span.merge(self.tokens[self.cursor - 1].span);
        let id = NodeId(self.next_id);
        self.next_id += 1;
        N { span, id, t }
    }

    fn expect_err(expected: Token, found: Option<S>) -> (e: ParseError)
        ensures
            e@ == unexpected(expected, found),
    {
        let span = match &found {
            Some(d) => Some(d.span),
            None => None,
        };
        ParseError { span, kind: ParseErrorKind::UnexpectedToken(expected, found) }
    }

    fn expect_one_of_err(expected: Vec<Token>, found: Option<S>) -> (e: ParseError)
        ensures
            e@ == unexpected_multi(expected@, found),
    {
        let span = match &found {
            Some(d) => Some(d.span),
            None => None,
        };
        ParseError { span, kind: ParseErrorKind::UnexpectedTokenMulti(expected, found) }
    }

    fn eof_err() -> (e: ParseError)
        ensures
            e@ == eof(),
    {
        ParseError { span: None, kind: ParseErrorKind::Eof }
    }

    pub fn parse_ident(&mut self) -> (r: Result<N<Ident>, ParseError>)
        requires
            old(self).wf(),
            old(self).roomy(),
        ensures
            agrees(
                r,
                p_ident(old(self).input(), old(self).pos(), old(self).next_id()),
                *old(self),
                *final(self),
            ),
    {
        let first = self.cursor;
        if self.eof() {
            return Err(Self::eof_err());
        }
        if self.peek_is(Token::Ident) {
            let d = self.tokens[self.cursor];
            self.advance();
            let name = self.get_string(d.span);
            Ok(self.make_node(first, Ident { name }))
        } else {
            Err(Self::expect_err(Token::Ident, self.found()))
        }
    }

    fn unmark(v: &Vec<char>) -> (r: Vec<char>)
        ensures
            r@ == unmarked(v@),
    {
        let n = v.len();
        let mut a: usize = 0;
        while a < n && v[a] == '@'
            invariant
                a <= n == v.len(),
                skip_marks(v@, 0) == skip_marks(v@, a as int),
            decreases n - a,
        {
            a += 1;
        }
        let mut b: usize = n;
        while a < b && v[b - 1] == '@'
            invariant
                a <= b <= n == v.len(),
                drop_marks(v@, a as int, n as int) == drop_marks(v@, a as int, b as int),
            decreases b,
        {
            b -= 1;
        }
        slice_chars(v, a, b)
    }

    pub fn parse_attr(&mut self) -> (r: Result<N<Attr>, ParseError>)
        requires
            old(self).wf(),
            old(self).roomy(),
        ensures
            agrees(
                r,
                p_attr(old(self).input(), old(self).pos(), old(self).next_id()),
                *old(self),
                *final(self),
            ),
    {
        let first = self.cursor;
        if self.eof() {
            return Err(Self::eof_err());
        }
        if self.peek_is(Token::Attr) {
            let d = self.tokens[self.cursor];
            self.advance();
            let text = slice_chars(&self.chars, d.span.start(), d.span.end());
            let name = string_of_chars(&Self::unmark(&text));
            Ok(self.make_node(first, Attr { name }))
        } else {
            Err(Self::expect_err(Token::Attr, self.found()))
        }
    }

    pub fn parse_quantifier(&mut self) -> (r: Result<N<Quantifier>, ParseError>)
        requires
            old(self).wf(),
            old(self).roomy(),
        ensures
            agrees(
                r,
                p_quantifier(old(self).input(), old(self).pos(), old(self).next_id()),
                *old(self),
                *final(self),
            ),
    {
        let first = self.cursor;
        if self.eof() {
            return Err(Self::eof_err());
        }
        let quantifier = if self.peek_is(Token::Question) {
            Quantifier::Maybe
        } else if self.peek_is(Token::Asterisk) {
            Quantifier::Multi
        } else if self.peek_is(Token::Plus) {
            Quantifier::AtLeastOne
        } else {
            let expected = vec![Token::Question, Token::Asterisk, Token::Plus];
            proof {
                assert(expected@ == quantifier_signs());
            }
            return Err(Self::expect_one_of_err(expected, self.found()));
        };
        self.advance();
        Ok(self.make_node(first, quantifier))
    }

    #[verifier::rlimit(40)]
    pub fn parse_rule_element(&mut self) -> (r: Result<N<RuleElement>, ParseError>)
        requires
            old(self).wf(),
            old(self).roomy(),
        ensures
            agrees(
                r,
                p_element(old(self).input(), old(self).pos(), old(self).next_id()),
                *old(self),
                *final(self),
            ),
    {
        proof {
            reveal(p_element);
        }
        let first = self.cursor;
        if self.eof() {
            return Err(Self::eof_err());
        }
        let head = match self.parse_ident() {
            Ok(n) => n,
            Err(e) => {
                return Err(e);
            },
        };
        let (name, nt) = if self.peek_is(Token::Assign) {
            self.advance();
            match self.parse_ident() {
                Ok(nt) => (Some(head), nt),
                Err(e) => {
                    self.cursor = first;
                    return Err(e);
                },
            }
        } else {
            (None, head)
        };
        let quantifier = match self.parse_quantifier() {
            Ok(q) => Some(q),
            Err(_) => None,
        };
        Ok(self.make_node(first, RuleElement { name, nt, quantifier }))
    }

    /// Reads rule elements behind those of `acc` for as long as one follows.
    #[verifier::rlimit(40)]
    fn parse_elements(&mut self, acc: Vec<N<RuleElement>>) -> (r: Vec<N<RuleElement>>)
        requires
            old(self).wf(),
            old(self).roomy(),
        ensures
            final(self).wf(),
            final(self).input() == old(self).input(),
            element_views(r@) == element_views(acc@) + p_elements(
                old(self).input(),
                old(self).pos(),
                old(self).next_id(),
            ).vals,
            final(self).pos() == p_elements(
                old(self).input(),
                old(self).pos(),
                old(self).next_id(),
            ).pos,
            final(self).next_id() == p_elements(
                old(self).input(),
                old(self).pos(),
                old(self).next_id(),
            ).id,
    {
        proof {
            reveal(p_elements);
        }
        let mut out = acc;
        let ghost whole = p_elements(old(self).input(), old(self).pos(), old(self).next_id());
        loop
            invariant
                self.wf(),
                self.roomy(),
                self.input() == old(self).input(),
                whole == p_elements(old(self).input(), old(self).pos(), old(self).next_id()),
                element_views(acc@) + whole.vals == element_views(out@) + p_elements(
                    self.input(),
                    self.pos(),
                    self.next_id(),
                ).vals,
                whole.pos == p_elements(self.input(), self.pos(), self.next_id()).pos,
                whole.id == p_elements(self.input(), self.pos(), self.next_id()).id,
            decreases self.tokens.len() - self.cursor,
        {
            proof {
                reveal(p_elements);
            }
            proof {
                lemma_element(self.input(), self.pos(), self.next_id());
            }
            let ghost before = out@;
            match self.parse_rule_element() {
                Ok(e) => {
                    out.push(e);
                    proof {
                        let rest = p_elements(self.input(), self.pos(), self.next_id()).vals;
                        assert(element_views(before.push(e)) == element_views(before).push(e@));
                        assert(element_views(before) + (seq![e@] + rest) == element_views(
                            before,
                        ).push(e@) + rest);
                    }
                },
                Err(_) => {
                    proof {
                        assert(element_views(out@) + Seq::empty() == element_views(out@));
                    }
                    return out;
                },
            }
        }
    }

    #[verifier::rlimit(40)]
    pub fn parse_rule_body(&mut self) -> (r: Result<N<RuleBody>, ParseError>)
        requires
            old(self).wf(),
            old(self).roomy(),
        ensures
            agrees(
                r,
                p_body(old(self).input(), old(self).pos(), old(self).next_id()),
                *old(self),
                *final(self),
            ),
    {
        proof {
            reveal(p_body);
        }
        let first = self.cursor;
        if self.eof() {
            return Err(Self::eof_err());
        }
        proof {
            lemma_element(self.input(), self.pos(), self.next_id());
        }
        let head = match self.parse_rule_element() {
            Ok(n) => n,
            Err(e) => {
                return Err(e);
            },
        };
        proof {
            lemma_elements(self.input(), self.pos(), self.next_id());
        }
        let mut start: Vec<N<RuleElement>> = Vec::new();
        start.push(head);
        proof {
            assert(element_views(start@) == seq![head@]);
        }
        let body = self.parse_elements(start);
        Ok(self.make_node(first, RuleBody { body }))
    }

    #[verifier::rlimit(40)]
    pub fn parse_named_rule_body(&mut self) -> (r: Result<N<NamedRuleBody>, ParseError>)
        requires
            old(self).wf(),
            old(self).roomy(),
        ensures
            agrees(
                r,
                p_named(old(self).input(), old(self).pos(), old(self).next_id()),
                *old(self),
                *final(self),
            ),
    {
        proof {
            reveal(p_named);
        }
        let first = self.cursor;
        if self.eof() {
            return Err(Self::eof_err());
        }
        proof {
            lemma_body(self.input(), self.pos(), self.next_id());
        }
        let body = match self.parse_rule_body() {
            Ok(b) => Some(b),
            Err(_) => None,
        };
        if !self.peek_is(Token::NumSign) {
            let e = Self::expect_err(Token::NumSign, self.found());
            self.cursor = first;
            return Err(e);
        }
        self.advance();
        let name = match self.parse_ident() {
            Ok(n) => n,
            Err(e) => {
                self.cursor = first;
                return Err(e);
            },
        };
        Ok(self.make_node(first, NamedRuleBody { name, body }))
    }

    /// Reads `|` and an alternative, behind those of `acc`, for as long as a `|`
    /// follows. On failure the cursor stays where the failure was met.
    #[verifier::rlimit(40)]
    fn parse_more_alts(&mut self, acc: Vec<N<NamedRuleBody>>) -> (r: Result<
        Vec<N<NamedRuleBody>>,
        ParseError,
    >)
        requires
            old(self).wf(),
            old(self).roomy(),
        ensures
            final(self).wf(),
            final(self).input() == old(self).input(),
            match p_more_alts(old(self).input(), old(self).pos(), old(self).next_id()) {
                Parsed::Good { val, pos, id } => r is Ok && named_views(r->Ok_0@) == named_views(
                    acc@,
                ) + val && final(self).pos() == pos && final(self).next_id() == id,
                Parsed::Bad { err, id } => r is Err && r->Err_0@ == err && final(self).next_id()
                    == id,
            },
    {
        proof {
            reveal(p_more_alts);
        }
        let mut out = acc;
        let ghost whole = p_more_alts(old(self).input(), old(self).pos(), old(self).next_id());
        loop
            invariant
                self.wf(),
                self.roomy(),
                self.input() == old(self).input(),
                whole == p_more_alts(old(self).input(), old(self).pos(), old(self).next_id()),
                match p_more_alts(self.input(), self.pos(), self.next_id()) {
                    Parsed::Good { val, pos, id } => whole is Good && named_views(acc@)
                        + whole->val == named_views(out@) + val && whole->pos == pos
                        && whole->Good_id == id,
                    Parsed::Bad { err, id } => whole == (Parsed::Bad::<
                        Seq<crate::ast_meta::NodeView<crate::ast::NamedRuleBodyView>>,
                    > { err, id }),
                },
            decreases self.tokens.len() - self.cursor,
        {
            proof {
                reveal(p_more_alts);
            }
            if !self.peek_is(Token::Alt) {
                proof {
                    assert(named_views(out@) + Seq::empty() == named_views(out@));
                }
                return Ok(out);
            }
            self.advance();
            proof {
                lemma_named(self.input(), self.pos(), self.next_id());
            }
            let ghost before = out@;
            match self.parse_named_rule_body() {
                Ok(a) => {
                    out.push(a);
                    proof {
                        if let Parsed::Good { val: rest, pos, id } = p_more_alts(
                            self.input(),
                            self.pos(),
                            self.next_id(),
                        ) {
                            assert(named_views(before.push(a)) == named_views(before).push(a@));
                            assert(named_views(before) + (seq![a@] + rest) == named_views(
                                before,
                            ).push(a@) + rest);
                        }
                    }
                },
                Err(e) => {
                    let span = e.span;
                    return Err(
                        ParseError {
                            span,
                            kind: ParseErrorKind::DuplicatedSepOrParseError(Token::Alt, Box::new(e)),
                        },
                    );
                },
            }
        }
    }

    /// Reads one alternative or more, with `|` between them, behind those of `acc`. On
    /// failure the cursor stays where the failure was met.
    #[verifier::rlimit(40)]
    fn parse_some_alts(&mut self, acc: Vec<N<NamedRuleBody>>) -> (r: Result<
        Vec<N<NamedRuleBody>>,
        ParseError,
    >)
        requires
            old(self).wf(),
            old(self).roomy(),
        ensures
            final(self).wf(),
            final(self).input() == old(self).input(),
            match p_some_alts(old(self).input(), old(self).pos(), old(self).next_id()) {
                Parsed::Good { val, pos, id } => r is Ok && named_views(r->Ok_0@) == named_views(
                    acc@,
                ) + val && final(self).pos() == pos && final(self).next_id() == id,
                Parsed::Bad { err, id } => r is Err && r->Err_0@ == err && final(self).next_id()
                    == id,
            },
    {
        proof {
            reveal(p_some_alts);
        }
        proof {
            lemma_named(self.input(), self.pos(), self.next_id());
        }
        let head = match self.parse_named_rule_body() {
            Ok(a) => a,
            Err(e) => {
                return Err(e);
            },
        };
        let mut out = acc;
        out.push(head);
        proof {
            assert(named_views(acc@.push(head)) == named_views(acc@).push(head@));
            if let Parsed::Good { val: rest, pos, id } = p_more_alts(
                self.input(),
                self.pos(),
                self.next_id(),
            ) {
                assert(named_views(acc@) + (seq![head@] + rest) == named_views(acc@).push(head@)
                    + rest);
            }
        }
        self.parse_more_alts(out)
    }

    /// Reads what follows the first alternative of an enum rule, which began at
    /// `first` and has the name and body given. On failure the cursor stays where the
    /// failure was met.
    #[verifier::rlimit(40)]
    fn parse_alts(&mut self, first: usize, name: N<Ident>, body: Option<N<RuleBody>>) -> (r:
        Result<RuleKind, ParseError>)
        requires
            old(self).wf(),
            old(self).roomy(),
            first < old(self).cursor,
        ensures
            final(self).wf(),
            final(self).input() == old(self).input(),
            match p_alts(
                old(self).input(),
                first as int,
                name@,
                match body {
                    Some(b) => Some(b@),
                    None => None,
                },
                old(self).pos(),
                old(self).next_id(),
            ) {
                Parsed::Good { val, pos, id } => r is Ok && r->Ok_0@ == val && final(self).pos()
                    == pos && final(self).next_id() == id,
                Parsed::Bad { err, id } => r is Err && r->Err_0@ == err && final(self).next_id()
                    == id,
            },
    {
        proof {
            reveal(p_alts);
        }
        let head = self.make_node(first, NamedRuleBody { name, body });
        let mut alts: Vec<N<NamedRuleBody>> = Vec::new();
        alts.push(head);
        proof {
            assert(named_views(alts@) == seq![head@]);
        }
        if self.peek_is(Token::Alt) {
            self.advance();
            proof {
                lemma_some_alts(self.input(), self.pos(), self.next_id());
            }
            let all = match self.parse_some_alts(alts) {
                Ok(v) => v,
                Err(e) => {
                    return Err(e);
                },
            };
            if !self.peek_is(Token::Semicolon) {
                return Err(Self::expect_err(Token::Semicolon, self.found()));
            }
            self.advance();
            Ok(RuleKind::Enum(all))
        } else if self.peek_is(Token::Semicolon) {
            self.advance();
            Ok(RuleKind::Enum(alts))
        } else {
            let expected = vec![Token::Alt, Token::Semicolon];
            proof {
                assert(expected@ == alt_or_end());
            }
            Err(Self::expect_one_of_err(expected, self.found()))
        }
    }

    /// Reads attributes for as long as one follows.
    #[verifier::rlimit(40)]
    fn parse_attrs(&mut self) -> (r: Vec<N<Attr>>)
        requires
            old(self).wf(),
            old(self).roomy(),
        ensures
            final(self).wf(),
            final(self).input() == old(self).input(),
            attr_views(r@) == p_attrs(old(self).input(), old(self).pos(), old(self).next_id()).vals,
            final(self).pos() == p_attrs(old(self).input(), old(self).pos(), old(self).next_id()).pos,
            final(self).next_id() == p_attrs(
                old(self).input(),
                old(self).pos(),
                old(self).next_id(),
            ).id,
    {
        proof {
            reveal(p_attrs);
        }
        let mut out: Vec<N<Attr>> = Vec::new();
        let ghost whole = p_attrs(old(self).input(), old(self).pos(), old(self).next_id());
        loop
            invariant
                self.wf(),
                self.roomy(),
                self.input() == old(self).input(),
                whole == p_attrs(old(self).input(), old(self).pos(), old(self).next_id()),
                whole.vals == attr_views(out@) + p_attrs(
                    self.input(),
                    self.pos(),
                    self.next_id(),
                ).vals,
                whole.pos == p_attrs(self.input(), self.pos(), self.next_id()).pos,
                whole.id == p_attrs(self.input(), self.pos(), self.next_id()).id,
            decreases self.tokens.len() - self.cursor,
        {
            proof {
                reveal(p_attrs);
            }
            proof {
                lemma_attr(self.input(), self.pos(), self.next_id());
            }
            let ghost before = out@;
            match self.parse_attr() {
                Ok(a) => {
                    out.push(a);
                    proof {
                        let rest = p_attrs(self.input(), self.pos(), self.next_id()).vals;
                        assert(attr_views(before.push(a)) == attr_views(before).push(a@));
                        assert(attr_views(before) + (seq![a@] + rest) == attr_views(before).push(
                            a@,
                        ) + rest);
                    }
                },
                Err(_) => {
                    proof {
                        assert(attr_views(out@) + Seq::empty() == attr_views(out@));
                    }
                    return out;
                },
            }
        }
    }

    /// Reads the right-hand side of the rule that began at `first`. On failure the
    /// cursor stays where the failure was met.
    #[verifier::rlimit(40)]
    fn parse_kind(&mut self, first: usize) -> (r: Result<RuleKind, ParseError>)
        requires
            old(self).wf(),
            old(self).roomy(),
            first < old(self).cursor,
        ensures
            final(self).wf(),
            final(self).input() == old(self).input(),
            match p_kind(old(self).input(), first as int, old(self).pos(), old(self).next_id()) {
                Parsed::Good { val, pos, id } => r is Ok && r->Ok_0@ == val && final(self).pos()
                    == pos && final(self).next_id() == id,
                Parsed::Bad { err, id } => r is Err && r->Err_0@ == err && final(self).next_id()
                    == id,
            },
    {
        proof {
            reveal(p_kind);
        }
        if self.peek_is(Token::NumSign) {
            self.advance();
            let name = match self.parse_ident() {
                Ok(n) => n,
                Err(e) => {
                    return Err(e);
                },
            };
            self.parse_alts(first, name, None)
        } else if self.peek_is(Token::Ident) {
            proof {
                lemma_body(self.input(), self.pos(), self.next_id());
            }
            let body = match self.parse_rule_body() {
                Ok(b) => b,
                Err(e) => {
                    return Err(e);
                },
            };
            if self.peek_is(Token::NumSign) {
                self.advance();
                let name = match self.parse_ident() {
                    Ok(n) => n,
                    Err(e) => {
                        return Err(e);
                    },
                };
                self.parse_alts(first, name, Some(body))
            } else if self.peek_is(Token::Semicolon) {
                self.advance();
                Ok(RuleKind::Normal(body))
            } else {
                Err(Self::expect_err(Token::Semicolon, self.found()))
            }
        } else {
            let expected = vec![Token::NumSign, Token::Ident];
            proof {
                assert(expected@ == kind_starts());
            }
            Err(Self::expect_one_of_err(expected, self.found()))
        }
    }

    #[verifier::rlimit(40)]
    pub fn parse_rule(&mut self) -> (r: Result<N<Rule>, ParseError>)
        requires
            old(self).wf(),
            old(self).roomy(),
        ensures
            agrees(
                r,
                p_rule(old(self).input(), old(self).pos(), old(self).next_id()),
                *old(self),
                *final(self),
            ),
    {
        proof {
            reveal(p_rule);
        }
        let first = self.cursor;
        if self.eof() {
            return Err(Self::eof_err());
        }
        proof {
            lemma_attrs(self.input(), self.pos(), self.next_id());
        }
        let attrs = self.parse_attrs();
        let name = match self.parse_ident() {
            Ok(n) => n,
            Err(e) => {
                self.cursor = first;
                return Err(e);
            },
        };
        if !self.peek_is(Token::Colon) {
            let e = Self::expect_err(Token::Colon, self.found());
            self.cursor = first;
            return Err(e);
        }
        self.advance();
        proof {
            lemma_kind(self.input(), first as int, self.pos(), self.next_id());
        }
        let kind = match self.parse_kind(first) {
            Ok(k) => k,
            Err(e) => {
                self.cursor = first;
                return Err(e);
            },
        };
        Ok(self.make_node(first, Rule { attrs, name, kind }))
    }

    /// Reads rules up to the end of the input. On failure the cursor stays where the
    /// failure was met.
    #[verifier::rlimit(40)]
    fn parse_rules(&mut self) -> (r: Result<Vec<N<Rule>>, ParseError>)
        requires
            old(self).wf(),
            old(self).roomy(),
        ensures
            final(self).wf(),
            final(self).input() == old(self).input(),
            match p_rules(old(self).input(), old(self).pos(), old(self).next_id()) {
                Parsed::Good { val, pos, id } => r is Ok && rule_views(r->Ok_0@) == val
                    && final(self).pos() == pos && final(self).next_id() == id,
                Parsed::Bad { err, id } => r is Err && r->Err_0@ == err && final(self).next_id()
                    == id,
            },
    {
        proof {
            reveal(p_rules);
        }
        let mut rules: Vec<N<Rule>> = Vec::new();
        let ghost whole = p_rules(old(self).input(), old(self).pos(), old(self).next_id());
        while !self.eof()
            invariant
                self.wf(),
                self.roomy(),
                self.input() == old(self).input(),
                whole == p_rules(old(self).input(), old(self).pos(), old(self).next_id()),
                match p_rules(self.input(), self.pos(), self.next_id()) {
                    Parsed::Good { val, pos, id } => whole is Good && whole->val == rule_views(
                        rules@,
                    ) + val && whole->pos == pos && whole->Good_id == id,
                    Parsed::Bad { err, id } => whole == (Parsed::Bad::<crate::ast::GrammarView> {
                        err,
                        id,
                    }),
                },
            decreases self.tokens.len() - self.cursor,
        {
            proof {
                reveal(p_rules);
            }
            proof {
                lemma_rule(self.input(), self.pos(), self.next_id());
            }
            let ghost before = rules@;
            match self.parse_rule() {
                Ok(rule) => {
                    rules.push(rule);
                    proof {
                        if let Parsed::Good { val: rest, pos, id } = p_rules(
                            self.input(),
                            self.pos(),
                            self.next_id(),
                        ) {
                            assert(rule_views(before.push(rule)) == rule_views(before).push(rule@));
                            assert(rule_views(before) + (seq![rule@] + rest) == rule_views(
                                before,
                            ).push(rule@) + rest);
                        }
                    }
                },
                Err(e) => {
                    return Err(e);
                },
            }
        }
        proof {
            assert(rule_views(rules@) + Seq::empty() == rule_views(rules@));
        }
        Ok(rules)
    }

    /// Reads a whole grammar: every rule up to the end of the input.
    #[verifier::rlimit(40)]
    pub fn parse_grammar(&mut self) -> (r: Result<N<Grammar>, ParseError>)
        requires
            old(self).wf(),
            old(self).roomy(),
        ensures
            agrees(
                r,
                p_grammar(old(self).input(), old(self).pos(), old(self).next_id()),
                *old(self),
                *final(self),
            ),
    {
        proof {
            reveal(p_grammar);
        }
        let first = self.cursor;
        if self.eof() {
            return Err(Self::eof_err());
        }
        proof {
            lemma_rules(self.input(), self.pos(), self.next_id());
        }
        let rules = match self.parse_rules() {
            Ok(r) => r,
            Err(e) => {
                self.cursor = first;
                return Err(e);
            },
        };
        Ok(self.make_node(first, Grammar { rules }))
    }
}

} // verus!
