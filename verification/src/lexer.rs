//! The lexer: source text to tokens.

use crate::span::Span;
use crate::text::chars_of;
use crate::token::{Token, Whitespace, S};
use vstd::prelude::*;

verus! {

broadcast use Span::lemma_at;

#[derive(Debug, Clone, Copy, PartialEq, Eq, Structural)]
pub struct LexError {
    pub span: Span,
    pub kind: LexErrorKind,
}

#[derive(Debug, Clone, Copy, PartialEq, Eq, Structural)]
pub enum LexErrorKind {
    NameStartWithDigit(char),
    UnknownChar(char),
    LitStringNotClosed,
}

pub open spec fn digit(c: char) -> bool {
    '0' <= c <= '9'
}

pub open spec fn letter(c: char) -> bool {
    ('a' <= c <= 'z') || ('A' <= c <= 'Z') || c == '_'
}

pub open spec fn digit_letter(c: char) -> bool {
    digit(c) || letter(c)
}

pub fn is_digit(c: char) -> (r: bool)
    ensures
        r == digit(c),
{
    c >= '0' && c <= '9'
}

pub fn is_letter(c: char) -> (r: bool)
    ensures
        r == letter(c),
{
    (c >= 'a' && c <= 'z') || (c >= 'A' && c <= 'Z') || (c == '_')
}

pub fn is_digit_letter(c: char) -> (r: bool)
    ensures
        r == digit_letter(c),
{
    is_digit(c) || is_letter(c)
}

/// The token that a single character stands for, if it stands for one by itself.
pub open spec fn single(c: char) -> Option<Token> {
    if c == '?' {
        Some(Token::Question)
    } else if c == '+' {
        Some(Token::Plus)
    } else if c == '*' {
        Some(Token::Asterisk)
    } else if c == ':' {
        Some(Token::Colon)
    } else if c == ';' {
        Some(Token::Semicolon)
    } else if c == '#' {
        Some(Token::NumSign)
    } else if c == '|' {
        Some(Token::Alt)
    } else if c == '=' {
        Some(Token::Assign)
    } else if c == ' ' {
        Some(Token::Whitespace(Whitespace::Space))
    } else if c == '\n' {
        Some(Token::Whitespace(Whitespace::Newline))
    } else if c == '\r' {
        Some(Token::Whitespace(Whitespace::CarriageReturn))
    } else if c == '\t' {
        Some(Token::Whitespace(Whitespace::HorizontalTab))
    } else {
        None
    }
}

/// Where the longest run of letters and digits that starts at `i` ends.
pub open spec fn run_end(s: Seq<char>, i: int) -> int
    decreases s.len() - i,
{
    if 0 <= i < s.len() && digit_letter(s[i]) {
        run_end(s, i + 1)
    } else {
        i
    }
}

/// The position of the first double quote at or after `i`, or the length of `s`.
pub open spec fn quote_at(s: Seq<char>, i: int) -> int
    decreases s.len() - i,
{
    if 0 <= i < s.len() && s[i] != '"' {
        quote_at(s, i + 1)
    } else {
        i
    }
}

/// What the lexer finds at one position of the source.
pub enum Lexed {
    /// The source ends here.
    End,
    /// A token that runs up to `end`.
    Tok { tok: Token, end: int },
    /// A lexical error in the text up to `end`.
    Fail { kind: LexErrorKind, end: int },
}

/// What stands at position `i` of `s`: the longest token that starts there.
pub open spec fn lex_at(s: Seq<char>, i: int) -> Lexed {
    if !(0 <= i < s.len()) {
        Lexed::End
    } else if single(s[i]) is Some {
        Lexed::Tok { tok: single(s[i])->0, end: i + 1 }
    } else if s[i] == '@' {
        Lexed::Tok { tok: Token::Attr, end: run_end(s, i + 1) }
    } else if s[i] == '"' {
        let q = quote_at(s, i + 1);
        if q < s.len() {
            Lexed::Tok { tok: Token::LitString, end: q + 1 }
        } else {
            Lexed::Fail { kind: LexErrorKind::LitStringNotClosed, end: s.len() as int }
        }
    } else if letter(s[i]) {
        Lexed::Tok { tok: Token::Ident, end: run_end(s, i + 1) }
    } else if digit(s[i]) {
        Lexed::Fail { kind: LexErrorKind::NameStartWithDigit(s[i]), end: i + 1 }
    } else {
        Lexed::Fail { kind: LexErrorKind::UnknownChar(s[i]), end: i + 1 }
    }
}

/// The outcome of lexing with the tokens `acc` put in front of it.
pub open spec fn after(acc: Seq<S>, r: Result<Seq<S>, LexError>) -> Result<Seq<S>, LexError> {
    match r {
        Ok(rest) => Ok(acc + rest),
        Err(e) => Err(e),
    }
}

/// Every token of `s` from position `i` on, or the first lexical error.
pub open spec fn lex_all(s: Seq<char>, i: int) -> Result<Seq<S>, LexError>
    decreases s.len() - i,
{
    match lex_at(s, i) {
        Lexed::End => Ok(Seq::empty()),
        Lexed::Tok { tok, end } => {
            if i < end <= s.len() {
                after(seq![S { tok, span: Span::at(i as usize, end as usize) }], lex_all(s, end))
            } else {
                Ok(Seq::empty())
            }
        },
        Lexed::Fail { kind, end } => Err(
            LexError { span: Span::at(i as usize, end as usize), kind },
        ),
    }
}

/// What the text of a token of each kind looks like.
pub open spec fn shaped(tok: Token, text: Seq<char>) -> bool {
    match tok {
        Token::Ident => text.len() >= 1 && letter(text[0]) && forall|k: int|
            1 <= k < text.len() ==> digit_letter(#[trigger] text[k]),
        Token::Attr => text.len() >= 1 && text[0] == '@' && forall|k: int|
            1 <= k < text.len() ==> digit_letter(#[trigger] text[k]),
        Token::LitString => text.len() >= 2 && text[0] == '"' && text.last() == '"' && forall|
            k: int,
        |
            1 <= k < text.len() - 1 ==> #[trigger] text[k] != '"',
        _ => text.len() == 1 && single(text[0]) == Some(tok),
    }
}

pub proof fn lemma_run_end(s: Seq<char>, i: int)
    requires
        0 <= i <= s.len(),
    ensures
        i <= run_end(s, i) <= s.len(),
        forall|k: int| i <= k < run_end(s, i) ==> digit_letter(#[trigger] s[k]),
        run_end(s, i) < s.len() ==> !digit_letter(s[run_end(s, i)]),
    decreases s.len() - i,
{
    if i < s.len() && digit_letter(s[i]) {
        lemma_run_end(s, i + 1);
    }
}

pub proof fn lemma_quote_at(s: Seq<char>, i: int)
    requires
        0 <= i <= s.len(),
    ensures
        i <= quote_at(s, i) <= s.len(),
        forall|k: int| i <= k < quote_at(s, i) ==> #[trigger] s[k] != '"',
        quote_at(s, i) < s.len() ==> s[quote_at(s, i)] == '"',
    decreases s.len() - i,
{
    if i < s.len() && s[i] != '"' {
        lemma_quote_at(s, i + 1);
    }
}

/// A token covers at least one character, ends inside the source, and the source text
/// that it covers is text of its kind; a name or an attribute is as long as it can be.
pub proof fn lemma_token_round_trip(s: Seq<char>, i: int)
    requires
        lex_at(s, i) is Tok,
    ensures
        0 <= i < lex_at(s, i)->Tok_end <= s.len(),
        shaped(lex_at(s, i)->tok, s.subrange(i, lex_at(s, i)->Tok_end)),
        (lex_at(s, i)->tok == Token::Ident || lex_at(s, i)->tok == Token::Attr) && lex_at(
            s,
            i,
        )->Tok_end < s.len() ==> !digit_letter(s[lex_at(s, i)->Tok_end]),
{
    lemma_run_end(s, i + 1);
    lemma_quote_at(s, i + 1);
}

/// Whether token `k` of `toks` lies in `s` behind the one before it (the first one at
/// `from`) and its span cuts text of its kind out of `s`.
pub open spec fn placed(s: Seq<char>, toks: Seq<S>, from: int, k: int) -> bool {
    let t = toks[k];
    &&& from <= t.span.spec_start() < t.span.spec_end() <= s.len()
    &&& shaped(t.tok, s.subrange(t.span.spec_start() as int, t.span.spec_end() as int))
    &&& t.span.spec_start() == if k == 0 {
        from
    } else {
        toks[k - 1].span.spec_end() as int
    }
}

/// The tokens of a source lie one after the other, from where lexing began to the end of
/// the source, and each one's span cuts text of its kind out of the source.
#[verifier::rlimit(40)]
pub proof fn lemma_tokens_round_trip(s: Seq<char>, i: int)
    requires
        0 <= i <= s.len() <= usize::MAX,
        lex_all(s, i) is Ok,
    ensures
        forall|k: int|
            0 <= k < lex_all(s, i)->Ok_0.len() ==> #[trigger] placed(s, lex_all(s, i)->Ok_0, i, k),
        lex_all(s, i)->Ok_0.len() > 0 ==> lex_all(s, i)->Ok_0.last().span.spec_end() == s.len(),
        lex_all(s, i)->Ok_0.len() == 0 ==> i == s.len(),
    decreases s.len() - i,
{
    let all = lex_all(s, i)->Ok_0;
    match lex_at(s, i) {
        Lexed::End => {},
        Lexed::Tok { tok, end } => {
            lemma_token_round_trip(s, i);
            lemma_tokens_round_trip(s, end);
            let head = S { tok, span: Span::at(i as usize, end as usize) };
            let rest = lex_all(s, end)->Ok_0;
            assert(all == seq![head] + rest);
            assert(placed(s, all, i, 0));
            assert forall|k: int| 0 <= k < all.len() implies #[trigger] placed(s, all, i, k) by {
                if k > 0 {
                    assert(placed(s, rest, end, k - 1));
                    assert(all[k] == rest[k - 1]);
                    if k > 1 {
                        assert(all[k - 1] == rest[k - 2]);
                    } else {
                        assert(all[k - 1] == head);
                    }
                }
            }
            if rest.len() > 0 {
                assert(all.last() == rest.last());
            }
        },
        Lexed::Fail { kind, end } => {},
    }
}

/// Whether each token ends before the next one begins.
#[verifier::opaque]
pub open spec fn in_order(toks: Seq<S>) -> bool {
    forall|a: int, b: int|
        0 <= a < b < toks.len() ==> (#[trigger] toks[a]).span.spec_end() <= (
        #[trigger] toks[b]).span.spec_start()
}

proof fn lemma_chain(s: Seq<char>, toks: Seq<S>, from: int, a: int, b: int)
    requires
        forall|k: int| 0 <= k < toks.len() ==> #[trigger] placed(s, toks, from, k),
        0 <= a < b < toks.len(),
    ensures
        toks[a].span.spec_end() <= toks[b].span.spec_start(),
    decreases b - a,
{
    assert(placed(s, toks, from, b));
    if a < b - 1 {
        lemma_chain(s, toks, from, a, b - 1);
        assert(placed(s, toks, from, b - 1));
    }
}

/// The tokens of a source come in the order of the text and do not overlap.
pub proof fn lemma_tokens_in_order(s: Seq<char>, i: int)
    requires
        0 <= i <= s.len() <= usize::MAX,
        lex_all(s, i) is Ok,
    ensures
        in_order(lex_all(s, i)->Ok_0),
{
    lemma_tokens_round_trip(s, i);
    reveal(in_order);
    let toks = lex_all(s, i)->Ok_0;
    assert forall|a: int, b: int| 0 <= a < b < toks.len() implies (#[trigger] toks[a]).span.spec_end()
        <= (#[trigger] toks[b]).span.spec_start() by {
        lemma_chain(s, toks, i, a, b);
    }
}

/// A scanner over the characters of a source text.
#[derive(Clone, Debug)]
pub struct Lexer {
    chars: Vec<char>,
    start: usize,
    cur: usize,
}

impl Lexer {
    pub closed spec fn wf(&self) -> bool {
        self.start <= self.cur <= self.chars.len()
    }

    /// The whole source text.
    pub closed spec fn source(&self) -> Seq<char> {
        self.chars@
    }

    /// The position that the next token starts at.
    pub closed spec fn pos(&self) -> int {
        self.cur as int
    }

    /// The position that the last token started at.
    pub closed spec fn token_start(&self) -> int {
        self.start as int
    }

    /// The lexer stands inside its source.
    pub proof fn lemma_pos_in_source(&self)
        requires
            self.wf(),
        ensures
            0 <= self.token_start() <= self.pos() <= self.source().len() <= usize::MAX,
    {
    }

    pub fn new(input: &str) -> (l: Lexer)
        ensures
            l.wf(),
            l.source() == input@,
            l.pos() == 0,
            l.token_start() == 0,
    {
        Lexer { chars: chars_of(input), start: 0, cur: 0 }
    }

    /// The characters of the source.
    pub fn chars(&self) -> (r: &Vec<char>)
        ensures
            r@ == self.source(),
    {
        &self.chars
    }

    /// The place of the last token.
    pub fn span(&self) -> (r: Span)
        requires
            self.wf(),
            self.token_start() < self.pos(),
        ensures
            r == Span::at(self.token_start() as usize, self.pos() as usize),
    {
        Span::new(self.start, self.cur)
    }

    fn advance_while_digit_letter(&mut self)
        requires
            old(self).wf(),
        ensures
            final(self).wf(),
            final(self).chars == old(self).chars,
            final(self).start == old(self).start,
            final(self).cur == run_end(old(self).chars@, old(self).cur as int),
    {
        while self.cur < self.chars.len() && is_digit_letter(self.chars[self.cur])
            invariant
                self.wf(),
                self.chars == old(self).chars,
                self.start == old(self).start,
                run_end(self.chars@, self.cur as int) == run_end(
                    old(self).chars@,
                    old(self).cur as int,
                ),
            decreases self.chars.len() - self.cur,
        {
            self.cur += 1;
        }
    }

    fn advance_to_quote(&mut self)
        requires
            old(self).wf(),
        ensures
            final(self).wf(),
            final(self).chars == old(self).chars,
            final(self).start == old(self).start,
            final(self).cur == quote_at(old(self).chars@, old(self).cur as int),
    {
        while self.cur < self.chars.len() && self.chars[self.cur] != '"'
            invariant
                self.wf(),
                self.chars == old(self).chars,
                self.start == old(self).start,
                quote_at(self.chars@, self.cur as int) == quote_at(
                    old(self).chars@,
                    old(self).cur as int,
                ),
            decreases self.chars.len() - self.cur,
        {
            self.cur += 1;
        }
    }

    /// Reads the token that starts at the current position and moves behind it. At the
    /// end of the source there is none, and nothing moves.
    #[verifier::rlimit(40)]
    pub fn next(&mut self) -> (r: Result<Option<Token>, LexError>)
        requires
            old(self).wf(),
        ensures
            final(self).wf(),
            final(self).source() == old(self).source(),
            match lex_at(old(self).source(), old(self).pos()) {
                Lexed::End => r == Ok::<Option<Token>, LexError>(None) && final(self).pos()
                    == old(self).pos(),
                Lexed::Tok { tok, end } => r == Ok::<Option<Token>, LexError>(Some(tok))
                    && final(self).pos() == end && final(self).token_start() == old(self).pos(),
                Lexed::Fail { kind, end } => r == Err::<Option<Token>, LexError>(
                    LexError { span: Span::at(old(self).pos() as usize, end as usize), kind },
                ) && final(self).pos() == end && final(self).token_start() == old(self).pos(),
            },
    {
        if self.cur >= self.chars.len() {
            return Ok(None);
        }
        let c = self.chars[self.cur];
        self.start = self.cur;
        self.cur += 1;
        let ty = if c == '?' {
            Token::Question
        } else if c == '+' {
            Token::Plus
        } else if c == '*' {
            Token::Asterisk
        } else if c == ':' {
            Token::Colon
        } else if c == ';' {
            Token::Semicolon
        } else if c == '#' {
            Token::NumSign
        } else if c == '|' {
            Token::Alt
        } else if c == '=' {
            Token::Assign
        } else if c == ' ' {
            Token::Whitespace(Whitespace::Space)
        } else if c == '\n' {
            Token::Whitespace(Whitespace::Newline)
        } else if c == '\r' {
            Token::Whitespace(Whitespace::CarriageReturn)
        } else if c == '\t' {
            Token::Whitespace(Whitespace::HorizontalTab)
        } else if c == '@' {
            self.advance_while_digit_letter();
            Token::Attr
        } else if c == '"' {
            self.advance_to_quote();
            if self.cur < self.chars.len() {
                self.cur += 1;
            } else {
                return Err(self.make_error(LexErrorKind::LitStringNotClosed));
            }
            Token::LitString
        } else if is_letter(c) {
            self.advance_while_digit_letter();
            Token::Ident
        } else if is_digit(c) {
            return Err(self.make_error(LexErrorKind::NameStartWithDigit(c)));
        } else {
            return Err(self.make_error(LexErrorKind::UnknownChar(c)));
        };
        Ok(Some(ty))
    }

    fn make_error(&self, kind: LexErrorKind) -> (e: LexError)
        requires
            self.wf(),
            self.start < self.cur,
        ensures
            e == (LexError { span: Span::at(self.start, self.cur), kind }),
    {
        LexError { span: self.span(), kind }
    }

    /// Reads every token from the current position to the end of the source, each with
    /// its span, and stops at the first lexical error.
    #[verifier::rlimit(40)]
    pub fn tokens(&mut self) -> (r: Result<Vec<S>, LexError>)
        requires
            old(self).wf(),
        ensures
            final(self).wf(),
            final(self).source() == old(self).source(),
            match lex_all(old(self).source(), old(self).pos()) {
                Ok(toks) => r is Ok && r->Ok_0@ == toks,
                Err(e) => r == Err::<Vec<S>, LexError>(e),
            },
    {
        let mut out: Vec<S> = Vec::new();
        loop
            invariant
                self.wf(),
                self.chars@ == old(self).chars@,
                lex_all(old(self).chars@, old(self).cur as int) == after(
                    out@,
                    lex_all(self.chars@, self.cur as int),
                ),
            decreases self.chars.len() - self.cur,
        {
            proof {
                if lex_at(self.chars@, self.cur as int) is Tok {
                    lemma_token_round_trip(self.chars@, self.cur as int);
                }
            }
            let ghost before = out@;
            let ghost at = self.cur as int;
            match self.next() {
                Ok(Some(tok)) => {
                    let t = S { tok, span: self.span() };
                    out.push(t);
                    proof {
                        let rest = lex_all(self.chars@, self.cur as int);
                        assert(lex_all(self.chars@, at) == after(seq![t], rest));
                        match rest {
                            Ok(more) => {
                                assert(before + (seq![t] + more) == before.push(t) + more);
                            },
                            Err(e) => {},
                        }
                    }
                },
                Ok(None) => {
                    proof {
                        assert(out@ + Seq::<S>::empty() == out@);
                    }
                    return Ok(out);
                },
                Err(e) => {
                    return Err(e);
                },
            }
        }
    }
}

} // verus!
