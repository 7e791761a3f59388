//! Naming helpers: primitive and keyword tables, trimming, indentation, camel case.

use crate::text::{
    ascii_lower, ascii_upper, cat, chars_of, is_space, is_space_char, join_all, join_seq,
    slice_chars, str_eq, string_of_chars, to_ascii_lower, to_ascii_upper, views,
};
use vstd::prelude::*;
use vstd::string::*;

verus! {

/// The names of the built-in primitive types.
pub open spec fn std_primary(s: Seq<char>) -> bool {
    ||| s == "bool"@
    ||| s == "u8"@
    ||| s == "u16"@
    ||| s == "u32"@
    ||| s == "u64"@
    ||| s == "u128"@
    ||| s == "i8"@
    ||| s == "i16"@
    ||| s == "i32"@
    ||| s == "i64"@
    ||| s == "i128"@
    ||| s == "f32"@
    ||| s == "f64"@
    ||| s == "usize"@
    ||| s == "isize"@
    ||| s == "char"@
    ||| s == "str"@
    ||| s == "!"@
}

/// The names that must be escaped when used as a field name.
pub open spec fn keyword(s: Seq<char>) -> bool {
    s == "as"@ || s == "break"@ || s == "where"@
}

pub fn is_std_primary(input: &str) -> (r: bool)
    ensures
        r == std_primary(input@),
{
    str_eq(input, "bool") || str_eq(input, "u8") || str_eq(input, "u16") || str_eq(input, "u32")
        || str_eq(input, "u64") || str_eq(input, "u128") || str_eq(input, "i8") || str_eq(
        input,
        "i16",
    ) || str_eq(input, "i32") || str_eq(input, "i64") || str_eq(input, "i128") || str_eq(
        input,
        "f32",
    ) || str_eq(input, "f64") || str_eq(input, "usize") || str_eq(input, "isize") || str_eq(
        input,
        "char",
    ) || str_eq(input, "str") || str_eq(input, "!")
}

pub fn is_keyword(input: &str) -> (r: bool)
    ensures
        r == keyword(input@),
{
    str_eq(input, "as") || str_eq(input, "break") || str_eq(input, "where")
}

/// The first position at or after `i` whose character is not white space, or the
/// length of `s`.
pub open spec fn skip_space(s: Seq<char>, i: int) -> int
    decreases s.len() - i,
{
    if 0 <= i < s.len() && is_space(s[i]) {
        skip_space(s, i + 1)
    } else {
        i
    }
}

/// The end of `s` without its trailing white space, looking at the first `j` characters
/// and never going below `low`.
pub open spec fn drop_space(s: Seq<char>, low: int, j: int) -> int
    decreases j,
{
    if 0 <= low < j <= s.len() && is_space(s[j - 1]) {
        drop_space(s, low, j - 1)
    } else {
        j
    }
}

/// `s` without its leading and trailing white space.
pub open spec fn trimmed(s: Seq<char>) -> Seq<char> {
    let a = skip_space(s, 0);
    let b = drop_space(s, a, s.len() as int);
    s.subrange(a, b)
}

fn trim_chars(v: &Vec<char>) -> (r: Vec<char>)
    ensures
        r@ == trimmed(v@),
{
    let n = v.len();
    let mut a: usize = 0;
    while a < n && is_space_char(v[a])
        invariant
            a <= n == v.len(),
            skip_space(v@, 0) == skip_space(v@, a as int),
        decreases n - a,
    {
        a += 1;
    }
    let mut b: usize = n;
    while a < b && is_space_char(v[b - 1])
        invariant
            a <= b <= n == v.len(),
            drop_space(v@, a as int, n as int) == drop_space(v@, a as int, b as int),
        decreases b,
    {
        b -= 1;
    }
    slice_chars(v, a, b)
}

pub fn trim(s: &str) -> (r: String)
    ensures
        r@ == trimmed(s@),
{
    let v = chars_of(s);
    let t = trim_chars(&v);
    string_of_chars(&t)
}

/// The position of the first line feed at or after `i`, or the length of `s`.
pub open spec fn line_end(s: Seq<char>, i: int) -> int
    decreases s.len() - i,
{
    if 0 <= i < s.len() && s[i] != '\n' {
        line_end(s, i + 1)
    } else {
        i
    }
}

/// A line without the carriage return that may stand before its line feed.
pub open spec fn strip_cr(line: Seq<char>, ended: bool) -> Seq<char> {
    if ended && line.len() > 0 && line.last() == '\r' {
        line.drop_last()
    } else {
        line
    }
}

/// The lines of `s` from position `i` on: split at line feeds, each without its line
/// ending; a text that ends with a line ending has no empty last line.
pub open spec fn lines_from(s: Seq<char>, i: int) -> Seq<Seq<char>>
    decreases s.len() - i,
{
    if 0 <= i < s.len() {
        let e = line_end(s, i);
        if i <= e < s.len() {
            seq![strip_cr(s.subrange(i, e), true)] + lines_from(s, e + 1)
        } else {
            seq![s.subrange(i, s.len() as int)]
        }
    } else {
        Seq::empty()
    }
}

pub proof fn lemma_line_end_bounds(s: Seq<char>, i: int)
    requires
        0 <= i <= s.len(),
    ensures
        i <= line_end(s, i) <= s.len(),
        line_end(s, i) < s.len() ==> s[line_end(s, i)] == '\n',
    decreases s.len() - i,
{
    if i < s.len() && s[i] != '\n' {
        lemma_line_end_bounds(s, i + 1);
    }
}

/// A line as it is emitted one level deeper: blank lines become empty, the others are
/// moved four columns to the right.
pub open spec fn indent_line(line: Seq<char>) -> Seq<char> {
    if trimmed(line).len() == 0 {
        Seq::<char>::empty()
    } else {
        "    "@ + line
    }
}

/// The text of `s` one level deeper.
pub open spec fn indented(s: Seq<char>) -> Seq<char> {
    join_seq(lines_from(s, 0).map_values(|l: Seq<char>| indent_line(l)), "\n"@)
}

#[verifier::rlimit(40)]
pub fn indent(s: &str) -> (r: String)
    ensures
        r@ == indented(s@),
{
    let v = chars_of(s);
    let n = v.len();
    let mut out: Vec<String> = Vec::new();
    let mut i: usize = 0;
    while i < n
        invariant
            i <= n == v.len(),
            lines_from(v@, 0).map_values(|l: Seq<char>| indent_line(l)) == views(out@)
                + lines_from(v@, i as int).map_values(|l: Seq<char>| indent_line(l)),
        decreases n - i,
    {
        let mut e: usize = i;
        while e < n && v[e] != '\n'
            invariant
                i <= e <= n == v.len(),
                line_end(v@, i as int) == line_end(v@, e as int),
            decreases n - e,
        {
            e += 1;
        }
        let ended = e < n;
        let mut stop: usize = e;
        if ended && stop > i && v[stop - 1] == '\r' {
            stop -= 1;
        }
        let line = slice_chars(&v, i, stop);
        proof {
            lemma_line_end_bounds(v@, i as int);
            let whole = v@.subrange(i as int, e as int);
            assert(line@ == strip_cr(whole, ended)) by {
                if ended && whole.len() > 0 && whole.last() == '\r' {
                    assert(whole.drop_last() == v@.subrange(i as int, e as int - 1));
                }
            }
        }
        let t = trim_chars(&line);
        let d = if t.len() == 0 {
            String::new()
        } else {
            cat("    ".to_owned(), string_of_chars(&line).as_str())
        };
        proof {
            assert(d@ == indent_line(line@));
            let f = |l: Seq<char>| indent_line(l);
            let rest = if ended { lines_from(v@, e as int + 1) } else { Seq::empty() };
            assert(lines_from(v@, i as int) == seq![line@] + rest);
            assert((seq![line@] + rest).map_values(f) == seq![d@] + rest.map_values(f));
            assert(views(out@.push(d)) == views(out@) + seq![d@]);
        }
        out.push(d);
        i = if ended { e + 1 } else { e };
    }
    proof {
        assert(lines_from(v@, n as int) == Seq::<Seq<char>>::empty());
        assert(views(out@) + Seq::<Seq<char>>::empty().map_values(|l: Seq<char>| indent_line(l))
            == views(out@));
    }
    join_all(&out, "\n")
}

/// The camel-case form of the characters of `s` from position `i` on; `begin` tells
/// whether the next character starts a word.
pub open spec fn camel_from(s: Seq<char>, i: int, begin: bool) -> Seq<char>
    decreases s.len() - i,
{
    if 0 <= i < s.len() {
        if begin {
            seq![ascii_upper(s[i])] + camel_from(s, i + 1, false)
        } else if s[i] == '_' {
            camel_from(s, i + 1, true)
        } else {
            seq![ascii_lower(s[i])] + camel_from(s, i + 1, false)
        }
    } else {
        Seq::<char>::empty()
    }
}

/// The camel-case form of `s`: each word starts with an upper-case letter, the rest of
/// it is lower case, and the underscores that part the words are left out.
pub open spec fn camel(s: Seq<char>) -> Seq<char> {
    camel_from(s, 0, true)
}

pub fn camel_case(s: &str) -> (r: String)
    ensures
        r@ == camel(s@),
{
    let chars = chars_of(s);
    let n = chars.len();
    let mut buf: Vec<char> = Vec::new();
    let mut is_begin = true;
    let mut i: usize = 0;
    while i < n
        invariant
            i <= n == chars.len(),
            camel(chars@) == buf@ + camel_from(chars@, i as int, is_begin),
        decreases n - i,
    {
        let c = chars[i];
        if is_begin {
            buf.push(to_ascii_upper(c));
            is_begin = false;
        } else if c == '_' {
            is_begin = true;
        } else {
            buf.push(to_ascii_lower(c));
        }
        i += 1;
    }
    string_of_chars(&buf)
}

} // verus!
