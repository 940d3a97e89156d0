//! Field- and type-name case conventions.
use vstd::prelude::*;
use crate::text::{chars_of, string_of};

verus! {

/// A naming convention.
#[derive(Debug, Clone, Copy, PartialEq, Eq, Structural)]
pub enum CaseType {
    SnakeCase,
    UpperCamelCase,
    CamelCase,
}

pub open spec fn is_upper(c: char) -> bool {
    'A' <= c <= 'Z'
}

pub open spec fn is_lower(c: char) -> bool {
    'a' <= c <= 'z'
}

pub open spec fn is_separator(c: char) -> bool {
    c == '_' || c == '-'
}

/// ASCII lower case of `c`; other characters are kept.
pub open spec fn to_lower(c: char) -> char {
    if is_upper(c) {
        ((c as u8) + 32) as char
    } else {
        c
    }
}

/// ASCII upper case of `c`; other characters are kept.
pub open spec fn to_upper(c: char) -> char {
    if is_lower(c) {
        ((c as u8) - 32) as char
    } else {
        c
    }
}

/// Position of the first `_` or `-` of `s`, or its length.
pub open spec fn first_separator(s: Seq<char>) -> int
    decreases s.len(),
{
    if s.len() == 0 {
        0
    } else if is_separator(s[0]) {
        0
    } else {
        1 + first_separator(s.subrange(1, s.len() as int))
    }
}

/// snake_case text of the character at position `i`: an upper-case letter
/// becomes `_` and its lower case, or just its lower case at position 0.
pub open spec fn snake_piece(s: Seq<char>, i: int) -> Seq<char> {
    if is_upper(s[i]) {
        if i == 0 {
            seq![to_lower(s[i])]
        } else {
            seq![ '_', to_lower(s[i])]
        }
    } else {
        seq![s[i]]
    }
}

/// snake_case text of the first `n` characters of `s`.
pub open spec fn snake_prefix(s: Seq<char>, n: int) -> Seq<char>
    decreases n,
{
    if n <= 0 {
        Seq::empty()
    } else {
        snake_prefix(s, n - 1) + snake_piece(s, n - 1)
    }
}

/// `-` rewritten as `_`.
pub open spec fn dash_to_underscore(c: char) -> char {
    if c == '-' {
        '_'
    } else {
        c
    }
}

/// snake_case: upper-case letters are lowered (after a `_`, but at the start)
/// up to the first `_` or `-`; from there on the text is kept, with each `-`
/// rewritten as `_`.
pub open spec fn snake(s: Seq<char>) -> Seq<char> {
    let k = first_separator(s);
    snake_prefix(s, k) + s.subrange(k, s.len() as int).map_values(|c: char| dash_to_underscore(c))
}

/// camelCase text of the character at position `i`: a `_` or `-` (but at the
/// start) is dropped, and the character after one is upper-cased.
pub open spec fn camel_piece(s: Seq<char>, i: int) -> Seq<char> {
    if i > 0 && is_separator(s[i]) {
        Seq::empty()
    } else if i >= 2 && is_separator(s[i - 1]) {
        seq![to_upper(s[i])]
    } else {
        seq![s[i]]
    }
}

/// camelCase text of the first `n` characters of `s`.
pub open spec fn camel_prefix(s: Seq<char>, n: int) -> Seq<char>
    decreases n,
{
    if n <= 0 {
        Seq::empty()
    } else {
        camel_prefix(s, n - 1) + camel_piece(s, n - 1)
    }
}

pub open spec fn camel(s: Seq<char>) -> Seq<char> {
    camel_prefix(s, s.len() as int)
}

/// UpperCamelCase: camelCase with its first character upper-cased.
pub open spec fn upper_camel(s: Seq<char>) -> Seq<char> {
    let c = camel(s);
    if c.len() == 0 {
        c
    } else {
        c.update(0, to_upper(c[0]))
    }
}

/// `s` written in the convention `case`.
pub open spec fn converted(s: Seq<char>, case: CaseType) -> Seq<char> {
    match case {
        CaseType::SnakeCase => snake(s),
        CaseType::CamelCase => camel(s),
        CaseType::UpperCamelCase => upper_camel(s),
    }
}

fn lower_char(c: char) -> (r: char)
    ensures
        r == to_lower(c),
{
    if 'A' <= c && c <= 'Z' {
        ((c as u8) + 32) as char
    } else {
        c
    }
}

fn upper_char(c: char) -> (r: char)
    ensures
        r == to_upper(c),
{
    if 'a' <= c && c <= 'z' {
        ((c as u8) - 32) as char
    } else {
        c
    }
}

proof fn lemma_first_separator(s: Seq<char>)
    ensures
        0 <= first_separator(s) <= s.len(),
        forall|j: int| 0 <= j < first_separator(s) ==> !is_separator(#[trigger] s[j]),
        first_separator(s) < s.len() ==> is_separator(s[first_separator(s)]),
    decreases s.len(),
{
    if s.len() > 0 && !is_separator(s[0]) {
        let t = s.subrange(1, s.len() as int);
        lemma_first_separator(t);
        assert forall|j: int| 0 <= j < first_separator(s) implies !is_separator(#[trigger] s[j]) by {
            if j > 0 {
                assert(s[j] == t[j - 1]);
            }
        }
    }
}

fn snake_chars(cs: &Vec<char>) -> (r: Vec<char>)
    ensures
        r@ == snake(cs@),
{
    let ghost s = cs@;
    proof {
        lemma_first_separator(s);
    }
    let mut out: Vec<char> = Vec::new();
    let mut i: usize = 0;
    while i < cs.len() && cs[i] != '_' && cs[i] != '-'
        invariant
            s == cs@,
            i <= first_separator(s),
            0 <= first_separator(s) <= s.len(),
            forall|j: int| 0 <= j < first_separator(s) ==> !is_separator(#[trigger] s[j]),
            first_separator(s) < s.len() ==> is_separator(s[first_separator(s)]),
            out@ == snake_prefix(s, i as int),
        decreases cs.len() - i,
    {
        let c = cs[i];
        if 'A' <= c && c <= 'Z' {
            if i != 0 {
                out.push('_');
            }
            out.push(lower_char(c));
        } else {
            out.push(c);
        }
        assert(out@ =~= snake_prefix(s, i as int) + snake_piece(s, i as int));
        i = i + 1;
    }
    let ghost k = i as int;
    assert(k == first_separator(s));
    let ghost head = out@;
    while i < cs.len()
        invariant
            s == cs@,
            0 <= k <= i <= s.len(),
            out@ == head + s.subrange(k, i as int).map_values(|c: char| dash_to_underscore(c)),
        decreases cs.len() - i,
    {
        let ch = cs[i];
        out.push(if ch == '-' { '_' } else { ch });
        assert(s.subrange(k, i + 1).map_values(|c: char| dash_to_underscore(c)) =~= s.subrange(k, i as int).map_values(
            |c: char| dash_to_underscore(c),
        ).push(dash_to_underscore(ch)));
        i = i + 1;
    }
    out
}

fn camel_chars(cs: &Vec<char>) -> (r: Vec<char>)
    ensures
        r@ == camel(cs@),
{
    let ghost s = cs@;
    let mut out: Vec<char> = Vec::new();
    let mut i: usize = 0;
    while i < cs.len()
        invariant
            s == cs@,
            i <= s.len(),
            out@ == camel_prefix(s, i as int),
        decreases cs.len() - i,
    {
        let c = cs[i];
        if i > 0 && (c == '_' || c == '-') {
        } else if i >= 2 && (cs[i - 1] == '_' || cs[i - 1] == '-') {
            out.push(upper_char(c));
        } else {
            out.push(c);
        }
        assert(out@ =~= camel_prefix(s, i as int) + camel_piece(s, i as int));
        i = i + 1;
    }
    out
}

/// Writes `str` in the convention `case_type`.
pub fn convert_case(str: &str, case_type: &CaseType) -> (r: String)
    ensures
        r@ == converted(str@, *case_type),
{
    let cs = chars_of(str);
    match case_type {
        CaseType::SnakeCase => string_of(&snake_chars(&cs)),
        CaseType::CamelCase => string_of(&camel_chars(&cs)),
        CaseType::UpperCamelCase => {
            let mut out = camel_chars(&cs);
            if out.len() > 0 {
                let first = upper_char(out[0]);
                out.set(0, first);
            }
            string_of(&out)
        },
    }
}

} // verus!
