//! Character-level lexer: JSON text to a stream of position-tagged tokens.
//!
//! The text is read one character at a time; `'\n'` ends a line. Structural
//! characters give one token each; a digit starts a number, `t`, `f` and `n`
//! start a literal, and a `"` starts a field name after `,` or `{`, or a string
//! value after `:`. A `"` after any other token, and every other character, is
//! skipped.
use vstd::prelude::*;
use crate::text::{chars_of, string_of_range};
use crate::token::{JsonToken, JsonType, Token, TokenKind, TokenView, flat_object, tokens_view};

verus! {

pub open spec fn is_digit(c: char) -> bool {
    '0' <= c <= '9'
}

/// The token that a structural character stands for.
pub open spec fn structural_kind(c: char) -> Option<TokenKind> {
    if c == '{' {
        Some(TokenKind::ObjectStart)
    } else if c == '}' {
        Some(TokenKind::ObjectEnd)
    } else if c == '[' {
        Some(TokenKind::ArrayStart)
    } else if c == ']' {
        Some(TokenKind::ArrayEnd)
    } else if c == ':' {
        Some(TokenKind::Colon)
    } else if c == ',' {
        Some(TokenKind::Comma)
    } else {
        None
    }
}

/// First position at or after `k` that holds neither a digit nor a `.`.
pub open spec fn number_end(s: Seq<char>, k: int) -> int
    decreases s.len() - k,
{
    if 0 <= k < s.len() && (is_digit(s[k]) || s[k] == '.') {
        number_end(s, k + 1)
    } else {
        k
    }
}

/// Whether a `.` stands in `s[from..to]`.
pub open spec fn has_dot(s: Seq<char>, from: int, to: int) -> bool {
    exists|k: int| from <= k < to && s[k] == '.'
}

/// First position at or after `k` that holds `,`, `}` or a line break, or the end.
pub open spec fn literal_end(s: Seq<char>, k: int) -> int
    decreases s.len() - k,
{
    if 0 <= k < s.len() && s[k] != ',' && s[k] != '}' && s[k] != '\n' {
        literal_end(s, k + 1)
    } else {
        k
    }
}

/// First position at or after `k` that holds an unescaped `"` or a line break,
/// or the end. A `\` makes the next character (but a line break) part of the text.
pub open spec fn quoted_end(s: Seq<char>, k: int) -> int
    decreases s.len() - k,
{
    if 0 <= k < s.len() && s[k] != '"' && s[k] != '\n' {
        if s[k] == '\\' && k + 1 < s.len() && s[k + 1] != '\n' {
            quoted_end(s, k + 2)
        } else {
            quoted_end(s, k + 1)
        }
    } else {
        k
    }
}

/// How a `"` is read, given the tokens already emitted: `Some(true)` opens a
/// field name, `Some(false)` a string value, `None` means that it is skipped.
pub open spec fn quote_mode(emitted: Seq<TokenView>) -> Option<bool> {
    if emitted.len() == 0 {
        None
    } else {
        let k = emitted.last().kind;
        if k == TokenKind::Comma || k == TokenKind::ObjectStart {
            Some(true)
        } else if k == TokenKind::Colon {
            Some(false)
        } else {
            None
        }
    }
}

/// The tokens of `s[i..]`, appended to `emitted`, when position `i` is at line
/// `line`, column `col`.
pub open spec fn lex_from(
    s: Seq<char>,
    i: int,
    line: nat,
    col: nat,
    emitted: Seq<TokenView>,
) -> Seq<TokenView>
    decreases s.len() - i,
{
    if i < 0 || i >= s.len() {
        emitted
    } else {
        let c = s[i];
        if c == '\n' {
            lex_from(s, i + 1, line + 1, 0, emitted)
        } else if structural_kind(c) is Some {
            let t = TokenView { line, col, kind: structural_kind(c)->0 };
            lex_from(s, i + 1, line, col + 1, emitted.push(t))
        } else if is_digit(c) {
            let e = number_end(s, i + 1);
            let kind = if has_dot(s, i, e) { JsonType::Float } else { JsonType::Int };
            let t = TokenView { line, col, kind: TokenKind::Value(kind) };
            if i < e <= s.len() {
                lex_from(s, e, line, (col + (e - i)) as nat, emitted.push(t))
            } else {
                emitted
            }
        } else if c == 't' || c == 'f' || c == 'n' {
            let e = literal_end(s, i + 1);
            let kind = if c == 'n' { JsonType::Null } else { JsonType::Bool };
            let t = TokenView { line, col, kind: TokenKind::Value(kind) };
            if i < e <= s.len() {
                lex_from(s, e, line, (col + (e - i)) as nat, emitted.push(t))
            } else {
                emitted
            }
        } else if c == '"' && quote_mode(emitted) is Some {
            let e = quoted_end(s, i + 1);
            let next = if i < e < s.len() && s[e] == '"' { e + 1 } else { e };
            let kind = if quote_mode(emitted)->0 {
                TokenKind::Name(s.subrange(i + 1, e))
            } else {
                TokenKind::Value(JsonType::String)
            };
            let t = TokenView { line, col, kind };
            if i < e && next <= s.len() {
                lex_from(s, next, line, (col + (next - i)) as nat, emitted.push(t))
            } else {
                emitted
            }
        } else {
            lex_from(s, i + 1, line, col + 1, emitted)
        }
    }
}

/// The token stream of the text `s`.
pub open spec fn lex(s: Seq<char>) -> Seq<TokenView> {
    lex_from(s, 0, 0, 0, Seq::empty())
}

proof fn lemma_number_end(s: Seq<char>, k: int)
    requires
        0 <= k,
    ensures
        k <= number_end(s, k),
        number_end(s, k) <= s.len() || number_end(s, k) == k,
        forall|j: int| k <= j < number_end(s, k) ==> s[j] != '\n',
    decreases s.len() - k,
{
    if 0 <= k < s.len() && (is_digit(s[k]) || s[k] == '.') {
        lemma_number_end(s, k + 1);
    }
}

proof fn lemma_literal_end(s: Seq<char>, k: int)
    requires
        0 <= k,
    ensures
        k <= literal_end(s, k),
        literal_end(s, k) <= s.len() || literal_end(s, k) == k,
    decreases s.len() - k,
{
    if 0 <= k < s.len() && s[k] != ',' && s[k] != '}' && s[k] != '\n' {
        lemma_literal_end(s, k + 1);
    }
}

proof fn lemma_quoted_end(s: Seq<char>, k: int)
    requires
        0 <= k,
    ensures
        k <= quoted_end(s, k),
        quoted_end(s, k) <= s.len() || quoted_end(s, k) == k,
    decreases s.len() - k,
{
    if 0 <= k < s.len() && s[k] != '"' && s[k] != '\n' {
        if s[k] == '\\' && k + 1 < s.len() && s[k + 1] != '\n' {
            lemma_quoted_end(s, k + 2);
        } else {
            lemma_quoted_end(s, k + 1);
        }
    }
}

/// A text for a value of kind `k`.
pub open spec fn value_text(k: JsonType) -> Seq<char> {
    match k {
        JsonType::Int => seq!['7'],
        JsonType::Float => seq!['4', '.', '5'],
        JsonType::Bool => seq!['t', 'r', 'u', 'e'],
        JsonType::String => seq!['"', '"'],
        JsonType::Null => seq!['n', 'u', 'l', 'l'],
    }
}

/// `"name":value` for a field.
pub open spec fn field_text(f: (Seq<char>, JsonType)) -> Seq<char> {
    seq!['"'] + f.0 + seq!['"', ':'] + value_text(f.1)
}

/// The fields' texts, separated by `,`.
pub open spec fn fields_text(fs: Seq<(Seq<char>, JsonType)>) -> Seq<char>
    decreases fs.len(),
{
    if fs.len() == 0 {
        Seq::empty()
    } else if fs.len() == 1 {
        field_text(fs[0])
    } else {
        fields_text(fs.drop_last()) + seq![','] + field_text(fs.last())
    }
}

/// The text of a flat object with fields `fs`: `{"a":7,"b":true}`.
pub open spec fn flat_text(fs: Seq<(Seq<char>, JsonType)>) -> Seq<char> {
    seq!['{'] + fields_text(fs) + seq!['}']
}

/// A field name that needs no escape and stays on one line.
pub open spec fn plain_name(n: Seq<char>) -> bool {
    forall|k: int| 0 <= k < n.len() ==> #[trigger] n[k] != '"' && n[k] != '\\' && n[k] != '\n'
}

proof fn lemma_fields_text_prefix(fs: Seq<(Seq<char>, JsonType)>, m: int)
    requires
        0 <= m <= fs.len(),
    ensures
        fields_text(fs.take(m)).len() <= fields_text(fs).len(),
        fields_text(fs).take(fields_text(fs.take(m)).len() as int) == fields_text(fs.take(m)),
    decreases fs.len(),
{
    if m == fs.len() {
        assert(fs.take(m) =~= fs);
        assert(fields_text(fs).take(fields_text(fs).len() as int) =~= fields_text(fs));
    } else if fs.len() == 1 {
        assert(fs.take(m) =~= Seq::<(Seq<char>, JsonType)>::empty());
        assert(fields_text(fs).take(0) =~= Seq::<char>::empty());
    } else {
        let prev = fs.drop_last();
        lemma_fields_text_prefix(prev, m);
        assert(prev.take(m) =~= fs.take(m));
        let a = fields_text(fs.take(m)).len() as int;
        assert(fields_text(fs).take(a) =~= fields_text(prev).take(a));
    }
}

proof fn lemma_quoted_plain(s: Seq<char>, p: int, n: Seq<char>, k: int)
    requires
        0 <= p,
        0 <= k <= n.len(),
        p + n.len() < s.len(),
        s[p + n.len()] == '"',
        forall|m: int| 0 <= m < n.len() ==> s[p + m] == #[trigger] n[m],
        plain_name(n),
    ensures
        quoted_end(s, p + k) == p + n.len(),
    decreases n.len() - k,
{
    if k < n.len() {
        assert(s[p + k] == n[k]);
        lemma_quoted_plain(s, p, n, k + 1);
    }
}

/// Lexing one field's text, after a `,` or `{`, gives its name, `:` and its
/// value.
#[verifier::rlimit(40)]
proof fn lemma_lex_field(s: Seq<char>, p: int, f: (Seq<char>, JsonType), emitted: Seq<TokenView>)
    requires
        1 <= p,
        p + field_text(f).len() < s.len(),
        forall|m: int| 0 <= m < field_text(f).len() ==> s[p + m] == #[trigger] field_text(f)[m],
        s[p + field_text(f).len()] == ',' || s[p + field_text(f).len()] == '}',
        plain_name(f.0),
        f.1 != JsonType::Null,
        quote_mode(emitted) == Some(true),
    ensures
        lex_from(s, p, 0, p as nat, emitted) == lex_from(
            s,
            p + field_text(f).len(),
            0,
            (p + field_text(f).len()) as nat,
            emitted.push(TokenView { line: 0, col: p as nat, kind: TokenKind::Name(f.0) }).push(
                TokenView { line: 0, col: (p + f.0.len() + 2) as nat, kind: TokenKind::Colon },
            ).push(TokenView { line: 0, col: (p + f.0.len() + 3) as nat, kind: TokenKind::Value(f.1) }),
        ),
{
    let n = f.0;
    let ft = field_text(f);
    let q = p + n.len() as int + 1;
    let c = q + 1;
    let v = c + 1;
    let end = p + ft.len();
    assert(s[p] == ft[0]);
    assert(s[q] == ft[n.len() as int + 1]);
    assert(s[c] == ft[n.len() as int + 2]);
    assert(s[v] == ft[n.len() as int + 3]);
    assert forall|m: int| 0 <= m < n.len() implies s[p + 1 + m] == #[trigger] n[m] by {
        assert(s[p + 1 + m] == ft[1 + m]);
    }
    lemma_quoted_plain(s, p + 1, n, 0);
    assert(s.subrange(p + 1, q) =~= n);
    let e1 = emitted.push(TokenView { line: 0, col: p as nat, kind: TokenKind::Name(n) });
    assert(lex_from(s, p, 0, p as nat, emitted) == lex_from(s, c, 0, c as nat, e1));
    let e2 = e1.push(TokenView { line: 0, col: c as nat, kind: TokenKind::Colon });
    assert(lex_from(s, c, 0, c as nat, e1) == lex_from(s, v, 0, v as nat, e2));
    let e3 = e2.push(TokenView { line: 0, col: v as nat, kind: TokenKind::Value(f.1) });
    match f.1 {
        JsonType::Int => {
            assert(end == v + 1);
            assert(number_end(s, v + 1) == v + 1);
            assert(!has_dot(s, v, v + 1));
        },
        JsonType::Float => {
            assert(end == v + 3);
            assert(s[v + 1] == ft[n.len() as int + 4]);
            assert(s[v + 2] == ft[n.len() as int + 5]);
            assert(ft[n.len() as int + 4] == '.');
            assert(ft[n.len() as int + 5] == '5');
            assert(number_end(s, v + 3) == v + 3);
            assert(number_end(s, v + 2) == v + 3);
            assert(number_end(s, v + 1) == v + 3);
            assert(has_dot(s, v, v + 3));
        },
        JsonType::Bool => {
            assert(end == v + 4);
            assert(s[v + 1] == ft[n.len() as int + 4]);
            assert(s[v + 2] == ft[n.len() as int + 5]);
            assert(s[v + 3] == ft[n.len() as int + 6]);
            assert(ft[n.len() as int + 4] == 'r');
            assert(ft[n.len() as int + 5] == 'u');
            assert(ft[n.len() as int + 6] == 'e');
            assert(literal_end(s, v + 4) == v + 4);
            assert(literal_end(s, v + 3) == v + 4);
            assert(literal_end(s, v + 2) == v + 4);
            assert(literal_end(s, v + 1) == v + 4);
        },
        _ => {
            assert(end == v + 2);
            assert(s[v + 1] == ft[n.len() as int + 4]);
            assert(quote_mode(e2) == Some(false));
            assert(quoted_end(s, v + 1) == v + 1);
        },
    }
    assert(lex_from(s, v, 0, v as nat, e2) == lex_from(s, end, 0, end as nat, e3));
}

/// Position, in a flat text, of what follows the first `j` fields.
spec fn flat_pos(fs: Seq<(Seq<char>, JsonType)>, j: int) -> int {
    1 + fields_text(fs.take(j)).len() as int
}

/// The tokens that lexing `{` and the first `j` fields of a flat text gives.
spec fn flat_tokens(fs: Seq<(Seq<char>, JsonType)>, j: int) -> Seq<TokenView>
    decreases j,
{
    if j <= 0 {
        seq![TokenView { line: 0, col: 0, kind: TokenKind::ObjectStart }]
    } else {
        let i = j - 1;
        let before = flat_tokens(fs, i);
        let at = flat_pos(fs, i);
        let with_comma = if i > 0 {
            before.push(TokenView { line: 0, col: at as nat, kind: TokenKind::Comma })
        } else {
            before
        };
        let p = if i > 0 { at + 1 } else { at };
        let n = fs[i].0;
        with_comma.push(TokenView { line: 0, col: p as nat, kind: TokenKind::Name(n) }).push(
            TokenView { line: 0, col: (p + n.len() + 2) as nat, kind: TokenKind::Colon },
        ).push(TokenView { line: 0, col: (p + n.len() + 3) as nat, kind: TokenKind::Value(fs[i].1) })
    }
}

spec fn flat_prefix(emitted: Seq<TokenView>, fs: Seq<(Seq<char>, JsonType)>, j: int) -> bool {
    &&& emitted.len() == if j == 0 {
        1
    } else {
        4 * j
    }
    &&& emitted[0].kind == TokenKind::ObjectStart
    &&& forall|i: int|
        0 <= i < j ==> {
            &&& #[trigger] emitted[4 * i + 1].kind == TokenKind::Name(fs[i].0)
            &&& emitted[4 * i + 2].kind == TokenKind::Colon
            &&& emitted[4 * i + 3].kind == TokenKind::Value(fs[i].1)
        }
    &&& forall|i: int| 0 <= i < j - 1 ==> #[trigger] emitted[4 * i + 4].kind == TokenKind::Comma
}

spec fn plain_fields(fs: Seq<(Seq<char>, JsonType)>) -> bool {
    forall|i: int| 0 <= i < fs.len() ==> plain_name(#[trigger] fs[i].0) && fs[i].1 != JsonType::Null
}

#[verifier::rlimit(60)]
proof fn lemma_lex_fields(fs: Seq<(Seq<char>, JsonType)>, j: int)
    requires
        plain_fields(fs),
        0 <= j <= fs.len(),
    ensures
        lex(flat_text(fs)) == lex_from(flat_text(fs), flat_pos(fs, j), 0, flat_pos(fs, j) as nat, flat_tokens(fs, j)),
        flat_prefix(flat_tokens(fs, j), fs, j),
    decreases j,
{
    let s = flat_text(fs);
    let ft_all = fields_text(fs);
    assert(s.len() == ft_all.len() + 2);
    assert forall|k: int| 0 <= k < ft_all.len() implies s[1 + k] == #[trigger] ft_all[k] by {}
    assert(s[s.len() - 1] == '}');
    if j == 0 {
        assert(fs.take(0) =~= Seq::<(Seq<char>, JsonType)>::empty());
        assert(s[0] == '{');
        assert(flat_pos(fs, 0) == 1);
    } else {
        let i = j - 1;
        lemma_lex_fields(fs, i);
        let at = flat_pos(fs, i);
        let before = flat_tokens(fs, i);
        let f = fs[i];
        let ft = field_text(f);
        let sep = if i > 0 { seq![','] } else { Seq::<char>::empty() };
        assert(fs.take(j).drop_last() =~= fs.take(i));
        assert(fs.take(j).last() == f);
        assert(fields_text(fs.take(j)) =~= fields_text(fs.take(i)) + sep + ft);
        lemma_fields_text_prefix(fs, j);
        let a_j = fields_text(fs.take(j)).len() as int;
        let a_i = fields_text(fs.take(i)).len() as int;
        assert forall|k: int| 0 <= k < a_j implies s[1 + k] == #[trigger] fields_text(fs.take(j))[k] by {
            assert(ft_all.take(a_j)[k] == ft_all[k]);
        }
        let p = if i > 0 { at + 1 } else { at };
        assert(p == 1 + a_i + sep.len());
        assert forall|m: int| 0 <= m < ft.len() implies s[p + m] == #[trigger] ft[m] by {
            assert(s[1 + (a_i + sep.len() + m)] == fields_text(fs.take(j))[a_i + sep.len() + m]);
        }
        let end = p + ft.len();
        assert(end == flat_pos(fs, j));
        if j < fs.len() {
            lemma_fields_text_prefix(fs, j + 1);
            assert(fs.take(j + 1).drop_last() =~= fs.take(j));
            assert(fields_text(fs.take(j + 1)) =~= fields_text(fs.take(j)) + seq![','] + field_text(fs[j]));
            let a_next = fields_text(fs.take(j + 1)).len() as int;
            assert(ft_all.take(a_next)[a_j] == ft_all[a_j]);
            assert(s[end] == ',');
        } else {
            assert(fs.take(j) =~= fs);
            assert(s[end] == '}');
        }
        let with_comma = if i > 0 {
            before.push(TokenView { line: 0, col: at as nat, kind: TokenKind::Comma })
        } else {
            before
        };
        if i > 0 {
            assert(s[at] == ',') by {
                assert(s[1 + a_i] == fields_text(fs.take(j))[a_i]);
            }
            assert(lex_from(s, at, 0, at as nat, before) == lex_from(s, at + 1, 0, (at + 1) as nat, with_comma));
        }
        assert(plain_name(f.0) && f.1 != JsonType::Null);
        assert(quote_mode(with_comma) == Some(true));
        lemma_lex_field(s, p, f, with_comma);
        assert(flat_tokens(fs, j) == with_comma.push(TokenView { line: 0, col: p as nat, kind: TokenKind::Name(f.0) }).push(
            TokenView { line: 0, col: (p + f.0.len() + 2) as nat, kind: TokenKind::Colon },
        ).push(TokenView { line: 0, col: (p + f.0.len() + 3) as nat, kind: TokenKind::Value(f.1) }));
        let t = flat_tokens(fs, j);
        assert forall|k: int| 0 <= k < j implies {
            &&& #[trigger] t[4 * k + 1].kind == TokenKind::Name(fs[k].0)
            &&& t[4 * k + 2].kind == TokenKind::Colon
            &&& t[4 * k + 3].kind == TokenKind::Value(fs[k].1)
        } by {
            if k < i {
                assert(t[4 * k + 1] == before[4 * k + 1]);
                assert(t[4 * k + 2] == before[4 * k + 2]);
                assert(t[4 * k + 3] == before[4 * k + 3]);
            }
        }
        assert forall|k: int| 0 <= k < j - 1 implies #[trigger] t[4 * k + 4].kind == TokenKind::Comma by {
            if k < i - 1 {
                assert(t[4 * k + 4] == before[4 * k + 4]);
            }
        }
    }
}

/// Lexing the text of a flat object, `{"a":7,"b":true}`, whose names need no
/// escape and whose values are not null, gives its flat token pattern.
pub proof fn lemma_lex_flat_text(fs: Seq<(Seq<char>, JsonType)>)
    requires
        forall|i: int| 0 <= i < fs.len() ==> plain_name(#[trigger] fs[i].0) && fs[i].1 != JsonType::Null,
    ensures
        flat_object(lex(flat_text(fs)), fs),
{
    let n = fs.len() as int;
    let s = flat_text(fs);
    lemma_lex_fields(fs, n);
    assert(fs.take(n) =~= fs);
    let e = flat_pos(fs, n);
    assert(e == s.len() - 1);
    let t = flat_tokens(fs, n);
    let last = TokenView { line: 0, col: e as nat, kind: TokenKind::ObjectEnd };
    assert(lex_from(s, e, 0, e as nat, t) == lex_from(s, e + 1, 0, (e + 1) as nat, t.push(last)));
    let r = t.push(last);
    assert(lex(s) == r);
    assert forall|j: int| 0 <= j < n implies {
        &&& #[trigger] r[4 * j + 1].kind == TokenKind::Name(fs[j].0)
        &&& r[4 * j + 2].kind == TokenKind::Colon
        &&& r[4 * j + 3].kind == TokenKind::Value(fs[j].1)
        &&& fs[j].1 != JsonType::Null
    } by {
        assert(r[4 * j + 1] == t[4 * j + 1]);
        assert(r[4 * j + 2] == t[4 * j + 2]);
        assert(r[4 * j + 3] == t[4 * j + 3]);
    }
    assert forall|j: int| 0 <= j < n - 1 implies #[trigger] r[4 * j + 4].kind == TokenKind::Comma by {
        assert(r[4 * j + 4] == t[4 * j + 4]);
    }
}

/// Turns a JSON text into tokens.
pub struct Lexer {
    chars: Vec<char>,
}

impl Lexer {
    /// The text being lexed.
    pub closed spec fn text(&self) -> Seq<char> {
        self.chars@
    }

    /// Creates a lexer over `json`.
    pub fn new(json: &str) -> (r: Lexer)
        ensures
            r.text() == json@,
    {
        Lexer { chars: chars_of(json) }
    }

    /// Scans a number that starts at `start`: returns the first position after
    /// it and whether it is an integer or a float (it holds a `.`).
    pub fn lex_number(&self, start: usize) -> (r: (usize, JsonType))
        requires
            start <= self.text().len(),
        ensures
            r.0 == number_end(self.text(), start as int),
            r.1 == (if has_dot(self.text(), start as int, r.0 as int) {
                JsonType::Float
            } else {
                JsonType::Int
            }),
    {
        let mut k: usize = start;
        let mut dot = false;
        while k < self.chars.len() && (('0' <= self.chars[k] && self.chars[k] <= '9') || self.chars[k] == '.')
            invariant
                start <= k <= self.chars@.len(),
                number_end(self.text(), start as int) == number_end(self.text(), k as int),
                dot == has_dot(self.text(), start as int, k as int),
            decreases self.chars.len() - k,
        {
            if self.chars[k] == '.' {
                dot = true;
            }
            assert(has_dot(self.text(), start as int, k + 1) == (dot || has_dot(self.text(), start as int, k as int)));
            k = k + 1;
        }
        (k, if dot { JsonType::Float } else { JsonType::Int })
    }

    /// Scans a `true`, `false` or `null` literal whose rest starts at `start`:
    /// returns the position of the `,`, `}` or line break that ends it.
    fn lex_boolean_or_null(&self, start: usize) -> (r: usize)
        requires
            start <= self.text().len(),
        ensures
            r == literal_end(self.text(), start as int),
    {
        let mut k: usize = start;
        while k < self.chars.len() && self.chars[k] != ',' && self.chars[k] != '}' && self.chars[k] != '\n'
            invariant
                start <= k <= self.chars@.len(),
                literal_end(self.text(), start as int) == literal_end(self.text(), k as int),
            decreases self.chars.len() - k,
        {
            k = k + 1;
        }
        k
    }

    /// Scans quoted text whose content starts at `start`: returns the position
    /// of the closing `"` (or of the line break or end that cuts it short).
    fn lex_quoted(&self, start: usize) -> (r: usize)
        requires
            start <= self.text().len(),
        ensures
            r == quoted_end(self.text(), start as int),
    {
        let mut k: usize = start;
        while k < self.chars.len() && self.chars[k] != '"' && self.chars[k] != '\n'
            invariant
                start <= k <= self.chars@.len(),
                quoted_end(self.text(), start as int) == quoted_end(self.text(), k as int),
            decreases self.chars.len() - k,
        {
            if self.chars[k] == '\\' && k + 1 < self.chars.len() && self.chars[k + 1] != '\n' {
                k = k + 2;
            } else {
                k = k + 1;
            }
        }
        k
    }

    /// The token of a structural character, if `c` is one.
    fn structural_token(c: char) -> (r: Option<JsonToken>)
        ensures
            match r {
                Some(t) => structural_kind(c) == Some(t@),
                None => structural_kind(c) is None,
            },
    {
        match c {
            '{' => Some(JsonToken::ObjectStart),
            '}' => Some(JsonToken::ObjectEnd),
            '[' => Some(JsonToken::ArrayStart),
            ']' => Some(JsonToken::ArrayEnd),
            ':' => Some(JsonToken::Colon),
            ',' => Some(JsonToken::Comma),
            _ => None,
        }
    }

    /// How a `"` is read after `tokens`.
    fn quote_mode_of(tokens: &Vec<Token>) -> (r: Option<bool>)
        ensures
            r == quote_mode(tokens_view(tokens@)),
    {
        if tokens.len() == 0 {
            return None;
        }
        let last = &tokens[tokens.len() - 1];
        proof {
            assert(tokens_view(tokens@).last() == last@);
        }
        match last.value {
            JsonToken::Comma | JsonToken::ObjectStart => Some(true),
            JsonToken::Colon => Some(false),
            _ => None,
        }
    }

    /// Lexes the whole text, consuming the lexer.
    pub fn start_lex(self) -> (r: Vec<Token>)
        ensures
            tokens_view(r@) == lex(self.text()),
    {
        let ghost s = self.text();
        let n = self.chars.len();
        let mut tokens: Vec<Token> = Vec::new();
        let mut i: usize = 0;
        let mut line: usize = 0;
        let mut col: usize = 0;
        assert(tokens_view(tokens@) =~= Seq::<TokenView>::empty());
        while i < n
            invariant
                s == self.chars@,
                n == s.len(),
                i <= n,
                line <= i,
                col <= i,
                lex(s) == lex_from(s, i as int, line as nat, col as nat, tokens_view(tokens@)),
            decreases n - i,
        {
            let c = self.chars[i];
            let ghost before = tokens_view(tokens@);
            if c == '\n' {
                line = line + 1;
                col = 0;
                i = i + 1;
            } else if let Some(kind) = Self::structural_token(c) {
                tokens.push(Token { line, col, value: kind });
                assert(tokens_view(tokens@) =~= before.push(tokens@.last()@));
                col = col + 1;
                i = i + 1;
            } else if '0' <= c && c <= '9' {
                let (e, kind) = self.lex_number(i + 1);
                proof {
                    lemma_number_end(s, i + 1);
                    assert(has_dot(s, i as int, e as int) == has_dot(s, i + 1, e as int));
                }
                tokens.push(Token { line, col, value: JsonToken::Value(kind) });
                assert(tokens_view(tokens@) =~= before.push(tokens@.last()@));
                col = col + (e - i);
                i = e;
            } else if c == 't' || c == 'f' || c == 'n' {
                let e = self.lex_boolean_or_null(i + 1);
                proof {
                    lemma_literal_end(s, i + 1);
                }
                let kind = if c == 'n' { JsonType::Null } else { JsonType::Bool };
                tokens.push(Token { line, col, value: JsonToken::Value(kind) });
                assert(tokens_view(tokens@) =~= before.push(tokens@.last()@));
                col = col + (e - i);
                i = e;
            } else if c == '"' {
                match Self::quote_mode_of(&tokens) {
                    Some(is_name) => {
                        let e = self.lex_quoted(i + 1);
                        proof {
                            lemma_quoted_end(s, i + 1);
                        }
                        let next = if e < n && self.chars[e] == '"' { e + 1 } else { e };
                        let value = if is_name {
                            JsonToken::Name(string_of_range(&self.chars, i + 1, e))
                        } else {
                            JsonToken::Value(JsonType::String)
                        };
                        tokens.push(Token { line, col, value });
                        assert(tokens_view(tokens@) =~= before.push(tokens@.last()@));
                        col = col + (next - i);
                        i = next;
                    },
                    None => {
                        col = col + 1;
                        i = i + 1;
                    },
                }
            } else {
                col = col + 1;
                i = i + 1;
            }
        }
        tokens
    }
}

} // verus!
