//! Lexical tokens, each tagged with the place where it starts.
use vstd::prelude::*;

verus! {

/// Kind of a primitive value.
#[derive(Debug, Clone, Copy, PartialEq, Eq, Structural)]
pub enum JsonType {
    Int,
    Float,
    Bool,
    String,
    Null,
}

/// What a token is.
#[derive(Debug, PartialEq, Eq)]
pub enum JsonToken {
    ObjectStart,
    ObjectEnd,
    ArrayStart,
    ArrayEnd,
    Colon,
    Comma,
    Name(String),
    Value(JsonType),
}

/// A token and the line and column (both counted from 0) where it starts.
#[derive(Debug, PartialEq, Eq)]
pub struct Token {
    pub line: usize,
    pub col: usize,
    pub value: JsonToken,
}

/// Mathematical model of a [`JsonToken`]: a field name is its characters.
pub enum TokenKind {
    ObjectStart,
    ObjectEnd,
    ArrayStart,
    ArrayEnd,
    Colon,
    Comma,
    Name(Seq<char>),
    Value(JsonType),
}

/// Mathematical model of a [`Token`].
pub struct TokenView {
    pub line: nat,
    pub col: nat,
    pub kind: TokenKind,
}

impl View for JsonToken {
    type V = TokenKind;

    open spec fn view(&self) -> TokenKind {
        match self {
            JsonToken::ObjectStart => TokenKind::ObjectStart,
            JsonToken::ObjectEnd => TokenKind::ObjectEnd,
            JsonToken::ArrayStart => TokenKind::ArrayStart,
            JsonToken::ArrayEnd => TokenKind::ArrayEnd,
            JsonToken::Colon => TokenKind::Colon,
            JsonToken::Comma => TokenKind::Comma,
            JsonToken::Name(n) => TokenKind::Name(n@),
            JsonToken::Value(t) => TokenKind::Value(*t),
        }
    }
}

impl View for Token {
    type V = TokenView;

    open spec fn view(&self) -> TokenView {
        TokenView { line: self.line as nat, col: self.col as nat, kind: self.value@ }
    }
}

/// The models of a sequence of tokens.
pub open spec fn tokens_view(ts: Seq<Token>) -> Seq<TokenView> {
    ts.map_values(|t: Token| t@)
}

/// Whether `toks` is a flat object: `{`, then for each field its name, `:` and
/// a scalar (non-null) value, with `,` between fields, then `}`.
pub open spec fn flat_object(toks: Seq<TokenView>, fields: Seq<(Seq<char>, JsonType)>) -> bool {
    let n = fields.len() as int;
    &&& toks.len() == if n == 0 {
        2
    } else {
        4 * n + 1
    }
    &&& toks[0].kind == TokenKind::ObjectStart
    &&& forall|j: int|
        0 <= j < n ==> {
            &&& #[trigger] toks[4 * j + 1].kind == TokenKind::Name(fields[j].0)
            &&& toks[4 * j + 2].kind == TokenKind::Colon
            &&& toks[4 * j + 3].kind == TokenKind::Value(fields[j].1)
            &&& fields[j].1 != JsonType::Null
        }
    &&& forall|j: int| 0 <= j < n - 1 ==> #[trigger] toks[4 * j + 4].kind == TokenKind::Comma
    &&& toks[toks.len() - 1].kind == TokenKind::ObjectEnd
}

} // verus!
