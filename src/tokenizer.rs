//! Schema builder: token stream to schema tree, by recursive descent.
//!
//! `object_from` and `array_from` state the two mutually recursive routines;
//! [`Tokenizer`] runs them over a vector of tokens and is proved to return what
//! they return. Sibling fields that share a name are all kept, in order; only
//! the union of the fields of an array's object elements goes by name.
use vstd::prelude::*;
use crate::lexer::{flat_text, lemma_lex_flat_text, lex, plain_name};
use crate::token::{JsonToken, JsonType, Token, TokenKind, TokenView, flat_object, tokens_view};
use crate::tree::{
    ElementShape, JsonArrayType, JsonTree, SchemaNode, has_field_named, lemma_trees_view_push, merge_fields,
    tree_view, trees_view,
};

verus! {

/// Why a token stream has no schema; positions are those of the offending token.
#[derive(Debug, Clone, Copy, PartialEq, Eq, Structural)]
pub enum TokenizerError {
    SyntaxError(usize, usize),
    UnknownSyntaxError,
    NullNotSupportedError(usize, usize),
    EmptyArrayNotSupportedError(usize, usize),
}

/// The leaf for a field named `n` whose value is of kind `k` (not null).
pub open spec fn scalar_node(k: JsonType, n: Seq<char>) -> SchemaNode {
    match k {
        JsonType::Int => SchemaNode::Int(n),
        JsonType::Float => SchemaNode::Float(n),
        JsonType::Bool => SchemaNode::Bool(n),
        _ => SchemaNode::String(n),
    }
}

/// The element shape of a value of kind `k` (not null).
pub open spec fn scalar_shape(k: JsonType) -> ElementShape {
    match k {
        JsonType::Int => ElementShape::Int,
        JsonType::Float => ElementShape::Float,
        JsonType::Bool => ElementShape::Bool,
        _ => ElementShape::String,
    }
}

pub open spec fn syntax_at(t: TokenView) -> TokenizerError {
    TokenizerError::SyntaxError(t.line as usize, t.col as usize)
}

/// Folds the shape of a new element into the shape seen so far: objects merge
/// their fields, equal shapes stay, anything else is a syntax error at
/// (`line`, `col`).
pub open spec fn unify(old: Option<ElementShape>, new: ElementShape, line: usize, col: usize) -> Result<ElementShape, TokenizerError> {
    match old {
        None => Ok(new),
        Some(o) => match (o, new) {
            (ElementShape::Object(a), ElementShape::Object(b)) => Ok(ElementShape::Object(merge_fields(a, b))),
            _ => if o == new {
                Ok(new)
            } else {
                Err(TokenizerError::SyntaxError(line, col))
            },
        },
    }
}

/// Reads the fields of an object from position `i` on. `first` holds while no
/// token of this object has been read, `pending` is a field name waiting for its
/// value, `acc` the fields found so far. Gives the fields and the position after
/// the object.
pub open spec fn object_from(
    toks: Seq<TokenView>,
    i: int,
    first: bool,
    pending: Option<Seq<char>>,
    acc: Seq<SchemaNode>,
) -> Result<(Seq<SchemaNode>, int), TokenizerError>
    decreases toks.len() - i,
{
    if i < 0 || i >= toks.len() {
        Ok((acc, i))
    } else {
        let t = toks[i];
        match t.kind {
            TokenKind::ObjectStart => if first {
                object_from(toks, i + 1, false, pending, acc)
            } else if pending is None {
                Err(syntax_at(t))
            } else {
                match object_from(toks, i + 1, true, None, Seq::empty()) {
                    Err(e) => Err(e),
                    Ok((kids, j)) => if i < j <= toks.len() {
                        object_from(toks, j, false, None, acc.push(SchemaNode::Object(pending->0, kids)))
                    } else {
                        Err(TokenizerError::UnknownSyntaxError)
                    },
                }
            },
            TokenKind::ObjectEnd => Ok((acc, i + 1)),
            TokenKind::ArrayStart => if pending is None {
                Err(syntax_at(t))
            } else {
                match array_from(toks, i + 1, None) {
                    Err(e) => Err(e),
                    Ok((shape, j)) => if i < j <= toks.len() {
                        object_from(toks, j, false, None, acc.push(SchemaNode::Array(pending->0, shape)))
                    } else {
                        Err(TokenizerError::UnknownSyntaxError)
                    },
                }
            },
            TokenKind::ArrayEnd => object_from(toks, i + 1, false, pending, acc),
            TokenKind::Comma => object_from(toks, i + 1, false, pending, acc),
            TokenKind::Colon => if pending is None {
                Err(syntax_at(t))
            } else {
                object_from(toks, i + 1, false, pending, acc)
            },
            TokenKind::Name(n) => if pending is Some {
                Err(syntax_at(t))
            } else {
                object_from(toks, i + 1, false, Some(n), acc)
            },
            TokenKind::Value(k) => if pending is None {
                Err(syntax_at(t))
            } else if k == JsonType::Null {
                Err(TokenizerError::NullNotSupportedError(t.line as usize, t.col as usize))
            } else {
                object_from(toks, i + 1, false, None, acc.push(scalar_node(k, pending->0)))
            },
        }
    }
}

/// Reads the elements of an array from position `i` on, `shape` being the
/// unified shape of those read so far. Gives the shape and the position after
/// the array.
pub open spec fn array_from(toks: Seq<TokenView>, i: int, shape: Option<ElementShape>) -> Result<(ElementShape, int), TokenizerError>
    decreases toks.len() - i,
{
    if i < 0 || i >= toks.len() {
        match shape {
            Some(s) => Ok((s, i)),
            None => Err(TokenizerError::UnknownSyntaxError),
        }
    } else {
        let t = toks[i];
        match t.kind {
            TokenKind::ArrayEnd => match shape {
                Some(s) => Ok((s, i + 1)),
                None => Err(TokenizerError::EmptyArrayNotSupportedError(t.line as usize, t.col as usize)),
            },
            TokenKind::ArrayStart => match array_from(toks, i + 1, None) {
                Err(e) => Err(e),
                Ok((inner, j)) => if i < j <= toks.len() {
                    match unify(shape, ElementShape::Array(Box::new(inner)), t.line as usize, t.col as usize) {
                        Ok(s) => array_from(toks, j, Some(s)),
                        Err(e) => Err(e),
                    }
                } else {
                    Err(TokenizerError::UnknownSyntaxError)
                },
            },
            TokenKind::ObjectStart => match object_from(toks, i + 1, true, None, Seq::empty()) {
                Err(e) => Err(e),
                Ok((kids, j)) => if i < j <= toks.len() {
                    match unify(shape, ElementShape::Object(kids), t.line as usize, t.col as usize) {
                        Ok(s) => array_from(toks, j, Some(s)),
                        Err(e) => Err(e),
                    }
                } else {
                    Err(TokenizerError::UnknownSyntaxError)
                },
            },
            TokenKind::Value(k) => if k == JsonType::Null {
                Err(TokenizerError::NullNotSupportedError(t.line as usize, t.col as usize))
            } else {
                match unify(shape, scalar_shape(k), t.line as usize, t.col as usize) {
                    Ok(s) => array_from(toks, i + 1, Some(s)),
                    Err(e) => Err(e),
                }
            },
            TokenKind::Comma => array_from(toks, i + 1, shape),
            _ => Err(syntax_at(t)),
        }
    }
}

/// The fields of the document's root object, or the first error met.
pub open spec fn schema_of(toks: Seq<TokenView>) -> Result<Seq<SchemaNode>, TokenizerError> {
    match object_from(toks, 0, true, None, Seq::empty()) {
        Ok((fields, _)) => Ok(fields),
        Err(e) => Err(e),
    }
}

pub open spec fn opt_chars(o: Option<String>) -> Option<Seq<char>> {
    match o {
        Some(n) => Some(n@),
        None => None,
    }
}

pub open spec fn opt_shape(o: Option<JsonArrayType>) -> Option<ElementShape> {
    match o {
        Some(a) => Some(a@),
        None => None,
    }
}

/// Two scalar elements unify exactly when they are of the same kind; otherwise
/// the element is a syntax error at its place.
pub proof fn lemma_unify_scalars(a: JsonType, b: JsonType, line: usize, col: usize)
    requires
        a != JsonType::Null,
        b != JsonType::Null,
    ensures
        unify(Some(scalar_shape(a)), scalar_shape(b), line, col) == if a == b {
            Ok::<ElementShape, TokenizerError>(scalar_shape(a))
        } else {
            Err::<ElementShape, TokenizerError>(TokenizerError::SyntaxError(line, col))
        },
{
}

/// Nested arrays unify exactly when their element shapes are equal.
pub proof fn lemma_unify_arrays(a: ElementShape, b: ElementShape, line: usize, col: usize)
    ensures
        unify(Some(ElementShape::Array(Box::new(a))), ElementShape::Array(Box::new(b)), line, col) == if a == b {
            Ok::<ElementShape, TokenizerError>(ElementShape::Array(Box::new(a)))
        } else {
            Err::<ElementShape, TokenizerError>(TokenizerError::SyntaxError(line, col))
        },
{
    if a != b {
        assert(ElementShape::Array(Box::new(a)) != ElementShape::Array(Box::new(b))) by {
            if ElementShape::Array(Box::new(a)) == ElementShape::Array(Box::new(b)) {
                assert(*ElementShape::Array(Box::new(a))->Array_0 == *ElementShape::Array(Box::new(b))->Array_0);
            }
        }
    }
}

/// Two object elements unify to the union of their fields.
pub proof fn lemma_unify_objects(a: Seq<SchemaNode>, b: Seq<SchemaNode>, line: usize, col: usize)
    ensures
        unify(Some(ElementShape::Object(a)), ElementShape::Object(b), line, col) == Ok::<ElementShape, TokenizerError>(
            ElementShape::Object(merge_fields(a, b)),
        ),
{
}

/// A field whose value is an object becomes one `Object` child holding the
/// fields of that object, after which the enclosing object reads on.
pub proof fn lemma_nested_object_field(
    toks: Seq<TokenView>,
    i: int,
    acc: Seq<SchemaNode>,
    n: Seq<char>,
)
    requires
        0 <= i,
        i + 3 <= toks.len(),
        toks[i].kind == TokenKind::Name(n),
        toks[i + 1].kind == TokenKind::Colon,
        toks[i + 2].kind == TokenKind::ObjectStart,
        object_from(toks, i + 3, true, None, Seq::empty()) is Ok,
    ensures
        object_from(toks, i, false, None, acc) == object_from(
            toks,
            object_from(toks, i + 3, true, None, Seq::empty())->Ok_0.1,
            false,
            None,
            acc.push(SchemaNode::Object(n, object_from(toks, i + 3, true, None, Seq::empty())->Ok_0.0)),
        ),
{
    lemma_object_ok(toks, i + 3, true, None, Seq::empty());
    assert(object_from(toks, i + 1, false, Some(n), acc) == object_from(toks, i + 2, false, Some(n), acc));
}

/// Whether `toks[i..]` holds `n` values of kind `k` separated by commas, then `]`.
pub open spec fn scalar_run(toks: Seq<TokenView>, i: int, n: int, k: JsonType) -> bool {
    &&& 0 <= i
    &&& 1 <= n
    &&& i + 2 * n <= toks.len()
    &&& forall|j: int| 0 <= j < n ==> #[trigger] toks[i + 2 * j].kind == TokenKind::Value(k)
    &&& forall|j: int| 0 <= j < n - 1 ==> #[trigger] toks[i + 2 * j + 1].kind == TokenKind::Comma
    &&& toks[i + 2 * n - 1].kind == TokenKind::ArrayEnd
}

proof fn lemma_scalar_run_tail(toks: Seq<TokenView>, i: int, n: int, k: JsonType, j: int)
    requires
        scalar_run(toks, i, n, k),
        k != JsonType::Null,
        0 <= j < n,
    ensures
        array_from(toks, i + 2 * j + 1, Some(scalar_shape(k))) == Ok::<(ElementShape, int), TokenizerError>(
            (scalar_shape(k), i + 2 * n),
        ),
    decreases n - j,
{
    let p = i + 2 * j + 1;
    let sh = Some(scalar_shape(k));
    if j < n - 1 {
        assert(toks[p].kind == TokenKind::Comma);
        assert(toks[i + 2 * (j + 1)].kind == TokenKind::Value(k));
        assert(i + 2 * (j + 1) == p + 1);
        let t = toks[p + 1];
        lemma_unify_scalars(k, k, t.line as usize, t.col as usize);
        lemma_scalar_run_tail(toks, i, n, k, j + 1);
        assert(i + 2 * (j + 1) + 1 == p + 2);
        assert(array_from(toks, p + 1, sh) == array_from(toks, p + 2, sh));
        assert(array_from(toks, p, sh) == array_from(toks, p + 1, sh));
    } else {
        assert(toks[p].kind == TokenKind::ArrayEnd);
    }
}

/// An array whose elements are all scalars of one kind has that kind's shape.
pub proof fn lemma_uniform_scalar_array(toks: Seq<TokenView>, i: int, n: int, k: JsonType)
    requires
        scalar_run(toks, i, n, k),
        k != JsonType::Null,
    ensures
        array_from(toks, i, None) == Ok::<(ElementShape, int), TokenizerError>((scalar_shape(k), i + 2 * n)),
{
    assert(toks[i + 2 * 0].kind == TokenKind::Value(k));
    lemma_scalar_run_tail(toks, i, n, k, 0);
}

/// Whether `toks[from..to]` holds no null value and no `[` directly followed
/// by `]`.
#[verifier::opaque]
pub open spec fn null_and_empty_free(toks: Seq<TokenView>, from: int, to: int) -> bool {
    &&& forall|k: int| from <= k < to ==> #[trigger] toks[k].kind != TokenKind::Value(JsonType::Null)
    &&& forall|k: int|
        from <= k && k + 1 < to ==> !(#[trigger] toks[k].kind == TokenKind::ArrayStart && toks[k + 1].kind
            == TokenKind::ArrayEnd)
}

/// Whether a read of `toks[from..to]` did not stop right after a `[`.
spec fn ends_clean(toks: Seq<TokenView>, from: int, to: int) -> bool {
    to == from || to == toks.len() || toks[to - 1].kind != TokenKind::ArrayStart
}

proof fn lemma_free_join(toks: Seq<TokenView>, a: int, b: int, c: int)
    requires
        a <= b <= c,
        null_and_empty_free(toks, a, b),
        null_and_empty_free(toks, b, c),
        ends_clean(toks, a, b),
        b == a || b == c || b < toks.len(),
        b > a ==> toks[b - 1].kind != TokenKind::ArrayStart || b == c,
    ensures
        null_and_empty_free(toks, a, c),
{
    reveal(null_and_empty_free);
    assert forall|k: int|
        a <= k && k + 1 < c implies !(#[trigger] toks[k].kind == TokenKind::ArrayStart && toks[k + 1].kind
        == TokenKind::ArrayEnd) by {
        if k + 1 < b {
        } else if k >= b {
        } else {
            assert(k == b - 1);
        }
    }
}

proof fn lemma_free_step(toks: Seq<TokenView>, i: int, j: int)
    requires
        0 <= i < j,
        i < toks.len(),
        toks[i].kind != TokenKind::Value(JsonType::Null),
        null_and_empty_free(toks, i + 1, j),
        toks[i].kind == TokenKind::ArrayStart && i + 1 < j ==> toks[i + 1].kind != TokenKind::ArrayEnd,
    ensures
        null_and_empty_free(toks, i, j),
{
    reveal(null_and_empty_free);
    assert forall|k: int|
        i <= k && k + 1 < j implies !(#[trigger] toks[k].kind == TokenKind::ArrayStart && toks[k + 1].kind
        == TokenKind::ArrayEnd) by {
        if k > i {
        }
    }
}

spec fn object_ok_facts(
    toks: Seq<TokenView>,
    i: int,
    first: bool,
    pending: Option<Seq<char>>,
    acc: Seq<SchemaNode>,
) -> bool {
    let j = object_from(toks, i, first, pending, acc)->Ok_0.1;
    &&& i <= j <= toks.len()
    &&& null_and_empty_free(toks, i, j)
    &&& ends_clean(toks, i, j)
}

#[verifier::rlimit(60)]
proof fn lemma_object_ok(
    toks: Seq<TokenView>,
    i: int,
    first: bool,
    pending: Option<Seq<char>>,
    acc: Seq<SchemaNode>,
)
    requires
        0 <= i <= toks.len(),
        object_from(toks, i, first, pending, acc) is Ok,
    ensures
        object_ok_facts(toks, i, first, pending, acc),
    decreases toks.len() - i, 2nat,
{
    if i >= toks.len() {
        reveal(null_and_empty_free);
    } else {
        let t = toks[i];
        match t.kind {
            TokenKind::ObjectStart => {
                if first {
                    lemma_object_ok_step(toks, i, first, pending, acc);
                } else {
                    lemma_object_ok_nested_object(toks, i, first, pending, acc);
                }
            },
            TokenKind::ArrayStart => {
                lemma_object_ok_nested_array(toks, i, first, pending, acc);
            },
            TokenKind::ObjectEnd => {
                reveal(null_and_empty_free);
            },
            _ => {
                lemma_object_ok_step(toks, i, first, pending, acc);
            },
        }
    }
}

/// A token that the object reads and passes over.
#[verifier::rlimit(60)]
proof fn lemma_object_ok_step(
    toks: Seq<TokenView>,
    i: int,
    first: bool,
    pending: Option<Seq<char>>,
    acc: Seq<SchemaNode>,
)
    requires
        0 <= i < toks.len(),
        object_from(toks, i, first, pending, acc) is Ok,
        toks[i].kind != TokenKind::ArrayStart,
        toks[i].kind != TokenKind::ObjectEnd,
        toks[i].kind == TokenKind::ObjectStart ==> first,
    ensures
        object_ok_facts(toks, i, first, pending, acc),
    decreases toks.len() - i, 1nat,
{
    let t = toks[i];
    let j = object_from(toks, i, first, pending, acc)->Ok_0.1;
    let next = match t.kind {
        TokenKind::Name(n) => Some(n),
        TokenKind::Value(_) => None,
        _ => pending,
    };
    let next_acc = match t.kind {
        TokenKind::Value(k) => acc.push(scalar_node(k, pending->0)),
        _ => acc,
    };
    assert(object_from(toks, i, first, pending, acc) == object_from(toks, i + 1, false, next, next_acc));
    lemma_object_ok(toks, i + 1, false, next, next_acc);
    if j == i + 1 {
        reveal(null_and_empty_free);
    } else {
        lemma_free_step(toks, i, j);
    }
}

#[verifier::rlimit(60)]
proof fn lemma_object_ok_nested_object(
    toks: Seq<TokenView>,
    i: int,
    first: bool,
    pending: Option<Seq<char>>,
    acc: Seq<SchemaNode>,
)
    requires
        0 <= i < toks.len(),
        object_from(toks, i, first, pending, acc) is Ok,
        toks[i].kind == TokenKind::ObjectStart,
        !first,
    ensures
        object_ok_facts(toks, i, first, pending, acc),
    decreases toks.len() - i, 1nat,
{
    let j = object_from(toks, i, first, pending, acc)->Ok_0.1;
    let inner = object_from(toks, i + 1, true, None, Seq::empty());
    lemma_object_ok(toks, i + 1, true, None, Seq::empty());
    let j1 = inner->Ok_0.1;
    let rest_acc = acc.push(SchemaNode::Object(pending->0, inner->Ok_0.0));
    assert(object_from(toks, i, first, pending, acc) == object_from(toks, j1, false, None, rest_acc));
    lemma_object_ok(toks, j1, false, None, rest_acc);
    lemma_free_join(toks, i + 1, j1, j);
    lemma_free_step(toks, i, j);
}

#[verifier::rlimit(60)]
proof fn lemma_object_ok_nested_array(
    toks: Seq<TokenView>,
    i: int,
    first: bool,
    pending: Option<Seq<char>>,
    acc: Seq<SchemaNode>,
)
    requires
        0 <= i < toks.len(),
        object_from(toks, i, first, pending, acc) is Ok,
        toks[i].kind == TokenKind::ArrayStart,
    ensures
        object_ok_facts(toks, i, first, pending, acc),
    decreases toks.len() - i, 1nat,
{
    let j = object_from(toks, i, first, pending, acc)->Ok_0.1;
    let inner = array_from(toks, i + 1, None);
    lemma_array_ok(toks, i + 1, None);
    let j1 = inner->Ok_0.1;
    let rest_acc = acc.push(SchemaNode::Array(pending->0, inner->Ok_0.0));
    assert(object_from(toks, i, first, pending, acc) == object_from(toks, j1, false, None, rest_acc));
    lemma_object_ok(toks, j1, false, None, rest_acc);
    lemma_free_join(toks, i + 1, j1, j);
    lemma_free_step(toks, i, j);
}

#[verifier::rlimit(60)]
proof fn lemma_array_ok(toks: Seq<TokenView>, i: int, shape: Option<ElementShape>)
    requires
        0 <= i <= toks.len(),
        array_from(toks, i, shape) is Ok,
    ensures
        i <= array_from(toks, i, shape)->Ok_0.1 <= toks.len(),
        null_and_empty_free(toks, i, array_from(toks, i, shape)->Ok_0.1),
        ends_clean(toks, i, array_from(toks, i, shape)->Ok_0.1),
        shape is None && i < toks.len() ==> toks[i].kind != TokenKind::ArrayEnd,
        shape is None ==> i < array_from(toks, i, shape)->Ok_0.1,
    decreases toks.len() - i, 2nat,
{
    if i >= toks.len() {
        reveal(null_and_empty_free);
    } else {
        let t = toks[i];
        let r = array_from(toks, i, shape);
        let j = r->Ok_0.1;
        if j == i + 1 {
            reveal(null_and_empty_free);
        }
        match t.kind {
            TokenKind::ArrayStart => {
                let inner = array_from(toks, i + 1, None);
                lemma_array_ok(toks, i + 1, None);
                let j1 = inner->Ok_0.1;
                let s = unify(shape, ElementShape::Array(Box::new(inner->Ok_0.0)), t.line as usize, t.col as usize);
                lemma_array_ok(toks, j1, Some(s->Ok_0));
                lemma_free_join(toks, i + 1, j1, j);
                lemma_free_step(toks, i, j);
            },
            TokenKind::ObjectStart => {
                let inner = object_from(toks, i + 1, true, None, Seq::empty());
                lemma_object_ok(toks, i + 1, true, None, Seq::empty());
                let j1 = inner->Ok_0.1;
                let s = unify(shape, ElementShape::Object(inner->Ok_0.0), t.line as usize, t.col as usize);
                lemma_array_ok(toks, j1, Some(s->Ok_0));
                lemma_free_join(toks, i + 1, j1, j);
                lemma_free_step(toks, i, j);
            },
            TokenKind::Value(k) => {
                let s = unify(shape, scalar_shape(k), t.line as usize, t.col as usize);
                lemma_array_ok(toks, i + 1, Some(s->Ok_0));
                lemma_free_step(toks, i, j);
            },
            TokenKind::Comma => {
                lemma_array_ok(toks, i + 1, shape);
                lemma_free_step(toks, i, j);
            },
            _ => {
            },
        }
    }
}

/// When the schema of a token stream is built, no token that was read is a
/// null value and no `[` that was read is directly followed by `]`: a null, or
/// an empty array, in the document makes building fail.
pub proof fn lemma_built_schema_has_no_null_or_empty_array(toks: Seq<TokenView>)
    requires
        object_from(toks, 0, true, None, Seq::empty()) is Ok,
    ensures
        null_and_empty_free(toks, 0, object_from(toks, 0, true, None, Seq::empty())->Ok_0.1),
{
    lemma_object_ok(toks, 0, true, None, Seq::empty());
    assert(object_ok_facts(toks, 0, true, None, Seq::empty()));
}

/// The leaves of a flat object's fields, in order.
pub open spec fn leaves(fields: Seq<(Seq<char>, JsonType)>) -> Seq<SchemaNode> {
    fields.map_values(|f: (Seq<char>, JsonType)| scalar_node(f.1, f.0))
}

proof fn lemma_flat_fields_from(toks: Seq<TokenView>, fields: Seq<(Seq<char>, JsonType)>, j: int)
    requires
        flat_object(toks, fields),
        0 <= j < fields.len(),
    ensures
        object_from(toks, 4 * j + 1, false, None, leaves(fields.take(j))) == Ok::<
            (Seq<SchemaNode>, int),
            TokenizerError,
        >((leaves(fields), toks.len() as int)),
    decreases fields.len() - j,
{
    let n = fields.len() as int;
    let p = 4 * j + 1;
    let f = fields[j];
    assert(toks[4 * j + 1].kind == TokenKind::Name(f.0));
    let acc = leaves(fields.take(j));
    let acc2 = acc.push(scalar_node(f.1, f.0));
    assert(acc2 =~= leaves(fields.take(j + 1)));
    assert(object_from(toks, p + 2, false, Some(f.0), acc) == object_from(toks, p + 3, false, None, acc2));
    assert(object_from(toks, p + 1, false, Some(f.0), acc) == object_from(toks, p + 2, false, Some(f.0), acc));
    assert(object_from(toks, p, false, None, acc) == object_from(toks, p + 1, false, Some(f.0), acc));
    if j < n - 1 {
        assert(toks[4 * j + 4].kind == TokenKind::Comma);
        lemma_flat_fields_from(toks, fields, j + 1);
        assert(4 * (j + 1) + 1 == p + 4);
        assert(object_from(toks, p + 3, false, None, acc2) == object_from(toks, p + 4, false, None, acc2));
    } else {
        assert(fields.take(j + 1) =~= fields);
        assert(p + 3 == toks.len() - 1);
    }
}

/// The schema of a flat object has one leaf per field, in order, typed by the
/// field's value.
pub proof fn lemma_flat_object(toks: Seq<TokenView>, fields: Seq<(Seq<char>, JsonType)>)
    requires
        flat_object(toks, fields),
    ensures
        schema_of(toks) == Ok::<Seq<SchemaNode>, TokenizerError>(leaves(fields)),
{
    let e = Seq::<SchemaNode>::empty();
    assert(object_from(toks, 0, true, None, e) == object_from(toks, 1, false, None, e));
    if fields.len() == 0 {
        assert(leaves(fields) =~= e);
    } else {
        lemma_flat_fields_from(toks, fields, 0);
        assert(leaves(fields.take(0)) =~= e);
    }
}

/// Lexing and then building the schema of a flat object's text gives one leaf
/// per field, in source order, typed by the field's value.
pub proof fn lemma_flat_text_schema(fields: Seq<(Seq<char>, JsonType)>)
    requires
        forall|i: int| 0 <= i < fields.len() ==> plain_name(#[trigger] fields[i].0) && fields[i].1 != JsonType::Null,
    ensures
        schema_of(lex(flat_text(fields))) == Ok::<Seq<SchemaNode>, TokenizerError>(leaves(fields)),
{
    lemma_lex_flat_text(fields);
    lemma_flat_object(lex(flat_text(fields)), fields);
}

/// Appends to `fields` each tree of `extra` whose name is not present yet.
fn merge_into(fields: &mut Vec<JsonTree>, extra: Vec<JsonTree>)
    ensures
        trees_view(final(fields)@) == merge_fields(trees_view(old(fields)@), trees_view(extra@)),
{
    let ghost e0 = extra@;
    let ghost f0 = trees_view(fields@);
    let mut extra = extra;
    let mut k: usize = 0;
    let n = extra.len();
    assert(e0.take(0) =~= Seq::<JsonTree>::empty());
    while k < n
        invariant
            n == e0.len(),
            k <= n,
            extra@ == e0.subrange(k as int, n as int),
            trees_view(fields@) == merge_fields(f0, trees_view(e0.take(k as int))),
        decreases n - k,
    {
        let x = extra.remove(0);
        assert(x == e0[k as int]);
        assert(e0.take(k + 1) =~= e0.take(k as int).push(x));
        proof {
            lemma_trees_view_push(e0.take(k as int), x);
            let s = trees_view(e0.take(k as int));
            assert(s.push(tree_view(x)).drop_last() =~= s);
        }
        let present = match x.field_name() {
            Some(name) => has_field_named(fields, name),
            None => false,
        };
        if !present {
            proof {
                lemma_trees_view_push(fields@, x);
            }
            fields.push(x);
        }
        assert(extra@ =~= e0.subrange(k + 1, n as int));
        k = k + 1;
    }
    assert(e0.take(n as int) =~= e0);
}

/// Turns a token stream into the schema tree of the document's root object.
pub struct Tokenizer {
    tokens: Vec<Token>,
    pos: usize,
}

impl Tokenizer {
    /// The models of the tokens to read.
    pub closed spec fn tokens(&self) -> Seq<TokenView> {
        tokens_view(self.tokens@)
    }

    spec fn wf(&self) -> bool {
        self.pos <= self.tokens@.len()
    }

    /// Creates a tokenizer that reads `tokens` from the start.
    pub fn new(tokens: Vec<Token>) -> (r: Tokenizer)
        ensures
            r.tokens() == tokens_view(tokens@),
    {
        Tokenizer { tokens, pos: 0 }
    }

    /// Folds the shape of a new array element into the shape seen so far.
    fn parse_new_array_type(
        old_type: Option<JsonArrayType>,
        new_type: JsonArrayType,
        line: usize,
        col: usize,
    ) -> (r: Result<JsonArrayType, TokenizerError>)
        ensures
            match r {
                Ok(a) => unify(opt_shape(old_type), new_type@, line, col) == Ok::<ElementShape, TokenizerError>(a@),
                Err(e) => unify(opt_shape(old_type), new_type@, line, col) == Err::<ElementShape, TokenizerError>(e),
            },
    {
        match old_type {
            None => Ok(new_type),
            Some(old) => match (old, new_type) {
                (JsonArrayType::JsonObject(mut fields), JsonArrayType::JsonObject(extra)) => {
                    merge_into(&mut fields, extra);
                    Ok(JsonArrayType::JsonObject(fields))
                },
                (old, new) => {
                    if old.same_as(&new) {
                        Ok(new)
                    } else {
                        Err(TokenizerError::SyntaxError(line, col))
                    }
                },
            },
        }
    }

    /// Reads the elements of an array whose `[` was just read, up to its `]`,
    /// and gives their unified shape.
    fn parse_array_token(&mut self) -> (r: Result<JsonArrayType, TokenizerError>)
        requires
            old(self).wf(),
        ensures
            final(self).wf(),
            final(self).tokens@ == old(self).tokens@,
            old(self).pos <= final(self).pos,
            match r {
                Ok(a) => array_from(old(self).tokens(), old(self).pos as int, None) == Ok::<
                    (ElementShape, int),
                    TokenizerError,
                >((a@, final(self).pos as int)),
                Err(e) => array_from(old(self).tokens(), old(self).pos as int, None) == Err::<
                    (ElementShape, int),
                    TokenizerError,
                >(e),
            },
        decreases old(self).tokens@.len() - old(self).pos,
    {
        let ghost toks = self.tokens();
        let ghost start = self.pos as int;
        let mut shape: Option<JsonArrayType> = None;
        while self.pos < self.tokens.len()
            invariant
                self.wf(),
                self.tokens@ == old(self).tokens@,
                toks == self.tokens(),
                start <= self.pos,
                start == old(self).pos,
                array_from(toks, start, None) == array_from(toks, self.pos as int, opt_shape(shape)),
            decreases self.tokens@.len() - self.pos,
        {
            let p = self.pos;
            let line = self.tokens[p].line;
            let col = self.tokens[p].col;
            assert(toks[p as int] == self.tokens@[p as int]@);
            match &self.tokens[p].value {
                JsonToken::ArrayEnd => {
                    self.pos = p + 1;
                    return match shape {
                        Some(a) => Ok(a),
                        None => Err(TokenizerError::EmptyArrayNotSupportedError(line, col)),
                    };
                },
                JsonToken::ArrayStart => {
                    self.pos = p + 1;
                    match self.parse_array_token() {
                        Ok(inner) => {
                            let t = JsonArrayType::JsonArray(Box::new(inner));
                            match Self::parse_new_array_type(shape, t, line, col) {
                                Ok(a) => {
                                    shape = Some(a);
                                },
                                Err(e) => {
                                    return Err(e);
                                },
                            }
                        },
                        Err(e) => {
                            return Err(e);
                        },
                    }
                },
                JsonToken::ObjectStart => {
                    self.pos = p + 1;
                    match self.parse_object_token() {
                        Ok(fields) => {
                            let t = JsonArrayType::JsonObject(fields);
                            match Self::parse_new_array_type(shape, t, line, col) {
                                Ok(a) => {
                                    shape = Some(a);
                                },
                                Err(e) => {
                                    return Err(e);
                                },
                            }
                        },
                        Err(e) => {
                            return Err(e);
                        },
                    }
                },
                JsonToken::Value(k) => {
                    let t = match *k {
                        JsonType::Int => JsonArrayType::Int,
                        JsonType::Float => JsonArrayType::Float,
                        JsonType::Bool => JsonArrayType::Bool,
                        JsonType::String => JsonArrayType::String,
                        JsonType::Null => {
                            return Err(TokenizerError::NullNotSupportedError(line, col));
                        },
                    };
                    self.pos = p + 1;
                    match Self::parse_new_array_type(shape, t, line, col) {
                        Ok(a) => {
                            shape = Some(a);
                        },
                        Err(e) => {
                            return Err(e);
                        },
                    }
                },
                JsonToken::Comma => {
                    self.pos = p + 1;
                },
                _ => {
                    return Err(TokenizerError::SyntaxError(line, col));
                },
            }
        }
        match shape {
            Some(a) => Ok(a),
            None => Err(TokenizerError::UnknownSyntaxError),
        }
    }

    /// Reads the fields of an object up to its `}` (or the end of the tokens).
    fn parse_object_token(&mut self) -> (r: Result<Vec<JsonTree>, TokenizerError>)
        requires
            old(self).wf(),
        ensures
            final(self).wf(),
            final(self).tokens@ == old(self).tokens@,
            old(self).pos <= final(self).pos,
            match r {
                Ok(v) => object_from(old(self).tokens(), old(self).pos as int, true, None, Seq::empty())
                    == Ok::<(Seq<SchemaNode>, int), TokenizerError>((trees_view(v@), final(self).pos as int)),
                Err(e) => object_from(old(self).tokens(), old(self).pos as int, true, None, Seq::empty())
                    == Err::<(Seq<SchemaNode>, int), TokenizerError>(e),
            },
        decreases old(self).tokens@.len() - old(self).pos,
    {
        let ghost toks = self.tokens();
        let ghost start = self.pos as int;
        let mut object: Vec<JsonTree> = Vec::new();
        let mut name: Option<String> = None;
        let mut first = true;
        assert(trees_view(object@) =~= Seq::<SchemaNode>::empty());
        while self.pos < self.tokens.len()
            invariant
                self.wf(),
                self.tokens@ == old(self).tokens@,
                toks == self.tokens(),
                start <= self.pos,
                start == old(self).pos,
                object_from(toks, start, true, None, Seq::empty()) == object_from(
                    toks,
                    self.pos as int,
                    first,
                    opt_chars(name),
                    trees_view(object@),
                ),
            decreases self.tokens@.len() - self.pos,
        {
            let p = self.pos;
            let line = self.tokens[p].line;
            let col = self.tokens[p].col;
            assert(toks[p as int] == self.tokens@[p as int]@);
            match &self.tokens[p].value {
                JsonToken::ObjectStart => {
                    self.pos = p + 1;
                    if !first {
                        match name {
                            None => {
                                return Err(TokenizerError::SyntaxError(line, col));
                            },
                            Some(field) => {
                                match self.parse_object_token() {
                                    Ok(fields) => {
                                        let t = JsonTree::JsonObject(field, fields);
                                        proof {
                                            lemma_trees_view_push(object@, t);
                                        }
                                        object.push(t);
                                    },
                                    Err(e) => {
                                        return Err(e);
                                    },
                                }
                            },
                        }
                        name = None;
                    }
                },
                JsonToken::ObjectEnd => {
                    self.pos = p + 1;
                    return Ok(object);
                },
                JsonToken::ArrayStart => {
                    self.pos = p + 1;
                    match name {
                        None => {
                            return Err(TokenizerError::SyntaxError(line, col));
                        },
                        Some(field) => {
                            match self.parse_array_token() {
                                Ok(shape) => {
                                    let t = JsonTree::JsonArray(field, shape);
                                    proof {
                                        lemma_trees_view_push(object@, t);
                                    }
                                    object.push(t);
                                },
                                Err(e) => {
                                    return Err(e);
                                },
                            }
                        },
                    }
                    name = None;
                },
                JsonToken::ArrayEnd | JsonToken::Comma => {
                    self.pos = p + 1;
                },
                JsonToken::Colon => {
                    if name.is_none() {
                        return Err(TokenizerError::SyntaxError(line, col));
                    }
                    self.pos = p + 1;
                },
                JsonToken::Name(field) => {
                    if name.is_some() {
                        return Err(TokenizerError::SyntaxError(line, col));
                    }
                    name = Some(field.clone());
                    self.pos = p + 1;
                },
                JsonToken::Value(k) => {
                    let k = *k;
                    match name {
                        None => {
                            return Err(TokenizerError::SyntaxError(line, col));
                        },
                        Some(field) => {
                            let t = match k {
                                JsonType::Int => JsonTree::Int(field),
                                JsonType::Float => JsonTree::Float(field),
                                JsonType::Bool => JsonTree::Bool(field),
                                JsonType::String => JsonTree::String(field),
                                JsonType::Null => {
                                    return Err(TokenizerError::NullNotSupportedError(line, col));
                                },
                            };
                            proof {
                                lemma_trees_view_push(object@, t);
                            }
                            object.push(t);
                        },
                    }
                    name = None;
                    self.pos = p + 1;
                },
            }
            first = false;
        }
        Ok(object)
    }

    /// Builds the fields of the document's root object from all the tokens.
    pub fn start_tokenizer(self) -> (r: Result<Vec<JsonTree>, TokenizerError>)
        ensures
            match r {
                Ok(v) => schema_of(self.tokens()) == Ok::<Seq<SchemaNode>, TokenizerError>(trees_view(v@)),
                Err(e) => schema_of(self.tokens()) == Err::<Seq<SchemaNode>, TokenizerError>(e),
            },
    {
        let mut this = self;
        this.pos = 0;
        this.parse_object_token()
    }

    /// Builds the document's schema: a `Root` node holding the fields of its
    /// root object.
    pub fn build(self) -> (r: Result<JsonTree, TokenizerError>)
        ensures
            match r {
                Ok(t) => schema_of(self.tokens()) is Ok && t@ == SchemaNode::Root(schema_of(self.tokens())->Ok_0),
                Err(e) => schema_of(self.tokens()) == Err::<Seq<SchemaNode>, TokenizerError>(e),
            },
    {
        match self.start_tokenizer() {
            Ok(v) => Ok(JsonTree::Root(v)),
            Err(e) => Err(e),
        }
    }
}

} // verus!
