//! The schema tree inferred from a document, and its mathematical model.
use vstd::prelude::*;

verus! {

/// A field of an object and the shape inferred for it, named by the JSON field
/// name; `Root` holds the fields of the document's top-level object.
#[derive(Debug, PartialEq, Eq)]
pub enum JsonTree {
    Int(String),
    Float(String),
    String(String),
    Bool(String),
    JsonObject(String, Vec<JsonTree>),
    JsonArray(String, JsonArrayType),
    Root(Vec<JsonTree>),
}

/// The shape of the elements of an array (no field name).
#[derive(Debug, PartialEq, Eq)]
pub enum JsonArrayType {
    Int,
    Float,
    String,
    Bool,
    JsonObject(Vec<JsonTree>),
    JsonArray(Box<JsonArrayType>),
}

/// Model of a [`JsonTree`]: names are character sequences.
pub enum SchemaNode {
    Int(Seq<char>),
    Float(Seq<char>),
    String(Seq<char>),
    Bool(Seq<char>),
    Object(Seq<char>, Seq<SchemaNode>),
    Array(Seq<char>, ElementShape),
    Root(Seq<SchemaNode>),
}

/// Model of a [`JsonArrayType`].
pub enum ElementShape {
    Int,
    Float,
    String,
    Bool,
    Object(Seq<SchemaNode>),
    Array(Box<ElementShape>),
}

pub open spec fn tree_view(t: JsonTree) -> SchemaNode
    decreases t, 0nat,
{
    match t {
        JsonTree::Int(n) => SchemaNode::Int(n@),
        JsonTree::Float(n) => SchemaNode::Float(n@),
        JsonTree::String(n) => SchemaNode::String(n@),
        JsonTree::Bool(n) => SchemaNode::Bool(n@),
        JsonTree::JsonObject(n, v) => SchemaNode::Object(n@, trees_view(v@)),
        JsonTree::JsonArray(n, a) => SchemaNode::Array(n@, shape_view(a)),
        JsonTree::Root(v) => SchemaNode::Root(trees_view(v@)),
    }
}

pub open spec fn trees_view(v: Seq<JsonTree>) -> Seq<SchemaNode>
    decreases v, v.len(),
{
    if v.len() == 0 {
        Seq::empty()
    } else {
        trees_view(v.drop_last()).push(tree_view(v.last()))
    }
}

pub open spec fn shape_view(a: JsonArrayType) -> ElementShape
    decreases a, 0nat,
{
    match a {
        JsonArrayType::Int => ElementShape::Int,
        JsonArrayType::Float => ElementShape::Float,
        JsonArrayType::String => ElementShape::String,
        JsonArrayType::Bool => ElementShape::Bool,
        JsonArrayType::JsonObject(v) => ElementShape::Object(trees_view(v@)),
        JsonArrayType::JsonArray(b) => ElementShape::Array(Box::new(shape_view(*b))),
    }
}

impl View for JsonTree {
    type V = SchemaNode;

    open spec fn view(&self) -> SchemaNode {
        tree_view(*self)
    }
}

impl View for JsonArrayType {
    type V = ElementShape;

    open spec fn view(&self) -> ElementShape {
        shape_view(*self)
    }
}

/// The models of a list of trees are the models of its elements.
pub proof fn lemma_trees_view(v: Seq<JsonTree>)
    ensures
        trees_view(v).len() == v.len(),
        forall|i: int| 0 <= i < v.len() ==> #[trigger] trees_view(v)[i] == tree_view(v[i]),
    decreases v.len(),
{
    if v.len() > 0 {
        lemma_trees_view(v.drop_last());
    }
}

/// The models of a list of trees, as a map over its elements.
pub proof fn lemma_trees_view_push(v: Seq<JsonTree>, t: JsonTree)
    ensures
        trees_view(v.push(t)) == trees_view(v).push(tree_view(t)),
{
    assert(v.push(t).drop_last() =~= v);
}

/// The field name of a node; the root has none.
pub open spec fn node_name(t: SchemaNode) -> Option<Seq<char>> {
    match t {
        SchemaNode::Int(n) => Some(n),
        SchemaNode::Float(n) => Some(n),
        SchemaNode::String(n) => Some(n),
        SchemaNode::Bool(n) => Some(n),
        SchemaNode::Object(n, _) => Some(n),
        SchemaNode::Array(n, _) => Some(n),
        SchemaNode::Root(_) => None,
    }
}

/// Whether some node of `fields` is named `n`.
pub open spec fn has_named(fields: Seq<SchemaNode>, n: Seq<char>) -> bool {
    exists|k: int| 0 <= k < fields.len() && node_name(fields[k]) == Some(n)
}

/// The fields of `old` followed, in their order, by each field of `new` whose
/// name is not yet present.
pub open spec fn merge_fields(old: Seq<SchemaNode>, new: Seq<SchemaNode>) -> Seq<SchemaNode>
    decreases new.len(),
{
    if new.len() == 0 {
        old
    } else {
        let m = merge_fields(old, new.drop_last());
        let x = new.last();
        if node_name(x) is Some && has_named(m, node_name(x)->0) {
            m
        } else {
            m.push(x)
        }
    }
}

/// Whether no field name occurs twice among `fields`.
pub open spec fn unique_names(fields: Seq<SchemaNode>) -> bool {
    forall|i: int, j: int|
        0 <= i < j < fields.len() && node_name(fields[i]) is Some ==> node_name(fields[i]) != node_name(
            fields[j],
        )
}

/// The union of two field lists keeps the old fields first and in their order,
/// takes every other field from the new list, holds every name of the new list,
/// and repeats no name when the old list repeats none.
pub proof fn lemma_merge_fields(old: Seq<SchemaNode>, new: Seq<SchemaNode>)
    ensures
        merge_fields(old, new).len() >= old.len(),
        merge_fields(old, new).take(old.len() as int) == old,
        forall|k: int|
            old.len() <= k < merge_fields(old, new).len() ==> exists|j: int|
                0 <= j < new.len() && new[j] == #[trigger] merge_fields(old, new)[k],
        forall|k: int|
            0 <= k < new.len() && node_name(#[trigger] new[k]) is Some ==> has_named(
                merge_fields(old, new),
                node_name(new[k])->0,
            ),
        unique_names(old) ==> unique_names(merge_fields(old, new)),
    decreases new.len(),
{
    if new.len() > 0 {
        let prev = new.drop_last();
        lemma_merge_fields(old, prev);
        let m = merge_fields(old, prev);
        let x = new.last();
        let r = merge_fields(old, new);
        assert(new.drop_last() == prev);
        if node_name(x) is Some && has_named(m, node_name(x)->0) {
            assert(r == m);
        } else {
            assert(r == m.push(x));
            assert(r.take(old.len() as int) =~= m.take(old.len() as int));
            assert forall|k: int| old.len() <= k < r.len() implies exists|j: int|
                0 <= j < new.len() && new[j] == #[trigger] r[k] by {
                if k < m.len() {
                    let j = choose|j: int| 0 <= j < prev.len() && prev[j] == m[k];
                    assert(new[j] == r[k]);
                } else {
                    assert(new[new.len() - 1] == r[k]);
                }
            }
            if unique_names(old) {
                assert forall|i: int, j: int|
                    0 <= i < j < r.len() && node_name(r[i]) is Some implies node_name(r[i]) != node_name(
                        r[j],
                    ) by {
                    if j == r.len() - 1 && node_name(x) is Some {
                        assert(!(0 <= i < m.len() && node_name(m[i]) == Some(node_name(x)->0)));
                    }
                }
            }
        }
        assert forall|k: int| 0 <= k < new.len() && node_name(#[trigger] new[k]) is Some implies has_named(
            r,
            node_name(new[k])->0,
        ) by {
            if k < prev.len() {
                assert(prev[k] == new[k]);
                let w = choose|w: int| 0 <= w < m.len() && node_name(m[w]) == Some(node_name(new[k])->0);
                assert(r[w] == m[w]);
            } else if has_named(m, node_name(x)->0) {
            } else {
                assert(node_name(r[r.len() - 1]) == Some(node_name(new[k])->0));
            }
        }
    } else {
        assert(old.take(old.len() as int) =~= old);
    }
}

/// The fields that a union appends keep the order they have in the new list.
pub proof fn lemma_merge_fields_order(old: Seq<SchemaNode>, new: Seq<SchemaNode>)
    ensures
        forall|k1: int, k2: int|
            old.len() <= k1 < k2 < merge_fields(old, new).len() ==> exists|j1: int, j2: int|
                0 <= j1 < j2 < new.len() && new[j1] == #[trigger] merge_fields(old, new)[k1] && new[j2]
                    == #[trigger] merge_fields(old, new)[k2],
    decreases new.len(),
{
    if new.len() > 0 {
        let prev = new.drop_last();
        lemma_merge_fields_order(old, prev);
        lemma_merge_fields(old, prev);
        let m = merge_fields(old, prev);
        let r = merge_fields(old, new);
        assert(new.drop_last() == prev);
        assert forall|k1: int, k2: int| old.len() <= k1 < k2 < r.len() implies exists|j1: int, j2: int|
            0 <= j1 < j2 < new.len() && new[j1] == #[trigger] r[k1] && new[j2] == #[trigger] r[k2] by {
            if k2 < m.len() {
                let (j1, j2) = choose|j1: int, j2: int|
                    0 <= j1 < j2 < prev.len() && prev[j1] == #[trigger] m[k1] && prev[j2] == #[trigger] m[k2];
                assert(new[j1] == r[k1] && new[j2] == r[k2]);
            } else {
                let j1 = choose|j: int| 0 <= j < prev.len() && prev[j] == #[trigger] m[k1];
                assert(new[j1] == r[k1]);
                assert(new[new.len() - 1] == r[k2]);
            }
        }
    }
}

/// Whether no `Root` node stands anywhere among `fields` or below them.
pub open spec fn no_root(fields: Seq<SchemaNode>) -> bool
    decreases fields, fields.len(),
{
    if fields.len() == 0 {
        true
    } else {
        no_root(fields.drop_last()) && node_no_root(fields.last())
    }
}

/// A field of a root-free list is root-free.
pub proof fn lemma_no_root_elem(fields: Seq<SchemaNode>, k: int)
    requires
        no_root(fields),
        0 <= k < fields.len(),
    ensures
        node_no_root(fields[k]),
    decreases fields.len(),
{
    if k < fields.len() - 1 {
        lemma_no_root_elem(fields.drop_last(), k);
    }
}

pub open spec fn node_no_root(t: SchemaNode) -> bool
    decreases t, 0nat,
{
    match t {
        SchemaNode::Object(_, v) => no_root(v),
        SchemaNode::Array(_, a) => shape_no_root(a),
        SchemaNode::Root(_) => false,
        _ => true,
    }
}

pub open spec fn shape_no_root(a: ElementShape) -> bool
    decreases a, 0nat,
{
    match a {
        ElementShape::Object(v) => no_root(v),
        ElementShape::Array(b) => shape_no_root(*b),
        _ => true,
    }
}

impl JsonTree {
    /// The field name of this node; the root has none.
    pub fn field_name(&self) -> (r: Option<&String>)
        ensures
            match r {
                Some(n) => node_name(self@) == Some(n@),
                None => node_name(self@) is None,
            },
    {
        match self {
            JsonTree::Int(n) => Some(n),
            JsonTree::Float(n) => Some(n),
            JsonTree::String(n) => Some(n),
            JsonTree::Bool(n) => Some(n),
            JsonTree::JsonObject(n, _) => Some(n),
            JsonTree::JsonArray(n, _) => Some(n),
            JsonTree::Root(_) => None,
        }
    }

    /// Whether two trees have the same model.
    pub fn same_as(&self, other: &JsonTree) -> (r: bool)
        ensures
            r == (self@ == other@),
        decreases self,
    {
        match (self, other) {
            (JsonTree::Int(a), JsonTree::Int(b)) => *a == *b,
            (JsonTree::Float(a), JsonTree::Float(b)) => *a == *b,
            (JsonTree::String(a), JsonTree::String(b)) => *a == *b,
            (JsonTree::Bool(a), JsonTree::Bool(b)) => *a == *b,
            (JsonTree::JsonObject(a, u), JsonTree::JsonObject(b, v)) => *a == *b && same_list(u, v),
            (JsonTree::JsonArray(a, x), JsonTree::JsonArray(b, y)) => *a == *b && x.same_as(y),
            (JsonTree::Root(u), JsonTree::Root(v)) => same_list(u, v),
            _ => false,
        }
    }
}

impl JsonArrayType {
    /// Whether two element shapes have the same model.
    pub fn same_as(&self, other: &JsonArrayType) -> (r: bool)
        ensures
            r == (self@ == other@),
        decreases self,
    {
        match (self, other) {
            (JsonArrayType::Int, JsonArrayType::Int) => true,
            (JsonArrayType::Float, JsonArrayType::Float) => true,
            (JsonArrayType::String, JsonArrayType::String) => true,
            (JsonArrayType::Bool, JsonArrayType::Bool) => true,
            (JsonArrayType::JsonObject(u), JsonArrayType::JsonObject(v)) => same_list(u, v),
            (JsonArrayType::JsonArray(x), JsonArrayType::JsonArray(y)) => {
                let r = (**x).same_as(&**y);
                proof {
                    if shape_view(**x) == shape_view(**y) {
                        assert(self@ == other@);
                    } else {
                        assert(self@ != other@) by {
                            if self@ == other@ {
                                assert(self@->Array_0 == other@->Array_0);
                            }
                        }
                    }
                }
                r
            },
            _ => false,
        }
    }
}

/// Whether two lists of trees have the same model.
pub fn same_list(u: &Vec<JsonTree>, v: &Vec<JsonTree>) -> (r: bool)
    ensures
        r == (trees_view(u@) == trees_view(v@)),
    decreases u,
{
    proof {
        lemma_trees_view(u@);
        lemma_trees_view(v@);
    }
    if u.len() != v.len() {
        return false;
    }
    let mut k: usize = 0;
    while k < u.len()
        invariant
            u@.len() == v@.len(),
            k <= u@.len(),
            trees_view(u@).len() == u@.len(),
            trees_view(v@).len() == v@.len(),
            forall|i: int| 0 <= i < u@.len() ==> #[trigger] trees_view(u@)[i] == tree_view(u@[i]),
            forall|i: int| 0 <= i < v@.len() ==> #[trigger] trees_view(v@)[i] == tree_view(v@[i]),
            forall|i: int| 0 <= i < k ==> tree_view(u@[i]) == tree_view(v@[i]),
        decreases u.len() - k,
    {
        if !u[k].same_as(&v[k]) {
            assert(trees_view(u@)[k as int] != trees_view(v@)[k as int]);
            return false;
        }
        k = k + 1;
    }
    assert(trees_view(u@) =~= trees_view(v@));
    true
}

/// Whether no `Root` node stands among `fields` or below them, as a
/// transformer requires of the fields it renders.
pub fn has_no_root(fields: &Vec<JsonTree>) -> (r: bool)
    ensures
        r == no_root(trees_view(fields@)),
    decreases fields,
{
    let mut k: usize = 0;
    assert(fields@.take(0) =~= Seq::<JsonTree>::empty());
    while k < fields.len()
        invariant
            k <= fields@.len(),
            no_root(trees_view(fields@.take(k as int))),
        decreases fields.len() - k,
    {
        let ok = fields[k].no_root_below();
        proof {
            assert(fields@.take(k + 1) =~= fields@.take(k as int).push(fields@[k as int]));
            lemma_trees_view_push(fields@.take(k as int), fields@[k as int]);
            let s = trees_view(fields@.take(k as int)).push(tree_view(fields@[k as int]));
            assert(s.drop_last() =~= trees_view(fields@.take(k as int)));
        }
        if !ok {
            proof {
                lemma_trees_view(fields@);
                lemma_trees_view(fields@.take(k + 1));
                assert(trees_view(fields@).take(k + 1) =~= trees_view(fields@.take(k + 1)));
                if no_root(trees_view(fields@)) {
                    lemma_no_root_prefix(trees_view(fields@), k + 1);
                }
            }
            return false;
        }
        k = k + 1;
    }
    assert(fields@.take(k as int) =~= fields@);
    true
}

/// A prefix of a root-free list is root-free.
proof fn lemma_no_root_prefix(fields: Seq<SchemaNode>, n: int)
    requires
        0 <= n <= fields.len(),
        no_root(fields),
    ensures
        no_root(fields.take(n)),
    decreases fields.len(),
{
    if n < fields.len() {
        lemma_no_root_prefix(fields.drop_last(), n);
        assert(fields.drop_last().take(n) =~= fields.take(n));
    } else {
        assert(fields.take(n) =~= fields);
    }
}

impl JsonTree {
    /// Whether this node is no `Root` and holds none.
    pub fn no_root_below(&self) -> (r: bool)
        ensures
            r == node_no_root(self@),
        decreases self,
    {
        match self {
            JsonTree::JsonObject(_, v) => has_no_root(v),
            JsonTree::JsonArray(_, a) => a.no_root_below(),
            JsonTree::Root(_) => false,
            _ => true,
        }
    }
}

impl JsonArrayType {
    /// Whether no `Root` node stands in this shape.
    pub fn no_root_below(&self) -> (r: bool)
        ensures
            r == shape_no_root(self@),
        decreases self,
    {
        match self {
            JsonArrayType::JsonObject(v) => has_no_root(v),
            JsonArrayType::JsonArray(b) => (**b).no_root_below(),
            _ => true,
        }
    }
}

/// Whether some field of `fields` is named `n`.
pub fn has_field_named(fields: &Vec<JsonTree>, n: &String) -> (r: bool)
    ensures
        r == has_named(trees_view(fields@), n@),
{
    proof {
        lemma_trees_view(fields@);
    }
    let mut k: usize = 0;
    while k < fields.len()
        invariant
            k <= fields@.len(),
            trees_view(fields@).len() == fields@.len(),
            forall|i: int| 0 <= i < fields@.len() ==> #[trigger] trees_view(fields@)[i] == tree_view(fields@[i]),
            forall|i: int| 0 <= i < k ==> node_name(tree_view(fields@[i])) != Some(n@),
        decreases fields.len() - k,
    {
        match fields[k].field_name() {
            Some(m) => {
                if *m == *n {
                    assert(node_name(trees_view(fields@)[k as int]) == Some(n@));
                    return true;
                }
            },
            None => {},
        }
        k = k + 1;
    }
    false
}

} // verus!
