//! Template-driven rendering of a schema tree into blocks of text lines.
use vstd::prelude::*;
use crate::case::{convert_case, converted};
use crate::config::{ConstructorConfig, TransformConfig};
use crate::text::{contains, push_all, replace, text_contains, text_replace};
use crate::tree::{
    ElementShape, JsonArrayType, JsonTree, SchemaNode, lemma_no_root_elem, lemma_trees_view, no_root, node_no_root,
    tree_view, trees_view,
};

verus! {

/// A template that lacks a placeholder it needs; each holds the template's text.
#[derive(Debug, PartialEq, Eq)]
pub enum TransformerError {
    /// `type_definition` lacks `{object_name}`.
    BadTypeDefinition(String),
    /// `field_definition` lacks `{field_name}`.
    BadFieldDefinitionName(String),
    /// `field_definition` lacks `{field_type}`.
    BadFieldDefinitionType(String),
    /// `name_change_annotation` lacks `{name}`.
    BadFieldRenameDefinition(String),
    /// `array_definition` lacks `{field_type}`.
    BadArrayTypeDefinition(String),
    /// The constructor's `definition` lacks `{object_name}`.
    BadConstructorDefinitionName(String),
    /// The constructor's `definition` lacks `{arguments}`.
    BadConstructorDefinitionArgument(String),
    /// The constructor's `argument_definition` lacks `{name}`.
    BadArgumentDefinitionName(String),
    /// The constructor's field template lacks `{name}`.
    BadConstructorFieldDefinition(String),
}

/// The first template of `c` that lacks a placeholder, or `None` when every
/// template is well formed. The checks run in this order: type definition,
/// field name, rename annotation (when there is one), field type, array
/// definition, then, when a constructor is configured, its name, its
/// arguments, its argument template and its field template (when there is
/// one).
pub open spec fn config_error(c: TransformConfig) -> Option<TransformerError> {
    if !contains(c.type_definition@, "{object_name}"@) {
        Some(TransformerError::BadTypeDefinition(c.type_definition))
    } else if !contains(c.field_definition@, "{field_name}"@) {
        Some(TransformerError::BadFieldDefinitionName(c.field_definition))
    } else if c.name_change_annotation is Some && !contains(c.name_change_annotation->0@, "{name}"@) {
        Some(TransformerError::BadFieldRenameDefinition(c.name_change_annotation->0))
    } else if !contains(c.field_definition@, "{field_type}"@) {
        Some(TransformerError::BadFieldDefinitionType(c.field_definition))
    } else if !contains(c.array_definition@, "{field_type}"@) {
        Some(TransformerError::BadArrayTypeDefinition(c.array_definition))
    } else if c.constructor is Some {
        let k = c.constructor->0;
        if !contains(k.definition@, "{object_name}"@) {
            Some(TransformerError::BadConstructorDefinitionName(k.definition))
        } else if !contains(k.definition@, "{arguments}"@) {
            Some(TransformerError::BadConstructorDefinitionArgument(k.definition))
        } else if !contains(k.argument_definition@, "{name}"@) {
            Some(TransformerError::BadArgumentDefinitionName(k.argument_definition))
        } else if k.field_definition is Some && !contains(k.field_definition->0.field_definition@, "{name}"@) {
            Some(TransformerError::BadConstructorFieldDefinition(k.field_definition->0.field_definition))
        } else {
            None
        }
    } else {
        None
    }
}

/// What a field contributes to its block: its rendered type, its name as in the
/// document, and its case-converted name.
pub struct FieldSpec {
    pub type_str: Seq<char>,
    pub source_name: Seq<char>,
    pub name: Seq<char>,
}

/// The descriptor of field `t` under configuration `c`.
pub open spec fn field_spec(t: SchemaNode, c: TransformConfig) -> FieldSpec {
    match t {
        SchemaNode::Int(n) => FieldSpec { type_str: c.int_type@, source_name: n, name: converted(n, c.case_type) },
        SchemaNode::Float(n) => FieldSpec { type_str: c.float_type@, source_name: n, name: converted(n, c.case_type) },
        SchemaNode::String(n) => FieldSpec { type_str: c.string_type@, source_name: n, name: converted(n, c.case_type) },
        SchemaNode::Bool(n) => FieldSpec { type_str: c.bool_type@, source_name: n, name: converted(n, c.case_type) },
        SchemaNode::Object(n, _) => FieldSpec {
            type_str: converted(n, c.object_case_type),
            source_name: n,
            name: converted(n, c.case_type),
        },
        SchemaNode::Array(n, a) => FieldSpec {
            type_str: match a {
                ElementShape::Object(_) => replace(c.array_definition@, "{field_type}"@, converted(n, c.object_case_type)),
                _ => replace(c.array_definition@, "{field_type}"@, converted(n, c.case_type)),
            },
            source_name: n,
            name: converted(n, c.case_type),
        },
        SchemaNode::Root(_) => FieldSpec { type_str: Seq::empty(), source_name: Seq::empty(), name: Seq::empty() },
    }
}

/// The descriptors of `kids`, in order.
pub open spec fn field_specs(kids: Seq<SchemaNode>, c: TransformConfig) -> Seq<FieldSpec> {
    kids.map_values(|t: SchemaNode| field_spec(t, c))
}

/// The lines of one field: the rename annotation when one is configured and the
/// name was changed, then the field line.
pub open spec fn lines_of_field(f: FieldSpec, c: TransformConfig) -> Seq<Seq<char>> {
    let field_line = replace(replace(c.field_definition@, "{field_name}"@, f.name), "{field_type}"@, f.type_str);
    if c.name_change_annotation is Some && f.name != f.source_name {
        seq![replace(c.name_change_annotation->0@, "{name}"@, f.source_name), field_line]
    } else {
        seq![field_line]
    }
}

pub open spec fn field_lines(fs: Seq<FieldSpec>, c: TransformConfig) -> Seq<Seq<char>>
    decreases fs.len(),
{
    if fs.len() == 0 {
        Seq::empty()
    } else {
        field_lines(fs.drop_last(), c) + lines_of_field(fs.last(), c)
    }
}

/// Argument `i` of the constructor, with the separator that follows it: after
/// every argument but the last, and after the last too when `separator_at_end`.
pub open spec fn argument(fs: Seq<FieldSpec>, i: int, k: ConstructorConfig) -> Seq<char> {
    let arg = replace(replace(k.argument_definition@, "{type}"@, fs[i].type_str), "{name}"@, fs[i].name);
    if i < fs.len() - 1 || k.separator_at_end {
        arg + k.separator@
    } else {
        arg
    }
}

/// The first `n` arguments, joined.
pub open spec fn arguments_upto(fs: Seq<FieldSpec>, n: int, k: ConstructorConfig) -> Seq<char>
    decreases n,
{
    if n <= 0 {
        Seq::empty()
    } else {
        arguments_upto(fs, n - 1, k) + argument(fs, n - 1, k)
    }
}

/// The constructor lines of a block named `block_name`, if a constructor is
/// configured.
pub open spec fn constructor_lines(fs: Seq<FieldSpec>, block_name: Seq<char>, c: TransformConfig) -> Seq<Seq<char>> {
    match c.constructor {
        None => Seq::empty(),
        Some(k) => {
            let head = replace(
                replace(k.definition@, "{object_name}"@, block_name),
                "{arguments}"@,
                arguments_upto(fs, fs.len() as int, k),
            );
            match k.field_definition {
                None => seq![head],
                Some(fd) => seq![head] + fs.map_values(|f: FieldSpec| replace(fd.field_definition@, "{name}"@, f.name))
                    + seq![fd.end@],
            }
        },
    }
}

/// The block of an object named `block_name` whose fields are described by `fs`.
pub open spec fn block_of(fs: Seq<FieldSpec>, block_name: Seq<char>, c: TransformConfig) -> Seq<Seq<char>> {
    seq![replace(c.type_definition@, "{object_name}"@, block_name)] + field_lines(fs, c) + constructor_lines(fs, block_name, c)
        + seq![c.block_end@]
}

/// The block of an object named `block_name` with fields `kids`.
pub open spec fn own_block(kids: Seq<SchemaNode>, block_name: Seq<char>, c: TransformConfig) -> Seq<Seq<char>> {
    block_of(field_specs(kids, c), block_name, c)
}

/// The blocks of the objects nested in the fields `kids`, innermost first.
pub open spec fn nested_blocks(kids: Seq<SchemaNode>, c: TransformConfig) -> Seq<Seq<Seq<char>>>
    decreases kids, 0nat,
{
    if kids.len() == 0 {
        Seq::empty()
    } else {
        nested_blocks(kids.drop_last(), c) + child_blocks(kids.last(), c)
    }
}

/// The blocks that field `t` gives rise to: those of an object, or of an array
/// whose elements are objects.
pub open spec fn child_blocks(t: SchemaNode, c: TransformConfig) -> Seq<Seq<Seq<char>>>
    decreases t, 1nat,
{
    match t {
        SchemaNode::Object(n, v) => object_blocks(v, converted(n, c.object_case_type), c),
        SchemaNode::Array(n, a) => match a {
            ElementShape::Object(v) => object_blocks(v, converted(n, c.object_case_type), c),
            _ => Seq::empty(),
        },
        _ => Seq::empty(),
    }
}

/// All the blocks of an object named `block_name` with fields `kids`: those of
/// its nested objects first, its own last.
pub open spec fn object_blocks(kids: Seq<SchemaNode>, block_name: Seq<char>, c: TransformConfig) -> Seq<Seq<Seq<char>>>
    decreases kids, 1nat,
{
    nested_blocks(kids, c).push(own_block(kids, block_name, c))
}

proof fn lemma_nested_blocks_hold_child(kids: Seq<SchemaNode>, i: int, c: TransformConfig)
    requires
        0 <= i < kids.len(),
    ensures
        exists|p: int|
            0 <= p && p + child_blocks(kids[i], c).len() <= nested_blocks(kids, c).len()
                && #[trigger] nested_blocks(kids, c).subrange(p, p + child_blocks(kids[i], c).len()) == child_blocks(
                kids[i],
                c,
            ),
    decreases kids.len(),
{
    let prev = kids.drop_last();
    let cb = child_blocks(kids[i], c);
    let nb = nested_blocks(kids, c);
    assert(nb == nested_blocks(prev, c) + child_blocks(kids.last(), c));
    if i < kids.len() - 1 {
        lemma_nested_blocks_hold_child(prev, i, c);
        assert(prev[i] == kids[i]);
        let p = choose|p: int|
            0 <= p && p + cb.len() <= nested_blocks(prev, c).len() && #[trigger] nested_blocks(prev, c).subrange(
                p,
                p + cb.len(),
            ) == cb;
        assert(nb.subrange(p, p + cb.len()) =~= cb);
    } else {
        let p = nested_blocks(prev, c).len() as int;
        assert(nb.subrange(p, p + cb.len()) =~= cb);
    }
}

/// The blocks of an object end with its own block, and every nested object
/// (a field that is an object, or an array of objects) has its own block
/// earlier in the list.
pub proof fn lemma_nested_blocks_come_first(kids: Seq<SchemaNode>, block_name: Seq<char>, c: TransformConfig)
    ensures
        object_blocks(kids, block_name, c).last() == own_block(kids, block_name, c),
        forall|i: int|
            0 <= i < kids.len() && #[trigger] kids[i] is Object ==> exists|p: int|
                0 <= p < object_blocks(kids, block_name, c).len() - 1 && object_blocks(kids, block_name, c)[p]
                    == own_block(kids[i]->Object_1, converted(kids[i]->Object_0, c.object_case_type), c),
        forall|i: int|
            0 <= i < kids.len() && #[trigger] kids[i] is Array && kids[i]->Array_1 is Object ==> exists|p: int|
                0 <= p < object_blocks(kids, block_name, c).len() - 1 && object_blocks(kids, block_name, c)[p]
                    == own_block(kids[i]->Array_1->Object_0, converted(kids[i]->Array_0, c.object_case_type), c),
{
    let all = object_blocks(kids, block_name, c);
    let nb = nested_blocks(kids, c);
    assert forall|i: int| 0 <= i < kids.len() && #[trigger] kids[i] is Object implies exists|p: int|
        0 <= p < all.len() - 1 && all[p] == own_block(kids[i]->Object_1, converted(kids[i]->Object_0, c.object_case_type), c) by {
        lemma_nested_blocks_hold_child(kids, i, c);
        let cb = child_blocks(kids[i], c);
        let p = choose|p: int| 0 <= p && p + cb.len() <= nb.len() && #[trigger] nb.subrange(p, p + cb.len()) == cb;
        let q = p + cb.len() - 1;
        assert(nb.subrange(p, p + cb.len())[cb.len() - 1] == cb.last());
        assert(all[q] == nb[q]);
    }
    assert forall|i: int| 0 <= i < kids.len() && #[trigger] kids[i] is Array && kids[i]->Array_1 is Object implies exists|p: int|
        0 <= p < all.len() - 1 && all[p] == own_block(kids[i]->Array_1->Object_0, converted(kids[i]->Array_0, c.object_case_type), c) by {
        lemma_nested_blocks_hold_child(kids, i, c);
        let cb = child_blocks(kids[i], c);
        let p = choose|p: int| 0 <= p && p + cb.len() <= nb.len() && #[trigger] nb.subrange(p, p + cb.len()) == cb;
        let q = p + cb.len() - 1;
        assert(nb.subrange(p, p + cb.len())[cb.len() - 1] == cb.last());
        assert(all[q] == nb[q]);
    }
}

pub open spec fn lines_view(v: Seq<String>) -> Seq<Seq<char>> {
    v.map_values(|l: String| l@)
}

pub open spec fn blocks_view(v: Seq<Vec<String>>) -> Seq<Seq<Seq<char>>> {
    v.map_values(|b: Vec<String>| lines_view(b@))
}

/// Exec counterpart of [`FieldSpec`].
struct FieldInfo {
    /// The field's name as in the document, for the rename annotation.
    source_name: String,
    /// The field's rendered type.
    type_str: String,
    /// The case-converted name.
    name: String,
}

impl View for FieldInfo {
    type V = FieldSpec;

    closed spec fn view(&self) -> FieldSpec {
        FieldSpec { type_str: self.type_str@, source_name: self.source_name@, name: self.name@ }
    }
}

spec fn infos_view(v: Seq<FieldInfo>) -> Seq<FieldSpec> {
    v.map_values(|f: FieldInfo| f@)
}

proof fn lemma_placeholders()
    ensures
        "{object_name}"@.len() > 0,
        "{field_name}"@.len() > 0,
        "{field_type}"@.len() > 0,
        "{name}"@.len() > 0,
        "{type}"@.len() > 0,
        "{arguments}"@.len() > 0,
{
    reveal_strlit("{object_name}");
    reveal_strlit("{field_name}");
    reveal_strlit("{field_type}");
    reveal_strlit("{name}");
    reveal_strlit("{type}");
    reveal_strlit("{arguments}");
}

/// The lines of the fields, one field after the other.
fn push_field_lines(config: &TransformConfig, fields: &Vec<FieldInfo>, object: &mut Vec<String>)
    ensures
        lines_view(final(object)@) == lines_view(old(object)@) + field_lines(infos_view(fields@), *config),
{
    proof {
        lemma_placeholders();
    }
    let ghost fs = infos_view(fields@);
    let ghost start = lines_view(object@);
    let mut j: usize = 0;
    assert(fs.take(0) =~= Seq::<FieldSpec>::empty());
    assert(start + Seq::<Seq<char>>::empty() =~= start);
    while j < fields.len()
        invariant
            fs == infos_view(fields@),
            j <= fields@.len(),
            lines_view(object@) == start + field_lines(fs.take(j as int), *config),
        decreases fields.len() - j,
    {
        proof {
            lemma_placeholders();
        }
        let f = &fields[j];
        let ghost before = lines_view(object@);
        match &config.name_change_annotation {
            Some(annotation) => {
                if f.name != f.source_name {
                    object.push(text_replace(annotation.as_str(), "{name}", f.source_name.as_str()));
                }
            },
            None => {},
        }
        let with_name = text_replace(config.field_definition.as_str(), "{field_name}", f.name.as_str());
        object.push(text_replace(with_name.as_str(), "{field_type}", f.type_str.as_str()));
        proof {
            assert(fs.take(j + 1).drop_last() =~= fs.take(j as int));
            assert(fs.take(j + 1).last() == f@);
            assert(lines_view(object@) =~= before + lines_of_field(f@, *config));
        }
        j = j + 1;
    }
    assert(fs.take(j as int) =~= fs);
}

/// The constructor's argument list.
fn arguments_text(k: &ConstructorConfig, fields: &Vec<FieldInfo>) -> (r: String)
    ensures
        r@ == arguments_upto(infos_view(fields@), fields@.len() as int, *k),
{
    proof {
        lemma_placeholders();
    }
    let ghost fs = infos_view(fields@);
    let mut args = String::new();
    let n = fields.len();
    let mut j: usize = 0;
    while j < n
        invariant
            fs == infos_view(fields@),
            n == fs.len(),
            j <= n,
            args@ == arguments_upto(fs, j as int, *k),
        decreases n - j,
    {
        proof {
            lemma_placeholders();
        }
        let f = &fields[j];
        let with_type = text_replace(k.argument_definition.as_str(), "{type}", f.type_str.as_str());
        let with_name = text_replace(with_type.as_str(), "{name}", f.name.as_str());
        push_all(&mut args, with_name.as_str());
        if j + 1 < n || k.separator_at_end {
            push_all(&mut args, k.separator.as_str());
        }
        assert(args@ =~= arguments_upto(fs, j as int, *k) + argument(fs, j as int, *k));
        j = j + 1;
    }
    args
}

/// The constructor lines, if a constructor is configured.
fn push_constructor_lines(
    config: &TransformConfig,
    fields: &Vec<FieldInfo>,
    name: &String,
    object: &mut Vec<String>,
)
    ensures
        lines_view(final(object)@) == lines_view(old(object)@) + constructor_lines(infos_view(fields@), name@, *config),
{
    proof {
        lemma_placeholders();
    }
    let ghost fs = infos_view(fields@);
    let ghost start = lines_view(object@);
    match &config.constructor {
        None => {
            assert(lines_view(object@) =~= start + Seq::<Seq<char>>::empty());
        },
        Some(k) => {
            let args = arguments_text(k, fields);
            let with_name = text_replace(k.definition.as_str(), "{object_name}", name.as_str());
            object.push(text_replace(with_name.as_str(), "{arguments}", args.as_str()));
            let ghost head = lines_view(object@);
            assert(head =~= start.push(object@.last()@));
            match &k.field_definition {
                None => {
                    assert(head =~= start + constructor_lines(fs, name@, *config));
                },
                Some(fd) => {
                    let ghost assign = fs.map_values(|f: FieldSpec| replace(fd.field_definition@, "{name}"@, f.name));
                    let mut j: usize = 0;
                    assert(head + assign.take(0) =~= head);
                    while j < fields.len()
                        invariant
                            fs == infos_view(fields@),
                            j <= fields@.len(),
                            assign == fs.map_values(|f: FieldSpec| replace(fd.field_definition@, "{name}"@, f.name)),
                            lines_view(object@) == head + assign.take(j as int),
                        decreases fields.len() - j,
                    {
                        proof {
                            lemma_placeholders();
                        }
                        let ghost before = object@;
                        object.push(text_replace(fd.field_definition.as_str(), "{name}", fields[j].name.as_str()));
                        assert(lines_view(object@) =~= lines_view(before).push(object@.last()@));
                        assert(assign.take(j + 1) =~= assign.take(j as int).push(assign[j as int]));
                        assert(lines_view(object@) =~= head + assign.take(j + 1));
                        j = j + 1;
                    }
                    let ghost before = object@;
                    object.push(fd.end.clone());
                    assert(lines_view(object@) =~= lines_view(before).push(fd.end@));
                    assert(assign.take(j as int) =~= assign);
                    assert(assign =~= fs.map_values(|f: FieldSpec| replace(k.field_definition->0.field_definition@, "{name}"@, f.name)));
                    assert(lines_view(object@) =~= start + constructor_lines(fs, name@, *config));
                },
            }
        },
    }
}

/// The block of an object named `name` whose fields are described by `fields`.
fn block_lines(config: &TransformConfig, fields: &Vec<FieldInfo>, name: &String) -> (r: Vec<String>)
    ensures
        lines_view(r@) == block_of(infos_view(fields@), name@, *config),
{
    proof {
        lemma_placeholders();
    }
    let mut object: Vec<String> = Vec::new();
    object.push(text_replace(config.type_definition.as_str(), "{object_name}", name.as_str()));
    assert(lines_view(object@) =~= seq![replace(config.type_definition@, "{object_name}"@, name@)]);
    push_field_lines(config, fields, &mut object);
    push_constructor_lines(config, fields, name, &mut object);
    let ghost before = object@;
    object.push(config.block_end.clone());
    assert(lines_view(object@) =~= lines_view(before).push(config.block_end@));
    assert(lines_view(object@) =~= block_of(infos_view(fields@), name@, *config));
    object
}

/// Renders a schema tree with a validated configuration.
pub struct Transformer {
    /// Name of the root object; "Root" when absent.
    name: Option<String>,
    config: TransformConfig,
    tree: Vec<JsonTree>,
}

impl Transformer {
    pub closed spec fn config(&self) -> TransformConfig {
        self.config
    }

    /// The fields of the root object.
    pub closed spec fn tree(&self) -> Seq<SchemaNode> {
        trees_view(self.tree@)
    }

    /// The name of the root block.
    pub closed spec fn root_name(&self) -> Seq<char> {
        match self.name {
            Some(n) => n@,
            None => "Root"@,
        }
    }

    /// Validates `config` and creates a transformer for the root fields `tree`,
    /// whose block is named `name` (or "Root").
    pub fn new(config: TransformConfig, tree: Vec<JsonTree>, name: Option<String>) -> (r: Result<Transformer, TransformerError>)
        ensures
            match r {
                Ok(t) => {
                    &&& config_error(config) is None
                    &&& t.config() == config
                    &&& t.tree() == trees_view(tree@)
                    &&& t.root_name() == match name {
                        Some(n) => n@,
                        None => "Root"@,
                    }
                },
                Err(e) => config_error(config) == Some(e),
            },
    {
        if !text_contains(config.type_definition.as_str(), "{object_name}") {
            return Err(TransformerError::BadTypeDefinition(config.type_definition));
        }
        if !text_contains(config.field_definition.as_str(), "{field_name}") {
            return Err(TransformerError::BadFieldDefinitionName(config.field_definition));
        }
        let bad_annotation = match &config.name_change_annotation {
            Some(annotation) => !text_contains(annotation.as_str(), "{name}"),
            None => false,
        };
        if bad_annotation {
            match config.name_change_annotation {
                Some(annotation) => {
                    return Err(TransformerError::BadFieldRenameDefinition(annotation));
                },
                None => {},
            }
        }
        if !text_contains(config.field_definition.as_str(), "{field_type}") {
            return Err(TransformerError::BadFieldDefinitionType(config.field_definition));
        }
        if !text_contains(config.array_definition.as_str(), "{field_type}") {
            return Err(TransformerError::BadArrayTypeDefinition(config.array_definition));
        }
        let constructor = match config.constructor {
            Some(k) => {
                if !text_contains(k.definition.as_str(), "{object_name}") {
                    return Err(TransformerError::BadConstructorDefinitionName(k.definition));
                }
                if !text_contains(k.definition.as_str(), "{arguments}") {
                    return Err(TransformerError::BadConstructorDefinitionArgument(k.definition));
                }
                if !text_contains(k.argument_definition.as_str(), "{name}") {
                    return Err(TransformerError::BadArgumentDefinitionName(k.argument_definition));
                }
                let field_definition = match k.field_definition {
                    Some(fd) => {
                        if !text_contains(fd.field_definition.as_str(), "{name}") {
                            return Err(TransformerError::BadConstructorFieldDefinition(fd.field_definition));
                        }
                        Some(fd)
                    },
                    None => None,
                };
                Some(ConstructorConfig { field_definition, ..k })
            },
            None => None,
        };
        let config = TransformConfig { constructor, ..config };
        Ok(Transformer { name, config, tree })
    }

    /// The descriptor of field `t`; an object (or an array of objects) has its
    /// blocks appended to `output` first.
    fn field_info(config: &TransformConfig, t: &JsonTree, output: &mut Vec<Vec<String>>) -> (r: FieldInfo)
        requires
            node_no_root(t@),
        ensures
            r@ == field_spec(t@, *config),
            blocks_view(final(output)@) == blocks_view(old(output)@) + child_blocks(t@, *config),
        decreases t, 0nat,
    {
        proof {
            lemma_placeholders();
        }
        let ghost start = blocks_view(output@);
        match t {
            JsonTree::Int(n) => {
                assert(blocks_view(output@) =~= start + child_blocks(t@, *config));
                FieldInfo { type_str: config.int_type.clone(), source_name: n.clone(), name: convert_case(n.as_str(), &config.case_type) }
            },
            JsonTree::Float(n) => {
                assert(blocks_view(output@) =~= start + child_blocks(t@, *config));
                FieldInfo { type_str: config.float_type.clone(), source_name: n.clone(), name: convert_case(n.as_str(), &config.case_type) }
            },
            JsonTree::String(n) => {
                assert(blocks_view(output@) =~= start + child_blocks(t@, *config));
                FieldInfo { type_str: config.string_type.clone(), source_name: n.clone(), name: convert_case(n.as_str(), &config.case_type) }
            },
            JsonTree::Bool(n) => {
                assert(blocks_view(output@) =~= start + child_blocks(t@, *config));
                FieldInfo { type_str: config.bool_type.clone(), source_name: n.clone(), name: convert_case(n.as_str(), &config.case_type) }
            },
            JsonTree::JsonObject(n, kids) => {
                let case_str = convert_case(n.as_str(), &config.case_type);
                let type_str = convert_case(n.as_str(), &config.object_case_type);
                Self::transform_object(config, kids, &type_str, output);
                FieldInfo { type_str, source_name: n.clone(), name: case_str }
            },
            JsonTree::JsonArray(n, a) => {
                let case_str = convert_case(n.as_str(), &config.case_type);
                let array_str = match a {
                    JsonArrayType::JsonObject(kids) => {
                        let type_str = convert_case(n.as_str(), &config.object_case_type);
                        Self::transform_object(config, kids, &type_str, output);
                        text_replace(config.array_definition.as_str(), "{field_type}", type_str.as_str())
                    },
                    _ => {
                        assert(blocks_view(output@) =~= start + child_blocks(t@, *config));
                        text_replace(config.array_definition.as_str(), "{field_type}", case_str.as_str())
                    },
                };
                FieldInfo { type_str: array_str, source_name: n.clone(), name: case_str }
            },
            JsonTree::Root(_) => {
                // `requires` rules this arm out.
                assert(false);
                FieldInfo { type_str: String::new(), source_name: String::new(), name: String::new() }
            },
        }
    }

    /// Appends to `output` the blocks of the object named `name` with fields
    /// `tree`: those of its nested objects first, its own last.
    fn transform_object(config: &TransformConfig, tree: &Vec<JsonTree>, name: &String, output: &mut Vec<Vec<String>>)
        requires
            no_root(trees_view(tree@)),
        ensures
            blocks_view(final(output)@) == blocks_view(old(output)@) + object_blocks(trees_view(tree@), name@, *config),
        decreases tree, 1nat,
    {
        let ghost kids = trees_view(tree@);
        let ghost start = blocks_view(output@);
        proof {
            lemma_trees_view(tree@);
        }
        let mut fields: Vec<FieldInfo> = Vec::new();
        let mut i: usize = 0;
        assert(kids.take(0) =~= Seq::<SchemaNode>::empty());
        assert(infos_view(fields@) =~= field_specs(kids.take(0), *config));
        assert(start + Seq::<Seq<Seq<char>>>::empty() =~= start);
        while i < tree.len()
            invariant
                kids == trees_view(tree@),
                kids.len() == tree@.len(),
                forall|j: int| 0 <= j < tree@.len() ==> #[trigger] kids[j] == tree_view(tree@[j]),
                no_root(kids),
                i <= tree@.len(),
                infos_view(fields@) == field_specs(kids.take(i as int), *config),
                blocks_view(output@) == start + nested_blocks(kids.take(i as int), *config),
            decreases tree.len() - i,
        {
            proof {
                lemma_no_root_elem(kids, i as int);
            }
            let ghost before = blocks_view(output@);
            let info = Self::field_info(config, &tree[i], output);
            let ghost fields_before = fields@;
            fields.push(info);
            proof {
                assert(kids.take(i + 1).drop_last() =~= kids.take(i as int));
                assert(kids.take(i + 1).last() == kids[i as int]);
                assert(infos_view(fields@) =~= infos_view(fields_before).push(info@));
                assert(field_specs(kids.take(i + 1), *config) =~= field_specs(kids.take(i as int), *config).push(
                    field_spec(kids[i as int], *config),
                ));
            }
            i = i + 1;
        }
        assert(kids.take(i as int) =~= kids);
        let block = block_lines(config, &fields, name);
        let ghost before = output@;
        output.push(block);
        assert(blocks_view(output@) =~= blocks_view(before).push(lines_view(block@)));
    }

    /// Renders the whole tree, consuming the transformer. Blocks come innermost
    /// first; the root block is last.
    pub fn start_transform(self) -> (r: Vec<Vec<String>>)
        requires
            no_root(self.tree()),
        ensures
            blocks_view(r@) == object_blocks(self.tree(), self.root_name(), self.config()),
    {
        let name = match self.name {
            Some(n) => n,
            None => "Root".to_owned(),
        };
        let mut output: Vec<Vec<String>> = Vec::new();
        Self::transform_object(&self.config, &self.tree, &name, &mut output);
        assert(blocks_view(Seq::<Vec<String>>::empty()) =~= Seq::<Seq<Seq<char>>>::empty());
        assert(Seq::<Seq<Seq<char>>>::empty() + object_blocks(self.tree(), self.root_name(), self.config()) =~= object_blocks(self.tree(), self.root_name(), self.config()));
        output
    }
}

} // verus!
