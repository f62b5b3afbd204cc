//! What a validation run finds, stated over the model.
use vstd::prelude::*;
use crate::errors::ErrorView;
use crate::json::JsonView;
use crate::model::{has_key, lookup, position, FormView, SchemaView};
use crate::schema::Type;
use crate::timestamp::is_rfc3339;

verus! {

/// One step of a path: the key of a member, or the position of an element.
pub enum TokenView {
    Key(Seq<char>),
    Index(nat),
}

/// The value of a validation error: where in the instance, and by which part
/// of the schema.
pub struct ValidationErrorView {
    pub instance_path: Seq<TokenView>,
    pub schema_path: Seq<TokenView>,
}

/// What evaluating a schema on an instance finds: the errors in the order in
/// which they are met, up to where the references went too deep, if they
/// did; and the greatest number of references, one inside the other, that
/// were followed on the way.
pub struct Findings {
    pub errors: Seq<ValidationErrorView>,
    pub overflow: bool,
    pub deepest: nat,
}

/// No error.
pub open spec fn nothing() -> Findings {
    Findings { errors: Seq::empty(), overflow: false, deepest: 0 }
}

/// One error.
pub open spec fn one(instance_path: Seq<TokenView>, schema_path: Seq<TokenView>) -> Findings {
    Findings {
        errors: seq![ValidationErrorView { instance_path, schema_path }],
        overflow: false,
        deepest: 0,
    }
}

/// The references went too deep before any error.
pub open spec fn too_deep() -> Findings {
    Findings { errors: Seq::empty(), overflow: true, deepest: 0 }
}

/// What was found inside `depth` references.
pub open spec fn inside(found: Findings, depth: nat) -> Findings {
    Findings {
        deepest: if found.deepest > depth {
            found.deepest
        } else {
            depth
        },
        ..found
    }
}

/// One evaluation after another: the second is not reached where the first
/// went too deep.
pub open spec fn then(a: Findings, b: Findings) -> Findings {
    if a.overflow {
        a
    } else {
        Findings {
            errors: a.errors + b.errors,
            overflow: b.overflow,
            deepest: if a.deepest > b.deepest {
                a.deepest
            } else {
                b.deepest
            },
        }
    }
}

/// The evaluations of a sequence, one after another.
pub open spec fn join(parts: Seq<Findings>) -> Findings
    decreases parts.len(),
{
    if parts.len() == 0 {
        nothing()
    } else {
        then(join(parts.drop_last()), parts.last())
    }
}

/// The token for a keyword of the schema language.
pub open spec fn keyword(word: &str) -> TokenView {
    TokenView::Key(word@)
}

/// The least and the greatest value of an integer type.
pub open spec fn integer_range(t: Type) -> (int, int) {
    match t {
        Type::Int8 => (-128, 127),
        Type::Uint8 => (0, 255),
        Type::Int16 => (-32768, 32767),
        Type::Uint16 => (0, 65535),
        Type::Int32 => (-2147483648, 2147483647),
        _ => (0, 4294967295),
    }
}

/// The instance is a value of the primitive type: a boolean; any number for
/// the float types; a number that is an integer of the range for the integer
/// types; a string; a string that is an RFC 3339 timestamp.
pub open spec fn type_matches(t: Type, instance: JsonView) -> bool {
    match t {
        Type::Boolean => instance is Bool,
        Type::Float32 | Type::Float64 => instance is Number,
        Type::String => instance is String,
        Type::Timestamp => instance matches JsonView::String(s) && is_rfc3339(s),
        _ => instance matches JsonView::Number(n) && n.integer_in(
            integer_range(t).0,
            integer_range(t).1,
        ),
    }
}

/// One error for each member of the instance, in order, that is neither a
/// required nor an optional property nor the tag above.
pub open spec fn additional_parts(
    required: Seq<(Seq<char>, SchemaView)>,
    optional: Seq<(Seq<char>, SchemaView)>,
    members: Seq<(Seq<char>, JsonView)>,
    parent_tag: Option<Seq<char>>,
    instance_path: Seq<TokenView>,
    schema_path: Seq<TokenView>,
) -> Seq<Findings> {
    Seq::new(
        members.len(),
        |i: int|
            if parent_tag != Some(members[i].0) && !has_key(required, members[i].0) && !has_key(
                optional,
                members[i].0,
            ) {
                one(instance_path.push(TokenView::Key(members[i].0)), schema_path)
            } else {
                nothing()
            },
    )
}

/// The evaluation of the schema on each element of an array, the position of
/// the element added to the instance path.
pub open spec fn elements_parts(
    defs: Seq<(Seq<char>, SchemaView)>,
    max_depth: nat,
    sub: SchemaView,
    items: Seq<JsonView>,
    instance_path: Seq<TokenView>,
    schema_path: Seq<TokenView>,
    depth: nat,
) -> Seq<Findings>
    decreases max_depth - depth, sub, 1int,
{
    Seq::new(
        items.len(),
        |i: int|
            eval(
                defs,
                max_depth,
                sub,
                items[i],
                None,
                instance_path.push(TokenView::Index(i as nat)),
                schema_path,
                depth,
            ),
    )
}

/// The evaluation of the schema on the value of each member of an object,
/// the key of the member added to the instance path.
pub open spec fn values_parts(
    defs: Seq<(Seq<char>, SchemaView)>,
    max_depth: nat,
    sub: SchemaView,
    members: Seq<(Seq<char>, JsonView)>,
    instance_path: Seq<TokenView>,
    schema_path: Seq<TokenView>,
    depth: nat,
) -> Seq<Findings>
    decreases max_depth - depth, sub, 1int,
{
    Seq::new(
        members.len(),
        |i: int|
            eval(
                defs,
                max_depth,
                sub,
                members[i].1,
                None,
                instance_path.push(TokenView::Key(members[i].0)),
                schema_path,
                depth,
            ),
    )
}

/// For each property of the map, in order: the evaluation of its schema on
/// the member of that name, the name added to both paths; where the object
/// has no such member, one error under that schema path if `required`, and
/// nothing otherwise.
pub open spec fn properties_parts(
    defs: Seq<(Seq<char>, SchemaView)>,
    max_depth: nat,
    properties: Seq<(Seq<char>, SchemaView)>,
    required: bool,
    members: Seq<(Seq<char>, JsonView)>,
    instance_path: Seq<TokenView>,
    schema_path: Seq<TokenView>,
    depth: nat,
) -> Seq<Findings>
    decreases max_depth - depth, properties, 1int,
{
    Seq::new(
        properties.len(),
        |i: int|
            if 0 <= i < properties.len() {
                match lookup(members, properties[i].0) {
                    Some(value) => eval(
                        defs,
                        max_depth,
                        properties[i].1,
                        value,
                        None,
                        instance_path.push(TokenView::Key(properties[i].0)),
                        schema_path.push(TokenView::Key(properties[i].0)),
                        depth,
                    ),
                    None => if required {
                        one(instance_path, schema_path.push(TokenView::Key(properties[i].0)))
                    } else {
                        nothing()
                    },
                }
            } else {
                nothing()
            },
    )
}

/// What evaluating the schema on the instance finds. `defs` are the
/// definitions of the root, `depth` counts the references that were followed
/// to get here, and the paths are those of the instance and of the schema.
/// `parent_tag` is the tag of the discriminator that chose this schema, if
/// one did.
///
/// A reference is followed only while fewer than `max_depth` were; it adds
/// nothing to either path. An error names the keyword that was not met:
/// `type`, `enum`, `elements`, `values`, `discriminator`; for an instance
/// that is no object, `properties`, or `optionalProperties` where the schema
/// was written without `properties`; a missing required property its own
/// place under `properties`; a member that is not allowed, the schema
/// itself. An object without the tag is reported under `discriminator`; a
/// tag that is no string likewise, but at the tag; a tag that names no
/// branch at the tag, under `discriminator/mapping`. The branch that a tag
/// names is evaluated on the whole object under
/// `discriminator/mapping/<tag value>`, and there the tag is no member that
/// is not allowed.
pub open spec fn eval(
    defs: Seq<(Seq<char>, SchemaView)>,
    max_depth: nat,
    schema: SchemaView,
    instance: JsonView,
    parent_tag: Option<Seq<char>>,
    instance_path: Seq<TokenView>,
    schema_path: Seq<TokenView>,
    depth: nat,
) -> Findings
    decreases max_depth - depth, schema, 0int,
{
    match schema.form {
        FormView::Empty => nothing(),
        FormView::Ref(name) => if depth >= max_depth {
            too_deep()
        } else {
            match lookup(defs, name) {
                Some(target) => inside(
                    eval(
                        defs,
                        max_depth,
                        target,
                        instance,
                        None,
                        instance_path,
                        schema_path,
                        depth + 1,
                    ),
                    depth + 1,
                ),
                None => nothing(),
            }
        },
        FormView::Type(t) => if type_matches(t, instance) {
            nothing()
        } else {
            one(instance_path, schema_path.push(keyword("type")))
        },
        FormView::Enum(values) => if instance matches JsonView::String(s) && values.contains(s) {
            nothing()
        } else {
            one(instance_path, schema_path.push(keyword("enum")))
        },
        FormView::Elements(sub) => match instance {
            JsonView::Array(items) => join(
                elements_parts(
                    defs,
                    max_depth,
                    *sub,
                    items,
                    instance_path,
                    schema_path.push(keyword("elements")),
                    depth,
                ),
            ),
            _ => one(instance_path, schema_path.push(keyword("elements"))),
        },
        FormView::Properties { required, optional, allow_additional, has_required } => match instance {
            JsonView::Object(members) => then(
                join(
                    properties_parts(
                        defs,
                        max_depth,
                        required,
                        true,
                        members,
                        instance_path,
                        schema_path.push(keyword("properties")),
                        depth,
                    ),
                ),
                then(
                    join(
                        properties_parts(
                            defs,
                            max_depth,
                            optional,
                            false,
                            members,
                            instance_path,
                            schema_path.push(keyword("optionalProperties")),
                            depth,
                        ),
                    ),
                    if allow_additional {
                        nothing()
                    } else {
                        join(
                            additional_parts(
                                required,
                                optional,
                                members,
                                parent_tag,
                                instance_path,
                                schema_path,
                            ),
                        )
                    },
                ),
            ),
            _ => one(
                instance_path,
                schema_path.push(
                    if has_required {
                        keyword("properties")
                    } else {
                        keyword("optionalProperties")
                    },
                ),
            ),
        },
        FormView::Values(sub) => match instance {
            JsonView::Object(members) => join(
                values_parts(
                    defs,
                    max_depth,
                    *sub,
                    members,
                    instance_path,
                    schema_path.push(keyword("values")),
                    depth,
                ),
            ),
            _ => one(instance_path, schema_path.push(keyword("values"))),
        },
        FormView::Discriminator(tag, mapping) => match instance {
            JsonView::Object(members) => match lookup(members, tag) {
                None => one(instance_path, schema_path.push(keyword("discriminator"))),
                Some(JsonView::String(value)) => match position(mapping, value) {
                    None => one(
                        instance_path.push(TokenView::Key(tag)),
                        schema_path.push(keyword("discriminator")).push(keyword("mapping")),
                    ),
                    Some(i) => eval(
                        defs,
                        max_depth,
                        mapping[i].1,
                        instance,
                        Some(tag),
                        instance_path,
                        schema_path.push(keyword("discriminator")).push(keyword("mapping")).push(
                            TokenView::Key(value),
                        ),
                        depth,
                    ),
                },
                Some(_) => one(
                    instance_path.push(TokenView::Key(tag)),
                    schema_path.push(keyword("discriminator")),
                ),
            },
            _ => one(instance_path, schema_path.push(keyword("discriminator"))),
        },
    }
}

/// What a validation run returns. The schema is evaluated on the instance
/// from empty paths. With a limit on the errors (`max_errors` above 0) the
/// run ends as soon as that many are found and returns them. Otherwise it
/// fails where the references went too deep, and else returns every error.
pub open spec fn validation(
    root: SchemaView,
    instance: JsonView,
    max_depth: nat,
    max_errors: nat,
) -> Result<Seq<ValidationErrorView>, ErrorView> {
    let found = eval(
        root.defs->0,
        max_depth,
        root,
        instance,
        None,
        Seq::empty(),
        Seq::empty(),
        0,
    );
    if max_errors > 0 && found.errors.len() >= max_errors {
        Ok(found.errors.take(max_errors as int))
    } else if found.overflow {
        Err(ErrorView::MaxDepthExceeded)
    } else {
        Ok(found.errors)
    }
}

/// Evaluations that each stay within a depth stay within it together.
pub proof fn lemma_join_depth(parts: Seq<Findings>, bound: nat)
    requires
        forall|i: int| 0 <= i < parts.len() ==> (#[trigger] parts[i]).deepest <= bound,
    ensures
        join(parts).deepest <= bound,
    decreases parts.len(),
{
    if parts.len() > 0 {
        lemma_join_depth(parts.drop_last(), bound);
    }
}

/// An evaluation never follows more than `max_depth` references, one inside
/// the other.
pub proof fn lemma_eval_depth(
    defs: Seq<(Seq<char>, SchemaView)>,
    max_depth: nat,
    schema: SchemaView,
    instance: JsonView,
    parent_tag: Option<Seq<char>>,
    instance_path: Seq<TokenView>,
    schema_path: Seq<TokenView>,
    depth: nat,
)
    requires
        depth <= max_depth,
    ensures
        eval(
            defs,
            max_depth,
            schema,
            instance,
            parent_tag,
            instance_path,
            schema_path,
            depth,
        ).deepest <= max_depth,
    decreases max_depth - depth, schema, 0int,
{
    match schema.form {
        FormView::Ref(name) => {
            if depth < max_depth && lookup(defs, name) is Some {
                lemma_eval_depth(
                    defs,
                    max_depth,
                    lookup(defs, name)->0,
                    instance,
                    None,
                    instance_path,
                    schema_path,
                    depth + 1,
                );
            }
        },
        FormView::Elements(sub) => {
            if let JsonView::Array(items) = instance {
                let path = schema_path.push(keyword("elements"));
                let parts = elements_parts(
                    defs,
                    max_depth,
                    *sub,
                    items,
                    instance_path,
                    path,
                    depth,
                );
                assert forall|i: int| 0 <= i < parts.len() implies (#[trigger] parts[i]).deepest
                    <= max_depth by {
                    lemma_eval_depth(
                        defs,
                        max_depth,
                        *sub,
                        items[i],
                        None,
                        instance_path.push(TokenView::Index(i as nat)),
                        path,
                        depth,
                    );
                }
                lemma_join_depth(parts, max_depth);
            }
        },
        FormView::Properties { required, optional, allow_additional, .. } => {
            if let JsonView::Object(members) = instance {
                lemma_properties_depth(
                    defs,
                    max_depth,
                    required,
                    true,
                    members,
                    instance_path,
                    schema_path.push(keyword("properties")),
                    depth,
                );
                lemma_properties_depth(
                    defs,
                    max_depth,
                    optional,
                    false,
                    members,
                    instance_path,
                    schema_path.push(keyword("optionalProperties")),
                    depth,
                );
                lemma_join_depth(
                    additional_parts(
                        required,
                        optional,
                        members,
                        parent_tag,
                        instance_path,
                        schema_path,
                    ),
                    max_depth,
                );
            }
        },
        FormView::Values(sub) => {
            if let JsonView::Object(members) = instance {
                let path = schema_path.push(keyword("values"));
                let parts = values_parts(
                    defs,
                    max_depth,
                    *sub,
                    members,
                    instance_path,
                    path,
                    depth,
                );
                assert forall|i: int| 0 <= i < parts.len() implies (#[trigger] parts[i]).deepest
                    <= max_depth by {
                    lemma_eval_depth(
                        defs,
                        max_depth,
                        *sub,
                        members[i].1,
                        None,
                        instance_path.push(TokenView::Key(members[i].0)),
                        path,
                        depth,
                    );
                }
                lemma_join_depth(parts, max_depth);
            }
        },
        FormView::Discriminator(tag, mapping) => {
            if let JsonView::Object(members) = instance {
                if let Some(JsonView::String(value)) = lookup(members, tag) {
                    if let Some(i) = position(mapping, value) {
                        lemma_eval_depth(
                            defs,
                            max_depth,
                            mapping[i].1,
                            instance,
                            Some(tag),
                            instance_path,
                            schema_path.push(keyword("discriminator")).push(
                                keyword("mapping"),
                            ).push(TokenView::Key(value)),
                            depth,
                        );
                    }
                }
            }
        },
        _ => {},
    }
}

/// The evaluation of the properties of a map never follows more than
/// `max_depth` references, one inside the other.
pub proof fn lemma_properties_depth(
    defs: Seq<(Seq<char>, SchemaView)>,
    max_depth: nat,
    properties: Seq<(Seq<char>, SchemaView)>,
    required: bool,
    members: Seq<(Seq<char>, JsonView)>,
    instance_path: Seq<TokenView>,
    schema_path: Seq<TokenView>,
    depth: nat,
)
    requires
        depth <= max_depth,
    ensures
        join(
            properties_parts(
                defs,
                max_depth,
                properties,
                required,
                members,
                instance_path,
                schema_path,
                depth,
            ),
        ).deepest <= max_depth,
    decreases max_depth - depth, properties, 1int,
{
    let parts = properties_parts(
        defs,
        max_depth,
        properties,
        required,
        members,
        instance_path,
        schema_path,
        depth,
    );
    assert forall|i: int| 0 <= i < parts.len() implies (#[trigger] parts[i]).deepest
        <= max_depth by {
        if let Some(value) = lookup(members, properties[i].0) {
            lemma_eval_depth(
                defs,
                max_depth,
                properties[i].1,
                value,
                None,
                instance_path.push(TokenView::Key(properties[i].0)),
                schema_path.push(TokenView::Key(properties[i].0)),
                depth,
            );
        }
    }
    lemma_join_depth(parts, max_depth);
}

} // verus!
