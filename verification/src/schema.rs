//! Schemas, their forms, and the conversion from and to the wire
//! representation.
use vstd::prelude::*;
use vstd::string::StringExecFns;
use crate::errors::{ErrorView, JddfError};
use crate::model::{
    entries_dangling, entries_found, first_some, has_key, FormView, SchemaView,
    SerdeDiscriminatorView, SerdeView,
};
use crate::wire;

verus! {

/// `serde_json::Value`: a JSON value that the library carries in the fields
/// that are no keywords, and never looks into.
#[verifier::external_type_specification]
#[verifier::external_body]
pub struct ExValue(serde_json::Value);

/// `Clone::clone` of `serde_json::Value`, which the crate derives: the copy
/// is the value.
pub assume_specification[ <serde_json::Value as Clone>::clone ](
    value: &serde_json::Value,
) -> (copy: serde_json::Value)
    ensures
        copy == *value,
;

/// The primitive kinds that the `type` keyword can ask for.
#[derive(Clone, Copy, Debug, PartialEq, Eq, Hash)]
pub enum Type {
    /// `true` or `false`.
    Boolean,
    /// Any number; meant to be held in single precision.
    Float32,
    /// Any number; meant to be held in double precision.
    Float64,
    /// An integer from -128 to 127.
    Int8,
    /// An integer from 0 to 255.
    Uint8,
    /// An integer from -32768 to 32767.
    Int16,
    /// An integer from 0 to 65535.
    Uint16,
    /// An integer from -2147483648 to 2147483647.
    Int32,
    /// An integer from 0 to 4294967295.
    Uint32,
    /// Any string.
    String,
    /// A string that holds an RFC 3339 timestamp.
    Timestamp,
}

/// A schema: a form, the definitions if it is a root, and the fields of its
/// wire representation that are no keywords.
#[derive(Debug, PartialEq)]
pub struct Schema {
    defs: Option<Vec<(String, Schema)>>,
    form: Box<Form>,
    extra: Vec<(String, serde_json::Value)>,
}

/// The forms a schema can take, each with its data.
#[derive(Debug, PartialEq)]
pub enum Form {
    /// Accepts anything.
    Empty,
    /// Stands for the definition of this name in the root schema.
    Ref(String),
    /// Accepts the values of one primitive kind.
    Type(Type),
    /// Accepts a string that is one of these.
    Enum(Vec<String>),
    /// Accepts an array whose elements all match the schema.
    Elements(Schema),
    /// Accepts an object by its properties. `has_required` records whether
    /// the wire representation had a `properties` field, so that an empty one
    /// can be told from none.
    Properties {
        required: Vec<(String, Schema)>,
        optional: Vec<(String, Schema)>,
        allow_additional: bool,
        has_required: bool,
    },
    /// Accepts an object whose values all match the schema.
    Values(Schema),
    /// Accepts an object whose tag property selects, by its value, the schema
    /// that the object must match.
    Discriminator(String, Vec<(String, Schema)>),
}

/// The wire representation of a schema: one optional field per keyword and
/// the remaining fields in `extra`. Nothing is checked here.
#[derive(Debug, PartialEq)]
pub struct Serde {
    pub defs: Option<Vec<(String, Serde)>>,
    pub additional_props: Option<bool>,
    pub rxf: Option<String>,
    pub typ: Option<String>,
    pub enm: Option<Vec<String>>,
    pub elems: Option<Box<Serde>>,
    pub props: Option<Vec<(String, Serde)>>,
    pub opt_props: Option<Vec<(String, Serde)>>,
    pub values: Option<Box<Serde>>,
    pub discriminator: Option<SerdeDiscriminator>,
    pub extra: Vec<(String, serde_json::Value)>,
}

/// The wire representation of a discriminator.
#[derive(Debug, PartialEq)]
pub struct SerdeDiscriminator {
    pub tag: String,
    pub mapping: Vec<(String, Serde)>,
}

/// The value of a list of strings.
pub open spec fn strings_view(v: Seq<String>) -> Seq<Seq<char>> {
    Seq::new(v.len(), |i: int| v[i]@)
}

/// The value of the fields that are no keywords.
pub open spec fn extra_view(v: Seq<(String, serde_json::Value)>) -> Seq<
    (Seq<char>, serde_json::Value),
> {
    Seq::new(v.len(), |i: int| (v[i].0@, v[i].1))
}

/// The value of a map from names to schemas.
pub open spec fn schemas_view(v: Seq<(String, Schema)>) -> Seq<(Seq<char>, SchemaView)>
    decreases v,
{
    Seq::new(
        v.len(),
        |i: int|
            if 0 <= i < v.len() {
                (v[i].0@, v[i].1.view())
            } else {
                arbitrary()
            },
    )
}

/// The value of a map from names to wire schemas.
pub open spec fn serdes_view(v: Seq<(String, Serde)>) -> Seq<(Seq<char>, SerdeView)>
    decreases v,
{
    Seq::new(
        v.len(),
        |i: int|
            if 0 <= i < v.len() {
                (v[i].0@, v[i].1.view())
            } else {
                arbitrary()
            },
    )
}

impl Form {
    pub open spec fn view(&self) -> FormView
        decreases *self,
    {
        match *self {
            Form::Empty => FormView::Empty,
            Form::Ref(name) => FormView::Ref(name@),
            Form::Type(t) => FormView::Type(t),
            Form::Enum(values) => FormView::Enum(strings_view(values@)),
            Form::Elements(sub) => FormView::Elements(Box::new(sub.view())),
            Form::Properties { required, optional, allow_additional, has_required } => {
                FormView::Properties {
                    required: schemas_view(required@),
                    optional: schemas_view(optional@),
                    allow_additional,
                    has_required,
                }
            },
            Form::Values(sub) => FormView::Values(Box::new(sub.view())),
            Form::Discriminator(tag, mapping) => FormView::Discriminator(
                tag@,
                schemas_view(mapping@),
            ),
        }
    }
}

impl Schema {
    pub closed spec fn view(&self) -> SchemaView
        decreases *self,
    {
        SchemaView {
            defs: match self.defs {
                Some(defs) => Some(schemas_view(defs@)),
                None => None,
            },
            form: self.form.view(),
            extra: extra_view(self.extra@),
        }
    }
}

impl SerdeDiscriminator {
    pub open spec fn view(&self) -> SerdeDiscriminatorView
        decreases *self,
    {
        SerdeDiscriminatorView { tag: self.tag@, mapping: serdes_view(self.mapping@) }
    }
}

impl Serde {
    pub open spec fn view(&self) -> SerdeView
        decreases *self,
    {
        SerdeView {
            defs: match self.defs {
                Some(m) => Some(serdes_view(m@)),
                None => None,
            },
            additional_props: self.additional_props,
            rxf: match self.rxf {
                Some(s) => Some(s@),
                None => None,
            },
            typ: match self.typ {
                Some(s) => Some(s@),
                None => None,
            },
            enm: match self.enm {
                Some(v) => Some(strings_view(v@)),
                None => None,
            },
            elems: match self.elems {
                Some(sub) => Some(Box::new(sub.view())),
                None => None,
            },
            props: match self.props {
                Some(m) => Some(serdes_view(m@)),
                None => None,
            },
            opt_props: match self.opt_props {
                Some(m) => Some(serdes_view(m@)),
                None => None,
            },
            values: match self.values {
                Some(sub) => Some(Box::new(sub.view())),
                None => None,
            },
            discriminator: match self.discriminator {
                Some(d) => Some(d.view()),
                None => None,
            },
            extra: extra_view(self.extra@),
        }
    }
}

/// The value of what building a schema returns.
pub open spec fn built_view(r: Result<Schema, JddfError>) -> Result<SchemaView, ErrorView> {
    match r {
        Ok(schema) => Ok(schema@),
        Err(e) => Err(e@),
    }
}

/// The value of what converting a wire map returns.
pub open spec fn built_entries_view(r: Result<Vec<(String, Schema)>, JddfError>) -> Result<
    Seq<(Seq<char>, SchemaView)>,
    ErrorView,
> {
    match r {
        Ok(entries) => Ok(schemas_view(entries@)),
        Err(e) => Err(e@),
    }
}

/// The value of an optional name.
pub open spec fn name_view(name: Option<&String>) -> Option<Seq<char>> {
    match name {
        Some(s) => Some(s@),
        None => None,
    }
}

/// Tells whether the string is this literal.
fn is_literal(s: &String, literal: &str) -> (b: bool)
    ensures
        b == (s@ == literal@),
{
    let other = String::from_str(literal);
    *s == other
}

/// Reads a name of the `type` keyword.
pub fn parse_type(name: &String) -> (t: Option<Type>)
    ensures
        t == wire::type_of_name(name@),
{
    if is_literal(name, "boolean") {
        Some(Type::Boolean)
    } else if is_literal(name, "float32") {
        Some(Type::Float32)
    } else if is_literal(name, "float64") {
        Some(Type::Float64)
    } else if is_literal(name, "int8") {
        Some(Type::Int8)
    } else if is_literal(name, "uint8") {
        Some(Type::Uint8)
    } else if is_literal(name, "int16") {
        Some(Type::Int16)
    } else if is_literal(name, "uint16") {
        Some(Type::Uint16)
    } else if is_literal(name, "int32") {
        Some(Type::Int32)
    } else if is_literal(name, "uint32") {
        Some(Type::Uint32)
    } else if is_literal(name, "string") {
        Some(Type::String)
    } else if is_literal(name, "timestamp") {
        Some(Type::Timestamp)
    } else {
        None
    }
}

/// The name under which the `type` keyword knows a type.
pub fn name_of(t: Type) -> (name: String)
    ensures
        name@ == wire::name_of_type(t),
{
    match t {
        Type::Boolean => String::from_str("boolean"),
        Type::Float32 => String::from_str("float32"),
        Type::Float64 => String::from_str("float64"),
        Type::Int8 => String::from_str("int8"),
        Type::Uint8 => String::from_str("uint8"),
        Type::Int16 => String::from_str("int16"),
        Type::Uint16 => String::from_str("uint16"),
        Type::Int32 => String::from_str("int32"),
        Type::Uint32 => String::from_str("uint32"),
        Type::String => String::from_str("string"),
        Type::Timestamp => String::from_str("timestamp"),
    }
}

/// Tells whether the string is among the first `n` of the list.
fn among_first(values: &Vec<String>, n: usize, s: &String) -> (b: bool)
    requires
        n <= values.len(),
    ensures
        b == strings_view(values@).take(n as int).contains(s@),
{
    let mut i: usize = 0;
    while i < n
        invariant
            i <= n <= values.len(),
            forall|j: int| 0 <= j < i ==> values@[j]@ != s@,
        decreases n - i,
    {
        if values[i] == *s {
            assert(strings_view(values@).take(n as int)[i as int] == s@);
            return true;
        }
        i += 1;
    }
    false
}

/// Tells whether the string is in the list.
pub fn includes(values: &Vec<String>, s: &String) -> (b: bool)
    ensures
        b == strings_view(values@).contains(s@),
{
    assert(strings_view(values@).take(values.len() as int) =~= strings_view(values@));
    among_first(values, values.len(), s)
}

/// Tells whether no string occurs twice in the list.
fn all_distinct(values: &Vec<String>) -> (b: bool)
    ensures
        b == strings_view(values@).no_duplicates(),
{
    let ghost view = strings_view(values@);
    let mut i: usize = 0;
    while i < values.len()
        invariant
            i <= values.len(),
            view == strings_view(values@),
            forall|j: int, k: int| 0 <= j < k < i ==> view[j] != view[k],
        decreases values.len() - i,
    {
        if among_first(values, i, &values[i]) {
            proof {
                let j = choose|j: int| 0 <= j < i && view.take(i as int)[j] == view[i as int];
                assert(view.take(i as int)[j] == view[j]);
                assert(view[j] == view[i as int] && j != i);
            }
            return false;
        }
        proof {
            assert forall|j: int, k: int| 0 <= j < k < i + 1 implies view[j] != view[k] by {
                if k == i {
                    assert(view.take(i as int)[j] == view[j]);
                }
            }
        }
        i += 1;
    }
    true
}

/// Tells whether the map has an entry for the name.
pub fn contains_key(entries: &Vec<(String, Schema)>, name: &String) -> (b: bool)
    ensures
        b == has_key(schemas_view(entries@), name@),
{
    let mut i: usize = 0;
    while i < entries.len()
        invariant
            i <= entries.len(),
            forall|j: int| 0 <= j < i ==> (#[trigger] schemas_view(entries@)[j]).0 != name@,
        decreases entries.len() - i,
    {
        if entries[i].0 == *name {
            assert(schemas_view(entries@)[i as int].0 == name@);
            return true;
        }
        i += 1;
    }
    false
}

/// Converts a wire map entry by entry and stops at the first entry that is
/// refused: one whose name is in `reserved`, one whose name came before, one
/// whose schema is refused, or, with a tag, one that cannot be a branch of a
/// discriminator with that tag.
fn convert_entries(
    entries: Vec<(String, Serde)>,
    reserved: &Vec<(String, Schema)>,
    tag: Option<&String>,
) -> (r: Result<Vec<(String, Schema)>, JddfError>)
    ensures
        built_entries_view(r) == wire::convert_entries(
            serdes_view(entries@),
            schemas_view(reserved@),
            name_view(tag),
        ),
    decreases entries,
{
    let ghost src = entries@;
    let ghost es = serdes_view(src);
    let ghost rv = schemas_view(reserved@);
    let ghost tv = name_view(tag);
    let ghost results = wire::entry_results(es, rv, tv);
    let mut out: Vec<(String, Schema)> = Vec::new();
    for entry in it: entries.into_iter()
        invariant
            it.seq() == src,
            src == entries@,
            es == serdes_view(src),
            rv == schemas_view(reserved@),
            tv == name_view(tag),
            results == wire::entry_results(es, rv, tv),
            out@.len() == it.index(),
            forall|j: int|
                0 <= j < it.index() ==> (#[trigger] results[j]) == Ok::<
                    (Seq<char>, SchemaView),
                    ErrorView,
                >(schemas_view(out@)[j]),
            forall|j: int|
                0 <= j < it.index() ==> (#[trigger] schemas_view(out@)[j]).0 == es[j].0,
    {
        let ghost i = it.index();
        let (name, sub) = entry;
        assert(es[i] == (name@, sub@));
        assert(results[i] == wire::convert_entry(es, rv, tv, i));
        proof {
            // The names converted so far are those of the first `i` entries.
            if has_key(schemas_view(out@), name@) {
                let j = choose|j: int|
                    0 <= j < out@.len() && (#[trigger] schemas_view(out@)[j]).0 == name@;
                assert(es.take(i)[j].0 == name@);
            }
            if has_key(es.take(i), name@) {
                let j = choose|j: int| 0 <= j < i && (#[trigger] es.take(i)[j]).0 == name@;
                assert(schemas_view(out@)[j].0 == name@);
            }
        }
        if contains_key(reserved, &name) {
            assert(wire::first_err(results, i));
            return Err(JddfError::AmbiguousProperty { property: name });
        }
        if contains_key(&out, &name) {
            assert(wire::first_err(results, i));
            return Err(JddfError::InvalidForm);
        }
        let schema = match Schema::_from_serde(sub, false) {
            Ok(schema) => schema,
            Err(e) => {
                assert(wire::first_err(results, i));
                return Err(e);
            },
        };
        if let Some(tag) = tag {
            match schema.form() {
                Form::Properties { required, optional, .. } => {
                    if contains_key(required, tag) || contains_key(optional, tag) {
                        assert(wire::first_err(results, i));
                        return Err(JddfError::AmbiguousProperty { property: tag.clone() });
                    }
                },
                _ => {
                    assert(wire::first_err(results, i));
                    return Err(JddfError::InvalidForm);
                },
            }
        }
        assert(results[i] == Ok::<(Seq<char>, SchemaView), ErrorView>((name@, schema@)));
        let ghost before = schemas_view(out@);
        out.push((name, schema));
        assert forall|j: int| 0 <= j < i + 1 implies (#[trigger] schemas_view(out@)[j]).0
            == es[j].0 by {
            if j < i {
                assert(schemas_view(out@)[j] == before[j]);
            }
        }
        assert forall|j: int| 0 <= j < i + 1 implies (#[trigger] results[j]) == Ok::<
            (Seq<char>, SchemaView),
            ErrorView,
        >(schemas_view(out@)[j]) by {
            if j < i {
                assert(schemas_view(out@)[j] == before[j]);
            }
        }
    }
    proof {
        assert forall|i: int| !wire::first_err(results, i) by {
            if 0 <= i < results.len() {
                assert(results[i] is Ok);
            }
        }
        assert(schemas_view(out@) =~= wire::collect(results)->Ok_0);
    }
    Ok(out)
}

impl Schema {
    /// Converts a wire schema, as a root or as a schema below one, without
    /// looking at what its references name.
    fn _from_serde(serde: Serde, is_root: bool) -> (r: Result<Schema, JddfError>)
        ensures
            built_view(r) == wire::convert(serde@, is_root),
        decreases serde,
    {
        let ghost w = serde@;
        let Serde {
            defs,
            additional_props,
            rxf,
            typ,
            enm,
            elems,
            props,
            opt_props,
            values,
            discriminator,
            extra,
        } = serde;
        let none: Vec<(String, Schema)> = Vec::new();
        assert(schemas_view(none@) =~= Seq::empty());
        let defs = if is_root {
            match defs {
                Some(defs) => match convert_entries(defs, &none, None) {
                    Ok(defs) => Some(defs),
                    Err(e) => {
                        return Err(e);
                    },
                },
                None => Some(Vec::new()),
            }
        } else {
            if defs.is_some() {
                return Err(JddfError::NonRootDefinitions);
            }
            None
        };
        assert(is_root ==> schemas_view(defs->0@) =~= (if w.defs is Some {
            wire::convert_entries(w.defs->0, Seq::empty(), None)->Ok_0
        } else {
            Seq::empty()
        }));
        let mut form = Form::Empty;
        let mut decided = false;
        if let Some(rxf) = rxf {
            form = Form::Ref(rxf);
            decided = true;
        }
        if let Some(typ) = typ {
            if decided {
                return Err(JddfError::InvalidForm);
            }
            match parse_type(&typ) {
                Some(t) => {
                    form = Form::Type(t);
                },
                None => {
                    return Err(JddfError::InvalidForm);
                },
            }
            decided = true;
        }
        assert(if decided {
            wire::convert_form(w) == wire::sole(Ok(form@), w.any_from_enum())
        } else {
            w.rxf is None && w.typ is None
        });
        if let Some(enm) = enm {
            if decided {
                return Err(JddfError::InvalidForm);
            }
            if enm.len() == 0 || !all_distinct(&enm) {
                return Err(JddfError::InvalidForm);
            }
            form = Form::Enum(enm);
            decided = true;
        }
        assert(if decided {
            wire::convert_form(w) == wire::sole(Ok(form@), w.any_from_elements())
        } else {
            w.rxf is None && w.typ is None && w.enm is None
        });
        if let Some(elements) = elems {
            if decided {
                return Err(JddfError::InvalidForm);
            }
            match Schema::_from_serde(*elements, false) {
                Ok(sub) => {
                    form = Form::Elements(sub);
                },
                Err(e) => {
                    return Err(e);
                },
            }
            decided = true;
        }
        assert(if decided {
            wire::convert_form(w) == wire::sole(Ok(form@), w.any_from_properties())
        } else {
            w.rxf is None && w.typ is None && w.enm is None && w.elems is None
        });
        if props.is_some() || opt_props.is_some() {
            if decided {
                return Err(JddfError::InvalidForm);
            }
            let allow_additional = match additional_props {
                Some(allow) => allow,
                None => false,
            };
            let has_required = props.is_some();
            let required = match props {
                Some(props) => match convert_entries(props, &none, None) {
                    Ok(required) => required,
                    Err(e) => {
                        assert(wire::convert_properties(w) == Err::<FormView, ErrorView>(e@));
                        return Err(e);
                    },
                },
                None => Vec::new(),
            };
            let optional = match opt_props {
                Some(opt_props) => match convert_entries(opt_props, &required, None) {
                    Ok(optional) => optional,
                    Err(e) => {
                        assert(wire::convert_properties(w) == Err::<FormView, ErrorView>(e@));
                        return Err(e);
                    },
                },
                None => Vec::new(),
            };
            form = Form::Properties { required, optional, allow_additional, has_required };
            assert(wire::convert_properties(w)->Ok_0.arrow_Properties_required() =~= schemas_view(
                required@,
            ));
            assert(wire::convert_properties(w)->Ok_0.arrow_Properties_optional() =~= schemas_view(
                optional@,
            ));
            assert(wire::convert_properties(w) == Ok::<FormView, ErrorView>(form@));
            decided = true;
        }
        assert(if decided {
            wire::convert_form(w) == wire::sole(Ok(form@), w.any_from_values())
        } else {
            w.rxf is None && w.typ is None && w.enm is None && w.elems is None
                && !w.has_properties()
        });
        if let Some(values) = values {
            if decided {
                return Err(JddfError::InvalidForm);
            }
            match Schema::_from_serde(*values, false) {
                Ok(sub) => {
                    form = Form::Values(sub);
                },
                Err(e) => {
                    return Err(e);
                },
            }
            decided = true;
        }
        assert(if decided {
            wire::convert_form(w) == wire::sole(Ok(form@), w.discriminator is Some)
        } else {
            w.rxf is None && w.typ is None && w.enm is None && w.elems is None
                && !w.has_properties() && w.values is None
        });
        if let Some(discriminator) = discriminator {
            if decided {
                return Err(JddfError::InvalidForm);
            }
            assert(w.discriminator == Some(discriminator@));
            let SerdeDiscriminator { tag, mapping } = discriminator;
            assert(w.discriminator->0.tag == tag@);
            assert(w.discriminator->0.mapping == serdes_view(mapping@));
            match convert_entries(mapping, &none, Some(&tag)) {
                Ok(mapping) => {
                    form = Form::Discriminator(tag, mapping);
                },
                Err(e) => {
                    assert(wire::convert_form(w) == Err::<FormView, ErrorView>(e@));
                    return Err(e);
                },
            }
        }
        assert(wire::convert_form(w) == Ok::<FormView, ErrorView>(form@));
        Ok(Schema { defs, form: Box::new(form), extra })
    }
}

/// The value of what a search for a dangling reference returns.
pub open spec fn dangling_view(r: Result<(), JddfError>) -> Option<Seq<char>> {
    match r {
        Ok(()) => None,
        Err(JddfError::NoSuchDefinition { definition }) => Some(definition@),
        Err(_) => None,
    }
}

/// Looks through the schemas of a map, in order, for a reference that names
/// no entry of `defs`.
fn check_entries_refs(defs: &Vec<(String, Schema)>, entries: &Vec<(String, Schema)>) -> (r:
    Result<(), JddfError>)
    ensures
        r is Err ==> r->Err_0 is NoSuchDefinition,
        dangling_view(r) == entries_dangling(schemas_view(entries@), schemas_view(defs@)),
    decreases entries,
{
    let ghost es = schemas_view(entries@);
    let ghost dv = schemas_view(defs@);
    let ghost found = entries_found(es, dv);
    let mut i: usize = 0;
    while i < entries.len()
        invariant
            i <= entries.len(),
            es == schemas_view(entries@),
            dv == schemas_view(defs@),
            found == entries_found(es, dv),
            forall|j: int| 0 <= j < i ==> (#[trigger] found[j]) is None,
        decreases entries.len() - i,
    {
        assert(es[i as int].1 == entries@[i as int].1@);
        match Schema::check_refs(defs, &entries[i].1) {
            Ok(()) => {},
            Err(e) => {
                assert(first_some(found, i as int));
                return Err(e);
            },
        }
        i += 1;
    }
    assert forall|k: int| !first_some(found, k) by {
        if 0 <= k < found.len() {
            assert(found[k] is None);
        }
    }
    Ok(())
}

impl Schema {
    /// Looks through a schema for a reference that names no entry of `defs`,
    /// and reports the first one.
    fn check_refs(defs: &Vec<(String, Schema)>, schema: &Schema) -> (r: Result<(), JddfError>)
        ensures
            r is Err ==> r->Err_0 is NoSuchDefinition,
            dangling_view(r) == schema@.form.dangling(schemas_view(defs@)),
        decreases schema,
    {
        match &*schema.form {
            Form::Ref(name) => {
                if !contains_key(defs, name) {
                    return Err(JddfError::NoSuchDefinition { definition: name.clone() });
                }
            },
            Form::Elements(sub) => {
                return Schema::check_refs(defs, sub);
            },
            Form::Properties { required, optional, .. } => {
                match check_entries_refs(defs, required) {
                    Ok(()) => {},
                    Err(e) => {
                        return Err(e);
                    },
                }
                return check_entries_refs(defs, optional);
            },
            Form::Values(sub) => {
                return Schema::check_refs(defs, sub);
            },
            Form::Discriminator(_, mapping) => {
                return check_entries_refs(defs, mapping);
            },
            _ => {},
        }
        Ok(())
    }

    /// Builds a root schema from its wire representation, with every check
    /// made: the result is the schema that the wire describes, or the first
    /// fault that was found in it.
    pub fn from_serde(serde_schema: Serde) -> (r: Result<Schema, JddfError>)
        ensures
            built_view(r) == wire::from_wire(serde_schema@),
            r matches Ok(schema) ==> schema@.well_formed(),
    {
        proof {
            if wire::from_wire(serde_schema@) is Ok {
                crate::laws::lemma_from_wire_well_formed(serde_schema@);
            }
        }
        let schema = match Schema::_from_serde(serde_schema, true) {
            Ok(schema) => schema,
            Err(e) => {
                return Err(e);
            },
        };
        match &schema.defs {
            Some(defs) => {
                match Schema::check_refs(defs, &schema) {
                    Ok(()) => {},
                    Err(e) => {
                        return Err(e);
                    },
                }
                match check_entries_refs(defs, defs) {
                    Ok(()) => {},
                    Err(e) => {
                        return Err(e);
                    },
                }
            },
            None => {
                assert(false);
            },
        }
        Ok(schema)
    }
}

/// A copy of a list of strings.
fn clone_strings(values: &Vec<String>) -> (copy: Vec<String>)
    ensures
        strings_view(copy@) == strings_view(values@),
{
    let mut copy: Vec<String> = Vec::new();
    let mut i: usize = 0;
    while i < values.len()
        invariant
            i <= values.len(),
            copy@.len() == i,
            forall|j: int| 0 <= j < i ==> (#[trigger] copy@[j])@ == values@[j]@,
        decreases values.len() - i,
    {
        copy.push(values[i].clone());
        i += 1;
    }
    assert(strings_view(copy@) =~= strings_view(values@));
    copy
}

/// A copy of the fields that are no keywords.
fn clone_extra(extra: &Vec<(String, serde_json::Value)>) -> (copy: Vec<
    (String, serde_json::Value),
>)
    ensures
        extra_view(copy@) == extra_view(extra@),
{
    let mut copy: Vec<(String, serde_json::Value)> = Vec::new();
    let mut i: usize = 0;
    while i < extra.len()
        invariant
            i <= extra.len(),
            copy@.len() == i,
            forall|j: int|
                0 <= j < i ==> (#[trigger] copy@[j]).0@ == extra@[j].0@ && copy@[j].1
                    == extra@[j].1,
        decreases extra.len() - i,
    {
        copy.push((extra[i].0.clone(), extra[i].1.clone()));
        i += 1;
    }
    assert(extra_view(copy@) =~= extra_view(extra@));
    copy
}

/// A copy of a map of schemas.
fn clone_schemas(entries: &Vec<(String, Schema)>) -> (copy: Vec<(String, Schema)>)
    ensures
        schemas_view(copy@) == schemas_view(entries@),
    decreases entries,
{
    let mut copy: Vec<(String, Schema)> = Vec::new();
    let mut i: usize = 0;
    while i < entries.len()
        invariant
            i <= entries.len(),
            copy@.len() == i,
            forall|j: int|
                0 <= j < i ==> (#[trigger] copy@[j]).0@ == entries@[j].0@ && copy@[j].1@
                    == entries@[j].1@,
        decreases entries.len() - i,
    {
        copy.push((entries[i].0.clone(), clone_schema(&entries[i].1)));
        i += 1;
    }
    assert(schemas_view(copy@) =~= schemas_view(entries@));
    copy
}

/// A copy of a form.
fn clone_form(form: &Form) -> (copy: Form)
    ensures
        copy@ == form@,
    decreases form,
{
    match form {
        Form::Empty => Form::Empty,
        Form::Ref(name) => Form::Ref(name.clone()),
        Form::Type(t) => Form::Type(*t),
        Form::Enum(values) => Form::Enum(clone_strings(values)),
        Form::Elements(sub) => Form::Elements(clone_schema(sub)),
        Form::Properties { required, optional, allow_additional, has_required } => {
            Form::Properties {
                required: clone_schemas(required),
                optional: clone_schemas(optional),
                allow_additional: *allow_additional,
                has_required: *has_required,
            }
        },
        Form::Values(sub) => Form::Values(clone_schema(sub)),
        Form::Discriminator(tag, mapping) => Form::Discriminator(
            tag.clone(),
            clone_schemas(mapping),
        ),
    }
}

/// A copy of a schema.
fn clone_schema(schema: &Schema) -> (copy: Schema)
    ensures
        copy@ == schema@,
    decreases schema,
{
    Schema {
        defs: match &schema.defs {
            Some(defs) => Some(clone_schemas(defs)),
            None => None,
        },
        form: Box::new(clone_form(&*schema.form)),
        extra: clone_extra(&schema.extra),
    }
}

impl Clone for Schema {
    fn clone(&self) -> (copy: Schema)
        ensures
            copy@ == self@,
    {
        clone_schema(self)
    }
}

impl Clone for Form {
    fn clone(&self) -> (copy: Form)
        ensures
            copy@ == self@,
    {
        clone_form(self)
    }
}

/// A copy of a wire map.
fn clone_serdes(entries: &Vec<(String, Serde)>) -> (copy: Vec<(String, Serde)>)
    ensures
        serdes_view(copy@) == serdes_view(entries@),
    decreases entries,
{
    let mut copy: Vec<(String, Serde)> = Vec::new();
    let mut i: usize = 0;
    while i < entries.len()
        invariant
            i <= entries.len(),
            copy@.len() == i,
            forall|j: int|
                0 <= j < i ==> (#[trigger] copy@[j]).0@ == entries@[j].0@ && copy@[j].1@
                    == entries@[j].1@,
        decreases entries.len() - i,
    {
        copy.push((entries[i].0.clone(), clone_serde(&entries[i].1)));
        i += 1;
    }
    assert(serdes_view(copy@) =~= serdes_view(entries@));
    copy
}

/// A copy of a wire schema.
fn clone_serde(serde: &Serde) -> (copy: Serde)
    ensures
        copy@ == serde@,
    decreases serde,
{
    let discriminator = match &serde.discriminator {
        Some(discriminator) => {
            let copy = SerdeDiscriminator {
                tag: discriminator.tag.clone(),
                mapping: clone_serdes(&discriminator.mapping),
            };
            assert(copy@ == discriminator@);
            Some(copy)
        },
        None => None,
    };
    Serde {
        defs: match &serde.defs {
            Some(defs) => Some(clone_serdes(defs)),
            None => None,
        },
        additional_props: serde.additional_props,
        rxf: match &serde.rxf {
            Some(rxf) => Some(rxf.clone()),
            None => None,
        },
        typ: match &serde.typ {
            Some(typ) => Some(typ.clone()),
            None => None,
        },
        enm: match &serde.enm {
            Some(enm) => Some(clone_strings(enm)),
            None => None,
        },
        elems: match &serde.elems {
            Some(elems) => Some(Box::new(clone_serde(&**elems))),
            None => None,
        },
        props: match &serde.props {
            Some(props) => Some(clone_serdes(props)),
            None => None,
        },
        opt_props: match &serde.opt_props {
            Some(opt_props) => Some(clone_serdes(opt_props)),
            None => None,
        },
        values: match &serde.values {
            Some(values) => Some(Box::new(clone_serde(&**values))),
            None => None,
        },
        discriminator,
        extra: clone_extra(&serde.extra),
    }
}

impl Clone for Serde {
    fn clone(&self) -> (copy: Serde)
        ensures
            copy@ == self@,
    {
        clone_serde(self)
    }
}

impl Clone for SerdeDiscriminator {
    fn clone(&self) -> (copy: SerdeDiscriminator)
        ensures
            copy@ == self@,
    {
        SerdeDiscriminator { tag: self.tag.clone(), mapping: clone_serdes(&self.mapping) }
    }
}

impl Default for Serde {
    /// A wire schema with no keyword and no other field.
    fn default() -> (serde: Serde)
        ensures
            serde@ == wire::blank(),
    {
        let serde = Serde {
            defs: None,
            additional_props: None,
            rxf: None,
            typ: None,
            enm: None,
            elems: None,
            props: None,
            opt_props: None,
            values: None,
            discriminator: None,
            extra: Vec::new(),
        };
        assert(serde@.extra =~= Seq::empty());
        serde
    }
}

impl Default for SerdeDiscriminator {
    /// A discriminator with an empty tag and no branch.
    fn default() -> (d: SerdeDiscriminator)
        ensures
            d@.tag == Seq::<char>::empty(),
            d@.mapping == Seq::<(Seq<char>, SerdeView)>::empty(),
    {
        let d = SerdeDiscriminator { tag: String::new(), mapping: Vec::new() };
        assert(d@.mapping =~= Seq::empty());
        d
    }
}

/// Converts a map of schemas to the wire, entry by entry.
fn entries_into_serde(entries: Vec<(String, Schema)>) -> (out: Vec<(String, Serde)>)
    ensures
        serdes_view(out@) == wire::entries_to_wire(schemas_view(entries@)),
    decreases entries,
{
    let ghost src = entries@;
    let ghost es = schemas_view(src);
    let mut out: Vec<(String, Serde)> = Vec::new();
    for entry in it: entries.into_iter()
        invariant
            it.seq() == src,
            src == entries@,
            es == schemas_view(src),
            out@.len() == it.index(),
            forall|j: int|
                0 <= j < it.index() ==> (#[trigger] serdes_view(out@)[j]) == (
                    es[j].0,
                    wire::to_wire(es[j].1),
                ),
    {
        let ghost i = it.index();
        let ghost before = serdes_view(out@);
        let (name, schema) = entry;
        assert(es[i] == (name@, schema@));
        let serde = schema.into_serde();
        out.push((name, serde));
        assert forall|j: int| 0 <= j < i + 1 implies (#[trigger] serdes_view(out@)[j]) == (
            es[j].0,
            wire::to_wire(es[j].1),
        ) by {
            if j < i {
                assert(serdes_view(out@)[j] == before[j]);
            }
        }
    }
    assert(serdes_view(out@) =~= wire::entries_to_wire(es));
    out
}

impl Schema {
    /// Converts the schema to its wire representation.
    pub fn into_serde(self) -> (serde: Serde)
        ensures
            serde@ == wire::to_wire(self@),
        decreases self,
    {
        let Schema { defs, form, extra } = self;
        let mut out = Serde {
            defs: None,
            additional_props: None,
            rxf: None,
            typ: None,
            enm: None,
            elems: None,
            props: None,
            opt_props: None,
            values: None,
            discriminator: None,
            extra,
        };
        if let Some(defs) = defs {
            out.defs = Some(entries_into_serde(defs));
        }
        match *form {
            Form::Empty => {},
            Form::Ref(name) => {
                out.rxf = Some(name);
            },
            Form::Type(t) => {
                out.typ = Some(name_of(t));
            },
            Form::Enum(values) => {
                out.enm = Some(values);
            },
            Form::Elements(sub) => {
                out.elems = Some(Box::new(sub.into_serde()));
            },
            Form::Properties { required, optional, allow_additional, has_required } => {
                if has_required || required.len() > 0 {
                    out.props = Some(entries_into_serde(required));
                }
                assert(schemas_view(optional@).len() == optional.len());
                if !has_required || optional.len() > 0 {
                    out.opt_props = Some(entries_into_serde(optional));
                }
                if allow_additional {
                    out.additional_props = Some(true);
                }
            },
            Form::Values(sub) => {
                out.values = Some(Box::new(sub.into_serde()));
            },
            Form::Discriminator(tag, mapping) => {
                let discriminator = SerdeDiscriminator {
                    tag,
                    mapping: entries_into_serde(mapping),
                };
                assert(discriminator@.mapping == wire::entries_to_wire(schemas_view(mapping@)));
                out.discriminator = Some(discriminator);
            },
        }
        out
    }
}

impl Schema {
    /// Puts a schema together from its parts. Nothing is checked: whether
    /// the result is well formed is for the caller to know. A root schema has
    /// definitions, if need be none, and no other schema has any.
    pub fn from_parts(
        defs: Option<Vec<(String, Schema)>>,
        form: Box<Form>,
        extra: Vec<(String, serde_json::Value)>,
    ) -> (schema: Schema)
        ensures
            schema@ == (SchemaView {
                defs: match defs {
                    Some(defs) => Some(schemas_view(defs@)),
                    None => None,
                },
                form: form@,
                extra: extra_view(extra@),
            }),
    {
        Schema { defs, form, extra }
    }

    /// Tells whether a validation run can rely on the schema: whether it is a
    /// root and each reference in it and in its definitions names one of its
    /// definitions.
    pub fn is_closed(&self) -> (closed: bool)
        ensures
            closed == self@.closed(),
    {
        match &self.defs {
            Some(defs) => {
                proof {
                    crate::laws::lemma_dangling(self@.form, schemas_view(defs@));
                    crate::laws::lemma_entries_dangling(
                        schemas_view(defs@),
                        schemas_view(defs@),
                    );
                }
                match Schema::check_refs(defs, self) {
                    Ok(()) => {},
                    Err(_) => {
                        return false;
                    },
                }
                match check_entries_refs(defs, defs) {
                    Ok(()) => true,
                    Err(_) => false,
                }
            },
            None => false,
        }
    }

    /// Tells whether the schema is a root: whether it has definitions.
    pub fn is_root(&self) -> (root: bool)
        ensures
            root == self@.defs is Some,
    {
        self.defs.is_some()
    }

    /// The definitions of the schema; a schema that is no root has none.
    pub fn definitions(&self) -> (defs: &Option<Vec<(String, Schema)>>)
        ensures
            defs is Some == self@.defs is Some,
            defs matches Some(d) ==> self@.defs == Some(schemas_view(d@)),
    {
        &self.defs
    }

    /// The form of the schema.
    pub fn form(&self) -> (form: &Form)
        ensures
            form@ == self@.form,
    {
        &*self.form
    }

    /// The fields of the wire representation that are no keywords.
    pub fn extra(&self) -> (extra: &Vec<(String, serde_json::Value)>)
        ensures
            extra_view(extra@) == self@.extra,
    {
        &self.extra
    }
}

} // verus!
