//! What the conversions between the wire representation and a schema
//! compute, stated over the model.
use vstd::prelude::*;
use crate::errors::ErrorView;
use crate::model::{has_key, FormView, SchemaView, SerdeDiscriminatorView, SerdeView};
use crate::schema::Type;

verus! {

/// The type that a name of the `type` keyword stands for.
pub open spec fn type_of_name(name: Seq<char>) -> Option<Type> {
    if name == "boolean"@ {
        Some(Type::Boolean)
    } else if name == "float32"@ {
        Some(Type::Float32)
    } else if name == "float64"@ {
        Some(Type::Float64)
    } else if name == "int8"@ {
        Some(Type::Int8)
    } else if name == "uint8"@ {
        Some(Type::Uint8)
    } else if name == "int16"@ {
        Some(Type::Int16)
    } else if name == "uint16"@ {
        Some(Type::Uint16)
    } else if name == "int32"@ {
        Some(Type::Int32)
    } else if name == "uint32"@ {
        Some(Type::Uint32)
    } else if name == "string"@ {
        Some(Type::String)
    } else if name == "timestamp"@ {
        Some(Type::Timestamp)
    } else {
        None
    }
}

/// The name under which the `type` keyword knows a type.
pub open spec fn name_of_type(t: Type) -> Seq<char> {
    match t {
        Type::Boolean => "boolean"@,
        Type::Float32 => "float32"@,
        Type::Float64 => "float64"@,
        Type::Int8 => "int8"@,
        Type::Uint8 => "uint8"@,
        Type::Int16 => "int16"@,
        Type::Uint16 => "uint16"@,
        Type::Int32 => "int32"@,
        Type::Uint32 => "uint32"@,
        Type::String => "string"@,
        Type::Timestamp => "timestamp"@,
    }
}

/// The error, if any, that keeps a converted schema from being the branch of
/// a discriminator with this tag. Without a tag there is none.
pub open spec fn branch_error(form: FormView, tag: Option<Seq<char>>) -> Option<ErrorView> {
    match tag {
        None => None,
        Some(t) => match form {
            FormView::Properties { required, optional, .. } => if has_key(required, t) || has_key(
                optional,
                t,
            ) {
                Some(ErrorView::AmbiguousProperty { property: t })
            } else {
                None
            },
            _ => Some(ErrorView::InvalidForm),
        },
    }
}

/// The result of the first form keyword, unless another keyword follows it.
pub open spec fn sole(first: Result<FormView, ErrorView>, more: bool) -> Result<
    FormView,
    ErrorView,
> {
    match first {
        Err(e) => Err(e),
        Ok(form) => if more {
            Err(ErrorView::InvalidForm)
        } else {
            Ok(form)
        },
    }
}

impl SerdeView {
    /// The wire schema uses the properties form.
    pub open spec fn has_properties(self) -> bool {
        self.props is Some || self.opt_props is Some
    }

    /// A form keyword from `enum` onwards is present.
    pub open spec fn any_from_enum(self) -> bool {
        self.enm is Some || self.any_from_elements()
    }

    /// A form keyword from `elements` onwards is present.
    pub open spec fn any_from_elements(self) -> bool {
        self.elems is Some || self.any_from_properties()
    }

    /// A form keyword from `properties` onwards is present.
    pub open spec fn any_from_properties(self) -> bool {
        self.has_properties() || self.any_from_values()
    }

    /// A form keyword from `values` onwards is present.
    pub open spec fn any_from_values(self) -> bool {
        self.values is Some || self.discriminator is Some
    }
}

/// Position `i` holds the first error of the sequence.
pub open spec fn first_err<T>(results: Seq<Result<T, ErrorView>>, i: int) -> bool {
    &&& 0 <= i < results.len()
    &&& results[i] is Err
    &&& forall|j: int| 0 <= j < i ==> (#[trigger] results[j]) is Ok
}

/// The first error of the sequence, or else what its results hold, in order.
pub open spec fn collect<T>(results: Seq<Result<T, ErrorView>>) -> Result<Seq<T>, ErrorView> {
    if exists|i: int| first_err(results, i) {
        Err(results[choose|i: int| first_err(results, i)]->Err_0)
    } else {
        Ok(Seq::new(results.len(), |i: int| results[i]->Ok_0))
    }
}

/// What becomes of entry `i` of a wire map. The entry is refused where its
/// name is taken in `reserved` (ambiguous property), where an earlier entry
/// has its name (invalid form), where its schema is refused, and where `tag`
/// is given and the schema cannot be a branch for it. Otherwise it keeps its
/// name and holds the converted schema.
pub open spec fn convert_entry(
    es: Seq<(Seq<char>, SerdeView)>,
    reserved: Seq<(Seq<char>, SchemaView)>,
    tag: Option<Seq<char>>,
    i: int,
) -> Result<(Seq<char>, SchemaView), ErrorView>
    decreases es, 0int,
{
    if 0 <= i < es.len() {
        if has_key(reserved, es[i].0) {
            Err(ErrorView::AmbiguousProperty { property: es[i].0 })
        } else if has_key(es.take(i), es[i].0) {
            Err(ErrorView::InvalidForm)
        } else {
            match convert(es[i].1, false) {
                Err(e) => Err(e),
                Ok(s) => match branch_error(s.form, tag) {
                    Some(e) => Err(e),
                    None => Ok((es[i].0, s)),
                },
            }
        }
    } else {
        Err(ErrorView::InvalidForm)
    }
}

/// What becomes of each entry of a wire map.
pub open spec fn entry_results(
    es: Seq<(Seq<char>, SerdeView)>,
    reserved: Seq<(Seq<char>, SchemaView)>,
    tag: Option<Seq<char>>,
) -> Seq<Result<(Seq<char>, SchemaView), ErrorView>>
    decreases es, 1int,
{
    Seq::new(es.len(), |i: int| convert_entry(es, reserved, tag, i))
}

/// A wire map, entry by entry: the error of the first entry that is refused,
/// or else the converted schemas under the same names in the same order.
pub open spec fn convert_entries(
    es: Seq<(Seq<char>, SerdeView)>,
    reserved: Seq<(Seq<char>, SchemaView)>,
    tag: Option<Seq<char>>,
) -> Result<Seq<(Seq<char>, SchemaView)>, ErrorView>
    decreases es, 2int,
{
    collect(entry_results(es, reserved, tag))
}

/// The form of a wire schema. The keywords are taken in the order `ref`,
/// `type`, `enum`, `elements`, `properties` with `optionalProperties`,
/// `values`, `discriminator`. The first one present decides; where it is
/// accepted and a later one is present too, the form is invalid. With no
/// keyword the form is empty.
pub open spec fn convert_form(w: SerdeView) -> Result<FormView, ErrorView>
    decreases w, 4int,
{
    if w.rxf is Some {
        sole(Ok(FormView::Ref(w.rxf->0)), w.typ is Some || w.any_from_enum())
    } else if w.typ is Some {
        sole(
            match type_of_name(w.typ->0) {
                Some(t) => Ok(FormView::Type(t)),
                None => Err(ErrorView::InvalidForm),
            },
            w.any_from_enum(),
        )
    } else if w.enm is Some {
        sole(
            if w.enm->0.len() > 0 && w.enm->0.no_duplicates() {
                Ok(FormView::Enum(w.enm->0))
            } else {
                Err(ErrorView::InvalidForm)
            },
            w.any_from_elements(),
        )
    } else if w.elems is Some {
        sole(
            match convert(*w.elems->0, false) {
                Ok(sub) => Ok(FormView::Elements(Box::new(sub))),
                Err(e) => Err(e),
            },
            w.any_from_properties(),
        )
    } else if w.has_properties() {
        sole(convert_properties(w), w.any_from_values())
    } else if w.values is Some {
        sole(
            match convert(*w.values->0, false) {
                Ok(sub) => Ok(FormView::Values(Box::new(sub))),
                Err(e) => Err(e),
            },
            w.discriminator is Some,
        )
    } else if w.discriminator is Some {
        match convert_entries(
            w.discriminator->0.mapping,
            Seq::empty(),
            Some(w.discriminator->0.tag),
        ) {
            Ok(mapping) => Ok(FormView::Discriminator(w.discriminator->0.tag, mapping)),
            Err(e) => Err(e),
        }
    } else {
        Ok(FormView::Empty)
    }
}

/// The properties form of a wire schema: the required properties first, then
/// the optional ones, none of which may be required as well. Additional
/// properties are allowed only where the wire says `true`.
pub open spec fn convert_properties(w: SerdeView) -> Result<FormView, ErrorView>
    decreases w, 3int,
{
    match (if w.props is Some {
        convert_entries(w.props->0, Seq::empty(), None)
    } else {
        Ok(Seq::empty())
    }) {
        Err(e) => Err(e),
        Ok(required) => match (if w.opt_props is Some {
            convert_entries(w.opt_props->0, required, None)
        } else {
            Ok(Seq::empty())
        }) {
            Err(e) => Err(e),
            Ok(optional) => Ok(
                FormView::Properties {
                    required,
                    optional,
                    allow_additional: w.additional_props == Some(true),
                    has_required: w.props is Some,
                },
            ),
        },
    }
}

/// A wire schema, as a root or below one. The definitions come first: a root
/// has them even where the wire has none, and below a root the wire may have
/// none. The form follows, and the other fields are kept as they are.
pub open spec fn convert(w: SerdeView, root: bool) -> Result<SchemaView, ErrorView>
    decreases w, 5int,
{
    if !root && w.defs is Some {
        Err(ErrorView::NonRootDefinitions)
    } else {
        match (if root && w.defs is Some {
            convert_entries(w.defs->0, Seq::empty(), None)
        } else {
            Ok(Seq::empty())
        }) {
            Err(e) => Err(e),
            Ok(defs) => match convert_form(w) {
                Err(e) => Err(e),
                Ok(form) => Ok(
                    SchemaView {
                        defs: if root {
                            Some(defs)
                        } else {
                            None
                        },
                        form,
                        extra: w.extra,
                    },
                ),
            },
        }
    }
}

/// A wire schema as a root schema with every check made. The tree is built
/// first; then each reference must name a definition, or the first one that
/// names none is reported.
pub open spec fn from_wire(w: SerdeView) -> Result<SchemaView, ErrorView> {
    match convert(w, true) {
        Err(e) => Err(e),
        Ok(s) => match s.dangling() {
            Some(name) => Err(ErrorView::NoSuchDefinition { definition: name }),
            None => Ok(s),
        },
    }
}

/// A wire schema that says nothing: no keyword and no other field.
pub open spec fn blank() -> SerdeView {
    SerdeView {
        defs: None,
        additional_props: None,
        rxf: None,
        typ: None,
        enm: None,
        elems: None,
        props: None,
        opt_props: None,
        values: None,
        discriminator: None,
        extra: Seq::empty(),
    }
}

/// The wire map of a map of schemas: the same names in the same order.
pub open spec fn entries_to_wire(es: Seq<(Seq<char>, SchemaView)>) -> Seq<(Seq<char>, SerdeView)>
    decreases es, 0int,
{
    Seq::new(
        es.len(),
        |i: int|
            if 0 <= i < es.len() {
                (es[i].0, to_wire(es[i].1))
            } else {
                arbitrary()
            },
    )
}

/// The wire representation of a schema. The definitions and the fields that
/// are no keywords are kept, and the form sets its own keyword. Of the
/// properties form, `properties` is written where the schema records that it
/// was there or a property is required; `optionalProperties` where
/// `properties` was not there or a property is optional; and
/// `additionalProperties` only as `true`.
pub open spec fn to_wire(s: SchemaView) -> SerdeView
    decreases s, 1int,
{
    let base = SerdeView {
        defs: match s.defs {
            Some(defs) => Some(entries_to_wire(defs)),
            None => None,
        },
        extra: s.extra,
        ..blank()
    };
    match s.form {
        FormView::Empty => base,
        FormView::Ref(name) => SerdeView { rxf: Some(name), ..base },
        FormView::Type(t) => SerdeView { typ: Some(name_of_type(t)), ..base },
        FormView::Enum(values) => SerdeView { enm: Some(values), ..base },
        FormView::Elements(sub) => SerdeView { elems: Some(Box::new(to_wire(*sub))), ..base },
        FormView::Properties { required, optional, allow_additional, has_required } => SerdeView {
            props: if has_required || required.len() > 0 {
                Some(entries_to_wire(required))
            } else {
                None
            },
            opt_props: if !has_required || optional.len() > 0 {
                Some(entries_to_wire(optional))
            } else {
                None
            },
            additional_props: if allow_additional {
                Some(true)
            } else {
                None
            },
            ..base
        },
        FormView::Values(sub) => SerdeView { values: Some(Box::new(to_wire(*sub))), ..base },
        FormView::Discriminator(tag, mapping) => SerdeView {
            discriminator: Some(
                SerdeDiscriminatorView { tag, mapping: entries_to_wire(mapping) },
            ),
            ..base
        },
    }
}

/// The wire map with each of its schemas in normal form.
pub open spec fn normalize_entries(es: Seq<(Seq<char>, SerdeView)>) -> Seq<(Seq<char>, SerdeView)>
    decreases es, 0int,
{
    Seq::new(
        es.len(),
        |i: int|
            if 0 <= i < es.len() {
                (es[i].0, normalize(es[i].1, false))
            } else {
                arbitrary()
            },
    )
}

/// The normal form of a wire schema that is accepted as a root or below one:
/// what is written for the schema that it describes. A root has definitions,
/// if need be none; `additionalProperties` stays only as `true` beside
/// properties; `optionalProperties` without an entry goes where `properties`
/// is there; everything else stays, and the schemas inside are normalized in
/// the same way.
pub open spec fn normalize(w: SerdeView, root: bool) -> SerdeView
    decreases w, 1int,
{
    SerdeView {
        defs: if root {
            Some(
                if w.defs is Some {
                    normalize_entries(w.defs->0)
                } else {
                    Seq::empty()
                },
            )
        } else {
            None
        },
        additional_props: if w.has_properties() && w.additional_props == Some(true) {
            Some(true)
        } else {
            None
        },
        rxf: w.rxf,
        typ: w.typ,
        enm: w.enm,
        elems: if w.elems is Some {
            Some(Box::new(normalize(*w.elems->0, false)))
        } else {
            None
        },
        props: if w.props is Some {
            Some(normalize_entries(w.props->0))
        } else {
            None
        },
        opt_props: if w.opt_props is Some && (w.props is None || w.opt_props->0.len() > 0) {
            Some(normalize_entries(w.opt_props->0))
        } else {
            None
        },
        values: if w.values is Some {
            Some(Box::new(normalize(*w.values->0, false)))
        } else {
            None
        },
        discriminator: if w.discriminator is Some {
            Some(
                SerdeDiscriminatorView {
                    tag: w.discriminator->0.tag,
                    mapping: normalize_entries(w.discriminator->0.mapping),
                },
            )
        } else {
            None
        },
        extra: w.extra,
    }
}

} // verus!
