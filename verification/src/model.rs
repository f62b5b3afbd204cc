//! The mathematical model of schemas and of their wire representation.
//!
//! Maps are modelled as sequences of entries, so that the order in which a
//! schema's parts are visited is part of its value.
use vstd::prelude::*;
use crate::schema::Type;

verus! {

/// The value of a [`Schema`](crate::schema::Schema).
pub struct SchemaView {
    /// The definitions table; present exactly on a root schema.
    pub defs: Option<Seq<(Seq<char>, SchemaView)>>,
    pub form: FormView,
    pub extra: Seq<(Seq<char>, serde_json::Value)>,
}

/// The value of a [`Form`](crate::schema::Form).
pub enum FormView {
    Empty,
    Ref(Seq<char>),
    Type(Type),
    Enum(Seq<Seq<char>>),
    Elements(Box<SchemaView>),
    Properties {
        required: Seq<(Seq<char>, SchemaView)>,
        optional: Seq<(Seq<char>, SchemaView)>,
        allow_additional: bool,
        has_required: bool,
    },
    Values(Box<SchemaView>),
    Discriminator(Seq<char>, Seq<(Seq<char>, SchemaView)>),
}

/// The value of a [`Serde`](crate::schema::Serde).
pub struct SerdeView {
    pub defs: Option<Seq<(Seq<char>, SerdeView)>>,
    pub additional_props: Option<bool>,
    pub rxf: Option<Seq<char>>,
    pub typ: Option<Seq<char>>,
    pub enm: Option<Seq<Seq<char>>>,
    pub elems: Option<Box<SerdeView>>,
    pub props: Option<Seq<(Seq<char>, SerdeView)>>,
    pub opt_props: Option<Seq<(Seq<char>, SerdeView)>>,
    pub values: Option<Box<SerdeView>>,
    pub discriminator: Option<SerdeDiscriminatorView>,
    pub extra: Seq<(Seq<char>, serde_json::Value)>,
}

/// The value of a [`SerdeDiscriminator`](crate::schema::SerdeDiscriminator).
pub struct SerdeDiscriminatorView {
    pub tag: Seq<char>,
    pub mapping: Seq<(Seq<char>, SerdeView)>,
}

/// Some entry of `m` has the key `k`.
pub open spec fn has_key<T>(m: Seq<(Seq<char>, T)>, k: Seq<char>) -> bool {
    exists|i: int| 0 <= i < m.len() && (#[trigger] m[i]).0 == k
}

/// `i` is the position of the first entry of `m` with the key `k`.
pub open spec fn is_first_key<T>(m: Seq<(Seq<char>, T)>, k: Seq<char>, i: int) -> bool {
    &&& 0 <= i < m.len()
    &&& m[i].0 == k
    &&& forall|j: int| 0 <= j < i ==> (#[trigger] m[j]).0 != k
}

/// The first position of the map that holds the key.
pub open spec fn position<T>(m: Seq<(Seq<char>, T)>, k: Seq<char>) -> Option<int> {
    if exists|i: int| is_first_key(m, k, i) {
        Some(choose|i: int| is_first_key(m, k, i))
    } else {
        None
    }
}

/// The value of the first entry of `m` with the key `k`.
pub open spec fn lookup<T>(m: Seq<(Seq<char>, T)>, k: Seq<char>) -> Option<T> {
    match position(m, k) {
        Some(i) => Some(m[i].1),
        None => None,
    }
}

/// The first entry with a key is at one position only, and a map has a first
/// entry with a key exactly where it has the key.
pub proof fn lemma_position<T>(m: Seq<(Seq<char>, T)>, k: Seq<char>)
    ensures
        position(m, k) is Some <==> has_key(m, k),
        position(m, k) matches Some(i) ==> is_first_key(m, k, i),
        forall|i: int| is_first_key(m, k, i) ==> position(m, k) == Some(i),
{
    if has_key(m, k) {
        let j = choose|j: int| 0 <= j < m.len() && (#[trigger] m[j]).0 == k;
        lemma_first_key_exists(m, k, j);
    }
    if exists|i: int| is_first_key(m, k, i) {
        let c = choose|i: int| is_first_key(m, k, i);
        assert forall|i: int| is_first_key(m, k, i) implies c == i by {
            if c < i {
                assert(m[c].0 == k);
            } else if i < c {
                assert(m[i].0 == k);
            }
        }
    }
}

/// Where a map holds a key, it holds it at a first position.
pub proof fn lemma_first_key_exists<T>(m: Seq<(Seq<char>, T)>, k: Seq<char>, at: int)
    requires
        0 <= at < m.len(),
        m[at].0 == k,
    ensures
        exists|i: int| is_first_key(m, k, i),
    decreases at,
{
    if exists|j: int| 0 <= j < at && (#[trigger] m[j]).0 == k {
        let j = choose|j: int| 0 <= j < at && (#[trigger] m[j]).0 == k;
        lemma_first_key_exists(m, k, j);
    } else {
        assert(is_first_key(m, k, at));
    }
}

/// Looks for the first entry with the name.
pub fn find<T>(entries: &Vec<(String, T)>, name: &String) -> (at: Option<usize>)
    ensures
        match at {
            Some(i) => {
                &&& i < entries.len()
                &&& entries[i as int].0@ == name@
                &&& forall|j: int| 0 <= j < i ==> (#[trigger] entries[j]).0@ != name@
            },
            None => forall|j: int| 0 <= j < entries.len() ==> (#[trigger] entries[j]).0@ != name@,
        },
{
    let mut i: usize = 0;
    while i < entries.len()
        invariant
            i <= entries.len(),
            forall|j: int| 0 <= j < i ==> (#[trigger] entries[j]).0@ != name@,
        decreases entries.len() - i,
    {
        if entries[i].0 == *name {
            return Some(i);
        }
        i += 1;
    }
    None
}

/// No key occurs twice among the entries of `m`.
pub open spec fn keys_distinct<T>(m: Seq<(Seq<char>, T)>) -> bool {
    forall|i: int, j: int|
        0 <= i < j < m.len() ==> (#[trigger] m[i]).0 != (#[trigger] m[j]).0
}

/// Position `i` holds the first value of the sequence.
pub open spec fn first_some<T>(s: Seq<Option<T>>, i: int) -> bool {
    &&& 0 <= i < s.len()
    &&& s[i] is Some
    &&& forall|j: int| 0 <= j < i ==> (#[trigger] s[j]) is None
}

/// The first value of the sequence, if it holds any.
pub open spec fn first_of<T>(s: Seq<Option<T>>) -> Option<T> {
    if exists|i: int| first_some(s, i) {
        s[choose|i: int| first_some(s, i)]
    } else {
        None
    }
}

/// For each schema of the map, the first reference in it that names no
/// entry of `defs`.
pub open spec fn entries_found(
    es: Seq<(Seq<char>, SchemaView)>,
    defs: Seq<(Seq<char>, SchemaView)>,
) -> Seq<Option<Seq<char>>>
    decreases es, 0int,
{
    Seq::new(
        es.len(),
        |i: int|
            if 0 <= i < es.len() {
                es[i].1.form.dangling(defs)
            } else {
                None
            },
    )
}

/// The first reference among the schemas of the map, in their order, that
/// names no entry of `defs`.
pub open spec fn entries_dangling(
    es: Seq<(Seq<char>, SchemaView)>,
    defs: Seq<(Seq<char>, SchemaView)>,
) -> Option<Seq<char>>
    decreases es, 1int,
{
    first_of(entries_found(es, defs))
}

impl FormView {
    /// The first reference in the form that names no entry of `defs`. The
    /// form is walked in order: required properties before optional ones,
    /// and each map from its first entry on.
    pub open spec fn dangling(self, defs: Seq<(Seq<char>, SchemaView)>) -> Option<Seq<char>>
        decreases self, 2int,
    {
        match self {
            FormView::Ref(name) => if has_key(defs, name) {
                None
            } else {
                Some(name)
            },
            FormView::Elements(sub) => sub.form.dangling(defs),
            FormView::Properties { required, optional, .. } => match entries_dangling(
                required,
                defs,
            ) {
                Some(name) => Some(name),
                None => entries_dangling(optional, defs),
            },
            FormView::Values(sub) => sub.form.dangling(defs),
            FormView::Discriminator(_, mapping) => entries_dangling(mapping, defs),
            _ => None,
        }
    }

    /// What holds of the form of any schema that was built with all checks,
    /// apart from its references: enums are non-empty and repeat nothing, no
    /// map repeats a key, no property is both required and optional, every
    /// discriminator branch is of the properties form and leaves the tag
    /// alone, and nothing below carries definitions.
    pub open spec fn well_formed(self) -> bool
        decreases self,
    {
        match self {
            FormView::Empty => true,
            FormView::Ref(_) => true,
            FormView::Type(_) => true,
            FormView::Enum(values) => values.len() > 0 && values.no_duplicates(),
            FormView::Elements(sub) => sub.well_formed_nested(),
            FormView::Properties { required, optional, .. } => {
                &&& keys_distinct(required)
                &&& keys_distinct(optional)
                &&& forall|i: int|
                    0 <= i < optional.len() ==> !has_key(required, (#[trigger] optional[i]).0)
                &&& forall|i: int|
                    0 <= i < required.len() ==> (#[trigger] required[i]).1.well_formed_nested()
                &&& forall|i: int|
                    0 <= i < optional.len() ==> (#[trigger] optional[i]).1.well_formed_nested()
            },
            FormView::Values(sub) => sub.well_formed_nested(),
            FormView::Discriminator(tag, mapping) => {
                &&& keys_distinct(mapping)
                &&& forall|i: int|
                    0 <= i < mapping.len() ==> {
                        &&& (#[trigger] mapping[i]).1.well_formed_nested()
                        &&& mapping[i].1.form.is_branch_for(tag)
                    }
            },
        }
    }

    /// The form is a properties form that does not declare `tag`.
    pub open spec fn is_branch_for(self, tag: Seq<char>) -> bool {
        match self {
            FormView::Properties { required, optional, .. } => !has_key(required, tag) && !has_key(
                optional,
                tag,
            ),
            _ => false,
        }
    }

    /// The record of `properties` is true to the form here and below: where
    /// a property is required, `has_required` says that `properties` was
    /// written.
    pub open spec fn records_properties(self) -> bool
        decreases self,
    {
        match self {
            FormView::Elements(sub) => sub.form.records_properties(),
            FormView::Properties { required, optional, has_required, .. } => {
                &&& has_required || required.len() == 0
                &&& forall|i: int|
                    0 <= i < required.len() ==> (#[trigger] required[i]).1.form.records_properties()
                &&& forall|i: int|
                    0 <= i < optional.len() ==> (#[trigger] optional[i]).1.form.records_properties()
            },
            FormView::Values(sub) => sub.form.records_properties(),
            FormView::Discriminator(_, mapping) => forall|i: int|
                0 <= i < mapping.len() ==> (#[trigger] mapping[i]).1.form.records_properties(),
            _ => true,
        }
    }

    /// Every reference in the form names an entry of `defs`.
    pub open spec fn refs_resolve(self, defs: Seq<(Seq<char>, SchemaView)>) -> bool
        decreases self,
    {
        match self {
            FormView::Ref(name) => has_key(defs, name),
            FormView::Elements(sub) => sub.form.refs_resolve(defs),
            FormView::Properties { required, optional, .. } => {
                &&& forall|i: int|
                    0 <= i < required.len() ==> (#[trigger] required[i]).1.form.refs_resolve(defs)
                &&& forall|i: int|
                    0 <= i < optional.len() ==> (#[trigger] optional[i]).1.form.refs_resolve(defs)
            },
            FormView::Values(sub) => sub.form.refs_resolve(defs),
            FormView::Discriminator(_, mapping) => forall|i: int|
                0 <= i < mapping.len() ==> (#[trigger] mapping[i]).1.form.refs_resolve(defs),
            _ => true,
        }
    }
}

impl SchemaView {
    /// The first reference of a root schema that names none of its
    /// definitions: in its own form first, then in its definitions.
    pub open spec fn dangling(self) -> Option<Seq<char>> {
        match self.form.dangling(self.defs->0) {
            Some(name) => Some(name),
            None => entries_dangling(self.defs->0, self.defs->0),
        }
    }

    /// A schema below the root: no definitions, and a well-formed form.
    pub open spec fn well_formed_nested(self) -> bool
        decreases self,
    {
        self.defs is None && self.form.well_formed()
    }

    /// The schema is a root, and each reference in it and in its definitions
    /// names one of its definitions. This is what a validation run relies on.
    pub open spec fn closed(self) -> bool {
        &&& self.defs matches Some(defs)
        &&& self.form.refs_resolve(defs)
        &&& forall|i: int| 0 <= i < defs.len() ==> (#[trigger] defs[i]).1.form.refs_resolve(defs)
    }

    /// Everything that construction from the wire representation checks.
    pub open spec fn well_formed(self) -> bool {
        &&& self.closed()
        &&& self.form.well_formed()
        &&& keys_distinct(self.defs->0)
        &&& forall|i: int|
            0 <= i < self.defs->0.len() ==> (#[trigger] self.defs->0[i]).1.well_formed_nested()
    }
}

} // verus!
