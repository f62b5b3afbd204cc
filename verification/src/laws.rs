//! What holds of the conversions between the wire representation and a
//! schema, whatever the input.
use vstd::prelude::*;
use crate::errors::ErrorView;
use crate::model::{
    entries_dangling, entries_found, first_of, first_some, has_key, keys_distinct, FormView,
    SchemaView, SerdeView,
};
use crate::schema::Type;
use crate::wire::{
    collect, convert, convert_entries, convert_entry, convert_form,
    convert_properties, entries_to_wire, entry_results, first_err, from_wire, name_of_type,
    normalize, normalize_entries, to_wire, type_of_name,
};

verus! {

/// Each type is read back from its own name, and a name that is read as a
/// type is the name of that type.
pub proof fn lemma_type_names(t: Type, name: Seq<char>)
    ensures
        type_of_name(name_of_type(t)) == Some(t),
        type_of_name(name) == Some(t) ==> name_of_type(t) == name,
{
    reveal_strlit("boolean");
    reveal_strlit("float32");
    reveal_strlit("float64");
    reveal_strlit("int8");
    reveal_strlit("uint8");
    reveal_strlit("int16");
    reveal_strlit("uint16");
    reveal_strlit("int32");
    reveal_strlit("uint32");
    reveal_strlit("string");
    reveal_strlit("timestamp");
    let n = name_of_type(t);
    assert("boolean"@[0] == 'b' && "float32"@[0] == 'f' && "float64"@[0] == 'f');
    assert("float32"@[5] == '3' && "float64"@[5] == '6');
    assert("int8"@[0] == 'i' && "int16"@[0] == 'i' && "int32"@[0] == 'i');
    assert("int16"@[3] == '1' && "int32"@[3] == '3');
    assert("uint8"@[0] == 'u' && "uint16"@[0] == 'u' && "uint32"@[0] == 'u');
    assert("uint16"@[4] == '1' && "uint32"@[4] == '3');
    assert("string"@[0] == 's' && "timestamp"@[0] == 't');
}

/// Where a sequence holds an error, it has a first one.
pub proof fn lemma_first_err_exists<T>(results: Seq<Result<T, ErrorView>>, k: int)
    requires
        0 <= k < results.len(),
        results[k] is Err,
    ensures
        exists|i: int| first_err(results, i),
    decreases k,
{
    if exists|j: int| 0 <= j < k && (#[trigger] results[j]) is Err {
        let j = choose|j: int| 0 <= j < k && (#[trigger] results[j]) is Err;
        lemma_first_err_exists(results, j);
    } else {
        assert(first_err(results, k));
    }
}

/// A sequence is collected without error exactly where it holds none, and
/// then the outcome holds what each result holds.
pub proof fn lemma_collect<T>(results: Seq<Result<T, ErrorView>>)
    ensures
        collect(results) is Ok <==> forall|i: int|
            0 <= i < results.len() ==> (#[trigger] results[i]) is Ok,
        collect(results) is Ok ==> collect(results)->Ok_0.len() == results.len(),
        collect(results) is Ok ==> forall|i: int|
            0 <= i < results.len() ==> (#[trigger] collect(results)->Ok_0[i])
                == results[i]->Ok_0,
        collect(results) is Err ==> exists|i: int|
            first_err(results, i) && collect(results)->Err_0 == results[i]->Err_0,
{
    if exists|i: int| first_err(results, i) {
        let i = choose|i: int| first_err(results, i);
        assert(first_err(results, i));
    } else {
        assert forall|i: int| 0 <= i < results.len() implies (#[trigger] results[i]) is Ok by {
            if results[i] is Err {
                lemma_first_err_exists(results, i);
            }
        }
    }
}

/// Where a sequence holds a value, it has a first one.
pub proof fn lemma_first_some_exists<T>(s: Seq<Option<T>>, k: int)
    requires
        0 <= k < s.len(),
        s[k] is Some,
    ensures
        exists|i: int| first_some(s, i),
    decreases k,
{
    if exists|j: int| 0 <= j < k && (#[trigger] s[j]) is Some {
        let j = choose|j: int| 0 <= j < k && (#[trigger] s[j]) is Some;
        lemma_first_some_exists(s, j);
    } else {
        assert(first_some(s, k));
    }
}

/// A sequence has no first value exactly where it holds none.
pub proof fn lemma_first_of<T>(s: Seq<Option<T>>)
    ensures
        first_of(s) is None <==> forall|i: int| 0 <= i < s.len() ==> (#[trigger] s[i]) is None,
{
    if exists|i: int| first_some(s, i) {
        let i = choose|i: int| first_some(s, i);
        assert(first_some(s, i));
    } else {
        assert forall|i: int| 0 <= i < s.len() implies (#[trigger] s[i]) is None by {
            if s[i] is Some {
                lemma_first_some_exists(s, i);
            }
        }
    }
}

/// A wire map that is converted gives a map of the same names in the same
/// order, none of them twice and none reserved; each schema in it is what
/// its wire schema converts to below a root, is well formed, and, with a
/// tag, is a branch for it.
pub proof fn lemma_entries_well_formed(
    es: Seq<(Seq<char>, SerdeView)>,
    reserved: Seq<(Seq<char>, SchemaView)>,
    tag: Option<Seq<char>>,
)
    requires
        convert_entries(es, reserved, tag) is Ok,
    ensures
        ({
            let out = convert_entries(es, reserved, tag)->Ok_0;
            &&& out.len() == es.len()
            &&& keys_distinct(out)
            &&& forall|i: int|
                0 <= i < out.len() ==> {
                    &&& (#[trigger] out[i]).0 == es[i].0
                    &&& convert(es[i].1, false) == Ok::<SchemaView, ErrorView>(out[i].1)
                    &&& out[i].1.well_formed_nested()
                    &&& !has_key(reserved, out[i].0)
                    &&& tag is Some ==> out[i].1.form.is_branch_for(tag->0)
                }
        }),
    decreases es, 0int,
{
    let results = entry_results(es, reserved, tag);
    let out = convert_entries(es, reserved, tag)->Ok_0;
    lemma_collect(results);
    assert forall|i: int| 0 <= i < out.len() implies {
        &&& (#[trigger] out[i]).0 == es[i].0
        &&& convert(es[i].1, false) == Ok::<SchemaView, ErrorView>(out[i].1)
        &&& out[i].1.well_formed_nested()
        &&& !has_key(reserved, out[i].0)
        &&& tag is Some ==> out[i].1.form.is_branch_for(tag->0)
    } by {
        assert(results[i] is Ok);
        assert(results[i] == convert_entry(es, reserved, tag, i));
        lemma_convert_well_formed(es[i].1, false);
    }
    assert forall|i: int, j: int| 0 <= i < j < out.len() implies (#[trigger] out[i]).0
        != (#[trigger] out[j]).0 by {
        assert(results[j] is Ok);
        assert(results[j] == convert_entry(es, reserved, tag, j));
        if out[i].0 == out[j].0 {
            assert(es.take(j)[i].0 == es[j].0);
        }
    }
}

/// A wire schema that is converted gives a schema whose form is well formed;
/// it has definitions exactly as a root, and these are well formed schemas
/// under names that differ.
pub proof fn lemma_convert_well_formed(w: SerdeView, root: bool)
    requires
        convert(w, root) is Ok,
    ensures
        ({
            let s = convert(w, root)->Ok_0;
            &&& s.form.well_formed()
            &&& s.defs is Some <==> root
            &&& root ==> keys_distinct(s.defs->0)
            &&& root ==> forall|i: int|
                0 <= i < s.defs->0.len() ==> (#[trigger] s.defs->0[i]).1.well_formed_nested()
        }),
    decreases w, 1int,
{
    let s = convert(w, root)->Ok_0;
    if root && w.defs is Some {
        lemma_entries_well_formed(w.defs->0, Seq::empty(), None);
    }
    assert(convert_form(w) == Ok::<FormView, ErrorView>(s.form));
    if w.rxf is Some {
    } else if w.typ is Some {
    } else if w.enm is Some {
    } else if w.elems is Some {
        lemma_convert_well_formed(*w.elems->0, false);
    } else if w.has_properties() {
        assert(convert_properties(w) == Ok::<FormView, ErrorView>(s.form));
        let required = s.form->Properties_required;
        if w.props is Some {
            lemma_entries_well_formed(w.props->0, Seq::empty(), None);
        }
        if w.opt_props is Some {
            lemma_entries_well_formed(w.opt_props->0, required, None);
        }
    } else if w.values is Some {
        lemma_convert_well_formed(*w.values->0, false);
    } else if w.discriminator is Some {
        lemma_entries_well_formed(
            w.discriminator->0.mapping,
            Seq::empty(),
            Some(w.discriminator->0.tag),
        );
    }
}

/// The schemas of a map hold no dangling reference exactly where each
/// reference in each of them names an entry of `defs`.
pub proof fn lemma_entries_dangling(
    es: Seq<(Seq<char>, SchemaView)>,
    defs: Seq<(Seq<char>, SchemaView)>,
)
    ensures
        entries_dangling(es, defs) is None <==> forall|i: int|
            0 <= i < es.len() ==> (#[trigger] es[i]).1.form.refs_resolve(defs),
    decreases es, 0int,
{
    let found = entries_found(es, defs);
    lemma_first_of(found);
    assert forall|i: int| 0 <= i < es.len() implies (found[i] is None <==> (#[trigger] es[i])
        .1.form.refs_resolve(defs)) by {
        lemma_dangling(es[i].1.form, defs);
    }
    if entries_dangling(es, defs) is None {
        assert forall|i: int| 0 <= i < es.len() implies (#[trigger] es[i]).1.form.refs_resolve(
            defs,
        ) by {
            assert(found[i] is None);
        }
    }
}

/// A form holds no dangling reference exactly where each reference in it
/// names an entry of `defs`.
pub proof fn lemma_dangling(form: FormView, defs: Seq<(Seq<char>, SchemaView)>)
    ensures
        form.dangling(defs) is None <==> form.refs_resolve(defs),
    decreases form, 1int,
{
    match form {
        FormView::Elements(sub) => {
            lemma_dangling(sub.form, defs);
        },
        FormView::Properties { required, optional, .. } => {
            lemma_entries_dangling(required, defs);
            lemma_entries_dangling(optional, defs);
        },
        FormView::Values(sub) => {
            lemma_dangling(sub.form, defs);
        },
        FormView::Discriminator(_, mapping) => {
            lemma_entries_dangling(mapping, defs);
        },
        _ => {},
    }
}

/// A schema that is built from the wire with every check made is well
/// formed: it is a root, each reference in it names one of its definitions,
/// and every part of it keeps the rules of its form.
pub proof fn lemma_from_wire_well_formed(w: SerdeView)
    requires
        from_wire(w) is Ok,
    ensures
        from_wire(w)->Ok_0.well_formed(),
{
    let s = from_wire(w)->Ok_0;
    lemma_convert_well_formed(w, true);
    lemma_dangling(s.form, s.defs->0);
    lemma_entries_dangling(s.defs->0, s.defs->0);
}

/// The schemas that a wire map converts to are written back as the wire map
/// in normal form.
pub proof fn lemma_entries_round_trip(
    es: Seq<(Seq<char>, SerdeView)>,
    reserved: Seq<(Seq<char>, SchemaView)>,
    tag: Option<Seq<char>>,
)
    requires
        convert_entries(es, reserved, tag) is Ok,
    ensures
        entries_to_wire(convert_entries(es, reserved, tag)->Ok_0) == normalize_entries(es),
    decreases es, 0int,
{
    let out = convert_entries(es, reserved, tag)->Ok_0;
    lemma_entries_well_formed(es, reserved, tag);
    assert forall|i: int| 0 <= i < es.len() implies to_wire(out[i].1) == normalize(
        es[i].1,
        false,
    ) by {
        lemma_convert_round_trip(es[i].1, false);
    }
    assert(entries_to_wire(out) =~= normalize_entries(es));
}

/// The schema that a wire schema converts to is written back as the wire
/// schema in normal form.
pub proof fn lemma_convert_round_trip(w: SerdeView, root: bool)
    requires
        convert(w, root) is Ok,
    ensures
        to_wire(convert(w, root)->Ok_0) == normalize(w, root),
    decreases w, 1int,
{
    let s = convert(w, root)->Ok_0;
    let back = to_wire(s);
    let normal = normalize(w, root);
    if root && w.defs is Some {
        lemma_entries_round_trip(w.defs->0, Seq::empty(), None);
    }
    if root && w.defs is None {
        assert(entries_to_wire(Seq::empty()) =~= Seq::empty());
    }
    assert(back.defs == normal.defs);
    assert(convert_form(w) == Ok::<FormView, ErrorView>(s.form));
    if w.rxf is Some {
    } else if w.typ is Some {
        lemma_type_names(type_of_name(w.typ->0)->0, w.typ->0);
    } else if w.enm is Some {
    } else if w.elems is Some {
        lemma_convert_round_trip(*w.elems->0, false);
    } else if w.has_properties() {
        assert(convert_properties(w) == Ok::<FormView, ErrorView>(s.form));
        let required = s.form->Properties_required;
        let optional = s.form->Properties_optional;
        if w.props is Some {
            lemma_entries_round_trip(w.props->0, Seq::empty(), None);
            lemma_entries_well_formed(w.props->0, Seq::empty(), None);
        }
        if w.opt_props is Some {
            lemma_entries_round_trip(w.opt_props->0, required, None);
            lemma_entries_well_formed(w.opt_props->0, required, None);
        }
        assert(back.props == normal.props);
        assert(back.opt_props == normal.opt_props);
    } else if w.values is Some {
        lemma_convert_round_trip(*w.values->0, false);
    } else if w.discriminator is Some {
        lemma_entries_round_trip(
            w.discriminator->0.mapping,
            Seq::empty(),
            Some(w.discriminator->0.tag),
        );
    }
}

/// Round trip: where a wire schema is accepted, the schema that is built
/// from it is written back as that wire schema in normal form; so a wire
/// schema that is in normal form is written back as it was.
pub proof fn lemma_round_trip(w: SerdeView)
    requires
        from_wire(w) is Ok,
    ensures
        to_wire(from_wire(w)->Ok_0) == normalize(w, true),
        normalize(w, true) == w ==> to_wire(from_wire(w)->Ok_0) == w,
{
    lemma_convert_round_trip(w, true);
}

/// In the schemas that a wire map converts to, the record of `properties`
/// is true to the form.
pub proof fn lemma_entries_record(
    es: Seq<(Seq<char>, SerdeView)>,
    reserved: Seq<(Seq<char>, SchemaView)>,
    tag: Option<Seq<char>>,
)
    requires
        convert_entries(es, reserved, tag) is Ok,
    ensures
        forall|i: int|
            0 <= i < es.len() ==> (#[trigger] convert_entries(es, reserved, tag)->Ok_0[i])
                .1.form.records_properties(),
    decreases es, 0int,
{
    let out = convert_entries(es, reserved, tag)->Ok_0;
    lemma_entries_well_formed(es, reserved, tag);
    assert forall|i: int| 0 <= i < es.len() implies (#[trigger] out[i])
        .1.form.records_properties() by {
        lemma_convert_record(es[i].1, false);
    }
}

/// In the schema that a wire schema converts to, the record of `properties`
/// is true to the form, and so it is in each of its definitions.
pub proof fn lemma_convert_record(w: SerdeView, root: bool)
    requires
        convert(w, root) is Ok,
    ensures
        convert(w, root)->Ok_0.form.records_properties(),
        root ==> forall|i: int|
            0 <= i < convert(w, root)->Ok_0.defs->0.len() ==> (#[trigger] convert(
                w,
                root,
            )->Ok_0.defs->0[i]).1.form.records_properties(),
    decreases w, 1int,
{
    let s = convert(w, root)->Ok_0;
    if root && w.defs is Some {
        lemma_entries_record(w.defs->0, Seq::empty(), None);
    }
    assert(convert_form(w) == Ok::<FormView, ErrorView>(s.form));
    if w.rxf is Some {
    } else if w.typ is Some {
    } else if w.enm is Some {
    } else if w.elems is Some {
        lemma_convert_record(*w.elems->0, false);
    } else if w.has_properties() {
        assert(convert_properties(w) == Ok::<FormView, ErrorView>(s.form));
        let required = s.form->Properties_required;
        if w.props is Some {
            lemma_entries_record(w.props->0, Seq::empty(), None);
        }
        if w.opt_props is Some {
            lemma_entries_record(w.opt_props->0, required, None);
        }
    } else if w.values is Some {
        lemma_convert_record(*w.values->0, false);
    } else if w.discriminator is Some {
        lemma_entries_record(
            w.discriminator->0.mapping,
            Seq::empty(),
            Some(w.discriminator->0.tag),
        );
    }
}

/// A map of well-formed schemas that is written to the wire converts back to
/// itself, where none of its names is reserved and, with a tag, each schema
/// is a branch for it.
pub proof fn lemma_entries_back(
    es: Seq<(Seq<char>, SchemaView)>,
    reserved: Seq<(Seq<char>, SchemaView)>,
    tag: Option<Seq<char>>,
)
    requires
        keys_distinct(es),
        forall|i: int|
            0 <= i < es.len() ==> {
                &&& (#[trigger] es[i]).1.well_formed_nested()
                &&& es[i].1.form.records_properties()
                &&& !has_key(reserved, es[i].0)
                &&& tag is Some ==> es[i].1.form.is_branch_for(tag->0)
            },
    ensures
        convert_entries(entries_to_wire(es), reserved, tag) == Ok::<
            Seq<(Seq<char>, SchemaView)>,
            ErrorView,
        >(es),
    decreases es, 0int,
{
    let ws = entries_to_wire(es);
    let results = entry_results(ws, reserved, tag);
    assert forall|i: int| 0 <= i < ws.len() implies (#[trigger] results[i]) == Ok::<
        (Seq<char>, SchemaView),
        ErrorView,
    >(es[i]) by {
        lemma_convert_back(es[i].1, false);
        assert(ws[i] == (es[i].0, to_wire(es[i].1)));
        if has_key(ws.take(i), ws[i].0) {
            let j = choose|j: int| 0 <= j < i && (#[trigger] ws.take(i)[j]).0 == ws[i].0;
            assert(ws[j].0 == es[j].0);
            assert(es[j].0 == es[i].0);
        }
        assert(results[i] == convert_entry(ws, reserved, tag, i));
    }
    lemma_collect(results);
    assert(collect(results)->Ok_0 =~= es);
}

/// A well-formed schema that is written to the wire converts back to itself,
/// where its record of `properties` is true to its form.
pub proof fn lemma_convert_back(s: SchemaView, root: bool)
    requires
        s.form.well_formed(),
        s.form.records_properties(),
        s.defs is Some <==> root,
        root ==> keys_distinct(s.defs->0),
        root ==> forall|i: int|
            0 <= i < s.defs->0.len() ==> (#[trigger] s.defs->0[i]).1.well_formed_nested()
                && s.defs->0[i].1.form.records_properties(),
    ensures
        convert(to_wire(s), root) == Ok::<SchemaView, ErrorView>(s),
    decreases s, 1int,
{
    let w = to_wire(s);
    if root {
        lemma_entries_back(s.defs->0, Seq::empty(), None);
    }
    match s.form {
        FormView::Type(t) => {
            lemma_type_names(t, name_of_type(t));
        },
        FormView::Elements(sub) => {
            lemma_convert_back(*sub, false);
        },
        FormView::Properties { required, optional, allow_additional, has_required } => {
            lemma_entries_back(required, Seq::empty(), None);
            lemma_entries_back(optional, required, None);
            assert(entries_to_wire(required).len() == required.len());
            assert(entries_to_wire(optional).len() == optional.len());
            if w.props is None {
                assert(required =~= Seq::empty());
            }
            if w.opt_props is None {
                assert(optional =~= Seq::empty());
            }
            assert(convert_properties(w) == Ok::<FormView, ErrorView>(s.form));
        },
        FormView::Values(sub) => {
            lemma_convert_back(*sub, false);
        },
        FormView::Discriminator(tag, mapping) => {
            lemma_entries_back(mapping, Seq::empty(), Some(tag));
        },
        _ => {},
    }
    assert(convert_form(w) == Ok::<FormView, ErrorView>(s.form));
}

/// The way back: a schema that was built from the wire and is written to the
/// wire is built from there as the same schema.
pub proof fn lemma_built_again(w: SerdeView)
    requires
        from_wire(w) is Ok,
    ensures
        from_wire(to_wire(from_wire(w)->Ok_0)) == from_wire(w),
{
    let s = from_wire(w)->Ok_0;
    lemma_convert_well_formed(w, true);
    lemma_convert_record(w, true);
    lemma_convert_back(s, true);
}

} // verus!
