use jddf::{Form, JddfError, Schema, Serde, SerdeDiscriminator, Type};
use serde_json::Value;

fn name(s: &str) -> String {
    s.to_owned()
}

fn typed(t: &str) -> Serde {
    Serde {
        typ: Some(name(t)),
        ..Serde::default()
    }
}

fn plain(form: Form) -> Schema {
    Schema::from_parts(None, Box::new(form), Vec::new())
}

fn root(defs: Vec<(String, Schema)>, form: Form) -> Schema {
    Schema::from_parts(Some(defs), Box::new(form), Vec::new())
}

#[test]
fn from_serde_root() {
    assert_eq!(
        Schema::from_serde(Serde {
            defs: Some(vec![(name("a"), typed("boolean"))]),
            ..Serde::default()
        })
        .unwrap(),
        root(
            vec![(name("a"), plain(Form::Type(Type::Boolean)))],
            Form::Empty
        )
    );
}

#[test]
fn from_serde_empty() {
    assert_eq!(
        Schema::from_serde(Serde::default()).unwrap(),
        root(vec![], Form::Empty)
    );
}

#[test]
fn from_serde_extra() {
    assert_eq!(
        Schema::from_serde(Serde {
            extra: vec![(name("foo"), Value::String(name("bar")))],
            ..Serde::default()
        })
        .unwrap(),
        Schema::from_parts(
            Some(vec![]),
            Box::new(Form::Empty),
            vec![(name("foo"), Value::String(name("bar")))]
        )
    );
}

#[test]
fn from_serde_ref() {
    assert_eq!(
        Schema::from_serde(Serde {
            defs: Some(vec![(name("a"), typed("boolean"))]),
            rxf: Some(name("a")),
            ..Serde::default()
        })
        .unwrap(),
        root(
            vec![(name("a"), plain(Form::Type(Type::Boolean)))],
            Form::Ref(name("a"))
        )
    );

    assert!(Schema::from_serde(Serde {
        defs: Some(vec![(name("a"), typed("boolean"))]),
        rxf: Some(name("")),
        ..Serde::default()
    })
    .is_err());
}

#[test]
fn from_serde_type() {
    assert_eq!(
        Schema::from_serde(typed("boolean")).unwrap(),
        root(vec![], Form::Type(Type::Boolean))
    );

    assert_eq!(
        Schema::from_serde(typed("float64")).unwrap(),
        root(vec![], Form::Type(Type::Float64))
    );

    assert_eq!(
        Schema::from_serde(typed("string")).unwrap(),
        root(vec![], Form::Type(Type::String))
    );

    assert_eq!(
        Schema::from_serde(typed("timestamp")).unwrap(),
        root(vec![], Form::Type(Type::Timestamp))
    );

    assert!(Schema::from_serde(typed("nonsense")).is_err());
}

#[test]
fn from_serde_enum() {
    assert_eq!(
        Schema::from_serde(Serde {
            enm: Some(vec![name("FOO"), name("BAR")]),
            ..Serde::default()
        })
        .unwrap(),
        root(vec![], Form::Enum(vec![name("FOO"), name("BAR")]))
    );

    assert!(Schema::from_serde(Serde {
        enm: Some(vec![]),
        ..Serde::default()
    })
    .is_err());

    assert!(Schema::from_serde(Serde {
        enm: Some(vec![name("FOO"), name("FOO")]),
        ..Serde::default()
    })
    .is_err());
}

#[test]
fn from_serde_elements() {
    assert_eq!(
        Schema::from_serde(Serde {
            elems: Some(Box::new(typed("boolean"))),
            ..Serde::default()
        })
        .unwrap(),
        root(
            vec![],
            Form::Elements(plain(Form::Type(Type::Boolean)))
        )
    );
}

#[test]
fn from_serde_properties() {
    assert_eq!(
        Schema::from_serde(Serde {
            additional_props: Some(true),
            props: Some(vec![(name("a"), typed("boolean"))]),
            opt_props: Some(vec![(name("b"), typed("boolean"))]),
            ..Serde::default()
        })
        .unwrap(),
        root(
            vec![],
            Form::Properties {
                required: vec![(name("a"), plain(Form::Type(Type::Boolean)))],
                optional: vec![(name("b"), plain(Form::Type(Type::Boolean)))],
                has_required: true,
                allow_additional: true,
            }
        )
    );

    assert_eq!(
        Schema::from_serde(Serde {
            opt_props: Some(vec![(name("b"), typed("boolean"))]),
            ..Serde::default()
        })
        .unwrap(),
        root(
            vec![],
            Form::Properties {
                required: vec![],
                optional: vec![(name("b"), plain(Form::Type(Type::Boolean)))],
                has_required: false,
                allow_additional: false,
            }
        )
    );

    assert!(Schema::from_serde(Serde {
        props: Some(vec![(name("a"), typed("boolean"))]),
        opt_props: Some(vec![(name("a"), typed("boolean"))]),
        ..Serde::default()
    })
    .is_err());
}

#[test]
fn from_serde_values() {
    assert_eq!(
        Schema::from_serde(Serde {
            values: Some(Box::new(typed("boolean"))),
            ..Serde::default()
        })
        .unwrap(),
        root(
            vec![],
            Form::Values(plain(Form::Type(Type::Boolean)))
        )
    );
}

#[test]
fn from_serde_discriminator() {
    let branch = || Serde {
        props: Some(vec![]),
        ..Serde::default()
    };
    let built = || {
        plain(Form::Properties {
            required: vec![],
            optional: vec![],
            has_required: true,
            allow_additional: false,
        })
    };
    assert_eq!(
        Schema::from_serde(Serde {
            discriminator: Some(SerdeDiscriminator {
                tag: name("foo"),
                mapping: vec![(name("a"), branch()), (name("b"), branch())],
            }),
            ..Serde::default()
        })
        .unwrap(),
        root(
            vec![],
            Form::Discriminator(
                name("foo"),
                vec![(name("a"), built()), (name("b"), built())]
            )
        )
    );

    assert!(Schema::from_serde(Serde {
        discriminator: Some(SerdeDiscriminator {
            tag: name("foo"),
            mapping: vec![(name("a"), typed("boolean"))],
        }),
        ..Serde::default()
    })
    .is_err());

    assert!(Schema::from_serde(Serde {
        discriminator: Some(SerdeDiscriminator {
            tag: name("foo"),
            mapping: vec![(
                name("a"),
                Serde {
                    props: Some(vec![(name("foo"), typed("boolean"))]),
                    ..Serde::default()
                }
            )],
        }),
        ..Serde::default()
    })
    .is_err());
}

#[test]
fn two_keywords_are_an_invalid_form() {
    assert_eq!(
        Schema::from_serde(Serde {
            typ: Some(name("boolean")),
            enm: Some(vec![name("A")]),
            ..Serde::default()
        }),
        Err(JddfError::InvalidForm)
    );
    assert_eq!(
        Schema::from_serde(Serde {
            rxf: Some(name("a")),
            values: Some(Box::new(Serde::default())),
            defs: Some(vec![(name("a"), Serde::default())]),
            ..Serde::default()
        }),
        Err(JddfError::InvalidForm)
    );
}

#[test]
fn the_first_keyword_is_converted_before_a_second_is_seen() {
    // `elements` holds an unknown type; `values` comes after it.
    assert_eq!(
        Schema::from_serde(Serde {
            elems: Some(Box::new(Serde {
                props: Some(vec![(name("a"), Serde::default())]),
                opt_props: Some(vec![(name("a"), Serde::default())]),
                ..Serde::default()
            })),
            values: Some(Box::new(Serde::default())),
            ..Serde::default()
        }),
        Err(JddfError::AmbiguousProperty {
            property: name("a")
        })
    );
}

#[test]
fn empty_and_repeating_enums_are_invalid_forms() {
    assert_eq!(
        Schema::from_serde(Serde {
            enm: Some(vec![]),
            ..Serde::default()
        }),
        Err(JddfError::InvalidForm)
    );
    assert_eq!(
        Schema::from_serde(Serde {
            enm: Some(vec![name("A"), name("A")]),
            ..Serde::default()
        }),
        Err(JddfError::InvalidForm)
    );
    assert_eq!(
        Schema::from_serde(Serde {
            enm: Some(vec![name("A"), name("B"), name("A")]),
            ..Serde::default()
        }),
        Err(JddfError::InvalidForm)
    );
}

#[test]
fn a_property_in_both_maps_is_ambiguous() {
    assert!(Schema::from_serde(Serde {
        props: Some(vec![(name("a"), typed("boolean"))]),
        opt_props: Some(vec![(name("b"), typed("boolean"))]),
        ..Serde::default()
    })
    .is_ok());
    assert_eq!(
        Schema::from_serde(Serde {
            props: Some(vec![(name("a"), typed("boolean"))]),
            opt_props: Some(vec![(name("a"), typed("boolean"))]),
            ..Serde::default()
        }),
        Err(JddfError::AmbiguousProperty {
            property: name("a")
        })
    );
}

#[test]
fn a_branch_that_declares_the_tag_is_ambiguous() {
    for optional in [false, true] {
        let declared = Some(vec![(name("foo"), Serde::default())]);
        let branch = if optional {
            Serde {
                opt_props: declared,
                ..Serde::default()
            }
        } else {
            Serde {
                props: declared,
                ..Serde::default()
            }
        };
        assert_eq!(
            Schema::from_serde(Serde {
                discriminator: Some(SerdeDiscriminator {
                    tag: name("foo"),
                    mapping: vec![(name("a"), branch)],
                }),
                ..Serde::default()
            }),
            Err(JddfError::AmbiguousProperty {
                property: name("foo")
            })
        );
    }
}

#[test]
fn a_branch_of_another_form_is_invalid() {
    assert_eq!(
        Schema::from_serde(Serde {
            discriminator: Some(SerdeDiscriminator {
                tag: name("foo"),
                mapping: vec![(name("a"), typed("boolean"))],
            }),
            ..Serde::default()
        }),
        Err(JddfError::InvalidForm)
    );
}

#[test]
fn a_dangling_reference_is_named() {
    assert_eq!(
        Schema::from_serde(Serde {
            defs: Some(vec![(name("a"), typed("boolean"))]),
            rxf: Some(name("b")),
            ..Serde::default()
        }),
        Err(JddfError::NoSuchDefinition {
            definition: name("b")
        })
    );
    // Inside a definition, and behind one that resolves.
    assert_eq!(
        Schema::from_serde(Serde {
            defs: Some(vec![
                (
                    name("a"),
                    Serde {
                        rxf: Some(name("b")),
                        ..Serde::default()
                    }
                ),
                (
                    name("b"),
                    Serde {
                        elems: Some(Box::new(Serde {
                            rxf: Some(name("c")),
                            ..Serde::default()
                        })),
                        ..Serde::default()
                    }
                ),
            ]),
            rxf: Some(name("a")),
            ..Serde::default()
        }),
        Err(JddfError::NoSuchDefinition {
            definition: name("c")
        })
    );
}

#[test]
fn references_may_point_forward_and_at_themselves() {
    let schema = Schema::from_serde(Serde {
        defs: Some(vec![
            (
                name("a"),
                Serde {
                    elems: Some(Box::new(Serde {
                        rxf: Some(name("b")),
                        ..Serde::default()
                    })),
                    ..Serde::default()
                },
            ),
            (
                name("b"),
                Serde {
                    values: Some(Box::new(Serde {
                        rxf: Some(name("b")),
                        ..Serde::default()
                    })),
                    ..Serde::default()
                },
            ),
        ]),
        rxf: Some(name("a")),
        ..Serde::default()
    })
    .unwrap();
    assert!(schema.is_root());
    assert_eq!(schema.definitions().as_ref().unwrap().len(), 2);
    assert_eq!(schema.form(), &Form::Ref(name("a")));
}

#[test]
fn definitions_below_the_root_are_refused() {
    assert_eq!(
        Schema::from_serde(Serde {
            elems: Some(Box::new(Serde {
                defs: Some(vec![]),
                ..Serde::default()
            })),
            ..Serde::default()
        }),
        Err(JddfError::NonRootDefinitions)
    );
    assert_eq!(
        Schema::from_serde(Serde {
            defs: Some(vec![(
                name("a"),
                Serde {
                    defs: Some(vec![]),
                    ..Serde::default()
                }
            )]),
            ..Serde::default()
        }),
        Err(JddfError::NonRootDefinitions)
    );
}

#[test]
fn a_name_twice_in_one_map_is_an_invalid_form() {
    assert_eq!(
        Schema::from_serde(Serde {
            props: Some(vec![
                (name("a"), Serde::default()),
                (name("a"), Serde::default())
            ]),
            ..Serde::default()
        }),
        Err(JddfError::InvalidForm)
    );
    assert_eq!(
        Schema::from_serde(Serde {
            defs: Some(vec![
                (name("a"), Serde::default()),
                (name("b"), Serde::default()),
                (name("a"), Serde::default())
            ]),
            ..Serde::default()
        }),
        Err(JddfError::InvalidForm)
    );
}

#[test]
fn every_type_name_is_read_and_written() {
    let all = [
        ("boolean", Type::Boolean),
        ("float32", Type::Float32),
        ("float64", Type::Float64),
        ("int8", Type::Int8),
        ("uint8", Type::Uint8),
        ("int16", Type::Int16),
        ("uint16", Type::Uint16),
        ("int32", Type::Int32),
        ("uint32", Type::Uint32),
        ("string", Type::String),
        ("timestamp", Type::Timestamp),
    ];
    for (text, t) in all {
        let schema = Schema::from_serde(typed(text)).unwrap();
        assert_eq!(schema.form(), &Form::Type(t));
        assert_eq!(schema.into_serde().typ, Some(name(text)));
    }
    assert_eq!(
        Schema::from_serde(typed("Boolean")),
        Err(JddfError::InvalidForm)
    );
}

#[test]
fn accessors_give_the_parts() {
    let schema = Schema::from_parts(
        None,
        Box::new(Form::Empty),
        vec![(name("k"), Value::Bool(true))],
    );
    assert!(!schema.is_root());
    assert_eq!(schema.definitions(), &None);
    assert_eq!(schema.form(), &Form::Empty);
    assert_eq!(schema.extra(), &vec![(name("k"), Value::Bool(true))]);
}

#[test]
fn round_trip_keeps_a_normal_wire_schema() {
    let wire = || Serde {
        defs: Some(vec![(
            name("a"),
            Serde {
                enm: Some(vec![name("X"), name("Y")]),
                extra: vec![(name("note"), Value::Null)],
                ..Serde::default()
            },
        )]),
        additional_props: Some(true),
        props: Some(vec![(
            name("p"),
            Serde {
                rxf: Some(name("a")),
                ..Serde::default()
            },
        )]),
        opt_props: Some(vec![(
            name("q"),
            Serde {
                discriminator: Some(SerdeDiscriminator {
                    tag: name("t"),
                    mapping: vec![(
                        name("x"),
                        Serde {
                            opt_props: Some(vec![]),
                            ..Serde::default()
                        },
                    )],
                }),
                ..Serde::default()
            },
        )]),
        extra: vec![(name("meta"), Value::String(name("v")))],
        ..Serde::default()
    };
    assert_eq!(Schema::from_serde(wire()).unwrap().into_serde(), wire());
}

#[test]
fn round_trip_normalizes_what_is_absent_or_empty() {
    // A root gets definitions; `additionalProperties: false` and an empty
    // `optionalProperties` beside `properties` are not written.
    let back = Schema::from_serde(Serde {
        additional_props: Some(false),
        props: Some(vec![]),
        opt_props: Some(vec![]),
        ..Serde::default()
    })
    .unwrap()
    .into_serde();
    assert_eq!(
        back,
        Serde {
            defs: Some(vec![]),
            props: Some(vec![]),
            ..Serde::default()
        }
    );

    // Without `properties`, `optionalProperties` stays even when empty.
    let back = Schema::from_serde(Serde {
        opt_props: Some(vec![]),
        ..Serde::default()
    })
    .unwrap()
    .into_serde();
    assert_eq!(
        back,
        Serde {
            defs: Some(vec![]),
            opt_props: Some(vec![]),
            ..Serde::default()
        }
    );
}

#[test]
fn into_serde_follows_the_record_of_properties() {
    // Made by hand: required properties although `properties` is recorded
    // as absent.
    let schema = Schema::from_parts(
        None,
        Box::new(Form::Properties {
            required: vec![(name("a"), plain(Form::Empty))],
            optional: vec![],
            allow_additional: false,
            has_required: false,
        }),
        vec![],
    );
    let wire = schema.into_serde();
    assert_eq!(wire.props, Some(vec![(name("a"), Serde::default())]));
    assert_eq!(wire.opt_props, Some(vec![]));
    assert_eq!(wire.additional_props, None);
    assert_eq!(wire.defs, None);
}

#[test]
fn copies_are_equal_to_what_they_copy() {
    let wire = Serde {
        defs: Some(vec![(name("a"), typed("string"))]),
        props: Some(vec![(
            name("p"),
            Serde {
                rxf: Some(name("a")),
                extra: vec![(name("x"), Value::Bool(true))],
                ..Serde::default()
            },
        )]),
        opt_props: Some(vec![(
            name("q"),
            Serde {
                enm: Some(vec![name("A"), name("B")]),
                ..Serde::default()
            },
        )]),
        ..Serde::default()
    };
    assert_eq!(wire.clone(), wire);
    let schema = Schema::from_serde(wire).unwrap();
    assert_eq!(schema.clone(), schema);
    assert_eq!(schema.form().clone(), *schema.form());
    let discriminator = SerdeDiscriminator {
        tag: name("t"),
        mapping: vec![(name("x"), Serde::default())],
    };
    assert_eq!(discriminator.clone(), discriminator);
}

#[test]
fn a_schema_is_built_again_from_what_it_writes() {
    let wire = Serde {
        defs: Some(vec![
            (name("a"), typed("uint16")),
            (
                name("b"),
                Serde {
                    values: Some(Box::new(Serde {
                        rxf: Some(name("b")),
                        ..Serde::default()
                    })),
                    ..Serde::default()
                },
            ),
        ]),
        additional_props: Some(false),
        props: Some(vec![(
            name("p"),
            Serde {
                rxf: Some(name("a")),
                ..Serde::default()
            },
        )]),
        opt_props: Some(vec![]),
        extra: vec![(name("meta"), Value::Null)],
        ..Serde::default()
    };
    let schema = Schema::from_serde(wire).unwrap();
    let again = Schema::from_serde(schema.clone().into_serde()).unwrap();
    assert_eq!(again, schema);
}
