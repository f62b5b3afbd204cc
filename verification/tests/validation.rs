use jddf::json::float_to_integer;
use jddf::timestamp::is_timestamp;
use jddf::validator::type_matches;
use jddf::{
    Config, JddfError, Json, Number, Schema, Serde, SerdeDiscriminator, Token, Type,
    ValidationError, Validator,
};

fn name(s: &str) -> String {
    s.to_owned()
}

fn typed(t: &str) -> Serde {
    Serde {
        typ: Some(name(t)),
        ..Serde::default()
    }
}

fn reference(to: &str) -> Serde {
    Serde {
        rxf: Some(name(to)),
        ..Serde::default()
    }
}

fn text(s: &str) -> Json {
    Json::String(name(s))
}

fn whole(n: u64) -> Json {
    Json::Number(Number::PosInt(n))
}

fn float(x: f64) -> Json {
    Json::Number(Number::Float(x.to_bits()))
}

fn object(members: Vec<(&str, Json)>) -> Json {
    Json::Object(members.into_iter().map(|(k, v)| (name(k), v)).collect())
}

fn key(s: &str) -> Token {
    Token::Key(name(s))
}

fn keys(path: &[&str]) -> Vec<Token> {
    path.iter().map(|s| key(s)).collect()
}

/// The errors as pairs of instance path and schema path.
fn paths(errors: &[ValidationError]) -> Vec<(Vec<Token>, Vec<Token>)> {
    errors
        .iter()
        .map(|e| (e.instance_path().clone(), e.schema_path().clone()))
        .collect()
}

fn check(wire: Serde, instance: &Json) -> Vec<(Vec<Token>, Vec<Token>)> {
    let schema = Schema::from_serde(wire).unwrap();
    paths(&Validator::new().validate(&schema, instance).unwrap())
}

fn discriminated() -> Serde {
    Serde {
        discriminator: Some(SerdeDiscriminator {
            tag: name("t"),
            mapping: vec![(
                name("x"),
                Serde {
                    props: Some(vec![]),
                    ..Serde::default()
                },
            )],
        }),
        ..Serde::default()
    }
}

#[test]
fn discriminator_with_a_known_tag_has_no_error() {
    assert_eq!(
        check(discriminated(), &object(vec![("t", text("x"))])),
        vec![]
    );
}

#[test]
fn discriminator_with_an_unknown_tag_has_one_error_at_the_mapping() {
    assert_eq!(
        check(discriminated(), &object(vec![("t", text("y"))])),
        vec![(keys(&["t"]), keys(&["discriminator", "mapping"]))]
    );
}

#[test]
fn discriminator_without_the_tag_has_one_error_at_the_discriminator() {
    assert_eq!(
        check(discriminated(), &object(vec![])),
        vec![(vec![], keys(&["discriminator"]))]
    );
}

#[test]
fn discriminator_on_no_object_has_one_error_at_the_discriminator() {
    assert_eq!(
        check(discriminated(), &whole(5)),
        vec![(vec![], keys(&["discriminator"]))]
    );
}

#[test]
fn discriminator_with_a_tag_that_is_no_string_has_one_error() {
    assert_eq!(
        check(discriminated(), &object(vec![("t", whole(1))])),
        vec![(keys(&["t"]), keys(&["discriminator"]))]
    );
}

#[test]
fn discriminator_branch_is_entered_under_its_tag_value() {
    let wire = Serde {
        discriminator: Some(SerdeDiscriminator {
            tag: name("t"),
            mapping: vec![(
                name("x"),
                Serde {
                    props: Some(vec![(name("a"), typed("boolean"))]),
                    ..Serde::default()
                },
            )],
        }),
        ..Serde::default()
    };
    assert_eq!(
        check(
            wire,
            &object(vec![("t", text("x")), ("a", whole(1)), ("b", Json::Null)])
        ),
        vec![
            (
                keys(&["a"]),
                keys(&["discriminator", "mapping", "x", "properties", "a", "type"])
            ),
            (keys(&["b"]), keys(&["discriminator", "mapping", "x"])),
        ]
    );
}

#[test]
fn elements_reports_the_element_that_is_at_fault() {
    let wire = Serde {
        elems: Some(Box::new(typed("boolean"))),
        ..Serde::default()
    };
    assert_eq!(
        check(
            wire,
            &Json::Array(vec![Json::Bool(true), Json::Bool(false), whole(1)])
        ),
        vec![(vec![Token::Index(2)], keys(&["elements", "type"]))]
    );
}

#[test]
fn elements_accepts_an_empty_array_and_refuses_what_is_no_array() {
    let wire = || Serde {
        elems: Some(Box::new(typed("boolean"))),
        ..Serde::default()
    };
    assert_eq!(check(wire(), &Json::Array(vec![])), vec![]);
    assert_eq!(
        check(wire(), &object(vec![])),
        vec![(vec![], keys(&["elements"]))]
    );
}

fn self_referential() -> Serde {
    Serde {
        defs: Some(vec![(
            name("a"),
            Serde {
                elems: Some(Box::new(reference("a"))),
                ..Serde::default()
            },
        )]),
        rxf: Some(name("a")),
        ..Serde::default()
    }
}

fn nested_array(levels: usize) -> Json {
    let mut value = Json::Array(vec![]);
    for _ in 1..levels {
        value = Json::Array(vec![value]);
    }
    value
}

#[test]
fn a_schema_that_refers_to_itself_fails_beyond_the_depth() {
    let schema = Schema::from_serde(self_referential()).unwrap();
    let validator = Validator::new();
    // An array of n levels follows n references, one inside the other.
    assert_eq!(validator.validate(&schema, &nested_array(32)), Ok(vec![]));
    assert_eq!(
        validator.validate(&schema, &nested_array(33)),
        Err(JddfError::MaxDepthExceeded)
    );
    assert_eq!(
        validator.validate(&schema, &nested_array(500)),
        Err(JddfError::MaxDepthExceeded)
    );
}

#[test]
fn the_depth_limit_counts_references_inside_each_other() {
    let schema = Schema::from_serde(self_referential()).unwrap();
    let limit = |max_depth| {
        Validator::new_with_config(Config {
            max_errors: 0,
            max_depth,
        })
    };
    assert_eq!(
        limit(0).validate(&schema, &Json::Null),
        Err(JddfError::MaxDepthExceeded)
    );
    assert_eq!(limit(1).validate(&schema, &nested_array(1)), Ok(vec![]));
    assert_eq!(
        limit(1).validate(&schema, &nested_array(2)),
        Err(JddfError::MaxDepthExceeded)
    );
    // References side by side do not add up.
    let wide = Json::Array(vec![nested_array(1), nested_array(1), nested_array(1)]);
    assert_eq!(limit(2).validate(&schema, &wide), Ok(vec![]));
}

#[test]
fn errors_before_the_depth_is_exceeded_are_lost_with_the_run() {
    let schema = Schema::from_serde(self_referential()).unwrap();
    let instance = Json::Array(vec![Json::Null, nested_array(40)]);
    assert_eq!(
        Validator::new().validate(&schema, &instance),
        Err(JddfError::MaxDepthExceeded)
    );
    // With a limit on the errors that is reached first, the run ends well.
    let first_only = Validator::new_with_config(Config {
        max_errors: 1,
        max_depth: 32,
    });
    assert_eq!(
        paths(&first_only.validate(&schema, &instance).unwrap()),
        vec![(vec![Token::Index(0)], keys(&["elements", "elements"]))]
    );
}

#[test]
fn a_reference_adds_nothing_to_the_paths() {
    let wire = Serde {
        defs: Some(vec![(name("a"), typed("boolean"))]),
        elems: Some(Box::new(reference("a"))),
        ..Serde::default()
    };
    assert_eq!(
        check(wire, &Json::Array(vec![whole(1)])),
        vec![(vec![Token::Index(0)], keys(&["elements", "type"]))]
    );
}

#[test]
fn the_errors_stop_at_the_limit() {
    let schema = Schema::from_serde(Serde {
        elems: Some(Box::new(typed("boolean"))),
        ..Serde::default()
    })
    .unwrap();
    let instance = Json::Array(vec![whole(1), Json::Bool(true), whole(2), whole(3)]);
    let all = vec![
        (vec![Token::Index(0)], keys(&["elements", "type"])),
        (vec![Token::Index(2)], keys(&["elements", "type"])),
        (vec![Token::Index(3)], keys(&["elements", "type"])),
    ];
    for max_errors in 0..6 {
        let validator = Validator::new_with_config(Config {
            max_errors,
            max_depth: 32,
        });
        let found = paths(&validator.validate(&schema, &instance).unwrap());
        let expected = if max_errors == 0 || max_errors >= 3 {
            all.clone()
        } else {
            all[..max_errors].to_vec()
        };
        assert_eq!(found, expected);
    }
}

#[test]
fn validating_twice_gives_the_same_errors_in_the_same_order() {
    let schema = Schema::from_serde(Serde {
        props: Some(vec![
            (name("a"), typed("string")),
            (name("b"), typed("uint8")),
        ]),
        opt_props: Some(vec![(name("c"), typed("boolean"))]),
        ..Serde::default()
    })
    .unwrap();
    let instance = object(vec![("z", Json::Null), ("c", whole(1)), ("b", whole(256))]);
    let validator = Validator::new();
    let first = validator.validate(&schema, &instance);
    let second = validator.validate(&schema, &instance);
    assert_eq!(first, second);
    assert_eq!(
        paths(&first.unwrap()),
        vec![
            (vec![], keys(&["properties", "a"])),
            (keys(&["b"]), keys(&["properties", "b", "type"])),
            (keys(&["c"]), keys(&["optionalProperties", "c", "type"])),
            (keys(&["z"]), vec![]),
        ]
    );
}

#[test]
fn properties_allow_more_only_where_the_schema_says_so() {
    let wire = |additional| Serde {
        additional_props: additional,
        props: Some(vec![(name("a"), Serde::default())]),
        ..Serde::default()
    };
    let instance = object(vec![("a", Json::Null), ("b", Json::Null)]);
    assert_eq!(check(wire(Some(true)), &instance), vec![]);
    assert_eq!(
        check(wire(Some(false)), &instance),
        vec![(keys(&["b"]), vec![])]
    );
    assert_eq!(check(wire(None), &instance), vec![(keys(&["b"]), vec![])]);
}

#[test]
fn properties_on_no_object_name_the_keyword_that_was_written() {
    let required = Serde {
        props: Some(vec![]),
        ..Serde::default()
    };
    let optional = Serde {
        opt_props: Some(vec![]),
        ..Serde::default()
    };
    assert_eq!(
        check(required, &Json::Null),
        vec![(vec![], keys(&["properties"]))]
    );
    assert_eq!(
        check(optional, &Json::Null),
        vec![(vec![], keys(&["optionalProperties"]))]
    );
}

#[test]
fn optional_properties_may_be_absent() {
    let wire = Serde {
        opt_props: Some(vec![(name("a"), typed("boolean"))]),
        ..Serde::default()
    };
    assert_eq!(check(wire, &object(vec![])), vec![]);
}

#[test]
fn values_are_checked_under_their_keys() {
    let wire = || Serde {
        values: Some(Box::new(typed("string"))),
        ..Serde::default()
    };
    assert_eq!(
        check(
            wire(),
            &object(vec![("a", text("x")), ("b", whole(1)), ("c", Json::Null)])
        ),
        vec![
            (keys(&["b"]), keys(&["values", "type"])),
            (keys(&["c"]), keys(&["values", "type"])),
        ]
    );
    assert_eq!(
        check(wire(), &Json::Array(vec![])),
        vec![(vec![], keys(&["values"]))]
    );
}

#[test]
fn enum_accepts_its_members_only() {
    let wire = || Serde {
        enm: Some(vec![name("A"), name("B")]),
        ..Serde::default()
    };
    assert_eq!(check(wire(), &text("B")), vec![]);
    assert_eq!(check(wire(), &text("C")), vec![(vec![], keys(&["enum"]))]);
    assert_eq!(check(wire(), &whole(0)), vec![(vec![], keys(&["enum"]))]);
}

#[test]
fn the_empty_form_accepts_anything() {
    for instance in [
        Json::Null,
        Json::Bool(false),
        whole(7),
        text(""),
        Json::Array(vec![Json::Null]),
        object(vec![("a", Json::Null)]),
    ] {
        assert_eq!(check(Serde::default(), &instance), vec![]);
    }
}

#[test]
fn the_first_member_with_a_key_is_the_one_that_is_read() {
    let wire = Serde {
        props: Some(vec![(name("a"), typed("boolean"))]),
        ..Serde::default()
    };
    let instance = Json::Object(vec![
        (name("a"), Json::Bool(true)),
        (name("a"), whole(1)),
    ]);
    assert_eq!(check(wire, &instance), vec![]);
}

#[test]
fn integer_types_have_their_ranges() {
    let cases: [(Type, i64, i64); 6] = [
        (Type::Int8, -128, 127),
        (Type::Uint8, 0, 255),
        (Type::Int16, -32768, 32767),
        (Type::Uint16, 0, 65535),
        (Type::Int32, -2147483648, 2147483647),
        (Type::Uint32, 0, 4294967295),
    ];
    for (t, lo, hi) in cases {
        let number = |n: i64| {
            if n < 0 {
                Json::Number(Number::NegInt(n))
            } else {
                Json::Number(Number::PosInt(n as u64))
            }
        };
        assert!(type_matches(t, &number(lo)));
        assert!(type_matches(t, &number(hi)));
        assert!(!type_matches(t, &number(lo - 1)));
        assert!(!type_matches(t, &number(hi + 1)));
        assert!(type_matches(t, &float(lo as f64)));
        assert!(type_matches(t, &float(hi as f64)));
        assert!(!type_matches(t, &float(lo as f64 - 1.0)));
        assert!(!type_matches(t, &float(hi as f64 + 1.0)));
        assert!(!type_matches(t, &float(0.5)));
        assert!(!type_matches(t, &text("1")));
        assert!(!type_matches(t, &Json::Null));
    }
    assert!(!type_matches(
        Type::Uint32,
        &Json::Number(Number::PosInt(u64::MAX))
    ));
    assert!(!type_matches(
        Type::Int32,
        &Json::Number(Number::NegInt(i64::MIN))
    ));
}

#[test]
fn other_types_go_by_the_kind_of_value() {
    assert!(type_matches(Type::Boolean, &Json::Bool(false)));
    assert!(!type_matches(Type::Boolean, &whole(0)));
    assert!(type_matches(Type::Float32, &float(0.1)));
    assert!(type_matches(Type::Float64, &whole(3)));
    assert!(type_matches(Type::Float64, &float(1e300)));
    assert!(!type_matches(Type::Float64, &text("1.0")));
    assert!(type_matches(Type::String, &text("")));
    assert!(!type_matches(Type::String, &Json::Null));
    assert!(type_matches(
        Type::Timestamp,
        &text("1985-04-12T23:20:50.52Z")
    ));
    assert!(!type_matches(Type::Timestamp, &text("yesterday")));
    assert!(!type_matches(Type::Timestamp, &whole(0)));
}

#[test]
fn floats_are_decoded_to_the_integers_they_stand_for() {
    assert_eq!(float_to_integer(0.0f64.to_bits()), Some(0));
    assert_eq!(float_to_integer((-0.0f64).to_bits()), Some(0));
    assert_eq!(float_to_integer(1.0f64.to_bits()), Some(1));
    assert_eq!(float_to_integer(0x3ff0_0000_0000_0000), Some(1));
    assert_eq!(float_to_integer((-1.0f64).to_bits()), Some(-1));
    assert_eq!(float_to_integer(3.0f64.to_bits()), Some(3));
    assert_eq!(float_to_integer(1024.0f64.to_bits()), Some(1024));
    assert_eq!(float_to_integer((-128.0f64).to_bits()), Some(-128));
    assert_eq!(
        float_to_integer(4294967295.0f64.to_bits()),
        Some(4294967295)
    );
    assert_eq!(
        float_to_integer(9007199254740991.0f64.to_bits()),
        Some(9007199254740991)
    );
    assert_eq!(
        float_to_integer((-9007199254740991.0f64).to_bits()),
        Some(-9007199254740991)
    );
    // 2^53 and beyond are left out.
    assert_eq!(float_to_integer(9007199254740992.0f64.to_bits()), None);
    assert_eq!(float_to_integer(1e300f64.to_bits()), None);
    assert_eq!(float_to_integer(0.5f64.to_bits()), None);
    assert_eq!(float_to_integer(1.5f64.to_bits()), None);
    assert_eq!(float_to_integer(2.5f64.to_bits()), None);
    assert_eq!(float_to_integer(1e-300f64.to_bits()), None);
    assert_eq!(float_to_integer(5e-324f64.to_bits()), None);
    assert_eq!(float_to_integer(f64::INFINITY.to_bits()), None);
    assert_eq!(float_to_integer(f64::NEG_INFINITY.to_bits()), None);
    assert_eq!(float_to_integer(f64::NAN.to_bits()), None);
}

#[test]
fn every_small_integer_survives_the_float() {
    for n in -2000i64..2000 {
        assert_eq!(float_to_integer((n as f64).to_bits()), Some(n));
        assert_eq!(float_to_integer((n as f64 + 0.25).to_bits()), None);
    }
}

#[test]
fn numbers_give_their_small_integers() {
    assert_eq!(Number::PosInt(7).to_integer(), Some(7));
    assert_eq!(Number::NegInt(-7).to_integer(), Some(-7));
    assert_eq!(
        Number::PosInt((1 << 53) - 1).to_integer(),
        Some((1 << 53) - 1)
    );
    assert_eq!(Number::PosInt(1 << 53).to_integer(), None);
    assert_eq!(Number::NegInt(-(1 << 53)).to_integer(), None);
    assert_eq!(Number::Float(2.0f64.to_bits()).to_integer(), Some(2));
}

#[test]
fn timestamps_are_recognized() {
    for good in [
        "1985-04-12T23:20:50.52Z",
        "1996-12-19T16:39:57-08:00",
        "1990-12-31T23:59:60Z",
        "1990-12-31T15:59:60-08:00",
        "1937-01-01T12:00:27.87+00:20",
        "2000-02-29T00:00:00Z",
        "2024-02-29T00:00:00z",
        "2024-01-31t00:00:00Z",
        "0000-01-01T00:00:00.000000000000000000001+23:59",
    ] {
        assert!(is_timestamp(good), "{}", good);
    }
}

#[test]
fn what_is_no_timestamp_is_refused() {
    for bad in [
        "",
        "1985-04-12",
        "1985-04-12T23:20:50",
        "1985-04-12T23:20:50.Z",
        "1985-04-12T23:20:50.5",
        "1985-04-12 23:20:50Z",
        "1985-04-12T23:20:50Zx",
        "1985-04-12T23:20:50+0800",
        "1985-04-12T23:20:50+08:0",
        "1985-04-12T23:20:50+24:00",
        "1985-04-12T23:20:50+08:60",
        "1985-4-12T23:20:50Z",
        "1985-04-12T24:00:00Z",
        "1985-04-12T23:60:00Z",
        "1985-04-12T23:59:61Z",
        "1985-13-12T23:20:50Z",
        "1985-00-12T23:20:50Z",
        "1985-04-00T23:20:50Z",
        "1985-04-31T23:20:50Z",
        "1900-02-29T00:00:00Z",
        "2023-02-29T00:00:00Z",
        "1985-04-12T23:20:5\u{661}Z",
        "\u{1f600}985-04-12T23:20:50Z",
        "1985/04/12T23:20:50Z",
        "1985-04-12T23-20-50Z",
    ] {
        assert!(!is_timestamp(bad), "{}", bad);
    }
}

#[test]
fn the_days_of_each_month_are_known() {
    let days = [31, 28, 31, 30, 31, 30, 31, 31, 30, 31, 30, 31];
    for (month, last) in days.iter().enumerate() {
        let stamp = |day| format!("2023-{:02}-{:02}T00:00:00Z", month + 1, day);
        assert!(is_timestamp(&stamp(*last)));
        assert!(!is_timestamp(&stamp(*last + 1)));
    }
    assert!(is_timestamp("2400-02-29T00:00:00Z"));
    assert!(!is_timestamp("2100-02-29T00:00:00Z"));
}

#[test]
fn config_starts_without_a_limit_on_the_errors() {
    assert_eq!(
        Config::new(),
        Config {
            max_errors: 0,
            max_depth: 32
        }
    );
    assert_eq!(Config::default(), Config::new());
    assert_eq!(Validator::new().config, Config::new());
    assert_eq!(
        Config::new().max_errors(3).max_depth(5),
        Config {
            max_errors: 3,
            max_depth: 5
        }
    );
    let config = Config::new().max_depth(1);
    assert_eq!(Validator::new_with_config(config).config, config);
}

#[test]
fn a_copy_of_an_instance_is_equal_to_it() {
    let instance = object(vec![
        ("a", Json::Array(vec![whole(1), float(0.5), Json::Null])),
        ("b", object(vec![("c", text("d")), ("e", Json::Bool(true))])),
    ]);
    assert_eq!(instance.clone(), instance);
}

#[test]
fn a_schema_by_hand_is_checked_before_a_run() {
    let dangling = Schema::from_parts(
        Some(vec![]),
        Box::new(jddf::Form::Ref(name("a"))),
        vec![],
    );
    assert!(!dangling.is_closed());
    let below = Schema::from_parts(None, Box::new(jddf::Form::Empty), vec![]);
    assert!(!below.is_closed());
    let inside = Schema::from_parts(
        Some(vec![(
            name("a"),
            Schema::from_parts(
                None,
                Box::new(jddf::Form::Values(Schema::from_parts(
                    None,
                    Box::new(jddf::Form::Ref(name("b"))),
                    vec![],
                ))),
                vec![],
            ),
        )]),
        Box::new(jddf::Form::Ref(name("a"))),
        vec![],
    );
    assert!(!inside.is_closed());
    assert!(Schema::from_serde(self_referential()).unwrap().is_closed());
}
