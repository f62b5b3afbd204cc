use jddf::pointer::pointer;
use jddf::{Json, Number, Schema, Serde, Token, Validator};

fn name(s: &str) -> String {
    s.to_owned()
}

fn key(s: &str) -> Token {
    Token::Key(name(s))
}

#[test]
fn the_empty_path_is_the_empty_pointer() {
    assert_eq!(pointer(&vec![]), "");
}

#[test]
fn tokens_follow_slashes() {
    assert_eq!(pointer(&vec![key("a")]), "/a");
    assert_eq!(pointer(&vec![key("")]), "/");
    assert_eq!(
        pointer(&vec![key("elements"), Token::Index(2), key("type")]),
        "/elements/2/type"
    );
}

#[test]
fn positions_are_written_in_decimal() {
    for n in [0usize, 1, 9, 10, 11, 99, 100, 101, 12345, 9876543210] {
        assert_eq!(pointer(&vec![Token::Index(n)]), format!("/{}", n));
    }
    assert_eq!(
        pointer(&vec![Token::Index(usize::MAX)]),
        format!("/{}", usize::MAX)
    );
}

#[test]
fn keys_are_escaped() {
    assert_eq!(pointer(&vec![key("a/b")]), "/a~1b");
    assert_eq!(pointer(&vec![key("m~n")]), "/m~0n");
    assert_eq!(pointer(&vec![key("~1")]), "/~01");
    assert_eq!(pointer(&vec![key("//")]), "/~1~1");
    assert_eq!(pointer(&vec![key("é ü"), key("0")]), "/é ü/0");
    // A key of digits is written as the position of that number is.
    assert_eq!(pointer(&vec![key("2")]), pointer(&vec![Token::Index(2)]));
}

#[test]
fn an_error_gives_both_pointers() {
    let schema = Schema::from_serde(Serde {
        elems: Some(Box::new(Serde {
            typ: Some(name("boolean")),
            ..Serde::default()
        })),
        ..Serde::default()
    })
    .unwrap();
    let instance = Json::Array(vec![
        Json::Bool(true),
        Json::Bool(false),
        Json::Number(Number::PosInt(1)),
    ]);
    let errors = Validator::new().validate(&schema, &instance).unwrap();
    assert_eq!(errors.len(), 1);
    assert_eq!(errors[0].instance_pointer(), "/2");
    assert_eq!(errors[0].schema_pointer(), "/elements/type");
    assert_eq!(errors[0].clone(), errors[0]);
}

#[test]
fn an_error_at_the_root_has_empty_pointers() {
    let schema = Schema::from_serde(Serde {
        props: Some(vec![]),
        ..Serde::default()
    })
    .unwrap();
    let instance = Json::Object(vec![(name("a/b"), Json::Null)]);
    let errors = Validator::new().validate(&schema, &instance).unwrap();
    assert_eq!(errors.len(), 1);
    assert_eq!(errors[0].instance_pointer(), "/a~1b");
    assert_eq!(errors[0].schema_pointer(), "");
}
