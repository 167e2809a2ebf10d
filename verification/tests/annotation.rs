use spring_visualizer::annotation::{
    parse_annotation, parse_annotations, parse_arg, parse_args, parse_key_value_pairs, Annotation,
    AnnotationArg, AnnotationArgs, ArgMap,
};
use spring_visualizer::error::ParseError;

fn class(name: &str) -> AnnotationArg {
    AnnotationArg::Class(name.to_string())
}

fn string(text: &str) -> AnnotationArg {
    AnnotationArg::String(text.to_string())
}

#[test]
pub fn annotation_parse_annotation_with_class_value_succeeds() {
    assert_eq!(
        Ok((
            "",
            Annotation::new(
                "MyAnnotation".to_string(),
                AnnotationArgs::Single(AnnotationArg::Class("Test".to_string()))
            )
        )),
        parse_annotation("@MyAnnotation(Test.class)")
    );
}

#[test]
pub fn annotation_parse_annotation_with_string_value_succeeds() {
    assert_eq!(
        Ok((
            "",
            Annotation::new(
                "MyAnnotation".to_string(),
                AnnotationArgs::Single(AnnotationArg::String("com.example".to_string()))
            )
        )),
        parse_annotation("@MyAnnotation(\"com.example\")")
    );
}

#[test]
pub fn annotation_parse_annotation_with_array_value_succeeds() {
    assert_eq!(
        Ok((
            "",
            Annotation::new(
                "MyAnnotation".to_string(),
                AnnotationArgs::Single(AnnotationArg::Array(vec![
                    AnnotationArg::String("com.example".to_string()),
                    AnnotationArg::Class("Foo".to_string())
                ]))
            )
        )),
        parse_annotation("@MyAnnotation({\"com.example\", Foo.class})")
    );
}

#[test]
pub fn annotation_parse_annotation_with_key_value_pairs_succeeds() {
    assert_eq!(
        Ok((
            "",
            Annotation::new(
                "MyAnnotation".to_string(),
                AnnotationArgs::Multi(ArgMap::from_pairs(vec![
                    ("foo".to_string(), AnnotationArg::Class("Foo".to_string())),
                    (
                        "bar".to_string(),
                        AnnotationArg::String("com.example".to_string())
                    ),
                    (
                        "baz".to_string(),
                        AnnotationArg::Array(vec![
                            AnnotationArg::Class("A".to_string()),
                            AnnotationArg::Class("B".to_string())
                        ])
                    )
                ]))
            )
        )),
        parse_annotation(
            "@MyAnnotation(foo = Foo.class, bar = \"com.example\", baz = {A.class, B.class})"
        )
    );
}

#[test]
pub fn lib_parse_annotation_with_class_value_succeeds() {
    assert_eq!(
        Ok((
            "",
            Annotation::new(
                "MyAnnotation".to_string(),
                AnnotationArgs::Single(AnnotationArg::Class("Test".to_string()))
            )
        )),
        parse_annotation("@MyAnnotation(Test.class)")
    );
}

#[test]
pub fn lib_parse_annotation_with_string_value_succeeds() {
    assert_eq!(
        Ok((
            "",
            Annotation::new(
                "MyAnnotation".to_string(),
                AnnotationArgs::Single(AnnotationArg::String("com.example".to_string()))
            )
        )),
        parse_annotation("@MyAnnotation(\"com.example\")")
    );
}

#[test]
pub fn lib_parse_annotation_with_array_value_succeeds() {
    assert_eq!(
        Ok((
            "",
            Annotation::new(
                "MyAnnotation".to_string(),
                AnnotationArgs::Single(AnnotationArg::Array(vec![
                    AnnotationArg::String("com.example".to_string()),
                    AnnotationArg::Class("Foo".to_string())
                ]))
            )
        )),
        parse_annotation("@MyAnnotation({\"com.example\", Foo.class})")
    );
}

#[test]
pub fn lib_parse_annotation_with_key_value_pairs_succeeds() {
    assert_eq!(
        Ok((
            "",
            Annotation::new(
                "MyAnnotation".to_string(),
                AnnotationArgs::Multi(ArgMap::from_pairs(vec![
                    ("foo".to_string(), AnnotationArg::Class("Foo".to_string())),
                    ("bar".to_string(), AnnotationArg::String("com.example".to_string())),
                    (
                        "baz".to_string(),
                        AnnotationArg::Array(vec![
                            AnnotationArg::Class("A".to_string()),
                            AnnotationArg::Class("B".to_string())
                        ])
                    )
                ]))
            )
        )),
        parse_annotation(
            "@MyAnnotation(foo = Foo.class, bar = \"com.example\", baz = {A.class, B.class})"
        )
    );
}

#[test]
fn value_forms() {
    assert_eq!(parse_arg("\"com.example\""), Ok(("", string("com.example"))));
    assert_eq!(parse_arg("Foo.class"), Ok(("", class("Foo"))));
    assert_eq!(parse_arg("Foo.class, rest"), Ok((", rest", class("Foo"))));
    assert_eq!(parse_arg("a.b.Foo.class.class"), Ok((".class", class("a.b.Foo"))));
    assert_eq!(parse_arg(".class"), Ok(("", class(""))));
    assert_eq!(parse_arg("\"a\"b\""), Ok(("b\"", string("a"))));
    assert_eq!(parse_arg("\"\""), Ok(("", string(""))));
    assert_eq!(parse_arg("{}"), Ok(("", AnnotationArg::Array(vec![]))));
    assert_eq!(parse_arg("{ }x"), Ok(("x", AnnotationArg::Array(vec![]))));
    assert_eq!(
        parse_arg("{ \"a\",  B.class,\tC.class}"),
        Ok(("", AnnotationArg::Array(vec![string("a"), class("B"), class("C")])))
    );
}

#[test]
fn value_errors() {
    assert_eq!(parse_arg(""), Err(ParseError::MalformedValue));
    assert_eq!(parse_arg("Foo"), Err(ParseError::MalformedValue));
    assert_eq!(parse_arg("\"open"), Err(ParseError::MalformedValue));
    assert_eq!(parse_arg("{A.class"), Err(ParseError::MalformedValue));
}

#[test]
fn array_stops_at_what_is_no_value() {
    assert_eq!(
        parse_arg("{A.class, junk}"),
        Ok(("", AnnotationArg::Array(vec![class("A")])))
    );
    assert_eq!(parse_arg("{junk}"), Ok(("", AnnotationArg::Array(vec![]))));
    // Only blanks are set aside behind a comma: a line feed belongs to the
    // type reference that follows.
    assert_eq!(
        parse_arg("{A.class,\nB.class}"),
        Ok(("", AnnotationArg::Array(vec![class("A"), class("\nB")])))
    );
    assert_eq!(
        parse_arg("{A.class ,B.class}"),
        Ok(("", AnnotationArg::Array(vec![class("A")])))
    );
    assert_eq!(
        parse_arg("{{A.class}, B.class}"),
        Ok((", B.class}", AnnotationArg::Array(vec![])))
    );
}

#[test]
fn payload_classification() {
    assert_eq!(
        parse_args("Foo.class"),
        Ok(("", AnnotationArgs::Single(class("Foo"))))
    );
    assert_eq!(
        parse_args("a = Foo.class"),
        Ok((
            "",
            AnnotationArgs::Multi(ArgMap::from_pairs(vec![("a".to_string(), class("Foo"))]))
        ))
    );
    // An equals sign inside a string literal still selects the keyed reading.
    assert_eq!(
        parse_args("\"a=b\""),
        Ok(("\"a=b\"", AnnotationArgs::Multi(ArgMap::new())))
    );
}

#[test]
fn key_value_pairs() {
    let (rest, map) = parse_key_value_pairs("a = \"x\", b=B.class,c ={}  tail").unwrap();
    assert_eq!(rest, "tail");
    assert_eq!(map.get("a"), Some(&string("x")));
    assert_eq!(map.get("b"), Some(&class("B")));
    assert_eq!(map.get("c"), Some(&AnnotationArg::Array(vec![])));
    assert_eq!(map.get("d"), None);

    let (rest, map) = parse_key_value_pairs("a = \"x\", a = \"y\"").unwrap();
    assert_eq!(rest, "");
    assert_eq!(map.get("a"), Some(&string("y")));

    let (rest, map) = parse_key_value_pairs("no pair").unwrap();
    assert_eq!(rest, "no pair");
    assert_eq!(map.get("no"), None);
}

#[test]
fn annotation_value_accessor() {
    let (_, single) = parse_annotation("@A(\"x\")").unwrap();
    assert_eq!(single.value(), Some(&string("x")));
    assert_eq!(single.name(), "A");
    assert_eq!(single.args(), &AnnotationArgs::Single(string("x")));
    let (_, keyed) = parse_annotation("@A(value = \"x\", other = B.class)").unwrap();
    assert_eq!(keyed.value(), Some(&string("x")));
    let (_, other) = parse_annotation("@A(other = B.class)").unwrap();
    assert_eq!(other.value(), None);
    let (_, bare) = parse_annotation("@A").unwrap();
    assert_eq!(bare.value(), None);
    assert_eq!(bare.args(), &AnnotationArgs::Multi(ArgMap::new()));
}

#[test]
fn annotation_forms() {
    assert_eq!(
        parse_annotation("@Component\npublic class Foo"),
        Ok((
            "public class Foo",
            Annotation::new("Component".to_string(), AnnotationArgs::Multi(ArgMap::new()))
        ))
    );
    assert_eq!(
        parse_annotation("@Import \n (Bar.class)\n\t next"),
        Ok((
            "next",
            Annotation::new("Import".to_string(), AnnotationArgs::Single(class("Bar")))
        ))
    );
    assert_eq!(
        parse_annotation("@Caf\u{e9}9(\"x\")"),
        Ok((
            "",
            Annotation::new("Caf\u{e9}9".to_string(), AnnotationArgs::Single(string("x")))
        ))
    );
}

#[test]
fn annotation_errors() {
    assert_eq!(parse_annotation("Component"), Err(ParseError::MalformedAnnotation));
    assert_eq!(parse_annotation(""), Err(ParseError::MalformedAnnotation));
    assert_eq!(parse_annotation("@A(Foo.class"), Err(ParseError::MalformedAnnotation));
    assert_eq!(parse_annotation("@A()"), Err(ParseError::MalformedValue));
    assert_eq!(parse_annotation("@A(Foo)"), Err(ParseError::MalformedValue));
}

#[test]
fn all_annotations() {
    let (rest, found) = parse_annotations("x @A y @B(\"s\") z").unwrap();
    assert_eq!(rest, "z");
    assert_eq!(found.len(), 2);
    assert_eq!(found[0].name(), "A");
    assert_eq!(found[1].name(), "B");
    assert_eq!(found[1].value(), Some(&string("s")));

    assert_eq!(parse_annotations("no marker"), Ok(("no marker", vec![])));
    assert_eq!(parse_annotations(""), Ok(("", vec![])));
    assert_eq!(parse_annotations("@A @B(bad)"), Err(ParseError::MalformedValue));
    assert_eq!(parse_annotations("@A @B(Foo.class"), Err(ParseError::MalformedAnnotation));
}

#[test]
fn array_round_trip() {
    let text = "@Name({\"a.b\", Foo.class, \"c\"})";
    let (_, first) = parse_annotation(text).unwrap();
    let items = match first.value() {
        Some(AnnotationArg::Array(items)) => items.clone(),
        _ => panic!("no array"),
    };
    let mut rendered = Vec::new();
    for item in &items {
        match item {
            AnnotationArg::String(s) => rendered.push(format!("\"{}\"", s)),
            AnnotationArg::Class(c) => rendered.push(format!("{}.class", c)),
            AnnotationArg::Array(_) => panic!("nested"),
        }
    }
    let again = format!("@Name({{{}}})", rendered.join(", "));
    assert_eq!(again, text);
    let (_, second) = parse_annotation(&again).unwrap();
    assert_eq!(second.value(), Some(&AnnotationArg::Array(items)));
}

#[test]
fn keyed_arguments_compare_as_mappings() {
    let ab = ArgMap::from_pairs(vec![
        ("a".to_string(), string("x")),
        ("b".to_string(), class("Y")),
    ]);
    let ba = ArgMap::from_pairs(vec![
        ("b".to_string(), class("Y")),
        ("a".to_string(), string("x")),
    ]);
    assert_eq!(ab, ba);
    let rewritten = ArgMap::from_pairs(vec![
        ("a".to_string(), string("old")),
        ("b".to_string(), class("Y")),
        ("a".to_string(), string("x")),
    ]);
    assert_eq!(ab, rewritten);
    assert_eq!(rewritten, ab);

    let a = ArgMap::from_pairs(vec![("a".to_string(), string("x"))]);
    assert_ne!(ab, a);
    assert_ne!(a, ab);
    let other = ArgMap::from_pairs(vec![
        ("a".to_string(), string("x")),
        ("b".to_string(), class("Z")),
    ]);
    assert_ne!(ab, other);
    assert_eq!(ArgMap::new(), ArgMap::from_pairs(vec![]));

    let mut built = ArgMap::new();
    built.insert("b".to_string(), class("Y"));
    built.insert("a".to_string(), string("x"));
    assert_eq!(built, ab);
    assert!(built.within(&ab));
    assert!(a.within(&ab));
    assert!(!ab.within(&a));

    assert_eq!(
        parse_annotation("@A(a = \"x\", b = Y.class)"),
        parse_annotation("@A(b = Y.class, a = \"x\")")
    );
}

#[test]
fn values_compare_by_what_they_hold() {
    assert_eq!(string("a"), string("a"));
    assert_ne!(string("a"), class("a"));
    assert_ne!(string("a"), string("b"));
    assert_eq!(
        AnnotationArg::Array(vec![string("a"), AnnotationArg::Array(vec![class("B")])]),
        AnnotationArg::Array(vec![string("a"), AnnotationArg::Array(vec![class("B")])])
    );
    assert_ne!(
        AnnotationArg::Array(vec![string("a")]),
        AnnotationArg::Array(vec![string("a"), string("a")])
    );
    assert_ne!(
        AnnotationArg::Array(vec![string("a"), class("B")]),
        AnnotationArg::Array(vec![string("a"), class("C")])
    );
    let nested = AnnotationArg::Array(vec![string("a"), AnnotationArg::Array(vec![class("B")])]);
    assert_eq!(nested.clone(), nested);
}
