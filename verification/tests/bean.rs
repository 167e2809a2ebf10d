use spring_visualizer::bean::{parse_bean, parse_parameter_list, Bean, Parameter};
use spring_visualizer::error::ParseError;

fn parameter(annotations: &[&str], class: &str, name: &str) -> Parameter {
    Parameter {
        annotations: annotations.iter().map(|a| a.to_string()).collect(),
        class: class.to_string(),
        name: name.to_string(),
    }
}

#[test]
pub fn bean_parse_bean_succeeds() {
    assert_eq!(
        Ok((
            ") { ... }",
            Bean::new("MyBean".to_string(), "myBean".to_string(), vec![])
        )),
        parse_bean("@Bean\n    private MyBean myBean( ) { ... }")
    );
}

#[test]
pub fn parse_bean_succeeds2() {
    assert_eq!(
        Ok((
            ") { ... }",
            Bean::new(
                "MyBean".to_string(),
                "myBean".to_string(),
                vec![Parameter {
                    annotations: vec![],
                    class: "FooBean".to_string(),
                    name: "fooBean".to_string()
                }]
            )
        )),
        parse_bean("@Bean\n    private MyBean myBean(FooBean fooBean) { ... }")
    );
}

#[test]
pub fn bean_parse_bean_with_name_succeeds() {
    assert_eq!(
        Ok((
            ") { ... }",
            Bean::new(
                "MyBean".to_string(),
                "newName".to_string(),
                vec![Parameter {
                    annotations: vec![],
                    class: "FooBean".to_string(),
                    name: "fooBean".to_string()
                }]
            )
        )),
        parse_bean("@Bean(\"newName\")\n    private MyBean myBean(FooBean fooBean) { ... }")
    );
}

#[test]
pub fn parameter_from_str() {
    assert_eq!(
        Ok(Parameter {
            annotations: vec!["@Autowired".to_string()],
            class: "Foo".to_string(),
            name: "foo".to_string()
        }),
        "  @Autowired  Foo   foo  ".parse()
    );
}

#[test]
fn parameter_entries() {
    assert_eq!(Parameter::parse("Foo foo"), Ok(parameter(&[], "Foo", "foo")));
    assert_eq!(
        Parameter::parse("\t@A\n@B(x)  List<Foo>\u{a0}foos "),
        Ok(parameter(&["@A", "@B(x)"], "List<Foo>", "foos"))
    );
    assert_eq!(Parameter::parse(""), Err(ParseError::MalformedParameterEntry));
    assert_eq!(Parameter::parse("   "), Err(ParseError::MalformedParameterEntry));
    assert_eq!(Parameter::parse("Foo"), Err(ParseError::MalformedParameterEntry));
    assert_eq!(
        Parameter::parse("final Foo foo"),
        Err(ParseError::MalformedParameterEntry)
    );
    assert_eq!(
        "final Foo foo".parse::<Parameter>(),
        Err(ParseError::MalformedParameterEntry)
    );
}

#[test]
fn parameter_lists() {
    assert_eq!(parse_parameter_list(""), vec![]);
    assert_eq!(parse_parameter_list("  \n "), vec![]);
    assert_eq!(
        parse_parameter_list("@NotNull @Something Bar bar, Baz baz"),
        vec![
            parameter(&["@NotNull", "@Something"], "Bar", "bar"),
            parameter(&[], "Baz", "baz")
        ]
    );
}

#[test]
fn entry_without_name_is_dropped() {
    assert_eq!(
        parse_parameter_list("Foo foo, Bar, Baz baz"),
        vec![parameter(&[], "Foo", "foo"), parameter(&[], "Baz", "baz")]
    );
    assert_eq!(
        parse_parameter_list("Foo foo,, final Bar bar"),
        vec![parameter(&[], "Foo", "foo")]
    );
    // Commas inside a generic type cut the entry too.
    assert_eq!(
        parse_parameter_list("Map<A, B> map, Foo foo"),
        vec![parameter(&[], "B>", "map"), parameter(&[], "Foo", "foo")]
    );
    let (_, bean) = parse_bean("@Bean Foo foo(Bar, Baz baz)").unwrap();
    assert_eq!(bean.parameters(), &[parameter(&[], "Baz", "baz")]);
}

#[test]
fn bean_name_override() {
    let (_, plain) = parse_bean("@Bean public MyBean myBean()").unwrap();
    assert_eq!(plain.name(), "myBean");
    assert_eq!(plain.class(), "MyBean");
    let (_, named) = parse_bean("@Bean(\"newName\") public MyBean myBean()").unwrap();
    assert_eq!(named.name(), "newName");
    assert_eq!(named.class(), "MyBean");
    let (_, keyed) = parse_bean("@Bean(value = \"other\") MyBean myBean()").unwrap();
    assert_eq!(keyed.name(), "other");
    let (_, unnamed) = parse_bean("@Bean(name = \"other\") MyBean myBean()").unwrap();
    assert_eq!(unnamed.name(), "myBean");
    let (_, class_valued) = parse_bean("@Bean(Foo.class) MyBean myBean()").unwrap();
    assert_eq!(class_valued.name(), "myBean");
}

#[test]
fn bean_forms() {
    assert_eq!(
        parse_bean("@Bean protected\tA b(\n  C c,\n  @D E e\n) {}"),
        Ok((
            ") {}",
            Bean::new(
                "A".to_string(),
                "b".to_string(),
                vec![parameter(&[], "C", "c"), parameter(&["@D"], "E", "e")]
            )
        ))
    );
    assert_eq!(
        parse_bean("@Bean A b(C c"),
        Ok((
            "",
            Bean::new("A".to_string(), "b".to_string(), vec![parameter(&[], "C", "c")])
        ))
    );
    assert_eq!(
        parse_bean("@Bean publicprivate A b()"),
        Ok((")", Bean::new("A".to_string(), "b".to_string(), vec![])))
    );
}

#[test]
fn bean_errors() {
    assert_eq!(parse_bean("Bean A b()"), Err(ParseError::MalformedAnnotation));
    assert_eq!(parse_bean("@Bean A b"), Err(ParseError::MalformedAnnotation));
    assert_eq!(
        parse_bean("@Bean public static A b()"),
        Err(ParseError::MalformedAnnotation)
    );
    assert_eq!(parse_bean("@Bean(oops) A b()"), Err(ParseError::MalformedValue));
    assert_eq!(parse_bean("@Bean(\"x\" A b"), Err(ParseError::MalformedAnnotation));
}
