use spring_visualizer::autowired::Autowired;
use spring_visualizer::bean::{Bean, Parameter};
use spring_visualizer::class::{parse_class, parse_constructor, Class};
use spring_visualizer::component_type::ComponentType;
use spring_visualizer::error::ParseError;

fn strings(items: &[&str]) -> Vec<String> {
    items.iter().map(|s| s.to_string()).collect()
}

#[test]
pub fn class_parse_class_test() {
    assert_eq!(
        Ok((
            "",
            Class::new(
                "a.b.c".to_string(),
                Some(ComponentType::Component),
                vec!["Bar".to_string()],
                vec!["a.b.c".to_string()],
                "Foo".to_string(),
                vec![Parameter {
                    annotations: vec!["@Arg".to_string()],
                    class: "Arg".to_string(),
                    name: "arg".to_string()
                }],
                vec![
                    Autowired::new("Foo".to_string(), "foo".to_string()),
                    Autowired::new("FooBean".to_string(), "fooBean".to_string())
                ],
                vec![Bean::new(
                    "MyBean".to_string(),
                    "myBean".to_string(),
                    vec![Parameter {
                        annotations: vec!["@Autowired".to_string(), "@NotNull".to_string()],
                        class: "FooBean".to_string(),
                        name: "fooBean".to_string()
                    }]
                )],
                vec!["IFoo".to_string()]
            )
        )),
        parse_class(
            r#"
                package a.b.c;

                @Component
                @Import(Bar.class)
                @ComponentScan("a.b.c")
                public class Foo implements IFoo {
                    @Autowired Foo foo;
                    @Bean
                    public MyBean myBean( @Autowired @NotNull FooBean fooBean ) { ... }

                    Foo(@Arg Arg arg) {}
                }
                "#
        )
    );
}

#[test]
fn parse_constructor_works() {
    let body = r#"
            // Docs with Foo?
            public or something Foo(@NotNull @Something Bar bar, Baz baz) {
                // stuff
            }
        "#;
    let class_name = "Foo";
    let params = parse_constructor(class_name, body).unwrap();
    assert_eq!(
        vec![
            Parameter {
                annotations: vec!["@NotNull".to_string(), "@Something".to_string()],
                class: "Bar".to_string(),
                name: "bar".to_string(),
            },
            Parameter {
                annotations: vec![],
                class: "Baz".to_string(),
                name: "baz".to_string(),
            }
        ],
        params
    )
}

#[test]
fn constructor_forms() {
    assert_eq!(parse_constructor("Foo", "no constructor here"), None);
    assert_eq!(parse_constructor("Foo", "Foo()"), Some(vec![]));
    assert_eq!(
        parse_constructor("Foo", "x Foo((A a, B) y"),
        Some(vec![Parameter {
            annotations: vec![],
            class: "A".to_string(),
            name: "a".to_string()
        }])
    );
}

#[test]
fn minimal_class() {
    let (rest, class) =
        parse_class("package a.b.c; @Component class Foo { @Autowired Bar bar; }").unwrap();
    assert_eq!(rest, "");
    assert_eq!(class.package(), "a.b.c");
    assert_eq!(class.component_type(), Some(&ComponentType::Component));
    assert_eq!(class.name(), "Foo");
    assert_eq!(
        class.autowires(),
        &[Autowired::new("Bar".to_string(), "bar".to_string())]
    );
    assert_eq!(class.autowires()[0].class(), "Bar");
    assert_eq!(class.autowires()[0].name(), "bar");
    assert!(class.imports().is_empty());
    assert!(class.component_scans().is_empty());
    assert!(class.parameters().is_empty());
    assert!(class.bean_defs().is_empty());
    assert!(class.interfaces().is_empty());
}

#[test]
fn missing_anchors() {
    assert_eq!(parse_class(""), Err(ParseError::MissingPackageDeclaration));
    assert_eq!(
        parse_class("class Foo {}"),
        Err(ParseError::MissingPackageDeclaration)
    );
    assert_eq!(
        parse_class("package a.b.c class Foo {}"),
        Err(ParseError::MissingPackageDeclaration)
    );
    assert_eq!(
        parse_class("package  ; class Foo {}"),
        Err(ParseError::MissingPackageDeclaration)
    );
    assert_eq!(
        parse_class("package a.b.c; interface Foo {}"),
        Err(ParseError::MissingClassDeclaration)
    );
    assert_eq!(
        parse_class("package a.b.c; class {}"),
        Err(ParseError::MissingClassDeclaration)
    );
    assert_eq!(
        parse_class("package a.b.c; @Component"),
        Err(ParseError::MissingClassDeclaration)
    );
}

#[test]
fn last_role_wins() {
    let (_, class) = parse_class("package p; @Service @Repository class A {}").unwrap();
    assert_eq!(class.component_type(), Some(&ComponentType::Repository));
    let (_, class) = parse_class("package p; @Repository @Other @Service class A {}").unwrap();
    assert_eq!(class.component_type(), Some(&ComponentType::Service));
    let (_, class) = parse_class("package p; @RestController class A {}").unwrap();
    assert_eq!(class.component_type(), Some(&ComponentType::Controller));
    let (_, class) = parse_class("package p; @Controller class A {}").unwrap();
    assert_eq!(class.component_type(), Some(&ComponentType::Controller));
    let (_, class) = parse_class("package p; @Configuration class A {}").unwrap();
    assert_eq!(class.component_type(), Some(&ComponentType::Configuration));
    let (_, class) = parse_class("package p; @Other class A {}").unwrap();
    assert_eq!(class.component_type(), None);
    let (_, class) = parse_class("package p; class A {}").unwrap();
    assert_eq!(class.component_type(), None);
}

#[test]
fn imports() {
    let (_, class) = parse_class("package p; @Import(B.class) class A {}").unwrap();
    assert_eq!(class.imports(), strings(&["B"]).as_slice());
    let (_, class) =
        parse_class("package p; @Import({B.class, \"s\", C.class}) class A {}").unwrap();
    assert_eq!(class.imports(), strings(&["B", "C"]).as_slice());
    let (_, class) = parse_class("package p; @Import(\"s\") class A {}").unwrap();
    assert!(class.imports().is_empty());
    let (_, class) =
        parse_class("package p; @Import(B.class) @Import(C.class) class A {}").unwrap();
    assert_eq!(class.imports(), strings(&["C"]).as_slice());
}

#[test]
fn component_scans() {
    let (_, class) = parse_class("package a.b; @ComponentScan(\"x.y\") class A {}").unwrap();
    assert_eq!(class.component_scans(), strings(&["x.y"]).as_slice());
    let (_, class) =
        parse_class("package a.b; @ComponentScan({\"x\", Y.class, \"z\"}) class A {}").unwrap();
    assert_eq!(class.component_scans(), strings(&["x", "z"]).as_slice());
    let (_, class) = parse_class("package a.b; @ComponentScan({}) class A {}").unwrap();
    assert_eq!(class.component_scans(), strings(&["a.b"]).as_slice());
    let (_, class) = parse_class("package a.b; @ComponentScan({ }) class A {}").unwrap();
    assert_eq!(class.component_scans(), strings(&["a.b"]).as_slice());
    let (_, class) = parse_class("package a.b; @ComponentScan class A {}").unwrap();
    assert!(class.component_scans().is_empty());
}

#[test]
fn application_root_scans_its_package() {
    let (_, class) = parse_class("package a.b; @SpringBootApplication class A {}").unwrap();
    assert_eq!(
        class.component_type(),
        Some(&ComponentType::SpringBootApplication)
    );
    assert_eq!(class.component_scans(), strings(&["a.b"]).as_slice());
    let (_, class) =
        parse_class("package a.b; @SpringBootApplication @ComponentScan(\"x\") class A {}")
            .unwrap();
    assert_eq!(class.component_scans(), strings(&["x"]).as_slice());
    let (_, class) =
        parse_class("package a.b; @ComponentScan(\"x\") @SpringBootApplication class A {}")
            .unwrap();
    assert_eq!(class.component_scans(), strings(&["x"]).as_slice());
    let (_, class) =
        parse_class("package a.b; @ComponentScan @SpringBootApplication class A {}").unwrap();
    assert_eq!(class.component_scans(), strings(&["a.b"]).as_slice());
}

#[test]
fn markers_behind_the_class_keyword_are_not_on_the_class() {
    let (_, class) =
        parse_class("package p; public class A { @Service @Autowired B b; }").unwrap();
    assert_eq!(class.name(), "A");
    assert_eq!(class.component_type(), None);
    assert_eq!(
        class.autowires(),
        &[Autowired::new("B".to_string(), "b".to_string())]
    );
}

#[test]
fn run_of_markers_ends_at_what_is_no_marker() {
    let (_, class) = parse_class("package p; @Service @Broken(x) class A {}").unwrap();
    assert_eq!(class.component_type(), Some(&ComponentType::Service));
    assert_eq!(class.name(), "A");
    let (_, class) = parse_class("package p; @Service public @Repository class A {}").unwrap();
    assert_eq!(class.component_type(), Some(&ComponentType::Service));
}

#[test]
fn interfaces() {
    let (_, class) = parse_class("package p; class A implements B, C ,D{}").unwrap();
    assert_eq!(class.interfaces(), strings(&["B", "C", "D"]).as_slice());
    let (_, class) = parse_class("package p; class A implements B<C, D> {}").unwrap();
    assert_eq!(class.interfaces(), strings(&["B"]).as_slice());
    let (_, class) = parse_class("package p; class A implements\n  B\n{}").unwrap();
    assert_eq!(class.interfaces(), strings(&["B"]).as_slice());
    let (_, class) = parse_class("package p; class A implements {}").unwrap();
    assert_eq!(class.interfaces(), strings(&[""]).as_slice());
}

#[test]
fn constructor_of_the_class() {
    let (_, class) =
        parse_class("package p; class A { A(@Q B b, C) {} A(D d) {} }").unwrap();
    assert_eq!(
        class.parameters(),
        &[Parameter {
            annotations: vec!["@Q".to_string()],
            class: "B".to_string(),
            name: "b".to_string()
        }]
    );
}

#[test]
fn injected_fields() {
    let (_, class) = parse_class(
        "package p; class A { @Autowired @Lazy @Qualifier(\"q\")\n B b; @Autowired C c }",
    )
    .unwrap();
    assert_eq!(
        class.autowires(),
        &[
            Autowired::new("B".to_string(), "b".to_string()),
            Autowired::new("C".to_string(), "c".to_string())
        ]
    );
    let (_, class) = parse_class("package p; class A { @Autowired private B b; }").unwrap();
    assert_eq!(
        class.autowires(),
        &[Autowired::new("private".to_string(), "B".to_string())]
    );
}

#[test]
fn malformed_field_fails_the_class() {
    assert_eq!(
        parse_class("package p; class A { @Autowired B; }"),
        Err(ParseError::MalformedAnnotation)
    );
    assert_eq!(
        parse_class("package p; class A { @Autowired(required = false) B b; }"),
        Err(ParseError::MalformedAnnotation)
    );
    assert_eq!(
        parse_class("package p; class A { @Autowired }"),
        Err(ParseError::MalformedAnnotation)
    );
    // Beyond ASCII a letter does not count in the type or name of a field.
    assert_eq!(
        parse_class("package p; class A { @Autowired \u{e9}t\u{e9} x; }"),
        Err(ParseError::MalformedAnnotation)
    );
}

#[test]
fn factory_methods() {
    let (_, class) = parse_class(
        "package p; @Configuration class A { @Bean B b() {} @Bean(\"n\") C c(D d, E) {} }",
    )
    .unwrap();
    assert_eq!(
        class.bean_defs(),
        &[
            Bean::new("B".to_string(), "b".to_string(), vec![]),
            Bean::new(
                "C".to_string(),
                "n".to_string(),
                vec![Parameter {
                    annotations: vec![],
                    class: "D".to_string(),
                    name: "d".to_string()
                }]
            )
        ]
    );
}

#[test]
fn malformed_factory_method_fails_the_class() {
    assert_eq!(
        parse_class("package p; class A { @Bean B b; }"),
        Err(ParseError::MalformedAnnotation)
    );
    assert_eq!(
        parse_class("package p; class A { @Bean(x) B b() {} }"),
        Err(ParseError::MalformedValue)
    );
    // A field that cannot be read is reported before a method that cannot.
    assert_eq!(
        parse_class("package p; class A { @Bean(x) B b() {} @Autowired ; }"),
        Err(ParseError::MalformedAnnotation)
    );
}

#[test]
fn extraction_repeats() {
    let text = r#"
        package a.b.c;
        @Service @Import({X.class, Y.class})
        public class Foo implements I, J {
            @Autowired Bar bar;
            @Bean Baz baz(Qux qux) { return null; }
            Foo(Bar bar) {}
        }
    "#;
    let first = parse_class(text);
    let second = parse_class(text);
    assert!(first.is_ok());
    assert_eq!(first, second);
    assert_eq!(parse_class("nothing"), parse_class("nothing"));
}
