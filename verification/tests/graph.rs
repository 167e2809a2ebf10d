use spring_visualizer::class::{parse_class, Class};
use spring_visualizer::component_type::ComponentType;
use spring_visualizer::feature::{Feature, Features};
use spring_visualizer::graph::{project, Relation, Statement};

fn class(text: &str) -> Class {
    parse_class(text).unwrap().1
}

fn node(name: &str, role: ComponentType) -> Statement {
    Statement::Component {
        name: name.to_string(),
        role,
    }
}

fn edge(from: &str, to: &str, relation: Relation) -> Statement {
    Statement::Edge {
        from: from.to_string(),
        to: to.to_string(),
        relation,
    }
}

#[test]
fn labels() {
    assert_eq!(Relation::Import.label(), "@Import");
    assert_eq!(Relation::ComponentScan.label(), "@ComponentScan");
    assert_eq!(Relation::Contains.label(), "contains");
    assert_eq!(Relation::ConstructorInjection.label(), "@Autowired (CI)");
    assert_eq!(Relation::Autowired.label(), "@Autowired");
    assert_eq!(Relation::Bean.label(), "@Bean");
}

#[test]
fn class_without_role_is_not_drawn() {
    let classes = vec![class("package p; @Import(B.class) class A { @Autowired C c; }")];
    assert_eq!(project(&classes, &Features::default()), vec![]);
    assert_eq!(project(&vec![], &Features::default()), vec![]);
}

#[test]
fn statements_of_one_class() {
    let classes = vec![class(
        r#"package a.b;
           @Configuration @Import({X.class, Y.class}) @ComponentScan("q")
           class Conf {
               Conf(@Q P1 p1, P2 p2) {}
               @Autowired F1 f1;
               @Autowired F2 f2;
               @Bean B1 b1(D1 d1) {}
               @Bean B2 b2() {}
           }"#,
    )];
    assert_eq!(
        project(&classes, &Features::default()),
        vec![
            node("Conf", ComponentType::Configuration),
            edge("Conf", "X", Relation::Import),
            edge("Conf", "Y", Relation::Import),
            Statement::Package {
                path: "q".to_string()
            },
            edge("Conf", "q", Relation::ComponentScan),
            edge("Conf", "P1", Relation::ConstructorInjection),
            edge("Conf", "P2", Relation::ConstructorInjection),
            edge("Conf", "F1", Relation::Autowired),
            edge("Conf", "F2", Relation::Autowired),
            Statement::Product {
                class: "B1".to_string()
            },
            edge("Conf", "B1", Relation::Bean),
            edge("B1", "D1", Relation::ConstructorInjection),
            Statement::Product {
                class: "B2".to_string()
            },
            edge("Conf", "B2", Relation::Bean),
        ]
    );
    assert_eq!(
        project(&classes, &Features::new(vec![])),
        vec![node("Conf", ComponentType::Configuration)]
    );
    assert_eq!(
        project(&classes, &Features::new(vec![Feature::Bean])),
        vec![
            node("Conf", ComponentType::Configuration),
            Statement::Product {
                class: "B1".to_string()
            },
            edge("Conf", "B1", Relation::Bean),
            Statement::Product {
                class: "B2".to_string()
            },
            edge("Conf", "B2", Relation::Bean),
        ]
    );
    assert_eq!(
        project(
            &classes,
            &Features::new(vec![Feature::ConstructorInjection, Feature::Import])
        ),
        vec![
            node("Conf", ComponentType::Configuration),
            edge("Conf", "X", Relation::Import),
            edge("Conf", "Y", Relation::Import),
            edge("Conf", "P1", Relation::ConstructorInjection),
            edge("Conf", "P2", Relation::ConstructorInjection),
        ]
    );
}

#[test]
fn empty_scan_finds_the_other_classes_of_the_package() {
    let classes = vec![
        class("package a.b; @Configuration @ComponentScan({}) class Conf {}"),
        class("package a.b.c; @Service class Inner {}"),
        class("package a.b; class Plain {}"),
        class("package x.a.b.y; @Repository class Deep {}"),
        class("package a.c; @Component class Elsewhere {}"),
    ];
    assert_eq!(
        classes[0].component_scans(),
        vec!["a.b".to_string()].as_slice()
    );
    let scan_only = Features::new(vec![Feature::ComponentScan]);
    assert_eq!(
        project(&classes, &scan_only),
        vec![
            node("Conf", ComponentType::Configuration),
            Statement::Package {
                path: "a.b".to_string()
            },
            edge("Conf", "a.b", Relation::ComponentScan),
            edge("a.b", "Inner", Relation::Contains),
            edge("a.b", "Deep", Relation::Contains),
            node("Inner", ComponentType::Service),
            node("Deep", ComponentType::Repository),
            node("Elsewhere", ComponentType::Component),
        ]
    );
}
