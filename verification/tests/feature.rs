use spring_visualizer::component_type::ComponentType;
use spring_visualizer::feature::{Feature, Features};

#[test]
fn feature_names() {
    assert_eq!(Feature::Import.to_string(), "import");
    assert_eq!(Feature::ComponentScan.to_string(), "componentscan");
    assert_eq!(Feature::Autowired.to_string(), "autowired");
    assert_eq!(Feature::Bean.to_string(), "bean");
    assert_eq!(Feature::ConstructorInjection.to_string(), "constructorinjection");
    for feature in Feature::all() {
        assert_eq!(feature.name().parse::<Feature>(), Ok(feature));
        assert_eq!(Feature::parse(&feature.to_string()), Ok(feature));
    }
    assert_eq!(Feature::all().len(), 5);
}

#[test]
fn unknown_feature() {
    assert_eq!(Feature::parse("Import"), Err("unknown feature Import".to_string()));
    assert_eq!(Feature::parse(""), Err("unknown feature ".to_string()));
    assert_eq!(
        "beans".parse::<Feature>(),
        Err("unknown feature beans".to_string())
    );
}

#[test]
fn features_default_is_all() {
    let all = Features::default();
    for feature in Feature::all() {
        assert!(all.contains(&feature));
    }
    assert_eq!(
        all.to_string(),
        "import,componentscan,autowired,bean,constructorinjection"
    );
}

#[test]
fn features_selection() {
    let chosen = Features::parse(" bean , import,autowired").unwrap();
    assert!(chosen.contains(&Feature::Bean));
    assert!(chosen.contains(&Feature::Import));
    assert!(chosen.contains(&Feature::Autowired));
    assert!(!chosen.contains(&Feature::ComponentScan));
    assert!(!chosen.contains(&Feature::ConstructorInjection));
    assert_eq!(chosen.to_string(), "bean,import,autowired");

    let one: Features = "componentscan".parse().unwrap();
    assert!(one.contains(&Feature::ComponentScan));
    assert_eq!(one.to_string(), "componentscan");

    assert_eq!(Features::new(vec![]).to_string(), "");
    assert!(!Features::new(vec![]).contains(&Feature::Bean));
}

#[test]
fn features_selection_errors() {
    assert_eq!(
        Features::parse("bean,nope,import,neither").err(),
        Some("unknown feature nope".to_string())
    );
    assert_eq!(Features::parse("").err(), Some("unknown feature ".to_string()));
    assert_eq!(
        Features::parse("bean,").err(),
        Some("unknown feature ".to_string())
    );
    assert_eq!(
        "a b".parse::<Features>().err(),
        Some("unknown feature a b".to_string())
    );
}

#[test]
fn component_type_colors() {
    assert_eq!(ComponentType::SpringBootApplication.color_code(), "#2c9162");
    assert_eq!(ComponentType::Configuration.color_code(), "#28a9e0");
    assert_eq!(ComponentType::Controller.color_code(), "#7050bf");
    assert_eq!(ComponentType::Service.color_code(), "#a81347");
    assert_eq!(ComponentType::Repository.color_code(), "#e06907");
    assert_eq!(ComponentType::Component.color_code(), "#ffc400");
    assert_eq!(
        ComponentType::all(),
        vec![
            ComponentType::SpringBootApplication,
            ComponentType::Configuration,
            ComponentType::Controller,
            ComponentType::Service,
            ComponentType::Repository,
            ComponentType::Component
        ]
    );
}

#[test]
fn component_type_of_marker() {
    assert_eq!(
        ComponentType::from_marker("RestController"),
        Some(ComponentType::Controller)
    );
    assert_eq!(ComponentType::from_marker("Service"), Some(ComponentType::Service));
    assert_eq!(ComponentType::from_marker("service"), None);
    assert_eq!(ComponentType::from_marker(""), None);
}
