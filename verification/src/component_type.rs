//! The roles that a marker can give a declaration.

use crate::text::same_text;
use vstd::prelude::*;

verus! {

/// The role of a declaration, as its markers tell it.
#[derive(Debug, Clone, Copy, PartialEq, Eq, Structural)]
pub enum ComponentType {
    SpringBootApplication,
    Configuration,
    Controller,
    Service,
    Repository,
    Component,
}

/// The role that a marker of the given name gives: each role is given by the
/// marker of its own name, and `Controller` by `RestController` too.
pub open spec fn role_named(name: Seq<char>) -> Option<ComponentType> {
    if name == "SpringBootApplication"@ {
        Some(ComponentType::SpringBootApplication)
    } else if name == "Configuration"@ {
        Some(ComponentType::Configuration)
    } else if name == "Controller"@ || name == "RestController"@ {
        Some(ComponentType::Controller)
    } else if name == "Service"@ {
        Some(ComponentType::Service)
    } else if name == "Repository"@ {
        Some(ComponentType::Repository)
    } else if name == "Component"@ {
        Some(ComponentType::Component)
    } else {
        None
    }
}

impl ComponentType {
    /// The color in which the role is drawn.
    pub open spec fn color(self) -> Seq<char> {
        match self {
            ComponentType::SpringBootApplication => "#2c9162"@,
            ComponentType::Configuration => "#28a9e0"@,
            ComponentType::Controller => "#7050bf"@,
            ComponentType::Service => "#a81347"@,
            ComponentType::Repository => "#e06907"@,
            ComponentType::Component => "#ffc400"@,
        }
    }

    /// The six roles, in the order in which a legend lists them.
    pub open spec fn every() -> Seq<ComponentType> {
        seq![
            ComponentType::SpringBootApplication,
            ComponentType::Configuration,
            ComponentType::Controller,
            ComponentType::Service,
            ComponentType::Repository,
            ComponentType::Component,
        ]
    }

    /// The color in which the role is drawn.
    pub fn color_code(&self) -> (r: &'static str)
        ensures
            r@ == self.color(),
    {
        match self {
            ComponentType::SpringBootApplication => "#2c9162",
            ComponentType::Configuration => "#28a9e0",
            ComponentType::Controller => "#7050bf",
            ComponentType::Service => "#a81347",
            ComponentType::Repository => "#e06907",
            ComponentType::Component => "#ffc400",
        }
    }

    /// The six roles, in the order in which a legend lists them.
    pub fn all() -> (r: Vec<ComponentType>)
        ensures
            r@ == ComponentType::every(),
    {
        let r = vec![
            ComponentType::SpringBootApplication,
            ComponentType::Configuration,
            ComponentType::Controller,
            ComponentType::Service,
            ComponentType::Repository,
            ComponentType::Component,
        ];
        assert(r@ =~= ComponentType::every());
        r
    }

    /// The role that a marker of the given name gives.
    pub fn from_marker(name: &str) -> (r: Option<ComponentType>)
        ensures
            r == role_named(name@),
    {
        if same_text(name, "SpringBootApplication") {
            Some(ComponentType::SpringBootApplication)
        } else if same_text(name, "Configuration") {
            Some(ComponentType::Configuration)
        } else if same_text(name, "Controller") || same_text(name, "RestController") {
            Some(ComponentType::Controller)
        } else if same_text(name, "Service") {
            Some(ComponentType::Service)
        } else if same_text(name, "Repository") {
            Some(ComponentType::Repository)
        } else if same_text(name, "Component") {
            Some(ComponentType::Component)
        } else {
            None
        }
    }
}

} // verus!
