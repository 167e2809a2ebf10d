//! The kinds of relation that a graph can show, and the choice among them.

use crate::text::{
    chars_of, same_text, split, split_on, string_of, texts, trimmed, trimmed_all, views,
};
use std::str::FromStr;
use vstd::prelude::*;

verus! {

/// A kind of relation between declarations.
#[derive(Debug, Clone, Copy, PartialEq, Eq, Structural)]
pub enum Feature {
    Import,
    ComponentScan,
    Autowired,
    Bean,
    ConstructorInjection,
}

/// The kind of relation that goes by the given name.
pub open spec fn feature_named(name: Seq<char>) -> Option<Feature> {
    if name == "import"@ {
        Some(Feature::Import)
    } else if name == "componentscan"@ {
        Some(Feature::ComponentScan)
    } else if name == "autowired"@ {
        Some(Feature::Autowired)
    } else if name == "bean"@ {
        Some(Feature::Bean)
    } else if name == "constructorinjection"@ {
        Some(Feature::ConstructorInjection)
    } else {
        None
    }
}

/// What is said of a name that is the name of no kind of relation.
pub open spec fn unknown_feature(name: Seq<char>) -> Seq<char> {
    "unknown feature "@ + name
}

impl Feature {
    /// The name of the kind of relation.
    pub open spec fn token(self) -> Seq<char> {
        match self {
            Feature::Import => "import"@,
            Feature::ComponentScan => "componentscan"@,
            Feature::Autowired => "autowired"@,
            Feature::Bean => "bean"@,
            Feature::ConstructorInjection => "constructorinjection"@,
        }
    }

    /// The five kinds of relation, in the order in which they are declared.
    pub open spec fn every() -> Seq<Feature> {
        seq![
            Feature::Import,
            Feature::ComponentScan,
            Feature::Autowired,
            Feature::Bean,
            Feature::ConstructorInjection,
        ]
    }

    /// The five kinds of relation, in the order in which they are declared.
    pub fn all() -> (r: Vec<Feature>)
        ensures
            r@ == Feature::every(),
    {
        let r = vec![
            Feature::Import,
            Feature::ComponentScan,
            Feature::Autowired,
            Feature::Bean,
            Feature::ConstructorInjection,
        ];
        assert(r@ =~= Feature::every());
        r
    }

    /// The name of the kind of relation.
    pub fn name(&self) -> (r: &'static str)
        ensures
            r@ == self.token(),
    {
        match self {
            Feature::Import => "import",
            Feature::ComponentScan => "componentscan",
            Feature::Autowired => "autowired",
            Feature::Bean => "bean",
            Feature::ConstructorInjection => "constructorinjection",
        }
    }

    /// The name of the kind of relation, as a string of its own.
    pub fn to_string(&self) -> (r: String)
        ensures
            r@ == self.token(),
    {
        self.name().to_owned()
    }

    /// The kind of relation that goes by the name `input`. Any other text is
    /// answered with a message that names it.
    pub fn parse(input: &str) -> (r: Result<Feature, String>)
        ensures
            match feature_named(input@) {
                Some(f) => r == Ok::<Feature, String>(f),
                None => r matches Err(message) && message@ == unknown_feature(input@),
            },
    {
        if same_text(input, "import") {
            Ok(Feature::Import)
        } else if same_text(input, "componentscan") {
            Ok(Feature::ComponentScan)
        } else if same_text(input, "autowired") {
            Ok(Feature::Autowired)
        } else if same_text(input, "bean") {
            Ok(Feature::Bean)
        } else if same_text(input, "constructorinjection") {
            Ok(Feature::ConstructorInjection)
        } else {
            let mut message = "unknown feature ".to_owned();
            message.append(input);
            Err(message)
        }
    }
}

impl FromStr for Feature {
    type Err = String;

    fn from_str(input: &str) -> (r: Result<Self, Self::Err>)
        ensures
            match feature_named(input@) {
                Some(f) => r == Ok::<Feature, String>(f),
                None => r matches Err(message) && message@ == unknown_feature(input@),
            },
    {
        Feature::parse(input)
    }
}

/// The kinds of relation that the given names select, in order, or what is
/// said of the first name that is the name of none.
pub open spec fn selected(names: Seq<Seq<char>>) -> Result<Seq<Feature>, Seq<char>>
    decreases names.len(),
{
    if names.len() == 0 {
        Ok(Seq::empty())
    } else {
        match selected(names.drop_last()) {
            Ok(features) => match feature_named(names.last()) {
                Some(f) => Ok(features.push(f)),
                None => Err(unknown_feature(names.last())),
            },
            Err(message) => Err(message),
        }
    }
}

/// The kinds of relation that a comma-separated list of names selects. White
/// space around a name does not count.
pub open spec fn selection(s: Seq<char>) -> Result<Seq<Feature>, Seq<char>> {
    selected(trimmed_all(split(s, ',')))
}

/// `parts` one behind the other, with `sep` between each two.
pub open spec fn joined(parts: Seq<Seq<char>>, sep: Seq<char>) -> Seq<char>
    decreases parts.len(),
{
    if parts.len() == 0 {
        Seq::empty()
    } else if parts.len() == 1 {
        parts[0]
    } else {
        joined(parts.drop_last(), sep) + sep + parts.last()
    }
}

/// `Itertools::join` of itertools, on the strings of `parts`: the result holds
/// the strings in order, with `sep` between each two, and is empty where
/// there is none.
#[verifier::external_body]
fn join(parts: &Vec<String>, sep: &str) -> (r: String)
    ensures
        r@ == joined(texts(parts@), sep@),
{
    itertools::Itertools::join(&mut parts.iter(), sep)
}

/// A choice of kinds of relation.
#[derive(Debug, Clone)]
pub struct Features {
    features: Vec<Feature>,
}

impl View for Features {
    type V = Seq<Feature>;

    closed spec fn view(&self) -> Seq<Feature> {
        self.features@
    }
}

/// The names of the given kinds of relation.
pub open spec fn tokens(features: Seq<Feature>) -> Seq<Seq<char>> {
    features.map_values(|f: Feature| f.token())
}

impl Features {
    /// The choice of the given kinds.
    pub fn new(features: Vec<Feature>) -> (r: Self)
        ensures
            r@ == features@,
    {
        Features { features }
    }

    /// Whether `feature` is among the chosen kinds.
    pub fn contains(&self, feature: &Feature) -> (r: bool)
        ensures
            r == self@.contains(*feature),
    {
        let mut i: usize = 0;
        while i < self.features.len()
            invariant
                i <= self.features.len(),
                forall|j: int| 0 <= j < i ==> self.features@[j] != *feature,
            decreases self.features.len() - i,
        {
            if self.features[i] == *feature {
                return true;
            }
            i += 1;
        }
        false
    }

    /// The choice that a comma-separated list of names makes. White space
    /// around a name does not count. The first name that is the name of no
    /// kind of relation is answered with a message that names it.
    pub fn parse(s: &str) -> (r: Result<Features, String>)
        ensures
            match selection(s@) {
                Ok(features) => r matches Ok(chosen) && chosen@ == features,
                Err(message) => r matches Err(m) && m@ == message,
            },
    {
        let chars = chars_of(s);
        let pieces = split_on(chars.as_slice(), ',');
        let ghost names = trimmed_all(views(pieces@));
        let mut features: Vec<Feature> = Vec::new();
        let mut i: usize = 0;
        assert(names.take(0) =~= Seq::<Seq<char>>::empty());
        while i < pieces.len()
            invariant
                i <= pieces.len(),
                names == trimmed_all(views(pieces@)),
                names == trimmed_all(split(s@, ',')),
                selected(names.take(i as int)) == Ok::<Seq<Feature>, Seq<char>>(features@),
            decreases pieces.len() - i,
        {
            let name = string_of(trimmed(pieces[i]));
            assert(names.take(i + 1).drop_last() =~= names.take(i as int));
            assert(names.take(i + 1).last() == name@);
            match Feature::parse(name.as_str()) {
                Ok(f) => {
                    features.push(f);
                },
                Err(message) => {
                    proof {
                        lemma_selected_fails(names, i + 1);
                    }
                    return Err(message);
                },
            }
            i += 1;
        }
        assert(names.take(pieces.len() as int) =~= names);
        Ok(Features { features })
    }

    /// The names of the chosen kinds, separated by commas.
    pub fn to_string(&self) -> (r: String)
        ensures
            r@ == joined(tokens(self@), ","@),
    {
        let mut names: Vec<String> = Vec::new();
        let mut i: usize = 0;
        while i < self.features.len()
            invariant
                i <= self.features.len(),
                texts(names@) == tokens(self.features@).take(i as int),
            decreases self.features.len() - i,
        {
            let ghost before = texts(names@);
            names.push(self.features[i].to_string());
            assert(texts(names@) =~= before.push(self.features@[i as int].token()));
            assert(tokens(self.features@).take(i + 1) =~= tokens(self.features@).take(
                i as int,
            ).push(self.features@[i as int].token()));
            i += 1;
        }
        assert(tokens(self.features@).take(self.features.len() as int) =~= tokens(
            self.features@,
        ));
        join(&names, ",")
    }
}

/// A failure among the first `n` names is the failure of the whole.
pub proof fn lemma_selected_fails(names: Seq<Seq<char>>, n: int)
    requires
        0 <= n <= names.len(),
        selected(names.take(n)) is Err,
    ensures
        selected(names) == selected(names.take(n)),
    decreases names.len() - n,
{
    if n < names.len() {
        assert(names.take(n + 1).drop_last() =~= names.take(n));
        lemma_selected_fails(names, n + 1);
    } else {
        assert(names.take(n) =~= names);
    }
}

impl Default for Features {
    /// Every kind of relation.
    fn default() -> (r: Self)
        ensures
            r@ == Feature::every(),
    {
        Features { features: Feature::all() }
    }
}

impl FromStr for Features {
    type Err = String;

    fn from_str(s: &str) -> (r: Result<Self, Self::Err>)
        ensures
            match selection(s@) {
                Ok(features) => r matches Ok(chosen) && chosen@ == features,
                Err(message) => r matches Err(m) && m@ == message,
            },
    {
        Features::parse(s)
    }
}

} // verus!
