//! The statements of the graph that shows how the classes of a source tree
//! depend on each other.

use crate::autowired::{Autowired, FieldInjection};
use crate::bean::{parameters_of, Bean, BeanDefinition, FormalParameter, Parameter};
use crate::class::{beans_of, fields_of, Class, ClassRecord};
use crate::component_type::ComponentType;
use crate::feature::{Feature, Features};
use crate::text::{chars_of, find, position, texts, to_strings};
use vstd::prelude::*;

verus! {

/// What an edge of the graph says of the two declarations that it joins.
#[derive(Debug, Clone, Copy, PartialEq, Eq, Structural)]
pub enum Relation {
    /// A class imports a type into its context.
    Import,
    /// A class has a package scanned for components.
    ComponentScan,
    /// A scanned package holds a class.
    Contains,
    /// A constructor or a factory method takes a parameter of a type.
    ConstructorInjection,
    /// A class has a field of a type injected.
    Autowired,
    /// A class has a factory method for a type.
    Bean,
}

impl Relation {
    /// The label of the edges of the relation.
    pub open spec fn mark(self) -> Seq<char> {
        match self {
            Relation::Import => "@Import"@,
            Relation::ComponentScan => "@ComponentScan"@,
            Relation::Contains => "contains"@,
            Relation::ConstructorInjection => "@Autowired (CI)"@,
            Relation::Autowired => "@Autowired"@,
            Relation::Bean => "@Bean"@,
        }
    }

    /// The label of the edges of the relation.
    pub fn label(&self) -> (r: &'static str)
        ensures
            r@ == self.mark(),
    {
        match self {
            Relation::Import => "@Import",
            Relation::ComponentScan => "@ComponentScan",
            Relation::Contains => "contains",
            Relation::ConstructorInjection => "@Autowired (CI)",
            Relation::Autowired => "@Autowired",
            Relation::Bean => "@Bean",
        }
    }
}

/// A statement of the graph.
#[derive(Debug, Clone, PartialEq, Eq)]
pub enum Statement {
    /// The node of a class, drawn in the color of its role.
    Component { name: String, role: ComponentType },
    /// The node of a scanned package.
    Package { path: String },
    /// The node of the product of a factory method.
    Product { class: String },
    /// An edge between two nodes.
    Edge { from: String, to: String, relation: Relation },
}

/// The mathematical value that a `Statement` stands for.
pub enum Drawn {
    Component { name: Seq<char>, role: ComponentType },
    Package { path: Seq<char> },
    Product { class: Seq<char> },
    Edge { from: Seq<char>, to: Seq<char>, relation: Relation },
}

impl View for Statement {
    type V = Drawn;

    open spec fn view(&self) -> Drawn {
        match self {
            Statement::Component { name, role } => Drawn::Component { name: name@, role: *role },
            Statement::Package { path } => Drawn::Package { path: path@ },
            Statement::Product { class } => Drawn::Product { class: class@ },
            Statement::Edge { from, to, relation } => Drawn::Edge {
                from: from@,
                to: to@,
                relation: *relation,
            },
        }
    }
}

/// The statements that a sequence of `Statement`s stands for.
pub open spec fn drawn_of(items: Seq<Statement>) -> Seq<Drawn> {
    items.map_values(|s: Statement| s@)
}

/// The records that a sequence of `Class`es stands for.
pub open spec fn records_of(items: Seq<Class>) -> Seq<ClassRecord> {
    items.map_values(|c: Class| c@)
}

/// One edge of the relation from `from` to each of `targets`, in order.
pub open spec fn edges(from: Seq<char>, targets: Seq<Seq<char>>, relation: Relation) -> Seq<Drawn> {
    targets.map_values(|to: Seq<char>| Drawn::Edge { from, to, relation })
}

/// The types of the parameters, in order.
pub open spec fn parameter_types(parameters: Seq<FormalParameter>) -> Seq<Seq<char>> {
    parameters.map_values(|p: FormalParameter| p.class)
}

/// The types of the injected fields, in order.
pub open spec fn field_types(fields: Seq<FieldInjection>) -> Seq<Seq<char>> {
    fields.map_values(|f: FieldInjection| f.class)
}

/// The record at index `j` is one that the scan of `path` on behalf of the
/// record at index `owner` finds: another record, with a role, whose package
/// holds `path` somewhere in its name.
pub open spec fn is_housed(records: Seq<ClassRecord>, owner: int, path: Seq<char>, j: int) -> bool {
    &&& 0 <= j < records.len()
    &&& j != owner
    &&& records[j].component_type is Some
    &&& find(records[j].package, path) is Some
}

/// The names of the records that the scan of `path` on behalf of the record
/// at index `owner` finds, in the order of the records.
pub open spec fn housed(records: Seq<ClassRecord>, owner: int, path: Seq<char>, n: int) -> Seq<
    Seq<char>,
>
    decreases n,
{
    if n <= 0 {
        Seq::empty()
    } else if is_housed(records, owner, path, n - 1) {
        housed(records, owner, path, n - 1).push(records[n - 1].name)
    } else {
        housed(records, owner, path, n - 1)
    }
}

/// The statements for one scanned package of the record at index `owner`:
/// the node of the package, the edge from the class to it, and an edge from
/// it to each record that the scan finds.
pub open spec fn scan_statements(records: Seq<ClassRecord>, owner: int, path: Seq<char>) -> Seq<
    Drawn,
> {
    seq![
        Drawn::Package { path },
        Drawn::Edge { from: records[owner].name, to: path, relation: Relation::ComponentScan },
    ] + edges(path, housed(records, owner, path, records.len() as int), Relation::Contains)
}

/// The statements for the first `n` scanned packages of the record at index
/// `owner`.
pub open spec fn scans_statements(records: Seq<ClassRecord>, owner: int, n: int) -> Seq<Drawn>
    decreases n,
{
    if n <= 0 {
        Seq::empty()
    } else {
        scans_statements(records, owner, n - 1) + scan_statements(
            records,
            owner,
            records[owner].component_scans[n - 1],
        )
    }
}

/// The statements for one factory method of the class `owner`: the node of
/// the product, the edge from the class to it and, where parameters are
/// shown, an edge from the product to the type of each parameter.
pub open spec fn bean_statements(owner: Seq<char>, bean: BeanDefinition, parameters: bool) -> Seq<
    Drawn,
> {
    seq![
        Drawn::Product { class: bean.class },
        Drawn::Edge { from: owner, to: bean.class, relation: Relation::Bean },
    ] + if parameters {
        edges(bean.class, parameter_types(bean.parameters), Relation::ConstructorInjection)
    } else {
        Seq::empty()
    }
}

/// The statements for the first `n` factory methods of the class `owner`.
pub open spec fn beans_statements(
    owner: Seq<char>,
    beans: Seq<BeanDefinition>,
    parameters: bool,
    n: int,
) -> Seq<Drawn>
    decreases n,
{
    if n <= 0 {
        Seq::empty()
    } else {
        beans_statements(owner, beans, parameters, n - 1) + bean_statements(
            owner,
            beans[n - 1],
            parameters,
        )
    }
}

/// `part` where `shown` holds, and nothing where it does not.
pub open spec fn when(shown: bool, part: Seq<Drawn>) -> Seq<Drawn> {
    if shown {
        part
    } else {
        Seq::empty()
    }
}

/// The statements for the record at index `i`. A record without a role gives
/// none. One with a role gives its node and then, for each kind of relation
/// that is chosen, the statements of that kind: imports, scanned packages,
/// parameters of the constructor, injected fields, factory methods.
pub open spec fn record_statements(records: Seq<ClassRecord>, i: int, chosen: Seq<Feature>) -> Seq<
    Drawn,
> {
    let record = records[i];
    match record.component_type {
        Some(role) => seq![Drawn::Component { name: record.name, role }] + when(
            chosen.contains(Feature::Import),
            edges(record.name, record.imports, Relation::Import),
        ) + when(
            chosen.contains(Feature::ComponentScan),
            scans_statements(records, i, record.component_scans.len() as int),
        ) + when(
            chosen.contains(Feature::ConstructorInjection),
            edges(
                record.name,
                parameter_types(record.parameters),
                Relation::ConstructorInjection,
            ),
        ) + when(
            chosen.contains(Feature::Autowired),
            edges(record.name, field_types(record.autowires), Relation::Autowired),
        ) + when(
            chosen.contains(Feature::Bean),
            beans_statements(
                record.name,
                record.bean_defs,
                chosen.contains(Feature::ConstructorInjection),
                record.bean_defs.len() as int,
            ),
        ),
        None => Seq::empty(),
    }
}

/// The statements for the first `n` records.
pub open spec fn statements_upto(records: Seq<ClassRecord>, chosen: Seq<Feature>, n: int) -> Seq<
    Drawn,
>
    decreases n,
{
    if n <= 0 {
        Seq::empty()
    } else {
        statements_upto(records, chosen, n - 1) + record_statements(records, n - 1, chosen)
    }
}

/// The statements of the graph of the given records, with the chosen kinds of
/// relation.
pub open spec fn statements(records: Seq<ClassRecord>, chosen: Seq<Feature>) -> Seq<Drawn> {
    statements_upto(records, chosen, records.len() as int)
}

/// What is in one of two sequences is in the two one behind the other.
proof fn lemma_in_concat(first: Seq<Drawn>, second: Seq<Drawn>, x: Drawn)
    requires
        first.contains(x) || second.contains(x),
    ensures
        (first + second).contains(x),
{
    if first.contains(x) {
        let i = choose|i: int| 0 <= i < first.len() && first[i] == x;
        assert((first + second)[i] == x);
    } else {
        let i = choose|i: int| 0 <= i < second.len() && second[i] == x;
        assert((first + second)[first.len() + i] == x);
    }
}

/// A record that a scan finds among the first `n` is named among what the
/// scan of these gives.
proof fn lemma_housed(records: Seq<ClassRecord>, owner: int, path: Seq<char>, n: int, j: int)
    requires
        is_housed(records, owner, path, j),
        j < n,
    ensures
        housed(records, owner, path, n).contains(records[j].name),
    decreases n,
{
    if j < n - 1 {
        lemma_housed(records, owner, path, n - 1, j);
        let before = housed(records, owner, path, n - 1);
        let i = choose|i: int| 0 <= i < before.len() && before[i] == records[j].name;
        if is_housed(records, owner, path, n - 1) {
            assert(before.push(records[n - 1].name)[i] == records[j].name);
        }
    } else {
        let before = housed(records, owner, path, n - 1);
        assert(before.push(records[j].name)[before.len() as int] == records[j].name);
    }
}

/// What is among the statements for one of the first `n` scanned packages is
/// among the statements for these.
proof fn lemma_in_scans(records: Seq<ClassRecord>, owner: int, n: int, k: int, x: Drawn)
    requires
        0 <= k < n,
        scan_statements(records, owner, records[owner].component_scans[k]).contains(x),
    ensures
        scans_statements(records, owner, n).contains(x),
    decreases n,
{
    if k < n - 1 {
        lemma_in_scans(records, owner, n - 1, k, x);
    }
    lemma_in_concat(
        scans_statements(records, owner, n - 1),
        scan_statements(records, owner, records[owner].component_scans[n - 1]),
        x,
    );
}

/// What is among the statements for one of the first `n` records is among the
/// statements for these.
proof fn lemma_in_statements(
    records: Seq<ClassRecord>,
    chosen: Seq<Feature>,
    n: int,
    i: int,
    x: Drawn,
)
    requires
        0 <= i < n,
        record_statements(records, i, chosen).contains(x),
    ensures
        statements_upto(records, chosen, n).contains(x),
    decreases n,
{
    if i < n - 1 {
        lemma_in_statements(records, chosen, n - 1, i, x);
    }
    lemma_in_concat(
        statements_upto(records, chosen, n - 1),
        record_statements(records, n - 1, chosen),
        x,
    );
}

/// Where scans are shown, the graph holds an edge from each scanned package of
/// a record with a role to every other record that has a role and whose
/// package holds the scanned one in its name.
pub proof fn lemma_scan_finds(
    records: Seq<ClassRecord>,
    chosen: Seq<Feature>,
    owner: int,
    k: int,
    j: int,
)
    requires
        0 <= owner < records.len(),
        records[owner].component_type is Some,
        chosen.contains(Feature::ComponentScan),
        0 <= k < records[owner].component_scans.len(),
        is_housed(records, owner, records[owner].component_scans[k], j),
    ensures
        statements(records, chosen).contains(
            Drawn::Edge {
                from: records[owner].component_scans[k],
                to: records[j].name,
                relation: Relation::Contains,
            },
        ),
{
    let record = records[owner];
    let path = record.component_scans[k];
    let edge = Drawn::Edge { from: path, to: records[j].name, relation: Relation::Contains };
    let found = housed(records, owner, path, records.len() as int);
    lemma_housed(records, owner, path, records.len() as int, j);
    let i = choose|i: int| 0 <= i < found.len() && found[i] == records[j].name;
    let found_edges = edges(path, found, Relation::Contains);
    assert(found_edges[i] == edge);
    let head = seq![
        Drawn::Package { path },
        Drawn::Edge { from: record.name, to: path, relation: Relation::ComponentScan },
    ];
    lemma_in_concat(head, found_edges, edge);
    lemma_in_scans(records, owner, record.component_scans.len() as int, k, edge);

    let role = record.component_type->Some_0;
    let node = seq![Drawn::Component { name: record.name, role }];
    let imports = when(
        chosen.contains(Feature::Import),
        edges(record.name, record.imports, Relation::Import),
    );
    let scans = scans_statements(records, owner, record.component_scans.len() as int);
    let constructor = when(
        chosen.contains(Feature::ConstructorInjection),
        edges(record.name, parameter_types(record.parameters), Relation::ConstructorInjection),
    );
    let fields = when(
        chosen.contains(Feature::Autowired),
        edges(record.name, field_types(record.autowires), Relation::Autowired),
    );
    let beans = when(
        chosen.contains(Feature::Bean),
        beans_statements(
            record.name,
            record.bean_defs,
            chosen.contains(Feature::ConstructorInjection),
            record.bean_defs.len() as int,
        ),
    );
    lemma_in_concat(node + imports, scans, edge);
    lemma_in_concat(node + imports + scans, constructor, edge);
    lemma_in_concat(node + imports + scans + constructor, fields, edge);
    lemma_in_concat(node + imports + scans + constructor + fields, beans, edge);
    lemma_in_statements(records, chosen, records.len() as int, owner, edge);
}

/// Whether `needle` stands somewhere in `haystack`.
pub fn holds_text(haystack: &str, needle: &str) -> (r: bool)
    ensures
        r == (find(haystack@, needle@) is Some),
{
    let h = chars_of(haystack);
    let n = chars_of(needle);
    position(h.as_slice(), n.as_slice()).is_some()
}

/// Adds one edge of the relation from `from` to each of `targets`.
pub fn push_edges(out: &mut Vec<Statement>, from: &str, targets: &Vec<String>, relation: Relation)
    ensures
        drawn_of(final(out)@) == drawn_of(old(out)@) + edges(from@, texts(targets@), relation),
{
    let ghost start = drawn_of(out@);
    let ghost all = edges(from@, texts(targets@), relation);
    let mut i: usize = 0;
    assert(start + all.take(0) =~= start);
    while i < targets.len()
        invariant
            i <= targets.len(),
            all == edges(from@, texts(targets@), relation),
            drawn_of(out@) == start + all.take(i as int),
        decreases targets.len() - i,
    {
        let ghost before = drawn_of(out@);
        let edge = Statement::Edge { from: from.to_owned(), to: targets[i].clone(), relation };
        out.push(edge);
        assert(drawn_of(out@) =~= before.push(all[i as int]));
        assert(start + all.take(i + 1) =~= (start + all.take(i as int)).push(all[i as int]));
        i += 1;
    }
    assert(all.take(targets.len() as int) =~= all);
}

/// The types of the parameters, in order.
pub fn types_of_parameters(parameters: &[Parameter]) -> (r: Vec<String>)
    ensures
        texts(r@) == parameter_types(parameters_of(parameters@)),
{
    let mut r: Vec<String> = Vec::new();
    let ghost all = parameter_types(parameters_of(parameters@));
    let mut i: usize = 0;
    assert(texts(r@) =~= all.take(0));
    while i < parameters.len()
        invariant
            i <= parameters.len(),
            all == parameter_types(parameters_of(parameters@)),
            texts(r@) == all.take(i as int),
        decreases parameters.len() - i,
    {
        let ghost before = texts(r@);
        r.push(parameters[i].class.clone());
        assert(texts(r@) =~= before.push(all[i as int]));
        assert(all.take(i + 1) =~= all.take(i as int).push(all[i as int]));
        i += 1;
    }
    assert(all.take(parameters.len() as int) =~= all);
    r
}

/// The types of the injected fields, in order.
pub fn types_of_fields(fields: &[Autowired]) -> (r: Vec<String>)
    ensures
        texts(r@) == field_types(fields_of(fields@)),
{
    let mut r: Vec<String> = Vec::new();
    let ghost all = field_types(fields_of(fields@));
    let mut i: usize = 0;
    assert(texts(r@) =~= all.take(0));
    while i < fields.len()
        invariant
            i <= fields.len(),
            all == field_types(fields_of(fields@)),
            texts(r@) == all.take(i as int),
        decreases fields.len() - i,
    {
        let ghost before = texts(r@);
        r.push(fields[i].class().to_owned());
        assert(texts(r@) =~= before.push(all[i as int]));
        assert(all.take(i + 1) =~= all.take(i as int).push(all[i as int]));
        i += 1;
    }
    assert(all.take(fields.len() as int) =~= all);
    r
}

/// The names of the classes that the scan of `path` on behalf of the class at
/// index `owner` finds.
pub fn scan(classes: &Vec<Class>, owner: usize, path: &str) -> (r: Vec<String>)
    ensures
        texts(r@) == housed(records_of(classes@), owner as int, path@, classes.len() as int),
{
    let mut r: Vec<String> = Vec::new();
    let ghost records = records_of(classes@);
    let mut j: usize = 0;
    assert(texts(r@) =~= Seq::<Seq<char>>::empty());
    while j < classes.len()
        invariant
            j <= classes.len(),
            records == records_of(classes@),
            texts(r@) == housed(records, owner as int, path@, j as int),
        decreases classes.len() - j,
    {
        let ghost before = texts(r@);
        let class = &classes[j];
        assert(records[j as int] == class@);
        if j != owner && class.component_type().is_some() && holds_text(class.package(), path) {
            r.push(class.name().to_owned());
            assert(texts(r@) =~= before.push(class@.name));
        }
        j += 1;
    }
    r
}

/// Adds the statements for the scanned packages of the class at index `i`.
pub fn push_scans(out: &mut Vec<Statement>, classes: &Vec<Class>, i: usize)
    requires
        i < classes.len(),
    ensures
        drawn_of(final(out)@) == drawn_of(old(out)@) + scans_statements(
            records_of(classes@),
            i as int,
            records_of(classes@)[i as int].component_scans.len() as int,
        ),
{
    let ghost records = records_of(classes@);
    let ghost record = records[i as int];
    let class = &classes[i];
    assert(record == class@);
    let paths = class.component_scans();
    let ghost before = drawn_of(out@);
    let mut k: usize = 0;
    assert(before + scans_statements(records, i as int, 0) =~= before);
    while k < paths.len()
        invariant
            k <= paths.len(),
            i < classes.len(),
            records == records_of(classes@),
            record == records[i as int],
            record == class@,
            texts(paths@) == record.component_scans,
            drawn_of(out@) == before + scans_statements(records, i as int, k as int),
        decreases paths.len() - k,
    {
        let ghost sofar = drawn_of(out@);
        let path = &paths[k];
        assert(record.component_scans[k as int] == path@);
        out.push(Statement::Package { path: path.clone() });
        out.push(
            Statement::Edge {
                from: class.name().to_owned(),
                to: path.clone(),
                relation: Relation::ComponentScan,
            },
        );
        assert(drawn_of(out@) =~= sofar + seq![
            Drawn::Package { path: path@ },
            Drawn::Edge { from: record.name, to: path@, relation: Relation::ComponentScan },
        ]);
        let found = scan(classes, i, path.as_str());
        push_edges(out, path.as_str(), &found, Relation::Contains);
        assert(drawn_of(out@) =~= sofar + scan_statements(records, i as int, path@));
        assert(drawn_of(out@) =~= before + scans_statements(records, i as int, k + 1));
        k += 1;
    }
}

/// Adds the statements for the factory methods `beans` of the class `owner`.
pub fn push_beans(out: &mut Vec<Statement>, owner: &str, beans: &[Bean], parameters: bool)
    ensures
        drawn_of(final(out)@) == drawn_of(old(out)@) + beans_statements(
            owner@,
            beans_of(beans@),
            parameters,
            beans.len() as int,
        ),
{
    let ghost before = drawn_of(out@);
    let ghost all = beans_of(beans@);
    let mut k: usize = 0;
    assert(before + beans_statements(owner@, all, parameters, 0) =~= before);
    while k < beans.len()
        invariant
            k <= beans.len(),
            all == beans_of(beans@),
            drawn_of(out@) == before + beans_statements(owner@, all, parameters, k as int),
        decreases beans.len() - k,
    {
        let ghost sofar = drawn_of(out@);
        let bean = &beans[k];
        assert(all[k as int] == bean@);
        out.push(Statement::Product { class: bean.class().to_owned() });
        out.push(
            Statement::Edge {
                from: owner.to_owned(),
                to: bean.class().to_owned(),
                relation: Relation::Bean,
            },
        );
        assert(drawn_of(out@) =~= sofar + seq![
            Drawn::Product { class: bean@.class },
            Drawn::Edge { from: owner@, to: bean@.class, relation: Relation::Bean },
        ]);
        if parameters {
            let targets = types_of_parameters(bean.parameters());
            push_edges(out, bean.class(), &targets, Relation::ConstructorInjection);
        }
        assert(drawn_of(out@) =~= sofar + bean_statements(owner@, bean@, parameters));
        assert(drawn_of(out@) =~= before + beans_statements(owner@, all, parameters, k + 1));
        k += 1;
    }
}

/// Adds the statements for the class at index `i`.
pub fn push_class(out: &mut Vec<Statement>, classes: &Vec<Class>, i: usize, features: &Features)
    requires
        i < classes.len(),
    ensures
        drawn_of(final(out)@) == drawn_of(old(out)@) + record_statements(
            records_of(classes@),
            i as int,
            features@,
        ),
{
    let ghost start = drawn_of(out@);
    let ghost records = records_of(classes@);
    let ghost record = records[i as int];
    let class = &classes[i];
    assert(record == class@);
    let role = match class.component_type() {
        Some(role) => *role,
        None => {
            assert(start + Seq::<Drawn>::empty() =~= start);
            return ;
        },
    };
    let ghost node = seq![Drawn::Component { name: record.name, role }];
    out.push(Statement::Component { name: class.name().to_owned(), role });
    let ghost drawn = node;
    assert(drawn_of(out@) =~= start + drawn);

    let ghost imports = when(
        features@.contains(Feature::Import),
        edges(record.name, record.imports, Relation::Import),
    );
    if features.contains(&Feature::Import) {
        let targets = to_strings(class.imports());
        push_edges(out, class.name(), &targets, Relation::Import);
    }
    assert(drawn_of(out@) =~= start + (drawn + imports));
    let ghost drawn = drawn + imports;

    let ghost scans = when(
        features@.contains(Feature::ComponentScan),
        scans_statements(records, i as int, record.component_scans.len() as int),
    );
    if features.contains(&Feature::ComponentScan) {
        push_scans(out, classes, i);
    }
    assert(drawn_of(out@) =~= start + (drawn + scans));
    let ghost drawn = drawn + scans;

    let ghost constructor = when(
        features@.contains(Feature::ConstructorInjection),
        edges(record.name, parameter_types(record.parameters), Relation::ConstructorInjection),
    );
    if features.contains(&Feature::ConstructorInjection) {
        let targets = types_of_parameters(class.parameters());
        push_edges(out, class.name(), &targets, Relation::ConstructorInjection);
    }
    assert(drawn_of(out@) =~= start + (drawn + constructor));
    let ghost drawn = drawn + constructor;

    let ghost fields = when(
        features@.contains(Feature::Autowired),
        edges(record.name, field_types(record.autowires), Relation::Autowired),
    );
    if features.contains(&Feature::Autowired) {
        let targets = types_of_fields(class.autowires());
        push_edges(out, class.name(), &targets, Relation::Autowired);
    }
    assert(drawn_of(out@) =~= start + (drawn + fields));
    let ghost drawn = drawn + fields;

    let ghost beans = when(
        features@.contains(Feature::Bean),
        beans_statements(
            record.name,
            record.bean_defs,
            features@.contains(Feature::ConstructorInjection),
            record.bean_defs.len() as int,
        ),
    );
    if features.contains(&Feature::Bean) {
        let shown = features.contains(&Feature::ConstructorInjection);
        push_beans(out, class.name(), class.bean_defs(), shown);
    }
    assert(drawn_of(out@) =~= start + (drawn + beans));
    assert(drawn + beans == record_statements(records, i as int, features@));
}

/// The statements of the graph of the given classes, with the chosen kinds of
/// relation: class by class, and for each class with a role its node and the
/// statements of each chosen kind.
pub fn project(classes: &Vec<Class>, features: &Features) -> (r: Vec<Statement>)
    ensures
        drawn_of(r@) == statements(records_of(classes@), features@),
{
    let mut out: Vec<Statement> = Vec::new();
    let mut i: usize = 0;
    assert(drawn_of(out@) =~= Seq::<Drawn>::empty());
    while i < classes.len()
        invariant
            i <= classes.len(),
            drawn_of(out@) == statements_upto(records_of(classes@), features@, i as int),
        decreases classes.len() - i,
    {
        push_class(&mut out, classes, i, features);
        i += 1;
    }
    out
}

} // verus!
