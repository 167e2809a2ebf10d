//! The record that is drawn from the text of one source file.

use crate::annotation::{
    lemma_array_view, marker_run, markers_of, read_marker_run, values_of, Annotation,
    AnnotationArg, Marker, Value,
};
use crate::autowired::{
    field_at, field_marker, lemma_field_at, read_field, Autowired, FieldInjection,
};
use crate::bean::{
    bean_at, lemma_bean_at, parameter_list, parameters_of, read_bean, read_parameter_list,
    Bean, BeanDefinition, FormalParameter, Parameter,
};
use crate::component_type::{role_named, ComponentType};
use crate::error::ParseError;
use crate::text::{
    after, chars_of, find, lemma_after, lemma_find, part, position, position_of, same_text,
    scan, skip_over, span, split, split_on, string_of, tail, texts, trim, trimmed,
    trimmed_all, views, CharClass,
};
use vstd::prelude::*;

verus! {

/// What is known of the class that a source file declares.
#[derive(Debug, Clone, PartialEq, Eq)]
pub struct Class {
    package: String,
    component_type: Option<ComponentType>,
    imports: Vec<String>,
    component_scans: Vec<String>,
    name: String,
    parameters: Vec<Parameter>,
    autowires: Vec<Autowired>,
    bean_defs: Vec<Bean>,
    interfaces: Vec<String>,
}

/// The mathematical value that a `Class` stands for.
pub struct ClassRecord {
    /// The package that the file declares.
    pub package: Seq<char>,
    /// The role that the markers on the class give it.
    pub component_type: Option<ComponentType>,
    /// The types that the class imports into its context.
    pub imports: Seq<Seq<char>>,
    /// The packages that are scanned for components on behalf of the class.
    pub component_scans: Seq<Seq<char>>,
    /// The name of the class.
    pub name: Seq<char>,
    /// The parameters of the constructor.
    pub parameters: Seq<FormalParameter>,
    /// The injected fields.
    pub autowires: Seq<FieldInjection>,
    /// The factory methods.
    pub bean_defs: Seq<BeanDefinition>,
    /// The interfaces that the class implements.
    pub interfaces: Seq<Seq<char>>,
}

/// The injected fields that a sequence of `Autowired`s stands for.
pub open spec fn fields_of(items: Seq<Autowired>) -> Seq<FieldInjection> {
    items.map_values(|a: Autowired| a@)
}

/// The factory methods that a sequence of `Bean`s stands for.
pub open spec fn beans_of(items: Seq<Bean>) -> Seq<BeanDefinition> {
    items.map_values(|b: Bean| b@)
}

impl View for Class {
    type V = ClassRecord;

    closed spec fn view(&self) -> ClassRecord {
        ClassRecord {
            package: self.package@,
            component_type: self.component_type,
            imports: texts(self.imports@),
            component_scans: texts(self.component_scans@),
            name: self.name@,
            parameters: parameters_of(self.parameters@),
            autowires: fields_of(self.autowires@),
            bean_defs: beans_of(self.bean_defs@),
            interfaces: texts(self.interfaces@),
        }
    }
}

impl Class {
    /// The record with the given parts.
    pub fn new(
        package: String,
        component_type: Option<ComponentType>,
        imports: Vec<String>,
        component_scans: Vec<String>,
        name: String,
        parameters: Vec<Parameter>,
        autowires: Vec<Autowired>,
        bean_defs: Vec<Bean>,
        interfaces: Vec<String>,
    ) -> (r: Self)
        ensures
            r@ == (ClassRecord {
                package: package@,
                component_type,
                imports: texts(imports@),
                component_scans: texts(component_scans@),
                name: name@,
                parameters: parameters_of(parameters@),
                autowires: fields_of(autowires@),
                bean_defs: beans_of(bean_defs@),
                interfaces: texts(interfaces@),
            }),
    {
        Class {
            package,
            component_type,
            imports,
            component_scans,
            name,
            parameters,
            autowires,
            bean_defs,
            interfaces,
        }
    }

    /// The package that the file declares.
    pub fn package(&self) -> (r: &str)
        ensures
            r@ == self@.package,
    {
        self.package.as_str()
    }

    /// The role that the markers on the class give it.
    pub fn component_type(&self) -> (r: Option<&ComponentType>)
        ensures
            match r {
                Some(role) => self@.component_type == Some(*role),
                None => self@.component_type is None,
            },
    {
        self.component_type.as_ref()
    }

    /// The types that the class imports into its context.
    pub fn imports(&self) -> (r: &[String])
        ensures
            texts(r@) == self@.imports,
    {
        self.imports.as_slice()
    }

    /// The packages that are scanned for components on behalf of the class.
    pub fn component_scans(&self) -> (r: &[String])
        ensures
            texts(r@) == self@.component_scans,
    {
        self.component_scans.as_slice()
    }

    /// The name of the class.
    pub fn name(&self) -> (r: &str)
        ensures
            r@ == self@.name,
    {
        self.name.as_str()
    }

    /// The parameters of the constructor.
    pub fn parameters(&self) -> (r: &[Parameter])
        ensures
            parameters_of(r@) == self@.parameters,
    {
        self.parameters.as_slice()
    }

    /// The injected fields.
    pub fn autowires(&self) -> (r: &[Autowired])
        ensures
            fields_of(r@) == self@.autowires,
    {
        self.autowires.as_slice()
    }

    /// The factory methods.
    pub fn bean_defs(&self) -> (r: &[Bean])
        ensures
            beans_of(r@) == self@.bean_defs,
    {
        self.bean_defs.as_slice()
    }

    /// The interfaces that the class implements.
    pub fn interfaces(&self) -> (r: &[String])
        ensures
            texts(r@) == self@.interfaces,
    {
        self.interfaces.as_slice()
    }
}

/// What the last marker of `markers` that `reads` draws something from gives.
pub open spec fn last_given<T>(
    markers: Seq<Marker>,
    reads: spec_fn(Marker) -> Option<T>,
) -> Option<T>
    decreases markers.len(),
{
    if markers.len() == 0 {
        None
    } else {
        match reads(markers.last()) {
            Some(x) => Some(x),
            None => last_given(markers.drop_last(), reads),
        }
    }
}

/// The type references among `values`, in order.
pub open spec fn class_names(values: Seq<Value>) -> Seq<Seq<char>>
    decreases values.len(),
{
    if values.len() == 0 {
        Seq::empty()
    } else {
        match values.last() {
            Value::Class(name) => class_names(values.drop_last()).push(name),
            _ => class_names(values.drop_last()),
        }
    }
}

/// The string literals among `values`, in order.
pub open spec fn string_texts(values: Seq<Value>) -> Seq<Seq<char>>
    decreases values.len(),
{
    if values.len() == 0 {
        Seq::empty()
    } else {
        match values.last() {
            Value::String(text) => string_texts(values.drop_last()).push(text),
            _ => string_texts(values.drop_last()),
        }
    }
}

/// The role that a marker gives.
pub open spec fn marker_role(marker: Marker) -> Option<ComponentType> {
    role_named(marker.name)
}

/// The imports that a marker sets: those of an `Import` marker whose value is
/// a type reference, or an array, of which the type references count.
pub open spec fn marker_imports(marker: Marker) -> Option<Seq<Seq<char>>> {
    if marker.name == "Import"@ {
        match marker.value() {
            Some(Value::Class(name)) => Some(seq![name]),
            Some(Value::Array(values)) => Some(class_names(values)),
            _ => None,
        }
    } else {
        None
    }
}

/// The scan paths that a marker sets: those of a `ComponentScan` marker whose
/// value is a string literal, or an array, of which the string literals
/// count. An empty array stands for the package of the class itself.
pub open spec fn marker_scans(marker: Marker, package: Seq<char>) -> Option<Seq<Seq<char>>> {
    if marker.name == "ComponentScan"@ {
        match marker.value() {
            Some(Value::String(path)) => Some(seq![path]),
            Some(Value::Array(values)) => if values.len() == 0 {
                Some(seq![package])
            } else {
                Some(string_texts(values))
            },
            _ => None,
        }
    } else {
        None
    }
}

/// Whether a marker makes its class the root of an application.
pub open spec fn marker_root(marker: Marker) -> Option<bool> {
    if marker.name == "SpringBootApplication"@ {
        Some(true)
    } else {
        None
    }
}

/// The role of a class with the given markers: the last marker that gives a
/// role decides.
pub open spec fn role_of(markers: Seq<Marker>) -> Option<ComponentType> {
    last_given(markers, |m: Marker| marker_role(m))
}

/// The imports of a class with the given markers: the last marker that sets
/// imports decides, and without one there are none.
pub open spec fn imports_of(markers: Seq<Marker>) -> Seq<Seq<char>> {
    match last_given(markers, |m: Marker| marker_imports(m)) {
        Some(names) => names,
        None => Seq::empty(),
    }
}

/// The scan paths of a class with the given markers: the last marker that
/// sets scan paths decides. Without one, the root of an application scans its
/// own package, and any other class scans nothing.
pub open spec fn scans_of(markers: Seq<Marker>, package: Seq<char>) -> Seq<Seq<char>> {
    match last_given(markers, |m: Marker| marker_scans(m, package)) {
        Some(paths) => paths,
        None => if last_given(markers, |m: Marker| marker_root(m)) is Some {
            seq![package]
        } else {
            Seq::empty()
        },
    }
}

/// What the last marker that `reads` draws something from gives is what
/// `reads` draws from the marker at index `i`, where it draws something from
/// that marker and nothing from the markers behind it.
pub proof fn lemma_last_given<T>(
    markers: Seq<Marker>,
    reads: spec_fn(Marker) -> Option<T>,
    i: int,
)
    requires
        0 <= i < markers.len(),
        reads(markers[i]) is Some,
        forall|j: int| i < j < markers.len() ==> reads(#[trigger] markers[j]) is None,
    ensures
        last_given(markers, reads) == reads(markers[i]),
    decreases markers.len(),
{
    if i < markers.len() - 1 {
        lemma_last_given(markers.drop_last(), reads, i);
    }
}

/// A class scans its own package where the last of its markers that sets scan
/// paths carries an empty array.
pub proof fn lemma_empty_scan(markers: Seq<Marker>, package: Seq<char>, i: int)
    requires
        0 <= i < markers.len(),
        markers[i].name == "ComponentScan"@,
        markers[i].value() == Some(Value::Array(Seq::empty())),
        forall|j: int|
            i < j < markers.len() ==> marker_scans(#[trigger] markers[j], package) is None,
    ensures
        scans_of(markers, package) == seq![package],
{
    lemma_last_given(markers, |m: Marker| marker_scans(m, package), i);
}

/// Gathers the type references among `items`.
pub fn collect_classes(items: &Vec<AnnotationArg>) -> (r: Vec<String>)
    ensures
        texts(r@) == class_names(values_of(items@)),
{
    let mut r: Vec<String> = Vec::new();
    let mut i: usize = 0;
    assert(values_of(items@).take(0) =~= Seq::<Value>::empty());
    assert(texts(r@) =~= Seq::<Seq<char>>::empty());
    while i < items.len()
        invariant
            i <= items.len(),
            texts(r@) == class_names(values_of(items@).take(i as int)),
        decreases items.len() - i,
    {
        let ghost before = texts(r@);
        assert(values_of(items@).take(i + 1).drop_last() =~= values_of(items@).take(i as int));
        assert(values_of(items@).take(i + 1).last() == items@[i as int]@);
        match &items[i] {
            AnnotationArg::Class(name) => {
                r.push(name.clone());
                assert(texts(r@) =~= before.push(name@));
            },
            _ => {},
        }
        i += 1;
    }
    assert(values_of(items@).take(items.len() as int) =~= values_of(items@));
    r
}

/// Gathers the string literals among `items`.
pub fn collect_strings(items: &Vec<AnnotationArg>) -> (r: Vec<String>)
    ensures
        texts(r@) == string_texts(values_of(items@)),
{
    let mut r: Vec<String> = Vec::new();
    let mut i: usize = 0;
    assert(values_of(items@).take(0) =~= Seq::<Value>::empty());
    assert(texts(r@) =~= Seq::<Seq<char>>::empty());
    while i < items.len()
        invariant
            i <= items.len(),
            texts(r@) == string_texts(values_of(items@).take(i as int)),
        decreases items.len() - i,
    {
        let ghost before = texts(r@);
        assert(values_of(items@).take(i + 1).drop_last() =~= values_of(items@).take(i as int));
        assert(values_of(items@).take(i + 1).last() == items@[i as int]@);
        match &items[i] {
            AnnotationArg::String(text) => {
                r.push(text.clone());
                assert(texts(r@) =~= before.push(text@));
            },
            _ => {},
        }
        i += 1;
    }
    assert(values_of(items@).take(items.len() as int) =~= values_of(items@));
    r
}

/// The imports that a marker sets.
pub fn imports_from(annotation: &Annotation) -> (r: Option<Vec<String>>)
    ensures
        match marker_imports(annotation@) {
            Some(names) => r matches Some(found) && texts(found@) == names,
            None => r is None,
        },
{
    if !same_text(annotation.name(), "Import") {
        return None;
    }
    match annotation.value() {
        Some(AnnotationArg::Class(name)) => {
            let found = vec![name.clone()];
            assert(texts(found@) =~= seq![name@]);
            Some(found)
        },
        Some(AnnotationArg::Array(items)) => {
            proof {
                lemma_array_view(*items);
            }
            Some(collect_classes(items))
        },
        _ => None,
    }
}

/// The scan paths that a marker sets on a class of the given package.
pub fn scans_from(annotation: &Annotation, package: &str) -> (r: Option<Vec<String>>)
    ensures
        match marker_scans(annotation@, package@) {
            Some(paths) => r matches Some(found) && texts(found@) == paths,
            None => r is None,
        },
{
    if !same_text(annotation.name(), "ComponentScan") {
        return None;
    }
    match annotation.value() {
        Some(AnnotationArg::String(path)) => {
            let found = vec![path.clone()];
            assert(texts(found@) =~= seq![path@]);
            Some(found)
        },
        Some(AnnotationArg::Array(items)) => {
            proof {
                lemma_array_view(*items);
            }
            if items.len() == 0 {
                let found = vec![package.to_owned()];
                assert(texts(found@) =~= seq![package@]);
                Some(found)
            } else {
                Some(collect_strings(items))
            }
        },
        _ => None,
    }
}

/// Draws role, imports and scan paths from the markers on a class of the
/// given package.
pub fn read_header(annotations: &Vec<Annotation>, package: &str) -> (r: (
    Option<ComponentType>,
    Vec<String>,
    Vec<String>,
))
    ensures
        r.0 == role_of(markers_of(annotations@)),
        texts(r.1@) == imports_of(markers_of(annotations@)),
        texts(r.2@) == scans_of(markers_of(annotations@), package@),
{
    let mut role: Option<ComponentType> = None;
    let mut imports: Option<Vec<String>> = None;
    let mut scans: Option<Vec<String>> = None;
    let mut root: bool = false;
    let ghost markers = markers_of(annotations@);
    let mut i: usize = 0;
    assert(markers.take(0) =~= Seq::<Marker>::empty());
    while i < annotations.len()
        invariant
            i <= annotations.len(),
            markers == markers_of(annotations@),
            role == last_given(markers.take(i as int), |m: Marker| marker_role(m)),
            match last_given(markers.take(i as int), |m: Marker| marker_imports(m)) {
                Some(names) => imports matches Some(found) && texts(found@) == names,
                None => imports is None,
            },
            match last_given(markers.take(i as int), |m: Marker| marker_scans(m, package@)) {
                Some(paths) => scans matches Some(found) && texts(found@) == paths,
                None => scans is None,
            },
            root == (last_given(markers.take(i as int), |m: Marker| marker_root(m)) is Some),
        decreases annotations.len() - i,
    {
        let annotation = &annotations[i];
        assert(markers.take(i + 1).drop_last() =~= markers.take(i as int));
        assert(markers.take(i + 1).last() == annotation@);
        match ComponentType::from_marker(annotation.name()) {
            Some(found) => {
                role = Some(found);
            },
            None => {},
        }
        match imports_from(annotation) {
            Some(found) => {
                imports = Some(found);
            },
            None => {},
        }
        match scans_from(annotation, package) {
            Some(found) => {
                scans = Some(found);
            },
            None => {},
        }
        if same_text(annotation.name(), "SpringBootApplication") {
            root = true;
        }
        i += 1;
    }
    assert(markers.take(annotations.len() as int) =~= markers);
    let imports = match imports {
        Some(found) => found,
        None => Vec::new(),
    };
    let scans = match scans {
        Some(found) => found,
        None => if root {
            vec![package.to_owned()]
        } else {
            Vec::new()
        },
    };
    assert(texts(Seq::<String>::empty()) =~= Seq::<Seq<char>>::empty());
    assert(texts(scans@) =~= scans_of(markers, package@));
    (role, imports, scans)
}

/// The package that `s` declares and the index behind the declaration: the
/// text between the first `package` and the next semicolon, white space
/// around it set aside. A text without such a declaration, or with one that
/// names nothing, declares no package.
pub open spec fn package_at(s: Seq<char>) -> Result<(Seq<char>, int), ParseError> {
    match find(s, "package"@) {
        Some(i) => {
            let start = i + "package"@.len();
            let end = after(s, start, CharClass::Except(';'));
            let package = trim(s.subrange(start, end));
            if end < s.len() && package.len() > 0 {
                Ok((package, end + 1))
            } else {
                Err(ParseError::MissingPackageDeclaration)
            }
        },
        None => Err(ParseError::MissingPackageDeclaration),
    }
}

/// The markers on the class that `s` declares, and the index behind them. They
/// are the run of markers from the first `@` on, where that `@` stands before
/// the first `class`; a text without such an `@` has none.
pub open spec fn header_at(s: Seq<char>) -> (Seq<Marker>, int) {
    let at = span(s, CharClass::Except('@'));
    match find(s, "class"@) {
        Some(c) => if at < c {
            (marker_run(s.skip(at)).0, at + marker_run(s.skip(at)).1)
        } else {
            (Seq::empty(), 0)
        },
        None => (Seq::empty(), 0),
    }
}

/// The name of the class that `s` declares and the index behind the name: the
/// run of letters and digits behind the first `class` and any line space. A
/// text without `class`, or with no name behind it, declares no class.
pub open spec fn name_at(s: Seq<char>) -> Result<(Seq<char>, int), ParseError> {
    match find(s, "class"@) {
        Some(i) => {
            let start = after(s, i + "class"@.len(), CharClass::LineSpace);
            let end = after(s, start, CharClass::Alphanumeric);
            if start < end {
                Ok((s.subrange(start, end), end))
            } else {
                Err(ParseError::MissingClassDeclaration)
            }
        },
        None => Err(ParseError::MissingClassDeclaration),
    }
}

/// The interfaces that the class implements, where `s` is the text behind its
/// name: behind the first `implements` and any line space, the longest run of
/// letters, digits, commas and line space is cut at its commas. A text without
/// `implements` names no interface.
pub open spec fn interfaces_at(s: Seq<char>) -> Seq<Seq<char>> {
    match find(s, "implements"@) {
        Some(i) => {
            let start = after(s, i + "implements"@.len(), CharClass::LineSpace);
            let end = after(s, start, CharClass::NameList);
            trimmed_all(split(s.subrange(start, end), ','))
        },
        None => Seq::empty(),
    }
}

/// The parameters of the constructor of the class `name`, where `s` is the
/// text behind the name of the class: the parameter list between the first
/// `name(`, with any further opening parentheses, and the next closing
/// parenthesis. A text without `name(` shows no constructor.
pub open spec fn constructor_at(name: Seq<char>, s: Seq<char>) -> Option<Seq<FormalParameter>> {
    match find(s, name + seq!['(']) {
        Some(i) => {
            let start = after(s, i + name.len(), CharClass::Only('('));
            let end = after(s, start, CharClass::Except(')'));
            Some(parameter_list(s.subrange(start, end)))
        },
        None => None,
    }
}

/// The injected fields of `s`, in order: each is read at the next occurrence
/// of the injection marker behind the one before. A field that cannot be read
/// fails the whole.
pub open spec fn fields_at(s: Seq<char>) -> Result<Seq<FieldInjection>, ParseError>
    decreases s.len(),
{
    match find(s, field_marker()) {
        Some(i) => {
            proof {
                lemma_find(s, field_marker());
                lemma_field_at(s.skip(i));
            }
            match field_at(s.skip(i)) {
                Ok((field, n)) => match fields_at(s.skip(i).skip(n)) {
                    Ok(more) => Ok(seq![field] + more),
                    Err(e) => Err(e),
                },
                Err(e) => Err(e),
            }
        },
        None => Ok(Seq::empty()),
    }
}

/// The factory methods of `s`, in order: each is read at the next occurrence
/// of `@Bean` behind the parameter list of the one before. A method that
/// cannot be read fails the whole.
pub open spec fn beans_at(s: Seq<char>) -> Result<Seq<BeanDefinition>, ParseError>
    decreases s.len(),
{
    match find(s, "@Bean"@) {
        Some(i) => {
            proof {
                lemma_find(s, "@Bean"@);
                lemma_bean_at(s.skip(i));
            }
            match bean_at(s.skip(i)) {
                Ok((bean, n)) => match beans_at(s.skip(i).skip(n)) {
                    Ok(more) => Ok(seq![bean] + more),
                    Err(e) => Err(e),
                },
                Err(e) => Err(e),
            }
        },
        None => Ok(Seq::empty()),
    }
}

/// The record of the class whose name is `name`, whose package is `package`
/// and whose markers are `markers`, where `body` is the text behind the name.
/// Interfaces, constructor, injected fields and factory methods are each
/// searched in the whole of `body`.
pub open spec fn record_of(
    package: Seq<char>,
    markers: Seq<Marker>,
    name: Seq<char>,
    body: Seq<char>,
) -> Result<ClassRecord, ParseError> {
    match fields_at(body) {
        Ok(fields) => match beans_at(body) {
            Ok(beans) => Ok(
                ClassRecord {
                    package,
                    component_type: role_of(markers),
                    imports: imports_of(markers),
                    component_scans: scans_of(markers, package),
                    name,
                    parameters: match constructor_at(name, body) {
                        Some(parameters) => parameters,
                        None => Seq::empty(),
                    },
                    autowires: fields,
                    bean_defs: beans,
                    interfaces: interfaces_at(body),
                },
            ),
            Err(e) => Err(e),
        },
        Err(e) => Err(e),
    }
}

/// The record of the class that the text `s` of a source file declares. The
/// package declaration comes first, then the markers on the class, then the
/// name of the class, each searched behind the one before.
pub open spec fn class_at(s: Seq<char>) -> Result<ClassRecord, ParseError> {
    match package_at(s) {
        Ok((package, p)) => {
            let header = header_at(s.skip(p));
            match name_at(s.skip(p).skip(header.1)) {
                Ok((name, n)) => record_of(
                    package,
                    header.0,
                    name,
                    s.skip(p).skip(header.1).skip(n),
                ),
                Err(e) => Err(e),
            }
        },
        Err(e) => Err(e),
    }
}

/// A record that is read has a name and a package, neither of them empty.
pub proof fn lemma_record_named(s: Seq<char>)
    ensures
        class_at(s) matches Ok(record) ==> record.name.len() > 0 && record.package.len() > 0,
{
    if let Ok((package, p)) = package_at(s) {
        let behind = s.skip(p).skip(header_at(s.skip(p)).1);
        if let Ok((name, n)) = name_at(behind) {
            let i = find(behind, "class"@)->Some_0;
            lemma_find(behind, "class"@);
            let start = after(behind, i + "class"@.len(), CharClass::LineSpace);
            lemma_after(behind, i + "class"@.len(), CharClass::LineSpace);
            lemma_after(behind, start, CharClass::Alphanumeric);
        }
    }
}

/// `outcome` is what reading the text of a source file gives: the record that
/// the text declares, or the reason why it declares none.
pub open spec fn read_as(text: Seq<char>, outcome: Result<Class, ParseError>) -> bool {
    match class_at(text) {
        Ok(record) => outcome matches Ok(class) && class@ == record,
        Err(e) => outcome matches Err(x) && x == e,
    }
}

/// Reading the same text twice gives the same: two records that stand for the
/// same value, or the same failure.
pub proof fn lemma_extraction_repeats(
    text: Seq<char>,
    first: Result<Class, ParseError>,
    second: Result<Class, ParseError>,
)
    requires
        read_as(text, first),
        read_as(text, second),
    ensures
        match (first, second) {
            (Ok(a), Ok(b)) => a@ == b@,
            (Err(x), Err(y)) => x == y,
            _ => false,
        },
{
}

/// Reads the package declaration of `s`.
pub fn read_package(s: &[char]) -> (r: Result<(String, usize), ParseError>)
    ensures
        match package_at(s@) {
            Ok((p, n)) => r matches Ok((package, m)) && package@ == p && m == n && m <= s.len(),
            Err(e) => r matches Err(x) && x == e,
        },
{
    match position_of(s, "package") {
        Some((_, start)) => {
            let end = skip_over(s, start, CharClass::Except(';'));
            let package = trimmed(part(s, start, end));
            if end < s.len() && package.len() > 0 {
                Ok((string_of(package), end + 1))
            } else {
                Err(ParseError::MissingPackageDeclaration)
            }
        },
        None => Err(ParseError::MissingPackageDeclaration),
    }
}

/// Reads the markers on the class that `s` declares.
pub fn read_class_markers(s: &[char]) -> (r: (Vec<Annotation>, usize))
    ensures
        markers_of(r.0@) == header_at(s@).0,
        r.1 == header_at(s@).1,
        r.1 <= s.len(),
{
    let at = scan(s, CharClass::Except('@'));
    match position_of(s, "class") {
        Some((c, _)) => {
            if at < c {
                let (found, n) = read_marker_run(tail(s, at));
                (found, at + n)
            } else {
                let found: Vec<Annotation> = Vec::new();
                assert(markers_of(found@) =~= Seq::<Marker>::empty());
                (found, 0)
            }
        },
        None => {
            let found: Vec<Annotation> = Vec::new();
            assert(markers_of(found@) =~= Seq::<Marker>::empty());
            (found, 0)
        },
    }
}

/// Reads the name of the class that `s` declares.
pub fn read_name(s: &[char]) -> (r: Result<(String, usize), ParseError>)
    ensures
        match name_at(s@) {
            Ok((name, n)) => r matches Ok((found, m)) && found@ == name && m == n && m
                <= s.len(),
            Err(e) => r matches Err(x) && x == e,
        },
{
    match position_of(s, "class") {
        Some((_, behind)) => {
            let start = skip_over(s, behind, CharClass::LineSpace);
            let end = skip_over(s, start, CharClass::Alphanumeric);
            if start < end {
                Ok((string_of(part(s, start, end)), end))
            } else {
                Err(ParseError::MissingClassDeclaration)
            }
        },
        None => Err(ParseError::MissingClassDeclaration),
    }
}

/// Reads the interfaces that the class implements from the text behind its
/// name.
pub fn read_interfaces(s: &[char]) -> (r: Vec<String>)
    ensures
        texts(r@) == interfaces_at(s@),
{
    let mut r: Vec<String> = Vec::new();
    match position_of(s, "implements") {
        Some((_, behind)) => {
            let start = skip_over(s, behind, CharClass::LineSpace);
            let end = skip_over(s, start, CharClass::NameList);
            let pieces = split_on(part(s, start, end), ',');
            let ghost whole = trimmed_all(views(pieces@));
            let mut i: usize = 0;
            while i < pieces.len()
                invariant
                    i <= pieces.len(),
                    whole == trimmed_all(views(pieces@)),
                    texts(r@) == whole.take(i as int),
                decreases pieces.len() - i,
            {
                let ghost before = texts(r@);
                let name = string_of(trimmed(pieces[i]));
                r.push(name);
                assert(texts(r@) =~= before.push(whole[i as int]));
                assert(whole.take(i + 1) =~= whole.take(i as int).push(whole[i as int]));
                i += 1;
            }
            assert(whole.take(pieces.len() as int) =~= whole);
        },
        None => {
            assert(texts(r@) =~= Seq::<Seq<char>>::empty());
        },
    }
    r
}

/// Reads the parameters of the constructor of the class `name` from the text
/// behind the name of the class.
pub fn read_constructor(name: &[char], s: &[char]) -> (r: Option<Vec<Parameter>>)
    ensures
        match constructor_at(name@, s@) {
            Some(parameters) => r matches Some(found) && parameters_of(found@) == parameters,
            None => r is None,
        },
{
    let mut pattern: Vec<char> = Vec::new();
    let mut k: usize = 0;
    while k < name.len()
        invariant
            k <= name.len(),
            pattern@ == name@.take(k as int),
        decreases name.len() - k,
    {
        pattern.push(name[k]);
        assert(name@.take(k + 1) =~= name@.take(k as int).push(name@[k as int]));
        k += 1;
    }
    pattern.push('(');
    assert(pattern@ =~= name@ + seq!['(']);
    proof {
        lemma_find(s@, pattern@);
    }
    match position(s, pattern.as_slice()) {
        Some(i) => {
            let start = skip_over(s, i + name.len(), CharClass::Only('('));
            let end = skip_over(s, start, CharClass::Except(')'));
            Some(read_parameter_list(part(s, start, end)))
        },
        None => None,
    }
}

/// What `fields_at` gives for a text that begins with the fields `done`,
/// where `tail` is what it gives for the rest.
pub open spec fn fields_joined(
    done: Seq<FieldInjection>,
    tail: Result<Seq<FieldInjection>, ParseError>,
) -> Result<Seq<FieldInjection>, ParseError> {
    match tail {
        Ok(more) => Ok(done + more),
        Err(e) => Err(e),
    }
}

/// Reads the injected fields of `s`.
pub fn read_fields(s: &[char]) -> (r: Result<Vec<Autowired>, ParseError>)
    ensures
        match fields_at(s@) {
            Ok(fields) => r matches Ok(found) && fields_of(found@) == fields,
            Err(e) => r matches Err(x) && x == e,
        },
{
    let mut found: Vec<Autowired> = Vec::new();
    let mut pos: usize = 0;
    assert(s@.skip(0) =~= s@);
    assert(fields_of(found@) + fields_at(s@)->Ok_0 =~= fields_at(s@)->Ok_0);
    loop
        invariant_except_break
            pos <= s.len(),
            fields_at(s@) == fields_joined(fields_of(found@), fields_at(s@.skip(pos as int))),
        ensures
            fields_at(s@) == Ok::<Seq<FieldInjection>, ParseError>(fields_of(found@)),
        decreases s.len() - pos,
    {
        let rest = tail(s, pos);
        match position_of(rest, "@Autowired") {
            Some((i, _)) => match read_field(tail(rest, i)) {
                Ok((field, n)) => {
                    let ghost before = fields_of(found@);
                    let ghost model = field@;
                    found.push(field);
                    proof {
                        assert(fields_of(found@) =~= before + seq![model]);
                        assert(rest@.skip(i as int).skip(n as int) =~= s@.skip(pos + i + n));
                        if let Ok(more) = fields_at(s@.skip(pos + i + n)) {
                            assert(before + (seq![model] + more) =~= fields_of(found@) + more);
                        }
                    }
                    pos = pos + i + n;
                },
                Err(e) => {
                    return Err(e);
                },
            },
            None => {
                assert(fields_of(found@) + Seq::<FieldInjection>::empty() =~= fields_of(found@));
                break;
            },
        }
    }
    Ok(found)
}

/// What `beans_at` gives for a text that begins with the methods `done`,
/// where `tail` is what it gives for the rest.
pub open spec fn beans_joined(
    done: Seq<BeanDefinition>,
    tail: Result<Seq<BeanDefinition>, ParseError>,
) -> Result<Seq<BeanDefinition>, ParseError> {
    match tail {
        Ok(more) => Ok(done + more),
        Err(e) => Err(e),
    }
}

/// Reads the factory methods of `s`.
pub fn read_beans(s: &[char]) -> (r: Result<Vec<Bean>, ParseError>)
    ensures
        match beans_at(s@) {
            Ok(beans) => r matches Ok(found) && beans_of(found@) == beans,
            Err(e) => r matches Err(x) && x == e,
        },
{
    let mut found: Vec<Bean> = Vec::new();
    let mut pos: usize = 0;
    assert(s@.skip(0) =~= s@);
    assert(beans_of(found@) + beans_at(s@)->Ok_0 =~= beans_at(s@)->Ok_0);
    loop
        invariant_except_break
            pos <= s.len(),
            beans_at(s@) == beans_joined(beans_of(found@), beans_at(s@.skip(pos as int))),
        ensures
            beans_at(s@) == Ok::<Seq<BeanDefinition>, ParseError>(beans_of(found@)),
        decreases s.len() - pos,
    {
        let rest = tail(s, pos);
        match position_of(rest, "@Bean") {
            Some((i, _)) => match read_bean(tail(rest, i)) {
                Ok((bean, n)) => {
                    let ghost before = beans_of(found@);
                    let ghost model = bean@;
                    found.push(bean);
                    proof {
                        assert(beans_of(found@) =~= before + seq![model]);
                        assert(rest@.skip(i as int).skip(n as int) =~= s@.skip(pos + i + n));
                        if let Ok(more) = beans_at(s@.skip(pos + i + n)) {
                            assert(before + (seq![model] + more) =~= beans_of(found@) + more);
                        }
                    }
                    pos = pos + i + n;
                },
                Err(e) => {
                    return Err(e);
                },
            },
            None => {
                assert(beans_of(found@) + Seq::<BeanDefinition>::empty() =~= beans_of(found@));
                break;
            },
        }
    }
    Ok(found)
}

/// Reads the record of the class that the text `s` of a source file declares.
pub fn read_class(s: &[char]) -> (r: Result<Class, ParseError>)
    ensures
        read_as(s@, r),
{
    let (package, p) = match read_package(s) {
        Ok(found) => found,
        Err(e) => {
            return Err(e);
        },
    };
    let behind_package = tail(s, p);
    let (annotations, h) = read_class_markers(behind_package);
    let (name, n) = match read_name(tail(behind_package, h)) {
        Ok(found) => found,
        Err(e) => {
            return Err(e);
        },
    };
    let body = tail(tail(behind_package, h), n);
    let (role, imports, scans) = read_header(&annotations, package.as_str());
    let interfaces = read_interfaces(body);
    let name_chars = chars_of(name.as_str());
    let parameters = match read_constructor(name_chars.as_slice(), body) {
        Some(found) => found,
        None => {
            let found: Vec<Parameter> = Vec::new();
            assert(parameters_of(found@) =~= Seq::<FormalParameter>::empty());
            found
        },
    };
    let fields = match read_fields(body) {
        Ok(found) => found,
        Err(e) => {
            return Err(e);
        },
    };
    let beans = match read_beans(body) {
        Ok(found) => found,
        Err(e) => {
            return Err(e);
        },
    };
    Ok(Class::new(package, role, imports, scans, name, parameters, fields, beans, interfaces))
}

/// Reads the parameters of the constructor of the class `class_name` from
/// `body`, the text behind the name of the class: the parameter list that
/// follows the first `class_name(`. Without such an occurrence there is no
/// constructor to read.
pub fn parse_constructor(class_name: &str, body: &str) -> (r: Option<Vec<Parameter>>)
    ensures
        match constructor_at(class_name@, body@) {
            Some(parameters) => r matches Some(found) && parameters_of(found@) == parameters,
            None => r is None,
        },
{
    let name = chars_of(class_name);
    let text = chars_of(body);
    read_constructor(name.as_slice(), text.as_slice())
}

/// Reads the record of the class that a source file declares from the text of
/// the file. Fails with `MissingPackageDeclaration` or
/// `MissingClassDeclaration` where the file declares no package or no class,
/// and as an injected field or a factory method fails that cannot be read.
/// The text that is handed back is empty.
pub fn parse_class(input: &str) -> (r: Result<(&str, Class), ParseError>)
    ensures
        match class_at(input@) {
            Ok(record) => r matches Ok((rest, class)) && class@ == record && rest@.len() == 0,
            Err(e) => r matches Err(x) && x == e,
        },
        r matches Ok((_, class)) ==> class@.name.len() > 0 && class@.package.len() > 0,
{
    proof {
        lemma_record_named(input@);
    }
    let chars = chars_of(input);
    match read_class(chars.as_slice()) {
        Ok(class) => {
            proof {
                reveal_strlit("");
            }
            Ok(("", class))
        },
        Err(e) => Err(e),
    }
}

} // verus!
