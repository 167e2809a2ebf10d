//! Formal parameters, and the methods that are marked as factories.

use crate::annotation::{
    lemma_marker_at, marker_at, read_marker, AnnotationArg, Marker, Value,
};
use crate::error::ParseError;
use crate::text::{
    after, after_word, char_at, chars_of, has_char_at, is_white, lemma_after,
    lemma_span_unique, part, skip_over, skip_word, split, split_on, split_words, string_of,
    suffix_from, texts, trim_start, views, words, CharClass,
};
use std::str::FromStr;
use vstd::prelude::*;

verus! {

/// A formal parameter of a constructor or a method.
#[derive(Debug, Clone, PartialEq, Eq)]
pub struct Parameter {
    /// The markers on the parameter, each with its `@`.
    pub annotations: Vec<String>,
    /// The type of the parameter.
    pub class: String,
    /// The name that the parameter is bound to.
    pub name: String,
}

/// The mathematical value that a `Parameter` stands for.
pub struct FormalParameter {
    pub annotations: Seq<Seq<char>>,
    pub class: Seq<char>,
    pub name: Seq<char>,
}

impl View for Parameter {
    type V = FormalParameter;

    open spec fn view(&self) -> FormalParameter {
        FormalParameter {
            annotations: texts(self.annotations@),
            class: self.class@,
            name: self.name@,
        }
    }
}

/// The formal parameters that a sequence of `Parameter`s stands for.
pub open spec fn parameters_of(items: Seq<Parameter>) -> Seq<FormalParameter> {
    items.map_values(|p: Parameter| p@)
}

/// Every word of `tokens` begins with `@`.
pub open spec fn all_marked(tokens: Seq<Seq<char>>) -> bool {
    forall|i: int| 0 <= i < tokens.len() ==> char_at(#[trigger] tokens[i], 0, '@')
}

/// The formal parameter that the entry `s` of a parameter list declares. The
/// entry is read word by word: the last word is the name, the one before it
/// the type, and every word before these is a marker and begins with `@`. Any
/// other entry is malformed.
pub open spec fn parameter_at(s: Seq<char>) -> Result<FormalParameter, ParseError> {
    let tokens = words(s);
    let markers = tokens.take(tokens.len() - 2);
    if tokens.len() < 2 || !all_marked(markers) {
        Err(ParseError::MalformedParameterEntry)
    } else {
        Ok(
            FormalParameter {
                annotations: markers,
                class: tokens[tokens.len() - 2],
                name: tokens[tokens.len() - 1],
            },
        )
    }
}

/// The formal parameters that the entries declare, in order, the malformed
/// entries left out.
pub open spec fn declared(entries: Seq<Seq<char>>) -> Seq<FormalParameter>
    decreases entries.len(),
{
    if entries.len() == 0 {
        Seq::empty()
    } else {
        match parameter_at(entries.last()) {
            Ok(p) => declared(entries.drop_last()).push(p),
            Err(_) => declared(entries.drop_last()),
        }
    }
}

/// The formal parameters that the text between the parentheses of a signature
/// declares: the text is cut at every comma, and each piece is an entry.
pub open spec fn parameter_list(s: Seq<char>) -> Seq<FormalParameter> {
    declared(split(s, ','))
}

/// The entries of two lists declare, one behind the other, what the entries of
/// the first and those of the second declare.
pub proof fn lemma_declared_concat(first: Seq<Seq<char>>, second: Seq<Seq<char>>)
    ensures
        declared(first + second) == declared(first) + declared(second),
    decreases second.len(),
{
    if second.len() == 0 {
        assert(first + second =~= first);
        assert(declared(first) + declared(second) =~= declared(first));
    } else {
        assert((first + second).drop_last() =~= first + second.drop_last());
        assert((first + second).last() == second.last());
        lemma_declared_concat(first, second.drop_last());
        match parameter_at(second.last()) {
            Ok(p) => {
                assert((declared(first) + declared(second.drop_last())).push(p) =~= declared(first)
                    + declared(second.drop_last()).push(p));
            },
            Err(_) => {},
        }
    }
}

/// An entry that is malformed is dropped: the list declares what it declares
/// without that entry, and the entries around it count as before. An entry of
/// fewer than two words, such as a type without a name, is malformed.
pub proof fn lemma_malformed_entry_dropped(
    before: Seq<Seq<char>>,
    entry: Seq<char>,
    behind: Seq<Seq<char>>,
)
    requires
        parameter_at(entry) is Err || words(entry).len() < 2,
    ensures
        declared(before + seq![entry] + behind) == declared(before + behind),
{
    lemma_declared_concat(before + seq![entry], behind);
    lemma_declared_concat(before, seq![entry]);
    lemma_declared_concat(before, behind);
    assert(seq![entry].drop_last() =~= Seq::<Seq<char>>::empty());
    assert(seq![entry].last() == entry);
    assert(declared(Seq::<Seq<char>>::empty()) =~= Seq::<FormalParameter>::empty());
    assert(declared(seq![entry]) =~= Seq::<FormalParameter>::empty());
    assert(declared(before) + Seq::<FormalParameter>::empty() =~= declared(before));
}

/// A text that is empty or made of white space declares no parameter.
pub proof fn lemma_blank_list(s: Seq<char>)
    requires
        forall|i: int| 0 <= i < s.len() ==> is_white(#[trigger] s[i]),
    ensures
        parameter_list(s) == Seq::<FormalParameter>::empty(),
{
    lemma_span_unique(s, CharClass::Except(','), s.len() as int);
    lemma_span_unique(s, CharClass::Whitespace, s.len() as int);
    lemma_span_unique(trim_start(s), CharClass::Visible, 0);
    assert(seq![s].drop_last() =~= Seq::<Seq<char>>::empty());
    assert(seq![s].last() == s);
    assert(declared(Seq::<Seq<char>>::empty()) =~= Seq::<FormalParameter>::empty());
}

/// Reads one entry of a parameter list.
pub fn read_parameter(s: &[char]) -> (r: Result<Parameter, ParseError>)
    ensures
        match parameter_at(s@) {
            Ok(p) => r matches Ok(found) && found@ == p,
            Err(e) => r matches Err(x) && x == e,
        },
{
    let tokens = split_words(s);
    if tokens.len() < 2 {
        return Err(ParseError::MalformedParameterEntry);
    }
    let count = tokens.len() - 2;
    let ghost markers = views(tokens@).take(count as int);
    let mut annotations: Vec<String> = Vec::new();
    let mut i: usize = 0;
    while i < count
        invariant
            i <= count,
            count == tokens.len() - 2,
            views(tokens@) == words(s@),
            markers == views(tokens@).take(count as int),
            texts(annotations@) == markers.take(i as int),
            all_marked(markers.take(i as int)),
        decreases count - i,
    {
        let token = tokens[i];
        assert(markers[i as int] == token@);
        if !has_char_at(token, 0, '@') {
            assert(!char_at(markers[i as int], 0, '@'));
            return Err(ParseError::MalformedParameterEntry);
        }
        let ghost before = texts(annotations@);
        annotations.push(string_of(token));
        assert(texts(annotations@) =~= before.push(token@));
        assert(markers.take(i + 1) =~= markers.take(i as int).push(token@));
        i += 1;
    }
    assert(markers.take(count as int) =~= markers);
    let class = string_of(tokens[count]);
    let name = string_of(tokens[count + 1]);
    Ok(Parameter { annotations, class, name })
}

/// Reads the parameter list that stands between the parentheses of a
/// signature. Entries that are malformed are left out.
pub fn read_parameter_list(s: &[char]) -> (r: Vec<Parameter>)
    ensures
        parameters_of(r@) == parameter_list(s@),
{
    let entries = split_on(s, ',');
    let mut r: Vec<Parameter> = Vec::new();
    let mut i: usize = 0;
    assert(views(entries@).take(0) =~= Seq::<Seq<char>>::empty());
    assert(parameters_of(r@) =~= Seq::<FormalParameter>::empty());
    while i < entries.len()
        invariant
            i <= entries.len(),
            views(entries@) == split(s@, ','),
            parameters_of(r@) == declared(views(entries@).take(i as int)),
        decreases entries.len() - i,
    {
        let ghost before = parameters_of(r@);
        assert(views(entries@).take(i + 1).drop_last() =~= views(entries@).take(i as int));
        assert(views(entries@).take(i + 1).last() == entries@[i as int]@);
        match read_parameter(entries[i]) {
            Ok(p) => {
                let ghost model = p@;
                r.push(p);
                assert(parameters_of(r@) =~= before.push(model));
            },
            Err(_) => {},
        }
        i += 1;
    }
    assert(views(entries@).take(entries.len() as int) =~= views(entries@));
    r
}

/// Reads the parameter list that stands between the parentheses of a
/// signature: the entries are separated by commas, and each is made of any
/// number of markers, a type and a name. Entries that are malformed are left
/// out; a text that is empty or white space declares nothing.
pub fn parse_parameter_list(text: &str) -> (r: Vec<Parameter>)
    ensures
        parameters_of(r@) == parameter_list(text@),
{
    let chars = chars_of(text);
    read_parameter_list(chars.as_slice())
}

impl Parameter {
    /// Reads one entry of a parameter list: any number of markers, a type and
    /// a name, with white space between and around them. Fails with
    /// `MalformedParameterEntry` on anything else.
    pub fn parse(text: &str) -> (r: Result<Parameter, ParseError>)
        ensures
            match parameter_at(text@) {
                Ok(p) => r matches Ok(found) && found@ == p,
                Err(e) => r matches Err(x) && x == e,
            },
    {
        let chars = chars_of(text);
        read_parameter(chars.as_slice())
    }
}

impl FromStr for Parameter {
    type Err = ParseError;

    fn from_str(s: &str) -> (r: Result<Self, Self::Err>)
        ensures
            match parameter_at(s@) {
                Ok(p) => r matches Ok(found) && found@ == p,
                Err(e) => r matches Err(x) && x == e,
            },
    {
        Parameter::parse(s)
    }
}

/// A method that is marked as a factory.
#[derive(Debug, Clone, PartialEq, Eq)]
pub struct Bean {
    name: String,
    class: String,
    parameters: Vec<Parameter>,
}

/// The mathematical value that a `Bean` stands for.
pub struct BeanDefinition {
    /// The name under which the product is known.
    pub name: Seq<char>,
    /// The type of the product.
    pub class: Seq<char>,
    /// The parameters of the method.
    pub parameters: Seq<FormalParameter>,
}

impl View for Bean {
    type V = BeanDefinition;

    closed spec fn view(&self) -> BeanDefinition {
        BeanDefinition {
            name: self.name@,
            class: self.class@,
            parameters: parameters_of(self.parameters@),
        }
    }
}

impl Bean {
    /// The factory method with the given product type, name and parameters.
    pub fn new(class: String, name: String, parameters: Vec<Parameter>) -> (r: Self)
        ensures
            r@ == (BeanDefinition {
                name: name@,
                class: class@,
                parameters: parameters_of(parameters@),
            }),
    {
        Bean { class, name, parameters }
    }

    /// The name under which the product is known.
    pub fn name(&self) -> (r: &str)
        ensures
            r@ == self@.name,
    {
        self.name.as_str()
    }

    /// The type of the product.
    pub fn class(&self) -> (r: &str)
        ensures
            r@ == self@.class,
    {
        self.class.as_str()
    }

    /// The parameters of the method.
    pub fn parameters(&self) -> (r: &[Parameter])
        ensures
            parameters_of(r@) == self@.parameters,
    {
        self.parameters.as_slice()
    }
}

/// The name under which the product of a factory method is known: the string
/// that its marker carries as its value, or else the name of the method.
pub open spec fn exposed_name(marker: Marker, method: Seq<char>) -> Seq<char> {
    match marker.value() {
        Some(Value::String(text)) => text,
        _ => method,
    }
}

/// The factory method at the start of `s` and the index of the parenthesis
/// that closes its parameter list, or the length of `s` where none does. It is
/// made of a marker, the words `public`, `protected` and `private` in this
/// order as far as they stand there, blanks, the type of the product, line
/// space, the name of the method, and an opening parenthesis with the
/// parameter list behind it. Type and name are runs of letters and digits.
pub open spec fn bean_at(s: Seq<char>) -> Result<(BeanDefinition, int), ParseError> {
    match marker_at(s) {
        Ok((marker, n)) => {
            let visible = after_word(
                s,
                after_word(s, after_word(s, n, "public"@), "protected"@),
                "private"@,
            );
            let type_start = after(s, visible, CharClass::Blank);
            let type_end = after(s, type_start, CharClass::Alphanumeric);
            let name_start = after(s, type_end, CharClass::LineSpace);
            let name_end = after(s, name_start, CharClass::Alphanumeric);
            let list_end = after(s, name_end + 1, CharClass::Except(')'));
            if char_at(s, name_end, '(') {
                Ok(
                    (
                        BeanDefinition {
                            name: exposed_name(marker, s.subrange(name_start, name_end)),
                            class: s.subrange(type_start, type_end),
                            parameters: parameter_list(s.subrange(name_end + 1, list_end)),
                        },
                        list_end,
                    ),
                )
            } else {
                Err(ParseError::MalformedAnnotation)
            }
        },
        Err(e) => Err(e),
    }
}

/// A string that the marker of a factory method carries as its value is the
/// name under which the product is known, in place of the name of the method;
/// the type of the product is the declared one whatever the marker carries.
pub proof fn lemma_name_override(s: Seq<char>)
    ensures
        match (bean_at(s), marker_at(s)) {
            (Ok((bean, _)), Ok((marker, n))) => {
                let visible = after_word(
                    s,
                    after_word(s, after_word(s, n, "public"@), "protected"@),
                    "private"@,
                );
                let type_start = after(s, visible, CharClass::Blank);
                let type_end = after(s, type_start, CharClass::Alphanumeric);
                let name_start = after(s, type_end, CharClass::LineSpace);
                let name_end = after(s, name_start, CharClass::Alphanumeric);
                &&& bean.class == s.subrange(type_start, type_end)
                &&& match marker.value() {
                    Some(Value::String(text)) => bean.name == text,
                    _ => bean.name == s.subrange(name_start, name_end),
                }
            },
            (Ok(_), Err(_)) => false,
            (Err(_), _) => true,
        },
{
}

/// A factory method that is there takes at least one character, and no more
/// than there are.
pub proof fn lemma_bean_at(s: Seq<char>)
    ensures
        bean_at(s) matches Ok((_, n)) ==> 0 < n <= s.len(),
{
    lemma_marker_at(s);
    if let Ok((_, n)) = marker_at(s) {
        let visible = after_word(
            s,
            after_word(s, after_word(s, n, "public"@), "protected"@),
            "private"@,
        );
        lemma_after(s, visible, CharClass::Blank);
        let type_start = after(s, visible, CharClass::Blank);
        lemma_after(s, type_start, CharClass::Alphanumeric);
        let type_end = after(s, type_start, CharClass::Alphanumeric);
        lemma_after(s, type_end, CharClass::LineSpace);
        let name_start = after(s, type_end, CharClass::LineSpace);
        lemma_after(s, name_start, CharClass::Alphanumeric);
        let name_end = after(s, name_start, CharClass::Alphanumeric);
        if char_at(s, name_end, '(') {
            lemma_after(s, name_end + 1, CharClass::Except(')'));
        }
    }
}

/// Reads the factory method at the start of `s` and says where its parameter
/// list ends.
pub fn read_bean(s: &[char]) -> (r: Result<(Bean, usize), ParseError>)
    ensures
        match bean_at(s@) {
            Ok((b, n)) => r matches Ok((bean, m)) && bean@ == b && m == n && 0 < m <= s.len(),
            Err(e) => r matches Err(x) && x == e,
        },
{
    let (marker, n) = match read_marker(s) {
        Ok(found) => found,
        Err(e) => {
            return Err(e);
        },
    };
    let public = skip_word(s, n, "public");
    let protected = skip_word(s, public, "protected");
    let visible = skip_word(s, protected, "private");
    let type_start = skip_over(s, visible, CharClass::Blank);
    let type_end = skip_over(s, type_start, CharClass::Alphanumeric);
    let name_start = skip_over(s, type_end, CharClass::LineSpace);
    let name_end = skip_over(s, name_start, CharClass::Alphanumeric);
    if !has_char_at(s, name_end, '(') {
        return Err(ParseError::MalformedAnnotation);
    }
    let list_end = skip_over(s, name_end + 1, CharClass::Except(')'));
    let parameters = read_parameter_list(part(s, name_end + 1, list_end));
    let name = match marker.value() {
        Some(AnnotationArg::String(text)) => text.clone(),
        _ => string_of(part(s, name_start, name_end)),
    };
    let class = string_of(part(s, type_start, type_end));
    Ok((Bean::new(class, name, parameters), list_end))
}

/// Reads the factory method that `input` begins with, and hands back the text
/// from the end of its parameter list on. Fails as the marker fails, and with
/// `MalformedAnnotation` where no parameter list opens behind the name.
pub fn parse_bean(input: &str) -> (r: Result<(&str, Bean), ParseError>)
    ensures
        match bean_at(input@) {
            Ok((b, n)) => r matches Ok((rest, bean)) && bean@ == b && rest@ == input@.skip(n),
            Err(e) => r matches Err(x) && x == e,
        },
{
    let chars = chars_of(input);
    match read_bean(chars.as_slice()) {
        Ok((bean, n)) => Ok((suffix_from(input, n), bean)),
        Err(e) => Err(e),
    }
}

} // verus!
