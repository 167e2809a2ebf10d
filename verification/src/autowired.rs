//! Fields whose value is injected.

use crate::annotation::{lemma_marker_run, marker_run, read_marker_run};
use crate::error::ParseError;
use crate::text::{
    after, char_at, has_char_at, lemma_after, part, skip_over, skip_word, starts_with,
    string_of, tail, CharClass,
};
use vstd::prelude::*;

verus! {

/// A field that is marked for injection.
#[derive(Debug, Clone, PartialEq, Eq)]
pub struct Autowired {
    name: String,
    class: String,
}

/// The mathematical value that an `Autowired` stands for.
pub struct FieldInjection {
    pub class: Seq<char>,
    pub name: Seq<char>,
}

impl View for Autowired {
    type V = FieldInjection;

    closed spec fn view(&self) -> FieldInjection {
        FieldInjection { class: self.class@, name: self.name@ }
    }
}

impl Autowired {
    /// The field of the given type and name.
    pub fn new(class: String, name: String) -> (r: Self)
        ensures
            r@ == (FieldInjection { class: class@, name: name@ }),
    {
        Autowired { class, name }
    }

    /// The name of the field.
    pub fn name(&self) -> (r: &str)
        ensures
            r@ == self@.name,
    {
        self.name.as_str()
    }

    /// The type of the field.
    pub fn class(&self) -> (r: &str)
        ensures
            r@ == self@.class,
    {
        self.class.as_str()
    }
}

/// The marker that asks for a field to be injected.
pub open spec fn field_marker() -> Seq<char> {
    "@Autowired"@
}

/// The injected field at the start of `s` and the index behind it: the
/// injection marker, any further markers with line space around them, a type
/// and a name, each a run of ASCII letters and digits that is not empty, and a
/// semicolon where one follows at once.
pub open spec fn field_at(s: Seq<char>) -> Result<(FieldInjection, int), ParseError> {
    let first = after(s, field_marker().len() as int, CharClass::LineSpace);
    let type_start = after(s, first + marker_run(s.skip(first)).1, CharClass::LineSpace);
    let type_end = after(s, type_start, CharClass::AsciiAlphanumeric);
    let name_start = after(s, type_end, CharClass::LineSpace);
    let name_end = after(s, name_start, CharClass::AsciiAlphanumeric);
    if !starts_with(s, field_marker()) || type_end == type_start || name_end == name_start {
        Err(ParseError::MalformedAnnotation)
    } else {
        Ok(
            (
                FieldInjection {
                    class: s.subrange(type_start, type_end),
                    name: s.subrange(name_start, name_end),
                },
                if char_at(s, name_end, ';') {
                    name_end + 1
                } else {
                    name_end
                },
            ),
        )
    }
}

/// An injected field that is there takes at least one character, and no more
/// than there are.
pub proof fn lemma_field_at(s: Seq<char>)
    ensures
        field_at(s) matches Ok((_, n)) ==> 0 < n <= s.len(),
{
    if starts_with(s, field_marker()) {
        reveal_strlit("@Autowired");
        let mark = field_marker().len() as int;
        lemma_after(s, mark, CharClass::LineSpace);
        let first = after(s, mark, CharClass::LineSpace);
        lemma_marker_run(s.skip(first));
        let run_end = first + marker_run(s.skip(first)).1;
        lemma_after(s, run_end, CharClass::LineSpace);
        let type_start = after(s, run_end, CharClass::LineSpace);
        lemma_after(s, type_start, CharClass::AsciiAlphanumeric);
        let type_end = after(s, type_start, CharClass::AsciiAlphanumeric);
        lemma_after(s, type_end, CharClass::LineSpace);
        let name_start = after(s, type_end, CharClass::LineSpace);
        lemma_after(s, name_start, CharClass::AsciiAlphanumeric);
    }
}

/// Reads the injected field at the start of `s` and says how many characters
/// it takes.
pub fn read_field(s: &[char]) -> (r: Result<(Autowired, usize), ParseError>)
    ensures
        match field_at(s@) {
            Ok((f, n)) => r matches Ok((a, m)) && a@ == f && m == n && 0 < m <= s.len(),
            Err(e) => r matches Err(x) && x == e,
        },
{
    let mark = skip_word(s, 0, "@Autowired");
    proof {
        reveal_strlit("@Autowired");
    }
    if mark == 0 {
        return Err(ParseError::MalformedAnnotation);
    }
    let first = skip_over(s, mark, CharClass::LineSpace);
    let (_, n) = read_marker_run(tail(s, first));
    let type_start = skip_over(s, first + n, CharClass::LineSpace);
    let type_end = skip_over(s, type_start, CharClass::AsciiAlphanumeric);
    let name_start = skip_over(s, type_end, CharClass::LineSpace);
    let name_end = skip_over(s, name_start, CharClass::AsciiAlphanumeric);
    if type_end == type_start || name_end == name_start {
        return Err(ParseError::MalformedAnnotation);
    }
    let class = string_of(part(s, type_start, type_end));
    let name = string_of(part(s, name_start, name_end));
    let end = if has_char_at(s, name_end, ';') {
        name_end + 1
    } else {
        name_end
    };
    Ok((Autowired::new(class, name), end))
}

} // verus!
