//! Markers (`@Name(...)`) and the grammar of the values they carry.

use crate::error::ParseError;
use crate::text::{
    after, char_at, chars_of, find, has_char_at, lemma_after, lemma_find, lemma_span, part,
    position, same_text, scan, skip_over, span, string_of, suffix_from, tail, trim_start,
    CharClass,
};
use vstd::prelude::*;

verus! {

/// A value inside a marker's parentheses.
#[derive(Debug)]
pub enum AnnotationArg {
    /// A string literal, quotes removed.
    String(String),
    /// A reference to a type, the `.class` suffix removed.
    Class(String),
    /// A brace-delimited list of values.
    Array(Vec<AnnotationArg>),
}

/// The mathematical value that an `AnnotationArg` stands for.
pub enum Value {
    String(Seq<char>),
    Class(Seq<char>),
    Array(Seq<Value>),
}

impl View for AnnotationArg {
    type V = Value;

    open spec fn view(&self) -> Value
        decreases self,
    {
        match self {
            AnnotationArg::String(s) => Value::String(s@),
            AnnotationArg::Class(s) => Value::Class(s@),
            AnnotationArg::Array(items) => Value::Array(
                Seq::new(
                    items.len() as nat,
                    |i: int|
                        if 0 <= i < items.len() {
                            items[i].view()
                        } else {
                            Value::Array(Seq::empty())
                        },
                ),
            ),
        }
    }
}

/// The values that a sequence of items stands for.
pub open spec fn values_of(items: Seq<AnnotationArg>) -> Seq<Value> {
    items.map_values(|a: AnnotationArg| a@)
}

/// An array stands for the values of its items.
pub proof fn lemma_array_view(items: Vec<AnnotationArg>)
    ensures
        AnnotationArg::Array(items)@ == Value::Array(values_of(items@)),
{
    let whole = AnnotationArg::Array(items)@;
    assert(whole is Array);
    assert(whole->Array_0.len() == items@.len());
    assert forall|j: int| 0 <= j < items@.len() implies whole->Array_0[j] == values_of(
        items@,
    )[j] by {
        assert(whole->Array_0[j] == items@[j]@);
    }
    assert(whole->Array_0 =~= values_of(items@));
}

impl Clone for AnnotationArg {
    #[verifier::loop_isolation(false)]
    fn clone(&self) -> (res: Self)
        ensures
            res@ == self@,
        decreases self,
    {
        match self {
            AnnotationArg::String(s) => AnnotationArg::String(s.clone()),
            AnnotationArg::Class(s) => AnnotationArg::Class(s.clone()),
            AnnotationArg::Array(items) => {
                let mut copy: Vec<AnnotationArg> = Vec::new();
                let mut i: usize = 0;
                while i < items.len()
                    invariant
                        i <= items.len(),
                        copy@.len() == i,
                        forall|j: int| 0 <= j < i ==> (#[trigger] copy@[j])@ == items@[j]@,
                    decreases items.len() - i,
                {
                    assert(decreases_to!(items => items[i as int]));
                    copy.push(items[i].clone());
                    i += 1;
                }
                let res = AnnotationArg::Array(copy);
                proof {
                    lemma_array_view(*items);
                    lemma_array_view(copy);
                    assert(values_of(items@) =~= values_of(copy@));
                }
                res
            },
        }
    }
}

impl PartialEq for AnnotationArg {
    #[verifier::loop_isolation(false)]
    fn eq(&self, other: &Self) -> (r: bool)
        decreases self,
    {
        match (self, other) {
            (AnnotationArg::String(a), AnnotationArg::String(b)) => *a == *b,
            (AnnotationArg::Class(a), AnnotationArg::Class(b)) => *a == *b,
            (AnnotationArg::Array(a), AnnotationArg::Array(b)) => {
                proof {
                    lemma_array_view(*a);
                    lemma_array_view(*b);
                }
                if a.len() != b.len() {
                    assert(values_of(a@).len() != values_of(b@).len());
                    return false;
                }
                let mut i: usize = 0;
                while i < a.len()
                    invariant
                        i <= a.len(),
                        a.len() == b.len(),
                        forall|j: int| 0 <= j < i ==> (#[trigger] a@[j])@ == b@[j]@,
                    decreases a.len() - i,
                {
                    assert(decreases_to!(a => a[i as int]));
                    if !a[i].eq(&b[i]) {
                        assert(values_of(a@)[i as int] != values_of(b@)[i as int]);
                        return false;
                    }
                    i += 1;
                }
                assert(values_of(a@) =~= values_of(b@));
                true
            },
            _ => false,
        }
    }
}

impl vstd::std_specs::cmp::PartialEqSpecImpl for AnnotationArg {
    open spec fn obeys_eq_spec() -> bool {
        true
    }

    open spec fn eq_spec(&self, other: &Self) -> bool {
        self@ == other@
    }
}

impl Eq for AnnotationArg {

}

/// The suffix that ends a reference to a type.
pub open spec fn class_suffix() -> Seq<char> {
    ".class"@
}

/// How many characters the value at the start of `s` takes, or why no value
/// stands there. A string literal reaches from a double quote to the next one;
/// an array from an opening brace to the next closing brace; anything else is
/// a type reference and reaches to the end of the first `.class`.
pub open spec fn value_len(s: Seq<char>) -> Result<int, ParseError> {
    if char_at(s, 0, '"') {
        let end = after(s, 1, CharClass::Except('"'));
        if end < s.len() {
            Ok(end + 1)
        } else {
            Err(ParseError::MalformedValue)
        }
    } else if char_at(s, 0, '{') {
        let end = after(s, 1, CharClass::Except('}'));
        if end < s.len() {
            Ok(end + 1)
        } else {
            Err(ParseError::MalformedValue)
        }
    } else {
        match find(s, class_suffix()) {
            Some(i) => Ok(i + class_suffix().len()),
            None => Err(ParseError::MalformedValue),
        }
    }
}

/// A value that is there takes at least one character, and no more than there are.
pub proof fn lemma_value_len(s: Seq<char>)
    ensures
        value_len(s) matches Ok(n) ==> 0 < n <= s.len(),
{
    if char_at(s, 0, '"') {
        lemma_after(s, 1, CharClass::Except('"'));
    } else if char_at(s, 0, '{') {
        lemma_after(s, 1, CharClass::Except('}'));
    } else {
        reveal_strlit(".class");
        lemma_find(s, class_suffix());
    }
}

/// The value at the start of `s`, where `value_len` finds one. The items of an
/// array are read from the text between its braces, white space at its start
/// set aside.
pub open spec fn value_at(s: Seq<char>) -> Value
    decreases s.len(), 0nat,
{
    if char_at(s, 0, '"') {
        Value::String(s.subrange(1, after(s, 1, CharClass::Except('"'))))
    } else if char_at(s, 0, '{') {
        let end = after(s, 1, CharClass::Except('}'));
        proof {
            lemma_after(s, 1, CharClass::Except('}'));
            lemma_span(s.subrange(1, end), CharClass::Whitespace);
        }
        Value::Array(list_at(trim_start(s.subrange(1, end))))
    } else {
        match find(s, class_suffix()) {
            Some(i) => Value::Class(s.take(i)),
            None => Value::Class(s),
        }
    }
}

/// The values at the start of `s`, each separated from the next by a comma and
/// any number of blanks. The list ends where no further value can be read.
pub open spec fn list_at(s: Seq<char>) -> Seq<Value>
    decreases s.len(), 1nat,
{
    match value_len(s) {
        Ok(n) => {
            proof {
                lemma_value_len(s);
            }
            seq![value_at(s)] + list_after(s.skip(n))
        },
        Err(_) => Seq::empty(),
    }
}

/// The values that follow a value of a list: `s` begins behind that value.
pub open spec fn list_after(s: Seq<char>) -> Seq<Value>
    decreases s.len(), 1nat,
{
    if char_at(s, 0, ',') {
        let start = after(s, 1, CharClass::Blank);
        proof {
            lemma_after(s, 1, CharClass::Blank);
        }
        match value_len(s.skip(start)) {
            Ok(n) => {
                proof {
                    lemma_value_len(s.skip(start));
                }
                seq![value_at(s.skip(start))] + list_after(s.skip(start).skip(n))
            },
            Err(_) => Seq::empty(),
        }
    } else {
        Seq::empty()
    }
}

/// Reads the value at the start of `s` and says how many characters it takes.
pub fn read_value(s: &[char]) -> (r: Result<(AnnotationArg, usize), ParseError>)
    ensures
        match value_len(s@) {
            Ok(n) => r matches Ok((v, m)) && v@ == value_at(s@) && m == n,
            Err(e) => r matches Err(x) && x == e,
        },
    decreases s.len(), 0nat,
{
    if has_char_at(s, 0, '"') {
        let end = skip_over(s, 1, CharClass::Except('"'));
        if end < s.len() {
            Ok((AnnotationArg::String(string_of(part(s, 1, end))), end + 1))
        } else {
            Err(ParseError::MalformedValue)
        }
    } else if has_char_at(s, 0, '{') {
        let end = skip_over(s, 1, CharClass::Except('}'));
        if end < s.len() {
            let between = part(s, 1, end);
            let start = scan(between, CharClass::Whitespace);
            let items = read_list(tail(between, start));
            proof {
                lemma_array_view(items);
            }
            Ok((AnnotationArg::Array(items), end + 1))
        } else {
            Err(ParseError::MalformedValue)
        }
    } else {
        let suffix = chars_of(".class");
        match position(s, suffix.as_slice()) {
            Some(i) => {
                proof {
                    lemma_find(s@, class_suffix());
                }
                let name = string_of(part(s, 0, i));
                assert(s@.subrange(0, i as int) =~= s@.take(i as int));
                Ok((AnnotationArg::Class(name), i + suffix.len()))
            },
            None => Err(ParseError::MalformedValue),
        }
    }
}

/// Reads the list of values at the start of `s`.
pub fn read_list(s: &[char]) -> (r: Vec<AnnotationArg>)
    ensures
        values_of(r@) == list_at(s@),
    decreases s.len(), 1nat,
{
    let mut r: Vec<AnnotationArg> = Vec::new();
    let mut rest = s;
    match read_value(s) {
        Ok((v, n)) => {
            proof {
                lemma_value_len(s@);
            }
            r.push(v);
            rest = tail(s, n);
            assert(values_of(r@) =~= seq![value_at(s@)]);
        },
        Err(_) => {
            assert(values_of(r@) =~= Seq::<Value>::empty());
            return r;
        },
    }
    loop
        invariant_except_break
            rest@.len() < s@.len(),
            list_at(s@) == values_of(r@) + list_after(rest@),
        ensures
            values_of(r@) == list_at(s@),
        decreases rest.len(),
    {
        if !has_char_at(rest, 0, ',') {
            assert(values_of(r@) + Seq::<Value>::empty() =~= values_of(r@));
            break;
        }
        let start = skip_over(rest, 1, CharClass::Blank);
        let item = tail(rest, start);
        match read_value(item) {
            Ok((v, n)) => {
                proof {
                    lemma_value_len(item@);
                }
                let ghost before = values_of(r@);
                r.push(v);
                assert(values_of(r@) =~= before + seq![value_at(item@)]);
                assert(list_at(s@) =~= values_of(r@) + list_after(item@.skip(n as int)));
                rest = tail(item, n);
            },
            Err(_) => {
                assert(values_of(r@) + Seq::<Value>::empty() =~= values_of(r@));
                break;
            },
        }
    }
    r
}

/// The mapping that a sequence of bindings builds up when each is written in
/// turn: of two bindings of one key the later stays.
pub open spec fn bindings(pairs: Seq<(Seq<char>, Value)>) -> Map<Seq<char>, Value>
    decreases pairs.len(),
{
    if pairs.len() == 0 {
        Map::empty()
    } else {
        bindings(pairs.drop_last()).insert(pairs.last().0, pairs.last().1)
    }
}

/// The bindings that a sequence of entries stands for.
pub open spec fn pairs_of(entries: Seq<(String, AnnotationArg)>) -> Seq<(Seq<char>, Value)> {
    entries.map_values(|e: (String, AnnotationArg)| (e.0@, e.1@))
}

/// The last binding of a key decides what the mapping holds for it.
pub proof fn lemma_bindings_last(pairs: Seq<(Seq<char>, Value)>, i: int, key: Seq<char>)
    requires
        0 <= i < pairs.len(),
        pairs[i].0 == key,
        forall|j: int| i < j < pairs.len() ==> pairs[j].0 != key,
    ensures
        bindings(pairs).contains_key(key),
        bindings(pairs)[key] == pairs[i].1,
    decreases pairs.len(),
{
    if i < pairs.len() - 1 {
        lemma_bindings_last(pairs.drop_last(), i, key);
    }
}

/// A key that no binding names is not in the mapping.
pub proof fn lemma_bindings_absent(pairs: Seq<(Seq<char>, Value)>, key: Seq<char>)
    requires
        forall|j: int| 0 <= j < pairs.len() ==> pairs[j].0 != key,
    ensures
        !bindings(pairs).contains_key(key),
    decreases pairs.len(),
{
    if pairs.len() > 0 {
        lemma_bindings_absent(pairs.drop_last(), key);
    }
}

/// A key that a binding names is in the mapping.
pub proof fn lemma_bindings_present(pairs: Seq<(Seq<char>, Value)>, i: int)
    requires
        0 <= i < pairs.len(),
    ensures
        bindings(pairs).contains_key(pairs[i].0),
    decreases pairs.len(),
{
    if i < pairs.len() - 1 {
        lemma_bindings_present(pairs.drop_last(), i);
    }
}

/// The keyed arguments of a marker: a mapping from names to values. Two of
/// them are equal where they bind the same names to the same values, in
/// whatever order the bindings were written.
#[derive(Debug, Clone)]
pub struct ArgMap {
    entries: Vec<(String, AnnotationArg)>,
}

impl View for ArgMap {
    type V = Map<Seq<char>, Value>;

    closed spec fn view(&self) -> Map<Seq<char>, Value> {
        bindings(pairs_of(self.entries@))
    }
}

impl ArgMap {
    /// The mapping without a key.
    pub fn new() -> (r: Self)
        ensures
            r@ == Map::<Seq<char>, Value>::empty(),
    {
        let r = ArgMap { entries: Vec::new() };
        assert(pairs_of(r.entries@) =~= Seq::empty());
        r
    }

    /// The mapping that writing the given bindings in turn builds up.
    pub fn from_pairs(pairs: Vec<(String, AnnotationArg)>) -> (r: Self)
        ensures
            r@ == bindings(pairs_of(pairs@)),
    {
        ArgMap { entries: pairs }
    }

    /// Binds `key` to `value`, in place of what it was bound to.
    pub fn insert(&mut self, key: String, value: AnnotationArg)
        ensures
            final(self)@ == old(self)@.insert(key@, value@),
    {
        self.entries.push((key, value));
        assert(pairs_of(self.entries@).drop_last() =~= pairs_of(old(self).entries@));
    }

    /// The value that `key` is bound to.
    pub fn get(&self, key: &str) -> (r: Option<&AnnotationArg>)
        ensures
            match r {
                Some(v) => self@.contains_key(key@) && self@[key@] == v@,
                None => !self@.contains_key(key@),
            },
    {
        let mut i: usize = self.entries.len();
        while i > 0
            invariant
                i <= self.entries.len(),
                forall|j: int| i <= j < self.entries.len() ==> pairs_of(self.entries@)[j].0 != key@,
            decreases i,
        {
            i -= 1;
            if same_text(self.entries[i].0.as_str(), key) {
                proof {
                    lemma_bindings_last(pairs_of(self.entries@), i as int, key@);
                }
                return Some(&self.entries[i].1);
            }
        }
        proof {
            lemma_bindings_absent(pairs_of(self.entries@), key@);
        }
        None
    }
}

impl ArgMap {
    /// Whether `other` binds every key of `self`, and to the same value.
    pub fn within(&self, other: &ArgMap) -> (r: bool)
        ensures
            r == (forall|k: Seq<char>| #[trigger]
                self@.contains_key(k) ==> other@.contains_key(k) && other@[k] == self@[k]),
    {
        let ghost pairs = pairs_of(self.entries@);
        let mut i: usize = 0;
        while i < self.entries.len()
            invariant
                i <= self.entries.len(),
                pairs == pairs_of(self.entries@),
                forall|j: int|
                    0 <= j < i ==> other@.contains_key(#[trigger] pairs[j].0) && other@[pairs[j].0]
                        == self@[pairs[j].0],
            decreases self.entries.len() - i,
        {
            let key = self.entries[i].0.as_str();
            proof {
                lemma_bindings_present(pairs, i as int);
            }
            assert(pairs[i as int].0 == key@);
            let same = match (self.get(key), other.get(key)) {
                (Some(mine), Some(theirs)) => mine.eq(theirs),
                _ => false,
            };
            if !same {
                assert(self@.contains_key(key@));
                return false;
            }
            i += 1;
        }
        assert forall|k: Seq<char>| #[trigger] self@.contains_key(k) implies other@.contains_key(k)
            && other@[k] == self@[k] by {
            if forall|j: int| 0 <= j < pairs.len() ==> pairs[j].0 != k {
                lemma_bindings_absent(pairs, k);
            } else {
                let j = choose|j: int| 0 <= j < pairs.len() && pairs[j].0 == k;
                assert(other@.contains_key(pairs[j].0));
            }
        }
        true
    }
}

impl PartialEq for ArgMap {
    fn eq(&self, other: &Self) -> (r: bool) {
        let r = self.within(other) && other.within(self);
        proof {
            if r {
                assert(self@ =~= other@);
            }
        }
        r
    }
}

impl vstd::std_specs::cmp::PartialEqSpecImpl for ArgMap {
    open spec fn obeys_eq_spec() -> bool {
        true
    }

    open spec fn eq_spec(&self, other: &Self) -> bool {
        self@ == other@
    }
}

impl Eq for ArgMap {

}

/// What a marker carries between its parentheses.
#[derive(Debug, Clone, PartialEq, Eq)]
pub enum AnnotationArgs {
    /// One value.
    Single(AnnotationArg),
    /// Values bound to names.
    Multi(ArgMap),
}

/// The mathematical value that an `AnnotationArgs` stands for.
pub enum Payload {
    Single(Value),
    Keyed(Map<Seq<char>, Value>),
}

impl View for AnnotationArgs {
    type V = Payload;

    open spec fn view(&self) -> Payload {
        match self {
            AnnotationArgs::Single(v) => Payload::Single(v@),
            AnnotationArgs::Multi(m) => Payload::Keyed(m@),
        }
    }
}

/// A marker: a name and what it carries.
#[derive(Debug, Clone, PartialEq, Eq)]
pub struct Annotation {
    name: String,
    args: AnnotationArgs,
}

/// The mathematical value that an `Annotation` stands for.
pub struct Marker {
    pub name: Seq<char>,
    pub args: Payload,
}

impl Marker {
    /// The value of the marker: the one it carries alone, or the one bound to
    /// the key `value`.
    pub open spec fn value(self) -> Option<Value> {
        match self.args {
            Payload::Single(v) => Some(v),
            Payload::Keyed(m) => if m.contains_key("value"@) {
                Some(m["value"@])
            } else {
                None
            },
        }
    }
}

impl View for Annotation {
    type V = Marker;

    closed spec fn view(&self) -> Marker {
        Marker { name: self.name@, args: self.args@ }
    }
}

impl Annotation {
    /// The marker of the given name and arguments.
    pub fn new(name: String, args: AnnotationArgs) -> (r: Self)
        ensures
            r@ == (Marker { name: name@, args: args@ }),
    {
        Annotation { name, args }
    }

    /// The value of the marker: the one it carries alone, or the one bound to
    /// the key `value`.
    pub fn value(&self) -> (r: Option<&AnnotationArg>)
        ensures
            match r {
                Some(v) => self@.value() == Some(v@),
                None => self@.value() is None,
            },
    {
        match &self.args {
            AnnotationArgs::Single(v) => Some(v),
            AnnotationArgs::Multi(m) => m.get("value"),
        }
    }

    /// The name of the marker, without the `@`.
    pub fn name(&self) -> (r: &str)
        ensures
            r@ == self@.name,
    {
        self.name.as_str()
    }

    /// What the marker carries.
    pub fn args(&self) -> (r: &AnnotationArgs)
        ensures
            r@ == self@.args,
    {
        &self.args
    }
}

/// The binding at the start of `s` and the index behind it: a key of letters
/// and digits, an equals sign, a value, and a comma where one follows, with
/// blanks allowed around the sign and behind the whole.
pub open spec fn pair_at(s: Seq<char>) -> Option<(Seq<char>, Value, int)> {
    let key_end = span(s, CharClass::Alphanumeric);
    let sign = after(s, key_end, CharClass::Blank);
    let start = after(s, sign + 1, CharClass::Blank);
    if char_at(s, sign, '=') {
        match value_len(s.skip(start)) {
            Ok(n) => {
                let end = start + n;
                let next = if char_at(s, end, ',') {
                    end + 1
                } else {
                    end
                };
                Some((s.take(key_end), value_at(s.skip(start)), after(s, next, CharClass::Blank)))
            },
            Err(_) => None,
        }
    } else {
        None
    }
}

/// A binding that is there takes at least one character, and no more than
/// there are.
pub proof fn lemma_pair_at(s: Seq<char>)
    ensures
        pair_at(s) matches Some((_, _, n)) ==> 0 < n <= s.len(),
{
    let key_end = span(s, CharClass::Alphanumeric);
    lemma_span(s, CharClass::Alphanumeric);
    assert(s.skip(0) =~= s);
    lemma_after(s, key_end, CharClass::Blank);
    let sign = after(s, key_end, CharClass::Blank);
    if char_at(s, sign, '=') {
        lemma_after(s, sign + 1, CharClass::Blank);
        let start = after(s, sign + 1, CharClass::Blank);
        lemma_value_len(s.skip(start));
        if let Ok(n) = value_len(s.skip(start)) {
            let end = start + n;
            let next = if char_at(s, end, ',') {
                end + 1
            } else {
                end
            };
            lemma_after(s, next, CharClass::Blank);
        }
    }
}

/// The bindings at the start of `s`, in order, and the index behind the last
/// of them. The run ends where no further binding can be read.
pub open spec fn pairs_at(s: Seq<char>) -> (Seq<(Seq<char>, Value)>, int)
    decreases s.len(),
{
    match pair_at(s) {
        Some((key, value, n)) => {
            proof {
                lemma_pair_at(s);
            }
            let more = pairs_at(s.skip(n));
            (seq![(key, value)] + more.0, n + more.1)
        },
        None => (Seq::empty(), 0),
    }
}

/// What stands between a marker's parentheses, and how much of the text it
/// takes. A text with an equals sign anywhere in it is read as bindings, and
/// any other text as one value.
pub open spec fn payload_at(s: Seq<char>) -> Result<(Payload, int), ParseError> {
    if s.contains('=') {
        Ok((Payload::Keyed(bindings(pairs_at(s).0)), pairs_at(s).1))
    } else {
        match value_len(s) {
            Ok(n) => Ok((Payload::Single(value_at(s)), n)),
            Err(e) => Err(e),
        }
    }
}

/// An equals sign anywhere in the text decides how a payload is read: with one
/// it is read as bindings, and is always read; without one it is read as one
/// value, or not at all.
pub proof fn lemma_payload_kind(s: Seq<char>)
    ensures
        s.contains('=') ==> payload_at(s) is Ok && payload_at(s)->Ok_0.0 is Keyed,
        !s.contains('=') && payload_at(s) is Ok ==> payload_at(s)->Ok_0.0 is Single,
{
}

/// The marker at the start of `s` and the index behind it. A marker is an `@`
/// and a name of letters and digits. Where, after any line space, an opening
/// parenthesis follows, the text up to the next closing parenthesis is the
/// payload, and the line space behind that parenthesis belongs to the marker.
/// A marker without parentheses carries an empty mapping.
pub open spec fn marker_at(s: Seq<char>) -> Result<(Marker, int), ParseError> {
    let name_end = after(s, 1, CharClass::Alphanumeric);
    let open = after(s, name_end, CharClass::LineSpace);
    let close = after(s, open + 1, CharClass::Except(')'));
    let name = s.subrange(1, name_end);
    if !char_at(s, 0, '@') {
        Err(ParseError::MalformedAnnotation)
    } else if !char_at(s, open, '(') {
        Ok((Marker { name, args: Payload::Keyed(Map::empty()) }, open))
    } else if close >= s.len() {
        Err(ParseError::MalformedAnnotation)
    } else {
        match payload_at(s.subrange(open + 1, close)) {
            Ok((args, _)) => Ok((Marker { name, args }, after(s, close + 1, CharClass::LineSpace))),
            Err(e) => Err(e),
        }
    }
}

/// A marker that is there takes at least one character, and no more than
/// there are.
pub proof fn lemma_marker_at(s: Seq<char>)
    ensures
        marker_at(s) matches Ok((_, n)) ==> 0 < n <= s.len(),
{
    if char_at(s, 0, '@') {
        lemma_after(s, 1, CharClass::Alphanumeric);
        let name_end = after(s, 1, CharClass::Alphanumeric);
        lemma_after(s, name_end, CharClass::LineSpace);
        let open = after(s, name_end, CharClass::LineSpace);
        if char_at(s, open, '(') {
            lemma_after(s, open + 1, CharClass::Except(')'));
            let close = after(s, open + 1, CharClass::Except(')'));
            if close < s.len() {
                lemma_after(s, close + 1, CharClass::LineSpace);
            }
        }
    }
}

/// Every marker from the start of `s` on, in order, and the index behind the
/// last of them: each is read at the next `@`. A marker that cannot be read
/// fails the whole.
pub open spec fn markers_at(s: Seq<char>) -> Result<(Seq<Marker>, int), ParseError>
    decreases s.len(),
{
    let at = span(s, CharClass::Except('@'));
    if at < s.len() {
        proof {
            lemma_span(s, CharClass::Except('@'));
            lemma_marker_at(s.skip(at));
        }
        match marker_at(s.skip(at)) {
            Ok((m, n)) => match markers_at(s.skip(at).skip(n)) {
                Ok((more, k)) => Ok((seq![m] + more, at + n + k)),
                Err(e) => Err(e),
            },
            Err(e) => Err(e),
        }
    } else {
        Ok((Seq::empty(), 0))
    }
}

/// The markers that stand one behind the other at the start of `s`, and the
/// index behind the last of them. The run ends where no marker can be read.
pub open spec fn marker_run(s: Seq<char>) -> (Seq<Marker>, int)
    decreases s.len(),
{
    match marker_at(s) {
        Ok((m, n)) => {
            proof {
                lemma_marker_at(s);
            }
            let more = marker_run(s.skip(n));
            (seq![m] + more.0, n + more.1)
        },
        Err(_) => (Seq::empty(), 0),
    }
}

/// A run of markers ends inside the text.
pub proof fn lemma_marker_run(s: Seq<char>)
    ensures
        0 <= marker_run(s).1 <= s.len(),
    decreases s.len(),
{
    lemma_marker_at(s);
    if let Ok((_, n)) = marker_at(s) {
        lemma_marker_run(s.skip(n));
    }
}

/// The markers that a sequence of annotations stands for.
pub open spec fn markers_of(annotations: Seq<Annotation>) -> Seq<Marker> {
    annotations.map_values(|a: Annotation| a@)
}

/// Reads the binding at the start of `s`.
pub fn read_pair(s: &[char]) -> (r: Option<(String, AnnotationArg, usize)>)
    ensures
        match pair_at(s@) {
            Some((k, v, n)) => r matches Some((key, value, m)) && key@ == k && value@ == v && m
                == n,
            None => r is None,
        },
{
    let key_end = skip_over(s, 0, CharClass::Alphanumeric);
    assert(s@.skip(0) =~= s@);
    let sign = skip_over(s, key_end, CharClass::Blank);
    if !has_char_at(s, sign, '=') {
        return None;
    }
    let start = skip_over(s, sign + 1, CharClass::Blank);
    match read_value(tail(s, start)) {
        Ok((value, n)) => {
            proof {
                lemma_value_len(s@.skip(start as int));
            }
            let end = start + n;
            let next = if has_char_at(s, end, ',') {
                end + 1
            } else {
                end
            };
            let key = string_of(part(s, 0, key_end));
            assert(s@.subrange(0, key_end as int) =~= s@.take(key_end as int));
            Some((key, value, skip_over(s, next, CharClass::Blank)))
        },
        Err(_) => None,
    }
}

/// Reads the bindings at the start of `s` into a mapping.
pub fn read_pairs(s: &[char]) -> (r: (ArgMap, usize))
    ensures
        r.0@ == bindings(pairs_at(s@).0),
        r.1 == pairs_at(s@).1,
        r.1 <= s.len(),
{
    let mut map = ArgMap::new();
    let mut pos: usize = 0;
    let ghost mut done: Seq<(Seq<char>, Value)> = Seq::empty();
    assert(s@.skip(0) =~= s@);
    loop
        invariant_except_break
            pos <= s.len(),
            map@ == bindings(done),
            pairs_at(s@).0 == done + pairs_at(s@.skip(pos as int)).0,
            pairs_at(s@).1 == pos + pairs_at(s@.skip(pos as int)).1,
        ensures
            pos <= s.len(),
            map@ == bindings(pairs_at(s@).0),
            pos == pairs_at(s@).1,
        decreases s.len() - pos,
    {
        match read_pair(tail(s, pos)) {
            Some((key, value, n)) => {
                proof {
                    lemma_pair_at(s@.skip(pos as int));
                    assert(s@.skip(pos as int).skip(n as int) =~= s@.skip(pos + n));
                    assert(done.push((key@, value@)).drop_last() =~= done);
                    assert(pairs_at(s@).0 =~= done.push((key@, value@)) + pairs_at(
                        s@.skip(pos + n),
                    ).0);
                    done = done.push((key@, value@));
                }
                map.insert(key, value);
                pos = pos + n;
            },
            None => {
                assert(done + Seq::<(Seq<char>, Value)>::empty() =~= done);
                break;
            },
        }
    }
    (map, pos)
}

/// Reads what stands between a marker's parentheses.
pub fn read_payload(s: &[char]) -> (r: Result<(AnnotationArgs, usize), ParseError>)
    ensures
        match payload_at(s@) {
            Ok((p, n)) => r matches Ok((args, m)) && args@ == p && m == n && m <= s.len(),
            Err(e) => r matches Err(x) && x == e,
        },
{
    let sign = scan(s, CharClass::Except('='));
    proof {
        lemma_span(s@, CharClass::Except('='));
    }
    if sign < s.len() {
        assert(s@[sign as int] == '=');
        let (map, n) = read_pairs(s);
        Ok((AnnotationArgs::Multi(map), n))
    } else {
        match read_value(s) {
            Ok((v, n)) => {
                proof {
                    lemma_value_len(s@);
                }
                Ok((AnnotationArgs::Single(v), n))
            },
            Err(e) => Err(e),
        }
    }
}

/// Reads the marker at the start of `s` and says how many characters it takes.
pub fn read_marker(s: &[char]) -> (r: Result<(Annotation, usize), ParseError>)
    ensures
        match marker_at(s@) {
            Ok((marker, n)) => r matches Ok((a, m)) && a@ == marker && m == n && 0 < m <= s.len(),
            Err(e) => r matches Err(x) && x == e,
        },
{
    if !has_char_at(s, 0, '@') {
        return Err(ParseError::MalformedAnnotation);
    }
    let name_end = skip_over(s, 1, CharClass::Alphanumeric);
    let open = skip_over(s, name_end, CharClass::LineSpace);
    let name = string_of(part(s, 1, name_end));
    if !has_char_at(s, open, '(') {
        return Ok((Annotation::new(name, AnnotationArgs::Multi(ArgMap::new())), open));
    }
    let close = skip_over(s, open + 1, CharClass::Except(')'));
    if close >= s.len() {
        return Err(ParseError::MalformedAnnotation);
    }
    match read_payload(part(s, open + 1, close)) {
        Ok((args, _)) => Ok(
            (Annotation::new(name, args), skip_over(s, close + 1, CharClass::LineSpace)),
        ),
        Err(e) => Err(e),
    }
}

/// What `markers_at` gives for a text whose first `pos` characters hold the
/// markers `done`, where `tail` is what it gives for the rest.
pub open spec fn markers_joined(
    done: Seq<Marker>,
    pos: int,
    tail: Result<(Seq<Marker>, int), ParseError>,
) -> Result<(Seq<Marker>, int), ParseError> {
    match tail {
        Ok((more, k)) => Ok((done + more, pos + k)),
        Err(e) => Err(e),
    }
}

/// Reads every marker from the start of `s` on, each at the next `@`.
pub fn read_markers(s: &[char]) -> (r: Result<(Vec<Annotation>, usize), ParseError>)
    ensures
        match markers_at(s@) {
            Ok((markers, n)) => r matches Ok((found, m)) && markers_of(found@) == markers && m
                == n && m <= s.len(),
            Err(e) => r matches Err(x) && x == e,
        },
{
    let mut found: Vec<Annotation> = Vec::new();
    let mut pos: usize = 0;
    assert(s@.skip(0) =~= s@);
    assert(markers_of(found@) + markers_at(s@)->Ok_0.0 =~= markers_at(s@)->Ok_0.0);
    loop
        invariant_except_break
            pos <= s.len(),
            markers_at(s@) == markers_joined(
                markers_of(found@),
                pos as int,
                markers_at(s@.skip(pos as int)),
            ),
        ensures
            pos <= s.len(),
            markers_at(s@) == Ok::<(Seq<Marker>, int), ParseError>(
                (markers_of(found@), pos as int),
            ),
        decreases s.len() - pos,
    {
        let rest = tail(s, pos);
        let at = scan(rest, CharClass::Except('@'));
        if at >= rest.len() {
            assert(markers_of(found@) + Seq::<Marker>::empty() =~= markers_of(found@));
            break;
        }
        match read_marker(tail(rest, at)) {
            Ok((a, n)) => {
                let ghost before = markers_of(found@);
                let ghost marker = a@;
                found.push(a);
                proof {
                    assert(markers_of(found@) =~= before + seq![marker]);
                    assert(rest@.skip(at as int).skip(n as int) =~= s@.skip(pos + at + n));
                    let more = markers_at(s@.skip(pos + at + n));
                    if let Ok((ms, k)) = more {
                        assert(before + (seq![marker] + ms) =~= markers_of(found@) + ms);
                    }
                }
                pos = pos + at + n;
            },
            Err(e) => {
                return Err(e);
            },
        }
    }
    Ok((found, pos))
}

/// Reads the markers that stand one behind the other at the start of `s`.
pub fn read_marker_run(s: &[char]) -> (r: (Vec<Annotation>, usize))
    ensures
        markers_of(r.0@) == marker_run(s@).0,
        r.1 == marker_run(s@).1,
        r.1 <= s.len(),
{
    let mut found: Vec<Annotation> = Vec::new();
    let mut pos: usize = 0;
    assert(s@.skip(0) =~= s@);
    assert(markers_of(found@) + marker_run(s@).0 =~= marker_run(s@).0);
    loop
        invariant_except_break
            pos <= s.len(),
            marker_run(s@).0 == markers_of(found@) + marker_run(s@.skip(pos as int)).0,
            marker_run(s@).1 == pos + marker_run(s@.skip(pos as int)).1,
        ensures
            pos <= s.len(),
            markers_of(found@) == marker_run(s@).0,
            pos == marker_run(s@).1,
        decreases s.len() - pos,
    {
        match read_marker(tail(s, pos)) {
            Ok((a, n)) => {
                let ghost before = markers_of(found@);
                let ghost marker = a@;
                found.push(a);
                proof {
                    assert(markers_of(found@) =~= before + seq![marker]);
                    assert(s@.skip(pos as int).skip(n as int) =~= s@.skip(pos + n));
                    assert(before + (seq![marker] + marker_run(s@.skip(pos + n)).0)
                        =~= markers_of(found@) + marker_run(s@.skip(pos + n)).0);
                }
                pos = pos + n;
            },
            Err(_) => {
                assert(markers_of(found@) + Seq::<Marker>::empty() =~= markers_of(found@));
                break;
            },
        }
    }
    (found, pos)
}

/// Reads the value that `input` begins with, and hands back the text behind
/// it. Fails with `MalformedValue` where no value stands there.
pub fn parse_arg(input: &str) -> (r: Result<(&str, AnnotationArg), ParseError>)
    ensures
        match value_len(input@) {
            Ok(n) => r matches Ok((rest, v)) && v@ == value_at(input@) && rest@ == input@.skip(n),
            Err(e) => r matches Err(x) && x == e,
        },
{
    let chars = chars_of(input);
    match read_value(chars.as_slice()) {
        Ok((v, n)) => {
            proof {
                lemma_value_len(input@);
            }
            Ok((suffix_from(input, n), v))
        },
        Err(e) => Err(e),
    }
}

/// Reads the bindings that `input` begins with into a mapping, and hands back
/// the text behind them. It never fails: a text without a binding gives the
/// empty mapping and is handed back whole.
pub fn parse_key_value_pairs(input: &str) -> (r: Result<(&str, ArgMap), ParseError>)
    ensures
        r matches Ok((rest, map)) && map@ == bindings(pairs_at(input@).0) && rest@
            == input@.skip(pairs_at(input@).1),
{
    let chars = chars_of(input);
    let (map, n) = read_pairs(chars.as_slice());
    Ok((suffix_from(input, n), map))
}

/// Reads what stands between a marker's parentheses: bindings where the text
/// holds an equals sign, one value where it does not.
pub fn parse_args(input: &str) -> (r: Result<(&str, AnnotationArgs), ParseError>)
    ensures
        match payload_at(input@) {
            Ok((p, n)) => r matches Ok((rest, args)) && args@ == p && rest@ == input@.skip(n),
            Err(e) => r matches Err(x) && x == e,
        },
        input@.contains('=') ==> r is Ok && r->Ok_0.1 is Multi,
        !input@.contains('=') && r is Ok ==> r->Ok_0.1 is Single,
{
    let chars = chars_of(input);
    match read_payload(chars.as_slice()) {
        Ok((args, n)) => Ok((suffix_from(input, n), args)),
        Err(e) => Err(e),
    }
}

/// Reads the marker that `input` begins with, and hands back the text behind
/// it. Fails with `MalformedAnnotation` where `input` does not begin with `@`
/// or a parenthesis is left open, and with `MalformedValue` where the payload
/// holds no value.
pub fn parse_annotation(input: &str) -> (r: Result<(&str, Annotation), ParseError>)
    ensures
        match marker_at(input@) {
            Ok((m, n)) => r matches Ok((rest, a)) && a@ == m && rest@ == input@.skip(n),
            Err(e) => r matches Err(x) && x == e,
        },
{
    let chars = chars_of(input);
    match read_marker(chars.as_slice()) {
        Ok((a, n)) => Ok((suffix_from(input, n), a)),
        Err(e) => Err(e),
    }
}

/// Reads every marker in `input`, in order, and hands back the text behind the
/// last of them. A text without `@` gives no marker and no error; a marker
/// that cannot be read fails the whole.
pub fn parse_annotations(input: &str) -> (r: Result<(&str, Vec<Annotation>), ParseError>)
    ensures
        match markers_at(input@) {
            Ok((ms, n)) => r matches Ok((rest, found)) && markers_of(found@) == ms && rest@
                == input@.skip(n),
            Err(e) => r matches Err(x) && x == e,
        },
{
    let chars = chars_of(input);
    match read_markers(chars.as_slice()) {
        Ok((found, n)) => Ok((suffix_from(input, n), found)),
        Err(e) => Err(e),
    }
}

} // verus!
