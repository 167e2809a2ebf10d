//! Writing an array of values back as text, and the proof that reading the
//! text gives the array again.

use crate::annotation::{
    class_suffix, list_after, list_at, marker_at, payload_at, value_at, value_len, Marker,
    Payload, Value,
};
use crate::error::ParseError;
use crate::text::{
    find, free_of, is_alnum, is_white, lemma_after_is, lemma_find, lemma_find_some,
    lemma_span_unique, occurs_at, trim_start, CharClass,
};
use vstd::prelude::*;

verus! {

/// The text of a value that is no array: a string literal between double
/// quotes, a type reference before `.class`.
pub open spec fn rendered_item(v: Value) -> Seq<char> {
    match v {
        Value::String(text) => seq!['"'] + text + seq!['"'],
        Value::Class(name) => name + class_suffix(),
        Value::Array(_) => Seq::empty(),
    }
}

/// The text of the items behind the first of a list: each behind a comma and
/// a space.
pub open spec fn rendered_more(items: Seq<Value>) -> Seq<char>
    decreases items.len(),
{
    if items.len() == 0 {
        Seq::empty()
    } else {
        seq![',', ' '] + rendered_item(items[0]) + rendered_more(items.skip(1))
    }
}

/// The text of a list of items: the items with a comma and a space between
/// each two.
pub open spec fn rendered_list(items: Seq<Value>) -> Seq<char> {
    if items.len() == 0 {
        Seq::empty()
    } else {
        rendered_item(items[0]) + rendered_more(items.skip(1))
    }
}

/// The text of the marker `name` that carries the array of `items`.
pub open spec fn rendered_marker(name: Seq<char>, items: Seq<Value>) -> Seq<char> {
    seq!['@'] + name + seq!['(', '{'] + rendered_list(items) + seq!['}', ')']
}

/// A text that can stand inside the braces of an array inside the parentheses
/// of a marker: one without a closing brace, a closing parenthesis and an
/// equals sign.
pub open spec fn plain_text(s: Seq<char>) -> bool {
    free_of(s, '}') && free_of(s, ')') && free_of(s, '=')
}

/// A value whose text is read back as the value itself: a string literal
/// without a double quote, or a type reference that holds no `.class` and
/// begins with no double quote, opening brace or white space; each a plain
/// text.
pub open spec fn plain(v: Value) -> bool {
    match v {
        Value::String(text) => plain_text(text) && free_of(text, '"'),
        Value::Class(name) => {
            &&& plain_text(name)
            &&& find(name, class_suffix()) is None
            &&& name.len() > 0 ==> name[0] != '"' && name[0] != '{' && !is_white(name[0])
        },
        Value::Array(_) => false,
    }
}

/// Every item is plain.
pub open spec fn all_plain(items: Seq<Value>) -> bool {
    forall|i: int| 0 <= i < items.len() ==> plain(#[trigger] items[i])
}

/// The text of a plain value is not empty, and begins with no white space.
proof fn lemma_item_start(v: Value)
    requires
        plain(v),
    ensures
        rendered_item(v).len() > 0,
        !is_white(rendered_item(v)[0]),
{
    reveal_strlit(".class");
    match v {
        Value::String(text) => {},
        Value::Class(name) => {
            if name.len() == 0 {
                assert(rendered_item(v)[0] == class_suffix()[0]);
            } else {
                assert(rendered_item(v)[0] == name[0]);
            }
        },
        Value::Array(_) => {},
    }
}

/// The text of a plain value holds none of the characters that end an array
/// or a payload, or that make a payload keyed.
proof fn lemma_item_plain(v: Value, c: char)
    requires
        plain(v),
        c == '}' || c == ')' || c == '=',
    ensures
        free_of(rendered_item(v), c),
{
    reveal_strlit(".class");
    match v {
        Value::String(text) => {
            assert forall|i: int| 0 <= i < rendered_item(v).len() implies rendered_item(v)[i]
                != c by {
                if 1 <= i <= text.len() {
                    assert(rendered_item(v)[i] == text[i - 1]);
                }
            }
        },
        Value::Class(name) => {
            assert forall|i: int| 0 <= i < rendered_item(v).len() implies rendered_item(v)[i]
                != c by {
                if i < name.len() {
                    assert(rendered_item(v)[i] == name[i]);
                } else {
                    assert(rendered_item(v)[i] == class_suffix()[i - name.len()]);
                }
            }
        },
        Value::Array(_) => {},
    }
}

/// The text of plain items holds none of the characters that end an array or
/// a payload, or that make a payload keyed.
proof fn lemma_more_plain(items: Seq<Value>, c: char)
    requires
        all_plain(items),
        c == '}' || c == ')' || c == '=',
    ensures
        free_of(rendered_more(items), c),
    decreases items.len(),
{
    if items.len() > 0 {
        let head = seq![',', ' '] + rendered_item(items[0]);
        let more = rendered_more(items.skip(1));
        lemma_item_plain(items[0], c);
        assert(all_plain(items.skip(1))) by {
            assert forall|i: int| 0 <= i < items.skip(1).len() implies plain(
                #[trigger] items.skip(1)[i],
            ) by {
                assert(items.skip(1)[i] == items[i + 1]);
            }
        }
        lemma_more_plain(items.skip(1), c);
        assert forall|i: int| 0 <= i < rendered_more(items).len() implies rendered_more(items)[i]
            != c by {
            if i < 2 {
            } else if i < head.len() {
                assert(rendered_more(items)[i] == rendered_item(items[0])[i - 2]);
            } else {
                assert(rendered_more(items)[i] == more[i - head.len()]);
            }
        }
    }
}

/// The same for a whole list.
proof fn lemma_list_plain(items: Seq<Value>, c: char)
    requires
        all_plain(items),
        c == '}' || c == ')' || c == '=',
    ensures
        free_of(rendered_list(items), c),
{
    if items.len() > 0 {
        let head = rendered_item(items[0]);
        let more = rendered_more(items.skip(1));
        lemma_item_plain(items[0], c);
        assert(all_plain(items.skip(1))) by {
            assert forall|i: int| 0 <= i < items.skip(1).len() implies plain(
                #[trigger] items.skip(1)[i],
            ) by {
                assert(items.skip(1)[i] == items[i + 1]);
            }
        }
        lemma_more_plain(items.skip(1), c);
        assert forall|i: int| 0 <= i < rendered_list(items).len() implies rendered_list(items)[i]
            != c by {
            if i < head.len() {
                assert(rendered_list(items)[i] == head[i]);
            } else {
                assert(rendered_list(items)[i] == more[i - head.len()]);
            }
        }
    }
}

/// The text of a plain value, whatever follows it, is read as that value, and
/// what follows is left over.
pub proof fn lemma_item_read(v: Value, rest: Seq<char>)
    requires
        plain(v),
    ensures
        value_len(rendered_item(v) + rest) == Ok::<int, ParseError>(
            rendered_item(v).len() as int,
        ),
        value_at(rendered_item(v) + rest) == v,
{
    let s = rendered_item(v) + rest;
    reveal_strlit(".class");
    match v {
        Value::String(text) => {
            let end: int = 1 + text.len() as int;
            assert forall|k: int| 1 <= k < end implies CharClass::Except('"').has(
                #[trigger] s[k],
            ) by {
                assert(s[k] == text[k - 1]);
            }
            assert(s[end] == '"');
            lemma_after_is(s, 1, CharClass::Except('"'), end);
            assert(s.subrange(1, end) =~= text);
        },
        Value::Class(name) => {
            let suffix = class_suffix();
            let at = name.len() as int;
            if name.len() > 0 {
                assert(s[0] == name[0]);
            } else {
                assert(s[0] == suffix[0]);
            }
            assert(s.subrange(at, at + suffix.len()) =~= suffix);
            lemma_find(name, suffix);
            assert forall|j: int| 0 <= j < at implies !occurs_at(s, suffix, j) by {
                if occurs_at(s, suffix, j) {
                    let window = s.subrange(j, j + suffix.len());
                    if j + suffix.len() <= at {
                        assert(name.subrange(j, j + suffix.len()) =~= window);
                        assert(occurs_at(name, suffix, j));
                    } else {
                        assert(window[at - j] == s[at]);
                        assert(s[at] == suffix[0]);
                    }
                }
            }
            lemma_find_some(s, suffix, at);
            assert(s.take(at) =~= name);
        },
        Value::Array(_) => {},
    }
}

/// The text of the items behind the first of a list is read as these items.
pub proof fn lemma_more_read(items: Seq<Value>)
    requires
        all_plain(items),
    ensures
        list_after(rendered_more(items)) == items,
    decreases items.len(),
{
    let s = rendered_more(items);
    if items.len() == 0 {
        assert(list_after(s) =~= items);
    } else {
        let item = rendered_item(items[0]);
        let more = rendered_more(items.skip(1));
        lemma_item_start(items[0]);
        assert(s[2] == item[0]);
        lemma_after_is(s, 1, CharClass::Blank, 2);
        assert(s.skip(2) =~= item + more);
        lemma_item_read(items[0], more);
        assert(s.skip(2).skip(item.len() as int) =~= more);
        assert(all_plain(items.skip(1))) by {
            assert forall|i: int| 0 <= i < items.skip(1).len() implies plain(
                #[trigger] items.skip(1)[i],
            ) by {
                assert(items.skip(1)[i] == items[i + 1]);
            }
        }
        lemma_more_read(items.skip(1));
        assert(seq![items[0]] + items.skip(1) =~= items);
    }
}

/// The text of a list of plain items is read as these items.
pub proof fn lemma_list_read(items: Seq<Value>)
    requires
        all_plain(items),
    ensures
        list_at(rendered_list(items)) == items,
        trim_start(rendered_list(items)) == rendered_list(items),
{
    let s = rendered_list(items);
    reveal_strlit(".class");
    if items.len() == 0 {
        assert(list_at(s) =~= items);
        lemma_span_unique(s, CharClass::Whitespace, 0);
        assert(s.skip(0) =~= s);
    } else {
        let item = rendered_item(items[0]);
        let more = rendered_more(items.skip(1));
        lemma_item_start(items[0]);
        assert(s[0] == item[0]);
        lemma_span_unique(s, CharClass::Whitespace, 0);
        assert(s.skip(0) =~= s);
        lemma_item_read(items[0], more);
        assert(s.skip(item.len() as int) =~= more);
        assert(all_plain(items.skip(1))) by {
            assert forall|i: int| 0 <= i < items.skip(1).len() implies plain(
                #[trigger] items.skip(1)[i],
            ) by {
                assert(items.skip(1)[i] == items[i + 1]);
            }
        }
        lemma_more_read(items.skip(1));
        assert(seq![items[0]] + items.skip(1) =~= items);
    }
}

/// The text of a marker whose name is made of letters and digits and which
/// carries an array of plain values is read as that marker, with that array
/// as its one value, and nothing is left over.
pub proof fn lemma_array_round_trip(name: Seq<char>, items: Seq<Value>)
    requires
        forall|i: int| 0 <= i < name.len() ==> is_alnum(#[trigger] name[i]),
        all_plain(items),
    ensures
        marker_at(rendered_marker(name, items)) == Ok::<(Marker, int), ParseError>(
            (
                Marker { name, args: Payload::Single(Value::Array(items)) },
                rendered_marker(name, items).len() as int,
            ),
        ),
{
    let list = rendered_list(items);
    let s = rendered_marker(name, items);
    let open: int = 1 + name.len() as int;
    let close: int = open + 3 + list.len() as int;
    lemma_list_plain(items, '}');
    lemma_list_plain(items, ')');
    lemma_list_plain(items, '=');
    assert forall|k: int| 1 <= k < open implies CharClass::Alphanumeric.has(#[trigger] s[k]) by {
        assert(s[k] == name[k - 1]);
    }
    assert(s[open] == '(');
    lemma_after_is(s, 1, CharClass::Alphanumeric, open);
    lemma_after_is(s, open, CharClass::LineSpace, open);
    assert(s.subrange(1, open) =~= name);
    assert forall|k: int| open + 1 <= k < close implies CharClass::Except(')').has(
        #[trigger] s[k],
    ) by {
        if k == open + 1 {
        } else if k < close - 1 {
            assert(s[k] == list[k - open - 2]);
        } else {
        }
    }
    assert(s[close] == ')');
    lemma_after_is(s, open + 1, CharClass::Except(')'), close);
    lemma_after_is(s, close + 1, CharClass::LineSpace, close + 1);

    let body = s.subrange(open + 1, close);
    assert(body =~= seq!['{'] + list + seq!['}']);
    assert(!body.contains('=')) by {
        if body.contains('=') {
            let i = choose|i: int| 0 <= i < body.len() && body[i] == '=';
            if 1 <= i <= list.len() {
                assert(body[i] == list[i - 1]);
            }
        }
    }
    let end: int = 1 + list.len() as int;
    assert forall|k: int| 1 <= k < end implies CharClass::Except('}').has(#[trigger] body[k]) by {
        assert(body[k] == list[k - 1]);
    }
    assert(body[end] == '}');
    lemma_after_is(body, 1, CharClass::Except('}'), end);
    assert(body.subrange(1, end) =~= list);
    lemma_list_read(items);
    assert(value_at(body) == Value::Array(items));
    assert(payload_at(body) == Ok::<(Payload, int), ParseError>(
        (Payload::Single(Value::Array(items)), end + 1),
    ));
}

} // verus!
