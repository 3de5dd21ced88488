//! The JSON data model the engine traverses: a recursive value, and the
//! ghost view the contracts speak of.  An object keeps its fields in the
//! order they were written, since the order of results is observable.

use vstd::prelude::*;

use crate::num::num_wf;
use crate::num::parse_numeral;
use crate::num::spec_parse_numeral;
use crate::num::NumView;
use crate::num::NumericValue;

verus! {

/// A JSON number, as the engine reads it: its exact parsed value, and
/// the text it is rendered as (the regex predicate runs over the text,
/// the numeric predicate over the value).
#[derive(Debug, PartialEq)]
pub struct JsonNumber {
    pub value: NumericValue,
    pub text: String,
}

impl JsonNumber {
    /// Reads a number from its decimal rendering, keeping both the
    /// parsed value and the text.
    pub fn from_text(text: &str) -> (r: Option<JsonNumber>)
        ensures
            match r {
                Some(n) => spec_parse_numeral(text@) == Some(n.value@) && n.text@ == text@
                    && num_wf(n.value@),
                None => spec_parse_numeral(text@) is None,
            },
    {
        match parse_numeral(text) {
            Some(value) => Some(JsonNumber { value, text: text.to_owned() }),
            None => None,
        }
    }
}

/// A JSON document or a part of one.
#[derive(Debug, PartialEq)]
pub enum JsonValue {
    Null,
    Bool(bool),
    Number(JsonNumber),
    Str(String),
    Array(Vec<JsonValue>),
    Object(Vec<(String, JsonValue)>),
}

/// The mathematical content of a JSON value.
pub enum JsonView {
    Null,
    Bool(bool),
    Number(NumView, Seq<char>),
    Str(Seq<char>),
    Array(Seq<JsonView>),
    Object(Seq<(Seq<char>, JsonView)>),
}

/// The view of a JSON value.
pub open spec fn view_of(v: JsonValue) -> JsonView
    decreases v, 1int,
{
    match v {
        JsonValue::Null => JsonView::Null,
        JsonValue::Bool(b) => JsonView::Bool(b),
        JsonValue::Number(n) => JsonView::Number(n.value@, n.text@),
        JsonValue::Str(s) => JsonView::Str(s@),
        JsonValue::Array(items) => JsonView::Array(views_of_items(items@)),
        JsonValue::Object(entries) => JsonView::Object(views_of_entries(entries@)),
    }
}

pub open spec fn views_of_items(items: Seq<JsonValue>) -> Seq<JsonView>
    decreases items, 0int,
{
    if items.len() == 0 {
        Seq::empty()
    } else {
        seq![view_of(items[0])] + views_of_items(items.drop_first())
    }
}

pub open spec fn views_of_entries(entries: Seq<(String, JsonValue)>) -> Seq<(Seq<char>, JsonView)>
    decreases entries, 0int,
{
    if entries.len() == 0 {
        Seq::empty()
    } else {
        seq![(entries[0].0@, view_of(entries[0].1))] + views_of_entries(entries.drop_first())
    }
}

impl View for JsonValue {
    type V = JsonView;

    open spec fn view(&self) -> JsonView {
        view_of(*self)
    }
}

pub proof fn lemma_views_of_items(items: Seq<JsonValue>)
    ensures
        views_of_items(items).len() == items.len(),
        forall|i: int| 0 <= i < items.len() ==> views_of_items(items)[i] == view_of(items[i]),
    decreases items.len(),
{
    if items.len() > 0 {
        lemma_views_of_items(items.drop_first());
        assert forall|i: int| 0 <= i < items.len() implies views_of_items(items)[i] == view_of(
            items[i],
        ) by {
            if i >= 1 {
                assert(views_of_items(items)[i] == views_of_items(items.drop_first())[i - 1]);
                assert(items.drop_first()[i - 1] == items[i]);
            }
        }
    }
}

pub proof fn lemma_views_of_entries(entries: Seq<(String, JsonValue)>)
    ensures
        views_of_entries(entries).len() == entries.len(),
        forall|i: int| 0 <= i < entries.len() ==> views_of_entries(entries)[i] == (
            entries[i].0@,
            view_of(entries[i].1),
        ),
    decreases entries.len(),
{
    if entries.len() > 0 {
        lemma_views_of_entries(entries.drop_first());
        assert forall|i: int| 0 <= i < entries.len() implies views_of_entries(entries)[i] == (
            entries[i].0@,
            view_of(entries[i].1),
        ) by {
            if i >= 1 {
                assert(views_of_entries(entries)[i] == views_of_entries(entries.drop_first())[i
                    - 1]);
                assert(entries.drop_first()[i - 1] == entries[i]);
            }
        }
    }
}

impl JsonValue {
    /// A copy with the same content.
    pub fn deep_copy(&self) -> (r: JsonValue)
        ensures
            view_of(r) == view_of(*self),
        decreases *self,
    {
        match self {
            JsonValue::Null => JsonValue::Null,
            JsonValue::Bool(b) => JsonValue::Bool(*b),
            JsonValue::Number(n) => JsonValue::Number(
                JsonNumber { value: n.value.dup(), text: n.text.clone() },
            ),
            JsonValue::Str(s) => JsonValue::Str(s.clone()),
            JsonValue::Array(items) => {
                let mut out: Vec<JsonValue> = Vec::new();
                let mut i: usize = 0;
                while i < items.len()
                    invariant
                        i <= items@.len(),
                        out@.len() == i,
                        forall|j: int| 0 <= j < i ==> view_of(#[trigger] out@[j]) == view_of(
                            items@[j],
                        ),
                        *self == JsonValue::Array(*items),
                    decreases items@.len() - i,
                {
                    proof {
                        assert(decreases_to!(*self => (*self)->Array_0));
                        assert((*self)->Array_0 == *items);
                        assert(decreases_to!(*items => items@));
                        assert(decreases_to!(items@ => items@[i as int]));
                    }
                    let copied = items[i].deep_copy();
                    out.push(copied);
                    i = i + 1;
                }
                let r = JsonValue::Array(out);
                proof {
                    lemma_views_of_items(out@);
                    lemma_views_of_items(items@);
                    assert(views_of_items(out@) =~= views_of_items(items@));
                }
                r
            },
            JsonValue::Object(entries) => {
                let mut out: Vec<(String, JsonValue)> = Vec::new();
                let mut i: usize = 0;
                while i < entries.len()
                    invariant
                        i <= entries@.len(),
                        out@.len() == i,
                        forall|j: int|
                            0 <= j < i ==> (#[trigger] out@[j]).0@ == entries@[j].0@ && view_of(
                                out@[j].1,
                            ) == view_of(entries@[j].1),
                        *self == JsonValue::Object(*entries),
                    decreases entries@.len() - i,
                {
                    proof {
                        assert(decreases_to!(*self => (*self)->Object_0));
                        assert((*self)->Object_0 == *entries);
                        assert(decreases_to!(*entries => entries@));
                        assert(decreases_to!(entries@ => entries@[i as int]));
                        assert(decreases_to!(entries@[i as int] => entries@[i as int].1));
                    }
                    let key = entries[i].0.clone();
                    let copied = entries[i].1.deep_copy();
                    out.push((key, copied));
                    i = i + 1;
                }
                let r = JsonValue::Object(out);
                proof {
                    lemma_views_of_entries(out@);
                    lemma_views_of_entries(entries@);
                    assert(views_of_entries(out@) =~= views_of_entries(entries@));
                }
                r
            },
        }
    }
}

/// The value of the first field named `key`, scanning the entries from
/// position `i` on.
pub open spec fn lookup_from(
    entries: Seq<(Seq<char>, JsonView)>,
    key: Seq<char>,
    i: int,
) -> Option<JsonView>
    decreases entries.len() + 1 - i,
{
    if i < 0 || i >= entries.len() {
        None
    } else if entries[i].0 == key {
        Some(entries[i].1)
    } else {
        lookup_from(entries, key, i + 1)
    }
}

/// The value of the first field named `field_name`, if the object has
/// one.
pub fn lookup_field<'a>(entries: &'a Vec<(String, JsonValue)>, field_name: &String) -> (r: Option<
    &'a JsonValue,
>)
    ensures
        ({
            let ev = views_of_entries(entries@);
            match r {
                Some(v) => lookup_from(ev, field_name@, 0) == Some(view_of(*v)),
                None => lookup_from(ev, field_name@, 0) is None,
            }
        }),
{
    proof {
        lemma_views_of_entries(entries@);
    }
    let ghost ev = views_of_entries(entries@);
    let mut i: usize = 0;
    while i < entries.len()
        invariant
            i <= entries@.len(),
            ev == views_of_entries(entries@),
            ev.len() == entries@.len(),
            forall|j: int| 0 <= j < entries@.len() ==> #[trigger] ev[j] == (
                entries@[j].0@,
                view_of(entries@[j].1),
            ),
            lookup_from(ev, field_name@, 0) == lookup_from(ev, field_name@, i as int),
        decreases entries@.len() - i,
    {
        if field_name.eq(&entries[i].0) {
            return Some(&entries[i].1);
        }
        i = i + 1;
    }
    None
}

/// The string form a scalar takes for the regex predicate: strings pass
/// through unquoted, a number keeps its rendering, a boolean is its
/// word.  Nulls, arrays and objects have no string form: the predicate
/// never matches them.
pub open spec fn stringify(v: JsonView) -> Option<Seq<char>> {
    match v {
        JsonView::Str(s) => Some(s),
        JsonView::Number(value, text) => Some(text),
        JsonView::Bool(b) => Some(
            if b {
                "true"@
            } else {
                "false"@
            },
        ),
        _ => None,
    }
}

/// The string form of a scalar value, if it has one.
pub fn value_text(v: &JsonValue) -> (r: Option<&str>)
    ensures
        match r {
            Some(s) => stringify(view_of(*v)) == Some(s@),
            None => stringify(view_of(*v)) is None,
        },
{
    match v {
        JsonValue::Str(s) => Some(s.as_str()),
        JsonValue::Number(n) => Some(n.text.as_str()),
        JsonValue::Bool(b) => Some(
            if *b {
                "true"
            } else {
                "false"
            },
        ),
        _ => None,
    }
}

} // verus!
