//! Dynamically typed values: what a patch request carries and what a stored
//! document is made of.

use vstd::prelude::*;
use crate::text::{first_index, lemma_first_index, lemma_first_index_is};

verus! {

/// A value of no fixed type.
///
/// An object keeps its fields in order; where two fields share a name the
/// first one is the one that is read and replaced.
#[derive(Debug, PartialEq, Eq)]
pub enum Value {
    Null,
    Bool(bool),
    /// A whole number.
    Number(i64),
    /// A number with a fractional part, held as the bits of its IEEE 754
    /// double-precision form.
    Float(u64),
    Text(String),
    Array(Vec<Value>),
    Object(Vec<(String, Value)>),
}

/// The mathematical content of a [`Value`].
pub enum ValueView {
    Null,
    Bool(bool),
    Number(int),
    Float(u64),
    Text(Seq<char>),
    Array(Seq<ValueView>),
    Object(Seq<(Seq<char>, ValueView)>),
}

/// The content of `v`, read off variant by variant.
pub open spec fn content_of(v: Value) -> ValueView
    decreases v,
{
    match v {
        Value::Null => ValueView::Null,
        Value::Bool(b) => ValueView::Bool(b),
        Value::Number(n) => ValueView::Number(n as int),
        Value::Float(bits) => ValueView::Float(bits),
        Value::Text(s) => ValueView::Text(s@),
        Value::Array(items) => ValueView::Array(
            Seq::new(
                items@.len(),
                |i: int|
                    if 0 <= i < items@.len() {
                        content_of(items@[i])
                    } else {
                        ValueView::Null
                    },
            ),
        ),
        Value::Object(fields) => ValueView::Object(
            Seq::new(
                fields@.len(),
                |i: int|
                    if 0 <= i < fields@.len() {
                        (fields@[i].0@, content_of(fields@[i].1))
                    } else {
                        (Seq::empty(), ValueView::Null)
                    },
            ),
        ),
    }
}

impl View for Value {
    type V = ValueView;

    open spec fn view(&self) -> ValueView {
        content_of(*self)
    }
}

/// The views of the items of an array, one by one.
pub open spec fn item_views(items: Seq<Value>) -> Seq<ValueView> {
    Seq::new(items.len(), |i: int| items[i]@)
}

/// The views of the fields of an object, one by one.
pub open spec fn field_views(fields: Seq<(String, Value)>) -> Seq<(Seq<char>, ValueView)> {
    Seq::new(fields.len(), |i: int| (fields[i].0@, fields[i].1@))
}

/// An array is viewed item by item, an object field by field.
pub proof fn lemma_view_unfold(v: Value)
    ensures
        v matches Value::Array(items) ==> v@ == ValueView::Array(item_views(items@)),
        v matches Value::Object(fields) ==> v@ == ValueView::Object(field_views(fields@)),
{
    match v {
        Value::Array(items) => {
            assert(v@->Array_0 =~= item_views(items@));
        },
        Value::Object(fields) => {
            assert(v@->Object_0 =~= field_views(fields@));
        },
        _ => {},
    }
}

impl Value {
    /// An array of the given items.
    pub fn array(items: Vec<Value>) -> (v: Value)
        ensures
            v@ == ValueView::Array(item_views(items@)),
    {
        let v = Value::Array(items);
        proof {
            lemma_view_unfold(v);
        }
        v
    }

    /// An object of the given fields.
    pub fn object(fields: Vec<(String, Value)>) -> (v: Value)
        ensures
            v@ == ValueView::Object(field_views(fields@)),
    {
        let v = Value::Object(fields);
        proof {
            lemma_view_unfold(v);
        }
        v
    }

    /// A text value holding the characters of `s`.
    pub fn text(s: &str) -> (v: Value)
        ensures
            v@ == ValueView::Text(s@),
    {
        Value::Text(s.to_owned())
    }
}

/// Copies of the items of `items`.
pub fn copy_items(items: &Vec<Value>) -> (out: Vec<Value>)
    ensures
        item_views(out@) == item_views(items@),
    decreases items, 1int,
{
    let mut out: Vec<Value> = Vec::new();
    let mut i: usize = 0;
    while i < items.len()
        invariant
            i <= items.len(),
            out.len() == i,
            forall|j: int| 0 <= j < i ==> out[j]@ == items[j]@,
        decreases items.len() - i,
    {
        proof {
            vstd::std_specs::vec::axiom_vec_index_decreases(*items, i as int);
        }
        out.push(items[i].clone());
        i += 1;
    }
    assert(item_views(out@) =~= item_views(items@));
    out
}

/// Copies of the fields of `fields`.
pub fn copy_fields(fields: &Vec<(String, Value)>) -> (out: Vec<(String, Value)>)
    ensures
        field_views(out@) == field_views(fields@),
    decreases fields, 1int,
{
    let mut out: Vec<(String, Value)> = Vec::new();
    let mut i: usize = 0;
    while i < fields.len()
        invariant
            i <= fields.len(),
            out.len() == i,
            forall|j: int| 0 <= j < i ==> out[j].0@ == fields[j].0@ && out[j].1@ == fields[j].1@,
        decreases fields.len() - i,
    {
        proof {
            vstd::std_specs::vec::axiom_vec_index_decreases(*fields, i as int);
        }
        out.push((fields[i].0.clone(), fields[i].1.clone()));
        i += 1;
    }
    assert(field_views(out@) =~= field_views(fields@));
    out
}

impl Clone for Value {
    /// A deep copy.
    fn clone(&self) -> (r: Value)
        ensures
            r@ == self@,
        decreases self, 0int,
    {
        proof {
            lemma_view_unfold(*self);
        }
        match self {
            Value::Null => Value::Null,
            Value::Bool(b) => Value::Bool(*b),
            Value::Number(n) => Value::Number(*n),
            Value::Float(bits) => Value::Float(*bits),
            Value::Text(s) => Value::Text(s.clone()),
            Value::Array(items) => Value::array(copy_items(items)),
            Value::Object(fields) => Value::object(copy_fields(fields)),
        }
    }
}

/// The names of `fields`, one by one.
pub open spec fn field_names(fields: Seq<(Seq<char>, ValueView)>) -> Seq<Seq<char>> {
    Seq::new(fields.len(), |i: int| fields[i].0)
}

/// `fields` with the field `name` set to `value`: in place of the first field
/// of that name, or at the end where there is none.
pub open spec fn with_field(
    fields: Seq<(Seq<char>, ValueView)>,
    name: Seq<char>,
    value: ValueView,
) -> Seq<(Seq<char>, ValueView)> {
    let at = first_index(field_names(fields), name);
    if at < fields.len() {
        fields.update(at, (name, value))
    } else {
        fields.push((name, value))
    }
}

/// The value of the first field of `fields` named `name`, if there is one.
pub open spec fn field_value(fields: Seq<(Seq<char>, ValueView)>, name: Seq<char>) -> Option<ValueView> {
    let at = first_index(field_names(fields), name);
    if at < fields.len() {
        Some(fields[at].1)
    } else {
        None
    }
}

/// Setting a field makes that field read as the new value and leaves what
/// every other name reads as it was.
pub proof fn lemma_with_field(
    fields: Seq<(Seq<char>, ValueView)>,
    name: Seq<char>,
    value: ValueView,
    other: Seq<char>,
)
    ensures
        field_value(with_field(fields, name, value), name) == Some(value),
        other != name ==> field_value(with_field(fields, name, value), other) == field_value(fields, other),
{
    let names = field_names(fields);
    let out = with_field(fields, name, value);
    let out_names = field_names(out);
    let at = first_index(names, name);
    lemma_first_index(names, name);
    lemma_first_index(names, other);
    let at_other = first_index(names, other);
    if at < fields.len() {
        assert(out_names =~= names);
    } else {
        assert(out_names =~= names.push(name));
        lemma_first_index_is(out_names, name, at);
        if other != name {
            if at_other < fields.len() {
                lemma_first_index_is(out_names, other, at_other);
            } else {
                lemma_first_index_is(out_names, other, out_names.len() as int);
            }
        }
    }
}

/// The position of the first field of `fields` named `name`, or the number
/// of fields where there is none.
pub(crate) fn find_field(fields: &Vec<(String, Value)>, name: &String) -> (at: usize)
    ensures
        at == first_index(field_names(field_views(fields@)), name@),
        at <= fields.len(),
{
    let ghost names = field_names(field_views(fields@));
    let mut i: usize = 0;
    while i < fields.len()
        invariant
            i <= fields.len(),
            names == field_names(field_views(fields@)),
            forall|j: int| 0 <= j < i ==> names[j] != name@,
        decreases fields.len() - i,
    {
        if fields[i].0 == *name {
            proof {
                lemma_first_index_is(names, name@, i as int);
            }
            return i;
        }
        i += 1;
    }
    proof {
        lemma_first_index_is(names, name@, i as int);
    }
    i
}

/// A copy of `fields` with the field `name` set to `value`.
pub(crate) fn set_field(fields: &Vec<(String, Value)>, name: &String, value: Value) -> (out: Vec<(String, Value)>)
    ensures
        field_views(out@) == with_field(field_views(fields@), name@, value@),
{
    let at = find_field(fields, name);
    let mut out = copy_fields(fields);
    let ghost copied = field_views(out@);
    assert(out.len() == fields.len()) by {
        assert(field_views(out@).len() == field_views(fields@).len());
    }
    if at < out.len() {
        out[at] = (name.clone(), value);
        assert(field_views(out@) =~= with_field(field_views(fields@), name@, value@)) by {
            assert forall|j: int| 0 <= j < out.len() && j != at implies field_views(out@)[j] == field_views(
                fields@,
            )[j] by {
                assert(copied[j] == field_views(fields@)[j]);
            }
        }
    } else {
        out.push((name.clone(), value));
        assert(field_views(out@) =~= with_field(field_views(fields@), name@, value@)) by {
            assert forall|j: int| 0 <= j < fields.len() implies field_views(out@)[j] == field_views(fields@)[j] by {
                assert(copied[j] == field_views(fields@)[j]);
            }
        }
    }
    out
}

} // verus!
