//! Patch fragments: the update instruction that one path and one value give.

use vstd::prelude::*;
use crate::path::{
    classify, lemma_only_last_addresses_array, parsed_segments, PatchPath, Segment, SegmentView,
};
use vstd::string::StringExecFns;
use crate::text::{decimal_text, join, lemma_split_join, push_char, push_decimal, split, text_views};
use crate::value::{field_views, item_views, Value, ValueView};

verus! {

/// What a fragment does at the place its prefix leads to.
#[derive(Debug, PartialEq, Eq)]
pub enum Leaf {
    /// Replace the field of this name.
    SetField(String),
    /// Replace the element at this position of the array.
    SetIndex(usize),
    /// Replace the field of this name in the matched element of the array.
    SetElementKey(String),
}

/// The mathematical content of a [`Leaf`].
pub enum LeafView {
    SetField(Seq<char>),
    SetIndex(nat),
    SetElementKey(Seq<char>),
}

impl View for Leaf {
    type V = LeafView;

    open spec fn view(&self) -> LeafView {
        match self {
            Leaf::SetField(name) => LeafView::SetField(name@),
            Leaf::SetIndex(index) => LeafView::SetIndex(*index as nat),
            Leaf::SetElementKey(key) => LeafView::SetElementKey(key@),
        }
    }
}

/// The update instruction derived from one path and one value.
///
/// `key` is the path string as the request gave it and identifies the
/// fragment among those of one request.  `prefix` names the fields to walk
/// through from the document root, and `leaf` says what to replace there by
/// `value`.
#[derive(Debug, PartialEq, Eq)]
pub struct Fragment {
    pub key: String,
    pub prefix: Vec<String>,
    pub leaf: Leaf,
    pub value: Value,
}

/// The mathematical content of a [`Fragment`].
pub struct FragmentView {
    pub key: Seq<char>,
    pub prefix: Seq<Seq<char>>,
    pub leaf: LeafView,
    pub value: ValueView,
}

impl View for Fragment {
    type V = FragmentView;

    open spec fn view(&self) -> FragmentView {
        FragmentView {
            key: self.key@,
            prefix: text_views(self.prefix@),
            leaf: self.leaf@,
            value: self.value@,
        }
    }
}

/// The views of `fragments`, one by one.
pub open spec fn fragment_views(fragments: Seq<Fragment>) -> Seq<FragmentView> {
    Seq::new(fragments.len(), |i: int| fragments[i]@)
}

/// The text a segment carries: a field's name or an element key.  A position
/// carries none.
pub open spec fn segment_name(segment: SegmentView) -> Seq<char> {
    match segment {
        SegmentView::Field(name) => name,
        SegmentView::ArrayPositional(_) => Seq::empty(),
        SegmentView::ArrayElementKey(key) => key,
    }
}

/// The names of all segments but the last.
pub open spec fn prefix_names(segments: Seq<SegmentView>) -> Seq<Seq<char>> {
    Seq::new((segments.len() - 1) as nat, |i: int| segment_name(segments[i]))
}

/// The instruction that a last segment asks for.
pub open spec fn leaf_of(segment: SegmentView) -> LeafView {
    match segment {
        SegmentView::Field(name) => LeafView::SetField(name),
        SegmentView::ArrayPositional(index) => LeafView::SetIndex(index),
        SegmentView::ArrayElementKey(key) => LeafView::SetElementKey(key),
    }
}

/// The fragment for a path with the given source string and segments, and a
/// value: keyed by the whole source string, walking the segments before the
/// last, and acting as the last one says.
pub open spec fn fragment_of(source: Seq<char>, segments: Seq<SegmentView>, value: ValueView) -> FragmentView {
    FragmentView {
        key: source,
        prefix: prefix_names(segments),
        leaf: leaf_of(segments.last()),
        value,
    }
}

/// A fragment carries its path: it is keyed by the whole path string, walks
/// the pieces before the last as field names, and acts as the last piece,
/// classified, says.
pub proof fn lemma_fragment_carries_path(path: Seq<char>, value: ValueView)
    ensures
        fragment_of(path, parsed_segments(path), value).key == path,
        fragment_of(path, parsed_segments(path), value).prefix == split(path, '.').drop_last(),
        fragment_of(path, parsed_segments(path), value).leaf == leaf_of(classify(split(path, '.').last())),
        fragment_of(path, parsed_segments(path), value).value == value,
        fragment_of(path, parsed_segments(path), value).prefix.push(split(path, '.').last()) == split(
            path,
            '.',
        ),
{
    lemma_split_join(path, '.');
    let pieces = split(path, '.');
    let fragment = fragment_of(path, parsed_segments(path), value);
    assert(fragment.prefix =~= pieces.drop_last());
    assert(pieces.drop_last().push(pieces.last()) =~= pieces);
}

impl Clone for Leaf {
    fn clone(&self) -> (r: Leaf)
        ensures
            r@ == self@,
    {
        match self {
            Leaf::SetField(name) => Leaf::SetField(name.clone()),
            Leaf::SetIndex(index) => Leaf::SetIndex(*index),
            Leaf::SetElementKey(key) => Leaf::SetElementKey(key.clone()),
        }
    }
}

/// A copy of each text of `texts`.
pub fn copy_texts(texts: &Vec<String>) -> (out: Vec<String>)
    ensures
        text_views(out@) == text_views(texts@),
{
    let mut out: Vec<String> = Vec::new();
    let mut i: usize = 0;
    while i < texts.len()
        invariant
            i <= texts.len(),
            out.len() == i,
            forall|j: int| 0 <= j < i ==> out[j]@ == texts[j]@,
        decreases texts.len() - i,
    {
        out.push(texts[i].clone());
        i += 1;
    }
    assert(text_views(out@) =~= text_views(texts@));
    out
}

impl Clone for Fragment {
    fn clone(&self) -> (r: Fragment)
        ensures
            r@ == self@,
    {
        Fragment {
            key: self.key.clone(),
            prefix: copy_texts(&self.prefix),
            leaf: self.leaf.clone(),
            value: self.value.clone(),
        }
    }
}

/// Builds the fragment that sets what `path` addresses to `value`.
pub fn build_fragment(path: &PatchPath, value: Value) -> (fragment: Fragment)
    ensures
        fragment@ == fragment_of(path.source(), path@, value@),
{
    let segments = path.segments();
    let key = path.as_str().to_owned();
    let last = segments.len() - 1;
    let mut prefix: Vec<String> = Vec::new();
    let mut i: usize = 0;
    proof {
        lemma_only_last_addresses_array(path.source());
    }
    while i < last
        invariant
            i <= last,
            last == segments.len() - 1,
            prefix.len() == i,
            crate::path::segment_views(segments@) == path@,
            forall|k: int| 0 <= k < path@.len() - 1 ==> (#[trigger] path@[k]) is Field,
            forall|k: int| 0 <= k < i ==> (#[trigger] prefix[k])@ == segment_name(path@[k]),
        decreases last - i,
    {
        assert(segments[i as int]@ == path@[i as int]);
        match &segments[i] {
            Segment::Field(name) => {
                prefix.push(name.clone());
            },
            _ => {
                assert(false);
            },
        }
        i += 1;
    }
    assert(segments[last as int]@ == path@.last());
    let leaf = match &segments[last] {
        Segment::Field(name) => Leaf::SetField(name.clone()),
        Segment::ArrayPositional(index) => Leaf::SetIndex(*index),
        Segment::ArrayElementKey(key) => Leaf::SetElementKey(key.clone()),
    };
    assert(text_views(prefix@) =~= prefix_names(path@));
    Fragment { key, prefix, leaf, value }
}

/// The field names that lead the store to what a fragment replaces:
///
/// - for a field replacement, the prefix and the field's name;
/// - for a positional replacement, the prefix and the position, written in
///   base ten, which the store reads as a position of the array;
/// - for an element-key replacement, the prefix, the positional operator `$`,
///   which the store reads as the matched element of the array, and the
///   key.
pub open spec fn store_names(fragment: FragmentView) -> Seq<Seq<char>> {
    match fragment.leaf {
        LeafView::SetField(name) => fragment.prefix.push(name),
        LeafView::SetIndex(index) => fragment.prefix.push(decimal_text(index)),
        LeafView::SetElementKey(key) => fragment.prefix.push("$"@).push(key),
    }
}

/// The dotted key under which the store is told to put a fragment's value.
pub open spec fn store_key(fragment: FragmentView) -> Seq<char> {
    join(store_names(fragment), '.')
}

/// The condition that the field at the dotted key `field` meets the
/// operator `operator` with the operand `operand`.
pub open spec fn condition(field: Seq<char>, operator: Seq<char>, operand: ValueView) -> ValueView {
    ValueView::Object(seq![(field, ValueView::Object(seq![(operator, operand)]))])
}

/// The conditions on which the store is to carry a fragment out, so that it
/// replaces only what is there:
///
/// - none for a field replacement;
/// - for a positional replacement, that the prefix leads to an array and
///   that the array has the position;
/// - for an element-key replacement, that the prefix leads to an array and
///   that an element of it has the key, which also tells the store which
///   element is the matched one;
/// - for a replacement on an array without a prefix, a condition that never
///   holds: the document itself is no array.
pub open spec fn store_conditions(fragment: FragmentView) -> Seq<ValueView> {
    match fragment.leaf {
        LeafView::SetField(_) => Seq::empty(),
        LeafView::SetIndex(index) => if fragment.prefix.len() == 0 {
            seq![condition("_id"@, "$exists"@, ValueView::Bool(false))]
        } else {
            seq![
                condition(join(fragment.prefix, '.'), "$type"@, ValueView::Text("array"@)),
                condition(
                    join(fragment.prefix.push(decimal_text(index)), '.'),
                    "$exists"@,
                    ValueView::Bool(true),
                ),
            ]
        },
        LeafView::SetElementKey(key) => if fragment.prefix.len() == 0 {
            seq![condition("_id"@, "$exists"@, ValueView::Bool(false))]
        } else {
            seq![
                condition(join(fragment.prefix, '.'), "$type"@, ValueView::Text("array"@)),
                condition(join(fragment.prefix.push(key), '.'), "$exists"@, ValueView::Bool(true)),
            ]
        },
    }
}

/// For a path without brackets in its last piece, the store is told to put
/// the value under the path string itself.
pub proof fn lemma_plain_path_key(path: Seq<char>, value: ValueView)
    requires
        !crate::path::is_bracketed(split(path, '.').last()),
    ensures
        store_key(fragment_of(path, parsed_segments(path), value)) == path,
        store_conditions(fragment_of(path, parsed_segments(path), value)) == Seq::<ValueView>::empty(),
{
    lemma_fragment_carries_path(path, value);
    lemma_split_join(path, '.');
}

/// The names of `names` written one after the other with dots between them.
pub fn dotted(names: &Vec<String>) -> (key: String)
    ensures
        key@ == join(text_views(names@), '.'),
{
    let ghost all = text_views(names@);
    let mut key = String::new();
    let mut i: usize = 0;
    assert(all.take(0) =~= Seq::<Seq<char>>::empty());
    while i < names.len()
        invariant
            i <= names.len(),
            all == text_views(names@),
            key@ == join(all.take(i as int), '.'),
        decreases names.len() - i,
    {
        proof {
            assert(all.take(i + 1).drop_last() =~= all.take(i as int));
            assert(all.take(i + 1).last() == names[i as int]@);
        }
        if i > 0 {
            push_char(&mut key, '.');
        }
        key.append(names[i].as_str());
        proof {
            if i == 0 {
                assert(key@ =~= names[i as int]@);
            }
        }
        i += 1;
    }
    assert(all.take(i as int) =~= all);
    key
}

/// The condition that the field at the dotted key `field` meets the
/// operator `operator` with the operand `operand`.
fn condition_on(field: String, operator: &str, operand: Value) -> (r: Value)
    ensures
        r@ == condition(field@, operator@, operand@),
{
    let mut inner: Vec<(String, Value)> = Vec::new();
    inner.push((String::from_str(operator), operand));
    assert(field_views(inner@) =~= seq![(operator@, operand@)]);
    let mut outer: Vec<(String, Value)> = Vec::new();
    outer.push((field, Value::object(inner)));
    assert(field_views(outer@) =~= seq![(field@, ValueView::Object(seq![(operator@, operand@)]))]);
    Value::object(outer)
}

/// `names` with `name` added at the end.
fn names_with(names: &Vec<String>, name: String) -> (out: Vec<String>)
    ensures
        text_views(out@) == text_views(names@).push(name@),
{
    let mut out = copy_texts(names);
    let ghost copied = text_views(out@);
    out.push(name);
    assert(text_views(out@) =~= text_views(names@).push(name@)) by {
        assert(copied.len() == names.len());
        assert forall|j: int| 0 <= j < names.len() implies text_views(out@)[j] == text_views(names@)[j] by {
            assert(copied[j] == text_views(names@)[j]);
        }
    }
    out
}

impl Fragment {
    /// The dotted key under which the store is told to put the fragment's
    /// value.
    pub fn store_key(&self) -> (key: String)
        ensures
            key@ == store_key(self@),
    {
        match &self.leaf {
            Leaf::SetField(name) => dotted(&names_with(&self.prefix, name.clone())),
            Leaf::SetIndex(index) => {
                let mut position = String::new();
                push_decimal(&mut position, *index);
                assert(position@ =~= decimal_text(*index as nat));
                dotted(&names_with(&self.prefix, position))
            },
            Leaf::SetElementKey(key) => {
                let matched = names_with(&self.prefix, String::from_str("$"));
                dotted(&names_with(&matched, key.clone()))
            },
        }
    }

    /// The conditions on which the store is to carry the fragment out.
    pub fn store_conditions(&self) -> (conditions: Vec<Value>)
        ensures
            item_views(conditions@) == store_conditions(self@),
    {
        let mut conditions: Vec<Value> = Vec::new();
        let last = match &self.leaf {
            Leaf::SetField(_) => {
                assert(item_views(conditions@) =~= store_conditions(self@));
                return conditions;
            },
            Leaf::SetIndex(index) => {
                let mut position = String::new();
                push_decimal(&mut position, *index);
                assert(position@ =~= decimal_text(*index as nat));
                position
            },
            Leaf::SetElementKey(key) => key.clone(),
        };
        if self.prefix.len() == 0 {
            conditions.push(condition_on(String::from_str("_id"), "$exists", Value::Bool(false)));
            assert(text_views(self.prefix@).len() == 0);
            assert(item_views(conditions@) =~= store_conditions(self@));
            return conditions;
        }
        let first = condition_on(dotted(&self.prefix), "$type", Value::text("array"));
        let second = condition_on(dotted(&names_with(&self.prefix, last)), "$exists", Value::Bool(true));
        let ghost views = seq![first@, second@];
        conditions.push(first);
        conditions.push(second);
        assert(item_views(conditions@) =~= views);
        assert(text_views(self.prefix@).len() != 0);
        conditions
    }
}

} // verus!
