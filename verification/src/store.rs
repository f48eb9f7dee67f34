//! Applying update instructions to a document held in memory.
//!
//! A document is a [`Value`]; its root is an object.  Applying never changes
//! the document it is given: it returns the document after the update, or
//! `PathNotFound` where an instruction does not resolve.

use vstd::prelude::*;
use crate::error::EngineError;
use crate::fragment::{
    fragment_of, fragment_views, lemma_fragment_carries_path, Fragment, FragmentView, Leaf, LeafView,
};
use crate::path::{bracket_content, is_bracketed, parsed_segments};
use crate::merge::{merged, patch_refusal, prepare_update, request_fragments, PatchRequest, UpdateSet};
use crate::text::{first_index, index_value, lemma_first_index, split, text_views};
use crate::value::{
    copy_fields, copy_items, field_names, field_value, field_views, find_field, item_views, lemma_view_unfold,
    lemma_with_field, set_field, with_field, Value, ValueView,
};

verus! {

/// Whether `item` is an object with a field `key`.
pub open spec fn holds_key(item: ValueView, key: Seq<char>) -> bool {
    item matches ValueView::Object(fields) && first_index(field_names(fields), key) < fields.len()
}

/// The position of the first item of `items` that is an object with a field
/// `key`, or the length of `items` where there is none.
pub open spec fn matched_element(items: Seq<ValueView>, key: Seq<char>) -> int
    decreases items.len(),
{
    if items.len() == 0 {
        0
    } else if holds_key(items[0], key) {
        0
    } else {
        1 + matched_element(items.skip(1), key)
    }
}

/// What is read at the end of the field path `names` from `doc`, if every
/// name on the way is a field of an object.
pub open spec fn read(doc: ValueView, names: Seq<Seq<char>>) -> Option<ValueView>
    decreases names.len(),
{
    if names.len() == 0 {
        Some(doc)
    } else {
        match doc {
            ValueView::Object(fields) => {
                let at = first_index(field_names(fields), names[0]);
                if at < fields.len() {
                    read(fields[at].1, names.skip(1))
                } else {
                    None
                }
            },
            _ => None,
        }
    }
}

/// What a leaf instruction makes of the node it acts on, if it resolves
/// there.
///
/// - `SetField` needs an object and sets the field, adding it where it is
///   missing.
/// - `SetIndex` needs an array that has the position, and replaces the
///   element there.
/// - `SetElementKey` needs an array with a matched element, the first
///   element that is an object with a field of that name, and sets that field
///   of it.
pub open spec fn leaf_applied(node: ValueView, leaf: LeafView, value: ValueView) -> Option<ValueView> {
    match leaf {
        LeafView::SetField(name) => match node {
            ValueView::Object(fields) => Some(ValueView::Object(with_field(fields, name, value))),
            _ => None,
        },
        LeafView::SetIndex(index) => match node {
            ValueView::Array(items) => if index < items.len() {
                Some(ValueView::Array(items.update(index as int, value)))
            } else {
                None
            },
            _ => None,
        },
        LeafView::SetElementKey(key) => match node {
            ValueView::Array(items) => {
                let at = matched_element(items, key);
                if at < items.len() {
                    Some(
                        ValueView::Array(
                            items.update(at, ValueView::Object(with_field(items[at]->Object_0, key, value))),
                        ),
                    )
                } else {
                    None
                }
            },
            _ => None,
        },
    }
}

/// What an instruction makes of `doc`: the walk through the fields `prefix`,
/// then the leaf instruction.
///
/// Every node on the way has to be an object.  A field missing on the way is
/// an error, except for `SetField`, which then creates it as an object, as a
/// store does for a dotted field replacement.
pub open spec fn applied_at(
    doc: ValueView,
    prefix: Seq<Seq<char>>,
    leaf: LeafView,
    value: ValueView,
) -> Option<ValueView>
    decreases prefix.len(),
{
    if prefix.len() == 0 {
        leaf_applied(doc, leaf, value)
    } else {
        match doc {
            ValueView::Object(fields) => {
                let at = first_index(field_names(fields), prefix[0]);
                if at < fields.len() {
                    match applied_at(fields[at].1, prefix.skip(1), leaf, value) {
                        Some(child) => Some(ValueView::Object(fields.update(at, (prefix[0], child)))),
                        None => None,
                    }
                } else if leaf is SetField {
                    match applied_at(ValueView::Object(Seq::empty()), prefix.skip(1), leaf, value) {
                        Some(child) => Some(ValueView::Object(fields.push((prefix[0], child)))),
                        None => None,
                    }
                } else {
                    None
                }
            },
            _ => None,
        }
    }
}

/// What one fragment makes of `doc`.
pub open spec fn applied(doc: ValueView, fragment: FragmentView) -> Option<ValueView> {
    applied_at(doc, fragment.prefix, fragment.leaf, fragment.value)
}

/// What the fragments of `set` make of `doc`, applied one after the other;
/// nothing where one of them does not resolve.
pub open spec fn applied_all(doc: ValueView, set: Seq<FragmentView>) -> Option<ValueView>
    decreases set.len(),
{
    if set.len() == 0 {
        Some(doc)
    } else {
        match applied_all(doc, set.drop_last()) {
            Some(before) => applied(before, set.last()),
            None => None,
        }
    }
}

/// Reads what stands at the end of the field path `names` in `doc`, if
/// every name on the way is a field of an object.
pub fn read_path<'a>(doc: &'a Value, names: &Vec<String>) -> (r: Option<&'a Value>)
    ensures
        match read(doc@, text_views(names@)) {
            Some(found) => r matches Some(value) && value@ == found,
            None => r is None,
        },
{
    let ghost all = text_views(names@);
    let mut current = doc;
    let mut i: usize = 0;
    assert(all.skip(0) =~= all);
    while i < names.len()
        invariant
            i <= names.len(),
            all == text_views(names@),
            read(doc@, all) == read(current@, all.skip(i as int)),
        decreases names.len() - i,
    {
        proof {
            lemma_view_unfold(*current);
            assert(all.skip(i as int)[0] == names[i as int]@);
            assert(all.skip(i as int).skip(1) =~= all.skip(i + 1));
        }
        match current {
            Value::Object(fields) => {
                let at = find_field(fields, &names[i]);
                if at < fields.len() {
                    current = &fields[at].1;
                } else {
                    return None;
                }
            },
            _ => {
                return None;
            },
        }
        i += 1;
    }
    Some(current)
}

/// `matched_element` is within bounds, points at an item that holds `key`
/// where there is one, and no item before it holds `key`.
pub proof fn lemma_matched_element(items: Seq<ValueView>, key: Seq<char>)
    ensures
        0 <= matched_element(items, key) <= items.len(),
        matched_element(items, key) < items.len() ==> holds_key(items[matched_element(items, key)], key),
        forall|j: int| 0 <= j < matched_element(items, key) ==> !holds_key(items[j], key),
    decreases items.len(),
{
    if items.len() > 0 && !holds_key(items[0], key) {
        lemma_matched_element(items.skip(1), key);
        assert forall|j: int| 0 <= j < matched_element(items, key) implies !holds_key(items[j], key) by {
            if j > 0 {
                assert(items.skip(1)[j - 1] == items[j]);
            }
        }
    }
}

/// The position `i` is the matched element as soon as no item before it
/// holds `key` and it either holds `key` or is the end.
pub proof fn lemma_matched_element_is(items: Seq<ValueView>, key: Seq<char>, i: int)
    requires
        0 <= i <= items.len(),
        forall|j: int| 0 <= j < i ==> !holds_key(items[j], key),
        i < items.len() ==> holds_key(items[i], key),
    ensures
        matched_element(items, key) == i,
{
    lemma_matched_element(items, key);
    let m = matched_element(items, key);
    if m < i {
        assert(holds_key(items[m], key));
    } else if m > i {
        assert(!holds_key(items[i], key));
    }
}

/// The position of the matched element of `items` for `key`, or the number
/// of items where there is none.
fn find_matched(items: &Vec<Value>, key: &String) -> (at: usize)
    ensures
        at == matched_element(item_views(items@), key@),
        at <= items.len(),
{
    let ghost views = item_views(items@);
    let mut i: usize = 0;
    while i < items.len()
        invariant
            i <= items.len(),
            views == item_views(items@),
            forall|j: int| 0 <= j < i ==> !holds_key(views[j], key@),
        decreases items.len() - i,
    {
        proof {
            lemma_view_unfold(items[i as int]);
        }
        let found = match &items[i] {
            Value::Object(fields) => find_field(fields, key) < fields.len(),
            _ => false,
        };
        assert(found == holds_key(views[i as int], key@));
        if found {
            proof {
                lemma_matched_element_is(views, key@, i as int);
            }
            return i;
        }
        i += 1;
    }
    proof {
        lemma_matched_element_is(views, key@, i as int);
    }
    i
}

/// Whether `r` reports what `want` says: the document where there is one,
/// `PathNotFound` where there is none.
pub open spec fn reports(r: Result<Value, EngineError>, want: Option<ValueView>) -> bool {
    match want {
        Some(after) => r matches Ok(doc) && doc@ == after,
        None => r matches Err(e) && e == EngineError::PathNotFound,
    }
}

/// Applies a leaf instruction to the node it acts on.
fn apply_leaf(node: &Value, leaf: &Leaf, value: &Value) -> (r: Result<Value, EngineError>)
    ensures
        reports(r, leaf_applied(node@, leaf@, value@)),
{
    proof {
        lemma_view_unfold(*node);
    }
    match leaf {
        Leaf::SetField(name) => match node {
            Value::Object(fields) => Ok(Value::object(set_field(fields, name, value.clone()))),
            _ => Err(EngineError::PathNotFound),
        },
        Leaf::SetIndex(index) => match node {
            Value::Array(items) => {
                if *index < items.len() {
                    let mut out = copy_items(items);
                    assert(out.len() == items.len()) by {
                        assert(item_views(out@).len() == item_views(items@).len());
                    }
                    let ghost copied = item_views(out@);
                    out[*index] = value.clone();
                    assert(item_views(out@) =~= item_views(items@).update(*index as int, value@)) by {
                        assert forall|j: int| 0 <= j < out.len() && j != *index implies item_views(out@)[j]
                            == item_views(items@)[j] by {
                            assert(copied[j] == item_views(items@)[j]);
                        }
                    }
                    Ok(Value::array(out))
                } else {
                    Err(EngineError::PathNotFound)
                }
            },
            _ => Err(EngineError::PathNotFound),
        },
        Leaf::SetElementKey(key) => match node {
            Value::Array(items) => {
                let at = find_matched(items, key);
                if at < items.len() {
                    proof {
                        lemma_matched_element(item_views(items@), key@);
                        lemma_view_unfold(items[at as int]);
                    }
                    let element = match &items[at] {
                        Value::Object(fields) => Value::object(set_field(fields, key, value.clone())),
                        _ => {
                            assert(false);
                            Value::Null
                        },
                    };
                    let mut out = copy_items(items);
                    assert(out.len() == items.len()) by {
                        assert(item_views(out@).len() == item_views(items@).len());
                    }
                    let ghost copied = item_views(out@);
                    out[at] = element;
                    assert(item_views(out@) =~= item_views(items@).update(at as int, element@)) by {
                        assert forall|j: int| 0 <= j < out.len() && j != at implies item_views(out@)[j]
                            == item_views(items@)[j] by {
                            assert(copied[j] == item_views(items@)[j]);
                        }
                    }
                    Ok(Value::array(out))
                } else {
                    Err(EngineError::PathNotFound)
                }
            },
            _ => Err(EngineError::PathNotFound),
        },
    }
}

/// Walks `prefix[from..]` from `doc` and applies the leaf instruction there.
fn apply_from(doc: &Value, prefix: &Vec<String>, from: usize, leaf: &Leaf, value: &Value) -> (r: Result<
    Value,
    EngineError,
>)
    requires
        from <= prefix.len(),
    ensures
        reports(r, applied_at(doc@, text_views(prefix@).skip(from as int), leaf@, value@)),
    decreases prefix.len() - from,
{
    let ghost rest = text_views(prefix@).skip(from as int);
    if from == prefix.len() {
        return apply_leaf(doc, leaf, value);
    }
    proof {
        lemma_view_unfold(*doc);
        assert(rest[0] == prefix[from as int]@);
        assert(rest.skip(1) =~= text_views(prefix@).skip(from + 1));
    }
    match doc {
        Value::Object(fields) => {
            let name = &prefix[from];
            let at = find_field(fields, name);
            if at < fields.len() {
                match apply_from(&fields[at].1, prefix, from + 1, leaf, value) {
                    Ok(child) => {
                        let mut out = copy_fields(fields);
                        assert(out.len() == fields.len()) by {
                            assert(field_views(out@).len() == field_views(fields@).len());
                        }
                        let ghost copied = field_views(out@);
                        let ghost child_view = child@;
                        out[at] = (name.clone(), child);
                        assert(field_views(out@) =~= field_views(fields@).update(at as int, (name@, child_view)))
                            by {
                            assert forall|j: int| 0 <= j < out.len() && j != at implies field_views(out@)[j]
                                == field_views(fields@)[j] by {
                                assert(copied[j] == field_views(fields@)[j]);
                            }
                        }
                        Ok(Value::object(out))
                    },
                    Err(_) => Err(EngineError::PathNotFound),
                }
            } else {
                match leaf {
                    Leaf::SetField(_) => {
                        let empty = Value::object(Vec::new());
                        assert(empty@ == ValueView::Object(Seq::empty())) by {
                            assert(field_views(Seq::<(String, Value)>::empty()) =~= Seq::empty());
                        }
                        match apply_from(&empty, prefix, from + 1, leaf, value) {
                            Ok(child) => {
                                let mut out = copy_fields(fields);
                                let ghost copied = field_views(out@);
                                let ghost child_view = child@;
                                out.push((name.clone(), child));
                                assert(field_views(out@) =~= field_views(fields@).push((name@, child_view))) by {
                                    assert forall|j: int| 0 <= j < fields.len() implies field_views(out@)[j]
                                        == field_views(fields@)[j] by {
                                        assert(copied[j] == field_views(fields@)[j]);
                                    }
                                }
                                Ok(Value::object(out))
                            },
                            Err(_) => Err(EngineError::PathNotFound),
                        }
                    },
                    _ => Err(EngineError::PathNotFound),
                }
            }
        },
        _ => Err(EngineError::PathNotFound),
    }
}

/// Applies one fragment to `doc`.
///
/// Returns the document after the replacement, or `PathNotFound` where the
/// fragment does not resolve in `doc`: a node on the way is no object, a
/// field on the way to an array is missing, the addressed node is no array,
/// the position is past its end, or no element of it has the key.
pub fn apply_fragment(doc: &Value, fragment: &Fragment) -> (r: Result<Value, EngineError>)
    ensures
        reports(r, applied(doc@, fragment@)),
{
    assert(text_views(fragment.prefix@).skip(0) =~= text_views(fragment.prefix@));
    apply_from(doc, &fragment.prefix, 0, &fragment.leaf, &fragment.value)
}

/// Once a fragment has failed, the whole batch has.
pub proof fn lemma_applied_all_fails(doc: ValueView, set: Seq<FragmentView>, k: int)
    requires
        0 <= k <= set.len(),
        applied_all(doc, set.take(k)) is None,
    ensures
        applied_all(doc, set) is None,
    decreases set.len() - k,
{
    if k == set.len() {
        assert(set.take(k) =~= set);
    } else {
        assert(set.take(k + 1).drop_last() =~= set.take(k));
        lemma_applied_all_fails(doc, set, k + 1);
    }
}

/// Applies a whole instruction set to `doc` as one batch: every fragment in
/// turn, each to what the one before it left.  Where one fragment does not
/// resolve nothing is applied and `PathNotFound` is returned.
pub fn apply_update(doc: &Value, set: &UpdateSet) -> (r: Result<Value, EngineError>)
    ensures
        reports(r, applied_all(doc@, set@)),
{
    let fragments = set.fragments();
    let mut current = doc.clone();
    let mut i: usize = 0;
    assert(set@.take(0) =~= Seq::<FragmentView>::empty());
    while i < fragments.len()
        invariant
            i <= fragments.len(),
            fragment_views(fragments@) == set@,
            applied_all(doc@, set@.take(i as int)) == Some(current@),
        decreases fragments.len() - i,
    {
        proof {
            assert(set@.take(i + 1).drop_last() =~= set@.take(i as int));
            assert(set@.take(i + 1).last() == fragments[i as int]@);
        }
        match apply_fragment(&current, &fragments[i]) {
            Ok(next) => {
                current = next;
            },
            Err(_) => {
                proof {
                    lemma_applied_all_fails(doc@, set@, i + 1);
                }
                return Err(EngineError::PathNotFound);
            },
        }
        i += 1;
    }
    assert(set@.take(i as int) =~= set@);
    Ok(current)
}

/// Whether `short` is the beginning of `long`.
pub open spec fn begins(long: Seq<Seq<char>>, short: Seq<Seq<char>>) -> bool {
    short.len() <= long.len() && long.take(short.len() as int) == short
}

/// Whether a field replacement at the end of `prefix` resolves in `doc`:
/// `doc` and every node that exists on the way are objects.
pub open spec fn objects_on_way(doc: ValueView, prefix: Seq<Seq<char>>) -> bool
    decreases prefix.len(),
{
    doc matches ValueView::Object(fields) && (prefix.len() > 0 ==> {
        let at = first_index(field_names(fields), prefix[0]);
        at < fields.len() ==> objects_on_way(fields[at].1, prefix.skip(1))
    })
}

/// A field replacement resolves exactly where every node on its way is an
/// object.
pub proof fn lemma_replace_resolves(doc: ValueView, prefix: Seq<Seq<char>>, name: Seq<char>, value: ValueView)
    ensures
        applied_at(doc, prefix, LeafView::SetField(name), value) is Some <==> objects_on_way(doc, prefix),
    decreases prefix.len(),
{
    if prefix.len() > 0 {
        match doc {
            ValueView::Object(fields) => {
                let at = first_index(field_names(fields), prefix[0]);
                if at < fields.len() {
                    lemma_replace_resolves(fields[at].1, prefix.skip(1), name, value);
                } else {
                    lemma_replace_resolves(ValueView::Object(Seq::empty()), prefix.skip(1), name, value);
                    lemma_nothing_on_way(prefix.skip(1));
                }
            },
            _ => {},
        }
    }
}

/// From an object without fields every way is free.
pub proof fn lemma_nothing_on_way(prefix: Seq<Seq<char>>)
    ensures
        objects_on_way(ValueView::Object(Seq::empty()), prefix),
{
    if prefix.len() > 0 {
        assert(field_names(Seq::<(Seq<char>, ValueView)>::empty()) =~= Seq::<Seq<char>>::empty());
    }
}

/// A field replacement that went through leaves the new value to be read at
/// its dotted key.
pub proof fn lemma_replace_then_read(doc: ValueView, prefix: Seq<Seq<char>>, name: Seq<char>, value: ValueView)
    requires
        applied_at(doc, prefix, LeafView::SetField(name), value) is Some,
    ensures
        read(applied_at(doc, prefix, LeafView::SetField(name), value)->0, prefix.push(name)) == Some(value),
    decreases prefix.len(),
{
    let leaf = LeafView::SetField(name);
    let after = applied_at(doc, prefix, leaf, value)->0;
    let target = prefix.push(name);
    let fields = doc->Object_0;
    if prefix.len() == 0 {
        lemma_with_field(fields, name, value, name);
        assert(target.skip(1) =~= Seq::<Seq<char>>::empty());
        assert(read(value, target.skip(1)) == Some(value));
    } else {
        let at = first_index(field_names(fields), prefix[0]);
        lemma_first_index(field_names(fields), prefix[0]);
        let child = if at < fields.len() {
            fields[at].1
        } else {
            ValueView::Object(Seq::empty())
        };
        let child_after = applied_at(child, prefix.skip(1), leaf, value)->0;
        assert(after == ValueView::Object(with_field(fields, prefix[0], child_after)));
        lemma_with_field(fields, prefix[0], child_after, prefix[0]);
        lemma_replace_then_read(child, prefix.skip(1), name, value);
        assert(target.skip(1) =~= prefix.skip(1).push(name));
        assert(target[0] == prefix[0]);
        assert(read(after, target) == read(child_after, target.skip(1)));
    }
}

/// A field replacement that went through leaves every other field as it
/// was: whatever is read at a path that neither leads to the replaced field
/// nor goes through it is read as before.
pub proof fn lemma_replace_keeps_others(
    doc: ValueView,
    prefix: Seq<Seq<char>>,
    name: Seq<char>,
    value: ValueView,
    other: Seq<Seq<char>>,
)
    requires
        applied_at(doc, prefix, LeafView::SetField(name), value) is Some,
        !begins(prefix.push(name), other),
        !begins(other, prefix.push(name)),
    ensures
        read(applied_at(doc, prefix, LeafView::SetField(name), value)->0, other) == read(doc, other),
    decreases prefix.len(),
{
    let leaf = LeafView::SetField(name);
    let after = applied_at(doc, prefix, leaf, value)->0;
    let target = prefix.push(name);
    let fields = doc->Object_0;
    if other.len() == 0 {
        assert(target.take(0) =~= other);
    } else if prefix.len() == 0 {
        if other[0] == name {
            assert(other.take(1) =~= target);
        }
        lemma_with_field(fields, name, value, other[0]);
    } else {
        let at = first_index(field_names(fields), prefix[0]);
        lemma_first_index(field_names(fields), prefix[0]);
        let child = if at < fields.len() {
            fields[at].1
        } else {
            ValueView::Object(Seq::empty())
        };
        let child_after = applied_at(child, prefix.skip(1), leaf, value)->0;
        assert(after == ValueView::Object(with_field(fields, prefix[0], child_after)));
        lemma_with_field(fields, prefix[0], child_after, other[0]);
        if other[0] == prefix[0] {
            let rest = other.skip(1);
            let target_rest = prefix.skip(1).push(name);
            assert(target.skip(1) =~= target_rest);
            if begins(target_rest, rest) {
                assert forall|k: int| 0 <= k < other.len() implies target.take(other.len() as int)[k]
                    == other[k] by {
                    if k > 0 {
                        assert(target_rest.take(rest.len() as int)[k - 1] == rest[k - 1]);
                    }
                }
                assert(target.take(other.len() as int) =~= other);
            }
            if begins(rest, target_rest) {
                assert forall|k: int| 0 <= k < target.len() implies other.take(target.len() as int)[k]
                    == target[k] by {
                    if k > 0 {
                        assert(rest.take(target_rest.len() as int)[k - 1] == target_rest[k - 1]);
                    }
                }
                assert(other.take(target.len() as int) =~= target);
            }
            lemma_replace_keeps_others(child, prefix.skip(1), name, value, rest);
            if at >= fields.len() {
                if rest.len() == 0 {
                    assert(target.take(1) =~= other);
                }
                assert(field_names(Seq::<(Seq<char>, ValueView)>::empty()) =~= Seq::<Seq<char>>::empty());
            }
        }
    }
}

/// An instruction on an array acts at the end of its prefix and nowhere
/// else: it goes through exactly where the prefix leads to a node on which
/// the leaf instruction resolves, and that node is then read as the leaf
/// instruction leaves it.
pub proof fn lemma_array_leaf_at_end(doc: ValueView, prefix: Seq<Seq<char>>, leaf: LeafView, value: ValueView)
    requires
        !(leaf is SetField),
    ensures
        applied_at(doc, prefix, leaf, value) is Some <==> (read(doc, prefix) matches Some(node) && leaf_applied(
            node,
            leaf,
            value,
        ) is Some),
        applied_at(doc, prefix, leaf, value) matches Some(after) ==> read(after, prefix) == leaf_applied(
            read(doc, prefix)->0,
            leaf,
            value,
        ),
    decreases prefix.len(),
{
    if prefix.len() > 0 {
        match doc {
            ValueView::Object(fields) => {
                let at = first_index(field_names(fields), prefix[0]);
                if at < fields.len() {
                    lemma_array_leaf_at_end(fields[at].1, prefix.skip(1), leaf, value);
                    match applied_at(fields[at].1, prefix.skip(1), leaf, value) {
                        Some(child) => {
                            lemma_first_index(field_names(fields), prefix[0]);
                            assert(fields.update(at, (prefix[0], child)) == with_field(fields, prefix[0], child));
                            lemma_with_field(fields, prefix[0], child, prefix[0]);
                        },
                        None => {},
                    }
                }
            },
            _ => {},
        }
    } else {
        match leaf_applied(doc, leaf, value) {
            Some(after) => {
                assert(read(after, prefix) == Some(after));
            },
            None => {},
        }
    }
}

/// An instruction on an array that went through leaves everything beside
/// the array as it was: whatever is read at a path that neither leads to
/// the array nor goes through it is read as before.
pub proof fn lemma_array_leaf_keeps_others(
    doc: ValueView,
    prefix: Seq<Seq<char>>,
    leaf: LeafView,
    value: ValueView,
    other: Seq<Seq<char>>,
)
    requires
        !(leaf is SetField),
        applied_at(doc, prefix, leaf, value) is Some,
        !begins(prefix, other),
        !begins(other, prefix),
    ensures
        read(applied_at(doc, prefix, leaf, value)->0, other) == read(doc, other),
    decreases prefix.len(),
{
    let after = applied_at(doc, prefix, leaf, value)->0;
    if other.len() == 0 {
        assert(prefix.take(0) =~= other);
    } else if prefix.len() == 0 {
        assert(other.take(0) =~= prefix);
    } else {
        let fields = doc->Object_0;
        let at = first_index(field_names(fields), prefix[0]);
        lemma_first_index(field_names(fields), prefix[0]);
        let child = fields[at].1;
        let child_after = applied_at(child, prefix.skip(1), leaf, value)->0;
        assert(fields.update(at, (prefix[0], child_after)) == with_field(fields, prefix[0], child_after));
        lemma_with_field(fields, prefix[0], child_after, other[0]);
        if other[0] == prefix[0] {
            let rest = other.skip(1);
            let prefix_rest = prefix.skip(1);
            if begins(prefix_rest, rest) {
                assert forall|k: int| 0 <= k < other.len() implies prefix.take(other.len() as int)[k]
                    == other[k] by {
                    if k > 0 {
                        assert(prefix_rest.take(rest.len() as int)[k - 1] == rest[k - 1]);
                    }
                }
                assert(prefix.take(other.len() as int) =~= other);
            }
            if begins(rest, prefix_rest) {
                assert forall|k: int| 0 <= k < prefix.len() implies other.take(prefix.len() as int)[k]
                    == prefix[k] by {
                    if k > 0 {
                        assert(rest.take(prefix_rest.len() as int)[k - 1] == prefix_rest[k - 1]);
                    }
                }
                assert(other.take(prefix.len() as int) =~= prefix);
            }
            lemma_array_leaf_keeps_others(child, prefix_rest, leaf, value, rest);
        }
    }
}

/// Replacing position `index` of the array at the end of `prefix` goes
/// through exactly where `prefix` leads to an array and `index` is a position
/// of it; the array is then read with that one element replaced.
pub proof fn lemma_index_replacement(doc: ValueView, prefix: Seq<Seq<char>>, index: nat, value: ValueView)
    ensures
        applied_at(doc, prefix, LeafView::SetIndex(index), value) is Some <==> (read(doc, prefix) matches Some(
            ValueView::Array(items),
        ) && index < items.len()),
        applied_at(doc, prefix, LeafView::SetIndex(index), value) matches Some(after) ==> read(after, prefix)
            == Some(ValueView::Array(read(doc, prefix)->0->Array_0.update(index as int, value))),
{
    lemma_array_leaf_at_end(doc, prefix, LeafView::SetIndex(index), value);
}

/// Replacing the field `key` of the matched element of the array at the end
/// of `prefix` goes through exactly where `prefix` leads to an array of which
/// an element is an object with a field `key`; the first such element then
/// has the new value in that field.
pub proof fn lemma_element_key_replacement(
    doc: ValueView,
    prefix: Seq<Seq<char>>,
    key: Seq<char>,
    value: ValueView,
)
    ensures
        applied_at(doc, prefix, LeafView::SetElementKey(key), value) is Some <==> (read(doc, prefix) matches Some(
            ValueView::Array(items),
        ) && matched_element(items, key) < items.len()),
        applied_at(doc, prefix, LeafView::SetElementKey(key), value) matches Some(after) ==> ({
            let items = read(doc, prefix)->0->Array_0;
            let at = matched_element(items, key);
            &&& read(after, prefix) matches Some(ValueView::Array(items_after))
            &&& items_after.len() == items.len()
            &&& forall|i: int| 0 <= i < items.len() && i != at ==> items_after[i] == items[i]
            &&& items_after[at] matches ValueView::Object(fields)
            &&& field_value(fields, key) == Some(value)
        }),
{
    lemma_array_leaf_at_end(doc, prefix, LeafView::SetElementKey(key), value);
    match read(doc, prefix) {
        Some(ValueView::Array(items)) => {
            lemma_matched_element(items, key);
            let at = matched_element(items, key);
            if at < items.len() {
                lemma_with_field(items[at]->Object_0, key, value, key);
            }
        },
        _ => {},
    }
}

/// For a path without brackets in its last piece, applying its fragment is
/// a field replacement at the dotted key: where it goes through, the new
/// value is read at the path, and whatever is read at a path that neither
/// leads to the replaced field nor goes through it is read as before.
pub proof fn lemma_plain_path_round_trip(doc: ValueView, path: Seq<char>, value: ValueView)
    requires
        !is_bracketed(split(path, '.').last()),
        applied(doc, fragment_of(path, parsed_segments(path), value)) is Some,
    ensures
        read(applied(doc, fragment_of(path, parsed_segments(path), value))->0, split(path, '.')) == Some(
            value,
        ),
        forall|other: Seq<Seq<char>>|
            !begins(split(path, '.'), other) && !begins(other, split(path, '.')) ==> #[trigger] read(
                applied(doc, fragment_of(path, parsed_segments(path), value))->0,
                other,
            ) == read(doc, other),
{
    lemma_fragment_carries_path(path, value);
    let pieces = split(path, '.');
    let fragment = fragment_of(path, parsed_segments(path), value);
    lemma_replace_then_read(doc, fragment.prefix, pieces.last(), value);
    assert forall|other: Seq<Seq<char>>|
        !begins(pieces, other) && !begins(other, pieces) implies #[trigger] read(
        applied(doc, fragment)->0,
        other,
    ) == read(doc, other) by {
        lemma_replace_keeps_others(doc, fragment.prefix, pieces.last(), value, other);
    }
}

/// For a path whose last piece is a bracketed index, applying its fragment
/// goes through exactly where the pieces before the last lead to an array
/// and the index is a position of it, and then replaces that one element.
pub proof fn lemma_positional_path(doc: ValueView, path: Seq<char>, value: ValueView)
    requires
        is_bracketed(split(path, '.').last()),
        index_value(bracket_content(split(path, '.').last())) is Some,
    ensures
        ({
            let index = index_value(bracket_content(split(path, '.').last()))->0;
            let array_path = split(path, '.').drop_last();
            let outcome = applied(doc, fragment_of(path, parsed_segments(path), value));
            &&& outcome is Some <==> (read(doc, array_path) matches Some(ValueView::Array(items)) && index
                < items.len())
            &&& outcome matches Some(after) ==> read(after, array_path) == Some(
                ValueView::Array(read(doc, array_path)->0->Array_0.update(index as int, value)),
            )
        }),
{
    lemma_fragment_carries_path(path, value);
    let fragment = fragment_of(path, parsed_segments(path), value);
    let index = index_value(bracket_content(split(path, '.').last()))->0;
    lemma_index_replacement(doc, fragment.prefix, index, value);
}

/// Carries out a patch request on the document `document_id`, held in memory
/// as `doc`: the request is checked and compiled, and the instruction set is
/// applied as one batch.
///
/// The request is refused where the document identifier is malformed
/// (`InvalidIdentifier`), a path string is empty (`MalformedPath`), or an
/// instruction does not resolve in the document (`PathNotFound`), in this
/// order.
pub fn patch_document(document_id: &str, doc: &Value, entries: PatchRequest) -> (r: Result<
    Value,
    EngineError,
>)
    ensures
        match patch_refusal(document_id@, field_views(entries@)) {
            Some(e) => r matches Err(err) && err == e,
            None => reports(r, applied_all(doc@, merged(request_fragments(field_views(entries@))))),
        },
{
    match prepare_update(document_id, entries) {
        Ok(set) => apply_update(doc, &set),
        Err(e) => Err(e),
    }
}

} // verus!
