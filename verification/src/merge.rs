//! Merging the fragments of one request into one update instruction set.

use vstd::prelude::*;
use vstd::string::StringExecFns;
use crate::error::EngineError;
use crate::ident::{check_identifier, is_object_id};
use crate::fragment::{
    build_fragment, fragment_of, fragment_views, store_conditions, store_key, Fragment, FragmentView,
};
use crate::path::{parse_path, parsed_segments};
use crate::text::{first_index, lemma_first_index, lemma_first_index_is};
use crate::value::{field_views, item_views, set_field, with_field, Value, ValueView};

verus! {

/// The keys of `set`, one by one.
pub open spec fn fragment_keys(set: Seq<FragmentView>) -> Seq<Seq<char>> {
    Seq::new(set.len(), |i: int| set[i].key)
}

/// Whether no two fragments of `set` share a key.
pub open spec fn keys_distinct(set: Seq<FragmentView>) -> bool {
    forall|i: int, j: int| 0 <= i < j < set.len() ==> set[i].key != set[j].key
}

/// `set` with `fragment` taken in: it replaces, in place, the fragment that
/// has its key, or is added at the end where none has.
pub open spec fn upsert(set: Seq<FragmentView>, fragment: FragmentView) -> Seq<FragmentView> {
    let at = first_index(fragment_keys(set), fragment.key);
    if at < set.len() {
        set.update(at, fragment)
    } else {
        set.push(fragment)
    }
}

/// The instruction set that the fragments of one request give, taken in one
/// after the other.
pub open spec fn merged(fragments: Seq<FragmentView>) -> Seq<FragmentView>
    decreases fragments.len(),
{
    if fragments.len() == 0 {
        Seq::empty()
    } else {
        upsert(merged(fragments.drop_last()), fragments.last())
    }
}

/// Taking a fragment into a set of distinct keys leaves the keys distinct,
/// puts the fragment at the first index of its key, and leaves every
/// fragment of another key where it was.
pub proof fn lemma_upsert(set: Seq<FragmentView>, fragment: FragmentView)
    requires
        keys_distinct(set),
    ensures
        keys_distinct(upsert(set, fragment)),
        set.len() <= upsert(set, fragment).len() <= set.len() + 1,
        first_index(fragment_keys(upsert(set, fragment)), fragment.key) < upsert(set, fragment).len(),
        upsert(set, fragment)[first_index(fragment_keys(upsert(set, fragment)), fragment.key)] == fragment,
        forall|j: int|
            #![trigger upsert(set, fragment)[j]]
            0 <= j < set.len() && set[j].key != fragment.key ==> upsert(set, fragment)[j] == set[j],
        forall|j: int|
            #![trigger upsert(set, fragment)[j]]
            0 <= j < upsert(set, fragment).len() ==> upsert(set, fragment)[j] == fragment || (j < set.len()
                && upsert(set, fragment)[j] == set[j]),
{
    let keys = fragment_keys(set);
    let at = first_index(keys, fragment.key);
    lemma_first_index(keys, fragment.key);
    let out = upsert(set, fragment);
    assert forall|i: int, j: int| 0 <= i < j < out.len() implies out[i].key != out[j].key by {
        if at < set.len() {
            assert(keys[at] == fragment.key);
            if i != at && j != at {
                assert(out[i] == set[i] && out[j] == set[j]);
            } else if i == at {
                assert(set[at].key != set[j].key);
            } else {
                assert(set[i].key != set[at].key);
            }
        } else {
            if j == set.len() {
                assert(keys[i] != fragment.key);
            }
        }
    }
    let out_keys = fragment_keys(out);
    assert forall|j: int| 0 <= j < at implies out_keys[j] != fragment.key by {
        assert(keys[j] != fragment.key);
    }
    lemma_first_index_is(out_keys, fragment.key, at);
    assert forall|j: int| 0 <= j < set.len() && set[j].key != fragment.key implies out[j] == set[j] by {
        if at < set.len() {
            assert(keys[at] == fragment.key);
        }
    }
}

/// The merged set has distinct keys.
pub proof fn lemma_merged_keys_distinct(fragments: Seq<FragmentView>)
    ensures
        keys_distinct(merged(fragments)),
        merged(fragments).len() <= fragments.len(),
    decreases fragments.len(),
{
    if fragments.len() > 0 {
        lemma_merged_keys_distinct(fragments.drop_last());
        lemma_upsert(merged(fragments.drop_last()), fragments.last());
    }
}

/// Every merged fragment is one of the request's fragments.
pub proof fn lemma_merged_from_request(fragments: Seq<FragmentView>, j: int)
    requires
        0 <= j < merged(fragments).len(),
    ensures
        exists|i: int| 0 <= i < fragments.len() && fragments[i] == merged(fragments)[j],
    decreases fragments.len(),
{
    if fragments.len() > 0 {
        let init = fragments.drop_last();
        lemma_merged_keys_distinct(init);
        lemma_upsert(merged(init), fragments.last());
        let out = upsert(merged(init), fragments.last());
        assert(merged(fragments) == out);
        assert(out[j] == fragments.last() || (j < merged(init).len() && out[j] == merged(init)[j]));
        if merged(fragments)[j] == fragments.last() {
            assert(fragments[fragments.len() - 1] == merged(fragments)[j]);
        } else {
            lemma_merged_from_request(init, j);
            let i = choose|i: int| 0 <= i < init.len() && init[i] == merged(init)[j];
            assert(fragments[i] == merged(fragments)[j]);
        }
    }
}

/// The later fragment wins: a fragment whose key no later fragment of the
/// request has is the one that the merged set holds under that key.
pub proof fn lemma_later_wins(fragments: Seq<FragmentView>, i: int)
    requires
        0 <= i < fragments.len(),
        forall|k: int| i < k < fragments.len() ==> fragments[k].key != fragments[i].key,
    ensures
        first_index(fragment_keys(merged(fragments)), fragments[i].key) < merged(fragments).len(),
        merged(fragments)[first_index(fragment_keys(merged(fragments)), fragments[i].key)] == fragments[i],
    decreases fragments.len(),
{
    let init = fragments.drop_last();
    let last = fragments.last();
    lemma_merged_keys_distinct(init);
    lemma_upsert(merged(init), last);
    if i < fragments.len() - 1 {
        assert forall|k: int| i < k < init.len() implies init[k].key != init[i].key by {
            assert(init[k] == fragments[k]);
        }
        lemma_later_wins(init, i);
        let key = fragments[i].key;
        assert(last.key != key);
        let before = merged(init);
        let after = merged(fragments);
        let at = first_index(fragment_keys(before), key);
        lemma_first_index(fragment_keys(before), key);
        assert(before[at].key != last.key);
        assert(after[at] == before[at]);
        assert forall|j: int| 0 <= j < at implies fragment_keys(after)[j] != key by {
            assert(fragment_keys(before)[j] != key);
            assert(after[j] == last || after[j] == before[j]);
        }
        lemma_first_index_is(fragment_keys(after), key, at);
    }
}

/// A request whose keys are distinct is its own merged set.
pub proof fn lemma_distinct_request_unchanged(fragments: Seq<FragmentView>)
    requires
        keys_distinct(fragments),
    ensures
        merged(fragments) == fragments,
    decreases fragments.len(),
{
    if fragments.len() > 0 {
        let init = fragments.drop_last();
        lemma_distinct_request_unchanged(init);
        let keys = fragment_keys(init);
        assert forall|j: int| 0 <= j < keys.len() implies keys[j] != fragments.last().key by {
            assert(fragments[j].key != fragments[fragments.len() - 1].key);
        }
        lemma_first_index_is(keys, fragments.last().key, keys.len() as int);
        assert(init.push(fragments.last()) =~= fragments);
    } else {
        assert(merged(fragments) =~= fragments);
    }
}

/// The fields that a set hands to the store: for each fragment in turn, its
/// value under its dotted key, a later value taking the place of an earlier
/// one with the same dotted key.
pub open spec fn store_fields(set: Seq<FragmentView>) -> Seq<(Seq<char>, ValueView)>
    decreases set.len(),
{
    if set.len() == 0 {
        Seq::empty()
    } else {
        with_field(store_fields(set.drop_last()), store_key(set.last()), set.last().value)
    }
}

/// The update document of a set: its fields under the operator `$set`.
pub open spec fn update_document(set: Seq<FragmentView>) -> ValueView {
    ValueView::Object(seq![("$set"@, ValueView::Object(store_fields(set)))])
}

/// The conditions on which the store is to carry a set out: those of its
/// fragments, one after the other.
pub open spec fn update_conditions(set: Seq<FragmentView>) -> Seq<ValueView>
    decreases set.len(),
{
    if set.len() == 0 {
        Seq::empty()
    } else {
        update_conditions(set.drop_last()) + store_conditions(set.last())
    }
}

/// What an update came to, told from what the store answered: whether a
/// document met the identifier and the conditions, and, where none did,
/// whether there is a document under the identifier at all.
pub open spec fn update_report(matched: bool, document_exists: bool) -> Option<EngineError> {
    if matched {
        None
    } else if document_exists {
        Some(EngineError::PathNotFound)
    } else {
        Some(EngineError::NotFound)
    }
}

/// Reports what an update came to: `NotFound` where there is no document
/// under the identifier, `PathNotFound` where there is one but it did not
/// meet the conditions of the update.
pub fn update_reported(matched: bool, document_exists: bool) -> (r: Result<(), EngineError>)
    ensures
        match update_report(matched, document_exists) {
            Some(e) => r == Err::<(), EngineError>(e),
            None => r is Ok,
        },
{
    if matched {
        Ok(())
    } else if document_exists {
        Err(EngineError::PathNotFound)
    } else {
        Err(EngineError::NotFound)
    }
}

/// The update instruction set of one request: fragments with distinct keys,
/// in the order in which their keys first came.
#[derive(Debug)]
pub struct UpdateSet {
    fragments: Vec<Fragment>,
}

impl View for UpdateSet {
    type V = Seq<FragmentView>;

    closed spec fn view(&self) -> Seq<FragmentView> {
        fragment_views(self.fragments@)
    }
}

impl UpdateSet {
    #[verifier::type_invariant]
    spec fn well_formed(&self) -> bool {
        keys_distinct(fragment_views(self.fragments@))
    }

    /// The fragments of the set, in order.
    pub fn fragments(&self) -> (fragments: &Vec<Fragment>)
        ensures
            fragment_views(fragments@) == self@,
            keys_distinct(self@),
    {
        proof {
            use_type_invariant(self);
        }
        &self.fragments
    }

    /// The update document that carries the set to the store: under the
    /// operator `$set`, the value of each fragment under its dotted key.
    pub fn instruction(&self) -> (doc: Value)
        ensures
            doc@ == update_document(self@),
    {
        let ghost all = self@;
        let mut fields: Vec<(String, Value)> = Vec::new();
        let mut i: usize = 0;
        assert(all.take(0) =~= Seq::<FragmentView>::empty());
        assert(field_views(fields@) =~= store_fields(all.take(0)));
        while i < self.fragments.len()
            invariant
                i <= self.fragments.len(),
                all == fragment_views(self.fragments@),
                field_views(fields@) == store_fields(all.take(i as int)),
            decreases self.fragments.len() - i,
        {
            proof {
                assert(all.take(i + 1).drop_last() =~= all.take(i as int));
                assert(all.take(i + 1).last() == self.fragments[i as int]@);
            }
            fields = set_field(&fields, &self.fragments[i].store_key(), self.fragments[i].value.clone());
            i += 1;
        }
        assert(all.take(i as int) =~= all);
        let mut outer: Vec<(String, Value)> = Vec::new();
        outer.push((String::from_str("$set"), Value::object(fields)));
        assert(field_views(outer@) =~= seq![("$set"@, ValueView::Object(store_fields(all)))]);
        Value::object(outer)
    }

    /// The conditions on which the store is to carry the set out, beside the
    /// identifier of the document.
    pub fn conditions(&self) -> (conditions: Vec<Value>)
        ensures
            item_views(conditions@) == update_conditions(self@),
    {
        let ghost all = self@;
        let mut conditions: Vec<Value> = Vec::new();
        let mut i: usize = 0;
        assert(all.take(0) =~= Seq::<FragmentView>::empty());
        assert(item_views(conditions@) =~= update_conditions(all.take(0)));
        while i < self.fragments.len()
            invariant
                i <= self.fragments.len(),
                all == fragment_views(self.fragments@),
                item_views(conditions@) == update_conditions(all.take(i as int)),
            decreases self.fragments.len() - i,
        {
            proof {
                assert(all.take(i + 1).drop_last() =~= all.take(i as int));
                assert(all.take(i + 1).last() == self.fragments[i as int]@);
            }
            let ghost before = item_views(conditions@);
            let mut more = self.fragments[i].store_conditions();
            let ghost added = item_views(more@);
            conditions.append(&mut more);
            assert(item_views(conditions@) =~= before + added);
            i += 1;
        }
        assert(all.take(i as int) =~= all);
        conditions
    }

    /// How many fragments the set holds.
    pub fn len(&self) -> (n: usize)
        ensures
            n == self@.len(),
    {
        self.fragments.len()
    }
}

/// Takes `fragment` into `set`: in place of the fragment that has its key, or
/// at the end where none has.
fn take_in(set: &mut Vec<Fragment>, fragment: Fragment)
    ensures
        fragment_views(final(set)@) == upsert(fragment_views(old(set)@), fragment@),
{
    let ghost before = fragment_views(set@);
    let ghost keys = fragment_keys(before);
    let mut i: usize = 0;
    while i < set.len()
        invariant
            i <= set.len(),
            fragment_views(set@) == before,
            before == fragment_views(old(set)@),
            keys == fragment_keys(before),
            forall|j: int| 0 <= j < i ==> keys[j] != fragment.key@,
        decreases set.len() - i,
    {
        assert(before[i as int] == set[i as int]@);
        if set[i].key == fragment.key {
            proof {
                lemma_first_index_is(keys, fragment.key@, i as int);
            }
            set[i] = fragment;
            assert(fragment_views(set@) =~= upsert(before, fragment@));
            return ;
        }
        i += 1;
    }
    proof {
        lemma_first_index_is(keys, fragment.key@, keys.len() as int);
    }
    set.push(fragment);
    assert(fragment_views(set@) =~= upsert(before, fragment@));
}

/// Merges the fragments of one request into one instruction set.  Where two
/// fragments have the same key, the later one replaces the earlier one, at
/// the earlier one's place.
pub fn merge_fragments(fragments: Vec<Fragment>) -> (set: UpdateSet)
    ensures
        set@ == merged(fragment_views(fragments@)),
{
    let ghost all = fragment_views(fragments@);
    let mut set: Vec<Fragment> = Vec::new();
    assert(all.take(0) =~= Seq::<FragmentView>::empty());
    assert(fragment_views(set@) =~= Seq::<FragmentView>::empty());
    for fragment in it: fragments
        invariant
            all == fragment_views(it.seq()),
            fragment_views(set@) == merged(all.take(it.index() as int)),
    {
        proof {
            let i = it.index() as int;
            assert(all.take(i + 1).drop_last() =~= all.take(i));
            assert(all.take(i + 1).last() == fragment@);
        }
        take_in(&mut set, fragment);
    }
    assert(all.take(all.len() as int) =~= all);
    proof {
        lemma_merged_keys_distinct(all);
    }
    UpdateSet { fragments: set }
}

/// A patch request: path strings, each with the value to put at the path.
/// The entries are taken in the order in which they stand.
pub type PatchRequest = Vec<(String, Value)>;

/// The fragments that the entries of a request give, entry by entry.
pub open spec fn request_fragments(entries: Seq<(Seq<char>, ValueView)>) -> Seq<FragmentView> {
    Seq::new(
        entries.len(),
        |i: int| fragment_of(entries[i].0, parsed_segments(entries[i].0), entries[i].1),
    )
}

/// Compiles a patch request, a list of path strings each with its value,
/// into one update instruction set.
///
/// Every path is parsed and turned into a fragment, and the fragments are
/// merged in the order of the request.  A request with an empty path string
/// is refused as a whole.
pub fn compile_patch(entries: PatchRequest) -> (r: Result<UpdateSet, EngineError>)
    ensures
        r is Err <==> exists|i: int| 0 <= i < entries.len() && (#[trigger] entries[i]).0@.len() == 0,
        r matches Err(e) ==> e == EngineError::MalformedPath,
        r matches Ok(set) ==> set@ == merged(request_fragments(field_views(entries@))),
{
    let ghost wanted = request_fragments(field_views(entries@));
    let mut fragments: Vec<Fragment> = Vec::new();
    for entry in it: entries
        invariant
            it.seq() == entries@,
            wanted == request_fragments(field_views(entries@)),
            fragments.len() == it.index(),
            forall|k: int| 0 <= k < it.index() ==> (#[trigger] entries[k]).0@.len() != 0,
            forall|k: int| 0 <= k < it.index() ==> (#[trigger] fragments[k])@ == wanted[k],
    {
        assert(entry == entries[it.index() as int]);
        let path = match parse_path(entry.0.as_str()) {
            Ok(path) => path,
            Err(_) => {
                return Err(EngineError::MalformedPath);
            },
        };
        fragments.push(build_fragment(&path, entry.1));
    }
    assert(fragment_views(fragments@) =~= wanted);
    Ok(merge_fragments(fragments))
}

/// Whether a request holds an empty path string.
pub open spec fn has_empty_path(entries: Seq<(Seq<char>, ValueView)>) -> bool {
    exists|i: int| 0 <= i < entries.len() && (#[trigger] entries[i]).0.len() == 0
}

/// Why a patch request is refused before the document is looked at: a
/// malformed document identifier first, an empty path string second.
pub open spec fn patch_refusal(document_id: Seq<char>, entries: Seq<(Seq<char>, ValueView)>) -> Option<
    EngineError,
> {
    if !is_object_id(document_id) {
        Some(EngineError::InvalidIdentifier)
    } else if has_empty_path(entries) {
        Some(EngineError::MalformedPath)
    } else {
        None
    }
}

/// Checks a patch request for the document `document_id` and compiles it
/// into one update instruction set.
pub fn prepare_update(document_id: &str, entries: PatchRequest) -> (r: Result<UpdateSet, EngineError>)
    ensures
        match patch_refusal(document_id@, field_views(entries@)) {
            Some(e) => r matches Err(err) && err == e,
            None => r matches Ok(set) && set@ == merged(request_fragments(field_views(entries@))),
        },
{
    match check_identifier(document_id) {
        Ok(_) => {},
        Err(e) => {
            return Err(e);
        },
    }
    proof {
        let views = field_views(entries@);
        if has_empty_path(views) {
            let i = choose|i: int| 0 <= i < views.len() && (#[trigger] views[i]).0.len() == 0;
            assert(entries[i].0@.len() == 0);
        }
        if exists|i: int| 0 <= i < entries.len() && (#[trigger] entries[i]).0@.len() == 0 {
            let i = choose|i: int| 0 <= i < entries.len() && (#[trigger] entries[i]).0@.len() == 0;
            assert(views[i].0.len() == 0);
        }
    }
    compile_patch(entries)
}

} // verus!
