//! Queries on the documents of the store: filters, projections and pages.

use vstd::prelude::*;
use vstd::string::StringExecFns;
use crate::text::{chars_of, optional_text, split, split_chars, string_of, text_views};
use crate::value::{field_views, set_field, with_field, Value, ValueView};

verus! {

/// The number of documents on a page of a listing.
pub const PAGE_SIZE: u64 = 5;

/// What a listing or a search is narrowed by.  A part that is missing
/// narrows nothing.
#[derive(Debug)]
pub struct SearchParams {
    pub title: Option<String>,
    pub author: Option<String>,
    pub content: Option<String>,
    /// Seconds since the start of 1970.
    pub date: Option<i64>,
}

/// The number in `date`, if there is one.
pub open spec fn optional_number(date: Option<i64>) -> Option<int> {
    match date {
        Some(date) => Some(date as int),
        None => None,
    }
}

/// The regular expression that matches every text in which `term` occurs.
pub open spec fn contains_pattern(term: Seq<char>) -> Seq<char> {
    ".*"@ + term + ".*"@
}

/// The condition that a field holds `term` somewhere, whatever the case of
/// its letters.
pub open spec fn contains_condition(term: Seq<char>) -> ValueView {
    ValueView::Object(
        seq![("$regex"@, ValueView::Text(contains_pattern(term))), ("$options"@, ValueView::Text("i"@))],
    )
}

/// The conditions of a listing: the title and the rendered body hold the
/// given terms, the author is the given one, and the document was created
/// and last updated at the given time.
pub open spec fn listing_conditions(
    title: Option<Seq<char>>,
    content: Option<Seq<char>>,
    author: Option<Seq<char>>,
    date: Option<int>,
) -> Seq<(Seq<char>, ValueView)> {
    (match title {
        Some(term) => seq![("title"@, contains_condition(term))],
        None => Seq::empty(),
    }) + (match content {
        Some(term) => seq![("content.html"@, contains_condition(term))],
        None => Seq::empty(),
    }) + (match author {
        Some(author) => seq![("author"@, ValueView::Text(author))],
        None => Seq::empty(),
    }) + (match date {
        Some(date) => seq![("created_at"@, ValueView::Number(date)), ("updated_at"@, ValueView::Number(date))],
        None => Seq::empty(),
    })
}

/// The conditions of a search: title, author, body and date are the given
/// ones.
pub open spec fn search_conditions(
    title: Option<Seq<char>>,
    author: Option<Seq<char>>,
    content: Option<Seq<char>>,
    date: Option<int>,
) -> Seq<(Seq<char>, ValueView)> {
    (match title {
        Some(title) => seq![("title"@, ValueView::Text(title))],
        None => Seq::empty(),
    }) + (match author {
        Some(author) => seq![("author"@, ValueView::Text(author))],
        None => Seq::empty(),
    }) + (match content {
        Some(content) => seq![("content"@, ValueView::Text(content))],
        None => Seq::empty(),
    }) + (match date {
        Some(date) => seq![("date"@, ValueView::Number(date))],
        None => Seq::empty(),
    })
}

/// The condition that a field holds `term` somewhere.
fn condition_for(term: &str) -> (condition: Value)
    ensures
        condition@ == contains_condition(term@),
{
    let pattern = String::from_str(".*").concat(term).concat(".*");
    let mut fields: Vec<(String, Value)> = Vec::new();
    fields.push((String::from_str("$regex"), Value::Text(pattern)));
    fields.push((String::from_str("$options"), Value::text("i")));
    assert(field_views(fields@) =~= seq![
        ("$regex"@, ValueView::Text(contains_pattern(term@))),
        ("$options"@, ValueView::Text("i"@)),
    ]);
    Value::object(fields)
}

/// The filter of a listing narrowed by `params`.
pub fn listing_filter(params: &SearchParams) -> (filter: Value)
    ensures
        filter@ == ValueView::Object(
            listing_conditions(
                optional_text(params.title),
                optional_text(params.content),
                optional_text(params.author),
                optional_number(params.date),
            ),
        ),
{
    let mut fields: Vec<(String, Value)> = Vec::new();
    let ghost mut so_far: Seq<(Seq<char>, ValueView)> = Seq::empty();
    assert(field_views(fields@) =~= so_far);
    if let Some(term) = &params.title {
        fields.push((String::from_str("title"), condition_for(term.as_str())));
        proof {
            so_far = so_far + seq![("title"@, contains_condition(term@))];
        }
        assert(field_views(fields@) =~= so_far);
    }
    if let Some(term) = &params.content {
        fields.push((String::from_str("content.html"), condition_for(term.as_str())));
        proof {
            so_far = so_far + seq![("content.html"@, contains_condition(term@))];
        }
        assert(field_views(fields@) =~= so_far);
    }
    if let Some(author) = &params.author {
        fields.push((String::from_str("author"), Value::Text(author.clone())));
        proof {
            so_far = so_far + seq![("author"@, ValueView::Text(author@))];
        }
        assert(field_views(fields@) =~= so_far);
    }
    if let Some(date) = params.date {
        fields.push((String::from_str("created_at"), Value::Number(date)));
        fields.push((String::from_str("updated_at"), Value::Number(date)));
        proof {
            so_far = so_far + seq![
                ("created_at"@, ValueView::Number(date as int)),
                ("updated_at"@, ValueView::Number(date as int)),
            ];
        }
        assert(field_views(fields@) =~= so_far);
    }
    Value::object(fields)
}

/// The filter of a search narrowed by `params`.
pub fn search_filter(params: &SearchParams) -> (filter: Value)
    ensures
        filter@ == ValueView::Object(
            search_conditions(
                optional_text(params.title),
                optional_text(params.author),
                optional_text(params.content),
                optional_number(params.date),
            ),
        ),
{
    let mut fields: Vec<(String, Value)> = Vec::new();
    let ghost mut so_far: Seq<(Seq<char>, ValueView)> = Seq::empty();
    assert(field_views(fields@) =~= so_far);
    if let Some(title) = &params.title {
        fields.push((String::from_str("title"), Value::Text(title.clone())));
        proof {
            so_far = so_far + seq![("title"@, ValueView::Text(title@))];
        }
        assert(field_views(fields@) =~= so_far);
    }
    if let Some(author) = &params.author {
        fields.push((String::from_str("author"), Value::Text(author.clone())));
        proof {
            so_far = so_far + seq![("author"@, ValueView::Text(author@))];
        }
        assert(field_views(fields@) =~= so_far);
    }
    if let Some(content) = &params.content {
        fields.push((String::from_str("content"), Value::Text(content.clone())));
        proof {
            so_far = so_far + seq![("content"@, ValueView::Text(content@))];
        }
        assert(field_views(fields@) =~= so_far);
    }
    if let Some(date) = params.date {
        fields.push((String::from_str("date"), Value::Number(date)));
        proof {
            so_far = so_far + seq![("date"@, ValueView::Number(date as int))];
        }
        assert(field_views(fields@) =~= so_far);
    }
    Value::object(fields)
}

/// The number of documents that come before page `page` of a listing, pages
/// being counted from one; nothing where there is no such page.
pub fn page_offset(page: i32) -> (offset: Option<u64>)
    ensures
        offset == if page >= 1 {
            Some(((page - 1) * PAGE_SIZE) as u64)
        } else {
            None
        },
{
    if page >= 1 {
        let before: u64 = (page - 1) as u64;
        Some(before * PAGE_SIZE)
    } else {
        None
    }
}

/// The field names in a list written with commas between them.
pub fn projection_fields(fields: &str) -> (names: Vec<String>)
    ensures
        text_views(names@) == split(fields@, ','),
{
    let chars = chars_of(fields);
    let pieces = split_chars(&chars, ',');
    let mut names: Vec<String> = Vec::new();
    let mut i: usize = 0;
    while i < pieces.len()
        invariant
            i <= pieces.len(),
            names.len() == i,
            pieces.len() == split(fields@, ',').len(),
            forall|k: int| 0 <= k < pieces.len() ==> (#[trigger] pieces[k])@ == split(fields@, ',')[k],
            forall|k: int| 0 <= k < i ==> (#[trigger] names[k])@ == split(fields@, ',')[k],
        decreases pieces.len() - i,
    {
        let piece = &pieces[i];
        names.push(string_of(piece, 0, piece.len()));
        assert(piece@.subrange(0, piece.len() as int) =~= piece@);
        i += 1;
    }
    assert(text_views(names@) =~= split(fields@, ','));
    names
}

/// The fields of the projection that keeps the fields `names`: each name
/// once, where it first came, marked with a one.
pub open spec fn projected(names: Seq<Seq<char>>) -> Seq<(Seq<char>, ValueView)>
    decreases names.len(),
{
    if names.len() == 0 {
        Seq::empty()
    } else {
        with_field(projected(names.drop_last()), names.last(), ValueView::Number(1))
    }
}

/// The projection that keeps the fields `names` of a document.
pub fn projection(names: &Vec<String>) -> (doc: Value)
    ensures
        doc@ == ValueView::Object(projected(text_views(names@))),
{
    let ghost all = text_views(names@);
    let mut fields: Vec<(String, Value)> = Vec::new();
    let mut i: usize = 0;
    assert(all.take(0) =~= Seq::<Seq<char>>::empty());
    assert(field_views(fields@) =~= projected(all.take(0)));
    while i < names.len()
        invariant
            i <= names.len(),
            all == text_views(names@),
            field_views(fields@) == projected(all.take(i as int)),
        decreases names.len() - i,
    {
        proof {
            assert(all.take(i + 1).drop_last() =~= all.take(i as int));
            assert(all.take(i + 1).last() == names[i as int]@);
        }
        fields = set_field(&fields, &names[i], Value::Number(1));
        i += 1;
    }
    assert(all.take(i as int) =~= all);
    Value::object(fields)
}

} // verus!
