use content_engine::error::EngineError;
use content_engine::fragment::{build_fragment, dotted, Fragment, Leaf};
use content_engine::merge::{compile_patch, merge_fragments, prepare_update, update_reported};
use content_engine::path::parse_path;
use content_engine::store::{apply_fragment, apply_update, patch_document, read_path};
use content_engine::value::Value;

const DOCUMENT_ID: &str = "507f1f77bcf86cd799439011";

fn text(s: &str) -> Value {
    Value::Text(s.to_string())
}

fn object(fields: Vec<(&str, Value)>) -> Value {
    Value::Object(fields.into_iter().map(|(k, v)| (k.to_string(), v)).collect())
}

fn names(path: &[&str]) -> Vec<String> {
    path.iter().map(|s| s.to_string()).collect()
}

fn fragment(path: &str, value: Value) -> Fragment {
    build_fragment(&parse_path(path).unwrap(), value)
}

fn sample_document() -> Value {
    object(vec![
        ("title", text("Old Title")),
        ("tags", Value::Array(vec![text("old"), text("other")])),
        ("content", object(vec![("html", text("<p>hi</p>")), ("markdown", text("hi"))])),
        ("views", Value::Number(3)),
        (
            "blocks",
            Value::Array(vec![
                object(vec![("kind", text("intro"))]),
                object(vec![("kind", text("body")), ("text", text("first"))]),
                object(vec![("text", text("second"))]),
            ]),
        ),
    ])
}

#[test]
fn fragment_of_a_plain_path() {
    let f = fragment("content.html", text("<p>x</p>"));
    assert_eq!(f.key, "content.html");
    assert_eq!(f.prefix, names(&["content"]));
    assert_eq!(f.leaf, Leaf::SetField("html".to_string()));
    assert_eq!(f.value, text("<p>x</p>"));
}

#[test]
fn fragment_of_a_positional_path() {
    let f = fragment("content.blocks.[002]", Value::Bool(true));
    assert_eq!(f.key, "content.blocks.[002]");
    assert_eq!(f.prefix, names(&["content", "blocks"]));
    assert_eq!(f.leaf, Leaf::SetIndex(2));
    assert_eq!(f.value, Value::Bool(true));
}

#[test]
fn fragment_of_an_element_key_path() {
    let f = fragment("tags.[sports]", Value::Null);
    assert_eq!(f.key, "tags.[sports]");
    assert_eq!(f.prefix, names(&["tags"]));
    assert_eq!(f.leaf, Leaf::SetElementKey("sports".to_string()));
}

#[test]
fn fragment_of_a_single_segment() {
    let f = fragment("title", text("t"));
    assert_eq!(f.key, "title");
    assert!(f.prefix.is_empty());
    assert_eq!(f.leaf, Leaf::SetField("title".to_string()));
}

#[test]
fn merging_keeps_distinct_keys_in_order() {
    let set = merge_fragments(vec![
        fragment("b", Value::Number(1)),
        fragment("a", Value::Number(2)),
        fragment("c.d", Value::Number(3)),
    ]);
    let keys: Vec<&str> = set.fragments().iter().map(|f| f.key.as_str()).collect();
    assert_eq!(keys, vec!["b", "a", "c.d"]);
    assert_eq!(set.len(), 3);
}

#[test]
fn merging_lets_the_later_fragment_win_in_place() {
    let set = merge_fragments(vec![
        fragment("title", text("first")),
        fragment("views", Value::Number(1)),
        fragment("title", text("second")),
        fragment("title", text("third")),
    ]);
    assert_eq!(set.len(), 2);
    assert_eq!(set.fragments()[0].key, "title");
    assert_eq!(set.fragments()[0].value, text("third"));
    assert_eq!(set.fragments()[1].key, "views");
}

#[test]
fn merging_nothing_gives_the_empty_set() {
    assert_eq!(merge_fragments(Vec::new()).len(), 0);
}

#[test]
fn compile_patch_builds_one_fragment_per_entry() {
    let set = compile_patch(vec![
        ("title".to_string(), text("New Title")),
        ("tags.[0]".to_string(), text("rust")),
    ])
    .unwrap();
    assert_eq!(set.len(), 2);
    assert_eq!(set.fragments()[0], fragment("title", text("New Title")));
    assert_eq!(set.fragments()[1], fragment("tags.[0]", text("rust")));
}

#[test]
fn compile_patch_refuses_an_empty_path() {
    let r = compile_patch(vec![("title".to_string(), Value::Null), ("".to_string(), Value::Null)]);
    assert_eq!(r.unwrap_err(), EngineError::MalformedPath);
}

#[test]
fn prepare_update_checks_the_identifier_first() {
    let r = prepare_update("not-an-id", vec![("".to_string(), Value::Null)]);
    assert_eq!(r.unwrap_err(), EngineError::InvalidIdentifier);
    let r = prepare_update(DOCUMENT_ID, vec![("".to_string(), Value::Null)]);
    assert_eq!(r.unwrap_err(), EngineError::MalformedPath);
    assert_eq!(prepare_update(DOCUMENT_ID, Vec::new()).unwrap().len(), 0);
}

#[test]
fn field_replacement_round_trip() {
    let doc = sample_document();
    let after = apply_fragment(&doc, &fragment("content.html", text("<p>new</p>"))).unwrap();
    assert_eq!(read_path(&after, &names(&["content", "html"])), Some(&text("<p>new</p>")));
    assert_eq!(read_path(&after, &names(&["content", "markdown"])), Some(&text("hi")));
    assert_eq!(read_path(&after, &names(&["title"])), Some(&text("Old Title")));
    assert_eq!(read_path(&after, &names(&["tags"])), read_path(&doc, &names(&["tags"])));
    assert_eq!(read_path(&after, &names(&["views"])), Some(&Value::Number(3)));
    assert_eq!(read_path(&after, &names(&["blocks"])), read_path(&doc, &names(&["blocks"])));
    assert_eq!(doc, sample_document());
}

#[test]
fn field_replacement_adds_a_missing_field() {
    let doc = sample_document();
    let after = apply_fragment(&doc, &fragment("subtitle", text("s"))).unwrap();
    assert_eq!(read_path(&after, &names(&["subtitle"])), Some(&text("s")));
    assert_eq!(read_path(&doc, &names(&["subtitle"])), None);
}

#[test]
fn field_replacement_creates_missing_objects_on_the_way() {
    let doc = sample_document();
    let after = apply_fragment(&doc, &fragment("meta.seo.slug", text("x"))).unwrap();
    assert_eq!(read_path(&after, &names(&["meta", "seo", "slug"])), Some(&text("x")));
    assert_eq!(
        read_path(&after, &names(&["meta"])),
        Some(&object(vec![("seo", object(vec![("slug", text("x"))]))]))
    );
}

#[test]
fn field_replacement_through_a_scalar_is_not_found() {
    let doc = sample_document();
    let r = apply_fragment(&doc, &fragment("title.first", text("x")));
    assert_eq!(r.unwrap_err(), EngineError::PathNotFound);
    let r = apply_fragment(&doc, &fragment("tags.first", text("x")));
    assert_eq!(r.unwrap_err(), EngineError::PathNotFound);
    let r = apply_fragment(&Value::Null, &fragment("title", text("x")));
    assert_eq!(r.unwrap_err(), EngineError::PathNotFound);
}

#[test]
fn positional_replacement_within_bounds() {
    let doc = sample_document();
    let after = apply_fragment(&doc, &fragment("tags.[1]", text("rust"))).unwrap();
    assert_eq!(
        read_path(&after, &names(&["tags"])),
        Some(&Value::Array(vec![text("old"), text("rust")]))
    );
    let after = apply_fragment(&doc, &fragment("tags.[0]", text("rust"))).unwrap();
    assert_eq!(
        read_path(&after, &names(&["tags"])),
        Some(&Value::Array(vec![text("rust"), text("other")]))
    );
}

#[test]
fn positional_replacement_out_of_bounds_is_not_found() {
    let doc = sample_document();
    let r = apply_fragment(&doc, &fragment("tags.[2]", text("rust")));
    assert_eq!(r.unwrap_err(), EngineError::PathNotFound);
    let r = apply_fragment(&doc, &fragment("tags.[99999]", text("rust")));
    assert_eq!(r.unwrap_err(), EngineError::PathNotFound);
    let empty = object(vec![("tags", Value::Array(Vec::new()))]);
    let r = apply_fragment(&empty, &fragment("tags.[0]", text("rust")));
    assert_eq!(r.unwrap_err(), EngineError::PathNotFound);
}

#[test]
fn positional_replacement_needs_an_array() {
    let doc = sample_document();
    let r = apply_fragment(&doc, &fragment("title.[0]", text("x")));
    assert_eq!(r.unwrap_err(), EngineError::PathNotFound);
    let r = apply_fragment(&doc, &fragment("missing.[0]", text("x")));
    assert_eq!(r.unwrap_err(), EngineError::PathNotFound);
    let r = apply_fragment(&doc, &fragment("[0]", text("x")));
    assert_eq!(r.unwrap_err(), EngineError::PathNotFound);
}

#[test]
fn element_key_replacement_acts_on_the_first_element_with_the_key() {
    let doc = sample_document();
    let after = apply_fragment(&doc, &fragment("blocks.[text]", text("changed"))).unwrap();
    assert_eq!(
        read_path(&after, &names(&["blocks"])),
        Some(&Value::Array(vec![
            object(vec![("kind", text("intro"))]),
            object(vec![("kind", text("body")), ("text", text("changed"))]),
            object(vec![("text", text("second"))]),
        ]))
    );
}

#[test]
fn element_key_replacement_without_a_match_is_not_found() {
    let doc = sample_document();
    let r = apply_fragment(&doc, &fragment("blocks.[author]", text("x")));
    assert_eq!(r.unwrap_err(), EngineError::PathNotFound);
    let r = apply_fragment(&doc, &fragment("tags.[old]", text("x")));
    assert_eq!(r.unwrap_err(), EngineError::PathNotFound);
    let r = apply_fragment(&doc, &fragment("title.[x]", text("x")));
    assert_eq!(r.unwrap_err(), EngineError::PathNotFound);
}

#[test]
fn a_batch_is_applied_in_order() {
    let doc = sample_document();
    let set = compile_patch(vec![
        ("meta.a".to_string(), Value::Number(1)),
        ("meta.b".to_string(), Value::Number(2)),
        ("meta.a".to_string(), Value::Number(3)),
    ])
    .unwrap();
    let after = apply_update(&doc, &set).unwrap();
    assert_eq!(
        read_path(&after, &names(&["meta"])),
        Some(&object(vec![("a", Value::Number(3)), ("b", Value::Number(2))]))
    );
}

#[test]
fn a_batch_with_one_unresolved_path_changes_nothing() {
    let doc = sample_document();
    let set = compile_patch(vec![
        ("title".to_string(), text("New Title")),
        ("tags.[5]".to_string(), text("rust")),
    ])
    .unwrap();
    assert_eq!(apply_update(&doc, &set).unwrap_err(), EngineError::PathNotFound);
    assert_eq!(doc, sample_document());
}

#[test]
fn the_empty_batch_returns_the_document() {
    let doc = sample_document();
    let set = compile_patch(Vec::new()).unwrap();
    assert_eq!(apply_update(&doc, &set).unwrap(), doc);
}

#[test]
fn patching_title_and_first_tag() {
    let doc = object(vec![
        ("title", text("Old Title")),
        ("tags", Value::Array(vec![text("old"), text("other")])),
    ]);
    let after = patch_document(
        DOCUMENT_ID,
        &doc,
        vec![("title".to_string(), text("New Title")), ("tags.[0]".to_string(), text("rust"))],
    )
    .unwrap();
    assert_eq!(read_path(&after, &names(&["title"])), Some(&text("New Title")));
    assert_eq!(
        after,
        object(vec![
            ("title", text("New Title")),
            ("tags", Value::Array(vec![text("rust"), text("other")])),
        ])
    );
}

#[test]
fn patch_document_reports_each_refusal() {
    let doc = sample_document();
    let r = patch_document("xyz", &doc, vec![("title".to_string(), Value::Null)]);
    assert_eq!(r.unwrap_err(), EngineError::InvalidIdentifier);
    let r = patch_document(DOCUMENT_ID, &doc, vec![("".to_string(), Value::Null)]);
    assert_eq!(r.unwrap_err(), EngineError::MalformedPath);
    let r = patch_document(DOCUMENT_ID, &doc, vec![("tags.[9]".to_string(), Value::Null)]);
    assert_eq!(r.unwrap_err(), EngineError::PathNotFound);
}

#[test]
fn reading_the_root_and_missing_paths() {
    let doc = sample_document();
    assert_eq!(read_path(&doc, &Vec::new()), Some(&doc));
    assert_eq!(read_path(&doc, &names(&["nothing"])), None);
    assert_eq!(read_path(&doc, &names(&["title", "x"])), None);
}

#[test]
fn the_first_of_two_fields_of_one_name_is_read_and_replaced() {
    let doc = object(vec![("a", Value::Number(1)), ("a", Value::Number(2))]);
    assert_eq!(read_path(&doc, &names(&["a"])), Some(&Value::Number(1)));
    let after = apply_fragment(&doc, &fragment("a", Value::Number(9))).unwrap();
    assert_eq!(after, object(vec![("a", Value::Number(9)), ("a", Value::Number(2))]));
}

#[test]
fn values_are_copied_in_depth() {
    let doc = sample_document();
    let copy = doc.clone();
    assert_eq!(copy, doc);
    assert_eq!(Value::text("abc"), text("abc"));
    assert_eq!(Value::array(vec![Value::Float(7)]), Value::Array(vec![Value::Float(7)]));
    assert_eq!(Value::object(Vec::new()), Value::Object(Vec::new()));
}

#[test]
fn a_field_replacement_is_put_under_its_path() {
    let f = fragment("content.html", text("x"));
    assert_eq!(f.store_key(), "content.html");
    assert!(f.store_conditions().is_empty());
    let f = fragment("title", Value::Null);
    assert_eq!(f.store_key(), "title");
    assert!(f.store_conditions().is_empty());
    let f = fragment("a..b", Value::Null);
    assert_eq!(f.store_key(), "a..b");
}

fn condition(field: &str, operator: &str, operand: Value) -> Value {
    object(vec![(field, object(vec![(operator, operand)]))])
}

#[test]
fn a_positional_replacement_is_put_under_the_position() {
    let f = fragment("a.b.[002]", text("v"));
    assert_eq!(f.store_key(), "a.b.2");
    assert_eq!(
        f.store_conditions(),
        vec![condition("a.b", "$type", text("array")), condition("a.b.2", "$exists", Value::Bool(true))]
    );
    let f = fragment("tags.[0]", text("rust"));
    assert_eq!(f.store_key(), "tags.0");
    assert_eq!(
        f.store_conditions(),
        vec![condition("tags", "$type", text("array")), condition("tags.0", "$exists", Value::Bool(true))]
    );
    let f = fragment("list.[1234567890]", Value::Bool(false));
    assert_eq!(f.store_key(), "list.1234567890");
}

#[test]
fn an_element_key_replacement_is_put_under_the_matched_element() {
    let f = fragment("blocks.[text]", text("v"));
    assert_eq!(f.store_key(), "blocks.$.text");
    assert_eq!(
        f.store_conditions(),
        vec![condition("blocks", "$type", text("array")), condition("blocks.text", "$exists", Value::Bool(true))]
    );
    let f = fragment("a.b.[k]", text("v"));
    assert_eq!(f.store_key(), "a.b.$.k");
}

#[test]
fn a_replacement_on_an_array_without_prefix_is_never_carried_out() {
    let never = vec![condition("_id", "$exists", Value::Bool(false))];
    let f = fragment("[3]", text("v"));
    assert_eq!(f.store_key(), "3");
    assert_eq!(f.store_conditions(), never);
    let f = fragment("[key]", text("v"));
    assert_eq!(f.store_key(), "$.key");
    assert_eq!(f.store_conditions(), never);
}

#[test]
fn update_document_of_a_request() {
    let set = compile_patch(vec![
        ("title".to_string(), text("New Title")),
        ("tags.[0]".to_string(), text("rust")),
        ("blocks.[text]".to_string(), Value::Number(7)),
    ])
    .unwrap();
    assert_eq!(
        set.instruction(),
        object(vec![(
            "$set",
            object(vec![
                ("title", text("New Title")),
                ("tags.0", text("rust")),
                ("blocks.$.text", Value::Number(7)),
            ])
        )])
    );
    assert_eq!(
        set.conditions(),
        vec![
            condition("tags", "$type", text("array")),
            condition("tags.0", "$exists", Value::Bool(true)),
            condition("blocks", "$type", text("array")),
            condition("blocks.text", "$exists", Value::Bool(true)),
        ]
    );
    let empty = compile_patch(Vec::new()).unwrap();
    assert_eq!(empty.instruction(), object(vec![("$set", object(vec![]))]));
    assert!(empty.conditions().is_empty());
}

#[test]
fn two_paths_to_one_place_are_set_once_with_the_later_value() {
    let set = compile_patch(vec![
        ("tags.[0]".to_string(), Value::Number(1)),
        ("title".to_string(), Value::Number(2)),
        ("tags.[000]".to_string(), Value::Number(3)),
    ])
    .unwrap();
    assert_eq!(set.len(), 3);
    assert_eq!(
        set.instruction(),
        object(vec![("$set", object(vec![("tags.0", Value::Number(3)), ("title", Value::Number(2))]))])
    );
}

#[test]
fn what_an_update_came_to() {
    assert_eq!(update_reported(true, true), Ok(()));
    assert_eq!(update_reported(true, false), Ok(()));
    assert_eq!(update_reported(false, true), Err(EngineError::PathNotFound));
    assert_eq!(update_reported(false, false), Err(EngineError::NotFound));
}

#[test]
fn names_are_written_with_dots_between_them() {
    assert_eq!(dotted(&names(&["a", "b", "c"])), "a.b.c");
    assert_eq!(dotted(&names(&["a"])), "a");
    assert_eq!(dotted(&names(&["", ""])), ".");
    assert_eq!(dotted(&names(&[])), "");
}
