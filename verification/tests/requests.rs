use content_engine::query::{
    listing_filter, page_offset, projection, projection_fields, search_filter, SearchParams, PAGE_SIZE,
};
use content_engine::storage::{object_url, percent_encode};
use content_engine::upload::{avatar_key, check_upload, fresh_image_key, image_key, UploadError};
use content_engine::value::Value;
use percent_encoding::{utf8_percent_encode, AsciiSet, CONTROLS};

const UNSAFE_IN_ADDRESS: &AsciiSet = &CONTROLS.add(b' ').add(b'"').add(b'<').add(b'>').add(b'`');

fn text(s: &str) -> Value {
    Value::Text(s.to_string())
}

fn object(fields: Vec<(&str, Value)>) -> Value {
    Value::Object(fields.into_iter().map(|(k, v)| (k.to_string(), v)).collect())
}

fn contains(term: &str) -> Value {
    object(vec![("$regex", text(&format!(".*{}.*", term))), ("$options", text("i"))])
}

#[test]
fn a_listing_without_parameters_has_no_conditions() {
    let params = SearchParams { title: None, author: None, content: None, date: None };
    assert_eq!(listing_filter(&params), object(vec![]));
    assert_eq!(search_filter(&params), object(vec![]));
}

#[test]
fn a_listing_with_all_parameters() {
    let params = SearchParams {
        title: Some("rust".to_string()),
        author: Some("507f191e810c19729de860ea".to_string()),
        content: Some("borrow".to_string()),
        date: Some(1_700_000_000),
    };
    assert_eq!(
        listing_filter(&params),
        object(vec![
            ("title", contains("rust")),
            ("content.html", contains("borrow")),
            ("author", text("507f191e810c19729de860ea")),
            ("created_at", Value::Number(1_700_000_000)),
            ("updated_at", Value::Number(1_700_000_000)),
        ])
    );
}

#[test]
fn a_listing_with_some_parameters() {
    let params = SearchParams { title: None, author: None, content: Some("".to_string()), date: Some(-5) };
    assert_eq!(
        listing_filter(&params),
        object(vec![
            ("content.html", contains("")),
            ("created_at", Value::Number(-5)),
            ("updated_at", Value::Number(-5)),
        ])
    );
}

#[test]
fn a_search_with_all_parameters() {
    let params = SearchParams {
        title: Some("T".to_string()),
        author: Some("A".to_string()),
        content: Some("C".to_string()),
        date: Some(9),
    };
    assert_eq!(
        search_filter(&params),
        object(vec![
            ("title", text("T")),
            ("author", text("A")),
            ("content", text("C")),
            ("date", Value::Number(9)),
        ])
    );
}

#[test]
fn a_search_by_author_only() {
    let params = SearchParams { title: None, author: Some("A".to_string()), content: None, date: None };
    assert_eq!(search_filter(&params), object(vec![("author", text("A"))]));
}

#[test]
fn pages_hold_five_documents() {
    assert_eq!(PAGE_SIZE, 5);
    assert_eq!(page_offset(1), Some(0));
    assert_eq!(page_offset(2), Some(5));
    assert_eq!(page_offset(7), Some(30));
    assert_eq!(page_offset(i32::MAX), Some((i32::MAX as u64 - 1) * 5));
}

#[test]
fn there_is_no_page_before_the_first() {
    assert_eq!(page_offset(0), None);
    assert_eq!(page_offset(-1), None);
    assert_eq!(page_offset(i32::MIN), None);
}

#[test]
fn projection_fields_are_cut_at_commas() {
    assert_eq!(projection_fields("title,author,content.html"), vec!["title", "author", "content.html"]);
    assert_eq!(projection_fields("title"), vec!["title"]);
    assert_eq!(projection_fields(""), vec![""]);
    assert_eq!(projection_fields("a,,b,"), vec!["a", "", "b", ""]);
}

#[test]
fn a_projection_marks_each_field_once() {
    let names: Vec<String> = ["title", "tags", "title"].iter().map(|s| s.to_string()).collect();
    assert_eq!(
        projection(&names),
        object(vec![("title", Value::Number(1)), ("tags", Value::Number(1))])
    );
    assert_eq!(projection(&Vec::new()), object(vec![]));
}

#[test]
fn uploads_are_checked_in_order() {
    assert_eq!(check_upload(false, None), Err(UploadError::NoFile));
    assert_eq!(check_upload(false, Some("image")), Err(UploadError::NoFile));
    assert_eq!(check_upload(true, None), Err(UploadError::NoContentType));
    assert_eq!(check_upload(true, Some("text")), Err(UploadError::NotAnImage));
    assert_eq!(check_upload(true, Some("Image")), Err(UploadError::NotAnImage));
    assert_eq!(check_upload(true, Some("image/png")), Err(UploadError::NotAnImage));
    assert_eq!(check_upload(true, Some("image")), Ok(()));
}

#[test]
fn upload_refusals_are_reported_under_their_status() {
    assert_eq!(UploadError::NoFile.status_code(), 400);
    assert_eq!(UploadError::NoContentType.status_code(), 415);
    assert_eq!(UploadError::NotAnImage.status_code(), 415);
}

#[test]
fn image_keys() {
    assert_eq!(image_key("abc"), "abc.png");
    assert_eq!(image_key(""), ".png");
    assert_eq!(avatar_key("507f1f77bcf86cd799439011"), "avatar-507f1f77bcf86cd799439011.png");
}

#[test]
fn fresh_image_keys_are_random_names() {
    let a = fresh_image_key();
    let b = fresh_image_key();
    assert_eq!(a.len(), 40);
    assert!(a.ends_with(".png"));
    assert_eq!(a.matches('-').count(), 4);
    assert_ne!(a, b);
}

#[test]
fn addresses_of_objects() {
    assert_eq!(
        object_url("bucket", "eu-central-1", "avatar-1.png"),
        "https://bucket.s3.eu-central-1.amazonaws.com/avatar-1.png"
    );
    assert_eq!(
        object_url("my bucket", "eu-central-1", "a b\"<c>`d.png"),
        "https://my%20bucket.s3.eu-central-1.amazonaws.com/a%20b%22%3Cc%3E%60d.png"
    );
    assert_eq!(
        object_url("b", "r", "ş\u{7f}\n%?#é"),
        "https://b.s3.r.amazonaws.com/%C5%9F%7F%0A%?#%C3%A9"
    );
}

#[test]
fn escaping_agrees_with_the_percent_encoding_crate() {
    let mut all = String::new();
    for code in 0u32..0x250 {
        if let Some(c) = char::from_u32(code) {
            all.push(c);
        }
    }
    all.push('\u{10FFFF}');
    all.push('\u{FFFD}');
    assert_eq!(percent_encode(&all), utf8_percent_encode(&all, UNSAFE_IN_ADDRESS).to_string());
    assert_eq!(percent_encode(""), "");
}
