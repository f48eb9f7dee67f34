use content_engine::common::Common;
use content_engine::error::{fetched, required_field, written, EngineError};
use content_engine::ident::check_identifier;
use content_engine::permissions::Permission;
use content_engine::post::{Content, Post, PostStatus, DEFAULT_POST_IMAGE};
use content_engine::tag::Tag;
use content_engine::user::User;

fn is_document_identifier(id: &str) -> bool {
    id.len() == 24 && id.chars().all(|c| c.is_ascii_hexdigit())
}

fn body() -> Content {
    Content { html: "<p>Hello</p>".to_string(), markdown: "Hello".to_string() }
}

#[test]
fn permission_names() {
    assert_eq!(Permission::Banned.to_string(), "banned");
    assert_eq!(Permission::Guest.to_string(), "guest");
    assert_eq!(Permission::Author.to_string(), "author");
    assert_eq!(Permission::Admin.to_string(), "admin");
}

#[test]
fn a_new_tag_is_unused() {
    let tag = Tag::new("rust".to_string());
    assert_eq!(tag.name, "rust");
    assert_eq!(tag.name(), "rust");
    assert!(tag.used_by().is_empty());
}

#[test]
fn a_tag_records_its_documents_in_order() {
    let mut tag = Tag::new("rust".to_string());
    tag.add("post-a".to_string());
    tag.add("post-b".to_string());
    tag.add("post-a".to_string());
    assert_eq!(tag.used_by(), &vec!["post-a", "post-b", "post-a"]);
    assert_eq!(tag.name, "rust");
}

#[test]
fn counters_hold_what_they_are_given() {
    let common = Common { total_view: 1, total_clicked: 2, user_count: 3, post_count: 4, tag_count: 5 };
    assert_eq!(common.total_view, 1);
    assert_eq!(common.total_clicked, 2);
    assert_eq!(common.user_count, 3);
    assert_eq!(common.post_count, 4);
    assert_eq!(common.tag_count, 5);
    assert_eq!(common, common.clone());
}

#[test]
fn a_new_document_is_untouched() {
    let post = Post::new(
        "Title".to_string(),
        "507f191e810c19729de860ea".to_string(),
        DEFAULT_POST_IMAGE.to_string(),
        body(),
        PostStatus::Private,
        vec!["a".to_string(), "b".to_string()],
        4,
    );
    assert!(is_document_identifier(&post.id));
    assert_eq!(check_identifier(&post.id), Ok(()));
    assert_eq!(post.title, "Title");
    assert_eq!(post.author, "507f191e810c19729de860ea");
    assert_eq!(post.image, "https://www.eska.org.tr/wp-content/uploads/2021/01/k2-winter.jpg");
    assert_eq!(post.content, body());
    assert_eq!(post.status, PostStatus::Private);
    assert_eq!(post.tags, vec!["a", "b"]);
    assert_eq!(post.read_time, 4);
    assert_eq!(post.views, 0);
    assert!(post.likes.is_empty());
    assert!(post.dislikes.is_empty());
    assert!(post.comments.is_empty());
    assert_eq!(post.created_at, post.updated_at);
    assert!(post.created_at > 1_600_000_000);
}

#[test]
fn an_assembled_document_has_the_given_identifier_and_time() {
    let post = Post::assemble(
        "507f1f77bcf86cd799439011".to_string(),
        1_700_000_000,
        "Title".to_string(),
        "author".to_string(),
        "image".to_string(),
        body(),
        PostStatus::Deleted,
        Vec::new(),
        0,
    );
    assert_eq!(post.id, "507f1f77bcf86cd799439011");
    assert_eq!(post.created_at, 1_700_000_000);
    assert_eq!(post.updated_at, 1_700_000_000);
    assert_eq!(post.status, PostStatus::Deleted);
    assert!(post.tags.is_empty());
}

#[test]
fn new_documents_get_distinct_identifiers() {
    let a = Post::new("a".into(), "b".into(), "c".into(), body(), PostStatus::Public, Vec::new(), 0);
    let b = Post::new("a".into(), "b".into(), "c".into(), body(), PostStatus::Public, Vec::new(), 0);
    assert_ne!(a.id, b.id);
}

#[test]
fn a_new_account_is_a_guest() {
    let user = User::new(
        "ada".to_string(),
        "hash".to_string(),
        "ada@example.org".to_string(),
        Some("other@example.org".to_string()),
    );
    assert!(is_document_identifier(&user.id));
    assert_eq!(user.name, "ada");
    assert_eq!(user.password, "hash");
    assert_eq!(user.email, "ada@example.org");
    assert_eq!(user.forgot_mail, Some("other@example.org".to_string()));
    assert_eq!(user.permission, Permission::Guest);
    assert!(user.posts.is_empty());
    assert_eq!(user.registred_via, "");
    assert_eq!(user.avatar, None);
    assert!(user.view_list.is_empty());
    assert!(user.likes.is_empty());
    assert!(user.dislikes.is_empty());
    assert!(user.favorites.is_empty());
    assert_eq!(user.created_at, user.updated_at);
}

#[test]
fn an_assembled_account_has_the_given_identifier_and_time() {
    let user = User::assemble("id".to_string(), 5, "n".into(), "p".into(), "e".into(), None);
    assert_eq!(user.id, "id");
    assert_eq!(user.created_at, 5);
    assert_eq!(user.updated_at, 5);
    assert_eq!(user.forgot_mail, None);
}

#[test]
fn document_identifiers_are_twenty_four_hexadecimal_digits() {
    assert_eq!(check_identifier("507f1f77bcf86cd799439011"), Ok(()));
    assert_eq!(check_identifier("507F1F77BCF86CD799439011"), Ok(()));
    assert_eq!(check_identifier("000000000000000000000000"), Ok(()));
    assert_eq!(check_identifier(""), Err(EngineError::InvalidIdentifier));
    assert_eq!(check_identifier("507f1f77bcf86cd79943901"), Err(EngineError::InvalidIdentifier));
    assert_eq!(check_identifier("507f1f77bcf86cd7994390111"), Err(EngineError::InvalidIdentifier));
    assert_eq!(check_identifier("507f1f77bcf86cd79943901g"), Err(EngineError::InvalidIdentifier));
    assert_eq!(check_identifier("507f1f77bcf86cd79943901é"), Err(EngineError::InvalidIdentifier));
    assert_eq!(check_identifier("ééééééééééééé"), Err(EngineError::InvalidIdentifier));
    assert_eq!(check_identifier("ééééééééééé0"), Err(EngineError::InvalidIdentifier));
    assert_eq!(check_identifier("507f1f77-bcf8-6cd7-9943-9011"), Err(EngineError::InvalidIdentifier));
}

#[test]
fn failures_are_reported_under_their_status() {
    assert_eq!(EngineError::InvalidIdentifier.status_code(), 400);
    assert_eq!(EngineError::ValidationError.status_code(), 400);
    assert_eq!(EngineError::MalformedPath.status_code(), 400);
    assert_eq!(EngineError::NotFound.status_code(), 404);
    assert_eq!(EngineError::PathNotFound.status_code(), 404);
    assert_eq!(EngineError::UpstreamFailure("connection reset".to_string()).status_code(), 500);
}

#[test]
fn answers_of_the_store_are_reported() {
    assert_eq!(fetched(Ok(Some(7))), Ok(7));
    assert_eq!(fetched::<u8>(Ok(None)), Err(EngineError::NotFound));
    assert_eq!(
        fetched::<u8>(Err("connection reset".to_string())),
        Err(EngineError::UpstreamFailure("connection reset".to_string()))
    );
    assert_eq!(written(Ok(())), Ok(()));
    assert_eq!(
        written(Err("disk full".to_string())),
        Err(EngineError::UpstreamFailure("disk full".to_string()))
    );
}

#[test]
fn a_missing_field_is_a_validation_error() {
    assert_eq!(required_field(Some("c1")), Ok("c1"));
    assert_eq!(required_field(Some("")), Ok(""));
    assert_eq!(required_field(None), Err(EngineError::ValidationError));
}
