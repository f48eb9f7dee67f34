//! The comment tree of a document: comments, their replies and their likes.

use vstd::prelude::*;
use vstd::string::{StrSliceExecFns, StringExecFns};
use crate::error::{fetched, required_field, EngineError};
use crate::ident::{check_identifier, generate_random_id, is_random_id, is_object_id};
use crate::text::{
    first_index, lemma_first_index, lemma_first_index_is, optional_slice, optional_text, push_char, text_views,
};

verus! {

/// A comment on a document, or a reply to a comment.
#[derive(Debug, PartialEq, Eq)]
pub struct Comment {
    /// The author's user identifier, or `anon`.
    pub author_id: String,
    /// Between 2 and 400 characters.
    pub content: String,
    /// Unique within the document.
    pub id: String,
    /// The identifiers of the users who like the comment.
    pub likes: Vec<String>,
    pub replies: Vec<Comment>,
}

/// The mathematical content of a [`Comment`].
pub struct CommentView {
    pub author_id: Seq<char>,
    pub content: Seq<char>,
    pub id: Seq<char>,
    pub likes: Seq<Seq<char>>,
    pub replies: Seq<CommentView>,
}

/// The content of `comment`, replies included.
pub open spec fn comment_content(comment: Comment) -> CommentView
    decreases comment,
{
    CommentView {
        author_id: comment.author_id@,
        content: comment.content@,
        id: comment.id@,
        likes: text_views(comment.likes@),
        replies: Seq::new(
            comment.replies@.len(),
            |i: int|
                if 0 <= i < comment.replies@.len() {
                    comment_content(comment.replies@[i])
                } else {
                    CommentView {
                        author_id: Seq::empty(),
                        content: Seq::empty(),
                        id: Seq::empty(),
                        likes: Seq::empty(),
                        replies: Seq::empty(),
                    }
                },
        ),
    }
}

impl View for Comment {
    type V = CommentView;

    open spec fn view(&self) -> CommentView {
        comment_content(*self)
    }
}

/// The views of `comments`, one by one.
pub open spec fn comment_views(comments: Seq<Comment>) -> Seq<CommentView> {
    Seq::new(comments.len(), |i: int| comments[i]@)
}

/// The replies of a comment are viewed one by one.
pub proof fn lemma_comment_unfold(comment: Comment)
    ensures
        comment@.replies == comment_views(comment.replies@),
{
    assert(comment@.replies =~= comment_views(comment.replies@));
}

/// The identifiers of `comments`, one by one.
pub open spec fn comment_ids(comments: Seq<CommentView>) -> Seq<Seq<char>> {
    Seq::new(comments.len(), |i: int| comments[i].id)
}

/// Whether `content` has an accepted length: 2 to 400 characters.
pub open spec fn valid_content(content: Seq<char>) -> bool {
    2 <= content.len() <= 400
}

/// The author a comment is filed under: the one given, or `anon`.
pub open spec fn author_or_anonymous(author: Option<Seq<char>>) -> Seq<char> {
    match author {
        Some(author) => author,
        None => "anon"@,
    }
}

/// A comment as it is created: no likes and no replies yet.
pub open spec fn new_comment(id: Seq<char>, author: Option<Seq<char>>, content: Seq<char>) -> CommentView {
    CommentView {
        author_id: author_or_anonymous(author),
        content,
        id,
        likes: Seq::empty(),
        replies: Seq::empty(),
    }
}

/// `likes` without any occurrence of `user`.
pub open spec fn without(likes: Seq<Seq<char>>, user: Seq<char>) -> Seq<Seq<char>>
    decreases likes.len(),
{
    if likes.len() == 0 {
        Seq::empty()
    } else if likes.last() == user {
        without(likes.drop_last(), user)
    } else {
        without(likes.drop_last(), user).push(likes.last())
    }
}

/// `likes` after `user` toggled their like: without `user` where they were
/// among the likers, with `user` added at the end where they were not.
pub open spec fn toggled(likes: Seq<Seq<char>>, user: Seq<char>) -> Seq<Seq<char>> {
    if likes.contains(user) {
        without(likes, user)
    } else {
        likes.push(user)
    }
}

/// The top-level comments after `reply` was appended to the replies of the
/// first top-level comment whose identifier is `target`; nothing where no
/// top-level comment has that identifier.
pub open spec fn with_reply(comments: Seq<CommentView>, target: Seq<char>, reply: CommentView) -> Option<
    Seq<CommentView>,
> {
    let at = first_index(comment_ids(comments), target);
    if at < comments.len() {
        Some(comments.update(at, CommentView { replies: comments[at].replies.push(reply), ..comments[at] }))
    } else {
        None
    }
}

/// The top-level comments after `user` toggled their like of the first
/// top-level comment whose identifier is `target`, and whether that removed
/// the like; nothing where no top-level comment has that identifier.
pub open spec fn with_like_toggled(comments: Seq<CommentView>, target: Seq<char>, user: Seq<char>) -> Option<
    (Seq<CommentView>, bool),
> {
    let at = first_index(comment_ids(comments), target);
    if at < comments.len() {
        Some(
            (
                comments.update(at, CommentView { likes: toggled(comments[at].likes, user), ..comments[at] }),
                comments[at].likes.contains(user),
            ),
        )
    } else {
        None
    }
}

impl Comment {
    /// A comment with the given identifier, by `author_name` or, where none
    /// is given, by `anon`.
    pub fn with_id(id: String, author_name: Option<String>, content: String) -> (comment: Comment)
        ensures
            comment@ == new_comment(id@, optional_text(author_name), content@),
    {
        let author_id = match author_name {
            Some(name) => name,
            None => String::from_str("anon"),
        };
        let comment = Comment { author_id, content, id, likes: Vec::new(), replies: Vec::new() };
        assert(comment@.likes =~= Seq::<Seq<char>>::empty());
        assert(comment@.replies =~= Seq::<CommentView>::empty());
        comment
    }

    /// A comment with a newly generated identifier, by `author_name` or,
    /// where none is given, by `anon`.
    pub fn new(author_name: Option<String>, content: String) -> (comment: Comment)
        ensures
            is_random_id(comment@.id),
            comment@ == new_comment(comment@.id, optional_text(author_name), content@),
    {
        Comment::with_id(generate_random_id(), author_name, content)
    }
}

/// Checks the length of a comment's content.
pub fn validate_content(content: &str) -> (r: Result<(), EngineError>)
    ensures
        r is Ok <==> valid_content(content@),
        r matches Err(e) ==> e == EngineError::ValidationError,
{
    let n = content.unicode_len();
    if n < 2 || n > 400 {
        Err(EngineError::ValidationError)
    } else {
        Ok(())
    }
}

/// The position of the first comment of `comments` whose identifier is
/// `target`, or the number of comments where there is none.
fn find_comment(comments: &Vec<Comment>, target: &String) -> (at: usize)
    ensures
        at == first_index(comment_ids(comment_views(comments@)), target@),
        at <= comments.len(),
{
    let ghost ids = comment_ids(comment_views(comments@));
    let mut i: usize = 0;
    while i < comments.len()
        invariant
            i <= comments.len(),
            ids == comment_ids(comment_views(comments@)),
            forall|j: int| 0 <= j < i ==> ids[j] != target@,
        decreases comments.len() - i,
    {
        if comments[i].id == *target {
            proof {
                lemma_first_index_is(ids, target@, i as int);
            }
            return i;
        }
        i += 1;
    }
    proof {
        lemma_first_index_is(ids, target@, i as int);
    }
    i
}

/// Appends `reply` to the replies of the top-level comment whose identifier
/// is `target_id`.  Replies are not searched: an identifier that only a
/// reply has is not found.
pub fn attach_reply(comments: &mut Vec<Comment>, target_id: &str, reply: Comment) -> (r: Result<
    (),
    EngineError,
>)
    ensures
        match with_reply(comment_views(old(comments)@), target_id@, reply@) {
            Some(after) => r is Ok && comment_views(final(comments)@) == after,
            None => r == Err::<(), EngineError>(EngineError::NotFound) && comment_views(final(comments)@)
                == comment_views(old(comments)@),
        },
{
    let target = target_id.to_owned();
    let at = find_comment(comments, &target);
    if at >= comments.len() {
        return Err(EngineError::NotFound);
    }
    let ghost before = comment_views(comments@);
    let ghost reply_view = reply@;
    proof {
        lemma_comment_unfold(comments[at as int]);
    }
    comments[at].replies.push(reply);
    proof {
        lemma_comment_unfold(comments[at as int]);
        let after = with_reply(before, target_id@, reply_view)->0;
        assert(comments[at as int]@.replies =~= before[at as int].replies.push(reply_view));
        assert(comment_views(comments@) =~= after);
    }
    Ok(())
}

/// The likers of `likes` other than `user`.
fn likes_without(likes: &Vec<String>, user: &String) -> (kept: Vec<String>)
    ensures
        text_views(kept@) == without(text_views(likes@), user@),
{
    let ghost all = text_views(likes@);
    let mut kept: Vec<String> = Vec::new();
    let mut i: usize = 0;
    assert(all.take(0) =~= Seq::<Seq<char>>::empty());
    assert(text_views(kept@) =~= Seq::<Seq<char>>::empty());
    while i < likes.len()
        invariant
            i <= likes.len(),
            all == text_views(likes@),
            text_views(kept@) == without(all.take(i as int), user@),
        decreases likes.len() - i,
    {
        proof {
            assert(all.take(i + 1).drop_last() =~= all.take(i as int));
            assert(all.take(i + 1).last() == likes[i as int]@);
        }
        let ghost kept_before = text_views(kept@);
        if likes[i] != *user {
            kept.push(likes[i].clone());
            assert(text_views(kept@) =~= kept_before.push(likes[i as int]@));
        }
        i += 1;
    }
    assert(all.take(i as int) =~= all);
    kept
}

/// Whether `user` is among `likes`.
fn likes_contain(likes: &Vec<String>, user: &String) -> (found: bool)
    ensures
        found == text_views(likes@).contains(user@),
{
    let mut i: usize = 0;
    while i < likes.len()
        invariant
            i <= likes.len(),
            forall|j: int| 0 <= j < i ==> text_views(likes@)[j] != user@,
        decreases likes.len() - i,
    {
        if likes[i] == *user {
            assert(text_views(likes@)[i as int] == user@);
            return true;
        }
        i += 1;
    }
    false
}

/// Toggles the like of `user_id` on the top-level comment whose identifier is
/// `target_id`, and returns whether that removed the like.  Replies are not
/// searched.
pub fn toggle_comment_like(comments: &mut Vec<Comment>, target_id: &str, user_id: &str) -> (r: Result<
    bool,
    EngineError,
>)
    ensures
        match with_like_toggled(comment_views(old(comments)@), target_id@, user_id@) {
            Some((after, removed)) => r == Ok::<bool, EngineError>(removed) && comment_views(final(comments)@)
                == after,
            None => r == Err::<bool, EngineError>(EngineError::NotFound) && comment_views(final(comments)@)
                == comment_views(old(comments)@),
        },
{
    let target = target_id.to_owned();
    let user = user_id.to_owned();
    let at = find_comment(comments, &target);
    if at >= comments.len() {
        return Err(EngineError::NotFound);
    }
    let ghost before = comment_views(comments@);
    proof {
        lemma_comment_unfold(comments[at as int]);
    }
    let removed = likes_contain(&comments[at].likes, &user);
    if removed {
        let kept = likes_without(&comments[at].likes, &user);
        comments[at].likes = kept;
    } else {
        let ghost likes_before = text_views(comments[at as int].likes@);
        comments[at].likes.push(user);
        assert(text_views(comments[at as int].likes@) =~= likes_before.push(user_id@));
    }
    proof {
        lemma_comment_unfold(comments[at as int]);
        let outcome = with_like_toggled(before, target_id@, user_id@)->0;
        let after = outcome.0;
        assert(comments[at as int]@.replies == before[at as int].replies);
        assert(comment_views(comments@) =~= after);
    }
    Ok(removed)
}

/// Why a request to add a comment or a reply is refused before the document
/// is looked at: a malformed document identifier first, content of the wrong
/// length second.
pub open spec fn comment_refusal(document_id: Seq<char>, content: Seq<char>) -> Option<EngineError> {
    if !is_object_id(document_id) {
        Some(EngineError::InvalidIdentifier)
    } else if !valid_content(content) {
        Some(EngineError::ValidationError)
    } else {
        None
    }
}

/// Why a request to add a reply is refused: as for a comment, and then
/// where no top-level comment has the target identifier.
pub open spec fn reply_refusal(
    document_id: Seq<char>,
    content: Seq<char>,
    comments: Seq<CommentView>,
    target: Seq<char>,
) -> Option<EngineError> {
    match comment_refusal(document_id, content) {
        Some(e) => Some(e),
        None => if first_index(comment_ids(comments), target) < comments.len() {
            None
        } else {
            Some(EngineError::NotFound)
        },
    }
}

/// Why a request to reply is refused before the document is looked at: as
/// for a comment, and then where the request names no target comment.
pub open spec fn reply_request_refusal(
    document_id: Seq<char>,
    content: Seq<char>,
    target: Option<Seq<char>>,
) -> Option<EngineError> {
    match comment_refusal(document_id, content) {
        Some(e) => Some(e),
        None => if target is None {
            Some(EngineError::ValidationError)
        } else {
            None
        },
    }
}

/// Why a request to toggle a like is refused before the document is looked
/// at: a malformed document identifier first, a missing target comment or a
/// missing user second.
pub open spec fn like_request_refusal(
    document_id: Seq<char>,
    target: Option<Seq<char>>,
    user: Option<Seq<char>>,
) -> Option<EngineError> {
    if !is_object_id(document_id) {
        Some(EngineError::InvalidIdentifier)
    } else if target is None || user is None {
        Some(EngineError::ValidationError)
    } else {
        None
    }
}

/// Whether `id` is the identifier of `comment` or of a reply below it, at
/// any depth.
pub open spec fn occurs_in(comment: CommentView, id: Seq<char>) -> bool
    decreases comment,
{
    comment.id == id || exists|i: int|
        0 <= i < comment.replies.len() && occurs_in(#[trigger] comment.replies[i], id)
}

/// Whether `id` is the identifier of a comment of the document, replies
/// included.
pub open spec fn id_present(comments: Seq<CommentView>, id: Seq<char>) -> bool {
    exists|i: int| 0 <= i < comments.len() && occurs_in(#[trigger] comments[i], id)
}

/// Whether no identifier of `comment` or of a reply below it is longer than
/// `n` characters.
pub open spec fn ids_within(comment: CommentView, n: nat) -> bool
    decreases comment,
{
    comment.id.len() <= n && forall|i: int|
        0 <= i < comment.replies.len() ==> ids_within(#[trigger] comment.replies[i], n)
}

/// Whether no identifier of the document is longer than `n` characters.
pub open spec fn all_ids_within(comments: Seq<CommentView>, n: nat) -> bool {
    forall|i: int| 0 <= i < comments.len() ==> ids_within(#[trigger] comments[i], n)
}

/// An identifier longer than every identifier below a comment is none of
/// them.
pub proof fn lemma_longer_id_occurs_nowhere(comment: CommentView, n: nat, id: Seq<char>)
    requires
        ids_within(comment, n),
        id.len() > n,
    ensures
        !occurs_in(comment, id),
    decreases comment,
{
    assert forall|i: int| 0 <= i < comment.replies.len() implies !occurs_in(
        #[trigger] comment.replies[i],
        id,
    ) by {
        lemma_longer_id_occurs_nowhere(comment.replies[i], n, id);
    }
}

/// An identifier longer than every identifier of the document is new to it.
pub proof fn lemma_longer_id_is_new(comments: Seq<CommentView>, n: nat, id: Seq<char>)
    requires
        all_ids_within(comments, n),
        id.len() > n,
    ensures
        !id_present(comments, id),
{
    assert forall|i: int| 0 <= i < comments.len() implies !occurs_in(#[trigger] comments[i], id) by {
        lemma_longer_id_occurs_nowhere(comments[i], n, id);
    }
}

/// A bound only grows.
pub proof fn lemma_ids_within_more(comment: CommentView, n: nat, m: nat)
    requires
        ids_within(comment, n),
        n <= m,
    ensures
        ids_within(comment, m),
    decreases comment,
{
    assert forall|i: int| 0 <= i < comment.replies.len() implies ids_within(
        #[trigger] comment.replies[i],
        m,
    ) by {
        lemma_ids_within_more(comment.replies[i], n, m);
    }
}

/// Whether `id` is the identifier of a comment of `comments`, replies
/// included.
pub fn is_present(comments: &Vec<Comment>, id: &String) -> (r: bool)
    ensures
        r == id_present(comment_views(comments@), id@),
    decreases comments,
{
    let ghost views = comment_views(comments@);
    let mut i: usize = 0;
    while i < comments.len()
        invariant
            i <= comments.len(),
            views == comment_views(comments@),
            forall|j: int| 0 <= j < i ==> !occurs_in(#[trigger] views[j], id@),
        decreases comments.len() - i,
    {
        proof {
            vstd::std_specs::vec::axiom_vec_index_decreases(*comments, i as int);
            lemma_comment_unfold(comments[i as int]);
        }
        let below = is_present(&comments[i].replies, id);
        if comments[i].id == *id || below {
            assert(occurs_in(views[i as int], id@));
            return true;
        }
        assert(!occurs_in(views[i as int], id@));
        i += 1;
    }
    false
}

/// A number of characters that no identifier of `comments` exceeds, replies
/// included.
pub fn longest_id(comments: &Vec<Comment>) -> (n: usize)
    ensures
        all_ids_within(comment_views(comments@), n as nat),
    decreases comments,
{
    let ghost views = comment_views(comments@);
    let mut n: usize = 0;
    let mut i: usize = 0;
    while i < comments.len()
        invariant
            i <= comments.len(),
            views == comment_views(comments@),
            forall|j: int| 0 <= j < i ==> ids_within(#[trigger] views[j], n as nat),
        decreases comments.len() - i,
    {
        proof {
            vstd::std_specs::vec::axiom_vec_index_decreases(*comments, i as int);
            lemma_comment_unfold(comments[i as int]);
        }
        let own = comments[i].id.as_str().unicode_len();
        let below = longest_id(&comments[i].replies);
        let here = if own > below {
            own
        } else {
            below
        };
        let more = if here > n {
            here
        } else {
            n
        };
        proof {
            let replies = views[i as int].replies;
            assert forall|k: int| 0 <= k < replies.len() implies ids_within(#[trigger] replies[k], more as nat) by {
                lemma_ids_within_more(replies[k], below as nat, more as nat);
            }
            assert(ids_within(views[i as int], more as nat));
            assert forall|j: int| 0 <= j < i implies ids_within(#[trigger] views[j], more as nat) by {
                lemma_ids_within_more(views[j], n as nat, more as nat);
            }
        }
        n = more;
        i += 1;
    }
    n
}

/// An identifier for a new comment of the document: a newly drawn random
/// one, tested against every identifier present.  Should the drawn one be
/// taken, hyphens are added to it until it is longer than every identifier
/// present.
pub fn fresh_comment_id(comments: &Vec<Comment>) -> (id: String)
    ensures
        !id_present(comment_views(comments@), id@),
        id@.len() >= 36,
{
    let mut id = generate_random_id();
    if !is_present(comments, &id) {
        return id;
    }
    let n = longest_id(comments);
    let ghost drawn = id@;
    let mut added: usize = 0;
    while added < n
        invariant
            added <= n,
            id@.len() == drawn.len() + added,
            drawn.len() == 36,
        decreases n - added,
    {
        push_char(&mut id, '-');
        added += 1;
    }
    push_char(&mut id, '-');
    proof {
        lemma_longer_id_is_new(comment_views(comments@), n as nat, id@);
    }
    id
}

/// Checks a request to comment on the document `document_id`, before the
/// document is fetched.
pub fn check_comment_request(document_id: &str, content: &str) -> (r: Result<(), EngineError>)
    ensures
        match comment_refusal(document_id@, content@) {
            Some(e) => r == Err::<(), EngineError>(e),
            None => r is Ok,
        },
{
    match check_identifier(document_id) {
        Ok(_) => {},
        Err(e) => {
            return Err(e);
        },
    }
    validate_content(content)
}

/// Checks a request to reply to a comment of the document `document_id`,
/// the target comment being given or not, before the document is fetched.
/// Returns the target comment's identifier.
pub fn check_reply_request<'a>(document_id: &str, target_comment_id: Option<&'a str>, content: &str) -> (r:
    Result<&'a str, EngineError>)
    ensures
        match reply_request_refusal(document_id@, content@, optional_slice(target_comment_id)) {
            Some(e) => r == Err::<&str, EngineError>(e),
            None => r matches Ok(target) && Some(target@) == optional_slice(target_comment_id),
        },
{
    match check_comment_request(document_id, content) {
        Ok(_) => {},
        Err(e) => {
            return Err(e);
        },
    }
    required_field(target_comment_id)
}

/// Checks a request to toggle a like on a comment of the document
/// `document_id`, the target comment and the user being given or not,
/// before the document is fetched.  Returns the target comment's identifier
/// and the user's.
pub fn check_like_request<'a>(
    document_id: &str,
    target_comment_id: Option<&'a str>,
    user_id: Option<&'a str>,
) -> (r: Result<(&'a str, &'a str), EngineError>)
    ensures
        match like_request_refusal(document_id@, optional_slice(target_comment_id), optional_slice(user_id)) {
            Some(e) => r == Err::<(&str, &str), EngineError>(e),
            None => r matches Ok(pair) && Some(pair.0@) == optional_slice(target_comment_id) && Some(pair.1@)
                == optional_slice(user_id),
        },
{
    match check_identifier(document_id) {
        Ok(_) => {},
        Err(e) => {
            return Err(e);
        },
    }
    let target = match required_field(target_comment_id) {
        Ok(target) => target,
        Err(e) => {
            return Err(e);
        },
    };
    let user = match required_field(user_id) {
        Ok(user) => user,
        Err(e) => {
            return Err(e);
        },
    };
    Ok((target, user))
}

/// Adds a comment to the document `document_id`, given what the store
/// answered to the fetch of its comments.  Returns the comments after the
/// addition, to be written back, and the identifier of the new comment.
///
/// The request is refused, and there is nothing to write, where the document
/// identifier is malformed (`InvalidIdentifier`), the content is not 2 to
/// 400 characters long (`ValidationError`), the store failed
/// (`UpstreamFailure`) or holds no such document (`NotFound`), in this
/// order.  The new comment's identifier is none of those present.
pub fn add_comment(
    document_id: &str,
    outcome: Result<Option<Vec<Comment>>, String>,
    author_id: Option<String>,
    content: String,
) -> (r: Result<(Vec<Comment>, String), EngineError>)
    ensures
        match comment_refusal(document_id@, content@) {
            Some(e) => r == Err::<(Vec<Comment>, String), EngineError>(e),
            None => match outcome {
                Err(description) => r == Err::<(Vec<Comment>, String), EngineError>(
                    EngineError::UpstreamFailure(description),
                ),
                Ok(None) => r == Err::<(Vec<Comment>, String), EngineError>(EngineError::NotFound),
                Ok(Some(before)) => r matches Ok(pair) && !id_present(comment_views(before@), pair.1@)
                    && comment_views(pair.0@) == comment_views(before@).push(
                    new_comment(pair.1@, optional_text(author_id), content@),
                ),
            },
        },
{
    match check_comment_request(document_id, content.as_str()) {
        Ok(_) => {},
        Err(e) => {
            return Err(e);
        },
    }
    let mut comments = match fetched(outcome) {
        Ok(comments) => comments,
        Err(e) => {
            return Err(e);
        },
    };
    let id = fresh_comment_id(&comments);
    let comment = Comment::with_id(id.clone(), author_id, content);
    let ghost before = comment_views(comments@);
    let ghost added = comment@;
    comments.push(comment);
    assert(comment_views(comments@) =~= before.push(added));
    Ok((comments, id))
}

/// Adds a reply to the top-level comment `target_comment_id` of the document
/// `document_id`, given what the store answered to the fetch of its
/// comments.  Returns the comments after the addition, to be written back,
/// and the identifier of the reply.
///
/// The request is refused, and there is nothing to write, where the document
/// identifier is malformed (`InvalidIdentifier`), the content is not 2 to
/// 400 characters long or no target is named (`ValidationError`), the store
/// failed (`UpstreamFailure`) or holds no such document (`NotFound`), or no
/// top-level comment has the target identifier (`NotFound`), in this order.
/// The reply's identifier is none of those present.
pub fn add_reply(
    document_id: &str,
    outcome: Result<Option<Vec<Comment>>, String>,
    target_comment_id: Option<&str>,
    author_id: Option<String>,
    content: String,
) -> (r: Result<(Vec<Comment>, String), EngineError>)
    ensures
        match reply_request_refusal(document_id@, content@, optional_slice(target_comment_id)) {
            Some(e) => r == Err::<(Vec<Comment>, String), EngineError>(e),
            None => match outcome {
                Err(description) => r == Err::<(Vec<Comment>, String), EngineError>(
                    EngineError::UpstreamFailure(description),
                ),
                Ok(None) => r == Err::<(Vec<Comment>, String), EngineError>(EngineError::NotFound),
                Ok(Some(before)) => if first_index(
                    comment_ids(comment_views(before@)),
                    target_comment_id->0@,
                ) < before@.len() {
                    r matches Ok(pair) && !id_present(comment_views(before@), pair.1@) && Some(
                        comment_views(pair.0@),
                    ) == with_reply(
                        comment_views(before@),
                        target_comment_id->0@,
                        new_comment(pair.1@, optional_text(author_id), content@),
                    )
                } else {
                    r == Err::<(Vec<Comment>, String), EngineError>(EngineError::NotFound)
                },
            },
        },
{
    let target = match check_reply_request(document_id, target_comment_id, content.as_str()) {
        Ok(target) => target,
        Err(e) => {
            return Err(e);
        },
    };
    let mut comments = match fetched(outcome) {
        Ok(comments) => comments,
        Err(e) => {
            return Err(e);
        },
    };
    let id = fresh_comment_id(&comments);
    let reply = Comment::with_id(id.clone(), author_id, content);
    match attach_reply(&mut comments, target, reply) {
        Ok(_) => Ok((comments, id)),
        Err(e) => Err(e),
    }
}

/// Toggles the like of `user_id` on the top-level comment `target_comment_id`
/// of the document `document_id`, given what the store answered to the fetch
/// of its comments.  Returns the comments after the toggle, to be written
/// back, and whether the toggle removed the like.
///
/// The request is refused, and there is nothing to write, where the document
/// identifier is malformed (`InvalidIdentifier`), no target or no user is
/// named (`ValidationError`), the store failed (`UpstreamFailure`) or holds
/// no such document (`NotFound`), or no top-level comment has the target
/// identifier (`NotFound`), in this order.
pub fn toggle_like(
    document_id: &str,
    outcome: Result<Option<Vec<Comment>>, String>,
    target_comment_id: Option<&str>,
    user_id: Option<&str>,
) -> (r: Result<(Vec<Comment>, bool), EngineError>)
    ensures
        match like_request_refusal(document_id@, optional_slice(target_comment_id), optional_slice(user_id)) {
            Some(e) => r == Err::<(Vec<Comment>, bool), EngineError>(e),
            None => match outcome {
                Err(description) => r == Err::<(Vec<Comment>, bool), EngineError>(
                    EngineError::UpstreamFailure(description),
                ),
                Ok(None) => r == Err::<(Vec<Comment>, bool), EngineError>(EngineError::NotFound),
                Ok(Some(before)) => match with_like_toggled(
                    comment_views(before@),
                    target_comment_id->0@,
                    user_id->0@,
                ) {
                    Some((after, removed)) => r matches Ok(pair) && pair.1 == removed && comment_views(pair.0@)
                        == after,
                    None => r == Err::<(Vec<Comment>, bool), EngineError>(EngineError::NotFound),
                },
            },
        },
{
    let (target, user) = match check_like_request(document_id, target_comment_id, user_id) {
        Ok(pair) => pair,
        Err(e) => {
            return Err(e);
        },
    };
    let mut comments = match fetched(outcome) {
        Ok(comments) => comments,
        Err(e) => {
            return Err(e);
        },
    };
    match toggle_comment_like(&mut comments, target, user) {
        Ok(removed) => Ok((comments, removed)),
        Err(e) => Err(e),
    }
}

/// Removing a user from the likers removes that user and nobody else, and
/// does nothing where the user is not among them.
pub proof fn lemma_without(likes: Seq<Seq<char>>, user: Seq<char>)
    ensures
        !without(likes, user).contains(user),
        forall|other: Seq<char>| other != user ==> (without(likes, user).contains(other) <==> likes.contains(other)),
        !likes.contains(user) ==> without(likes, user) == likes,
        likes.no_duplicates() ==> without(likes, user).no_duplicates(),
    decreases likes.len(),
{
    if likes.len() == 0 {
        assert(without(likes, user) =~= likes);
    } else {
        let init = likes.drop_last();
        let last = likes.last();
        lemma_without(init, user);
        let out = without(likes, user);
        assert(likes =~= init.push(last));
        assert forall|other: Seq<char>| other != user implies (out.contains(other) <==> likes.contains(
            other,
        )) by {
            if likes.contains(other) {
                let k = choose|k: int| 0 <= k < likes.len() && likes[k] == other;
                if k < init.len() {
                    assert(init[k] == other);
                    assert(init.contains(other));
                    assert(without(init, user).contains(other));
                    let m = choose|m: int| 0 <= m < without(init, user).len() && without(init, user)[m] == other;
                    assert(out[m] == other);
                } else {
                    assert(last == other);
                    assert(out[out.len() - 1] == other);
                }
            }
            if out.contains(other) {
                let m = choose|m: int| 0 <= m < out.len() && out[m] == other;
                if m < without(init, user).len() {
                    assert(without(init, user)[m] == other);
                    assert(init.contains(other));
                    let k = choose|k: int| 0 <= k < init.len() && init[k] == other;
                    assert(likes[k] == other);
                } else {
                    assert(likes[likes.len() - 1] == other);
                }
            }
        }
        if out.contains(user) {
            let m = choose|m: int| 0 <= m < out.len() && out[m] == user;
            if m < without(init, user).len() {
                assert(without(init, user)[m] == user);
            }
        }
        if !likes.contains(user) {
            assert(last != user) by {
                assert(likes[likes.len() - 1] == last);
            }
            assert(!init.contains(user)) by {
                if init.contains(user) {
                    let k = choose|k: int| 0 <= k < init.len() && init[k] == user;
                    assert(likes[k] == user);
                }
            }
        }
        if likes.no_duplicates() {
            assert(init.no_duplicates());
            if last != user {
                assert(!init.contains(last)) by {
                    if init.contains(last) {
                        let k = choose|k: int| 0 <= k < init.len() && init[k] == last;
                        assert(likes[k] == likes[likes.len() - 1]);
                    }
                }
                assert(!without(init, user).contains(last));
                assert forall|a: int, b: int| 0 <= a < b < out.len() implies out[a] != out[b] by {
                    if b == out.len() - 1 {
                        assert(without(init, user)[a] == out[a]);
                    }
                }
            }
        }
    }
}

/// Toggling a like flips whether the user is among the likers, and keeps
/// the likers free of repetitions.
pub proof fn lemma_toggled(likes: Seq<Seq<char>>, user: Seq<char>)
    ensures
        toggled(likes, user).contains(user) == !likes.contains(user),
        forall|other: Seq<char>| other != user ==> (toggled(likes, user).contains(other) <==> likes.contains(other)),
        likes.no_duplicates() ==> toggled(likes, user).no_duplicates(),
{
    lemma_without(likes, user);
    if !likes.contains(user) {
        let out = likes.push(user);
        assert(out[likes.len() as int] == user);
        assert forall|other: Seq<char>| other != user implies (out.contains(other) <==> likes.contains(
            other,
        )) by {
            if likes.contains(other) {
                let k = choose|k: int| 0 <= k < likes.len() && likes[k] == other;
                assert(out[k] == other);
            }
            if out.contains(other) {
                let k = choose|k: int| 0 <= k < out.len() && out[k] == other;
                assert(likes[k] == other);
            }
        }
    }
}

/// Toggling twice is an involution on the set of likers: two toggles by the
/// same user, one after the other, leave the same users among the likers as
/// before.
pub proof fn lemma_toggled_twice(likes: Seq<Seq<char>>, user: Seq<char>)
    ensures
        toggled(toggled(likes, user), user).to_set() == likes.to_set(),
{
    lemma_toggled(likes, user);
    lemma_toggled(toggled(likes, user), user);
    let twice = toggled(toggled(likes, user), user);
    assert forall|x: Seq<char>| twice.to_set().contains(x) <==> likes.to_set().contains(x) by {
        assert(twice.to_set().contains(x) <==> twice.contains(x));
        assert(likes.to_set().contains(x) <==> likes.contains(x));
    }
    assert(twice.to_set() =~= likes.to_set());
}

/// Two like toggles by the same user on the same comment, one after the
/// other, both find the comment; the second reports the opposite of the
/// first, and afterwards the comments are as at the start, the target's
/// likers being the same set of users.
pub proof fn lemma_toggle_like_twice(comments: Seq<CommentView>, target: Seq<char>, user: Seq<char>)
    requires
        with_like_toggled(comments, target, user) is Some,
    ensures
        ({
            let first = with_like_toggled(comments, target, user)->0;
            let at = first_index(comment_ids(comments), target);
            &&& with_like_toggled(first.0, target, user) matches Some(second)
            &&& second.1 == !first.1
            &&& second.0[at].likes.to_set() == comments[at].likes.to_set()
            &&& second.0 == comments.update(at, CommentView { likes: second.0[at].likes, ..comments[at] })
        }),
{
    let ids = comment_ids(comments);
    let at = first_index(ids, target);
    lemma_first_index(ids, target);
    let first = with_like_toggled(comments, target, user)->0;
    assert(comment_ids(first.0) =~= ids);
    lemma_toggled(comments[at].likes, user);
    lemma_toggled_twice(comments[at].likes, user);
    let second = with_like_toggled(first.0, target, user)->0;
    assert(second.0 =~= comments.update(at, CommentView { likes: second.0[at].likes, ..comments[at] }));
}

/// A reply addressed to an identifier that only a reply has, and no
/// top-level comment, is refused: replies are not searched.
pub proof fn lemma_reply_to_nested_not_found(comments: Seq<CommentView>, target: Seq<char>, reply: CommentView)
    requires
        exists|i: int, j: int|
            0 <= i < comments.len() && 0 <= j < comments[i].replies.len() && (#[trigger] comments[i].replies[j]).id
                == target,
        forall|i: int| 0 <= i < comments.len() ==> (#[trigger] comments[i]).id != target,
    ensures
        with_reply(comments, target, reply) is None,
        forall|document_id: Seq<char>, content: Seq<char>|
            comment_refusal(document_id, content) is None ==> #[trigger] reply_refusal(
                document_id,
                content,
                comments,
                target,
            ) == Some(EngineError::NotFound),
{
    let ids = comment_ids(comments);
    assert forall|i: int| 0 <= i < ids.len() implies ids[i] != target by {
        assert(comments[i].id != target);
    }
    lemma_first_index_is(ids, target, ids.len() as int);
}

/// With a well-formed document identifier, a comment is accepted exactly
/// where its content is 2 to 400 characters long, and is refused with
/// `ValidationError` otherwise.
pub proof fn lemma_comment_accepted_by_length(document_id: Seq<char>, content: Seq<char>)
    requires
        is_object_id(document_id),
    ensures
        comment_refusal(document_id, content) is None <==> 2 <= content.len() <= 400,
        comment_refusal(document_id, content) is Some ==> comment_refusal(document_id, content) == Some(
            EngineError::ValidationError,
        ),
{
}

/// Whether a comment is as the engine makes comments: its content has an
/// accepted length, no user is among its likers twice, and its replies are
/// such comments too.
pub open spec fn well_formed(comment: CommentView) -> bool
    decreases comment,
{
    &&& valid_content(comment.content)
    &&& comment.likes.no_duplicates()
    &&& forall|i: int| 0 <= i < comment.replies.len() ==> well_formed(#[trigger] comment.replies[i])
}

/// Whether every comment of `comments` is well formed.
pub open spec fn all_well_formed(comments: Seq<CommentView>) -> bool {
    forall|i: int| 0 <= i < comments.len() ==> well_formed(#[trigger] comments[i])
}

/// A comment created with content of an accepted length is well formed.
pub proof fn lemma_new_comment_well_formed(id: Seq<char>, author: Option<Seq<char>>, content: Seq<char>)
    requires
        valid_content(content),
    ensures
        well_formed(new_comment(id, author, content)),
{
}

/// Appending a well-formed reply keeps well-formed comments well formed.
pub proof fn lemma_reply_keeps_well_formed(comments: Seq<CommentView>, target: Seq<char>, reply: CommentView)
    requires
        all_well_formed(comments),
        well_formed(reply),
        with_reply(comments, target, reply) is Some,
    ensures
        all_well_formed(with_reply(comments, target, reply)->0),
{
    let at = first_index(comment_ids(comments), target);
    lemma_first_index(comment_ids(comments), target);
    let after = with_reply(comments, target, reply)->0;
    assert forall|i: int| 0 <= i < after.len() implies well_formed(#[trigger] after[i]) by {
        assert(well_formed(comments[i]));
        if i == at {
            let replies = after[i].replies;
            assert forall|j: int| 0 <= j < replies.len() implies well_formed(#[trigger] replies[j]) by {
                if j < comments[i].replies.len() {
                    assert(replies[j] == comments[i].replies[j]);
                }
            }
        }
    }
}

/// Toggling a like keeps well-formed comments well formed.
pub proof fn lemma_toggle_keeps_well_formed(comments: Seq<CommentView>, target: Seq<char>, user: Seq<char>)
    requires
        all_well_formed(comments),
        with_like_toggled(comments, target, user) is Some,
    ensures
        ({
            let outcome = with_like_toggled(comments, target, user)->0;
            all_well_formed(outcome.0)
        }),
{
    let at = first_index(comment_ids(comments), target);
    lemma_first_index(comment_ids(comments), target);
    let outcome = with_like_toggled(comments, target, user)->0;
    let after = outcome.0;
    lemma_toggled(comments[at].likes, user);
    assert forall|i: int| 0 <= i < after.len() implies well_formed(#[trigger] after[i]) by {
        assert(well_formed(comments[i]));
        if i == at {
            assert(after[i].replies == comments[i].replies);
        }
    }
}

} // verus!
