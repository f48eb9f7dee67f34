//! Uploaded images: which uploads are accepted, and under which key an
//! image is stored.

use vstd::prelude::*;
use vstd::string::StringExecFns;
use crate::ident::{generate_random_id, is_random_id};
use crate::text::{optional_slice, same_text};

verus! {

/// Why an upload is refused.
#[derive(Debug, Clone, Copy, PartialEq, Eq, Structural)]
pub enum UploadError {
    /// The request holds no file.
    NoFile,
    /// The file comes without a content type.
    NoContentType,
    /// The file is no image.
    NotAnImage,
}

impl UploadError {
    /// The number of the HTTP status under which the refusal is reported.
    pub open spec fn status(self) -> int {
        match self {
            UploadError::NoFile => 400,
            UploadError::NoContentType => 415,
            UploadError::NotAnImage => 415,
        }
    }

    /// The HTTP status under which the refusal is reported.
    pub fn status_code(&self) -> (code: u16)
        ensures
            code == self.status(),
    {
        match self {
            UploadError::NoFile => 400,
            UploadError::NoContentType => 415,
            UploadError::NotAnImage => 415,
        }
    }
}

/// Why an upload is refused, if it is: no file first, no content type
/// second, a content type other than `image` third.
pub open spec fn upload_refusal(file_present: bool, content_type: Option<Seq<char>>) -> Option<UploadError> {
    if !file_present {
        Some(UploadError::NoFile)
    } else {
        match content_type {
            None => Some(UploadError::NoContentType),
            Some(kind) => if kind == "image"@ {
                None
            } else {
                Some(UploadError::NotAnImage)
            },
        }
    }
}

/// Checks an upload: whether the request holds a file, and the top-level
/// type of the file's content type, such as `image` or `text`, where it has
/// one.
pub fn check_upload(file_present: bool, content_type: Option<&str>) -> (r: Result<(), UploadError>)
    ensures
        match upload_refusal(file_present, optional_slice(content_type)) {
            Some(e) => r == Err::<(), UploadError>(e),
            None => r is Ok,
        },
{
    if !file_present {
        return Err(UploadError::NoFile);
    }
    match content_type {
        None => Err(UploadError::NoContentType),
        Some(kind) => if same_text(kind, "image") {
            Ok(())
        } else {
            Err(UploadError::NotAnImage)
        },
    }
}

/// The key under which the image named `name` is stored.
pub open spec fn image_key_of(name: Seq<char>) -> Seq<char> {
    name + ".png"@
}

/// The key under which the avatar of the user `user_id` is stored.
pub open spec fn avatar_key_of(user_id: Seq<char>) -> Seq<char> {
    "avatar-"@ + user_id + ".png"@
}

/// The key under which the image named `name` is stored.
pub fn image_key(name: &str) -> (key: String)
    ensures
        key@ == image_key_of(name@),
{
    String::from_str(name).concat(".png")
}

/// The key under which a newly uploaded image is stored: a random name.
pub fn fresh_image_key() -> (key: String)
    ensures
        exists|name: Seq<char>| is_random_id(name) && key@ == image_key_of(name),
{
    let name = generate_random_id();
    image_key(name.as_str())
}

/// The key under which the avatar of the user `user_id` is stored.
pub fn avatar_key(user_id: &str) -> (key: String)
    ensures
        key@ == avatar_key_of(user_id@),
{
    String::from_str("avatar-").concat(user_id).concat(".png")
}

} // verus!
