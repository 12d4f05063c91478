use vstd::prelude::*;

verus! {

/// The content type that `mime_guess` gives for a path, as text. It is looked
/// up from the path's extension in the table that the crate carries, and is
/// `application/octet-stream` for an extension that the table lacks. The path
/// is read by the rules of the platform that the library is built for.
pub uninterp spec fn guessed_content_type(path: Seq<char>) -> Seq<char>;

/// The last component of a path as `std::path::Path::file_name` gives it;
/// `None` where the path ends in `..` or has no component. The path is read by
/// the rules of the platform that the library is built for.
pub uninterp spec fn path_file_name(path: Seq<char>) -> Option<Seq<char>>;

/// Calls `mime_guess::from_path` and takes the first guess, or
/// `application/octet-stream` where there is none
/// (`MimeGuess::first_or_octet_stream`), and writes the media type out as
/// text. No file is touched. The contract names the result and says nothing
/// of what it is.
#[verifier::external_body]
fn guess_content_type(path: &str) -> (content_type: String)
    ensures
        content_type@ == guessed_content_type(path@),
{
    mime_guess::from_path(path).first_or_octet_stream().to_string()
}

/// Calls `std::path::Path::file_name` on `path` and hands the component back
/// as an owned string. The contract names the result and says nothing of what
/// it is.
#[verifier::external_body]
pub(crate) fn opt_filename(path: &str) -> (name: Option<String>)
    ensures
        match name {
            Some(n) => path_file_name(path@) == Some(n@),
            None => path_file_name(path@) is None,
        },
{
    std::path::Path::new(path).file_name().map(|f| f.to_string_lossy().into_owned())
}

/// The text of `mime::APPLICATION_OCTET_STREAM`, the media type of data of no
/// declared kind.
#[verifier::external_body]
pub(crate) fn octet_stream() -> (content_type: String)
    ensures
        content_type@ == "application/octet-stream"@,
{
    mime::APPLICATION_OCTET_STREAM.to_string()
}

/// The content type and the file name that a file field declares for the file
/// at `path`.
pub fn mime_filename(path: &str) -> (r: (String, Option<String>))
    ensures
        r.0@ == guessed_content_type(path@),
        match r.1 {
            Some(n) => path_file_name(path@) == Some(n@),
            None => path_file_name(path@) is None,
        },
{
    let content_type = guess_content_type(path);
    let filename = opt_filename(path);
    (content_type, filename)
}

} // verus!
