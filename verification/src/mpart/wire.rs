use vstd::prelude::*;
use vstd::utf8::encode_utf8;

verus! {

/// The bytes that stand for `text` in a body: its UTF-8 encoding.
pub open spec fn bytes_of(text: Seq<char>) -> Seq<u8> {
    encode_utf8(text)
}

/// The line that opens a field: a line break, two dashes and the boundary
/// token.
pub open spec fn delimiter(token: Seq<char>) -> Seq<u8> {
    bytes_of("\r\n--"@) + bytes_of(token)
}

/// The line that closes a body: the delimiter followed by two more dashes.
pub open spec fn closing_delimiter(token: Seq<char>) -> Seq<u8> {
    delimiter(token) + bytes_of("--"@)
}

/// The disposition line of a field called `name`, without the line break that
/// ends it.
pub open spec fn disposition(name: Seq<char>) -> Seq<u8> {
    bytes_of("\r\nContent-Disposition: form-data; name=\""@) + bytes_of(name) + bytes_of("\""@)
}

/// The `filename` attribute of a disposition line; nothing where the field has
/// no file name.
pub open spec fn filename_attribute(filename: Option<Seq<char>>) -> Seq<u8> {
    match filename {
        Some(f) => bytes_of("; filename=\""@) + bytes_of(f) + bytes_of("\""@),
        None => Seq::empty(),
    }
}

/// A whole text field: delimiter, disposition line, blank line and the value
/// as it is. No line break follows the value: the next delimiter brings one.
pub open spec fn text_part(token: Seq<char>, name: Seq<char>, value: Seq<char>) -> Seq<u8> {
    delimiter(token) + disposition(name) + bytes_of("\r\n\r\n"@) + bytes_of(value)
}

/// What precedes the body of a streamed field: delimiter, disposition line
/// with the optional file name, content type line and blank line.
pub open spec fn stream_header(
    token: Seq<char>,
    name: Seq<char>,
    filename: Option<Seq<char>>,
    content_type: Seq<char>,
) -> Seq<u8> {
    delimiter(token) + disposition(name) + filename_attribute(filename) + bytes_of(
        "\r\nContent-Type: "@,
    ) + bytes_of(content_type) + bytes_of("\r\n\r\n"@)
}

/// Appends the bytes of `text` to `out`.
pub fn write_str(out: &mut Vec<u8>, text: &str)
    ensures
        final(out)@ == old(out)@ + bytes_of(text@),
{
    out.extend_from_slice(text.as_bytes());
}

/// Appends the delimiter line for `token` to `out`.
pub fn write_delimiter(out: &mut Vec<u8>, token: &str)
    ensures
        final(out)@ == old(out)@ + delimiter(token@),
{
    write_str(out, "\r\n--");
    write_str(out, token);
}

/// Appends the disposition line for `name` to `out`.
pub fn write_disposition(out: &mut Vec<u8>, name: &str)
    ensures
        final(out)@ == old(out)@ + disposition(name@),
{
    write_str(out, "\r\nContent-Disposition: form-data; name=\"");
    write_str(out, name);
    write_str(out, "\"");
}

/// Appends a whole text field to `out`.
pub fn write_text_part(out: &mut Vec<u8>, token: &str, name: &str, value: &str)
    ensures
        final(out)@ == old(out)@ + text_part(token@, name@, value@),
{
    write_delimiter(out, token);
    write_disposition(out, name);
    write_str(out, "\r\n\r\n");
    write_str(out, value);
}

} // verus!
