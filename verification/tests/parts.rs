use openai_api_rust::mpart::boundary::gen_boundary;
use openai_api_rust::mpart::error::LazyError;
use openai_api_rust::mpart::fields::IntoCowPath;
use openai_api_rust::mpart::path::mime_filename;
use openai_api_rust::mpart::prepared::PreparedField;
use openai_api_rust::mpart::source::{cursor_at_end, ByteSource, Cursor, Reader};
use openai_api_rust::mpart::wire::{write_delimiter, write_disposition, write_str, write_text_part};

#[test]
fn a_cursor_hands_out_its_bytes_once() {
    let mut cursor = Cursor::new(b"hello".to_vec());
    assert_eq!(cursor.position(), 0);
    assert!(!cursor_at_end(&cursor));
    let mut buf = [b'.'; 3];
    assert_eq!(cursor.fill(&mut buf), 3);
    assert_eq!(&buf, b"hel");
    assert_eq!(cursor.position(), 3);
    assert!(!cursor_at_end(&cursor));
    let mut buf = [b'.'; 3];
    assert_eq!(cursor.fill(&mut buf), 2);
    assert_eq!(&buf, b"lo.");
    assert_eq!(cursor.position(), 5);
    assert!(cursor_at_end(&cursor));
    assert_eq!(cursor.fill(&mut buf), 0);
    assert_eq!(&buf, b"lo.");
    assert_eq!(cursor.get_ref(), &b"hello".to_vec());
}

#[test]
fn a_cursor_is_a_source_that_does_not_fail() {
    let mut cursor = Cursor::new(vec![1, 2, 3]);
    let mut none: [u8; 0] = [];
    assert_eq!(cursor.read(&mut none).unwrap(), 0);
    let mut buf = [0u8; 8];
    assert_eq!(cursor.read(&mut buf).unwrap(), 3);
    assert_eq!(buf, [1, 2, 3, 0, 0, 0, 0, 0]);
    assert_eq!(cursor.read(&mut buf).unwrap(), 0);
    let empty = Cursor::new(Vec::new());
    assert!(cursor_at_end(&empty));
}

#[test]
fn a_reader_of_the_standard_library_is_a_source() {
    let mut source = Reader::new(std::io::Cursor::new(b"abcdef".to_vec()));
    let mut buf = [0u8; 4];
    assert_eq!(source.read(&mut buf).unwrap(), 4);
    assert_eq!(&buf, b"abcd");
    assert_eq!(source.read(&mut buf).unwrap(), 2);
    assert_eq!(&buf[..2], b"ef");
    assert_eq!(source.read(&mut buf).unwrap(), 0);
}

#[test]
fn the_pieces_of_the_wire_format() {
    let mut out = b"<".to_vec();
    write_str(&mut out, "é");
    assert_eq!(out, vec![b'<', 0xc3, 0xa9]);
    let mut out = Vec::new();
    write_delimiter(&mut out, "TOKEN");
    assert_eq!(out, b"\r\n--TOKEN");
    let mut out = Vec::new();
    write_disposition(&mut out, "field");
    assert_eq!(out, b"\r\nContent-Disposition: form-data; name=\"field\"");
    let mut out = b"before".to_vec();
    write_text_part(&mut out, "T", "n", "v");
    assert_eq!(out, b"before\r\n--T\r\nContent-Disposition: form-data; name=\"n\"\r\n\r\nv");
}

#[test]
fn a_streamed_field_serves_its_header_then_its_body() {
    let mut field = PreparedField::from_stream(
        "doc",
        "T",
        "text/plain",
        Some("doc.txt"),
        Cursor::new(b"body".to_vec()),
    );
    let header =
        b"\r\n--T\r\nContent-Disposition: form-data; name=\"doc\"; filename=\"doc.txt\"\r\nContent-Type: text/plain\r\n\r\n";
    assert_eq!(field.header_len(), header.len());
    // 5 for the delimiter, 44 for the disposition, 20 for the file name,
    // 30 for the content type and the blank line.
    assert_eq!(field.header_len(), 99);
    let mut buf = vec![0u8; 200];
    // One read never goes from the header into the body.
    assert_eq!(field.read(&mut buf).unwrap(), header.len());
    assert_eq!(&buf[..header.len()], &header[..]);
    assert_eq!(field.header_len(), 0);
    assert_eq!(field.read(&mut buf).unwrap(), 4);
    assert_eq!(&buf[..4], b"body");
    assert_eq!(field.read(&mut buf).unwrap(), 0);
}

#[test]
fn a_streamed_field_without_a_file_name() {
    let mut field =
        PreparedField::from_stream("x", "T", "a/b", None, Cursor::new(Vec::new()));
    let mut buf = vec![0u8; 7];
    let mut header = Vec::new();
    while field.header_len() > 0 {
        let n = field.read(&mut buf).unwrap();
        header.extend_from_slice(&buf[..n]);
    }
    assert_eq!(header, b"\r\n--T\r\nContent-Disposition: form-data; name=\"x\"\r\nContent-Type: a/b\r\n\r\n");
    assert_eq!(field.read(&mut buf).unwrap(), 0);
}

#[test]
fn a_file_field_is_made_by_opening_its_file() {
    let open = |path: &str| -> Result<(Cursor, u64), String> {
        if path == "here/sound.mp3" {
            Ok((Cursor::new(b"ID3".to_vec()), 3))
        } else {
            Err(format!("cannot open {}", path))
        }
    };
    let (mut field, len) =
        PreparedField::from_path("clip".to_string(), "here/sound.mp3", "T", &open).unwrap();
    // A header of 102 bytes and a file of 3.
    assert_eq!(field.header_len(), 102);
    assert_eq!(len, Some(105));
    let mut buf = vec![0u8; 200];
    let n = field.read(&mut buf).unwrap();
    assert_eq!(
        &buf[..n],
        &b"\r\n--T\r\nContent-Disposition: form-data; name=\"clip\"; filename=\"sound.mp3\"\r\nContent-Type: audio/mpeg\r\n\r\n"[..]
    );
    let n = field.read(&mut buf).unwrap();
    assert_eq!(&buf[..n], b"ID3");

    let err = PreparedField::<Cursor>::from_path("clip".to_string(), "gone.mp3", "T", &open)
        .unwrap_err();
    assert_eq!(err.field_name, Some("clip".to_string()));
    assert_eq!(err.error, "cannot open gone.mp3");
}

#[test]
fn a_file_too_long_to_count_has_no_length() {
    let open = |_path: &str| -> Result<(Cursor, u64), String> {
        Ok((Cursor::new(b"x".to_vec()), u64::MAX - 50))
    };
    let (field, len) =
        PreparedField::from_path("clip".to_string(), "here/sound.mp3", "T", &open).unwrap();
    assert_eq!(field.header_len(), 102);
    assert_eq!(len, None);
    let open = |_path: &str| -> Result<(Cursor, u64), String> {
        Ok((Cursor::new(b"x".to_vec()), u64::MAX - 102))
    };
    let (_, len) =
        PreparedField::from_path("clip".to_string(), "here/sound.mp3", "T", &open).unwrap();
    assert_eq!(len, Some(u64::MAX));
}

#[test]
fn the_type_and_the_name_that_a_path_suggests() {
    assert_eq!(mime_filename("a/b/c.json"), ("application/json".to_string(), Some("c.json".to_string())));
    assert_eq!(mime_filename("archive.tar.gz"), ("application/gzip".to_string(), Some("archive.tar.gz".to_string())));
    assert_eq!(mime_filename("Makefile"), ("application/octet-stream".to_string(), Some("Makefile".to_string())));
    assert_eq!(mime_filename("/"), ("application/octet-stream".to_string(), None));
    assert_eq!(mime_filename("x.txt/.."), ("application/octet-stream".to_string(), None));
}

#[test]
fn a_boundary_token_is_sixteen_letters_and_digits() {
    let token = gen_boundary();
    assert_eq!(token.len(), 16);
    assert_eq!(token.chars().count(), 16);
    assert!(token.chars().all(|c| c.is_ascii_alphanumeric()));
    let tokens: Vec<String> = (0..50).map(|_| gen_boundary()).collect();
    assert!(tokens.iter().any(|t| *t != token));
}

#[test]
fn a_form_is_empty_by_default() {
    let mut form: openai_api_rust::mpart::Mpart<Cursor> = Default::default();
    let open = |path: &str| -> Result<(Cursor, u64), String> { Err(path.to_string()) };
    let mut body = form.prepare(open).unwrap();
    assert_eq!(body.content_length(), Some(0));
    assert!(body.exhausted());
    let mut buf = [0u8; 4];
    assert_eq!(body.read(&mut buf).unwrap(), 0);
}

#[test]
fn a_path_may_be_a_string_or_a_slice() {
    assert_eq!("a/b.txt".into_cow_path(), "a/b.txt");
    assert_eq!("c/d.txt".to_string().into_cow_path(), "c/d.txt");
}

#[derive(Debug, PartialEq)]
struct Small(u8);

#[derive(Debug, PartialEq)]
struct Large(u32);

impl From<Small> for Large {
    fn from(small: Small) -> Large {
        Large(small.0 as u32 + 1000)
    }
}

impl std::fmt::Display for Large {
    fn fmt(&self, f: &mut std::fmt::Formatter<'_>) -> std::fmt::Result {
        f.write_str(&format!("large {}", self.0))
    }
}

#[test]
fn a_failure_with_and_without_a_field() {
    let err: LazyError<Large> = LazyError::without_field(Small(7));
    assert_eq!(err.field_name, None);
    assert_eq!(err.error, Large(1007));
    assert_eq!(err.to_string(), "large 1007");
    assert_eq!(err.describe(), "LazyError (misc): Large(1007)");
    assert_eq!(err.into_error(), Large(1007));

    let err: LazyError<Large> = LazyError::with_field("up\"load".to_string(), Large(3));
    assert_eq!(err.field_name, Some("up\"load".to_string()));
    assert_eq!(err.error, Large(3));
    assert_eq!(err.to_string(), "large 3");
    assert_eq!(err.describe(), "LazyError (on field \"up\\\"load\"): Large(3)");
}

#[test]
fn the_cause_of_a_failure_can_be_converted() {
    let err: LazyError<Small> = LazyError::with_field("f".to_string(), Small(1));
    let err: LazyError<Large> = err.transform_err();
    assert_eq!(err.field_name, Some("f".to_string()));
    assert_eq!(err.error, Large(1001));
    let err: LazyError<Small> = LazyError::without_field(Small(2));
    let err: LazyError<Large> = err.transform_err();
    assert_eq!(err.field_name, None);
    assert_eq!(err.error, Large(1002));
}
