use multipart::server::Multipart as Parser;
use openai_api_rust::mpart::fields::Mpart;
use openai_api_rust::mpart::prepared::PreparedFields;
use openai_api_rust::mpart::source::Cursor;
use std::io::Read;

/// What a parser finds in one field: name, file name, content type, data.
type Found = (String, Option<String>, Option<String>, Vec<u8>);

fn found(name: &str, filename: Option<&str>, content_type: Option<&str>, data: &[u8]) -> Found {
    (
        name.to_string(),
        filename.map(|f| f.to_string()),
        content_type.map(|c| c.to_string()),
        data.to_vec(),
    )
}

fn serve_all(body: &mut PreparedFields<Cursor>, chunk: usize) -> Vec<u8> {
    let mut out = Vec::new();
    let mut buf = vec![0u8; chunk];
    loop {
        let n = body.read(&mut buf).unwrap();
        out.extend_from_slice(&buf[..n]);
        if n < chunk {
            return out;
        }
    }
}

fn parse(bytes: Vec<u8>, boundary: &str) -> Vec<Found> {
    let mut parser = Parser::with_body(std::io::Cursor::new(bytes), boundary);
    let mut out = Vec::new();
    while let Some(mut field) = parser.read_entry().unwrap() {
        let mut data = Vec::new();
        field.data.read_to_end(&mut data).unwrap();
        out.push((
            field.headers.name.to_string(),
            field.headers.filename.clone(),
            field.headers.content_type.as_ref().map(|m| m.to_string()),
            data,
        ));
    }
    out
}

fn files(path: &str) -> Result<(Cursor, u64), String> {
    match path {
        "album/cover.jpg" => Ok((Cursor::new(vec![0xff, 0xd8, 0xff, 0xe0, 0, 16]), 6)),
        "readme.txt" => Ok((Cursor::new(b"read\r\nme\r\n".to_vec()), 10)),
        other => Err(other.to_string()),
    }
}

#[test]
fn a_parser_finds_the_text_fields_again() {
    let mut form: Mpart<Cursor> = Mpart::new();
    form.add_text("title", "Round trip").add_text("empty", "").add_text("lines", "one\r\ntwo\n");
    let mut body = form.prepare(files).unwrap();
    let boundary = body.boundary().to_string();
    let parsed = parse(serve_all(&mut body, 17), &boundary);
    assert_eq!(
        parsed,
        vec![
            found("title", None, None, b"Round trip"),
            found("empty", None, None, b""),
            found("lines", None, None, b"one\r\ntwo\n"),
        ]
    );
}

#[test]
fn a_parser_finds_files_and_streams_again() {
    let mut form: Mpart<Cursor> = Mpart::new();
    form.add_file("cover", "album/cover.jpg");
    form.add_text("artist", "Nobody");
    form.add_stream("raw", Cursor::new(vec![0, 1, 2, 253, 254, 255]), None, None);
    form.add_stream(
        "notes",
        Cursor::new(b"--not a boundary--\r\n".to_vec()),
        Some("notes.md"),
        Some("text/markdown"),
    );
    form.add_file("readme", "readme.txt");
    let mut body = form.prepare(files).unwrap();
    assert_eq!(body.content_length(), None);
    let boundary = body.boundary().to_string();
    let parsed = parse(serve_all(&mut body, 29), &boundary);
    assert_eq!(
        parsed,
        vec![
            found("artist", None, None, b"Nobody"),
            found("cover", Some("cover.jpg"), Some("image/jpeg"), &[0xff, 0xd8, 0xff, 0xe0, 0, 16]),
            found("raw", None, Some("application/octet-stream"), &[0, 1, 2, 253, 254, 255]),
            found("notes", Some("notes.md"), Some("text/markdown"), b"--not a boundary--\r\n"),
            found("readme", Some("readme.txt"), Some("text/plain"), b"read\r\nme\r\n"),
        ]
    );
}
