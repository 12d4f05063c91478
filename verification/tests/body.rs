use openai_api_rust::mpart::error::LazyError;
use openai_api_rust::mpart::fields::Mpart;
use openai_api_rust::mpart::prepared::{PreparedField, PreparedFields};
use openai_api_rust::mpart::source::{ByteSource, Cursor, Reader};
use std::cell::RefCell;
use std::rc::Rc;

const TOKEN: &str = "0123456789abcdef";

fn no_files(_path: &str) -> Result<(Cursor, u64), String> {
    Err("no file system here".to_string())
}

/// A file system of two files, kept in memory.
fn two_files(path: &str) -> Result<(Cursor, u64), String> {
    match path {
        "pictures/cat.png" => Ok((Cursor::new(b"\x89PNGcat".to_vec()), 7)),
        "notes" => Ok((Cursor::new(b"remember".to_vec()), 8)),
        other => Err(format!("{}: not found", other)),
    }
}

fn drain<R: ByteSource>(body: &mut PreparedFields<R>, chunk: usize) -> Vec<u8>
where
    R::Error: std::fmt::Debug,
{
    let mut out = Vec::new();
    let mut buf = vec![0u8; chunk];
    loop {
        let n = body.read(&mut buf).unwrap();
        out.extend_from_slice(&buf[..n]);
        if n < chunk {
            break;
        }
    }
    assert_eq!(body.read(&mut buf).unwrap(), 0);
    out
}

fn text(bytes: Vec<u8>) -> String {
    String::from_utf8(bytes).unwrap()
}

/// A source that hands out a few bytes at a time, may fail at a given byte,
/// and tells a log what happens to it.
struct Traced {
    name: &'static str,
    data: Vec<u8>,
    pos: usize,
    step: usize,
    fail_at: Option<usize>,
    log: Rc<RefCell<Vec<String>>>,
}

impl Traced {
    fn new(name: &'static str, data: &[u8], step: usize, log: &Rc<RefCell<Vec<String>>>) -> Traced {
        Traced { name, data: data.to_vec(), pos: 0, step, fail_at: None, log: log.clone() }
    }
}

impl Traced {
    fn reader(self) -> Reader {
        Reader::new(self)
    }
}

impl std::io::Read for Traced {
    fn read(&mut self, buf: &mut [u8]) -> std::io::Result<usize> {
        if self.fail_at == Some(self.pos) {
            self.log.borrow_mut().push(format!("fail {}", self.name));
            return Err(std::io::Error::new(
                std::io::ErrorKind::Other,
                format!("{} broke", self.name),
            ));
        }
        let mut n = (self.data.len() - self.pos).min(buf.len()).min(self.step);
        if let Some(at) = self.fail_at {
            if at > self.pos {
                n = n.min(at - self.pos);
            }
        }
        buf[..n].copy_from_slice(&self.data[self.pos..self.pos + n]);
        self.pos += n;
        self.log.borrow_mut().push(format!("read {} {}", self.name, n));
        Ok(n)
    }
}

impl Drop for Traced {
    fn drop(&mut self) {
        self.log.borrow_mut().push(format!("drop {}", self.name));
    }
}

fn no_traced_files(_path: &str) -> Result<(Reader, u64), String> {
    Err("no file system here".to_string())
}

#[test]
fn text_only_body_is_written_out_exactly() {
    let mut form: Mpart<Cursor> = Mpart::new();
    form.add_text("a", "x").add_text("b", "y");
    let mut body = form.prepare_with_boundary(TOKEN.to_string(), no_files).unwrap();
    let expected = format!(
        "\r\n--{t}\r\nContent-Disposition: form-data; name=\"a\"\r\n\r\nx\r\n--{t}\r\nContent-Disposition: form-data; name=\"b\"\r\n\r\ny\r\n--{t}--",
        t = TOKEN
    );
    assert_eq!(body.boundary(), TOKEN);
    assert_eq!(body.content_length(), Some(expected.len() as u64));
    // Two fields of 67 bytes each and a closing delimiter of 22.
    assert_eq!(body.content_length(), Some(156));
    assert_eq!(text(drain(&mut body, 7)), expected);
}

#[test]
fn text_only_body_under_a_fresh_boundary() {
    let mut form: Mpart<Cursor> = Mpart::new();
    form.add_text("a", "x").add_text("b", "y");
    let mut body = form.prepare(no_files).unwrap();
    let token = body.boundary().to_string();
    let expected = format!(
        "\r\n--{t}\r\nContent-Disposition: form-data; name=\"a\"\r\n\r\nx\r\n--{t}\r\nContent-Disposition: form-data; name=\"b\"\r\n\r\ny\r\n--{t}--",
        t = token
    );
    assert_eq!(body.content_length(), Some(expected.len() as u64));
    assert_eq!(text(drain(&mut body, 64)), expected);
}

#[test]
fn empty_form_gives_empty_body() {
    let mut form: Mpart<Cursor> = Mpart::new();
    let mut body = form.prepare(no_files).unwrap();
    assert_eq!(body.boundary().len(), 16);
    assert!(body.boundary().chars().all(|c| c.is_ascii_alphanumeric()));
    assert_eq!(body.content_length(), Some(0));
    assert!(body.exhausted());
    let mut buf = [7u8; 32];
    assert_eq!(body.read(&mut buf).unwrap(), 0);
    assert_eq!(buf, [7u8; 32]);
}

#[test]
fn empty_form_under_a_given_boundary() {
    let mut form: Mpart<Cursor> = Mpart::new();
    let mut body = form.prepare_with_boundary(TOKEN.to_string(), no_files).unwrap();
    assert_eq!(body.boundary(), TOKEN);
    assert_eq!(body.content_length(), Some(0));
    assert_eq!(drain(&mut body, 5), Vec::<u8>::new());
}

#[test]
fn fresh_boundaries_are_sixteen_letters_and_digits() {
    let mut seen = Vec::new();
    for _ in 0..20 {
        let mut form: Mpart<Cursor> = Mpart::new();
        form.add_text("k", "v");
        let body = form.prepare(no_files).unwrap();
        let token = body.boundary().to_string();
        assert_eq!(token.len(), 16);
        assert!(token.chars().all(|c| c.is_ascii_alphanumeric()));
        seen.push(token);
    }
    seen.sort();
    seen.dedup();
    assert!(seen.len() > 1);
}

#[test]
fn length_is_unknown_with_a_stream_field() {
    let mut form: Mpart<Cursor> = Mpart::new();
    form.add_text("a", "x");
    form.add_stream("s", Cursor::new(b"abc".to_vec()), None, None);
    form.add_file("f", "notes");
    let body = form.prepare_with_boundary(TOKEN.to_string(), two_files).unwrap();
    assert_eq!(body.content_length(), None);
}

#[test]
fn length_is_unknown_with_only_a_stream_field() {
    let mut form: Mpart<Cursor> = Mpart::new();
    form.add_stream("s", Cursor::new(Vec::new()), Some("empty.bin"), Some("text/plain"));
    let body = form.prepare(no_files).unwrap();
    assert_eq!(body.content_length(), None);
}

#[test]
fn length_of_text_and_files_is_what_a_full_read_gives() {
    let mut form: Mpart<Cursor> = Mpart::new();
    form.add_file("picture", "pictures/cat.png");
    form.add_text("caption", "a cat");
    form.add_file("notes", "notes".to_string());
    let mut body = form.prepare_with_boundary(TOKEN.to_string(), two_files).unwrap();
    let expected = format!(
        "\r\n--{t}\r\nContent-Disposition: form-data; name=\"caption\"\r\n\r\na cat\
         \r\n--{t}\r\nContent-Disposition: form-data; name=\"picture\"; filename=\"cat.png\"\r\nContent-Type: image/png\r\n\r\n\u{0}PNGcat\
         \r\n--{t}\r\nContent-Disposition: form-data; name=\"notes\"; filename=\"notes\"\r\nContent-Type: application/octet-stream\r\n\r\nremember\
         \r\n--{t}--",
        t = TOKEN
    );
    let mut expected = expected.into_bytes();
    let at = expected.iter().position(|b| *b == 0).unwrap();
    expected[at] = 0x89;
    assert_eq!(body.content_length(), Some(expected.len() as u64));
    // 77 bytes of text, fields of 117 + 7 and 128 + 8 bytes, 22 to close.
    assert_eq!(body.content_length(), Some(359));
    let served = drain(&mut body, 13);
    assert_eq!(served.len() as u64, body.content_length().unwrap());
    assert_eq!(served, expected);
}

#[test]
fn a_read_into_nothing_changes_nothing() {
    let build = || {
        let mut form: Mpart<Cursor> = Mpart::new();
        form.add_text("a", "x");
        form.add_stream("s", Cursor::new(b"0123456789".to_vec()), Some("s.txt"), None);
        form.prepare_with_boundary(TOKEN.to_string(), no_files).unwrap()
    };
    let whole = drain(&mut build(), 1024);
    // At every place of the body: serve that many bytes, read into nothing,
    // then serve the rest.
    for served in 0..=whole.len() {
        let mut body = build();
        let mut head = vec![0u8; served];
        assert_eq!(body.read(&mut head).unwrap(), served);
        let mut none: [u8; 0] = [];
        assert_eq!(body.read(&mut none).unwrap(), 0);
        assert_eq!(body.read(&mut none).unwrap(), 0);
        let rest = drain(&mut body, 1024);
        assert_eq!(head, &whole[..served]);
        assert_eq!(rest, &whole[served..]);
        assert_eq!(body.read(&mut none).unwrap(), 0);
    }
}

#[test]
fn a_read_into_nothing_does_not_touch_the_sources() {
    let log = Rc::new(RefCell::new(Vec::new()));
    let mut form: Mpart<Reader> = Mpart::new();
    form.add_stream("s", Traced::new("s", b"abc", 8, &log).reader(), None, None);
    let mut body = form.prepare_with_boundary(TOKEN.to_string(), no_traced_files).unwrap();
    let mut none: [u8; 0] = [];
    assert_eq!(body.read(&mut none).unwrap(), 0);
    assert!(log.borrow().is_empty());
}

#[test]
fn a_missing_file_fails_under_the_name_of_its_field() {
    let mut form: Mpart<Cursor> = Mpart::new();
    form.add_text("a", "x");
    form.add_file("upload", "nowhere/at/all.txt");
    let err: LazyError<String> =
        form.prepare_with_boundary(TOKEN.to_string(), two_files).unwrap_err();
    assert_eq!(err.field_name, Some("upload".to_string()));
    assert_eq!(err.error, "nowhere/at/all.txt: not found");
    // The form was emptied all the same.
    let mut again = form.prepare_with_boundary(TOKEN.to_string(), two_files).unwrap();
    assert_eq!(drain(&mut again, 16), Vec::<u8>::new());
}

#[test]
fn the_first_missing_file_ends_the_preparation() {
    let asked = RefCell::new(Vec::new());
    let open = |path: &str| -> Result<(Cursor, u64), String> {
        asked.borrow_mut().push(path.to_string());
        two_files(path)
    };
    let mut form: Mpart<Cursor> = Mpart::new();
    form.add_file("one", "notes");
    form.add_file("two", "gone");
    form.add_file("three", "gone too");
    form.add_file("four", "pictures/cat.png");
    let err = form.prepare(open).unwrap_err();
    assert_eq!(err.field_name, Some("two".to_string()));
    assert_eq!(err.error, "gone: not found");
    assert_eq!(*asked.borrow(), vec!["notes".to_string(), "gone".to_string()]);
}

#[test]
fn files_are_opened_once_and_only_when_the_body_is_prepared() {
    let asked = RefCell::new(Vec::new());
    let open = |path: &str| -> Result<(Cursor, u64), String> {
        asked.borrow_mut().push(path.to_string());
        two_files(path)
    };
    let mut form: Mpart<Cursor> = Mpart::new();
    form.add_file("one", "notes").add_text("t", "v").add_file("two", "pictures/cat.png");
    assert!(asked.borrow().is_empty());
    let mut body = form.prepare(&open).unwrap();
    assert_eq!(*asked.borrow(), vec!["notes".to_string(), "pictures/cat.png".to_string()]);
    drain(&mut body, 10);
    assert_eq!(asked.borrow().len(), 2);
}

#[test]
fn a_source_is_let_go_before_the_next_field_is_served() {
    let log = Rc::new(RefCell::new(Vec::new()));
    let mut form: Mpart<Reader> = Mpart::new();
    form.add_stream("first", Traced::new("first", b"aaaa", 3, &log).reader(), None, None);
    form.add_stream("second", Traced::new("second", b"bb", 3, &log).reader(), None, None);
    let mut body = form.prepare_with_boundary(TOKEN.to_string(), no_traced_files).unwrap();
    let served = drain(&mut body, 5);
    let expected = format!(
        "\r\n--{t}\r\nContent-Disposition: form-data; name=\"first\"\r\nContent-Type: application/octet-stream\r\n\r\naaaa\
         \r\n--{t}\r\nContent-Disposition: form-data; name=\"second\"\r\nContent-Type: application/octet-stream\r\n\r\nbb\
         \r\n--{t}--",
        t = TOKEN
    );
    assert_eq!(text(served), expected);
    let log = log.borrow();
    let place = |what: &str| log.iter().position(|e| e == what).unwrap();
    assert!(place("drop first") < place("read second 2"));
    assert!(place("read first 0") < place("drop first"));
    assert!(place("drop second") > place("read second 0"));
    assert_eq!(log.iter().filter(|e| e.starts_with("drop")).count(), 2);
}

#[test]
fn a_drained_source_is_let_go_while_the_body_is_still_held() {
    let log = Rc::new(RefCell::new(Vec::new()));
    let mut form: Mpart<Reader> = Mpart::new();
    form.add_stream("only", Traced::new("only", b"zz", 8, &log).reader(), None, None);
    let mut body = form.prepare_with_boundary(TOKEN.to_string(), no_traced_files).unwrap();
    let header_len = 109;
    // Serve the field to its very end: the source is still held.
    let mut buf = vec![0u8; header_len + 2];
    assert_eq!(body.read(&mut buf).unwrap(), header_len + 2);
    assert_eq!(&buf[header_len..], b"zz");
    assert!(!log.borrow().iter().any(|e| e == "drop only"));
    // One byte more finds the source at its end and lets it go.
    let mut one = [0u8; 1];
    assert_eq!(body.read(&mut one).unwrap(), 1);
    assert_eq!(one, *b"\r");
    assert_eq!(log.borrow().last().unwrap(), "drop only");
    assert!(!body.exhausted());
}

#[test]
fn text_comes_first_and_streams_keep_their_order() {
    let mut form: Mpart<Cursor> = Mpart::new();
    form.add_stream("s1", Cursor::new(b"one".to_vec()), None, Some("text/plain"));
    form.add_text("t1", "alpha");
    form.add_stream("s2", Cursor::new(b"two".to_vec()), Some("two.txt"), Some("text/plain"));
    form.add_text("t2", "beta");
    form.add_stream("s3", Cursor::new(b"three".to_vec()), None, None);
    let mut body = form.prepare_with_boundary(TOKEN.to_string(), no_files).unwrap();
    let expected = format!(
        "\r\n--{t}\r\nContent-Disposition: form-data; name=\"t1\"\r\n\r\nalpha\
         \r\n--{t}\r\nContent-Disposition: form-data; name=\"t2\"\r\n\r\nbeta\
         \r\n--{t}\r\nContent-Disposition: form-data; name=\"s1\"\r\nContent-Type: text/plain\r\n\r\none\
         \r\n--{t}\r\nContent-Disposition: form-data; name=\"s2\"; filename=\"two.txt\"\r\nContent-Type: text/plain\r\n\r\ntwo\
         \r\n--{t}\r\nContent-Disposition: form-data; name=\"s3\"\r\nContent-Type: application/octet-stream\r\n\r\nthree\
         \r\n--{t}--",
        t = TOKEN
    );
    assert_eq!(text(drain(&mut body, 9)), expected);
}

#[test]
fn how_the_reads_are_cut_does_not_change_the_bytes() {
    let build = || {
        let mut form: Mpart<Cursor> = Mpart::new();
        form.add_text("a", "x");
        form.add_file("f", "pictures/cat.png");
        form.add_stream("s", Cursor::new(b"stream body".to_vec()), None, None);
        form.add_text("b", "y");
        form.prepare_with_boundary(TOKEN.to_string(), two_files).unwrap()
    };
    let whole = drain(&mut build(), 4096);
    for chunk in [1usize, 2, 3, 5, 8, 13, 64, whole.len(), whole.len() + 1] {
        assert_eq!(drain(&mut build(), chunk), whole);
    }
}

#[test]
fn a_read_fills_the_destination_across_fields() {
    let log = Rc::new(RefCell::new(Vec::new()));
    let mut form: Mpart<Reader> = Mpart::new();
    form.add_text("a", "x");
    form.add_stream("s", Traced::new("s", b"0123456789", 3, &log).reader(), None, None);
    let mut body = form.prepare_with_boundary(TOKEN.to_string(), no_traced_files).unwrap();
    let mut buf = vec![0u8; 4096];
    let n = body.read(&mut buf).unwrap();
    // One call serves the whole body, though the source gives three bytes at
    // a time.
    let expected = format!(
        "\r\n--{t}\r\nContent-Disposition: form-data; name=\"a\"\r\n\r\nx\
         \r\n--{t}\r\nContent-Disposition: form-data; name=\"s\"\r\nContent-Type: application/octet-stream\r\n\r\n0123456789\
         \r\n--{t}--",
        t = TOKEN
    );
    assert_eq!(text(buf[..n].to_vec()), expected);
    assert!(body.exhausted());
    assert!(buf[n..].iter().all(|b| *b == 0));
}

#[test]
fn a_failing_source_fails_the_read() {
    let log = Rc::new(RefCell::new(Vec::new()));
    let mut broken = Traced::new("s", b"0123456789", 4, &log);
    broken.fail_at = Some(6);
    let mut form: Mpart<Reader> = Mpart::new();
    form.add_stream("s", broken.reader(), None, None);
    let mut body = form.prepare_with_boundary(TOKEN.to_string(), no_traced_files).unwrap();
    let header_len = 106;
    let mut buf = vec![0u8; header_len + 6];
    assert_eq!(body.read(&mut buf).unwrap(), header_len + 6);
    assert_eq!(&buf[header_len..], b"012345");
    let mut more = [0u8; 8];
    assert_eq!(body.read(&mut more).unwrap_err().to_string(), "s broke");
    // The field is still held, and so is what follows it.
    assert!(!body.exhausted());
    assert!(!log.borrow().iter().any(|e| e == "drop s"));
    assert_eq!(body.read(&mut more).unwrap_err().to_string(), "s broke");
}

#[test]
fn bytes_served_before_a_failure_are_in_the_destination() {
    let log = Rc::new(RefCell::new(Vec::new()));
    let mut broken = Traced::new("s", b"0123456789", 4, &log);
    broken.fail_at = Some(2);
    let mut form: Mpart<Reader> = Mpart::new();
    form.add_text("a", "x");
    form.add_stream("s", broken.reader(), None, None);
    let mut body = form.prepare_with_boundary(TOKEN.to_string(), no_traced_files).unwrap();
    let mut buf = vec![0u8; 4096];
    assert_eq!(body.read(&mut buf).unwrap_err().to_string(), "s broke");
    let before = format!(
        "\r\n--{t}\r\nContent-Disposition: form-data; name=\"a\"\r\n\r\nx\
         \r\n--{t}\r\nContent-Disposition: form-data; name=\"s\"\r\nContent-Type: application/octet-stream\r\n\r\n01",
        t = TOKEN
    );
    assert_eq!(&buf[..before.len()], before.as_bytes());
}

#[test]
fn a_file_field_declares_the_last_component_and_the_guessed_type() {
    let open = |_path: &str| -> Result<(Cursor, u64), String> { Ok((Cursor::new(b"#".to_vec()), 1)) };
    let header_of = |path: &str| {
        let mut form: Mpart<Cursor> = Mpart::new();
        form.add_file("f", path);
        let mut body = form.prepare_with_boundary(TOKEN.to_string(), open).unwrap();
        text(drain(&mut body, 512))
    };
    let with = |rest: &str| {
        format!(
            "\r\n--{t}\r\nContent-Disposition: form-data; name=\"f\"{rest}\r\n\r\n#\r\n--{t}--",
            t = TOKEN,
            rest = rest
        )
    };
    assert_eq!(
        header_of("some/dir/photo.png"),
        with("; filename=\"photo.png\"\r\nContent-Type: image/png")
    );
    assert_eq!(
        header_of("report.PDF"),
        with("; filename=\"report.PDF\"\r\nContent-Type: application/pdf")
    );
    assert_eq!(
        header_of("data.unheard-of"),
        with("; filename=\"data.unheard-of\"\r\nContent-Type: application/octet-stream")
    );
    assert_eq!(
        header_of("some/dir/"),
        with("; filename=\"dir\"\r\nContent-Type: application/octet-stream")
    );
    assert_eq!(header_of("some/dir/.."), with("\r\nContent-Type: application/octet-stream"));
    assert_eq!(header_of(""), with("\r\nContent-Type: application/octet-stream"));
}

#[test]
fn names_and_values_are_not_examined() {
    let mut form: Mpart<Cursor> = Mpart::new();
    form.add_text("", "");
    form.add_text("quo\"te", "line\r\nbreak");
    form.add_text("ünï", "çødé ✓");
    let mut body = form.prepare_with_boundary(TOKEN.to_string(), no_files).unwrap();
    let expected = format!(
        "\r\n--{t}\r\nContent-Disposition: form-data; name=\"\"\r\n\r\n\
         \r\n--{t}\r\nContent-Disposition: form-data; name=\"quo\"te\"\r\n\r\nline\r\nbreak\
         \r\n--{t}\r\nContent-Disposition: form-data; name=\"ünï\"\r\n\r\nçødé ✓\
         \r\n--{t}--",
        t = TOKEN
    );
    assert_eq!(body.content_length(), Some(expected.len() as u64));
    assert_eq!(text(drain(&mut body, 11)), expected);
}

#[test]
fn a_read_at_the_end_leaves_the_destination_as_it_is() {
    let mut form: Mpart<Cursor> = Mpart::new();
    form.add_text("a", "x");
    form.add_stream("s", Cursor::new(b"abc".to_vec()), None, None);
    let mut body = form.prepare_with_boundary(TOKEN.to_string(), no_files).unwrap();
    drain(&mut body, 64);
    assert!(body.exhausted());
    let mut buf = [9u8; 8];
    assert_eq!(body.read(&mut buf).unwrap(), 0);
    assert_eq!(buf, [9u8; 8]);
    assert_eq!(body.read(&mut buf).unwrap(), 0);
    assert_eq!(buf, [9u8; 8]);
    assert!(body.exhausted());
}

#[test]
fn no_source_is_read_while_text_and_header_are_served() {
    let log = Rc::new(RefCell::new(Vec::new()));
    let mut broken = Traced::new("s", b"0123456789", 4, &log);
    broken.fail_at = Some(0);
    let mut form: Mpart<Reader> = Mpart::new();
    form.add_text("a", "x");
    form.add_stream("s", broken.reader(), None, None);
    let mut body = form.prepare_with_boundary(TOKEN.to_string(), no_traced_files).unwrap();
    // 67 bytes of text and a header of 106: reads that stay within them do
    // not fail and do not touch the source, which fails at its first byte.
    let mut buf = vec![0u8; 60];
    assert_eq!(body.read(&mut buf).unwrap(), 60);
    let mut buf = vec![0u8; 7 + 106];
    assert_eq!(body.read(&mut buf).unwrap(), 7 + 106);
    assert!(log.borrow().is_empty());
    let mut one = [0u8; 1];
    assert_eq!(body.read(&mut one).unwrap_err().to_string(), "s broke");
    assert_eq!(*log.borrow(), vec!["fail s".to_string()]);
}

#[test]
fn a_field_is_kept_or_let_go_by_what_its_source_gave() {
    let field = |name: &str, data: &[u8]| {
        PreparedField::from_stream(name, "T", "text/plain", None, Cursor::new(data.to_vec()))
    };
    let header = |name: &str| {
        format!(
            "\r\n--T\r\nContent-Disposition: form-data; name=\"{}\"\r\nContent-Type: text/plain\r\n\r\n",
            name
        )
    };
    let build = || {
        let mut form: Mpart<Cursor> = Mpart::new();
        form.add_stream("held", Cursor::new(b"1".to_vec()), None, Some("text/plain"));
        form.prepare_with_boundary("T".to_string(), no_files).unwrap()
    };
    // A source that gave nothing: the field is let go.
    let mut body = build();
    assert_eq!(body.settle(field("gone", b"data"), Ok(0)).unwrap(), 0);
    assert_eq!(text(drain(&mut body, 512)), header("held") + "1\r\n--T--");
    // A source that gave bytes: the field is kept, before the others.
    let mut body = build();
    assert_eq!(body.settle(field("kept", b"data"), Ok(3)).unwrap(), 3);
    assert_eq!(
        text(drain(&mut body, 512)),
        header("kept") + "data" + &header("held") + "1\r\n--T--"
    );
    // A source that failed: the field is kept, and the failure is handed on.
    let mut body: PreparedFields<Reader> = {
        let mut form: Mpart<Reader> = Mpart::new();
        form.add_text("a", "x");
        form.prepare_with_boundary("T".to_string(), no_traced_files).unwrap()
    };
    let kept = PreparedField::from_stream(
        "kept",
        "T",
        "text/plain",
        None,
        Reader::new(std::io::Cursor::new(b"data".to_vec())),
    );
    let failure = std::io::Error::new(std::io::ErrorKind::Other, "the very failure");
    let handed_on = body.settle(kept, Err(failure)).unwrap_err();
    assert_eq!(handed_on.to_string(), "the very failure");
    assert_eq!(handed_on.kind(), std::io::ErrorKind::Other);
    let mut buf = vec![0u8; 512];
    let n = body.read(&mut buf).unwrap();
    assert_eq!(
        text(buf[..n].to_vec()),
        "\r\n--T\r\nContent-Disposition: form-data; name=\"a\"\r\n\r\nx".to_string()
            + &header("kept")
            + "data\r\n--T--"
    );
}
