use super::boundary::{gen_boundary, is_boundary_token};
use super::error::LazyError;
use super::fields::{Data, Field, FieldView};
use super::laws::{law_file_field, law_stream_field, law_text_field};
use super::lemmas::{
    lemma_assemble_failure_stays, lemma_assemble_without_files, lemma_can_open_at,
    lemma_file_paths_prefix, lemma_follows_push, lemma_opened_next, lemma_opened_until_failure,
    lemma_serve_drop,
    lemma_serve_head, lemma_serve_nothing, lemma_serve_text, lemma_serve_trailer,
};
use super::model::{
    all_reliable, all_rows, assemble, file_header, file_paths, finish, follows, moved, moved_bytes,
    moved_to, opened_by, opened_in_order, prepared, stalled, Assembly, LazyErrorView, Move, Phase,
    PreparedView, StreamView,
};
use super::path::mime_filename;
use super::source::{cursor_at_end, ByteSource, Cursor};
use super::wire::{
    stream_header, text_part, write_delimiter, write_disposition, write_str, write_text_part,
};
use std::collections::VecDeque;
use vstd::prelude::*;

verus! {

/// A streamed field made ready: its header, written out, and the source of
/// its body. The header is served to its end before the body is touched.
#[derive(Debug)]
pub struct PreparedField<R> {
    header: Cursor,
    stream: R,
}

impl<R: ByteSource> View for PreparedField<R> {
    type V = StreamView;

    closed spec fn view(&self) -> StreamView {
        StreamView {
            header: self.header.unread(),
            body: self.stream.remaining(),
            row: self.stream.is_row(),
            reliable: self.stream.reliable(),
        }
    }
}

/// The text of an optional string.
pub open spec fn text_of(s: Option<&str>) -> Option<Seq<char>> {
    match s {
        Some(t) => Some(t@),
        None => None,
    }
}

/// The sum of two lengths, where it fits in 64 bits.
pub open spec fn sum_if_fits(a: nat, b: nat) -> Option<u64> {
    if a + b <= u64::MAX {
        Some((a + b) as u64)
    } else {
        None
    }
}

/// What making a file field ready gives, where opening its file gave
/// `outcome`: the field and the number of bytes that it adds to the body,
/// its header's and its file's, or the failure under the field's name.
pub open spec fn file_field<R: ByteSource, E>(
    token: Seq<char>,
    name: Seq<char>,
    path: Seq<char>,
    outcome: Result<(R, u64), E>,
) -> Result<(StreamView, Option<u64>), LazyErrorView<E>> {
    match outcome {
        Ok((source, len)) => Ok(
            (
                StreamView {
                    header: file_header(token, name, path),
                    body: source.remaining(),
                    row: source.is_row(),
                    reliable: source.reliable(),
                },
                sum_if_fits(len as nat, file_header(token, name, path).len()),
            ),
        ),
        Err(error) => Err(LazyErrorView { field: Some(name), error }),
    }
}

impl<R: ByteSource> PreparedField<R> {
    /// The source of the field's body.
    pub closed spec fn source(&self) -> R {
        self.stream
    }

    /// The field called `name` whose body comes from `stream`, under the
    /// boundary token `boundary`. Nothing is read from `stream`.
    pub fn from_stream(
        name: &str,
        boundary: &str,
        content_type: &str,
        filename: Option<&str>,
        stream: R,
    ) -> (field: Self)
        ensures
            field@ == (StreamView {
                header: stream_header(boundary@, name@, text_of(filename), content_type@),
                body: stream.remaining(),
                row: stream.is_row(),
                reliable: stream.reliable(),
            }),
            field.source() == stream,
    {
        let mut header: Vec<u8> = Vec::new();
        write_delimiter(&mut header, boundary);
        write_disposition(&mut header, name);
        if let Some(filename) = filename {
            write_str(&mut header, "; filename=\"");
            write_str(&mut header, filename);
            write_str(&mut header, "\"");
        }
        write_str(&mut header, "\r\nContent-Type: ");
        write_str(&mut header, content_type);
        write_str(&mut header, "\r\n\r\n");
        PreparedField { header: Cursor::new(header), stream }
    }

    /// The field called `name` that sends the file at `path`. The file is
    /// opened by `open`, which hands back a source and the file's length; the
    /// field declares the last component of `path` as its file name and the
    /// content type that the path's extension suggests. Beside the field
    /// comes the number of bytes that it adds to the body, the length of its
    /// header and the length of its file together; `None` where that does
    /// not fit in 64 bits. A failure to open comes back under the field's
    /// name.
    pub fn from_path<F, E>(name: String, path: &str, boundary: &str, open: &F) -> (r: Result<
        (Self, Option<u64>),
        LazyError<E>,
    >) where F: Fn(&str) -> Result<(R, u64), E>
        requires
            call_requires(*open, (path,)),
        ensures
            exists|outcome: Result<(R, u64), E>|
                {
                    &&& #[trigger] call_ensures(*open, (path,), outcome)
                    &&& file_field(boundary@, name@, path@, outcome) == match r {
                        Ok((field, len)) => Ok((field@, len)),
                        Err(e) => Err(e@),
                    }
                },
    {
        let (content_type, filename) = mime_filename(path);
        match open(path) {
            Ok((file, len)) => {
                let filename_text = match &filename {
                    Some(f) => Some(f.as_str()),
                    None => None,
                };
                let field = Self::from_stream(
                    name.as_str(),
                    boundary,
                    content_type.as_str(),
                    filename_text,
                    file,
                );
                let content_len = len.checked_add(field.header_len() as u64);
                Ok((field, content_len))
            },
            Err(error) => {
                Err(LazyError { field_name: Some(name), error })
            },
        }
    }

    /// How many bytes of the header are still to be served.
    pub fn header_len(&self) -> (n: usize)
        ensures
            n == self@.header.len(),
    {
        self.header.get_ref().len() - self.header.position()
    }
}

impl<R: ByteSource> ByteSource for PreparedField<R> {
    type Error = R::Error;

    open spec fn is_row(&self) -> bool {
        self@.row
    }

    open spec fn remaining(&self) -> Seq<u8> {
        self@.bytes()
    }

    open spec fn reliable(&self) -> bool {
        self@.reliable
    }

    /// Serves the header while any of it is left, and the body after that.
    /// One call never serves both. While header is left the read does not
    /// fail and does not touch the source: it gives as much of the header as
    /// `buf` has room for. After that it gives what the source gives.
    fn read(&mut self, buf: &mut [u8]) -> (r: Result<usize, Self::Error>)
        ensures
            old(self)@.header.len() > 0 ==> {
                &&& r matches Ok(n)
                &&& n as int == vstd::math::min(
                    old(self)@.header.len() as int,
                    old(buf)@.len() as int,
                )
                &&& final(buf)@.take(n as int) == old(self)@.header.take(n as int)
                &&& final(self)@ == old(self)@.trimmed(n as nat)
                &&& final(self).source() == old(self).source()
            },
            old(self)@.header.len() == 0 ==> {
                &&& final(self)@.header.len() == 0
                &&& old(self)@.row ==> match r {
                    Ok(n) => final(self)@ == old(self)@.trimmed(n as nat),
                    Err(_) => final(self)@ == old(self)@,
                }
            },
    {
        if !cursor_at_end(&self.header) {
            let n = self.header.fill(buf);
            proof {
                let header = old(self)@.header;
                assert(header.take(n as int) + old(buf)@.skip(n as int) == buf@);
                assert(buf@.take(n as int) == header.take(n as int));
                assert(old(self)@.bytes().take(n as int) == header.take(n as int));
                assert(self@.bytes() == old(self)@.bytes().skip(n as int));
            }
            Ok(n)
        } else {
            let r = self.stream.read(buf);
            proof {
                assert(old(self)@.bytes() == old(self)@.body);
                assert(self@.bytes() == self@.body);
                if old(self)@.row {
                    match r {
                        Ok(n) => {
                            assert(self@ == old(self)@.trimmed(n as nat));
                        },
                        Err(_) => {
                            assert(self@ == old(self)@);
                        },
                    }
                }
            }
            r
        }
    }
}

/// A whole body made ready: the text fields written out, the streamed fields
/// in the order in which they were added, and the closing delimiter. Reading
/// serves them in that order.
#[derive(Debug)]
pub struct PreparedFields<R> {
    text_data: Cursor,
    streams: VecDeque<PreparedField<R>>,
    end_boundary: Cursor,
    content_len: Option<u64>,
    boundary: String,
}

/// What each field of a row says.
pub open spec fn field_views<R>(fields: Seq<Field<R>>) -> Seq<FieldView<R>> {
    Seq::new(fields.len(), |i: int| fields[i]@)
}

/// What each streamed field of a row has left.
pub open spec fn stream_views<R: ByteSource>(streams: Seq<PreparedField<R>>) -> Seq<StreamView> {
    Seq::new(streams.len(), |i: int| streams[i]@)
}

impl<R: ByteSource> View for PreparedFields<R> {
    type V = PreparedView;

    closed spec fn view(&self) -> PreparedView {
        PreparedView {
            boundary: self.boundary@,
            text: self.text_data.unread(),
            streams: stream_views(self.streams@),
            trailer: self.end_boundary.unread(),
            content_len: self.content_len,
        }
    }
}

/// The sources of the fields of a row.
pub open spec fn stream_sources<R: ByteSource>(streams: Seq<PreparedField<R>>) -> Seq<R> {
    Seq::new(streams.len(), |i: int| streams[i].source())
}

/// What a preparation gave, apart from how it is stored.
pub open spec fn result_view<R: ByteSource, E>(
    r: Result<PreparedFields<R>, LazyError<E>>,
) -> Result<PreparedView, LazyErrorView<E>> {
    match r {
        Ok(p) => Ok(p@),
        Err(e) => Err(e@),
    }
}

/// Whether `open` may be called on the path of every file field of `fields`.
pub open spec fn can_open<F, R, E>(open: F, fields: Seq<FieldView<R>>) -> bool where
    F: Fn(&str) -> Result<(R, u64), E>,
 {
    forall|p: &str, k: int|
        0 <= k < file_paths(fields).len() && p@ == #[trigger] file_paths(fields)[k]
            ==> #[trigger] call_requires(open, (p,))
}

/// Whether `r` is what preparing `fields` under the boundary `token` gives
/// when the files are opened by `open`: the files of the file fields were
/// opened in the order of the fields, up to the first that failed, and `r` is
/// made of what that gave.
pub open spec fn prepared_with<F, R: ByteSource, E>(
    fields: Seq<FieldView<R>>,
    token: Seq<char>,
    open: F,
    r: Result<PreparedView, LazyErrorView<E>>,
) -> bool where F: Fn(&str) -> Result<(R, u64), E> {
    exists|outcomes: Seq<Result<(R, u64), E>>|
        opened_in_order(open, file_paths(fields), outcomes) && r == #[trigger] prepared(
            fields,
            token,
            outcomes,
        )
}

/// The parts of a body while its fields are gone through.
struct Gathered<R> {
    text_data: Vec<u8>,
    streams: VecDeque<PreparedField<R>>,
    known: Option<u64>,
    use_len: bool,
}

impl<R: ByteSource> Gathered<R> {
    /// Whether the parts are those of `a`. The sum of the known lengths is
    /// kept as long as it fits in 64 bits.
    spec fn holds(&self, a: Assembly) -> bool {
        &&& a.text =~= self.text_data@
        &&& a.streams =~= stream_views(self.streams@)
        &&& a.sized == self.use_len
        &&& match self.known {
            Some(n) => n == a.measured,
            None => a.measured > u64::MAX,
        }
    }

    /// No parts yet.
    fn new() -> (g: Self)
        ensures
            g.holds(Assembly { text: Seq::empty(), streams: Seq::empty(), measured: 0, sized: true }),
    {
        Gathered { text_data: Vec::new(), streams: VecDeque::new(), known: Some(0), use_len: true }
    }

    /// Writes a text field out behind the text gathered so far.
    fn add_text(&mut self, token: &str, name: &str, text: &str, Ghost(a): Ghost<Assembly>)
        requires
            old(self).holds(a),
        ensures
            final(self).holds(Assembly { text: a.text + text_part(token@, name@, text@), ..a }),
    {
        write_text_part(&mut self.text_data, token, name, text);
    }

    /// Takes a file field whose file has `len` bytes, and counts what it
    /// adds to the body, `content_len`, into the known length.
    fn add_file(
        &mut self,
        stream: PreparedField<R>,
        content_len: Option<u64>,
        Ghost(a): Ghost<Assembly>,
        Ghost(len): Ghost<u64>,
    )
        requires
            old(self).holds(a),
            content_len == sum_if_fits(len as nat, stream@.header.len()),
        ensures
            final(self).holds(
                Assembly {
                    streams: a.streams.push(stream@),
                    measured: (a.measured + stream@.header.len() + len) as nat,
                    ..a
                },
            ),
    {
        self.known =
        match (self.known, content_len) {
            (Some(n), Some(more)) => n.checked_add(more),
            _ => None,
        };
        self.streams.push_back(stream);
    }

    /// Takes a stream field; from now on the length of the body is unknown.
    fn add_stream(&mut self, stream: PreparedField<R>, Ghost(a): Ghost<Assembly>)
        requires
            old(self).holds(a),
        ensures
            final(self).holds(Assembly { streams: a.streams.push(stream@), sized: false, ..a }),
    {
        self.use_len = false;
        self.streams.push_back(stream);
    }

    /// Closes the body: writes the closing delimiter unless there is no
    /// field, and sums up the length where it is known.
    fn finish(self, boundary: String, Ghost(a): Ghost<Assembly>) -> (body: PreparedFields<R>)
        requires
            self.holds(a),
        ensures
            body@ == finish(a, boundary@),
    {
        let mut end_boundary: Vec<u8> = Vec::new();
        if !(self.text_data.is_empty() && self.streams.len() == 0) {
            write_delimiter(&mut end_boundary, boundary.as_str());
            write_str(&mut end_boundary, "--");
        }
        let content_len = if self.use_len {
            match self.known {
                Some(n) => match n.checked_add(self.text_data.len() as u64) {
                    Some(m) => m.checked_add(end_boundary.len() as u64),
                    None => None,
                },
                None => None,
            }
        } else {
            None
        };
        PreparedFields {
            text_data: Cursor::new(self.text_data),
            streams: self.streams,
            end_boundary: Cursor::new(end_boundary),
            content_len,
            boundary,
        }
    }
}

impl<R: ByteSource> PreparedFields<R> {
    /// The sources of the streamed fields that are held, the one of the
    /// field being served first.
    pub closed spec fn sources(&self) -> Seq<R> {
        stream_sources(self.streams@)
    }

    /// Makes the fields of `fields` ready under the boundary token `boundary`
    /// and empties `fields`. Text fields are written out into one buffer.
    /// The file of each file field is opened by `open`, in the order of the
    /// fields; the first failure ends the preparation and is returned under
    /// the name of its field, and nothing of the body is handed out.
    pub fn with_boundary<F, E>(fields: &mut Vec<Field<R>>, boundary: String, open: &F) -> (r:
        Result<Self, LazyError<E>>) where F: Fn(&str) -> Result<(R, u64), E>
        requires
            can_open(*open, field_views(old(fields)@)),
        ensures
            final(fields)@.len() == 0,
            prepared_with(field_views(old(fields)@), boundary@, *open, result_view(r)),
            file_paths(field_views(old(fields)@)).len() == 0 ==> result_view(r) == prepared(
                field_views(old(fields)@),
                boundary@,
                Seq::<Result<(R, u64), E>>::empty(),
            ) && r is Ok,
    {
        let mut taken: Vec<Field<R>> = Vec::new();
        std::mem::swap(fields, &mut taken);
        let ghost all = field_views(taken@);
        let ghost mut outcomes: Seq<Result<(R, u64), E>> = Seq::empty();
        let ghost mut a = Assembly {
            text: Seq::empty(),
            streams: Seq::empty(),
            measured: 0,
            sized: true,
        };
        let mut parts: Gathered<R> = Gathered::new();
        proof {
            assert(all.take(0) == Seq::<FieldView<R>>::empty());
        }
        for field in it: taken
            invariant
                fields@.len() == 0,
                all == field_views(taken@),
                all == field_views(old(fields)@),
                can_open(*open, all),
                opened_in_order(*open, file_paths(all.take(it.index())), outcomes),
                outcomes.len() == file_paths(all.take(it.index())).len(),
                forall|k: int| 0 <= k < outcomes.len() ==> (#[trigger] outcomes[k]) is Ok,
                assemble(all.take(it.index()), boundary@, outcomes) == Ok::<
                    Assembly,
                    LazyErrorView<E>,
                >(a),
                parts.holds(a),
        {
            let ghost i = it.index();
            let ghost before = all.take(i);
            proof {
                assert(all.take(i + 1) == before.push(field@));
            }
            match field.data {
                Data::Text(text) => {
                    parts.add_text(boundary.as_str(), field.name.as_str(), text.as_str(), Ghost(a));
                    proof {
                        law_text_field(before, boundary@, field.name@, text@, outcomes, a);
                        a = Assembly {
                            text: a.text + text_part(boundary@, field.name@, text@),
                            ..a
                        };
                    }
                },
                Data::File(path) => {
                    let ghost name = field.name@;
                    let path_text = path.as_str();
                    proof {
                        lemma_can_open_at(*open, all, i, path_text);
                    }
                    let made = PreparedField::from_path(
                        field.name,
                        path_text,
                        boundary.as_str(),
                        open,
                    );
                    let ghost outcome = choose|outcome: Result<(R, u64), E>|
                        {
                            &&& #[trigger] call_ensures(*open, (path_text,), outcome)
                            &&& file_field(boundary@, name, path@, outcome) == match made {
                                Ok((field, len)) => Ok((field@, len)),
                                Err(e) => Err(e@),
                            }
                        };
                    proof {
                        assert(opened_by(*open, path@, outcome));
                        law_file_field(before, boundary@, name, path@, outcomes, outcome, a);
                        lemma_opened_next(
                            *open,
                            file_paths(before),
                            outcomes,
                            path@,
                            outcome,
                        );
                        outcomes = outcomes.push(outcome);
                    }
                    match made {
                        Ok((stream, content_len)) => {
                            let ghost len = outcome->Ok_0.1;
                            parts.add_file(stream, content_len, Ghost(a), Ghost(len));
                            proof {
                                a = Assembly {
                                    streams: a.streams.push(stream@),
                                    measured: (a.measured + stream@.header.len() + len) as nat,
                                    ..a
                                };
                            }
                        },
                        Err(e) => {
                            proof {
                                lemma_file_paths_prefix(all, i + 1);
                                lemma_assemble_failure_stays(all, i + 1, boundary@, outcomes);
                                lemma_opened_until_failure(*open, all, i + 1, outcomes);
                                assert(prepared(all, boundary@, outcomes) == Err::<
                                    PreparedView,
                                    LazyErrorView<E>,
                                >(e@));
                            }
                            return Err(e);
                        },
                    }
                },
                Data::Stream(s) => {
                    let filename = match &s.filename {
                        Some(f) => Some(f.as_str()),
                        None => None,
                    };
                    proof {
                        law_stream_field(
                            before,
                            boundary@,
                            field.name@,
                            text_of(filename),
                            s.content_type@,
                            s.stream,
                            outcomes,
                            a,
                        );
                    }
                    let stream = PreparedField::from_stream(
                        field.name.as_str(),
                        boundary.as_str(),
                        s.content_type.as_str(),
                        filename,
                        s.stream,
                    );
                    parts.add_stream(stream, Ghost(a));
                    proof {
                        a = Assembly { streams: a.streams.push(stream@), sized: false, ..a };
                    }
                },
            }
        }
        proof {
            assert(all.take(all.len() as int) == all);
        }
        let ghost token = boundary@;
        let body = parts.finish(boundary, Ghost(a));
        proof {
            assert(prepared(all, token, outcomes) == Ok::<PreparedView, LazyErrorView<E>>(body@));
            if file_paths(all).len() == 0 {
                lemma_assemble_without_files(all, token, outcomes);
            }
        }
        Ok(body)
    }

    /// Makes the fields of `fields` ready under a fresh boundary token, as
    /// `with_boundary` does under a given one.
    pub fn from_fields<F, E>(fields: &mut Vec<Field<R>>, open: &F) -> (r: Result<
        Self,
        LazyError<E>,
    >) where F: Fn(&str) -> Result<(R, u64), E>
        requires
            can_open(*open, field_views(old(fields)@)),
        ensures
            final(fields)@.len() == 0,
            exists|token: Seq<char>|
                is_boundary_token(token) && #[trigger] prepared_with(
                    field_views(old(fields)@),
                    token,
                    *open,
                    result_view(r),
                ),
            r matches Ok(body) ==> is_boundary_token(body@.boundary),
            file_paths(field_views(old(fields)@)).len() == 0 ==> (r matches Ok(body)
                && result_view(r) == prepared(
                field_views(old(fields)@),
                body@.boundary,
                Seq::<Result<(R, u64), E>>::empty(),
            )),
    {
        let boundary = gen_boundary();
        let ghost token = boundary@;
        let r = Self::with_boundary(fields, boundary, open);
        proof {
            assert(prepared_with(field_views(old(fields)@), token, *open, result_view(r)));
        }
        r
    }

    /// The boundary token of this body, without the dashes that surround it
    /// on the wire. It is there for a body without fields too.
    pub fn boundary(&self) -> (token: &str)
        ensures
            token@ == self@.boundary,
    {
        self.boundary.as_str()
    }

    /// The length of the whole body in bytes as it was known when the body
    /// was prepared; `None` where a field's length was not known then.
    pub fn content_length(&self) -> (len: Option<u64>)
        ensures
            len == self@.content_len,
    {
        self.content_len
    }

    /// Whether every byte of the body has been served and no field is held.
    pub fn exhausted(&self) -> (done: bool)
        ensures
            done == (self@.phase() == Phase::Done),
    {
        cursor_at_end(&self.text_data) && self.streams.len() == 0 && cursor_at_end(
            &self.end_boundary,
        )
    }

    /// What follows a read of the source of a streamed field: a field whose
    /// source gave nothing is let go, and its source with it; a field whose
    /// source gave bytes or failed is kept as the first of the fields held.
    /// The result of the read is handed on as it is.
    pub fn settle(&mut self, field: PreparedField<R>, given: Result<usize, R::Error>) -> (r: Result<
        usize,
        R::Error,
    >)
        ensures
            r == given,
            final(self)@ == (PreparedView {
                streams: if given == Ok::<usize, R::Error>(0) {
                    old(self)@.streams
                } else {
                    seq![field@] + old(self)@.streams
                },
                ..old(self)@
            }),
            final(self).sources() == if given == Ok::<usize, R::Error>(0) {
                old(self).sources()
            } else {
                seq![field.source()] + old(self).sources()
            },
    {
        match given {
            Ok(n) => {
                if n != 0 {
                    self.streams.push_front(field);
                }
                proof {
                    assert(self@.streams =~= if n == 0 {
                        old(self)@.streams
                    } else {
                        seq![field@] + old(self)@.streams
                    });
                    assert(self.sources() =~= if n == 0 {
                        old(self).sources()
                    } else {
                        seq![field.source()] + old(self).sources()
                    });
                }
                Ok(n)
            },
            Err(e) => {
                self.streams.push_front(field);
                proof {
                    assert(self@.streams =~= seq![field@] + old(self)@.streams);
                    assert(self.sources() =~= seq![field.source()] + old(self).sources());
                }
                Err(e)
            },
        }
    }

    /// One step of a read into `space`: serves from text, from the first
    /// streamed field or from the closing delimiter, whichever is next, or
    /// lets go of a first streamed field whose source gave nothing.
    fn step(&mut self, space: &mut [u8]) -> (r: Result<usize, R::Error>)
        requires
            old(space)@.len() > 0,
            old(self)@.phase() != Phase::Done,
        ensures
            final(space)@.len() == old(space)@.len(),
            final(self)@.boundary == old(self)@.boundary,
            final(self)@.content_len == old(self)@.content_len,
            old(self)@.safe_len() > 0 ==> (r matches Ok(n) && final(self)@.safe_len() + n
                == old(self)@.safe_len() && final(self).sources() == old(self).sources()),
            match r {
                Ok(n) => {
                    &&& n <= old(space)@.len()
                    &&& moved(old(self)@, final(self)@, final(space)@.take(n as int))
                    &&& n > 0 || final(self)@.streams.len() < old(self)@.streams.len()
                    &&& final(self)@.streams.len() <= old(self)@.streams.len()
                    &&& all_reliable(old(self)@.streams) ==> all_reliable(final(self)@.streams)
                    &&& all_rows(old(self)@.streams) ==> all_rows(final(self)@.streams)
                },
                Err(_) => stalled(old(self)@, final(self)@),
            },
            all_rows(old(self)@.streams) ==> match r {
                Ok(n) => {
                    &&& n <= old(self)@.rest().len()
                    &&& final(space)@.take(n as int) == old(self)@.rest().take(n as int)
                    &&& final(self)@.rest() == old(self)@.rest().skip(n as int)
                    &&& old(self)@.serve(old(space)@.len()) == final(self)@.serve(
                        (old(space)@.len() - n) as nat,
                    )
                },
                Err(_) => final(self)@ == old(self)@,
            },
    {
        proof {
            reveal(moved);
        }
        if !cursor_at_end(&self.text_data) {
            Ok(self.step_text(space))
        } else if self.streams.len() > 0 {
            self.step_head(space)
        } else {
            Ok(self.step_trailer(space))
        }
    }

    /// Serves from the text.
    fn step_text(&mut self, space: &mut [u8]) -> (n: usize)
        requires
            old(space)@.len() > 0,
            old(self)@.text.len() > 0,
        ensures
            final(space)@.len() == old(space)@.len(),
            final(self)@ == (PreparedView {
                text: old(self)@.text.skip(n as int),
                ..old(self)@
            }),
            final(self).sources() == old(self).sources(),
            0 < n <= old(space)@.len(),
            moved(old(self)@, final(self)@, final(space)@.take(n as int)),
            n <= old(self)@.rest().len(),
            final(space)@.take(n as int) == old(self)@.rest().take(n as int),
            final(self)@.rest() == old(self)@.rest().skip(n as int),
            old(self)@.serve(old(space)@.len()) == final(self)@.serve(
                (old(space)@.len() - n) as nat,
            ),
    {
        let n = self.text_data.fill(space);
        proof {
            reveal(moved);
            lemma_serve_text(old(self)@, old(space)@.len(), n as nat);
            assert(self@ == (PreparedView {
                text: old(self)@.text.skip(n as int),
                ..old(self)@
            }));
            assert(space@.take(n as int) == old(self)@.text.take(n as int));
        }
        n
    }

    /// Serves from the closing delimiter.
    fn step_trailer(&mut self, space: &mut [u8]) -> (n: usize)
        requires
            old(space)@.len() > 0,
            old(self)@.text.len() == 0,
            old(self)@.streams.len() == 0,
            old(self)@.trailer.len() > 0,
        ensures
            final(space)@.len() == old(space)@.len(),
            final(self)@ == (PreparedView {
                trailer: old(self)@.trailer.skip(n as int),
                ..old(self)@
            }),
            final(self).sources() == old(self).sources(),
            0 < n <= old(space)@.len(),
            moved(old(self)@, final(self)@, final(space)@.take(n as int)),
            n <= old(self)@.rest().len(),
            final(space)@.take(n as int) == old(self)@.rest().take(n as int),
            final(self)@.rest() == old(self)@.rest().skip(n as int),
            old(self)@.serve(old(space)@.len()) == final(self)@.serve(
                (old(space)@.len() - n) as nat,
            ),
    {
        let n = self.end_boundary.fill(space);
        proof {
            reveal(moved);
            lemma_serve_trailer(old(self)@, old(space)@.len(), n as nat);
            assert(self@ == (PreparedView {
                trailer: old(self)@.trailer.skip(n as int),
                ..old(self)@
            }));
            assert(space@.take(n as int) == old(self)@.trailer.take(n as int));
        }
        n
    }

    /// Serves from the first streamed field, or lets go of it where its
    /// source gave nothing.
    fn step_head(&mut self, space: &mut [u8]) -> (r: Result<usize, R::Error>)
        requires
            old(space)@.len() > 0,
            old(self)@.text.len() == 0,
            old(self)@.streams.len() > 0,
        ensures
            final(space)@.len() == old(space)@.len(),
            final(self)@.boundary == old(self)@.boundary,
            final(self)@.content_len == old(self)@.content_len,
            old(self)@.streams[0].header.len() > 0 ==> (r matches Ok(n)
                && final(self)@.safe_len() + n == old(self)@.safe_len() && final(self).sources()
                == old(self).sources()),
            match r {
                Ok(n) => {
                    &&& n <= old(space)@.len()
                    &&& moved(old(self)@, final(self)@, final(space)@.take(n as int))
                    &&& if n == 0 {
                        final(self)@.streams.len() < old(self)@.streams.len()
                    } else {
                        final(self)@.streams.len() == old(self)@.streams.len()
                    }
                    &&& all_reliable(old(self)@.streams) ==> all_reliable(final(self)@.streams)
                    &&& all_rows(old(self)@.streams) ==> all_rows(final(self)@.streams)
                },
                Err(_) => stalled(old(self)@, final(self)@),
            },
            old(self)@.streams[0].row ==> match r {
                Ok(n) => {
                    &&& n <= old(self)@.rest().len()
                    &&& final(space)@.take(n as int) == old(self)@.rest().take(n as int)
                    &&& final(self)@.rest() == old(self)@.rest().skip(n as int)
                    &&& old(self)@.serve(old(space)@.len()) == final(self)@.serve(
                        (old(space)@.len() - n) as nat,
                    )
                },
                Err(_) => final(self)@ == old(self)@,
            },
    {
        let ghost now = self@;
        let ghost cap = space@.len();
        let mut field = self.streams.pop_front().unwrap();
        let ghost head = field@;
        proof {
            assert(head == now.streams[0]);
            assert(stream_views(self.streams@) == now.streams.drop_first());
        }
        let ghost held = self@;
        let ghost source = field.source();
        proof {
            assert(old(self).sources() =~= seq![source] + self.sources());
        }
        let given = field.read(space);
        let ghost after = field@;
        let r = self.settle(field, given);
        proof {
            reveal(moved);
            let tail = now.streams.drop_first();
            assert(held.streams == tail);
            match r {
                Ok(n) => {
                    if n == 0 {
                        assert(self@ == (PreparedView { streams: tail, ..now }));
                        assert(space@.take(0).len() == 0);
                        if head.row {
                            lemma_serve_drop(now, cap);
                            assert(now.rest().skip(0) == now.rest());
                            assert(space@.take(0) == now.rest().take(0));
                        }
                    } else {
                        assert(self@.streams == seq![after] + tail);
                        assert(self@.streams.drop_first() == tail);
                        assert(self@.streams[0] == after);
                        if head.header.len() > 0 || head.row {
                            assert(self@.streams == now.streams.update(0, head.trimmed(n as nat)));
                            assert(self@ == (PreparedView {
                                streams: now.streams.update(0, head.trimmed(n as nat)),
                                ..now
                            }));
                        }
                        if head.row {
                            lemma_serve_head(now, cap, n as nat);
                        }
                        assert(forall|i: int|
                            0 < i < self@.streams.len() ==> (#[trigger] self@.streams[i])
                                == now.streams[i]) by {
                            assert forall|i: int| 0 < i < self@.streams.len() implies (
                            #[trigger] self@.streams[i]) == now.streams[i] by {
                                assert(self@.streams[i] == tail[i - 1]);
                            }
                        }
                        if all_reliable(now.streams) {
                            assert(after.reliable);
                        }
                        if all_rows(now.streams) {
                            assert(after.row);
                        }
                    }
                },
                Err(_) => {
                    assert(self@.streams == seq![after] + tail);
                    assert(self@.streams.drop_first() == tail);
                    assert(self@.streams[0] == after);
                    if head.row {
                        assert(self@.streams == now.streams);
                        assert(self@ == now);
                    }
                },
            }
        }
        r
    }

    /// Serves the next bytes of the body into `buf` and returns their number.
    ///
    /// Text comes first, then each streamed field in the order in which it
    /// was added, its header before its body, then the closing delimiter. The
    /// call goes from one to the next until `buf` is full or the body is at
    /// its end, so it returns less than `buf.len()` only at the end of the
    /// body. A streamed field is let go, and its source with it, as soon as
    /// its source gives nothing. With an empty `buf`, and at the end of the
    /// body, nothing is touched.
    ///
    /// The read does not fail before it reads a source. A failure of a
    /// source is returned as it is, and the field is kept. The bytes that
    /// the call served before the failure are in `buf`, and the body goes on
    /// after them; their number is not reported.
    ///
    /// Whatever the sources give, the read is a row of moves, and what it
    /// served is what the moves served. Where every source is a row of
    /// bytes, what is served and what is left is known in advance.
    pub fn read(&mut self, buf: &mut [u8]) -> (r: Result<usize, R::Error>)
        ensures
            final(buf)@.len() == old(buf)@.len(),
            final(self)@.boundary == old(self)@.boundary,
            final(self)@.content_len == old(self)@.content_len,
            old(buf)@.len() == 0 ==> r is Ok && *final(self) == *old(self) && final(buf)@ == old(
                buf,
            )@,
            old(self)@.phase() == Phase::Done ==> r is Ok && final(self)@ == old(self)@
                && final(buf)@ == old(buf)@,
            old(buf)@.len() <= old(self)@.safe_len() ==> r is Ok && final(self).sources()
                == old(self).sources(),
            all_reliable(old(self)@.streams) ==> r is Ok,
            r matches Ok(n) ==> n <= old(buf)@.len() && (n < old(buf)@.len()
                ==> final(self)@.phase() == Phase::Done),
            exists|trace: Seq<Move>|
                {
                    &&& #[trigger] follows(old(self)@, trace)
                    &&& moved_bytes(trace).len() <= old(buf)@.len()
                    &&& final(buf)@.take(moved_bytes(trace).len() as int) == moved_bytes(trace)
                    &&& match r {
                        Ok(n) => n == moved_bytes(trace).len() && final(self)@ == moved_to(
                            old(self)@,
                            trace,
                        ),
                        Err(_) => moved_bytes(trace).len() < old(buf)@.len() && stalled(
                            moved_to(old(self)@, trace),
                            final(self)@,
                        ),
                    }
                },
            all_rows(old(self)@.streams) ==> match r {
                Ok(n) => {
                    &&& n as int == vstd::math::min(
                        old(buf)@.len() as int,
                        old(self)@.rest().len() as int,
                    )
                    &&& final(buf)@.take(n as int) == old(self)@.rest().take(n as int)
                    &&& final(self)@ == old(self)@.serve(old(buf)@.len())
                },
                Err(_) => exists|k: int|
                    {
                        &&& 0 <= k < old(buf)@.len()
                        &&& k <= old(self)@.rest().len()
                        &&& #[trigger] final(buf)@.take(k) == old(self)@.rest().take(k)
                        &&& final(self)@.rest() == old(self)@.rest().skip(k)
                    },
            },
    {
        let ghost start = self@;
        let ghost cap = buf@.len();
        let ghost mut trace: Seq<Move> = Seq::empty();
        if buf.len() == 0 {
            proof {
                lemma_serve_nothing(self@, 0);
                assert(follows(start, trace));
                assert(buf@.take(0) == moved_bytes(trace));
            }
            return Ok(0);
        }
        let mut total: usize = 0;
        proof {
            assert(start.rest().skip(0) == start.rest());
            assert(buf@.take(0) == moved_bytes(trace));
        }
        while total < buf.len() && !self.exhausted()
            invariant
                buf@.len() == cap,
                cap == old(buf)@.len(),
                start == old(self)@,
                self@.boundary == start.boundary,
                self@.content_len == start.content_len,
                all_reliable(start.streams) ==> all_reliable(self@.streams),
                total <= cap,
                trace.len() == 0 ==> buf@ == old(buf)@ && self@ == start,
                start.phase() == Phase::Done ==> trace.len() == 0,
                cap <= start.safe_len() ==> total + self@.safe_len() == start.safe_len()
                    && self.sources() == old(self).sources(),
                follows(start, trace),
                moved_to(start, trace) == self@,
                moved_bytes(trace).len() == total,
                buf@.take(total as int) == moved_bytes(trace),
                all_rows(start.streams) ==> {
                    &&& all_rows(self@.streams)
                    &&& total <= start.rest().len()
                    &&& self@.rest() == start.rest().skip(total as int)
                    &&& buf@.take(total as int) == start.rest().take(total as int)
                    &&& start.serve(cap) == self@.serve((cap - total) as nat)
                },
            decreases cap - total + self@.streams.len(),
        {
            let ghost now = self@;
            let ghost filled = buf@;
            assert(start.phase() != Phase::Done);
            let (_, space) = buf.split_at_mut(total);
            match self.step(space) {
                Ok(n) => {
                    proof {
                        let bytes = buf@.skip(total as int).take(n as int);
                        assert(buf@.take(total + n) == filled.take(total as int) + bytes);
                        assert(buf@.skip(total as int) == space@);
                        lemma_follows_push(start, trace, Move { bytes, after: self@ });
                        trace = trace.push(Move { bytes, after: self@ });
                        if all_rows(start.streams) {
                            assert(start.rest().take(total + n) == start.rest().take(total as int)
                                + now.rest().take(n as int));
                        }
                    }
                    total += n;
                },
                Err(e) => {
                    proof {
                        if all_rows(start.streams) {
                            assert(buf@.take(total as int) == start.rest().take(total as int));
                        }
                    }
                    return Err(e);
                },
            }
        }
        proof {
            if all_rows(start.streams) {
                lemma_serve_nothing(self@, (cap - total) as nat);
            }
        }
        Ok(total)
    }
}

} // verus!
