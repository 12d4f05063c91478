use super::fields::FieldView;
use super::path::{guessed_content_type, path_file_name};
use super::source::ByteSource;
use super::wire::{closing_delimiter, stream_header, text_part};
use vstd::prelude::*;

verus! {

/// A streamed field that is ready to be served: what is left of its header
/// and what is left of its body.
#[verifier::ext_equal]
pub struct StreamView {
    /// What is left of the header.
    pub header: Seq<u8>,
    /// What is left of the body.
    pub body: Seq<u8>,
    /// Whether the body comes from a row of bytes, so that `body` says what
    /// is left of it. Of the body of another source nothing is known before
    /// it is read, and `body` says nothing.
    pub row: bool,
    /// Whether reading the body cannot fail.
    pub reliable: bool,
}

impl StreamView {
    /// The bytes that the field has yet to give: header first, then body.
    pub open spec fn bytes(self) -> Seq<u8> {
        self.header + self.body
    }

    /// The field after `n` of its bytes were served, the header's first.
    pub open spec fn trimmed(self, n: nat) -> StreamView {
        if n <= self.header.len() {
            StreamView { header: self.header.skip(n as int), ..self }
        } else {
            StreamView {
                header: Seq::empty(),
                body: self.body.skip(n - self.header.len()),
                ..self
            }
        }
    }
}

/// The bytes of a row of streamed fields, one field after the other.
pub open spec fn streams_bytes(streams: Seq<StreamView>) -> Seq<u8>
    decreases streams.len(),
{
    if streams.len() == 0 {
        Seq::empty()
    } else {
        streams[0].bytes() + streams_bytes(streams.drop_first())
    }
}

/// Serving `cap` bytes from a row of streamed fields: the fields that are
/// left, and how much of `cap` is. A field leaves the row once a read has
/// gone past its last byte, and not before: a field that was served to its
/// very end stays until the next byte is asked for.
pub open spec fn serve_streams(streams: Seq<StreamView>, cap: nat) -> (Seq<StreamView>, nat)
    decreases streams.len(),
{
    if cap == 0 || streams.len() == 0 {
        (streams, cap)
    } else if streams[0].bytes().len() < cap {
        serve_streams(streams.drop_first(), (cap - streams[0].bytes().len()) as nat)
    } else {
        (streams.update(0, streams[0].trimmed(cap)), 0)
    }
}

/// Whether no field of a row can fail when it is read.
pub open spec fn all_reliable(streams: Seq<StreamView>) -> bool {
    forall|i: int| 0 <= i < streams.len() ==> (#[trigger] streams[i]).reliable
}

/// Whether the body of every field of a row comes from a row of bytes.
pub open spec fn all_rows(streams: Seq<StreamView>) -> bool {
    forall|i: int| 0 <= i < streams.len() ==> (#[trigger] streams[i]).row
}

/// A prepared body as it stands between two reads.
#[verifier::ext_equal]
pub struct PreparedView {
    /// The boundary token, without dashes.
    pub boundary: Seq<char>,
    /// What is left of the text fields.
    pub text: Seq<u8>,
    /// The streamed fields still held, the one being served first.
    pub streams: Seq<StreamView>,
    /// What is left of the closing delimiter.
    pub trailer: Seq<u8>,
    /// The length of the whole body as it was known at preparation.
    pub content_len: Option<u64>,
}

/// The four stages of serving a body, in the order in which they are passed.
#[derive(PartialEq, Eq, Structural)]
pub enum Phase {
    Text,
    Streams,
    Trailer,
    Done,
}

impl Phase {
    /// The place of a stage in the order of serving.
    pub open spec fn rank(self) -> nat {
        match self {
            Phase::Text => 0,
            Phase::Streams => 1,
            Phase::Trailer => 2,
            Phase::Done => 3,
        }
    }
}

impl PreparedView {
    /// The bytes still to be served: text, then each streamed field, then the
    /// closing delimiter. This is what will be served where the body of
    /// every field comes from a row of bytes.
    pub open spec fn rest(self) -> Seq<u8> {
        self.text + streams_bytes(self.streams) + self.trailer
    }

    /// How many bytes can be served before a source is read: the text and,
    /// behind it, the header of the first streamed field; all that is left
    /// where no streamed field is held.
    pub open spec fn safe_len(self) -> nat {
        self.text.len() + if self.streams.len() > 0 {
            self.streams[0].header.len()
        } else {
            self.trailer.len()
        }
    }

    /// The stage that the next read starts in.
    pub open spec fn phase(self) -> Phase {
        if self.text.len() > 0 {
            Phase::Text
        } else if self.streams.len() > 0 {
            Phase::Streams
        } else if self.trailer.len() > 0 {
            Phase::Trailer
        } else {
            Phase::Done
        }
    }

    /// The body after a read into a destination of `cap` bytes that no source
    /// failed, where the body of every field comes from a row of bytes: text
    /// is served first, then the streamed fields in their order, then the
    /// closing delimiter, until `cap` bytes are served or nothing is left.
    pub open spec fn serve(self, cap: nat) -> PreparedView {
        if cap <= self.text.len() {
            PreparedView { text: self.text.skip(cap as int), ..self }
        } else {
            let (streams, left) = serve_streams(self.streams, (cap - self.text.len()) as nat);
            PreparedView {
                text: Seq::empty(),
                streams,
                trailer: if left <= self.trailer.len() {
                    self.trailer.skip(left as int)
                } else {
                    Seq::empty()
                },
                ..self
            }
        }
    }
}

/// One move of the reader from the body `v` to the body `w` that serves
/// `bytes`. While text is left, a move serves text. Then the first streamed
/// field is served: its header while any is left; after that what its source
/// gives, and where the source gives nothing the field is let go. Where no
/// field is left, a move serves the closing delimiter. Text, headers and
/// closing delimiter are served as they stand; of what a source gives only
/// a row tells in advance.
#[verifier::opaque]
pub open spec fn moved(v: PreparedView, w: PreparedView, bytes: Seq<u8>) -> bool {
    let n = bytes.len() as int;
    if v.text.len() > 0 {
        &&& 0 < n <= v.text.len()
        &&& bytes == v.text.take(n)
        &&& w == (PreparedView { text: v.text.skip(n), ..v })
    } else if v.streams.len() > 0 {
        let head = v.streams[0];
        if head.header.len() > 0 {
            &&& 0 < n <= head.header.len()
            &&& bytes == head.header.take(n)
            &&& w == (PreparedView { streams: v.streams.update(0, head.trimmed(n as nat)), ..v })
        } else if n == 0 {
            &&& w == (PreparedView { streams: v.streams.drop_first(), ..v })
            &&& head.row ==> head.body.len() == 0
        } else {
            &&& w.boundary == v.boundary
            &&& w.content_len == v.content_len
            &&& w.text == v.text
            &&& w.trailer == v.trailer
            &&& w.streams.len() == v.streams.len()
            &&& w.streams.drop_first() == v.streams.drop_first()
            &&& w.streams[0].header.len() == 0
            &&& w.streams[0].row == head.row
            &&& w.streams[0].reliable == head.reliable
            &&& head.row ==> n <= head.body.len() && bytes == head.body.take(n) && w.streams[0].body
                == head.body.skip(n)
        }
    } else {
        &&& 0 < n <= v.trailer.len()
        &&& bytes == v.trailer.take(n)
        &&& w == (PreparedView { trailer: v.trailer.skip(n), ..v })
    }
}

/// The body `w` is the body `v` after a source failed: nothing was served
/// and no field was let go. The source that failed is the one of the first
/// streamed field, whose header is served; a row is as it was.
pub open spec fn stalled(v: PreparedView, w: PreparedView) -> bool {
    &&& w.boundary == v.boundary
    &&& w.content_len == v.content_len
    &&& w.text == v.text
    &&& w.trailer == v.trailer
    &&& v.text.len() == 0
    &&& v.streams.len() > 0
    &&& w.streams.len() == v.streams.len()
    &&& w.streams.drop_first() == v.streams.drop_first()
    &&& v.streams[0].header.len() == 0
    &&& w.streams[0].header.len() == 0
    &&& w.streams[0].row == v.streams[0].row
    &&& w.streams[0].reliable == v.streams[0].reliable
    &&& !v.streams[0].reliable
    &&& v.streams[0].row ==> w == v
}

/// One move of a read: the bytes that it served and the body after it.
pub struct Move {
    pub bytes: Seq<u8>,
    pub after: PreparedView,
}

/// The body after the moves `trace` that begin at `v`.
pub open spec fn moved_to(v: PreparedView, trace: Seq<Move>) -> PreparedView {
    if trace.len() == 0 {
        v
    } else {
        trace.last().after
    }
}

/// Whether `trace` is a row of moves that begins at the body `v`, each move
/// beginning where the one before it ended.
pub open spec fn follows(v: PreparedView, trace: Seq<Move>) -> bool
    decreases trace.len(),
{
    if trace.len() == 0 {
        true
    } else {
        &&& follows(v, trace.drop_last())
        &&& moved(moved_to(v, trace.drop_last()), trace.last().after, trace.last().bytes)
    }
}

/// The bytes that the moves `trace` served, one move after the other.
pub open spec fn moved_bytes(trace: Seq<Move>) -> Seq<u8>
    decreases trace.len(),
{
    if trace.len() == 0 {
        Seq::empty()
    } else {
        moved_bytes(trace.drop_last()) + trace.last().bytes
    }
}

/// What the fields of a form have given so far while a body is put together.
#[verifier::ext_equal]
pub struct Assembly {
    /// The text fields, written out one after the other.
    pub text: Seq<u8>,
    /// The streamed fields, ready to be served.
    pub streams: Seq<StreamView>,
    /// The bytes of the streamed fields whose length is known: their headers
    /// and the lengths measured when their files were opened.
    pub measured: nat,
    /// Whether every streamed field so far has a known length.
    pub sized: bool,
}

/// A failure of preparation: the field at fault and the cause.
pub struct LazyErrorView<E> {
    pub field: Option<Seq<char>>,
    pub error: E,
}

/// The paths of the file fields among `fields`, in the order of the fields.
pub open spec fn file_paths<R>(fields: Seq<FieldView<R>>) -> Seq<Seq<char>>
    decreases fields.len(),
{
    if fields.len() == 0 {
        Seq::empty()
    } else {
        let earlier = file_paths(fields.drop_last());
        match fields.last() {
            FieldView::File { path, .. } => earlier.push(path),
            _ => earlier,
        }
    }
}

/// Whether a stream field is among `fields`.
pub open spec fn has_stream<R>(fields: Seq<FieldView<R>>) -> bool {
    exists|i: int| 0 <= i < fields.len() && #[trigger] fields[i] is Stream
}

/// The header of the file field called `name` that reads the file at `path`:
/// the file name is the path's last component, the content type is guessed
/// from the path.
pub open spec fn file_header(token: Seq<char>, name: Seq<char>, path: Seq<char>) -> Seq<u8> {
    stream_header(token, name, path_file_name(path), guessed_content_type(path))
}

/// Putting `fields` together under the boundary `token`, where opening the
/// file of the `k`-th file field gave `outcomes[k]`: a source and the file's
/// length, or a failure. The first failure ends it, under the name of the
/// field whose file it was.
pub open spec fn assemble<R: ByteSource, E>(
    fields: Seq<FieldView<R>>,
    token: Seq<char>,
    outcomes: Seq<Result<(R, u64), E>>,
) -> Result<Assembly, LazyErrorView<E>>
    decreases fields.len(),
{
    if fields.len() == 0 {
        Ok(Assembly { text: Seq::empty(), streams: Seq::empty(), measured: 0, sized: true })
    } else {
        match assemble(fields.drop_last(), token, outcomes) {
            Err(e) => Err(e),
            Ok(a) => match fields.last() {
                FieldView::Text { name, value } => Ok(
                    Assembly { text: a.text + text_part(token, name, value), ..a },
                ),
                FieldView::File { name, path } => {
                    match outcomes[file_paths(fields.drop_last()).len() as int] {
                        Ok((source, len)) => {
                            let header = file_header(token, name, path);
                            Ok(
                                Assembly {
                                    streams: a.streams.push(
                                        StreamView {
                                            header,
                                            body: source.remaining(),
                                            row: source.is_row(),
                                            reliable: source.reliable(),
                                        },
                                    ),
                                    measured: (a.measured + header.len() + len) as nat,
                                    ..a
                                },
                            )
                        },
                        Err(error) => Err(LazyErrorView { field: Some(name), error }),
                    }
                },
                FieldView::Stream { name, filename, content_type, source } => Ok(
                    Assembly {
                        streams: a.streams.push(
                            StreamView {
                                header: stream_header(token, name, filename, content_type),
                                body: source.remaining(),
                                row: source.is_row(),
                                reliable: source.reliable(),
                            },
                        ),
                        sized: false,
                        ..a
                    },
                ),
            },
        }
    }
}

/// The closing delimiter of a body made of `a`: none where the body has no
/// field.
pub open spec fn trailer_of(a: Assembly, token: Seq<char>) -> Seq<u8> {
    if a.text.len() == 0 && a.streams.len() == 0 {
        Seq::empty()
    } else {
        closing_delimiter(token)
    }
}

/// The length of a body made of `a`, where it is known.
pub open spec fn total_len(a: Assembly, token: Seq<char>) -> nat {
    (a.text.len() + a.measured + trailer_of(a, token).len()) as nat
}

/// The body made of `a`, before its first byte is served. Its length is
/// given where every field has a known length and the sum fits in 64 bits.
pub open spec fn finish(a: Assembly, token: Seq<char>) -> PreparedView {
    PreparedView {
        boundary: token,
        text: a.text,
        streams: a.streams,
        trailer: trailer_of(a, token),
        content_len: if a.sized && total_len(a, token) <= u64::MAX {
            Some(total_len(a, token) as u64)
        } else {
            None
        },
    }
}

/// What preparing `fields` under the boundary `token` gives, where opening
/// the files gave `outcomes`.
pub open spec fn prepared<R: ByteSource, E>(
    fields: Seq<FieldView<R>>,
    token: Seq<char>,
    outcomes: Seq<Result<(R, u64), E>>,
) -> Result<PreparedView, LazyErrorView<E>> {
    match assemble(fields, token, outcomes) {
        Ok(a) => Ok(finish(a, token)),
        Err(e) => Err(e),
    }
}

/// Whether `outcome` is something that `open` may return for `path`.
pub open spec fn opened_by<F, R, E>(open: F, path: Seq<char>, outcome: Result<(R, u64), E>) -> bool
    where F: Fn(&str) -> Result<(R, u64), E>
{
    exists|p: &str| p@ == path && call_ensures(open, (p,), outcome)
}

/// Whether `outcomes` is what opening `paths` with `open` gave, one after the
/// other and ending with the first failure.
pub open spec fn opened_in_order<F, R, E>(
    open: F,
    paths: Seq<Seq<char>>,
    outcomes: Seq<Result<(R, u64), E>>,
) -> bool
    where F: Fn(&str) -> Result<(R, u64), E>
{
    &&& outcomes.len() <= paths.len()
    &&& forall|k: int| 0 <= k < outcomes.len() ==> opened_by(open, paths[k], #[trigger] outcomes[k])
    &&& forall|k: int| 0 <= k < outcomes.len() - 1 ==> (#[trigger] outcomes[k]) is Ok
    &&& outcomes.len() < paths.len() ==> outcomes.len() > 0 && outcomes.last() is Err
}

} // verus!
