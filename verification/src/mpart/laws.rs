//! What holds of every form and every body. The laws on `prepared` speak
//! of what a preparation gives; the laws on `serve` and `rest` speak of
//! bodies whose sources are rows of bytes, of which reads are known in
//! advance; `law_moves_of_rows` ties them to the moves that a read makes
//! whatever its sources are.

use super::fields::FieldView;
use super::lemmas::{lemma_assemble_failure_stays, lemma_file_paths_prefix};
use super::model::{
    all_reliable, all_rows, assemble, file_header, file_paths, follows, has_stream, moved,
    moved_bytes, moved_to, prepared, serve_streams, streams_bytes, Assembly, LazyErrorView, Move,
    Phase, PreparedView, StreamView,
};
use super::boundary::is_boundary_token;
use super::parse::{
    law_parse_wire, parse_body, parseable, part_bytes, parts_bytes, wire, Part,
};
use super::path::{guessed_content_type, path_file_name};
use super::source::ByteSource;
use super::wire::{bytes_of, closing_delimiter, delimiter, stream_header, text_part};
use vstd::prelude::*;

verus! {

/// A delimiter has four bytes at least: the line break and the two dashes.
pub proof fn lemma_delimiter_len(token: Seq<char>)
    ensures
        delimiter(token).len() >= 4,
        closing_delimiter(token).len() >= 6,
{
    reveal_strlit("\r\n--");
    reveal_strlit("--");
    vstd::utf8::is_ascii_chars_encode_utf8("\r\n--"@);
    vstd::utf8::is_ascii_chars_encode_utf8("--"@);
}

/// The bytes of a row of streamed fields with one more field at its end.
pub proof fn lemma_streams_bytes_push(streams: Seq<StreamView>, last: StreamView)
    ensures
        streams_bytes(streams.push(last)) == streams_bytes(streams) + last.bytes(),
    decreases streams.len(),
{
    if streams.len() == 0 {
        assert(streams.push(last).drop_first() == Seq::<StreamView>::empty());
        assert(streams_bytes(Seq::<StreamView>::empty()) == Seq::<u8>::empty());
        assert(streams.push(last)[0] == last);
        assert(streams_bytes(streams.push(last)) =~= streams_bytes(streams) + last.bytes());
    } else {
        assert(streams.push(last).drop_first() == streams.drop_first().push(last));
        lemma_streams_bytes_push(streams.drop_first(), last);
        assert(streams_bytes(streams.push(last)) =~= streams_bytes(streams) + last.bytes());
    }
}

/// Whether every file that opened was measured rightly: its source is a row
/// of bytes, and the length that came with it is the number of bytes in the
/// row.
pub open spec fn measured_exactly<R: ByteSource, E>(outcomes: Seq<Result<(R, u64), E>>) -> bool {
    forall|k: int|
        0 <= k < outcomes.len() ==> match #[trigger] outcomes[k] {
            Ok((source, len)) => source.is_row() && source.remaining().len() == len,
            Err(_) => true,
        }
}

/// What an assembly that succeeded holds: something, unless there was no
/// field; a length for every streamed field exactly where no field is a
/// stream; and, where the files were measured rightly, a measure that is the
/// number of bytes of its streamed fields.
proof fn lemma_assembly<R: ByteSource, E>(
    fields: Seq<FieldView<R>>,
    token: Seq<char>,
    outcomes: Seq<Result<(R, u64), E>>,
)
    requires
        assemble(fields, token, outcomes) is Ok,
    ensures
        ({
            let a = assemble(fields, token, outcomes)->Ok_0;
            &&& fields.len() > 0 <==> a.text.len() > 0 || a.streams.len() > 0
            &&& a.sized <==> !has_stream(fields)
            &&& a.sized && measured_exactly(outcomes) && file_paths(fields).len()
                <= outcomes.len() ==> a.measured == streams_bytes(a.streams).len()
        }),
    decreases fields.len(),
{
    if fields.len() > 0 {
        let earlier = fields.drop_last();
        lemma_assembly(earlier, token, outcomes);
        let e = assemble(earlier, token, outcomes)->Ok_0;
        let a = assemble(fields, token, outcomes)->Ok_0;
        lemma_delimiter_len(token);
        assert(has_stream(fields) <==> has_stream(earlier) || fields.last() is Stream) by {
            if has_stream(earlier) {
                let i = choose|i: int| 0 <= i < earlier.len() && #[trigger] earlier[i] is Stream;
                assert(fields[i] is Stream);
            }
            if has_stream(fields) {
                let i = choose|i: int| 0 <= i < fields.len() && #[trigger] fields[i] is Stream;
                if i < earlier.len() {
                    assert(earlier[i] is Stream);
                }
            }
        }
        match fields.last() {
            FieldView::Text { name, value } => {},
            FieldView::File { name, path } => {
                let k = file_paths(earlier).len() as int;
                lemma_streams_bytes_push(e.streams, a.streams.last());
                if a.sized && measured_exactly(outcomes) && file_paths(fields).len()
                    <= outcomes.len() {
                    assert(outcomes[k] is Ok);
                    assert(a.measured == streams_bytes(a.streams).len());
                }
            },
            FieldView::Stream { name, filename, content_type, source } => {},
        }
    } else {
        assert(!has_stream(fields));
    }
}

/// Where no field reads a file, the preparation does not fail, whatever
/// opening files would give.
pub proof fn law_without_files<R: ByteSource, E>(
    fields: Seq<FieldView<R>>,
    token: Seq<char>,
    outcomes: Seq<Result<(R, u64), E>>,
)
    requires
        file_paths(fields).len() == 0,
    ensures
        prepared(fields, token, outcomes) is Ok,
        prepared(fields, token, outcomes) == prepared(
            fields,
            token,
            Seq::<Result<(R, u64), E>>::empty(),
        ),
{
    super::lemmas::lemma_assemble_without_files(fields, token, outcomes);
}

/// A text field adds its bytes to the text and opens no file.
pub proof fn law_text_field<R: ByteSource, E>(
    before: Seq<FieldView<R>>,
    token: Seq<char>,
    name: Seq<char>,
    value: Seq<char>,
    outcomes: Seq<Result<(R, u64), E>>,
    a: Assembly,
)
    requires
        assemble(before, token, outcomes) == Ok::<Assembly, LazyErrorView<E>>(a),
    ensures
        file_paths(before.push(FieldView::Text { name, value })) == file_paths(before),
        assemble(before.push(FieldView::Text { name, value }), token, outcomes) == Ok::<
            Assembly,
            LazyErrorView<E>,
        >(Assembly { text: a.text + text_part(token, name, value), ..a }),
{
    let after = before.push(FieldView::<R>::Text { name, value });
    assert(after.drop_last() == before);
}

/// A stream field adds itself to the streamed fields, opens no file and
/// leaves the length of the body unknown.
pub proof fn law_stream_field<R: ByteSource, E>(
    before: Seq<FieldView<R>>,
    token: Seq<char>,
    name: Seq<char>,
    filename: Option<Seq<char>>,
    content_type: Seq<char>,
    source: R,
    outcomes: Seq<Result<(R, u64), E>>,
    a: Assembly,
)
    requires
        assemble(before, token, outcomes) == Ok::<Assembly, LazyErrorView<E>>(a),
    ensures
        file_paths(before.push(FieldView::Stream { name, filename, content_type, source }))
            == file_paths(before),
        assemble(
            before.push(FieldView::Stream { name, filename, content_type, source }),
            token,
            outcomes,
        ) == Ok::<Assembly, LazyErrorView<E>>(
            Assembly {
                streams: a.streams.push(
                    StreamView {
                        header: stream_header(token, name, filename, content_type),
                        body: source.remaining(),
                        row: source.is_row(),
                        reliable: source.reliable(),
                    },
                ),
                sized: false,
                ..a
            },
        ),
{
    let after = before.push(FieldView::Stream { name, filename, content_type, source });
    assert(after.drop_last() == before);
}

/// A file field asks for the next outcome: an opened file adds the field to
/// the streamed fields and its length to what is measured, a failure ends the
/// assembly under the field's name.
pub proof fn law_file_field<R: ByteSource, E>(
    before: Seq<FieldView<R>>,
    token: Seq<char>,
    name: Seq<char>,
    path: Seq<char>,
    outcomes: Seq<Result<(R, u64), E>>,
    outcome: Result<(R, u64), E>,
    a: Assembly,
)
    requires
        assemble(before, token, outcomes) == Ok::<Assembly, LazyErrorView<E>>(a),
        outcomes.len() == file_paths(before).len(),
    ensures
        file_paths(before.push(FieldView::File { name, path })) == file_paths(before).push(path),
        assemble(before.push(FieldView::File { name, path }), token, outcomes.push(outcome))
            == match outcome {
            Ok((source, len)) => Ok::<Assembly, LazyErrorView<E>>(
                Assembly {
                    streams: a.streams.push(
                        StreamView {
                            header: file_header(token, name, path),
                            body: source.remaining(),
                            row: source.is_row(),
                            reliable: source.reliable(),
                        },
                    ),
                    measured: (a.measured + file_header(token, name, path).len() + len) as nat,
                    ..a
                },
            ),
            Err(error) => Err(LazyErrorView { field: Some(name), error }),
        },
{
    let after = before.push(FieldView::<R>::File { name, path });
    assert(after.drop_last() == before);
    super::lemmas::lemma_assemble_later_outcome(before, token, outcomes, outcome);
}

/// A form without fields gives a body without bytes: no text, no streamed
/// field and no closing delimiter, of length zero, under the token that it
/// was prepared with.
pub proof fn law_empty_form<R: ByteSource, E>(
    token: Seq<char>,
    outcomes: Seq<Result<(R, u64), E>>,
)
    ensures
        prepared(Seq::<FieldView<R>>::empty(), token, outcomes) == Ok::<
            PreparedView,
            LazyErrorView<E>,
        >(
            PreparedView {
                boundary: token,
                text: Seq::empty(),
                streams: Seq::empty(),
                trailer: Seq::empty(),
                content_len: Some(0),
            },
        ),
        prepared(Seq::<FieldView<R>>::empty(), token, outcomes)->Ok_0.rest() == Seq::<u8>::empty(),
{
    let p = prepared(Seq::<FieldView<R>>::empty(), token, outcomes)->Ok_0;
    assert(streams_bytes(p.streams) == Seq::<u8>::empty());
    assert(p.rest() =~= Seq::<u8>::empty());
}

/// A body ends with the closing delimiter of its token exactly where the
/// form had a field; the body of a form without fields has no closing
/// delimiter.
pub proof fn law_closing_delimiter<R: ByteSource, E>(
    fields: Seq<FieldView<R>>,
    token: Seq<char>,
    outcomes: Seq<Result<(R, u64), E>>,
)
    requires
        prepared(fields, token, outcomes) is Ok,
    ensures
        ({
            let body = prepared(fields, token, outcomes)->Ok_0;
            &&& body.boundary == token
            &&& body.trailer == if fields.len() == 0 {
                Seq::empty()
            } else {
                closing_delimiter(token)
            }
            &&& body.trailer.len() == 0 <==> fields.len() == 0
        }),
{
    lemma_assembly(fields, token, outcomes);
    lemma_delimiter_len(token);
}

/// The length of a body with a stream field is not known.
pub proof fn law_stream_hides_length<R: ByteSource, E>(
    fields: Seq<FieldView<R>>,
    token: Seq<char>,
    outcomes: Seq<Result<(R, u64), E>>,
)
    requires
        has_stream(fields),
        prepared(fields, token, outcomes) is Ok,
    ensures
        prepared(fields, token, outcomes)->Ok_0.content_len is None,
{
    lemma_assembly(fields, token, outcomes);
}

/// The length of a body of text fields and file fields is the number of
/// bytes that the body serves, where `outcomes` has an outcome for every file
/// field, every file was measured rightly and that number fits in 64 bits.
pub proof fn law_length_is_exact<R: ByteSource, E>(
    fields: Seq<FieldView<R>>,
    token: Seq<char>,
    outcomes: Seq<Result<(R, u64), E>>,
)
    requires
        !has_stream(fields),
        file_paths(fields).len() <= outcomes.len(),
        measured_exactly(outcomes),
        prepared(fields, token, outcomes) is Ok,
        prepared(fields, token, outcomes)->Ok_0.rest().len() <= u64::MAX,
    ensures
        ({
            let body = prepared(fields, token, outcomes)->Ok_0;
            body.content_len == Some(body.rest().len() as u64)
        }),
{
    lemma_assembly(fields, token, outcomes);
}

/// All files before the `k`-th opened.
pub open spec fn opened_before<R, E>(outcomes: Seq<Result<(R, u64), E>>, k: int) -> bool {
    forall|j: int| 0 <= j < k ==> (#[trigger] outcomes[j]) is Ok
}

/// Fields whose files all opened are put together without a failure.
proof fn lemma_assemble_succeeds<R: ByteSource, E>(
    fields: Seq<FieldView<R>>,
    token: Seq<char>,
    outcomes: Seq<Result<(R, u64), E>>,
)
    requires
        opened_before(outcomes, file_paths(fields).len() as int),
    ensures
        assemble(fields, token, outcomes) is Ok,
    decreases fields.len(),
{
    if fields.len() > 0 {
        lemma_assemble_succeeds(fields.drop_last(), token, outcomes);
        match fields.last() {
            FieldView::File { name, path } => {
                assert(outcomes[file_paths(fields.drop_last()).len() as int] is Ok);
            },
            _ => {},
        }
    }
}

/// A file that fails to open fails the preparation under the name of its
/// field: where the field at `i` is a file field, the files of the file
/// fields before it opened and its own did not, no body is made, and the
/// failure is the one of that file, under the name of that field.
pub proof fn law_failure_names_field<R: ByteSource, E>(
    fields: Seq<FieldView<R>>,
    token: Seq<char>,
    outcomes: Seq<Result<(R, u64), E>>,
    i: int,
)
    requires
        0 <= i < fields.len(),
        fields[i] is File,
        opened_before(outcomes, file_paths(fields.take(i)).len() as int),
        outcomes[file_paths(fields.take(i)).len() as int] is Err,
    ensures
        prepared(fields, token, outcomes) == Err::<PreparedView, LazyErrorView<E>>(
            LazyErrorView {
                field: Some(fields[i]->File_name),
                error: outcomes[file_paths(fields.take(i)).len() as int]->Err_0,
            },
        ),
{
    let before = fields.take(i);
    let upto = fields.take(i + 1);
    assert(upto.drop_last() == before);
    assert(upto.last() == fields[i]);
    lemma_assemble_succeeds(before, token, outcomes);
    lemma_assemble_failure_stays(fields, i + 1, token, outcomes);
}

/// The bytes that a row of streamed fields has left after `cap` bytes were
/// served from it are its bytes without the first `cap`; what is left of
/// `cap` is what the row could not give. No field is held once the row is
/// served past its end.
pub proof fn lemma_serve_streams_rest(streams: Seq<StreamView>, cap: nat)
    ensures
        ({
            let (left_streams, left) = serve_streams(streams, cap);
            let all = streams_bytes(streams);
            &&& left_streams.len() <= streams.len()
            &&& cap <= all.len() ==> left == 0 && streams_bytes(left_streams) == all.skip(
                cap as int,
            )
            &&& cap > all.len() ==> left == cap - all.len() && left_streams.len() == 0
        }),
    decreases streams.len(),
{
    let all = streams_bytes(streams);
    if cap == 0 || streams.len() == 0 {
        assert(all.skip(0) == all);
    } else if streams[0].bytes().len() < cap {
        lemma_serve_streams_rest(streams.drop_first(), (cap - streams[0].bytes().len()) as nat);
        let (left_streams, left) = serve_streams(streams, cap);
        if cap <= all.len() {
            assert(streams_bytes(left_streams) =~= all.skip(cap as int));
        }
    } else {
        super::lemmas::lemma_streams_bytes_head(streams, cap);
    }
}

/// The bytes that a body has left after a read are its bytes without those
/// that the read served: the first `cap`, or all where there are fewer. How
/// the reads are cut does not change what is served.
pub proof fn law_rest_after_serve(v: PreparedView, cap: nat)
    ensures
        v.serve(cap).rest() == v.rest().skip(vstd::math::min(cap as int, v.rest().len() as int)),
        v.serve(cap).boundary == v.boundary,
        v.serve(cap).content_len == v.content_len,
{
    if cap <= v.text.len() {
        assert(v.serve(cap).rest() =~= v.rest().skip(cap as int));
    } else {
        let c = (cap - v.text.len()) as nat;
        lemma_serve_streams_rest(v.streams, c);
        let all = streams_bytes(v.streams);
        if c <= all.len() {
            assert(v.serve(cap).rest() =~= v.rest().skip(cap as int));
        } else {
            let left = (c - all.len()) as nat;
            assert(streams_bytes(Seq::<StreamView>::empty()) == Seq::<u8>::empty());
            assert(serve_streams(v.streams, c).0 == Seq::<StreamView>::empty());
            if left <= v.trailer.len() {
                assert(v.serve(cap).rest() =~= v.rest().skip(cap as int));
            } else {
                assert(v.serve(cap).rest() =~= v.rest().skip(v.rest().len() as int));
            }
        }
    }
}

/// A read into an empty destination leaves the body as it is, so the reads
/// after it serve what they would have served without it.
pub proof fn law_empty_read(v: PreparedView)
    ensures
        v.serve(0) == v,
{
    assert(v.serve(0) =~= v);
}

/// Serving never goes back: the stage after a read is the stage before it or
/// a later one.
pub proof fn law_phase_order(v: PreparedView, cap: nat)
    ensures
        v.phase().rank() <= v.serve(cap).phase().rank(),
{
    if cap > v.text.len() {
        lemma_serve_streams_rest(v.streams, (cap - v.text.len()) as nat);
    }
}

/// A read that asks for more than the body has left ends the body: nothing
/// is left to serve and no field is held.
pub proof fn law_full_read(v: PreparedView, cap: nat)
    requires
        cap > v.rest().len(),
    ensures
        v.serve(cap).phase() == Phase::Done,
        v.serve(cap).streams.len() == 0,
{
    lemma_serve_streams_rest(v.streams, (cap - v.text.len()) as nat);
}

/// The place in the bytes of a body just past the last byte of its `i`-th
/// streamed field.
pub open spec fn field_end(v: PreparedView, i: int) -> nat {
    v.text.len() + streams_bytes(v.streams.take(i + 1)).len()
}

/// Which fields of a row are gone after `cap` bytes were served from it:
/// those whose last byte lies before the `cap`-th byte of the row. The fields
/// behind the first that is left are as they were.
proof fn lemma_serve_streams_gone(streams: Seq<StreamView>, cap: nat)
    ensures
        ({
            let left_streams = serve_streams(streams, cap).0;
            let gone = streams.len() - left_streams.len();
            &&& 0 <= gone <= streams.len()
            &&& forall|i: int|
                0 <= i < streams.len() ==> (i < gone <==> #[trigger] streams_bytes(
                    streams.take(i + 1),
                ).len() < cap)
            &&& forall|j: int|
                1 <= j < left_streams.len() ==> #[trigger] left_streams[j] == streams[gone + j]
        }),
    decreases streams.len(),
{
    let left_streams = serve_streams(streams, cap).0;
    let gone = streams.len() - left_streams.len();
    if cap == 0 || streams.len() == 0 {
    } else {
        let head = streams[0];
        let tail = streams.drop_first();
        assert forall|i: int| 0 <= i < streams.len() implies #[trigger] streams_bytes(
            streams.take(i + 1),
        ).len() == head.bytes().len() + streams_bytes(tail.take(i)).len() by {
            assert(streams.take(i + 1).drop_first() == tail.take(i));
            assert(streams.take(i + 1)[0] == head);
        }
        assert(streams_bytes(tail.take(0)).len() == 0) by {
            assert(tail.take(0) == Seq::<StreamView>::empty());
        }
        if head.bytes().len() < cap {
            let c = (cap - head.bytes().len()) as nat;
            lemma_serve_streams_gone(tail, c);
            let tail_gone = tail.len() - left_streams.len();
            assert forall|i: int| 0 <= i < streams.len() implies (i < gone <==> #[trigger] streams_bytes(
                streams.take(i + 1),
            ).len() < cap) by {
                if i > 0 {
                    assert(i - 1 < tail_gone <==> streams_bytes(tail.take(i - 1 + 1)).len() < c);
                }
            }
            assert forall|j: int| 1 <= j < left_streams.len() implies #[trigger] left_streams[j]
                == streams[gone + j] by {
                assert(left_streams[j] == tail[tail_gone + j]);
            }
        } else {
            assert forall|i: int| 0 <= i < streams.len() implies (i < gone <==> #[trigger] streams_bytes(
                streams.take(i + 1),
            ).len() < cap) by {}
        }
    }
}

/// A streamed field is let go by the read that goes past its last byte, and
/// by none before it: after a read into a destination of `cap` bytes the
/// fields that are gone are those whose last byte lies before the `cap`-th
/// byte of what the body had left. The fields behind the one that is being
/// served are as they were. So a field, and the source that it holds, is
/// gone before the first byte of the next field is served.
pub proof fn law_drained_fields_are_let_go(v: PreparedView, cap: nat)
    ensures
        ({
            let w = v.serve(cap);
            let gone = v.streams.len() - w.streams.len();
            &&& 0 <= gone <= v.streams.len()
            &&& forall|i: int|
                0 <= i < v.streams.len() ==> (i < gone <==> #[trigger] field_end(v, i) < cap)
            &&& forall|j: int|
                1 <= j < w.streams.len() ==> #[trigger] w.streams[j] == v.streams[gone + j]
        }),
{
    let w = v.serve(cap);
    if cap > v.text.len() {
        let c = (cap - v.text.len()) as nat;
        lemma_serve_streams_gone(v.streams, c);
        let gone = v.streams.len() - w.streams.len();
        assert forall|i: int| 0 <= i < v.streams.len() implies (i < gone <==> #[trigger] field_end(
            v,
            i,
        ) < cap) by {
            assert(i < gone <==> streams_bytes(v.streams.take(i + 1)).len() < c);
        }
    }
}

/// Serving from a row of fields makes no field of another kind: fields
/// whose bodies are rows of bytes stay so, and fields that cannot fail stay
/// so.
proof fn lemma_serve_streams_kinds(streams: Seq<StreamView>, cap: nat)
    ensures
        all_rows(streams) ==> all_rows(serve_streams(streams, cap).0),
        all_reliable(streams) ==> all_reliable(serve_streams(streams, cap).0),
    decreases streams.len(),
{
    if cap == 0 || streams.len() == 0 {
    } else if streams[0].bytes().len() < cap {
        let tail = streams.drop_first();
        assert forall|i: int| 0 <= i < tail.len() implies (#[trigger] tail[i]) == streams[i + 1] by {}
        if all_rows(streams) {
            assert forall|i: int| 0 <= i < tail.len() implies (#[trigger] tail[i]).row by {
                assert(streams[i + 1].row);
            }
        }
        if all_reliable(streams) {
            assert forall|i: int| 0 <= i < tail.len() implies (#[trigger] tail[i]).reliable by {
                assert(streams[i + 1].reliable);
            }
        }
        lemma_serve_streams_kinds(tail, (cap - streams[0].bytes().len()) as nat);
    } else {
        let served = streams.update(0, streams[0].trimmed(cap));
        if all_rows(streams) {
            assert forall|i: int| 0 <= i < served.len() implies (#[trigger] served[i]).row by {
                assert(streams[i].row);
            }
        }
        if all_reliable(streams) {
            assert forall|i: int| 0 <= i < served.len() implies (#[trigger] served[i]).reliable by {
                assert(streams[i].reliable);
            }
        }
    }
}

/// A body whose sources are rows of bytes is such a body after every read,
/// and a body whose sources cannot fail is such a body after every read. So
/// what is known in advance of one read is known of all that follow.
pub proof fn law_serve_keeps_kinds(v: PreparedView, cap: nat)
    ensures
        all_rows(v.streams) ==> all_rows(v.serve(cap).streams),
        all_reliable(v.streams) ==> all_reliable(v.serve(cap).streams),
{
    if cap > v.text.len() {
        lemma_serve_streams_kinds(v.streams, (cap - v.text.len()) as nat);
    }
}

/// One move of a body whose sources are rows of bytes serves the next bytes
/// of the body and leaves the rest.
proof fn lemma_move_of_rows(v: PreparedView, w: PreparedView, bytes: Seq<u8>)
    requires
        all_rows(v.streams),
        moved(v, w, bytes),
    ensures
        all_rows(w.streams),
        bytes.len() <= v.rest().len(),
        bytes == v.rest().take(bytes.len() as int),
        w.rest() == v.rest().skip(bytes.len() as int),
{
    reveal(moved);
    let n = bytes.len();
    if v.text.len() > 0 {
        assert(v.rest().take(n as int) =~= v.text.take(n as int));
        assert(w.rest() =~= v.rest().skip(n as int));
    } else if v.streams.len() > 0 {
        let head = v.streams[0];
        assert(head.row);
        let tail = v.streams.drop_first();
        assert forall|i: int| 0 <= i < tail.len() implies (#[trigger] tail[i]).row by {
            assert(v.streams[i + 1].row);
        }
        if head.header.len() == 0 && n == 0 {
            assert(w.rest() =~= v.rest().skip(0));
            assert(bytes =~= v.rest().take(0));
        } else {
            assert(w.streams[0] == head.trimmed(n)) by {
                if head.header.len() == 0 {
                    assert(w.streams[0] =~= head.trimmed(n));
                }
            }
            assert(w.streams =~= v.streams.update(0, head.trimmed(n))) by {
                assert forall|i: int| 0 < i < w.streams.len() implies w.streams[i]
                    == v.streams[i] by {
                    assert(w.streams[i] == w.streams.drop_first()[i - 1]);
                    assert(v.streams[i] == tail[i - 1]);
                }
            }
            super::lemmas::lemma_streams_bytes_head(v.streams, n);
            super::lemmas::lemma_trimmed_bytes(head, n);
            assert(bytes =~= head.bytes().take(n as int));
            assert(v.rest().take(n as int) =~= head.bytes().take(n as int));
            assert(w.rest() =~= v.rest().skip(n as int));
            assert forall|i: int| 0 <= i < w.streams.len() implies (#[trigger] w.streams[i]).row by {
                if i > 0 {
                    assert(v.streams[i].row);
                }
            }
        }
    } else {
        assert(streams_bytes(v.streams) =~= Seq::<u8>::empty());
        assert(v.rest().take(n as int) =~= v.trailer.take(n as int));
        assert(w.rest() =~= v.rest().skip(n as int));
    }
}

/// Where every source is a row of bytes, the moves of a read serve the next
/// bytes of the body, as many as they are, and leave the rest: what a read
/// does move by move is what the body says in advance.
pub proof fn law_moves_of_rows(v: PreparedView, trace: Seq<Move>)
    requires
        all_rows(v.streams),
        follows(v, trace),
    ensures
        all_rows(moved_to(v, trace).streams),
        moved_bytes(trace).len() <= v.rest().len(),
        moved_bytes(trace) == v.rest().take(moved_bytes(trace).len() as int),
        moved_to(v, trace).rest() == v.rest().skip(moved_bytes(trace).len() as int),
    decreases trace.len(),
{
    if trace.len() == 0 {
        assert(v.rest().skip(0) =~= v.rest());
        assert(moved_bytes(trace) =~= v.rest().take(0));
    } else {
        let earlier = trace.drop_last();
        law_moves_of_rows(v, earlier);
        let before = moved_to(v, earlier);
        lemma_move_of_rows(before, trace.last().after, trace.last().bytes);
        let k = moved_bytes(earlier).len() as int;
        let n = trace.last().bytes.len() as int;
        assert(moved_bytes(trace) =~= v.rest().take(k + n));
        assert(moved_to(v, trace).rest() =~= v.rest().skip(k + n));
    }
}

/// A text field as a parser finds it: name and value, nothing else.
pub open spec fn text_part_of(name: Seq<char>, value: Seq<char>) -> Part {
    Part { name: bytes_of(name), filename: None, content_type: None, data: bytes_of(value) }
}

/// A streamed field as a parser finds it: name, file name where one is
/// declared, content type, and the bytes of the body.
pub open spec fn stream_part_of(
    name: Seq<char>,
    filename: Option<Seq<char>>,
    content_type: Seq<char>,
    data: Seq<u8>,
) -> Part {
    Part {
        name: bytes_of(name),
        filename: match filename {
            Some(f) => Some(bytes_of(f)),
            None => None,
        },
        content_type: Some(bytes_of(content_type)),
        data,
    }
}

/// The text fields of a form as a parser finds them, in the order of the
/// form.
pub open spec fn text_parts<R>(fields: Seq<FieldView<R>>) -> Seq<Part>
    decreases fields.len(),
{
    if fields.len() == 0 {
        Seq::empty()
    } else {
        let earlier = text_parts(fields.drop_last());
        match fields.last() {
            FieldView::Text { name, value } => earlier.push(text_part_of(name, value)),
            _ => earlier,
        }
    }
}

/// The file fields and stream fields of a form as a parser finds them, in
/// the order of the form, where opening the files gave `outcomes`.
pub open spec fn stream_parts<R: ByteSource, E>(
    fields: Seq<FieldView<R>>,
    outcomes: Seq<Result<(R, u64), E>>,
) -> Seq<Part>
    decreases fields.len(),
{
    if fields.len() == 0 {
        Seq::empty()
    } else {
        let earlier = stream_parts(fields.drop_last(), outcomes);
        match fields.last() {
            FieldView::Text { .. } => earlier,
            FieldView::File { name, path } => {
                match outcomes[file_paths(fields.drop_last()).len() as int] {
                    Ok((source, _)) => earlier.push(
                        stream_part_of(
                            name,
                            path_file_name(path),
                            guessed_content_type(path),
                            source.remaining(),
                        ),
                    ),
                    Err(_) => earlier,
                }
            },
            FieldView::Stream { name, filename, content_type, source } => earlier.push(
                stream_part_of(name, filename, content_type, source.remaining()),
            ),
        }
    }
}

/// The fields of a form as a parser finds them in the body: the text fields
/// first, then the file fields and stream fields, each kind in the order of
/// the form.
pub open spec fn parts_of<R: ByteSource, E>(
    fields: Seq<FieldView<R>>,
    outcomes: Seq<Result<(R, u64), E>>,
) -> Seq<Part> {
    text_parts(fields) + stream_parts(fields, outcomes)
}

/// The bytes of a row of parts with one more part at its end.
proof fn lemma_parts_bytes_push(parts: Seq<Part>, last: Part, token: Seq<char>)
    ensures
        parts_bytes(parts.push(last), token) == parts_bytes(parts, token) + part_bytes(last, token),
    decreases parts.len(),
{
    let all = parts.push(last);
    if parts.len() == 0 {
        assert(all.drop_first() == Seq::<Part>::empty());
        assert(parts_bytes(Seq::<Part>::empty(), token) == Seq::<u8>::empty());
        assert(all[0] == last);
        assert(parts_bytes(all, token) =~= parts_bytes(parts, token) + part_bytes(last, token));
    } else {
        assert(all.drop_first() == parts.drop_first().push(last));
        lemma_parts_bytes_push(parts.drop_first(), last, token);
        assert(parts_bytes(all, token) =~= parts_bytes(parts, token) + part_bytes(last, token));
    }
}

/// The bytes of two rows of parts, one after the other.
proof fn lemma_parts_bytes_concat(first: Seq<Part>, second: Seq<Part>, token: Seq<char>)
    ensures
        parts_bytes(first + second, token) == parts_bytes(first, token) + parts_bytes(
            second,
            token,
        ),
    decreases second.len(),
{
    if second.len() == 0 {
        assert(first + second == first);
        assert(parts_bytes(first + second, token) =~= parts_bytes(first, token) + parts_bytes(
            second,
            token,
        ));
    } else {
        assert(first + second == (first + second.drop_last()).push(second.last()));
        assert(second == second.drop_last().push(second.last()));
        lemma_parts_bytes_concat(first, second.drop_last(), token);
        lemma_parts_bytes_push(first + second.drop_last(), second.last(), token);
        lemma_parts_bytes_push(second.drop_last(), second.last(), token);
        assert(parts_bytes(first + second, token) =~= parts_bytes(first, token) + parts_bytes(
            second,
            token,
        ));
    }
}

/// A text field on the wire is its part on the wire, and so is a streamed
/// field.
proof fn lemma_part_bytes(
    token: Seq<char>,
    name: Seq<char>,
    value: Seq<char>,
    filename: Option<Seq<char>>,
    content_type: Seq<char>,
    data: Seq<u8>,
)
    ensures
        part_bytes(text_part_of(name, value), token) == text_part(token, name, value),
        part_bytes(stream_part_of(name, filename, content_type, data), token) == stream_header(
            token,
            name,
            filename,
            content_type,
        ) + data,
{
    assert(part_bytes(text_part_of(name, value), token) =~= text_part(token, name, value));
    assert(part_bytes(stream_part_of(name, filename, content_type, data), token)
        =~= stream_header(token, name, filename, content_type) + data);
}

/// What was put together is the parts of the form on the wire.
proof fn lemma_assembly_parts<R: ByteSource, E>(
    fields: Seq<FieldView<R>>,
    token: Seq<char>,
    outcomes: Seq<Result<(R, u64), E>>,
)
    requires
        assemble(fields, token, outcomes) is Ok,
    ensures
        ({
            let a = assemble(fields, token, outcomes)->Ok_0;
            &&& a.text == parts_bytes(text_parts(fields), token)
            &&& streams_bytes(a.streams) == parts_bytes(stream_parts(fields, outcomes), token)
            &&& a.streams.len() == stream_parts(fields, outcomes).len()
            &&& a.text.len() == 0 <==> text_parts(fields).len() == 0
        }),
    decreases fields.len(),
{
    if fields.len() > 0 {
        let earlier = fields.drop_last();
        lemma_assembly_parts(earlier, token, outcomes);
        let e = assemble(earlier, token, outcomes)->Ok_0;
        let a = assemble(fields, token, outcomes)->Ok_0;
        lemma_delimiter_len(token);
        match fields.last() {
            FieldView::Text { name, value } => {
                lemma_part_bytes(token, name, value, None, name, Seq::empty());
                lemma_parts_bytes_push(text_parts(earlier), text_part_of(name, value), token);
            },
            FieldView::File { name, path } => {
                let outcome = outcomes[file_paths(earlier).len() as int];
                let source = outcome->Ok_0.0;
                let part = stream_part_of(
                    name,
                    path_file_name(path),
                    guessed_content_type(path),
                    source.remaining(),
                );
                lemma_part_bytes(
                    token,
                    name,
                    name,
                    path_file_name(path),
                    guessed_content_type(path),
                    source.remaining(),
                );
                lemma_parts_bytes_push(stream_parts(earlier, outcomes), part, token);
                lemma_streams_bytes_push(e.streams, a.streams.last());
            },
            FieldView::Stream { name, filename, content_type, source } => {
                let part = stream_part_of(name, filename, content_type, source.remaining());
                lemma_part_bytes(token, name, name, filename, content_type, source.remaining());
                lemma_parts_bytes_push(stream_parts(earlier, outcomes), part, token);
                lemma_streams_bytes_push(e.streams, a.streams.last());
            },
        }
    } else {
        assert(parts_bytes(Seq::<Part>::empty(), token) == Seq::<u8>::empty());
        assert(streams_bytes(Seq::<StreamView>::empty()) == Seq::<u8>::empty());
    }
}

/// The bytes of a body are its parts on the wire: each part opens with the
/// delimiter and its header, the text fields come first, and the closing
/// delimiter ends the body.
pub proof fn law_body_is_wire<R: ByteSource, E>(
    fields: Seq<FieldView<R>>,
    token: Seq<char>,
    outcomes: Seq<Result<(R, u64), E>>,
)
    requires
        prepared(fields, token, outcomes) is Ok,
    ensures
        prepared(fields, token, outcomes)->Ok_0.rest() == wire(parts_of(fields, outcomes), token),
{
    let body = prepared(fields, token, outcomes)->Ok_0;
    lemma_assembly_parts(fields, token, outcomes);
    lemma_parts_bytes_concat(text_parts(fields), stream_parts(fields, outcomes), token);
    assert(body.rest() =~= wire(parts_of(fields, outcomes), token));
}

/// A parser finds the fields of a form again in its body: their names,
/// their values and the bytes of their files and streams, with the file
/// names and content types that were declared. This holds of a body under a
/// generated token whose sources are rows of bytes and whose parts hold
/// nothing that the format gives a meaning to: no quote in a name or file
/// name, no line break in a content type, and the delimiter nowhere in a
/// value or a body.
pub proof fn law_round_trip<R: ByteSource, E>(
    fields: Seq<FieldView<R>>,
    token: Seq<char>,
    outcomes: Seq<Result<(R, u64), E>>,
)
    requires
        is_boundary_token(token),
        prepared(fields, token, outcomes) is Ok,
        all_rows(prepared(fields, token, outcomes)->Ok_0.streams),
        forall|i: int|
            0 <= i < parts_of(fields, outcomes).len() ==> parseable(
                #[trigger] parts_of(fields, outcomes)[i],
                token,
            ),
    ensures
        parse_body(prepared(fields, token, outcomes)->Ok_0.rest(), token) == Some(
            parts_of(fields, outcomes),
        ),
{
    law_body_is_wire(fields, token, outcomes);
    law_parse_wire(parts_of(fields, outcomes), token);
}

} // verus!
