use super::fields::FieldView;
use super::model::{
    assemble, file_header, file_paths, follows, moved, moved_bytes, moved_to,
    opened_by, opened_in_order, serve_streams, streams_bytes, Assembly, LazyErrorView, Move,
    PreparedView, StreamView,
};
use super::source::ByteSource;
use super::wire::{stream_header, text_part};
use vstd::prelude::*;

verus! {

/// Outcomes that no field of `fields` asks for change nothing.
pub proof fn lemma_assemble_later_outcome<R: ByteSource, E>(
    fields: Seq<FieldView<R>>,
    token: Seq<char>,
    outcomes: Seq<Result<(R, u64), E>>,
    outcome: Result<(R, u64), E>,
)
    requires
        file_paths(fields).len() <= outcomes.len(),
    ensures
        assemble(fields, token, outcomes.push(outcome)) == assemble(fields, token, outcomes),
    decreases fields.len(),
{
    if fields.len() > 0 {
        lemma_assemble_later_outcome(fields.drop_last(), token, outcomes, outcome);
    }
}

/// Where the field at `i` is a file field, `open` may be called on its path.
pub proof fn lemma_can_open_at<F, R, E>(open: F, fields: Seq<FieldView<R>>, i: int, p: &str) where
    F: Fn(&str) -> Result<(R, u64), E>,

    requires
        0 <= i < fields.len(),
        forall|q: &str, k: int|
            0 <= k < file_paths(fields).len() && q@ == #[trigger] file_paths(fields)[k]
                ==> #[trigger] call_requires(open, (q,)),
        fields[i] is File,
        fields[i]->File_path == p@,
    ensures
        call_requires(open, (p,)),
{
    let before = fields.take(i);
    let after = fields.take(i + 1);
    assert(after.drop_last() == before);
    assert(after.last() == fields[i]);
    lemma_file_paths_prefix(fields, i + 1);
    let k = file_paths(before).len() as int;
    assert(file_paths(after) == file_paths(before).push(p@));
    assert(file_paths(fields)[k] == file_paths(after)[k]);
}

/// One more file opened after a row of files that all opened.
pub proof fn lemma_opened_next<F, R, E>(
    open: F,
    paths: Seq<Seq<char>>,
    outcomes: Seq<Result<(R, u64), E>>,
    path: Seq<char>,
    outcome: Result<(R, u64), E>,
) where F: Fn(&str) -> Result<(R, u64), E>
    requires
        opened_in_order(open, paths, outcomes),
        outcomes.len() == paths.len(),
        forall|k: int| 0 <= k < outcomes.len() ==> (#[trigger] outcomes[k]) is Ok,
        opened_by(open, path, outcome),
    ensures
        opened_in_order(open, paths.push(path), outcomes.push(outcome)),
{
    let paths2 = paths.push(path);
    let outcomes2 = outcomes.push(outcome);
    assert forall|k: int| 0 <= k < outcomes2.len() implies opened_by(
        open,
        paths2[k],
        #[trigger] outcomes2[k],
    ) by {
        if k < outcomes.len() {
            assert(outcomes2[k] == outcomes[k]);
            assert(paths2[k] == paths[k]);
        }
    }
    assert forall|k: int| 0 <= k < outcomes2.len() - 1 implies (#[trigger] outcomes2[k]) is Ok by {
        assert(outcomes2[k] == outcomes[k]);
    }
}

/// The files of the first fields are the first files.
pub proof fn lemma_file_paths_prefix<R>(fields: Seq<FieldView<R>>, i: int)
    requires
        0 <= i <= fields.len(),
    ensures
        file_paths(fields.take(i)).len() <= file_paths(fields).len(),
        file_paths(fields.take(i)) == file_paths(fields).take(
            file_paths(fields.take(i)).len() as int,
        ),
    decreases fields.len(),
{
    if i == fields.len() {
        assert(fields.take(i) == fields);
    } else {
        assert(fields.take(i) == fields.drop_last().take(i));
        lemma_file_paths_prefix(fields.drop_last(), i);
    }
}

/// A failure among the first fields is the failure of the whole.
pub proof fn lemma_assemble_failure_stays<R: ByteSource, E>(
    fields: Seq<FieldView<R>>,
    i: int,
    token: Seq<char>,
    outcomes: Seq<Result<(R, u64), E>>,
)
    requires
        0 <= i <= fields.len(),
        assemble(fields.take(i), token, outcomes) is Err,
    ensures
        assemble(fields, token, outcomes) == assemble(fields.take(i), token, outcomes),
    decreases fields.len(),
{
    if i == fields.len() {
        assert(fields.take(i) == fields);
    } else {
        assert(fields.take(i) == fields.drop_last().take(i));
        lemma_assemble_failure_stays(fields.drop_last(), i, token, outcomes);
    }
}

/// Outcomes that end in a failure after the first `i` fields are the outcomes
/// of the whole row.
pub proof fn lemma_opened_until_failure<F, R, E>(
    open: F,
    fields: Seq<FieldView<R>>,
    i: int,
    outcomes: Seq<Result<(R, u64), E>>,
) where F: Fn(&str) -> Result<(R, u64), E>
    requires
        0 <= i <= fields.len(),
        opened_in_order(open, file_paths(fields.take(i)), outcomes),
        outcomes.len() > 0,
        outcomes.last() is Err,
    ensures
        opened_in_order(open, file_paths(fields), outcomes),
{
    lemma_file_paths_prefix(fields, i);
    let part = file_paths(fields.take(i));
    let whole = file_paths(fields);
    assert forall|k: int| 0 <= k < outcomes.len() implies opened_by(
        open,
        whole[k],
        #[trigger] outcomes[k],
    ) by {
        assert(part[k] == whole[k]);
    }
}

/// What is left of a field after `n` of its bytes were served is its bytes
/// without the first `n`.
pub proof fn lemma_trimmed_bytes(field: StreamView, n: nat)
    requires
        n <= field.bytes().len(),
    ensures
        field.trimmed(n).bytes() == field.bytes().skip(n as int),
        field.trimmed(0) == field,
{
    assert(field.trimmed(n).bytes() =~= field.bytes().skip(n as int));
    assert(field.trimmed(0) =~= field);
}

/// Serving a field in two goes is serving it in one.
pub proof fn lemma_trimmed_twice(field: StreamView, m: nat, n: nat)
    requires
        m + n <= field.bytes().len(),
        0 < m <= field.header.len() || field.header.len() == 0,
    ensures
        field.trimmed(m).trimmed(n) == field.trimmed(m + n),
{
    assert(field.trimmed(m).trimmed(n) =~= field.trimmed(m + n));
}

/// A row of fields whose first was served in part gives the bytes of the row
/// without those that were served.
pub proof fn lemma_streams_bytes_head(streams: Seq<StreamView>, n: nat)
    requires
        streams.len() > 0,
        n <= streams[0].bytes().len(),
    ensures
        streams_bytes(streams.update(0, streams[0].trimmed(n))) == streams_bytes(streams).skip(
            n as int,
        ),
        streams_bytes(streams).take(n as int) == streams[0].bytes().take(n as int),
{
    let served = streams.update(0, streams[0].trimmed(n));
    lemma_trimmed_bytes(streams[0], n);
    assert(served.drop_first() == streams.drop_first());
    assert(streams_bytes(served) =~= streams_bytes(streams).skip(n as int));
    assert(streams_bytes(streams).take(n as int) =~= streams[0].bytes().take(n as int));
}

/// Serving from text that lasts: nothing but the text changes.
pub proof fn lemma_serve_text(v: PreparedView, cap: nat, k: nat)
    requires
        k <= cap,
        k <= v.text.len(),
        k == cap || k == v.text.len(),
    ensures
        v.serve(cap) == (PreparedView { text: v.text.skip(k as int), ..v }).serve((cap - k) as nat),
        (PreparedView { text: v.text.skip(k as int), ..v }).rest() == v.rest().skip(k as int),
        v.rest().take(k as int) == v.text.take(k as int),
{
    let w = PreparedView { text: v.text.skip(k as int), ..v };
    assert(w.rest() =~= v.rest().skip(k as int));
    assert(v.rest().take(k as int) =~= v.text.take(k as int));
    if k == cap {
        assert(w.serve(0) =~= w);
        assert(v.serve(cap) =~= w);
    } else {
        assert(w.text =~= Seq::<u8>::empty());
        assert(v.serve(cap) =~= w.serve((cap - k) as nat));
    }
}

/// Serving part of the first streamed field, once the text is gone.
pub proof fn lemma_serve_head(v: PreparedView, cap: nat, k: nat)
    requires
        v.text.len() == 0,
        v.streams.len() > 0,
        0 < k <= cap,
        k <= v.streams[0].bytes().len(),
        k <= v.streams[0].header.len() || v.streams[0].header.len() == 0,
    ensures
        v.serve(cap) == (PreparedView {
            streams: v.streams.update(0, v.streams[0].trimmed(k)),
            ..v
        }).serve((cap - k) as nat),
        (PreparedView { streams: v.streams.update(0, v.streams[0].trimmed(k)), ..v }).rest()
            == v.rest().skip(k as int),
        v.rest().take(k as int) == v.streams[0].bytes().take(k as int),
{
    let head = v.streams[0];
    let served = v.streams.update(0, head.trimmed(k));
    let w = PreparedView { streams: served, ..v };
    lemma_streams_bytes_head(v.streams, k);
    lemma_trimmed_bytes(head, k);
    assert(w.rest() =~= v.rest().skip(k as int));
    assert(v.rest().take(k as int) =~= head.bytes().take(k as int));
    assert(served.drop_first() == v.streams.drop_first());
    let left = (cap - k) as nat;
    if left == 0 {
        assert(serve_streams(served, 0) == (served, 0nat));
        assert(w.serve(0) =~= w);
        assert(serve_streams(v.streams, cap) == (served, 0nat));
        assert(v.serve(cap) =~= w);
    } else if head.bytes().len() < cap {
        assert(served[0].bytes().len() < left);
        assert(serve_streams(served, left) == serve_streams(v.streams, cap));
        assert(v.serve(cap) =~= w.serve(left));
    } else {
        lemma_trimmed_twice(head, k, left);
        assert(served.update(0, served[0].trimmed(left)) == v.streams.update(0, head.trimmed(cap)));
        assert(v.serve(cap) =~= w.serve(left));
    }
}

/// Letting go of a first streamed field that has nothing left.
pub proof fn lemma_serve_drop(v: PreparedView, cap: nat)
    requires
        v.text.len() == 0,
        v.streams.len() > 0,
        v.streams[0].bytes().len() == 0,
        cap > 0,
    ensures
        v.serve(cap) == (PreparedView { streams: v.streams.drop_first(), ..v }).serve(cap),
        (PreparedView { streams: v.streams.drop_first(), ..v }).rest() == v.rest(),
{
    let w = PreparedView { streams: v.streams.drop_first(), ..v };
    assert(w.rest() =~= v.rest());
    assert(v.serve(cap) =~= w.serve(cap));
}

/// Serving from the closing delimiter, once all fields are gone.
pub proof fn lemma_serve_trailer(v: PreparedView, cap: nat, k: nat)
    requires
        v.text.len() == 0,
        v.streams.len() == 0,
        k <= cap,
        k <= v.trailer.len(),
        k == cap || k == v.trailer.len(),
    ensures
        v.serve(cap) == (PreparedView { trailer: v.trailer.skip(k as int), ..v }).serve(
            (cap - k) as nat,
        ),
        (PreparedView { trailer: v.trailer.skip(k as int), ..v }).rest() == v.rest().skip(
            k as int,
        ),
        v.rest().take(k as int) == v.trailer.take(k as int),
{
    let w = PreparedView { trailer: v.trailer.skip(k as int), ..v };
    assert(streams_bytes(v.streams) =~= Seq::<u8>::empty());
    assert(w.rest() =~= v.rest().skip(k as int));
    assert(v.rest().take(k as int) =~= v.trailer.take(k as int));
    assert(v.serve(cap) =~= w.serve((cap - k) as nat));
}

/// Nothing is served where no byte is asked for or none is left.
pub proof fn lemma_serve_nothing(v: PreparedView, cap: nat)
    requires
        cap == 0 || v.rest().len() == 0 && v.streams.len() == 0,
    ensures
        v.serve(cap) == v,
{
    assert(v.serve(cap) =~= v);
}

/// Where no field reads a file, the outcomes of opening files do not matter,
/// and the fields are put together without a failure.
pub proof fn lemma_assemble_without_files<R: ByteSource, E>(
    fields: Seq<FieldView<R>>,
    token: Seq<char>,
    outcomes: Seq<Result<(R, u64), E>>,
)
    requires
        file_paths(fields).len() == 0,
    ensures
        assemble(fields, token, outcomes) is Ok,
        assemble(fields, token, outcomes) == assemble(
            fields,
            token,
            Seq::<Result<(R, u64), E>>::empty(),
        ),
    decreases fields.len(),
{
    if fields.len() > 0 {
        lemma_assemble_without_files(fields.drop_last(), token, outcomes);
    }
}

/// One more move behind a row of moves.
pub proof fn lemma_follows_push(v: PreparedView, trace: Seq<Move>, next: Move)
    requires
        follows(v, trace),
        moved(moved_to(v, trace), next.after, next.bytes),
    ensures
        follows(v, trace.push(next)),
        moved_to(v, trace.push(next)) == next.after,
        moved_bytes(trace.push(next)) == moved_bytes(trace) + next.bytes,
{
    assert(trace.push(next).drop_last() == trace);
}

} // verus!
