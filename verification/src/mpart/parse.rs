use super::boundary::is_boundary_token;
use super::wire::{bytes_of, closing_delimiter, delimiter};
use vstd::prelude::*;

verus! {

/// The byte of the double quote.
pub open spec fn quote() -> u8 {
    0x22
}

/// The byte of the carriage return.
pub open spec fn cr() -> u8 {
    0x0d
}

/// Whether `bytes` begins with `start`.
pub open spec fn starts_with(bytes: Seq<u8>, start: Seq<u8>) -> bool {
    start.len() <= bytes.len() && bytes.take(start.len() as int) =~= start
}

/// Whether `pattern` stands somewhere in `bytes`.
pub open spec fn contains(bytes: Seq<u8>, pattern: Seq<u8>) -> bool {
    exists|i: int|
        0 <= i && i + pattern.len() <= bytes.len() && #[trigger] bytes.subrange(
            i,
            i + pattern.len(),
        ) =~= pattern
}

/// The first place in `bytes` where `pattern` begins.
pub open spec fn find(bytes: Seq<u8>, pattern: Seq<u8>) -> Option<int>
    decreases bytes.len(),
{
    if starts_with(bytes, pattern) {
        Some(0)
    } else if bytes.len() == 0 {
        None
    } else {
        match find(bytes.drop_first(), pattern) {
            Some(i) => Some(i + 1),
            None => None,
        }
    }
}

/// How many bytes stand in `bytes` before the first `stop`; all of them
/// where there is none.
pub open spec fn scan(bytes: Seq<u8>, stop: u8) -> int
    decreases bytes.len(),
{
    if bytes.len() == 0 || bytes[0] == stop {
        0
    } else {
        1 + scan(bytes.drop_first(), stop)
    }
}

/// What follows `start` in `bytes`, where `bytes` begins with it.
pub open spec fn expect(bytes: Seq<u8>, start: Seq<u8>) -> Option<Seq<u8>> {
    if starts_with(bytes, start) {
        Some(bytes.skip(start.len() as int))
    } else {
        None
    }
}

/// The bytes before the first `stop` and the bytes behind it, where there is
/// a `stop`.
pub open spec fn until(bytes: Seq<u8>, stop: u8) -> Option<(Seq<u8>, Seq<u8>)> {
    let n = scan(bytes, stop);
    if n < bytes.len() {
        Some((bytes.take(n), bytes.skip(n + 1)))
    } else {
        None
    }
}

/// After `start` comes what follows it.
pub proof fn lemma_expect(start: Seq<u8>, rest: Seq<u8>)
    ensures
        starts_with(start + rest, start),
        expect(start + rest, start) == Some(rest),
{
    assert((start + rest).take(start.len() as int) =~= start);
    assert((start + rest).skip(start.len() as int) =~= rest);
}

/// Bytes that begin differently do not begin with `start`.
pub proof fn lemma_not_expect(bytes: Seq<u8>, start: Seq<u8>, i: int)
    requires
        0 <= i < start.len(),
        bytes.len() <= i || bytes[i] != start[i],
    ensures
        !starts_with(bytes, start),
{
    if start.len() <= bytes.len() {
        assert(bytes.take(start.len() as int)[i] == bytes[i]);
    }
}

/// Bytes without a `stop`, then a `stop`: the scan ends at the `stop`.
pub proof fn lemma_until(before: Seq<u8>, stop: u8, rest: Seq<u8>)
    requires
        forall|i: int| 0 <= i < before.len() ==> before[i] != stop,
    ensures
        scan(before + seq![stop] + rest, stop) == before.len(),
        until(before + seq![stop] + rest, stop) == Some((before, rest)),
    decreases before.len(),
{
    let all = before + seq![stop] + rest;
    if before.len() == 0 {
        assert(all[0] == stop);
    } else {
        assert(all[0] == before[0]);
        assert(all.drop_first() =~= before.drop_first() + seq![stop] + rest);
        lemma_until(before.drop_first(), stop, rest);
    }
    assert(all.take(before.len() as int) =~= before);
    assert(all.skip(before.len() as int + 1) =~= rest);
}

/// Where `pattern` begins nowhere before the end of `before`, its first
/// place in `before + pattern + rest` is the end of `before`.
pub proof fn lemma_find(before: Seq<u8>, pattern: Seq<u8>, rest: Seq<u8>)
    requires
        forall|i: int|
            0 <= i < before.len() ==> !starts_with(
                #[trigger] (before + pattern + rest).skip(i),
                pattern,
            ),
    ensures
        find(before + pattern + rest, pattern) == Some(before.len() as int),
    decreases before.len(),
{
    let all = before + pattern + rest;
    if before.len() == 0 {
        assert(all.take(pattern.len() as int) =~= pattern);
    } else {
        assert(all.skip(0) =~= all);
        let tail = before.drop_first();
        assert(all.drop_first() =~= tail + pattern + rest);
        assert forall|i: int| 0 <= i < tail.len() implies !starts_with(
            #[trigger] (tail + pattern + rest).skip(i),
            pattern,
        ) by {
            assert((tail + pattern + rest).skip(i) =~= all.skip(i + 1));
        }
        lemma_find(tail, pattern, rest);
    }
}

/// Whether `pattern` begins with a carriage return and holds no other.
pub open spec fn leads_with_cr(pattern: Seq<u8>) -> bool {
    &&& pattern.len() > 0
    &&& pattern[0] == cr()
    &&& forall|j: int| 0 < j < pattern.len() ==> pattern[j] != cr()
}

/// A pattern that begins with a carriage return and holds no other does not
/// begin in bytes that do not hold it, even where it follows them.
pub proof fn lemma_find_delimiter(before: Seq<u8>, pattern: Seq<u8>, rest: Seq<u8>)
    requires
        leads_with_cr(pattern),
        !contains(before, pattern),
    ensures
        find(before + pattern + rest, pattern) == Some(before.len() as int),
{
    let all = before + pattern + rest;
    assert forall|i: int| 0 <= i < before.len() implies !starts_with(
        #[trigger] all.skip(i),
        pattern,
    ) by {
        if starts_with(all.skip(i), pattern) {
            let found = all.skip(i).take(pattern.len() as int);
            if i + pattern.len() <= before.len() {
                assert(before.subrange(i, i + pattern.len()) =~= found);
            } else {
                let j = before.len() - i;
                assert(found[j] == all[before.len() as int]);
                assert(all[before.len() as int] == pattern[0]);
            }
        }
    }
    lemma_find(before, pattern, rest);
}

/// What opens the header of a part, up to the quote before the name.
pub open spec fn intro() -> Seq<u8> {
    bytes_of("\r\nContent-Disposition: form-data; name=\""@)
}

/// What stands between the name and the file name.
pub open spec fn filename_intro() -> Seq<u8> {
    bytes_of("; filename=\""@)
}

/// What stands before the content type.
pub open spec fn type_intro() -> Seq<u8> {
    bytes_of("\r\nContent-Type: "@)
}

/// The end of one line and an empty line: the end of a header.
pub open spec fn blank_line() -> Seq<u8> {
    bytes_of("\r\n\r\n"@)
}

/// The quote that closes a name.
pub open spec fn quote_mark() -> Seq<u8> {
    bytes_of("\""@)
}

/// One field as a parser finds it in a body: its name, the file name and the
/// content type where the header gives them, and its data.
#[verifier::ext_equal]
pub struct Part {
    pub name: Seq<u8>,
    pub filename: Option<Seq<u8>>,
    pub content_type: Option<Seq<u8>>,
    pub data: Seq<u8>,
}

/// The file name of a header, where there is one, and what follows it.
pub open spec fn parse_filename(bytes: Seq<u8>) -> Option<(Option<Seq<u8>>, Seq<u8>)> {
    match expect(bytes, filename_intro()) {
        None => Some((None, bytes)),
        Some(after) => match until(after, quote()) {
            None => None,
            Some((filename, rest)) => Some((Some(filename), rest)),
        },
    }
}

/// The content type of a header, where there is one, and what follows the
/// header.
pub open spec fn parse_type(bytes: Seq<u8>) -> Option<(Option<Seq<u8>>, Seq<u8>)> {
    match expect(bytes, blank_line()) {
        Some(rest) => Some((None, rest)),
        None => match expect(bytes, type_intro()) {
            None => None,
            Some(after) => {
                let n = scan(after, cr());
                match expect(after.skip(n), blank_line()) {
                    None => None,
                    Some(rest) => Some((Some(after.take(n)), rest)),
                }
            },
        },
    }
}

/// The header at the front of `bytes`: name, file name, content type, and
/// what follows the header.
pub open spec fn parse_head(bytes: Seq<u8>) -> Option<
    (Seq<u8>, Option<Seq<u8>>, Option<Seq<u8>>, Seq<u8>),
> {
    match expect(bytes, intro()) {
        None => None,
        Some(after) => match until(after, quote()) {
            None => None,
            Some((name, after_name)) => match parse_filename(after_name) {
                None => None,
                Some((filename, after_filename)) => match parse_type(after_filename) {
                    None => None,
                    Some((content_type, rest)) => Some((name, filename, content_type, rest)),
                },
            },
        },
    }
}

/// The parts in `bytes`, which begin with a delimiter, up to the closing
/// delimiter, with which `bytes` must end. The data of a part ends where the
/// next delimiter begins.
pub open spec fn parse_parts(bytes: Seq<u8>, token: Seq<char>) -> Option<Seq<Part>>
    decreases bytes.len(),
{
    match expect(bytes, delimiter(token)) {
        None => None,
        Some(after) => if after =~= bytes_of("--"@) {
            Some(Seq::empty())
        } else {
            match parse_head(after) {
                None => None,
                Some((name, filename, content_type, rest)) => match find(rest, delimiter(token)) {
                    None => None,
                    Some(end) => if 0 <= end && rest.skip(end).len() < bytes.len() {
                        match parse_parts(rest.skip(end), token) {
                            None => None,
                            Some(parts) => Some(
                                seq![Part { name, filename, content_type, data: rest.take(end) }]
                                    + parts,
                            ),
                        }
                    } else {
                        None
                    },
                },
            }
        },
    }
}

/// The parts of a body: none in an empty body.
pub open spec fn parse_body(bytes: Seq<u8>, token: Seq<char>) -> Option<Seq<Part>> {
    if bytes.len() == 0 {
        Some(Seq::empty())
    } else {
        parse_parts(bytes, token)
    }
}

/// The header of a part on the wire.
pub open spec fn head_bytes(
    name: Seq<u8>,
    filename: Option<Seq<u8>>,
    content_type: Option<Seq<u8>>,
) -> Seq<u8> {
    intro() + name + quote_mark() + match filename {
        Some(f) => filename_intro() + f + quote_mark(),
        None => Seq::empty(),
    } + match content_type {
        Some(t) => type_intro() + t,
        None => Seq::empty(),
    } + blank_line()
}

/// A part on the wire: delimiter, header, data.
pub open spec fn part_bytes(part: Part, token: Seq<char>) -> Seq<u8> {
    delimiter(token) + head_bytes(part.name, part.filename, part.content_type) + part.data
}

/// A row of parts on the wire.
pub open spec fn parts_bytes(parts: Seq<Part>, token: Seq<char>) -> Seq<u8>
    decreases parts.len(),
{
    if parts.len() == 0 {
        Seq::empty()
    } else {
        part_bytes(parts[0], token) + parts_bytes(parts.drop_first(), token)
    }
}

/// A body on the wire: its parts and the closing delimiter; nothing where
/// there is no part.
pub open spec fn wire(parts: Seq<Part>, token: Seq<char>) -> Seq<u8> {
    if parts.len() == 0 {
        Seq::empty()
    } else {
        parts_bytes(parts, token) + closing_delimiter(token)
    }
}

/// Whether `bytes` holds the byte `b`.
pub open spec fn has_byte(bytes: Seq<u8>, b: u8) -> bool {
    exists|i: int| 0 <= i < bytes.len() && #[trigger] bytes[i] == b
}

/// Whether a parser can find `part` again in a body under `token`: no quote
/// stands in its name or its file name, no carriage return in its content
/// type, and the delimiter nowhere in its data.
pub open spec fn parseable(part: Part, token: Seq<char>) -> bool {
    &&& !has_byte(part.name, quote())
    &&& part.filename matches Some(f) ==> !has_byte(f, quote())
    &&& part.content_type matches Some(t) ==> !has_byte(t, cr())
    &&& !contains(part.data, delimiter(token))
}

/// What the fixed pieces of the format are made of.
pub proof fn lemma_pieces()
    ensures
        quote_mark() == seq![quote()],
        filename_intro().len() > 0,
        filename_intro()[0] == 0x3b,
        blank_line().len() == 4,
        blank_line()[0] == cr(),
        blank_line()[2] == cr(),
        type_intro().len() > 2,
        type_intro()[0] == cr(),
        type_intro()[2] != cr(),
        intro().len() > 2,
        intro()[0] == cr(),
        bytes_of("--"@).len() == 2,
{
    reveal_strlit("\r\nContent-Disposition: form-data; name=\"");
    reveal_strlit("; filename=\"");
    reveal_strlit("\r\nContent-Type: ");
    reveal_strlit("\r\n\r\n");
    reveal_strlit("\"");
    reveal_strlit("--");
    vstd::utf8::is_ascii_chars_encode_utf8("\r\nContent-Disposition: form-data; name=\""@);
    vstd::utf8::is_ascii_chars_encode_utf8("; filename=\""@);
    vstd::utf8::is_ascii_chars_encode_utf8("\r\nContent-Type: "@);
    vstd::utf8::is_ascii_chars_encode_utf8("\r\n\r\n"@);
    vstd::utf8::is_ascii_chars_encode_utf8("\""@);
    vstd::utf8::is_ascii_chars_encode_utf8("--"@);
    assert(quote_mark() =~= seq![quote()]);
}

/// No byte of `bytes` is `b`, said of every place.
proof fn lemma_no_byte(bytes: Seq<u8>, b: u8)
    requires
        !has_byte(bytes, b),
    ensures
        forall|i: int| 0 <= i < bytes.len() ==> bytes[i] != b,
{
    assert forall|i: int| 0 <= i < bytes.len() implies bytes[i] != b by {
        if bytes[i] == b {
            assert(has_byte(bytes, b));
        }
    }
}

/// The file name is found again, given or not.
proof fn lemma_parse_filename(filename: Option<Seq<u8>>, rest: Seq<u8>)
    requires
        filename matches Some(f) ==> !has_byte(f, quote()),
        rest.len() > 0,
        rest[0] == cr(),
    ensures
        parse_filename(
            match filename {
                Some(f) => filename_intro() + f + quote_mark(),
                None => Seq::empty(),
            } + rest,
        ) == Some((filename, rest)),
{
    lemma_pieces();
    match filename {
        Some(f) => {
            let bytes = filename_intro() + f + quote_mark() + rest;
            assert(bytes =~= filename_intro() + (f + seq![quote()] + rest));
            lemma_expect(filename_intro(), f + seq![quote()] + rest);
            lemma_no_byte(f, quote());
            lemma_until(f, quote(), rest);
        },
        None => {
            assert(Seq::<u8>::empty() + rest =~= rest);
            lemma_not_expect(rest, filename_intro(), 0);
        },
    }
}

/// The content type is found again, given or not.
proof fn lemma_parse_type(content_type: Option<Seq<u8>>, rest: Seq<u8>)
    requires
        content_type matches Some(t) ==> !has_byte(t, cr()),
    ensures
        parse_type(
            match content_type {
                Some(t) => type_intro() + t,
                None => Seq::empty(),
            } + blank_line() + rest,
        ) == Some((content_type, rest)),
{
    lemma_pieces();
    match content_type {
        Some(t) => {
            let bytes = type_intro() + t + blank_line() + rest;
            let after = t + blank_line() + rest;
            assert(bytes =~= type_intro() + after);
            assert(bytes[2] == type_intro()[2]);
            lemma_not_expect(bytes, blank_line(), 2);
            lemma_expect(type_intro(), after);
            let behind = blank_line().skip(1) + rest;
            assert(after =~= t + seq![cr()] + behind);
            lemma_no_byte(t, cr());
            lemma_until(t, cr(), behind);
            assert(after.skip(t.len() as int) =~= blank_line() + rest);
            lemma_expect(blank_line(), rest);
            assert(after.take(t.len() as int) =~= t);
        },
        None => {
            assert(Seq::<u8>::empty() + blank_line() + rest =~= blank_line() + rest);
            lemma_expect(blank_line(), rest);
        },
    }
}

/// A header is found again at the front of what it stands before.
proof fn lemma_parse_head(
    name: Seq<u8>,
    filename: Option<Seq<u8>>,
    content_type: Option<Seq<u8>>,
    rest: Seq<u8>,
)
    requires
        !has_byte(name, quote()),
        filename matches Some(f) ==> !has_byte(f, quote()),
        content_type matches Some(t) ==> !has_byte(t, cr()),
    ensures
        parse_head(head_bytes(name, filename, content_type) + rest) == Some(
            (name, filename, content_type, rest),
        ),
{
    lemma_pieces();
    let file_part = match filename {
        Some(f) => filename_intro() + f + quote_mark(),
        None => Seq::empty(),
    };
    let type_part = match content_type {
        Some(t) => type_intro() + t,
        None => Seq::empty(),
    };
    let after_filename = type_part + blank_line() + rest;
    let after_name = file_part + after_filename;
    let bytes = head_bytes(name, filename, content_type) + rest;
    assert(bytes =~= intro() + (name + seq![quote()] + after_name));
    lemma_expect(intro(), name + seq![quote()] + after_name);
    lemma_no_byte(name, quote());
    lemma_until(name, quote(), after_name);
    assert(after_filename.len() > 0 && after_filename[0] == cr()) by {
        match content_type {
            Some(t) => {
                assert(after_filename[0] == type_intro()[0]);
            },
            None => {
                assert(after_filename =~= blank_line() + rest);
                assert(after_filename[0] == blank_line()[0]);
            },
        }
    }
    lemma_parse_filename(filename, after_filename);
    lemma_parse_type(content_type, rest);
}

/// The delimiter of a generated token begins with a carriage return and has
/// no other.
pub proof fn lemma_delimiter_leads(token: Seq<char>)
    requires
        is_boundary_token(token),
    ensures
        leads_with_cr(delimiter(token)),
        delimiter(token).len() == 4 + token.len(),
{
    reveal_strlit("\r\n--");
    vstd::utf8::is_ascii_chars_encode_utf8("\r\n--"@);
    assert(vstd::utf8::is_ascii_chars(token)) by {
        assert forall|i: int| 0 <= i < token.len() implies '\0' <= #[trigger] token[i]
            <= '\u{7f}' by {
            assert(super::boundary::is_alphanumeric(token[i]));
        }
    }
    vstd::utf8::is_ascii_chars_encode_utf8(token);
    let d = delimiter(token);
    assert forall|j: int| 0 < j < d.len() implies d[j] != cr() by {
        if j >= 4 {
            assert(d[j] == bytes_of(token)[j - 4]);
            assert(super::boundary::is_alphanumeric(token[j - 4]));
            assert(bytes_of(token)[j - 4] == token[j - 4] as u8);
        } else {
            assert(d[j] == bytes_of("\r\n--"@)[j]);
        }
    }
}

/// One part in front of more of a body: the part is found, and then what
/// is found in the rest. The rest begins with a delimiter.
proof fn lemma_parse_step(part: Part, beyond: Seq<u8>, token: Seq<char>)
    requires
        is_boundary_token(token),
        parseable(part, token),
    ensures
        parse_parts(part_bytes(part, token) + (delimiter(token) + beyond), token) == match parse_parts(
            delimiter(token) + beyond,
            token,
        ) {
            Some(parts) => Some(seq![part] + parts),
            None => None,
        },
{
    lemma_delimiter_leads(token);
    let d = delimiter(token);
    let behind = d + beyond;
    let head = head_bytes(part.name, part.filename, part.content_type);
    let bytes = part_bytes(part, token) + behind;
    let rest = part.data + behind;
    let after = head + rest;
    assert(bytes =~= d + after);
    lemma_expect(d, after);
    assert(!(after =~= bytes_of("--"@))) by {
        lemma_pieces();
        assert(after[0] == intro()[0]);
    }
    lemma_parse_head(part.name, part.filename, part.content_type, rest);
    assert(rest =~= part.data + d + beyond);
    lemma_find_delimiter(part.data, d, beyond);
    assert(rest.skip(part.data.len() as int) =~= behind);
    assert(rest.take(part.data.len() as int) =~= part.data);
    assert(behind.len() < bytes.len()) by {
        lemma_pieces();
    }
}

/// Bytes that open with `lead` still open with it when more follows.
proof fn lemma_lead(lead: Seq<u8>, middle: Seq<u8>, end: Seq<u8>)
    ensures
        (lead + middle) + end == lead + (middle + end),
        (lead + (middle + end)).skip(lead.len() as int) == middle + end,
{
    assert((lead + middle) + end =~= lead + (middle + end));
    assert((lead + (middle + end)).skip(lead.len() as int) =~= middle + end);
}

/// A row of parts and the closing delimiter open with a delimiter.
proof fn lemma_opens_with_delimiter(parts: Seq<Part>, token: Seq<char>)
    ensures
        ({
            let bytes = parts_bytes(parts, token) + closing_delimiter(token);
            bytes == delimiter(token) + bytes.skip(delimiter(token).len() as int)
        }),
{
    let d = delimiter(token);
    let bytes = parts_bytes(parts, token) + closing_delimiter(token);
    if parts.len() == 0 {
        assert(parts_bytes(parts, token) + closing_delimiter(token) =~= closing_delimiter(token));
        lemma_lead(d, bytes_of("--"@), Seq::empty());
        assert(bytes_of("--"@) + Seq::<u8>::empty() =~= bytes_of("--"@));
    } else {
        let part = parts[0];
        let head = head_bytes(part.name, part.filename, part.content_type);
        let more = parts_bytes(parts.drop_first(), token);
        lemma_lead(d, head, part.data);
        lemma_lead(d, head + part.data, more);
        lemma_lead(d, (head + part.data) + more, closing_delimiter(token));
    }
}

/// The parts of a row are found again in front of the closing delimiter.
proof fn lemma_parse_parts(parts: Seq<Part>, token: Seq<char>)
    requires
        is_boundary_token(token),
        forall|i: int| 0 <= i < parts.len() ==> parseable(#[trigger] parts[i], token),
    ensures
        parse_parts(parts_bytes(parts, token) + closing_delimiter(token), token) == Some(parts),
    decreases parts.len(),
{
    let d = delimiter(token);
    let bytes = parts_bytes(parts, token) + closing_delimiter(token);
    if parts.len() == 0 {
        lemma_opens_with_delimiter(parts, token);
        assert(bytes =~= d + bytes_of("--"@));
        lemma_expect(d, bytes_of("--"@));
    } else {
        let part = parts[0];
        let tail = parts.drop_first();
        let behind = parts_bytes(tail, token) + closing_delimiter(token);
        let beyond = behind.skip(d.len() as int);
        lemma_opens_with_delimiter(tail, token);
        lemma_lead(part_bytes(part, token), parts_bytes(tail, token), closing_delimiter(token));
        assert(parseable(part, token));
        lemma_parse_step(part, beyond, token);
        assert forall|i: int| 0 <= i < tail.len() implies parseable(#[trigger] tail[i], token) by {
            assert(tail[i] == parts[i + 1]);
        }
        lemma_parse_parts(tail, token);
        assert(seq![part] + tail =~= parts);
    }
}

/// A parser finds the parts of a body again: what was written under a
/// generated token is read back as it was, name by name and byte by byte,
/// where no part holds what the format gives a meaning to.
pub proof fn law_parse_wire(parts: Seq<Part>, token: Seq<char>)
    requires
        is_boundary_token(token),
        forall|i: int| 0 <= i < parts.len() ==> parseable(#[trigger] parts[i], token),
    ensures
        parse_body(wire(parts, token), token) == Some(parts),
{
    if parts.len() == 0 {
        assert(parts =~= Seq::<Part>::empty());
    } else {
        lemma_parse_parts(parts, token);
        lemma_delimiter_leads(token);
    }
}

} // verus!
