use vstd::prelude::*;

verus! {

/// A sequential producer of bytes: the narrow reading interface through which
/// the body of every streamed field is served.
///
/// There are two kinds of source. A row is a fixed row of bytes that reads
/// take from the front: it is described by the bytes it has yet to produce,
/// and a read that yields nothing although the destination has room says
/// that the row is at its end. Of any other source only this is known: a
/// read gives no more bytes than the destination has room for. What it gives
/// is known when it has given it, and not before.
pub trait ByteSource {
    /// What a failed read reports.
    type Error;

    /// Whether this source is a row of bytes.
    spec fn is_row(&self) -> bool;

    /// The bytes that this source has yet to produce, in order, where it is
    /// a row. It says nothing of another source.
    spec fn remaining(&self) -> Seq<u8>;

    /// Whether reading from this source cannot fail.
    spec fn reliable(&self) -> bool;

    /// Moves bytes from the source to the front of `buf` and returns how
    /// many were moved. What the rest of `buf` holds afterwards is left
    /// open. A reliable source does not fail. A row gives the bytes at its
    /// front and loses them; a failed read takes nothing from it.
    fn read(&mut self, buf: &mut [u8]) -> (r: Result<usize, Self::Error>)
        ensures
            final(buf)@.len() == old(buf)@.len(),
            final(self).is_row() == old(self).is_row(),
            final(self).reliable() == old(self).reliable(),
            old(self).reliable() ==> r is Ok,
            r matches Ok(n) ==> n <= old(buf)@.len(),
            old(self).is_row() ==> match r {
                Ok(n) => {
                    &&& n <= old(self).remaining().len()
                    &&& n == 0 ==> old(buf)@.len() == 0 || old(self).remaining().len() == 0
                    &&& final(buf)@.take(n as int) == old(self).remaining().take(n as int)
                    &&& final(self).remaining() == old(self).remaining().skip(n as int)
                },
                Err(_) => final(self).remaining() == old(self).remaining(),
            },
    ;
}

/// A byte buffer with a read position: an in-memory source.
#[derive(Debug)]
pub struct Cursor {
    data: Vec<u8>,
    pos: usize,
}

impl Cursor {
    /// The whole buffer, read or not.
    pub closed spec fn contents(&self) -> Seq<u8> {
        self.data@
    }

    /// How many bytes have been read, capped at the buffer's length.
    pub closed spec fn consumed(&self) -> nat {
        if self.pos <= self.data@.len() {
            self.pos as nat
        } else {
            self.data@.len()
        }
    }

    /// The bytes not yet read.
    pub open spec fn unread(&self) -> Seq<u8> {
        self.contents().skip(self.consumed() as int)
    }

    /// A cursor at the start of `data`.
    pub fn new(data: Vec<u8>) -> (c: Cursor)
        ensures
            c.contents() == data@,
            c.consumed() == 0,
    {
        Cursor { data, pos: 0 }
    }

    /// The buffer underneath.
    pub fn get_ref(&self) -> (data: &Vec<u8>)
        ensures
            data@ == self.contents(),
    {
        &self.data
    }

    /// The number of bytes read so far.
    pub fn position(&self) -> (p: usize)
        ensures
            p == self.consumed(),
            p <= self.contents().len(),
    {
        if self.pos <= self.data.len() {
            self.pos
        } else {
            self.data.len()
        }
    }

    /// Copies as many unread bytes as fit to the front of `buf`, marks them
    /// read and returns their number. This cannot fail.
    pub fn fill(&mut self, buf: &mut [u8]) -> (n: usize)
        ensures
            final(buf)@.len() == old(buf)@.len(),
            final(self).contents() == old(self).contents(),
            n as int == vstd::math::min(old(buf)@.len() as int, old(self).unread().len() as int),
            final(self).consumed() == old(self).consumed() + n,
            final(buf)@ == old(self).unread().take(n as int) + old(buf)@.skip(n as int),
            final(self).unread() == old(self).unread().skip(n as int),
    {
        let mut n: usize = 0;
        if self.pos > self.data.len() {
            self.pos = self.data.len();
        }
        let ghost start = self.pos;
        while n < buf.len() && self.pos < self.data.len()
            invariant
                buf@.len() == old(buf)@.len(),
                self.data@ == old(self).data@,
                start == old(self).consumed(),
                start <= self.pos <= self.data@.len(),
                self.pos == start + n,
                n <= buf@.len(),
                buf@ == old(self).unread().take(n as int) + old(buf)@.skip(n as int),
            decreases buf@.len() - n,
        {
            buf[n] = self.data[self.pos];
            n += 1;
            self.pos += 1;
        }
        n
    }
}

/// Whether every byte of `cursor` has been read.
pub fn cursor_at_end(cursor: &Cursor) -> (at_end: bool)
    ensures
        at_end == (cursor.unread().len() == 0),
{
    cursor.position() == cursor.get_ref().len()
}

impl ByteSource for Cursor {
    type Error = std::convert::Infallible;

    open spec fn is_row(&self) -> bool {
        true
    }

    open spec fn remaining(&self) -> Seq<u8> {
        self.unread()
    }

    open spec fn reliable(&self) -> bool {
        true
    }

    fn read(&mut self, buf: &mut [u8]) -> (r: Result<usize, Self::Error>) {
        Ok(self.fill(buf))
    }
}

/// `std::io::Error`, what a reader of the standard library fails with. It
/// is carried through; nothing of what is inside is known.
#[verifier::external_type_specification]
#[verifier::external_body]
pub struct ExIoError(std::io::Error);

/// Any reader of the standard library, as a source. What it reads from is
/// out of the library's sight: a file, a socket, a pipe. The reader is kept
/// behind its trait, which the verifier does not know, so the whole type is
/// opaque to it.
#[verifier::external_body]
pub struct Reader {
    inner: Box<dyn std::io::Read>,
}

/// Calls `std::io::Read::read` on the reader inside. Nothing of this
/// contract is proved. It says what the trait asks of every reader: the
/// destination keeps its length, and no more bytes are given than it has
/// room for. Which bytes are given, whether more will come and whether the
/// read succeeds is left open.
#[verifier::external_body]
fn read_from(reader: &mut Reader, buf: &mut [u8]) -> (r: Result<usize, std::io::Error>)
    ensures
        final(buf)@.len() == old(buf)@.len(),
        r matches Ok(n) ==> n <= old(buf)@.len(),
{
    std::io::Read::read(&mut reader.inner, buf)
}

impl Reader {
    /// Takes `inner` as a source: puts it in a box (`Box::new`). Nothing is
    /// read, and nothing is claimed of what the source will give.
    #[verifier::external_body]
    pub fn new<T: std::io::Read + 'static>(inner: T) -> Reader {
        Reader { inner: Box::new(inner) }
    }
}

impl ByteSource for Reader {
    type Error = std::io::Error;

    open spec fn is_row(&self) -> bool {
        false
    }

    open spec fn remaining(&self) -> Seq<u8> {
        Seq::empty()
    }

    open spec fn reliable(&self) -> bool {
        false
    }

    fn read(&mut self, buf: &mut [u8]) -> (r: Result<usize, Self::Error>) {
        read_from(self, buf)
    }
}

} // verus!
