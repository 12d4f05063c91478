use super::boundary::is_boundary_token;
use super::error::LazyError;
use super::model::{file_paths, prepared};
use super::path::octet_stream;
use super::prepared::{can_open, field_views, prepared_with, result_view, PreparedFields};
use super::source::ByteSource;
use vstd::prelude::*;

verus! {

/// A stream handed in by the caller, with what its field declares of it.
#[derive(Debug)]
pub struct Stream<R> {
    pub filename: Option<String>,
    pub content_type: String,
    pub stream: R,
}

/// What a field carries: text, a file still to be opened, or a stream.
#[derive(Debug)]
pub enum Data<R> {
    Text(String),
    File(String),
    Stream(Stream<R>),
}

/// One field of a form, not yet made ready for sending.
#[derive(Debug)]
pub struct Field<R> {
    pub name: String,
    pub data: Data<R>,
}

/// What a field says, apart from how its strings are stored.
pub enum FieldView<R> {
    Text { name: Seq<char>, value: Seq<char> },
    File { name: Seq<char>, path: Seq<char> },
    Stream { name: Seq<char>, filename: Option<Seq<char>>, content_type: Seq<char>, source: R },
}

impl<R> View for Field<R> {
    type V = FieldView<R>;

    open spec fn view(&self) -> FieldView<R> {
        match self.data {
            Data::Text(value) => FieldView::Text { name: self.name@, value: value@ },
            Data::File(path) => FieldView::File { name: self.name@, path: path@ },
            Data::Stream(s) => FieldView::Stream {
                name: self.name@,
                filename: match s.filename {
                    Some(f) => Some(f@),
                    None => None,
                },
                content_type: s.content_type@,
                source: s.stream,
            },
        }
    }
}

/// The fields of a multipart form in the order in which they were added.
/// Nothing is opened or read while fields are added.
#[derive(Debug)]
pub struct Mpart<R> {
    fields: Vec<Field<R>>,
}

impl<R> View for Mpart<R> {
    type V = Seq<FieldView<R>>;

    closed spec fn view(&self) -> Seq<FieldView<R>> {
        Seq::new(self.fields@.len(), |i: int| self.fields@[i]@)
    }
}

/// A path given for a file field, in any of the forms that `add_file` takes.
pub trait IntoCowPath {
    /// The path as text.
    spec fn path_text(&self) -> Seq<char>;

    /// The path as an owned string.
    fn into_cow_path(self) -> (path: String)
        ensures
            path@ == self.path_text(),
    ;
}

impl IntoCowPath for String {
    open spec fn path_text(&self) -> Seq<char> {
        self@
    }

    fn into_cow_path(self) -> (path: String) {
        self
    }
}

impl<'a> IntoCowPath for &'a str {
    open spec fn path_text(&self) -> Seq<char> {
        self@
    }

    fn into_cow_path(self) -> (path: String) {
        self.to_owned()
    }
}

impl<R> Default for Mpart<R> {
    fn default() -> (m: Self)
        ensures
            m@ == Seq::<FieldView<R>>::empty(),
    {
        Mpart { fields: Vec::new() }
    }
}

impl<R> Mpart<R> {
    /// A form without fields.
    pub fn new() -> (m: Self)
        ensures
            m@ == Seq::<FieldView<R>>::empty(),
    {
        Mpart { fields: Vec::new() }
    }

    /// Adds a text field. Neither `name` nor `text` is examined.
    pub fn add_text(&mut self, name: &str, text: &str) -> (next: &mut Self)
        ensures
            next@ == old(self)@.push(FieldView::Text { name: name@, value: text@ }),
            *final(self) == *final(next),
    {
        self.fields.push(Field { name: name.to_owned(), data: Data::Text(text.to_owned()) });
        self
    }

    /// Adds a field that sends the file at `path`. The file is not looked
    /// for: it is opened when the body is prepared.
    pub fn add_file<P: IntoCowPath>(&mut self, name: &str, path: P) -> (next: &mut Self)
        ensures
            next@ == old(self)@.push(FieldView::File { name: name@, path: path.path_text() }),
            *final(self) == *final(next),
    {
        self.fields.push(Field { name: name.to_owned(), data: Data::File(path.into_cow_path()) });
        self
    }

    /// Adds a field whose body is read from `stream`. Without `mime` the
    /// field declares `application/octet-stream`.
    pub fn add_stream(
        &mut self,
        name: &str,
        stream: R,
        filename: Option<&str>,
        mime: Option<&str>,
    ) -> (next: &mut Self)
        ensures
            next@ == old(self)@.push(
                FieldView::Stream {
                    name: name@,
                    filename: match filename {
                        Some(f) => Some(f@),
                        None => None,
                    },
                    content_type: match mime {
                        Some(m) => m@,
                        None => "application/octet-stream"@,
                    },
                    source: stream,
                },
            ),
            *final(self) == *final(next),
    {
        let content_type = match mime {
            Some(m) => m.to_owned(),
            None => octet_stream(),
        };
        let filename = match filename {
            Some(f) => Some(f.to_owned()),
            None => None,
        };
        self.fields.push(
            Field {
                name: name.to_owned(),
                data: Data::Stream(Stream { content_type, filename, stream }),
            },
        );
        self
    }
}

impl<R: ByteSource> Mpart<R> {
    /// Makes the body ready under a fresh boundary token and empties the
    /// form. The file of each file field is opened by `open`, which hands
    /// back a source and the file's length. The first file that fails to
    /// open ends the preparation: the failure is returned under the name of
    /// its field, and no body.
    pub fn prepare<F, E>(&mut self, open: F) -> (r: Result<PreparedFields<R>, LazyError<E>>) where
        F: Fn(&str) -> Result<(R, u64), E>,

        requires
            can_open(open, old(self)@),
        ensures
            final(self)@.len() == 0,
            exists|token: Seq<char>|
                is_boundary_token(token) && #[trigger] prepared_with(
                    old(self)@,
                    token,
                    open,
                    result_view(r),
                ),
            r matches Ok(body) ==> is_boundary_token(body@.boundary),
            file_paths(old(self)@).len() == 0 ==> (r matches Ok(body) && result_view(r) == prepared(
                old(self)@,
                body@.boundary,
                Seq::<Result<(R, u64), E>>::empty(),
            )),
    {
        let ghost fields = self@;
        proof {
            assert(field_views(self.fields@) == fields);
        }
        let r = PreparedFields::from_fields(&mut self.fields, &open);
        proof {
            assert(field_views(self.fields@) == self@);
        }
        r
    }

    /// Makes the body ready under the boundary token `boundary` and empties
    /// the form, as `prepare` does under a token of its own.
    pub fn prepare_with_boundary<F, E>(&mut self, boundary: String, open: F) -> (r: Result<
        PreparedFields<R>,
        LazyError<E>,
    >) where F: Fn(&str) -> Result<(R, u64), E>
        requires
            can_open(open, old(self)@),
        ensures
            final(self)@.len() == 0,
            prepared_with(old(self)@, boundary@, open, result_view(r)),
            file_paths(old(self)@).len() == 0 ==> r is Ok && result_view(r) == prepared(
                old(self)@,
                boundary@,
                Seq::<Result<(R, u64), E>>::empty(),
            ),
    {
        let ghost fields = self@;
        proof {
            assert(field_views(self.fields@) == fields);
        }
        let r = PreparedFields::with_boundary(&mut self.fields, boundary, &open);
        proof {
            assert(field_views(self.fields@) == self@);
        }
        r
    }
}

} // verus!
