use super::model::LazyErrorView;
use vstd::prelude::*;
use vstd::std_specs::convert::{FromSpec, IntoSpec};
use vstd::string::StringExecFns;

verus! {

/// A failure while a body was prepared or sent, with the name of the field
/// that caused it where one field did.
#[derive(Debug)]
pub struct LazyError<E> {
    /// The field that caused the failure; `None` where the failure belongs to
    /// no single field.
    pub field_name: Option<String>,
    /// The failure itself.
    pub error: E,
}

/// How the `Debug` of the standard library writes a string: in double
/// quotes, with what cannot stand there as it is written as an escape.
pub uninterp spec fn debug_text(text: Seq<char>) -> Seq<char>;

/// Writes `text` with the `Debug` of `str`. The contract names the result and
/// says nothing of what it is.
#[verifier::external_body]
fn debug_of_str(text: &str) -> (written: String)
    ensures
        written@ == debug_text(text@),
{
    format!("{:?}", text)
}

/// Writes `value` with its own `Debug`. What that gives is up to the type of
/// the value; nothing is claimed of it.
#[verifier::external_body]
fn debug_of<E: core::fmt::Debug>(value: &E) -> String {
    format!("{:?}", value)
}

impl<E> View for LazyError<E> {
    type V = LazyErrorView<E>;

    open spec fn view(&self) -> LazyErrorView<E> {
        LazyErrorView {
            field: match self.field_name {
                Some(name) => Some(name@),
                None => None,
            },
            error: self.error,
        }
    }
}

impl<E> LazyError<E> {
    /// A failure that belongs to no field.
    pub fn without_field<F: Into<E>>(error: F) -> (e: Self)
        ensures
            e@.field is None,
            F::obeys_into_spec() ==> e.error == error.into_spec(),
    {
        LazyError { field_name: None, error: error.into() }
    }

    /// A failure of the field called `field_name`.
    pub fn with_field<F: Into<E>>(field_name: String, error: F) -> (e: Self)
        ensures
            e@.field == Some(field_name@),
            F::obeys_into_spec() ==> e.error == error.into_spec(),
    {
        LazyError { field_name: Some(field_name), error: error.into() }
    }

    /// The same failure with its cause converted to another error type.
    pub fn transform_err<E2: From<E>>(self) -> (e: LazyError<E2>)
        ensures
            e@.field == self@.field,
            E2::obeys_from_spec() ==> e.error == E2::from_spec(self.error),
    {
        LazyError { field_name: self.field_name, error: E2::from(self.error) }
    }

    /// What the failure says: what its cause says.
    pub fn to_string(&self) -> (text: String) where E: core::fmt::Display
        ensures
            vstd::string::to_string_from_display_ensures::<E>(&self.error, text),
    {
        self.error.to_string()
    }

    /// The failure with its field for a reader who looks for a fault: the
    /// field's name where there is one, then the cause, both as `Debug`
    /// writes them.
    pub fn describe(&self) -> (text: String) where E: core::fmt::Debug
        ensures
            exists|cause: Seq<char>|
                #[trigger] (self.headline() + cause) == text@,
    {
        let cause = debug_of(&self.error);
        let headline = match &self.field_name {
            Some(name) => String::from_str("LazyError (on field ").concat(
                debug_of_str(name.as_str()).as_str(),
            ).concat("): "),
            None => String::from_str("LazyError (misc): "),
        };
        let text = headline.concat(cause.as_str());
        proof {
            assert(self.headline() + cause@ == text@);
        }
        text
    }

    /// What `describe` writes before the cause.
    pub open spec fn headline(&self) -> Seq<char> {
        match self@.field {
            Some(name) => "LazyError (on field "@ + debug_text(name) + "): "@,
            None => "LazyError (misc): "@,
        }
    }

    /// The cause alone; the field's name is dropped.
    pub fn into_error(self) -> (error: E)
        ensures
            error == self.error,
    {
        self.error
    }
}

} // verus!
