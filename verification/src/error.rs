//! Why a text could not be decoded.

use vstd::prelude::*;
use vstd::string::StringExecFns;

verus! {

/// The fields of the stored records.
#[derive(Clone, Copy, Debug, PartialEq, Eq, Structural)]
pub enum Field {
    Title,
    Tasks,
    Checked,
    Name,
}

impl Field {
    /// The name under which the field stands in a record.
    pub open spec fn key(self) -> Seq<char> {
        match self {
            Field::Title => "title"@,
            Field::Tasks => "tasks"@,
            Field::Checked => "checked"@,
            Field::Name => "name"@,
        }
    }

    /// The name under which the field stands in a record.
    pub fn name(self) -> (r: &'static str)
        ensures
            r@ == self.key(),
    {
        match self {
            Field::Title => "title",
            Field::Tasks => "tasks",
            Field::Checked => "checked",
            Field::Name => "name",
        }
    }
}

/// Why a text could not be decoded.
#[derive(Clone, Debug, PartialEq, Eq)]
pub enum DecodeError {
    /// Where a list was expected, something else stands.
    NotAnArray,
    /// Where a record was expected, something else stands.
    NotAnObject,
    /// The value of the field is not of the field's type.
    WrongType(Field),
    /// The record ends without the field.
    MissingField(Field),
    /// The record has a field of this name, which no record of its kind has.
    UnknownField(String),
    /// The record has the field twice.
    DuplicateField(Field),
    /// The text is broken in another way: a separator is missing or
    /// misplaced, a string is not closed or cannot be read, or something
    /// follows the end.
    Malformed,
}

/// A decode error, as the contracts see it.
pub ghost enum DecodeFault {
    NotAnArray,
    NotAnObject,
    WrongType(Field),
    MissingField(Field),
    UnknownField(Seq<char>),
    DuplicateField(Field),
    Malformed,
}

impl DeepView for DecodeError {
    type V = DecodeFault;

    open spec fn deep_view(&self) -> DecodeFault {
        match self {
            DecodeError::NotAnArray => DecodeFault::NotAnArray,
            DecodeError::NotAnObject => DecodeFault::NotAnObject,
            DecodeError::WrongType(f) => DecodeFault::WrongType(*f),
            DecodeError::MissingField(f) => DecodeFault::MissingField(*f),
            DecodeError::UnknownField(name) => DecodeFault::UnknownField(name@),
            DecodeError::DuplicateField(f) => DecodeFault::DuplicateField(*f),
            DecodeError::Malformed => DecodeFault::Malformed,
        }
    }
}

impl View for DecodeError {
    type V = DecodeFault;

    open spec fn view(&self) -> DecodeFault {
        self.deep_view()
    }
}

impl DecodeFault {
    /// The error in words.
    pub open spec fn text(self) -> Seq<char> {
        match self {
            DecodeFault::NotAnArray => "expected a list"@,
            DecodeFault::NotAnObject => "expected a record"@,
            DecodeFault::WrongType(f) => "invalid type for field `"@ + f.key() + "`"@,
            DecodeFault::MissingField(f) => "missing field `"@ + f.key() + "`"@,
            DecodeFault::UnknownField(name) => "unknown field `"@ + name + "`"@,
            DecodeFault::DuplicateField(f) => "duplicate field `"@ + f.key() + "`"@,
            DecodeFault::Malformed => "malformed text"@,
        }
    }
}

fn about_field(what: &str, field: &str) -> (r: String)
    ensures
        r@ == what@ + field@ + "`"@,
{
    let mut r = String::from_str(what);
    r.append(field);
    r.append("`");
    r
}

impl DecodeError {
    /// The error in words, with the field that it is about.
    pub fn message(&self) -> (r: String)
        ensures
            r@ == self@.text(),
    {
        match self {
            DecodeError::NotAnArray => String::from_str("expected a list"),
            DecodeError::NotAnObject => String::from_str("expected a record"),
            DecodeError::WrongType(f) => about_field("invalid type for field `", f.name()),
            DecodeError::MissingField(f) => about_field("missing field `", f.name()),
            DecodeError::UnknownField(name) => about_field("unknown field `", name.as_str()),
            DecodeError::DuplicateField(f) => about_field("duplicate field `", f.name()),
            DecodeError::Malformed => String::from_str("malformed text"),
        }
    }
}

} // verus!
