use vstd::prelude::*;

verus! {

/// A parsed string: borrowed from the input when it can be, owned otherwise.
#[derive(Debug)]
pub enum StringValue<'a> {
    Borrowed(&'a str),
    Owned(String),
}

impl<'a> View for StringValue<'a> {
    type V = Seq<char>;

    open spec fn view(&self) -> Seq<char> {
        match self {
            StringValue::Borrowed(s) => s@,
            StringValue::Owned(s) => s@,
        }
    }
}

impl<'a> StringValue<'a> {
    /// The text as a string slice.
    pub fn as_str(&self) -> (r: &str)
        ensures
            r@ == self@,
    {
        match self {
            StringValue::Borrowed(s) => s,
            StringValue::Owned(s) => s.as_str(),
        }
    }

    /// The text as an owned string.
    pub fn into_string(self) -> (r: String)
        ensures
            r@ == self@,
    {
        match self {
            StringValue::Borrowed(s) => s.to_owned(),
            StringValue::Owned(s) => s,
        }
    }

    pub fn is_borrowed(&self) -> (r: bool)
        ensures
            r == (self is Borrowed),
    {
        match self {
            StringValue::Borrowed(_) => true,
            StringValue::Owned(_) => false,
        }
    }
}

} // verus!
