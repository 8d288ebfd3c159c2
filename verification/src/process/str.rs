//! Strings that are borrowed where they can be.
use vstd::prelude::*;
use vstd::std_specs::cmp::PartialEqSpecImpl;
use vstd::string::*;

verus! {

/// Whether two strings hold the same characters.
pub fn same_text(a: &str, b: &str) -> (r: bool)
    ensures
        r == (a@ == b@),
{
    let a = a.to_owned();
    let b = b.to_owned();
    a == b
}

/// A string that is either borrowed from the input or owned.
///
/// Its view is its characters, whichever it is.
#[derive(Debug)]
pub enum Str<'a> {
    Borrowed(&'a str),
    Owned(String),
}

impl<'a> View for Str<'a> {
    type V = Seq<char>;

    open spec fn view(&self) -> Seq<char> {
        match self {
            Str::Borrowed(s) => s@,
            Str::Owned(s) => s@,
        }
    }
}

impl<'a> Str<'a> {
    /// The characters.
    pub fn as_ref(&self) -> (s: &str)
        ensures
            s@ == self@,
    {
        match self {
            Str::Borrowed(s) => s,
            Str::Owned(s) => s.as_str(),
        }
    }

    /// Whether the string is borrowed.
    pub fn is_borrowed(&self) -> (r: bool)
        ensures
            r == (self is Borrowed),
    {
        match self {
            Str::Borrowed(_) => true,
            Str::Owned(_) => false,
        }
    }

    /// The characters, as a string of their own.
    pub fn to_string(&self) -> (s: String)
        ensures
            s@ == self@,
    {
        self.as_ref().to_owned()
    }
}

impl<'a> PartialEq for Str<'a> {
    fn eq(&self, other: &Str<'a>) -> (r: bool) {
        same_text(self.as_ref(), other.as_ref())
    }
}

impl<'a> PartialEqSpecImpl for Str<'a> {
    open spec fn obeys_eq_spec() -> bool {
        true
    }

    open spec fn eq_spec(&self, other: &Str<'a>) -> bool {
        self@ == other@
    }
}

/// The characters of a string that may be missing.
pub open spec fn text_view(s: Option<Str>) -> Option<Seq<char>> {
    match s {
        Some(s) => Some(s@),
        None => None,
    }
}

/// The characters of an owned string that may be missing.
pub open spec fn string_view(s: Option<String>) -> Option<Seq<char>> {
    match s {
        Some(s) => Some(s@),
        None => None,
    }
}

} // verus!
