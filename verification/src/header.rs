//! A single HTTP header: a name and a value.
use vstd::prelude::*;

verus! {

/// One header line's content, as a `(name, value)` pair.
#[derive(Debug, PartialEq, Eq, Clone)]
pub struct HttpHeader {
    pub name: String,
    pub value: String,
}

impl View for HttpHeader {
    type V = (Seq<char>, Seq<char>);

    open spec fn view(&self) -> (Seq<char>, Seq<char>) {
        (self.name@, self.value@)
    }
}

impl HttpHeader {
    /// Builds a header from borrowed name and value.
    pub fn new(name: &str, value: &str) -> (r: HttpHeader)
        ensures
            r.name@ == name@,
            r.value@ == value@,
    {
        HttpHeader { name: name.to_owned(), value: value.to_owned() }
    }
}

} // verus!
