use vstd::prelude::*;

verus! {

/// The single error kind used by request parsing and request building.
/// It carries a human-readable message naming the check that failed.
#[derive(Debug, Clone)]
pub struct ParseError {
    err: String,
}

impl View for ParseError {
    type V = Seq<char>;

    closed spec fn view(&self) -> Seq<char> {
        self.err@
    }
}

impl ParseError {
    pub fn new(msg: &str) -> (r: Self)
        ensures
            r@ == msg@,
    {
        Self { err: msg.to_owned() }
    }

    /// The message carried by this error.
    pub fn message(&self) -> (r: &str)
        ensures
            r@ == self@,
    {
        self.err.as_str()
    }
}

} // verus!
