//! The crate's error type. Reshape errors are structural (a bad column address, a header the
//! verb needs but the file lacks, a pivot collision), so the messages name the fix.
use vstd::prelude::*;
use vstd::string::*;

verus! {

/// What went wrong, with a message for the person who ran the reshape.
#[derive(Debug)]
pub enum XshapeError {
    /// A malformed or unresolvable column address (bad letter, unknown `[name]`, empty spec).
    Address(String),
    /// The verb needs something the input does not provide (a header row, a separator).
    Input(String),
    /// A pivot collision: two source rows would land in the same output cell. Nothing is
    /// aggregated to resolve one.
    Collision(String),
    /// A verb that is not available.
    Unimplemented(String),
    /// Reading, parsing or writing delimited text.
    Io(String),
}

/// The mathematical picture of an error: its kind and its message.
pub enum Fault {
    Address(Seq<char>),
    Input(Seq<char>),
    Collision(Seq<char>),
    Unimplemented(Seq<char>),
    Io(Seq<char>),
}

impl View for XshapeError {
    type V = Fault;

    open spec fn view(&self) -> Fault {
        match self {
            XshapeError::Address(m) => Fault::Address(m@),
            XshapeError::Input(m) => Fault::Input(m@),
            XshapeError::Collision(m) => Fault::Collision(m@),
            XshapeError::Unimplemented(m) => Fault::Unimplemented(m@),
            XshapeError::Io(m) => Fault::Io(m@),
        }
    }
}

impl Fault {
    /// The line shown to the user.
    pub open spec fn text(self) -> Seq<char> {
        match self {
            Fault::Address(m) => "address error: "@ + m,
            Fault::Input(m) => m,
            Fault::Collision(m) => "collision: "@ + m,
            Fault::Unimplemented(m) => "not yet implemented: "@ + m,
            Fault::Io(m) => m,
        }
    }
}

pub type Result<T> = core::result::Result<T, XshapeError>;

/// A result taken by its view: the value's view on success, the fault on failure.
pub open spec fn view_result<T: View>(r: Result<T>) -> core::result::Result<T::V, Fault> {
    match r {
        Ok(v) => Ok(v@),
        Err(e) => Err(e@),
    }
}

impl XshapeError {
    /// The message shown to the user: the kind's prefix, then the detail.
    pub fn message(&self) -> (res: String)
        ensures
            res@ == self@.text(),
    {
        match self {
            XshapeError::Address(m) => {
                let mut s = String::from_str("address error: ");
                s.append(m.as_str());
                s
            },
            XshapeError::Input(m) => m.clone(),
            XshapeError::Collision(m) => {
                let mut s = String::from_str("collision: ");
                s.append(m.as_str());
                s
            },
            XshapeError::Unimplemented(m) => {
                let mut s = String::from_str("not yet implemented: ");
                s.append(m.as_str());
                s
            },
            XshapeError::Io(m) => m.clone(),
        }
    }
}

/// An I/O failure, carrying the failing layer's own description.
pub fn io_err(detail: String) -> (res: XshapeError)
    ensures
        res@ == Fault::Io(detail@),
{
    XshapeError::Io(detail)
}

} // verus!
