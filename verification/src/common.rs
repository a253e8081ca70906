//! The router's error type.

use vstd::prelude::*;
use vstd::string::*;

verus! {

#[verifier::external_type_specification]
#[verifier::external_body]
pub struct ExIoError(std::io::Error);

/// A failure of the router.
#[derive(Debug)]
pub enum Error {
    IllegalState(String),
    Communication(String),
    Io(std::io::Error, String),
    System(String),
    Protocol(String),
}

/// The text of an I/O error, as std's `Display` of `std::io::Error` gives it
/// (`to_string`).  Nothing is claimed of the text.
#[verifier::external_body]
fn io_error_text(e: &std::io::Error) -> String {
    e.to_string()
}

impl Error {
    /// The error's message.
    pub fn to_string(&self) -> (r: String)
        ensures
            match self {
                Error::IllegalState(m) => r@ == "Illegal State Error: "@ + m@,
                Error::Communication(m) => r@ == "Communication Error: "@ + m@,
                Error::Io(_, m) => exists|t: Seq<char>| r@ == "Io Error: "@ + t + " - "@ + m@,
                Error::System(m) => r@ == "System Error: "@ + m@,
                Error::Protocol(m) => r@ == "Protocol Error: "@ + m@,
            },
    {
        let mut s = String::new();
        match self {
            Error::IllegalState(m) => {
                s.append("Illegal State Error: ");
                s.append(m.as_str());
            },
            Error::Communication(m) => {
                s.append("Communication Error: ");
                s.append(m.as_str());
            },
            Error::Io(e, m) => {
                let t = io_error_text(e);
                s.append("Io Error: ");
                s.append(t.as_str());
                s.append(" - ");
                s.append(m.as_str());
                assert(s@ =~= "Io Error: "@ + t@ + " - "@ + m@);
            },
            Error::System(m) => {
                s.append("System Error: ");
                s.append(m.as_str());
            },
            Error::Protocol(m) => {
                s.append("Protocol Error: ");
                s.append(m.as_str());
            },
        }
        s
    }
}

} // verus!
