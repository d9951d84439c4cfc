use vstd::prelude::*;
use vstd::string::StringExecFns;

verus! {

/// Everything that can go wrong while encoding or decoding.
#[derive(Clone, Debug, PartialEq, Eq)]
pub enum Error {
    /// A validation failure raised by the caller's own encode or decode logic.
    Message(String),
    /// The input ended before the value was complete.
    Eof,
    /// A boolean position held something other than 0 or 1.
    InvalidBoolEncoding,
    /// A character position held something that is no Unicode scalar value.
    InvalidChar,
    /// A string position held bytes that are not UTF-8; the payload says
    /// where they stop being so.
    InvalidStr(std::str::Utf8Error),
    /// The shape cannot be expressed in this format; the payload names it.
    Unsupported(&'static str),
    /// A length or count does not fit the width the format gives it.
    TooLong,
}

/// The `Debug` form of a `Utf8Error`, in its pretty layout. Nothing is
/// claimed of the text.
#[verifier::external_body]
fn utf8_error_description(err: &std::str::Utf8Error) -> String {
    format!("{:#?}", err)
}

/// The kind of an `Error`, without what it carries.
#[derive(Clone, Copy, Debug, PartialEq, Eq, Structural)]
pub enum ErrorKind {
    Message,
    Eof,
    InvalidBoolEncoding,
    InvalidChar,
    InvalidStr,
    Unsupported,
    TooLong,
}

impl Error {
    /// The kind of this error.
    pub open spec fn spec_kind(&self) -> ErrorKind {
        match self {
            Error::Message(_) => ErrorKind::Message,
            Error::Eof => ErrorKind::Eof,
            Error::InvalidBoolEncoding => ErrorKind::InvalidBoolEncoding,
            Error::InvalidChar => ErrorKind::InvalidChar,
            Error::InvalidStr(_) => ErrorKind::InvalidStr,
            Error::Unsupported(_) => ErrorKind::Unsupported,
            Error::TooLong => ErrorKind::TooLong,
        }
    }

    /// The kind of this error.
    #[verifier::when_used_as_spec(spec_kind)]
    pub fn kind(&self) -> (k: ErrorKind)
        ensures
            k == self.spec_kind(),
    {
        match self {
            Error::Message(_) => ErrorKind::Message,
            Error::Eof => ErrorKind::Eof,
            Error::InvalidBoolEncoding => ErrorKind::InvalidBoolEncoding,
            Error::InvalidChar => ErrorKind::InvalidChar,
            Error::InvalidStr(_) => ErrorKind::InvalidStr,
            Error::Unsupported(_) => ErrorKind::Unsupported,
            Error::TooLong => ErrorKind::TooLong,
        }
    }

    /// What the error says, in words. For `InvalidStr` these are the words
    /// that stand before the description of the UTF-8 error.
    pub open spec fn text(&self) -> Seq<char> {
        match self {
            Error::Message(msg) => msg@,
            Error::Eof => "EOF"@,
            Error::InvalidBoolEncoding => "InvalidBoolEncoding"@,
            Error::InvalidChar => "Invalid char"@,
            Error::InvalidStr(_) => "Invalid str: "@,
            Error::Unsupported(what) => "Unsupported "@ + what@,
            Error::TooLong => "Bytes must not be larger than u32::MAX"@,
        }
    }

    /// What the error says, in words. For `InvalidStr` the description of
    /// the UTF-8 error follows them.
    pub fn message(&self) -> (s: String)
        ensures
            !(self is InvalidStr) ==> s@ == self.text(),
            self is InvalidStr ==> s@.len() >= self.text().len() && s@.take(
                self.text().len() as int,
            ) == self.text(),
    {
        match self {
            Error::Message(msg) => msg.clone(),
            Error::Eof => String::from_str("EOF"),
            Error::InvalidBoolEncoding => String::from_str("InvalidBoolEncoding"),
            Error::InvalidChar => String::from_str("Invalid char"),
            Error::InvalidStr(err) => {
                let detail = utf8_error_description(err);
                let s = String::from_str("Invalid str: ").concat(detail.as_str());
                assert(s@.take("Invalid str: "@.len() as int) =~= "Invalid str: "@);
                s
            },
            Error::Unsupported(what) => String::from_str("Unsupported ").concat(what),
            Error::TooLong => String::from_str("Bytes must not be larger than u32::MAX"),
        }
    }

    /// Builds the error a caller raises from its own validation.
    pub fn custom(msg: &str) -> (e: Error)
        ensures
            e matches Error::Message(s) && s@ == msg@,
    {
        Error::Message(msg.to_owned())
    }
}

} // verus!
