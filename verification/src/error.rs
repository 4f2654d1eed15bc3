//! Error taxonomy of the driver layer.

use vstd::prelude::*;

verus! {

/// Errors raised by the driver layer.
///
/// `Config` is fatal at startup and never retried. `Execution` carries
/// the offending SQL text for diagnosability. `FileSystem` always
/// carries the path. `InvalidFormat` is scoped to one upload request.
/// `ValueConversion` marks a native value outside the codec's
/// representable range. `Pool` marks a failure to obtain a connection.
#[derive(Debug, Clone)]
pub enum Error {
    Config { message: String },
    Pool { message: String },
    Execution { sql: String, message: String },
    ValueConversion { message: String },
    FileSystem { path: String, message: String },
    InvalidFormat { format: String },
}

/// The one-line description of an error.
pub open spec fn spec_error_message(e: Error) -> Seq<char> {
    match e {
        Error::Config { message } => "Invalid configuration: "@ + message@,
        Error::Pool { message } => "Pool error: "@ + message@,
        Error::Execution { sql, message } => "Failed to execute query '"@ + sql@ + "': "@
            + message@,
        Error::ValueConversion { message } => "Failed to convert value: "@ + message@,
        Error::FileSystem { path, message } => "File system error at '"@ + path@ + "': "@
            + message@,
        Error::InvalidFormat { format } => "The engine does not support the format: "@
            + format@,
    }
}

impl Error {
    /// Renders the error for display, one line with its payload.
    pub fn message(&self) -> (r: String)
        ensures
            r@ == spec_error_message(*self),
    {
        match self {
            Error::Config { message } => {
                let mut r = String::from_str("Invalid configuration: ");
                r.append(message.as_str());
                r
            },
            Error::Pool { message } => {
                let mut r = String::from_str("Pool error: ");
                r.append(message.as_str());
                r
            },
            Error::Execution { sql, message } => {
                let mut r = String::from_str("Failed to execute query '");
                r.append(sql.as_str());
                r.append("': ");
                r.append(message.as_str());
                assert(r@ =~= spec_error_message(*self));
                r
            },
            Error::ValueConversion { message } => {
                let mut r = String::from_str("Failed to convert value: ");
                r.append(message.as_str());
                r
            },
            Error::FileSystem { path, message } => {
                let mut r = String::from_str("File system error at '");
                r.append(path.as_str());
                r.append("': ");
                r.append(message.as_str());
                assert(r@ =~= spec_error_message(*self));
                r
            },
            Error::InvalidFormat { format } => {
                let mut r = String::from_str("The engine does not support the format: ");
                r.append(format.as_str());
                r
            },
        }
    }
}

} // verus!
