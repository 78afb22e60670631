//! What can go wrong while a map is built, and what is only reported.

use crate::addr::IpAddr;
use crate::display::{append_ip, append_number, ip_text, number_text};
use vstd::prelude::*;
use vstd::string::StringExecFns;

verus! {

/// Why one line of the data could not be read.
#[derive(Debug, Clone, PartialEq, Eq)]
#[non_exhaustive]
pub enum ParseErrorKind {
    /// The line did not have the expected number of columns.
    IncorrectColumnCount {
        /// The number of columns that a line must have.
        expected: usize,
        /// The number of columns that the line has.
        found: usize,
    },
    /// A column does not spell an IP address.
    InvalidIpAddress {
        /// The column's name: `start_ip` or `end_ip`.
        field: String,
        /// The column's text.
        value: String,
    },
    /// The ASN column does not spell an unsigned 32-bit number.
    InvalidAsnNumber {
        /// The column's text.
        value: String,
    },
    /// The range begins behind its end.
    InvalidRange {
        /// The first address of the range.
        start_ip: IpAddr,
        /// The last address of the range.
        end_ip: IpAddr,
    },
    /// The range begins in one address family and ends in the other.
    IpFamilyMismatch,
    /// The country code is neither two ASCII characters nor one of the words
    /// that stand for an unknown country.
    InvalidCountryCode {
        /// The column's text.
        value: String,
    },
}

/// A `ParseErrorKind` with its strings as sequences of characters.
pub enum ParseErrorModel {
    IncorrectColumnCount { expected: usize, found: usize },
    InvalidIpAddress { field: Seq<char>, value: Seq<char> },
    InvalidAsnNumber { value: Seq<char> },
    InvalidRange { start_ip: IpAddr, end_ip: IpAddr },
    IpFamilyMismatch,
    InvalidCountryCode { value: Seq<char> },
}

impl View for ParseErrorKind {
    type V = ParseErrorModel;

    open spec fn view(&self) -> ParseErrorModel {
        match *self {
            ParseErrorKind::IncorrectColumnCount { expected, found } => {
                ParseErrorModel::IncorrectColumnCount { expected, found }
            },
            ParseErrorKind::InvalidIpAddress { field, value } => {
                ParseErrorModel::InvalidIpAddress { field: field@, value: value@ }
            },
            ParseErrorKind::InvalidAsnNumber { value } => {
                ParseErrorModel::InvalidAsnNumber { value: value@ }
            },
            ParseErrorKind::InvalidRange { start_ip, end_ip } => {
                ParseErrorModel::InvalidRange { start_ip, end_ip }
            },
            ParseErrorKind::IpFamilyMismatch => ParseErrorModel::IpFamilyMismatch,
            ParseErrorKind::InvalidCountryCode { value } => {
                ParseErrorModel::InvalidCountryCode { value: value@ }
            },
        }
    }
}

/// The kinds of failure that are not about one line's content.
#[derive(Debug, Clone, Copy, PartialEq, Eq, Structural)]
#[non_exhaustive]
pub enum IoErrorKind {
    /// There is no data to read.
    NotFound,
    /// The data cannot be decoded.
    InvalidData,
    /// The data holds more than the map can number.
    OutOfMemory,
}

/// A failure to get at the data.
#[derive(Debug, Clone, PartialEq, Eq)]
pub struct IoError {
    /// What kind of failure it is.
    pub kind: IoErrorKind,
    /// The failure in words.
    pub message: String,
}

/// Why no map was built.
#[derive(Debug)]
#[non_exhaustive]
pub enum Error {
    /// The data could not be had or decoded.
    Io(IoError),
    /// A line of the data was malformed (only in strict mode).
    Parse {
        /// The number of the line, from 1 on.
        line_number: usize,
        /// The line's text.
        line_content: String,
        /// What is wrong with it.
        kind: ParseErrorKind,
    },
}

/// An `Error` with its strings as sequences of characters.
#[allow(inconsistent_fields)]
pub enum ErrorModel {
    Io { kind: IoErrorKind, message: Seq<char> },
    Parse { line_number: usize, line_content: Seq<char>, kind: ParseErrorModel },
}

impl View for Error {
    type V = ErrorModel;

    open spec fn view(&self) -> ErrorModel {
        match *self {
            Error::Io(e) => ErrorModel::Io { kind: e.kind, message: e.message@ },
            Error::Parse { line_number, line_content, kind } => ErrorModel::Parse {
                line_number,
                line_content: line_content@,
                kind: kind@,
            },
        }
    }
}

/// A line that was skipped while a map was built.
#[derive(Debug)]
#[non_exhaustive]
pub enum Warning {
    /// The line could not be read.
    Parse {
        /// The number of the line, from 1 on.
        line_number: usize,
        /// The line's text.
        line_content: String,
        /// What is wrong with it.
        message: String,
    },
    /// The line's range begins in one address family and ends in the other.
    IpFamilyMismatch {
        /// The number of the line, from 1 on.
        line_number: usize,
        /// The line's text.
        line_content: String,
    },
}

/// A `Warning` with its strings as sequences of characters.
pub enum WarningModel {
    Parse { line_number: usize, line_content: Seq<char>, message: Seq<char> },
    IpFamilyMismatch { line_number: usize, line_content: Seq<char> },
}

impl View for Warning {
    type V = WarningModel;

    open spec fn view(&self) -> WarningModel {
        match *self {
            Warning::Parse { line_number, line_content, message } => WarningModel::Parse {
                line_number,
                line_content: line_content@,
                message: message@,
            },
            Warning::IpFamilyMismatch { line_number, line_content } => {
                WarningModel::IpFamilyMismatch { line_number, line_content: line_content@ }
            },
        }
    }
}

/// How a `ParseErrorKind` reads.
pub open spec fn parse_error_text(kind: ParseErrorModel) -> Seq<char> {
    match kind {
        ParseErrorModel::IncorrectColumnCount { expected, found } => "expected "@ + number_text(
            expected as int,
            10,
        ) + " columns, but found "@ + number_text(found as int, 10),
        ParseErrorModel::InvalidIpAddress { field, value } => "invalid IP address for field `"@
            + field + "`: "@ + value,
        ParseErrorModel::InvalidAsnNumber { value } => "invalid ASN: "@ + value,
        ParseErrorModel::InvalidRange { start_ip, end_ip } => "start IP "@ + ip_text(start_ip)
            + " is greater than end IP "@ + ip_text(end_ip),
        ParseErrorModel::IpFamilyMismatch => "start and end IPs are of different families"@,
        ParseErrorModel::InvalidCountryCode { value } => "invalid country code: "@ + value,
    }
}

/// How an `Error` reads.
pub open spec fn error_text(error: ErrorModel) -> Seq<char> {
    match error {
        ErrorModel::Io { kind, message } => "I/O error: "@ + message,
        ErrorModel::Parse { line_number, line_content, kind } => "Parse error on line "@
            + number_text(line_number as int, 10) + ": "@ + parse_error_text(kind)
            + " in line: \""@ + line_content + "\""@,
    }
}

/// How a `Warning` reads.
pub open spec fn warning_text(warning: WarningModel) -> Seq<char> {
    match warning {
        WarningModel::Parse { line_number, line_content, message } => "Parse warning on line "@
            + number_text(line_number as int, 10) + ": "@ + message + " in line: \""@
            + line_content + "\""@,
        WarningModel::IpFamilyMismatch { line_number, line_content } => {
            "IP family mismatch on line "@ + number_text(line_number as int, 10) + ": \""@
                + line_content + "\""@
        },
    }
}

/// Writes how `kind` reads at the end of `out`.
fn append_parse_error(out: &mut String, kind: &ParseErrorKind)
    ensures
        final(out)@ == old(out)@ + parse_error_text(kind@),
{
    match kind {
        ParseErrorKind::IncorrectColumnCount { expected, found } => {
            out.append("expected ");
            append_number(out, *expected as u64, 10);
            out.append(" columns, but found ");
            append_number(out, *found as u64, 10);
        },
        ParseErrorKind::InvalidIpAddress { field, value } => {
            out.append("invalid IP address for field `");
            out.append(field.as_str());
            out.append("`: ");
            out.append(value.as_str());
        },
        ParseErrorKind::InvalidAsnNumber { value } => {
            out.append("invalid ASN: ");
            out.append(value.as_str());
        },
        ParseErrorKind::InvalidRange { start_ip, end_ip } => {
            out.append("start IP ");
            append_ip(out, *start_ip);
            out.append(" is greater than end IP ");
            append_ip(out, *end_ip);
        },
        ParseErrorKind::IpFamilyMismatch => {
            out.append("start and end IPs are of different families");
        },
        ParseErrorKind::InvalidCountryCode { value } => {
            out.append("invalid country code: ");
            out.append(value.as_str());
        },
    }
    assert(final(out)@ =~= old(out)@ + parse_error_text(kind@));
}

impl ParseErrorKind {
    /// The error in words.
    pub fn to_string(&self) -> (text: String)
        ensures
            text@ == parse_error_text(self@),
    {
        let mut out = String::new();
        append_parse_error(&mut out, self);
        assert(out@ =~= parse_error_text(self@));
        out
    }
}

impl Error {
    /// The error in words.
    pub fn to_string(&self) -> (text: String)
        ensures
            text@ == error_text(self@),
    {
        let mut out = String::new();
        match self {
            Error::Io(e) => {
                out.append("I/O error: ");
                out.append(e.message.as_str());
            },
            Error::Parse { line_number, line_content, kind } => {
                out.append("Parse error on line ");
                append_number(&mut out, *line_number as u64, 10);
                out.append(": ");
                append_parse_error(&mut out, kind);
                out.append(" in line: \"");
                out.append(line_content.as_str());
                out.append("\"");
            },
        }
        assert(out@ =~= error_text(self@));
        out
    }
}

impl Warning {
    /// The warning in words.
    pub fn to_string(&self) -> (text: String)
        ensures
            text@ == warning_text(self@),
    {
        let mut out = String::new();
        match self {
            Warning::Parse { line_number, line_content, message } => {
                out.append("Parse warning on line ");
                append_number(&mut out, *line_number as u64, 10);
                out.append(": ");
                out.append(message.as_str());
                out.append(" in line: \"");
                out.append(line_content.as_str());
                out.append("\"");
            },
            Warning::IpFamilyMismatch { line_number, line_content } => {
                out.append("IP family mismatch on line ");
                append_number(&mut out, *line_number as u64, 10);
                out.append(": \"");
                out.append(line_content.as_str());
                out.append("\"");
            },
        }
        assert(out@ =~= warning_text(self@));
        out
    }
}

} // verus!
