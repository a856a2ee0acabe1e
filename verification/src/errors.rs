//! The error type shared by the library: every failure a run can hit,
//! with a human-readable message.

use vstd::prelude::*;

verus! {

use crate::strutil::spec_dec_chars;
use crate::strutil::u64_to_string;
use vstd::string::StringExecFns;

/// Everything that can go wrong while validating a manifest, parsing or
/// evaluating a version expression, resolving a resource, or applying a
/// plan.
#[derive(Debug, Clone, PartialEq)]
pub enum AprilError {
    /// The manifest schema string is not the supported one.
    InvalidSchema,
    /// A total-conversion manifest omits a mandatory override.
    MissingMandatoryFields,
    /// A version expression fails to tokenize (a byte no token starts
    /// with, or a malformed token) at this byte offset, or holds a bare
    /// hex run as an operand at this token index.
    InvalidExpression(u64),
    /// An operand stands where an operator was expected, at this token
    /// index.
    UnexpectedOperand(u64),
    /// A `(` was never closed.
    UnmatchedParen,
    /// A hash predicate was evaluated with no content digest supplied.
    MissingDigest,
    /// The postfix expression does not evaluate to a single boolean.
    MalformedExpression,
    /// A comparison operand is not a parseable Debian version.
    InvalidVersionOperand,
    /// The resource URI does not split into type, options and URL.
    InvalidResourceUri(String),
    /// The resource type is not `file`.
    UnsupportedResourceType(String),
    /// An `http(s)` resource URI carries no `sha256=` option.
    MissingSha256(String),
    /// A `data:` URL has no comma separating metadata from payload.
    InvalidDataUri(String),
    /// The URL scheme is none of `http`, `https`, `data`.
    UnsupportedScheme(String),
    /// The URL does not parse at all.
    InvalidUrl(String),
    /// The base64 payload of a `data:` URL does not decode.
    InvalidBase64(String),
    /// Fetched bytes hash to a digest other than the declared one.
    Sha256Mismatch { url: String, expected: String, actual: String },
    /// An HTTP fetch did not return success.
    HttpFailure(String),
    /// A file path escapes the extraction root.
    InvalidFilePath(String),
    /// A script replace action carries no content.
    MissingContent,
    /// The action is recognized but not supported yet.
    NotImplemented,
    /// A control field value cannot be stored (empty continuation line).
    InvalidFieldValue(String),
    /// A filesystem primitive failed.
    Io(String),
    /// An external tool exited nonzero.
    Tool(String),
}

/// The message that `AprilError::message` renders for each error.
pub open spec fn spec_error_message(e: AprilError) -> Seq<char> {
    match e {
        AprilError::InvalidSchema => "Invalid schema version, expected 0"@,
        AprilError::MissingMandatoryFields => "Missing mandatory fields in total_conversion package"@,
        AprilError::InvalidExpression(p) => "Invalid version expression at position "@ + spec_dec_chars(p as int),
        AprilError::UnexpectedOperand(p) => "Unexpected string at position "@ + spec_dec_chars(p as int),
        AprilError::UnmatchedParen => "Unmatched '(' in version expression"@,
        AprilError::MissingDigest => "No content digest supplied for sha256sum predicate"@,
        AprilError::MalformedExpression => "Malformed version expression"@,
        AprilError::InvalidVersionOperand => "Invalid version in expression"@,
        AprilError::InvalidResourceUri(u) => "Invalid resource URI: "@ + u@,
        AprilError::UnsupportedResourceType(t) => "Unsupported resource type: "@ + t@,
        AprilError::MissingSha256(u) => "Missing or invalid SHA256 sum in resource URI: "@ + u@,
        AprilError::InvalidDataUri(u) => "Invalid data URI: "@ + u@,
        AprilError::UnsupportedScheme(u) => "Unsupported scheme in resource URI: "@ + u@,
        AprilError::InvalidUrl(u) => "Invalid URL: "@ + u@,
        AprilError::InvalidBase64(u) => "Invalid base64 payload in resource URI: "@ + u@,
        AprilError::Sha256Mismatch { url, expected, actual } => "SHA256 sum mismatch for resource: "@
            + url@ + ", expected "@ + expected@ + ", got "@ + actual@,
        AprilError::HttpFailure(u) => "Failed to fetch resource: "@ + u@,
        AprilError::InvalidFilePath(p) => "Invalid file path: "@ + p@,
        AprilError::MissingContent => "Missing content for replace action"@,
        AprilError::NotImplemented => "Not implemented"@,
        AprilError::InvalidFieldValue(v) => "Invalid field value: "@ + v@,
        AprilError::Io(m) => "I/O error: "@ + m@,
        AprilError::Tool(m) => "External tool failed: "@ + m@,
    }
}

impl AprilError {
    /// Render the error as a single diagnostic line.
    pub fn message(&self) -> (r: String)
        ensures
            r@ == spec_error_message(*self),
    {
        match self {
            AprilError::InvalidSchema => String::from_str("Invalid schema version, expected 0"),
            AprilError::MissingMandatoryFields => String::from_str(
                "Missing mandatory fields in total_conversion package",
            ),
            AprilError::InvalidExpression(p) => {
                let mut r = String::from_str("Invalid version expression at position ");
                let num = u64_to_string(*p);
                r.append(num.as_str());
                r
            },
            AprilError::UnexpectedOperand(p) => {
                let mut r = String::from_str("Unexpected string at position ");
                let num = u64_to_string(*p);
                r.append(num.as_str());
                r
            },
            AprilError::UnmatchedParen => String::from_str("Unmatched '(' in version expression"),
            AprilError::MissingDigest => String::from_str(
                "No content digest supplied for sha256sum predicate",
            ),
            AprilError::MalformedExpression => String::from_str("Malformed version expression"),
            AprilError::InvalidVersionOperand => String::from_str("Invalid version in expression"),
            AprilError::InvalidResourceUri(u) => {
                let mut r = String::from_str("Invalid resource URI: ");
                r.append(u.as_str());
                r
            },
            AprilError::UnsupportedResourceType(t) => {
                let mut r = String::from_str("Unsupported resource type: ");
                r.append(t.as_str());
                r
            },
            AprilError::MissingSha256(u) => {
                let mut r = String::from_str("Missing or invalid SHA256 sum in resource URI: ");
                r.append(u.as_str());
                r
            },
            AprilError::InvalidDataUri(u) => {
                let mut r = String::from_str("Invalid data URI: ");
                r.append(u.as_str());
                r
            },
            AprilError::UnsupportedScheme(u) => {
                let mut r = String::from_str("Unsupported scheme in resource URI: ");
                r.append(u.as_str());
                r
            },
            AprilError::InvalidUrl(u) => {
                let mut r = String::from_str("Invalid URL: ");
                r.append(u.as_str());
                r
            },
            AprilError::InvalidBase64(u) => {
                let mut r = String::from_str("Invalid base64 payload in resource URI: ");
                r.append(u.as_str());
                r
            },
            AprilError::Sha256Mismatch { url, expected, actual } => {
                let mut r = String::from_str("SHA256 sum mismatch for resource: ");
                r.append(url.as_str());
                r.append(", expected ");
                r.append(expected.as_str());
                r.append(", got ");
                r.append(actual.as_str());
                r
            },
            AprilError::HttpFailure(u) => {
                let mut r = String::from_str("Failed to fetch resource: ");
                r.append(u.as_str());
                r
            },
            AprilError::InvalidFilePath(p) => {
                let mut r = String::from_str("Invalid file path: ");
                r.append(p.as_str());
                r
            },
            AprilError::MissingContent => String::from_str("Missing content for replace action"),
            AprilError::NotImplemented => String::from_str("Not implemented"),
            AprilError::InvalidFieldValue(v) => {
                let mut r = String::from_str("Invalid field value: ");
                r.append(v.as_str());
                r
            },
            AprilError::Io(m) => {
                let mut r = String::from_str("I/O error: ");
                r.append(m.as_str());
                r
            },
            AprilError::Tool(m) => {
                let mut r = String::from_str("External tool failed: ");
                r.append(m.as_str());
                r
            },
        }
    }
}

} // verus!
