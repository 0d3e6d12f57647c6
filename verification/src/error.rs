//! Error types of the library.

use vstd::prelude::*;

verus! {

#[verifier::external_type_specification]
#[verifier::external_body]
pub struct ExUrlParseError(url::ParseError);

#[verifier::external_type_specification]
#[verifier::external_body]
pub struct ExIoError(std::io::Error);

#[verifier::external_type_specification]
#[verifier::external_body]
pub struct ExHttpError(reqwest::Error);

/// Why a well-formed XML text is not a GROBID TEI document.
#[derive(PartialEq, Eq, Structural, Debug, Clone, Copy)]
pub enum InvalidDocument {
    /// The root element is not `<TEI>`.
    NotTei,
    /// There is no `<teiHeader>` element.
    MissingTeiHeader,
    /// The header has no `<application>` element.
    MissingApplication,
}

impl InvalidDocument {
    /// A short description of the problem.
    pub fn message(&self) -> (r: &'static str)
        ensures
            r@.len() > 0,
    {
        match self {
            InvalidDocument::NotTei => {
                proof {
                    reveal_strlit("root element is not <TEI>");
                }
                "root element is not <TEI>"
            },
            InvalidDocument::MissingTeiHeader => {
                proof {
                    reveal_strlit("missing <teiHeader>");
                }
                "missing <teiHeader>"
            },
            InvalidDocument::MissingApplication => {
                proof {
                    reveal_strlit("missing <application> in <teiHeader>");
                }
                "missing <application> in <teiHeader>"
            },
        }
    }
}

/// Errors produced by the GROBID client and the TEI parser.
#[derive(Debug)]
pub enum GrobidError {
    /// The given base URL is not a valid URL.
    InvalidBaseUrl {
        /// The base URL as given by the caller.
        base_url: String,
        /// The underlying URL parse error.
        source: url::ParseError,
    },
    /// The base URL uses a scheme other than `http` or `https`.
    UnsupportedScheme {
        /// The base URL as given by the caller.
        base_url: String,
        /// The scheme of the URL.
        scheme: String,
    },
    /// An I/O error occurred, e.g. while reading a PDF from disk.
    Io(std::io::Error),
    /// An HTTP transport error occurred.
    Http(reqwest::Error),
    /// The GROBID server returned an unexpected HTTP status code.
    HttpStatus {
        /// HTTP status code.
        status: u16,
        /// The service URL that was requested.
        url: String,
        /// The response body, truncated to a reasonable length.
        message: String,
    },
    /// The GROBID server kept responding with 503/429 until the retry
    /// budget was exhausted.
    ServerBusy {
        /// Number of attempts made.
        attempts: usize,
    },
    /// The GROBID server produced no content (HTTP 204).
    NoContent,
    /// The response body is not well-formed XML.
    Xml(roxmltree::Error),
    /// The XML is well-formed, but is not a GROBID TEI document.
    InvalidDocument(InvalidDocument),
    /// A malformed `@coords` attribute value.
    InvalidCoords {
        /// The malformed value.
        value: String,
    },
    /// An internal client error.
    Internal(&'static str),
}

/// The view of a [`GrobidError`]: its variant and the plain values it carries.
pub ghost enum ErrorV {
    InvalidBaseUrl(Seq<char>),
    UnsupportedScheme(Seq<char>, Seq<char>),
    Io,
    Http,
    HttpStatus(u16, Seq<char>, Seq<char>),
    ServerBusy(usize),
    NoContent,
    Xml,
    InvalidDocument(InvalidDocument),
    InvalidCoords(Seq<char>),
    Internal(Seq<char>),
}

impl View for GrobidError {
    type V = ErrorV;

    open spec fn view(&self) -> ErrorV {
        match self {
            GrobidError::InvalidBaseUrl { base_url, .. } => ErrorV::InvalidBaseUrl(base_url@),
            GrobidError::UnsupportedScheme { base_url, scheme } => ErrorV::UnsupportedScheme(base_url@, scheme@),
            GrobidError::Io(_) => ErrorV::Io,
            GrobidError::Http(_) => ErrorV::Http,
            GrobidError::HttpStatus { status, url, message } => ErrorV::HttpStatus(*status, url@, message@),
            GrobidError::ServerBusy { attempts } => ErrorV::ServerBusy(*attempts),
            GrobidError::NoContent => ErrorV::NoContent,
            GrobidError::Xml(_) => ErrorV::Xml,
            GrobidError::InvalidDocument(k) => ErrorV::InvalidDocument(*k),
            GrobidError::InvalidCoords { value } => ErrorV::InvalidCoords(value@),
            GrobidError::Internal(m) => ErrorV::Internal(m@),
        }
    }
}

/// The view of a result: the view of the value, or the view of the error.
pub open spec fn result_view<T, V>(r: Result<T, GrobidError>, f: spec_fn(T) -> V) -> Result<V, ErrorV> {
    match r {
        Ok(t) => Ok(f(t)),
        Err(e) => Err(e@),
    }
}

} // verus!
