//! A client library for the GROBID document-processing service, with a
//! verified parser for the TEI documents that GROBID produces.

pub mod bibtex;
pub mod client;
pub mod coords;
pub mod error;
pub mod model;
pub mod parse;
pub mod text;
pub mod xml;

pub use client::{
    CitationConsolidation, CoordinateElement, HeaderConsolidation, PdfInput, ProcessOptions, DEFAULT_GROBID_URL,
    SERVICE_CITATION, SERVICE_CITATION_LIST, SERVICE_FULLTEXT, SERVICE_HEADER, SERVICE_REFERENCES,
};
pub use error::{GrobidError, InvalidDocument};
pub use model::{
    Address, Affiliation, Author, Biblio, Block, BoundingBox, Citation, Coords, Div, Document, Figure, Formula, Header,
    List, MarkerRef, Note, Paragraph, RefKind, Sentence, Surface,
};
pub use parse::{parse_citation, parse_citation_list, parse_document};
