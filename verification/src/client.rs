//! The decisions of the GROBID REST client: request parameters, base URL
//! normalization, retries and the interpretation of replies.
//!
//! The network traffic itself (asynchronous requests, sleeping between
//! retries, reading PDFs from disk) happens around this module; every
//! choice the client makes is a function here with a contract.

use vstd::prelude::*;
use crate::bibtex::{decimal, decimal_chars, pairs_view};
use crate::error::{ErrorV, GrobidError, result_view};
use crate::model::{Citation, CitationV, Document, DocumentV, citations_view, strings_view};
use crate::parse::{citation_list_of, citation_opt_of, document_of, parse_citation, parse_citation_list, parse_document};
use crate::text::{
    append_chars, lemma_utf8_len_concat, lemma_utf8_len_one, utf8_width, chars_to_string, contains_seq, contains_str, join, join_chars, seqs, str_chars, string_push, trim,
    trim_chars,
};
use crate::xml::xml_nodes;
use vstd::utf8::{encode_scalar, encode_utf8};

verus! {

/// The default GROBID server URL (a locally running instance).
pub const DEFAULT_GROBID_URL: &'static str = "http://localhost:8070";

/// The fulltext processing service (`/api/processFulltextDocument`).
pub const SERVICE_FULLTEXT: &'static str = "processFulltextDocument";

/// The header processing service (`/api/processHeaderDocument`).
pub const SERVICE_HEADER: &'static str = "processHeaderDocument";

/// The reference extraction service (`/api/processReferences`).
pub const SERVICE_REFERENCES: &'static str = "processReferences";

/// The citation parsing service (`/api/processCitation`).
pub const SERVICE_CITATION: &'static str = "processCitation";

/// The citation list parsing service (`/api/processCitationList`).
pub const SERVICE_CITATION_LIST: &'static str = "processCitationList";

/// Consolidation level for the document header: whether GROBID completes
/// the extracted metadata with an external lookup. The default, as on the
/// GROBID server, is [`HeaderConsolidation::Metadata`].
#[derive(Debug, Clone, Copy, PartialEq, Eq, Structural)]
pub enum HeaderConsolidation {
    /// No consolidation (`0`): all metadata comes from the source PDF.
    Disabled,
    /// Consolidate and inject all extra metadata (`1`, server default).
    Metadata,
    /// Consolidate and inject the DOI only (`2`).
    Doi,
    /// Consolidate using only the extracted DOI, if any (`3`).
    DoiOnly,
}

impl Default for HeaderConsolidation {
    fn default() -> (r: Self)
        ensures
            r == HeaderConsolidation::Metadata,
    {
        HeaderConsolidation::Metadata
    }
}

/// The request value of a header consolidation level.
pub open spec fn header_param(c: HeaderConsolidation) -> Seq<char> {
    match c {
        HeaderConsolidation::Disabled => "0"@,
        HeaderConsolidation::Metadata => "1"@,
        HeaderConsolidation::Doi => "2"@,
        HeaderConsolidation::DoiOnly => "3"@,
    }
}

impl HeaderConsolidation {
    /// The value of the `consolidateHeader` request parameter.
    pub fn as_param(self) -> (r: &'static str)
        ensures
            r@ == header_param(self),
    {
        match self {
            HeaderConsolidation::Disabled => "0",
            HeaderConsolidation::Metadata => "1",
            HeaderConsolidation::Doi => "2",
            HeaderConsolidation::DoiOnly => "3",
        }
    }
}

/// Consolidation level for citations and references. The default, as on
/// the GROBID server, is [`CitationConsolidation::Disabled`].
#[derive(Debug, Clone, Copy, PartialEq, Eq, Structural)]
pub enum CitationConsolidation {
    /// No consolidation (`0`, server default).
    Disabled,
    /// Consolidate and inject all extra metadata (`1`).
    Metadata,
    /// Consolidate and inject the DOI only (`2`).
    Doi,
}

impl Default for CitationConsolidation {
    fn default() -> (r: Self)
        ensures
            r == CitationConsolidation::Disabled,
    {
        CitationConsolidation::Disabled
    }
}

/// The request value of a citation consolidation level.
pub open spec fn citation_param(c: CitationConsolidation) -> Seq<char> {
    match c {
        CitationConsolidation::Disabled => "0"@,
        CitationConsolidation::Metadata => "1"@,
        CitationConsolidation::Doi => "2"@,
    }
}

impl CitationConsolidation {
    /// The value of the `consolidateCitations` request parameter.
    pub fn as_param(self) -> (r: &'static str)
        ensures
            r@ == citation_param(self),
    {
        match self {
            CitationConsolidation::Disabled => "0",
            CitationConsolidation::Metadata => "1",
            CitationConsolidation::Doi => "2",
        }
    }
}

/// TEI structures for which PDF coordinates can be requested.
#[derive(Debug, Clone, Copy, PartialEq, Eq, Structural, Hash)]
pub enum CoordinateElement {
    /// Reference markers (`ref`).
    Ref,
    /// Bibliographical references (`biblStruct`).
    BiblStruct,
    /// Author names (`persName`).
    PersName,
    /// Figures and tables (`figure`).
    Figure,
    /// Formulas (`formula`).
    Formula,
    /// Section titles (`head`).
    Head,
    /// Sentences (`s`), requires sentence segmentation.
    Sentence,
    /// Paragraphs (`p`).
    Paragraph,
    /// Footnotes (`note`).
    Note,
    /// Titles (`title`).
    Title,
    /// Affiliations (`affiliation`).
    Affiliation,
}

/// The request value of a coordinate element: its TEI element name.
pub open spec fn element_param(e: CoordinateElement) -> Seq<char> {
    match e {
        CoordinateElement::Ref => "ref"@,
        CoordinateElement::BiblStruct => "biblStruct"@,
        CoordinateElement::PersName => "persName"@,
        CoordinateElement::Figure => "figure"@,
        CoordinateElement::Formula => "formula"@,
        CoordinateElement::Head => "head"@,
        CoordinateElement::Sentence => "s"@,
        CoordinateElement::Paragraph => "p"@,
        CoordinateElement::Note => "note"@,
        CoordinateElement::Title => "title"@,
        CoordinateElement::Affiliation => "affiliation"@,
    }
}

impl CoordinateElement {
    /// The commonly used set of coordinate elements: reference markers,
    /// figures, person names, formulas and bibliographical references.
    pub fn common() -> (r: Vec<CoordinateElement>)
        ensures
            r@ == seq![
                CoordinateElement::Ref,
                CoordinateElement::Figure,
                CoordinateElement::PersName,
                CoordinateElement::Formula,
                CoordinateElement::BiblStruct,
            ],
    {
        vec![
            CoordinateElement::Ref,
            CoordinateElement::Figure,
            CoordinateElement::PersName,
            CoordinateElement::Formula,
            CoordinateElement::BiblStruct,
        ]
    }

    /// The value of a `teiCoordinates` request parameter.
    pub fn as_param(self) -> (r: &'static str)
        ensures
            r@ == element_param(self),
    {
        match self {
            CoordinateElement::Ref => "ref",
            CoordinateElement::BiblStruct => "biblStruct",
            CoordinateElement::PersName => "persName",
            CoordinateElement::Figure => "figure",
            CoordinateElement::Formula => "formula",
            CoordinateElement::Head => "head",
            CoordinateElement::Sentence => "s",
            CoordinateElement::Paragraph => "p",
            CoordinateElement::Note => "note",
            CoordinateElement::Title => "title",
            CoordinateElement::Affiliation => "affiliation",
        }
    }
}

/// Options for a GROBID processing request. The defaults follow the
/// GROBID server: header consolidation on, citation consolidation and all
/// other extras off.
#[derive(Debug, Clone)]
pub struct ProcessOptions {
    /// Generate unique identifiers for each text component (`generateIDs=1`).
    pub generate_ids: bool,
    /// Header consolidation level.
    pub consolidate_header: HeaderConsolidation,
    /// Citation consolidation level.
    pub consolidate_citations: CitationConsolidation,
    /// Include the raw reference strings (`includeRawCitations=1`).
    pub include_raw_citations: bool,
    /// Include the raw affiliation strings (`includeRawAffiliations=1`).
    pub include_raw_affiliations: bool,
    /// Include the raw copyright strings (`includeRawCopyrights=1`).
    pub include_raw_copyrights: bool,
    /// TEI structures for which PDF coordinates are added
    /// (`teiCoordinates`, repeated).
    pub tei_coordinates: Vec<CoordinateElement>,
    /// Further segment paragraphs into sentences (`segmentSentences=1`).
    pub segment_sentences: bool,
    /// Structuring flavor to apply.
    pub flavor: Option<String>,
    /// First PDF page to consider (1-based).
    pub start_page: Option<u32>,
    /// Last PDF page to consider (1-based).
    pub end_page: Option<u32>,
    /// Replace the structured response with a debug dump of the raw
    /// labelling (`debugMode=1`); the response is then not TEI.
    pub debug_mode: bool,
    /// Restrict the debug dump to these model names (comma-separated in
    /// the request).
    pub models: Vec<String>,
}

/// The view of [`ProcessOptions`].
pub ghost struct OptionsV {
    pub generate_ids: bool,
    pub consolidate_header: HeaderConsolidation,
    pub consolidate_citations: CitationConsolidation,
    pub include_raw_citations: bool,
    pub include_raw_affiliations: bool,
    pub include_raw_copyrights: bool,
    pub tei_coordinates: Seq<CoordinateElement>,
    pub segment_sentences: bool,
    pub flavor: Option<Seq<char>>,
    pub start_page: Option<u32>,
    pub end_page: Option<u32>,
    pub debug_mode: bool,
    pub models: Seq<Seq<char>>,
}

impl View for ProcessOptions {
    type V = OptionsV;

    open spec fn view(&self) -> OptionsV {
        OptionsV {
            generate_ids: self.generate_ids,
            consolidate_header: self.consolidate_header,
            consolidate_citations: self.consolidate_citations,
            include_raw_citations: self.include_raw_citations,
            include_raw_affiliations: self.include_raw_affiliations,
            include_raw_copyrights: self.include_raw_copyrights,
            tei_coordinates: self.tei_coordinates@,
            segment_sentences: self.segment_sentences,
            flavor: match self.flavor {
                Some(f) => Some(f@),
                None => None,
            },
            start_page: self.start_page,
            end_page: self.end_page,
            debug_mode: self.debug_mode,
            models: strings_view(self.models@),
        }
    }
}

impl Default for ProcessOptions {
    fn default() -> (r: Self)
        ensures
            r@ == (OptionsV {
                generate_ids: false,
                consolidate_header: HeaderConsolidation::Metadata,
                consolidate_citations: CitationConsolidation::Disabled,
                include_raw_citations: false,
                include_raw_affiliations: false,
                include_raw_copyrights: false,
                tei_coordinates: seq![],
                segment_sentences: false,
                flavor: None,
                start_page: None,
                end_page: None,
                debug_mode: false,
                models: seq![],
            }),
    {
        let r = ProcessOptions {
            generate_ids: false,
            consolidate_header: HeaderConsolidation::Metadata,
            consolidate_citations: CitationConsolidation::Disabled,
            include_raw_citations: false,
            include_raw_affiliations: false,
            include_raw_copyrights: false,
            tei_coordinates: Vec::new(),
            segment_sentences: false,
            flavor: None,
            start_page: None,
            end_page: None,
            debug_mode: false,
            models: Vec::new(),
        };
        assert(strings_view(r.models@) =~= seq![]);
        r
    }
}

/// A request field `name=1` when `on`, none otherwise.
pub open spec fn flag(on: bool, name: Seq<char>) -> Seq<(Seq<char>, Seq<char>)> {
    if on {
        seq![(name, "1"@)]
    } else {
        seq![]
    }
}

/// One `teiCoordinates` field per coordinate element, in order.
pub open spec fn coordinate_fields(es: Seq<CoordinateElement>) -> Seq<(Seq<char>, Seq<char>)> {
    es.map_values(|e: CoordinateElement| ("teiCoordinates"@, element_param(e)))
}

/// A request field `name=value` when there is a value.
pub open spec fn opt_field(name: Seq<char>, value: Option<Seq<char>>) -> Seq<(Seq<char>, Seq<char>)> {
    match value {
        Some(v) => seq![(name, v)],
        None => seq![],
    }
}

/// A request field with a page number in decimal, when there is one.
pub open spec fn page_field(name: Seq<char>, page: Option<u32>) -> Seq<(Seq<char>, Seq<char>)> {
    match page {
        Some(n) => seq![(name, decimal(n as nat))],
        None => seq![],
    }
}

/// The multipart form fields of a processing request: both
/// consolidation levels always, then each option that is on or set.
pub open spec fn form_fields(o: OptionsV) -> Seq<(Seq<char>, Seq<char>)> {
    seq![
        ("consolidateHeader"@, header_param(o.consolidate_header)),
        ("consolidateCitations"@, citation_param(o.consolidate_citations)),
    ] + flag(o.generate_ids, "generateIDs"@) + flag(o.include_raw_citations, "includeRawCitations"@) + flag(
        o.include_raw_affiliations,
        "includeRawAffiliations"@,
    ) + flag(o.include_raw_copyrights, "includeRawCopyrights"@) + coordinate_fields(o.tei_coordinates) + flag(
        o.segment_sentences,
        "segmentSentences"@,
    ) + opt_field("flavor"@, o.flavor) + page_field("start"@, o.start_page) + page_field("end"@, o.end_page)
        + flag(o.debug_mode, "debugMode"@) + (if o.models.len() > 0 {
        seq![("models"@, join(o.models, seq![',']))]
    } else {
        seq![]
    })
}

/// The citation-related fields of a form-urlencoded request: citation
/// consolidation when it is not off, and raw citations when asked for.
pub open spec fn urlencoded_fields(o: OptionsV) -> Seq<(Seq<char>, Seq<char>)> {
    (if o.consolidate_citations != CitationConsolidation::Disabled {
        seq![("consolidateCitations"@, citation_param(o.consolidate_citations))]
    } else {
        seq![]
    }) + flag(o.include_raw_citations, "includeRawCitations"@)
}

#[verifier::external_type_specification]
#[verifier::external_body]
pub struct ExForm(reqwest::multipart::Form);

/// The text parts of a multipart form, as (name, value) pairs in order.
pub uninterp spec fn form_texts(f: reqwest::multipart::Form) -> Seq<(Seq<char>, Seq<char>)>;

/// `reqwest::multipart::Form::text`: the form with a text part `name`
/// holding `value` appended after its other parts.
#[verifier::external_body]
fn form_text(form: reqwest::multipart::Form, name: &'static str, value: String) -> (r: reqwest::multipart::Form)
    ensures
        form_texts(r) == form_texts(form).push((name@, value@)),
{
    form.text(name, value)
}

/// Adds `name=1` to the form when `on`.
fn add_flag(form: reqwest::multipart::Form, on: bool, name: &'static str) -> (r: reqwest::multipart::Form)
    ensures
        form_texts(r) == form_texts(form) + flag(on, name@),
{
    if on {
        let r = form_text(form, name, "1".to_owned());
        assert(form_texts(r) =~= form_texts(form) + flag(on, name@));
        r
    } else {
        assert(form_texts(form) =~= form_texts(form) + flag(on, name@));
        form
    }
}

/// Adds a page number field to the form when there is one.
fn add_page(form: reqwest::multipart::Form, name: &'static str, page: Option<u32>) -> (r: reqwest::multipart::Form)
    ensures
        form_texts(r) == form_texts(form) + page_field(name@, page),
{
    match page {
        Some(n) => {
            let digits = decimal_chars(n as usize);
            let r = form_text(form, name, chars_to_string(&digits));
            assert(form_texts(r) =~= form_texts(form) + page_field(name@, page));
            r
        },
        None => {
            assert(form_texts(form) =~= form_texts(form) + page_field(name@, page));
            form
        },
    }
}

/// The `models` field: the model names joined with commas, when there
/// are any.
pub open spec fn models_field(models: Seq<Seq<char>>) -> Seq<(Seq<char>, Seq<char>)> {
    if models.len() > 0 {
        seq![("models"@, join(models, seq![',']))]
    } else {
        seq![]
    }
}

/// Adds one `teiCoordinates` field per element.
fn add_coordinates(form: reqwest::multipart::Form, es: &Vec<CoordinateElement>) -> (r: reqwest::multipart::Form)
    ensures
        form_texts(r) == form_texts(form) + coordinate_fields(es@),
{
    let mut f = form;
    let ghost before = form_texts(f);
    assert(coordinate_fields(es@.take(0)) =~= seq![]);
    assert(before =~= before + coordinate_fields(es@.take(0)));
    for i in 0..es.len()
        invariant
            before == form_texts(form),
            form_texts(f) == before + coordinate_fields(es@.take(i as int)),
    {
        let e = es[i];
        f = form_text(f, "teiCoordinates", e.as_param().to_owned());
        assert(coordinate_fields(es@.take(i + 1)) =~= coordinate_fields(es@.take(i as int)).push(
            ("teiCoordinates"@, element_param(e)),
        ));
        assert(form_texts(f) =~= before + coordinate_fields(es@.take(i + 1)));
    }
    assert(es@.take(es.len() as int) =~= es@);
    f
}

/// Adds a `name=value` field when there is a value.
fn add_opt(form: reqwest::multipart::Form, name: &'static str, value: &Option<String>) -> (r: reqwest::multipart::Form)
    ensures
        form_texts(r) == form_texts(form) + opt_field(
            name@,
            match value {
                Some(v) => Some(v@),
                None => None,
            },
        ),
{
    match value {
        Some(v) => {
            let r = form_text(form, name, v.clone());
            assert(form_texts(r) =~= form_texts(form) + seq![(name@, v@)]);
            r
        },
        None => {
            assert(form_texts(form) =~= form_texts(form) + seq![]);
            form
        },
    }
}

/// Adds the `models` field when there are model names.
fn add_models(form: reqwest::multipart::Form, models: &Vec<String>) -> (r: reqwest::multipart::Form)
    ensures
        form_texts(r) == form_texts(form) + models_field(strings_view(models@)),
{
    if models.len() == 0 {
        assert(form_texts(form) =~= form_texts(form) + seq![]);
        return form;
    }
    let mut parts: Vec<Vec<char>> = Vec::new();
    for i in 0..models.len()
        invariant
            seqs(parts@) == strings_view(models@).take(i as int),
    {
        let p = str_chars(models[i].as_str());
        assert(p@ == models@[i as int]@);
        let ghost prev = parts@;
        parts.push(p);
        assert(parts@ == prev.push(p));
        assert(seqs(parts@) =~= seqs(prev).push(p@));
        assert(strings_view(models@).take(i + 1) =~= strings_view(models@).take(i as int).push(models@[i as int]@));
    }
    assert(strings_view(models@).take(models.len() as int) =~= strings_view(models@));
    let sep = vec![','];
    assert(sep@ =~= seq![',']);
    let joined = join_chars(&parts, &sep);
    let r = form_text(form, "models", chars_to_string(&joined));
    assert(form_texts(r) =~= form_texts(form) + models_field(strings_view(models@)));
    r
}

proof fn lemma_assoc(a: Seq<(Seq<char>, Seq<char>)>, b: Seq<(Seq<char>, Seq<char>)>, c: Seq<(Seq<char>, Seq<char>)>)
    ensures
        a + b + c == a + (b + c),
{
    assert(a + b + c =~= a + (b + c));
}

impl ProcessOptions {
    /// Append all option fields to a multipart form, in the order of
    /// [`form_fields`].
    pub fn apply_to(&self, form: reqwest::multipart::Form) -> (r: reqwest::multipart::Form)
        ensures
            form_texts(r) == form_texts(form) + form_fields(self@),
    {
        let ghost base = form_texts(form);
        let ghost o = self@;
        let f = form_text(form, "consolidateHeader", self.consolidate_header.as_param().to_owned());
        let f = form_text(f, "consolidateCitations", self.consolidate_citations.as_param().to_owned());
        let ghost p0 = seq![
            ("consolidateHeader"@, header_param(o.consolidate_header)),
            ("consolidateCitations"@, citation_param(o.consolidate_citations)),
        ];
        assert(form_texts(f) =~= base + p0);
        let f = add_flag(f, self.generate_ids, "generateIDs");
        let f = add_flag(f, self.include_raw_citations, "includeRawCitations");
        let f = add_flag(f, self.include_raw_affiliations, "includeRawAffiliations");
        let f = add_flag(f, self.include_raw_copyrights, "includeRawCopyrights");
        let f = add_coordinates(f, &self.tei_coordinates);
        let f = add_flag(f, self.segment_sentences, "segmentSentences");
        let f = add_opt(f, "flavor", &self.flavor);
        let f = add_page(f, "start", self.start_page);
        let f = add_page(f, "end", self.end_page);
        let f = add_flag(f, self.debug_mode, "debugMode");
        let f = add_models(f, &self.models);
        proof {
            let p1 = flag(o.generate_ids, "generateIDs"@);
            let p2 = flag(o.include_raw_citations, "includeRawCitations"@);
            let p3 = flag(o.include_raw_affiliations, "includeRawAffiliations"@);
            let p4 = flag(o.include_raw_copyrights, "includeRawCopyrights"@);
            let p5 = coordinate_fields(o.tei_coordinates);
            let p6 = flag(o.segment_sentences, "segmentSentences"@);
            let p7 = opt_field("flavor"@, o.flavor);
            let p8 = page_field("start"@, o.start_page);
            let p9 = page_field("end"@, o.end_page);
            let p10 = flag(o.debug_mode, "debugMode"@);
            let p11 = models_field(o.models);
            assert(form_fields(o) == p0 + p1 + p2 + p3 + p4 + p5 + p6 + p7 + p8 + p9 + p10 + p11);
            lemma_assoc(base, p0, p1);
            lemma_assoc(base, p0 + p1, p2);
            lemma_assoc(base, p0 + p1 + p2, p3);
            lemma_assoc(base, p0 + p1 + p2 + p3, p4);
            lemma_assoc(base, p0 + p1 + p2 + p3 + p4, p5);
            lemma_assoc(base, p0 + p1 + p2 + p3 + p4 + p5, p6);
            lemma_assoc(base, p0 + p1 + p2 + p3 + p4 + p5 + p6, p7);
            lemma_assoc(base, p0 + p1 + p2 + p3 + p4 + p5 + p6 + p7, p8);
            lemma_assoc(base, p0 + p1 + p2 + p3 + p4 + p5 + p6 + p7 + p8, p9);
            lemma_assoc(base, p0 + p1 + p2 + p3 + p4 + p5 + p6 + p7 + p8 + p9, p10);
            lemma_assoc(base, p0 + p1 + p2 + p3 + p4 + p5 + p6 + p7 + p8 + p9 + p10, p11);
        }
        f
    }

    /// Append the citation-related fields for form-urlencoded services
    /// ([`urlencoded_fields`]) to `fields`.
    pub fn apply_to_urlencoded(&self, fields: &mut Vec<(String, String)>)
        ensures
            pairs_view(final(fields)@) == pairs_view(old(fields)@) + urlencoded_fields(self@),
    {
        let ghost start = pairs_view(fields@);
        if self.consolidate_citations != CitationConsolidation::Disabled {
            fields.push(("consolidateCitations".to_owned(), self.consolidate_citations.as_param().to_owned()));
        }
        if self.include_raw_citations {
            fields.push(("includeRawCitations".to_owned(), "1".to_owned()));
        }
        assert(pairs_view(fields@) =~= start + urlencoded_fields(self@));
    }
}

// ---------------------------------------------------------------------------
// PDF inputs
// ---------------------------------------------------------------------------

#[verifier::external_type_specification]
#[verifier::external_body]
pub struct ExPathBuf(std::path::PathBuf);

/// `Clone::clone` of `std::path::PathBuf`; nothing is stated of the copy.
pub assume_specification[ <std::path::PathBuf as Clone>::clone ](p: &std::path::PathBuf) -> std::path::PathBuf;

/// A PDF to be processed by GROBID: either a path on disk, or the
/// document bytes with a file name.
#[derive(Debug, Clone)]
pub enum PdfInput {
    /// Read the PDF from the given path; its file name is the upload name.
    Path(std::path::PathBuf),
    /// Use the given bytes, uploaded under the given file name.
    Data {
        /// The name the PDF is uploaded as, e.g. `paper.pdf`.
        filename: String,
        /// The PDF content.
        data: Vec<u8>,
    },
}

/// The path that `std::path::PathBuf::from` makes of a text.
pub uninterp spec fn path_buf_of(s: Seq<char>) -> std::path::PathBuf;

/// `std::path::PathBuf::from` on a string slice: the path of that text,
/// as [`path_buf_of`] names it.
#[verifier::external_body]
fn path_from_str(s: &str) -> (r: std::path::PathBuf)
    ensures
        r == path_buf_of(s@),
{
    std::path::PathBuf::from(s)
}

impl From<std::path::PathBuf> for PdfInput {
    fn from(path: std::path::PathBuf) -> (r: PdfInput) {
        PdfInput::Path(path)
    }
}

impl vstd::std_specs::convert::FromSpecImpl<std::path::PathBuf> for PdfInput {
    open spec fn obeys_from_spec() -> bool {
        true
    }

    open spec fn from_spec(v: std::path::PathBuf) -> PdfInput {
        PdfInput::Path(v)
    }
}

impl From<&str> for PdfInput {
    /// The PDF at the given path.
    fn from(path: &str) -> (r: PdfInput) {
        PdfInput::Path(path_from_str(path))
    }
}

impl vstd::std_specs::convert::FromSpecImpl<&str> for PdfInput {
    open spec fn obeys_from_spec() -> bool {
        true
    }

    open spec fn from_spec(v: &str) -> PdfInput {
        PdfInput::Path(path_buf_of(v@))
    }
}

impl From<String> for PdfInput {
    /// The PDF at the given path.
    fn from(path: String) -> (r: PdfInput) {
        PdfInput::Path(path_from_str(path.as_str()))
    }
}

impl vstd::std_specs::convert::FromSpecImpl<String> for PdfInput {
    open spec fn obeys_from_spec() -> bool {
        true
    }

    open spec fn from_spec(v: String) -> PdfInput {
        PdfInput::Path(path_buf_of(v@))
    }
}

#[verifier::external_type_specification]
#[verifier::external_body]
pub struct ExPath(std::path::Path);

/// The owned copy that `std::path::Path::to_path_buf` makes of a path.
pub uninterp spec fn owned_path_of(p: &std::path::Path) -> std::path::PathBuf;

/// `std::path::Path::to_path_buf`: the owned copy of the path, as
/// [`owned_path_of`] names it.
#[verifier::external_body]
fn owned_path(p: &std::path::Path) -> (r: std::path::PathBuf)
    ensures
        r == owned_path_of(p),
{
    p.to_path_buf()
}

impl From<&std::path::Path> for PdfInput {
    /// The PDF at the given path.
    fn from(path: &std::path::Path) -> (r: PdfInput) {
        PdfInput::Path(owned_path(path))
    }
}

impl vstd::std_specs::convert::FromSpecImpl<&std::path::Path> for PdfInput {
    open spec fn obeys_from_spec() -> bool {
        true
    }

    open spec fn from_spec(v: &std::path::Path) -> PdfInput {
        PdfInput::Path(owned_path_of(v))
    }
}

impl From<(&str, Vec<u8>)> for PdfInput {
    /// The given bytes under the given file name.
    fn from(v: (&str, Vec<u8>)) -> (r: PdfInput)
        ensures
            r matches PdfInput::Data { filename, data } && filename@ == v.0@ && data@ == v.1@,
    {
        PdfInput::Data { filename: v.0.to_owned(), data: v.1 }
    }
}

impl vstd::std_specs::convert::FromSpecImpl<(&str, Vec<u8>)> for PdfInput {
    /// The file name is a new `String`: what holds of it is stated by
    /// `from`.
    open spec fn obeys_from_spec() -> bool {
        false
    }

    open spec fn from_spec(v: (&str, Vec<u8>)) -> PdfInput {
        vstd::pervasive::arbitrary()
    }
}

impl From<(String, Vec<u8>)> for PdfInput {
    fn from(v: (String, Vec<u8>)) -> (r: PdfInput) {
        PdfInput::Data { filename: v.0, data: v.1 }
    }
}

impl vstd::std_specs::convert::FromSpecImpl<(String, Vec<u8>)> for PdfInput {
    open spec fn obeys_from_spec() -> bool {
        true
    }

    open spec fn from_spec(v: (String, Vec<u8>)) -> PdfInput {
        PdfInput::Data { filename: v.0, data: v.1 }
    }
}

/// The name under which a PDF read from disk is uploaded: the file name
/// of its path, or `document.pdf` when the path has none.
pub fn upload_name(file_name: Option<String>) -> (r: String)
    ensures
        r@ == match file_name {
            Some(n) => n@,
            None => "document.pdf"@,
        },
{
    match file_name {
        Some(n) => n,
        None => "document.pdf".to_owned(),
    }
}

// ---------------------------------------------------------------------------
// Retries and replies
// ---------------------------------------------------------------------------

/// The status codes of a busy server: 503 (all processing threads busy)
/// and 429 (too many requests).
pub open spec fn is_busy_status(status: u16) -> bool {
    status == 503 || status == 429
}

/// Whether a reply with `status` comes from a busy server.
pub fn is_busy(status: u16) -> (r: bool)
    ensures
        r == is_busy_status(status),
{
    status == 503 || status == 429
}

/// Whether to send a request again after attempt number `attempt`
/// (counted from one) was answered with `status`: only when the server
/// was busy and fewer than `max_attempts` attempts were made.
pub fn should_retry(status: u16, attempt: usize, max_attempts: usize) -> (r: bool)
    ensures
        r == (is_busy_status(status) && attempt < max_attempts),
{
    is_busy(status) && attempt < max_attempts
}

/// The longest error message kept, in bytes.
const MAX_MESSAGE_LEN: usize = 500;

/// The longest prefix of `s` whose UTF-8 encoding takes at most `budget`
/// bytes.
pub open spec fn prefix_within(s: Seq<char>, budget: int) -> Seq<char>
    decreases s.len(),
{
    if s.len() > 0 && encode_scalar(s[0] as u32).len() <= budget {
        seq![s[0]] + prefix_within(s.drop_first(), budget - encode_scalar(s[0] as u32).len())
    } else {
        seq![]
    }
}

/// The message kept of a response body: when it takes more than 500
/// bytes, the longest prefix that fits in 500 bytes (cut where a character
/// ends) followed by `…`; trimmed of white space.
pub open spec fn shortened(body: Seq<char>) -> Seq<char> {
    if encode_utf8(body).len() > 500 {
        trim(prefix_within(body, 500).push('…'))
    } else {
        trim(body)
    }
}

impl GrobidError {
    /// An HTTP status error from a status code, the requested URL and the
    /// response body, which is shortened to [`shortened`].
    pub fn http_status(status: u16, url: String, message: String) -> (r: GrobidError)
        ensures
            r@ == ErrorV::HttpStatus(status, url@, shortened(message@)),
    {
        let chars = str_chars(message.as_str());
        let ghost s = chars@;
        let mut out: Vec<char> = Vec::new();
        let mut used: usize = 0;
        let mut i: usize = 0;
        let mut stop = false;
        assert(s.skip(0) =~= s);
        assert(out@ + prefix_within(s, 500) =~= prefix_within(s, 500));
        while i < chars.len() && !stop
            invariant
                s == chars@,
                i <= s.len(),
                out@ == s.take(i as int),
                used == encode_utf8(out@).len(),
                used <= MAX_MESSAGE_LEN,
                prefix_within(s, 500) == out@ + prefix_within(s.skip(i as int), 500 - used),
                stop ==> i < s.len() && used + encode_scalar(s[i as int] as u32).len() > 500,
            decreases s.len() - i, if stop { 0int } else { 1int },
        {
            let c = chars[i];
            let w = utf8_width(c);
            if w > MAX_MESSAGE_LEN - used {
                stop = true;
            } else {
                proof {
                    let rest = s.skip(i as int);
                    assert(rest[0] == c);
                    assert(rest.drop_first() =~= s.skip(i + 1));
                    lemma_utf8_len_concat(out@, seq![c]);
                    lemma_utf8_len_one(c);
                    assert(out@.push(c) =~= out@ + seq![c]);
                    assert(out@ + (seq![c] + prefix_within(s.skip(i + 1), 500 - used - w)) =~= out@.push(c)
                        + prefix_within(s.skip(i + 1), 500 - used - w));
                }
                out.push(c);
                assert(out@ =~= s.take(i + 1));
                used = used + w;
                i = i + 1;
            }
        }
        let text = if stop {
            proof {
                let rest = s.skip(i as int);
                assert(rest[0] == s[i as int]);
                assert(out@ + prefix_within(rest, 500 - used) =~= out@);
                lemma_utf8_len_concat(s.take(i as int), seq![s[i as int]]);
                lemma_utf8_len_one(s[i as int]);
                assert(s.take(i as int) + seq![s[i as int]] =~= s.take(i + 1));
                lemma_utf8_len_concat(s.take(i + 1), s.skip(i + 1));
                assert(s.take(i + 1) + s.skip(i + 1) =~= s);
            }
            out.push('…');
            out
        } else {
            assert(out@ =~= s);
            chars
        };
        assert(text@ == (if encode_utf8(s).len() > 500 {
            prefix_within(s, 500).push('…')
        } else {
            s
        }));
        let trimmed = trim_chars(&text);
        GrobidError::HttpStatus { status, url, message: chars_to_string(&trimmed) }
    }
}

/// What a reply with `status` and `body` to a request for `url` comes to
/// when `max_attempts` attempts were allowed: the body for 200, nothing
/// for 204, a busy server for 503 and 429, and an HTTP status error for
/// any other status.
pub open spec fn reply_of(status: u16, url: Seq<char>, body: Seq<char>, max_attempts: usize) -> Result<
    Option<Seq<char>>,
    ErrorV,
> {
    if status == 200 {
        Ok(Some(body))
    } else if status == 204 {
        Ok(None)
    } else if is_busy_status(status) {
        Err(ErrorV::ServerBusy(max_attempts))
    } else {
        Err(ErrorV::HttpStatus(status, url, shortened(body)))
    }
}

/// Interpret the final reply of a request: see [`reply_of`].
pub fn reply_text(status: u16, url: &str, body: String, max_attempts: usize) -> (r: Result<Option<String>, GrobidError>)
    ensures
        result_view(
            r,
            |o: Option<String>|
                match o {
                    Some(b) => Some(b@),
                    None => None,
                },
        ) == reply_of(status, url@, body@, max_attempts),
{
    if status == 200 {
        Ok(Some(body))
    } else if status == 204 {
        Ok(None)
    } else if is_busy(status) {
        Err(GrobidError::ServerBusy { attempts: max_attempts })
    } else {
        Err(GrobidError::http_status(status, url.to_owned(), body))
    }
}

/// What the reply to `/api/isalive` means: for status 200, whether the
/// trimmed body is `true`; for any other status, an HTTP status error.
pub fn ping_reply(status: u16, url: &str, body: String) -> (r: Result<bool, GrobidError>)
    ensures
        status == 200 ==> r == Ok::<bool, GrobidError>(trim(body@) == "true"@),
        status != 200 ==> (r matches Err(e) && e@ == ErrorV::HttpStatus(status, url@, shortened(body@))),
{
    if status == 200 {
        let t = trim_chars(&str_chars(body.as_str()));
        Ok(crate::text::eq_str(&t, "true"))
    } else {
        Err(GrobidError::http_status(status, url.to_owned(), body))
    }
}

/// What the reply to `/api/version` means: for status 200, the trimmed
/// body; for any other status, an HTTP status error.
pub fn version_reply(status: u16, url: &str, body: String) -> (r: Result<String, GrobidError>)
    ensures
        status == 200 ==> (r matches Ok(v) && v@ == trim(body@)),
        status != 200 ==> (r matches Err(e) && e@ == ErrorV::HttpStatus(status, url@, shortened(body@))),
{
    if status == 200 {
        let t = trim_chars(&str_chars(body.as_str()));
        Ok(chars_to_string(&t))
    } else {
        Err(GrobidError::http_status(status, url.to_owned(), body))
    }
}

/// The outcome of parsing a full TEI document.
pub open spec fn document_outcome(xml: Seq<char>) -> Result<DocumentV, ErrorV> {
    match xml_nodes(xml) {
        None => Err(ErrorV::Xml),
        Some(d) => document_of(d),
    }
}

/// The outcome of parsing a list of references.
pub open spec fn citation_list_outcome(xml: Seq<char>) -> Result<Seq<CitationV>, ErrorV> {
    match xml_nodes(xml) {
        None => Err(ErrorV::Xml),
        Some(d) => citation_list_of(d),
    }
}

/// The outcome of parsing a single reference.
pub open spec fn citation_outcome(xml: Seq<char>) -> Result<Option<CitationV>, ErrorV> {
    match xml_nodes(xml) {
        None => Err(ErrorV::Xml),
        Some(d) => citation_opt_of(d),
    }
}

/// The document in a reply of the fulltext or header service: the parsed
/// TEI, or an error when the server produced no content.
pub fn document_reply(reply: Option<String>) -> (r: Result<Document, GrobidError>)
    ensures
        result_view(r, |x: Document| x@) == match reply {
            None => Err(ErrorV::NoContent),
            Some(xml) => document_outcome(xml@),
        },
{
    match reply {
        None => Err(GrobidError::NoContent),
        Some(xml) => parse_document(xml.as_str()),
    }
}

/// The references in a reply of the reference or citation list service:
/// the parsed list, or no references when the server produced no content.
pub fn citation_list_reply(reply: Option<String>) -> (r: Result<Vec<Citation>, GrobidError>)
    ensures
        result_view(r, |v: Vec<Citation>| citations_view(v@)) == match reply {
            None => Ok(Seq::<CitationV>::empty()),
            Some(xml) => citation_list_outcome(xml@),
        },
{
    match reply {
        None => {
            let v: Vec<Citation> = Vec::new();
            assert(citations_view(v@) =~= Seq::<CitationV>::empty());
            Ok(v)
        },
        Some(xml) => parse_citation_list(xml.as_str()),
    }
}

/// The reference in a reply of the citation service: the parsed
/// reference, or none when the server produced no content or only white
/// space.
pub fn citation_reply(reply: Option<String>) -> (r: Result<Option<Citation>, GrobidError>)
    ensures
        result_view(
            r,
            |c: Option<Citation>|
                match c {
                    Some(x) => Some(x@),
                    None => None,
                },
        ) == match reply {
            Some(xml) => if trim(xml@).len() > 0 {
                citation_outcome(xml@)
            } else {
                Ok(None)
            },
            None => Ok(None),
        },
{
    match reply {
        Some(xml) => {
            let t = trim_chars(&str_chars(xml.as_str()));
            if t.len() > 0 {
                parse_citation(xml.as_str())
            } else {
                Ok(None)
            }
        },
        None => Ok(None),
    }
}

/// The raw body of a reply to an arbitrary service, or an error when the
/// server produced no content.
pub fn raw_reply(reply: Option<String>) -> (r: Result<String, GrobidError>)
    ensures
        match reply {
            Some(b) => r matches Ok(s) && s@ == b@,
            None => r matches Err(e) && e@ == ErrorV::NoContent,
        },
{
    match reply {
        Some(body) => Ok(body),
        None => Err(GrobidError::NoContent),
    }
}

/// The urlencoded fields of a citation request: one `citations` field
/// per reference text, in order.
pub open spec fn citation_fields(citations: Seq<Seq<char>>) -> Seq<(Seq<char>, Seq<char>)> {
    citations.map_values(|c: Seq<char>| ("citations"@, c))
}

/// The fields of a request to parse the given reference texts: one
/// `citations` field each, then the citation-related options.
pub fn citation_request(citations: &Vec<String>, options: &ProcessOptions) -> (r: Vec<(String, String)>)
    ensures
        pairs_view(r@) == citation_fields(strings_view(citations@)) + urlencoded_fields(options@),
{
    let mut fields: Vec<(String, String)> = Vec::new();
    let ghost cs = strings_view(citations@);
    for i in 0..citations.len()
        invariant
            cs == strings_view(citations@),
            pairs_view(fields@) == citation_fields(cs.take(i as int)),
    {
        let ghost prev = fields@;
        fields.push(("citations".to_owned(), citations[i].clone()));
        assert(pairs_view(fields@) =~= pairs_view(prev).push(("citations"@, cs[i as int])));
        assert(citation_fields(cs.take(i + 1)) =~= citation_fields(cs.take(i as int)).push(("citations"@, cs[i as int])));
    }
    assert(cs.take(citations.len() as int) =~= cs);
    options.apply_to_urlencoded(&mut fields);
    fields
}

// ---------------------------------------------------------------------------
// Base URL
// ---------------------------------------------------------------------------

/// What `url::Url::parse` gives for a text: `None` for an error, and
/// otherwise the URL's serialization, scheme and path.
pub uninterp spec fn url_parse_of(s: Seq<char>) -> Option<(Seq<char>, Seq<char>, Seq<char>)>;

/// The serialization of the URL that `url::Url::parse` gives for `s`,
/// after `Url::set_path(path)`.
pub uninterp spec fn url_with_path_of(s: Seq<char>, path: Seq<char>) -> Seq<char>;

/// `url::Url::parse`, with the serialization, scheme and path of the URL
/// it gives, as [`url_parse_of`] names them.
#[verifier::external_body]
fn parse_url(s: &str) -> (r: Result<(String, String, String), url::ParseError>)
    ensures
        r matches Ok(t) ==> url_parse_of(s@) == Some((t.0@, t.1@, t.2@)),
        r is Err ==> url_parse_of(s@) is None,
{
    url::Url::parse(s).map(|u| (u.as_str().to_string(), u.scheme().to_string(), u.path().to_string()))
}

/// `url::Url::set_path` on the URL that `url::Url::parse` gives for `s`
/// (which the requirement says it does): the serialization afterwards,
/// as [`url_with_path_of`] names it.
#[verifier::external_body]
fn url_with_path(s: &str, path: &str) -> (r: String)
    requires
        url_parse_of(s@) is Some,
    ensures
        r@ == url_with_path_of(s@, path@),
{
    let mut url = url::Url::parse(s).expect("the text was parsed before");
    url.set_path(path);
    url.into()
}

/// `s` without its trailing slashes.
pub open spec fn trim_end_slashes(s: Seq<char>) -> Seq<char>
    decreases s.len(),
{
    if s.len() > 0 && s.last() == '/' {
        trim_end_slashes(s.drop_last())
    } else {
        s
    }
}

/// The text of a base URL that is parsed: trimmed of white space and
/// trailing slashes, with `http://` in front when it has no scheme.
pub open spec fn with_scheme(base: Seq<char>) -> Seq<char> {
    let t = trim_end_slashes(trim(base));
    if contains_seq(t, "://"@) {
        t
    } else {
        "http://"@ + t
    }
}

/// The normalized base URL: the serialization of the URL parsed from
/// [`with_scheme`], whose scheme must be `http` or `https`, with a slash
/// added to its path when it does not end with one.
pub open spec fn normalized_url(base: Seq<char>) -> Result<Seq<char>, ErrorV> {
    let s = with_scheme(base);
    match url_parse_of(s) {
        None => Err(ErrorV::InvalidBaseUrl(base)),
        Some(u) => {
            let (href, scheme, path) = u;
            if scheme != "http"@ && scheme != "https"@ {
                Err(ErrorV::UnsupportedScheme(base, scheme))
            } else if path.len() > 0 && path.last() == '/' {
                Ok(href)
            } else {
                Ok(url_with_path_of(s, path.push('/')))
            }
        },
    }
}

/// Normalize a user-supplied base URL ([`normalized_url`]): add a scheme
/// when missing, require `http` or `https`, and make the path end with a
/// slash so that service paths can be joined to it. Returns the URL's
/// serialization.
pub fn normalize_base_url(base_url: &str) -> (r: Result<String, GrobidError>)
    ensures
        result_view(r, |s: String| s@) == normalized_url(base_url@),
{
    let mut t = trim_chars(&str_chars(base_url));
    while t.len() > 0 && t[t.len() - 1] == '/'
        invariant
            trim_end_slashes(t@) == trim_end_slashes(trim(base_url@)),
        decreases t.len(),
    {
        t.pop();
    }
    assert(trim_end_slashes(t@) == t@);
    let text = if contains_str(&t, "://") {
        chars_to_string(&t)
    } else {
        let mut w = str_chars("http://");
        append_chars(&mut w, &t);
        chars_to_string(&w)
    };
    assert(text@ == with_scheme(base_url@));
    match parse_url(text.as_str()) {
        Err(source) => Err(GrobidError::InvalidBaseUrl { base_url: base_url.to_owned(), source }),
        Ok((href, scheme, path)) => {
            let sc = str_chars(scheme.as_str());
            if !crate::text::eq_str(&sc, "http") && !crate::text::eq_str(&sc, "https") {
                return Err(GrobidError::UnsupportedScheme { base_url: base_url.to_owned(), scheme });
            }
            let mut p = str_chars(path.as_str());
            if p.len() > 0 && p[p.len() - 1] == '/' {
                Ok(href)
            } else {
                p.push('/');
                Ok(url_with_path(text.as_str(), chars_to_string(&p).as_str()))
            }
        },
    }
}

/// What `url::Url::join` gives for the URL that `url::Url::parse` gives
/// for `base` and a relative `input`: the joined URL's serialization, or
/// `None` when either call fails.
pub uninterp spec fn url_join_of(base: Seq<char>, input: Seq<char>) -> Option<Seq<char>>;

/// `url::Url::join` on the URL parsed from `base`, as [`url_join_of`]
/// names it.
#[verifier::external_body]
fn url_join(base: &str, input: &str) -> (r: Option<String>)
    ensures
        r matches Some(u) ==> url_join_of(base@, input@) == Some(u@),
        r is None ==> url_join_of(base@, input@) is None,
{
    url::Url::parse(base).and_then(|u| u.join(input)).ok().map(String::from)
}

/// The URL of a service under the `/api/` path of the base URL:
/// `api/{service}` joined to it, or an internal error when the base URL
/// does not support relative paths.
pub fn api_url(base_url: &str, service: &str) -> (r: Result<String, GrobidError>)
    ensures
        match url_join_of(base_url@, "api/"@ + service@) {
            Some(u) => r matches Ok(s) && s@ == u,
            None => r matches Err(e) && e@ == ErrorV::Internal("base URL does not support relative paths"@),
        },
{
    let mut rel = str_chars("api/");
    crate::text::append_str(&mut rel, service);
    let rel = chars_to_string(&rel);
    match url_join(base_url, rel.as_str()) {
        Some(u) => Ok(u),
        None => Err(GrobidError::Internal("base URL does not support relative paths")),
    }
}

/// Distinct header consolidation levels are sent as distinct values.
pub proof fn lemma_header_param_injective(a: HeaderConsolidation, b: HeaderConsolidation)
    requires
        a != b,
    ensures
        header_param(a) != header_param(b),
{
    reveal_strlit("0");
    reveal_strlit("1");
    reveal_strlit("2");
    reveal_strlit("3");
    if header_param(a) == header_param(b) {
        assert(header_param(a)[0] == header_param(b)[0]);
    }
}

/// Distinct citation consolidation levels are sent as distinct values.
pub proof fn lemma_citation_param_injective(a: CitationConsolidation, b: CitationConsolidation)
    requires
        a != b,
    ensures
        citation_param(a) != citation_param(b),
{
    reveal_strlit("0");
    reveal_strlit("1");
    reveal_strlit("2");
    if citation_param(a) == citation_param(b) {
        assert(citation_param(a)[0] == citation_param(b)[0]);
    }
}

/// Distinct coordinate elements are sent as distinct values.
pub proof fn lemma_element_param_injective(a: CoordinateElement, b: CoordinateElement)
    requires
        a != b,
    ensures
        element_param(a) != element_param(b),
{
    reveal_strlit("ref");
    reveal_strlit("biblStruct");
    reveal_strlit("persName");
    reveal_strlit("figure");
    reveal_strlit("formula");
    reveal_strlit("head");
    reveal_strlit("s");
    reveal_strlit("p");
    reveal_strlit("note");
    reveal_strlit("title");
    reveal_strlit("affiliation");
    if element_param(a) == element_param(b) {
        assert(element_param(a).len() == element_param(b).len());
        assert(element_param(a)[0] == element_param(b)[0]);
    }
}

/// However a server answers, the client makes at most `max_attempts`
/// attempts (one when `max_attempts` is zero): attempt `n` (counted from
/// one) is made only when [`should_retry`] held for each attempt before
/// it, `statuses[k]` being the status that attempt `k + 1` got.
pub proof fn lemma_attempts_bounded(statuses: Seq<u16>, max_attempts: usize, n: int)
    requires
        1 <= n <= statuses.len() + 1,
        forall|k: int| 0 <= k < n - 1 ==> #[trigger] is_busy_status(statuses[k]) && k + 1 < max_attempts,
    ensures
        n <= max_attempts || n == 1,
{
    if n >= 2 {
        let k = n - 2;
        assert(0 <= k < n - 1);
        assert(is_busy_status(statuses[k]));
    }
}

/// The first two fields of every processing request are the
/// consolidation levels: `consolidateHeader` with the value of the header
/// setting (whatever the citation setting is), then `consolidateCitations`
/// with the value of the citation setting.
pub proof fn lemma_consolidation_fields_first(o: OptionsV)
    ensures
        form_fields(o).len() >= 2,
        form_fields(o)[0] == ("consolidateHeader"@, header_param(o.consolidate_header)),
        form_fields(o)[1] == ("consolidateCitations"@, citation_param(o.consolidate_citations)),
{
    let x0 = seq![
        ("consolidateHeader"@, header_param(o.consolidate_header)),
        ("consolidateCitations"@, citation_param(o.consolidate_citations)),
    ];
    let x1 = x0 + flag(o.generate_ids, "generateIDs"@);
    assert(x1[0] == x0[0] && x1[1] == x0[1]);
    let x2 = x1 + flag(o.include_raw_citations, "includeRawCitations"@);
    assert(x2[0] == x1[0] && x2[1] == x1[1]);
    let x3 = x2 + flag(o.include_raw_affiliations, "includeRawAffiliations"@);
    assert(x3[0] == x2[0] && x3[1] == x2[1]);
    let x4 = x3 + flag(o.include_raw_copyrights, "includeRawCopyrights"@);
    assert(x4[0] == x3[0] && x4[1] == x3[1]);
    let x5 = x4 + coordinate_fields(o.tei_coordinates);
    assert(x5[0] == x4[0] && x5[1] == x4[1]);
    let x6 = x5 + flag(o.segment_sentences, "segmentSentences"@);
    assert(x6[0] == x5[0] && x6[1] == x5[1]);
    let x7 = x6 + opt_field("flavor"@, o.flavor);
    assert(x7[0] == x6[0] && x7[1] == x6[1]);
    let x8 = x7 + page_field("start"@, o.start_page);
    assert(x8[0] == x7[0] && x8[1] == x7[1]);
    let x9 = x8 + page_field("end"@, o.end_page);
    assert(x9[0] == x8[0] && x9[1] == x8[1]);
    let x10 = x9 + flag(o.debug_mode, "debugMode"@);
    assert(x10[0] == x9[0] && x10[1] == x9[1]);
    let x11 = x10 + models_field(o.models);
    assert(x11[0] == x10[0] && x11[1] == x10[1]);
    assert(form_fields(o) == x11);
}

/// The levels are sent as GROBID numbers them: header consolidation off,
/// metadata, DOI and DOI-only as `0` to `3`, citation consolidation off,
/// metadata and DOI as `0` to `2`.
pub proof fn lemma_consolidation_values()
    ensures
        header_param(HeaderConsolidation::Disabled) == seq!['0'],
        header_param(HeaderConsolidation::Metadata) == seq!['1'],
        header_param(HeaderConsolidation::Doi) == seq!['2'],
        header_param(HeaderConsolidation::DoiOnly) == seq!['3'],
        citation_param(CitationConsolidation::Disabled) == seq!['0'],
        citation_param(CitationConsolidation::Metadata) == seq!['1'],
        citation_param(CitationConsolidation::Doi) == seq!['2'],
{
    reveal_strlit("0");
    reveal_strlit("1");
    reveal_strlit("2");
    reveal_strlit("3");
}


proof fn lemma_contains_concat(a: Seq<(Seq<char>, Seq<char>)>, b: Seq<(Seq<char>, Seq<char>)>, x: (Seq<char>, Seq<char>))
    ensures
        (a + b).contains(x) <==> a.contains(x) || b.contains(x),
{
    if (a + b).contains(x) {
        let i = choose|i: int| 0 <= i < (a + b).len() && (a + b)[i] == x;
        if i < a.len() {
            assert(a[i] == x);
        } else {
            assert(b[i - a.len()] == x);
        }
    }
    if a.contains(x) {
        let i = choose|i: int| 0 <= i < a.len() && a[i] == x;
        assert((a + b)[i] == x);
    }
    if b.contains(x) {
        let i = choose|i: int| 0 <= i < b.len() && b[i] == x;
        assert((a + b)[a.len() + i] == x);
    }
}

proof fn lemma_pair_contains(x0: Seq<(Seq<char>, Seq<char>)>, x: (Seq<char>, Seq<char>))
    requires
        x0.len() == 2,
    ensures
        x0.contains(x) <==> x == x0[0] || x == x0[1],
{
    if x0.contains(x) {
        let i = choose|i: int| 0 <= i < x0.len() && x0[i] == x;
    }
    if x == x0[0] {
        assert(x0[0] == x);
    }
    if x == x0[1] {
        assert(x0[1] == x);
    }
}

/// Every field of a processing request comes from one of its parts.
#[verifier::rlimit(50)]
proof fn lemma_form_contains(o: OptionsV, x: (Seq<char>, Seq<char>))
    ensures
        form_fields(o).contains(x) <==> (x == ("consolidateHeader"@, header_param(o.consolidate_header)) || x == (
            "consolidateCitations"@,
            citation_param(o.consolidate_citations),
        ) || flag(o.generate_ids, "generateIDs"@).contains(x) || flag(o.include_raw_citations, "includeRawCitations"@).contains(x) || flag(o.include_raw_affiliations, "includeRawAffiliations"@).contains(x) || flag(o.include_raw_copyrights, "includeRawCopyrights"@).contains(x) || coordinate_fields(o.tei_coordinates).contains(x) || flag(o.segment_sentences, "segmentSentences"@).contains(x) || opt_field("flavor"@, o.flavor).contains(x) || page_field("start"@, o.start_page).contains(x) || page_field("end"@, o.end_page).contains(x) || flag(o.debug_mode, "debugMode"@).contains(x) || models_field(o.models).contains(x)),
{
    let x0 = seq![
        ("consolidateHeader"@, header_param(o.consolidate_header)),
        ("consolidateCitations"@, citation_param(o.consolidate_citations)),
    ];
    lemma_pair_contains(x0, x);
    let x1 = x0 + flag(o.generate_ids, "generateIDs"@);
    lemma_contains_concat(x0, flag(o.generate_ids, "generateIDs"@), x);
    let x2 = x1 + flag(o.include_raw_citations, "includeRawCitations"@);
    lemma_contains_concat(x1, flag(o.include_raw_citations, "includeRawCitations"@), x);
    let x3 = x2 + flag(o.include_raw_affiliations, "includeRawAffiliations"@);
    lemma_contains_concat(x2, flag(o.include_raw_affiliations, "includeRawAffiliations"@), x);
    let x4 = x3 + flag(o.include_raw_copyrights, "includeRawCopyrights"@);
    lemma_contains_concat(x3, flag(o.include_raw_copyrights, "includeRawCopyrights"@), x);
    let x5 = x4 + coordinate_fields(o.tei_coordinates);
    lemma_contains_concat(x4, coordinate_fields(o.tei_coordinates), x);
    let x6 = x5 + flag(o.segment_sentences, "segmentSentences"@);
    lemma_contains_concat(x5, flag(o.segment_sentences, "segmentSentences"@), x);
    let x7 = x6 + opt_field("flavor"@, o.flavor);
    lemma_contains_concat(x6, opt_field("flavor"@, o.flavor), x);
    let x8 = x7 + page_field("start"@, o.start_page);
    lemma_contains_concat(x7, page_field("start"@, o.start_page), x);
    let x9 = x8 + page_field("end"@, o.end_page);
    lemma_contains_concat(x8, page_field("end"@, o.end_page), x);
    let x10 = x9 + flag(o.debug_mode, "debugMode"@);
    lemma_contains_concat(x9, flag(o.debug_mode, "debugMode"@), x);
    let x11 = x10 + models_field(o.models);
    lemma_contains_concat(x10, models_field(o.models), x);
    assert(form_fields(o) == x11);
}

proof fn lemma_part_names(o: OptionsV, x: (Seq<char>, Seq<char>))
    ensures
        coordinate_fields(o.tei_coordinates).contains(x) ==> x.0 == "teiCoordinates"@,
        opt_field("flavor"@, o.flavor).contains(x) ==> x.0 == "flavor"@,
        page_field("start"@, o.start_page).contains(x) ==> x.0 == "start"@,
        page_field("end"@, o.end_page).contains(x) ==> x.0 == "end"@,
        models_field(o.models).contains(x) ==> x.0 == "models"@,
{
    if coordinate_fields(o.tei_coordinates).contains(x) {
        let i = choose|i: int| 0 <= i < coordinate_fields(o.tei_coordinates).len() && coordinate_fields(o.tei_coordinates)[i] == x;
    }
    if opt_field("flavor"@, o.flavor).contains(x) {
        let i = choose|i: int| 0 <= i < opt_field("flavor"@, o.flavor).len() && opt_field("flavor"@, o.flavor)[i] == x;
    }
    if page_field("start"@, o.start_page).contains(x) {
        let i = choose|i: int| 0 <= i < page_field("start"@, o.start_page).len() && page_field("start"@, o.start_page)[i] == x;
    }
    if page_field("end"@, o.end_page).contains(x) {
        let i = choose|i: int| 0 <= i < page_field("end"@, o.end_page).len() && page_field("end"@, o.end_page)[i] == x;
    }
    if models_field(o.models).contains(x) {
        let i = choose|i: int| 0 <= i < models_field(o.models).len() && models_field(o.models)[i] == x;
    }
}

proof fn lemma_flag_contains(on: bool, name: Seq<char>, x: (Seq<char>, Seq<char>))
    ensures
        flag(on, name).contains(x) <==> on && x == (name, "1"@),
{
    if flag(on, name).contains(x) {
        let i = choose|i: int| 0 <= i < flag(on, name).len() && flag(on, name)[i] == x;
    }
    if on && x == (name, "1"@) {
        assert(flag(on, name)[0] == x);
    }
}

/// A processing request holds the field `generateIDs=1` exactly when the
/// option `generate_ids` is set.
pub proof fn lemma_generate_ids_field(o: OptionsV)
    ensures
        form_fields(o).contains(("generateIDs"@, "1"@)) <==> o.generate_ids,
{
    let x = ("generateIDs"@, "1"@);
    lemma_form_contains(o, x);
    lemma_part_names(o, x);
    lemma_flag_contains(o.generate_ids, "generateIDs"@, x);
    lemma_flag_contains(o.include_raw_citations, "includeRawCitations"@, x);
    lemma_flag_contains(o.include_raw_affiliations, "includeRawAffiliations"@, x);
    lemma_flag_contains(o.include_raw_copyrights, "includeRawCopyrights"@, x);
    lemma_flag_contains(o.segment_sentences, "segmentSentences"@, x);
    lemma_flag_contains(o.debug_mode, "debugMode"@, x);
    reveal_strlit("consolidateHeader");
    reveal_strlit("consolidateCitations");
    reveal_strlit("generateIDs");
    reveal_strlit("includeRawCitations");
    reveal_strlit("includeRawAffiliations");
    reveal_strlit("includeRawCopyrights");
    reveal_strlit("teiCoordinates");
    reveal_strlit("segmentSentences");
    reveal_strlit("flavor");
    reveal_strlit("start");
    reveal_strlit("end");
    reveal_strlit("debugMode");
    reveal_strlit("models");
    assert("generateIDs"@ != "consolidateHeader"@) by {
        assert("generateIDs"@.len() != "consolidateHeader"@.len());
    }
    assert("generateIDs"@ != "consolidateCitations"@) by {
        assert("generateIDs"@.len() != "consolidateCitations"@.len());
    }
    assert("generateIDs"@ != "includeRawCitations"@) by {
        assert("generateIDs"@.len() != "includeRawCitations"@.len());
    }
    assert("generateIDs"@ != "includeRawAffiliations"@) by {
        assert("generateIDs"@.len() != "includeRawAffiliations"@.len());
    }
    assert("generateIDs"@ != "includeRawCopyrights"@) by {
        assert("generateIDs"@.len() != "includeRawCopyrights"@.len());
    }
    assert("generateIDs"@ != "teiCoordinates"@) by {
        assert("generateIDs"@.len() != "teiCoordinates"@.len());
    }
    assert("generateIDs"@ != "segmentSentences"@) by {
        assert("generateIDs"@.len() != "segmentSentences"@.len());
    }
    assert("generateIDs"@ != "flavor"@) by {
        assert("generateIDs"@.len() != "flavor"@.len());
    }
    assert("generateIDs"@ != "start"@) by {
        assert("generateIDs"@.len() != "start"@.len());
    }
    assert("generateIDs"@ != "end"@) by {
        assert("generateIDs"@.len() != "end"@.len());
    }
    assert("generateIDs"@ != "debugMode"@) by {
        assert("generateIDs"@.len() != "debugMode"@.len());
    }
    assert("generateIDs"@ != "models"@) by {
        assert("generateIDs"@.len() != "models"@.len());
    }
}

/// A processing request holds the field `includeRawCitations=1` exactly when the
/// option `include_raw_citations` is set.
pub proof fn lemma_include_raw_citations_field(o: OptionsV)
    ensures
        form_fields(o).contains(("includeRawCitations"@, "1"@)) <==> o.include_raw_citations,
{
    let x = ("includeRawCitations"@, "1"@);
    lemma_form_contains(o, x);
    lemma_part_names(o, x);
    lemma_flag_contains(o.generate_ids, "generateIDs"@, x);
    lemma_flag_contains(o.include_raw_citations, "includeRawCitations"@, x);
    lemma_flag_contains(o.include_raw_affiliations, "includeRawAffiliations"@, x);
    lemma_flag_contains(o.include_raw_copyrights, "includeRawCopyrights"@, x);
    lemma_flag_contains(o.segment_sentences, "segmentSentences"@, x);
    lemma_flag_contains(o.debug_mode, "debugMode"@, x);
    reveal_strlit("consolidateHeader");
    reveal_strlit("consolidateCitations");
    reveal_strlit("generateIDs");
    reveal_strlit("includeRawCitations");
    reveal_strlit("includeRawAffiliations");
    reveal_strlit("includeRawCopyrights");
    reveal_strlit("teiCoordinates");
    reveal_strlit("segmentSentences");
    reveal_strlit("flavor");
    reveal_strlit("start");
    reveal_strlit("end");
    reveal_strlit("debugMode");
    reveal_strlit("models");
    assert("includeRawCitations"@ != "consolidateHeader"@) by {
        assert("includeRawCitations"@.len() != "consolidateHeader"@.len());
    }
    assert("includeRawCitations"@ != "consolidateCitations"@) by {
        assert("includeRawCitations"@.len() != "consolidateCitations"@.len());
    }
    assert("includeRawCitations"@ != "generateIDs"@) by {
        assert("includeRawCitations"@.len() != "generateIDs"@.len());
    }
    assert("includeRawCitations"@ != "includeRawAffiliations"@) by {
        assert("includeRawCitations"@.len() != "includeRawAffiliations"@.len());
    }
    assert("includeRawCitations"@ != "includeRawCopyrights"@) by {
        assert("includeRawCitations"@.len() != "includeRawCopyrights"@.len());
    }
    assert("includeRawCitations"@ != "teiCoordinates"@) by {
        assert("includeRawCitations"@.len() != "teiCoordinates"@.len());
    }
    assert("includeRawCitations"@ != "segmentSentences"@) by {
        assert("includeRawCitations"@.len() != "segmentSentences"@.len());
    }
    assert("includeRawCitations"@ != "flavor"@) by {
        assert("includeRawCitations"@.len() != "flavor"@.len());
    }
    assert("includeRawCitations"@ != "start"@) by {
        assert("includeRawCitations"@.len() != "start"@.len());
    }
    assert("includeRawCitations"@ != "end"@) by {
        assert("includeRawCitations"@.len() != "end"@.len());
    }
    assert("includeRawCitations"@ != "debugMode"@) by {
        assert("includeRawCitations"@.len() != "debugMode"@.len());
    }
    assert("includeRawCitations"@ != "models"@) by {
        assert("includeRawCitations"@.len() != "models"@.len());
    }
}

/// A processing request holds the field `includeRawAffiliations=1` exactly when the
/// option `include_raw_affiliations` is set.
pub proof fn lemma_include_raw_affiliations_field(o: OptionsV)
    ensures
        form_fields(o).contains(("includeRawAffiliations"@, "1"@)) <==> o.include_raw_affiliations,
{
    let x = ("includeRawAffiliations"@, "1"@);
    lemma_form_contains(o, x);
    lemma_part_names(o, x);
    lemma_flag_contains(o.generate_ids, "generateIDs"@, x);
    lemma_flag_contains(o.include_raw_citations, "includeRawCitations"@, x);
    lemma_flag_contains(o.include_raw_affiliations, "includeRawAffiliations"@, x);
    lemma_flag_contains(o.include_raw_copyrights, "includeRawCopyrights"@, x);
    lemma_flag_contains(o.segment_sentences, "segmentSentences"@, x);
    lemma_flag_contains(o.debug_mode, "debugMode"@, x);
    reveal_strlit("consolidateHeader");
    reveal_strlit("consolidateCitations");
    reveal_strlit("generateIDs");
    reveal_strlit("includeRawCitations");
    reveal_strlit("includeRawAffiliations");
    reveal_strlit("includeRawCopyrights");
    reveal_strlit("teiCoordinates");
    reveal_strlit("segmentSentences");
    reveal_strlit("flavor");
    reveal_strlit("start");
    reveal_strlit("end");
    reveal_strlit("debugMode");
    reveal_strlit("models");
    assert("includeRawAffiliations"@ != "consolidateHeader"@) by {
        assert("includeRawAffiliations"@.len() != "consolidateHeader"@.len());
    }
    assert("includeRawAffiliations"@ != "consolidateCitations"@) by {
        assert("includeRawAffiliations"@.len() != "consolidateCitations"@.len());
    }
    assert("includeRawAffiliations"@ != "generateIDs"@) by {
        assert("includeRawAffiliations"@.len() != "generateIDs"@.len());
    }
    assert("includeRawAffiliations"@ != "includeRawCitations"@) by {
        assert("includeRawAffiliations"@.len() != "includeRawCitations"@.len());
    }
    assert("includeRawAffiliations"@ != "includeRawCopyrights"@) by {
        assert("includeRawAffiliations"@.len() != "includeRawCopyrights"@.len());
    }
    assert("includeRawAffiliations"@ != "teiCoordinates"@) by {
        assert("includeRawAffiliations"@.len() != "teiCoordinates"@.len());
    }
    assert("includeRawAffiliations"@ != "segmentSentences"@) by {
        assert("includeRawAffiliations"@.len() != "segmentSentences"@.len());
    }
    assert("includeRawAffiliations"@ != "flavor"@) by {
        assert("includeRawAffiliations"@.len() != "flavor"@.len());
    }
    assert("includeRawAffiliations"@ != "start"@) by {
        assert("includeRawAffiliations"@.len() != "start"@.len());
    }
    assert("includeRawAffiliations"@ != "end"@) by {
        assert("includeRawAffiliations"@.len() != "end"@.len());
    }
    assert("includeRawAffiliations"@ != "debugMode"@) by {
        assert("includeRawAffiliations"@.len() != "debugMode"@.len());
    }
    assert("includeRawAffiliations"@ != "models"@) by {
        assert("includeRawAffiliations"@.len() != "models"@.len());
    }
}

/// A processing request holds the field `includeRawCopyrights=1` exactly when the
/// option `include_raw_copyrights` is set.
pub proof fn lemma_include_raw_copyrights_field(o: OptionsV)
    ensures
        form_fields(o).contains(("includeRawCopyrights"@, "1"@)) <==> o.include_raw_copyrights,
{
    let x = ("includeRawCopyrights"@, "1"@);
    lemma_form_contains(o, x);
    lemma_part_names(o, x);
    lemma_flag_contains(o.generate_ids, "generateIDs"@, x);
    lemma_flag_contains(o.include_raw_citations, "includeRawCitations"@, x);
    lemma_flag_contains(o.include_raw_affiliations, "includeRawAffiliations"@, x);
    lemma_flag_contains(o.include_raw_copyrights, "includeRawCopyrights"@, x);
    lemma_flag_contains(o.segment_sentences, "segmentSentences"@, x);
    lemma_flag_contains(o.debug_mode, "debugMode"@, x);
    reveal_strlit("consolidateHeader");
    reveal_strlit("consolidateCitations");
    reveal_strlit("generateIDs");
    reveal_strlit("includeRawCitations");
    reveal_strlit("includeRawAffiliations");
    reveal_strlit("includeRawCopyrights");
    reveal_strlit("teiCoordinates");
    reveal_strlit("segmentSentences");
    reveal_strlit("flavor");
    reveal_strlit("start");
    reveal_strlit("end");
    reveal_strlit("debugMode");
    reveal_strlit("models");
    assert("includeRawCopyrights"@ != "consolidateHeader"@) by {
        assert("includeRawCopyrights"@.len() != "consolidateHeader"@.len());
    }
    assert("includeRawCopyrights"@ != "consolidateCitations"@) by {
        assert("includeRawCopyrights"@[0] != "consolidateCitations"@[0]);
    }
    assert("includeRawCopyrights"@ != "generateIDs"@) by {
        assert("includeRawCopyrights"@.len() != "generateIDs"@.len());
    }
    assert("includeRawCopyrights"@ != "includeRawCitations"@) by {
        assert("includeRawCopyrights"@.len() != "includeRawCitations"@.len());
    }
    assert("includeRawCopyrights"@ != "includeRawAffiliations"@) by {
        assert("includeRawCopyrights"@.len() != "includeRawAffiliations"@.len());
    }
    assert("includeRawCopyrights"@ != "teiCoordinates"@) by {
        assert("includeRawCopyrights"@.len() != "teiCoordinates"@.len());
    }
    assert("includeRawCopyrights"@ != "segmentSentences"@) by {
        assert("includeRawCopyrights"@.len() != "segmentSentences"@.len());
    }
    assert("includeRawCopyrights"@ != "flavor"@) by {
        assert("includeRawCopyrights"@.len() != "flavor"@.len());
    }
    assert("includeRawCopyrights"@ != "start"@) by {
        assert("includeRawCopyrights"@.len() != "start"@.len());
    }
    assert("includeRawCopyrights"@ != "end"@) by {
        assert("includeRawCopyrights"@.len() != "end"@.len());
    }
    assert("includeRawCopyrights"@ != "debugMode"@) by {
        assert("includeRawCopyrights"@.len() != "debugMode"@.len());
    }
    assert("includeRawCopyrights"@ != "models"@) by {
        assert("includeRawCopyrights"@.len() != "models"@.len());
    }
}

/// A processing request holds the field `segmentSentences=1` exactly when the
/// option `segment_sentences` is set.
pub proof fn lemma_segment_sentences_field(o: OptionsV)
    ensures
        form_fields(o).contains(("segmentSentences"@, "1"@)) <==> o.segment_sentences,
{
    let x = ("segmentSentences"@, "1"@);
    lemma_form_contains(o, x);
    lemma_part_names(o, x);
    lemma_flag_contains(o.generate_ids, "generateIDs"@, x);
    lemma_flag_contains(o.include_raw_citations, "includeRawCitations"@, x);
    lemma_flag_contains(o.include_raw_affiliations, "includeRawAffiliations"@, x);
    lemma_flag_contains(o.include_raw_copyrights, "includeRawCopyrights"@, x);
    lemma_flag_contains(o.segment_sentences, "segmentSentences"@, x);
    lemma_flag_contains(o.debug_mode, "debugMode"@, x);
    reveal_strlit("consolidateHeader");
    reveal_strlit("consolidateCitations");
    reveal_strlit("generateIDs");
    reveal_strlit("includeRawCitations");
    reveal_strlit("includeRawAffiliations");
    reveal_strlit("includeRawCopyrights");
    reveal_strlit("teiCoordinates");
    reveal_strlit("segmentSentences");
    reveal_strlit("flavor");
    reveal_strlit("start");
    reveal_strlit("end");
    reveal_strlit("debugMode");
    reveal_strlit("models");
    assert("segmentSentences"@ != "consolidateHeader"@) by {
        assert("segmentSentences"@.len() != "consolidateHeader"@.len());
    }
    assert("segmentSentences"@ != "consolidateCitations"@) by {
        assert("segmentSentences"@.len() != "consolidateCitations"@.len());
    }
    assert("segmentSentences"@ != "generateIDs"@) by {
        assert("segmentSentences"@.len() != "generateIDs"@.len());
    }
    assert("segmentSentences"@ != "includeRawCitations"@) by {
        assert("segmentSentences"@.len() != "includeRawCitations"@.len());
    }
    assert("segmentSentences"@ != "includeRawAffiliations"@) by {
        assert("segmentSentences"@.len() != "includeRawAffiliations"@.len());
    }
    assert("segmentSentences"@ != "includeRawCopyrights"@) by {
        assert("segmentSentences"@.len() != "includeRawCopyrights"@.len());
    }
    assert("segmentSentences"@ != "teiCoordinates"@) by {
        assert("segmentSentences"@.len() != "teiCoordinates"@.len());
    }
    assert("segmentSentences"@ != "flavor"@) by {
        assert("segmentSentences"@.len() != "flavor"@.len());
    }
    assert("segmentSentences"@ != "start"@) by {
        assert("segmentSentences"@.len() != "start"@.len());
    }
    assert("segmentSentences"@ != "end"@) by {
        assert("segmentSentences"@.len() != "end"@.len());
    }
    assert("segmentSentences"@ != "debugMode"@) by {
        assert("segmentSentences"@.len() != "debugMode"@.len());
    }
    assert("segmentSentences"@ != "models"@) by {
        assert("segmentSentences"@.len() != "models"@.len());
    }
}

/// A processing request holds the field `debugMode=1` exactly when the
/// option `debug_mode` is set.
pub proof fn lemma_debug_mode_field(o: OptionsV)
    ensures
        form_fields(o).contains(("debugMode"@, "1"@)) <==> o.debug_mode,
{
    let x = ("debugMode"@, "1"@);
    lemma_form_contains(o, x);
    lemma_part_names(o, x);
    lemma_flag_contains(o.generate_ids, "generateIDs"@, x);
    lemma_flag_contains(o.include_raw_citations, "includeRawCitations"@, x);
    lemma_flag_contains(o.include_raw_affiliations, "includeRawAffiliations"@, x);
    lemma_flag_contains(o.include_raw_copyrights, "includeRawCopyrights"@, x);
    lemma_flag_contains(o.segment_sentences, "segmentSentences"@, x);
    lemma_flag_contains(o.debug_mode, "debugMode"@, x);
    reveal_strlit("consolidateHeader");
    reveal_strlit("consolidateCitations");
    reveal_strlit("generateIDs");
    reveal_strlit("includeRawCitations");
    reveal_strlit("includeRawAffiliations");
    reveal_strlit("includeRawCopyrights");
    reveal_strlit("teiCoordinates");
    reveal_strlit("segmentSentences");
    reveal_strlit("flavor");
    reveal_strlit("start");
    reveal_strlit("end");
    reveal_strlit("debugMode");
    reveal_strlit("models");
    assert("debugMode"@ != "consolidateHeader"@) by {
        assert("debugMode"@.len() != "consolidateHeader"@.len());
    }
    assert("debugMode"@ != "consolidateCitations"@) by {
        assert("debugMode"@.len() != "consolidateCitations"@.len());
    }
    assert("debugMode"@ != "generateIDs"@) by {
        assert("debugMode"@.len() != "generateIDs"@.len());
    }
    assert("debugMode"@ != "includeRawCitations"@) by {
        assert("debugMode"@.len() != "includeRawCitations"@.len());
    }
    assert("debugMode"@ != "includeRawAffiliations"@) by {
        assert("debugMode"@.len() != "includeRawAffiliations"@.len());
    }
    assert("debugMode"@ != "includeRawCopyrights"@) by {
        assert("debugMode"@.len() != "includeRawCopyrights"@.len());
    }
    assert("debugMode"@ != "teiCoordinates"@) by {
        assert("debugMode"@.len() != "teiCoordinates"@.len());
    }
    assert("debugMode"@ != "segmentSentences"@) by {
        assert("debugMode"@.len() != "segmentSentences"@.len());
    }
    assert("debugMode"@ != "flavor"@) by {
        assert("debugMode"@.len() != "flavor"@.len());
    }
    assert("debugMode"@ != "start"@) by {
        assert("debugMode"@.len() != "start"@.len());
    }
    assert("debugMode"@ != "end"@) by {
        assert("debugMode"@.len() != "end"@.len());
    }
    assert("debugMode"@ != "models"@) by {
        assert("debugMode"@.len() != "models"@.len());
    }
}


/// A processing request holds one `teiCoordinates` field for exactly the
/// coordinate elements that the options ask for, each with its TEI name.
pub proof fn lemma_coordinate_fields_in_form(o: OptionsV, e: CoordinateElement)
    ensures
        form_fields(o).contains(("teiCoordinates"@, element_param(e))) <==> o.tei_coordinates.contains(e),
{
    let x = ("teiCoordinates"@, element_param(e));
    lemma_form_contains(o, x);
    lemma_part_names(o, x);
    lemma_flag_contains(o.generate_ids, "generateIDs"@, x);
    lemma_flag_contains(o.include_raw_citations, "includeRawCitations"@, x);
    lemma_flag_contains(o.include_raw_affiliations, "includeRawAffiliations"@, x);
    lemma_flag_contains(o.include_raw_copyrights, "includeRawCopyrights"@, x);
    lemma_flag_contains(o.segment_sentences, "segmentSentences"@, x);
    lemma_flag_contains(o.debug_mode, "debugMode"@, x);
    reveal_strlit("consolidateHeader");
    reveal_strlit("consolidateCitations");
    reveal_strlit("generateIDs");
    reveal_strlit("includeRawCitations");
    reveal_strlit("includeRawAffiliations");
    reveal_strlit("includeRawCopyrights");
    reveal_strlit("teiCoordinates");
    reveal_strlit("segmentSentences");
    reveal_strlit("flavor");
    reveal_strlit("start");
    reveal_strlit("end");
    reveal_strlit("debugMode");
    reveal_strlit("models");
    assert("teiCoordinates"@ != "consolidateHeader"@) by {
        assert("teiCoordinates"@.len() != "consolidateHeader"@.len());
    }
    assert("teiCoordinates"@ != "consolidateCitations"@) by {
        assert("teiCoordinates"@.len() != "consolidateCitations"@.len());
    }
    assert("teiCoordinates"@ != "generateIDs"@) by {
        assert("teiCoordinates"@.len() != "generateIDs"@.len());
    }
    assert("teiCoordinates"@ != "includeRawCitations"@) by {
        assert("teiCoordinates"@.len() != "includeRawCitations"@.len());
    }
    assert("teiCoordinates"@ != "includeRawAffiliations"@) by {
        assert("teiCoordinates"@.len() != "includeRawAffiliations"@.len());
    }
    assert("teiCoordinates"@ != "includeRawCopyrights"@) by {
        assert("teiCoordinates"@.len() != "includeRawCopyrights"@.len());
    }
    assert("teiCoordinates"@ != "segmentSentences"@) by {
        assert("teiCoordinates"@.len() != "segmentSentences"@.len());
    }
    assert("teiCoordinates"@ != "flavor"@) by {
        assert("teiCoordinates"@.len() != "flavor"@.len());
    }
    assert("teiCoordinates"@ != "start"@) by {
        assert("teiCoordinates"@.len() != "start"@.len());
    }
    assert("teiCoordinates"@ != "end"@) by {
        assert("teiCoordinates"@.len() != "end"@.len());
    }
    assert("teiCoordinates"@ != "debugMode"@) by {
        assert("teiCoordinates"@.len() != "debugMode"@.len());
    }
    assert("teiCoordinates"@ != "models"@) by {
        assert("teiCoordinates"@.len() != "models"@.len());
    }
    let cs = coordinate_fields(o.tei_coordinates);
    if cs.contains(x) {
        let i = choose|i: int| 0 <= i < cs.len() && cs[i] == x;
        let f = o.tei_coordinates[i];
        if f != e {
            lemma_element_param_injective(f, e);
        }
        assert(o.tei_coordinates[i] == e);
    }
    if o.tei_coordinates.contains(e) {
        let i = choose|i: int| 0 <= i < o.tei_coordinates.len() && o.tei_coordinates[i] == e;
        assert(cs[i] == x);
    }
}

/// A form-urlencoded request holds `includeRawCitations=1` exactly when
/// raw citations are asked for, and the citation consolidation level
/// exactly when consolidation is not off.
pub proof fn lemma_urlencoded_fields_follow_options(o: OptionsV)
    ensures
        urlencoded_fields(o).contains(("includeRawCitations"@, "1"@)) <==> o.include_raw_citations,
        urlencoded_fields(o).contains(("consolidateCitations"@, citation_param(o.consolidate_citations)))
            <==> o.consolidate_citations != CitationConsolidation::Disabled,
{
    let a = if o.consolidate_citations != CitationConsolidation::Disabled {
        seq![("consolidateCitations"@, citation_param(o.consolidate_citations))]
    } else {
        Seq::<(Seq<char>, Seq<char>)>::empty()
    };
    let b = flag(o.include_raw_citations, "includeRawCitations"@);
    assert(urlencoded_fields(o) == a + b);
    let x = ("includeRawCitations"@, "1"@);
    let y = ("consolidateCitations"@, citation_param(o.consolidate_citations));
    lemma_contains_concat(a, b, x);
    lemma_contains_concat(a, b, y);
    lemma_flag_contains(o.include_raw_citations, "includeRawCitations"@, x);
    lemma_flag_contains(o.include_raw_citations, "includeRawCitations"@, y);
    reveal_strlit("includeRawCitations");
    reveal_strlit("consolidateCitations");
    assert("includeRawCitations"@ != "consolidateCitations"@) by {
        assert("includeRawCitations"@.len() != "consolidateCitations"@.len());
    }
    if a.contains(x) {
        let i = choose|i: int| 0 <= i < a.len() && a[i] == x;
    }
    if o.consolidate_citations != CitationConsolidation::Disabled {
        assert(a[0] == y);
    }
}


} // verus!
