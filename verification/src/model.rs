//! Strongly typed structures for GROBID TEI documents.
//!
//! The types mirror the content model of the TEI XML that GROBID produces.
//! Every type has a view: the same structure with its text as character
//! sequences, which the contracts of the parser speak of.

use vstd::prelude::*;
use crate::text::{chars_eq, chars_to_string, join, join_chars, opt_seq, seqs, str_chars};

verus! {

/// The view of an optional text.
pub open spec fn ov(o: Option<String>) -> Option<Seq<char>> {
    match o {
        Some(s) => Some(s@),
        None => None,
    }
}

/// A rectangular region on a PDF page, as written in a `@coords`
/// attribute: the page number and the four numbers of the box, each kept
/// as the decimal literal that the document gives (trimmed).
///
/// The origin is the upper left corner of the page; the y-axis extends
/// downward; the first page is page 1.
#[derive(Debug, Clone, PartialEq)]
pub struct BoundingBox {
    /// Page number, starting at 1.
    pub page: u32,
    /// X coordinate of the upper-left corner.
    pub x: String,
    /// Y coordinate of the upper-left corner.
    pub y: String,
    /// Width of the box.
    pub width: String,
    /// Height of the box.
    pub height: String,
}

pub ghost struct BoundingBoxV {
    pub page: u32,
    pub x: Seq<char>,
    pub y: Seq<char>,
    pub width: Seq<char>,
    pub height: Seq<char>,
}

impl View for BoundingBox {
    type V = BoundingBoxV;

    open spec fn view(&self) -> BoundingBoxV {
        BoundingBoxV { page: self.page, x: self.x@, y: self.y@, width: self.width@, height: self.height@ }
    }
}

/// The coordinates of a TEI structure in the source PDF: one or more
/// bounding boxes.
#[derive(Debug, Clone, PartialEq)]
pub struct Coords {
    /// The bounding boxes that make up the structure's area.
    pub boxes: Vec<BoundingBox>,
}

impl View for Coords {
    type V = Seq<BoundingBoxV>;

    open spec fn view(&self) -> Seq<BoundingBoxV> {
        self.boxes@.map_values(|b: BoundingBox| b@)
    }
}

pub open spec fn ocoords(o: Option<Coords>) -> Option<Seq<BoundingBoxV>> {
    match o {
        Some(c) => Some(c@),
        None => None,
    }
}

impl Coords {
    /// Returns true if there are no bounding boxes.
    pub fn is_empty(&self) -> (r: bool)
        ensures
            r == (self@.len() == 0),
    {
        self.boxes.len() == 0
    }
}

/// A page of the source PDF, from the `<facsimile>` section: the page
/// number (`@n`, 0 when absent or not a number) and the corner attributes
/// `@ulx`, `@uly`, `@lrx`, `@lry` as written. The page spans from the
/// upper-left to the lower-right corner.
#[derive(Debug, Clone, PartialEq)]
pub struct Surface {
    /// Page number, starting at 1.
    pub page: u32,
    /// X coordinate of the upper-left corner.
    pub ulx: Option<String>,
    /// Y coordinate of the upper-left corner.
    pub uly: Option<String>,
    /// X coordinate of the lower-right corner.
    pub lrx: Option<String>,
    /// Y coordinate of the lower-right corner.
    pub lry: Option<String>,
}

pub ghost struct SurfaceV {
    pub page: u32,
    pub ulx: Option<Seq<char>>,
    pub uly: Option<Seq<char>>,
    pub lrx: Option<Seq<char>>,
    pub lry: Option<Seq<char>>,
}

impl View for Surface {
    type V = SurfaceV;

    open spec fn view(&self) -> SurfaceV {
        SurfaceV { page: self.page, ulx: ov(self.ulx), uly: ov(self.uly), lrx: ov(self.lrx), lry: ov(self.lry) }
    }
}

/// A postal address, parsed from a TEI `<address>` element.
#[derive(Debug, Clone, PartialEq, Default)]
pub struct Address {
    /// First address line.
    pub addr_line: Option<String>,
    /// Postal code.
    pub post_code: Option<String>,
    /// City.
    pub settlement: Option<String>,
    /// Country.
    pub country: Option<String>,
}

pub ghost struct AddressV {
    pub addr_line: Option<Seq<char>>,
    pub post_code: Option<Seq<char>>,
    pub settlement: Option<Seq<char>>,
    pub country: Option<Seq<char>>,
}

impl View for Address {
    type V = AddressV;

    open spec fn view(&self) -> AddressV {
        AddressV {
            addr_line: ov(self.addr_line),
            post_code: ov(self.post_code),
            settlement: ov(self.settlement),
            country: ov(self.country),
        }
    }
}

/// An author affiliation, parsed from a TEI `<affiliation>` element.
#[derive(Debug, Clone, PartialEq, Default)]
pub struct Affiliation {
    /// Institution name (`<orgName type="institution">`).
    pub institution: Option<String>,
    /// Department name (`<orgName type="department">`).
    pub department: Option<String>,
    /// Laboratory name (`<orgName type="laboratory">`).
    pub laboratory: Option<String>,
    /// Postal address, when present.
    pub address: Option<Address>,
    /// Coordinates in the source PDF, when requested.
    pub coords: Option<Coords>,
}

pub ghost struct AffiliationV {
    pub institution: Option<Seq<char>>,
    pub department: Option<Seq<char>>,
    pub laboratory: Option<Seq<char>>,
    pub address: Option<AddressV>,
    pub coords: Option<Seq<BoundingBoxV>>,
}

impl View for Affiliation {
    type V = AffiliationV;

    open spec fn view(&self) -> AffiliationV {
        AffiliationV {
            institution: ov(self.institution),
            department: ov(self.department),
            laboratory: ov(self.laboratory),
            address: match self.address {
                Some(a) => Some(a@),
                None => None,
            },
            coords: ocoords(self.coords),
        }
    }
}

/// An affiliation carries no information: no institution, department,
/// laboratory or address (coordinates do not count).
pub open spec fn affiliation_empty(a: AffiliationV) -> bool {
    a.institution is None && a.department is None && a.laboratory is None && a.address is None
}

impl Affiliation {
    /// Returns true if nothing is known about this affiliation.
    pub fn is_empty(&self) -> (r: bool)
        ensures
            r == affiliation_empty(self@),
    {
        self.institution.is_none() && self.department.is_none() && self.laboratory.is_none()
            && self.address.is_none()
    }
}

/// A person (author or editor), parsed from a TEI `<persName>` element.
#[derive(Debug, Clone, PartialEq, Default)]
pub struct Author {
    /// The full name, as it appears in the document.
    pub full_name: Option<String>,
    /// First name.
    pub given_name: Option<String>,
    /// Middle name.
    pub middle_name: Option<String>,
    /// Last name.
    pub surname: Option<String>,
    /// Email address, when present in the header.
    pub email: Option<String>,
    /// ORCID identifier, when present in the header.
    pub orcid: Option<String>,
    /// Affiliation, when present in the header.
    pub affiliation: Option<Affiliation>,
    /// Coordinates in the source PDF, when requested.
    pub coords: Option<Coords>,
}

pub ghost struct AuthorV {
    pub full_name: Option<Seq<char>>,
    pub given_name: Option<Seq<char>>,
    pub middle_name: Option<Seq<char>>,
    pub surname: Option<Seq<char>>,
    pub email: Option<Seq<char>>,
    pub orcid: Option<Seq<char>>,
    pub affiliation: Option<AffiliationV>,
    pub coords: Option<Seq<BoundingBoxV>>,
}

impl View for Author {
    type V = AuthorV;

    open spec fn view(&self) -> AuthorV {
        AuthorV {
            full_name: ov(self.full_name),
            given_name: ov(self.given_name),
            middle_name: ov(self.middle_name),
            surname: ov(self.surname),
            email: ov(self.email),
            orcid: ov(self.orcid),
            affiliation: match self.affiliation {
                Some(a) => Some(a@),
                None => None,
            },
            coords: ocoords(self.coords),
        }
    }
}

pub open spec fn authors_view(v: Seq<Author>) -> Seq<AuthorV> {
    v.map_values(|a: Author| a@)
}

/// Nothing is known about an author: no name part, email, ORCID, and no
/// affiliation or only an empty one (coordinates do not count).
pub open spec fn author_empty(a: AuthorV) -> bool {
    &&& a.full_name is None
    &&& a.given_name is None
    &&& a.middle_name is None
    &&& a.surname is None
    &&& a.email is None
    &&& a.orcid is None
    &&& match a.affiliation {
        Some(f) => affiliation_empty(f),
        None => true,
    }
}

impl Author {
    /// Returns true if nothing is known about this author.
    pub fn is_empty(&self) -> (r: bool)
        ensures
            r == author_empty(self@),
    {
        self.full_name.is_none() && self.given_name.is_none() && self.middle_name.is_none()
            && self.surname.is_none() && self.email.is_none() && self.orcid.is_none() && match &self.affiliation {
            Some(a) => a.is_empty(),
            None => true,
        }
    }
}

/// A complete bibliographic record, used both for the metadata of a
/// document and for each of its references.
#[derive(Debug, Clone, PartialEq, Default)]
pub struct Biblio {
    /// The authors of the work.
    pub authors: Vec<Author>,
    /// The editors of the work.
    pub editors: Vec<Author>,
    /// The `xml:id` of the `<biblStruct>` element (e.g. `b12`).
    pub id: Option<String>,
    /// The unstructured reference string as written.
    pub raw_reference: Option<String>,
    /// Publication date (`date/@when`), usually ISO-8601.
    pub date: Option<String>,
    /// Title of the work.
    pub title: Option<String>,
    /// Title of the containing book, when different from the title.
    pub book_title: Option<String>,
    /// Title of the containing series.
    pub series_title: Option<String>,
    /// Journal title.
    pub journal: Option<String>,
    /// Journal abbreviation.
    pub journal_abbrev: Option<String>,
    /// Publisher.
    pub publisher: Option<String>,
    /// Issuing institution (e.g. for reports and theses).
    pub institution: Option<String>,
    /// ISSN.
    pub issn: Option<String>,
    /// Electronic ISSN.
    pub eissn: Option<String>,
    /// Volume.
    pub volume: Option<String>,
    /// Issue.
    pub issue: Option<String>,
    /// Page range, e.g. `235-243`.
    pub pages: Option<String>,
    /// First page.
    pub first_page: Option<String>,
    /// Last page.
    pub last_page: Option<String>,
    /// A free-form note attached to the reference.
    pub note: Option<String>,
    /// DOI.
    pub doi: Option<String>,
    /// PubMed ID.
    pub pmid: Option<String>,
    /// PubMed Central ID.
    pub pmcid: Option<String>,
    /// arXiv identifier, without the `arXiv:` prefix.
    pub arxiv_id: Option<String>,
    /// PII identifier.
    pub pii: Option<String>,
    /// ARK identifier.
    pub ark: Option<String>,
    /// ISTEX identifier.
    pub istex_id: Option<String>,
    /// URL, usually from a `<ptr target="...">` element.
    pub url: Option<String>,
    /// Coordinates in the source PDF, when requested.
    pub coords: Option<Coords>,
}

pub ghost struct BiblioV {
    pub authors: Seq<AuthorV>,
    pub editors: Seq<AuthorV>,
    pub id: Option<Seq<char>>,
    pub raw_reference: Option<Seq<char>>,
    pub date: Option<Seq<char>>,
    pub title: Option<Seq<char>>,
    pub book_title: Option<Seq<char>>,
    pub series_title: Option<Seq<char>>,
    pub journal: Option<Seq<char>>,
    pub journal_abbrev: Option<Seq<char>>,
    pub publisher: Option<Seq<char>>,
    pub institution: Option<Seq<char>>,
    pub issn: Option<Seq<char>>,
    pub eissn: Option<Seq<char>>,
    pub volume: Option<Seq<char>>,
    pub issue: Option<Seq<char>>,
    pub pages: Option<Seq<char>>,
    pub first_page: Option<Seq<char>>,
    pub last_page: Option<Seq<char>>,
    pub note: Option<Seq<char>>,
    pub doi: Option<Seq<char>>,
    pub pmid: Option<Seq<char>>,
    pub pmcid: Option<Seq<char>>,
    pub arxiv_id: Option<Seq<char>>,
    pub pii: Option<Seq<char>>,
    pub ark: Option<Seq<char>>,
    pub istex_id: Option<Seq<char>>,
    pub url: Option<Seq<char>>,
    pub coords: Option<Seq<BoundingBoxV>>,
}

impl View for Biblio {
    type V = BiblioV;

    open spec fn view(&self) -> BiblioV {
        BiblioV {
            authors: authors_view(self.authors@),
            editors: authors_view(self.editors@),
            id: ov(self.id),
            raw_reference: ov(self.raw_reference),
            date: ov(self.date),
            title: ov(self.title),
            book_title: ov(self.book_title),
            series_title: ov(self.series_title),
            journal: ov(self.journal),
            journal_abbrev: ov(self.journal_abbrev),
            publisher: ov(self.publisher),
            institution: ov(self.institution),
            issn: ov(self.issn),
            eissn: ov(self.eissn),
            volume: ov(self.volume),
            issue: ov(self.issue),
            pages: ov(self.pages),
            first_page: ov(self.first_page),
            last_page: ov(self.last_page),
            note: ov(self.note),
            doi: ov(self.doi),
            pmid: ov(self.pmid),
            pmcid: ov(self.pmcid),
            arxiv_id: ov(self.arxiv_id),
            pii: ov(self.pii),
            ark: ov(self.ark),
            istex_id: ov(self.istex_id),
            url: ov(self.url),
            coords: ocoords(self.coords),
        }
    }
}

/// An optional text is present and non-empty.
pub open spec fn filled(o: Option<Seq<char>>) -> bool {
    o matches Some(s) && s.len() > 0
}

/// Any of the given optional texts is present and non-empty.
pub open spec fn any_filled(values: Seq<Option<Seq<char>>>) -> bool {
    exists|i: int| 0 <= i < values.len() && filled(#[trigger] values[i])
}

/// The main bibliographic fields of a record, the ones that make it
/// non-empty.
pub open spec fn main_fields(b: BiblioV) -> Seq<Option<Seq<char>>> {
    seq![b.date, b.title, b.journal, b.publisher, b.volume, b.issue, b.pages, b.doi, b.pmid, b.pmcid, b.arxiv_id, b.url]
}

/// A record is empty when it has neither authors nor editors and none of
/// its main fields is set to a non-empty text.
pub open spec fn biblio_empty(b: BiblioV) -> bool {
    b.authors.len() == 0 && b.editors.len() == 0 && !any_filled(main_fields(b))
}

/// Returns true if any of the given strings is present and non-empty.
pub fn any_nonempty(values: &[Option<&str>]) -> (r: bool)
    ensures
        r == exists|i: int| 0 <= i < values@.len() && (#[trigger] values@[i] matches Some(s) && s@.len() > 0),
{
    for i in 0..values.len()
        invariant
            forall|j: int| 0 <= j < i ==> !(#[trigger] values@[j] matches Some(s) && s@.len() > 0),
    {
        if let Some(s) = values[i] {
            if s.unicode_len() > 0 {
                assert(values@[i as int] matches Some(s) && s@.len() > 0);
                return true;
            }
        }
    }
    false
}

/// The text of an optional string, as a `&str`.
pub fn opt_str(o: &Option<String>) -> (r: Option<&str>)
    ensures
        match r {
            Some(s) => *o matches Some(t) && s@ == t@,
            None => *o is None,
        },
{
    match o {
        Some(s) => Some(s.as_str()),
        None => None,
    }
}

impl Biblio {
    /// Returns true if the record contains no meaningful information: it
    /// has neither authors nor editors and none of the main bibliographic
    /// fields (date, title, journal, publisher, volume, issue, pages, DOI,
    /// PMID, PMCID, arXiv id, URL) is set. A raw reference alone does not
    /// make a record non-empty.
    pub fn is_empty(&self) -> (r: bool)
        ensures
            r == biblio_empty(self@),
    {
        if self.authors.len() != 0 || self.editors.len() != 0 {
            return false;
        }
        let values = [
            opt_str(&self.date),
            opt_str(&self.title),
            opt_str(&self.journal),
            opt_str(&self.publisher),
            opt_str(&self.volume),
            opt_str(&self.issue),
            opt_str(&self.pages),
            opt_str(&self.doi),
            opt_str(&self.pmid),
            opt_str(&self.pmcid),
            opt_str(&self.arxiv_id),
            opt_str(&self.url),
        ];
        let r = any_nonempty(&values);
        proof {
            let m = main_fields(self@);
            assert forall|i: int| 0 <= i < 12 implies (filled(#[trigger] m[i]) <==> (values@[i] matches Some(s)
                && s@.len() > 0)) by {
                if i == 0 { } else if i == 1 { } else if i == 2 { } else if i == 3 { } else if i == 4 { }
                else if i == 5 { } else if i == 6 { } else if i == 7 { } else if i == 8 { } else if i == 9 { }
                else if i == 10 { } else { }
            }
            if r {
                let i = choose|i: int| 0 <= i < values@.len() && (#[trigger] values@[i] matches Some(s) && s@.len() > 0);
                assert(filled(m[i]));
            }
        }
        !r
    }
}

/// The bibliographic metadata of a processed document (its TEI header).
#[derive(Debug, Clone, PartialEq, Default)]
pub struct Header {
    /// The header's bibliographic metadata.
    pub biblio: Biblio,
}

impl View for Header {
    type V = BiblioV;

    open spec fn view(&self) -> BiblioV {
        self.biblio@
    }
}

impl core::ops::Deref for Header {
    type Target = Biblio;

    fn deref(&self) -> (r: &Biblio)
        ensures
            r == &self.biblio,
    {
        &self.biblio
    }
}

/// A single bibliographic reference (one `<biblStruct>` element).
#[derive(Debug, Clone, PartialEq, Default)]
pub struct Citation {
    /// Zero-based position of the reference within its list.
    pub index: usize,
    /// The bibliographic record.
    pub biblio: Biblio,
}

pub ghost struct CitationV {
    pub index: usize,
    pub biblio: BiblioV,
}

impl View for Citation {
    type V = CitationV;

    open spec fn view(&self) -> CitationV {
        CitationV { index: self.index, biblio: self.biblio@ }
    }
}

pub open spec fn citations_view(v: Seq<Citation>) -> Seq<CitationV> {
    v.map_values(|c: Citation| c@)
}

impl core::ops::DerefMut for Header {
    fn deref_mut(&mut self) -> (r: &mut Biblio)
        ensures
            *r == old(self).biblio,
            final(self).biblio == *final(r),
    {
        &mut self.biblio
    }
}

impl core::ops::Deref for Citation {
    type Target = Biblio;

    fn deref(&self) -> (r: &Biblio)
        ensures
            r == &self.biblio,
    {
        &self.biblio
    }
}

impl core::ops::DerefMut for Citation {
    fn deref_mut(&mut self) -> (r: &mut Biblio)
        ensures
            *r == old(self).biblio,
            final(self).biblio == *final(r),
            final(self).index == old(self).index,
    {
        &mut self.biblio
    }
}

/// Kind of an in-text reference marker (`<ref type="...">`).
#[derive(Debug, Clone, PartialEq)]
pub enum RefKind {
    /// Reference to a bibliographic entry (`type="bibr"`).
    Biblio,
    /// Reference to a figure (`type="figure"`).
    Figure,
    /// Reference to a table (`type="table"`).
    Table,
    /// Reference to a formula (`type="formula"`).
    Formula,
    /// Any other reference kind.
    Other(String),
}

pub ghost enum RefKindV {
    Biblio,
    Figure,
    Table,
    Formula,
    Other(Seq<char>),
}

impl View for RefKind {
    type V = RefKindV;

    open spec fn view(&self) -> RefKindV {
        match self {
            RefKind::Biblio => RefKindV::Biblio,
            RefKind::Figure => RefKindV::Figure,
            RefKind::Table => RefKindV::Table,
            RefKind::Formula => RefKindV::Formula,
            RefKind::Other(s) => RefKindV::Other(s@),
        }
    }
}

impl Default for RefKind {
    fn default() -> (r: Self)
        ensures
            r@ == RefKindV::Other(Seq::empty()),
    {
        RefKind::Other(String::new())
    }
}


/// An in-text reference marker, e.g. `(Smith et al., 2019)`, parsed from a
/// TEI `<ref>` element.
#[derive(Debug, Clone, PartialEq, Default)]
pub struct MarkerRef {
    /// The kind of referenced object.
    pub kind: RefKind,
    /// The target of the reference, e.g. `#b0` or `#fig_1`.
    pub target: Option<String>,
    /// The visible label of the marker, e.g. `(1)`.
    pub label: String,
}

pub ghost struct MarkerRefV {
    pub kind: RefKindV,
    pub target: Option<Seq<char>>,
    pub label: Seq<char>,
}

impl View for MarkerRef {
    type V = MarkerRefV;

    open spec fn view(&self) -> MarkerRefV {
        MarkerRefV { kind: self.kind@, target: ov(self.target), label: self.label@ }
    }
}

/// A sentence within a paragraph (present when sentence segmentation was
/// requested).
#[derive(Debug, Clone, PartialEq, Default)]
pub struct Sentence {
    /// The sentence text.
    pub text: String,
    /// Coordinates in the source PDF, when requested.
    pub coords: Option<Coords>,
}

pub ghost struct SentenceV {
    pub text: Seq<char>,
    pub coords: Option<Seq<BoundingBoxV>>,
}

impl View for Sentence {
    type V = SentenceV;

    open spec fn view(&self) -> SentenceV {
        SentenceV { text: self.text@, coords: ocoords(self.coords) }
    }
}

/// A paragraph (`<p>` element) of a document section.
#[derive(Debug, Clone, PartialEq, Default)]
pub struct Paragraph {
    /// The `xml:id`, present when identifiers were requested.
    pub id: Option<String>,
    /// The paragraph text, including the labels of inline markers.
    pub text: String,
    /// Sentence segmentation, when requested.
    pub sentences: Vec<Sentence>,
    /// In-text reference markers.
    pub markers: Vec<MarkerRef>,
    /// Coordinates in the source PDF, when requested.
    pub coords: Option<Coords>,
}

pub ghost struct ParagraphV {
    pub id: Option<Seq<char>>,
    pub text: Seq<char>,
    pub sentences: Seq<SentenceV>,
    pub markers: Seq<MarkerRefV>,
    pub coords: Option<Seq<BoundingBoxV>>,
}

impl View for Paragraph {
    type V = ParagraphV;

    open spec fn view(&self) -> ParagraphV {
        ParagraphV {
            id: ov(self.id),
            text: self.text@,
            sentences: self.sentences@.map_values(|s: Sentence| s@),
            markers: self.markers@.map_values(|m: MarkerRef| m@),
            coords: ocoords(self.coords),
        }
    }
}

/// A figure or table (`<figure>` element) of a document section.
#[derive(Debug, Clone, PartialEq, Default)]
pub struct Figure {
    /// The `xml:id`, e.g. `fig_1`.
    pub id: Option<String>,
    /// The figure type, `table` for tables.
    pub figure_type: Option<String>,
    /// The figure head, e.g. `Fig. 1 .`.
    pub head: Option<String>,
    /// The figure label, e.g. `1`.
    pub label: Option<String>,
    /// The figure caption (`<figDesc>`).
    pub caption: Option<String>,
    /// Coordinates in the source PDF, when requested.
    pub coords: Option<Coords>,
}

pub ghost struct FigureV {
    pub id: Option<Seq<char>>,
    pub figure_type: Option<Seq<char>>,
    pub head: Option<Seq<char>>,
    pub label: Option<Seq<char>>,
    pub caption: Option<Seq<char>>,
    pub coords: Option<Seq<BoundingBoxV>>,
}

impl View for Figure {
    type V = FigureV;

    open spec fn view(&self) -> FigureV {
        FigureV {
            id: ov(self.id),
            figure_type: ov(self.figure_type),
            head: ov(self.head),
            label: ov(self.label),
            caption: ov(self.caption),
            coords: ocoords(self.coords),
        }
    }
}

/// A mathematical formula (`<formula>` element) of a document section.
#[derive(Debug, Clone, PartialEq, Default)]
pub struct Formula {
    /// The `xml:id`, present when identifiers were requested.
    pub id: Option<String>,
    /// The textual content of the formula.
    pub text: String,
    /// Coordinates in the source PDF, when requested.
    pub coords: Option<Coords>,
}

pub ghost struct FormulaV {
    pub id: Option<Seq<char>>,
    pub text: Seq<char>,
    pub coords: Option<Seq<BoundingBoxV>>,
}

impl View for Formula {
    type V = FormulaV;

    open spec fn view(&self) -> FormulaV {
        FormulaV { id: ov(self.id), text: self.text@, coords: ocoords(self.coords) }
    }
}

/// A footnote (`<note>` element).
#[derive(Debug, Clone, PartialEq, Default)]
pub struct Note {
    /// The `place` attribute, e.g. `foot`.
    pub place: Option<String>,
    /// The note text.
    pub text: String,
    /// Coordinates in the source PDF, when requested.
    pub coords: Option<Coords>,
}

pub ghost struct NoteV {
    pub place: Option<Seq<char>>,
    pub text: Seq<char>,
    pub coords: Option<Seq<BoundingBoxV>>,
}

impl View for Note {
    type V = NoteV;

    open spec fn view(&self) -> NoteV {
        NoteV { place: ov(self.place), text: self.text@, coords: ocoords(self.coords) }
    }
}

pub open spec fn notes_view(v: Seq<Note>) -> Seq<NoteV> {
    v.map_values(|n: Note| n@)
}

/// A list (`<list>` element) of a document section.
#[derive(Debug, Clone, PartialEq, Default)]
pub struct List {
    /// The `type` attribute, when present.
    pub list_type: Option<String>,
    /// The list items.
    pub items: Vec<String>,
}

pub ghost struct ListV {
    pub list_type: Option<Seq<char>>,
    pub items: Seq<Seq<char>>,
}

pub open spec fn strings_view(v: Seq<String>) -> Seq<Seq<char>> {
    v.map_values(|s: String| s@)
}

impl View for List {
    type V = ListV;

    open spec fn view(&self) -> ListV {
        ListV { list_type: ov(self.list_type), items: strings_view(self.items@) }
    }
}

/// An ordered content block of a [`Div`].
#[derive(Debug, PartialEq)]
pub enum Block {
    /// A paragraph.
    Paragraph(Paragraph),
    /// A figure or table.
    Figure(Figure),
    /// A mathematical formula.
    Formula(Formula),
    /// A footnote.
    Note(Note),
    /// A list.
    List(List),
    /// A nested subsection.
    Div(Box<Div>),
}

/// A document section (`<div>` element), holding its content in document
/// order. Sections can be nested arbitrarily deep.
#[derive(Debug, PartialEq, Default)]
pub struct Div {
    /// The `type` attribute, e.g. `acknowledgement`.
    pub div_type: Option<String>,
    /// The section heading (`<head>`).
    pub head: Option<String>,
    /// The section number (`head/@n`), e.g. `2.1`.
    pub number: Option<String>,
    /// The section content, in document order.
    pub blocks: Vec<Block>,
    /// The `xml:id`, present when identifiers were requested.
    pub id: Option<String>,
    /// Coordinates in the source PDF, when requested.
    pub coords: Option<Coords>,
}

pub ghost enum BlockV {
    Paragraph(ParagraphV),
    Figure(FigureV),
    Formula(FormulaV),
    Note(NoteV),
    List(ListV),
    Div(DivV),
}

pub ghost struct DivV {
    pub div_type: Option<Seq<char>>,
    pub head: Option<Seq<char>>,
    pub number: Option<Seq<char>>,
    pub blocks: Seq<BlockV>,
    pub id: Option<Seq<char>>,
    pub coords: Option<Seq<BoundingBoxV>>,
}

pub open spec fn div_view(d: Div) -> DivV
    decreases d, 0int,
{
    DivV {
        div_type: ov(d.div_type),
        head: ov(d.head),
        number: ov(d.number),
        blocks: blocks_view(d.blocks@),
        id: ov(d.id),
        coords: ocoords(d.coords),
    }
}

pub open spec fn blocks_view(bs: Seq<Block>) -> Seq<BlockV>
    decreases bs, 0int,
{
    if bs.len() == 0 {
        seq![]
    } else {
        blocks_view(bs.drop_last()).push(block_view(bs.last()))
    }
}

pub open spec fn block_view(b: Block) -> BlockV
    decreases b, 0int,
{
    match b {
        Block::Paragraph(p) => BlockV::Paragraph(p@),
        Block::Figure(f) => BlockV::Figure(f@),
        Block::Formula(f) => BlockV::Formula(f@),
        Block::Note(n) => BlockV::Note(n@),
        Block::List(l) => BlockV::List(l@),
        Block::Div(d) => BlockV::Div(div_view(*d)),
    }
}

impl View for Div {
    type V = DivV;

    open spec fn view(&self) -> DivV {
        div_view(*self)
    }
}

impl View for Block {
    type V = BlockV;

    open spec fn view(&self) -> BlockV {
        block_view(*self)
    }
}

pub open spec fn divs_view(v: Seq<Div>) -> Seq<DivV> {
    v.map_values(|d: Div| d@)
}

/// A parsed GROBID TEI document.
#[derive(Debug, PartialEq, Default)]
pub struct Document {
    /// The GROBID version that produced the document.
    pub grobid_version: Option<String>,
    /// The processing timestamp.
    pub grobid_timestamp: Option<String>,
    /// The MD5 checksum of the source PDF, when present.
    pub pdf_md5: Option<String>,
    /// The language of the document (`text/@xml:lang`).
    pub language: Option<String>,
    /// The document's bibliographic metadata.
    pub header: Header,
    /// The abstract, when present.
    pub abstract_text: Option<String>,
    /// The document body as a hierarchy of sections.
    pub body: Vec<Div>,
    /// Footnotes directly under `<body>`, outside any section.
    pub body_notes: Vec<Note>,
    /// The acknowledgement section, when present.
    pub acknowledgements: Option<String>,
    /// The annex section, when present.
    pub annexes: Option<String>,
    /// The parsed bibliographic references.
    pub citations: Vec<Citation>,
    /// The pages of the source PDF, present when coordinates were
    /// requested.
    pub facsimile: Vec<Surface>,
}

pub ghost struct DocumentV {
    pub grobid_version: Option<Seq<char>>,
    pub grobid_timestamp: Option<Seq<char>>,
    pub pdf_md5: Option<Seq<char>>,
    pub language: Option<Seq<char>>,
    pub header: BiblioV,
    pub abstract_text: Option<Seq<char>>,
    pub body: Seq<DivV>,
    pub body_notes: Seq<NoteV>,
    pub acknowledgements: Option<Seq<char>>,
    pub annexes: Option<Seq<char>>,
    pub citations: Seq<CitationV>,
    pub facsimile: Seq<SurfaceV>,
}

impl View for Document {
    type V = DocumentV;

    open spec fn view(&self) -> DocumentV {
        DocumentV {
            grobid_version: ov(self.grobid_version),
            grobid_timestamp: ov(self.grobid_timestamp),
            pdf_md5: ov(self.pdf_md5),
            language: ov(self.language),
            header: self.header@,
            abstract_text: ov(self.abstract_text),
            body: divs_view(self.body@),
            body_notes: notes_view(self.body_notes@),
            acknowledgements: ov(self.acknowledgements),
            annexes: ov(self.annexes),
            citations: citations_view(self.citations@),
            facsimile: self.facsimile@.map_values(|s: Surface| s@),
        }
    }
}

// ---------------------------------------------------------------------------
// Navigation
// ---------------------------------------------------------------------------

/// The views of a sequence of blocks, one by one.
pub proof fn lemma_blocks_view(bs: Seq<Block>)
    ensures
        blocks_view(bs).len() == bs.len(),
        forall|i: int| 0 <= i < bs.len() ==> #[trigger] blocks_view(bs)[i] == block_view(bs[i]),
    decreases bs.len(),
{
    if bs.len() > 0 {
        lemma_blocks_view(bs.drop_last());
        assert forall|i: int| 0 <= i < bs.len() implies #[trigger] blocks_view(bs)[i] == block_view(bs[i]) by {
            if i < bs.len() - 1 {
                assert(bs.drop_last()[i] == bs[i]);
            }
        }
    }
}

/// The paragraphs of a section, including those of nested subsections, in
/// document order.
pub open spec fn div_paragraphs(d: DivV) -> Seq<ParagraphV>
    decreases d, 0int,
{
    blocks_paragraphs(d.blocks)
}

pub open spec fn blocks_paragraphs(bs: Seq<BlockV>) -> Seq<ParagraphV>
    decreases bs, 0int,
{
    if bs.len() == 0 {
        seq![]
    } else {
        blocks_paragraphs(bs.drop_last()) + block_paragraphs(bs.last())
    }
}

pub open spec fn block_paragraphs(b: BlockV) -> Seq<ParagraphV>
    decreases b, 0int,
{
    match b {
        BlockV::Paragraph(p) => seq![p],
        BlockV::Div(d) => div_paragraphs(d),
        _ => seq![],
    }
}

/// The figures and tables of a section, including those of nested
/// subsections, in document order.
pub open spec fn div_figures(d: DivV) -> Seq<FigureV>
    decreases d, 0int,
{
    blocks_figures(d.blocks)
}

pub open spec fn blocks_figures(bs: Seq<BlockV>) -> Seq<FigureV>
    decreases bs, 0int,
{
    if bs.len() == 0 {
        seq![]
    } else {
        blocks_figures(bs.drop_last()) + block_figures(bs.last())
    }
}

pub open spec fn block_figures(b: BlockV) -> Seq<FigureV>
    decreases b, 0int,
{
    match b {
        BlockV::Figure(f) => seq![f],
        BlockV::Div(d) => div_figures(d),
        _ => seq![],
    }
}

/// The subsections directly inside a sequence of blocks.
pub open spec fn blocks_divs(bs: Seq<BlockV>) -> Seq<DivV>
    decreases bs.len(),
{
    if bs.len() == 0 {
        seq![]
    } else {
        blocks_divs(bs.drop_last()) + match bs.last() {
            BlockV::Div(d) => seq![d],
            _ => seq![],
        }
    }
}

/// The text fragments of a section in document order: its heading, then
/// per block the paragraph text, the figure head and caption, the formula
/// text, the note text, the list items, or the fragments of a subsection.
pub open spec fn div_text_parts(d: DivV) -> Seq<Seq<char>>
    decreases d, 0int,
{
    opt_seq(d.head) + blocks_text_parts(d.blocks)
}

pub open spec fn blocks_text_parts(bs: Seq<BlockV>) -> Seq<Seq<char>>
    decreases bs, 0int,
{
    if bs.len() == 0 {
        seq![]
    } else {
        blocks_text_parts(bs.drop_last()) + block_text_parts(bs.last())
    }
}

pub open spec fn block_text_parts(b: BlockV) -> Seq<Seq<char>>
    decreases b, 0int,
{
    match b {
        BlockV::Paragraph(p) => seq![p.text],
        BlockV::Figure(f) => opt_seq(f.head) + opt_seq(f.caption),
        BlockV::Formula(f) => seq![f.text],
        BlockV::Note(n) => seq![n.text],
        BlockV::List(l) => l.items,
        BlockV::Div(d) => div_text_parts(d),
    }
}

/// The text fragments of a sequence of sections.
pub open spec fn divs_text_parts(ds: Seq<DivV>) -> Seq<Seq<char>>
    decreases ds.len(),
{
    if ds.len() == 0 {
        seq![]
    } else {
        divs_text_parts(ds.drop_last()) + div_text_parts(ds.last())
    }
}

/// The body text of a document: the fragments of its sections followed by
/// the texts of its body notes, joined with single spaces.
pub open spec fn body_text_of(d: DocumentV) -> Seq<char> {
    join(divs_text_parts(d.body) + d.body_notes.map_values(|n: NoteV| n.text), seq![' '])
}

/// An in-text target such as `#b12` names the citation with id `b12`.
pub open spec fn citation_key(id: Seq<char>) -> Seq<char> {
    if id.len() > 0 && id[0] == '#' {
        id.drop_first()
    } else {
        id
    }
}

pub open spec fn refs_view<T: View>(v: Seq<&T>) -> Seq<T::V> {
    v.map_values(|x: &T| x@)
}

fn collect_paragraphs<'a>(div: &'a Div, out: &mut Vec<&'a Paragraph>)
    ensures
        refs_view(final(out)@) == refs_view(old(out)@) + div_paragraphs(div@),
    decreases div,
{
    let ghost start = refs_view(out@);
    let ghost bs = blocks_view(div.blocks@);
    proof {
        lemma_blocks_view(div.blocks@);
    }
    assert(bs.take(0) =~= seq![]);
    assert(refs_view(out@) =~= start + blocks_paragraphs(bs.take(0)));
    for i in 0..div.blocks.len()
        invariant
            bs == blocks_view(div.blocks@),
            bs.len() == div.blocks@.len(),
            forall|j: int| 0 <= j < div.blocks@.len() ==> #[trigger] bs[j] == block_view(div.blocks@[j]),
            start == refs_view(old(out)@),
            refs_view(out@) == start + blocks_paragraphs(bs.take(i as int)),
    {
        assert(bs.take(i + 1).drop_last() =~= bs.take(i as int));
        assert(bs.take(i + 1).last() == block_view(div.blocks@[i as int]));
        let ghost before = refs_view(out@);
        match &div.blocks[i] {
            Block::Paragraph(p) => {
                out.push(p);
                assert(refs_view(out@) =~= before + seq![p@]);
            },
            Block::Div(sub) => {
                assert(decreases_to!(div => div.blocks));
                collect_paragraphs(sub, out);
            },
            _ => {
                assert(refs_view(out@) =~= before + seq![]);
            },
        }
        assert(refs_view(out@) =~= before + block_paragraphs(bs[i as int]));
        assert(blocks_paragraphs(bs.take(i + 1)) == blocks_paragraphs(bs.take(i as int)) + block_paragraphs(bs[i as int]));
        assert(refs_view(out@) =~= start + blocks_paragraphs(bs.take(i + 1)));
    }
    assert(bs.take(bs.len() as int) =~= bs);
}

fn collect_figures<'a>(div: &'a Div, out: &mut Vec<&'a Figure>)
    ensures
        refs_view(final(out)@) == refs_view(old(out)@) + div_figures(div@),
    decreases div,
{
    let ghost start = refs_view(out@);
    let ghost bs = blocks_view(div.blocks@);
    proof {
        lemma_blocks_view(div.blocks@);
    }
    assert(bs.take(0) =~= seq![]);
    assert(refs_view(out@) =~= start + blocks_figures(bs.take(0)));
    for i in 0..div.blocks.len()
        invariant
            bs == blocks_view(div.blocks@),
            bs.len() == div.blocks@.len(),
            forall|j: int| 0 <= j < div.blocks@.len() ==> #[trigger] bs[j] == block_view(div.blocks@[j]),
            start == refs_view(old(out)@),
            refs_view(out@) == start + blocks_figures(bs.take(i as int)),
    {
        assert(bs.take(i + 1).drop_last() =~= bs.take(i as int));
        assert(bs.take(i + 1).last() == block_view(div.blocks@[i as int]));
        let ghost before = refs_view(out@);
        match &div.blocks[i] {
            Block::Figure(f) => {
                out.push(f);
                assert(refs_view(out@) =~= before + seq![f@]);
            },
            Block::Div(sub) => {
                collect_figures(sub, out);
            },
            _ => {
                assert(refs_view(out@) =~= before + seq![]);
            },
        }
        assert(refs_view(out@) =~= before + block_figures(bs[i as int]));
        assert(blocks_figures(bs.take(i + 1)) == blocks_figures(bs.take(i as int)) + block_figures(bs[i as int]));
        assert(refs_view(out@) =~= start + blocks_figures(bs.take(i + 1)));
    }
    assert(bs.take(bs.len() as int) =~= bs);
}

fn collect_text_parts(div: &Div, out: &mut Vec<Vec<char>>)
    ensures
        seqs(final(out)@) == seqs(old(out)@) + div_text_parts(div@),
    decreases div,
{
    let ghost start = seqs(out@);
    let ghost bs = blocks_view(div.blocks@);
    proof {
        lemma_blocks_view(div.blocks@);
    }
    push_opt(&div.head, out);
    assert(bs.take(0) =~= seq![]);
    assert(seqs(out@) =~= start + opt_seq(ov(div.head)) + blocks_text_parts(bs.take(0)));
    for i in 0..div.blocks.len()
        invariant
            bs == blocks_view(div.blocks@),
            bs.len() == div.blocks@.len(),
            forall|j: int| 0 <= j < div.blocks@.len() ==> #[trigger] bs[j] == block_view(div.blocks@[j]),
            start == seqs(old(out)@),
            seqs(out@) == start + opt_seq(ov(div.head)) + blocks_text_parts(bs.take(i as int)),
    {
        assert(bs.take(i + 1).drop_last() =~= bs.take(i as int));
        assert(bs.take(i + 1).last() == block_view(div.blocks@[i as int]));
        let ghost before = seqs(out@);
        match &div.blocks[i] {
            Block::Paragraph(p) => {
                out.push(str_chars(p.text.as_str()));
                assert(seqs(out@) =~= before + seq![p.text@]);
            },
            Block::Figure(f) => {
                push_opt(&f.head, out);
                push_opt(&f.caption, out);
                assert(seqs(out@) =~= before + (opt_seq(ov(f.head)) + opt_seq(ov(f.caption))));
            },
            Block::Formula(f) => {
                out.push(str_chars(f.text.as_str()));
                assert(seqs(out@) =~= before + seq![f.text@]);
            },
            Block::Note(n) => {
                out.push(str_chars(n.text.as_str()));
                assert(seqs(out@) =~= before + seq![n.text@]);
            },
            Block::List(l) => {
                for t in 0..l.items.len()
                    invariant
                        seqs(out@) == before + strings_view(l.items@).take(t as int),
                {
                    let ghost b2 = seqs(out@);
                    out.push(str_chars(l.items[t].as_str()));
                    assert(seqs(out@) =~= b2.push(l.items@[t as int]@));
                    assert(strings_view(l.items@).take(t + 1) =~= strings_view(l.items@).take(t as int).push(
                        l.items@[t as int]@,
                    ));
                }
                assert(strings_view(l.items@).take(l.items.len() as int) =~= strings_view(l.items@));
            },
            Block::Div(sub) => {
                collect_text_parts(sub, out);
            },
        }
        assert(seqs(out@) =~= before + block_text_parts(bs[i as int]));
        assert(blocks_text_parts(bs.take(i + 1)) == blocks_text_parts(bs.take(i as int)) + block_text_parts(bs[i as int]));
        assert(seqs(out@) =~= start + opt_seq(ov(div.head)) + blocks_text_parts(bs.take(i + 1)));
    }
    assert(bs.take(bs.len() as int) =~= bs);
}

/// Appends the characters of an optional text, when present.
fn push_opt(o: &Option<String>, out: &mut Vec<Vec<char>>)
    ensures
        seqs(final(out)@) == seqs(old(out)@) + opt_seq(ov(*o)),
{
    match o {
        Some(s) => {
            out.push(str_chars(s.as_str()));
            assert(seqs(out@) =~= seqs(old(out)@) + opt_seq(ov(*o)));
        },
        None => {
            assert(seqs(out@) =~= seqs(old(out)@) + opt_seq(ov(*o)));
        },
    }
}

impl Div {
    /// All paragraphs of this section, including paragraphs of nested
    /// subsections, in document order.
    pub fn paragraphs(&self) -> (r: Vec<&Paragraph>)
        ensures
            refs_view(r@) == div_paragraphs(self@),
    {
        let mut out: Vec<&Paragraph> = Vec::new();
        collect_paragraphs(self, &mut out);
        assert(refs_view(out@) =~= seq![] + div_paragraphs(self@));
        out
    }

    /// All figures and tables of this section, including nested
    /// subsections, in document order.
    pub fn figures(&self) -> (r: Vec<&Figure>)
        ensures
            refs_view(r@) == div_figures(self@),
    {
        let mut out: Vec<&Figure> = Vec::new();
        collect_figures(self, &mut out);
        assert(refs_view(out@) =~= seq![] + div_figures(self@));
        out
    }

    /// All nested subsections of this section (one level deep).
    pub fn subsections(&self) -> (r: Vec<&Div>)
        ensures
            refs_view(r@) == blocks_divs(self@.blocks),
    {
        let ghost bs = blocks_view(self.blocks@);
        proof {
            lemma_blocks_view(self.blocks@);
        }
        let mut out: Vec<&Div> = Vec::new();
        assert(bs.take(0) =~= seq![]);
        for i in 0..self.blocks.len()
            invariant
                bs == blocks_view(self.blocks@),
                bs.len() == self.blocks@.len(),
                forall|j: int| 0 <= j < self.blocks@.len() ==> #[trigger] bs[j] == block_view(self.blocks@[j]),
                refs_view(out@) == blocks_divs(bs.take(i as int)),
        {
            assert(bs.take(i + 1).drop_last() =~= bs.take(i as int));
            assert(bs.take(i + 1).last() == block_view(self.blocks@[i as int]));
            let ghost before = refs_view(out@);
            match &self.blocks[i] {
                Block::Div(sub) => {
                    let r: &Div = sub;
                    out.push(r);
                    assert(refs_view(out@) =~= before + seq![div_view(**sub)]);
                },
                _ => {
                    assert(refs_view(out@) =~= before + seq![]);
                },
            }
        }
        assert(bs.take(bs.len() as int) =~= bs);
        out
    }
}

impl Document {
    /// The full body text as a single string: the text of all body
    /// elements (headings, paragraphs, markers, captions, footnotes) joined
    /// with single spaces.
    pub fn body_text(&self) -> (r: String)
        ensures
            r@ == body_text_of(self@),
    {
        let mut parts: Vec<Vec<char>> = Vec::new();
        let ghost ds = divs_view(self.body@);
        assert(ds.take(0) =~= seq![]);
        assert(seqs(parts@) =~= divs_text_parts(ds.take(0)));
        for i in 0..self.body.len()
            invariant
                ds == divs_view(self.body@),
                seqs(parts@) == divs_text_parts(ds.take(i as int)),
        {
            assert(ds.take(i + 1).drop_last() =~= ds.take(i as int));
            collect_text_parts(&self.body[i], &mut parts);
        }
        assert(ds.take(ds.len() as int) =~= ds);
        let ghost head = seqs(parts@);
        let ghost ns = notes_view(self.body_notes@).map_values(|n: NoteV| n.text);
        for i in 0..self.body_notes.len()
            invariant
                ns == notes_view(self.body_notes@).map_values(|n: NoteV| n.text),
                seqs(parts@) == head + ns.take(i as int),
        {
            let ghost b = seqs(parts@);
            parts.push(str_chars(self.body_notes[i].text.as_str()));
            assert(ns.take(i + 1) =~= ns.take(i as int).push(self.body_notes@[i as int].text@));
            assert(seqs(parts@) =~= b.push(self.body_notes@[i as int].text@));
        }
        assert(ns.take(ns.len() as int) =~= ns);
        let sep = vec![' '];
        assert(sep@ =~= seq![' ']);
        chars_to_string(&join_chars(&parts, &sep))
    }

    /// Look up a citation by its `xml:id` (e.g. `b12`, or `#b12` with the
    /// leading `#` of an in-text reference target): the first citation
    /// with that id.
    pub fn find_citation(&self, id: &str) -> (r: Option<&Citation>)
        ensures
            match r {
                Some(c) => exists|i: int|
                    0 <= i < self@.citations.len() && self@.citations[i] == c@ && c@.biblio.id == Some(
                        citation_key(id@),
                    ) && forall|j: int|
                        0 <= j < i ==> (#[trigger] self@.citations[j]).biblio.id != Some(citation_key(id@)),
                None => forall|j: int|
                    0 <= j < self@.citations.len() ==> (#[trigger] self@.citations[j]).biblio.id != Some(
                        citation_key(id@),
                    ),
            },
    {
        let chars = str_chars(id);
        let key = if chars.len() > 0 && chars[0] == '#' {
            crate::text::copy_range(&chars, 1, chars.len())
        } else {
            chars
        };
        assert(key@ == citation_key(id@)) by {
            if id@.len() > 0 && id@[0] == '#' {
                assert(id@.subrange(1, id@.len() as int) =~= id@.drop_first());
            }
        }
        for i in 0..self.citations.len()
            invariant
                key@ == citation_key(id@),
                forall|j: int|
                    0 <= j < i ==> (#[trigger] self@.citations[j]).biblio.id != Some(citation_key(id@)),
        {
            let c = &self.citations[i];
            assert(self@.citations[i as int] == c@);
            if let Some(cid) = &c.biblio.id {
                if chars_eq(&str_chars(cid.as_str()), &key) {
                    return Some(c);
                }
            }
        }
        None
    }
}

// ---------------------------------------------------------------------------
// Laws
// ---------------------------------------------------------------------------

/// A raw reference string alone does not make a record non-empty: records
/// that differ only in it are both empty or both not.
pub proof fn lemma_raw_reference_is_not_content(b: BiblioV, raw: Option<Seq<char>>)
    ensures
        biblio_empty(BiblioV { raw_reference: raw, ..b }) == biblio_empty(b),
{
    assert(main_fields(BiblioV { raw_reference: raw, ..b }) == main_fields(b));
}

/// An in-text target `#id` names the same citation as `id` itself, for
/// any id that does not start with `#`.
pub proof fn lemma_target_names_citation(id: Seq<char>)
    requires
        !(id.len() > 0 && id[0] == '#'),
    ensures
        citation_key(seq!['#'] + id) == id,
        citation_key(id) == id,
{
    assert((seq!['#'] + id).drop_first() =~= id);
}

} // verus!
