use grobid::parse::clean_url;
use grobid::{parse_citation, parse_citation_list, parse_document};
use grobid::{Block, Coords, GrobidError, InvalidDocument, RefKind, Surface};

fn number(text: &str) -> f64 {
    text.parse::<f64>().expect("a number")
}

/// The width and height of a page, as its corners give them.
fn extent(surface: &Surface) -> (u32, f64, f64) {
    let corner = |c: &Option<String>| c.as_deref().map(number).unwrap_or(0.0);
    (
        surface.page,
        corner(&surface.lrx) - corner(&surface.ulx),
        corner(&surface.lry) - corner(&surface.uly),
    )
}

#[test]
fn test_clean_url() {
    let cases = [
        ("", ""),
        ("http://archive.org", "http://archive.org"),
        ("http://archive.org.Lastaccessed", "http://archive.org"),
        ("<http://archive.org.Lastaccessed", "http://archive.org"),
        ("<http://example.org>", "http://example.org"),
        ("  http://example.org  ", "http://example.org"),
    ];
    for (input, want) in cases {
        assert_eq!(clean_url(input), want, "input: {input:?}");
    }
}

#[test]
fn test_single_citation() {
    let xml = r#"
<biblStruct>
    <analytic>
        <title level="a" type="main">Mesh migration following abdominal hernia repair: a comprehensive review</title>
        <author>
            <persName
                xmlns="http://www.tei-c.org/ns/1.0">
                <forename type="first">H</forename>
                <forename type="middle">B</forename>
                <surname>Cunningham</surname>
            </persName>
        </author>
        <author>
            <persName
                xmlns="http://www.tei-c.org/ns/1.0">
                <forename type="first">J</forename>
                <forename type="middle">J</forename>
                <surname>Weis</surname>
            </persName>
        </author>
        <author>
            <persName
                xmlns="http://www.tei-c.org/ns/1.0">
                <forename type="first">L</forename>
                <forename type="middle">R</forename>
                <surname>Taveras</surname>
            </persName>
        </author>
        <author>
            <persName
                xmlns="http://www.tei-c.org/ns/1.0">
                <forename type="first">S</forename>
                <surname>Huerta</surname>
            </persName>
        </author>
        <idno type="DOI">10.1007/s10029-019-01898-9</idno>
        <idno type="PMID">30701369</idno>
    </analytic>
    <monogr>
        <title level="j">Hernia</title>
        <imprint>
            <biblScope unit="volume">23</biblScope>
            <biblScope unit="issue">2</biblScope>
            <biblScope unit="page" from="235" to="243" />
            <date type="published" when="2019-01-30" />
        </imprint>
    </monogr>
</biblStruct>"#;
    let citation = parse_citation(xml).expect("parse").expect("citation");
    assert!(!citation.is_empty());
    let want = "Mesh migration following abdominal hernia repair: a comprehensive review";
    assert_eq!(citation.title.as_deref(), Some(want));
    assert_eq!(citation.authors.len(), 4);
    assert_eq!(citation.authors[2].given_name.as_deref(), Some("L"));
    assert_eq!(citation.authors[2].middle_name.as_deref(), Some("R"));
    assert_eq!(citation.authors[2].surname.as_deref(), Some("Taveras"));
    assert_eq!(citation.authors[2].full_name.as_deref(), Some("L R Taveras"));
    assert_eq!(citation.doi.as_deref(), Some("10.1007/s10029-019-01898-9"));
    assert_eq!(citation.pmid.as_deref(), Some("30701369"));
    assert_eq!(citation.date.as_deref(), Some("2019-01-30"));
    assert_eq!(citation.pages.as_deref(), Some("235-243"));
    assert_eq!(citation.first_page.as_deref(), Some("235"));
    assert_eq!(citation.last_page.as_deref(), Some("243"));
    assert_eq!(citation.issue.as_deref(), Some("2"));
    assert_eq!(citation.journal.as_deref(), Some("Hernia"));
}

#[test]
fn test_invalid_document() {
    assert!(matches!(parse_document("this is not XML"), Err(GrobidError::Xml(_))));
    assert!(matches!(parse_document("<xml></xml>"), Err(GrobidError::InvalidDocument(_))));
    // A TEI root without a teiHeader is rejected as well.
    assert!(matches!(
        parse_document("<TEI><text><body/></text></TEI>"),
        Err(GrobidError::InvalidDocument(_))
    ));
}

#[test]
fn test_coords_parsing() {
    let coords = Coords::parse("1,53.80,194.57,58.71,9.29").expect("single box");
    assert_eq!(coords.boxes.len(), 1);
    assert_eq!(coords.boxes[0].page, 1);
    assert_eq!(number(&coords.boxes[0].x), 53.80);
    assert_eq!(number(&coords.boxes[0].y), 194.57);
    assert_eq!(number(&coords.boxes[0].width), 58.71);
    assert_eq!(number(&coords.boxes[0].height), 9.29);

    let coords = Coords::parse("10,317.03,183.61,223.16,7.55;10,317.03,192.57,223.21,7.55").expect("two boxes");
    assert_eq!(coords.boxes.len(), 2);
    assert_eq!(number(&coords.boxes[1].y), 192.57);

    assert!(matches!(Coords::parse("1,2,3"), Err(GrobidError::InvalidCoords { .. })));
    assert!(matches!(Coords::parse("1,2,3,4,5,6"), Err(GrobidError::InvalidCoords { .. })));
    assert!(matches!(Coords::parse("1,x,3,4,5"), Err(GrobidError::InvalidCoords { .. })));
}

/// A synthetic document exercising coordinates, sentence segmentation, the
/// document hierarchy and the references section.
const COORDINATED_TEI: &str = r##"
<TEI xmlns="http://www.tei-c.org/ns/1.0">
  <teiHeader>
    <encodingDesc>
      <appInfo>
        <application version="0.8.1" ident="GROBID" when="2024-01-01T00:00+0000"/>
      </appInfo>
    </encodingDesc>
    <fileDesc>
      <titleStmt><title level="a" type="main">Coordinated</title></titleStmt>
      <publicationStmt><publisher/></publicationStmt>
      <sourceDesc><biblStruct/></sourceDesc>
    </fileDesc>
  </teiHeader>
  <facsimile>
    <surface n="1" ulx="0.0" uly="0.0" lrx="612.0" lry="794.0"/>
    <surface n="2" ulx="0.0" uly="0.0" lrx="600.0" lry="800.0"/>
  </facsimile>
  <text xml:lang="en">
    <body>
      <div coords="2,10.0,20.0,30.0,40.0">
        <head n="1">Intro</head>
        <p coords="2,50.0,60.0,70.0,80.0">
          <s coords="2,51.0,61.0,71.0,81.0">Hello <ref type="bibr" target="#b0">(1)</ref>.</s>
          <s>Second sentence.</s>
        </p>
        <figure xml:id="fig_1" coords="3,1.0,2.0,3.0,4.0">
          <head>Fig. 1</head><label>1</label><figDesc>A caption</figDesc>
        </figure>
        <formula coords="3,5.0,6.0,7.0,8.0">x = 1</formula>
        <note place="foot">A footnote</note>
        <div>
          <head n="1.1">Sub</head>
          <p>Nested paragraph.</p>
        </div>
      </div>
    </body>
    <back>
      <div type="references">
        <listBibl>
          <biblStruct xml:id="b0" coords="4,317.03,183.61,223.16,7.55;4,317.03,192.57,223.21,7.55">
            <analytic><title level="a" type="main">A ref</title></analytic>
            <monogr><title level="j">A journal</title></monogr>
          </biblStruct>
        </listBibl>
      </div>
    </back>
  </text>
</TEI>
"##;

#[test]
fn test_coordinated_document() {
    let doc = parse_document(COORDINATED_TEI).expect("parse coordinated document");

    // Facsimile page dimensions.
    let pages: Vec<(u32, f64, f64)> = doc.facsimile.iter().map(extent).collect();
    assert_eq!(pages, vec![(1, 612.0, 794.0), (2, 600.0, 800.0)]);

    // Section coordinates.
    let section = &doc.body[0];
    assert_eq!(section.head.as_deref(), Some("Intro"));
    assert_eq!(section.number.as_deref(), Some("1"));
    let coords = section.coords.as_ref().expect("section coords");
    assert_eq!(coords.boxes.len(), 1);
    assert_eq!(coords.boxes[0].page, 2);
    assert_eq!(number(&coords.boxes[0].x), 10.0);

    // Paragraph with sentence segmentation and markers.
    let blocks = &section.blocks;
    let Block::Paragraph(paragraph) = &blocks[0] else {
        panic!("expected paragraph, got {:?}", blocks[0]);
    };
    assert_eq!(paragraph.text, "Hello (1) . Second sentence.");
    assert_eq!(paragraph.sentences.len(), 2);
    assert_eq!(paragraph.sentences[0].text, "Hello (1) .");
    assert_eq!(number(&paragraph.sentences[0].coords.as_ref().unwrap().boxes[0].x), 51.0);
    assert_eq!(paragraph.markers.len(), 1);
    assert_eq!(paragraph.markers[0].kind, RefKind::Biblio);
    assert_eq!(paragraph.markers[0].target.as_deref(), Some("#b0"));
    assert_eq!(paragraph.markers[0].label, "(1)");

    // Figure, formula and note blocks.
    let Block::Figure(figure) = &blocks[1] else {
        panic!("expected figure")
    };
    assert_eq!(figure.id.as_deref(), Some("fig_1"));
    assert_eq!(figure.head.as_deref(), Some("Fig. 1"));
    assert_eq!(figure.label.as_deref(), Some("1"));
    assert_eq!(figure.caption.as_deref(), Some("A caption"));
    assert!(figure.coords.is_some());
    let Block::Formula(formula) = &blocks[2] else {
        panic!("expected formula")
    };
    assert_eq!(formula.text, "x = 1");
    assert!(formula.coords.is_some());
    let Block::Note(note) = &blocks[3] else {
        panic!("expected note")
    };
    assert_eq!(note.place.as_deref(), Some("foot"));
    assert_eq!(note.text, "A footnote");

    // Nested subsection, in document order after the note.
    let Block::Div(subsection) = &blocks[4] else {
        panic!("expected nested div")
    };
    assert_eq!(subsection.head.as_deref(), Some("Sub"));
    assert_eq!(subsection.number.as_deref(), Some("1.1"));
    assert_eq!(subsection.paragraphs().len(), 1);
    assert_eq!(subsection.paragraphs()[0].text, "Nested paragraph.");
    assert_eq!(section.subsections().len(), 1);
    assert_eq!(section.paragraphs().len(), 2);

    // Citation with two coordinate boxes.
    assert_eq!(doc.citations.len(), 1);
    let citation = doc.find_citation("#b0").expect("citation by target");
    assert_eq!(citation.coords.as_ref().unwrap().boxes.len(), 2);
}

#[test]
fn test_document_fields() {
    let doc = parse_document(COORDINATED_TEI).expect("parse");
    assert_eq!(doc.grobid_version.as_deref(), Some("0.8.1"));
    assert_eq!(doc.grobid_timestamp.as_deref(), Some("2024-01-01T00:00+0000"));
    assert_eq!(doc.language.as_deref(), Some("en"));
    assert_eq!(doc.header.title.as_deref(), Some("Coordinated"));
    assert_eq!(doc.citations[0].index, 0);
    assert_eq!(doc.citations[0].journal.as_deref(), Some("A journal"));
    // The target names the same citation with or without its `#`.
    assert_eq!(doc.find_citation("b0").map(|c| c.index), Some(0));
    assert!(doc.find_citation("#b1").is_none());
    assert!(doc.body_text().contains("Nested paragraph."));
}

#[test]
fn test_invalid_document_kinds() {
    assert!(matches!(
        parse_document("<xml></xml>"),
        Err(GrobidError::InvalidDocument(InvalidDocument::NotTei))
    ));
    assert!(matches!(
        parse_document("<TEI><text><body/></text></TEI>"),
        Err(GrobidError::InvalidDocument(InvalidDocument::MissingTeiHeader))
    ));
    assert!(matches!(
        parse_document("<TEI><teiHeader/></TEI>"),
        Err(GrobidError::InvalidDocument(InvalidDocument::MissingApplication))
    ));
    assert!(matches!(parse_citation_list("<a>"), Err(GrobidError::Xml(_))));
    assert!(matches!(parse_citation("not xml"), Err(GrobidError::Xml(_))));
}

#[test]
fn test_citation_list_indices() {
    let xml = r#"<listBibl>
        <biblStruct xml:id="b0"><analytic><title level="a" type="main">One</title></analytic></biblStruct>
        <biblStruct xml:id="b1"><analytic><title level="a" type="main">Two</title></analytic></biblStruct>
        <biblStruct xml:id="b2"/>
    </listBibl>"#;
    let list = parse_citation_list(xml).expect("list");
    assert_eq!(list.len(), 3);
    for (i, c) in list.iter().enumerate() {
        assert_eq!(c.index, i);
    }
    assert_eq!(list[1].title.as_deref(), Some("Two"));
    assert!(list[2].is_empty());
    // The single reference is the first one of the list.
    let first = parse_citation(xml).expect("parse").expect("citation");
    assert_eq!(first, list[0]);
}

#[test]
fn test_empty_citation_is_none() {
    let xml = r#"<biblStruct><note type="raw_reference">blah</note></biblStruct>"#;
    assert!(parse_citation(xml).expect("parse").is_none());
    let list = parse_citation_list(xml).expect("parse list");
    assert_eq!(list.len(), 1);
    assert_eq!(list[0].index, 0);
    assert_eq!(list[0].raw_reference.as_deref(), Some("blah"));
    // A raw reference alone does not make a record non-empty.
    assert!(list[0].is_empty());
}

#[test]
fn test_book_title_becomes_title() {
    let xml = r#"<biblStruct><monogr><title level="m">A Book</title></monogr></biblStruct>"#;
    let c = parse_citation(xml).expect("parse").expect("citation");
    assert_eq!(c.title.as_deref(), Some("A Book"));
    assert_eq!(c.book_title, None);

    let xml = r#"<biblStruct><analytic><title level="a" type="main">A Chapter</title></analytic>
        <monogr><title level="m">A Book</title></monogr></biblStruct>"#;
    let c = parse_citation(xml).expect("parse").expect("citation");
    assert_eq!(c.title.as_deref(), Some("A Chapter"));
    assert_eq!(c.book_title.as_deref(), Some("A Book"));
}

#[test]
fn test_doi_url_dropped() {
    let xml = r#"<biblStruct><analytic><title level="a" type="main">T</title>
        <idno type="DOI">10.1/x</idno><ptr target="https://doi.org/10.1/x"/></analytic></biblStruct>"#;
    let c = parse_citation(xml).expect("parse").expect("citation");
    assert_eq!(c.doi.as_deref(), Some("10.1/x"));
    assert_eq!(c.url, None);

    let xml = r#"<biblStruct><analytic><title level="a" type="main">T</title>
        <ptr target=" &lt;http://example.org/paper.Lastaccessed "/></analytic></biblStruct>"#;
    let c = parse_citation(xml).expect("parse").expect("citation");
    assert_eq!(c.url.as_deref(), Some("http://example.org/paper"));
}

#[test]
fn test_arxiv_prefix_and_editors() {
    let xml = r#"<biblStruct><analytic><title level="a" type="main">T</title>
        <idno type="arXiv">arXiv:1234.5678</idno></analytic>
        <monogr><editor><persName><forename type="first">A</forename><surname>Editor</surname></persName></editor>
        <imprint><biblScope unit="page">12</biblScope><publisher>Pub</publisher></imprint></monogr></biblStruct>"#;
    let c = parse_citation(xml).expect("parse").expect("citation");
    assert_eq!(c.arxiv_id.as_deref(), Some("1234.5678"));
    assert_eq!(c.editors.len(), 1);
    assert_eq!(c.editors[0].surname.as_deref(), Some("Editor"));
    assert_eq!(c.pages.as_deref(), Some("12"));
    assert_eq!(c.first_page, None);
    assert_eq!(c.publisher.as_deref(), Some("Pub"));
}

#[test]
fn test_clean_url_cuts_at_bracket() {
    assert_eq!(clean_url("<a>b>c"), "a");
    assert!(!clean_url("x>y>z").contains('>'));
}

#[test]
fn test_ref_kinds() {
    assert_eq!(RefKind::from_tei(Some("bibr")), RefKind::Biblio);
    assert_eq!(RefKind::from_tei(Some("figure")), RefKind::Figure);
    assert_eq!(RefKind::from_tei(Some("table")), RefKind::Table);
    assert_eq!(RefKind::from_tei(Some("formula")), RefKind::Formula);
    assert_eq!(RefKind::from_tei(Some("foot")), RefKind::Other("foot".to_string()));
    assert_eq!(RefKind::from_tei(None), RefKind::Other(String::new()));
}

#[test]
fn test_coords_piece_count() {
    let coords = Coords::parse(" 1 , 2.5 , 3 , 4 , 5 ;2,1e3,2,3,4").expect("two boxes");
    assert_eq!(coords.boxes.len(), 2);
    assert_eq!(coords.boxes[0].x, "2.5");
    assert_eq!(number(&coords.boxes[1].x), 1000.0);
    assert!(!coords.is_empty());
    assert!(matches!(Coords::parse(""), Err(GrobidError::InvalidCoords { .. })));
}

#[test]
fn test_author_without_name_is_skipped() {
    let xml = r#"<biblStruct><analytic><title level="a" type="main">T</title>
        <author><persName/></author>
        <author><persName><surname>Named</surname></persName></author>
        <author><email>x@example.org</email></author></analytic></biblStruct>"#;
    let c = parse_citation(xml).expect("parse").expect("citation");
    assert_eq!(c.authors.len(), 1);
    assert_eq!(c.authors[0].surname.as_deref(), Some("Named"));
}

#[test]
fn test_bare_editor_name() {
    let xml = r#"<biblStruct><monogr><title level="m">B</title>
        <editor>Jane Doe</editor><editor>Jo</editor>
        <editor><persName><surname>Roe</surname></persName></editor></monogr></biblStruct>"#;
    let c = parse_citation(xml).expect("parse").expect("citation");
    assert_eq!(c.editors.len(), 2);
    assert_eq!(c.editors[0].full_name.as_deref(), Some("Jane Doe"));
    assert_eq!(c.editors[0].surname, None);
    assert_eq!(c.editors[1].surname.as_deref(), Some("Roe"));
}

#[test]
fn test_citation_indices_across_sections() {
    let xml = r#"<TEI><teiHeader><encodingDesc><appInfo><application version="1"/></appInfo></encodingDesc></teiHeader>
      <text><back>
        <div type="references"><listBibl>
          <biblStruct xml:id="b0"><analytic><title level="a" type="main">A</title></analytic></biblStruct>
          <biblStruct xml:id="b1"><analytic><title level="a" type="main">B</title></analytic></biblStruct>
        </listBibl></div>
        <div type="acknowledgement"><p>Thanks.</p></div>
        <div type="references"><listBibl>
          <biblStruct xml:id="b2"><analytic><title level="a" type="main">C</title></analytic></biblStruct>
        </listBibl></div>
      </back></text></TEI>"#;
    let doc = parse_document(xml).expect("parse");
    assert_eq!(doc.citations.len(), 3);
    for (i, c) in doc.citations.iter().enumerate() {
        assert_eq!(c.index, i);
    }
    assert_eq!(doc.find_citation("#b2").map(|c| c.index), Some(2));
    assert_eq!(doc.acknowledgements.as_deref(), Some("Thanks."));
}
