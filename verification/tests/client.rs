use grobid::client::{
    api_url, citation_list_reply, citation_reply, citation_request, document_reply, normalize_base_url, ping_reply,
    raw_reply, reply_text, should_retry, upload_name, version_reply,
};
use grobid::{CitationConsolidation, CoordinateElement, GrobidError, HeaderConsolidation, PdfInput, ProcessOptions};

fn pairs(fields: &[(String, String)]) -> Vec<(&str, &str)> {
    fields.iter().map(|(n, v)| (n.as_str(), v.as_str())).collect()
}

#[test]
fn test_base_url_normalization() {
    assert_eq!(normalize_base_url("http://localhost:8070").expect("client"), "http://localhost:8070/");
    assert_eq!(normalize_base_url("localhost:8070").expect("client"), "http://localhost:8070/");
    assert_eq!(
        normalize_base_url("https://grobid.example.org/grobid/").expect("client"),
        "https://grobid.example.org/grobid/"
    );
    assert!(normalize_base_url("http://[::1").is_err());
}

#[test]
fn test_base_url_errors() {
    match normalize_base_url("http://[::1") {
        Err(GrobidError::InvalidBaseUrl { base_url, .. }) => assert_eq!(base_url, "http://[::1"),
        other => panic!("expected InvalidBaseUrl, got {other:?}"),
    }
    match normalize_base_url("ftp://example.org") {
        Err(GrobidError::UnsupportedScheme { base_url, scheme }) => {
            assert_eq!(base_url, "ftp://example.org");
            assert_eq!(scheme, "ftp");
        }
        other => panic!("expected UnsupportedScheme, got {other:?}"),
    }
    // White space and trailing slashes are dropped before parsing.
    assert_eq!(normalize_base_url("  example.org/grobid//  ").expect("url"), "http://example.org/grobid/");
}

#[test]
fn test_api_url() {
    let base = normalize_base_url("https://grobid.example.org/grobid").expect("url");
    assert_eq!(
        api_url(&base, "processCitation").expect("joined"),
        "https://grobid.example.org/grobid/api/processCitation"
    );
    assert_eq!(api_url("http://localhost:8070/", "isalive").expect("joined"), "http://localhost:8070/api/isalive");
}

#[test]
fn test_params() {
    assert_eq!(HeaderConsolidation::default(), HeaderConsolidation::Metadata);
    assert_eq!(CitationConsolidation::default(), CitationConsolidation::Disabled);
    assert_eq!(HeaderConsolidation::Disabled.as_param(), "0");
    assert_eq!(HeaderConsolidation::Metadata.as_param(), "1");
    assert_eq!(HeaderConsolidation::Doi.as_param(), "2");
    assert_eq!(HeaderConsolidation::DoiOnly.as_param(), "3");
    assert_eq!(CitationConsolidation::Disabled.as_param(), "0");
    assert_eq!(CitationConsolidation::Metadata.as_param(), "1");
    assert_eq!(CitationConsolidation::Doi.as_param(), "2");
    let common: Vec<&str> = CoordinateElement::common().iter().map(|e| e.as_param()).collect();
    assert_eq!(common, vec!["ref", "figure", "persName", "formula", "biblStruct"]);
    assert_eq!(CoordinateElement::Sentence.as_param(), "s");
    assert_eq!(CoordinateElement::Affiliation.as_param(), "affiliation");
}

#[test]
fn test_urlencoded_fields() {
    let mut fields = Vec::new();
    ProcessOptions::default().apply_to_urlencoded(&mut fields);
    assert!(fields.is_empty());

    let options = ProcessOptions {
        consolidate_citations: CitationConsolidation::Metadata,
        include_raw_citations: true,
        generate_ids: true,
        ..Default::default()
    };
    let fields = citation_request(&vec!["Smith 2001".to_string(), "Jones 2002".to_string()], &options);
    assert_eq!(
        pairs(&fields),
        vec![
            ("citations", "Smith 2001"),
            ("citations", "Jones 2002"),
            ("consolidateCitations", "1"),
            ("includeRawCitations", "1"),
        ]
    );
}

#[test]
fn test_form_fields() {
    let options = ProcessOptions {
        generate_ids: true,
        include_raw_citations: true,
        tei_coordinates: vec![CoordinateElement::Ref, CoordinateElement::BiblStruct],
        segment_sentences: true,
        start_page: Some(12),
        models: vec!["header".to_string(), "citation".to_string()],
        ..Default::default()
    };
    let form = options.apply_to(reqwest::multipart::Form::new());
    let dump = format!("{form:?}");
    let order = [
        "\"consolidateHeader\"",
        "\"consolidateCitations\"",
        "\"generateIDs\"",
        "\"includeRawCitations\"",
        "\"teiCoordinates\"",
        "\"segmentSentences\"",
        "\"start\"",
        "\"models\"",
    ];
    let mut at = 0;
    for name in order {
        let found = dump[at..].find(name).unwrap_or_else(|| panic!("missing {name} in {dump}"));
        at += found + name.len();
    }
    assert_eq!(dump.matches("\"teiCoordinates\"").count(), 2);
    assert!(!dump.contains("\"includeRawAffiliations\""));
    assert!(!dump.contains("\"debugMode\""));
    assert!(!dump.contains("\"end\""));

    let plain = format!("{:?}", ProcessOptions::default().apply_to(reqwest::multipart::Form::new()));
    assert!(plain.contains("\"consolidateHeader\""));
    assert!(plain.contains("\"consolidateCitations\""));
    assert!(!plain.contains("\"generateIDs\""));
}

#[test]
fn test_retry_decisions() {
    assert!(should_retry(503, 1, 5));
    assert!(should_retry(429, 4, 5));
    assert!(!should_retry(503, 5, 5));
    assert!(!should_retry(200, 1, 5));
    assert!(!should_retry(500, 1, 5));
    assert!(!should_retry(503, 1, 1));
}

#[test]
fn test_reply_text() {
    assert_eq!(reply_text(200, "u", "body".to_string(), 3).expect("ok"), Some("body".to_string()));
    assert_eq!(reply_text(204, "u", "ignored".to_string(), 3).expect("ok"), None);
    assert!(matches!(reply_text(503, "u", "busy".to_string(), 3), Err(GrobidError::ServerBusy { attempts: 3 })));
    assert!(matches!(reply_text(429, "u", String::new(), 7), Err(GrobidError::ServerBusy { attempts: 7 })));
    match reply_text(500, "http://h/api/x", "  the sky is falling \n".to_string(), 1) {
        Err(GrobidError::HttpStatus { status, url, message }) => {
            assert_eq!(status, 500);
            assert_eq!(url, "http://h/api/x");
            assert_eq!(message, "the sky is falling");
        }
        other => panic!("expected HttpStatus, got {other:?}"),
    }
}

#[test]
fn test_http_status_truncation() {
    let long = "a".repeat(600);
    match GrobidError::http_status(502, "u".to_string(), long) {
        GrobidError::HttpStatus { message, .. } => {
            assert_eq!(message.len(), 500 + '…'.len_utf8());
            assert!(message.ends_with('…'));
        }
        other => panic!("expected HttpStatus, got {other:?}"),
    }
    // A body whose 500th byte falls inside a character is cut where the
    // last whole character before it ends.
    let accented = format!("a{}", "é".repeat(300));
    match GrobidError::http_status(502, "u".to_string(), accented) {
        GrobidError::HttpStatus { message, .. } => {
            assert_eq!(message, format!("a{}…", "é".repeat(249)));
        }
        other => panic!("expected HttpStatus, got {other:?}"),
    }
    match GrobidError::http_status(502, "u".to_string(), "short".to_string()) {
        GrobidError::HttpStatus { message, .. } => assert_eq!(message, "short"),
        other => panic!("expected HttpStatus, got {other:?}"),
    }
}

#[test]
fn test_ping_and_version() {
    assert!(ping_reply(200, "u", "true".to_string()).expect("ping"));
    assert!(ping_reply(200, "u", " true\n".to_string()).expect("ping"));
    assert!(!ping_reply(200, "u", "false".to_string()).expect("ping"));
    assert!(matches!(ping_reply(404, "u", "x".to_string()), Err(GrobidError::HttpStatus { status: 404, .. })));
    assert_eq!(version_reply(200, "u", "0.9.1\n".to_string()).expect("version"), "0.9.1");
    assert!(matches!(version_reply(500, "u", "x".to_string()), Err(GrobidError::HttpStatus { status: 500, .. })));
}

#[test]
fn test_no_content_replies() {
    assert!(matches!(document_reply(None), Err(GrobidError::NoContent)));
    assert!(citation_list_reply(None).expect("empty list").is_empty());
    assert!(citation_reply(None).expect("no citation").is_none());
    assert!(citation_reply(Some("  \n".to_string())).expect("no citation").is_none());
    assert!(matches!(raw_reply(None), Err(GrobidError::NoContent)));
    assert_eq!(raw_reply(Some("<x/>".to_string())).expect("body"), "<x/>");
}

#[test]
fn test_parsed_replies() {
    let xml = r#"<biblStruct xml:id="b3"><analytic><title level="a" type="main">T</title></analytic></biblStruct>"#;
    let c = citation_reply(Some(xml.to_string())).expect("parse").expect("citation");
    assert_eq!(c.id.as_deref(), Some("b3"));
    let list = citation_list_reply(Some(xml.to_string())).expect("parse");
    assert_eq!(list.len(), 1);
    assert!(matches!(document_reply(Some("<xml/>".to_string())), Err(GrobidError::InvalidDocument(_))));
    assert!(matches!(citation_list_reply(Some("<".to_string())), Err(GrobidError::Xml(_))));
}

#[test]
fn test_pdf_inputs() {
    assert_eq!(upload_name(Some("paper.pdf".to_string())), "paper.pdf");
    assert_eq!(upload_name(None), "document.pdf");
    match PdfInput::from(("paper.pdf", b"%PDF-1.4".to_vec())) {
        PdfInput::Data { filename, data } => {
            assert_eq!(filename, "paper.pdf");
            assert_eq!(data, b"%PDF-1.4".to_vec());
        }
        other => panic!("expected data, got {other:?}"),
    }
    match PdfInput::from("dir/paper.pdf") {
        PdfInput::Path(p) => assert_eq!(p, std::path::PathBuf::from("dir/paper.pdf")),
        other => panic!("expected a path, got {other:?}"),
    }
    match PdfInput::from(std::path::Path::new("x.pdf")) {
        PdfInput::Path(p) => assert_eq!(p.file_name().and_then(|n| n.to_str()), Some("x.pdf")),
        other => panic!("expected a path, got {other:?}"),
    }
}
