use biblatex::{ChunksExt, DateValue, Datetime, EntryType, Person};
use grobid::bibtex::{entry_type, format_entry, suggest_key, to_entry, unique_key, year, EntryKind};
use grobid::{Author, Biblio};

fn author(surname: &str, given: Option<&str>) -> Author {
    Author {
        surname: Some(surname.to_string()),
        given_name: given.map(str::to_string),
        ..Author::default()
    }
}

#[test]
fn test_suggest_key() {
    let biblio = Biblio {
        authors: vec![author("Milašauskienė", None)],
        date: Some("2003".to_string()),
        ..Biblio::default()
    };
    assert_eq!(suggest_key(&biblio), "Milaauskien2003");

    // Without author and date the key falls back to "ref"; uniqueness
    // is handled by unique_key.
    assert_eq!(suggest_key(&Biblio::default()), "ref");
}

#[test]
fn test_year() {
    for (date, want) in [
        (Some("2019-01-30".to_string()), Some("2019")),
        (Some("2003".to_string()), Some("2003")),
        (Some("no digits".to_string()), None),
        (None, None),
    ] {
        let biblio = Biblio {
            date,
            ..Biblio::default()
        };
        assert_eq!(year(&biblio).as_deref(), want);
    }
}

#[test]
fn test_entry_type() {
    assert_eq!(
        entry_type(&Biblio {
            journal: Some("X".to_string()),
            ..Biblio::default()
        }),
        EntryKind::Article
    );
    assert_eq!(
        entry_type(&Biblio {
            book_title: Some("X".to_string()),
            ..Biblio::default()
        }),
        EntryKind::InCollection
    );
    assert_eq!(
        entry_type(&Biblio {
            institution: Some("X".to_string()),
            ..Biblio::default()
        }),
        EntryKind::TechReport
    );
    assert_eq!(
        entry_type(&Biblio {
            publisher: Some("X".to_string()),
            ..Biblio::default()
        }),
        EntryKind::Book
    );
    assert_eq!(entry_type(&Biblio::default()), EntryKind::Misc);
}

#[test]
fn test_to_entry() {
    let mut biblio = Biblio::default();
    biblio.authors.push(author("Kahle", Some("Brewster")));
    biblio.authors.push(author("Doe", Some("J")));
    biblio.title = Some("Dummy Example File".to_string());
    biblio.journal = Some("Letters in the Alphabet".to_string());
    biblio.date = Some("2000-03-01".to_string());
    biblio.volume = Some("20".to_string());
    biblio.doi = Some("10.1234/example".to_string());

    let entry = to_entry("kahle2000", &biblio);
    assert_eq!(entry.entry_type, EntryType::Article);
    // The typed values round-trip through the field chunks.
    let authors: Vec<Person> = entry.get_as("author").expect("typed authors");
    assert_eq!(authors.len(), 2);
    assert_eq!(authors[0].name, "Kahle");
    assert_eq!(authors[0].given_name, "Brewster");
    let date: biblatex::Date = entry.get_as("date").expect("typed date");
    assert_eq!(
        date.value,
        DateValue::At(Datetime {
            year: 2000,
            month: Some(2),
            day: Some(0),
            time: None,
        })
    );
    assert_eq!(entry.get("doi").expect("doi").format_verbatim(), "10.1234/example");
}

#[test]
fn test_format_entry() {
    let mut biblio = Biblio::default();
    biblio.authors.push(author("Kahle", Some("Brewster")));
    biblio.authors.push(author("Doe", Some("J")));
    biblio.title = Some("Dummy Example File".to_string());
    biblio.date = Some("2000".to_string());
    biblio.volume = Some("20".to_string());

    let entry = format_entry("kahle2000", &biblio);
    assert!(entry.starts_with("@misc{kahle2000,"));
    assert!(entry.contains("author = {Kahle, Brewster and Doe, J},"));
    assert!(entry.contains("title = {Dummy Example File},"));
    assert!(entry.contains("year = {2000},"));
    assert!(entry.contains("volume = {20},"));
    assert!(entry.ends_with('}'));
}

#[test]
fn test_roundtrip() {
    // Entries rendered to a .bib file must parse back into the same typed
    // values.
    let mut biblio = Biblio::default();
    biblio.authors.push(author("Milašauskienė", Some("Žemyna")));
    biblio.title = Some("Dummy & \"quoted\" Example".to_string());
    biblio.journal = Some("A Journal".to_string());
    biblio.date = Some("2003-06-15".to_string());
    let key = unique_key(&biblio, &mut Vec::new());
    let bibtex = format_entry(&key, &biblio);

    let bibliography = biblatex::Bibliography::parse(&bibtex).expect("parse output");
    let entry = bibliography.get(&key).expect("entry by key");
    assert_eq!(entry.entry_type, EntryType::Article);
    let authors: Vec<Person> = entry.get_as("author").expect("typed authors");
    assert_eq!(authors[0].name, "Milašauskienė");
    assert_eq!(authors[0].given_name, "Žemyna");
    // The BibTeX writer expands the date into year/month/day fields; the
    // typed getter falls back to them.
    let date = entry.date().expect("typed date");
    match date {
        biblatex::PermissiveType::Typed(date) => {
            assert_eq!(
                date.value,
                DateValue::At(Datetime {
                    year: 2003,
                    month: Some(5),
                    day: Some(14),
                    time: None,
                })
            );
        }
        other => panic!("expected typed date, got {other:?}"),
    }
    assert_eq!(entry.get("title").expect("title").format_verbatim(), "Dummy & \"quoted\" Example");
    // The escaped characters must have survived the round trip.
    assert!(bibtex.contains("&"));
    assert!(bibtex.contains("quoted"));
}

#[test]
fn test_unique_key() {
    let make = |surname: &str| Biblio {
        authors: vec![author(surname, None)],
        date: Some("2020".to_string()),
        ..Biblio::default()
    };
    let mut used = Vec::new();
    assert_eq!(unique_key(&make("Smith"), &mut used), "Smith2020");
    assert_eq!(unique_key(&make("Smith"), &mut used), "Smith2020-2");
    assert_eq!(unique_key(&make("Smith"), &mut used), "Smith2020-3");
    assert_eq!(unique_key(&make("Jones"), &mut used), "Jones2020");
}

#[test]
fn test_unique_key_skips_taken_alternatives() {
    let biblio = Biblio {
        authors: vec![author("Lee", None)],
        date: Some("1999".to_string()),
        ..Biblio::default()
    };
    let mut used = vec!["Lee1999".to_string(), "Lee1999-2".to_string(), "Lee1999-4".to_string()];
    assert_eq!(unique_key(&biblio, &mut used), "Lee1999-3");
    assert_eq!(unique_key(&biblio, &mut used), "Lee1999-5");
    assert_eq!(used.len(), 5);
    let mut sorted = used.clone();
    sorted.sort();
    sorted.dedup();
    assert_eq!(sorted.len(), used.len());
}

#[test]
fn test_entry_type_precedence() {
    let all = Biblio {
        journal: Some("J".to_string()),
        book_title: Some("B".to_string()),
        series_title: Some("S".to_string()),
        institution: Some("I".to_string()),
        publisher: Some("P".to_string()),
        ..Biblio::default()
    };
    assert_eq!(entry_type(&all), EntryKind::Article);
    let series = Biblio {
        series_title: Some("S".to_string()),
        publisher: Some("P".to_string()),
        ..Biblio::default()
    };
    assert_eq!(entry_type(&series), EntryKind::InProceedings);
    assert_eq!(to_entry("k", &series).entry_type, EntryType::InProceedings);
}

#[test]
fn test_entry_fields() {
    let mut biblio = Biblio::default();
    biblio.authors.push(Author {
        full_name: Some("Plato".to_string()),
        ..Author::default()
    });
    biblio.authors.push(Author::default());
    biblio.authors.push(Author {
        surname: Some("Curie".to_string()),
        given_name: Some("Marie".to_string()),
        middle_name: Some("S".to_string()),
        ..Author::default()
    });
    biblio.title = Some("   ".to_string());
    biblio.note = Some("  a note ".to_string());
    biblio.date = Some("1999-13".to_string());

    let entry = to_entry("key", &biblio);
    assert_eq!(entry.key, "key");
    assert_eq!(entry.entry_type, EntryType::Misc);
    // Authors without a name are dropped; middle names join the given name.
    assert_eq!(entry.get("author").expect("authors").format_verbatim(), "Plato,  and Curie, Marie S");
    // Blank fields are left out, the others trimmed.
    assert!(entry.get("title").is_none());
    assert_eq!(entry.get("note").expect("note").format_verbatim(), "a note");
    // A month out of range keeps the year only.
    assert_eq!(entry.get("date").expect("date").format_verbatim(), "1999");
    // A date without four digits gives no date field.
    biblio.date = Some("99".to_string());
    assert!(to_entry("key", &biblio).get("date").is_none());
}
