# grobid

A client library for the [GROBID](https://grobid.readthedocs.io/) REST API
with a TEI parser, written in Verus: the parser, the BibTeX rendering and
every decision of the HTTP client carry contracts that Verus proves.

Layout:

- `src/xml.rs` reads XML (with `roxmltree`) into an indexed node list and
  states the tree relations over it; `src/text.rs` holds the character-level
  helpers.
- `src/model.rs` holds the parsed types and their views; `src/coords.rs`
  parses `@coords` values; `src/parse.rs` turns TEI into documents and
  references, each function proved against a specification of the TEI
  content model.
- `src/bibtex.rs` picks entry types and citation keys and builds typed
  `biblatex` entries.
- `src/client.rs` holds the request parameters, base URL normalization,
  retry decisions and the interpretation of replies.
- `app/` is the asynchronous client around it (`reqwest`, `tokio`), the
  `serde` copies of the types and the `Display`able error type.
