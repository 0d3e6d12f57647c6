//! Parsing of GROBID TEI documents into the typed structures of
//! [`crate::model`].
//!
//! GROBID writes its XML in the TEI namespace, but some services return
//! bare `<biblStruct>` fragments without a namespace; every lookup here
//! matches local names only, so both work.
//!
//! Each parsing step has a spec function over the element tree of
//! [`crate::xml`] that says what it produces, and the executable function
//! is proved to compute exactly that, including which error comes first
//! when several `@coords` values are malformed.

use vstd::prelude::*;
use vstd::utf8::encode_utf8;
use crate::coords::{coords_parse, lemma_split_nonempty, lemma_split_pieces_lack_separator, parse_u32, split, split_chars, u32_value};
use crate::error::{ErrorV, GrobidError, InvalidDocument, result_view};
use crate::model::{
    Address, AddressV, Affiliation, AffiliationV, Author, AuthorV, Biblio, BiblioV, Block, BlockV,
    BoundingBoxV, Coords, Div, DivV, Figure, FigureV, Formula, FormulaV, List, ListV, MarkerRef, MarkerRefV,
    Note, NoteV, Paragraph, ParagraphV, RefKind, RefKindV, Sentence, SentenceV, affiliation_empty,
    authors_view, blocks_view, block_view, div_view, ocoords, opt_str, ov, strings_view, Citation, CitationV,
    Document, DocumentV, Header, Surface, SurfaceV, biblio_empty, citations_view, divs_view, notes_view,
};
use crate::text::{
    lemma_utf8_len_at_least, utf8_width,
    append_chars, append_str, chars_to_string, contains_seq, contains_str, eq_str, join, join_chars, opt_seq, seqs,
    str_chars, strip_prefix,
    strip_prefix_chars, strip_suffix, strip_suffix_chars, trim, trim_chars,
};
use crate::xml::{
    AttrTest, Matcher, RawNodeV, XmlDoc, XmlRawNode, nodes_view, read_xml, xml_nodes, all_matches, as_ints, attr_of, children, first_match, is_child,
    lemma_children_bounds, nonempty_text, opt_int, text_of, has_tag, has_ancestor_tag, root_element, passes, opt_chars, subtree, subtrees,
};

verus! {

/// A test on the tag name alone.
pub open spec fn tagm(t: &'static str) -> Matcher {
    Matcher { tag: t, test: AttrTest::Any }
}

/// A test on the tag name and the value of one attribute.
pub open spec fn attrm(t: &'static str, a: &'static str, v: &'static str) -> Matcher {
    Matcher { tag: t, test: AttrTest::Is(a, v) }
}

/// The first node of the subtree of `k` that passes `m`.
pub open spec fn first_desc(d: Seq<RawNodeV>, k: int, m: Matcher) -> Option<int> {
    first_match(d, subtree(d, k), m)
}

/// The first element child of `k` that passes `m`.
pub open spec fn first_kid(d: Seq<RawNodeV>, k: int, m: Matcher) -> Option<int> {
    first_match(d, children(d, k), m)
}

/// The non-empty text of the first node of the subtree of `k` that passes
/// `m`.
pub open spec fn desc_text(d: Seq<RawNodeV>, k: int, m: Matcher) -> Option<Seq<char>> {
    match first_desc(d, k, m) {
        Some(j) => nonempty_text(d, j),
        None => None,
    }
}

/// The non-empty text of the first element child of `k` that passes `m`.
pub open spec fn kid_text(d: Seq<RawNodeV>, k: int, m: Matcher) -> Option<Seq<char>> {
    match first_kid(d, k, m) {
        Some(j) => nonempty_text(d, j),
        None => None,
    }
}

/// The coordinates of `k`: its parsed `@coords` attribute, when present.
pub open spec fn coords_of(d: Seq<RawNodeV>, k: int) -> Result<Option<Seq<BoundingBoxV>>, ErrorV> {
    match attr_of(d, k, "coords"@) {
        Some(v) => match coords_parse(v) {
            Ok(bs) => Ok(Some(bs)),
            Err(e) => Err(e),
        },
        None => Ok(None),
    }
}

pub open spec fn valid_ids(doc: &XmlDoc, s: Seq<usize>) -> bool {
    forall|i: int| 0 <= i < s.len() ==> (#[trigger] s[i]) < doc.nodes@.len()
}

/// An optional character vector as an optional `String`.
pub fn opt_string(o: Option<Vec<char>>) -> (r: Option<String>)
    ensures
        ov(r) == opt_chars(o),
{
    match o {
        Some(v) => Some(chars_to_string(&v)),
        None => None,
    }
}

/// An optional attribute value as an optional `String`.
pub fn attr_string(doc: &XmlDoc, k: usize, name: &str) -> (r: Option<String>)
    requires
        k < doc.nodes@.len(),
    ensures
        ov(r) == attr_of(doc.d(), k as int, name@),
{
    opt_string(doc.attr_owned(k, name))
}

/// The non-empty text of the first node of the subtree of `k` that passes
/// `m`.
pub fn desc_text_exec(doc: &XmlDoc, k: usize, m: &Matcher) -> (r: Option<String>)
    requires
        doc.wf(),
        k < doc.nodes@.len(),
    ensures
        ov(r) == desc_text(doc.d(), k as int, *m),
{
    match doc.find_first(k, m) {
        Some(j) => {
            proof {
                lemma_first_match_in(doc.d(), subtree(doc.d(), k as int), *m);
                lemma_subtree_bounds(doc.d(), k as int);
            }
            opt_string(doc.nonempty_text(j))
        },
        None => None,
    }
}

/// The non-empty text of the first element child of `k` that passes `m`.
pub fn kid_text_exec(doc: &XmlDoc, k: usize, m: &Matcher) -> (r: Option<String>)
    requires
        doc.wf(),
        k < doc.nodes@.len(),
    ensures
        ov(r) == kid_text(doc.d(), k as int, *m),
{
    match doc.first_child(k, m) {
        Some(j) => {
            proof {
                lemma_first_match_in(doc.d(), children(doc.d(), k as int), *m);
                lemma_children_bounds(doc.d(), k as int);
            }
            opt_string(doc.nonempty_text(j))
        },
        None => None,
    }
}

/// The coordinates of `k`.
pub fn coords_exec(doc: &XmlDoc, k: usize) -> (r: Result<Option<Coords>, GrobidError>)
    requires
        k < doc.nodes@.len(),
    ensures
        result_view(r, |c: Option<Coords>| ocoords(c)) == coords_of(doc.d(), k as int),
{
    match doc.attr(k, "coords") {
        Some(v) => match Coords::parse_chars(v) {
            Ok(c) => Ok(Some(c)),
            Err(e) => Err(e),
        },
        None => Ok(None),
    }
}

// ---------------------------------------------------------------------------
// People and affiliations
// ---------------------------------------------------------------------------

/// A `<persName>` element as a person.
pub open spec fn pers_name_of(d: Seq<RawNodeV>, k: int) -> Result<AuthorV, ErrorV> {
    match coords_of(d, k) {
        Err(e) => Err(e),
        Ok(c) => Ok(
            AuthorV {
                full_name: nonempty_text(d, k),
                given_name: kid_text(d, k, attrm("forename", "type", "first")),
                middle_name: kid_text(d, k, attrm("forename", "type", "middle")),
                surname: kid_text(d, k, tagm("surname")),
                email: None,
                orcid: None,
                affiliation: None,
                coords: c,
            },
        ),
    }
}

/// The non-empty text of the last element child of `k` that passes `m`.
pub open spec fn last_kid_text(d: Seq<RawNodeV>, k: int, m: Matcher) -> Option<Seq<char>> {
    let l = all_matches(d, children(d, k), m);
    if l.len() > 0 {
        nonempty_text(d, l.last())
    } else {
        None
    }
}

/// An `<address>` element.
pub open spec fn address_of(d: Seq<RawNodeV>, k: int) -> AddressV {
    AddressV {
        addr_line: kid_text(d, k, tagm("addrLine")),
        post_code: kid_text(d, k, tagm("postCode")),
        settlement: kid_text(d, k, tagm("settlement")),
        country: kid_text(d, k, tagm("country")),
    }
}

/// An `<affiliation>` element: the institution, department and laboratory
/// from its `<orgName>` children of those types (the last of each type
/// counts), its first `<address>` child and its coordinates; `None` when it
/// carries no information.
pub open spec fn affiliation_of(d: Seq<RawNodeV>, k: int) -> Result<Option<AffiliationV>, ErrorV> {
    match coords_of(d, k) {
        Err(e) => Err(e),
        Ok(c) => {
            let a = AffiliationV {
                institution: last_kid_text(d, k, attrm("orgName", "type", "institution")),
                department: last_kid_text(d, k, attrm("orgName", "type", "department")),
                laboratory: last_kid_text(d, k, attrm("orgName", "type", "laboratory")),
                address: match first_kid(d, k, tagm("address")) {
                    Some(j) => Some(address_of(d, j)),
                    None => None,
                },
                coords: c,
            };
            if affiliation_empty(a) {
                Ok(None)
            } else {
                Ok(Some(a))
            }
        },
    }
}

/// A person carries a name: a full name or one of its parts.
pub open spec fn has_name(a: AuthorV) -> bool {
    a.full_name is Some || a.given_name is Some || a.middle_name is Some || a.surname is Some
}

/// An `<author>` element: `None` when it carries no name (no `<persName>`
/// child, or one that names nobody), else the person, with the ORCID
/// (`idno[@type="ORCID"]` anywhere below), the email (`<email>` child) and
/// the affiliation (`<affiliation>` child).
pub open spec fn author_of(d: Seq<RawNodeV>, k: int) -> Result<Option<AuthorV>, ErrorV> {
    match first_kid(d, k, tagm("persName")) {
        None => Ok(None),
        Some(p) => match pers_name_of(d, p) {
            Err(e) => Err(e),
            Ok(a) => if !has_name(a) {
                Ok(None)
            } else {
                let orcid = desc_text(d, k, attrm("idno", "type", "ORCID"));
                let email = kid_text(d, k, tagm("email"));
                match first_kid(d, k, tagm("affiliation")) {
                    None => Ok(Some(AuthorV { orcid: orcid, email: email, ..a })),
                    Some(f) => match affiliation_of(d, f) {
                        Err(e) => Err(e),
                        Ok(af) => Ok(Some(AuthorV { orcid: orcid, email: email, affiliation: af, ..a })),
                    },
                }
            },
        },
    }
}

/// The authors of the `<author>` elements `els`, in order, skipping those
/// without a name; the first error stops.
pub open spec fn authors_of(d: Seq<RawNodeV>, els: Seq<int>) -> Result<Seq<AuthorV>, ErrorV>
    decreases els.len(),
{
    if els.len() == 0 {
        Ok(seq![])
    } else {
        match authors_of(d, els.drop_last()) {
            Err(e) => Err(e),
            Ok(v) => match author_of(d, els.last()) {
                Err(e) => Err(e),
                Ok(Some(a)) => Ok(v.push(a)),
                Ok(None) => Ok(v),
            },
        }
    }
}

/// The persons of the `<persName>` elements `els`, in order.
pub open spec fn pers_names_of(d: Seq<RawNodeV>, els: Seq<int>) -> Result<Seq<AuthorV>, ErrorV>
    decreases els.len(),
{
    if els.len() == 0 {
        Ok(seq![])
    } else {
        match pers_names_of(d, els.drop_last()) {
            Err(e) => Err(e),
            Ok(v) => match pers_name_of(d, els.last()) {
                Err(e) => Err(e),
                Ok(a) => Ok(v.push(a)),
            },
        }
    }
}

/// An editor given as a bare name string: an element without element
/// children whose text is longer than two bytes (in UTF-8) is one person
/// with that text as full name.
pub open spec fn bare_editor(d: Seq<RawNodeV>, k: int) -> Seq<AuthorV> {
    if children(d, k).len() == 0 {
        match nonempty_text(d, k) {
            Some(t) => if encode_utf8(t).len() > 2 {
                seq![
                    AuthorV {
                        full_name: Some(t),
                        given_name: None,
                        middle_name: None,
                        surname: None,
                        email: None,
                        orcid: None,
                        affiliation: None,
                        coords: None,
                    },
                ]
            } else {
                seq![]
            },
            None => seq![],
        }
    } else {
        seq![]
    }
}

/// An `<editor>` (or `<contributor role="editor">`) element: the persons
/// of its `<persName>` children, or, when it has none, the bare name
/// string it holds.
pub open spec fn editor_of(d: Seq<RawNodeV>, k: int) -> Result<Seq<AuthorV>, ErrorV> {
    let ps = all_matches(d, children(d, k), tagm("persName"));
    if ps.len() == 0 {
        Ok(bare_editor(d, k))
    } else {
        pers_names_of(d, ps)
    }
}

/// The editors of the elements `els`, concatenated in order.
pub open spec fn editors_of(d: Seq<RawNodeV>, els: Seq<int>) -> Result<Seq<AuthorV>, ErrorV>
    decreases els.len(),
{
    if els.len() == 0 {
        Ok(seq![])
    } else {
        match editors_of(d, els.drop_last()) {
            Err(e) => Err(e),
            Ok(v) => match editor_of(d, els.last()) {
                Err(e) => Err(e),
                Ok(w) => Ok(v + w),
            },
        }
    }
}

/// Every node of the subtree of `k` lies in the document.
pub proof fn lemma_subtree_bounds(d: Seq<RawNodeV>, k: int)
    ensures
        forall|i: int| 0 <= i < subtree(d, k).len() ==> 0 <= #[trigger] subtree(d, k)[i] < d.len(),
    decreases d.len() - k, 1int, 0int,
{
    if 0 <= k < d.len() {
        lemma_children_bounds(d, k);
        lemma_subtrees_bounds(d, k, children(d, k));
        let a = seq![k];
        let b = subtrees(d, k, children(d, k));
        assert(subtree(d, k) == a + b);
        assert forall|i: int| 0 <= i < (a + b).len() implies 0 <= #[trigger] (a + b)[i] < d.len() by {
            if i < a.len() {
                assert((a + b)[i] == a[i]);
            } else {
                assert((a + b)[i] == b[i - a.len()]);
            }
        }
    }
}

pub proof fn lemma_subtrees_bounds(d: Seq<RawNodeV>, k: int, cs: Seq<int>)
    ensures
        forall|i: int| 0 <= i < subtrees(d, k, cs).len() ==> 0 <= #[trigger] subtrees(d, k, cs)[i] < d.len(),
    decreases d.len() - k, 0int, cs.len(),
{
    if cs.len() > 0 {
        lemma_subtrees_bounds(d, k, cs.drop_last());
        let a = subtrees(d, k, cs.drop_last());
        if k < cs.last() < d.len() {
            lemma_subtree_bounds(d, cs.last());
            let b = subtree(d, cs.last());
            assert(subtrees(d, k, cs) == a + b);
            assert forall|i: int| 0 <= i < subtrees(d, k, cs).len() implies 0 <= #[trigger] subtrees(d, k, cs)[i]
                < d.len() by {
                if i < a.len() {
                    assert((a + b)[i] == a[i]);
                } else {
                    assert((a + b)[i] == b[i - a.len()]);
                }
            }
        } else {
            assert(subtrees(d, k, cs) == a);
        }
    }
}

/// A node that `first_match` finds is one of the nodes searched.
pub proof fn lemma_first_match_in(d: Seq<RawNodeV>, s: Seq<int>, m: Matcher)
    ensures
        first_match(d, s, m) matches Some(j) ==> s.contains(j) && passes(d, j, m),
    decreases s.len(),
{
    if s.len() > 0 {
        lemma_first_match_in(d, s.drop_first(), m);
        if !passes(d, s[0], m) {
            if let Some(j) = first_match(d, s.drop_first(), m) {
                let i = choose|i: int| 0 <= i < s.drop_first().len() && s.drop_first()[i] == j;
                assert(s[i + 1] == j);
            }
        }
    }
}

/// All nodes found by `all_matches` are among the nodes searched.
pub proof fn lemma_all_matches_in(d: Seq<RawNodeV>, s: Seq<int>, m: Matcher)
    ensures
        forall|i: int| 0 <= i < all_matches(d, s, m).len() ==> s.contains(#[trigger] all_matches(d, s, m)[i]),
{
    assert forall|i: int| 0 <= i < all_matches(d, s, m).len() implies s.contains(
        #[trigger] all_matches(d, s, m)[i],
    ) by {
        s.lemma_filter_contains_rev(|j: int| passes(d, j, m), all_matches(d, s, m)[i]);
        assert(all_matches(d, s, m).contains(all_matches(d, s, m)[i]));
    }
}

/// A `<persName>` element as a person.
pub fn parse_pers_name(doc: &XmlDoc, k: usize) -> (r: Result<Author, GrobidError>)
    requires
        doc.wf(),
        k < doc.nodes@.len(),
    ensures
        result_view(r, |a: Author| a@) == pers_name_of(doc.d(), k as int),
{
    let coords = match coords_exec(doc, k) {
        Ok(c) => c,
        Err(e) => return Err(e),
    };
    Ok(
        Author {
            full_name: opt_string(doc.nonempty_text(k)),
            given_name: kid_text_exec(doc, k, &Matcher { tag: "forename", test: AttrTest::Is("type", "first") }),
            middle_name: kid_text_exec(doc, k, &Matcher { tag: "forename", test: AttrTest::Is("type", "middle") }),
            surname: kid_text_exec(doc, k, &Matcher { tag: "surname", test: AttrTest::Any }),
            email: None,
            orcid: None,
            affiliation: None,
            coords,
        },
    )
}

/// The non-empty text of the last element child of `k` that passes `m`.
fn last_kid_text_exec(doc: &XmlDoc, k: usize, m: &Matcher) -> (r: Option<String>)
    requires
        doc.wf(),
        k < doc.nodes@.len(),
    ensures
        ov(r) == last_kid_text(doc.d(), k as int, *m),
{
    let l = doc.children_matching(k, m);
    if l.len() > 0 {
        let j = l[l.len() - 1];
        assert(as_ints(l@).last() == j as int);
        assert(is_child(doc.d(), l@[l@.len() - 1] as int, k as int));
        opt_string(doc.nonempty_text(j))
    } else {
        None
    }
}

/// An `<address>` element.
fn parse_address(doc: &XmlDoc, k: usize) -> (r: Address)
    requires
        doc.wf(),
        k < doc.nodes@.len(),
    ensures
        r@ == address_of(doc.d(), k as int),
{
    Address {
        addr_line: kid_text_exec(doc, k, &Matcher { tag: "addrLine", test: AttrTest::Any }),
        post_code: kid_text_exec(doc, k, &Matcher { tag: "postCode", test: AttrTest::Any }),
        settlement: kid_text_exec(doc, k, &Matcher { tag: "settlement", test: AttrTest::Any }),
        country: kid_text_exec(doc, k, &Matcher { tag: "country", test: AttrTest::Any }),
    }
}

/// An `<affiliation>` element; `None` when it carries no information.
pub fn parse_affiliation(doc: &XmlDoc, k: usize) -> (r: Result<Option<Affiliation>, GrobidError>)
    requires
        doc.wf(),
        k < doc.nodes@.len(),
    ensures
        result_view(
            r,
            |a: Option<Affiliation>|
                match a {
                    Some(x) => Some(x@),
                    None => None,
                },
        ) == affiliation_of(doc.d(), k as int),
{
    let institution = last_kid_text_exec(doc, k, &Matcher { tag: "orgName", test: AttrTest::Is("type", "institution") });
    let department = last_kid_text_exec(doc, k, &Matcher { tag: "orgName", test: AttrTest::Is("type", "department") });
    let laboratory = last_kid_text_exec(doc, k, &Matcher { tag: "orgName", test: AttrTest::Is("type", "laboratory") });
    let address = match doc.first_child(k, &Matcher { tag: "address", test: AttrTest::Any }) {
        Some(j) => {
            proof {
                lemma_first_match_in(doc.d(), children(doc.d(), k as int), tagm("address"));
                lemma_children_bounds(doc.d(), k as int);
            }
            Some(parse_address(doc, j))
        },
        None => None,
    };
    let coords = match coords_exec(doc, k) {
        Ok(c) => c,
        Err(e) => return Err(e),
    };
    let affiliation = Affiliation { institution, department, laboratory, address, coords };
    if affiliation.is_empty() {
        Ok(None)
    } else {
        Ok(Some(affiliation))
    }
}

/// An `<author>` element; `None` when it carries no name.
pub fn parse_author(doc: &XmlDoc, k: usize) -> (r: Result<Option<Author>, GrobidError>)
    requires
        doc.wf(),
        k < doc.nodes@.len(),
    ensures
        result_view(
            r,
            |a: Option<Author>|
                match a {
                    Some(x) => Some(x@),
                    None => None,
                },
        ) == author_of(doc.d(), k as int),
{
    let ghost d = doc.d();
    proof {
        lemma_children_bounds(d, k as int);
        lemma_first_match_in(d, children(d, k as int), tagm("persName"));
        lemma_first_match_in(d, children(d, k as int), tagm("affiliation"));
    }
    let p = match doc.first_child(k, &Matcher { tag: "persName", test: AttrTest::Any }) {
        Some(p) => p,
        None => return Ok(None),
    };
    let mut author = match parse_pers_name(doc, p) {
        Ok(a) => a,
        Err(e) => return Err(e),
    };
    if author.full_name.is_none() && author.given_name.is_none() && author.middle_name.is_none()
        && author.surname.is_none() {
        return Ok(None);
    }
    author.orcid = desc_text_exec(doc, k, &Matcher { tag: "idno", test: AttrTest::Is("type", "ORCID") });
    author.email = kid_text_exec(doc, k, &Matcher { tag: "email", test: AttrTest::Any });
    match doc.first_child(k, &Matcher { tag: "affiliation", test: AttrTest::Any }) {
        Some(f) => {
            author.affiliation = match parse_affiliation(doc, f) {
                Ok(a) => a,
                Err(e) => return Err(e),
            };
        },
        None => {},
    }
    Ok(Some(author))
}

/// The authors of the `<author>` elements `els`.
fn parse_authors(doc: &XmlDoc, els: &Vec<usize>) -> (r: Result<Vec<Author>, GrobidError>)
    requires
        doc.wf(),
        valid_ids(doc, els@),
    ensures
        result_view(r, |v: Vec<Author>| authors_view(v@)) == authors_of(doc.d(), as_ints(els@)),
{
    let ghost d = doc.d();
    let ghost s = as_ints(els@);
    let mut out: Vec<Author> = Vec::new();
    assert(s.take(0) =~= seq![]);
    assert(authors_view(out@) =~= seq![]);
    for i in 0..els.len()
        invariant
            doc.wf(),
            d == doc.d(),
            s == as_ints(els@),
            valid_ids(doc, els@),
            authors_of(d, s.take(i as int)) == Ok::<Seq<AuthorV>, ErrorV>(authors_view(out@)),
    {
        assert(s.take(i + 1).drop_last() =~= s.take(i as int));
        assert(s.take(i + 1).last() == els@[i as int] as int);
        let res = parse_author(doc, els[i]);
        match res {
            Ok(Some(a)) => {
                assert(author_of(d, els@[i as int] as int) == Ok::<Option<AuthorV>, ErrorV>(Some(a@)));
                let ghost before = authors_view(out@);
                out.push(a);
                assert(authors_view(out@) =~= before.push(a@));
            },
            Ok(None) => {
                assert(author_of(d, els@[i as int] as int) == Ok::<Option<AuthorV>, ErrorV>(None));
            },
            Err(e) => {
                proof {
                    lemma_authors_of_err(d, s, i + 1);
                }
                return Err(e);
            },
        }
    }
    assert(s.take(s.len() as int) =~= s);
    Ok(out)
}

proof fn lemma_authors_of_err(d: Seq<RawNodeV>, s: Seq<int>, i: int)
    requires
        0 <= i <= s.len(),
        authors_of(d, s.take(i)) is Err,
    ensures
        authors_of(d, s) == authors_of(d, s.take(i)),
    decreases s.len() - i,
{
    if i < s.len() {
        assert(s.take(i + 1).drop_last() =~= s.take(i));
        lemma_authors_of_err(d, s, i + 1);
    } else {
        assert(s.take(i) =~= s);
    }
}

proof fn lemma_pers_names_of_err(d: Seq<RawNodeV>, s: Seq<int>, i: int)
    requires
        0 <= i <= s.len(),
        pers_names_of(d, s.take(i)) is Err,
    ensures
        pers_names_of(d, s) == pers_names_of(d, s.take(i)),
    decreases s.len() - i,
{
    if i < s.len() {
        assert(s.take(i + 1).drop_last() =~= s.take(i));
        lemma_pers_names_of_err(d, s, i + 1);
    } else {
        assert(s.take(i) =~= s);
    }
}

proof fn lemma_editors_of_err(d: Seq<RawNodeV>, s: Seq<int>, i: int)
    requires
        0 <= i <= s.len(),
        editors_of(d, s.take(i)) is Err,
    ensures
        editors_of(d, s) == editors_of(d, s.take(i)),
    decreases s.len() - i,
{
    if i < s.len() {
        assert(s.take(i + 1).drop_last() =~= s.take(i));
        lemma_editors_of_err(d, s, i + 1);
    } else {
        assert(s.take(i) =~= s);
    }
}

/// Whether the UTF-8 encoding of `t` is longer than two bytes.
fn longer_than_two_bytes(t: &Vec<char>) -> (r: bool)
    ensures
        r == (encode_utf8(t@).len() > 2),
{
    proof {
        lemma_utf8_len_at_least(t@);
    }
    if t.len() >= 3 {
        return true;
    }
    if t.len() == 0 {
        return false;
    }
    let w0 = utf8_width(t[0]);
    proof {
        reveal_with_fuel(encode_utf8, 3);
    }
    if t.len() == 1 {
        assert(t@.drop_first() =~= Seq::<char>::empty());
        return w0 > 2;
    }
    let w1 = utf8_width(t[1]);
    assert(t@.drop_first()[0] == t@[1]);
    assert(t@.drop_first().drop_first() =~= Seq::<char>::empty());
    w0 + w1 > 2
}

/// The persons named by the `<persName>` children of an editor element,
/// or its bare name string, appended to `out`.
fn parse_editor(doc: &XmlDoc, k: usize, out: &mut Vec<Author>) -> (r: Result<(), GrobidError>)
    requires
        doc.wf(),
        k < doc.nodes@.len(),
    ensures
        match r {
            Ok(_) => editor_of(doc.d(), k as int) == Ok::<Seq<AuthorV>, ErrorV>(
                authors_view(final(out)@).skip(old(out)@.len() as int),
            ) && authors_view(final(out)@).take(old(out)@.len() as int) == authors_view(old(out)@),
            Err(e) => editor_of(doc.d(), k as int) == Err::<Seq<AuthorV>, ErrorV>(e@),
        },
        final(out)@.len() >= old(out)@.len(),
{
    let ghost d = doc.d();
    let els = doc.children_matching(k, &Matcher { tag: "persName", test: AttrTest::Any });
    if els.len() == 0 {
        assert(as_ints(doc.kids@[k as int]@) == children(d, k as int));
        let ghost before = authors_view(out@);
        if doc.kids[k].len() == 0 {
            match doc.nonempty_text(k) {
                Some(t) => {
                    if longer_than_two_bytes(&t) {
                        let a = Author {
                            full_name: Some(chars_to_string(&t)),
                            given_name: None,
                            middle_name: None,
                            surname: None,
                            email: None,
                            orcid: None,
                            affiliation: None,
                            coords: None,
                        };
                        out.push(a);
                        assert(authors_view(out@) =~= before.push(a@));
                    }
                },
                None => {},
            }
        }
        assert(authors_view(out@).skip(old(out)@.len() as int) =~= bare_editor(d, k as int));
        assert(authors_view(out@).take(old(out)@.len() as int) =~= before);
        return Ok(());
    }
    let ghost s = as_ints(els@);
    let ghost start = authors_view(out@);
    let ghost n0 = out@.len() as int;
    assert(s.take(0) =~= seq![]);
    assert(authors_view(out@).skip(n0) =~= seq![]);
    assert(authors_view(out@).take(n0) =~= start);
    for i in 0..els.len()
        invariant
            doc.wf(),
            d == doc.d(),
            s == as_ints(els@),
            s == all_matches(d, children(d, k as int), tagm("persName")),
            forall|j: int| 0 <= j < els@.len() ==> is_child(d, #[trigger] els@[j] as int, k as int),
            n0 == old(out)@.len(),
            start == authors_view(old(out)@),
            out@.len() >= n0,
            authors_view(out@).take(n0) == start,
            pers_names_of(d, s.take(i as int)) == Ok::<Seq<AuthorV>, ErrorV>(authors_view(out@).skip(n0)),
    {
        assert(s.take(i + 1).drop_last() =~= s.take(i as int));
        assert(s.take(i + 1).last() == els@[i as int] as int);
        assert(is_child(d, els@[i as int] as int, k as int));
        let res = parse_pers_name(doc, els[i]);
        match res {
            Ok(a) => {
                assert(pers_name_of(d, els@[i as int] as int) == Ok::<AuthorV, ErrorV>(a@));
                let ghost before = authors_view(out@);
                out.push(a);
                assert(authors_view(out@) =~= before.push(a@));
                assert(authors_view(out@).skip(n0) =~= before.skip(n0).push(a@));
                assert(authors_view(out@).take(n0) =~= before.take(n0));
            },
            Err(e) => {
                proof {
                    lemma_pers_names_of_err(d, s, i + 1);
                }
                return Err(e);
            },
        }
    }
    assert(s.take(s.len() as int) =~= s);
    Ok(())
}

/// The editors of the elements `els`, appended to `out`.
fn parse_editors(doc: &XmlDoc, els: &Vec<usize>, out: &mut Vec<Author>) -> (r: Result<(), GrobidError>)
    requires
        doc.wf(),
        valid_ids(doc, els@),
    ensures
        match r {
            Ok(_) => editors_of(doc.d(), as_ints(els@)) == Ok::<Seq<AuthorV>, ErrorV>(
                authors_view(final(out)@).skip(old(out)@.len() as int),
            ) && authors_view(final(out)@).take(old(out)@.len() as int) == authors_view(old(out)@),
            Err(e) => editors_of(doc.d(), as_ints(els@)) == Err::<Seq<AuthorV>, ErrorV>(e@),
        },
        final(out)@.len() >= old(out)@.len(),
{
    let ghost d = doc.d();
    let ghost s = as_ints(els@);
    let ghost start = authors_view(out@);
    let ghost n0 = out@.len() as int;
    assert(s.take(0) =~= seq![]);
    assert(authors_view(out@).skip(n0) =~= seq![]);
    assert(authors_view(out@).take(n0) =~= start);
    for i in 0..els.len()
        invariant
            doc.wf(),
            d == doc.d(),
            s == as_ints(els@),
            valid_ids(doc, els@),
            n0 == old(out)@.len(),
            start == authors_view(old(out)@),
            out@.len() >= n0,
            authors_view(out@).take(n0) == start,
            editors_of(d, s.take(i as int)) == Ok::<Seq<AuthorV>, ErrorV>(authors_view(out@).skip(n0)),
    {
        assert(s.take(i + 1).drop_last() =~= s.take(i as int));
        assert(s.take(i + 1).last() == els@[i as int] as int);
        let ghost before = authors_view(out@);
        let ghost m0 = out@.len() as int;
        match parse_editor(doc, els[i], out) {
            Ok(_) => {
                proof {
                    let now = authors_view(out@);
                    assert(now.take(m0) == before);
                    assert(now.len() >= m0);
                    assert(m0 >= n0);
                    assert(now.skip(n0) =~= before.skip(n0) + now.skip(m0));
                    assert(now.take(n0) =~= before.take(n0));
                }
            },
            Err(e) => {
                proof {
                    lemma_editors_of_err(d, s, i + 1);
                }
                return Err(e);
            },
        }
    }
    assert(s.take(s.len() as int) =~= s);
    Ok(())
}

// ---------------------------------------------------------------------------
// Bibliographic records
// ---------------------------------------------------------------------------

/// A URL with the defects seen in GROBID output removed: surrounding white
/// space, a trailing `.Lastaccessed`, a leading `<`, and everything from
/// the first `>` on.
pub open spec fn clean_url_spec(u: Seq<char>) -> Seq<char> {
    let t = trim(u);
    if t.len() == 0 {
        t
    } else {
        split(strip_prefix(strip_suffix(t, ".Lastaccessed"@), seq!['<']), '>')[0]
    }
}

/// Basic URL cleaning: trims white space, drops a trailing `.Lastaccessed`
/// and a leading `<`, and cuts the URL at the first `>`.
pub fn clean_url(url: &str) -> (r: String)
    ensures
        r@ == clean_url_spec(url@),
{
    let chars = str_chars(url);
    let t = trim_chars(&chars);
    if t.len() == 0 {
        return chars_to_string(&t);
    }
    let a = strip_suffix_chars(&t, ".Lastaccessed");
    let b = strip_prefix_chars(&a, "<");
    proof {
        reveal_strlit("<");
        assert("<"@ =~= seq!['<']);
    }
    let parts = split_chars(&b, '>');
    assert(parts@[0]@ == split(b@, '>')[0]);
    chars_to_string(&parts[0])
}

/// The URL is a DOI resolver URL.
pub open spec fn is_doi_url(u: Seq<char>) -> bool {
    contains_seq(u, "://doi.org/"@) || contains_seq(u, "://dx.doi.org/"@)
}

/// The publisher named by the `<publisher>` child of the first element
/// `t` below `k`.
pub open spec fn publisher_under(d: Seq<RawNodeV>, k: int, t: &'static str) -> Option<Seq<char>> {
    match first_desc(d, k, tagm(t)) {
        Some(j) => kid_text(d, j, tagm("publisher")),
        None => None,
    }
}

/// The page range of a `<biblScope unit="page">` element: `from-to` when
/// both attributes are present, else its text.
pub open spec fn pages_of(d: Seq<RawNodeV>, sc: int) -> Option<Seq<char>> {
    match (attr_of(d, sc, "from"@), attr_of(d, sc, "to"@)) {
        (Some(f), Some(t)) => Some(f + seq!['-'] + t),
        _ => nonempty_text(d, sc),
    }
}

/// The title and book title of a record: a book title (a level `m` title
/// without a type) becomes the title when the record has no main title.
pub open spec fn titles_of(d: Seq<RawNodeV>, k: int) -> (Option<Seq<char>>, Option<Seq<char>>) {
    let title = desc_text(d, k, attrm("title", "type", "main"));
    let book = desc_text(d, k, Matcher { tag: "title", test: AttrTest::IsMissing("level", "m", "type") });
    if book is Some && title is None {
        (book, None)
    } else {
        (title, book)
    }
}

/// The URL of a record: the cleaned target of the first `<ptr>` with a
/// target, dropped when the record has a DOI and the URL is a DOI URL.
pub open spec fn url_of(d: Seq<RawNodeV>, k: int) -> Option<Seq<char>> {
    let url = match first_desc(d, k, Matcher { tag: "ptr", test: AttrTest::Has("target") }) {
        Some(j) => match attr_of(d, j, "target"@) {
            Some(t) => Some(clean_url_spec(t)),
            None => None,
        },
        None => None,
    };
    if desc_text(d, k, attrm("idno", "type", "DOI")) is Some && (url matches Some(u) && is_doi_url(u)) {
        None
    } else {
        url
    }
}

/// The publication date: the non-empty `@when` of the first
/// `<date type="published">`.
pub open spec fn date_of(d: Seq<RawNodeV>, k: int) -> Option<Seq<char>> {
    match first_desc(d, k, attrm("date", "type", "published")) {
        Some(j) => match attr_of(d, j, "when"@) {
            Some(w) => if w.len() > 0 {
                Some(w)
            } else {
                None
            },
            None => None,
        },
        None => None,
    }
}

/// The fields of a record other than its people and coordinates.
pub open spec fn biblio_fields(
    d: Seq<RawNodeV>,
    k: int,
    authors: Seq<AuthorV>,
    editors: Seq<AuthorV>,
    coords: Option<Seq<BoundingBoxV>>,
) -> BiblioV {
    let scope = first_desc(d, k, attrm("biblScope", "unit", "page"));
    BiblioV {
        authors: authors,
        editors: editors,
        id: attr_of(d, k, "id"@),
        raw_reference: desc_text(d, k, attrm("note", "type", "raw_reference")),
        date: date_of(d, k),
        title: titles_of(d, k).0,
        book_title: titles_of(d, k).1,
        series_title: desc_text(d, k, attrm("title", "level", "s")),
        journal: desc_text(d, k, attrm("title", "level", "j")),
        journal_abbrev: desc_text(d, k, Matcher { tag: "title", test: AttrTest::IsIs("level", "j", "type", "abbrev") }),
        publisher: match publisher_under(d, k, "publicationStmt") {
            Some(p) => Some(p),
            None => publisher_under(d, k, "imprint"),
        },
        institution: match first_desc(d, k, tagm("respStmt")) {
            Some(j) => kid_text(d, j, tagm("orgName")),
            None => None,
        },
        issn: desc_text(d, k, attrm("idno", "type", "ISSN")),
        eissn: desc_text(d, k, attrm("idno", "type", "eISSN")),
        volume: desc_text(d, k, attrm("biblScope", "unit", "volume")),
        issue: desc_text(d, k, attrm("biblScope", "unit", "issue")),
        pages: match scope {
            Some(sc) => pages_of(d, sc),
            None => None,
        },
        first_page: match scope {
            Some(sc) => attr_of(d, sc, "from"@),
            None => None,
        },
        last_page: match scope {
            Some(sc) => attr_of(d, sc, "to"@),
            None => None,
        },
        note: desc_text(d, k, Matcher { tag: "note", test: AttrTest::Missing("type") }),
        doi: desc_text(d, k, attrm("idno", "type", "DOI")),
        pmid: desc_text(d, k, attrm("idno", "type", "PMID")),
        pmcid: desc_text(d, k, attrm("idno", "type", "PMCID")),
        arxiv_id: match desc_text(d, k, attrm("idno", "type", "arXiv")) {
            Some(a) => Some(strip_prefix(a, "arXiv:"@)),
            None => None,
        },
        pii: desc_text(d, k, attrm("idno", "type", "PII")),
        ark: desc_text(d, k, attrm("idno", "type", "ark")),
        istex_id: desc_text(d, k, attrm("idno", "type", "istexId")),
        url: url_of(d, k),
        coords: coords,
    }
}

/// A `<biblStruct>` (or, for the metadata of a document, the whole
/// `<teiHeader>`) as a bibliographic record: the authors of all `<author>`
/// elements below it, the editors of all `<editor>` and
/// `<contributor role="editor">` elements, the fields of
/// [`biblio_fields`], and its coordinates. Errors come in that order.
pub open spec fn biblio_of(d: Seq<RawNodeV>, k: int) -> Result<BiblioV, ErrorV> {
    match authors_of(d, all_matches(d, subtree(d, k), tagm("author"))) {
        Err(e) => Err(e),
        Ok(au) => match editors_of(d, all_matches(d, subtree(d, k), tagm("editor"))) {
            Err(e) => Err(e),
            Ok(e1) => match editors_of(d, all_matches(d, subtree(d, k), attrm("contributor", "role", "editor"))) {
                Err(e) => Err(e),
                Ok(e2) => match coords_of(d, k) {
                    Err(e) => Err(e),
                    Ok(c) => Ok(biblio_fields(d, k, au, e1 + e2, c)),
                },
            },
        },
    }
}

/// The nodes found in the subtree of `k` lie in the document.
proof fn lemma_find_all_valid(doc: &XmlDoc, k: int, m: Matcher, r: Seq<usize>)
    requires
        doc.wf(),
        as_ints(r) == all_matches(doc.d(), subtree(doc.d(), k), m),
    ensures
        valid_ids(doc, r),
{
    let d = doc.d();
    lemma_all_matches_in(d, subtree(d, k), m);
    lemma_subtree_bounds(d, k);
    assert forall|i: int| 0 <= i < r.len() implies (#[trigger] r[i]) < doc.nodes@.len() by {
        assert(as_ints(r)[i] == r[i] as int);
        let j = choose|j: int| 0 <= j < subtree(d, k).len() && subtree(d, k)[j] == r[i] as int;
    }
}

/// The page range of a `<biblScope unit="page">` element.
fn pages_exec(doc: &XmlDoc, sc: usize) -> (r: Option<String>)
    requires
        doc.wf(),
        sc < doc.nodes@.len(),
    ensures
        ov(r) == pages_of(doc.d(), sc as int),
{
    match (doc.attr(sc, "from"), doc.attr(sc, "to")) {
        (Some(f), Some(t)) => {
            let mut v = f.clone();
            v.push('-');
            append_chars(&mut v, t);
            Some(chars_to_string(&v))
        },
        _ => opt_string(doc.nonempty_text(sc)),
    }
}

/// The first node of the subtree of `k` that passes `m`, known to lie in
/// the document.
fn find_in(doc: &XmlDoc, k: usize, m: &Matcher) -> (r: Option<usize>)
    requires
        doc.wf(),
        k < doc.nodes@.len(),
    ensures
        opt_int(r) == first_desc(doc.d(), k as int, *m),
        r matches Some(j) ==> j < doc.nodes@.len(),
{
    proof {
        lemma_first_match_in(doc.d(), subtree(doc.d(), k as int), *m);
        lemma_subtree_bounds(doc.d(), k as int);
    }
    doc.find_first(k, m)
}

/// The first element child of `k` that passes `m`, known to lie in the
/// document.
fn kid_in(doc: &XmlDoc, k: usize, m: &Matcher) -> (r: Option<usize>)
    requires
        doc.wf(),
        k < doc.nodes@.len(),
    ensures
        opt_int(r) == first_kid(doc.d(), k as int, *m),
        r matches Some(j) ==> j < doc.nodes@.len(),
{
    proof {
        lemma_first_match_in(doc.d(), children(doc.d(), k as int), *m);
        lemma_children_bounds(doc.d(), k as int);
    }
    doc.first_child(k, m)
}

fn publisher_exec(doc: &XmlDoc, k: usize, t: &'static str) -> (r: Option<String>)
    requires
        doc.wf(),
        k < doc.nodes@.len(),
    ensures
        ov(r) == publisher_under(doc.d(), k as int, t),
{
    match find_in(doc, k, &Matcher { tag: t, test: AttrTest::Any }) {
        Some(j) => kid_text_exec(doc, j, &Matcher { tag: "publisher", test: AttrTest::Any }),
        None => None,
    }
}

fn url_exec(doc: &XmlDoc, k: usize, has_doi: bool) -> (r: Option<String>)
    requires
        doc.wf(),
        k < doc.nodes@.len(),
        has_doi == desc_text(doc.d(), k as int, attrm("idno", "type", "DOI")) is Some,
    ensures
        ov(r) == url_of(doc.d(), k as int),
{
    let url = match find_in(doc, k, &Matcher { tag: "ptr", test: AttrTest::Has("target") }) {
        Some(j) => match doc.attr(j, "target") {
            Some(t) => {
                let s = chars_to_string(t);
                Some(clean_url(&s))
            },
            None => None,
        },
        None => None,
    };
    if has_doi {
        if let Some(u) = &url {
            let uc = str_chars(u.as_str());
            if contains_str(&uc, "://doi.org/") || contains_str(&uc, "://dx.doi.org/") {
                return None;
            }
        }
    }
    url
}

fn date_exec(doc: &XmlDoc, k: usize) -> (r: Option<String>)
    requires
        doc.wf(),
        k < doc.nodes@.len(),
    ensures
        ov(r) == date_of(doc.d(), k as int),
{
    match find_in(doc, k, &Matcher { tag: "date", test: AttrTest::Is("type", "published") }) {
        Some(j) => match doc.attr(j, "when") {
            Some(w) => if w.len() > 0 {
                Some(chars_to_string(w))
            } else {
                None
            },
            None => None,
        },
        None => None,
    }
}

/// The fields of a record other than its people and coordinates.
fn biblio_fields_exec(doc: &XmlDoc, k: usize, authors: Vec<Author>, editors: Vec<Author>, coords: Option<Coords>) -> (r: Biblio)
    requires
        doc.wf(),
        k < doc.nodes@.len(),
    ensures
        r@ == biblio_fields(doc.d(), k as int, authors_view(authors@), authors_view(editors@), ocoords(coords)),
{
    let mut title = desc_text_exec(doc, k, &Matcher { tag: "title", test: AttrTest::Is("type", "main") });
    let mut book_title = desc_text_exec(doc, k, &Matcher { tag: "title", test: AttrTest::IsMissing("level", "m", "type") });
    if book_title.is_some() && title.is_none() {
        title = book_title;
        book_title = None;
    }
    let mut publisher = publisher_exec(doc, k, "publicationStmt");
    if publisher.is_none() {
        publisher = publisher_exec(doc, k, "imprint");
    }
    let institution = match find_in(doc, k, &Matcher { tag: "respStmt", test: AttrTest::Any }) {
        Some(j) => kid_text_exec(doc, j, &Matcher { tag: "orgName", test: AttrTest::Any }),
        None => None,
    };
    let (pages, first_page, last_page) = match find_in(doc, k, &Matcher { tag: "biblScope", test: AttrTest::Is("unit", "page") }) {
        Some(sc) => (pages_exec(doc, sc), attr_string(doc, sc, "from"), attr_string(doc, sc, "to")),
        None => (None, None, None),
    };
    let doi = desc_text_exec(doc, k, &Matcher { tag: "idno", test: AttrTest::Is("type", "DOI") });
    let arxiv_id = match desc_text_exec(doc, k, &Matcher { tag: "idno", test: AttrTest::Is("type", "arXiv") }) {
        Some(a) => {
            let ac = str_chars(a.as_str());
            Some(chars_to_string(&strip_prefix_chars(&ac, "arXiv:")))
        },
        None => None,
    };
    let url = url_exec(doc, k, doi.is_some());
    Biblio {
        authors,
        editors,
        id: attr_string(doc, k, "id"),
        raw_reference: desc_text_exec(doc, k, &Matcher { tag: "note", test: AttrTest::Is("type", "raw_reference") }),
        date: date_exec(doc, k),
        title,
        book_title,
        series_title: desc_text_exec(doc, k, &Matcher { tag: "title", test: AttrTest::Is("level", "s") }),
        journal: desc_text_exec(doc, k, &Matcher { tag: "title", test: AttrTest::Is("level", "j") }),
        journal_abbrev: desc_text_exec(doc, k, &Matcher { tag: "title", test: AttrTest::IsIs("level", "j", "type", "abbrev") }),
        publisher,
        institution,
        issn: desc_text_exec(doc, k, &Matcher { tag: "idno", test: AttrTest::Is("type", "ISSN") }),
        eissn: desc_text_exec(doc, k, &Matcher { tag: "idno", test: AttrTest::Is("type", "eISSN") }),
        volume: desc_text_exec(doc, k, &Matcher { tag: "biblScope", test: AttrTest::Is("unit", "volume") }),
        issue: desc_text_exec(doc, k, &Matcher { tag: "biblScope", test: AttrTest::Is("unit", "issue") }),
        pages,
        first_page,
        last_page,
        note: desc_text_exec(doc, k, &Matcher { tag: "note", test: AttrTest::Missing("type") }),
        doi,
        pmid: desc_text_exec(doc, k, &Matcher { tag: "idno", test: AttrTest::Is("type", "PMID") }),
        pmcid: desc_text_exec(doc, k, &Matcher { tag: "idno", test: AttrTest::Is("type", "PMCID") }),
        arxiv_id,
        pii: desc_text_exec(doc, k, &Matcher { tag: "idno", test: AttrTest::Is("type", "PII") }),
        ark: desc_text_exec(doc, k, &Matcher { tag: "idno", test: AttrTest::Is("type", "ark") }),
        istex_id: desc_text_exec(doc, k, &Matcher { tag: "idno", test: AttrTest::Is("type", "istexId") }),
        url,
        coords,
    }
}

/// A `<biblStruct>` (or a `<teiHeader>`) as a bibliographic record.
pub fn parse_biblio(doc: &XmlDoc, k: usize) -> (r: Result<Biblio, GrobidError>)
    requires
        doc.wf(),
        k < doc.nodes@.len(),
    ensures
        result_view(r, |b: Biblio| b@) == biblio_of(doc.d(), k as int),
{
    let author_els = doc.find_all(k, &Matcher { tag: "author", test: AttrTest::Any });
    proof {
        lemma_find_all_valid(doc, k as int, tagm("author"), author_els@);
    }
    let authors = match parse_authors(doc, &author_els) {
        Ok(a) => a,
        Err(e) => return Err(e),
    };
    let mut editors: Vec<Author> = Vec::new();
    let editor_els = doc.find_all(k, &Matcher { tag: "editor", test: AttrTest::Any });
    proof {
        lemma_find_all_valid(doc, k as int, tagm("editor"), editor_els@);
    }
    match parse_editors(doc, &editor_els, &mut editors) {
        Ok(_) => {},
        Err(e) => return Err(e),
    }
    let ghost e1 = authors_view(editors@);
    assert(editors@.len() >= 0);
    assert(authors_view(editors@).skip(0) =~= e1);
    let contrib_els = doc.find_all(k, &Matcher { tag: "contributor", test: AttrTest::Is("role", "editor") });
    proof {
        lemma_find_all_valid(doc, k as int, attrm("contributor", "role", "editor"), contrib_els@);
    }
    let n1 = editors.len();
    match parse_editors(doc, &contrib_els, &mut editors) {
        Ok(_) => {},
        Err(e) => return Err(e),
    }
    proof {
        let all = authors_view(editors@);
        assert(all =~= all.take(n1 as int) + all.skip(n1 as int));
    }
    let coords = match coords_exec(doc, k) {
        Ok(c) => c,
        Err(e) => return Err(e),
    };
    Ok(biblio_fields_exec(doc, k, authors, editors, coords))
}

// ---------------------------------------------------------------------------
// Sections and their content
// ---------------------------------------------------------------------------

/// The kind of a reference marker with the given `@type`.
pub open spec fn ref_kind_of(t: Option<Seq<char>>) -> RefKindV {
    match t {
        Some(s) => if s == "bibr"@ {
            RefKindV::Biblio
        } else if s == "figure"@ {
            RefKindV::Figure
        } else if s == "table"@ {
            RefKindV::Table
        } else if s == "formula"@ {
            RefKindV::Formula
        } else {
            RefKindV::Other(s)
        },
        None => RefKindV::Other(seq![]),
    }
}

impl RefKind {
    /// Map a TEI `ref/@type` value onto a [`RefKind`]: `bibr`, `figure`,
    /// `table` and `formula` have kinds of their own; any other value,
    /// or none (as the empty text), is kept as [`RefKind::Other`].
    pub fn from_tei(value: Option<&str>) -> (r: RefKind)
        ensures
            r@ == ref_kind_of(match value {
                Some(s) => Some(s@),
                None => None,
            }),
    {
        match value {
            Some(s) => {
                let c = str_chars(s);
                if eq_str(&c, "bibr") {
                    RefKind::Biblio
                } else if eq_str(&c, "figure") {
                    RefKind::Figure
                } else if eq_str(&c, "table") {
                    RefKind::Table
                } else if eq_str(&c, "formula") {
                    RefKind::Formula
                } else {
                    RefKind::Other(chars_to_string(&c))
                }
            },
            None => RefKind::Other(String::new()),
        }
    }
}

/// A sentence (`<s>` element).
pub open spec fn sentence_of(d: Seq<RawNodeV>, j: int) -> Result<SentenceV, ErrorV> {
    match coords_of(d, j) {
        Err(e) => Err(e),
        Ok(c) => Ok(SentenceV { text: text_of(d, j), coords: c }),
    }
}

/// The sentences `els`, in order; the first error stops.
pub open spec fn sentences_of(d: Seq<RawNodeV>, els: Seq<int>) -> Result<Seq<SentenceV>, ErrorV>
    decreases els.len(),
{
    if els.len() == 0 {
        Ok(seq![])
    } else {
        match sentences_of(d, els.drop_last()) {
            Err(e) => Err(e),
            Ok(v) => match sentence_of(d, els.last()) {
                Err(e) => Err(e),
                Ok(x) => Ok(v.push(x)),
            },
        }
    }
}

/// A reference marker (`<ref>` element).
pub open spec fn marker_of(d: Seq<RawNodeV>, r: int) -> MarkerRefV {
    MarkerRefV { kind: ref_kind_of(attr_of(d, r, "type"@)), target: attr_of(d, r, "target"@), label: text_of(d, r) }
}

/// A paragraph (`<p>` element): its `<s>` children as sentences, all
/// `<ref>` elements below it as markers, its text and its coordinates.
pub open spec fn paragraph_of(d: Seq<RawNodeV>, k: int) -> Result<ParagraphV, ErrorV> {
    match sentences_of(d, all_matches(d, children(d, k), tagm("s"))) {
        Err(e) => Err(e),
        Ok(ss) => match coords_of(d, k) {
            Err(e) => Err(e),
            Ok(c) => Ok(
                ParagraphV {
                    id: attr_of(d, k, "id"@),
                    text: text_of(d, k),
                    sentences: ss,
                    markers: all_matches(d, subtree(d, k), tagm("ref")).map_values(|r: int| marker_of(d, r)),
                    coords: c,
                },
            ),
        },
    }
}

/// A figure or table (`<figure>` element).
pub open spec fn figure_of(d: Seq<RawNodeV>, k: int) -> Result<FigureV, ErrorV> {
    match coords_of(d, k) {
        Err(e) => Err(e),
        Ok(c) => Ok(
            FigureV {
                id: attr_of(d, k, "id"@),
                figure_type: attr_of(d, k, "type"@),
                head: kid_text(d, k, tagm("head")),
                label: kid_text(d, k, tagm("label")),
                caption: kid_text(d, k, tagm("figDesc")),
                coords: c,
            },
        ),
    }
}

/// A formula (`<formula>` element).
pub open spec fn formula_of(d: Seq<RawNodeV>, k: int) -> Result<FormulaV, ErrorV> {
    match coords_of(d, k) {
        Err(e) => Err(e),
        Ok(c) => Ok(FormulaV { id: attr_of(d, k, "id"@), text: text_of(d, k), coords: c }),
    }
}

/// A footnote (`<note>` element).
pub open spec fn note_of(d: Seq<RawNodeV>, k: int) -> Result<NoteV, ErrorV> {
    match coords_of(d, k) {
        Err(e) => Err(e),
        Ok(c) => Ok(NoteV { place: attr_of(d, k, "place"@), text: text_of(d, k), coords: c }),
    }
}

/// A list (`<list>` element): the texts of its `<item>` children.
pub open spec fn list_of(d: Seq<RawNodeV>, k: int) -> ListV {
    ListV {
        list_type: attr_of(d, k, "type"@),
        items: all_matches(d, children(d, k), tagm("item")).map_values(|j: int| text_of(d, j)),
    }
}

/// A section (`<div>` element): its type, the text and number (`@n`) of
/// its first `<head>` child, its content blocks, its id and its
/// coordinates. Errors in its coordinates come before errors in its
/// content.
pub open spec fn div_of(d: Seq<RawNodeV>, k: int) -> Result<DivV, ErrorV>
    decreases d.len() - k, 1int, 0int,
{
    if 0 <= k < d.len() {
        match coords_of(d, k) {
            Err(e) => Err(e),
            Ok(c) => match blocks_from(d, k, children(d, k)) {
                Err(e) => Err(e),
                Ok(bs) => Ok(
                    DivV {
                        div_type: attr_of(d, k, "type"@),
                        head: match first_kid(d, k, tagm("head")) {
                            Some(h) => nonempty_text(d, h),
                            None => None,
                        },
                        number: match first_kid(d, k, tagm("head")) {
                            Some(h) => attr_of(d, h, "n"@),
                            None => None,
                        },
                        blocks: bs,
                        id: attr_of(d, k, "id"@),
                        coords: c,
                    },
                ),
            },
        }
    } else {
        Err(ErrorV::Internal(seq![]))
    }
}

/// The content blocks of section `k` from its children `cs`, in document
/// order: `<p>`, `<figure>`, `<formula>`, `<note>`, `<list>` and nested
/// `<div>` children; other children are skipped.
pub open spec fn blocks_from(d: Seq<RawNodeV>, k: int, cs: Seq<int>) -> Result<Seq<BlockV>, ErrorV>
    decreases d.len() - k, 0int, cs.len(),
{
    if cs.len() == 0 {
        Ok(seq![])
    } else {
        match blocks_from(d, k, cs.drop_last()) {
            Err(e) => Err(e),
            Ok(bs) => {
                let j = cs.last();
                if !(k < j < d.len()) {
                    Ok(bs)
                } else if has_tag(d, j, "p"@) {
                    match paragraph_of(d, j) {
                        Err(e) => Err(e),
                        Ok(p) => Ok(bs.push(BlockV::Paragraph(p))),
                    }
                } else if has_tag(d, j, "figure"@) {
                    match figure_of(d, j) {
                        Err(e) => Err(e),
                        Ok(f) => Ok(bs.push(BlockV::Figure(f))),
                    }
                } else if has_tag(d, j, "formula"@) {
                    match formula_of(d, j) {
                        Err(e) => Err(e),
                        Ok(f) => Ok(bs.push(BlockV::Formula(f))),
                    }
                } else if has_tag(d, j, "note"@) {
                    match note_of(d, j) {
                        Err(e) => Err(e),
                        Ok(n) => Ok(bs.push(BlockV::Note(n))),
                    }
                } else if has_tag(d, j, "list"@) {
                    Ok(bs.push(BlockV::List(list_of(d, j))))
                } else if has_tag(d, j, "div"@) {
                    match div_of(d, j) {
                        Err(e) => Err(e),
                        Ok(x) => Ok(bs.push(BlockV::Div(x))),
                    }
                } else {
                    Ok(bs)
                }
            },
        }
    }
}

proof fn lemma_sentences_of_err(d: Seq<RawNodeV>, s: Seq<int>, i: int)
    requires
        0 <= i <= s.len(),
        sentences_of(d, s.take(i)) is Err,
    ensures
        sentences_of(d, s) == sentences_of(d, s.take(i)),
    decreases s.len() - i,
{
    if i < s.len() {
        assert(s.take(i + 1).drop_last() =~= s.take(i));
        lemma_sentences_of_err(d, s, i + 1);
    } else {
        assert(s.take(i) =~= s);
    }
}

proof fn lemma_blocks_from_err(d: Seq<RawNodeV>, k: int, s: Seq<int>, i: int)
    requires
        0 <= i <= s.len(),
        blocks_from(d, k, s.take(i)) is Err,
    ensures
        blocks_from(d, k, s) == blocks_from(d, k, s.take(i)),
    decreases s.len() - i,
{
    if i < s.len() {
        assert(s.take(i + 1).drop_last() =~= s.take(i));
        lemma_blocks_from_err(d, k, s, i + 1);
    } else {
        assert(s.take(i) =~= s);
    }
}

/// A paragraph.
pub fn parse_paragraph(doc: &XmlDoc, k: usize) -> (r: Result<Paragraph, GrobidError>)
    requires
        doc.wf(),
        k < doc.nodes@.len(),
    ensures
        result_view(r, |p: Paragraph| p@) == paragraph_of(doc.d(), k as int),
{
    let ghost d = doc.d();
    let sel = doc.children_matching(k, &Matcher { tag: "s", test: AttrTest::Any });
    let ghost s = as_ints(sel@);
    let mut sentences: Vec<Sentence> = Vec::new();
    assert(s.take(0) =~= seq![]);
    assert(sentences@.map_values(|x: Sentence| x@) =~= seq![]);
    for i in 0..sel.len()
        invariant
            doc.wf(),
            d == doc.d(),
            s == as_ints(sel@),
            s == all_matches(d, children(d, k as int), tagm("s")),
            forall|j: int| 0 <= j < sel@.len() ==> is_child(d, #[trigger] sel@[j] as int, k as int),
            sentences_of(d, s.take(i as int)) == Ok::<Seq<SentenceV>, ErrorV>(sentences@.map_values(|x: Sentence| x@)),
    {
        let j = sel[i];
        assert(s.take(i + 1).drop_last() =~= s.take(i as int));
        assert(s.take(i + 1).last() == j as int);
        assert(is_child(d, j as int, k as int));
        let c = match coords_exec(doc, j) {
            Ok(c) => c,
            Err(e) => {
                proof {
                    lemma_sentences_of_err(d, s, i + 1);
                }
                return Err(e);
            },
        };
        let x = Sentence { text: chars_to_string(&doc.text_of(j)), coords: c };
        let ghost before = sentences@.map_values(|x: Sentence| x@);
        sentences.push(x);
        assert(sentences@.map_values(|x: Sentence| x@) =~= before.push(x@));
    }
    assert(s.take(s.len() as int) =~= s);
    let rel = doc.find_all(k, &Matcher { tag: "ref", test: AttrTest::Any });
    proof {
        lemma_find_all_valid(doc, k as int, tagm("ref"), rel@);
    }
    let ghost rs = as_ints(rel@);
    let mut markers: Vec<MarkerRef> = Vec::new();
    for i in 0..rel.len()
        invariant
            doc.wf(),
            d == doc.d(),
            rs == as_ints(rel@),
            valid_ids(doc, rel@),
            markers@.map_values(|m: MarkerRef| m@) == rs.take(i as int).map_values(|r: int| marker_of(d, r)),
    {
        let j = rel[i];
        let kind_attr = attr_string(doc, j, "type");
        let m = MarkerRef {
            kind: RefKind::from_tei(opt_str(&kind_attr)),
            target: attr_string(doc, j, "target"),
            label: chars_to_string(&doc.text_of(j)),
        };
        assert(m@ == marker_of(d, j as int));
        let ghost before = markers@.map_values(|m: MarkerRef| m@);
        markers.push(m);
        assert(rs[i as int] == j as int);
        assert(rs.take(i + 1) =~= rs.take(i as int).push(j as int));
        assert(rs.take(i + 1).map_values(|r: int| marker_of(d, r)) =~= rs.take(i as int).map_values(|r: int| marker_of(d, r)).push(marker_of(d, j as int)));
        assert(markers@.map_values(|m: MarkerRef| m@) =~= before.push(m@));
    }
    assert(rs.take(rs.len() as int) =~= rs);
    let coords = match coords_exec(doc, k) {
        Ok(c) => c,
        Err(e) => return Err(e),
    };
    Ok(
        Paragraph {
            id: attr_string(doc, k, "id"),
            text: chars_to_string(&doc.text_of(k)),
            sentences,
            markers,
            coords,
        },
    )
}

/// A figure or table.
pub fn parse_figure(doc: &XmlDoc, k: usize) -> (r: Result<Figure, GrobidError>)
    requires
        doc.wf(),
        k < doc.nodes@.len(),
    ensures
        result_view(r, |f: Figure| f@) == figure_of(doc.d(), k as int),
{
    let coords = match coords_exec(doc, k) {
        Ok(c) => c,
        Err(e) => return Err(e),
    };
    Ok(
        Figure {
            id: attr_string(doc, k, "id"),
            figure_type: attr_string(doc, k, "type"),
            head: kid_text_exec(doc, k, &Matcher { tag: "head", test: AttrTest::Any }),
            label: kid_text_exec(doc, k, &Matcher { tag: "label", test: AttrTest::Any }),
            caption: kid_text_exec(doc, k, &Matcher { tag: "figDesc", test: AttrTest::Any }),
            coords,
        },
    )
}

/// A formula.
pub fn parse_formula(doc: &XmlDoc, k: usize) -> (r: Result<Formula, GrobidError>)
    requires
        doc.wf(),
        k < doc.nodes@.len(),
    ensures
        result_view(r, |f: Formula| f@) == formula_of(doc.d(), k as int),
{
    let coords = match coords_exec(doc, k) {
        Ok(c) => c,
        Err(e) => return Err(e),
    };
    Ok(Formula { id: attr_string(doc, k, "id"), text: chars_to_string(&doc.text_of(k)), coords })
}

/// A footnote.
pub fn parse_note(doc: &XmlDoc, k: usize) -> (r: Result<Note, GrobidError>)
    requires
        doc.wf(),
        k < doc.nodes@.len(),
    ensures
        result_view(r, |n: Note| n@) == note_of(doc.d(), k as int),
{
    let coords = match coords_exec(doc, k) {
        Ok(c) => c,
        Err(e) => return Err(e),
    };
    Ok(Note { place: attr_string(doc, k, "place"), text: chars_to_string(&doc.text_of(k)), coords })
}

/// A list.
pub fn parse_list(doc: &XmlDoc, k: usize) -> (r: List)
    requires
        doc.wf(),
        k < doc.nodes@.len(),
    ensures
        r@ == list_of(doc.d(), k as int),
{
    let ghost d = doc.d();
    let sel = doc.children_matching(k, &Matcher { tag: "item", test: AttrTest::Any });
    let ghost s = as_ints(sel@);
    let mut items: Vec<String> = Vec::new();
    for i in 0..sel.len()
        invariant
            doc.wf(),
            d == doc.d(),
            s == as_ints(sel@),
            forall|j: int| 0 <= j < sel@.len() ==> is_child(d, #[trigger] sel@[j] as int, k as int),
            strings_view(items@) == s.take(i as int).map_values(|j: int| text_of(d, j)),
    {
        let j = sel[i];
        assert(is_child(d, j as int, k as int));
        let ghost before = strings_view(items@);
        let item = chars_to_string(&doc.text_of(j));
        items.push(item);
        assert(s[i as int] == j as int);
        assert(s.take(i + 1) =~= s.take(i as int).push(j as int));
        assert(s.take(i + 1).map_values(|j: int| text_of(d, j)) =~= s.take(i as int).map_values(|j: int| text_of(d, j)).push(text_of(d, j as int)));
        assert(strings_view(items@) =~= before.push(item@));
    }
    assert(s.take(s.len() as int) =~= s);
    List { list_type: attr_string(doc, k, "type"), items }
}

/// A section and its nested content.
pub fn parse_div(doc: &XmlDoc, k: usize) -> (r: Result<Div, GrobidError>)
    requires
        doc.wf(),
        k < doc.nodes@.len(),
    ensures
        result_view(r, |x: Div| x@) == div_of(doc.d(), k as int),
    decreases doc.nodes@.len() - k,
{
    let ghost d = doc.d();
    let ghost cs = children(d, k as int);
    proof {
        lemma_children_bounds(d, k as int);
    }
    let head = kid_in(doc, k, &Matcher { tag: "head", test: AttrTest::Any });
    let coords = match coords_exec(doc, k) {
        Ok(c) => c,
        Err(e) => return Err(e),
    };
    let mut div = Div {
        div_type: attr_string(doc, k, "type"),
        head: match head {
            Some(h) => opt_string(doc.nonempty_text(h)),
            None => None,
        },
        number: match head {
            Some(h) => attr_string(doc, h, "n"),
            None => None,
        },
        blocks: Vec::new(),
        id: attr_string(doc, k, "id"),
        coords,
    };
    let kids = &doc.kids[k];
    assert(cs.take(0) =~= seq![]);
    assert(blocks_view(div.blocks@) =~= seq![]);
    for t in 0..kids.len()
        invariant
            doc.wf(),
            k < doc.nodes@.len(),
            d == doc.d(),
            cs == children(d, k as int),
            as_ints(kids@) == cs,
            forall|i: int| 0 <= i < cs.len() ==> is_child(d, #[trigger] cs[i], k as int),
            blocks_from(d, k as int, cs.take(t as int)) == Ok::<Seq<BlockV>, ErrorV>(blocks_view(div.blocks@)),
            ov(div.div_type) == attr_of(d, k as int, "type"@),
            ov(div.head) == (match first_kid(d, k as int, tagm("head")) {
                Some(h) => nonempty_text(d, h),
                None => None,
            }),
            ov(div.number) == (match first_kid(d, k as int, tagm("head")) {
                Some(h) => attr_of(d, h, "n"@),
                None => None,
            }),
            ov(div.id) == attr_of(d, k as int, "id"@),
            coords_of(d, k as int) == Ok::<Option<Seq<BoundingBoxV>>, ErrorV>(ocoords(div.coords)),
    {
        let c = kids[t];
        assert(cs[t as int] == c as int);
        assert(cs.take(t + 1).drop_last() =~= cs.take(t as int));
        assert(cs.take(t + 1).last() == c as int);
        assert(is_child(d, c as int, k as int));
        let ghost before = blocks_view(div.blocks@);
        let block = if doc.is_tag(c, "p") {
            match parse_paragraph(doc, c) {
                Ok(p) => Some(Block::Paragraph(p)),
                Err(e) => {
                    proof {
                        lemma_blocks_from_err(d, k as int, cs, t + 1);
                    }
                    return Err(e);
                },
            }
        } else if doc.is_tag(c, "figure") {
            match parse_figure(doc, c) {
                Ok(f) => Some(Block::Figure(f)),
                Err(e) => {
                    proof {
                        lemma_blocks_from_err(d, k as int, cs, t + 1);
                    }
                    return Err(e);
                },
            }
        } else if doc.is_tag(c, "formula") {
            match parse_formula(doc, c) {
                Ok(f) => Some(Block::Formula(f)),
                Err(e) => {
                    proof {
                        lemma_blocks_from_err(d, k as int, cs, t + 1);
                    }
                    return Err(e);
                },
            }
        } else if doc.is_tag(c, "note") {
            match parse_note(doc, c) {
                Ok(n) => Some(Block::Note(n)),
                Err(e) => {
                    proof {
                        lemma_blocks_from_err(d, k as int, cs, t + 1);
                    }
                    return Err(e);
                },
            }
        } else if doc.is_tag(c, "list") {
            Some(Block::List(parse_list(doc, c)))
        } else if doc.is_tag(c, "div") {
            match parse_div(doc, c) {
                Ok(x) => Some(Block::Div(Box::new(x))),
                Err(e) => {
                    proof {
                        lemma_blocks_from_err(d, k as int, cs, t + 1);
                    }
                    return Err(e);
                },
            }
        } else {
            None
        };
        let ghost before_blocks = div.blocks@;
        match block {
            Some(b) => {
                div.blocks.push(b);
                assert(div.blocks@.drop_last() =~= before_blocks);
                assert(blocks_view(div.blocks@) == before.push(block_view(b)));
            },
            None => {},
        }
    }
    assert(cs.take(cs.len() as int) =~= cs);
    Ok(div)
}

// ---------------------------------------------------------------------------
// References, back matter and documents
// ---------------------------------------------------------------------------

/// A `<biblStruct>` element as the reference at position `i` of its list.
pub open spec fn citation_of(d: Seq<RawNodeV>, k: int, i: int) -> Result<CitationV, ErrorV> {
    match biblio_of(d, k) {
        Err(e) => Err(e),
        Ok(b) => Ok(CitationV { index: i as usize, biblio: b }),
    }
}

/// The `<biblStruct>` elements `els` as references numbered from `base`:
/// the reference at position `i` of `els` gets index `base + i`; the
/// first error stops.
pub open spec fn citations_of(d: Seq<RawNodeV>, els: Seq<int>, base: int) -> Result<Seq<CitationV>, ErrorV>
    decreases els.len(),
{
    if els.len() == 0 {
        Ok(seq![])
    } else {
        match citations_of(d, els.drop_last(), base) {
            Err(e) => Err(e),
            Ok(v) => match citation_of(d, els.last(), base + els.len() - 1) {
                Err(e) => Err(e),
                Ok(c) => Ok(v.push(c)),
            },
        }
    }
}

/// The notes `els`, in order; the first error stops.
pub open spec fn notes_of(d: Seq<RawNodeV>, els: Seq<int>) -> Result<Seq<NoteV>, ErrorV>
    decreases els.len(),
{
    if els.len() == 0 {
        Ok(seq![])
    } else {
        match notes_of(d, els.drop_last()) {
            Err(e) => Err(e),
            Ok(v) => match note_of(d, els.last()) {
                Err(e) => Err(e),
                Ok(x) => Ok(v.push(x)),
            },
        }
    }
}

/// The sections `els`, in order; the first error stops.
pub open spec fn divs_of(d: Seq<RawNodeV>, els: Seq<int>) -> Result<Seq<DivV>, ErrorV>
    decreases els.len(),
{
    if els.len() == 0 {
        Ok(seq![])
    } else {
        match divs_of(d, els.drop_last()) {
            Err(e) => Err(e),
            Ok(v) => match div_of(d, els.last()) {
                Err(e) => Err(e),
                Ok(x) => Ok(v.push(x)),
            },
        }
    }
}

/// What the back matter holds: the texts of the acknowledgement and annex
/// sections and the references.
pub ghost struct BackV {
    pub acks: Seq<Seq<char>>,
    pub annexes: Seq<Seq<char>>,
    pub citations: Seq<CitationV>,
}

/// The back matter from the `<div>` children `divs` of `<back>`: the
/// non-empty texts of `acknowledgement` and `annex` sections, and the
/// references of every `references` section, numbered by their position
/// among all of them.
pub open spec fn back_from(d: Seq<RawNodeV>, divs: Seq<int>) -> Result<BackV, ErrorV>
    decreases divs.len(),
{
    if divs.len() == 0 {
        Ok(BackV { acks: seq![], annexes: seq![], citations: seq![] })
    } else {
        match back_from(d, divs.drop_last()) {
            Err(e) => Err(e),
            Ok(b) => back_step(d, b, divs.last()),
        }
    }
}

/// What the section `j` of the back matter adds to `b`.
#[verifier::opaque]
pub open spec fn back_step(d: Seq<RawNodeV>, b: BackV, j: int) -> Result<BackV, ErrorV> {
    match attr_of(d, j, "type"@) {
        Some(t) => if t == "acknowledgement"@ {
            Ok(BackV { acks: b.acks + opt_seq(nonempty_text(d, j)), ..b })
        } else if t == "annex"@ {
            Ok(BackV { annexes: b.annexes + opt_seq(nonempty_text(d, j)), ..b })
        } else if t == "references"@ {
            match citations_of(d, all_matches(d, subtree(d, j), tagm("biblStruct")), b.citations.len() as int) {
                Err(e) => Err(e),
                Ok(cs) => Ok(BackV { citations: b.citations + cs, ..b }),
            }
        } else {
            Ok(b)
        },
        None => Ok(b),
    }
}

/// Texts joined with single spaces, or `None` when there are none.
pub open spec fn joined(parts: Seq<Seq<char>>) -> Option<Seq<char>> {
    if parts.len() > 0 {
        Some(join(parts, seq![' ']))
    } else {
        None
    }
}

/// A `<surface>` element: its page number (`@n`, 0 when absent or not a
/// number) and its corner attributes.
pub open spec fn surface_of(d: Seq<RawNodeV>, j: int) -> SurfaceV {
    SurfaceV {
        page: match attr_of(d, j, "n"@) {
            Some(v) => match u32_value(v) {
                Some(p) => p,
                None => 0,
            },
            None => 0,
        },
        ulx: attr_of(d, j, "ulx"@),
        uly: attr_of(d, j, "uly"@),
        lrx: attr_of(d, j, "lrx"@),
        lry: attr_of(d, j, "lry"@),
    }
}

/// The pages of the `<facsimile>` child of the root.
pub open spec fn facsimile_of(d: Seq<RawNodeV>, r: int) -> Seq<SurfaceV> {
    match first_kid(d, r, tagm("facsimile")) {
        Some(f) => all_matches(d, children(d, f), tagm("surface")).map_values(|j: int| surface_of(d, j)),
        None => seq![],
    }
}

/// The `<biblStruct>` elements below the root that are not inside the
/// `<teiHeader>`.
pub open spec fn loose_citations(d: Seq<RawNodeV>, r: int) -> Seq<int> {
    all_matches(d, subtree(d, r), tagm("biblStruct")).filter(|j: int| !has_ancestor_tag(d, j, "teiHeader"@))
}

/// The trimmed value of an attribute, when it is not empty.
pub open spec fn nonempty_attr(d: Seq<RawNodeV>, k: int, name: Seq<char>) -> Option<Seq<char>> {
    match attr_of(d, k, name) {
        Some(v) => if trim(v).len() > 0 {
            Some(trim(v))
        } else {
            None
        },
        None => None,
    }
}

/// The footnotes and sections directly under the first `<body>`.
pub open spec fn body_of(d: Seq<RawNodeV>, r: int) -> Result<(Seq<NoteV>, Seq<DivV>), ErrorV> {
    match first_desc(d, r, tagm("body")) {
        None => Ok((seq![], seq![])),
        Some(b) => match notes_of(d, all_matches(d, children(d, b), tagm("note"))) {
            Err(e) => Err(e),
            Ok(notes) => match divs_of(d, all_matches(d, children(d, b), tagm("div"))) {
                Err(e) => Err(e),
                Ok(divs) => Ok((notes, divs)),
            },
        },
    }
}

/// The back matter of the first `<back>`.
pub open spec fn back_of(d: Seq<RawNodeV>, r: int) -> Result<BackV, ErrorV> {
    match first_desc(d, r, tagm("back")) {
        None => Ok(BackV { acks: seq![], annexes: seq![], citations: seq![] }),
        Some(b) => back_from(d, all_matches(d, children(d, b), tagm("div"))),
    }
}

/// A full GROBID TEI document. The root must be `<TEI>` with a
/// `<teiHeader>` that holds an `<application>`; the header record comes
/// from the `<teiHeader>`, the body from the first `<body>`, the back
/// matter from the first `<back>`. The references are those of the
/// `references` sections, or, when there are none, every `<biblStruct>`
/// outside the `<teiHeader>`. Errors come in the order header, body notes,
/// body sections, back matter, references.
pub open spec fn document_of(d: Seq<RawNodeV>) -> Result<DocumentV, ErrorV> {
    match root_element(d) {
        None => Err(ErrorV::InvalidDocument(InvalidDocument::NotTei)),
        Some(r) => if !has_tag(d, r, "TEI"@) {
            Err(ErrorV::InvalidDocument(InvalidDocument::NotTei))
        } else {
            match first_desc(d, r, tagm("teiHeader")) {
                None => Err(ErrorV::InvalidDocument(InvalidDocument::MissingTeiHeader)),
                Some(h) => match first_desc(d, h, tagm("application")) {
                    None => Err(ErrorV::InvalidDocument(InvalidDocument::MissingApplication)),
                    Some(app) => match biblio_of(d, h) {
                        Err(e) => Err(e),
                        Ok(header) => match body_of(d, r) {
                            Err(e) => Err(e),
                            Ok(body) => match back_of(d, r) {
                                Err(e) => Err(e),
                                Ok(back) => match (if back.citations.len() == 0 {
                                    citations_of(d, loose_citations(d, r), 0)
                                } else {
                                    Ok(back.citations)
                                }) {
                                    Err(e) => Err(e),
                                    Ok(cits) => Ok(
                                        DocumentV {
                                            grobid_version: nonempty_attr(d, app, "version"@),
                                            grobid_timestamp: nonempty_attr(d, app, "when"@),
                                            pdf_md5: desc_text(d, h, attrm("idno", "type", "MD5")),
                                            language: match first_desc(d, r, tagm("text")) {
                                                Some(t) => attr_of(d, t, "lang"@),
                                                None => None,
                                            },
                                            header: header,
                                            abstract_text: desc_text(d, h, tagm("abstract")),
                                            body: body.1,
                                            body_notes: body.0,
                                            acknowledgements: joined(back.acks),
                                            annexes: joined(back.annexes),
                                            citations: cits,
                                            facsimile: facsimile_of(d, r),
                                        },
                                    ),
                                },
                            },
                        },
                    },
                },
            }
        },
    }
}

/// A list of references: a bare `<biblStruct>` root is a list of one;
/// otherwise all `<biblStruct>` elements of the document, in document
/// order.
pub open spec fn citation_list_of(d: Seq<RawNodeV>) -> Result<Seq<CitationV>, ErrorV> {
    match root_element(d) {
        None => Ok(seq![]),
        Some(r) => if has_tag(d, r, "biblStruct"@) {
            match citation_of(d, r, 0) {
                Err(e) => Err(e),
                Ok(c) => Ok(seq![c]),
            }
        } else {
            citations_of(d, all_matches(d, subtree(d, r), tagm("biblStruct")), 0)
        },
    }
}

/// A single reference: the first of the list, unless the list is empty or
/// its first record is empty.
pub open spec fn citation_opt_of(d: Seq<RawNodeV>) -> Result<Option<CitationV>, ErrorV> {
    match citation_list_of(d) {
        Err(e) => Err(e),
        Ok(l) => Ok(
            if l.len() > 0 && !biblio_empty(l[0].biblio) {
                Some(l[0])
            } else {
                None
            },
        ),
    }
}

proof fn lemma_citations_of_err(d: Seq<RawNodeV>, s: Seq<int>, i: int, base: int)
    requires
        0 <= i <= s.len(),
        citations_of(d, s.take(i), base) is Err,
    ensures
        citations_of(d, s, base) == citations_of(d, s.take(i), base),
    decreases s.len() - i,
{
    if i < s.len() {
        assert(s.take(i + 1).drop_last() =~= s.take(i));
        lemma_citations_of_err(d, s, i + 1, base);
    } else {
        assert(s.take(i) =~= s);
    }
}

proof fn lemma_notes_of_err(d: Seq<RawNodeV>, s: Seq<int>, i: int)
    requires
        0 <= i <= s.len(),
        notes_of(d, s.take(i)) is Err,
    ensures
        notes_of(d, s) == notes_of(d, s.take(i)),
    decreases s.len() - i,
{
    if i < s.len() {
        assert(s.take(i + 1).drop_last() =~= s.take(i));
        lemma_notes_of_err(d, s, i + 1);
    } else {
        assert(s.take(i) =~= s);
    }
}

proof fn lemma_divs_of_err(d: Seq<RawNodeV>, s: Seq<int>, i: int)
    requires
        0 <= i <= s.len(),
        divs_of(d, s.take(i)) is Err,
    ensures
        divs_of(d, s) == divs_of(d, s.take(i)),
    decreases s.len() - i,
{
    if i < s.len() {
        assert(s.take(i + 1).drop_last() =~= s.take(i));
        lemma_divs_of_err(d, s, i + 1);
    } else {
        assert(s.take(i) =~= s);
    }
}

proof fn lemma_back_from_err(d: Seq<RawNodeV>, s: Seq<int>, i: int)
    requires
        0 <= i <= s.len(),
        back_from(d, s.take(i)) is Err,
    ensures
        back_from(d, s) == back_from(d, s.take(i)),
    decreases s.len() - i,
{
    if i < s.len() {
        assert(s.take(i + 1).drop_last() =~= s.take(i));
        lemma_back_from_err(d, s, i + 1);
    } else {
        assert(s.take(i) =~= s);
    }
}

/// The references `els`, numbered by position, appended to `out`.
fn parse_citations(doc: &XmlDoc, els: &Vec<usize>, out: &mut Vec<Citation>) -> (r: Result<(), GrobidError>)
    requires
        doc.wf(),
        valid_ids(doc, els@),
    ensures
        match r {
            Ok(_) => citations_of(doc.d(), as_ints(els@), old(out)@.len() as int) == Ok::<Seq<CitationV>, ErrorV>(
                citations_view(final(out)@).skip(old(out)@.len() as int),
            ),
            Err(e) => citations_of(doc.d(), as_ints(els@), old(out)@.len() as int) == Err::<Seq<CitationV>, ErrorV>(e@),
        },
        final(out)@.len() >= old(out)@.len(),
        citations_view(final(out)@).take(old(out)@.len() as int) == citations_view(old(out)@),
{
    let ghost d = doc.d();
    let ghost s = as_ints(els@);
    let ghost start = citations_view(out@);
    let ghost n0 = out@.len() as int;
    assert(s.take(0) =~= seq![]);
    assert(citations_view(out@).skip(n0) =~= seq![]);
    assert(citations_view(out@).take(n0) =~= start);
    for i in 0..els.len()
        invariant
            doc.wf(),
            d == doc.d(),
            s == as_ints(els@),
            valid_ids(doc, els@),
            n0 == old(out)@.len(),
            start == citations_view(old(out)@),
            out@.len() >= n0,
            citations_view(out@).take(n0) == start,
            citations_of(d, s.take(i as int), n0) == Ok::<Seq<CitationV>, ErrorV>(citations_view(out@).skip(n0)),
            out@.len() == n0 + i,
    {
        assert(s.take(i + 1).drop_last() =~= s.take(i as int));
        assert(s.take(i + 1).last() == els@[i as int] as int);
        let res = parse_biblio(doc, els[i]);
        match res {
            Ok(b) => {
                let c = Citation { index: out.len(), biblio: b };
                assert(citation_of(d, els@[i as int] as int, n0 + i) == Ok::<CitationV, ErrorV>(c@));
                let ghost before = citations_view(out@);
                out.push(c);
                assert(citations_view(out@) =~= before.push(c@));
                assert(citations_view(out@).skip(n0) =~= before.skip(n0).push(c@));
                assert(citations_view(out@).take(n0) =~= before.take(n0));
            },
            Err(e) => {
                proof {
                    lemma_citations_of_err(d, s, i + 1, n0);
                }
                return Err(e);
            },
        }
    }
    assert(s.take(s.len() as int) =~= s);
    Ok(())
}

/// The references `els`, numbered by position.
fn parse_citation_els(doc: &XmlDoc, els: &Vec<usize>) -> (r: Result<Vec<Citation>, GrobidError>)
    requires
        doc.wf(),
        valid_ids(doc, els@),
    ensures
        result_view(r, |v: Vec<Citation>| citations_view(v@)) == citations_of(doc.d(), as_ints(els@), 0),
{
    let mut out: Vec<Citation> = Vec::new();
    match parse_citations(doc, els, &mut out) {
        Ok(_) => {
            assert(citations_view(out@).skip(0) =~= citations_view(out@));
            Ok(out)
        },
        Err(e) => Err(e),
    }
}

/// The notes `els`.
fn parse_notes(doc: &XmlDoc, els: &Vec<usize>) -> (r: Result<Vec<Note>, GrobidError>)
    requires
        doc.wf(),
        valid_ids(doc, els@),
    ensures
        result_view(r, |v: Vec<Note>| notes_view(v@)) == notes_of(doc.d(), as_ints(els@)),
{
    let ghost d = doc.d();
    let ghost s = as_ints(els@);
    let mut out: Vec<Note> = Vec::new();
    assert(s.take(0) =~= seq![]);
    assert(notes_view(out@) =~= seq![]);
    for i in 0..els.len()
        invariant
            doc.wf(),
            d == doc.d(),
            s == as_ints(els@),
            valid_ids(doc, els@),
            notes_of(d, s.take(i as int)) == Ok::<Seq<NoteV>, ErrorV>(notes_view(out@)),
    {
        assert(s.take(i + 1).drop_last() =~= s.take(i as int));
        assert(s.take(i + 1).last() == els@[i as int] as int);
        let res = parse_note(doc, els[i]);
        match res {
            Ok(x) => {
                assert(note_of(d, els@[i as int] as int) == Ok::<NoteV, ErrorV>(x@));
                let ghost before = notes_view(out@);
                out.push(x);
                assert(notes_view(out@) =~= before.push(x@));
            },
            Err(e) => {
                proof {
                    lemma_notes_of_err(d, s, i + 1);
                }
                return Err(e);
            },
        }
    }
    assert(s.take(s.len() as int) =~= s);
    Ok(out)
}

/// The sections `els`.
fn parse_divs(doc: &XmlDoc, els: &Vec<usize>) -> (r: Result<Vec<Div>, GrobidError>)
    requires
        doc.wf(),
        valid_ids(doc, els@),
    ensures
        result_view(r, |v: Vec<Div>| divs_view(v@)) == divs_of(doc.d(), as_ints(els@)),
{
    let ghost d = doc.d();
    let ghost s = as_ints(els@);
    let mut out: Vec<Div> = Vec::new();
    assert(s.take(0) =~= seq![]);
    assert(divs_view(out@) =~= seq![]);
    for i in 0..els.len()
        invariant
            doc.wf(),
            d == doc.d(),
            s == as_ints(els@),
            valid_ids(doc, els@),
            divs_of(d, s.take(i as int)) == Ok::<Seq<DivV>, ErrorV>(divs_view(out@)),
    {
        assert(s.take(i + 1).drop_last() =~= s.take(i as int));
        assert(s.take(i + 1).last() == els@[i as int] as int);
        let res = parse_div(doc, els[i]);
        match res {
            Ok(x) => {
                assert(div_of(d, els@[i as int] as int) == Ok::<DivV, ErrorV>(x@));
                let ghost before = divs_view(out@);
                out.push(x);
                assert(divs_view(out@) =~= before.push(x@));
            },
            Err(e) => {
                proof {
                    lemma_divs_of_err(d, s, i + 1);
                }
                return Err(e);
            },
        }
    }
    assert(s.take(s.len() as int) =~= s);
    Ok(out)
}

/// The children of `k` that pass `m`, known to lie in the document.
fn kids_in(doc: &XmlDoc, k: usize, m: &Matcher) -> (r: Vec<usize>)
    requires
        doc.wf(),
        k < doc.nodes@.len(),
    ensures
        as_ints(r@) == all_matches(doc.d(), children(doc.d(), k as int), *m),
        valid_ids(doc, r@),
{
    let r = doc.children_matching(k, m);
    assert forall|i: int| 0 <= i < r@.len() implies (#[trigger] r@[i]) < doc.nodes@.len() by {
        assert(is_child(doc.d(), r@[i] as int, k as int));
    }
    r
}

/// What the section `j` of the back matter adds.
fn back_step_exec(
    doc: &XmlDoc,
    j: usize,
    acks: &mut Vec<Vec<char>>,
    annexes: &mut Vec<Vec<char>>,
    citations: &mut Vec<Citation>,
) -> (r: Result<(), GrobidError>)
    requires
        doc.wf(),
        j < doc.nodes@.len(),
    ensures
        match r {
            Ok(_) => back_step(
                doc.d(),
                BackV { acks: seqs(old(acks)@), annexes: seqs(old(annexes)@), citations: citations_view(old(citations)@) },
                j as int,
            ) == Ok::<BackV, ErrorV>(
                BackV { acks: seqs(final(acks)@), annexes: seqs(final(annexes)@), citations: citations_view(final(citations)@) },
            ),
            Err(e) => back_step(
                doc.d(),
                BackV { acks: seqs(old(acks)@), annexes: seqs(old(annexes)@), citations: citations_view(old(citations)@) },
                j as int,
            ) == Err::<BackV, ErrorV>(e@),
        },
{
    let ghost d = doc.d();
    reveal(back_step);
    match doc.attr(j, "type") {
        Some(t) => {
            if eq_str(t, "acknowledgement") {
                let ghost before = seqs(acks@);
                match doc.nonempty_text(j) {
                    Some(x) => {
                        acks.push(x);
                        assert(seqs(acks@) =~= before + opt_seq(nonempty_text(d, j as int)));
                    },
                    None => {
                        assert(seqs(acks@) =~= before + opt_seq(nonempty_text(d, j as int)));
                    },
                }
            } else if eq_str(t, "annex") {
                let ghost before = seqs(annexes@);
                match doc.nonempty_text(j) {
                    Some(x) => {
                        annexes.push(x);
                        assert(seqs(annexes@) =~= before + opt_seq(nonempty_text(d, j as int)));
                    },
                    None => {
                        assert(seqs(annexes@) =~= before + opt_seq(nonempty_text(d, j as int)));
                    },
                }
            } else if eq_str(t, "references") {
                let els = doc.find_all(j, &Matcher { tag: "biblStruct", test: AttrTest::Any });
                proof {
                    lemma_find_all_valid(doc, j as int, tagm("biblStruct"), els@);
                }
                let ghost n0 = citations@.len() as int;
                match parse_citations(doc, &els, citations) {
                    Ok(_) => {
                        proof {
                            let now = citations_view(citations@);
                            assert(now =~= now.take(n0) + now.skip(n0));
                        }
                    },
                    Err(e) => {
                        return Err(e);
                    },
                }
            }
        },
        None => {},
    }
    Ok(())
}

/// The back matter: acknowledgement and annex texts and references.
fn parse_back(doc: &XmlDoc, k: usize) -> (r: Result<(Vec<Vec<char>>, Vec<Vec<char>>, Vec<Citation>), GrobidError>)
    requires
        doc.wf(),
        k < doc.nodes@.len(),
    ensures
        result_view(
            r,
            |x: (Vec<Vec<char>>, Vec<Vec<char>>, Vec<Citation>)|
                BackV { acks: seqs(x.0@), annexes: seqs(x.1@), citations: citations_view(x.2@) },
        ) == back_from(doc.d(), all_matches(doc.d(), children(doc.d(), k as int), tagm("div"))),
{
    let ghost d = doc.d();
    let divs = kids_in(doc, k, &Matcher { tag: "div", test: AttrTest::Any });
    let ghost s = as_ints(divs@);
    let mut acks: Vec<Vec<char>> = Vec::new();
    let mut annexes: Vec<Vec<char>> = Vec::new();
    let mut citations: Vec<Citation> = Vec::new();
    assert(s.take(0) =~= seq![]);
    assert(seqs(acks@) =~= seq![]);
    assert(seqs(annexes@) =~= seq![]);
    assert(citations_view(citations@) =~= seq![]);
    for i in 0..divs.len()
        invariant
            doc.wf(),
            d == doc.d(),
            s == as_ints(divs@),
            s == all_matches(d, children(d, k as int), tagm("div")),
            valid_ids(doc, divs@),
            back_from(d, s.take(i as int)) == Ok::<BackV, ErrorV>(
                BackV { acks: seqs(acks@), annexes: seqs(annexes@), citations: citations_view(citations@) },
            ),
    {
        let j = divs[i];
        assert(s.take(i + 1).drop_last() =~= s.take(i as int));
        assert(s.take(i + 1).last() == j as int);
        match back_step_exec(doc, j, &mut acks, &mut annexes, &mut citations) {
            Ok(_) => {},
            Err(e) => {
                proof {
                    lemma_back_from_err(d, s, i + 1);
                }
                return Err(e);
            },
        }
    }
    assert(s.take(s.len() as int) =~= s);
    Ok((acks, annexes, citations))
}

/// Texts joined with single spaces, or `None` when there are none.
fn joined_exec(parts: &Vec<Vec<char>>) -> (r: Option<String>)
    ensures
        ov(r) == joined(seqs(parts@)),
{
    if parts.len() > 0 {
        let sep = vec![' '];
        assert(sep@ =~= seq![' ']);
        Some(chars_to_string(&join_chars(parts, &sep)))
    } else {
        None
    }
}

/// The pages of the `<facsimile>` child of the root.
fn parse_facsimile(doc: &XmlDoc, r: usize) -> (res: Vec<Surface>)
    requires
        doc.wf(),
        r < doc.nodes@.len(),
    ensures
        res@.map_values(|x: Surface| x@) == facsimile_of(doc.d(), r as int),
{
    let ghost d = doc.d();
    let mut out: Vec<Surface> = Vec::new();
    let f = match kid_in(doc, r, &Matcher { tag: "facsimile", test: AttrTest::Any }) {
        Some(f) => f,
        None => {
            assert(out@.map_values(|x: Surface| x@) =~= seq![]);
            return out;
        },
    };
    let els = kids_in(doc, f, &Matcher { tag: "surface", test: AttrTest::Any });
    let ghost s = as_ints(els@);
    for i in 0..els.len()
        invariant
            doc.wf(),
            d == doc.d(),
            s == as_ints(els@),
            valid_ids(doc, els@),
            out@.map_values(|x: Surface| x@) == s.take(i as int).map_values(|j: int| surface_of(d, j)),
    {
        let j = els[i];
        let page = match doc.attr(j, "n") {
            Some(v) => match parse_u32(v) {
                Some(p) => p,
                None => 0,
            },
            None => 0,
        };
        let x = Surface {
            page,
            ulx: attr_string(doc, j, "ulx"),
            uly: attr_string(doc, j, "uly"),
            lrx: attr_string(doc, j, "lrx"),
            lry: attr_string(doc, j, "lry"),
        };
        assert(x@ == surface_of(d, j as int));
        let ghost before = out@.map_values(|x: Surface| x@);
        out.push(x);
        assert(s.take(i + 1) =~= s.take(i as int).push(j as int));
        assert(s.take(i + 1).map_values(|j: int| surface_of(d, j)) =~= s.take(i as int).map_values(|j: int| surface_of(d, j)).push(surface_of(d, j as int)));
        assert(out@.map_values(|x: Surface| x@) =~= before.push(x@));
    }
    assert(s.take(s.len() as int) =~= s);
    out
}

/// The `<biblStruct>` elements below the root outside the `<teiHeader>`.
fn loose_citation_els(doc: &XmlDoc, r: usize) -> (res: Vec<usize>)
    requires
        doc.wf(),
        r < doc.nodes@.len(),
    ensures
        as_ints(res@) == loose_citations(doc.d(), r as int),
        valid_ids(doc, res@),
{
    let ghost d = doc.d();
    let all = doc.find_all(r, &Matcher { tag: "biblStruct", test: AttrTest::Any });
    proof {
        lemma_find_all_valid(doc, r as int, tagm("biblStruct"), all@);
    }
    let ghost s = as_ints(all@);
    let ghost pred = |j: int| !has_ancestor_tag(d, j, "teiHeader"@);
    let mut out: Vec<usize> = Vec::new();
    for i in 0..all.len()
        invariant
            doc.wf(),
            d == doc.d(),
            s == as_ints(all@),
            valid_ids(doc, all@),
            pred == (|j: int| !has_ancestor_tag(d, j, "teiHeader"@)),
            as_ints(out@) == s.take(i as int).filter(pred),
            valid_ids(doc, out@),
    {
        let j = all[i];
        assert(s.take(i + 1) =~= s.take(i as int).push(j as int));
        proof {
            s.take(i as int).lemma_filter_push(j as int, pred);
        }
        if !doc.has_ancestor_tag(j, "teiHeader") {
            out.push(j);
            assert(as_ints(out@) =~= as_ints(out@.drop_last()).push(j as int));
        }
    }
    assert(s.take(s.len() as int) =~= s);
    out
}

/// A full GROBID TEI document from an indexed node list.
fn document_from(doc: &XmlDoc) -> (r: Result<Document, GrobidError>)
    requires
        doc.wf(),
    ensures
        result_view(r, |x: Document| x@) == document_of(doc.d()),
{
    let ghost d = doc.d();
    let root = match doc.root_element() {
        Some(r) => r,
        None => return Err(GrobidError::InvalidDocument(InvalidDocument::NotTei)),
    };
    if !doc.is_tag(root, "TEI") {
        return Err(GrobidError::InvalidDocument(InvalidDocument::NotTei));
    }
    let tei_header = match find_in(doc, root, &Matcher { tag: "teiHeader", test: AttrTest::Any }) {
        Some(h) => h,
        None => return Err(GrobidError::InvalidDocument(InvalidDocument::MissingTeiHeader)),
    };
    let app = match find_in(doc, tei_header, &Matcher { tag: "application", test: AttrTest::Any }) {
        Some(a) => a,
        None => return Err(GrobidError::InvalidDocument(InvalidDocument::MissingApplication)),
    };
    let header = match parse_biblio(doc, tei_header) {
        Ok(b) => Header { biblio: b },
        Err(e) => return Err(e),
    };
    let language = match find_in(doc, root, &Matcher { tag: "text", test: AttrTest::Any }) {
        Some(t) => attr_string(doc, t, "lang"),
        None => None,
    };
    let abstract_text = desc_text_exec(doc, tei_header, &Matcher { tag: "abstract", test: AttrTest::Any });
    let facsimile = parse_facsimile(doc, root);
    let (body_notes, body) = match find_in(doc, root, &Matcher { tag: "body", test: AttrTest::Any }) {
        Some(b) => {
            let note_els = kids_in(doc, b, &Matcher { tag: "note", test: AttrTest::Any });
            let notes = match parse_notes(doc, &note_els) {
                Ok(n) => n,
                Err(e) => return Err(e),
            };
            let div_els = kids_in(doc, b, &Matcher { tag: "div", test: AttrTest::Any });
            let divs = match parse_divs(doc, &div_els) {
                Ok(v) => v,
                Err(e) => return Err(e),
            };
            (notes, divs)
        },
        None => {
            let notes: Vec<Note> = Vec::new();
            let divs: Vec<Div> = Vec::new();
            assert(notes_view(notes@) =~= seq![]);
            assert(divs_view(divs@) =~= seq![]);
            (notes, divs)
        },
    };
    let (acks, annexes, back_citations) = match find_in(doc, root, &Matcher { tag: "back", test: AttrTest::Any }) {
        Some(b) => match parse_back(doc, b) {
            Ok(x) => x,
            Err(e) => return Err(e),
        },
        None => {
            let a: Vec<Vec<char>> = Vec::new();
            let n: Vec<Vec<char>> = Vec::new();
            let c: Vec<Citation> = Vec::new();
            assert(seqs(a@) =~= seq![]);
            assert(seqs(n@) =~= seq![]);
            assert(citations_view(c@) =~= seq![]);
            (a, n, c)
        },
    };
    let citations = if back_citations.len() == 0 {
        let els = loose_citation_els(doc, root);
        match parse_citation_els(doc, &els) {
            Ok(c) => c,
            Err(e) => return Err(e),
        }
    } else {
        back_citations
    };
    Ok(
        Document {
            grobid_version: nonempty_attr_exec(doc, app, "version"),
            grobid_timestamp: nonempty_attr_exec(doc, app, "when"),
            pdf_md5: desc_text_exec(doc, tei_header, &Matcher { tag: "idno", test: AttrTest::Is("type", "MD5") }),
            language,
            header,
            abstract_text,
            body,
            body_notes,
            acknowledgements: joined_exec(&acks),
            annexes: joined_exec(&annexes),
            citations,
            facsimile,
        },
    )
}

/// The trimmed value of an attribute, when it is not empty.
fn nonempty_attr_exec(doc: &XmlDoc, k: usize, name: &str) -> (r: Option<String>)
    requires
        k < doc.nodes@.len(),
    ensures
        ov(r) == nonempty_attr(doc.d(), k as int, name@),
{
    match doc.attr(k, name) {
        Some(v) => {
            let t = trim_chars(v);
            if t.len() > 0 {
                Some(chars_to_string(&t))
            } else {
                None
            }
        },
        None => None,
    }
}

/// Parse a full GROBID TEI document, as returned by
/// `processFulltextDocument` or `processHeaderDocument`, from the nodes of
/// the XML reader.
pub fn parse_document_nodes(nodes: Vec<XmlRawNode>) -> (r: Result<Document, GrobidError>)
    ensures
        result_view(r, |x: Document| x@) == document_of(nodes_view(nodes@)),
{
    let doc = XmlDoc::new(nodes);
    document_from(&doc)
}

/// Parse a full GROBID TEI document, as returned by
/// `processFulltextDocument` or `processHeaderDocument`.
pub fn parse_document(xml: &str) -> (r: Result<Document, GrobidError>)
    ensures
        match xml_nodes(xml@) {
            None => r matches Err(e) && e@ == ErrorV::Xml,
            Some(d) => result_view(r, |x: Document| x@) == document_of(d),
        },
{
    match read_xml(xml) {
        Ok(nodes) => parse_document_nodes(nodes),
        Err(e) => Err(GrobidError::Xml(e)),
    }
}

/// A list of references from an indexed node list.
fn citation_list_from(doc: &XmlDoc) -> (r: Result<Vec<Citation>, GrobidError>)
    requires
        doc.wf(),
    ensures
        result_view(r, |v: Vec<Citation>| citations_view(v@)) == citation_list_of(doc.d()),
{
    let root = match doc.root_element() {
        Some(r) => r,
        None => {
            let v: Vec<Citation> = Vec::new();
            assert(citations_view(v@) =~= seq![]);
            return Ok(v);
        },
    };
    if doc.is_tag(root, "biblStruct") {
        match parse_biblio(doc, root) {
            Ok(b) => {
                let c = Citation { index: 0, biblio: b };
                let v = vec![c];
                assert(citations_view(v@) =~= seq![c@]);
                Ok(v)
            },
            Err(e) => Err(e),
        }
    } else {
        let els = doc.find_all(root, &Matcher { tag: "biblStruct", test: AttrTest::Any });
        proof {
            lemma_find_all_valid(doc, root as int, tagm("biblStruct"), els@);
        }
        parse_citation_els(doc, &els)
    }
}

/// Parse a list of references, as returned by `/api/processCitationList`
/// or `/api/processReferences`, from the nodes of the XML reader.
pub fn parse_citation_list_nodes(nodes: Vec<XmlRawNode>) -> (r: Result<Vec<Citation>, GrobidError>)
    ensures
        result_view(r, |v: Vec<Citation>| citations_view(v@)) == citation_list_of(nodes_view(nodes@)),
{
    let doc = XmlDoc::new(nodes);
    citation_list_from(&doc)
}

/// Parse a list of references, as returned by `/api/processCitationList`
/// or `/api/processReferences`. Handles both bare `<biblStruct>` responses
/// and full TEI documents.
pub fn parse_citation_list(xml: &str) -> (r: Result<Vec<Citation>, GrobidError>)
    ensures
        match xml_nodes(xml@) {
            None => r matches Err(e) && e@ == ErrorV::Xml,
            Some(d) => result_view(r, |v: Vec<Citation>| citations_view(v@)) == citation_list_of(d),
        },
{
    match read_xml(xml) {
        Ok(nodes) => parse_citation_list_nodes(nodes),
        Err(e) => Err(GrobidError::Xml(e)),
    }
}

/// Parse a single reference from the nodes of the XML reader.
pub fn parse_citation_nodes(nodes: Vec<XmlRawNode>) -> (r: Result<Option<Citation>, GrobidError>)
    ensures
        result_view(
            r,
            |c: Option<Citation>|
                match c {
                    Some(x) => Some(x@),
                    None => None,
                },
        ) == citation_opt_of(nodes_view(nodes@)),
{
    let list = match parse_citation_list_nodes(nodes) {
        Ok(l) => l,
        Err(e) => return Err(e),
    };
    let mut list = list;
    if list.len() == 0 {
        return Ok(None);
    }
    let first = list.swap_remove(0);
    if first.biblio.is_empty() {
        Ok(None)
    } else {
        Ok(Some(first))
    }
}

/// Parse a single reference, as returned by `/api/processCitation`.
/// Returns `None` when the response contains no usable citation: no
/// reference, or a first reference whose record is empty.
pub fn parse_citation(xml: &str) -> (r: Result<Option<Citation>, GrobidError>)
    ensures
        match xml_nodes(xml@) {
            None => r matches Err(e) && e@ == ErrorV::Xml,
            Some(d) => result_view(
                r,
                |c: Option<Citation>|
                    match c {
                        Some(x) => Some(x@),
                        None => None,
                    },
            ) == citation_opt_of(d),
        },
{
    match read_xml(xml) {
        Ok(nodes) => parse_citation_nodes(nodes),
        Err(e) => Err(GrobidError::Xml(e)),
    }
}

// ---------------------------------------------------------------------------
// Laws
// ---------------------------------------------------------------------------

/// A cleaned URL never holds a `>`: everything from the first one on is
/// cut.
pub proof fn lemma_clean_url_has_no_closing_bracket(u: Seq<char>)
    ensures
        !clean_url_spec(u).contains('>'),
{
    let t = trim(u);
    if t.len() > 0 {
        let b = strip_prefix(strip_suffix(t, ".Lastaccessed"@), seq!['<']);
        lemma_split_nonempty(b, '>');
        lemma_split_pieces_lack_separator(b, '>');
        if clean_url_spec(u).contains('>') {
            let j = choose|j: int| 0 <= j < clean_url_spec(u).len() && clean_url_spec(u)[j] == '>';
            assert(split(b, '>')[0][j] != '>');
        }
    }
}

proof fn lemma_citations_indexed(d: Seq<RawNodeV>, els: Seq<int>, base: int)
    ensures
        citations_of(d, els, base) matches Ok(l) ==> l.len() == els.len() && forall|i: int|
            0 <= i < l.len() ==> (#[trigger] l[i]).index == (base + i) as usize,
    decreases els.len(),
{
    if els.len() > 0 {
        lemma_citations_indexed(d, els.drop_last(), base);
    }
}

/// Each reference of a parsed list carries its zero-based position in
/// the list as its index.
pub proof fn lemma_citation_indices_are_positions(d: Seq<RawNodeV>)
    ensures
        citation_list_of(d) matches Ok(l) ==> forall|i: int| 0 <= i < l.len() ==> (#[trigger] l[i]).index == i as usize,
{
    match root_element(d) {
        None => {},
        Some(r) => {
            if !has_tag(d, r, "biblStruct"@) {
                lemma_citations_indexed(d, all_matches(d, subtree(d, r), tagm("biblStruct")), 0);
            }
        },
    }
}

proof fn lemma_back_indexed(d: Seq<RawNodeV>, divs: Seq<int>)
    ensures
        back_from(d, divs) matches Ok(b) ==> forall|i: int|
            0 <= i < b.citations.len() ==> (#[trigger] b.citations[i]).index == i as usize,
    decreases divs.len(),
{
    if divs.len() > 0 {
        lemma_back_indexed(d, divs.drop_last());
        if let Ok(b) = back_from(d, divs.drop_last()) {
            reveal(back_step);
            let j = divs.last();
            let base = b.citations.len() as int;
            lemma_citations_indexed(d, all_matches(d, subtree(d, j), tagm("biblStruct")), base);
            if let Ok(b2) = back_step(d, b, j) {
                assert forall|i: int| 0 <= i < b2.citations.len() implies (#[trigger] b2.citations[i]).index == i as usize by {
                    if i >= base && b2.citations != b.citations {
                        let cs = b2.citations.skip(base);
                        assert(b2.citations[i] == cs[i - base]);
                    }
                }
            }
        }
    }
}

/// Each reference of a parsed document carries its zero-based position in
/// the document's reference list as its index, also across several
/// reference sections.
pub proof fn lemma_document_citation_indices(d: Seq<RawNodeV>)
    ensures
        document_of(d) matches Ok(doc) ==> forall|i: int|
            0 <= i < doc.citations.len() ==> (#[trigger] doc.citations[i]).index == i as usize,
{
    if let Some(r) = root_element(d) {
        if let Some(b) = first_desc(d, r, tagm("back")) {
            lemma_back_indexed(d, all_matches(d, children(d, b), tagm("div")));
        }
        lemma_citations_indexed(d, loose_citations(d, r), 0);
    }
}

/// A parsed record has a book title only when it also has a title: a
/// book title alone becomes the title of the record.
pub proof fn lemma_book_title_needs_title(d: Seq<RawNodeV>, k: int)
    ensures
        biblio_of(d, k) matches Ok(b) ==> (b.book_title is Some ==> b.title is Some),
{
}

/// A parsed record with a DOI never keeps a DOI resolver URL as its URL.
pub proof fn lemma_no_doi_url_beside_doi(d: Seq<RawNodeV>, k: int)
    ensures
        biblio_of(d, k) matches Ok(b) ==> (b.doi is Some ==> !(b.url matches Some(u) && is_doi_url(u))),
{
}

/// The single reference of a reply is the first reference of the same
/// reply read as a list, and it is never an empty record.
pub proof fn lemma_citation_is_first_of_list(d: Seq<RawNodeV>)
    ensures
        citation_opt_of(d) matches Ok(Some(c)) ==> (citation_list_of(d) matches Ok(l) && l.len() > 0 && l[0] == c
            && !biblio_empty(c.biblio)),
        citation_opt_of(d) is Err <==> citation_list_of(d) is Err,
{
}

/// The abstract of a parsed document is the non-empty text of the first
/// `<abstract>` element anywhere below the `<teiHeader>` (GROBID writes it
/// inside `<profileDesc>`), and none when there is no such element.
pub proof fn lemma_abstract_found_anywhere_in_header(d: Seq<RawNodeV>)
    ensures
        document_of(d) matches Ok(doc) ==> (root_element(d) matches Some(r) && first_match(
            d,
            subtree(d, r),
            tagm("teiHeader"),
        ) matches Some(h) && doc.abstract_text == match first_match(d, subtree(d, h), tagm("abstract")) {
            Some(j) => nonempty_text(d, j),
            None => None,
        }),
{
}

proof fn lemma_citations_biblios(d: Seq<RawNodeV>, els: Seq<int>, base: int)
    ensures
        citations_of(d, els, base) matches Ok(l) ==> l.len() == els.len() && forall|i: int|
            0 <= i < l.len() ==> biblio_of(d, #[trigger] els[i]) == Ok::<BiblioV, ErrorV>(l[i].biblio),
    decreases els.len(),
{
    if els.len() > 0 {
        lemma_citations_biblios(d, els.drop_last(), base);
        if let Ok(l) = citations_of(d, els, base) {
            assert forall|i: int| 0 <= i < l.len() implies biblio_of(d, #[trigger] els[i]) == Ok::<BiblioV, ErrorV>(
                l[i].biblio,
            ) by {
                if i < els.len() - 1 {
                    assert(els[i] == els.drop_last()[i]);
                }
            }
        }
    }
}

/// A list reply whose root is not a `<biblStruct>` gives one reference
/// per `<biblStruct>` element anywhere below the root, in document order:
/// the `i`-th reference is the record of the `i`-th such element.
pub proof fn lemma_citation_list_reads_every_bibl_struct(d: Seq<RawNodeV>)
    ensures
        citation_list_of(d) matches Ok(l) ==> (root_element(d) matches Some(r) ==> (!has_tag(d, r, "biblStruct"@)
            ==> l.len() == all_matches(d, subtree(d, r), tagm("biblStruct")).len() && forall|i: int|
            0 <= i < l.len() ==> biblio_of(d, #[trigger] all_matches(d, subtree(d, r), tagm("biblStruct"))[i])
                == Ok::<BiblioV, ErrorV>(l[i].biblio))),
{
    if let Some(r) = root_element(d) {
        lemma_citations_biblios(d, all_matches(d, subtree(d, r), tagm("biblStruct")), 0);
    }
}

/// The identifiers, serial data and notes of a parsed record are the
/// non-empty texts of the first elements below the record that carry
/// them: `idno` by its type (DOI, PMID, PMCID, PII, ark, istexId, ISSN,
/// eISSN), `biblScope` by its unit (volume, issue), `title` by its level
/// (journal `j`, series `s`), and the raw reference `note`; the id is the
/// record's own `id` attribute.
pub proof fn lemma_biblio_fields_from_elements(d: Seq<RawNodeV>, k: int)
    ensures
        biblio_of(d, k) matches Ok(b) ==> b.doi == match first_match(d, subtree(d, k), attrm("idno", "type", "DOI")) {
            Some(j) => nonempty_text(d, j),
            None => None,
        },
        biblio_of(d, k) matches Ok(b) ==> b.pmid == match first_match(d, subtree(d, k), attrm("idno", "type", "PMID")) {
            Some(j) => nonempty_text(d, j),
            None => None,
        },
        biblio_of(d, k) matches Ok(b) ==> b.pmcid == match first_match(d, subtree(d, k), attrm("idno", "type", "PMCID")) {
            Some(j) => nonempty_text(d, j),
            None => None,
        },
        biblio_of(d, k) matches Ok(b) ==> b.pii == match first_match(d, subtree(d, k), attrm("idno", "type", "PII")) {
            Some(j) => nonempty_text(d, j),
            None => None,
        },
        biblio_of(d, k) matches Ok(b) ==> b.ark == match first_match(d, subtree(d, k), attrm("idno", "type", "ark")) {
            Some(j) => nonempty_text(d, j),
            None => None,
        },
        biblio_of(d, k) matches Ok(b) ==> b.istex_id == match first_match(d, subtree(d, k), attrm("idno", "type", "istexId")) {
            Some(j) => nonempty_text(d, j),
            None => None,
        },
        biblio_of(d, k) matches Ok(b) ==> b.issn == match first_match(d, subtree(d, k), attrm("idno", "type", "ISSN")) {
            Some(j) => nonempty_text(d, j),
            None => None,
        },
        biblio_of(d, k) matches Ok(b) ==> b.eissn == match first_match(d, subtree(d, k), attrm("idno", "type", "eISSN")) {
            Some(j) => nonempty_text(d, j),
            None => None,
        },
        biblio_of(d, k) matches Ok(b) ==> b.volume == match first_match(d, subtree(d, k), attrm("biblScope", "unit", "volume")) {
            Some(j) => nonempty_text(d, j),
            None => None,
        },
        biblio_of(d, k) matches Ok(b) ==> b.issue == match first_match(d, subtree(d, k), attrm("biblScope", "unit", "issue")) {
            Some(j) => nonempty_text(d, j),
            None => None,
        },
        biblio_of(d, k) matches Ok(b) ==> b.journal == match first_match(d, subtree(d, k), attrm("title", "level", "j")) {
            Some(j) => nonempty_text(d, j),
            None => None,
        },
        biblio_of(d, k) matches Ok(b) ==> b.series_title == match first_match(d, subtree(d, k), attrm("title", "level", "s")) {
            Some(j) => nonempty_text(d, j),
            None => None,
        },
        biblio_of(d, k) matches Ok(b) ==> b.raw_reference == match first_match(d, subtree(d, k), attrm("note", "type", "raw_reference")) {
            Some(j) => nonempty_text(d, j),
            None => None,
        },
        biblio_of(d, k) matches Ok(b) ==> b.id == attr_of(d, k, "id"@),
{
}

/// The metadata of a parsed document: the GROBID version and timestamp
/// are the non-empty `version` and `when` attributes of the first
/// `<application>` below the `<teiHeader>`, the MD5 is the text of the
/// first `idno[@type="MD5"]` there, and the language is the `lang`
/// attribute of the first `<text>` element.
pub proof fn lemma_document_metadata(d: Seq<RawNodeV>)
    ensures
        document_of(d) matches Ok(doc) ==> (root_element(d) matches Some(r) && first_match(
            d,
            subtree(d, r),
            tagm("teiHeader"),
        ) matches Some(h) && first_match(d, subtree(d, h), tagm("application")) matches Some(a)
            && doc.grobid_version == nonempty_attr(d, a, "version"@) && doc.grobid_timestamp == nonempty_attr(
            d,
            a,
            "when"@,
        ) && doc.pdf_md5 == match first_match(d, subtree(d, h), attrm("idno", "type", "MD5")) {
            Some(j) => nonempty_text(d, j),
            None => None,
        } && doc.language == match first_match(d, subtree(d, r), tagm("text")) {
            Some(t) => attr_of(d, t, "lang"@),
            None => None,
        }),
{
}

} // verus!
