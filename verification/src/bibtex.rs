//! BibTeX rendering of bibliographic records.
//!
//! Records become typed BibLaTeX entries of the `biblatex` crate, which
//! handles escaping, person lists and dates when an entry is written out.
//! The choices of this module (entry type, citation key, which fields an
//! entry gets and with which values) are made and proved here.

use vstd::prelude::*;
use crate::coords::digits_value;
use crate::model::{AuthorV, Author, Biblio, BiblioV, authors_view, ov};
use crate::text::{chars_to_string, join, join_chars, opt_seq, seqs, str_chars, trim, trim_chars};

verus! {

#[verifier::external_type_specification]
#[verifier::external_body]
pub struct ExEntry(biblatex::Entry);

/// The BibLaTeX entry types that records are given.
#[derive(PartialEq, Eq, Structural, Debug, Clone, Copy)]
pub enum EntryKind {
    /// A journal article (`@article`).
    Article,
    /// A chapter in a book (`@incollection`).
    InCollection,
    /// A paper in a conference series (`@inproceedings`).
    InProceedings,
    /// A report by an institution (`@techreport`).
    TechReport,
    /// A book (`@book`).
    Book,
    /// Anything else (`@misc`).
    Misc,
}

/// The entry type that a record's metadata suggests: an article when it
/// has a journal, a chapter when it has a book title, a conference paper
/// when it has a series, a report when it has an institution, a book when
/// it has a publisher, and `misc` otherwise.
pub open spec fn entry_kind_of(b: BiblioV) -> EntryKind {
    if b.journal is Some {
        EntryKind::Article
    } else if b.book_title is Some {
        EntryKind::InCollection
    } else if b.series_title is Some {
        EntryKind::InProceedings
    } else if b.institution is Some {
        EntryKind::TechReport
    } else if b.publisher is Some {
        EntryKind::Book
    } else {
        EntryKind::Misc
    }
}

/// Pick a BibLaTeX entry type based on the available metadata.
pub fn entry_type(biblio: &Biblio) -> (r: EntryKind)
    ensures
        r == entry_kind_of(biblio@),
{
    if biblio.journal.is_some() {
        EntryKind::Article
    } else if biblio.book_title.is_some() {
        EntryKind::InCollection
    } else if biblio.series_title.is_some() {
        EntryKind::InProceedings
    } else if biblio.institution.is_some() {
        EntryKind::TechReport
    } else if biblio.publisher.is_some() {
        EntryKind::Book
    } else {
        EntryKind::Misc
    }
}

pub open spec fn is_ascii_digit(c: char) -> bool {
    '0' <= c && c <= '9'
}

pub open spec fn is_ascii_alnum(c: char) -> bool {
    ('0' <= c && c <= '9') || ('a' <= c && c <= 'z') || ('A' <= c && c <= 'Z')
}

/// The longest prefix of `s` made of ASCII digits.
pub open spec fn leading_digits(s: Seq<char>) -> Seq<char>
    decreases s.len(),
{
    if s.len() > 0 && is_ascii_digit(s[0]) {
        seq![s[0]] + leading_digits(s.drop_first())
    } else {
        seq![]
    }
}

/// The publication year of a record: the leading digits of its date, at
/// most four of them, when there are any.
pub open spec fn year_of(b: BiblioV) -> Option<Seq<char>> {
    match b.date {
        Some(d) => {
            let l = leading_digits(d);
            let y = if l.len() > 4 {
                l.take(4)
            } else {
                l
            };
            if y.len() == 0 {
                None
            } else {
                Some(y)
            }
        },
        None => None,
    }
}

proof fn lemma_leading_digits_step(s: Seq<char>, i: int)
    requires
        0 <= i < s.len(),
        forall|j: int| 0 <= j < i ==> is_ascii_digit(#[trigger] s[j]),
    ensures
        is_ascii_digit(s[i]) ==> leading_digits(s).len() > i && leading_digits(s)[i] == s[i],
        !is_ascii_digit(s[i]) ==> leading_digits(s) == s.take(i),
    decreases i,
{
    if i > 0 {
        lemma_leading_digits_step(s.drop_first(), i - 1);
        assert(s.drop_first().take(i - 1) =~= s.take(i).drop_first());
        assert(seq![s[0]] + s.take(i).drop_first() =~= s.take(i));
    } else {
        assert(s.take(0) =~= seq![]);
    }
}

proof fn lemma_leading_digits_prefix(s: Seq<char>)
    ensures
        leading_digits(s).len() <= s.len(),
        forall|j: int| 0 <= j < leading_digits(s).len() ==> #[trigger] leading_digits(s)[j] == s[j],
    decreases s.len(),
{
    if s.len() > 0 && is_ascii_digit(s[0]) {
        lemma_leading_digits_prefix(s.drop_first());
        assert forall|j: int| 0 <= j < leading_digits(s).len() implies #[trigger] leading_digits(s)[j] == s[j] by {
            if j > 0 {
                assert(leading_digits(s)[j] == leading_digits(s.drop_first())[j - 1]);
            }
        }
    }
}

/// Extract the publication year (first four digits) from the date.
pub fn year(biblio: &Biblio) -> (r: Option<String>)
    ensures
        ov(r) == year_of(biblio@),
{
    let date = match &biblio.date {
        Some(d) => d,
        None => return None,
    };
    let s = str_chars(date.as_str());
    let mut out: Vec<char> = Vec::new();
    let mut i: usize = 0;
    proof {
        lemma_leading_digits_prefix(s@);
    }
    while i < s.len() && i < 4 && '0' <= s[i] && s[i] <= '9'
        invariant
            i <= s.len(),
            i <= 4,
            out@ == s@.take(i as int),
            forall|j: int| 0 <= j < i ==> is_ascii_digit(#[trigger] s@[j]),
            leading_digits(s@).len() <= s@.len(),
            forall|j: int| 0 <= j < leading_digits(s@).len() ==> #[trigger] leading_digits(s@)[j] == s@[j],
        decreases s.len() - i,
    {
        out.push(s[i]);
        i += 1;
        assert(out@ =~= s@.take(i as int));
    }
    proof {
        let l = leading_digits(s@);
        if i < s.len() && i < 4 {
            lemma_leading_digits_step(s@, i as int);
            assert(l =~= out@);
        } else if i == s.len() {
            assert(l.len() >= i) by {
                if l.len() < i {
                    lemma_leading_digits_step(s@, l.len() as int);
                }
            }
            assert(l =~= out@);
        } else {
            assert(i == 4);
            assert(l.len() >= 4) by {
                if l.len() < 4 {
                    lemma_leading_digits_step(s@, l.len() as int);
                }
            }
            if l.len() > 4 {
                assert(l.take(4) =~= out@);
            } else {
                assert(l =~= out@);
            }
        }
    }
    if out.len() == 0 {
        None
    } else {
        Some(chars_to_string(&out))
    }
}

/// The surname of the first author, or nothing.
pub open spec fn first_surname(b: BiblioV) -> Seq<char> {
    if b.authors.len() > 0 {
        match b.authors[0].surname {
            Some(s) => s,
            None => seq![],
        }
    } else {
        seq![]
    }
}

/// The key that a record suggests: the first author's surname followed by
/// the year, keeping only ASCII letters and digits; `ref` when nothing is
/// left.
pub open spec fn key_of(b: BiblioV) -> Seq<char> {
    let k = (first_surname(b) + match year_of(b) {
        Some(y) => y,
        None => seq![],
    }).filter(|c: char| is_ascii_alnum(c));
    if k.len() == 0 {
        seq!['r', 'e', 'f']
    } else {
        k
    }
}

/// Suggest a BibTeX key from the first author's surname and the
/// publication year, e.g. `Kahle2000`; `ref` when neither is known.
pub fn suggest_key(biblio: &Biblio) -> (r: String)
    ensures
        r@ == key_of(biblio@),
        r@.len() > 0,
        forall|i: int| 0 <= i < r@.len() ==> is_ascii_alnum(#[trigger] r@[i]),
{
    let mut base: Vec<char> = Vec::new();
    if biblio.authors.len() > 0 {
        if let Some(s) = &biblio.authors[0].surname {
            base = str_chars(s.as_str());
        }
    }
    assert(biblio@.authors.len() == biblio.authors@.len());
    assert(base@ == first_surname(biblio@)) by {
        if biblio.authors@.len() > 0 {
            assert(biblio@.authors[0] == biblio.authors@[0]@);
        }
    }
    let y = year(biblio);
    if let Some(ys) = &y {
        let yc = str_chars(ys.as_str());
        crate::text::append_chars(&mut base, &yc);
    }
    let ghost all = base@;
    assert(all == first_surname(biblio@) + match year_of(biblio@) {
        Some(y) => y,
        None => seq![],
    }) by {
        if y.is_none() {
            assert(all =~= first_surname(biblio@) + seq![]);
        }
    }
    let ghost pred = |c: char| is_ascii_alnum(c);
    let mut key: Vec<char> = Vec::new();
    for i in 0..base.len()
        invariant
            all == base@,
            pred == (|c: char| is_ascii_alnum(c)),
            key@ == all.take(i as int).filter(pred),
    {
        let c = base[i];
        assert(all.take(i + 1) =~= all.take(i as int).push(c));
        proof {
            all.take(i as int).lemma_filter_push(c, pred);
        }
        if ('0' <= c && c <= '9') || ('a' <= c && c <= 'z') || ('A' <= c && c <= 'Z') {
            key.push(c);
        }
    }
    assert(all.take(all.len() as int) =~= all);
    proof {
        assert forall|i: int| 0 <= i < key@.len() implies is_ascii_alnum(#[trigger] key@[i]) by {
            all.lemma_filter_pred(pred, i);
        }
    }
    if key.len() == 0 {
        let r = vec!['r', 'e', 'f'];
        assert(r@ =~= seq!['r', 'e', 'f']);
        chars_to_string(&r)
    } else {
        chars_to_string(&key)
    }
}

/// The decimal digit for `n < 10`.
pub open spec fn digit(n: nat) -> char {
    if n == 0 {
        '0'
    } else if n == 1 {
        '1'
    } else if n == 2 {
        '2'
    } else if n == 3 {
        '3'
    } else if n == 4 {
        '4'
    } else if n == 5 {
        '5'
    } else if n == 6 {
        '6'
    } else if n == 7 {
        '7'
    } else if n == 8 {
        '8'
    } else {
        '9'
    }
}

/// The decimal notation of `n`.
pub open spec fn decimal(n: nat) -> Seq<char>
    decreases n,
{
    if n < 10 {
        seq![digit(n)]
    } else {
        decimal(n / 10).push(digit(n % 10))
    }
}

/// The decimal notation of a number denotes it.
pub proof fn lemma_decimal_value(n: nat)
    ensures
        digits_value(decimal(n)) == n,
    decreases n,
{
    reveal_with_fuel(digits_value, 2);
    if n < 10 {
        assert(seq![digit(n)].drop_last() =~= Seq::<char>::empty());
        assert(digit(n) as int - '0' as int == n);
    } else {
        lemma_decimal_value(n / 10);
        let s = decimal(n / 10).push(digit(n % 10));
        assert(s.drop_last() =~= decimal(n / 10));
        assert(digit(n % 10) as nat - '0' as nat == n % 10);
    }
}

fn digit_char(n: usize) -> (r: char)
    requires
        n < 10,
    ensures
        r == digit(n as nat),
{
    if n == 0 {
        '0'
    } else if n == 1 {
        '1'
    } else if n == 2 {
        '2'
    } else if n == 3 {
        '3'
    } else if n == 4 {
        '4'
    } else if n == 5 {
        '5'
    } else if n == 6 {
        '6'
    } else if n == 7 {
        '7'
    } else if n == 8 {
        '8'
    } else {
        '9'
    }
}

/// The decimal notation of `n`.
pub fn decimal_chars(n: usize) -> (r: Vec<char>)
    ensures
        r@ == decimal(n as nat),
    decreases n,
{
    if n < 10 {
        let r = vec![digit_char(n)];
        assert(r@ =~= seq![digit(n as nat)]);
        r
    } else {
        let mut r = decimal_chars(n / 10);
        r.push(digit_char(n % 10));
        r
    }
}

/// The `n`-th alternative of a key: `base-n`.
pub open spec fn candidate(base: Seq<char>, n: nat) -> Seq<char> {
    base + seq!['-'] + decimal(n)
}

proof fn lemma_candidate_injective(base: Seq<char>, m: nat, n: nat)
    requires
        candidate(base, m) == candidate(base, n),
    ensures
        m == n,
{
    let k: int = base.len() as int + 1;
    assert(candidate(base, m).skip(k) =~= decimal(m));
    assert(candidate(base, n).skip(k) =~= decimal(n));
    lemma_decimal_value(m);
    lemma_decimal_value(n);
}

/// When `u` holds the base key and its alternatives up to `top`, it
/// has at least `top` elements: they are all distinct.
proof fn lemma_alternatives_bounded(base: Seq<char>, u: Seq<Seq<char>>, top: nat)
    requires
        top >= 2,
        u.contains(base),
        forall|m: nat| 2 <= m <= top ==> u.contains(#[trigger] candidate(base, m)),
    ensures
        top <= u.len(),
{
    let cands = Seq::new(top, |i: int| if i == 0 { base } else { candidate(base, (i + 1) as nat) });
    assert forall|i: int, j: int| 0 <= i < cands.len() && 0 <= j < cands.len() && i != j implies cands[i]
        != cands[j] by {
        if i > 0 && j > 0 && cands[i] == cands[j] {
            lemma_candidate_injective(base, (i + 1) as nat, (j + 1) as nat);
        }
        if i == 0 {
            assert(cands[j].len() > base.len());
        }
        if j == 0 {
            assert(cands[i].len() > base.len());
        }
    }
    assert(cands.no_duplicates());
    cands.unique_seq_to_set();
    u.lemma_cardinality_of_set();
    assert forall|s: Seq<char>| cands.to_set().contains(s) implies u.to_set().contains(s) by {
        let i = choose|i: int| 0 <= i < cands.len() && cands[i] == s;
        if i > 0 {
            assert(u.contains(candidate(base, (i + 1) as nat)));
        }
    }
    vstd::seq_lib::seq_to_set_is_finite(u);
    vstd::set_lib::lemma_len_subset(cands.to_set(), u.to_set());
}

pub open spec fn strings(v: Seq<String>) -> Seq<Seq<char>> {
    v.map_values(|s: String| s@)
}

/// Adding a string that a sequence does not hold keeps its elements
/// distinct.
proof fn lemma_push_fresh(u: Seq<Seq<char>>, x: Seq<char>)
    requires
        !u.contains(x),
    ensures
        u.no_duplicates() ==> u.push(x).no_duplicates(),
{
    if u.no_duplicates() {
        assert forall|i: int, j: int| 0 <= i < u.push(x).len() && 0 <= j < u.push(x).len() && i != j implies u.push(x)[i]
            != u.push(x)[j] by {
            if i == u.len() {
                assert(u[j] == u.push(x)[j]);
            } else if j == u.len() {
                assert(u[i] == u.push(x)[i]);
            }
        }
    }
}

/// Whether `used` holds a string equal to `key`.
fn holds(used: &Vec<String>, key: &String) -> (r: bool)
    ensures
        r == strings(used@).contains(key@),
{
    for i in 0..used.len()
        invariant
            forall|j: int| 0 <= j < i ==> strings(used@)[j] != key@,
    {
        if used[i].eq(key) {
            assert(strings(used@)[i as int] == key@);
            return true;
        }
    }
    false
}

/// Return a citation key that is not yet in `used`, derived from
/// [`suggest_key`] and extended with `-2`, `-3`, ... suffixes on
/// collisions (the least free one); the returned key is added to `used`.
pub fn unique_key(biblio: &Biblio, used: &mut Vec<String>) -> (r: String)
    requires
        old(used)@.len() + 2 < usize::MAX,
    ensures
        !strings(old(used)@).contains(r@),
        strings(final(used)@) == strings(old(used)@).push(r@),
        strings(old(used)@).no_duplicates() ==> strings(final(used)@).no_duplicates(),
        !strings(old(used)@).contains(key_of(biblio@)) ==> r@ == key_of(biblio@),
        strings(old(used)@).contains(key_of(biblio@)) ==> exists|n: nat|
            n >= 2 && r@ == candidate(key_of(biblio@), n) && forall|m: nat|
                2 <= m < n ==> strings(old(used)@).contains(#[trigger] candidate(key_of(biblio@), m)),
{
    let base = suggest_key(biblio);
    let ghost u = strings(used@);
    if !holds(used, &base) {
        let r = base.clone();
        used.push(base);
        assert(strings(used@) =~= u.push(r@));
        proof {
            lemma_push_fresh(u, r@);
        }
        return r;
    }
    let bc = str_chars(base.as_str());
    let mut suffix: usize = 2;
    loop
        invariant
            u == strings(used@),
            u == strings(old(used)@),
            bc@ == key_of(biblio@),
            u.contains(bc@),
            2 <= suffix <= used@.len() + 1,
            used@.len() + 2 < usize::MAX,
            forall|m: nat| 2 <= m < suffix ==> u.contains(#[trigger] candidate(bc@, m)),
        decreases used@.len() + 2 - suffix,
    {
        let mut kc = bc.clone();
        kc.push('-');
        let dc = decimal_chars(suffix);
        crate::text::append_chars(&mut kc, &dc);
        let key = chars_to_string(&kc);
        assert(key@ == candidate(bc@, suffix as nat));
        if !holds(used, &key) {
            let r = key.clone();
            used.push(key);
            assert(strings(used@) =~= u.push(r@));
            proof {
                lemma_push_fresh(u, r@);
            }
            return r;
        }
        proof {
            lemma_alternatives_bounded(bc@, u, suffix as nat);
        }
        suffix += 1;
    }
}

// ---------------------------------------------------------------------------
// Entries
// ---------------------------------------------------------------------------

/// A chunk of a field value, as `biblatex::Chunk` holds it.
pub ghost enum ChunkV {
    Normal(Seq<char>),
    Verbatim(Seq<char>),
    Math(Seq<char>),
}

/// The fields of a BibLaTeX entry: each field name with the chunks that
/// it holds.
pub uninterp spec fn entry_fields(e: biblatex::Entry) -> Map<Seq<char>, Seq<ChunkV>>;

/// The citation key and the type of a BibLaTeX entry.
pub uninterp spec fn entry_head(e: biblatex::Entry) -> (Seq<char>, EntryKind);

/// What `biblatex::Entry::to_bibtex_string` gives for an entry with this
/// key, type and fields: the BibTeX text, or `None` for its error.
pub uninterp spec fn bibtex_of(key: Seq<char>, kind: EntryKind, fields: Map<Seq<char>, Seq<ChunkV>>) -> Option<
    Seq<char>,
>;

/// A field name that `Entry::set` keeps as it is: lower-case ASCII
/// letters only.
pub open spec fn is_field_name(s: Seq<char>) -> bool {
    forall|i: int| 0 <= i < s.len() ==> 'a' <= #[trigger] s[i] && s[i] <= 'z'
}

/// The chunks that `Vec<Person>::to_chunks` writes for persons that have
/// only a family name and a given name: `family, given` for each, with
/// ` and ` between them.
pub open spec fn person_chunks(p: Seq<(Seq<char>, Seq<char>)>) -> Seq<ChunkV>
    decreases p.len(),
{
    if p.len() == 0 {
        seq![]
    } else {
        let one = ChunkV::Normal(p.last().0 + seq![',', ' '] + p.last().1);
        if p.len() == 1 {
            seq![one]
        } else {
            person_chunks(p.drop_last()) + seq![ChunkV::Normal(seq![' ', 'a', 'n', 'd', ' ']), one]
        }
    }
}

/// The decimal notation of `n < 100`, on two digits.
pub open spec fn two_digits(n: int) -> Seq<char> {
    seq![digit((n / 10) as nat), digit((n % 10) as nat)]
}

/// The decimal notation of `n < 10000`, on four digits.
pub open spec fn four_digits(n: int) -> Seq<char> {
    seq![digit((n / 1000) as nat), digit((n / 100 % 10) as nat), digit((n / 10 % 10) as nat), digit((n % 10) as nat)]
}

/// How `biblatex::Datetime` writes a date with a year of four digits and
/// zero-based month and day: `YYYY`, `YYYY-MM` or `YYYY-MM-DD`, the month
/// and day counted from one.
pub open spec fn date_text(year: i32, month: Option<u8>, day: Option<u8>) -> Seq<char> {
    four_digits(year as int) + match month {
        Some(m) => match day {
            Some(d) => seq!['-'] + two_digits(m + 1) + seq!['-'] + two_digits(d + 1),
            None => seq!['-'] + two_digits(m + 1),
        },
        None => seq![],
    }
}

/// `biblatex::Entry::new`: an entry with the given key and the type that
/// `kind` names, and no fields.
#[verifier::external_body]
fn new_entry(key: &str, kind: EntryKind) -> (r: biblatex::Entry)
    ensures
        entry_head(r).0 == key@,
        entry_head(r).1 == kind,
        entry_fields(r).dom() == Set::<Seq<char>>::empty(),
{
    let ty = match kind {
        EntryKind::Article => biblatex::EntryType::Article,
        EntryKind::InCollection => biblatex::EntryType::InCollection,
        EntryKind::InProceedings => biblatex::EntryType::InProceedings,
        EntryKind::TechReport => biblatex::EntryType::TechReport,
        EntryKind::Book => biblatex::EntryType::Book,
        EntryKind::Misc => biblatex::EntryType::Misc,
    };
    biblatex::Entry::new(key.to_string(), ty)
}

/// `biblatex::Entry::set` with a single normal chunk: the field `name`
/// (which `set` lower-cases, leaving a lower-case name as it is) now
/// holds that chunk; other fields are unchanged.
#[verifier::external_body]
fn set_text_field(e: &mut biblatex::Entry, name: &str, value: &str)
    requires
        is_field_name(name@),
    ensures
        entry_fields(*final(e)) == entry_fields(*old(e)).insert(name@, seq![ChunkV::Normal(value@)]),
        entry_head(*final(e)) == entry_head(*old(e)),
{
    e.set(name, vec![biblatex::Spanned::detached(biblatex::Chunk::Normal(value.to_string()))]);
}

/// `biblatex::Entry::set_as` with a list of persons built from (family
/// name, given name) pairs, all other name parts empty or unset: the
/// field `name` now holds the chunks that `Vec<Person>::to_chunks` writes
/// for them; other fields are unchanged.
#[verifier::external_body]
fn set_persons_field(e: &mut biblatex::Entry, name: &str, people: &Vec<(String, String)>)
    requires
        is_field_name(name@),
    ensures
        entry_fields(*final(e)) == entry_fields(*old(e)).insert(name@, person_chunks(pairs_view(people@))),
        entry_head(*final(e)) == entry_head(*old(e)),
{
    let list: Vec<biblatex::Person> = people.iter().map(|(family, given)| biblatex::Person {
        name: family.clone(), given_name: given.clone(), prefix: String::new(), suffix: String::new(),
        id: None, prefix_initials: None, given_initials: None, use_prefix: None,
    }).collect();
    e.set_as(name, &list);
}

/// `biblatex::Entry::set_as` with a certain, exact single date: the field
/// `date` now holds one normal chunk, the date as `biblatex::Datetime`
/// writes it; other fields are unchanged.
#[verifier::external_body]
fn set_date_field(e: &mut biblatex::Entry, year: i32, month: Option<u8>, day: Option<u8>)
    requires
        0 <= year <= 9999,
        month matches Some(m) ==> m < 99,
        day matches Some(d) ==> d < 99,
        day is Some ==> month is Some,
    ensures
        entry_fields(*final(e)) == entry_fields(*old(e)).insert("date"@, seq![ChunkV::Normal(date_text(year, month, day))]),
        entry_head(*final(e)) == entry_head(*old(e)),
{
    let value = biblatex::DateValue::At(biblatex::Datetime { year, month, day, time: None });
    e.set_as("date", &biblatex::Date { value, uncertain: false, approximate: false });
}

/// A field map whose `date` field, when there is one, is a single normal
/// chunk holding a date as `biblatex::Datetime` writes it: a year of four
/// digits, then optionally a month (counted from zero, below 12) and,
/// with a month, a day (counted from zero, below 31).
pub open spec fn well_dated(f: Map<Seq<char>, Seq<ChunkV>>) -> bool {
    f.dom().contains("date"@) ==> exists|y: i32, mo: Option<u8>, d: Option<u8>|
        0 <= y <= 9999 && (mo matches Some(m) ==> m < 12) && (d matches Some(x) ==> x < 31) && (d is Some
            ==> mo is Some) && f["date"@] == seq![ChunkV::Normal(#[trigger] date_text(y, mo, d))]
}

/// `biblatex::Entry::to_bibtex_string`: the entry written as BibTeX, the
/// text that [`bibtex_of`] names for the entry's key, type and fields.
/// The writer parses the `date` field, and its error is only ever taken
/// for an entry without one (it then reads `year` instead); a `date` field
/// of ASCII digits and hyphens as [`well_dated`] describes parses without
/// a panic (a year of other numerals would make it panic), so the call
/// succeeds.
#[verifier::external_body]
fn bibtex_text(e: &biblatex::Entry) -> (r: String)
    requires
        well_dated(entry_fields(*e)),
    ensures
        bibtex_of(entry_head(*e).0, entry_head(*e).1, entry_fields(*e)) == Some(r@),
{
    e.to_bibtex_string().expect("a present date field never makes the writer fail")
}

pub open spec fn pairs_view(v: Seq<(String, String)>) -> Seq<(Seq<char>, Seq<char>)> {
    v.map_values(|p: (String, String)| (p.0@, p.1@))
}

/// A person of an entry for an author: the surname (or, without a
/// non-empty surname, the full name) as family name and the given and
/// middle names joined with a space as given name; `None` when there is
/// neither a non-empty surname nor a non-empty full name.
pub open spec fn person_of(a: AuthorV) -> Option<(Seq<char>, Seq<char>)> {
    let given = join(opt_seq(a.given_name) + opt_seq(a.middle_name), seq![' ']);
    match a.surname {
        Some(s) if s.len() > 0 => Some((s, given)),
        _ => match a.full_name {
            Some(f) if f.len() > 0 => Some((f, given)),
            _ => None,
        },
    }
}

/// The persons of a list of authors, skipping those without a name.
pub open spec fn persons_of(v: Seq<AuthorV>) -> Seq<(Seq<char>, Seq<char>)>
    decreases v.len(),
{
    if v.len() == 0 {
        seq![]
    } else {
        persons_of(v.drop_last()) + match person_of(v.last()) {
            Some(p) => seq![p],
            None => seq![],
        }
    }
}

fn person(author: &Author) -> (r: Option<(String, String)>)
    ensures
        match r {
            Some(p) => person_of(author@) == Some((p.0@, p.1@)),
            None => person_of(author@) is None,
        },
{
    let mut parts: Vec<Vec<char>> = Vec::new();
    if let Some(g) = &author.given_name {
        parts.push(str_chars(g.as_str()));
    }
    if let Some(m) = &author.middle_name {
        parts.push(str_chars(m.as_str()));
    }
    assert(seqs(parts@) =~= opt_seq(author@.given_name) + opt_seq(author@.middle_name));
    let sep = vec![' '];
    assert(sep@ =~= seq![' ']);
    let given = chars_to_string(&join_chars(&parts, &sep));
    if let Some(s) = &author.surname {
        if s.as_str().unicode_len() > 0 {
            return Some((s.clone(), given));
        }
    }
    if let Some(f) = &author.full_name {
        if f.as_str().unicode_len() > 0 {
            return Some((f.clone(), given));
        }
    }
    None
}

/// Map authors onto entry persons; authors without a name are dropped.
fn persons(authors: &Vec<Author>) -> (r: Vec<(String, String)>)
    ensures
        pairs_view(r@) == persons_of(authors_view(authors@)),
{
    let ghost av = authors_view(authors@);
    let mut out: Vec<(String, String)> = Vec::new();
    assert(av.take(0) =~= seq![]);
    assert(pairs_view(out@) =~= seq![]);
    for i in 0..authors.len()
        invariant
            av == authors_view(authors@),
            pairs_view(out@) == persons_of(av.take(i as int)),
    {
        assert(av.take(i + 1).drop_last() =~= av.take(i as int));
        assert(av.take(i + 1).last() == authors@[i as int]@);
        let ghost before = pairs_view(out@);
        match person(&authors[i]) {
            Some(p) => {
                let ghost pv = (p.0@, p.1@);
                out.push(p);
                assert(pairs_view(out@) =~= before + seq![pv]);
            },
            None => {
                assert(pairs_view(out@) =~= before + seq![]);
            },
        }
    }
    assert(av.take(av.len() as int) =~= av);
    out
}

/// The digits of a date text, at most eight.
pub open spec fn date_digits(s: Seq<char>) -> Seq<char> {
    let all = s.filter(|c: char| is_ascii_digit(c));
    if all.len() > 8 {
        all.take(8)
    } else {
        all
    }
}

/// The value of two ASCII digits.
pub open spec fn two_digit_value(a: char, b: char) -> int {
    (a as int - '0' as int) * 10 + (b as int - '0' as int)
}

/// A date (`YYYY`, `YYYY-MM` or `YYYY-MM-DD`, any separators) as year and
/// zero-based month and day: the year from the first four digits, the
/// month from the next two when they give 1 to 12, the day from the next
/// two when there is a month and they give 1 to 31. `None` without four
/// digits.
pub open spec fn date_parts(date: Option<Seq<char>>) -> Option<(i32, Option<u8>, Option<u8>)> {
    match date {
        None => None,
        Some(raw) => {
            let ds = date_digits(raw);
            if ds.len() < 4 {
                None
            } else {
                let year = digits_value(ds.take(4)) as i32;
                let month = if ds.len() >= 6 && 1 <= two_digit_value(ds[4], ds[5]) <= 12 {
                    Some((two_digit_value(ds[4], ds[5]) - 1) as u8)
                } else {
                    None
                };
                let day = if month is Some && ds.len() >= 8 && 1 <= two_digit_value(ds[6], ds[7]) <= 31 {
                    Some((two_digit_value(ds[6], ds[7]) - 1) as u8)
                } else {
                    None
                };
                Some((year, month, day))
            }
        },
    }
}

proof fn lemma_four_digits(ds: Seq<char>)
    requires
        ds.len() >= 4,
        forall|i: int| 0 <= i < ds.len() ==> is_ascii_digit(#[trigger] ds[i]),
    ensures
        digits_value(ds.take(4)) == (ds[0] as int - '0' as int) * 1000 + (ds[1] as int - '0' as int) * 100
            + (ds[2] as int - '0' as int) * 10 + (ds[3] as int - '0' as int),
{
    let t = ds.take(4);
    reveal_with_fuel(digits_value, 5);
    assert(t.drop_last().drop_last().drop_last().drop_last() =~= Seq::<char>::empty());
    assert(t.drop_last().drop_last().drop_last() =~= seq![ds[0]]);
    assert(t.drop_last().drop_last() =~= seq![ds[0], ds[1]]);
    assert(t.drop_last() =~= seq![ds[0], ds[1], ds[2]]);
}

fn digit_value(c: char) -> (r: i32)
    requires
        '0' <= c <= '9',
    ensures
        r == c as int - '0' as int,
{
    (c as u32 - '0' as u32) as i32
}

/// A date as year, zero-based month and day.
fn date(value: &Option<String>) -> (r: Option<(i32, Option<u8>, Option<u8>)>)
    ensures
        r == date_parts(ov(*value)),
        r matches Some(t) ==> 0 <= t.0 <= 9999 && (t.1 matches Some(m) ==> m < 12) && (t.2 matches Some(
            d,
        ) ==> d < 31) && (t.2 is Some ==> t.1 is Some),
{
    let raw = match value {
        Some(d) => str_chars(d.as_str()),
        None => return None,
    };
    let ghost pred = |c: char| is_ascii_digit(c);
    let mut ds: Vec<char> = Vec::new();
    let mut i: usize = 0;
    while i < raw.len() && ds.len() < 8
        invariant
            i <= raw.len(),
            ds@.len() <= 8,
            pred == (|c: char| is_ascii_digit(c)),
            ds@ == raw@.take(i as int).filter(pred),
        decreases raw.len() - i,
    {
        let c = raw[i];
        assert(raw@.take(i + 1) =~= raw@.take(i as int).push(c));
        proof {
            raw@.take(i as int).lemma_filter_push(c, pred);
        }
        if '0' <= c && c <= '9' {
            ds.push(c);
        }
        i += 1;
    }
    proof {
        let all = raw@.filter(pred);
        if i == raw.len() {
            assert(raw@.take(i as int) =~= raw@);
            assert(ds@ =~= date_digits(raw@));
        } else {
            assert(ds@.len() == 8);
            assert(raw@ =~= raw@.take(i as int) + raw@.skip(i as int));
            Seq::filter_distributes_over_add(raw@.take(i as int), raw@.skip(i as int), pred);
            assert(all.take(8) =~= ds@);
            assert(ds@ =~= date_digits(raw@));
        }
        assert forall|j: int| 0 <= j < ds@.len() implies is_ascii_digit(#[trigger] ds@[j]) by {
            raw@.take(i as int).lemma_filter_pred(pred, j);
        }
    }
    if ds.len() < 4 {
        return None;
    }
    proof {
        lemma_four_digits(ds@);
    }
    let year = digit_value(ds[0]) * 1000 + digit_value(ds[1]) * 100 + digit_value(ds[2]) * 10 + digit_value(ds[3]);
    let month = if ds.len() >= 6 {
        let m = digit_value(ds[4]) * 10 + digit_value(ds[5]);
        if 1 <= m && m <= 12 {
            Some((m - 1) as u8)
        } else {
            None
        }
    } else {
        None
    };
    let day = if month.is_some() && ds.len() >= 8 {
        let d = digit_value(ds[6]) * 10 + digit_value(ds[7]);
        if 1 <= d && d <= 31 {
            Some((d - 1) as u8)
        } else {
            None
        }
    } else {
        None
    };
    Some((year, month, day))
}

/// The map with the text field `name` set to the trimmed `value`, when
/// it is present and not blank.
#[verifier::opaque]
pub open spec fn with_text(m: Map<Seq<char>, Seq<ChunkV>>, name: Seq<char>, value: Option<Seq<char>>) -> Map<
    Seq<char>,
    Seq<ChunkV>,
> {
    match value {
        Some(v) => if trim(v).len() > 0 {
            m.insert(name, seq![ChunkV::Normal(trim(v))])
        } else {
            m
        },
        None => m,
    }
}

/// The map with the person field `name` set, when there are persons.
#[verifier::opaque]
pub open spec fn with_persons(m: Map<Seq<char>, Seq<ChunkV>>, name: Seq<char>, p: Seq<(Seq<char>, Seq<char>)>) -> Map<
    Seq<char>,
    Seq<ChunkV>,
> {
    if p.len() > 0 {
        m.insert(name, person_chunks(p))
    } else {
        m
    }
}

/// The fields of the entry for a record: authors and editors as person
/// lists, the texts of title, book title, journal, series, volume,
/// number, pages, publisher, institution, DOI, URL, ISSN and note, and the
/// date.
pub open spec fn entry_fields_of(b: BiblioV) -> Map<Seq<char>, Seq<ChunkV>> {
    let m = with_persons(Map::empty(), "author"@, persons_of(b.authors));
    let m = with_persons(m, "editor"@, persons_of(b.editors));
    let m = with_text(m, "title"@, b.title);
    let m = with_text(m, "booktitle"@, b.book_title);
    let m = with_text(m, "journaltitle"@, b.journal);
    let m = with_text(m, "series"@, b.series_title);
    let m = with_text(m, "volume"@, b.volume);
    let m = with_text(m, "number"@, b.issue);
    let m = with_text(m, "pages"@, b.pages);
    let m = with_text(m, "publisher"@, b.publisher);
    let m = with_text(m, "institution"@, b.institution);
    let m = with_text(m, "doi"@, b.doi);
    let m = with_text(m, "url"@, b.url);
    let m = with_text(m, "issn"@, b.issn);
    let m = with_text(m, "note"@, b.note);
    match date_parts(b.date) {
        Some((y, mo, d)) => m.insert("date"@, seq![ChunkV::Normal(date_text(y, mo, d))]),
        None => m,
    }
}

/// Set a field from a plain-text value, when present and non-empty.
fn set_text(entry: &mut biblatex::Entry, name: &str, value: &Option<String>)
    requires
        is_field_name(name@),
    ensures
        entry_fields(*final(entry)) == with_text(entry_fields(*old(entry)), name@, ov(*value)),
        entry_head(*final(entry)) == entry_head(*old(entry)),
{
    proof {
        reveal(with_text);
    }
    if let Some(v) = value {
        let t = trim_chars(&str_chars(v.as_str()));
        if t.len() > 0 {
            let ts = chars_to_string(&t);
            set_text_field(entry, name, ts.as_str());
        }
    }
}

/// Set a person field from a list of authors, when any of them has a name.
fn set_persons(entry: &mut biblatex::Entry, name: &str, authors: &Vec<Author>)
    requires
        is_field_name(name@),
    ensures
        entry_fields(*final(entry)) == with_persons(entry_fields(*old(entry)), name@, persons_of(authors_view(authors@))),
        entry_head(*final(entry)) == entry_head(*old(entry)),
{
    proof {
        reveal(with_persons);
    }
    let people = persons(authors);
    if people.len() > 0 {
        set_persons_field(entry, name, &people);
    }
}

proof fn lemma_field_names()
    ensures
        is_field_name("author"@),
        is_field_name("editor"@),
        is_field_name("title"@),
        is_field_name("booktitle"@),
        is_field_name("journaltitle"@),
        is_field_name("series"@),
        is_field_name("volume"@),
        is_field_name("number"@),
        is_field_name("pages"@),
        is_field_name("publisher"@),
        is_field_name("institution"@),
        is_field_name("doi"@),
        is_field_name("url"@),
        is_field_name("issn"@),
        is_field_name("note"@),
{
    reveal_strlit("author");
    reveal_strlit("editor");
    reveal_strlit("title");
    reveal_strlit("booktitle");
    reveal_strlit("journaltitle");
    reveal_strlit("series");
    reveal_strlit("volume");
    reveal_strlit("number");
    reveal_strlit("pages");
    reveal_strlit("publisher");
    reveal_strlit("institution");
    reveal_strlit("doi");
    reveal_strlit("url");
    reveal_strlit("issn");
    reveal_strlit("note");
}

/// Convert a bibliographic record into a typed BibLaTeX entry with the
/// given key: its type from [`entry_type`], and the fields of
/// [`entry_fields_of`].
pub fn to_entry(key: &str, biblio: &Biblio) -> (r: biblatex::Entry)
    ensures
        entry_head(r) == (key@, entry_kind_of(biblio@)),
        entry_fields(r) == entry_fields_of(biblio@),
{
    proof {
        lemma_field_names();
    }
    let mut entry = new_entry(key, entry_type(biblio));
    assert(entry_fields(entry) =~= Map::empty());
    set_persons(&mut entry, "author", &biblio.authors);
    set_persons(&mut entry, "editor", &biblio.editors);
    set_text(&mut entry, "title", &biblio.title);
    set_text(&mut entry, "booktitle", &biblio.book_title);
    set_text(&mut entry, "journaltitle", &biblio.journal);
    set_text(&mut entry, "series", &biblio.series_title);
    set_text(&mut entry, "volume", &biblio.volume);
    set_text(&mut entry, "number", &biblio.issue);
    set_text(&mut entry, "pages", &biblio.pages);
    set_text(&mut entry, "publisher", &biblio.publisher);
    set_text(&mut entry, "institution", &biblio.institution);
    set_text(&mut entry, "doi", &biblio.doi);
    set_text(&mut entry, "url", &biblio.url);
    set_text(&mut entry, "issn", &biblio.issn);
    set_text(&mut entry, "note", &biblio.note);
    if let Some((y, m, d)) = date(&biblio.date) {
        set_date_field(&mut entry, y, m, d);
    }
    entry
}

/// Render one record as a BibTeX entry with the given key: the entry of
/// [`to_entry`] as the BibTeX writer writes it.
pub fn format_entry(key: &str, biblio: &Biblio) -> (r: String)
    ensures
        bibtex_of(key@, entry_kind_of(biblio@), entry_fields_of(biblio@)) == Some(r@),
{
    let entry = to_entry(key, biblio);
    proof {
        lemma_entry_fields_well_dated(biblio@);
    }
    bibtex_text(&entry)
}

// ---------------------------------------------------------------------------
// Laws
// ---------------------------------------------------------------------------

/// The year of a record is one to four ASCII digits that begin its date.
pub proof fn lemma_year_is_leading_digits(b: BiblioV)
    ensures
        year_of(b) matches Some(y) ==> 1 <= y.len() <= 4 && forall|i: int|
            0 <= i < y.len() ==> is_ascii_digit(#[trigger] y[i]),
        year_of(b) matches Some(y) ==> (b.date matches Some(d) && y.len() <= d.len() && y == d.take(y.len() as int)),
{
    if let Some(d) = b.date {
        lemma_leading_digits_prefix(d);
        lemma_leading_digits_are_digits(d);
        let l = leading_digits(d);
        if l.len() > 4 {
            assert(l.take(4) =~= d.take(4));
        } else {
            assert(l =~= d.take(l.len() as int));
        }
    }
}

proof fn lemma_leading_digits_are_digits(s: Seq<char>)
    ensures
        forall|i: int| 0 <= i < leading_digits(s).len() ==> is_ascii_digit(#[trigger] leading_digits(s)[i]),
    decreases s.len(),
{
    if s.len() > 0 && is_ascii_digit(s[0]) {
        lemma_leading_digits_are_digits(s.drop_first());
        assert forall|i: int| 0 <= i < leading_digits(s).len() implies is_ascii_digit(#[trigger] leading_digits(s)[i]) by {
            if i > 0 {
                assert(leading_digits(s)[i] == leading_digits(s.drop_first())[i - 1]);
            }
        }
    }
}

/// Keys handed out one after another by [`unique_key`], starting from a
/// set of used keys, are all distinct and none of them was used before:
/// each call adds its key to the set that the next call sees.
pub proof fn lemma_unique_keys_distinct(used: Seq<Seq<char>>, keys: Seq<Seq<char>>)
    requires
        forall|i: int| 0 <= i < keys.len() ==> !(used + keys.take(i)).contains(#[trigger] keys[i]),
    ensures
        keys.no_duplicates(),
        forall|i: int| 0 <= i < keys.len() ==> !used.contains(#[trigger] keys[i]),
{
    assert forall|i: int| 0 <= i < keys.len() implies !used.contains(#[trigger] keys[i]) by {
        if used.contains(keys[i]) {
            let j = choose|j: int| 0 <= j < used.len() && used[j] == keys[i];
            assert((used + keys.take(i))[j] == keys[i]);
        }
    }
    assert forall|i: int, j: int| 0 <= i < keys.len() && 0 <= j < keys.len() && i != j implies keys[i] != keys[j] by {
        if i < j {
            assert((used + keys.take(j))[used.len() + i] == keys[i]);
        } else {
            assert((used + keys.take(i))[used.len() + j] == keys[j]);
        }
    }
}

/// An entry has a `date` field exactly when the record's date has four
/// digits for a year.
pub proof fn lemma_date_field_iff_year(b: BiblioV)
    ensures
        entry_fields_of(b).dom().contains("date"@) <==> date_parts(b.date) is Some,
{
    reveal(with_text);
    reveal(with_persons);
    reveal_strlit("date");
    reveal_strlit("author");
    reveal_strlit("editor");
    reveal_strlit("title");
    reveal_strlit("booktitle");
    reveal_strlit("journaltitle");
    reveal_strlit("series");
    reveal_strlit("volume");
    reveal_strlit("number");
    reveal_strlit("pages");
    reveal_strlit("publisher");
    reveal_strlit("institution");
    reveal_strlit("doi");
    reveal_strlit("url");
    reveal_strlit("issn");
    reveal_strlit("note");
    let names = seq![
        "author"@, "editor"@, "title"@, "booktitle"@, "journaltitle"@, "series"@, "volume"@, "number"@,
        "pages"@, "publisher"@, "institution"@, "doi"@, "url"@, "issn"@, "note"@,
    ];
    assert forall|i: int| 0 <= i < names.len() implies #[trigger] names[i] != "date"@ by {
        if names[i] == "date"@ {
            assert(names[i].len() == 4);
            assert(names[i][0] == 'd');
        }
    }
}

/// The parts of a date lie in the ranges that a four-digit year, a month
/// and a day have.
pub proof fn lemma_date_parts_ranges(date: Option<Seq<char>>)
    ensures
        date_parts(date) matches Some(t) ==> 0 <= t.0 <= 9999 && (t.1 matches Some(m) ==> m < 12) && (t.2 matches Some(
            d,
        ) ==> d < 31) && (t.2 is Some ==> t.1 is Some),
{
    if let Some(raw) = date {
        let pred = |c: char| is_ascii_digit(c);
        let all = raw.filter(pred);
        let ds = date_digits(raw);
        if ds.len() >= 4 {
            assert forall|i: int| 0 <= i < ds.len() implies is_ascii_digit(#[trigger] ds[i]) by {
                assert(ds[i] == all[i]);
                raw.lemma_filter_pred(pred, i);
            }
            lemma_four_digits(ds);
        }
    }
}

/// The fields of the entry for any record have a well-formed `date`
/// field, or none.
pub proof fn lemma_entry_fields_well_dated(b: BiblioV)
    ensures
        well_dated(entry_fields_of(b)),
{
    lemma_date_field_iff_year(b);
    lemma_date_parts_ranges(b.date);
    if let Some(t) = date_parts(b.date) {
        let f = entry_fields_of(b);
        assert(f["date"@] == seq![ChunkV::Normal(date_text(t.0, t.1, t.2))]);
    }
}

proof fn lemma_filter_keeps_all(s: Seq<char>)
    requires
        forall|i: int| 0 <= i < s.len() ==> is_ascii_alnum(#[trigger] s[i]),
    ensures
        s.filter(|c: char| is_ascii_alnum(c)) == s,
    decreases s.len(),
{
    if s.len() > 0 {
        assert forall|i: int| 0 <= i < s.drop_last().len() implies is_ascii_alnum(#[trigger] s.drop_last()[i]) by {
            assert(s.drop_last()[i] == s[i]);
        }
        lemma_filter_keeps_all(s.drop_last());
        assert(is_ascii_alnum(s.last()));
        assert(s.drop_last().push(s.last()) =~= s);
        let pred = |c: char| is_ascii_alnum(c);
        s.drop_last().lemma_filter_push(s.last(), pred);
    }
}

/// The key of a record depends on its first author alone among its
/// authors: replacing every later author leaves the key unchanged.
pub proof fn lemma_key_ignores_later_authors(b: BiblioV, later: Seq<AuthorV>)
    requires
        b.authors.len() > 0,
    ensures
        key_of(BiblioV { authors: seq![b.authors[0]] + later, ..b }) == key_of(b),
{
    let b2 = BiblioV { authors: seq![b.authors[0]] + later, ..b };
    assert(b2.authors[0] == b.authors[0]);
    assert(first_surname(b2) == first_surname(b));
    assert(year_of(b2) == year_of(b));
}

/// A record whose first author's surname `s` is made of ASCII letters and
/// digits, and whose date begins with the four digits `y`, has the key
/// `s` followed by `y`.
pub proof fn lemma_key_is_first_surname_and_year(b: BiblioV, s: Seq<char>, y: Seq<char>, rest: Seq<char>)
    requires
        b.authors.len() > 0,
        b.authors[0].surname == Some(s),
        forall|i: int| 0 <= i < s.len() ==> is_ascii_alnum(#[trigger] s[i]),
        y.len() == 4,
        forall|i: int| 0 <= i < 4 ==> is_ascii_digit(#[trigger] y[i]),
        b.date == Some(y + rest),
    ensures
        key_of(b) == s + y,
{
    let d = y + rest;
    assert forall|j: int| 0 <= j < 4 implies is_ascii_digit(#[trigger] d[j]) by {
        assert(d[j] == y[j]);
    }
    lemma_leading_digits_prefix(d);
    lemma_leading_digits_step(d, 3);
    let l = leading_digits(d);
    assert(l.len() >= 4);
    if l.len() > 4 {
        assert(l.take(4) =~= y);
    } else {
        assert(l =~= y);
    }
    assert(year_of(b) == Some(y));
    assert(first_surname(b) == s);
    assert forall|i: int| 0 <= i < (s + y).len() implies is_ascii_alnum(#[trigger] (s + y)[i]) by {
        if i >= s.len() {
            assert((s + y)[i] == y[i - s.len()]);
        } else {
            assert((s + y)[i] == s[i]);
        }
    }
    lemma_filter_keeps_all(s + y);
    assert(y.len() > 0);
}


/// A field of `f` holds the trimmed text of `v` exactly when that text is
/// not blank; otherwise `f` has no such field.
pub open spec fn holds_text(f: Map<Seq<char>, Seq<ChunkV>>, name: Seq<char>, v: Option<Seq<char>>) -> bool {
    &&& f.dom().contains(name) <==> (v matches Some(x) && trim(x).len() > 0)
    &&& v matches Some(x) ==> (trim(x).len() > 0 ==> f[name] == seq![ChunkV::Normal(trim(x))])
}

/// A field of `f` holds the chunks of the persons `p` exactly when there
/// are any; otherwise `f` has no such field.
pub open spec fn holds_persons(f: Map<Seq<char>, Seq<ChunkV>>, name: Seq<char>, p: Seq<(Seq<char>, Seq<char>)>) -> bool {
    &&& f.dom().contains(name) <==> p.len() > 0
    &&& p.len() > 0 ==> f[name] == person_chunks(p)
}


/// The `title` field of an entry holds the record's `title`, trimmed,
/// exactly when that is not blank; no other value lands in it.
pub proof fn lemma_title_field(b: BiblioV)
    ensures
        holds_text(entry_fields_of(b), "title"@, b.title),
{
    reveal(with_text);
    reveal(with_persons);
    reveal_strlit("author");
    reveal_strlit("editor");
    reveal_strlit("title");
    reveal_strlit("booktitle");
    reveal_strlit("journaltitle");
    reveal_strlit("series");
    reveal_strlit("volume");
    reveal_strlit("number");
    reveal_strlit("pages");
    reveal_strlit("publisher");
    reveal_strlit("institution");
    reveal_strlit("doi");
    reveal_strlit("url");
    reveal_strlit("issn");
    reveal_strlit("note");
    reveal_strlit("date");
    assert("title"@ != "author"@) by {
        assert("title"@.len() != "author"@.len());
    }
    assert("title"@ != "editor"@) by {
        assert("title"@.len() != "editor"@.len());
    }
    assert("title"@ != "booktitle"@) by {
        assert("title"@.len() != "booktitle"@.len());
    }
    assert("title"@ != "journaltitle"@) by {
        assert("title"@.len() != "journaltitle"@.len());
    }
    assert("title"@ != "series"@) by {
        assert("title"@.len() != "series"@.len());
    }
    assert("title"@ != "volume"@) by {
        assert("title"@.len() != "volume"@.len());
    }
    assert("title"@ != "number"@) by {
        assert("title"@.len() != "number"@.len());
    }
    assert("title"@ != "pages"@) by {
        assert("title"@[0] != "pages"@[0]);
    }
    assert("title"@ != "publisher"@) by {
        assert("title"@.len() != "publisher"@.len());
    }
    assert("title"@ != "institution"@) by {
        assert("title"@.len() != "institution"@.len());
    }
    assert("title"@ != "doi"@) by {
        assert("title"@.len() != "doi"@.len());
    }
    assert("title"@ != "url"@) by {
        assert("title"@.len() != "url"@.len());
    }
    assert("title"@ != "issn"@) by {
        assert("title"@.len() != "issn"@.len());
    }
    assert("title"@ != "note"@) by {
        assert("title"@.len() != "note"@.len());
    }
    assert("title"@ != "date"@) by {
        assert("title"@.len() != "date"@.len());
    }
}

/// The `booktitle` field of an entry holds the record's `book_title`, trimmed,
/// exactly when that is not blank; no other value lands in it.
pub proof fn lemma_booktitle_field(b: BiblioV)
    ensures
        holds_text(entry_fields_of(b), "booktitle"@, b.book_title),
{
    reveal(with_text);
    reveal(with_persons);
    reveal_strlit("author");
    reveal_strlit("editor");
    reveal_strlit("title");
    reveal_strlit("booktitle");
    reveal_strlit("journaltitle");
    reveal_strlit("series");
    reveal_strlit("volume");
    reveal_strlit("number");
    reveal_strlit("pages");
    reveal_strlit("publisher");
    reveal_strlit("institution");
    reveal_strlit("doi");
    reveal_strlit("url");
    reveal_strlit("issn");
    reveal_strlit("note");
    reveal_strlit("date");
    assert("booktitle"@ != "author"@) by {
        assert("booktitle"@.len() != "author"@.len());
    }
    assert("booktitle"@ != "editor"@) by {
        assert("booktitle"@.len() != "editor"@.len());
    }
    assert("booktitle"@ != "title"@) by {
        assert("booktitle"@.len() != "title"@.len());
    }
    assert("booktitle"@ != "journaltitle"@) by {
        assert("booktitle"@.len() != "journaltitle"@.len());
    }
    assert("booktitle"@ != "series"@) by {
        assert("booktitle"@.len() != "series"@.len());
    }
    assert("booktitle"@ != "volume"@) by {
        assert("booktitle"@.len() != "volume"@.len());
    }
    assert("booktitle"@ != "number"@) by {
        assert("booktitle"@.len() != "number"@.len());
    }
    assert("booktitle"@ != "pages"@) by {
        assert("booktitle"@.len() != "pages"@.len());
    }
    assert("booktitle"@ != "publisher"@) by {
        assert("booktitle"@[0] != "publisher"@[0]);
    }
    assert("booktitle"@ != "institution"@) by {
        assert("booktitle"@.len() != "institution"@.len());
    }
    assert("booktitle"@ != "doi"@) by {
        assert("booktitle"@.len() != "doi"@.len());
    }
    assert("booktitle"@ != "url"@) by {
        assert("booktitle"@.len() != "url"@.len());
    }
    assert("booktitle"@ != "issn"@) by {
        assert("booktitle"@.len() != "issn"@.len());
    }
    assert("booktitle"@ != "note"@) by {
        assert("booktitle"@.len() != "note"@.len());
    }
    assert("booktitle"@ != "date"@) by {
        assert("booktitle"@.len() != "date"@.len());
    }
}

/// The `journaltitle` field of an entry holds the record's `journal`, trimmed,
/// exactly when that is not blank; no other value lands in it.
pub proof fn lemma_journaltitle_field(b: BiblioV)
    ensures
        holds_text(entry_fields_of(b), "journaltitle"@, b.journal),
{
    reveal(with_text);
    reveal(with_persons);
    reveal_strlit("author");
    reveal_strlit("editor");
    reveal_strlit("title");
    reveal_strlit("booktitle");
    reveal_strlit("journaltitle");
    reveal_strlit("series");
    reveal_strlit("volume");
    reveal_strlit("number");
    reveal_strlit("pages");
    reveal_strlit("publisher");
    reveal_strlit("institution");
    reveal_strlit("doi");
    reveal_strlit("url");
    reveal_strlit("issn");
    reveal_strlit("note");
    reveal_strlit("date");
    assert("journaltitle"@ != "author"@) by {
        assert("journaltitle"@.len() != "author"@.len());
    }
    assert("journaltitle"@ != "editor"@) by {
        assert("journaltitle"@.len() != "editor"@.len());
    }
    assert("journaltitle"@ != "title"@) by {
        assert("journaltitle"@.len() != "title"@.len());
    }
    assert("journaltitle"@ != "booktitle"@) by {
        assert("journaltitle"@.len() != "booktitle"@.len());
    }
    assert("journaltitle"@ != "series"@) by {
        assert("journaltitle"@.len() != "series"@.len());
    }
    assert("journaltitle"@ != "volume"@) by {
        assert("journaltitle"@.len() != "volume"@.len());
    }
    assert("journaltitle"@ != "number"@) by {
        assert("journaltitle"@.len() != "number"@.len());
    }
    assert("journaltitle"@ != "pages"@) by {
        assert("journaltitle"@.len() != "pages"@.len());
    }
    assert("journaltitle"@ != "publisher"@) by {
        assert("journaltitle"@.len() != "publisher"@.len());
    }
    assert("journaltitle"@ != "institution"@) by {
        assert("journaltitle"@.len() != "institution"@.len());
    }
    assert("journaltitle"@ != "doi"@) by {
        assert("journaltitle"@.len() != "doi"@.len());
    }
    assert("journaltitle"@ != "url"@) by {
        assert("journaltitle"@.len() != "url"@.len());
    }
    assert("journaltitle"@ != "issn"@) by {
        assert("journaltitle"@.len() != "issn"@.len());
    }
    assert("journaltitle"@ != "note"@) by {
        assert("journaltitle"@.len() != "note"@.len());
    }
    assert("journaltitle"@ != "date"@) by {
        assert("journaltitle"@.len() != "date"@.len());
    }
}

/// The `series` field of an entry holds the record's `series_title`, trimmed,
/// exactly when that is not blank; no other value lands in it.
pub proof fn lemma_series_field(b: BiblioV)
    ensures
        holds_text(entry_fields_of(b), "series"@, b.series_title),
{
    reveal(with_text);
    reveal(with_persons);
    reveal_strlit("author");
    reveal_strlit("editor");
    reveal_strlit("title");
    reveal_strlit("booktitle");
    reveal_strlit("journaltitle");
    reveal_strlit("series");
    reveal_strlit("volume");
    reveal_strlit("number");
    reveal_strlit("pages");
    reveal_strlit("publisher");
    reveal_strlit("institution");
    reveal_strlit("doi");
    reveal_strlit("url");
    reveal_strlit("issn");
    reveal_strlit("note");
    reveal_strlit("date");
    assert("series"@ != "author"@) by {
        assert("series"@[0] != "author"@[0]);
    }
    assert("series"@ != "editor"@) by {
        assert("series"@[0] != "editor"@[0]);
    }
    assert("series"@ != "title"@) by {
        assert("series"@.len() != "title"@.len());
    }
    assert("series"@ != "booktitle"@) by {
        assert("series"@.len() != "booktitle"@.len());
    }
    assert("series"@ != "journaltitle"@) by {
        assert("series"@.len() != "journaltitle"@.len());
    }
    assert("series"@ != "volume"@) by {
        assert("series"@[0] != "volume"@[0]);
    }
    assert("series"@ != "number"@) by {
        assert("series"@[0] != "number"@[0]);
    }
    assert("series"@ != "pages"@) by {
        assert("series"@.len() != "pages"@.len());
    }
    assert("series"@ != "publisher"@) by {
        assert("series"@.len() != "publisher"@.len());
    }
    assert("series"@ != "institution"@) by {
        assert("series"@.len() != "institution"@.len());
    }
    assert("series"@ != "doi"@) by {
        assert("series"@.len() != "doi"@.len());
    }
    assert("series"@ != "url"@) by {
        assert("series"@.len() != "url"@.len());
    }
    assert("series"@ != "issn"@) by {
        assert("series"@.len() != "issn"@.len());
    }
    assert("series"@ != "note"@) by {
        assert("series"@.len() != "note"@.len());
    }
    assert("series"@ != "date"@) by {
        assert("series"@.len() != "date"@.len());
    }
}

/// The `volume` field of an entry holds the record's `volume`, trimmed,
/// exactly when that is not blank; no other value lands in it.
pub proof fn lemma_volume_field(b: BiblioV)
    ensures
        holds_text(entry_fields_of(b), "volume"@, b.volume),
{
    reveal(with_text);
    reveal(with_persons);
    reveal_strlit("author");
    reveal_strlit("editor");
    reveal_strlit("title");
    reveal_strlit("booktitle");
    reveal_strlit("journaltitle");
    reveal_strlit("series");
    reveal_strlit("volume");
    reveal_strlit("number");
    reveal_strlit("pages");
    reveal_strlit("publisher");
    reveal_strlit("institution");
    reveal_strlit("doi");
    reveal_strlit("url");
    reveal_strlit("issn");
    reveal_strlit("note");
    reveal_strlit("date");
    assert("volume"@ != "author"@) by {
        assert("volume"@[0] != "author"@[0]);
    }
    assert("volume"@ != "editor"@) by {
        assert("volume"@[0] != "editor"@[0]);
    }
    assert("volume"@ != "title"@) by {
        assert("volume"@.len() != "title"@.len());
    }
    assert("volume"@ != "booktitle"@) by {
        assert("volume"@.len() != "booktitle"@.len());
    }
    assert("volume"@ != "journaltitle"@) by {
        assert("volume"@.len() != "journaltitle"@.len());
    }
    assert("volume"@ != "series"@) by {
        assert("volume"@[0] != "series"@[0]);
    }
    assert("volume"@ != "number"@) by {
        assert("volume"@[0] != "number"@[0]);
    }
    assert("volume"@ != "pages"@) by {
        assert("volume"@.len() != "pages"@.len());
    }
    assert("volume"@ != "publisher"@) by {
        assert("volume"@.len() != "publisher"@.len());
    }
    assert("volume"@ != "institution"@) by {
        assert("volume"@.len() != "institution"@.len());
    }
    assert("volume"@ != "doi"@) by {
        assert("volume"@.len() != "doi"@.len());
    }
    assert("volume"@ != "url"@) by {
        assert("volume"@.len() != "url"@.len());
    }
    assert("volume"@ != "issn"@) by {
        assert("volume"@.len() != "issn"@.len());
    }
    assert("volume"@ != "note"@) by {
        assert("volume"@.len() != "note"@.len());
    }
    assert("volume"@ != "date"@) by {
        assert("volume"@.len() != "date"@.len());
    }
}

/// The `number` field of an entry holds the record's `issue`, trimmed,
/// exactly when that is not blank; no other value lands in it.
pub proof fn lemma_number_field(b: BiblioV)
    ensures
        holds_text(entry_fields_of(b), "number"@, b.issue),
{
    reveal(with_text);
    reveal(with_persons);
    reveal_strlit("author");
    reveal_strlit("editor");
    reveal_strlit("title");
    reveal_strlit("booktitle");
    reveal_strlit("journaltitle");
    reveal_strlit("series");
    reveal_strlit("volume");
    reveal_strlit("number");
    reveal_strlit("pages");
    reveal_strlit("publisher");
    reveal_strlit("institution");
    reveal_strlit("doi");
    reveal_strlit("url");
    reveal_strlit("issn");
    reveal_strlit("note");
    reveal_strlit("date");
    assert("number"@ != "author"@) by {
        assert("number"@[0] != "author"@[0]);
    }
    assert("number"@ != "editor"@) by {
        assert("number"@[0] != "editor"@[0]);
    }
    assert("number"@ != "title"@) by {
        assert("number"@.len() != "title"@.len());
    }
    assert("number"@ != "booktitle"@) by {
        assert("number"@.len() != "booktitle"@.len());
    }
    assert("number"@ != "journaltitle"@) by {
        assert("number"@.len() != "journaltitle"@.len());
    }
    assert("number"@ != "series"@) by {
        assert("number"@[0] != "series"@[0]);
    }
    assert("number"@ != "volume"@) by {
        assert("number"@[0] != "volume"@[0]);
    }
    assert("number"@ != "pages"@) by {
        assert("number"@.len() != "pages"@.len());
    }
    assert("number"@ != "publisher"@) by {
        assert("number"@.len() != "publisher"@.len());
    }
    assert("number"@ != "institution"@) by {
        assert("number"@.len() != "institution"@.len());
    }
    assert("number"@ != "doi"@) by {
        assert("number"@.len() != "doi"@.len());
    }
    assert("number"@ != "url"@) by {
        assert("number"@.len() != "url"@.len());
    }
    assert("number"@ != "issn"@) by {
        assert("number"@.len() != "issn"@.len());
    }
    assert("number"@ != "note"@) by {
        assert("number"@.len() != "note"@.len());
    }
    assert("number"@ != "date"@) by {
        assert("number"@.len() != "date"@.len());
    }
}

/// The `pages` field of an entry holds the record's `pages`, trimmed,
/// exactly when that is not blank; no other value lands in it.
pub proof fn lemma_pages_field(b: BiblioV)
    ensures
        holds_text(entry_fields_of(b), "pages"@, b.pages),
{
    reveal(with_text);
    reveal(with_persons);
    reveal_strlit("author");
    reveal_strlit("editor");
    reveal_strlit("title");
    reveal_strlit("booktitle");
    reveal_strlit("journaltitle");
    reveal_strlit("series");
    reveal_strlit("volume");
    reveal_strlit("number");
    reveal_strlit("pages");
    reveal_strlit("publisher");
    reveal_strlit("institution");
    reveal_strlit("doi");
    reveal_strlit("url");
    reveal_strlit("issn");
    reveal_strlit("note");
    reveal_strlit("date");
    assert("pages"@ != "author"@) by {
        assert("pages"@.len() != "author"@.len());
    }
    assert("pages"@ != "editor"@) by {
        assert("pages"@.len() != "editor"@.len());
    }
    assert("pages"@ != "title"@) by {
        assert("pages"@[0] != "title"@[0]);
    }
    assert("pages"@ != "booktitle"@) by {
        assert("pages"@.len() != "booktitle"@.len());
    }
    assert("pages"@ != "journaltitle"@) by {
        assert("pages"@.len() != "journaltitle"@.len());
    }
    assert("pages"@ != "series"@) by {
        assert("pages"@.len() != "series"@.len());
    }
    assert("pages"@ != "volume"@) by {
        assert("pages"@.len() != "volume"@.len());
    }
    assert("pages"@ != "number"@) by {
        assert("pages"@.len() != "number"@.len());
    }
    assert("pages"@ != "publisher"@) by {
        assert("pages"@.len() != "publisher"@.len());
    }
    assert("pages"@ != "institution"@) by {
        assert("pages"@.len() != "institution"@.len());
    }
    assert("pages"@ != "doi"@) by {
        assert("pages"@.len() != "doi"@.len());
    }
    assert("pages"@ != "url"@) by {
        assert("pages"@.len() != "url"@.len());
    }
    assert("pages"@ != "issn"@) by {
        assert("pages"@.len() != "issn"@.len());
    }
    assert("pages"@ != "note"@) by {
        assert("pages"@.len() != "note"@.len());
    }
    assert("pages"@ != "date"@) by {
        assert("pages"@.len() != "date"@.len());
    }
}

/// The `publisher` field of an entry holds the record's `publisher`, trimmed,
/// exactly when that is not blank; no other value lands in it.
pub proof fn lemma_publisher_field(b: BiblioV)
    ensures
        holds_text(entry_fields_of(b), "publisher"@, b.publisher),
{
    reveal(with_text);
    reveal(with_persons);
    reveal_strlit("author");
    reveal_strlit("editor");
    reveal_strlit("title");
    reveal_strlit("booktitle");
    reveal_strlit("journaltitle");
    reveal_strlit("series");
    reveal_strlit("volume");
    reveal_strlit("number");
    reveal_strlit("pages");
    reveal_strlit("publisher");
    reveal_strlit("institution");
    reveal_strlit("doi");
    reveal_strlit("url");
    reveal_strlit("issn");
    reveal_strlit("note");
    reveal_strlit("date");
    assert("publisher"@ != "author"@) by {
        assert("publisher"@.len() != "author"@.len());
    }
    assert("publisher"@ != "editor"@) by {
        assert("publisher"@.len() != "editor"@.len());
    }
    assert("publisher"@ != "title"@) by {
        assert("publisher"@.len() != "title"@.len());
    }
    assert("publisher"@ != "booktitle"@) by {
        assert("publisher"@[0] != "booktitle"@[0]);
    }
    assert("publisher"@ != "journaltitle"@) by {
        assert("publisher"@.len() != "journaltitle"@.len());
    }
    assert("publisher"@ != "series"@) by {
        assert("publisher"@.len() != "series"@.len());
    }
    assert("publisher"@ != "volume"@) by {
        assert("publisher"@.len() != "volume"@.len());
    }
    assert("publisher"@ != "number"@) by {
        assert("publisher"@.len() != "number"@.len());
    }
    assert("publisher"@ != "pages"@) by {
        assert("publisher"@.len() != "pages"@.len());
    }
    assert("publisher"@ != "institution"@) by {
        assert("publisher"@.len() != "institution"@.len());
    }
    assert("publisher"@ != "doi"@) by {
        assert("publisher"@.len() != "doi"@.len());
    }
    assert("publisher"@ != "url"@) by {
        assert("publisher"@.len() != "url"@.len());
    }
    assert("publisher"@ != "issn"@) by {
        assert("publisher"@.len() != "issn"@.len());
    }
    assert("publisher"@ != "note"@) by {
        assert("publisher"@.len() != "note"@.len());
    }
    assert("publisher"@ != "date"@) by {
        assert("publisher"@.len() != "date"@.len());
    }
}

/// The `institution` field of an entry holds the record's `institution`, trimmed,
/// exactly when that is not blank; no other value lands in it.
pub proof fn lemma_institution_field(b: BiblioV)
    ensures
        holds_text(entry_fields_of(b), "institution"@, b.institution),
{
    reveal(with_text);
    reveal(with_persons);
    reveal_strlit("author");
    reveal_strlit("editor");
    reveal_strlit("title");
    reveal_strlit("booktitle");
    reveal_strlit("journaltitle");
    reveal_strlit("series");
    reveal_strlit("volume");
    reveal_strlit("number");
    reveal_strlit("pages");
    reveal_strlit("publisher");
    reveal_strlit("institution");
    reveal_strlit("doi");
    reveal_strlit("url");
    reveal_strlit("issn");
    reveal_strlit("note");
    reveal_strlit("date");
    assert("institution"@ != "author"@) by {
        assert("institution"@.len() != "author"@.len());
    }
    assert("institution"@ != "editor"@) by {
        assert("institution"@.len() != "editor"@.len());
    }
    assert("institution"@ != "title"@) by {
        assert("institution"@.len() != "title"@.len());
    }
    assert("institution"@ != "booktitle"@) by {
        assert("institution"@.len() != "booktitle"@.len());
    }
    assert("institution"@ != "journaltitle"@) by {
        assert("institution"@.len() != "journaltitle"@.len());
    }
    assert("institution"@ != "series"@) by {
        assert("institution"@.len() != "series"@.len());
    }
    assert("institution"@ != "volume"@) by {
        assert("institution"@.len() != "volume"@.len());
    }
    assert("institution"@ != "number"@) by {
        assert("institution"@.len() != "number"@.len());
    }
    assert("institution"@ != "pages"@) by {
        assert("institution"@.len() != "pages"@.len());
    }
    assert("institution"@ != "publisher"@) by {
        assert("institution"@.len() != "publisher"@.len());
    }
    assert("institution"@ != "doi"@) by {
        assert("institution"@.len() != "doi"@.len());
    }
    assert("institution"@ != "url"@) by {
        assert("institution"@.len() != "url"@.len());
    }
    assert("institution"@ != "issn"@) by {
        assert("institution"@.len() != "issn"@.len());
    }
    assert("institution"@ != "note"@) by {
        assert("institution"@.len() != "note"@.len());
    }
    assert("institution"@ != "date"@) by {
        assert("institution"@.len() != "date"@.len());
    }
}

/// The `doi` field of an entry holds the record's `doi`, trimmed,
/// exactly when that is not blank; no other value lands in it.
pub proof fn lemma_doi_field(b: BiblioV)
    ensures
        holds_text(entry_fields_of(b), "doi"@, b.doi),
{
    reveal(with_text);
    reveal(with_persons);
    reveal_strlit("author");
    reveal_strlit("editor");
    reveal_strlit("title");
    reveal_strlit("booktitle");
    reveal_strlit("journaltitle");
    reveal_strlit("series");
    reveal_strlit("volume");
    reveal_strlit("number");
    reveal_strlit("pages");
    reveal_strlit("publisher");
    reveal_strlit("institution");
    reveal_strlit("doi");
    reveal_strlit("url");
    reveal_strlit("issn");
    reveal_strlit("note");
    reveal_strlit("date");
    assert("doi"@ != "author"@) by {
        assert("doi"@.len() != "author"@.len());
    }
    assert("doi"@ != "editor"@) by {
        assert("doi"@.len() != "editor"@.len());
    }
    assert("doi"@ != "title"@) by {
        assert("doi"@.len() != "title"@.len());
    }
    assert("doi"@ != "booktitle"@) by {
        assert("doi"@.len() != "booktitle"@.len());
    }
    assert("doi"@ != "journaltitle"@) by {
        assert("doi"@.len() != "journaltitle"@.len());
    }
    assert("doi"@ != "series"@) by {
        assert("doi"@.len() != "series"@.len());
    }
    assert("doi"@ != "volume"@) by {
        assert("doi"@.len() != "volume"@.len());
    }
    assert("doi"@ != "number"@) by {
        assert("doi"@.len() != "number"@.len());
    }
    assert("doi"@ != "pages"@) by {
        assert("doi"@.len() != "pages"@.len());
    }
    assert("doi"@ != "publisher"@) by {
        assert("doi"@.len() != "publisher"@.len());
    }
    assert("doi"@ != "institution"@) by {
        assert("doi"@.len() != "institution"@.len());
    }
    assert("doi"@ != "url"@) by {
        assert("doi"@[0] != "url"@[0]);
    }
    assert("doi"@ != "issn"@) by {
        assert("doi"@.len() != "issn"@.len());
    }
    assert("doi"@ != "note"@) by {
        assert("doi"@.len() != "note"@.len());
    }
    assert("doi"@ != "date"@) by {
        assert("doi"@.len() != "date"@.len());
    }
}

/// The `url` field of an entry holds the record's `url`, trimmed,
/// exactly when that is not blank; no other value lands in it.
pub proof fn lemma_url_field(b: BiblioV)
    ensures
        holds_text(entry_fields_of(b), "url"@, b.url),
{
    reveal(with_text);
    reveal(with_persons);
    reveal_strlit("author");
    reveal_strlit("editor");
    reveal_strlit("title");
    reveal_strlit("booktitle");
    reveal_strlit("journaltitle");
    reveal_strlit("series");
    reveal_strlit("volume");
    reveal_strlit("number");
    reveal_strlit("pages");
    reveal_strlit("publisher");
    reveal_strlit("institution");
    reveal_strlit("doi");
    reveal_strlit("url");
    reveal_strlit("issn");
    reveal_strlit("note");
    reveal_strlit("date");
    assert("url"@ != "author"@) by {
        assert("url"@.len() != "author"@.len());
    }
    assert("url"@ != "editor"@) by {
        assert("url"@.len() != "editor"@.len());
    }
    assert("url"@ != "title"@) by {
        assert("url"@.len() != "title"@.len());
    }
    assert("url"@ != "booktitle"@) by {
        assert("url"@.len() != "booktitle"@.len());
    }
    assert("url"@ != "journaltitle"@) by {
        assert("url"@.len() != "journaltitle"@.len());
    }
    assert("url"@ != "series"@) by {
        assert("url"@.len() != "series"@.len());
    }
    assert("url"@ != "volume"@) by {
        assert("url"@.len() != "volume"@.len());
    }
    assert("url"@ != "number"@) by {
        assert("url"@.len() != "number"@.len());
    }
    assert("url"@ != "pages"@) by {
        assert("url"@.len() != "pages"@.len());
    }
    assert("url"@ != "publisher"@) by {
        assert("url"@.len() != "publisher"@.len());
    }
    assert("url"@ != "institution"@) by {
        assert("url"@.len() != "institution"@.len());
    }
    assert("url"@ != "doi"@) by {
        assert("url"@[0] != "doi"@[0]);
    }
    assert("url"@ != "issn"@) by {
        assert("url"@.len() != "issn"@.len());
    }
    assert("url"@ != "note"@) by {
        assert("url"@.len() != "note"@.len());
    }
    assert("url"@ != "date"@) by {
        assert("url"@.len() != "date"@.len());
    }
}

/// The `issn` field of an entry holds the record's `issn`, trimmed,
/// exactly when that is not blank; no other value lands in it.
pub proof fn lemma_issn_field(b: BiblioV)
    ensures
        holds_text(entry_fields_of(b), "issn"@, b.issn),
{
    reveal(with_text);
    reveal(with_persons);
    reveal_strlit("author");
    reveal_strlit("editor");
    reveal_strlit("title");
    reveal_strlit("booktitle");
    reveal_strlit("journaltitle");
    reveal_strlit("series");
    reveal_strlit("volume");
    reveal_strlit("number");
    reveal_strlit("pages");
    reveal_strlit("publisher");
    reveal_strlit("institution");
    reveal_strlit("doi");
    reveal_strlit("url");
    reveal_strlit("issn");
    reveal_strlit("note");
    reveal_strlit("date");
    assert("issn"@ != "author"@) by {
        assert("issn"@.len() != "author"@.len());
    }
    assert("issn"@ != "editor"@) by {
        assert("issn"@.len() != "editor"@.len());
    }
    assert("issn"@ != "title"@) by {
        assert("issn"@.len() != "title"@.len());
    }
    assert("issn"@ != "booktitle"@) by {
        assert("issn"@.len() != "booktitle"@.len());
    }
    assert("issn"@ != "journaltitle"@) by {
        assert("issn"@.len() != "journaltitle"@.len());
    }
    assert("issn"@ != "series"@) by {
        assert("issn"@.len() != "series"@.len());
    }
    assert("issn"@ != "volume"@) by {
        assert("issn"@.len() != "volume"@.len());
    }
    assert("issn"@ != "number"@) by {
        assert("issn"@.len() != "number"@.len());
    }
    assert("issn"@ != "pages"@) by {
        assert("issn"@.len() != "pages"@.len());
    }
    assert("issn"@ != "publisher"@) by {
        assert("issn"@.len() != "publisher"@.len());
    }
    assert("issn"@ != "institution"@) by {
        assert("issn"@.len() != "institution"@.len());
    }
    assert("issn"@ != "doi"@) by {
        assert("issn"@.len() != "doi"@.len());
    }
    assert("issn"@ != "url"@) by {
        assert("issn"@.len() != "url"@.len());
    }
    assert("issn"@ != "note"@) by {
        assert("issn"@[0] != "note"@[0]);
    }
    assert("issn"@ != "date"@) by {
        assert("issn"@[0] != "date"@[0]);
    }
}

/// The `note` field of an entry holds the record's `note`, trimmed,
/// exactly when that is not blank; no other value lands in it.
pub proof fn lemma_note_field(b: BiblioV)
    ensures
        holds_text(entry_fields_of(b), "note"@, b.note),
{
    reveal(with_text);
    reveal(with_persons);
    reveal_strlit("author");
    reveal_strlit("editor");
    reveal_strlit("title");
    reveal_strlit("booktitle");
    reveal_strlit("journaltitle");
    reveal_strlit("series");
    reveal_strlit("volume");
    reveal_strlit("number");
    reveal_strlit("pages");
    reveal_strlit("publisher");
    reveal_strlit("institution");
    reveal_strlit("doi");
    reveal_strlit("url");
    reveal_strlit("issn");
    reveal_strlit("note");
    reveal_strlit("date");
    assert("note"@ != "author"@) by {
        assert("note"@.len() != "author"@.len());
    }
    assert("note"@ != "editor"@) by {
        assert("note"@.len() != "editor"@.len());
    }
    assert("note"@ != "title"@) by {
        assert("note"@.len() != "title"@.len());
    }
    assert("note"@ != "booktitle"@) by {
        assert("note"@.len() != "booktitle"@.len());
    }
    assert("note"@ != "journaltitle"@) by {
        assert("note"@.len() != "journaltitle"@.len());
    }
    assert("note"@ != "series"@) by {
        assert("note"@.len() != "series"@.len());
    }
    assert("note"@ != "volume"@) by {
        assert("note"@.len() != "volume"@.len());
    }
    assert("note"@ != "number"@) by {
        assert("note"@.len() != "number"@.len());
    }
    assert("note"@ != "pages"@) by {
        assert("note"@.len() != "pages"@.len());
    }
    assert("note"@ != "publisher"@) by {
        assert("note"@.len() != "publisher"@.len());
    }
    assert("note"@ != "institution"@) by {
        assert("note"@.len() != "institution"@.len());
    }
    assert("note"@ != "doi"@) by {
        assert("note"@.len() != "doi"@.len());
    }
    assert("note"@ != "url"@) by {
        assert("note"@.len() != "url"@.len());
    }
    assert("note"@ != "issn"@) by {
        assert("note"@[0] != "issn"@[0]);
    }
    assert("note"@ != "date"@) by {
        assert("note"@[0] != "date"@[0]);
    }
}

/// The `author` field of an entry holds the persons of the record's
/// `authors` exactly when there are any.
#[verifier::rlimit(60)]
pub proof fn lemma_author_field(b: BiblioV)
    ensures
        holds_persons(entry_fields_of(b), "author"@, persons_of(b.authors)),
{
    reveal(with_text);
    reveal(with_persons);
    reveal_strlit("author");
    reveal_strlit("editor");
    reveal_strlit("title");
    reveal_strlit("booktitle");
    reveal_strlit("journaltitle");
    reveal_strlit("series");
    reveal_strlit("volume");
    reveal_strlit("number");
    reveal_strlit("pages");
    reveal_strlit("publisher");
    reveal_strlit("institution");
    reveal_strlit("doi");
    reveal_strlit("url");
    reveal_strlit("issn");
    reveal_strlit("note");
    reveal_strlit("date");
    assert("author"@ != "editor"@) by {
        assert("author"@[0] != "editor"@[0]);
    }
    assert("author"@ != "title"@) by {
        assert("author"@.len() != "title"@.len());
    }
    assert("author"@ != "booktitle"@) by {
        assert("author"@.len() != "booktitle"@.len());
    }
    assert("author"@ != "journaltitle"@) by {
        assert("author"@.len() != "journaltitle"@.len());
    }
    assert("author"@ != "series"@) by {
        assert("author"@[0] != "series"@[0]);
    }
    assert("author"@ != "volume"@) by {
        assert("author"@[0] != "volume"@[0]);
    }
    assert("author"@ != "number"@) by {
        assert("author"@[0] != "number"@[0]);
    }
    assert("author"@ != "pages"@) by {
        assert("author"@.len() != "pages"@.len());
    }
    assert("author"@ != "publisher"@) by {
        assert("author"@.len() != "publisher"@.len());
    }
    assert("author"@ != "institution"@) by {
        assert("author"@.len() != "institution"@.len());
    }
    assert("author"@ != "doi"@) by {
        assert("author"@.len() != "doi"@.len());
    }
    assert("author"@ != "url"@) by {
        assert("author"@.len() != "url"@.len());
    }
    assert("author"@ != "issn"@) by {
        assert("author"@.len() != "issn"@.len());
    }
    assert("author"@ != "note"@) by {
        assert("author"@.len() != "note"@.len());
    }
    assert("author"@ != "date"@) by {
        assert("author"@.len() != "date"@.len());
    }
}

/// The `editor` field of an entry holds the persons of the record's
/// `editors` exactly when there are any.
#[verifier::rlimit(60)]
pub proof fn lemma_editor_field(b: BiblioV)
    ensures
        holds_persons(entry_fields_of(b), "editor"@, persons_of(b.editors)),
{
    reveal(with_text);
    reveal(with_persons);
    reveal_strlit("author");
    reveal_strlit("editor");
    reveal_strlit("title");
    reveal_strlit("booktitle");
    reveal_strlit("journaltitle");
    reveal_strlit("series");
    reveal_strlit("volume");
    reveal_strlit("number");
    reveal_strlit("pages");
    reveal_strlit("publisher");
    reveal_strlit("institution");
    reveal_strlit("doi");
    reveal_strlit("url");
    reveal_strlit("issn");
    reveal_strlit("note");
    reveal_strlit("date");
    assert("editor"@ != "author"@) by {
        assert("editor"@[0] != "author"@[0]);
    }
    assert("editor"@ != "title"@) by {
        assert("editor"@.len() != "title"@.len());
    }
    assert("editor"@ != "booktitle"@) by {
        assert("editor"@.len() != "booktitle"@.len());
    }
    assert("editor"@ != "journaltitle"@) by {
        assert("editor"@.len() != "journaltitle"@.len());
    }
    assert("editor"@ != "series"@) by {
        assert("editor"@[0] != "series"@[0]);
    }
    assert("editor"@ != "volume"@) by {
        assert("editor"@[0] != "volume"@[0]);
    }
    assert("editor"@ != "number"@) by {
        assert("editor"@[0] != "number"@[0]);
    }
    assert("editor"@ != "pages"@) by {
        assert("editor"@.len() != "pages"@.len());
    }
    assert("editor"@ != "publisher"@) by {
        assert("editor"@.len() != "publisher"@.len());
    }
    assert("editor"@ != "institution"@) by {
        assert("editor"@.len() != "institution"@.len());
    }
    assert("editor"@ != "doi"@) by {
        assert("editor"@.len() != "doi"@.len());
    }
    assert("editor"@ != "url"@) by {
        assert("editor"@.len() != "url"@.len());
    }
    assert("editor"@ != "issn"@) by {
        assert("editor"@.len() != "issn"@.len());
    }
    assert("editor"@ != "note"@) by {
        assert("editor"@.len() != "note"@.len());
    }
    assert("editor"@ != "date"@) by {
        assert("editor"@.len() != "date"@.len());
    }
}


/// The `date` field of an entry holds the record's date as year,
/// zero-based month and day, written as `biblatex::Datetime` writes them.
pub proof fn lemma_date_field_value(b: BiblioV)
    ensures
        date_parts(b.date) matches Some(t) ==> entry_fields_of(b)["date"@] == seq![
            ChunkV::Normal(date_text(t.0, t.1, t.2)),
        ],
{
}

/// Entry types follow the record's metadata in order of precedence: a
/// journal makes an article whatever else is set; then a book title a
/// chapter, a series a conference paper, an institution a report, a
/// publisher a book; a record with none of these is `misc`.
pub proof fn lemma_entry_kind_precedence(b: BiblioV)
    ensures
        b.journal is Some ==> entry_kind_of(b) == EntryKind::Article,
        b.journal is None && b.book_title is Some ==> entry_kind_of(b) == EntryKind::InCollection,
        b.journal is None && b.book_title is None && b.series_title is Some ==> entry_kind_of(b)
            == EntryKind::InProceedings,
        b.journal is None && b.book_title is None && b.series_title is None && b.institution is Some
            ==> entry_kind_of(b) == EntryKind::TechReport,
        b.journal is None && b.book_title is None && b.series_title is None && b.institution is None
            && b.publisher is Some ==> entry_kind_of(b) == EntryKind::Book,
        b.journal is None && b.book_title is None && b.series_title is None && b.institution is None
            && b.publisher is None ==> entry_kind_of(b) == EntryKind::Misc,
{
}

} // verus!
