//! Parsing of the compact `@coords` notation and of the numbers in it.
//!
//! A `@coords` value consists of bounding boxes separated by `;`, each box
//! being `page,x,y,width,height`. The page is an unsigned decimal integer
//! and the other four fields are decimal floating-point literals.

use vstd::prelude::*;
use crate::error::{ErrorV, GrobidError};
use crate::model::{BoundingBox, BoundingBoxV, Coords};
use crate::text::{chars_to_string, seqs, str_chars, trim, trim_chars};

verus! {

/// The pieces of `s` between the separators `c` (`str::split`): one piece
/// more than there are separators.
pub open spec fn split(s: Seq<char>, c: char) -> Seq<Seq<char>>
    decreases s.len(),
{
    if s.len() == 0 {
        seq![seq![]]
    } else if s.last() == c {
        split(s.drop_last(), c).push(seq![])
    } else {
        let p = split(s.drop_last(), c);
        p.update(p.len() - 1, p.last().push(s.last()))
    }
}

pub proof fn lemma_split_nonempty(s: Seq<char>, c: char)
    ensures
        split(s, c).len() >= 1,
    decreases s.len(),
{
    if s.len() > 0 {
        lemma_split_nonempty(s.drop_last(), c);
    }
}

/// The pieces of `s` between the separators `c`.
pub fn split_chars(s: &Vec<char>, c: char) -> (r: Vec<Vec<char>>)
    ensures
        seqs(r@) == split(s@, c),
        r@.len() >= 1,
{
    let mut parts: Vec<Vec<char>> = Vec::new();
    parts.push(Vec::new());
    assert(s@.take(0).len() == 0);
    assert(seqs(parts@) =~= split(s@.take(0), c));
    for i in 0..s.len()
        invariant
            seqs(parts@) == split(s@.take(i as int), c),
            parts@.len() >= 1,
    {
        let ch = s[i];
        let ghost prev = seqs(parts@);
        assert(s@.take(i + 1).drop_last() =~= s@.take(i as int));
        assert(s@.take(i + 1).last() == ch);
        if ch == c {
            parts.push(Vec::new());
            assert(seqs(parts@) =~= prev.push(seq![]));
        } else {
            let mut last = parts.pop().unwrap();
            last.push(ch);
            parts.push(last);
            assert(seqs(parts@) =~= prev.update(prev.len() - 1, prev.last().push(ch)));
        }
    }
    assert(s@.take(s.len() as int) =~= s@);
    parts
}

pub open spec fn is_digit(c: char) -> bool {
    '0' <= c && c <= '9'
}

pub open spec fn all_digits(s: Seq<char>) -> bool {
    forall|i: int| 0 <= i < s.len() ==> is_digit(#[trigger] s[i])
}

/// The value of a string of decimal digits.
pub open spec fn digits_value(s: Seq<char>) -> nat
    decreases s.len(),
{
    if s.len() == 0 {
        0
    } else {
        digits_value(s.drop_last()) * 10 + (s.last() as nat - '0' as nat) as nat
    }
}

/// What `u32::from_str` accepts and returns: an optional `+`, then one or
/// more decimal digits whose value fits in a `u32`.
pub open spec fn u32_value(s: Seq<char>) -> Option<u32> {
    let ds = if s.len() > 0 && s[0] == '+' {
        s.drop_first()
    } else {
        s
    };
    if ds.len() > 0 && all_digits(ds) && digits_value(ds) <= u32::MAX {
        Some(digits_value(ds) as u32)
    } else {
        None
    }
}

proof fn lemma_digits_value_grows(s: Seq<char>, i: int)
    requires
        0 <= i <= s.len(),
        all_digits(s),
    ensures
        digits_value(s.take(i)) <= digits_value(s),
    decreases s.len() - i,
{
    if i < s.len() {
        lemma_digits_value_grows(s, i + 1);
        assert(s.take(i + 1).drop_last() =~= s.take(i));
        assert(is_digit(s[i]));
    } else {
        assert(s.take(i) =~= s);
    }
}

/// Parses an unsigned 32-bit decimal integer as `u32::from_str` does.
pub fn parse_u32(s: &Vec<char>) -> (r: Option<u32>)
    ensures
        r == u32_value(s@),
{
    let start: usize = if s.len() > 0 && s[0] == '+' {
        1
    } else {
        0
    };
    let ghost ds = if s@.len() > 0 && s@[0] == '+' {
        s@.drop_first()
    } else {
        s@
    };
    assert(ds =~= s@.skip(start as int));
    if start >= s.len() {
        return None;
    }
    let mut v: u64 = 0;
    let mut i = start;
    while i < s.len()
        invariant
            start <= i <= s.len(),
            start < s.len(),
            ds == s@.skip(start as int),
            ds == (if s@.len() > 0 && s@[0] == '+' { s@.drop_first() } else { s@ }),
            v as nat == digits_value(ds.take(i - start)),
            v <= u32::MAX,
            all_digits(ds.take(i - start)),
        decreases s.len() - i,
    {
        let c = s[i];
        assert(ds.take(i - start + 1).drop_last() =~= ds.take(i - start));
        assert(ds.take(i - start + 1).last() == c);
        if !('0' <= c && c <= '9') {
            assert(ds[i - start] == c);
            assert(!is_digit(ds[i - start]));
            assert(!all_digits(ds));
            return None;
        }
        v = v * 10 + (c as u64 - '0' as u64);
        assert(all_digits(ds.take(i - start + 1)));
        if v > u32::MAX as u64 {
            proof {
                assert(forall|j: int| 0 <= j < ds.take(i - start + 1).len() ==> ds.take(i - start + 1)[j] == ds[j]);
                if all_digits(ds) {
                    lemma_digits_value_grows(ds, i - start + 1);
                    assert(digits_value(ds) > u32::MAX);
                }
                assert(u32_value(s@) is None);
            }
            return None;
        }
        i += 1;
    }
    assert(ds.take(i - start) =~= ds);
    Some(v as u32)
}

/// The lower-case form of an ASCII letter; other characters unchanged.
pub open spec fn ascii_lower(c: char) -> char {
    if 'A' <= c && c <= 'Z' {
        ((c as u32) + 32) as char
    } else {
        c
    }
}

/// `s` equals the lower-case word `w` when ASCII letters are lower-cased.
pub open spec fn eq_ignore_case(s: Seq<char>, w: Seq<char>) -> bool {
    s.len() == w.len() && forall|i: int| 0 <= i < s.len() ==> ascii_lower(#[trigger] s[i]) == w[i]
}

/// The number of `.` in `s`.
pub open spec fn count_dots(s: Seq<char>) -> nat
    decreases s.len(),
{
    if s.len() == 0 {
        0
    } else {
        count_dots(s.drop_last()) + if s.last() == '.' {
            1nat
        } else {
            0nat
        }
    }
}

/// `Digit+ | Digit+ '.' Digit* | Digit* '.' Digit+`: digits with at most
/// one `.`, and at least one digit.
pub open spec fn is_mantissa(m: Seq<char>) -> bool {
    &&& forall|i: int| 0 <= i < m.len() ==> (is_digit(#[trigger] m[i]) || m[i] == '.')
    &&& count_dots(m) <= 1
    &&& exists|i: int| 0 <= i < m.len() && is_digit(#[trigger] m[i])
}

/// `Sign? Digit+`.
pub open spec fn is_signed_digits(e: Seq<char>) -> bool {
    let ds = if e.len() > 0 && (e[0] == '+' || e[0] == '-') {
        e.drop_first()
    } else {
        e
    };
    ds.len() > 0 && all_digits(ds)
}

pub open spec fn is_exp_char(c: char) -> bool {
    c == 'e' || c == 'E'
}

/// `Number ::= Mantissa ('e' Sign? Digit+)?`, `e` in either case.
pub open spec fn is_number(s: Seq<char>) -> bool {
    ||| is_mantissa(s)
    ||| exists|i: int|
        0 <= i < s.len() && is_exp_char(#[trigger] s[i]) && is_mantissa(s.take(i)) && is_signed_digits(
            s.skip(i + 1),
        )
}

/// What `f64::from_str` accepts: `Sign? ('inf' | 'infinity' | 'nan' |
/// Number)`, the words in any case.
pub open spec fn is_float_literal(s: Seq<char>) -> bool {
    let u = if s.len() > 0 && (s[0] == '+' || s[0] == '-') {
        s.drop_first()
    } else {
        s
    };
    ||| eq_ignore_case(u, seq!['i', 'n', 'f'])
    ||| eq_ignore_case(u, seq!['i', 'n', 'f', 'i', 'n', 'i', 't', 'y'])
    ||| eq_ignore_case(u, seq!['n', 'a', 'n'])
    ||| is_number(u)
}

fn lower(c: char) -> (r: char)
    ensures
        r == ascii_lower(c),
{
    if 'A' <= c && c <= 'Z' {
        let b: u8 = (c as u32 - 'A' as u32) as u8;
        (b + 97u8) as char
    } else {
        c
    }
}

/// Whether `s[from..]` equals the lower-case `word` ignoring ASCII case.
fn eq_ignore_case_from(s: &Vec<char>, from: usize, word: &str) -> (r: bool)
    requires
        from <= s.len(),
    ensures
        r == eq_ignore_case(s@.skip(from as int), word@),
{
    let n = word.unicode_len();
    if s.len() - from != n {
        return false;
    }
    for i in 0..n
        invariant
            from <= s.len(),
            s.len() - from == n,
            n == word@.len(),
            forall|j: int| 0 <= j < i ==> ascii_lower(#[trigger] s@.skip(from as int)[j]) == word@[j],
    {
        if lower(s[from + i]) != word.get_char(i) {
            assert(s@.skip(from as int)[i as int] == s@[from + i]);
            return false;
        }
    }
    true
}

proof fn lemma_count_dots_push(s: Seq<char>, c: char)
    ensures
        count_dots(s.push(c)) == count_dots(s) + if c == '.' { 1nat } else { 0nat },
{
    assert(s.push(c).drop_last() =~= s);
}

/// Whether `s[from..to]` is a mantissa.
fn check_mantissa(s: &Vec<char>, from: usize, to: usize) -> (r: bool)
    requires
        from <= to <= s.len(),
    ensures
        r == is_mantissa(s@.subrange(from as int, to as int)),
{
    let ghost m = s@.subrange(from as int, to as int);
    let mut dots: usize = 0;
    let mut digits = false;
    let mut i = from;
    while i < to
        invariant
            from <= i <= to <= s.len(),
            m == s@.subrange(from as int, to as int),
            forall|j: int| 0 <= j < i - from ==> (is_digit(#[trigger] m[j]) || m[j] == '.'),
            dots as nat == count_dots(m.take(i - from)),
            dots <= 1,
            digits == exists|j: int| 0 <= j < i - from && is_digit(#[trigger] m[j]),
        decreases to - i,
    {
        let c = s[i];
        assert(m[i - from] == c);
        assert(m.take(i - from + 1) =~= m.take(i - from).push(c));
        proof {
            lemma_count_dots_push(m.take(i - from), c);
        }
        if '0' <= c && c <= '9' {
            digits = true;
        } else if c == '.' {
            if dots == 1 {
                proof {
                    lemma_count_dots_prefix(m, i - from + 1);
                }
                return false;
            }
            dots = 1;
        } else {
            return false;
        }
        i += 1;
    }
    assert(m.take(m.len() as int) =~= m);
    digits
}

proof fn lemma_count_dots_prefix(s: Seq<char>, i: int)
    requires
        0 <= i <= s.len(),
    ensures
        count_dots(s.take(i)) <= count_dots(s),
    decreases s.len() - i,
{
    if i < s.len() {
        lemma_count_dots_prefix(s, i + 1);
        assert(s.take(i + 1).drop_last() =~= s.take(i));
    } else {
        assert(s.take(i) =~= s);
    }
}

/// Whether `s[from..]` is `Sign? Digit+`.
fn check_signed_digits(s: &Vec<char>, from: usize) -> (r: bool)
    requires
        from <= s.len(),
    ensures
        r == is_signed_digits(s@.skip(from as int)),
{
    let ghost e = s@.skip(from as int);
    let mut i = from;
    if i < s.len() && (s[i] == '+' || s[i] == '-') {
        i += 1;
    }
    let ghost ds = s@.skip(i as int);
    assert(ds =~= (if e.len() > 0 && (e[0] == '+' || e[0] == '-') { e.drop_first() } else { e }));
    if i >= s.len() {
        return false;
    }
    let start = i;
    while i < s.len()
        invariant
            start <= i <= s.len(),
            ds == s@.skip(start as int),
            e == s@.skip(from as int),
            ds == (if e.len() > 0 && (e[0] == '+' || e[0] == '-') { e.drop_first() } else { e }),
            forall|j: int| 0 <= j < i - start ==> is_digit(#[trigger] ds[j]),
        decreases s.len() - i,
    {
        if !('0' <= s[i] && s[i] <= '9') {
            assert(ds[i - start] == s@[i as int]);
            assert(!all_digits(ds));
            return false;
        }
        i += 1;
    }
    true
}

/// Whether `s` is a floating-point literal that `f64::from_str` accepts.
pub fn is_float(s: &Vec<char>) -> (r: bool)
    ensures
        r == is_float_literal(s@),
{
    let from: usize = if s.len() > 0 && (s[0] == '+' || s[0] == '-') {
        1
    } else {
        0
    };
    let ghost u = s@.skip(from as int);
    assert(u =~= (if s@.len() > 0 && (s@[0] == '+' || s@[0] == '-') { s@.drop_first() } else { s@ }));
    if eq_ignore_case_from(s, from, "inf") || eq_ignore_case_from(s, from, "infinity")
        || eq_ignore_case_from(s, from, "nan") {
        proof {
            reveal_strlit("inf");
            reveal_strlit("infinity");
            reveal_strlit("nan");
            assert("inf"@ =~= seq!['i', 'n', 'f']);
            assert("infinity"@ =~= seq!['i', 'n', 'f', 'i', 'n', 'i', 't', 'y']);
            assert("nan"@ =~= seq!['n', 'a', 'n']);
        }
        return true;
    }
    proof {
        reveal_strlit("inf");
        reveal_strlit("infinity");
        reveal_strlit("nan");
        assert("inf"@ =~= seq!['i', 'n', 'f']);
        assert("infinity"@ =~= seq!['i', 'n', 'f', 'i', 'n', 'i', 't', 'y']);
        assert("nan"@ =~= seq!['n', 'a', 'n']);
    }
    let mut e = from;
    while e < s.len() && !(s[e] == 'e' || s[e] == 'E')
        invariant
            from <= e <= s.len(),
            forall|j: int| from <= j < e ==> !is_exp_char(#[trigger] s@[j]),
        decreases s.len() - e,
    {
        e += 1;
    }
    if e == s.len() {
        let r = check_mantissa(s, from, s.len());
        proof {
            assert(s@.subrange(from as int, s.len() as int) =~= u);
            assert forall|i: int| 0 <= i < u.len() implies !is_exp_char(#[trigger] u[i]) by {
                assert(u[i] == s@[from + i]);
            }
        }
        return r;
    }
    let m = check_mantissa(s, from, e);
    let x = check_signed_digits(s, e + 1);
    proof {
        let k = e - from;
        assert(s@.subrange(from as int, e as int) =~= u.take(k));
        assert(s@.skip(e + 1) =~= u.skip(k + 1));
        assert(u[k] == s@[e as int]);
        assert(is_exp_char(u[k]));
        // u itself contains an exponent character, so it is no mantissa
        assert(!is_digit(u[k]) && u[k] != '.');
        // any exponent position other than k breaks the mantissa before it
        assert forall|i: int|
            0 <= i < u.len() && is_exp_char(#[trigger] u[i]) && is_mantissa(u.take(i)) implies i == k by {
            if i < k {
                assert(u[i] == s@[from + i]);
            } else if i > k {
                assert(u.take(i)[k] == u[k]);
            }
        }
    }
    m && x
}

/// The bounding box that one `;`-separated piece of a `@coords` value
/// describes: five `,`-separated fields, trimmed, the first an unsigned
/// integer and the others floating-point literals.
pub open spec fn box_of(part: Seq<char>) -> Option<BoundingBoxV> {
    let f = split(part, ',');
    if f.len() == 5 && u32_value(trim(f[0])) is Some && is_float_literal(trim(f[1])) && is_float_literal(
        trim(f[2]),
    ) && is_float_literal(trim(f[3])) && is_float_literal(trim(f[4])) {
        Some(
            BoundingBoxV {
                page: u32_value(trim(f[0]))->0,
                x: trim(f[1]),
                y: trim(f[2]),
                width: trim(f[3]),
                height: trim(f[4]),
            },
        )
    } else {
        None
    }
}

/// The boxes of all pieces, or `None` when one of them is malformed.
pub open spec fn boxes_of(parts: Seq<Seq<char>>) -> Option<Seq<BoundingBoxV>>
    decreases parts.len(),
{
    if parts.len() == 0 {
        Some(seq![])
    } else {
        match (boxes_of(parts.drop_last()), box_of(parts.last())) {
            (Some(bs), Some(b)) => Some(bs.push(b)),
            _ => None,
        }
    }
}

/// What a `@coords` value denotes: one box per `;`-separated piece, or the
/// error that names the value when a piece is malformed.
pub open spec fn coords_parse(v: Seq<char>) -> Result<Seq<BoundingBoxV>, ErrorV> {
    match boxes_of(split(v, ';')) {
        Some(bs) => Ok(bs),
        None => Err(ErrorV::InvalidCoords(v)),
    }
}

/// The box of one piece of a `@coords` value.
fn parse_box(part: &Vec<char>) -> (r: Option<BoundingBox>)
    ensures
        match r {
            Some(b) => box_of(part@) == Some(b@),
            None => box_of(part@) is None,
        },
{
    let raw = split_chars(part, ',');
    if raw.len() != 5 {
        return None;
    }
    let f0 = trim_chars(&raw[0]);
    let f1 = trim_chars(&raw[1]);
    let f2 = trim_chars(&raw[2]);
    let f3 = trim_chars(&raw[3]);
    let f4 = trim_chars(&raw[4]);
    assert(raw@[0]@ == split(part@, ',')[0]);
    assert(raw@[1]@ == split(part@, ',')[1]);
    assert(raw@[2]@ == split(part@, ',')[2]);
    assert(raw@[3]@ == split(part@, ',')[3]);
    assert(raw@[4]@ == split(part@, ',')[4]);
    let page = match parse_u32(&f0) {
        Some(p) => p,
        None => return None,
    };
    if !(is_float(&f1) && is_float(&f2) && is_float(&f3) && is_float(&f4)) {
        return None;
    }
    Some(
        BoundingBox {
            page,
            x: chars_to_string(&f1),
            y: chars_to_string(&f2),
            width: chars_to_string(&f3),
            height: chars_to_string(&f4),
        },
    )
}

impl Coords {
    /// Parse a GROBID `@coords` attribute value: bounding boxes separated
    /// by `;`, each box being `page,x,y,width,height`, e.g.
    /// `1,53.80,194.57,58.71,9.29;1,53.80,202.57,58.71,9.29`.
    pub fn parse(value: &str) -> (r: Result<Coords, GrobidError>)
        ensures
            match r {
                Ok(c) => coords_parse(value@) == Ok::<Seq<BoundingBoxV>, ErrorV>(c@),
                Err(e) => coords_parse(value@) == Err::<Seq<BoundingBoxV>, ErrorV>(e@),
            },
    {
        let chars = str_chars(value);
        Coords::parse_chars(&chars)
    }

    /// [`Coords::parse`] on the characters of a value.
    pub fn parse_chars(chars: &Vec<char>) -> (r: Result<Coords, GrobidError>)
        ensures
            match r {
                Ok(c) => coords_parse(chars@) == Ok::<Seq<BoundingBoxV>, ErrorV>(c@),
                Err(e) => coords_parse(chars@) == Err::<Seq<BoundingBoxV>, ErrorV>(e@),
            },
    {
        let parts = split_chars(chars, ';');
        let ghost ps = seqs(parts@);
        let mut boxes: Vec<BoundingBox> = Vec::new();
        for i in 0..parts.len()
            invariant
                ps == seqs(parts@),
                ps == split(chars@, ';'),
                boxes_of(ps.take(i as int)) == Some(boxes@.map_values(|b: BoundingBox| b@)),
        {
            assert(ps.take(i + 1).drop_last() =~= ps.take(i as int));
            assert(ps.take(i + 1).last() == parts@[i as int]@);
            match parse_box(&parts[i]) {
                Some(b) => {
                    boxes.push(b);
                    assert(boxes@.map_values(|b: BoundingBox| b@) =~= boxes@.drop_last().map_values(
                        |b: BoundingBox| b@,
                    ).push(b@));
                },
                None => {
                    proof {
                        assert(boxes_of(ps.take(i + 1)) is None);
                        lemma_boxes_of_prefix(ps, i + 1);
                    }
                    let e = GrobidError::InvalidCoords { value: chars_to_string(chars) };
                    return Err(e);
                },
            }
        }
        assert(ps.take(ps.len() as int) =~= ps);
        Ok(Coords { boxes })
    }
}

proof fn lemma_boxes_of_prefix(ps: Seq<Seq<char>>, i: int)
    requires
        0 <= i <= ps.len(),
        boxes_of(ps.take(i)) is None,
    ensures
        boxes_of(ps) is None,
    decreases ps.len() - i,
{
    if i < ps.len() {
        assert(ps.take(i + 1).drop_last() =~= ps.take(i));
        lemma_boxes_of_prefix(ps, i + 1);
    } else {
        assert(ps.take(i) =~= ps);
    }
}

/// No piece of a split holds the separator.
pub proof fn lemma_split_pieces_lack_separator(s: Seq<char>, c: char)
    ensures
        forall|i: int, j: int|
            0 <= i < split(s, c).len() && 0 <= j < split(s, c)[i].len() ==> #[trigger] split(s, c)[i][j] != c,
    decreases s.len(),
{
    if s.len() > 0 {
        lemma_split_pieces_lack_separator(s.drop_last(), c);
        lemma_split_nonempty(s.drop_last(), c);
        let p = split(s.drop_last(), c);
        if s.last() != c {
            assert forall|i: int, j: int|
                0 <= i < split(s, c).len() && 0 <= j < split(s, c)[i].len() implies #[trigger] split(s, c)[i][j] != c by {
                if i == p.len() - 1 {
                    if j < p.last().len() {
                        assert(split(s, c)[i][j] == p[i][j]);
                    }
                } else {
                    assert(split(s, c)[i] == p[i]);
                }
            }
        } else {
            assert forall|i: int, j: int|
                0 <= i < split(s, c).len() && 0 <= j < split(s, c)[i].len() implies #[trigger] split(s, c)[i][j] != c by {
                if i < p.len() {
                    assert(split(s, c)[i] == p[i]);
                }
            }
        }
    }
}

proof fn lemma_boxes_of_len(parts: Seq<Seq<char>>)
    ensures
        boxes_of(parts) matches Some(bs) ==> bs.len() == parts.len(),
    decreases parts.len(),
{
    if parts.len() > 0 {
        lemma_boxes_of_len(parts.drop_last());
    }
}

/// A `@coords` value that parses gives one bounding box per
/// `;`-separated piece.
pub proof fn lemma_one_box_per_piece(value: Seq<char>)
    ensures
        coords_parse(value) matches Ok(bs) ==> bs.len() == split(value, ';').len(),
{
    lemma_boxes_of_len(split(value, ';'));
}

} // verus!
