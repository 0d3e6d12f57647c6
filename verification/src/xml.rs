//! A plain-value model of a parsed XML document.
//!
//! The XML reader reports every node of a document in document order
//! (node `0` being the document root), each with its local tag name, its
//! attributes (local names), its text, its tail text and the position of
//! its parent. [`XmlDoc`] indexes the children of every element, and the
//! spec functions below describe the element tree that these records
//! induce: the element children of a node are the element records whose
//! parent is that node, in document order, and the subtree of a node is
//! the node followed by the subtrees of its children (preorder).
//!
//! All lookups match local names only and ignore namespaces.

use vstd::prelude::*;
use crate::text::{eq_str, join, seqs, trim, trim_chars, join_chars};

verus! {

#[verifier::external_type_specification]
#[verifier::external_body]
pub struct ExXmlError(roxmltree::Error);

/// An attribute of an XML element (local name and value).
pub struct XmlAttr {
    pub name: Vec<char>,
    pub value: Vec<char>,
}

/// One node of a parsed XML document.
pub struct XmlRawNode {
    /// Whether the node is an element (as opposed to the document root,
    /// text, comments or processing instructions).
    pub is_element: bool,
    /// The local tag name (empty for non-elements).
    pub name: Vec<char>,
    /// The attributes, in document order.
    pub attrs: Vec<XmlAttr>,
    /// For elements: the text of the first child when it is a text node.
    pub text: Option<Vec<char>>,
    /// For elements: the text of the next sibling when it is a text node.
    pub tail: Option<Vec<char>>,
    /// The position of the parent node, if any.
    pub parent: Option<usize>,
}

/// The view of an [`XmlAttr`].
pub ghost struct AttrV {
    pub name: Seq<char>,
    pub value: Seq<char>,
}

/// The view of an [`XmlRawNode`].
pub ghost struct RawNodeV {
    pub is_element: bool,
    pub name: Seq<char>,
    pub attrs: Seq<AttrV>,
    pub text: Option<Seq<char>>,
    pub tail: Option<Seq<char>>,
    pub parent: Option<usize>,
}

pub open spec fn opt_chars(o: Option<Vec<char>>) -> Option<Seq<char>> {
    match o {
        Some(v) => Some(v@),
        None => None,
    }
}

impl View for XmlAttr {
    type V = AttrV;

    open spec fn view(&self) -> AttrV {
        AttrV { name: self.name@, value: self.value@ }
    }
}

impl View for XmlRawNode {
    type V = RawNodeV;

    open spec fn view(&self) -> RawNodeV {
        RawNodeV {
            is_element: self.is_element,
            name: self.name@,
            attrs: self.attrs@.map_values(|a: XmlAttr| a@),
            text: opt_chars(self.text),
            tail: opt_chars(self.tail),
            parent: self.parent,
        }
    }
}

/// The views of a sequence of nodes.
pub open spec fn nodes_view(v: Seq<XmlRawNode>) -> Seq<RawNodeV> {
    v.map_values(|n: XmlRawNode| n@)
}

/// What the XML reader reports for a text: `None` when the text is not
/// well-formed XML, else the nodes of the document in document order.
pub uninterp spec fn xml_nodes(xml: Seq<char>) -> Option<Seq<RawNodeV>>;

/// Reads `xml` with `roxmltree::Document::parse` and reports every node of
/// the document (`Document::descendants`, in document order) as a plain
/// record. The contract claims that the result is a function of the text
/// alone, named by [`xml_nodes`]; what that function is, is roxmltree's.
#[verifier::external_body]
pub(crate) fn read_xml(xml: &str) -> (res: Result<Vec<XmlRawNode>, roxmltree::Error>)
    ensures
        match res {
            Ok(v) => xml_nodes(xml@) == Some(nodes_view(v@)),
            Err(_) => xml_nodes(xml@) is None,
        },
{
    let doc = roxmltree::Document::parse(xml)?;
    Ok(doc.descendants().map(|n| XmlRawNode {
        is_element: n.is_element(),
        name: n.tag_name().name().chars().collect(),
        attrs: n.attributes().map(|a| XmlAttr { name: a.name().chars().collect(), value: a.value().chars().collect() }).collect(),
        text: n.text().map(|t| t.chars().collect()),
        tail: n.tail().map(|t| t.chars().collect()),
        parent: n.parent().map(|p| p.id().get_usize()),
    }).collect())
}

// ---------------------------------------------------------------------------
// The element tree
// ---------------------------------------------------------------------------

/// Node `j` is an element child of node `k`.
pub open spec fn is_child(d: Seq<RawNodeV>, j: int, k: int) -> bool {
    &&& 0 <= k < j < d.len()
    &&& d[j].is_element
    &&& d[j].parent == Some(k as usize)
}

/// The element children of `k` among the nodes before `m`, in document order.
pub open spec fn children_below(d: Seq<RawNodeV>, k: int, m: int) -> Seq<int>
    decreases m,
{
    if m <= 0 {
        seq![]
    } else if is_child(d, m - 1, k) {
        children_below(d, k, m - 1).push(m - 1)
    } else {
        children_below(d, k, m - 1)
    }
}

/// The element children of `k`, in document order.
pub open spec fn children(d: Seq<RawNodeV>, k: int) -> Seq<int> {
    children_below(d, k, d.len() as int)
}

/// The subtree of `k` in preorder: `k`, then the subtrees of its children.
pub open spec fn subtree(d: Seq<RawNodeV>, k: int) -> Seq<int>
    decreases d.len() - k, 1int, 0int,
{
    if 0 <= k < d.len() {
        seq![k] + subtrees(d, k, children(d, k))
    } else {
        seq![]
    }
}

/// The subtrees of the nodes `cs` (children of `k`), concatenated in order.
pub open spec fn subtrees(d: Seq<RawNodeV>, k: int, cs: Seq<int>) -> Seq<int>
    decreases d.len() - k, 0int, cs.len(),
{
    if cs.len() == 0 {
        seq![]
    } else if k < cs.last() < d.len() {
        subtrees(d, k, cs.drop_last()) + subtree(d, cs.last())
    } else {
        subtrees(d, k, cs.drop_last())
    }
}

pub open spec fn as_ints(s: Seq<usize>) -> Seq<int> {
    s.map_values(|x: usize| x as int)
}

pub proof fn lemma_children_below_bounds(d: Seq<RawNodeV>, k: int, m: int)
    ensures
        forall|i: int|
            0 <= i < children_below(d, k, m).len() ==> is_child(d, #[trigger] children_below(d, k, m)[i], k),
        forall|i: int, j: int|
            0 <= i < j < children_below(d, k, m).len() ==> children_below(d, k, m)[i] < children_below(d, k, m)[j],
        forall|i: int|
            0 <= i < children_below(d, k, m).len() ==> children_below(d, k, m)[i] < m,
    decreases m,
{
    if m > 0 {
        lemma_children_below_bounds(d, k, m - 1);
        let prev = children_below(d, k, m - 1);
        if is_child(d, m - 1, k) {
            let cur = prev.push(m - 1);
            assert(children_below(d, k, m) == cur);
            assert forall|i: int| 0 <= i < cur.len() implies is_child(d, #[trigger] cur[i], k) by {
                if i < prev.len() {
                    assert(cur[i] == prev[i]);
                }
            }
            assert forall|i: int, j: int| 0 <= i < j < cur.len() implies cur[i] < cur[j] by {
                assert(cur[i] == prev[i]);
                if j < prev.len() {
                    assert(cur[j] == prev[j]);
                }
            }
        }
    }
}

/// Every child of `k` lies after `k` and within the document.
pub proof fn lemma_children_bounds(d: Seq<RawNodeV>, k: int)
    ensures
        forall|i: int| 0 <= i < children(d, k).len() ==> is_child(d, #[trigger] children(d, k)[i], k),
{
    lemma_children_below_bounds(d, k, d.len() as int);
}

/// An index of the element children of every node.
pub struct XmlDoc {
    pub nodes: Vec<XmlRawNode>,
    pub kids: Vec<Vec<usize>>,
}

impl XmlDoc {
    /// The nodes of the document, as views.
    pub open spec fn d(&self) -> Seq<RawNodeV> {
        nodes_view(self.nodes@)
    }

    /// `kids[k]` lists the element children of `k`.
    pub open spec fn wf(&self) -> bool {
        &&& self.kids@.len() == self.nodes@.len()
        &&& forall|k: int| 0 <= k < self.kids@.len() ==> as_ints(#[trigger] self.kids@[k]@) == children(self.d(), k)
    }

    /// Indexes the children of every node of `nodes`.
    pub fn new(nodes: Vec<XmlRawNode>) -> (r: XmlDoc)
        ensures
            r.wf(),
            r.nodes@ == nodes@,
    {
        let n = nodes.len();
        let ghost d = nodes_view(nodes@);
        let mut kids: Vec<Vec<usize>> = Vec::new();
        for i in 0..n
            invariant
                n == nodes.len(),
                kids@.len() == i,
                forall|k: int| 0 <= k < i ==> (#[trigger] kids@[k])@.len() == 0,
        {
            kids.push(Vec::new());
        }
        for j in 0..n
            invariant
                n == nodes.len(),
                d == nodes_view(nodes@),
                kids@.len() == n,
                forall|k: int| 0 <= k < n ==> as_ints(#[trigger] kids@[k]@) == children_below(d, k, j as int),
        {
            let ghost before = kids@;
            if nodes[j].is_element {
                if let Some(p) = nodes[j].parent {
                    if p < j {
                        let mut list = Vec::new();
                        std::mem::swap(&mut list, &mut kids[p]);
                        list.push(j);
                        kids.set(p, list);
                        proof {
                            assert(as_ints(kids@[p as int]@) =~= as_ints(before[p as int]@).push(j as int));
                            assert forall|k: int| 0 <= k < n implies as_ints(#[trigger] kids@[k]@) == children_below(d, k, j + 1) by {
                                if k != p {
                                    assert(kids@[k] == before[k]);
                                }
                            }
                        }
                    }
                }
            }
            proof {
                assert forall|k: int| 0 <= k < n implies as_ints(#[trigger] kids@[k]@) == children_below(d, k, j + 1) by {
                    if !(d[j as int].is_element && d[j as int].parent == Some(k as usize) && k < j) {
                        assert(!is_child(d, j as int, k));
                    }
                }
            }
        }
        XmlDoc { nodes, kids }
    }
}

// ---------------------------------------------------------------------------
// Names, attributes and node tests
// ---------------------------------------------------------------------------

/// The value of the first attribute named `name` among `attrs`.
pub open spec fn attr_in(attrs: Seq<AttrV>, name: Seq<char>) -> Option<Seq<char>>
    decreases attrs.len(),
{
    if attrs.len() == 0 {
        None
    } else if attrs[0].name == name {
        Some(attrs[0].value)
    } else {
        attr_in(attrs.drop_first(), name)
    }
}

/// The value of the attribute of node `k` with local name `name`.
pub open spec fn attr_of(d: Seq<RawNodeV>, k: int, name: Seq<char>) -> Option<Seq<char>> {
    attr_in(d[k].attrs, name)
}

/// Node `k` is an element with local name `tag`.
pub open spec fn has_tag(d: Seq<RawNodeV>, k: int, tag: Seq<char>) -> bool {
    d[k].is_element && d[k].name == tag
}

/// A condition on the attributes of an element.
pub enum AttrTest {
    /// No condition.
    Any,
    /// The attribute has the value.
    Is(&'static str, &'static str),
    /// The attribute is absent.
    Missing(&'static str),
    /// The attribute is present.
    Has(&'static str),
    /// Both attributes have their values.
    IsIs(&'static str, &'static str, &'static str, &'static str),
    /// The first attribute has the value and the second is absent.
    IsMissing(&'static str, &'static str, &'static str),
}

/// An element test: a local tag name and a condition on the attributes.
pub struct Matcher {
    pub tag: &'static str,
    pub test: AttrTest,
}

pub open spec fn attr_test(d: Seq<RawNodeV>, k: int, t: AttrTest) -> bool {
    match t {
        AttrTest::Any => true,
        AttrTest::Is(a, v) => attr_of(d, k, a@) == Some(v@),
        AttrTest::Missing(a) => attr_of(d, k, a@) is None,
        AttrTest::Has(a) => attr_of(d, k, a@) is Some,
        AttrTest::IsIs(a, v, b, w) => attr_of(d, k, a@) == Some(v@) && attr_of(d, k, b@) == Some(w@),
        AttrTest::IsMissing(a, v, b) => attr_of(d, k, a@) == Some(v@) && attr_of(d, k, b@) is None,
    }
}

/// Node `k` passes the test `m`.
pub open spec fn passes(d: Seq<RawNodeV>, k: int, m: Matcher) -> bool {
    has_tag(d, k, m.tag@) && attr_test(d, k, m.test)
}

/// The first node of `s` that passes `m`.
pub open spec fn first_match(d: Seq<RawNodeV>, s: Seq<int>, m: Matcher) -> Option<int>
    decreases s.len(),
{
    if s.len() == 0 {
        None
    } else if passes(d, s[0], m) {
        Some(s[0])
    } else {
        first_match(d, s.drop_first(), m)
    }
}

/// The nodes of `s` that pass `m`, in order.
pub open spec fn all_matches(d: Seq<RawNodeV>, s: Seq<int>, m: Matcher) -> Seq<int> {
    s.filter(|j: int| passes(d, j, m))
}

/// `o` as an optional integer.
pub open spec fn opt_int(o: Option<usize>) -> Option<int> {
    match o {
        Some(x) => Some(x as int),
        None => None,
    }
}

pub proof fn lemma_first_match_add(d: Seq<RawNodeV>, a: Seq<int>, b: Seq<int>, m: Matcher)
    ensures
        first_match(d, a + b, m) == (match first_match(d, a, m) {
            Some(x) => Some(x),
            None => first_match(d, b, m),
        }),
    decreases a.len(),
{
    if a.len() == 0 {
        assert(a + b =~= b);
    } else {
        assert((a + b).drop_first() =~= a.drop_first() + b);
        lemma_first_match_add(d, a.drop_first(), b, m);
    }
}

pub proof fn lemma_subtrees_add(d: Seq<RawNodeV>, k: int, a: Seq<int>, b: Seq<int>)
    ensures
        subtrees(d, k, a + b) == subtrees(d, k, a) + subtrees(d, k, b),
    decreases b.len(),
{
    if b.len() == 0 {
        assert(a + b =~= a);
        assert(subtrees(d, k, a) + seq![] =~= subtrees(d, k, a));
    } else {
        assert((a + b).drop_last() =~= a + b.drop_last());
        lemma_subtrees_add(d, k, a, b.drop_last());
        if k < b.last() < d.len() {
            assert(subtrees(d, k, a) + subtrees(d, k, b.drop_last()) + subtree(d, b.last()) =~= subtrees(d, k, a) + (
            subtrees(d, k, b.drop_last()) + subtree(d, b.last())));
        }
    }
}

/// The element ancestors of `j`, or `j` itself, include an element with
/// local name `tag` (following parent positions, each before its child).
pub open spec fn has_ancestor_tag(d: Seq<RawNodeV>, j: int, tag: Seq<char>) -> bool
    decreases j,
{
    &&& 0 <= j < d.len()
    &&& (has_tag(d, j, tag) || match d[j].parent {
        Some(p) => (p as int) < j && has_ancestor_tag(d, p as int, tag),
        None => false,
    })
}

/// The text fragment that an optional text contributes: the trimmed text,
/// when it is not empty.
pub open spec fn frag(o: Option<Seq<char>>) -> Seq<Seq<char>> {
    match o {
        Some(t) => if trim(t).len() > 0 {
            seq![trim(t)]
        } else {
            seq![]
        },
        None => seq![],
    }
}

/// The trimmed, non-empty text fragments of the subtree of `k`, in
/// document order: its text, then for each element child the fragments of
/// the child followed by the child's tail.
pub open spec fn fragments(d: Seq<RawNodeV>, k: int) -> Seq<Seq<char>>
    decreases d.len() - k, 1int, 0int,
{
    if 0 <= k < d.len() {
        frag(d[k].text) + fragments_of(d, k, children(d, k))
    } else {
        seq![]
    }
}

/// The fragments contributed by the children `cs` of `k`.
pub open spec fn fragments_of(d: Seq<RawNodeV>, k: int, cs: Seq<int>) -> Seq<Seq<char>>
    decreases d.len() - k, 0int, cs.len(),
{
    if cs.len() == 0 {
        seq![]
    } else if k < cs.last() < d.len() {
        fragments_of(d, k, cs.drop_last()) + fragments(d, cs.last()) + frag(d[cs.last()].tail)
    } else {
        fragments_of(d, k, cs.drop_last())
    }
}

/// The text of the subtree of `k`: its fragments joined with single spaces.
pub open spec fn text_of(d: Seq<RawNodeV>, k: int) -> Seq<char> {
    join(fragments(d, k), seq![' '])
}

/// The text of `k`, or `None` when it is empty.
pub open spec fn nonempty_text(d: Seq<RawNodeV>, k: int) -> Option<Seq<char>> {
    if text_of(d, k).len() == 0 {
        None
    } else {
        Some(text_of(d, k))
    }
}

/// The root element: the first element child of the document node.
pub open spec fn root_element(d: Seq<RawNodeV>) -> Option<int> {
    if children(d, 0).len() > 0 {
        Some(children(d, 0)[0])
    } else {
        None
    }
}

impl XmlDoc {
    /// The value of the attribute of `k` with local name `name`.
    pub fn attr(&self, k: usize, name: &str) -> (r: Option<&Vec<char>>)
        requires
            k < self.nodes@.len(),
        ensures
            match r {
                Some(v) => attr_of(self.d(), k as int, name@) == Some(v@),
                None => attr_of(self.d(), k as int, name@) is None,
            },
    {
        let attrs = &self.nodes[k].attrs;
        let ghost full = self.d()[k as int].attrs;
        assert(full =~= attrs@.map_values(|a: XmlAttr| a@));
        assert(full.skip(0) =~= full);
        for i in 0..attrs.len()
            invariant
                full == attrs@.map_values(|a: XmlAttr| a@),
                full == self.d()[k as int].attrs,
                attr_in(full, name@) == attr_in(full.skip(i as int), name@),
        {
            assert(full.skip(i as int).drop_first() =~= full.skip(i + 1));
            assert(full.skip(i as int)[0] == attrs@[i as int]@);
            if eq_str(&attrs[i].name, name) {
                assert(full.skip(i as int).len() > 0);
                assert(full.skip(i as int)[0].name == name@);
                assert(attr_in(full.skip(i as int), name@) == Some(attrs@[i as int].value@));
                return Some(&attrs[i].value);
            }
        }
        assert(full.skip(attrs.len() as int).len() == 0);
        None
    }

    /// The attribute value as an owned copy.
    pub fn attr_owned(&self, k: usize, name: &str) -> (r: Option<Vec<char>>)
        requires
            k < self.nodes@.len(),
        ensures
            opt_chars(r) == attr_of(self.d(), k as int, name@),
    {
        match self.attr(k, name) {
            Some(v) => Some(v.clone()),
            None => None,
        }
    }

    /// Whether `k` is an element with local name `tag`.
    pub fn is_tag(&self, k: usize, tag: &str) -> (r: bool)
        requires
            k < self.nodes@.len(),
        ensures
            r == has_tag(self.d(), k as int, tag@),
    {
        self.nodes[k].is_element && eq_str(&self.nodes[k].name, tag)
    }

    fn attr_is(&self, k: usize, a: &str, v: &str) -> (r: bool)
        requires
            k < self.nodes@.len(),
        ensures
            r == (attr_of(self.d(), k as int, a@) == Some(v@)),
    {
        match self.attr(k, a) {
            Some(x) => eq_str(x, v),
            None => false,
        }
    }

    /// Whether `k` passes the test `m`.
    pub fn passes(&self, k: usize, m: &Matcher) -> (r: bool)
        requires
            k < self.nodes@.len(),
        ensures
            r == passes(self.d(), k as int, *m),
    {
        if !self.is_tag(k, m.tag) {
            return false;
        }
        match m.test {
            AttrTest::Any => true,
            AttrTest::Is(a, v) => self.attr_is(k, a, v),
            AttrTest::Missing(a) => self.attr(k, a).is_none(),
            AttrTest::Has(a) => self.attr(k, a).is_some(),
            AttrTest::IsIs(a, v, b, w) => self.attr_is(k, a, v) && self.attr_is(k, b, w),
            AttrTest::IsMissing(a, v, b) => self.attr_is(k, a, v) && self.attr(k, b).is_none(),
        }
    }

    /// The first node of the subtree of `k` (in document order, `k`
    /// included) that passes `m`.
    pub fn find_first(&self, k: usize, m: &Matcher) -> (r: Option<usize>)
        requires
            self.wf(),
            k < self.nodes@.len(),
        ensures
            opt_int(r) == first_match(self.d(), subtree(self.d(), k as int), *m),
        decreases self.nodes@.len() - k,
    {
        let ghost d = self.d();
        let ghost cs = children(d, k as int);
        proof {
            lemma_children_bounds(d, k as int);
        }
        if self.passes(k, m) {
            assert(subtree(d, k as int)[0] == k as int);
            return Some(k);
        }
        let kids = &self.kids[k];
        assert(as_ints(kids@) == cs);
        for t in 0..kids.len()
            invariant
                self.wf(),
                k < self.nodes@.len(),
                d == self.d(),
                cs == children(d, k as int),
                as_ints(kids@) == cs,
                kids == &self.kids@[k as int],
                !passes(d, k as int, *m),
                forall|i: int| 0 <= i < cs.len() ==> is_child(d, #[trigger] cs[i], k as int),
                first_match(d, subtrees(d, k as int, cs.take(t as int)), *m) is None,
        {
            let c = kids[t];
            assert(cs[t as int] == c as int);
            assert(cs.take(t + 1).drop_last() =~= cs.take(t as int));
            assert(is_child(d, c as int, k as int));
            let found = self.find_first(c, m);
            proof {
                lemma_first_match_add(d, subtrees(d, k as int, cs.take(t as int)), subtree(d, c as int), *m);
            }
            if found.is_some() {
                proof {
                    let tk = cs.take(t + 1);
                    assert(tk.last() == c as int);
                    assert(subtrees(d, k as int, tk) == subtrees(d, k as int, cs.take(t as int)) + subtree(d, c as int));
                    assert(first_match(d, subtrees(d, k as int, tk), *m) == opt_int(found));
                    assert(cs =~= tk + cs.skip(t + 1));
                    lemma_subtrees_add(d, k as int, tk, cs.skip(t + 1));
                    lemma_first_match_add(d, subtrees(d, k as int, tk), subtrees(d, k as int, cs.skip(t + 1)), *m);
                    assert(first_match(d, subtrees(d, k as int, cs), *m) == opt_int(found));
                    let whole = seq![k as int] + subtrees(d, k as int, cs);
                    assert(subtree(d, k as int) =~= whole);
                    assert(whole.drop_first() =~= subtrees(d, k as int, cs));
                    assert(whole[0] == k as int);
                }
                return found;
            }
        }
        proof {
            assert(cs.take(cs.len() as int) =~= cs);
            assert(subtree(d, k as int) =~= seq![k as int] + subtrees(d, k as int, cs));
            assert((seq![k as int] + subtrees(d, k as int, cs)).drop_first() =~= subtrees(d, k as int, cs));
        }
        None
    }

    /// The first element child of `k` that passes `m`.
    pub fn first_child(&self, k: usize, m: &Matcher) -> (r: Option<usize>)
        requires
            self.wf(),
            k < self.nodes@.len(),
        ensures
            opt_int(r) == first_match(self.d(), children(self.d(), k as int), *m),
    {
        let ghost d = self.d();
        let ghost cs = children(d, k as int);
        proof {
            lemma_children_bounds(d, k as int);
        }
        let kids = &self.kids[k];
        assert(cs.skip(0) =~= cs);
        for t in 0..kids.len()
            invariant
                self.wf(),
                d == self.d(),
                cs == children(d, k as int),
                as_ints(kids@) == cs,
                forall|i: int| 0 <= i < cs.len() ==> is_child(d, #[trigger] cs[i], k as int),
                first_match(d, cs, *m) == first_match(d, cs.skip(t as int), *m),
        {
            let c = kids[t];
            assert(cs[t as int] == c as int);
            assert(cs.skip(t as int).drop_first() =~= cs.skip(t + 1));
            assert(cs.skip(t as int)[0] == c as int);
            if self.passes(c, m) {
                assert(cs.skip(t as int).len() > 0);
                assert(passes(d, cs.skip(t as int)[0], *m));
                assert(first_match(d, cs.skip(t as int), *m) == Some(c as int));
                return Some(c);
            }
        }
        assert(cs.skip(cs.len() as int).len() == 0);
        None
    }

    /// All element children of `k` that pass `m`, in document order.
    pub fn children_matching(&self, k: usize, m: &Matcher) -> (r: Vec<usize>)
        requires
            self.wf(),
            k < self.nodes@.len(),
        ensures
            as_ints(r@) == all_matches(self.d(), children(self.d(), k as int), *m),
            forall|i: int| 0 <= i < r@.len() ==> is_child(self.d(), #[trigger] r@[i] as int, k as int),
    {
        let ghost d = self.d();
        let ghost cs = children(d, k as int);
        proof {
            lemma_children_bounds(d, k as int);
        }
        let kids = &self.kids[k];
        let mut r: Vec<usize> = Vec::new();
        for t in 0..kids.len()
            invariant
                self.wf(),
                d == self.d(),
                cs == children(d, k as int),
                as_ints(kids@) == cs,
                forall|i: int| 0 <= i < cs.len() ==> is_child(d, #[trigger] cs[i], k as int),
                as_ints(r@) == all_matches(d, cs.take(t as int), *m),
                forall|i: int| 0 <= i < r@.len() ==> is_child(d, #[trigger] r@[i] as int, k as int),
        {
            let c = kids[t];
            assert(cs[t as int] == c as int);
            assert(cs.take(t + 1) =~= cs.take(t as int).push(c as int));
            proof {
                cs.take(t as int).lemma_filter_push(c as int, |j: int| passes(d, j, *m));
            }
            if self.passes(c, m) {
                r.push(c);
                assert(as_ints(r@) =~= as_ints(r@.drop_last()).push(c as int));
            }
        }
        assert(cs.take(cs.len() as int) =~= cs);
        r
    }

    /// Appends to `out` the nodes of the subtree of `k` that pass `m`.
    fn collect_matches(&self, k: usize, m: &Matcher, out: &mut Vec<usize>)
        requires
            self.wf(),
            k < self.nodes@.len(),
        ensures
            as_ints(final(out)@) == as_ints(old(out)@) + all_matches(self.d(), subtree(self.d(), k as int), *m),
        decreases self.nodes@.len() - k,
    {
        let ghost d = self.d();
        let ghost cs = children(d, k as int);
        let ghost start = as_ints(out@);
        let ghost pred = |j: int| passes(d, j, *m);
        proof {
            lemma_children_bounds(d, k as int);
        }
        if self.passes(k, m) {
            out.push(k);
            assert(as_ints(out@) =~= start.push(k as int));
        }
        assert(as_ints(out@) =~= start + all_matches(d, seq![k as int], *m)) by {
            reveal_with_fuel(Seq::filter, 2);
        }
        let kids = &self.kids[k];
        for t in 0..kids.len()
            invariant
                self.wf(),
                k < self.nodes@.len(),
                d == self.d(),
                pred == (|j: int| passes(d, j, *m)),
                cs == children(d, k as int),
                start == as_ints(old(out)@),
                as_ints(kids@) == cs,
                forall|i: int| 0 <= i < cs.len() ==> is_child(d, #[trigger] cs[i], k as int),
                as_ints(out@) == start + all_matches(d, seq![k as int] + subtrees(d, k as int, cs.take(t as int)), *m),
        {
            let c = kids[t];
            assert(cs[t as int] == c as int);
            assert(cs.take(t + 1).drop_last() =~= cs.take(t as int));
            assert(is_child(d, c as int, k as int));
            let ghost before = as_ints(out@);
            self.collect_matches(c, m, out);
            proof {
                let a = seq![k as int] + subtrees(d, k as int, cs.take(t as int));
                assert(seq![k as int] + subtrees(d, k as int, cs.take(t + 1)) =~= a + subtree(d, c as int));
                Seq::filter_distributes_over_add(a, subtree(d, c as int), pred);
                assert(as_ints(out@) =~= start + all_matches(d, a + subtree(d, c as int), *m));
            }
        }
        proof {
            assert(cs.take(cs.len() as int) =~= cs);
            assert(subtree(d, k as int) =~= seq![k as int] + subtrees(d, k as int, cs));
        }
    }

    /// All nodes of the subtree of `k` (in document order, `k` included)
    /// that pass `m`.
    pub fn find_all(&self, k: usize, m: &Matcher) -> (r: Vec<usize>)
        requires
            self.wf(),
            k < self.nodes@.len(),
        ensures
            as_ints(r@) == all_matches(self.d(), subtree(self.d(), k as int), *m),
    {
        let mut r: Vec<usize> = Vec::new();
        self.collect_matches(k, m, &mut r);
        assert(as_ints(r@) =~= seq![] + all_matches(self.d(), subtree(self.d(), k as int), *m));
        r
    }

    /// Appends to `out` the fragments of the subtree of `k`.
    fn collect_fragments(&self, k: usize, out: &mut Vec<Vec<char>>)
        requires
            self.wf(),
            k < self.nodes@.len(),
        ensures
            seqs(final(out)@) == seqs(old(out)@) + fragments(self.d(), k as int),
        decreases self.nodes@.len() - k,
    {
        let ghost d = self.d();
        let ghost cs = children(d, k as int);
        let ghost start = seqs(out@);
        proof {
            lemma_children_bounds(d, k as int);
        }
        push_fragment(&self.nodes[k].text, out);
        let kids = &self.kids[k];
        for t in 0..kids.len()
            invariant
                self.wf(),
                k < self.nodes@.len(),
                d == self.d(),
                cs == children(d, k as int),
                start == seqs(old(out)@),
                as_ints(kids@) == cs,
                forall|i: int| 0 <= i < cs.len() ==> is_child(d, #[trigger] cs[i], k as int),
                seqs(out@) == start + frag(d[k as int].text) + fragments_of(d, k as int, cs.take(t as int)),
        {
            let c = kids[t];
            assert(cs[t as int] == c as int);
            assert(cs.take(t + 1).drop_last() =~= cs.take(t as int));
            assert(is_child(d, c as int, k as int));
            self.collect_fragments(c, out);
            push_fragment(&self.nodes[c].tail, out);
            proof {
                let tk = cs.take(t + 1);
                assert(tk.last() == c as int);
                assert(seqs(out@) =~= start + frag(d[k as int].text) + fragments_of(d, k as int, tk));
            }
        }
        proof {
            assert(cs.take(cs.len() as int) =~= cs);
            assert(seqs(out@) =~= start + fragments(d, k as int));
        }
    }

    /// The text of the subtree of `k`: all trimmed, non-empty text
    /// fragments in document order, joined with single spaces.
    pub fn text_of(&self, k: usize) -> (r: Vec<char>)
        requires
            self.wf(),
            k < self.nodes@.len(),
        ensures
            r@ == text_of(self.d(), k as int),
    {
        let mut parts: Vec<Vec<char>> = Vec::new();
        self.collect_fragments(k, &mut parts);
        assert(seqs(parts@) =~= fragments(self.d(), k as int));
        let sep = vec![' '];
        assert(sep@ =~= seq![' ']);
        join_chars(&parts, &sep)
    }

    /// The text of `k`, or `None` when it is empty.
    pub fn nonempty_text(&self, k: usize) -> (r: Option<Vec<char>>)
        requires
            self.wf(),
            k < self.nodes@.len(),
        ensures
            opt_chars(r) == nonempty_text(self.d(), k as int),
    {
        let t = self.text_of(k);
        if t.len() == 0 {
            None
        } else {
            Some(t)
        }
    }

    /// Whether `j` or one of its ancestors is an element named `tag`.
    pub fn has_ancestor_tag(&self, j: usize, tag: &str) -> (r: bool)
        requires
            j < self.nodes@.len(),
        ensures
            r == has_ancestor_tag(self.d(), j as int, tag@),
        decreases j,
    {
        if self.is_tag(j, tag) {
            return true;
        }
        match self.nodes[j].parent {
            Some(p) => {
                if p < j {
                    self.has_ancestor_tag(p, tag)
                } else {
                    false
                }
            },
            None => false,
        }
    }

    /// The root element of the document.
    pub fn root_element(&self) -> (r: Option<usize>)
        requires
            self.wf(),
        ensures
            opt_int(r) == root_element(self.d()),
            r matches Some(x) ==> x < self.nodes@.len(),
    {
        if self.nodes.len() == 0 {
            return None;
        }
        proof {
            lemma_children_bounds(self.d(), 0);
        }
        let kids = &self.kids[0];
        if kids.len() > 0 {
            assert(children(self.d(), 0)[0] == kids@[0] as int);
            Some(kids[0])
        } else {
            None
        }
    }
}

/// Appends the fragment of an optional text to `out`.
fn push_fragment(o: &Option<Vec<char>>, out: &mut Vec<Vec<char>>)
    ensures
        seqs(final(out)@) == seqs(old(out)@) + frag(opt_chars(*o)),
{
    match o {
        Some(t) => {
            let tt = trim_chars(t);
            if tt.len() > 0 {
                out.push(tt);
                assert(seqs(out@) =~= seqs(old(out)@) + frag(opt_chars(*o)));
            } else {
                assert(seqs(out@) =~= seqs(old(out)@) + frag(opt_chars(*o)));
            }
        },
        None => {
            assert(seqs(out@) =~= seqs(old(out)@) + frag(opt_chars(*o)));
        },
    }
}

} // verus!
