//! A model of the parsed HTML documents of the `select` crate, and the
//! queries the scrapers run on them.
//!
//! `select::document::Document` keeps its nodes in one vector, in the order
//! in which the parser met them (a preorder of the tree), each with the index
//! of its parent. The library speaks of a document through that vector, seen
//! as a sequence of `DomNode`s, and of nodes through their indices.

use vstd::prelude::*;
use select::document::Document;
use select::predicate::{Attr, Class, Name, Predicate};

use crate::text::is_space;

verus! {

#[verifier::external_type_specification]
#[verifier::external_body]
pub struct ExDocument(Document);

/// What a node holds: text, an element with its local name and attributes
/// (local name, value), or a comment.
pub enum DomData {
    Text(Seq<char>),
    Element(Seq<char>, Seq<(Seq<char>, Seq<char>)>),
    Comment(Seq<char>),
}

/// One node of a document: the index of its parent, if any, and its data.
pub struct DomNode {
    pub parent: Option<int>,
    pub data: DomData,
}

/// The nodes a `select` document holds, in its own order.
pub uninterp spec fn document_nodes(doc: Document) -> Seq<DomNode>;

/// The nodes that `Document::from(&str)` builds from an HTML text.
pub uninterp spec fn parsed_nodes(html: Seq<char>) -> Seq<DomNode>;

/// `j` lies strictly below `a` in the tree.
pub open spec fn is_ancestor(nodes: Seq<DomNode>, a: int, j: int) -> bool
    decreases j,
{
    if 0 <= j < nodes.len() {
        match nodes[j].parent {
            Some(p) => if 0 <= p < j {
                p == a || is_ancestor(nodes, a, p)
            } else {
                false
            },
            None => false,
        }
    } else {
        false
    }
}

/// The shape of what the parser builds: a parent comes before its children,
/// is an element, and every node between a parent and one of its children
/// lies below that parent (nodes are laid out in preorder).
pub open spec fn dom_well_formed(nodes: Seq<DomNode>) -> bool {
    forall|j: int|
        #![trigger nodes[j].parent]
        0 <= j < nodes.len() ==> match nodes[j].parent {
            Some(p) => {
                &&& 0 <= p < j
                &&& nodes[p].data is Element
                &&& forall|k: int| #![trigger is_ancestor(nodes, p, k)] p < k < j ==> is_ancestor(nodes, p, k)
            },
            None => true,
        }
}

/// The first attribute named `name` in `attrs`, as `Node::attr` looks it up.
pub open spec fn attr_lookup(attrs: Seq<(Seq<char>, Seq<char>)>, name: Seq<char>) -> Option<Seq<char>>
    decreases attrs.len(),
{
    if attrs.len() == 0 {
        None
    } else if attrs[0].0 == name {
        Some(attrs[0].1)
    } else {
        attr_lookup(attrs.drop_first(), name)
    }
}

pub open spec fn node_attr(n: DomNode, name: Seq<char>) -> Option<Seq<char>> {
    match n.data {
        DomData::Element(_, attrs) => attr_lookup(attrs, name),
        _ => None,
    }
}

pub open spec fn node_name(n: DomNode) -> Option<Seq<char>> {
    match n.data {
        DomData::Element(name, _) => Some(name),
        _ => None,
    }
}

/// The text a text node holds; nothing for other nodes.
pub open spec fn own_text(n: DomNode) -> Seq<char> {
    match n.data {
        DomData::Text(t) => t,
        _ => Seq::empty(),
    }
}

pub open spec fn class_attr() -> Seq<char> {
    seq!['c', 'l', 'a', 's', 's']
}

/// `c` is one of the whitespace-separated words of `v`.
pub open spec fn has_word(v: Seq<char>, c: Seq<char>) -> bool {
    &&& c.len() > 0
    &&& forall|i: int| 0 <= i < c.len() ==> !is_space(#[trigger] c[i])
    &&& exists|k: int|
        #![trigger v.subrange(k, k + c.len())]
        0 <= k && k + c.len() <= v.len() && v.subrange(k, k + c.len()) == c && (k == 0 || is_space(v[k - 1]))
            && (k + c.len() == v.len() || is_space(v[k + c.len()]))
}

/// The element carries class `c` (the `Class` predicate).
pub open spec fn has_class(n: DomNode, c: Seq<char>) -> bool {
    match node_attr(n, class_attr()) {
        Some(v) => has_word(v, c),
        None => false,
    }
}

/// The node has a parent and that parent carries class `c`.
pub open spec fn parent_has_class(nodes: Seq<DomNode>, j: int, c: Seq<char>) -> bool {
    match nodes[j].parent {
        Some(p) => 0 <= p < nodes.len() && has_class(nodes[p], c),
        None => false,
    }
}

/// The indices in `lo..hi` that satisfy `pred`, in increasing order.
pub open spec fn select_range(lo: int, hi: int, pred: spec_fn(int) -> bool) -> Seq<int>
    decreases hi - lo,
{
    if lo >= hi {
        Seq::empty()
    } else if pred(lo) {
        seq![lo] + select_range(lo + 1, hi, pred)
    } else {
        select_range(lo + 1, hi, pred)
    }
}

/// Indices of the whole document that satisfy `pred`, in document order.
pub open spec fn select_all(nodes: Seq<DomNode>, pred: spec_fn(int) -> bool) -> Seq<int> {
    select_range(0, nodes.len() as int, pred)
}

/// Indices below node `i` that satisfy `pred`, in document order.
pub open spec fn select_below(nodes: Seq<DomNode>, i: int, pred: spec_fn(int) -> bool) -> Seq<int> {
    select_range(0, nodes.len() as int, |j: int| is_ancestor(nodes, i, j) && pred(j))
}

/// `v` lists exactly the indices of `s`.
pub open spec fn lists(v: Seq<usize>, s: Seq<int>) -> bool {
    v.len() == s.len() && forall|k: int| 0 <= k < s.len() ==> v[k] as int == #[trigger] s[k]
}

/// Predicate `Class(c)`.
pub open spec fn class_pred(nodes: Seq<DomNode>, c: Seq<char>) -> spec_fn(int) -> bool {
    |j: int| has_class(nodes[j], c)
}

/// Predicate `Class(a).child(Class(b))`.
pub open spec fn class_child_class_pred(nodes: Seq<DomNode>, a: Seq<char>, b: Seq<char>) -> spec_fn(int) -> bool {
    |j: int| has_class(nodes[j], b) && parent_has_class(nodes, j, a)
}

/// Predicate `Class(a).child(Name(n))`.
pub open spec fn class_child_name_pred(nodes: Seq<DomNode>, a: Seq<char>, n: Seq<char>) -> spec_fn(int) -> bool {
    |j: int| node_name(nodes[j]) == Some(n) && parent_has_class(nodes, j, a)
}

/// Predicate `Attr(n, v)`.
pub open spec fn attr_pred(nodes: Seq<DomNode>, n: Seq<char>, v: Seq<char>) -> spec_fn(int) -> bool {
    |j: int| node_attr(nodes[j], n) == Some(v)
}

/// The text of node `i` and of every node below it, joined in document
/// order, starting the walk at index `lo`.
pub open spec fn text_from(nodes: Seq<DomNode>, i: int, lo: int) -> Seq<char>
    decreases nodes.len() - lo,
{
    if lo < 0 || lo >= nodes.len() {
        Seq::empty()
    } else {
        (if lo == i || is_ancestor(nodes, i, lo) {
            own_text(nodes[lo])
        } else {
            Seq::empty()
        }) + text_from(nodes, i, lo + 1)
    }
}

/// What `Node::text` returns for node `i`.
pub open spec fn subtree_text(nodes: Seq<DomNode>, i: int) -> Seq<char> {
    text_from(nodes, i, i)
}

/// The children of node `i`, in document order.
pub open spec fn children_of(nodes: Seq<DomNode>, i: int) -> Seq<int> {
    select_range(0, nodes.len() as int, |j: int| nodes[j].parent == Some(i))
}

/// `Document::from(&str)`: parses an HTML text.
///
/// Trusted: the nodes are a function of the text alone (html5ever parses
/// without any outside input), and `select` appends them while walking the
/// parsed tree depth first, so that they come out in preorder, with parents
/// that are elements.
#[verifier::external_body]
pub(crate) fn parse_document(html: &str) -> (doc: Document)
    ensures
        document_nodes(doc) == parsed_nodes(html@),
        dom_well_formed(document_nodes(doc)),
{
    Document::from(html)
}

/// `Document::find(Class(class))`, as the indices of the nodes found.
///
/// Trusted: `select` tests every node of the document in index order.
#[verifier::external_body]
pub(crate) fn find_class(doc: &Document, class: &str) -> (res: Vec<usize>)
    ensures
        lists(res@, select_all(document_nodes(*doc), class_pred(document_nodes(*doc), class@))),
{
    doc.find(Class(class)).map(|n| n.index()).collect()
}

/// `Document::find(Attr(name, value))`, as the indices of the nodes found.
///
/// Trusted: as `find_class`; `Attr` compares the first attribute of that
/// name with `value`.
#[verifier::external_body]
pub(crate) fn find_attr(doc: &Document, name: &str, value: &str) -> (res: Vec<usize>)
    ensures
        lists(res@, select_all(document_nodes(*doc), attr_pred(document_nodes(*doc), name@, value@))),
{
    doc.find(Attr(name, value)).map(|n| n.index()).collect()
}

/// `Document::find(Class(parent).child(Class(class)))`, as indices.
///
/// Trusted: as `find_class`; `Child` asks the node to match the second
/// predicate and its parent the first (parent links of a parsed document
/// point into it, so looking the parent up never fails).
#[verifier::external_body]
pub(crate) fn find_class_child_class(doc: &Document, parent: &str, class: &str) -> (res: Vec<usize>)
    requires
        dom_well_formed(document_nodes(*doc)),
    ensures
        lists(res@, select_all(document_nodes(*doc), class_child_class_pred(document_nodes(*doc), parent@, class@))),
{
    doc.find(Class(parent).child(Class(class))).map(|n| n.index()).collect()
}

/// `Node::find(Class(class))` on node `node`, as indices.
///
/// Trusted: `select` walks the descendants of the node depth first, which on
/// a parsed document is increasing index order.
#[verifier::external_body]
pub(crate) fn find_class_below(doc: &Document, node: usize, class: &str) -> (res: Vec<usize>)
    requires
        node < document_nodes(*doc).len(),
        dom_well_formed(document_nodes(*doc)),
    ensures
        lists(res@, select_below(document_nodes(*doc), node as int, class_pred(document_nodes(*doc), class@))),
{
    doc.nth(node).unwrap().find(Class(class)).map(|n| n.index()).collect()
}

/// `Node::find(Class(parent).child(Class(class)))` on node `node`.
///
/// Trusted: as `find_class_below` and `find_class_child_class`.
#[verifier::external_body]
pub(crate) fn find_class_child_class_below(doc: &Document, node: usize, parent: &str, class: &str) -> (res: Vec<usize>)
    requires
        node < document_nodes(*doc).len(),
        dom_well_formed(document_nodes(*doc)),
    ensures
        lists(res@, select_below(document_nodes(*doc), node as int, class_child_class_pred(document_nodes(*doc), parent@, class@))),
{
    doc.nth(node).unwrap().find(Class(parent).child(Class(class))).map(|n| n.index()).collect()
}

/// `Node::find(Class(parent).child(Name(name)))` on node `node`.
///
/// Trusted: as `find_class_below`; `Name` compares the local name of an
/// element.
#[verifier::external_body]
pub(crate) fn find_class_child_name_below(doc: &Document, node: usize, parent: &str, name: &str) -> (res: Vec<usize>)
    requires
        node < document_nodes(*doc).len(),
        dom_well_formed(document_nodes(*doc)),
    ensures
        lists(res@, select_below(document_nodes(*doc), node as int, class_child_name_pred(document_nodes(*doc), parent@, name@))),
{
    doc.nth(node).unwrap().find(Class(parent).child(Name(name))).map(|n| n.index()).collect()
}

/// `Node::text`.
///
/// Trusted: `select` appends the text of the node, if it is a text node,
/// then the text of each child in turn, recursively; on a parsed document
/// that visits the subtree in index order.
#[verifier::external_body]
pub(crate) fn text_of(doc: &Document, node: usize) -> (res: String)
    requires
        node < document_nodes(*doc).len(),
        dom_well_formed(document_nodes(*doc)),
    ensures
        res@ == subtree_text(document_nodes(*doc), node as int),
{
    doc.nth(node).unwrap().text()
}

/// `Node::attr`.
///
/// Trusted: the value of the first attribute with that local name, for an
/// element; `None` otherwise.
#[verifier::external_body]
pub(crate) fn attr_of(doc: &Document, node: usize, name: &str) -> (res: Option<String>)
    requires
        node < document_nodes(*doc).len(),
    ensures
        res is Some <==> node_attr(document_nodes(*doc)[node as int], name@) is Some,
        res matches Some(v) ==> node_attr(document_nodes(*doc)[node as int], name@) == Some(v@),
{
    doc.nth(node).unwrap().attr(name).map(|v| v.to_string())
}

/// `Node::name`.
///
/// Trusted: the local name of an element; `None` for text and comments.
#[verifier::external_body]
pub(crate) fn name_of(doc: &Document, node: usize) -> (res: Option<String>)
    requires
        node < document_nodes(*doc).len(),
    ensures
        res is Some <==> node_name(document_nodes(*doc)[node as int]) is Some,
        res matches Some(v) ==> node_name(document_nodes(*doc)[node as int]) == Some(v@),
{
    doc.nth(node).unwrap().name().map(|v| v.to_string())
}

/// `Node::children`, as indices.
///
/// Trusted: `select` links each child to the next one appended under the
/// same parent, so the children come in increasing index order.
#[verifier::external_body]
pub(crate) fn children_indices(doc: &Document, node: usize) -> (res: Vec<usize>)
    requires
        node < document_nodes(*doc).len(),
        dom_well_formed(document_nodes(*doc)),
    ensures
        lists(res@, children_of(document_nodes(*doc), node as int)),
{
    doc.nth(node).unwrap().children().map(|n| n.index()).collect()
}

/// Every index that `select_range` lists lies in `lo..hi` and satisfies the
/// predicate.
pub proof fn lemma_select_range_bounds(lo: int, hi: int, pred: spec_fn(int) -> bool)
    ensures
        forall|k: int| 0 <= k < select_range(lo, hi, pred).len() ==> {
            &&& lo <= #[trigger] select_range(lo, hi, pred)[k] < hi
            &&& pred(select_range(lo, hi, pred)[k])
        },
    decreases hi - lo,
{
    if lo < hi {
        lemma_select_range_bounds(lo + 1, hi, pred);
        let rest = select_range(lo + 1, hi, pred);
        if pred(lo) {
            assert forall|k: int| 0 < k < select_range(lo, hi, pred).len() implies
                select_range(lo, hi, pred)[k] == rest[k - 1] by {}
        }
    }
}

/// `j` is the first node of the document, in document order, that satisfies
/// `p`.
pub open spec fn first_in_document_is(nodes: Seq<DomNode>, j: int, p: spec_fn(int) -> bool) -> bool {
    &&& 0 <= j < nodes.len()
    &&& p(j)
    &&& forall|i: int| 0 <= i < j ==> !#[trigger] p(i)
}

/// `j` is the first node below `t`, in document order, that satisfies `p`.
pub open spec fn first_below_is(nodes: Seq<DomNode>, t: int, j: int, p: spec_fn(int) -> bool) -> bool {
    &&& 0 <= j < nodes.len()
    &&& is_ancestor(nodes, t, j)
    &&& p(j)
    &&& forall|i: int| 0 <= i < j && is_ancestor(nodes, t, i) ==> !#[trigger] p(i)
}

/// No node below `t` satisfies `p`.
pub open spec fn none_below(nodes: Seq<DomNode>, t: int, p: spec_fn(int) -> bool) -> bool {
    forall|i: int| 0 <= i < nodes.len() && is_ancestor(nodes, t, i) ==> !#[trigger] p(i)
}

/// The first index that `select_range` lists is the least one in range that
/// satisfies the predicate; an empty list means none does.
pub proof fn lemma_select_range_first(lo: int, hi: int, pred: spec_fn(int) -> bool)
    ensures
        select_range(lo, hi, pred).len() > 0 ==> {
            let a = select_range(lo, hi, pred)[0];
            &&& lo <= a < hi
            &&& pred(a)
            &&& forall|j: int| lo <= j < a ==> !#[trigger] pred(j)
        },
        select_range(lo, hi, pred).len() == 0 ==> forall|j: int| lo <= j < hi ==> !#[trigger] pred(j),
    decreases hi - lo,
{
    if lo < hi {
        lemma_select_range_first(lo + 1, hi, pred);
    }
}

/// `select_range` lists its indices in strictly increasing order, and lists
/// every index in range that satisfies the predicate.
pub proof fn lemma_select_range_sorted_complete(lo: int, hi: int, pred: spec_fn(int) -> bool)
    ensures
        forall|a: int, b: int|
            0 <= a < b < select_range(lo, hi, pred).len() ==> #[trigger] select_range(lo, hi, pred)[a] < #[trigger] select_range(lo, hi, pred)[b],
        forall|j: int| lo <= j < hi && #[trigger] pred(j) ==> exists|q: int| 0 <= q < select_range(lo, hi, pred).len() && #[trigger] select_range(lo, hi, pred)[q] == j,
    decreases hi - lo,
{
    lemma_select_range_bounds(lo, hi, pred);
    if lo < hi {
        lemma_select_range_sorted_complete(lo + 1, hi, pred);
        lemma_select_range_bounds(lo + 1, hi, pred);
        let rest = select_range(lo + 1, hi, pred);
        let all = select_range(lo, hi, pred);
        if pred(lo) {
            assert forall|q: int| 0 < q < all.len() implies all[q] == rest[q - 1] by {}
            assert forall|a: int, b: int| 0 <= a < b < all.len() implies #[trigger] all[a] < #[trigger] all[b] by {
                if a > 0 {
                    assert(all[a] == rest[a - 1] && all[b] == rest[b - 1]);
                } else {
                    assert(all[b] == rest[b - 1]);
                }
            }
            assert forall|j: int| lo <= j < hi && #[trigger] pred(j) implies exists|q: int| 0 <= q < all.len() && #[trigger] all[q] == j by {
                if j == lo {
                    assert(all[0] == j);
                } else {
                    let q = choose|q: int| 0 <= q < rest.len() && #[trigger] rest[q] == j;
                    assert(all[q + 1] == j);
                }
            }
        }
    }
}

/// The first index listed below `t` is the first node below `t` that
/// satisfies `p`; none listed means none satisfies it.
pub proof fn lemma_first_below(nodes: Seq<DomNode>, t: int, p: spec_fn(int) -> bool)
    ensures
        select_below(nodes, t, p).len() > 0 ==> first_below_is(nodes, t, select_below(nodes, t, p)[0], p),
        select_below(nodes, t, p).len() == 0 ==> none_below(nodes, t, p),
{
    let q = |j: int| is_ancestor(nodes, t, j) && p(j);
    lemma_select_range_first(0, nodes.len() as int, q);
    let s = select_below(nodes, t, p);
    assert(s == select_range(0, nodes.len() as int, q));
    if s.len() > 0 {
        assert forall|i: int| 0 <= i < s[0] && is_ancestor(nodes, t, i) implies !#[trigger] p(i) by {
            assert(!q(i));
        }
    } else {
        assert forall|i: int| 0 <= i < nodes.len() && is_ancestor(nodes, t, i) implies !#[trigger] p(i) by {
            assert(!q(i));
        }
    }
}

/// The first index listed in the document is the first node that satisfies
/// `p`.
pub proof fn lemma_first_in_document(nodes: Seq<DomNode>, p: spec_fn(int) -> bool)
    ensures
        select_all(nodes, p).len() > 0 ==> first_in_document_is(nodes, select_all(nodes, p)[0], p),
{
    lemma_select_range_first(0, nodes.len() as int, p);
}

/// `m1` and `m2` are the first and second nodes below `t` that satisfy `p`.
pub open spec fn first_two_below_are(nodes: Seq<DomNode>, t: int, m1: int, m2: int, p: spec_fn(int) -> bool) -> bool {
    &&& first_below_is(nodes, t, m1, p)
    &&& m1 < m2 < nodes.len()
    &&& is_ancestor(nodes, t, m2)
    &&& p(m2)
    &&& forall|i: int| m1 < i < m2 && is_ancestor(nodes, t, i) ==> !#[trigger] p(i)
}

/// At most one node below `t` satisfies `p`.
pub open spec fn at_most_one_below(nodes: Seq<DomNode>, t: int, p: spec_fn(int) -> bool) -> bool {
    forall|i1: int, i2: int|
        0 <= i1 < nodes.len() && 0 <= i2 < nodes.len() && is_ancestor(nodes, t, i1) && is_ancestor(nodes, t, i2)
            && #[trigger] p(i1) && #[trigger] p(i2) ==> i1 == i2
}

/// The first two indices listed below `t` are the first two nodes below `t`
/// that satisfy `p`; fewer than two listed means at most one satisfies it.
pub proof fn lemma_first_two_below(nodes: Seq<DomNode>, t: int, p: spec_fn(int) -> bool)
    ensures
        select_below(nodes, t, p).len() >= 2 ==> first_two_below_are(nodes, t, select_below(nodes, t, p)[0], select_below(nodes, t, p)[1], p),
        select_below(nodes, t, p).len() < 2 ==> at_most_one_below(nodes, t, p),
{
    let q = |j: int| is_ancestor(nodes, t, j) && p(j);
    let len = nodes.len() as int;
    let s = select_below(nodes, t, p);
    assert(s == select_range(0, len, q));
    lemma_first_below(nodes, t, p);
    lemma_select_range_bounds(0, len, q);
    lemma_select_range_sorted_complete(0, len, q);
    if s.len() >= 2 {
        assert(q(s[1]));
        assert(s[0] < s[1]);
        assert forall|i: int| s[0] < i < s[1] && is_ancestor(nodes, t, i) implies !#[trigger] p(i) by {
            if p(i) {
                assert(q(i));
                let w = choose|w: int| 0 <= w < s.len() && #[trigger] s[w] == i;
                if w >= 2 {
                    assert(s[1] < s[w]);
                }
            }
        }
    } else {
        assert forall|i1: int, i2: int|
            0 <= i1 < nodes.len() && 0 <= i2 < nodes.len() && is_ancestor(nodes, t, i1) && is_ancestor(nodes, t, i2)
                && #[trigger] p(i1) && #[trigger] p(i2) implies i1 == i2 by {
            assert(q(i1));
            assert(q(i2));
            let w1 = choose|w: int| 0 <= w < s.len() && #[trigger] s[w] == i1;
            let w2 = choose|w: int| 0 <= w < s.len() && #[trigger] s[w] == i2;
        }
    }
}

/// `s` lists, in increasing order, exactly the nodes of the document that
/// satisfy `p`.
pub open spec fn lists_all_in_order(nodes: Seq<DomNode>, s: Seq<int>, p: spec_fn(int) -> bool) -> bool {
    &&& forall|q: int| 0 <= q < s.len() ==> 0 <= #[trigger] s[q] < nodes.len() && p(s[q])
    &&& forall|a: int, b: int| 0 <= a < b < s.len() ==> #[trigger] s[a] < #[trigger] s[b]
    &&& forall|j: int| 0 <= j < nodes.len() && #[trigger] p(j) ==> exists|q: int| 0 <= q < s.len() && #[trigger] s[q] == j
}

/// `select_all` lists every node that satisfies `p`, in document order.
pub proof fn lemma_select_all_lists(nodes: Seq<DomNode>, p: spec_fn(int) -> bool)
    ensures
        lists_all_in_order(nodes, select_all(nodes, p), p),
{
    lemma_select_range_bounds(0, nodes.len() as int, p);
    lemma_select_range_sorted_complete(0, nodes.len() as int, p);
}

/// No node of the document satisfies `p`.
pub open spec fn none_in_document(nodes: Seq<DomNode>, p: spec_fn(int) -> bool) -> bool {
    forall|i: int| 0 <= i < nodes.len() ==> !#[trigger] p(i)
}

/// The first node of the document that satisfies `p` is `select_all`'s
/// first index, and there is none exactly when `select_all` lists none.
pub proof fn lemma_first_in_document_full(nodes: Seq<DomNode>, p: spec_fn(int) -> bool)
    ensures
        select_all(nodes, p).len() == 0 <==> none_in_document(nodes, p),
        forall|j: int| #[trigger] first_in_document_is(nodes, j, p) ==> select_all(nodes, p).len() > 0 && select_all(nodes, p)[0] == j,
{
    lemma_select_range_first(0, nodes.len() as int, p);
    let s = select_all(nodes, p);
    if s.len() > 0 {
        assert(p(s[0]));
    }
    assert forall|j: int| #[trigger] first_in_document_is(nodes, j, p) implies s.len() > 0 && s[0] == j by {
        assert(p(j));
        if s.len() > 0 {
            if s[0] < j {
                assert(!p(s[0]));
            } else if j < s[0] {
                assert(!p(j));
            }
        }
    }
}

/// The first node below `t` that satisfies `p` is `select_below`'s first
/// index, and there is none exactly when `select_below` lists none.
pub proof fn lemma_first_below_full(nodes: Seq<DomNode>, t: int, p: spec_fn(int) -> bool)
    ensures
        select_below(nodes, t, p).len() == 0 <==> none_below(nodes, t, p),
        forall|j: int| #[trigger] first_below_is(nodes, t, j, p) ==> select_below(nodes, t, p).len() > 0 && select_below(nodes, t, p)[0] == j,
{
    lemma_first_below(nodes, t, p);
    let s = select_below(nodes, t, p);
    assert forall|j: int| #[trigger] first_below_is(nodes, t, j, p) implies s.len() > 0 && s[0] == j by {
        assert(p(j));
        if s.len() > 0 {
            if s[0] < j {
                assert(!p(s[0]));
            } else if j < s[0] {
                assert(!p(j));
            }
        }
    }
}

} // verus!
