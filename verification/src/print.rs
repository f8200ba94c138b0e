//! Assembling the printable document.
//!
//! A print run verifies that every required symbol has a cached page,
//! failing with the list of missing names otherwise; it then orders
//! the required pages canonically and merges them: the first page is
//! the structural root, and each further page's body content is
//! appended under the root body inside a fresh wrapper element. In
//! flattened mode the highlighted code blocks of the merged document
//! are collapsed to their bare text.

use vstd::prelude::*;
use vstd::multiset::Multiset;
use vstd::string::StringExecFns;
use core::cmp::Ordering;
use crate::dom::{
    children_view,
    clone_node,
    clone_nodes,
    is_named,
    lemma_children_view_concat,
    lemma_children_view_len,
    lemma_children_view_push,
    node_view,
    HtmlNode,
    NodeView,
};
use crate::download::contains_name;
use crate::errors::{spec_file_listing, AppError};
use crate::ordering::{
    compare_cpp_names,
    lemma_name_le_trans,
    lemma_parts_cmp_flip,
    name_cmp,
    name_le,
};
use crate::processing::{flatten_code_blocks, flatten_node};
use crate::references::{RefView, ReferenceSet};
use crate::strutil::str_eq;

verus! {

/// The tag under which a page's content lives.
pub open spec fn body_name() -> Seq<char> {
    seq!['b', 'o', 'd', 'y']
}

/// The tag of the wrapper that receives an appended page's content.
pub open spec fn div_name() -> Seq<char> {
    seq!['d', 'i', 'v']
}

/// Append `extra` to the children of the first body element of `n`,
/// in document order; the flag says whether a body was found.
pub open spec fn add_to_body(n: NodeView, extra: Seq<NodeView>) -> (NodeView, bool)
    decreases n,
{
    match n {
        NodeView::Text(_) => (n, false),
        NodeView::Element { name, attrs, children } => {
            if name == body_name() {
                (NodeView::Element { name, attrs, children: children + extra }, true)
            } else {
                let (cs, f) = add_to_body_seq(children, extra);
                if f {
                    (NodeView::Element { name, attrs, children: cs }, true)
                } else {
                    (n, false)
                }
            }
        },
    }
}

pub open spec fn add_to_body_seq(cs: Seq<NodeView>, extra: Seq<NodeView>) -> (Seq<NodeView>, bool)
    decreases cs,
{
    if cs.len() == 0 {
        (cs, false)
    } else {
        let (c0, f) = add_to_body(cs[0], extra);
        if f {
            (seq![c0] + cs.drop_first(), true)
        } else {
            let (rest, f2) = add_to_body_seq(cs.drop_first(), extra);
            if f2 {
                (seq![cs[0]] + rest, true)
            } else {
                (cs, false)
            }
        }
    }
}

/// How appending extends over one more node at the end of a sequence.
pub proof fn lemma_add_to_body_seq_push(cs: Seq<NodeView>, c: NodeView, extra: Seq<NodeView>)
    ensures
        ({
            let (rcs, rf) = add_to_body_seq(cs, extra);
            add_to_body_seq(cs.push(c), extra) == (if rf {
                (rcs.push(c), true)
            } else {
                let (c2, f2) = add_to_body(c, extra);
                if f2 {
                    (cs.push(c2), true)
                } else {
                    (cs.push(c), false)
                }
            })
        }),
    decreases cs,
{
    let (rcs, rf) = add_to_body_seq(cs, extra);
    if cs.len() == 0 {
        assert(cs.push(c)[0] == c);
        assert(cs.push(c).drop_first() =~= Seq::<NodeView>::empty());
        let (c2, f2) = add_to_body(c, extra);
        if f2 {
            assert(seq![c2] + cs.push(c).drop_first() =~= cs.push(c2));
        } else {
            assert(add_to_body_seq(cs.push(c).drop_first(), extra).1 == false);
        }
    } else {
        assert(cs.push(c)[0] == cs[0]);
        assert(cs.push(c).drop_first() =~= cs.drop_first().push(c));
        lemma_add_to_body_seq_push(cs.drop_first(), c, extra);
        let (rcs1, rf1) = add_to_body_seq(cs.drop_first(), extra);
        let (c0, f0) = add_to_body(cs[0], extra);
        if f0 {
            assert(seq![c0] + cs.drop_first().push(c) =~= (seq![c0] + cs.drop_first()).push(c));
        } else if rf1 {
            assert(seq![cs[0]] + rcs1.push(c) =~= (seq![cs[0]] + rcs1).push(c));
        } else {
            let (c2, f2) = add_to_body(c, extra);
            if f2 {
                assert(seq![cs[0]] + cs.drop_first().push(c2) =~= cs.push(c2));
            } else {
                assert(add_to_body_seq(cs.push(c), extra).1 == false);
                assert(add_to_body_seq(cs.push(c), extra).0 == cs.push(c));
            }
        }
    }
}

/// The state the child scan of `add_into_body` maintains.
spec fn add_scan_inv(
    children: Seq<HtmlNode>,
    j: int,
    outv: Seq<NodeView>,
    found: bool,
    extra: Seq<NodeView>,
) -> bool {
    let pre = children_view(children.subrange(0, j));
    let (rcs, rf) = add_to_body_seq(pre, extra);
    found == rf && outv == (if rf {
        rcs
    } else {
        pre
    })
}

/// Append `extra` to the children of the first body element.
#[verifier::loop_isolation(false)]
pub fn add_into_body(n: &HtmlNode, extra: &Vec<HtmlNode>) -> (r: (HtmlNode, bool))
    ensures
        node_view(r.0) == add_to_body(node_view(*n), children_view(extra@)).0,
        r.1 == add_to_body(node_view(*n), children_view(extra@)).1,
    decreases *n,
{
    match n {
        HtmlNode::Text(s) => (HtmlNode::Text(s.clone()), false),
        HtmlNode::Element { name, attrs, children } => {
            if is_named(n, "body") {
                proof {
                    reveal_strlit("body");
                    assert("body"@ =~= body_name());
                }
                let mut cs = clone_nodes(children);
                let mut ex = clone_nodes(extra);
                let ghost csv = cs@;
                let ghost exv = ex@;
                cs.append(&mut ex);
                proof {
                    lemma_children_view_concat(csv, exv);
                }
                (
                    HtmlNode::Element {
                        name: name.clone(),
                        attrs: crate::dom::clone_attrs(attrs),
                        children: cs,
                    },
                    true,
                )
            } else {
                proof {
                    reveal_strlit("body");
                    assert("body"@ =~= body_name());
                }
                let mut out: Vec<HtmlNode> = Vec::new();
                let mut found = false;
                let mut j: usize = 0;
                proof {
                    assert(children@.subrange(0, 0) =~= Seq::<HtmlNode>::empty());
                }
                while j < children.len()
                    invariant
                        j <= children.len(),
                        add_scan_inv(
                            children@,
                            j as int,
                            children_view(out@),
                            found,
                            children_view(extra@),
                        ),
                    decreases children.len() - j,
                {
                    let ghost pre = children_view(children@.subrange(0, j as int));
                    let c = &children[j];
                    proof {
                        assert(decreases_to!(*n => (*n)->children));
                        assert(decreases_to!((*n)->children => (*n)->children[j as int]));
                        lemma_children_view_push(
                            children@.subrange(0, j as int),
                            children@[j as int],
                        );
                        assert(children@.subrange(0, (j + 1) as int) =~= children@.subrange(
                            0,
                            j as int,
                        ).push(children@[j as int]));
                        assert(children_view(children@.subrange(0, j as int + 1)) =~= pre.push(
                            node_view(children@[j as int]),
                        ));
                        lemma_add_to_body_seq_push(
                            pre,
                            node_view(children@[j as int]),
                            children_view(extra@),
                        );
                    }
                    if found {
                        let copy = clone_node(c);
                        let ghost prevout = out@;
                        out.push(copy);
                        proof {
                            lemma_children_view_push(prevout, copy);
                            assert(children_view(out@) =~= children_view(prevout).push(
                                node_view(copy),
                            ));
                        }
                    } else {
                        let (c2, f2) = add_into_body(c, extra);
                        let ghost prevout = out@;
                        found = f2;
                        out.push(c2);
                        proof {
                            lemma_children_view_push(prevout, c2);
                            assert(children_view(out@) =~= children_view(prevout).push(
                                node_view(c2),
                            ));
                        }
                    }
                    j = j + 1;
                }
                proof {
                    assert(children@.subrange(0, children@.len() as int) =~= children@);
                }
                if found {
                    (
                        HtmlNode::Element {
                            name: name.clone(),
                            attrs: crate::dom::clone_attrs(attrs),
                            children: out,
                        },
                        true,
                    )
                } else {
                    (clone_node(n), false)
                }
            }
        },
    }
}

/// The children of the first body element of `n`, in document order.
pub open spec fn body_children(n: NodeView) -> Option<Seq<NodeView>>
    decreases n,
{
    match n {
        NodeView::Text(_) => None,
        NodeView::Element { name, children, .. } => {
            if name == body_name() {
                Some(children)
            } else {
                body_children_seq(children)
            }
        },
    }
}

pub open spec fn body_children_seq(cs: Seq<NodeView>) -> Option<Seq<NodeView>>
    decreases cs,
{
    if cs.len() == 0 {
        None
    } else {
        match body_children(cs[0]) {
            Some(x) => Some(x),
            None => body_children_seq(cs.drop_first()),
        }
    }
}

/// A scan that has found nothing yet may go on from where it stands.
proof fn lemma_body_children_seq_skip(cs: Seq<NodeView>, j: int)
    requires
        0 <= j <= cs.len(),
        forall|k: int| 0 <= k < j ==> body_children(#[trigger] cs[k]) is None,
    ensures
        body_children_seq(cs) == body_children_seq(cs.skip(j)),
    decreases j,
{
    if j > 0 {
        lemma_body_children_seq_skip(cs, j - 1);
        assert(cs.skip(j - 1)[0] == cs[j - 1]);
        assert(cs.skip(j - 1).drop_first() =~= cs.skip(j));
    } else {
        assert(cs.skip(0) =~= cs);
    }
}

/// The children of the first body element, copied.
#[verifier::loop_isolation(false)]
pub fn get_body_children(n: &HtmlNode) -> (r: Option<Vec<HtmlNode>>)
    ensures
        match r {
            Some(v) => body_children(node_view(*n)) == Some(children_view(v@)),
            None => body_children(node_view(*n)) is None,
        },
    decreases *n,
{
    match n {
        HtmlNode::Text(_) => None,
        HtmlNode::Element { children, .. } => {
            if is_named(n, "body") {
                proof {
                    reveal_strlit("body");
                    assert("body"@ =~= body_name());
                }
                Some(clone_nodes(children))
            } else {
                proof {
                    reveal_strlit("body");
                    assert("body"@ =~= body_name());
                    lemma_children_view_len(children@);
                }
                let ghost cvs = children_view(children@);
                let mut j: usize = 0;
                while j < children.len()
                    invariant
                        j <= children.len(),
                        cvs == children_view(children@),
                        cvs.len() == children@.len(),
                        forall|k: int| 0 <= k < j ==> body_children(#[trigger] cvs[k]) is None,
                    decreases children.len() - j,
                {
                    proof {
                        assert(decreases_to!(*n => (*n)->children));
                        assert(decreases_to!((*n)->children => (*n)->children[j as int]));
                        assert(cvs[j as int] == node_view(children@[j as int]));
                    }
                    match get_body_children(&children[j]) {
                        Some(v) => {
                            proof {
                                lemma_body_children_seq_skip(cvs, j as int);
                                assert(cvs.skip(j as int)[0] == cvs[j as int]);
                            }
                            return Some(v);
                        },
                        None => {},
                    }
                    j = j + 1;
                }
                proof {
                    lemma_body_children_seq_skip(cvs, cvs.len() as int);
                    assert(cvs.skip(cvs.len() as int) =~= Seq::<NodeView>::empty());
                }
                None
            }
        },
    }
}

/// A fresh wrapper element holding a page's body content.
pub open spec fn div_wrap(cs: Seq<NodeView>) -> NodeView {
    NodeView::Element { name: div_name(), attrs: Seq::empty(), children: cs }
}

/// The wrappers appended under the root body: one per further page
/// that has a body, in order.
pub open spec fn wrappers_spec(docs: Seq<NodeView>) -> Seq<NodeView>
    decreases docs,
{
    if docs.len() == 0 {
        Seq::empty()
    } else {
        match body_children(docs[0]) {
            Some(cs) => seq![div_wrap(cs)] + wrappers_spec(docs.drop_first()),
            None => wrappers_spec(docs.drop_first()),
        }
    }
}

/// Build the wrapper elements for a list of documents.
#[verifier::loop_isolation(false)]
pub fn build_wrappers(docs: &Vec<HtmlNode>) -> (r: Vec<HtmlNode>)
    ensures
        children_view(r@) == wrappers_spec(children_view(docs@)),
{
    let ghost dvs = children_view(docs@);
    proof {
        lemma_children_view_len(docs@);
        reveal_strlit("div");
        assert("div"@ =~= div_name());
    }
    let mut out: Vec<HtmlNode> = Vec::new();
    let mut i: usize = 0;
    proof {
        assert(dvs.skip(0) =~= dvs);
        assert(children_view(out@) =~= Seq::<NodeView>::empty());
        assert(children_view(out@) + wrappers_spec(dvs) =~= wrappers_spec(dvs));
    }
    while i < docs.len()
        invariant
            dvs == children_view(docs@),
            dvs.len() == docs@.len(),
            i <= docs@.len(),
            children_view(out@) + wrappers_spec(dvs.skip(i as int)) == wrappers_spec(dvs),
        decreases docs@.len() - i,
    {
        proof {
            assert(dvs.skip(i as int)[0] == dvs[i as int]);
            assert(dvs[i as int] == node_view(docs@[i as int]));
            assert(dvs.skip(i as int).drop_first() =~= dvs.skip(i as int + 1));
        }
        match get_body_children(&docs[i]) {
            Some(v) => {
                let wrapper = HtmlNode::Element {
                    name: String::from_str("div"),
                    attrs: Vec::new(),
                    children: v,
                };
                let ghost prevout = out@;
                out.push(wrapper);
                proof {
                    lemma_children_view_push(prevout, wrapper);
                    assert(Seq::<crate::dom::HtmlAttr>::empty().map_values(
                        |a: crate::dom::HtmlAttr| crate::dom::attr_view(a),
                    ) =~= Seq::<crate::dom::AttrView>::empty());
                    assert(node_view(wrapper) == div_wrap(children_view(v@)));
                    assert(children_view(prevout) + (seq![div_wrap(children_view(v@))]
                        + wrappers_spec(dvs.skip(i as int + 1))) =~= children_view(prevout).push(
                        div_wrap(children_view(v@)),
                    ) + wrappers_spec(dvs.skip(i as int + 1)));
                    assert(children_view(out@) =~= children_view(prevout).push(
                        node_view(wrapper),
                    ));
                }
            },
            None => {},
        }
        i = i + 1;
    }
    proof {
        assert(dvs.skip(dvs.len() as int) =~= Seq::<NodeView>::empty());
        assert(children_view(out@) + Seq::<NodeView>::empty() =~= children_view(out@));
    }
    out
}

/// Merge documents: the first is the structural root; each further
/// document's body content is appended under the root body inside a
/// fresh wrapper. A further document without a body is skipped; a
/// root without a body is a parse anomaly.
pub fn concat_documents(first: &HtmlNode, rest: &Vec<HtmlNode>) -> (r: Result<HtmlNode, AppError>)
    ensures
        ({
            let (d, f) = add_to_body(node_view(*first), wrappers_spec(children_view(rest@)));
            match r {
                Ok(doc) => f && node_view(doc) == d,
                Err(e) => !f && e is HtmlParsingError,
            }
        }),
{
    let wrappers = build_wrappers(rest);
    let (doc, found) = add_into_body(first, &wrappers);
    if found {
        Ok(doc)
    } else {
        Err(
            AppError::HtmlParsingError {
                file: String::new(),
                reason: String::from_str("could not find a body element in the root document"),
            },
        )
    }
}

/// A cached page: the symbol it documents and its parsed document.
#[derive(Debug, PartialEq)]
pub struct CachedPage {
    pub name: String,
    pub doc: HtmlNode,
}

/// Mathematical image of a cached page.
pub struct PageView {
    pub name: Seq<char>,
    pub doc: NodeView,
}

pub open spec fn page_view(p: CachedPage) -> PageView {
    PageView { name: p.name@, doc: node_view(p.doc) }
}

pub open spec fn page_views(ps: Seq<CachedPage>) -> Seq<PageView> {
    ps.map_values(|p: CachedPage| page_view(p))
}

/// The names the pages carry.
pub open spec fn page_names(ps: Seq<PageView>) -> Seq<Seq<char>> {
    ps.map_values(|p: PageView| p.name)
}

/// The names the references require.
pub open spec fn ref_names(rs: Seq<RefView>) -> Seq<Seq<char>> {
    rs.map_values(|r: RefView| r.name)
}

/// The required names that have no page, in requirement order.
pub open spec fn missing_spec(rs: Seq<RefView>, have: Seq<Seq<char>>) -> Seq<Seq<char>>
    decreases rs.len(),
{
    if rs.len() == 0 {
        Seq::empty()
    } else {
        let rest = missing_spec(rs.drop_first(), have);
        if !have.contains(rs[0].name) {
            seq![rs[0].name] + rest
        } else {
            rest
        }
    }
}

/// List the required names whose page is absent.
#[verifier::loop_isolation(false)]
pub fn missing_references(refs: &ReferenceSet, have: &Vec<String>) -> (r: Vec<String>)
    ensures
        r@.map_values(|s: String| s@) == missing_spec(refs@, have@.map_values(|s: String| s@)),
{
    let ghost hvs = have@.map_values(|s: String| s@);
    let mut out: Vec<String> = Vec::new();
    let mut i: usize = 0;
    proof {
        assert(refs@.skip(0) =~= refs@);
        assert(out@.map_values(|s: String| s@) =~= Seq::<Seq<char>>::empty());
        assert(out@.map_values(|s: String| s@) + missing_spec(refs@, hvs) =~= missing_spec(
            refs@,
            hvs,
        ));
    }
    while i < refs.len()
        invariant
            hvs == have@.map_values(|s: String| s@),
            i <= refs@.len(),
            out@.map_values(|s: String| s@) + missing_spec(refs@.skip(i as int), hvs)
                == missing_spec(refs@, hvs),
        decreases refs@.len() - i,
    {
        let ghost prev = out@.map_values(|s: String| s@);
        proof {
            assert(refs@.skip(i as int)[0] == refs@[i as int]);
            assert(refs@.skip(i as int).drop_first() =~= refs@.skip(i as int + 1));
        }
        let item = refs.item_at(i);
        if !contains_name(have, item.name.as_str()) {
            out.push(item.name.clone());
            proof {
                assert(out@.map_values(|s: String| s@) =~= prev.push(refs@[i as int].name));
                assert(prev + (seq![refs@[i as int].name] + missing_spec(
                    refs@.skip(i as int + 1),
                    hvs,
                )) =~= prev.push(refs@[i as int].name) + missing_spec(
                    refs@.skip(i as int + 1),
                    hvs,
                ));
            }
        }
        i = i + 1;
    }
    proof {
        assert(refs@.skip(refs@.len() as int) =~= Seq::<RefView>::empty());
        assert(out@.map_values(|s: String| s@) + Seq::<Seq<char>>::empty() =~= out@.map_values(
            |s: String| s@,
        ));
    }
    out
}

/// The pages whose symbol the reference set requires, in input order.
pub open spec fn filter_pages(ps: Seq<PageView>, names: Seq<Seq<char>>) -> Seq<PageView>
    decreases ps.len(),
{
    if ps.len() == 0 {
        Seq::empty()
    } else {
        let rest = filter_pages(ps.drop_first(), names);
        if names.contains(ps[0].name) {
            seq![ps[0]] + rest
        } else {
            rest
        }
    }
}

/// Whether the set requires the given name.
pub fn ref_set_contains(refs: &ReferenceSet, name: &str) -> (r: bool)
    ensures
        r == ref_names(refs@).contains(name@),
{
    let mut i: usize = 0;
    while i < refs.len()
        invariant
            i <= refs@.len(),
            forall|k: int| 0 <= k < i ==> ref_names(refs@)[k] != name@,
        decreases refs@.len() - i,
    {
        let item = refs.item_at(i);
        if str_eq(item.name.as_str(), name) {
            assert(ref_names(refs@)[i as int] == name@);
            return true;
        }
        i = i + 1;
    }
    proof {
        assert(forall|k: int| 0 <= k < ref_names(refs@).len() ==> ref_names(refs@)[k] != name@);
    }
    false
}

/// Copy a page.
pub fn clone_page(p: &CachedPage) -> (r: CachedPage)
    ensures
        page_view(r) == page_view(*p),
{
    CachedPage { name: p.name.clone(), doc: clone_node(&p.doc) }
}

/// Insert a page into an already ordered run, before the first page
/// it does not come after.
pub open spec fn insert_sorted(p: PageView, ps: Seq<PageView>) -> Seq<PageView>
    decreases ps.len(),
{
    if ps.len() == 0 {
        seq![p]
    } else if name_cmp(p.name, ps[0].name) != Ordering::Greater {
        seq![p] + ps
    } else {
        seq![ps[0]] + insert_sorted(p, ps.drop_first())
    }
}

/// The canonical ordering of a page list.
pub open spec fn sort_spec(ps: Seq<PageView>) -> Seq<PageView>
    decreases ps.len(),
{
    if ps.len() == 0 {
        Seq::empty()
    } else {
        insert_sorted(ps[0], sort_spec(ps.drop_first()))
    }
}

/// Inserting at the position found by a left-to-right scan is the
/// ordered insertion.
proof fn lemma_insert_sorted_at(p: PageView, ps: Seq<PageView>, k: int)
    requires
        0 <= k <= ps.len(),
        forall|i: int| 0 <= i < k ==> name_cmp(p.name, #[trigger] ps[i].name) == Ordering::Greater,
        k < ps.len() ==> name_cmp(p.name, ps[k as int].name) != Ordering::Greater,
    ensures
        insert_sorted(p, ps) =~= ps.insert(k, p),
    decreases k,
{
    if k == 0 {
        if ps.len() == 0 {
            assert(insert_sorted(p, ps) =~= seq![p]);
        }
        assert(insert_sorted(p, ps) =~= ps.insert(0, p));
    } else {
        assert(name_cmp(p.name, ps[0].name) == Ordering::Greater);
        assert(forall|i: int|
            0 <= i < k - 1 ==> ps.drop_first()[i] == ps[i + 1]);
        lemma_insert_sorted_at(p, ps.drop_first(), k - 1);
        assert(seq![ps[0]] + ps.drop_first().insert(k - 1, p) =~= ps.insert(k, p));
    }
}

/// Order pages canonically by their symbol name.
#[verifier::loop_isolation(false)]
pub fn sort_pages(pages: Vec<CachedPage>) -> (r: Vec<CachedPage>)
    ensures
        page_views(r@) == sort_spec(page_views(pages@)),
{
    let ghost pvs = page_views(pages@);
    let mut out: Vec<CachedPage> = Vec::new();
    let mut i: usize = pages.len();
    proof {
        assert(pvs.skip(pages@.len() as int) =~= Seq::<PageView>::empty());
        assert(page_views(out@) =~= Seq::<PageView>::empty());
        assert(sort_spec(pvs.skip(pages@.len() as int)) =~= Seq::<PageView>::empty());
    }
    while i > 0
        invariant
            pvs == page_views(pages@),
            i <= pages@.len(),
            page_views(out@) == sort_spec(pvs.skip(i as int)),
        decreases i,
    {
        i = i - 1;
        proof {
            assert(pvs.skip(i as int)[0] == pvs[i as int]);
            assert(pvs[i as int] == page_view(pages@[i as int]));
            assert(pvs.skip(i as int).drop_first() =~= pvs.skip(i as int + 1));
        }
        let p = clone_page(&pages[i]);
        // find the insertion position
        let mut k: usize = 0;
        let mut stop = false;
        while k < out.len() && !stop
            invariant
                page_views(out@) == sort_spec(pvs.skip(i as int + 1)),
                k <= out@.len(),
                page_view(p) == pvs[i as int],
                forall|t: int|
                    0 <= t < k ==> name_cmp(page_view(p).name, page_views(out@)[t].name)
                        == Ordering::Greater,
                stop ==> k < out@.len() && name_cmp(page_view(p).name, page_views(out@)[k as int].name)
                    != Ordering::Greater,
            decreases out@.len() - k + (if stop {
                0int
            } else {
                1int
            }),
        {
            match compare_cpp_names(p.name.as_str(), out[k].name.as_str()) {
                Ordering::Greater => {
                    proof {
                        assert(page_views(out@)[k as int] == page_view(out@[k as int]));
                    }
                    k = k + 1;
                },
                _ => {
                    proof {
                        assert(page_views(out@)[k as int] == page_view(out@[k as int]));
                    }
                    stop = true;
                },
            }
        }
        let ghost prevout = page_views(out@);
        out.insert(k, p);
        proof {
            lemma_insert_sorted_at(pvs[i as int], prevout, k as int);
            assert(page_views(out@) =~= prevout.insert(k as int, pvs[i as int]));
        }
    }
    proof {
        assert(pvs.skip(0) =~= pvs);
    }
    out
}

/// Every pair in an ordered page list stands in the name order.
pub open spec fn pages_sorted(ps: Seq<PageView>) -> bool {
    forall|i: int, j: int| 0 <= i < j < ps.len() ==> name_le(ps[i].name, ps[j].name)
}

/// Ordered insertion keeps a list ordered and only adds the new
/// page.
proof fn lemma_insert_sorted_props(p: PageView, ps: Seq<PageView>)
    requires
        pages_sorted(ps),
    ensures
        pages_sorted(insert_sorted(p, ps)),
        insert_sorted(p, ps).to_multiset() == ps.to_multiset().insert(p),
        insert_sorted(p, ps).len() == ps.len() + 1,
    decreases ps.len(),
{
    broadcast use vstd::seq_lib::group_to_multiset_ensures;

    if ps.len() == 0 {
        assert(insert_sorted(p, ps) =~= Seq::<PageView>::empty().push(p));
        assert(ps.to_multiset() =~= Multiset::<PageView>::empty());
        assert(Seq::<PageView>::empty().push(p).to_multiset() =~= Multiset::<
            PageView,
        >::empty().insert(p));
    } else if name_cmp(p.name, ps[0].name) != Ordering::Greater {
        let r = seq![p] + ps;
        assert(r[0] == p);
        assert(forall|j: int| 1 <= j < r.len() ==> r[j] == ps[j - 1]);
        assert forall|i: int, j: int| 0 <= i < j < r.len() implies name_le(r[i].name, r[j].name) by {
            if i == 0 {
                if j >= 2 || true {
                    lemma_name_le_trans_helper(p, ps, j - 1);
                }
            }
        }
        vstd::seq_lib::lemma_multiset_commutative(seq![p], ps);
        assert(seq![p].to_multiset() =~= Multiset::<PageView>::empty().insert(p));
        assert(Multiset::<PageView>::empty().insert(p).add(ps.to_multiset())
            =~= ps.to_multiset().insert(p));
    } else {
        assert(forall|i: int|
            0 <= i < ps.drop_first().len() ==> ps.drop_first()[i] == ps[i + 1]);
        lemma_insert_sorted_props(p, ps.drop_first());
        let rest = insert_sorted(p, ps.drop_first());
        let r = seq![ps[0]] + rest;
        assert(forall|j: int| 1 <= j < r.len() ==> r[j] == rest[j - 1]);
        // the head stays below everything inserted after it
        lemma_parts_cmp_flip(
            crate::ordering::name_parts(p.name),
            crate::ordering::name_parts(ps[0].name),
        );
        assert(name_le(ps[0].name, p.name));
        assert forall|i: int, j: int| 0 <= i < j < r.len() implies name_le(r[i].name, r[j].name) by {
            if i == 0 {
                let x = rest[j - 1];
                assert(rest.to_multiset().contains(x));
                assert(ps.drop_first().to_multiset().insert(p).contains(x));
                if x == p {
                    assert(name_le(r[0].name, x.name));
                } else {
                    assert(ps.drop_first().to_multiset().contains(x));
                    assert(ps.drop_first().contains(x));
                    let w = choose|w: int|
                        0 <= w < ps.drop_first().len() && ps.drop_first()[w] == x;
                    assert(name_le(ps[0].name, ps[w + 1].name));
                }
            }
        }
        vstd::seq_lib::lemma_multiset_commutative(seq![ps[0]], rest);
        vstd::seq_lib::lemma_multiset_commutative(seq![ps[0]], ps.drop_first());
        assert(seq![ps[0]] + ps.drop_first() =~= ps);
        assert(seq![ps[0]].to_multiset() =~= Multiset::<PageView>::empty().insert(ps[0]));
        assert(r.to_multiset() =~= ps.to_multiset().insert(p));
    }
}

/// The head of an ordered list is below every later element, so a
/// page at or below the head is below them too.
proof fn lemma_name_le_trans_helper(p: PageView, ps: Seq<PageView>, j: int)
    requires
        pages_sorted(ps),
        ps.len() > 0,
        0 <= j < ps.len(),
        name_le(p.name, ps[0].name),
    ensures
        name_le(p.name, ps[j].name),
{
    if j > 0 {
        assert(name_le(ps[0].name, ps[j].name));
        lemma_name_le_trans(p.name, ps[0].name, ps[j].name);
    }
}

/// The canonical ordering of a page list is ordered and is a
/// permutation of it.
pub proof fn lemma_sort_spec_sorted(ps: Seq<PageView>)
    ensures
        pages_sorted(sort_spec(ps)),
        sort_spec(ps).to_multiset() == ps.to_multiset(),
        sort_spec(ps).len() == ps.len(),
    decreases ps.len(),
{
    broadcast use vstd::seq_lib::group_to_multiset_ensures;

    if ps.len() == 0 {
        assert(sort_spec(ps) =~= Seq::<PageView>::empty());
    } else {
        lemma_sort_spec_sorted(ps.drop_first());
        lemma_insert_sorted_props(ps[0], sort_spec(ps.drop_first()));
        assert(ps.drop_first().push(ps[0]) =~= ps.drop_first() + seq![ps[0]]);
        vstd::seq_lib::lemma_multiset_commutative(ps.drop_first(), seq![ps[0]]);
        vstd::seq_lib::lemma_multiset_commutative(seq![ps[0]], ps.drop_first());
        assert(seq![ps[0]] + ps.drop_first() =~= ps);
        assert(sort_spec(ps).to_multiset() =~= ps.to_multiset());
    }
}

/// What a print run yields.
pub enum PrintSpec {
    /// Required names with no cached page; the run fails naming them.
    Missing(Seq<Seq<char>>),
    /// Nothing to print at all.
    NoPages,
    /// The root page has no body element.
    NoBody,
    /// The assembled document.
    Doc(NodeView),
}

pub open spec fn print_spec(rs: Seq<RefView>, ps: Seq<PageView>, colored: bool) -> PrintSpec {
    let missing = missing_spec(rs, page_names(ps));
    if missing.len() > 0 {
        PrintSpec::Missing(missing)
    } else {
        let sorted = sort_spec(filter_pages(ps, ref_names(rs)));
        if sorted.len() == 0 {
            PrintSpec::NoPages
        } else {
            let docs = sorted.drop_first().map_values(|p: PageView| p.doc);
            let (d, f) = add_to_body(sorted[0].doc, wrappers_spec(docs));
            if !f {
                PrintSpec::NoBody
            } else {
                PrintSpec::Doc(
                    if colored {
                        d
                    } else {
                        flatten_node(d)
                    },
                )
            }
        }
    }
}

/// Assemble the printable document from the cached pages.
///
/// Fails naming exactly the required symbols whose page is absent;
/// otherwise selects the required pages, orders them canonically,
/// merges them under the first page's body, and — in flattened mode —
/// collapses the highlighted code blocks of the result.
#[verifier::loop_isolation(false)]
pub fn print_references(refs: &ReferenceSet, pages: &Vec<CachedPage>, colored: bool) -> (r: Result<
    HtmlNode,
    AppError,
>)
    ensures
        match print_spec(refs@, page_views(pages@), colored) {
            PrintSpec::Missing(m) => r matches Err(
                AppError::MissingRequiredFiles { count, files },
            ) && count == m.len() && files@ == spec_file_listing(m),
            PrintSpec::NoPages => r matches Err(e) && e is IoError,
            PrintSpec::NoBody => r matches Err(e) && e is HtmlParsingError,
            PrintSpec::Doc(v) => r matches Ok(d) && node_view(d) == v,
        },
{
    let ghost pvs = page_views(pages@);
    // collect the page names
    let mut names: Vec<String> = Vec::new();
    let mut i: usize = 0;
    proof {
        assert(names@.map_values(|s: String| s@) =~= Seq::<Seq<char>>::empty());
        assert(page_names(pvs).subrange(0, 0) =~= Seq::<Seq<char>>::empty());
    }
    while i < pages.len()
        invariant
            pvs == page_views(pages@),
            i <= pages@.len(),
            names@.map_values(|s: String| s@) == page_names(pvs).subrange(0, i as int),
        decreases pages@.len() - i,
    {
        let ghost prev = names@.map_values(|s: String| s@);
        names.push(pages[i].name.clone());
        proof {
            assert(page_names(pvs)[i as int] == pages@[i as int].name@);
            assert(names@.map_values(|s: String| s@) =~= prev.push(pages@[i as int].name@));
            assert(page_names(pvs).subrange(0, i as int + 1) =~= page_names(pvs).subrange(
                0,
                i as int,
            ).push(page_names(pvs)[i as int]));
        }
        i = i + 1;
    }
    proof {
        assert(page_names(pvs).subrange(0, pvs.len() as int) =~= page_names(pvs));
    }
    // every required symbol must have its page
    let missing = missing_references(refs, &names);
    if missing.len() > 0 {
        return Err(AppError::missing_files(missing.as_slice()));
    }
    // keep only the required pages, in canonical order
    let mut selected: Vec<CachedPage> = Vec::new();
    let mut j: usize = 0;
    proof {
        assert(pvs.skip(0) =~= pvs);
        assert(page_views(selected@) =~= Seq::<PageView>::empty());
        assert(page_views(selected@) + filter_pages(pvs, ref_names(refs@)) =~= filter_pages(
            pvs,
            ref_names(refs@),
        ));
    }
    while j < pages.len()
        invariant
            pvs == page_views(pages@),
            j <= pages@.len(),
            page_views(selected@) + filter_pages(pvs.skip(j as int), ref_names(refs@))
                == filter_pages(pvs, ref_names(refs@)),
        decreases pages@.len() - j,
    {
        let ghost prev = page_views(selected@);
        proof {
            assert(pvs.skip(j as int)[0] == pvs[j as int]);
            assert(pvs[j as int] == page_view(pages@[j as int]));
            assert(pvs.skip(j as int).drop_first() =~= pvs.skip(j as int + 1));
        }
        if ref_set_contains(refs, pages[j].name.as_str()) {
            selected.push(clone_page(&pages[j]));
            proof {
                assert(page_views(selected@) =~= prev.push(pvs[j as int]));
                assert(prev + (seq![pvs[j as int]] + filter_pages(
                    pvs.skip(j as int + 1),
                    ref_names(refs@),
                )) =~= prev.push(pvs[j as int]) + filter_pages(
                    pvs.skip(j as int + 1),
                    ref_names(refs@),
                ));
            }
        }
        j = j + 1;
    }
    proof {
        assert(pvs.skip(pvs.len() as int) =~= Seq::<PageView>::empty());
        assert(page_views(selected@) + Seq::<PageView>::empty() =~= page_views(selected@));
    }
    let sorted = sort_pages(selected);
    if sorted.len() == 0 {
        return Err(
            AppError::IoError(
                String::from_str("no cached pages are available for printing"),
            ),
        );
    }
    // the remaining pages' documents, in order
    let mut docs: Vec<HtmlNode> = Vec::new();
    let mut t: usize = 1;
    let ghost sv = page_views(sorted@);
    proof {
        assert(children_view(docs@) =~= Seq::<NodeView>::empty());
        assert(sv.subrange(1, 1).map_values(|p: PageView| p.doc) =~= Seq::<NodeView>::empty());
    }
    while t < sorted.len()
        invariant
            sv == page_views(sorted@),
            1 <= t <= sv.len() || (sv.len() == 0 && t == 1),
            sv.len() >= 1,
            t <= sv.len(),
            children_view(docs@) == sv.subrange(1, t as int).map_values(|p: PageView| p.doc),
        decreases sv.len() - t,
    {
        let ghost prev = children_view(docs@);
        let ghost prevseq = docs@;
        let d = clone_node(&sorted[t].doc);
        docs.push(d);
        proof {
            lemma_children_view_push(prevseq, d);
            assert(children_view(docs@) =~= prev.push(node_view(d)));
            assert(sv[t as int] == page_view(sorted@[t as int]));
            assert(sv.subrange(1, t as int + 1) =~= sv.subrange(1, t as int).push(sv[t as int]));
            assert(sv.subrange(1, t as int + 1).map_values(|p: PageView| p.doc) =~= sv.subrange(
                1,
                t as int,
            ).map_values(|p: PageView| p.doc).push(sv[t as int].doc));
        }
        t = t + 1;
    }
    proof {
        assert(sv.subrange(1, sv.len() as int) =~= sv.drop_first());
        assert(children_view(docs@) == sv.drop_first().map_values(|p: PageView| p.doc));
    }
    let merged = match concat_documents(&sorted[0].doc, &docs) {
        Ok(doc) => doc,
        Err(e) => {
            proof {
                assert(sv[0] == page_view(sorted@[0]));
            }
            return Err(e);
        },
    };
    proof {
        assert(sv[0] == page_view(sorted@[0]));
    }
    if colored {
        Ok(merged)
    } else {
        Ok(flatten_code_blocks(&merged))
    }
}

} // verus!
