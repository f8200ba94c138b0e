//! Page transformations: stripping navigation chrome and flattening
//! highlighted code blocks.
//!
//! Both work on the owned document tree. Removal takes out the first
//! matching element in document order; when either navigation region
//! is absent the page is handed back unchanged, a soft degradation
//! rather than an error, because a page with its chrome intact is
//! still usable.

use vstd::prelude::*;
use vstd::string::StringExecFns;
use crate::dom::{
    clone_attrs,
    clone_node,
    elem_has_class,
    elem_has_id,
    has_class,
    has_id,
    is_named,
    children_view,
    lemma_children_view_push,
    node_text,
    node_view,
    texts_of,
    HtmlNode,
    NodeView,
};

verus! {

/// What an element is looked up by: a class-list entry or an exact
/// identifier.
pub enum Selector {
    ByClass(String),
    ById(String),
}

/// Mathematical image of a selector.
pub enum SelView {
    ByClass(Seq<char>),
    ById(Seq<char>),
}

pub open spec fn sel_view(s: Selector) -> SelView {
    match s {
        Selector::ByClass(c) => SelView::ByClass(c@),
        Selector::ById(i) => SelView::ById(i@),
    }
}

/// Whether a node is an element the selector picks.
pub open spec fn sel_matches(n: NodeView, sel: SelView) -> bool {
    match sel {
        SelView::ByClass(c) => elem_has_class(n, c),
        SelView::ById(i) => elem_has_id(n, i),
    }
}

/// Selector test on a node.
pub fn matches_selector(n: &HtmlNode, sel: &Selector) -> (r: bool)
    ensures
        r == sel_matches(node_view(*n), sel_view(*sel)),
{
    match sel {
        Selector::ByClass(c) => has_class(n, c.as_str()),
        Selector::ById(i) => has_id(n, i.as_str()),
    }
}

/// Remove the first selected element below `n`, in document order:
/// each child is examined before its own children. The flag says
/// whether anything was removed; without a removal the tree is
/// unchanged.
pub open spec fn remove_sel(n: NodeView, sel: SelView) -> (NodeView, bool)
    decreases n,
{
    match n {
        NodeView::Text(_) => (n, false),
        NodeView::Element { name, attrs, children } => {
            let (cs, f) = remove_sel_seq(children, sel);
            if f {
                (NodeView::Element { name, attrs, children: cs }, true)
            } else {
                (n, false)
            }
        },
    }
}

pub open spec fn remove_sel_seq(cs: Seq<NodeView>, sel: SelView) -> (Seq<NodeView>, bool)
    decreases cs,
{
    if cs.len() == 0 {
        (cs, false)
    } else if sel_matches(cs[0], sel) {
        (cs.drop_first(), true)
    } else {
        let (c0, f) = remove_sel(cs[0], sel);
        if f {
            (seq![c0] + cs.drop_first(), true)
        } else {
            let (rest, f2) = remove_sel_seq(cs.drop_first(), sel);
            if f2 {
                (seq![cs[0]] + rest, true)
            } else {
                (cs, false)
            }
        }
    }
}

/// The state the child scan of `remove_selected` maintains: the
/// copied prefix reflects removal over the examined prefix.
spec fn remove_scan_inv(
    children: Seq<HtmlNode>,
    j: int,
    outv: Seq<NodeView>,
    found: bool,
    sel: SelView,
) -> bool {
    let pre = children_view(children.subrange(0, j));
    let (rcs, rf) = remove_sel_seq(pre, sel);
    found == rf && outv == (if rf {
        rcs
    } else {
        pre
    })
}

/// Remove the first selected element below `n`, returning the new
/// tree and whether a removal happened.
#[verifier::loop_isolation(false)]
pub fn remove_selected(n: &HtmlNode, sel: &Selector) -> (r: (HtmlNode, bool))
    ensures
        node_view(r.0) == remove_sel(node_view(*n), sel_view(*sel)).0,
        r.1 == remove_sel(node_view(*n), sel_view(*sel)).1,
    decreases *n,
{
    match n {
        HtmlNode::Text(s) => (HtmlNode::Text(s.clone()), false),
        HtmlNode::Element { name, attrs, children } => {
            let mut out: Vec<HtmlNode> = Vec::new();
            let mut found = false;
            let mut j: usize = 0;
            proof {
                assert(children@.subrange(0, 0) =~= Seq::<HtmlNode>::empty());
            }
            while j < children.len()
                invariant
                    j <= children.len(),
                    remove_scan_inv(children@, j as int, children_view(out@), found, sel_view(
                        *sel,
                    )),
                decreases children.len() - j,
            {
                let ghost pre = children_view(children@.subrange(0, j as int));
                let c = &children[j];
                proof {
                    assert(decreases_to!(*n => (*n)->children));
                    assert(decreases_to!((*n)->children => (*n)->children[j as int]));
                    lemma_children_view_push(children@.subrange(0, j as int), children@[j as int]);
                    assert(children@.subrange(0, (j + 1) as int) =~= children@.subrange(
                        0,
                        j as int,
                    ).push(children@[j as int]));
                    assert(children_view(children@.subrange(0, j as int + 1)) =~= pre.push(
                        node_view(children@[j as int]),
                    ));
                    lemma_remove_sel_seq_push(pre, node_view(children@[j as int]), sel_view(*sel));
                }
                if found {
                    let copy = clone_node(c);
                    let ghost prevout = out@;
                    out.push(copy);
                    proof {
                        lemma_children_view_push(prevout, copy);
                        assert(children_view(out@) =~= children_view(prevout).push(
                            node_view(copy),
                        ));
                    }
                } else if matches_selector(c, sel) {
                    found = true;
                } else {
                    let (c2, f2) = remove_selected(c, sel);
                    let ghost prevout = out@;
                    found = f2;
                    out.push(c2);
                    proof {
                        lemma_children_view_push(prevout, c2);
                        assert(children_view(out@) =~= children_view(prevout).push(node_view(c2)));
                    }
                }
                j = j + 1;
            }
            proof {
                assert(children@.subrange(0, children@.len() as int) =~= children@);
            }
            if found {
                (
                    HtmlNode::Element {
                        name: name.clone(),
                        attrs: clone_attrs(attrs),
                        children: out,
                    },
                    true,
                )
            } else {
                (clone_node(n), false)
            }
        },
    }
}

/// How removal extends over one more node at the end of a sequence.
pub proof fn lemma_remove_sel_seq_push(cs: Seq<NodeView>, c: NodeView, sel: SelView)
    ensures
        ({
            let (rcs, rf) = remove_sel_seq(cs, sel);
            remove_sel_seq(cs.push(c), sel) == (if rf {
                (rcs.push(c), true)
            } else if sel_matches(c, sel) {
                (cs, true)
            } else {
                let (c2, f2) = remove_sel(c, sel);
                if f2 {
                    (cs.push(c2), true)
                } else {
                    (cs.push(c), false)
                }
            })
        }),
    decreases cs,
{
    let (rcs, rf) = remove_sel_seq(cs, sel);
    if cs.len() == 0 {
        assert(cs.push(c)[0] == c);
        assert(cs.push(c).drop_first() =~= Seq::<NodeView>::empty());
        if sel_matches(c, sel) {
            assert(remove_sel_seq(cs.push(c), sel) == (cs.push(c).drop_first(), true));
            assert(cs.push(c).drop_first() =~= cs);
        } else {
            let (c2, f2) = remove_sel(c, sel);
            if f2 {
                assert(seq![c2] + cs.push(c).drop_first() =~= cs.push(c2));
            } else {
                assert(remove_sel_seq(cs.push(c).drop_first(), sel).1 == false);
            }
        }
    } else {
        assert(cs.push(c)[0] == cs[0]);
        assert(cs.push(c).drop_first() =~= cs.drop_first().push(c));
        lemma_remove_sel_seq_push(cs.drop_first(), c, sel);
        let (rcs1, rf1) = remove_sel_seq(cs.drop_first(), sel);
        if sel_matches(cs[0], sel) {
            assert(remove_sel_seq(cs.push(c), sel) == (cs.drop_first().push(c), true));
            assert(cs.drop_first().push(c) =~= rcs.push(c));
        } else {
            let (c0, f0) = remove_sel(cs[0], sel);
            if f0 {
                assert(seq![c0] + cs.drop_first().push(c) =~= (seq![c0] + cs.drop_first()).push(
                    c,
                ));
            } else {
                if rf1 {
                    assert(seq![cs[0]] + rcs1.push(c) =~= (seq![cs[0]] + rcs1).push(c));
                } else {
                    if sel_matches(c, sel) {
                        assert(seq![cs[0]] + cs.drop_first() =~= cs);
                    } else {
                        let (c2, f2) = remove_sel(c, sel);
                        if f2 {
                            assert(seq![cs[0]] + cs.drop_first().push(c2) =~= cs.push(c2));
                        } else {
                            assert(remove_sel_seq(cs.push(c), sel).1 == false);
                            assert(remove_sel_seq(cs.push(c), sel).0 == cs.push(c));
                        }
                    }
                }
            }
        }
    }
}

/// The class naming the site navigation bar.
pub open spec fn navbar_class() -> Seq<char> {
    seq!['t', '-', 'n', 'a', 'v', 'b', 'a', 'r']
}

/// The identifier naming the page masthead.
pub open spec fn masthead_id() -> Seq<char> {
    seq!['m', 'w', '-', 'h', 'e', 'a', 'd']
}

/// What sanitizing yields: the page with the first navigation bar
/// and the first masthead removed, or — when either is absent — the
/// page unchanged.
pub open spec fn sanitize_spec(v: NodeView) -> (NodeView, bool) {
    let (d1, f1) = remove_sel(v, SelView::ByClass(navbar_class()));
    let (d2, f2) = remove_sel(d1, SelView::ById(masthead_id()));
    if f1 && f2 {
        (d2, true)
    } else {
        (v, false)
    }
}

/// Remove the navigation bar and the masthead from a page.
///
/// One region of each kind is expected; when either is absent the
/// original tree is handed back unchanged and the flag is false, so
/// the caller can keep the raw page byte for byte.
pub fn remove_navigation_elements(doc: &HtmlNode) -> (r: (HtmlNode, bool))
    ensures
        node_view(r.0) == sanitize_spec(node_view(*doc)).0,
        r.1 == sanitize_spec(node_view(*doc)).1,
        !r.1 ==> node_view(r.0) == node_view(*doc),
{
    proof {
        reveal_strlit("t-navbar");
        assert("t-navbar"@ =~= navbar_class());
        reveal_strlit("mw-head");
        assert("mw-head"@ =~= masthead_id());
    }
    let navbar = Selector::ByClass(String::from_str("t-navbar"));
    let masthead = Selector::ById(String::from_str("mw-head"));
    let (d1, f1) = remove_selected(doc, &navbar);
    let (d2, f2) = remove_selected(&d1, &masthead);
    if f1 && f2 {
        (d2, true)
    } else {
        (clone_node(doc), false)
    }
}

/// The tag of a code block.
pub open spec fn pre_name() -> Seq<char> {
    seq!['p', 'r', 'e']
}

/// The class marking a syntax-highlighted code block.
pub open spec fn highlight_class() -> Seq<char> {
    seq!['d', 'e', '1']
}

/// A page with every highlighted code block collapsed to its bare
/// text: the block's markup is dropped, the literal characters and
/// their order are kept, and everything else is untouched.
pub open spec fn flatten_node(n: NodeView) -> NodeView
    decreases n,
{
    match n {
        NodeView::Text(_) => n,
        NodeView::Element { name, attrs, children } => {
            if name == pre_name() && elem_has_class(n, highlight_class()) {
                NodeView::Element {
                    name,
                    attrs,
                    children: seq![NodeView::Text(texts_of(children))],
                }
            } else {
                NodeView::Element { name, attrs, children: flatten_seq(children) }
            }
        },
    }
}

pub open spec fn flatten_seq(cs: Seq<NodeView>) -> Seq<NodeView>
    decreases cs,
{
    if cs.len() == 0 {
        Seq::empty()
    } else {
        seq![flatten_node(cs[0])] + flatten_seq(cs.drop_first())
    }
}

pub proof fn lemma_flatten_seq_push(cs: Seq<NodeView>, c: NodeView)
    ensures
        flatten_seq(cs.push(c)) =~= flatten_seq(cs).push(flatten_node(c)),
    decreases cs,
{
    if cs.len() == 0 {
        assert(cs.push(c)[0] == c);
        assert(cs.push(c).drop_first() =~= Seq::<NodeView>::empty());
        assert(flatten_seq(Seq::<NodeView>::empty()) =~= Seq::<NodeView>::empty());
    } else {
        assert(cs.push(c)[0] == cs[0]);
        assert(cs.push(c).drop_first() =~= cs.drop_first().push(c));
        lemma_flatten_seq_push(cs.drop_first(), c);
        assert(seq![flatten_node(cs[0])] + flatten_seq(cs.drop_first()).push(flatten_node(c))
            =~= (seq![flatten_node(cs[0])] + flatten_seq(cs.drop_first())).push(flatten_node(c)));
    }
}

/// Collapse every highlighted code block to its bare text.
#[verifier::loop_isolation(false)]
pub fn flatten_code_blocks(n: &HtmlNode) -> (r: HtmlNode)
    ensures
        node_view(r) == flatten_node(node_view(*n)),
    decreases *n,
{
    match n {
        HtmlNode::Text(s) => HtmlNode::Text(s.clone()),
        HtmlNode::Element { name, attrs, children } => {
            if is_named(n, "pre") && has_class(n, "de1") {
                proof {
                    reveal_strlit("pre");
                    assert("pre"@ =~= pre_name());
                    reveal_strlit("de1");
                    assert("de1"@ =~= highlight_class());
                }
                let text = node_text(n);
                let ghost t = text@;
                let mut out: Vec<HtmlNode> = Vec::new();
                out.push(HtmlNode::Text(text));
                proof {
                    assert(out@.len() == 1);
                    assert(out@.drop_first() =~= Seq::<HtmlNode>::empty());
                    assert(children_view(Seq::<HtmlNode>::empty()) =~= Seq::<NodeView>::empty());
                    assert(children_view(out@) =~= seq![node_view(out@[0])]);
                    assert(node_view(out@[0]) == NodeView::Text(t));
                    assert(children_view(out@) =~= seq![
                        NodeView::Text(texts_of(children_view(children@))),
                    ]);
                }
                HtmlNode::Element {
                    name: name.clone(),
                    attrs: clone_attrs(attrs),
                    children: out,
                }
            } else {
                proof {
                    reveal_strlit("pre");
                    assert("pre"@ =~= pre_name());
                    reveal_strlit("de1");
                    assert("de1"@ =~= highlight_class());
                }
                let mut out: Vec<HtmlNode> = Vec::new();
                let mut j: usize = 0;
                proof {
                    assert(children@.subrange(0, 0) =~= Seq::<HtmlNode>::empty());
                    assert(flatten_seq(children_view(children@.subrange(0, 0)))
                        =~= Seq::<NodeView>::empty());
                    assert(children_view(out@) =~= Seq::<NodeView>::empty());
                }
                while j < children.len()
                    invariant
                        j <= children.len(),
                        children_view(out@) == flatten_seq(
                            children_view(children@.subrange(0, j as int)),
                        ),
                    decreases children.len() - j,
                {
                    proof {
                        assert(decreases_to!(*n => (*n)->children));
                        assert(decreases_to!((*n)->children => (*n)->children[j as int]));
                    }
                    let c2 = flatten_code_blocks(&children[j]);
                    let ghost prevout = out@;
                    out.push(c2);
                    proof {
                        let ghost pre = children_view(children@.subrange(0, j as int));
                        lemma_children_view_push(
                            children@.subrange(0, j as int),
                            children@[j as int],
                        );
                        assert(children@.subrange(0, (j + 1) as int) =~= children@.subrange(
                            0,
                            j as int,
                        ).push(children@[j as int]));
                        lemma_flatten_seq_push(pre, node_view(children@[j as int]));
                        lemma_children_view_push(prevout, c2);
                        assert(children_view(out@) =~= children_view(prevout).push(node_view(c2)));
                        assert(children_view(children@.subrange(0, j as int + 1)) =~= pre.push(
                            node_view(children@[j as int]),
                        ));
                    }
                    j = j + 1;
                }
                proof {
                    assert(children@.subrange(0, children@.len() as int) =~= children@);
                }
                HtmlNode::Element {
                    name: name.clone(),
                    attrs: clone_attrs(attrs),
                    children: out,
                }
            }
        },
    }
}

} // verus!
