//! An owned document tree.
//!
//! Fetched pages are handed to this crate as a tree of elements and
//! text runs; the crate's transformations are stated and proved over
//! the mathematical image of that tree. Node identity plays no role:
//! every operation consumes or copies structure.

use vstd::prelude::*;
use vstd::string::StrSliceExecFns;
use crate::strutil::{is_space, is_space_char, str_eq};

verus! {

/// One HTML attribute: a name and a value.
#[derive(Debug, PartialEq)]
pub struct HtmlAttr {
    pub name: String,
    pub value: String,
}

/// An owned HTML node: an element with a tag name, attributes and
/// children, or a run of text.
#[derive(Debug, PartialEq)]
pub enum HtmlNode {
    Element { name: String, attrs: Vec<HtmlAttr>, children: Vec<HtmlNode> },
    Text(String),
}

/// Mathematical image of an attribute.
pub struct AttrView {
    pub name: Seq<char>,
    pub value: Seq<char>,
}

/// Mathematical image of a node.
pub enum NodeView {
    Element { name: Seq<char>, attrs: Seq<AttrView>, children: Seq<NodeView> },
    Text(Seq<char>),
}

pub open spec fn attr_view(a: HtmlAttr) -> AttrView {
    AttrView { name: a.name@, value: a.value@ }
}

pub open spec fn node_view(n: HtmlNode) -> NodeView
    decreases n,
{
    match n {
        HtmlNode::Text(s) => NodeView::Text(s@),
        HtmlNode::Element { name, attrs, children } => NodeView::Element {
            name: name@,
            attrs: attrs@.map_values(|a: HtmlAttr| attr_view(a)),
            children: children_view(children@),
        },
    }
}

pub open spec fn children_view(cs: Seq<HtmlNode>) -> Seq<NodeView>
    decreases cs,
{
    if cs.len() == 0 {
        Seq::empty()
    } else {
        seq![node_view(cs[0])] + children_view(cs.drop_first())
    }
}

pub proof fn lemma_children_view_len(cs: Seq<HtmlNode>)
    ensures
        children_view(cs).len() == cs.len(),
        forall|i: int| 0 <= i < cs.len() ==> children_view(cs)[i] == node_view(cs[i]),
    decreases cs,
{
    if cs.len() > 0 {
        lemma_children_view_len(cs.drop_first());
    }
}

pub proof fn lemma_children_view_push(cs: Seq<HtmlNode>, c: HtmlNode)
    ensures
        children_view(cs.push(c)) =~= children_view(cs) + seq![node_view(c)],
    decreases cs,
{
    if cs.len() == 0 {
        assert(cs.push(c).len() == 1);
        assert(cs.push(c)[0] == c);
        assert(cs.push(c).drop_first() =~= Seq::<HtmlNode>::empty());
        assert(children_view(Seq::<HtmlNode>::empty()) =~= Seq::<NodeView>::empty());
        assert(children_view(cs.push(c)) =~= seq![node_view(c)]);
        assert(children_view(cs) =~= Seq::<NodeView>::empty());
    } else {
        assert(cs.push(c)[0] == cs[0]);
        assert(cs.push(c).drop_first() =~= cs.drop_first().push(c));
        lemma_children_view_push(cs.drop_first(), c);
        assert(children_view(cs.push(c)) =~= seq![node_view(cs[0])] + children_view(
            cs.drop_first().push(c),
        ));
    }
}

/// Copy an attribute list.
#[verifier::loop_isolation(false)]
pub fn clone_attrs(attrs: &Vec<HtmlAttr>) -> (r: Vec<HtmlAttr>)
    ensures
        r@.map_values(|a: HtmlAttr| attr_view(a)) == attrs@.map_values(|a: HtmlAttr| attr_view(a)),
{
    let mut out_attrs: Vec<HtmlAttr> = Vec::new();
    let mut i: usize = 0;
    while i < attrs.len()
        invariant
            i <= attrs.len(),
            out_attrs@.len() == i,
            forall|k: int| 0 <= k < i ==> attr_view(out_attrs@[k]) == attr_view(attrs@[k]),
        decreases attrs.len() - i,
    {
        let a = &attrs[i];
        out_attrs.push(HtmlAttr { name: a.name.clone(), value: a.value.clone() });
        i = i + 1;
    }
    assert(out_attrs@.map_values(|a: HtmlAttr| attr_view(a)) =~= attrs@.map_values(
        |a: HtmlAttr| attr_view(a),
    ));
    out_attrs
}

/// Deep structural copy of a node.
#[verifier::loop_isolation(false)]
pub fn clone_node(n: &HtmlNode) -> (r: HtmlNode)
    ensures
        node_view(r) == node_view(*n),
    decreases *n,
{
    match n {
        HtmlNode::Text(s) => HtmlNode::Text(s.clone()),
        HtmlNode::Element { name, attrs, children } => {
            let out_attrs = clone_attrs(attrs);
            let mut out_children: Vec<HtmlNode> = Vec::new();
            let mut j: usize = 0;
            while j < children.len()
                invariant
                    j <= children.len(),
                    children_view(out_children@) =~= children_view(
                        children@.subrange(0, j as int),
                    ),
                decreases children.len() - j,
            {
                proof {
                    assert(decreases_to!(*n => (*n)->children));
                    assert(decreases_to!((*n)->children => (*n)->children[j as int]));
                }
                let c = clone_node(&children[j]);
                let ghost prev = out_children@;
                out_children.push(c);
                proof {
                    lemma_children_view_push(children@.subrange(0, j as int), children@[j as int]);
                    lemma_children_view_push(prev, c);
                    assert(children@.subrange(0, (j + 1) as int) =~= children@.subrange(
                        0,
                        j as int,
                    ).push(children@[j as int]));
                }
                j = j + 1;
            }
            assert(children@.subrange(0, children@.len() as int) =~= children@);
            HtmlNode::Element { name: name.clone(), attrs: out_attrs, children: out_children }
        },
    }
}

/// Concatenation distributes over the view of a node list.
pub proof fn lemma_children_view_concat(a: Seq<HtmlNode>, b: Seq<HtmlNode>)
    ensures
        children_view(a + b) =~= children_view(a) + children_view(b),
    decreases a,
{
    if a.len() == 0 {
        assert(a + b =~= b);
        assert(children_view(a) =~= Seq::<NodeView>::empty());
        assert(children_view(a) + children_view(b) =~= children_view(b));
    } else {
        assert((a + b)[0] == a[0]);
        assert((a + b).len() > 0);
        assert((a + b).drop_first() =~= a.drop_first() + b);
        lemma_children_view_concat(a.drop_first(), b);
        assert(children_view(a + b) =~= seq![node_view(a[0])] + (children_view(a.drop_first())
            + children_view(b)));
    }
}

/// Deep structural copy of a node list.
#[verifier::loop_isolation(false)]
pub fn clone_nodes(ns: &Vec<HtmlNode>) -> (r: Vec<HtmlNode>)
    ensures
        children_view(r@) == children_view(ns@),
{
    let mut out: Vec<HtmlNode> = Vec::new();
    let mut i: usize = 0;
    proof {
        assert(ns@.subrange(0, 0) =~= Seq::<HtmlNode>::empty());
        assert(children_view(out@) =~= children_view(ns@.subrange(0, 0)));
    }
    while i < ns.len()
        invariant
            i <= ns.len(),
            children_view(out@) =~= children_view(ns@.subrange(0, i as int)),
        decreases ns.len() - i,
    {
        let c = clone_node(&ns[i]);
        let ghost prev = out@;
        out.push(c);
        proof {
            lemma_children_view_push(ns@.subrange(0, i as int), ns@[i as int]);
            lemma_children_view_push(prev, c);
            assert(ns@.subrange(0, (i + 1) as int) =~= ns@.subrange(0, i as int).push(
                ns@[i as int],
            ));
        }
        i = i + 1;
    }
    proof {
        assert(ns@.subrange(0, ns@.len() as int) =~= ns@);
    }
    out
}

/// All the text a node's subtree contains, in document order.
pub open spec fn text_of(n: NodeView) -> Seq<char>
    decreases n,
{
    match n {
        NodeView::Text(s) => s,
        NodeView::Element { children, .. } => texts_of(children),
    }
}

/// The concatenated text of a sequence of nodes.
pub open spec fn texts_of(cs: Seq<NodeView>) -> Seq<char>
    decreases cs,
{
    if cs.len() == 0 {
        Seq::empty()
    } else {
        text_of(cs[0]) + texts_of(cs.drop_first())
    }
}

/// Collect the text of a node's subtree.
#[verifier::loop_isolation(false)]
pub fn node_text(n: &HtmlNode) -> (r: String)
    ensures
        r@ == text_of(node_view(*n)),
    decreases *n,
{
    match n {
        HtmlNode::Text(s) => s.clone(),
        HtmlNode::Element { children, .. } => {
            let mut out = String::new();
            let mut j: usize = 0;
            proof {
                lemma_children_view_len(children@);
            }
            while j < children.len()
                invariant
                    j <= children.len(),
                    out@ =~= texts_of(children_view(children@.subrange(0, j as int))),
                decreases children.len() - j,
            {
                proof {
                    assert(decreases_to!(*n => (*n)->children));
                    assert(decreases_to!((*n)->children => (*n)->children[j as int]));
                }
                let t = node_text(&children[j]);
                out.append(t.as_str());
                proof {
                    lemma_children_view_push(children@.subrange(0, j as int), children@[j as int]);
                    lemma_texts_of_push(
                        children_view(children@.subrange(0, j as int)),
                        node_view(children@[j as int]),
                    );
                    assert(children@.subrange(0, (j + 1) as int) =~= children@.subrange(
                        0,
                        j as int,
                    ).push(children@[j as int]));
                    assert(children_view(children@.subrange(0, j as int)) + seq![
                        node_view(children@[j as int]),
                    ] =~= children_view(children@.subrange(0, j as int)).push(
                        node_view(children@[j as int]),
                    ));
                }
                j = j + 1;
            }
            proof {
                assert(children@.subrange(0, children@.len() as int) =~= children@);
            }
            out
        },
    }
}

pub proof fn lemma_texts_of_push(cs: Seq<NodeView>, c: NodeView)
    ensures
        texts_of(cs.push(c)) =~= texts_of(cs) + text_of(c),
    decreases cs,
{
    if cs.len() == 0 {
        assert(cs.push(c)[0] == c);
        assert(cs.push(c).drop_first() =~= Seq::<NodeView>::empty());
        assert(texts_of(Seq::<NodeView>::empty()) =~= Seq::<char>::empty());
    } else {
        assert(cs.push(c)[0] == cs[0]);
        assert(cs.push(c).drop_first() =~= cs.drop_first().push(c));
        lemma_texts_of_push(cs.drop_first(), c);
    }
}

/// The value of the first attribute carrying the given name, if any.
pub open spec fn attr_value(attrs: Seq<AttrView>, name: Seq<char>) -> Option<Seq<char>>
    decreases attrs,
{
    if attrs.len() == 0 {
        None
    } else if attrs[0].name == name {
        Some(attrs[0].value)
    } else {
        attr_value(attrs.drop_first(), name)
    }
}

/// Look up an attribute by name, returning a copy of its value.
#[verifier::loop_isolation(false)]
pub fn get_attr(attrs: &Vec<HtmlAttr>, name: &str) -> (r: Option<String>)
    ensures
        match r {
            Some(v) => attr_value(attrs@.map_values(|a: HtmlAttr| attr_view(a)), name@) == Some(
                v@,
            ),
            None => attr_value(attrs@.map_values(|a: HtmlAttr| attr_view(a)), name@) is None,
        },
{
    let ghost vs = attrs@.map_values(|a: HtmlAttr| attr_view(a));
    let mut i: usize = 0;
    proof {
        assert(vs.skip(0) =~= vs);
    }
    while i < attrs.len()
        invariant
            i <= attrs.len(),
            attr_value(vs, name@) == attr_value(vs.skip(i as int), name@),
        decreases attrs.len() - i,
    {
        proof {
            assert(vs.skip(i as int)[0] == attr_view(attrs@[i as int]));
        }
        if str_eq(attrs[i].name.as_str(), name) {
            return Some(attrs[i].value.clone());
        }
        proof {
            assert(vs.skip(i as int).drop_first() =~= vs.skip(i as int + 1));
        }
        i = i + 1;
    }
    proof {
        assert(vs.skip(attrs@.len() as int) =~= Seq::<AttrView>::empty());
    }
    None
}

/// The whitespace-separated tokens of a string, built left to right
/// with the token under construction as accumulator.
pub open spec fn tokens_acc(s: Seq<char>, cur: Seq<char>) -> Seq<Seq<char>>
    decreases s,
{
    if s.len() == 0 {
        if cur.len() == 0 {
            Seq::empty()
        } else {
            seq![cur]
        }
    } else if is_space_char(s[0]) {
        if cur.len() == 0 {
            tokens_acc(s.drop_first(), Seq::empty())
        } else {
            seq![cur] + tokens_acc(s.drop_first(), Seq::empty())
        }
    } else {
        tokens_acc(s.drop_first(), cur.push(s[0]))
    }
}

/// The whitespace-separated tokens of a string.
pub open spec fn ws_tokens(s: Seq<char>) -> Seq<Seq<char>> {
    tokens_acc(s, Seq::empty())
}

/// Whether a space-separated token list, as in a `class` attribute,
/// contains the given word.
#[verifier::loop_isolation(false)]
pub fn has_token(s: &str, word: &str) -> (r: bool)
    ensures
        r == ws_tokens(s@).contains(word@),
{
    let n = s.unicode_len();
    let mut i: usize = 0;
    let mut start: usize = 0;
    // seen: the tokens completed so far
    let ghost mut seen: Seq<Seq<char>> = Seq::empty();
    proof {
        assert(s@.skip(0) =~= s@);
        assert(s@.subrange(0, 0) =~= Seq::<char>::empty());
        assert(seen + ws_tokens(s@) =~= ws_tokens(s@));
    }
    while i < n
        invariant
            n == s@.len(),
            start <= i <= n,
            seen + tokens_acc(s@.skip(i as int), s@.subrange(start as int, i as int)) == ws_tokens(
                s@,
            ),
            !seen.contains(word@),
        decreases n - i,
    {
        proof {
            assert(s@.skip(i as int)[0] == s@[i as int]);
            assert(s@.skip(i as int).drop_first() =~= s@.skip(i as int + 1));
        }
        let ghost cur = s@.subrange(start as int, i as int);
        let c = s.get_char(i);
        if is_space(c) {
            if start < i {
                // a token ends here
                let tok = s.substring_char(start, i);
                if str_eq(tok, word) {
                    proof {
                        assert(seen + tokens_acc(s@.skip(i as int), cur) == ws_tokens(s@));
                        assert(tokens_acc(s@.skip(i as int), cur) =~= seq![cur] + tokens_acc(
                            s@.skip(i as int + 1),
                            Seq::empty(),
                        ));
                        assert(ws_tokens(s@)[seen.len() as int] == cur);
                    }
                    return true;
                }
                proof {
                    assert(tokens_acc(s@.skip(i as int), cur) =~= seq![cur] + tokens_acc(
                        s@.skip(i as int + 1),
                        Seq::empty(),
                    ));
                    seen = seen.push(cur);
                    assert(seen + tokens_acc(s@.skip(i as int + 1), Seq::empty()) =~= ws_tokens(
                        s@,
                    ));
                    assert forall|k: int| 0 <= k < seen.len() implies seen[k] != word@ by {
                        if k < seen.len() - 1 {
                            assert(seen[k] == seen.drop_last()[k]);
                        }
                    }
                }
            }
            start = i + 1;
            i = i + 1;
            proof {
                assert(s@.subrange(start as int, i as int) =~= Seq::<char>::empty());
            }
        } else {
            proof {
                assert(s@.subrange(start as int, (i + 1) as int) =~= cur.push(s@[i as int]));
            }
            i = i + 1;
        }
    }
    proof {
        assert(s@.skip(n as int) =~= Seq::<char>::empty());
    }
    let ghost cur = s@.subrange(start as int, n as int);
    if start < n {
        let tok = s.substring_char(start, n);
        if str_eq(tok, word) {
            proof {
                assert(tokens_acc(Seq::<char>::empty(), cur) =~= seq![cur]);
                assert(ws_tokens(s@)[seen.len() as int] == cur);
            }
            return true;
        }
        proof {
            assert(tokens_acc(Seq::<char>::empty(), cur) =~= seq![cur]);
            assert(ws_tokens(s@) =~= seen.push(cur));
            assert forall|k: int| 0 <= k < ws_tokens(s@).len() implies ws_tokens(s@)[k] != word@ by {
                if k < seen.len() {
                    assert(ws_tokens(s@)[k] == seen[k]);
                }
            }
        }
        return false;
    }
    proof {
        assert(tokens_acc(Seq::<char>::empty(), cur) =~= Seq::<Seq<char>>::empty());
        assert(ws_tokens(s@) =~= seen);
    }
    false
}

/// The attribute name that carries an element's class list.
pub open spec fn class_attr() -> Seq<char> {
    seq!['c', 'l', 'a', 's', 's']
}

/// The attribute name that carries an element's identifier.
pub open spec fn id_attr() -> Seq<char> {
    seq!['i', 'd']
}

/// Whether a node is an element whose class list contains `cls`.
pub open spec fn elem_has_class(n: NodeView, cls: Seq<char>) -> bool {
    n matches NodeView::Element { attrs, .. } && (attr_value(attrs, class_attr()) matches Some(v)
        && ws_tokens(v).contains(cls))
}

/// Whether a node is an element whose identifier is exactly `id`.
pub open spec fn elem_has_id(n: NodeView, id: Seq<char>) -> bool {
    n matches NodeView::Element { attrs, .. } && attr_value(attrs, id_attr()) == Some(id)
}

/// Whether a node is an element with the given tag name.
pub open spec fn elem_named(n: NodeView, name: Seq<char>) -> bool {
    n matches NodeView::Element { name: nm, .. } && nm == name
}

/// Class membership test on a node.
pub fn has_class(n: &HtmlNode, cls: &str) -> (r: bool)
    ensures
        r == elem_has_class(node_view(*n), cls@),
{
    proof {
        reveal_strlit("class");
        assert("class"@ =~= class_attr());
    }
    match n {
        HtmlNode::Text(_) => false,
        HtmlNode::Element { attrs, .. } => match get_attr(attrs, "class") {
            Some(v) => has_token(v.as_str(), cls),
            None => false,
        },
    }
}

/// Identifier test on a node.
pub fn has_id(n: &HtmlNode, id: &str) -> (r: bool)
    ensures
        r == elem_has_id(node_view(*n), id@),
{
    proof {
        reveal_strlit("id");
        assert("id"@ =~= id_attr());
    }
    match n {
        HtmlNode::Text(_) => false,
        HtmlNode::Element { attrs, .. } => match get_attr(attrs, "id") {
            Some(v) => str_eq(v.as_str(), id),
            None => false,
        },
    }
}

/// Tag name test on a node.
pub fn is_named(n: &HtmlNode, name: &str) -> (r: bool)
    ensures
        r == elem_named(node_view(*n), name@),
{
    match n {
        HtmlNode::Text(_) => false,
        HtmlNode::Element { name: nm, .. } => str_eq(nm.as_str(), name),
    }
}

} // verus!
