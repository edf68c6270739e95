//! The concrete syntax tree (CST): the parser's output, mirroring the
//! grammar's rule structure.  It still records comments, which the tree
//! builder later discards along with the other syntax-only detail.

use vstd::prelude::*;

verus! {

broadcast use vstd::std_specs::vec::axiom_vec_decreases_to_view, vstd::seq::axiom_seq_index_decreases, vstd::seq::axiom_seq_subrange_decreases;

/// One attribute match: `name=value`.
pub struct CstAttr {
    pub name: String,
    pub value: String,
}

/// A tag match: `(` identifier, attribute matches, body matches `)`.
pub struct CstTag {
    pub id: String,
    pub attrs: Vec<CstAttr>,
    pub body: Vec<CstNode>,
}

/// One match inside a body (or at the root, where `Text` never occurs).
pub enum CstNode {
    Comment,
    Tag(CstTag),
    Text(String),
}

/// The root match: the whole document.
pub struct Cst {
    pub items: Vec<CstNode>,
}

/// Mathematical model of an attribute match.
pub struct CstAttrView {
    pub name: Seq<char>,
    pub value: Seq<char>,
}

/// Mathematical model of a tag match.
pub struct CstTagView {
    pub id: Seq<char>,
    pub attrs: Seq<CstAttrView>,
    pub body: Seq<CstNodeView>,
}

/// Mathematical model of a body item.
pub enum CstNodeView {
    Comment,
    Tag(CstTagView),
    Text(Seq<char>),
}

pub open spec fn attr_view(a: CstAttr) -> CstAttrView {
    CstAttrView { name: a.name@, value: a.value@ }
}

pub open spec fn attrs_view(s: Seq<CstAttr>) -> Seq<CstAttrView> {
    Seq::new(s.len(), |i: int| attr_view(s[i]))
}

pub open spec fn tag_view(t: CstTag) -> CstTagView
    decreases t,
{
    CstTagView { id: t.id@, attrs: attrs_view(t.attrs@), body: nodes_view(t.body@) }
}

pub open spec fn node_view(n: CstNode) -> CstNodeView
    decreases n,
{
    match n {
        CstNode::Comment => CstNodeView::Comment,
        CstNode::Tag(t) => CstNodeView::Tag(tag_view(t)),
        CstNode::Text(s) => CstNodeView::Text(s@),
    }
}

pub open spec fn nodes_view(s: Seq<CstNode>) -> Seq<CstNodeView>
    decreases s,
{
    if s.len() == 0 {
        Seq::empty()
    } else {
        seq![node_view(s[0])] + nodes_view(s.subrange(1, s.len() as int))
    }
}

/// `nodes_view` maps `node_view` over the sequence, element by element.
pub proof fn lemma_nodes_view(s: Seq<CstNode>)
    ensures
        nodes_view(s).len() == s.len(),
        forall|i: int| 0 <= i < s.len() ==> nodes_view(s)[i] == node_view(s[i]),
    decreases s.len(),
{
    if s.len() > 0 {
        lemma_nodes_view(s.subrange(1, s.len() as int));
    }
}

/// Prepending one node commutes with taking views.
pub proof fn lemma_nodes_view_cons(n: CstNode, s: Seq<CstNode>)
    ensures
        nodes_view(s.insert(0, n)) == seq![node_view(n)] + nodes_view(s),
{
    let t = s.insert(0, n);
    assert(t.subrange(1, t.len() as int) =~= s);
    assert(nodes_view(t) == seq![node_view(t[0])] + nodes_view(t.subrange(1, t.len() as int)));
}

/// Prepending one attribute commutes with taking views.
pub proof fn lemma_attrs_view_cons(a: CstAttr, s: Seq<CstAttr>)
    ensures
        attrs_view(s.insert(0, a)) == seq![attr_view(a)] + attrs_view(s),
{
    assert(attrs_view(s.insert(0, a)) =~= seq![attr_view(a)] + attrs_view(s));
}

impl View for CstAttr {
    type V = CstAttrView;

    open spec fn view(&self) -> CstAttrView {
        attr_view(*self)
    }
}

impl View for CstTag {
    type V = CstTagView;

    open spec fn view(&self) -> CstTagView {
        tag_view(*self)
    }
}

impl View for CstNode {
    type V = CstNodeView;

    open spec fn view(&self) -> CstNodeView {
        node_view(*self)
    }
}

impl View for Cst {
    type V = Seq<CstNodeView>;

    open spec fn view(&self) -> Seq<CstNodeView> {
        nodes_view(self.items@)
    }
}

} // verus!
