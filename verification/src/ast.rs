//! The abstract syntax tree: the semantic form that rendering consumes.
//! A node is either an element (`Tag`) with a name, an attribute mapping
//! and ordered children, or a literal run of text (`Text`).  Attribute
//! names are unique (a duplicate in the source overwrites the earlier
//! value); children keep their source order.

use vstd::prelude::*;

verus! {

broadcast use vstd::std_specs::vec::axiom_vec_decreases_to_view, vstd::seq::axiom_seq_index_decreases, vstd::seq::axiom_seq_subrange_decreases;

/// One attribute of an element: `name="value"` in the rendered form.
#[derive(Debug, Clone)]
pub struct Attribute {
    pub name: String,
    pub value: String,
}

/// An AST node: an element or a literal run of text.
#[derive(Debug)]
pub enum Hyperlisp {
    Tag(String, Vec<Attribute>, Vec<Hyperlisp>),
    Text(String),
}

/// Mathematical model of an attribute.
pub struct AttributeView {
    pub name: Seq<char>,
    pub value: Seq<char>,
}

/// Mathematical model of an AST node.
pub enum HyperlispView {
    Tag(Seq<char>, Seq<AttributeView>, Seq<HyperlispView>),
    Text(Seq<char>),
}

pub open spec fn hl_attr_view(a: Attribute) -> AttributeView {
    AttributeView { name: a.name@, value: a.value@ }
}

pub open spec fn hl_attrs_view(s: Seq<Attribute>) -> Seq<AttributeView> {
    Seq::new(s.len(), |i: int| hl_attr_view(s[i]))
}

pub open spec fn hl_node_view(n: Hyperlisp) -> HyperlispView
    decreases n,
{
    match n {
        Hyperlisp::Tag(name, attrs, children) => HyperlispView::Tag(
            name@,
            hl_attrs_view(attrs@),
            hl_nodes_view(children@),
        ),
        Hyperlisp::Text(s) => HyperlispView::Text(s@),
    }
}

pub open spec fn hl_nodes_view(s: Seq<Hyperlisp>) -> Seq<HyperlispView>
    decreases s,
{
    if s.len() == 0 {
        Seq::empty()
    } else {
        seq![hl_node_view(s[0])] + hl_nodes_view(s.subrange(1, s.len() as int))
    }
}

/// `hl_nodes_view` maps `hl_node_view` over the sequence, element by element.
pub proof fn lemma_hl_nodes_view(s: Seq<Hyperlisp>)
    ensures
        hl_nodes_view(s).len() == s.len(),
        forall|i: int| 0 <= i < s.len() ==> hl_nodes_view(s)[i] == hl_node_view(s[i]),
    decreases s.len(),
{
    if s.len() > 0 {
        lemma_hl_nodes_view(s.subrange(1, s.len() as int));
    }
}

/// Appending one node at the end extends the view sequence by its view.
pub proof fn lemma_hl_nodes_view_push(s: Seq<Hyperlisp>, n: Hyperlisp)
    ensures
        hl_nodes_view(s.push(n)) == hl_nodes_view(s).push(hl_node_view(n)),
    decreases s.len(),
{
    let t = s.push(n);
    if s.len() == 0 {
        let e = Seq::<Hyperlisp>::empty();
        assert(t.subrange(1, t.len() as int) =~= e);
        assert(hl_nodes_view(e) =~= Seq::<HyperlispView>::empty());
        assert(s =~= e);
        assert(hl_nodes_view(t) == seq![hl_node_view(t[0])] + hl_nodes_view(e));
        assert(hl_nodes_view(t) =~= hl_nodes_view(s).push(hl_node_view(n)));
    } else {
        let s1 = s.subrange(1, s.len() as int);
        lemma_hl_nodes_view_push(s1, n);
        assert(t.subrange(1, t.len() as int) =~= s1.push(n));
        assert(t[0] == s[0]);
        assert(hl_nodes_view(t) == seq![hl_node_view(s[0])] + hl_nodes_view(s1).push(hl_node_view(n)));
        assert(hl_nodes_view(s) == seq![hl_node_view(s[0])] + hl_nodes_view(s1));
        assert(seq![hl_node_view(s[0])] + hl_nodes_view(s1).push(hl_node_view(n)) =~= (
        seq![hl_node_view(s[0])] + hl_nodes_view(s1)).push(hl_node_view(n)));
    }
}

impl View for Attribute {
    type V = AttributeView;

    open spec fn view(&self) -> AttributeView {
        hl_attr_view(*self)
    }
}

impl View for Hyperlisp {
    type V = HyperlispView;

    open spec fn view(&self) -> HyperlispView {
        hl_node_view(*self)
    }
}

} // verus!
