//! The renderer: turns an AST into HTML text.  Text renders verbatim (no
//! escaping: pre-sanitizing is the caller's concern).  An element renders
//! as `<name attrs>children</name>`, except that an element whose name is
//! on the fixed void-element list *and* that has no children renders as
//! `<name attrs>` with no closing tag; children override voidness.  A
//! document renders one top-level element per line, with single newlines
//! between elements and none at either end.  Rendering is total: it never
//! fails on any AST.

use vstd::prelude::*;

use crate::ast::Attribute;
use crate::ast::AttributeView;
use crate::ast::Hyperlisp;
use crate::ast::HyperlispView;
use crate::ast::hl_attr_view;
use crate::ast::hl_attrs_view;
use crate::ast::hl_node_view;
use crate::ast::hl_nodes_view;
use crate::ast::lemma_hl_nodes_view;

verus! {

broadcast use vstd::std_specs::vec::axiom_vec_decreases_to_view, vstd::std_specs::vec::axiom_vec_index_decreases, vstd::seq::axiom_seq_index_decreases, vstd::seq::axiom_seq_subrange_decreases;

/// The HTML names that need no closing tag when they have no content.
pub open spec fn is_void_name(s: Seq<char>) -> bool {
    ||| s == "area"@
    ||| s == "base"@
    ||| s == "br"@
    ||| s == "col"@
    ||| s == "embed"@
    ||| s == "hr"@
    ||| s == "img"@
    ||| s == "input"@
    ||| s == "link"@
    ||| s == "meta"@
    ||| s == "param"@
    ||| s == "source"@
    ||| s == "track"@
    ||| s == "wbr"@
    ||| s == "command"@
    ||| s == "keygen"@
    ||| s == "menuitem"@
}

/// Character-by-character string equality.
pub fn str_eq(a: &str, b: &str) -> (r: bool)
    ensures
        r == (a@ == b@),
{
    let na = a.unicode_len();
    let nb = b.unicode_len();
    if na != nb {
        return false;
    }
    let mut i: usize = 0;
    while i < na
        invariant
            i <= na,
            a@.len() == na as int,
            b@.len() == nb as int,
            na == nb,
            forall|k: int| 0 <= k < i ==> a@[k] == b@[k],
        decreases na - i,
    {
        if s_get(a, i) != s_get(b, i) {
            return false;
        }
        i = i + 1;
    }
    proof {
        assert(a@ =~= b@);
    }
    true
}

/// `get_char` under a private name, so call sites stay short.
fn s_get(s: &str, i: usize) -> (c: char)
    requires
        i < s@.len(),
    ensures
        c == s@[i as int],
{
    s.get_char(i)
}

/// Whether `name` is on the void-element list.
pub fn is_void(name: &str) -> (r: bool)
    ensures
        r == is_void_name(name@),
{
    str_eq(name, "area") || str_eq(name, "base") || str_eq(name, "br") || str_eq(name, "col")
        || str_eq(name, "embed") || str_eq(name, "hr") || str_eq(name, "img") || str_eq(
        name,
        "input",
    ) || str_eq(name, "link") || str_eq(name, "meta") || str_eq(name, "param") || str_eq(
        name,
        "source",
    ) || str_eq(name, "track") || str_eq(name, "wbr") || str_eq(name, "command") || str_eq(
        name,
        "keygen",
    ) || str_eq(name, "menuitem")
}

/// HTML form of one attribute: ` name="value"`.
pub open spec fn spec_attr_html(a: AttributeView) -> Seq<char> {
    " "@ + a.name + "=\""@ + a.value + "\""@
}

/// HTML form of an attribute list, in stored order.
pub open spec fn spec_attrs_html(attrs: Seq<AttributeView>) -> Seq<char>
    decreases attrs.len(),
{
    if attrs.len() == 0 {
        Seq::empty()
    } else {
        spec_attr_html(attrs[0]) + spec_attrs_html(attrs.subrange(1, attrs.len() as int))
    }
}

/// HTML form of one AST node.
pub open spec fn spec_node_html(nv: HyperlispView) -> Seq<char>
    decreases nv,
{
    match nv {
        HyperlispView::Text(t) => t,
        HyperlispView::Tag(name, attrs, children) => {
            if is_void_name(name) && children.len() == 0 {
                "<"@ + name + spec_attrs_html(attrs) + ">"@
            } else {
                "<"@ + name + spec_attrs_html(attrs) + ">"@ + spec_nodes_html(children) + "</"@
                    + name + ">"@
            }
        },
    }
}

/// HTML form of a sequence of sibling nodes: their forms concatenated.
pub open spec fn spec_nodes_html(ns: Seq<HyperlispView>) -> Seq<char>
    decreases ns,
{
    if ns.len() == 0 {
        Seq::empty()
    } else {
        spec_node_html(ns[0]) + spec_nodes_html(ns.subrange(1, ns.len() as int))
    }
}

/// HTML form of a whole document: one top-level node per line, a single
/// newline between nodes, none at either end.
pub open spec fn spec_document_html(ns: Seq<HyperlispView>) -> Seq<char>
    decreases ns,
{
    if ns.len() == 0 {
        Seq::empty()
    } else if ns.len() == 1 {
        spec_node_html(ns[0])
    } else {
        spec_node_html(ns[0]) + "\n"@ + spec_document_html(ns.subrange(1, ns.len() as int))
    }
}

proof fn lemma_attrs_html_push(p: Seq<AttributeView>, a: AttributeView)
    ensures
        spec_attrs_html(p.push(a)) == spec_attrs_html(p) + spec_attr_html(a),
    decreases p.len(),
{
    let t = p.push(a);
    if p.len() == 0 {
        let e = Seq::<AttributeView>::empty();
        assert(t.subrange(1, t.len() as int) =~= e);
        assert(spec_attrs_html(e) =~= Seq::<char>::empty());
        assert(p =~= e);
        assert(spec_attrs_html(t) == spec_attr_html(t[0]) + spec_attrs_html(e));
        assert(spec_attrs_html(t) =~= spec_attrs_html(p) + spec_attr_html(a));
    } else {
        let p1 = p.subrange(1, p.len() as int);
        lemma_attrs_html_push(p1, a);
        assert(t.subrange(1, t.len() as int) =~= p1.push(a));
        assert(t[0] == p[0]);
        assert(spec_attrs_html(t) == spec_attr_html(p[0]) + (spec_attrs_html(p1) + spec_attr_html(
            a,
        )));
        assert(spec_attrs_html(p) == spec_attr_html(p[0]) + spec_attrs_html(p1));
        assert(spec_attr_html(p[0]) + (spec_attrs_html(p1) + spec_attr_html(a)) =~= (spec_attr_html(
            p[0],
        ) + spec_attrs_html(p1)) + spec_attr_html(a));
    }
}

proof fn lemma_nodes_html_push(p: Seq<HyperlispView>, x: HyperlispView)
    ensures
        spec_nodes_html(p.push(x)) == spec_nodes_html(p) + spec_node_html(x),
    decreases p.len(),
{
    let t = p.push(x);
    if p.len() == 0 {
        let e = Seq::<HyperlispView>::empty();
        assert(t.subrange(1, t.len() as int) =~= e);
        assert(spec_nodes_html(e) =~= Seq::<char>::empty());
        assert(p =~= e);
        assert(spec_nodes_html(t) == spec_node_html(t[0]) + spec_nodes_html(e));
        assert(spec_nodes_html(t) =~= spec_nodes_html(p) + spec_node_html(x));
    } else {
        let p1 = p.subrange(1, p.len() as int);
        lemma_nodes_html_push(p1, x);
        assert(t.subrange(1, t.len() as int) =~= p1.push(x));
        assert(t[0] == p[0]);
        assert(spec_nodes_html(t) == spec_node_html(p[0]) + (spec_nodes_html(p1) + spec_node_html(
            x,
        )));
        assert(spec_nodes_html(p) == spec_node_html(p[0]) + spec_nodes_html(p1));
        assert(spec_node_html(p[0]) + (spec_nodes_html(p1) + spec_node_html(x)) =~= (spec_node_html(
            p[0],
        ) + spec_nodes_html(p1)) + spec_node_html(x));
    }
}

proof fn lemma_document_html_push(p: Seq<HyperlispView>, x: HyperlispView)
    ensures
        p.len() == 0 ==> spec_document_html(p.push(x)) == spec_node_html(x),
        p.len() > 0 ==> spec_document_html(p.push(x)) == spec_document_html(p) + "\n"@
            + spec_node_html(x),
    decreases p.len(),
{
    let t = p.push(x);
    if p.len() == 0 {
        assert(spec_document_html(t) == spec_node_html(t[0]));
        assert(t[0] == x);
    } else if p.len() == 1 {
        assert(t.subrange(1, t.len() as int) =~= Seq::<HyperlispView>::empty().push(x));
        lemma_document_html_push(Seq::<HyperlispView>::empty(), x);
        assert(Seq::<HyperlispView>::empty().push(x) =~= t.subrange(1, t.len() as int));
        assert(spec_document_html(t) == spec_node_html(t[0]) + "\n"@ + spec_document_html(
            t.subrange(1, t.len() as int),
        ));
        assert(spec_document_html(p) == spec_node_html(p[0]));
        assert(t[0] == p[0]);
    } else {
        let p1 = p.subrange(1, p.len() as int);
        lemma_document_html_push(p1, x);
        assert(t.subrange(1, t.len() as int) =~= p1.push(x));
        assert(t[0] == p[0]);
        assert(spec_document_html(t) == spec_node_html(p[0]) + "\n"@ + (spec_document_html(p1)
            + "\n"@ + spec_node_html(x)));
        assert(spec_document_html(p) == spec_node_html(p[0]) + "\n"@ + spec_document_html(p1));
        assert(spec_node_html(p[0]) + "\n"@ + (spec_document_html(p1) + "\n"@ + spec_node_html(x))
            =~= (spec_node_html(p[0]) + "\n"@ + spec_document_html(p1)) + "\n"@ + spec_node_html(
            x,
        ));
    }
}

/// Law: the void-element policy.  An element whose name is on the void
/// list and that has no children renders as a single open tag with no
/// closing tag; any element with children — void-listed or not — closes,
/// as does any non-void element without children.
pub proof fn lemma_void_policy(
    name: Seq<char>,
    attrs: Seq<AttributeView>,
    children: Seq<HyperlispView>,
)
    ensures
        is_void_name(name) && children.len() == 0 ==> spec_node_html(
            HyperlispView::Tag(name, attrs, children),
        ) == "<"@ + name + spec_attrs_html(attrs) + ">"@,
        !(is_void_name(name) && children.len() == 0) ==> spec_node_html(
            HyperlispView::Tag(name, attrs, children),
        ) == "<"@ + name + spec_attrs_html(attrs) + ">"@ + spec_nodes_html(children) + "</"@ + name
            + ">"@,
{
}

impl Hyperlisp {
    /// Renders this node as HTML text, exactly as `spec_node_html` states.
    #[verifier::loop_isolation(false)]
    pub fn render(&self) -> (r: String)
        ensures
            r@ == spec_node_html(self@),
        decreases *self,
    {
        match self {
            Hyperlisp::Text(t) => t.clone(),
            Hyperlisp::Tag(name, attrs, children) => {
                let mut out = String::from_str("<");
                out.append(name.as_str());
                let mut i: usize = 0;
                while i < attrs.len()
                    invariant
                        i <= attrs@.len(),
                        out@ == "<"@ + name@ + spec_attrs_html(
                            hl_attrs_view(attrs@).subrange(0, i as int),
                        ),
                    decreases attrs@.len() - i,
                {
                    proof {
                        let pre = hl_attrs_view(attrs@).subrange(0, i as int);
                        lemma_attrs_html_push(pre, hl_attr_view(attrs@[i as int]));
                        assert(hl_attrs_view(attrs@).subrange(0, i + 1 as int) =~= pre.push(
                            hl_attr_view(attrs@[i as int]),
                        ));
                    }
                    let a = &attrs[i];
                    out.append(" ");
                    out.append(a.name.as_str());
                    out.append("=\"");
                    out.append(a.value.as_str());
                    out.append("\"");
                    i = i + 1;
                }
                proof {
                    assert(hl_attrs_view(attrs@).subrange(0, i as int) =~= hl_attrs_view(attrs@));
                }
                out.append(">");
                let void = is_void(name.as_str());
                if void && children.len() == 0 {
                    proof {
                        assert(hl_nodes_view(children@) =~= Seq::<HyperlispView>::empty());
                    }
                    out
                } else {
                    let ghost open_part = out@;
                    let mut j: usize = 0;
                    while j < children.len()
                        invariant
                            j <= children@.len(),
                            out@ == open_part + spec_nodes_html(
                                hl_nodes_view(children@).subrange(0, j as int),
                            ),
                        decreases children@.len() - j,
                    {
                        proof {
                            lemma_hl_nodes_view(children@);
                            let pre = hl_nodes_view(children@).subrange(0, j as int);
                            lemma_nodes_html_push(pre, hl_node_view(children@[j as int]));
                            assert(hl_nodes_view(children@).subrange(0, j + 1 as int) =~= pre.push(
                                hl_node_view(children@[j as int]),
                            ));
                        }
                        proof {
                            assert(*self == Hyperlisp::Tag(*name, *attrs, *children));
                            assert(decreases_to!(Hyperlisp::Tag(*name, *attrs, *children) => *children));
                            assert(decreases_to!(*children => children@[j as int]));
                            assert(decreases_to!(*self => children@[j as int]));
                        }
                        let piece = children[j].render();
                        out.append(piece.as_str());
                        j = j + 1;
                    }
                    proof {
                        lemma_hl_nodes_view(children@);
                        assert(hl_nodes_view(children@).subrange(0, j as int) =~= hl_nodes_view(
                            children@,
                        ));
                    }
                    out.append("</");
                    out.append(name.as_str());
                    out.append(">");
                    out
                }
            },
        }
    }
}

/// Renders a whole document: the nodes' HTML forms joined by single
/// newlines, with no leading or trailing newline.
pub fn render_document(nodes: &Vec<Hyperlisp>) -> (r: String)
    ensures
        r@ == spec_document_html(hl_nodes_view(nodes@)),
{
    let mut out = String::new();
    let mut i: usize = 0;
    while i < nodes.len()
        invariant
            i <= nodes@.len(),
            out@ == spec_document_html(hl_nodes_view(nodes@).subrange(0, i as int)),
        decreases nodes@.len() - i,
    {
        proof {
            lemma_hl_nodes_view(nodes@);
            let pre = hl_nodes_view(nodes@).subrange(0, i as int);
            lemma_document_html_push(pre, hl_node_view(nodes@[i as int]));
            assert(hl_nodes_view(nodes@).subrange(0, i + 1 as int) =~= pre.push(
                hl_node_view(nodes@[i as int]),
            ));
        }
        if i > 0 {
            out.append("\n");
        }
        let piece = nodes[i].render();
        out.append(piece.as_str());
        i = i + 1;
    }
    proof {
        lemma_hl_nodes_view(nodes@);
        assert(hl_nodes_view(nodes@).subrange(0, i as int) =~= hl_nodes_view(nodes@));
    }
    out
}

} // verus!
