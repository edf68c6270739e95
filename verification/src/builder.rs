//! The tree builder: folds a CST into the AST.  Comments are dropped at
//! every nesting depth; attribute matches are folded into a mapping with
//! unique names, a duplicate name overwriting the earlier value in place;
//! tag and text matches keep their order.  A text match at the root would
//! be a grammar/builder inconsistency: the grammar never produces one, and
//! `root` requires its absence rather than failing at run time.

use vstd::prelude::*;

use crate::ast::Attribute;
use crate::ast::AttributeView;
use crate::ast::Hyperlisp;
use crate::ast::HyperlispView;
use crate::ast::hl_attrs_view;
use crate::ast::hl_nodes_view;
use crate::ast::lemma_hl_nodes_view_push;
use crate::cst::Cst;
use crate::cst::CstAttrView;
use crate::cst::CstNode;
use crate::cst::CstNodeView;
use crate::cst::CstTag;
use crate::cst::CstTagView;
use crate::cst::attrs_view;
use crate::cst::lemma_nodes_view;
use crate::cst::nodes_view;
use crate::render::str_eq;

verus! {

broadcast use vstd::std_specs::vec::axiom_vec_decreases_to_view, vstd::std_specs::vec::axiom_vec_index_decreases, vstd::seq::axiom_seq_index_decreases, vstd::seq::axiom_seq_subrange_decreases;

/// Inserts `name=value` into an attribute mapping: if `name` is already
/// present, its value is overwritten in place; otherwise the attribute is
/// appended.  Names therefore stay unique.
pub open spec fn spec_insert_attr(
    attrs: Seq<AttributeView>,
    name: Seq<char>,
    value: Seq<char>,
) -> Seq<AttributeView>
    decreases attrs.len(),
{
    if attrs.len() == 0 {
        seq![AttributeView { name, value }]
    } else if attrs[0].name == name {
        seq![AttributeView { name, value }] + attrs.subrange(1, attrs.len() as int)
    } else {
        seq![attrs[0]] + spec_insert_attr(attrs.subrange(1, attrs.len() as int), name, value)
    }
}

/// Folds the CST's attribute matches, left to right, into a mapping.
pub open spec fn spec_build_attrs(
    acc: Seq<AttributeView>,
    cst_attrs: Seq<CstAttrView>,
) -> Seq<AttributeView>
    decreases cst_attrs.len(),
{
    if cst_attrs.len() == 0 {
        acc
    } else {
        spec_build_attrs(
            spec_insert_attr(acc, cst_attrs[0].name, cst_attrs[0].value),
            cst_attrs.subrange(1, cst_attrs.len() as int),
        )
    }
}

/// The AST nodes that one CST match contributes: none for a comment.
pub open spec fn spec_build_one(x: CstNodeView) -> Seq<HyperlispView>
    decreases x,
{
    match x {
        CstNodeView::Comment => Seq::empty(),
        CstNodeView::Tag(t) => seq![spec_build_tag(t)],
        CstNodeView::Text(s) => seq![HyperlispView::Text(s)],
    }
}

/// Builds an element from a tag match.
pub open spec fn spec_build_tag(t: CstTagView) -> HyperlispView
    decreases t,
{
    HyperlispView::Tag(
        t.id,
        spec_build_attrs(Seq::empty(), t.attrs),
        spec_build_nodes(t.body),
    )
}

/// Builds the AST nodes of a sequence of CST matches, in order.
pub open spec fn spec_build_nodes(items: Seq<CstNodeView>) -> Seq<HyperlispView>
    decreases items,
{
    if items.len() == 0 {
        Seq::empty()
    } else {
        spec_build_one(items[0]) + spec_build_nodes(items.subrange(1, items.len() as int))
    }
}

proof fn lemma_build_nodes_push(p: Seq<CstNodeView>, x: CstNodeView)
    ensures
        spec_build_nodes(p.push(x)) == spec_build_nodes(p) + spec_build_one(x),
    decreases p.len(),
{
    let t = p.push(x);
    if p.len() == 0 {
        let e = Seq::<CstNodeView>::empty();
        assert(t.subrange(1, t.len() as int) =~= e);
        assert(spec_build_nodes(e) =~= Seq::<HyperlispView>::empty());
        assert(p =~= e);
        assert(spec_build_nodes(t) == spec_build_one(t[0]) + spec_build_nodes(e));
        assert(spec_build_nodes(t) =~= spec_build_nodes(p) + spec_build_one(x));
    } else {
        let p1 = p.subrange(1, p.len() as int);
        lemma_build_nodes_push(p1, x);
        assert(t.subrange(1, t.len() as int) =~= p1.push(x));
        assert(t[0] == p[0]);
        assert(spec_build_nodes(t) == spec_build_one(p[0]) + (spec_build_nodes(p1)
            + spec_build_one(x)));
        assert(spec_build_nodes(p) == spec_build_one(p[0]) + spec_build_nodes(p1));
        assert(spec_build_one(p[0]) + (spec_build_nodes(p1) + spec_build_one(x)) =~= (
        spec_build_one(p[0]) + spec_build_nodes(p1)) + spec_build_one(x));
    }
}

proof fn lemma_build_attrs_push(acc: Seq<AttributeView>, p: Seq<CstAttrView>, a: CstAttrView)
    ensures
        spec_build_attrs(acc, p.push(a)) == spec_insert_attr(
            spec_build_attrs(acc, p),
            a.name,
            a.value,
        ),
    decreases p.len(),
{
    let t = p.push(a);
    if p.len() == 0 {
        let e = Seq::<CstAttrView>::empty();
        assert(t.subrange(1, t.len() as int) =~= e);
        assert(p =~= e);
        assert(t[0] == a);
        assert(spec_build_attrs(acc, t) == spec_build_attrs(
            spec_insert_attr(acc, a.name, a.value),
            e,
        ));
    } else {
        let acc1 = spec_insert_attr(acc, p[0].name, p[0].value);
        lemma_build_attrs_push(acc1, p.subrange(1, p.len() as int), a);
        assert(t.subrange(1, t.len() as int) =~= p.subrange(1, p.len() as int).push(a));
        assert(t[0] == p[0]);
    }
}

proof fn lemma_insert_attr_at(s: Seq<AttributeView>, j: int, name: Seq<char>, value: Seq<char>)
    requires
        0 <= j <= s.len(),
        forall|k: int| 0 <= k < j ==> s[k].name != name,
        j < s.len() ==> s[j].name == name,
    ensures
        j < s.len() ==> spec_insert_attr(s, name, value) == s.update(
            j,
            AttributeView { name, value },
        ),
        j == s.len() ==> spec_insert_attr(s, name, value) == s.push(AttributeView { name, value }),
    decreases s.len(),
{
    let new = AttributeView { name, value };
    if s.len() == 0 {
        assert(spec_insert_attr(s, name, value) =~= s.push(new));
    } else if j == 0 {
        assert(s[0].name == name);
        assert(spec_insert_attr(s, name, value) =~= s.update(0, new));
    } else {
        let s1 = s.subrange(1, s.len() as int);
        lemma_insert_attr_at(s1, j - 1, name, value);
        assert(spec_insert_attr(s, name, value) == seq![s[0]] + spec_insert_attr(s1, name, value));
        if j < s.len() {
            assert(seq![s[0]] + s1.update(j - 1, new) =~= s.update(j, new));
        } else {
            assert(seq![s[0]] + s1.push(new) =~= s.push(new));
        }
    }
}

/// Inserts one attribute into the mapping, as `spec_insert_attr` states.
fn insert_attr(attrs: &mut Vec<Attribute>, name: String, value: String)
    ensures
        hl_attrs_view(final(attrs)@) == spec_insert_attr(
            hl_attrs_view(old(attrs)@),
            name@,
            value@,
        ),
{
    let n = attrs.len();
    let mut j: usize = 0;
    while j < n
        invariant
            j <= n,
            n == attrs@.len(),
            *attrs == *old(attrs),
            forall|k: int| 0 <= k < j ==> hl_attrs_view(attrs@)[k].name != name@,
        decreases n - j,
    {
        if str_eq(attrs[j].name.as_str(), name.as_str()) {
            proof {
                lemma_insert_attr_at(hl_attrs_view(attrs@), j as int, name@, value@);
            }
            attrs[j] = Attribute { name, value };
            proof {
                assert(hl_attrs_view(attrs@) =~= hl_attrs_view(old(attrs)@).update(
                    j as int,
                    AttributeView { name: name@, value: value@ },
                ));
            }
            return ;
        }
        j = j + 1;
    }
    proof {
        lemma_insert_attr_at(hl_attrs_view(attrs@), n as int, name@, value@);
    }
    attrs.push(Attribute { name, value });
    proof {
        assert(hl_attrs_view(attrs@) =~= hl_attrs_view(old(attrs)@).push(
            AttributeView { name: name@, value: value@ },
        ));
    }
}

/// Builds an element from a tag match: folds the attributes into the
/// mapping and builds the body's nodes.
#[verifier::loop_isolation(false)]
pub fn tag(t: &CstTag) -> (r: Hyperlisp)
    ensures
        r@ == spec_build_tag(t@),
    decreases *t,
{
    let mut attrs: Vec<Attribute> = Vec::new();
    let mut i: usize = 0;
    while i < t.attrs.len()
        invariant
            i <= t.attrs@.len(),
            hl_attrs_view(attrs@) == spec_build_attrs(
                Seq::<AttributeView>::empty(),
                attrs_view(t.attrs@).subrange(0, i as int),
            ),
        decreases t.attrs@.len() - i,
    {
        proof {
            let pre = attrs_view(t.attrs@).subrange(0, i as int);
            lemma_build_attrs_push(
                Seq::<AttributeView>::empty(),
                pre,
                attrs_view(t.attrs@)[i as int],
            );
            assert(attrs_view(t.attrs@).subrange(0, i + 1 as int) =~= pre.push(
                attrs_view(t.attrs@)[i as int],
            ));
        }
        let a = &t.attrs[i];
        insert_attr(&mut attrs, a.name.clone(), a.value.clone());
        i = i + 1;
    }
    proof {
        assert(attrs_view(t.attrs@).subrange(0, i as int) =~= attrs_view(t.attrs@));
    }
    let children = body(&t.body);
    Hyperlisp::Tag(t.id.clone(), attrs, children)
}

/// Builds the AST nodes of a body: tags recurse, text is kept verbatim,
/// comments contribute nothing.
#[verifier::loop_isolation(false)]
pub fn body(b: &Vec<CstNode>) -> (r: Vec<Hyperlisp>)
    ensures
        hl_nodes_view(r@) == spec_build_nodes(nodes_view(b@)),
    decreases *b,
{
    let mut result: Vec<Hyperlisp> = Vec::new();
    let mut i: usize = 0;
    while i < b.len()
        invariant
            i <= b@.len(),
            hl_nodes_view(result@) == spec_build_nodes(nodes_view(b@).subrange(0, i as int)),
        decreases b@.len() - i,
    {
        proof {
            lemma_nodes_view(b@);
            let pre = nodes_view(b@).subrange(0, i as int);
            lemma_build_nodes_push(pre, nodes_view(b@)[i as int]);
            assert(nodes_view(b@).subrange(0, i + 1 as int) =~= pre.push(
                nodes_view(b@)[i as int],
            ));
        }
        match &b[i] {
            CstNode::Comment => {
                proof {
                    assert(hl_nodes_view(result@) + Seq::<HyperlispView>::empty()
                        =~= hl_nodes_view(result@));
                }
            },
            CstNode::Tag(t) => {
                proof {
                    assert(decreases_to!(*b => b@[i as int]));
                }
                let node = tag(t);
                proof {
                    lemma_hl_nodes_view_push(result@, node);
                    assert(hl_nodes_view(result@).push(node@) =~= hl_nodes_view(result@) + seq![
                        node@,
                    ]);
                }
                result.push(node);
            },
            CstNode::Text(s) => {
                let node = Hyperlisp::Text(s.clone());
                proof {
                    lemma_hl_nodes_view_push(result@, node);
                    assert(hl_nodes_view(result@).push(node@) =~= hl_nodes_view(result@) + seq![
                        node@,
                    ]);
                }
                result.push(node);
            },
        }
        i = i + 1;
    }
    proof {
        lemma_nodes_view(b@);
        assert(nodes_view(b@).subrange(0, i as int) =~= nodes_view(b@));
    }
    result
}

/// Builds the top-level nodes of a document.  The grammar produces only
/// tag and comment matches at the root; a text match there would be an
/// internal inconsistency, excluded by the precondition.
#[verifier::loop_isolation(false)]
pub fn root(p: &Cst) -> (r: Vec<Hyperlisp>)
    requires
        forall|i: int| 0 <= i < p@.len() ==> !(p@[i] is Text),
    ensures
        hl_nodes_view(r@) == spec_build_nodes(p@),
{
    let mut result: Vec<Hyperlisp> = Vec::new();
    let mut i: usize = 0;
    while i < p.items.len()
        invariant
            i <= p.items@.len(),
            hl_nodes_view(result@) == spec_build_nodes(p@.subrange(0, i as int)),
        decreases p.items@.len() - i,
    {
        proof {
            lemma_nodes_view(p.items@);
            let pre = p@.subrange(0, i as int);
            lemma_build_nodes_push(pre, p@[i as int]);
            assert(p@.subrange(0, i + 1 as int) =~= pre.push(p@[i as int]));
        }
        match &p.items[i] {
            CstNode::Comment => {
                proof {
                    assert(hl_nodes_view(result@) + Seq::<HyperlispView>::empty()
                        =~= hl_nodes_view(result@));
                }
            },
            CstNode::Tag(t) => {
                proof {
                    assert(decreases_to!(p.items => p.items@[i as int]));
                }
                let node = tag(t);
                proof {
                    lemma_hl_nodes_view_push(result@, node);
                    assert(hl_nodes_view(result@).push(node@) =~= hl_nodes_view(result@) + seq![
                        node@,
                    ]);
                }
                result.push(node);
            },
            CstNode::Text(_) => {
                proof {
                    assert(p@[i as int] is Text);
                    assert(false);
                }
                vstd::pervasive::unreached()
            },
        }
        i = i + 1;
    }
    proof {
        lemma_nodes_view(p.items@);
        assert(p@.subrange(0, i as int) =~= p@);
    }
    result
}

/// Attribute names in a mapping are pairwise distinct.
pub open spec fn unique_attr_names(attrs: Seq<AttributeView>) -> bool {
    forall|i: int, j: int| 0 <= i < j < attrs.len() ==> attrs[i].name != attrs[j].name
}

/// Well-formedness of an AST node: every tag name is a well-formed name,
/// every attribute mapping has unique names, recursively.
pub open spec fn wf_hl_node(n: HyperlispView) -> bool
    decreases n,
{
    match n {
        HyperlispView::Tag(name, attrs, children) => crate::grammar::wf_name(name)
            && unique_attr_names(attrs) && wf_hl_nodes(children),
        HyperlispView::Text(_) => true,
    }
}

/// Well-formedness of a sequence of AST nodes.
pub open spec fn wf_hl_nodes(s: Seq<HyperlispView>) -> bool
    decreases s,
{
    if s.len() == 0 {
        true
    } else {
        wf_hl_node(s[0]) && wf_hl_nodes(s.subrange(1, s.len() as int))
    }
}

proof fn lemma_wf_hl_nodes_cons(v: HyperlispView, rest: Seq<HyperlispView>)
    requires
        wf_hl_node(v),
        wf_hl_nodes(rest),
    ensures
        wf_hl_nodes(seq![v] + rest),
{
    let t = seq![v] + rest;
    assert(t[0] == v);
    assert(t.subrange(1, t.len() as int) =~= rest);
}

proof fn lemma_insert_attr_unique(s: Seq<AttributeView>, name: Seq<char>, value: Seq<char>)
    requires
        unique_attr_names(s),
    ensures
        unique_attr_names(spec_insert_attr(s, name, value)),
        forall|k: int|
            0 <= k < spec_insert_attr(s, name, value).len() ==> (#[trigger] spec_insert_attr(
                s,
                name,
                value,
            )[k]).name == name || exists|m: int|
                0 <= m < s.len() && (#[trigger] s[m]).name == spec_insert_attr(s, name, value)[k].name,
    decreases s.len(),
{
    let r = spec_insert_attr(s, name, value);
    let new = AttributeView { name, value };
    if s.len() == 0 {
        assert(r == seq![new]);
        assert(r[0].name == name);
    } else if s[0].name == name {
        let s1 = s.subrange(1, s.len() as int);
        assert(r == seq![new] + s1);
        assert forall|i: int, j: int| 0 <= i < j < r.len() implies (#[trigger] r[i]).name != (
        #[trigger] r[j]).name by {
            assert(r[j] == s[j]);
            if i == 0 {
                assert(s[0].name != s[j].name);
            } else {
                assert(r[i] == s[i]);
            }
        }
        assert forall|k: int| 0 <= k < r.len() implies (#[trigger] r[k]).name == name || exists|
            m: int,
        | 0 <= m < s.len() && (#[trigger] s[m]).name == r[k].name by {
            if k > 0 {
                assert(r[k] == s[k]);
                assert(0 <= k < s.len() && s[k].name == r[k].name);
            }
        }
    } else {
        let s1 = s.subrange(1, s.len() as int);
        assert(unique_attr_names(s1)) by {
            assert(forall|i: int, j: int|
                0 <= i < j < s1.len() ==> (#[trigger] s1[i]).name != (#[trigger] s1[j]).name) by {
                assert(forall|i: int| 0 <= i < s1.len() ==> #[trigger] s1[i] == s[i + 1]);
            }
        }
        lemma_insert_attr_unique(s1, name, value);
        let r1 = spec_insert_attr(s1, name, value);
        assert(r == seq![s[0]] + r1);
        assert forall|i: int, j: int| 0 <= i < j < r.len() implies (#[trigger] r[i]).name != (
        #[trigger] r[j]).name by {
            assert(r[j] == r1[j - 1]);
            if i == 0 {
                assert(r[0] == s[0]);
                if r1[j - 1].name == name {
                } else {
                    let m = choose|m: int| 0 <= m < s1.len() && (#[trigger] s1[m]).name == r1[j
                        - 1].name;
                    assert(s1[m] == s[m + 1]);
                    assert(s[0].name != s[m + 1].name);
                }
            } else {
                assert(r[i] == r1[i - 1]);
            }
        }
        assert forall|k: int| 0 <= k < r.len() implies (#[trigger] r[k]).name == name || exists|
            m: int,
        | 0 <= m < s.len() && (#[trigger] s[m]).name == r[k].name by {
            if k == 0 {
                assert(r[0] == s[0]);
                assert(0 <= 0 < s.len() && s[0].name == r[0].name);
            } else {
                assert(r[k] == r1[k - 1]);
                if r1[k - 1].name == name {
                } else {
                    let m = choose|m: int| 0 <= m < s1.len() && (#[trigger] s1[m]).name == r1[k
                        - 1].name;
                    assert(s1[m] == s[m + 1]);
                    assert(0 <= m + 1 < s.len() && s[m + 1].name == r[k].name);
                }
            }
        }
    }
}

proof fn lemma_build_attrs_unique(acc: Seq<AttributeView>, cst_attrs: Seq<CstAttrView>)
    requires
        unique_attr_names(acc),
    ensures
        unique_attr_names(spec_build_attrs(acc, cst_attrs)),
    decreases cst_attrs.len(),
{
    if cst_attrs.len() > 0 {
        lemma_insert_attr_unique(acc, cst_attrs[0].name, cst_attrs[0].value);
        lemma_build_attrs_unique(
            spec_insert_attr(acc, cst_attrs[0].name, cst_attrs[0].value),
            cst_attrs.subrange(1, cst_attrs.len() as int),
        );
    }
}

proof fn lemma_build_tag_wf(t: CstTagView)
    requires
        crate::grammar::wf_tag(t),
    ensures
        wf_hl_node(spec_build_tag(t)),
    decreases t,
{
    assert(unique_attr_names(Seq::<AttributeView>::empty()));
    lemma_build_attrs_unique(Seq::<AttributeView>::empty(), t.attrs);
    lemma_build_nodes_wf(t.body);
}

/// Law (data-model invariants): building from a well-formed CST yields a
/// well-formed AST — every tag name non-empty and made of identifier
/// characters, every attribute mapping with unique names, at every depth.
pub proof fn lemma_build_nodes_wf(items: Seq<CstNodeView>)
    requires
        crate::grammar::wf_nodes(items),
    ensures
        wf_hl_nodes(spec_build_nodes(items)),
    decreases items,
{
    if items.len() > 0 {
        let rest = items.subrange(1, items.len() as int);
        assert(crate::grammar::wf_node(items[0]) && crate::grammar::wf_nodes(rest));
        lemma_build_nodes_wf(rest);
        assert(spec_build_nodes(items) == spec_build_one(items[0]) + spec_build_nodes(rest));
        match items[0] {
            CstNodeView::Comment => {
                assert(Seq::<HyperlispView>::empty() + spec_build_nodes(rest) =~= spec_build_nodes(
                    rest,
                ));
            },
            CstNodeView::Tag(t) => {
                lemma_build_tag_wf(t);
                lemma_wf_hl_nodes_cons(spec_build_tag(t), spec_build_nodes(rest));
            },
            CstNodeView::Text(s) => {
                lemma_wf_hl_nodes_cons(HyperlispView::Text(s), spec_build_nodes(rest));
            },
        }
    }
}

/// Law: a comment match contributes no AST node, wherever it stands.
/// Inserting a comment at any position in a sequence of CST matches leaves
/// the built AST unchanged.
pub proof fn lemma_comment_elided(items: Seq<CstNodeView>, i: int)
    requires
        0 <= i <= items.len(),
    ensures
        spec_build_nodes(items.insert(i, CstNodeView::Comment)) == spec_build_nodes(items),
    decreases items.len(),
{
    let t = items.insert(i, CstNodeView::Comment);
    if i == 0 {
        assert(t[0] == CstNodeView::Comment);
        assert(t.subrange(1, t.len() as int) =~= items);
        assert(spec_build_nodes(t) == spec_build_one(CstNodeView::Comment) + spec_build_nodes(
            items,
        ));
        assert(spec_build_one(CstNodeView::Comment) + spec_build_nodes(items) =~= spec_build_nodes(
            items,
        ));
    } else {
        let items1 = items.subrange(1, items.len() as int);
        lemma_comment_elided(items1, i - 1);
        assert(t[0] == items[0]);
        assert(t.subrange(1, t.len() as int) =~= items1.insert(i - 1, CstNodeView::Comment));
        assert(spec_build_nodes(t) == spec_build_one(items[0]) + spec_build_nodes(items1));
        assert(spec_build_nodes(items) == spec_build_one(items[0]) + spec_build_nodes(items1));
    }
}

} // verus!
