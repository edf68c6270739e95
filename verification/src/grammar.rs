//! The grammar engine: a recursive-descent parser for Hyperlisp with
//! parsing-expression semantics (ordered choice, greedy repetition, hence a
//! single deterministic parse for every input).  The grammar:
//!
//! ```text
//! root      := (whitespace | comment | tag)*          consuming all input
//! tag       := "(" id (ws attribute)* (ws? body)? ")"
//! attribute := name "=" value                         value bare or quoted
//! body      := (comment | tag | text)+                ws between items
//! text      := '"' any characters except '"' '"'
//! comment   := ";" up to and including end of line
//! id, name  := one or more of letter, digit, "-"
//! ```
//!
//! The spec functions `spec_root`, `spec_tag`, `spec_after_id` and
//! `spec_body_items` are the mathematical definition of the parse; the
//! executable parser returns exactly their result, or the syntax error
//! they designate, never panicking.

use vstd::prelude::*;

use crate::cst::Cst;
use crate::cst::CstAttr;
use crate::cst::CstAttrView;
use crate::cst::CstNode;
use crate::cst::CstNodeView;
use crate::cst::CstTag;
use crate::cst::CstTagView;
use crate::cst::attrs_view;
use crate::cst::lemma_attrs_view_cons;
use crate::cst::lemma_nodes_view_cons;
use crate::cst::nodes_view;
use crate::cst::node_view;
use crate::cst::tag_view;
use crate::error::Expected;
use crate::error::SyntaxError;
use crate::error::line_column;
use crate::error::spec_column;
use crate::error::spec_line;

verus! {

/// The parser type: `parse` takes source text to a CST or a syntax error.
pub struct HyperlispParser;

/// A syntax error as the spec parser designates it: character offset plus
/// the expected construct; line and column are derived at the boundary.
pub struct ErrAt {
    pub at: int,
    pub expected: Expected,
}

/// Whitespace: space, tab, carriage return, newline.
pub open spec fn is_ws_char(c: char) -> bool {
    c == ' ' || c == '\t' || c == '\r' || c == '\n'
}

/// Identifier characters for tag and attribute names: letters, digits, `-`.
pub open spec fn is_ident_char(c: char) -> bool {
    ||| ('a' as u32) <= (c as u32) && (c as u32) <= ('z' as u32)
    ||| ('A' as u32) <= (c as u32) && (c as u32) <= ('Z' as u32)
    ||| ('0' as u32) <= (c as u32) && (c as u32) <= ('9' as u32)
    ||| c == '-'
}

/// End of the identifier run that starts at `pos`.
pub open spec fn scan_ident(s: Seq<char>, pos: int) -> int
    decreases s.len() - pos,
{
    if pos < s.len() && is_ident_char(s[pos]) {
        scan_ident(s, pos + 1)
    } else {
        pos
    }
}

/// Position just after the comment that starts at `pos`: past the next
/// newline, or the end of input.
pub open spec fn scan_comment(s: Seq<char>, pos: int) -> int
    decreases s.len() - pos,
{
    if pos < s.len() {
        if s[pos] == '\n' {
            pos + 1
        } else {
            scan_comment(s, pos + 1)
        }
    } else {
        pos
    }
}

/// Position of the first `"` at or after `pos`, or the end of input.
pub open spec fn scan_text_end(s: Seq<char>, pos: int) -> int
    decreases s.len() - pos,
{
    if pos < s.len() {
        if s[pos] == '"' {
            pos
        } else {
            scan_text_end(s, pos + 1)
        }
    } else {
        pos
    }
}

proof fn lemma_scan_ident(s: Seq<char>, pos: int)
    requires
        0 <= pos <= s.len(),
    ensures
        pos <= scan_ident(s, pos) <= s.len(),
        forall|k: int| pos <= k < scan_ident(s, pos) ==> is_ident_char(#[trigger] s[k]),
    decreases s.len() - pos,
{
    if pos < s.len() && is_ident_char(s[pos]) {
        lemma_scan_ident(s, pos + 1);
    }
}

proof fn lemma_scan_comment(s: Seq<char>, pos: int)
    requires
        0 <= pos < s.len(),
    ensures
        pos < scan_comment(s, pos) <= s.len(),
    decreases s.len() - pos,
{
    if s[pos] != '\n' {
        if pos + 1 < s.len() {
            lemma_scan_comment(s, pos + 1);
        } else {
            assert(scan_comment(s, pos + 1) == pos + 1);
        }
    }
}

proof fn lemma_scan_text_end(s: Seq<char>, pos: int)
    requires
        0 <= pos <= s.len(),
    ensures
        pos <= scan_text_end(s, pos) <= s.len(),
        scan_text_end(s, pos) < s.len() ==> s[scan_text_end(s, pos)] == '"',
    decreases s.len() - pos,
{
    if pos < s.len() && s[pos] != '"' {
        lemma_scan_text_end(s, pos + 1);
    }
}

/// The next scan position after a sub-parse, clamped into `(pos, s.len()]`
/// so that termination is structural; every reachable sub-parse result
/// already lies in that range, so the clamp is the identity there.
pub open spec fn adv(s: Seq<char>, pos: int, next: int) -> int {
    if pos < next <= s.len() {
        next
    } else {
        pos + 1
    }
}

/// The parse of a document from `pos`: whitespace is skipped, comments and
/// tags become root items, anything else is a syntax error.
pub open spec fn spec_root(s: Seq<char>, pos: int) -> Result<Seq<CstNodeView>, ErrAt>
    decreases s.len() - pos, 3int,
{
    if pos >= s.len() {
        Ok(Seq::empty())
    } else if is_ws_char(s[pos]) {
        spec_root(s, pos + 1)
    } else if s[pos] == ';' {
        match spec_root(s, adv(s, pos, scan_comment(s, pos))) {
            Ok(rest) => Ok(seq![CstNodeView::Comment] + rest),
            Err(e) => Err(e),
        }
    } else if s[pos] == '(' {
        match spec_tag(s, pos) {
            Ok((t, p2)) => match spec_root(s, adv(s, pos, p2)) {
                Ok(rest) => Ok(seq![CstNodeView::Tag(t)] + rest),
                Err(e) => Err(e),
            },
            Err(e) => Err(e),
        }
    } else {
        Err(ErrAt { at: pos, expected: Expected::Tag })
    }
}

/// The parse of one tag whose `(` stands at `pos`: its identifier, then
/// attributes, then an optional body, then `)`.
pub open spec fn spec_tag(s: Seq<char>, pos: int) -> Result<(CstTagView, int), ErrAt>
    decreases s.len() - pos, 0int,
{
    let ie = scan_ident(s, pos + 1);
    if ie == pos + 1 {
        Err(ErrAt { at: pos + 1, expected: Expected::Identifier })
    } else {
        match spec_after_id(s, adv(s, pos, ie)) {
            Ok((attrs, body, e)) => Ok(
                (CstTagView { id: s.subrange(pos + 1, ie), attrs, body }, e),
            ),
            Err(e) => Err(e),
        }
    }
}

/// The parse of a tag's remainder after its identifier: attribute matches
/// while they last, then an optional body, then the closing `)`.  Returns
/// the attributes, the body items and the position just past `)`.
pub open spec fn spec_after_id(s: Seq<char>, pos: int) -> Result<
    (Seq<CstAttrView>, Seq<CstNodeView>, int),
    ErrAt,
>
    decreases s.len() - pos, 2int,
{
    if pos >= s.len() {
        Err(ErrAt { at: s.len() as int, expected: Expected::CloseParen })
    } else if is_ws_char(s[pos]) {
        spec_after_id(s, pos + 1)
    } else if s[pos] == ')' {
        Ok((Seq::empty(), Seq::empty(), pos + 1))
    } else if is_ident_char(s[pos]) {
        let ne = scan_ident(s, pos);
        if ne >= s.len() || s[ne] != '=' {
            Err(ErrAt { at: ne, expected: Expected::Equals })
        } else if ne + 1 < s.len() && s[ne + 1] == '"' {
            let ve = scan_text_end(s, ne + 2);
            if ve >= s.len() {
                Err(ErrAt { at: s.len() as int, expected: Expected::Quote })
            } else {
                let a = CstAttrView {
                    name: s.subrange(pos, ne),
                    value: s.subrange(ne + 2, ve),
                };
                match spec_after_id(s, adv(s, pos, ve + 1)) {
                    Ok((attrs, body, e)) => Ok((seq![a] + attrs, body, e)),
                    Err(e) => Err(e),
                }
            }
        } else {
            let ve = scan_ident(s, ne + 1);
            if ve == ne + 1 {
                Err(ErrAt { at: ne + 1, expected: Expected::AttributeValue })
            } else {
                let a = CstAttrView {
                    name: s.subrange(pos, ne),
                    value: s.subrange(ne + 1, ve),
                };
                match spec_after_id(s, adv(s, pos, ve)) {
                    Ok((attrs, body, e)) => Ok((seq![a] + attrs, body, e)),
                    Err(e) => Err(e),
                }
            }
        }
    } else if s[pos] == '(' || s[pos] == '"' || s[pos] == ';' {
        match spec_body_items(s, pos) {
            Ok((items, rp)) => Ok((Seq::empty(), items, rp + 1)),
            Err(e) => Err(e),
        }
    } else {
        Err(ErrAt { at: pos, expected: Expected::BodyItem })
    }
}

/// The parse of body items up to (not including) the closing `)`: tags,
/// quoted text and comments, with whitespace between them skipped.
/// Returns the items and the position of the `)`.
pub open spec fn spec_body_items(s: Seq<char>, pos: int) -> Result<
    (Seq<CstNodeView>, int),
    ErrAt,
>
    decreases s.len() - pos, 1int,
{
    if pos >= s.len() {
        Err(ErrAt { at: s.len() as int, expected: Expected::CloseParen })
    } else if is_ws_char(s[pos]) {
        spec_body_items(s, pos + 1)
    } else if s[pos] == ')' {
        Ok((Seq::empty(), pos))
    } else if s[pos] == ';' {
        match spec_body_items(s, adv(s, pos, scan_comment(s, pos))) {
            Ok((items, rp)) => Ok((seq![CstNodeView::Comment] + items, rp)),
            Err(e) => Err(e),
        }
    } else if s[pos] == '(' {
        match spec_tag(s, pos) {
            Ok((t, p2)) => match spec_body_items(s, adv(s, pos, p2)) {
                Ok((items, rp)) => Ok((seq![CstNodeView::Tag(t)] + items, rp)),
                Err(e) => Err(e),
            },
            Err(e) => Err(e),
        }
    } else if s[pos] == '"' {
        let te = scan_text_end(s, pos + 1);
        if te >= s.len() {
            Err(ErrAt { at: s.len() as int, expected: Expected::Quote })
        } else {
            match spec_body_items(s, adv(s, pos, te + 1)) {
                Ok((items, rp)) => Ok((seq![CstNodeView::Text(s.subrange(pos + 1, te))] + items, rp)),
                Err(e) => Err(e),
            }
        }
    } else {
        Err(ErrAt { at: pos, expected: Expected::BodyItem })
    }
}

/// A well-formed tag or attribute name: non-empty, identifier characters
/// only — never empty, never holding parentheses, quotes or whitespace.
pub open spec fn wf_name(s: Seq<char>) -> bool {
    s.len() > 0 && forall|i: int| 0 <= i < s.len() ==> is_ident_char(#[trigger] s[i])
}

/// Well-formedness of a tag match: its identifier is a well-formed name,
/// recursively through its body.
pub open spec fn wf_tag(t: CstTagView) -> bool
    decreases t,
{
    wf_name(t.id) && wf_nodes(t.body)
}

/// Well-formedness of one CST match.
pub open spec fn wf_node(n: CstNodeView) -> bool
    decreases n,
{
    match n {
        CstNodeView::Comment => true,
        CstNodeView::Tag(t) => wf_tag(t),
        CstNodeView::Text(_) => true,
    }
}

/// Well-formedness of a sequence of CST matches.
pub open spec fn wf_nodes(items: Seq<CstNodeView>) -> bool
    decreases items,
{
    if items.len() == 0 {
        true
    } else {
        wf_node(items[0]) && wf_nodes(items.subrange(1, items.len() as int))
    }
}

proof fn lemma_wf_nodes_cons(v: CstNodeView, rest: Seq<CstNodeView>)
    requires
        wf_node(v),
        wf_nodes(rest),
    ensures
        wf_nodes(seq![v] + rest),
{
    let t = seq![v] + rest;
    assert(t[0] == v);
    assert(t.subrange(1, t.len() as int) =~= rest);
}

/// A successful tag parse always advances and stays inside the input.
proof fn lemma_tag_bounds(s: Seq<char>, pos: int)
    requires
        0 <= pos < s.len(),
    ensures
        spec_tag(s, pos) matches Ok(r) ==> pos < r.1 <= s.len(),
    decreases s.len() - pos, 0int,
{
    lemma_scan_ident(s, pos + 1);
    let ie = scan_ident(s, pos + 1);
    if ie != pos + 1 {
        assert(adv(s, pos, ie) == ie);
        lemma_after_id_bounds(s, ie);
    }
}

/// A successful remainder parse always advances and stays inside the input.
proof fn lemma_after_id_bounds(s: Seq<char>, pos: int)
    requires
        0 <= pos <= s.len(),
    ensures
        spec_after_id(s, pos) matches Ok(r) ==> pos < r.2 <= s.len(),
    decreases s.len() - pos, 2int,
{
    if pos >= s.len() {
    } else if is_ws_char(s[pos]) {
        lemma_after_id_bounds(s, pos + 1);
    } else if s[pos] == ')' {
    } else if is_ident_char(s[pos]) {
        lemma_scan_ident(s, pos);
        let ne = scan_ident(s, pos);
        if ne >= s.len() || s[ne] != '=' {
        } else if ne + 1 < s.len() && s[ne + 1] == '"' {
            lemma_scan_text_end(s, ne + 2);
            let ve = scan_text_end(s, ne + 2);
            if ve < s.len() {
                assert(adv(s, pos, ve + 1) == ve + 1);
                lemma_after_id_bounds(s, ve + 1);
            }
        } else {
            lemma_scan_ident(s, ne + 1);
            let ve = scan_ident(s, ne + 1);
            if ve != ne + 1 {
                assert(adv(s, pos, ve) == ve);
                lemma_after_id_bounds(s, ve);
            }
        }
    } else if s[pos] == '(' || s[pos] == '"' || s[pos] == ';' {
        lemma_body_items_bounds(s, pos);
    } else {
    }
}

/// A successful body parse stops on a `)` inside the input, at or after
/// its starting position.
proof fn lemma_body_items_bounds(s: Seq<char>, pos: int)
    requires
        0 <= pos <= s.len(),
    ensures
        spec_body_items(s, pos) matches Ok(r) ==> pos <= r.1 < s.len() && s[r.1] == ')',
    decreases s.len() - pos, 1int,
{
    if pos >= s.len() {
    } else if is_ws_char(s[pos]) {
        lemma_body_items_bounds(s, pos + 1);
    } else if s[pos] == ')' {
    } else if s[pos] == ';' {
        lemma_scan_comment(s, pos);
        let ce = scan_comment(s, pos);
        assert(adv(s, pos, ce) == ce);
        lemma_body_items_bounds(s, ce);
    } else if s[pos] == '(' {
        lemma_tag_bounds(s, pos);
        match spec_tag(s, pos) {
            Ok((t, p2)) => {
                assert(adv(s, pos, p2) == p2);
                lemma_body_items_bounds(s, p2);
            },
            Err(e) => {},
        }
    } else if s[pos] == '"' {
        lemma_scan_text_end(s, pos + 1);
        let te = scan_text_end(s, pos + 1);
        if te < s.len() {
            assert(adv(s, pos, te + 1) == te + 1);
            lemma_body_items_bounds(s, te + 1);
        }
    } else {
    }
}

/// A successful tag parse yields a well-formed tag: the grammar only
/// matches a non-empty identifier run as the name.
proof fn lemma_tag_wf(s: Seq<char>, pos: int)
    requires
        0 <= pos < s.len(),
    ensures
        spec_tag(s, pos) matches Ok(r) ==> wf_tag(r.0),
    decreases s.len() - pos, 0int,
{
    lemma_scan_ident(s, pos + 1);
    let ie = scan_ident(s, pos + 1);
    if ie != pos + 1 {
        assert(wf_name(s.subrange(pos + 1, ie))) by {
            let id = s.subrange(pos + 1, ie);
            assert(forall|i: int| 0 <= i < id.len() ==> #[trigger] id[i] == s[pos + 1 + i]);
        }
        assert(adv(s, pos, ie) == ie);
        lemma_after_id_wf(s, ie);
    }
}

proof fn lemma_after_id_wf(s: Seq<char>, pos: int)
    requires
        0 <= pos <= s.len(),
    ensures
        spec_after_id(s, pos) matches Ok(r) ==> wf_nodes(r.1),
    decreases s.len() - pos, 2int,
{
    if pos >= s.len() {
    } else if is_ws_char(s[pos]) {
        lemma_after_id_wf(s, pos + 1);
    } else if s[pos] == ')' {
        assert(wf_nodes(Seq::<CstNodeView>::empty()));
    } else if is_ident_char(s[pos]) {
        lemma_scan_ident(s, pos);
        let ne = scan_ident(s, pos);
        if ne >= s.len() || s[ne] != '=' {
        } else if ne + 1 < s.len() && s[ne + 1] == '"' {
            lemma_scan_text_end(s, ne + 2);
            let ve = scan_text_end(s, ne + 2);
            if ve < s.len() {
                assert(adv(s, pos, ve + 1) == ve + 1);
                lemma_after_id_wf(s, ve + 1);
            }
        } else {
            lemma_scan_ident(s, ne + 1);
            let ve = scan_ident(s, ne + 1);
            if ve != ne + 1 {
                assert(adv(s, pos, ve) == ve);
                lemma_after_id_wf(s, ve);
            }
        }
    } else if s[pos] == '(' || s[pos] == '"' || s[pos] == ';' {
        lemma_body_items_wf(s, pos);
    } else {
    }
}

proof fn lemma_body_items_wf(s: Seq<char>, pos: int)
    requires
        0 <= pos <= s.len(),
    ensures
        spec_body_items(s, pos) matches Ok(r) ==> wf_nodes(r.0),
    decreases s.len() - pos, 1int,
{
    if pos >= s.len() {
    } else if is_ws_char(s[pos]) {
        lemma_body_items_wf(s, pos + 1);
    } else if s[pos] == ')' {
        assert(wf_nodes(Seq::<CstNodeView>::empty()));
    } else if s[pos] == ';' {
        lemma_scan_comment(s, pos);
        let ce = scan_comment(s, pos);
        assert(adv(s, pos, ce) == ce);
        lemma_body_items_wf(s, ce);
        if spec_body_items(s, ce) is Ok {
            lemma_wf_nodes_cons(CstNodeView::Comment, spec_body_items(s, ce)->Ok_0.0);
        }
    } else if s[pos] == '(' {
        lemma_tag_bounds(s, pos);
        lemma_tag_wf(s, pos);
        match spec_tag(s, pos) {
            Ok((t, p2)) => {
                assert(adv(s, pos, p2) == p2);
                lemma_body_items_wf(s, p2);
                if spec_body_items(s, p2) is Ok {
                    lemma_wf_nodes_cons(CstNodeView::Tag(t), spec_body_items(s, p2)->Ok_0.0);
                }
            },
            Err(e) => {},
        }
    } else if s[pos] == '"' {
        lemma_scan_text_end(s, pos + 1);
        let te = scan_text_end(s, pos + 1);
        if te < s.len() {
            assert(adv(s, pos, te + 1) == te + 1);
            lemma_body_items_wf(s, te + 1);
            if spec_body_items(s, te + 1) is Ok {
                lemma_wf_nodes_cons(
                    CstNodeView::Text(s.subrange(pos + 1, te)),
                    spec_body_items(s, te + 1)->Ok_0.0,
                );
            }
        }
    } else {
    }
}

/// Law (data-model invariant): every tag match that a successful parse
/// produces carries a well-formed name — non-empty, identifier characters
/// only — at every nesting depth.
pub proof fn lemma_root_wf(s: Seq<char>, pos: int)
    requires
        0 <= pos,
    ensures
        spec_root(s, pos) matches Ok(items) ==> wf_nodes(items),
    decreases s.len() - pos, 3int,
{
    if pos >= s.len() {
        assert(wf_nodes(Seq::<CstNodeView>::empty()));
    } else if is_ws_char(s[pos]) {
        lemma_root_wf(s, pos + 1);
    } else if s[pos] == ';' {
        let ce = adv(s, pos, scan_comment(s, pos));
        lemma_root_wf(s, ce);
        if spec_root(s, ce) is Ok {
            lemma_wf_nodes_cons(CstNodeView::Comment, spec_root(s, ce)->Ok_0);
        }
    } else if s[pos] == '(' {
        lemma_tag_wf(s, pos);
        match spec_tag(s, pos) {
            Ok((t, p2)) => {
                let q = adv(s, pos, p2);
                lemma_root_wf(s, q);
                if spec_root(s, q) is Ok {
                    lemma_wf_nodes_cons(CstNodeView::Tag(t), spec_root(s, q)->Ok_0);
                }
            },
            Err(e) => {},
        }
    } else {
    }
}

/// The root rule produces only comment and tag matches: text occurs only
/// inside a tag's body, never at the top level of a document.
pub proof fn lemma_root_no_text(s: Seq<char>, pos: int)
    ensures
        spec_root(s, pos) matches Ok(items) ==> forall|i: int|
            0 <= i < items.len() ==> !(#[trigger] items[i] is Text),
    decreases s.len() - pos, 3int,
{
    if pos >= s.len() {
    } else if is_ws_char(s[pos]) {
        lemma_root_no_text(s, pos + 1);
    } else if s[pos] == ';' {
        lemma_root_no_text(s, adv(s, pos, scan_comment(s, pos)));
        if spec_root(s, pos) is Ok {
            let items = spec_root(s, pos)->Ok_0;
            let rest = spec_root(s, adv(s, pos, scan_comment(s, pos)))->Ok_0;
            assert forall|i: int| 0 <= i < items.len() implies !(#[trigger] items[i] is Text) by {
                if i > 0 {
                    assert(items[i] == rest[i - 1]);
                }
            }
        }
    } else if s[pos] == '(' {
        match spec_tag(s, pos) {
            Ok((t, p2)) => {
                lemma_root_no_text(s, adv(s, pos, p2));
                if spec_root(s, pos) is Ok {
                    let items = spec_root(s, pos)->Ok_0;
                    let rest = spec_root(s, adv(s, pos, p2))->Ok_0;
                    assert forall|i: int| 0 <= i < items.len() implies !(#[trigger] items[i]
                        is Text) by {
                        if i > 0 {
                            assert(items[i] == rest[i - 1]);
                        }
                    }
                }
            },
            Err(e) => {},
        }
    } else {
    }
}

fn is_ws(c: char) -> (r: bool)
    ensures
        r == is_ws_char(c),
{
    c == ' ' || c == '\t' || c == '\r' || c == '\n'
}

fn is_ident(c: char) -> (r: bool)
    ensures
        r == is_ident_char(c),
{
    (c as u32 >= 'a' as u32 && c as u32 <= 'z' as u32) || (c as u32 >= 'A' as u32 && c as u32
        <= 'Z' as u32) || (c as u32 >= '0' as u32 && c as u32 <= '9' as u32) || c == '-'
}

fn scan_ident_x(s: &str, n: usize, pos: usize) -> (r: usize)
    requires
        s@.len() == n as int,
        pos <= n,
    ensures
        r as int == scan_ident(s@, pos as int),
        pos <= r <= n,
{
    let mut i: usize = pos;
    loop
        invariant
            pos <= i <= n,
            s@.len() == n as int,
            scan_ident(s@, pos as int) == scan_ident(s@, i as int),
        ensures
            pos <= i <= n,
            scan_ident(s@, pos as int) == scan_ident(s@, i as int),
            i == n || !is_ident_char(s@[i as int]),
        decreases n - i,
    {
        if i == n {
            break ;
        }
        let c = s.get_char(i);
        if !is_ident(c) {
            break ;
        }
        i = i + 1;
    }
    proof {
        assert(scan_ident(s@, i as int) == i as int);
    }
    i
}

fn scan_comment_x(s: &str, n: usize, pos: usize) -> (r: usize)
    requires
        s@.len() == n as int,
        pos < n,
    ensures
        r as int == scan_comment(s@, pos as int),
        pos < r <= n,
{
    let mut i: usize = pos;
    loop
        invariant
            pos <= i <= n,
            s@.len() == n as int,
            scan_comment(s@, pos as int) == scan_comment(s@, i as int),
        ensures
            pos <= i <= n,
            scan_comment(s@, pos as int) == scan_comment(s@, i as int),
            i == n || s@[i as int] == '\n',
        decreases n - i,
    {
        if i == n {
            break ;
        }
        let c = s.get_char(i);
        if c == '\n' {
            break ;
        }
        i = i + 1;
    }
    if i == n {
        proof {
            assert(scan_comment(s@, i as int) == i as int);
        }
        i
    } else {
        proof {
            assert(scan_comment(s@, i as int) == i + 1);
        }
        i + 1
    }
}

fn scan_text_x(s: &str, n: usize, pos: usize) -> (r: usize)
    requires
        s@.len() == n as int,
        pos <= n,
    ensures
        r as int == scan_text_end(s@, pos as int),
        pos <= r <= n,
        r < n ==> s@[r as int] == '"',
{
    let mut i: usize = pos;
    loop
        invariant
            pos <= i <= n,
            s@.len() == n as int,
            scan_text_end(s@, pos as int) == scan_text_end(s@, i as int),
        ensures
            pos <= i <= n,
            scan_text_end(s@, pos as int) == scan_text_end(s@, i as int),
            i == n || s@[i as int] == '"',
        decreases n - i,
    {
        if i == n {
            break ;
        }
        let c = s.get_char(i);
        if c == '"' {
            break ;
        }
        i = i + 1;
    }
    proof {
        assert(scan_text_end(s@, i as int) == i as int);
    }
    i
}

fn p_root(s: &str, n: usize, pos: usize) -> (r: Result<Vec<CstNode>, (usize, Expected)>)
    requires
        s@.len() == n as int,
        pos <= n,
    ensures
        (match spec_root(s@, pos as int) {
            Ok(items) => r matches Ok(v) && nodes_view(v@) == items,
            Err(g) => r matches Err(e) && e.0 as int == g.at && e.1 == g.expected && e.0 <= n,
        }),
    decreases n - pos, 3int,
{
    if pos == n {
        let v: Vec<CstNode> = Vec::new();
        proof {
            assert(nodes_view(v@) =~= Seq::<CstNodeView>::empty());
        }
        return Ok(v);
    }
    let c = s.get_char(pos);
    if is_ws(c) {
        p_root(s, n, pos + 1)
    } else if c == ';' {
        let ce = scan_comment_x(s, n, pos);
        proof {
            assert(adv(s@, pos as int, ce as int) == ce as int);
        }
        match p_root(s, n, ce) {
            Ok(rest) => {
                let mut v = rest;
                proof {
                    lemma_nodes_view_cons(CstNode::Comment, v@);
                }
                v.insert(0, CstNode::Comment);
                Ok(v)
            },
            Err(e) => Err(e),
        }
    } else if c == '(' {
        match p_tag(s, n, pos) {
            Ok((t, p2)) => {
                proof {
                    lemma_tag_bounds(s@, pos as int);
                    assert(adv(s@, pos as int, p2 as int) == p2 as int);
                }
                match p_root(s, n, p2) {
                    Ok(rest) => {
                        let mut v = rest;
                        proof {
                            lemma_nodes_view_cons(CstNode::Tag(t), v@);
                        }
                        v.insert(0, CstNode::Tag(t));
                        Ok(v)
                    },
                    Err(e) => Err(e),
                }
            },
            Err(e) => Err(e),
        }
    } else {
        Err((pos, Expected::Tag))
    }
}

fn p_tag(s: &str, n: usize, pos: usize) -> (r: Result<(CstTag, usize), (usize, Expected)>)
    requires
        s@.len() == n as int,
        pos < n,
    ensures
        (match spec_tag(s@, pos as int) {
            Ok(g) => r matches Ok(x) && tag_view(x.0) == g.0 && x.1 as int == g.1,
            Err(g) => r matches Err(e) && e.0 as int == g.at && e.1 == g.expected && e.0 <= n,
        }),
    decreases n - pos, 0int,
{
    let ie = scan_ident_x(s, n, pos + 1);
    if ie == pos + 1 {
        return Err((pos + 1, Expected::Identifier));
    }
    proof {
        assert(adv(s@, pos as int, ie as int) == ie as int);
    }
    let ids = s.substring_char(pos + 1, ie);
    let id = ids.to_owned();
    match p_after_id(s, n, ie) {
        Ok((attrs, bodyv, e)) => {
            let t = CstTag { id, attrs, body: bodyv };
            Ok((t, e))
        },
        Err(e) => Err(e),
    }
}

fn p_after_id(s: &str, n: usize, pos: usize) -> (r: Result<
    (Vec<CstAttr>, Vec<CstNode>, usize),
    (usize, Expected),
>)
    requires
        s@.len() == n as int,
        pos <= n,
    ensures
        (match spec_after_id(s@, pos as int) {
            Ok(g) => r matches Ok(x) && attrs_view(x.0@) == g.0 && nodes_view(x.1@) == g.1 && x.2
                as int == g.2,
            Err(g) => r matches Err(e) && e.0 as int == g.at && e.1 == g.expected && e.0 <= n,
        }),
    decreases n - pos, 2int,
{
    if pos == n {
        return Err((n, Expected::CloseParen));
    }
    let c = s.get_char(pos);
    if is_ws(c) {
        p_after_id(s, n, pos + 1)
    } else if c == ')' {
        let attrs: Vec<CstAttr> = Vec::new();
        let items: Vec<CstNode> = Vec::new();
        proof {
            assert(attrs_view(attrs@) =~= Seq::<CstAttrView>::empty());
            assert(nodes_view(items@) =~= Seq::<CstNodeView>::empty());
        }
        Ok((attrs, items, pos + 1))
    } else if is_ident(c) {
        let ne = scan_ident_x(s, n, pos);
        if ne == n {
            return Err((ne, Expected::Equals));
        }
        let ceq = s.get_char(ne);
        if ceq != '=' {
            return Err((ne, Expected::Equals));
        }
        let quoted = if ne + 1 < n {
            s.get_char(ne + 1) == '"'
        } else {
            false
        };
        if quoted {
            let ve = scan_text_x(s, n, ne + 2);
            if ve == n {
                return Err((n, Expected::Quote));
            }
            proof {
                assert(adv(s@, pos as int, ve as int + 1) == ve as int + 1);
            }
            let name = s.substring_char(pos, ne).to_owned();
            let value = s.substring_char(ne + 2, ve).to_owned();
            match p_after_id(s, n, ve + 1) {
                Ok((rest_attrs, items, e)) => {
                    let mut attrs = rest_attrs;
                    proof {
                        lemma_attrs_view_cons(CstAttr { name, value }, attrs@);
                    }
                    attrs.insert(0, CstAttr { name, value });
                    Ok((attrs, items, e))
                },
                Err(e) => Err(e),
            }
        } else {
            let ve = scan_ident_x(s, n, ne + 1);
            if ve == ne + 1 {
                return Err((ne + 1, Expected::AttributeValue));
            }
            proof {
                assert(adv(s@, pos as int, ve as int) == ve as int);
            }
            let name = s.substring_char(pos, ne).to_owned();
            let value = s.substring_char(ne + 1, ve).to_owned();
            match p_after_id(s, n, ve) {
                Ok((rest_attrs, items, e)) => {
                    let mut attrs = rest_attrs;
                    proof {
                        lemma_attrs_view_cons(CstAttr { name, value }, attrs@);
                    }
                    attrs.insert(0, CstAttr { name, value });
                    Ok((attrs, items, e))
                },
                Err(e) => Err(e),
            }
        }
    } else if c == '(' || c == '"' || c == ';' {
        match p_body_items(s, n, pos) {
            Ok((items, rp)) => {
                proof {
                    lemma_body_items_bounds(s@, pos as int);
                }
                let attrs: Vec<CstAttr> = Vec::new();
                proof {
                    assert(attrs_view(attrs@) =~= Seq::<CstAttrView>::empty());
                }
                Ok((attrs, items, rp + 1))
            },
            Err(e) => Err(e),
        }
    } else {
        Err((pos, Expected::BodyItem))
    }
}

fn p_body_items(s: &str, n: usize, pos: usize) -> (r: Result<
    (Vec<CstNode>, usize),
    (usize, Expected),
>)
    requires
        s@.len() == n as int,
        pos <= n,
    ensures
        (match spec_body_items(s@, pos as int) {
            Ok(g) => r matches Ok(x) && nodes_view(x.0@) == g.0 && x.1 as int == g.1,
            Err(g) => r matches Err(e) && e.0 as int == g.at && e.1 == g.expected && e.0 <= n,
        }),
    decreases n - pos, 1int,
{
    if pos == n {
        return Err((n, Expected::CloseParen));
    }
    let c = s.get_char(pos);
    if is_ws(c) {
        p_body_items(s, n, pos + 1)
    } else if c == ')' {
        let items: Vec<CstNode> = Vec::new();
        proof {
            assert(nodes_view(items@) =~= Seq::<CstNodeView>::empty());
        }
        Ok((items, pos))
    } else if c == ';' {
        let ce = scan_comment_x(s, n, pos);
        proof {
            assert(adv(s@, pos as int, ce as int) == ce as int);
        }
        match p_body_items(s, n, ce) {
            Ok((rest, rp)) => {
                let mut items = rest;
                proof {
                    lemma_nodes_view_cons(CstNode::Comment, items@);
                }
                items.insert(0, CstNode::Comment);
                Ok((items, rp))
            },
            Err(e) => Err(e),
        }
    } else if c == '(' {
        match p_tag(s, n, pos) {
            Ok((t, p2)) => {
                proof {
                    lemma_tag_bounds(s@, pos as int);
                    assert(adv(s@, pos as int, p2 as int) == p2 as int);
                }
                match p_body_items(s, n, p2) {
                    Ok((rest, rp)) => {
                        let mut items = rest;
                        proof {
                            lemma_nodes_view_cons(CstNode::Tag(t), items@);
                        }
                        items.insert(0, CstNode::Tag(t));
                        Ok((items, rp))
                    },
                    Err(e) => Err(e),
                }
            },
            Err(e) => Err(e),
        }
    } else if c == '"' {
        let te = scan_text_x(s, n, pos + 1);
        if te == n {
            return Err((n, Expected::Quote));
        }
        proof {
            assert(adv(s@, pos as int, te as int + 1) == te as int + 1);
        }
        let txt = s.substring_char(pos + 1, te).to_owned();
        match p_body_items(s, n, te + 1) {
            Ok((rest, rp)) => {
                let mut items = rest;
                proof {
                    lemma_nodes_view_cons(CstNode::Text(txt), items@);
                }
                items.insert(0, CstNode::Text(txt));
                Ok((items, rp))
            },
            Err(e) => Err(e),
        }
    } else {
        Err((pos, Expected::BodyItem))
    }
}

impl HyperlispParser {
    /// Parses a whole document.  Returns the CST that `spec_root` defines
    /// for this source text, or the syntax error it designates, with the
    /// error's line and column derived from its character offset.  The
    /// precondition only excludes a source of the maximal character count,
    /// which no real buffer reaches.
    pub fn parse(source: &str) -> (r: Result<Cst, SyntaxError>)
        requires
            source@.len() < usize::MAX as int,
        ensures
            (match spec_root(source@, 0) {
                Ok(items) => r matches Ok(cst) && cst@ == items,
                Err(g) => r matches Err(e) && e.offset as int == g.at && e.expected == g.expected
                    && e.line as int == spec_line(source@, g.at) && e.column as int == spec_column(
                    source@,
                    g.at,
                ),
            }),
    {
        let n = source.unicode_len();
        match p_root(source, n, 0) {
            Ok(items) => Ok(Cst { items }),
            Err((at, expected)) => {
                let (line, column) = line_column(source, n, at);
                Err(SyntaxError { offset: at, line, column, expected })
            },
        }
    }
}

} // verus!
