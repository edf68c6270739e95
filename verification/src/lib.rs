//! Hyperlisp: a Lisp-syntax markup language compiled to HTML.
//!
//! A document is a sequence of parenthesized expressions; each expression
//! denotes an HTML element with attributes and nested content.  The pipeline
//! is `parse` (source text to concrete syntax tree), `build` (concrete syntax
//! tree to abstract syntax tree) and `render` (abstract syntax tree to HTML
//! text); each stage is a pure function of its input.

use vstd::prelude::*;

pub mod ast;
pub mod builder;
pub mod cst;
pub mod error;
pub mod grammar;
pub mod render;

pub use crate::ast::Hyperlisp;
pub use crate::grammar::HyperlispParser;

use crate::builder::spec_build_nodes;
use crate::error::SyntaxError;
use crate::error::spec_column;
use crate::error::spec_line;
use crate::grammar::ErrAt;
use crate::grammar::lemma_root_no_text;
use crate::grammar::spec_root;
use crate::render::spec_document_html;

verus! {

/// The whole pipeline as one mathematical function: parse the source,
/// build the AST, render it — or the syntax error the grammar designates.
pub open spec fn spec_compile(s: Seq<char>) -> Result<Seq<char>, ErrAt> {
    match spec_root(s, 0) {
        Ok(items) => Ok(spec_document_html(spec_build_nodes(items))),
        Err(e) => Err(e),
    }
}

/// Compiles a Hyperlisp document to HTML text: the composition of
/// `HyperlispParser::parse`, `builder::root` and `render::render_document`.
/// Returns exactly what `spec_compile` states, so the output is a function
/// of the source text alone.  The precondition only excludes a source of
/// the maximal character count, which no real buffer reaches; it keeps the
/// error's line and column countable in `usize`.
pub fn compile(source: &str) -> (r: Result<String, SyntaxError>)
    requires
        source@.len() < usize::MAX as int,
    ensures
        (match spec_compile(source@) {
            Ok(out) => r matches Ok(h) && h@ == out,
            Err(g) => r matches Err(e) && e.offset as int == g.at && e.expected == g.expected
                && e.line as int == spec_line(source@, g.at) && e.column as int == spec_column(
                source@,
                g.at,
            ),
        }),
{
    match HyperlispParser::parse(source) {
        Ok(cst) => {
            proof {
                lemma_root_no_text(source@, 0);
            }
            let nodes = crate::builder::root(&cst);
            Ok(crate::render::render_document(&nodes))
        },
        Err(e) => Err(e),
    }
}

/// Law (data-model invariants): on any source text that parses, the AST
/// the pipeline builds is well-formed — every tag name is non-empty and
/// made of identifier characters, and every attribute mapping has unique
/// names, at every nesting depth.
pub proof fn lemma_parse_builds_wf_ast(s: Seq<char>)
    ensures
        spec_root(s, 0) matches Ok(items) ==> crate::builder::wf_hl_nodes(
            spec_build_nodes(items),
        ),
{
    crate::grammar::lemma_root_wf(s, 0);
    if spec_root(s, 0) is Ok {
        crate::builder::lemma_build_nodes_wf(spec_root(s, 0)->Ok_0);
    }
}

/// Law: compilation is deterministic.  `compile` returns exactly
/// `spec_compile` of its input's character sequence, so two runs on
/// identical input produce identical output — this lemma records that the
/// designated result depends on nothing but that sequence.
pub proof fn lemma_compile_deterministic(s1: Seq<char>, s2: Seq<char>)
    requires
        s1 == s2,
    ensures
        spec_compile(s1) == spec_compile(s2),
{
}

} // verus!
