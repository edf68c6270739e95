//! End-to-end tests of the compile pipeline: parse, build, render.

use hyperlisp::ast::Attribute;
use hyperlisp::ast::Hyperlisp;
use hyperlisp::builder;
use hyperlisp::compile;
use hyperlisp::cst::CstAttr;
use hyperlisp::cst::CstNode;
use hyperlisp::cst::CstTag;
use hyperlisp::error::Expected;
use hyperlisp::grammar::HyperlispParser;
use hyperlisp::render::is_void;
use hyperlisp::render::render_document;

#[test]
fn void_child_in_nonvoid_parent() {
    assert_eq!(compile("(p (br))").unwrap(), "<p><br></p>");
}

#[test]
fn children_force_closing_tag_on_void_name() {
    assert_eq!(compile("(img (span \"x\"))").unwrap(), "<img><span>x</span></img>");
}

#[test]
fn br_with_children_closes_too() {
    assert_eq!(compile("(br (span \"x\"))").unwrap(), "<br><span>x</span></br>");
}

#[test]
fn leading_and_trailing_blanks_and_comments_at_top_level() {
    assert_eq!(compile(" ; c\n (p) ; d\n").unwrap(), "<p></p>");
}

#[test]
fn text_may_hold_multibyte_characters() {
    assert_eq!(compile("(p \"h\u{e9}llo\")").unwrap(), "<p>h\u{e9}llo</p>");
}

#[test]
fn uppercase_identifiers_are_kept() {
    assert_eq!(compile("(DIV)").unwrap(), "<DIV></DIV>");
}

#[test]
fn siblings_inside_one_tag() {
    assert_eq!(
        compile("(div (p \"hello\") (p \"world\"))").unwrap(),
        "<div><p>hello</p><p>world</p></div>"
    );
}

#[test]
fn two_top_level_tags_on_two_lines() {
    assert_eq!(compile("(a) (b)").unwrap(), "<a></a>\n<b></b>");
}

#[test]
fn attribute_renders_quoted() {
    assert_eq!(compile("(div class=box \"text\")").unwrap(), "<div class=\"box\">text</div>");
}

#[test]
fn unclosed_tag_is_a_syntax_error_not_a_panic() {
    let err = compile("(div").unwrap_err();
    assert_eq!(err.offset, 4);
    assert_eq!(err.line, 1);
    assert_eq!(err.column, 5);
    assert_eq!(err.expected, Expected::CloseParen);
}

#[test]
fn comments_produce_no_output() {
    assert_eq!(compile("; hello\n(div ; c\n \"x\")").unwrap(), "<div>x</div>");
}

#[test]
fn comment_only_document_renders_empty() {
    assert_eq!(compile("; nothing here").unwrap(), "");
}

#[test]
fn empty_document_renders_empty() {
    assert_eq!(compile("").unwrap(), "");
    assert_eq!(compile("  \n\t ").unwrap(), "");
}

#[test]
fn repeated_runs_are_byte_identical() {
    let src = "(div class=box (p \"a\") ; c\n (br))";
    let a = compile(src).unwrap();
    let b = compile(src).unwrap();
    assert_eq!(a, b);
}

#[test]
fn rendering_is_lossy_comments_dropped() {
    // Not a round trip: the comment is gone from the output by design.
    let src = "(p) ; gone";
    assert_eq!(compile(src).unwrap(), "<p></p>");
    assert_ne!(compile(src).unwrap(), src);
}

#[test]
fn rendering_is_lossy_duplicate_attribute_overwritten() {
    // Not a round trip: the earlier value of `a` is lost by design.
    let src = "(div a=1 a=2)";
    assert_eq!(compile(src).unwrap(), "<div a=\"2\"></div>");
}

#[test]
fn text_is_not_escaped() {
    // Raw markup in text passes through verbatim by design.
    assert_eq!(compile("(p \"<b>&</b>\")").unwrap(), "<p><b>&</b></p>");
}

#[test]
fn quoted_attribute_value_keeps_spaces() {
    assert_eq!(compile("(div class=\"my box\")").unwrap(), "<div class=\"my box\"></div>");
}

#[test]
fn nested_voids() {
    assert_eq!(compile("(p (br) (hr))").unwrap(), "<p><br><hr></p>");
}

#[test]
fn error_expected_tag_at_top_level() {
    let err = compile("]").unwrap_err();
    assert_eq!(err.offset, 0);
    assert_eq!(err.expected, Expected::Tag);
}

#[test]
fn error_expected_identifier() {
    let err = compile("()").unwrap_err();
    assert_eq!(err.offset, 1);
    assert_eq!(err.expected, Expected::Identifier);
}

#[test]
fn error_expected_equals() {
    let err = compile("(div x)").unwrap_err();
    assert_eq!(err.offset, 6);
    assert_eq!(err.expected, Expected::Equals);
}

#[test]
fn error_expected_attribute_value() {
    let err = compile("(div x= )").unwrap_err();
    assert_eq!(err.offset, 7);
    assert_eq!(err.expected, Expected::AttributeValue);
}

#[test]
fn error_expected_closing_quote() {
    let err = compile("(div \"abc").unwrap_err();
    assert_eq!(err.offset, 9);
    assert_eq!(err.expected, Expected::Quote);
}

#[test]
fn error_expected_body_item() {
    let err = compile("(div \"a\" x)").unwrap_err();
    assert_eq!(err.offset, 9);
    assert_eq!(err.expected, Expected::BodyItem);
}

#[test]
fn error_position_counts_lines_and_columns() {
    let err = compile("(a)\n(div").unwrap_err();
    assert_eq!(err.offset, 8);
    assert_eq!(err.line, 2);
    assert_eq!(err.column, 5);
    assert!(!err.expected.describe().is_empty());
}

#[test]
fn parse_builds_a_cst_that_keeps_comments() {
    let cst = HyperlispParser::parse("; c\n(p)").unwrap();
    assert_eq!(cst.items.len(), 2);
    assert!(matches!(cst.items[0], CstNode::Comment));
    assert!(matches!(cst.items[1], CstNode::Tag(_)));
}

#[test]
fn builder_overwrites_duplicate_attribute_in_place() {
    let t = CstTag {
        id: String::from("div"),
        attrs: vec![
            CstAttr { name: String::from("a"), value: String::from("1") },
            CstAttr { name: String::from("b"), value: String::from("2") },
            CstAttr { name: String::from("a"), value: String::from("3") },
        ],
        body: vec![],
    };
    let node = builder::tag(&t);
    match &node {
        Hyperlisp::Tag(id, attrs, children) => {
            assert_eq!(id, "div");
            assert_eq!(attrs.len(), 2);
            assert_eq!(attrs[0].name, "a");
            assert_eq!(attrs[0].value, "3");
            assert_eq!(attrs[1].name, "b");
            assert_eq!(attrs[1].value, "2");
            assert!(children.is_empty());
        }
        Hyperlisp::Text(_) => panic!("expected a tag"),
    }
    assert_eq!(node.render(), "<div a=\"3\" b=\"2\"></div>");
}

#[test]
fn render_void_without_children_omits_closing_tag() {
    let node = Hyperlisp::Tag(String::from("br"), vec![], vec![]);
    assert_eq!(node.render(), "<br>");
}

#[test]
fn render_void_with_children_closes() {
    let child = Hyperlisp::Text(String::from("x"));
    let node = Hyperlisp::Tag(String::from("br"), vec![], vec![child]);
    assert_eq!(node.render(), "<br>x</br>");
}

#[test]
fn render_nonvoid_without_children_closes() {
    let node = Hyperlisp::Tag(String::from("span"), vec![], vec![]);
    assert_eq!(node.render(), "<span></span>");
}

#[test]
fn render_attribute_from_ast() {
    let node = Hyperlisp::Tag(
        String::from("a"),
        vec![Attribute { name: String::from("href"), value: String::from("x") }],
        vec![Hyperlisp::Text(String::from("go"))],
    );
    assert_eq!(node.render(), "<a href=\"x\">go</a>");
}

#[test]
fn render_document_joins_with_newlines() {
    let nodes = vec![
        Hyperlisp::Tag(String::from("a"), vec![], vec![]),
        Hyperlisp::Tag(String::from("b"), vec![], vec![]),
        Hyperlisp::Tag(String::from("br"), vec![], vec![]),
    ];
    assert_eq!(render_document(&nodes), "<a></a>\n<b></b>\n<br>");
    assert_eq!(render_document(&vec![]), "");
}

#[test]
fn void_list_membership() {
    for name in [
        "area", "base", "br", "col", "embed", "hr", "img", "input", "link", "meta", "param",
        "source", "track", "wbr", "command", "keygen", "menuitem",
    ] {
        assert!(is_void(name));
    }
    assert!(!is_void("div"));
    assert!(!is_void("p"));
    assert!(!is_void(""));
}

#[test]
fn identifiers_allow_digits_and_hyphens() {
    assert_eq!(compile("(h1)").unwrap(), "<h1></h1>");
    assert_eq!(compile("(my-tag data-x=1)").unwrap(), "<my-tag data-x=\"1\"></my-tag>");
}

#[test]
fn deeply_nested_tags() {
    assert_eq!(
        compile("(a (b (c (d \"deep\"))))").unwrap(),
        "<a><b><c><d>deep</d></c></b></a>"
    );
}
