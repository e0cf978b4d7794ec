use terse_html::document::Document;
use terse_html::machine::ErrorKind;
use terse_html::render::render;
use terse_html::source::{compile, parse_source, split_indent};
use terse_html::tree::nest_elements;

fn lines(source: &str) -> Vec<String> {
    source.lines().map(|l| l.to_string()).collect()
}

fn document(source: &str) -> Document {
    let mut trace = Vec::new();
    compile(&lines(source), &mut trace).unwrap()
}

#[test]
fn end_to_end_scenario() {
    let source = "html\n\thead\n\t\ttitle Hello\n\tbody\n\t\th1.title Welcome\n";
    let mut trace = Vec::new();
    let nodes = parse_source(&lines(source), &mut trace).unwrap();
    let forest = nest_elements(nodes);
    assert_eq!(forest.len(), 1);
    let html = &forest[0];
    assert_eq!(html.element.tag, "html");
    assert_eq!(html.children.len(), 2);
    let head = &html.children[0];
    assert_eq!(head.element.tag, "head");
    assert_eq!(head.children.len(), 1);
    assert_eq!(head.children[0].element.tag, "title");
    assert_eq!(head.children[0].element.text, "Hello");
    assert!(head.children[0].children.is_empty());
    let body = &html.children[1];
    assert_eq!(body.element.tag, "body");
    assert_eq!(body.children.len(), 1);
    assert_eq!(body.children[0].element.tag, "h1");
    assert_eq!(body.children[0].element.classes, vec!["title".to_string()]);
    assert_eq!(body.children[0].element.text, "Welcome");

    let doc = Document::from_forest(forest);
    assert_eq!(doc.head_html(), "<head><title>Hello</title></head>");
    assert_eq!(doc.body_html(), "<body><h1 class=\"title\">Welcome</h1></body>");
    assert!(doc.head_html().contains("title"));
    assert!(!doc.head_html().contains("h1"));
    assert!(doc.body_html().contains("h1"));
    assert!(!doc.body_html().contains("<title"));
    assert_eq!(
        doc.to_html(),
        "<!DOCTYPE html><html><head><title>Hello</title></head>\
         <body><h1 class=\"title\">Welcome</h1></body></html>"
    );
}

#[test]
fn empty_input_gives_empty_document() {
    for source in ["", "\n\n", "\n\t\n\t\t\n"] {
        let doc = document(source);
        assert!(doc.head.is_empty());
        assert!(doc.body.is_empty());
        assert_eq!(doc.head_html(), "");
        assert_eq!(doc.body_html(), "");
        assert_eq!(doc.to_html(), "<!DOCTYPE html><html></html>");
    }
}

#[test]
fn head_is_routed_without_html_root() {
    let doc = document("p first\nhead\n\ttitle T\np second\nhead\n\tmeta(charset=\"utf-8\")");
    assert_eq!(doc.head_html(), "<head><title>T</title></head>");
    assert_eq!(
        doc.body_html(),
        "<p>first</p><p>second</p><head><meta charset=\"utf-8\"></meta></head>"
    );
}

#[test]
fn html_beside_other_roots_is_content() {
    let doc = document("html\n\thead\np x");
    assert!(doc.head.is_empty());
    assert_eq!(doc.body_html(), "<html><head></head></html><p>x</p>");
}

#[test]
fn nested_head_is_no_head_container() {
    let doc = document("div\n\thead\n\t\ttitle T");
    assert!(doc.head.is_empty());
    assert_eq!(doc.body_html(), "<div><head><title>T</title></head></div>");
}

#[test]
fn node_markup_has_id_classes_attributes_in_order() {
    let doc = document("a#x.c1.c2(href=\"/p\",download,target=\"_blank\") go");
    assert_eq!(
        doc.body_html(),
        "<a id=\"x\" class=\"c1 c2\" href=\"/p\" download=\"download\" target=\"_blank\">go</a>"
    );
    assert_eq!(document("p").body_html(), "<p></p>");
    assert_eq!(document("p.only").body_html(), "<p class=\"only\"></p>");
    assert_eq!(document("p(a=\"1\",a=\"2\")").body_html(), "<p a=\"1\" a=\"2\"></p>");
    assert_eq!(document("p.a.a").body_html(), "<p class=\"a a\"></p>");
}

#[test]
fn text_only_lines_render_without_tags() {
    let doc = document("p\n\tJust some prose.\n\tem stressed\n\tmore prose");
    assert_eq!(doc.body_html(), "<p>Just some prose.<em>stressed</em>more prose</p>");
    let doc = document("Plain line\n\tp under text");
    assert_eq!(doc.body_html(), "Plain line<p>under text</p>");
}

#[test]
fn text_stands_before_children() {
    let doc = document("ul list\n\tli one\n\tli two");
    assert_eq!(doc.body_html(), "<ul>list<li>one</li><li>two</li></ul>");
}

#[test]
fn markup_is_not_escaped_by_the_wrapper() {
    let doc = document("p a < b & \"c\"");
    assert_eq!(doc.to_html(), "<!DOCTYPE html><html><p>a < b & \"c\"</p></html>");
}

#[test]
fn blank_lines_do_not_affect_depth() {
    let doc = document("ul\n\n\tli a\n\n\n\tli b\n");
    assert_eq!(doc.body_html(), "<ul><li>a</li><li>b</li></ul>");
}

#[test]
fn doctype_line_is_dropped() {
    let doc = document("doctype html\nhtml\n\tbody\n\t\tp x");
    assert_eq!(doc.body_html(), "<body><p>x</p></body>");
}

#[test]
fn line_numbers_count_every_line() {
    let mut trace = Vec::new();
    let nodes = parse_source(&lines("p a\n\n\tspan b\ndoctype\np c"), &mut trace).unwrap();
    let numbers: Vec<usize> = nodes.iter().map(|n| n.source_line).collect();
    assert_eq!(numbers, vec![1, 3, 5]);
    let depths: Vec<usize> = nodes.iter().map(|n| n.depth).collect();
    assert_eq!(depths, vec![0, 1, 0]);
}

#[test]
fn first_bad_line_fails_the_run() {
    let mut trace = Vec::new();
    let e = compile(&lines("p ok\n\n\tdiv#a#b\np(never"), &mut trace).unwrap_err();
    assert_eq!(e.kind, ErrorKind::DuplicateId);
    assert_eq!(e.line, 3);
    assert_eq!(e.position, 5);
    assert_eq!(trace.len(), 4 + 6);
    assert_eq!(e.window.len(), 5);
}

#[test]
fn split_indent_counts_leading_tabs() {
    assert_eq!(split_indent("\t\tp a\tb"), (2, "p a\tb".to_string()));
    assert_eq!(split_indent("p"), (0, "p".to_string()));
    assert_eq!(split_indent("\t\t"), (2, String::new()));
    assert_eq!(split_indent(""), (0, String::new()));
    assert_eq!(split_indent(" \tp"), (0, " \tp".to_string()));
}

#[test]
fn render_forest_directly() {
    let mut trace = Vec::new();
    let nodes = parse_source(&lines("div\n\tp a\nspan b"), &mut trace).unwrap();
    let forest = nest_elements(nodes);
    assert_eq!(render(&forest), "<div><p>a</p></div><span>b</span>");
}
