use terse_html::machine::{ErrorKind, ParseState};
use terse_html::model::{Attribute, ElementNode};
use terse_html::parser::{parse_header, parse_line, ParseError};

fn parsed(line: &str) -> Result<Option<ElementNode>, ParseError> {
    let mut trace = Vec::new();
    parse_line(line, 0, 1, &mut trace)
}

fn node(line: &str) -> ElementNode {
    parsed(line).unwrap().unwrap()
}

fn error(line: &str) -> ParseError {
    parsed(line).unwrap_err()
}

fn attr(key: &str, value: &str) -> Attribute {
    Attribute { key: key.to_string(), value: value.to_string() }
}

#[test]
fn full_header_round_trips() {
    let n = node("section#id.c1.c2(k1=\"v1\",k2=\"v2\") text");
    assert_eq!(n.tag, "section");
    assert_eq!(n.id, Some("id".to_string()));
    assert_eq!(n.classes, vec!["c1".to_string(), "c2".to_string()]);
    assert_eq!(n.attributes, vec![attr("k1", "v1"), attr("k2", "v2")]);
    assert_eq!(n.text, "text");
    assert!(!n.is_text_only);
}

#[test]
fn depth_and_line_are_handed_on() {
    let mut trace = Vec::new();
    let n = parse_line("p hello", 3, 17, &mut trace).unwrap().unwrap();
    assert_eq!(n.depth, 3);
    assert_eq!(n.source_line, 17);
}

#[test]
fn boolean_shorthand() {
    let n = node("div(disabled)");
    assert_eq!(n.tag, "div");
    assert_eq!(n.attributes, vec![attr("disabled", "disabled")]);
    assert!(n.attributes[0].is_flag());
}

#[test]
fn shorthand_keys_between_commas() {
    let n = node("input(required,name=\"q\",hidden)");
    assert_eq!(
        n.attributes,
        vec![attr("required", "required"), attr("name", "q"), attr("hidden", "hidden")]
    );
}

#[test]
fn unknown_tag_falls_back_to_text() {
    let n = node("thisisnotatag.foo");
    assert!(n.is_text_only);
    assert_eq!(n.text, "thisisnotatag.foo");
    assert_eq!(n.id, None);
    assert!(n.classes.is_empty());
    assert!(n.attributes.is_empty());
}

#[test]
fn prose_line_passes_through() {
    let n = node("Hello world, this #is (not) a header = 'x'");
    assert!(n.is_text_only);
    assert_eq!(n.text, "Hello world, this #is (not) a header = 'x'");
}

#[test]
fn empty_tag_name_is_div() {
    assert_eq!(node("#main").tag, "div");
    assert_eq!(node("#main").id, Some("main".to_string()));
    assert_eq!(node(".box").tag, "div");
    assert_eq!(node(".box").classes, vec!["box".to_string()]);
    assert_eq!(node("(hidden)").tag, "div");
    assert_eq!(node(" text").tag, "div");
    assert_eq!(node(" text").text, "text");
    assert_eq!(node("").tag, "div");
}

#[test]
fn header_without_delimiter() {
    let n = node("html");
    assert_eq!(n.tag, "html");
    assert_eq!(n.id, None);
    assert_eq!(n.text, "");
}

#[test]
fn unknown_name_without_delimiter_is_text() {
    let n = node("thisisnotatag");
    assert!(n.is_text_only);
    assert_eq!(n.text, "thisisnotatag");
    assert_eq!(n.tag, "thisisnotatag");
}

#[test]
fn unknown_name_before_any_delimiter_is_text() {
    for line in ["Hello, world", "Hello) world", "Hello' world", "Hello\" world", "Hello#x"] {
        let n = node(line);
        assert!(n.is_text_only, "{}", line);
        assert_eq!(n.text, line);
    }
}

#[test]
fn equals_after_a_name_is_refused() {
    let e = error("x=1 is true");
    assert_eq!(e.kind, ErrorKind::Misplaced);
    assert_eq!(e.position, 1);
    assert_eq!(e.state, ParseState::TagName);
    assert_eq!(e.ch, Some('='));
}

#[test]
fn duplicate_id_at_second_hash() {
    let e = error("div#a#b");
    assert_eq!(e.kind, ErrorKind::DuplicateId);
    assert_eq!(e.position, 5);
    assert_eq!(e.state, ParseState::Id);
    assert_eq!(e.ch, Some('#'));
    assert_eq!(e.line, 1);
}

#[test]
fn duplicate_id_after_attributes() {
    let e = error("div#a(x)#b");
    assert_eq!(e.kind, ErrorKind::DuplicateId);
    assert_eq!(e.position, 8);
    assert_eq!(e.state, ParseState::PostAttr);
}

#[test]
fn id_after_attributes() {
    let n = node("div(x)#late.c text");
    assert_eq!(n.id, Some("late".to_string()));
    assert_eq!(n.classes, vec!["c".to_string()]);
    assert_eq!(n.attributes, vec![attr("x", "x")]);
    assert_eq!(n.text, "text");
}

#[test]
fn unterminated_attribute() {
    let e = error("div(key=\"value");
    assert_eq!(e.kind, ErrorKind::Unterminated);
    assert_eq!(e.state, ParseState::AttrVal);
    assert_eq!(e.position, 14);
    assert_eq!(e.ch, None);
}

#[test]
fn unterminated_key_and_open_value() {
    assert_eq!(error("div(key").kind, ErrorKind::Unterminated);
    assert_eq!(error("div(key").state, ParseState::AttrKey);
    assert_eq!(error("div(key=").kind, ErrorKind::Unterminated);
    assert_eq!(error("div(key=").state, ParseState::AttrValOpen);
}

#[test]
fn open_class_at_line_end() {
    let e = error("div.");
    assert_eq!(e.kind, ErrorKind::Unterminated);
    assert_eq!(e.state, ParseState::Class);
    assert_eq!(node("div.a").classes, vec!["a".to_string()]);
}

#[test]
fn empty_tokens() {
    assert_eq!(error("div#.a").kind, ErrorKind::EmptyToken);
    assert_eq!(error("div# x").kind, ErrorKind::EmptyToken);
    assert_eq!(error("div#(x)").kind, ErrorKind::EmptyToken);
    assert_eq!(error("div..a").kind, ErrorKind::EmptyToken);
    assert_eq!(error("div.#a").kind, ErrorKind::EmptyToken);
    assert_eq!(error("div. x").kind, ErrorKind::EmptyToken);
    assert_eq!(error("div.(x)").kind, ErrorKind::EmptyToken);
    assert_eq!(error("div(,a)").kind, ErrorKind::EmptyToken);
    assert_eq!(error("div(=\"v\")").kind, ErrorKind::EmptyToken);
}

#[test]
fn value_without_key_is_refused() {
    let e = error("div(a=\"b\"c\"d\")");
    assert_eq!(e.kind, ErrorKind::EmptyToken);
    assert_eq!(e.state, ParseState::AttrVal);
    assert_eq!(e.position, 12);
}

#[test]
fn misplaced_delimiters() {
    assert_eq!(error("div=x").kind, ErrorKind::Misplaced);
    assert_eq!(error("div=x").state, ParseState::TagName);
    assert_eq!(error("div#a)").kind, ErrorKind::Misplaced);
    assert_eq!(error("div#a)").state, ParseState::Id);
    assert_eq!(error("div#a=b").kind, ErrorKind::Misplaced);
    assert_eq!(error("div.a,b").kind, ErrorKind::Misplaced);
    assert_eq!(error("div.a'b").kind, ErrorKind::Misplaced);
    assert_eq!(error("div(a.b)").kind, ErrorKind::Misplaced);
    assert_eq!(error("div(a#b)").kind, ErrorKind::Misplaced);
    assert_eq!(error("div(a b)").kind, ErrorKind::Misplaced);
    assert_eq!(error("div(a(b)").kind, ErrorKind::Misplaced);
    assert_eq!(error("div(a'b)").kind, ErrorKind::Misplaced);
    assert_eq!(error("div(a=.b)").kind, ErrorKind::Misplaced);
    assert_eq!(error("div(a==b)").kind, ErrorKind::Misplaced);
    assert_eq!(error("div(a=\"b=c\")").kind, ErrorKind::Misplaced);
    assert_eq!(error("div(a=\"b,c\")").kind, ErrorKind::Misplaced);
    assert_eq!(error("div(a=\"b)c\")").kind, ErrorKind::Misplaced);
    assert_eq!(error("div(a=\"b\".c)").kind, ErrorKind::Misplaced);
    assert_eq!(error("div(a=\"b\"\"c\")").kind, ErrorKind::Misplaced);
    assert_eq!(error("div(a)(b)").kind, ErrorKind::Misplaced);
    assert_eq!(error("div(a)b").kind, ErrorKind::Misplaced);
    assert_eq!(error("div(a))").kind, ErrorKind::Misplaced);
    assert_eq!(error("div(a),").kind, ErrorKind::Misplaced);
    assert_eq!(error("div(a)=").kind, ErrorKind::Misplaced);
    assert_eq!(error("div(a)'").kind, ErrorKind::Misplaced);
}

#[test]
fn literal_characters_in_values_and_text() {
    let n = node("a(href=\"#top.x (y\") see #1. (now) = 'y', ok");
    assert_eq!(n.attributes, vec![attr("href", "#top.x (y")]);
    assert_eq!(n.text, "see #1. (now) = 'y', ok");
}

#[test]
fn either_quote_opens_and_closes() {
    assert_eq!(node("a(href='x')").attributes, vec![attr("href", "x")]);
    assert_eq!(node("a(href='x\")").attributes, vec![attr("href", "x")]);
}

#[test]
fn unquoted_value_loses_first_character() {
    let n = node("a(k=xabc\")");
    assert_eq!(n.attributes, vec![attr("k", "abc")]);
}

#[test]
fn hash_in_class_closes_the_class() {
    let n = node("div.a#b");
    assert_eq!(n.classes, vec!["a".to_string(), "b".to_string()]);
    assert_eq!(n.id, None);
}

#[test]
fn empty_attribute_list_and_trailing_comma() {
    assert!(node("div()").attributes.is_empty());
    assert_eq!(node("div(a=\"b\",)").attributes, vec![attr("a", "b")]);
}

#[test]
fn space_after_value_starts_text() {
    let n = node("div(a=\"b\" rest");
    assert_eq!(n.attributes, vec![attr("a", "b")]);
    assert_eq!(n.text, "rest");
}

#[test]
fn delimiters_that_end_the_name_unchecked() {
    let n = node("div,rest");
    assert_eq!(n.tag, "div");
    assert_eq!(n.text, "rest");
    assert_eq!(node("p)x").text, "x");
    assert_eq!(node("p'x").text, "x");
    assert!(!node("p'x").is_text_only);
}

#[test]
fn id_without_characters_at_line_end() {
    let n = node("div#");
    assert_eq!(n.id, None);
}

#[test]
fn doctype_emits_no_node() {
    assert_eq!(parsed("doctype"), Ok(None));
    assert_eq!(parsed("doctype html"), Ok(None));
}

#[test]
fn caller_decides_recognition() {
    let mut trace = Vec::new();
    let known = parse_header("widget.big text", true, 0, 1, &mut trace).unwrap().unwrap();
    assert_eq!(known.tag, "widget");
    assert_eq!(known.classes, vec!["big".to_string()]);
    assert!(!known.is_text_only);
    let unknown = parse_header("div.big text", false, 0, 1, &mut trace).unwrap().unwrap();
    assert!(unknown.is_text_only);
    assert_eq!(unknown.text, "div.big text");
    let fallback = parse_header(".big", false, 0, 1, &mut trace).unwrap().unwrap();
    assert_eq!(fallback.text, ".big");
    assert_eq!(fallback.tag, "div");
}

#[test]
fn trace_records_state_and_character() {
    let mut trace = vec![(ParseState::Text, 'z')];
    parse_line("p#a b", 0, 1, &mut trace).unwrap();
    assert_eq!(
        trace,
        vec![
            (ParseState::Text, 'z'),
            (ParseState::TagName, 'p'),
            (ParseState::TagName, '#'),
            (ParseState::Id, 'a'),
            (ParseState::Id, ' '),
            (ParseState::Text, 'b'),
        ]
    );
}

#[test]
fn error_window_holds_last_five_entries() {
    let mut trace = Vec::new();
    let e = parse_line("div#abc#", 0, 9, &mut trace).unwrap_err();
    assert_eq!(e.line, 9);
    assert_eq!(
        e.window,
        vec![
            (ParseState::TagName, '#'),
            (ParseState::Id, 'a'),
            (ParseState::Id, 'b'),
            (ParseState::Id, 'c'),
            (ParseState::Id, '#'),
        ]
    );
    assert_eq!(trace.len(), 8);
    let mut short = Vec::new();
    let e = parse_line("p=", 0, 1, &mut short).unwrap_err();
    assert_eq!(e.window, vec![(ParseState::TagName, 'p'), (ParseState::TagName, '=')]);
}

#[test]
fn non_ascii_characters_are_ordinary() {
    let n = node("p#größe.日本 héllo wörld");
    assert_eq!(n.id, Some("größe".to_string()));
    assert_eq!(n.classes, vec!["日本".to_string()]);
    assert_eq!(n.text, "héllo wörld");
    let e = error("p#é#");
    assert_eq!(e.position, 3);
}
