use terse_html::diagnostics::{
    get_parser_error_string, get_parser_success_string, get_stack_string, get_time_diff_string,
    state_name,
};
use terse_html::machine::{classify, decide, Action, CharClass, ErrorKind, Guard, ParseState, Step};
use terse_html::model::Attribute;
use terse_html::parser::parse_line;
use terse_html::tags::{is_html_tag, read_header_tag};
use terse_html::trace::trace_window;

fn sample() -> Vec<(ParseState, char)> {
    vec![
        (ParseState::TagName, 'p'),
        (ParseState::TagName, '('),
        (ParseState::AttrKey, 'k'),
        (ParseState::AttrKey, '='),
        (ParseState::AttrValOpen, '"'),
        (ParseState::AttrVal, 'v'),
        (ParseState::AttrVal, '"'),
        (ParseState::AttrValClose, ')'),
        (ParseState::PostAttr, ' '),
        (ParseState::Text, 't'),
    ]
}

#[test]
fn window_limits() {
    let trace = sample();
    assert_eq!(trace_window(&trace, 0), trace);
    assert_eq!(trace_window(&trace, 3), trace[7..].to_vec());
    assert_eq!(trace_window(&trace, 10), trace);
    assert_eq!(trace_window(&trace, 11), trace);
    assert_eq!(trace_window(&trace, 1), vec![(ParseState::Text, 't')]);
    assert!(trace_window(&Vec::new(), 5).is_empty());
}

#[test]
fn stack_string_lists_entries() {
    let trace = sample();
    assert_eq!(get_stack_string(&trace, 2), "PostAttr:  \nText: t\n");
    assert_eq!(
        get_stack_string(&trace, 0),
        "TagName: p\nTagName: (\nAttrKey: k\nAttrKey: =\nAttrValOpen: \"\nAttrVal: v\n\
         AttrVal: \"\nAttrValClose: )\nPostAttr:  \nText: t\n"
    );
    assert_eq!(get_stack_string(&Vec::new(), 5), "");
}

#[test]
fn state_names() {
    assert_eq!(state_name(ParseState::TagName), "TagName");
    assert_eq!(state_name(ParseState::Id), "Id");
    assert_eq!(state_name(ParseState::Class), "Class");
    assert_eq!(state_name(ParseState::AttrValClose), "AttrValClose");
}

#[test]
fn time_diff_formats_seconds_and_millis() {
    assert_eq!(get_time_diff_string(0), "0s 0ms");
    assert_eq!(get_time_diff_string(999), "0s 999ms");
    assert_eq!(get_time_diff_string(1000), "1s 0ms");
    assert_eq!(get_time_diff_string(1250), "1s 250ms");
    assert_eq!(get_time_diff_string(123456789), "123456s 789ms");
    assert_eq!(
        get_time_diff_string(u128::MAX),
        "340282366920938463463374607431768211s 455ms"
    );
}

#[test]
fn error_report() {
    let mut trace = Vec::new();
    let e = parse_line("p#a#", 0, 12, &mut trace).unwrap_err();
    assert_eq!(
        get_parser_error_string(&e, 2001),
        "Parser failed in 2s 1ms on line 12\n\nStack: \nTagName: p\nTagName: #\nId: a\nId: #\n\
         \n\nMessage: Parse error. An element cannot have two ids\n\n"
    );
}

#[test]
fn success_report() {
    let trace = vec![(ParseState::TagName, 'p')];
    assert_eq!(get_parser_success_string(15, &trace, false), "Parser succeeded in 0s 15ms\n\n");
    assert_eq!(
        get_parser_success_string(15, &trace, true),
        "Parser succeeded in 0s 15ms\n\nStack:\nTagName: p\n\n\n"
    );
}

#[test]
fn messages_differ_by_kind() {
    let kinds = [
        ErrorKind::Misplaced,
        ErrorKind::EmptyToken,
        ErrorKind::DuplicateId,
        ErrorKind::Unterminated,
    ];
    for (i, a) in kinds.iter().enumerate() {
        assert!(a.message().starts_with("Parse error. "));
        for b in &kinds[i + 1..] {
            assert_ne!(a.message(), b.message());
        }
    }
    assert_eq!(ErrorKind::Unterminated.message(), "Parse error. Invalid line ending");
}

#[test]
fn character_classes() {
    assert_eq!(classify('#'), CharClass::Hash);
    assert_eq!(classify('.'), CharClass::Dot);
    assert_eq!(classify('('), CharClass::OpenParen);
    assert_eq!(classify(')'), CharClass::CloseParen);
    assert_eq!(classify('='), CharClass::Equals);
    assert_eq!(classify('\''), CharClass::Quote);
    assert_eq!(classify('"'), CharClass::Quote);
    assert_eq!(classify(','), CharClass::Comma);
    assert_eq!(classify(' '), CharClass::Space);
    assert_eq!(classify('a'), CharClass::Ordinary);
    assert_eq!(classify('\t'), CharClass::Ordinary);
    assert_eq!(classify('é'), CharClass::Ordinary);
}

#[test]
fn table_entries() {
    let fresh = Guard { recognized: true, id_empty: true, class_empty: true, key_empty: true };
    let filled = Guard { recognized: true, id_empty: false, class_empty: false, key_empty: false };
    let unknown = Guard { recognized: false, ..fresh };
    assert_eq!(
        decide(ParseState::TagName, CharClass::Hash, fresh),
        Ok(Step { next: ParseState::Id, action: Action::Skip })
    );
    assert_eq!(
        decide(ParseState::TagName, CharClass::Hash, unknown),
        Ok(Step { next: ParseState::Text, action: Action::Fallback })
    );
    assert_eq!(
        decide(ParseState::Class, CharClass::Dot, filled),
        Ok(Step { next: ParseState::Class, action: Action::CloseClass })
    );
    assert_eq!(decide(ParseState::Class, CharClass::Dot, fresh), Err(ErrorKind::EmptyToken));
    assert_eq!(
        decide(ParseState::AttrKey, CharClass::Comma, filled),
        Ok(Step { next: ParseState::AttrKey, action: Action::EmitFlag })
    );
    assert_eq!(
        decide(ParseState::AttrKey, CharClass::CloseParen, fresh),
        Ok(Step { next: ParseState::PostAttr, action: Action::Skip })
    );
    assert_eq!(
        decide(ParseState::AttrVal, CharClass::Quote, filled),
        Ok(Step { next: ParseState::AttrValClose, action: Action::EmitPair })
    );
    assert_eq!(
        decide(ParseState::AttrValClose, CharClass::Comma, filled),
        Ok(Step { next: ParseState::AttrKey, action: Action::Skip })
    );
    assert_eq!(
        decide(ParseState::AttrValClose, CharClass::Ordinary, filled),
        Ok(Step { next: ParseState::AttrValOpen, action: Action::Skip })
    );
    assert_eq!(
        decide(ParseState::PostAttr, CharClass::Hash, fresh),
        Ok(Step { next: ParseState::Id, action: Action::Skip })
    );
    assert_eq!(decide(ParseState::PostAttr, CharClass::Hash, filled), Err(ErrorKind::DuplicateId));
    assert_eq!(decide(ParseState::Id, CharClass::Hash, fresh), Err(ErrorKind::DuplicateId));
    assert_eq!(
        decide(ParseState::Text, CharClass::Hash, fresh),
        Ok(Step { next: ParseState::Text, action: Action::Append })
    );
}

#[test]
fn html_tag_names() {
    for tag in ["a", "div", "html", "head", "body", "title", "h1", "h6", "p", "span", "wbr"] {
        assert!(is_html_tag(tag), "{}", tag);
    }
    for name in ["", "thisisnotatag", "DIV", "Div", "doctype", "h7", "di", "divv", " div"] {
        assert!(!is_html_tag(name), "{}", name);
    }
}

#[test]
fn header_tag_is_leading_name_or_div() {
    assert_eq!(read_header_tag("section#a.b text"), "section");
    assert_eq!(read_header_tag("p"), "p");
    assert_eq!(read_header_tag(".only"), "div");
    assert_eq!(read_header_tag(""), "div");
    assert_eq!(read_header_tag("Hello, world"), "Hello");
    assert_eq!(read_header_tag("a=b"), "a");
}

#[test]
fn attribute_constructors() {
    let pair = Attribute::pair("href".to_string(), "/x".to_string());
    assert_eq!(pair.key, "href");
    assert_eq!(pair.value, "/x");
    assert!(!pair.is_flag());
    let flag = Attribute::flag("hidden".to_string());
    assert_eq!(flag.key, "hidden");
    assert_eq!(flag.value, "hidden");
    assert!(flag.is_flag());
}
