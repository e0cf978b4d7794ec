//! The written form of a header, and the proof that the parser reads a
//! written header back as the element that it was written for.

use crate::machine::{class_of, doctype_tag, CharClass, ErrorKind, Failure, ParseState, Scan};
use crate::model::NodeModel;
use crate::parser::parse;
use crate::tags::{header_tag, leading_name, lemma_leading_name, lemma_name_len, name_len};
use vstd::prelude::*;

verus! {

/// What a header says of its element.
pub struct Header {
    pub tag: Seq<char>,
    pub id: Option<Seq<char>>,
    pub classes: Seq<Seq<char>>,
    pub attributes: Seq<(Seq<char>, Seq<char>)>,
    pub text: Seq<char>,
}

/// Whether `s` has no delimiter in it.
pub open spec fn plain(s: Seq<char>) -> bool {
    forall|i: int| 0 <= i < s.len() ==> class_of(#[trigger] s[i]) == CharClass::Ordinary
}

/// Whether `s` can stand as a name in a header: it has a character, and no
/// delimiter.
pub open spec fn token(s: Seq<char>) -> bool {
    s.len() > 0 && plain(s)
}

/// Whether `c` can stand inside a quoted attribute value.
pub open spec fn value_char(c: char) -> bool {
    let class = class_of(c);
    class != CharClass::Quote && class != CharClass::CloseParen && class != CharClass::Equals
        && class != CharClass::Comma
}

/// Whether `s` can stand as a quoted attribute value.
pub open spec fn quotable(s: Seq<char>) -> bool {
    forall|i: int| 0 <= i < s.len() ==> value_char(#[trigger] s[i])
}

/// The classes as they are written: each after a dot.
pub open spec fn class_part(classes: Seq<Seq<char>>) -> Seq<char>
    decreases classes.len(),
{
    if classes.len() == 0 {
        Seq::empty()
    } else {
        class_part(classes.drop_last()) + seq!['.'] + classes.last()
    }
}

/// An attribute as it is written: `key="value"`.
pub open spec fn pair_text(attribute: (Seq<char>, Seq<char>)) -> Seq<char> {
    attribute.0 + seq!['=', '"'] + attribute.1 + seq!['"']
}

/// The attributes as they are written, with a comma between two of them.
pub open spec fn pair_list(attributes: Seq<(Seq<char>, Seq<char>)>) -> Seq<char>
    decreases attributes.len(),
{
    if attributes.len() == 0 {
        Seq::empty()
    } else if attributes.len() == 1 {
        pair_text(attributes[0])
    } else {
        pair_list(attributes.drop_last()) + seq![','] + pair_text(attributes.last())
    }
}

/// The attribute list as it is written: in parentheses, or not at all where
/// there is no attribute.
pub open spec fn attribute_part(attributes: Seq<(Seq<char>, Seq<char>)>) -> Seq<char> {
    if attributes.len() == 0 {
        Seq::empty()
    } else {
        seq!['('] + pair_list(attributes) + seq![')']
    }
}

impl Header {
    /// Whether the header can be written: its names are tokens, its
    /// attribute values can be quoted, and its tag is not `doctype`.
    pub open spec fn valid(self) -> bool {
        &&& token(self.tag)
        &&& self.tag != doctype_tag()
        &&& self.id matches Some(id) ==> token(id)
        &&& forall|i: int| 0 <= i < self.classes.len() ==> token(#[trigger] self.classes[i])
        &&& forall|i: int|
            0 <= i < self.attributes.len() ==> token((#[trigger] self.attributes[i]).0)
                && quotable(self.attributes[i].1)
    }

    /// The id as it is written: after a hash sign.
    pub open spec fn id_part(self) -> Seq<char> {
        match self.id {
            Some(id) => seq!['#'] + id,
            None => Seq::empty(),
        }
    }

    /// The header as a line: `tag#id.c1.c2(k1="v1",k2="v2") text`, without
    /// the parts that it does not have.
    pub open spec fn written(self) -> Seq<char> {
        self.tag + self.id_part() + class_part(self.classes) + attribute_part(self.attributes)
            + seq![' '] + self.text
    }

    /// The element that the header describes, at a depth and on a line.
    pub open spec fn node(self, depth: nat, line: nat) -> NodeModel {
        NodeModel {
            tag: self.tag,
            id: self.id,
            classes: self.classes,
            attributes: self.attributes,
            text: self.text,
            depth,
            source_line: line,
            is_text_only: false,
        }
    }
}

/// Whether the character `c` joins the token that the state collects,
/// whatever has been collected.
pub open spec fn stays(state: ParseState, c: char) -> bool {
    match state {
        ParseState::TagName | ParseState::Id | ParseState::Class | ParseState::AttrKey => class_of(
            c,
        ) == CharClass::Ordinary,
        ParseState::AttrVal => value_char(c),
        ParseState::Text => true,
        _ => false,
    }
}

impl Scan {
    /// The machine with `s` appended to the token that its state collects.
    pub open spec fn extended(self, s: Seq<char>) -> Scan {
        match self.state {
            ParseState::TagName => Scan { name: self.name + s, ..self },
            ParseState::Id => Scan { id: self.id + s, ..self },
            ParseState::Class => Scan { class: self.class + s, ..self },
            ParseState::AttrKey => Scan { key: self.key + s, ..self },
            ParseState::AttrVal => Scan { value: self.value + s, ..self },
            ParseState::Text => Scan { text: self.text + s, ..self },
            _ => self,
        }
    }

    /// Whether a class, an attribute list or the text may begin here: the
    /// machine has read a recognized tag name, an id, or a class.
    spec fn ready(self, recognized: bool) -> bool {
        &&& self.key.len() == 0
        &&& self.value.len() == 0
        &&& match self.state {
            ParseState::TagName => recognized && self.class.len() == 0,
            ParseState::Id => self.id.len() > 0 && self.class.len() == 0,
            ParseState::Class => self.class.len() > 0,
            _ => false,
        }
    }

    /// The machine in state `state` with its pending class closed.
    spec fn moved(self, state: ParseState) -> Scan {
        Scan { state, classes: self.final_classes(), class: Seq::empty(), ..self }
    }
}

/// A run over two strings is a run over the first, then one over the second.
pub proof fn lemma_run_concat(m: Scan, a: Seq<char>, b: Seq<char>, recognized: bool, at: nat)
    ensures
        m.run(a + b, recognized, at) == match m.run(a, recognized, at) {
            Ok(next) => next.run(b, recognized, at + a.len()),
            Err(failure) => Err(failure),
        },
    decreases a.len(),
{
    if a.len() == 0 {
        assert(a + b == b);
    } else {
        assert((a + b)[0] == a[0]);
        assert((a + b).skip(1) == a.skip(1) + b);
        match m.feed(a[0], recognized) {
            Ok(next) => {
                lemma_run_concat(next, a.skip(1), b, recognized, at + 1);
            },
            Err(_) => {},
        }
    }
}

/// A run over one character is one step.
pub proof fn lemma_run_one(m: Scan, c: char, recognized: bool, at: nat)
    ensures
        m.run(seq![c], recognized, at) == match m.feed(c, recognized) {
            Ok(next) => Ok(next),
            Err(kind) => Err(Failure { kind, position: at, state: m.state, ch: Some(c) }),
        },
{
    let s = seq![c];
    assert(s[0] == c);
    assert(s.skip(1).len() == 0);
    match m.feed(c, recognized) {
        Ok(next) => {
            assert(next.run(s.skip(1), recognized, at + 1) == Ok::<Scan, Failure>(next));
        },
        Err(_) => {},
    }
}

/// Characters that the state collects are appended, and nothing else
/// happens.
pub proof fn lemma_run_token(m: Scan, s: Seq<char>, recognized: bool, at: nat)
    requires
        forall|i: int| 0 <= i < s.len() ==> stays(m.state, #[trigger] s[i]),
    ensures
        m.run(s, recognized, at) == Ok::<Scan, Failure>(m.extended(s)),
    decreases s.len(),
{
    if s.len() == 0 {
        assert(m.extended(s) =~= m);
    } else {
        assert(stays(m.state, s[0]));
        let next = m.append(s[0]);
        assert(m.feed(s[0], recognized) == Ok::<Scan, ErrorKind>(next));
        let rest = s.skip(1);
        assert forall|i: int| 0 <= i < rest.len() implies stays(next.state, #[trigger] rest[i]) by {
            assert(rest[i] == s[i + 1]);
        }
        lemma_run_token(next, rest, recognized, at + 1);
        assert(seq![s[0]] + rest == s);
        assert(next.extended(rest) =~= m.extended(s)) by {
            assert(m.name.push(s[0]) + rest == m.name + s);
            assert(m.id.push(s[0]) + rest == m.id + s);
            assert(m.class.push(s[0]) + rest == m.class + s);
            assert(m.key.push(s[0]) + rest == m.key + s);
            assert(m.value.push(s[0]) + rest == m.value + s);
            assert(m.text.push(s[0]) + rest == m.text + s);
        }
    }
}

/// A delimiter and the token after it: the machine moves to the state of
/// the token, with its pending class closed, and collects the token.
proof fn lemma_run_part(
    m: Scan,
    c: char,
    state: ParseState,
    s: Seq<char>,
    recognized: bool,
    at: nat,
)
    requires
        m.ready(recognized),
        (c == '.' && state == ParseState::Class) || (c == '(' && state == ParseState::AttrKey) || (
        c == ' ' && state == ParseState::Text),
        forall|i: int| 0 <= i < s.len() ==> stays(state, #[trigger] s[i]),
    ensures
        m.run(seq![c] + s, recognized, at) == Ok::<Scan, Failure>(m.moved(state).extended(s)),
{
    lemma_run_concat(m, seq![c], s, recognized, at);
    lemma_run_one(m, c, recognized, at);
    assert(m.feed(c, recognized) == Ok::<Scan, ErrorKind>(m.moved(state))) by {
        assert(m.feed(c, recognized).unwrap() =~= m.moved(state));
    }
    lemma_run_token(m.moved(state), s, recognized, at + 1);
}

/// The machine after the classes `classes`, read from `m`.
spec fn after_classes(m: Scan, classes: Seq<Seq<char>>) -> Scan {
    if classes.len() == 0 {
        m
    } else {
        Scan {
            state: ParseState::Class,
            classes: m.final_classes() + classes.drop_last(),
            class: classes.last(),
            ..m
        }
    }
}

/// Reading the written classes collects them in their order.
proof fn lemma_run_classes(m: Scan, classes: Seq<Seq<char>>, recognized: bool, at: nat)
    requires
        m.ready(recognized),
        forall|i: int| 0 <= i < classes.len() ==> token(#[trigger] classes[i]),
    ensures
        m.run(class_part(classes), recognized, at) == Ok::<Scan, Failure>(
            after_classes(m, classes),
        ),
        after_classes(m, classes).ready(recognized),
        after_classes(m, classes).final_classes() == m.final_classes() + classes,
    decreases classes.len(),
{
    if classes.len() == 0 {
        assert(m.final_classes() + classes == m.final_classes());
    } else {
        let before = classes.drop_last();
        let last = classes.last();
        assert(token(last));
        assert forall|i: int| 0 <= i < before.len() implies token(#[trigger] before[i]) by {
            assert(before[i] == classes[i]);
        }
        lemma_run_classes(m, before, recognized, at);
        let mid = after_classes(m, before);
        let written = class_part(before);
        assert(class_part(classes) == written + (seq!['.'] + last));
        lemma_run_concat(m, written, seq!['.'] + last, recognized, at);
        lemma_run_part(mid, '.', ParseState::Class, last, recognized, at + written.len());
        assert(mid.moved(ParseState::Class).extended(last) =~= after_classes(m, classes)) by {
            assert(Seq::<char>::empty() + last == last);
            assert(mid.final_classes() == m.final_classes() + before);
        }
        assert(after_classes(m, classes).final_classes() =~= m.final_classes() + classes) by {
            assert((m.final_classes() + before).push(last) == m.final_classes() + classes);
        }
    }
}

/// Reading one written attribute emits it.
proof fn lemma_run_pair(m: Scan, attribute: (Seq<char>, Seq<char>), recognized: bool, at: nat)
    requires
        m.state == ParseState::AttrKey,
        m.key.len() == 0,
        m.value.len() == 0,
        token(attribute.0),
        quotable(attribute.1),
    ensures
        m.run(pair_text(attribute), recognized, at) == Ok::<Scan, Failure>(
            Scan {
                state: ParseState::AttrValClose,
                attributes: m.attributes.push(attribute),
                ..m
            },
        ),
{
    let key = attribute.0;
    let value = attribute.1;
    let m1 = m.extended(key);
    let m2 = Scan { state: ParseState::AttrValOpen, ..m1 };
    let m3 = Scan { state: ParseState::AttrVal, ..m1 };
    let m4 = m3.extended(value);
    let end = Scan { state: ParseState::AttrValClose, attributes: m.attributes.push(attribute), ..m };
    assert(m1.key == key) by {
        assert(m.key + key == key);
    }
    assert(m4.value == value) by {
        assert(m3.value + value == value);
    }
    assert(pair_text(attribute) == key + (seq!['='] + (seq!['"'] + (value + seq!['"']))));
    lemma_run_concat(m, key, seq!['='] + (seq!['"'] + (value + seq!['"'])), recognized, at);
    lemma_run_token(m, key, recognized, at);
    lemma_run_concat(m1, seq!['='], seq!['"'] + (value + seq!['"']), recognized, at + key.len());
    lemma_run_one(m1, '=', recognized, at + key.len());
    assert(m1.feed('=', recognized) == Ok::<Scan, ErrorKind>(m2)) by {
        assert(m1.feed('=', recognized).unwrap() =~= m2);
    }
    lemma_run_concat(m2, seq!['"'], value + seq!['"'], recognized, at + key.len() + 1);
    lemma_run_one(m2, '"', recognized, at + key.len() + 1);
    assert(m2.feed('"', recognized) == Ok::<Scan, ErrorKind>(m3)) by {
        assert(m2.feed('"', recognized).unwrap() =~= m3);
    }
    lemma_run_concat(m3, value, seq!['"'], recognized, at + key.len() + 2);
    lemma_run_token(m3, value, recognized, at + key.len() + 2);
    lemma_run_one(m4, '"', recognized, at + key.len() + 2 + value.len());
    assert(m4.feed('"', recognized) == Ok::<Scan, ErrorKind>(end)) by {
        assert(m4.feed('"', recognized).unwrap() =~= end);
    }
}

/// Reading the written attributes emits them in their order.
proof fn lemma_run_pairs(
    m: Scan,
    attributes: Seq<(Seq<char>, Seq<char>)>,
    recognized: bool,
    at: nat,
)
    requires
        m.state == ParseState::AttrKey,
        m.key.len() == 0,
        m.value.len() == 0,
        attributes.len() > 0,
        forall|i: int|
            0 <= i < attributes.len() ==> token((#[trigger] attributes[i]).0) && quotable(
                attributes[i].1,
            ),
    ensures
        m.run(pair_list(attributes), recognized, at) == Ok::<Scan, Failure>(
            Scan {
                state: ParseState::AttrValClose,
                attributes: m.attributes + attributes,
                ..m
            },
        ),
    decreases attributes.len(),
{
    let last = attributes.last();
    assert(token(last.0) && quotable(last.1));
    if attributes.len() == 1 {
        lemma_run_pair(m, last, recognized, at);
        assert(m.attributes.push(last) == m.attributes + attributes);
    } else {
        let before = attributes.drop_last();
        assert forall|i: int| 0 <= i < before.len() implies token((#[trigger] before[i]).0)
            && quotable(before[i].1) by {
            assert(before[i] == attributes[i]);
        }
        lemma_run_pairs(m, before, recognized, at);
        let written = pair_list(before);
        let mid = Scan {
            state: ParseState::AttrValClose,
            attributes: m.attributes + before,
            ..m
        };
        let next = Scan { state: ParseState::AttrKey, ..mid };
        assert(pair_list(attributes) == written + (seq![','] + pair_text(last)));
        lemma_run_concat(m, written, seq![','] + pair_text(last), recognized, at);
        lemma_run_concat(mid, seq![','], pair_text(last), recognized, at + written.len());
        lemma_run_one(mid, ',', recognized, at + written.len());
        assert(mid.feed(',', recognized) == Ok::<Scan, ErrorKind>(next)) by {
            assert(mid.feed(',', recognized).unwrap() =~= next);
        }
        lemma_run_pair(next, last, recognized, at + written.len() + 1);
        assert((m.attributes + before).push(last) == m.attributes + attributes);
    }
}

/// The machine after the attribute list `attributes`, read from `m`.
spec fn after_attributes(m: Scan, attributes: Seq<(Seq<char>, Seq<char>)>) -> Scan {
    if attributes.len() == 0 {
        m
    } else {
        Scan { attributes: m.attributes + attributes, ..m.moved(ParseState::PostAttr) }
    }
}

/// Reading the written attribute list emits its attributes and closes it.
proof fn lemma_run_attributes(
    m: Scan,
    attributes: Seq<(Seq<char>, Seq<char>)>,
    recognized: bool,
    at: nat,
)
    requires
        m.ready(recognized),
        forall|i: int|
            0 <= i < attributes.len() ==> token((#[trigger] attributes[i]).0) && quotable(
                attributes[i].1,
            ),
    ensures
        m.run(attribute_part(attributes), recognized, at) == Ok::<Scan, Failure>(
            after_attributes(m, attributes),
        ),
{
    if attributes.len() > 0 {
        let inner = pair_list(attributes);
        let opened = m.moved(ParseState::AttrKey);
        let listed = Scan {
            state: ParseState::AttrValClose,
            attributes: opened.attributes + attributes,
            ..opened
        };
        assert(attribute_part(attributes) == seq!['('] + (inner + seq![')']));
        lemma_run_concat(m, seq!['('], inner + seq![')'], recognized, at);
        lemma_run_part(m, '(', ParseState::AttrKey, Seq::empty(), recognized, at);
        assert(seq!['('] + Seq::<char>::empty() == seq!['(']);
        assert(opened.extended(Seq::empty()) =~= opened) by {
            assert(opened.key + Seq::<char>::empty() == opened.key);
        }
        lemma_run_concat(opened, inner, seq![')'], recognized, at + 1);
        lemma_run_pairs(opened, attributes, recognized, at + 1);
        lemma_run_one(listed, ')', recognized, at + 1 + inner.len());
        assert(listed.feed(')', recognized) == Ok::<Scan, ErrorKind>(
            after_attributes(m, attributes),
        )) by {
            assert(listed.feed(')', recognized).unwrap() =~= after_attributes(m, attributes));
        }
    }
}

/// Reading the space and the text that end a header.
proof fn lemma_run_text(m: Scan, text: Seq<char>, recognized: bool, at: nat)
    requires
        m.ready(recognized) || (m.state == ParseState::PostAttr && m.class.len() == 0),
        m.text.len() == 0,
    ensures
        m.run(seq![' '] + text, recognized, at) == Ok::<Scan, Failure>(
            Scan { text, ..m.moved(ParseState::Text) },
        ),
{
    let spaced = m.moved(ParseState::Text);
    lemma_run_concat(m, seq![' '], text, recognized, at);
    lemma_run_one(m, ' ', recognized, at);
    assert(m.feed(' ', recognized) == Ok::<Scan, ErrorKind>(spaced)) by {
        assert(m.feed(' ', recognized).unwrap() =~= spaced);
    }
    lemma_run_token(spaced, text, recognized, at + 1);
    assert(spaced.extended(text) =~= Scan { text, ..spaced }) by {
        assert(spaced.text + text == text);
    }
}

/// A written header is read back as it was written: parsing the line of a
/// valid header, of which the tag is recognized, gives the element with
/// that tag, id, classes, attributes and text.
pub proof fn lemma_round_trip(header: Header, depth: nat, line: nat)
    requires
        header.valid(),
    ensures
        parse(header.written(), true, depth, line) == Ok::<Option<NodeModel>, Failure>(
            Some(header.node(depth, line)),
        ),
{
    let start = Scan::start();
    let tag = header.tag;
    let id_part = header.id_part();
    let classes = class_part(header.classes);
    let attributes = attribute_part(header.attributes);
    let tail = seq![' '] + header.text;
    assert(header.written() == tag + (id_part + (classes + (attributes + tail))));

    // the tag name
    let named = start.extended(tag);
    assert(named.name == tag) by {
        assert(start.name + tag == tag);
    }
    lemma_run_concat(start, tag, id_part + (classes + (attributes + tail)), true, 0);
    lemma_run_token(start, tag, true, 0);
    assert(named.ready(true));

    // the id
    let at_id = tag.len();
    let identified = match header.id {
        Some(id) => Scan { state: ParseState::Id, id, ..named },
        None => named,
    };
    lemma_run_concat(named, id_part, classes + (attributes + tail), true, at_id);
    assert(named.run(id_part, true, at_id) == Ok::<Scan, Failure>(identified)) by {
        match header.id {
            Some(id) => {
                let hashed = Scan { state: ParseState::Id, ..named };
                lemma_run_concat(named, seq!['#'], id, true, at_id);
                lemma_run_one(named, '#', true, at_id);
                assert(named.feed('#', true).unwrap() =~= hashed);
                lemma_run_token(hashed, id, true, at_id + 1);
                assert(hashed.extended(id) =~= identified) by {
                    assert(hashed.id + id == id);
                }
            },
            None => {},
        }
    }
    assert(identified.ready(true));
    assert(identified.final_classes() == Seq::<Seq<char>>::empty());

    // the classes
    let at_classes = at_id + id_part.len();
    let classed = after_classes(identified, header.classes);
    lemma_run_concat(identified, classes, attributes + tail, true, at_classes);
    lemma_run_classes(identified, header.classes, true, at_classes);
    assert(classed.final_classes() == header.classes) by {
        assert(Seq::<Seq<char>>::empty() + header.classes == header.classes);
    }

    // the attributes
    let at_attributes = at_classes + classes.len();
    let listed = after_attributes(classed, header.attributes);
    lemma_run_concat(classed, attributes, tail, true, at_attributes);
    lemma_run_attributes(classed, header.attributes, true, at_attributes);
    assert(listed.attributes == header.attributes) by {
        assert(classed.attributes + header.attributes == header.attributes);
    }

    // the text
    let at_text = at_attributes + attributes.len();
    let end = Scan { text: header.text, ..listed.moved(ParseState::Text) };
    lemma_run_text(listed, header.text, true, at_text);
    assert(start.run(header.written(), true, 0) == Ok::<Scan, Failure>(end));
    assert(end.final_classes() == header.classes);
    assert(end.finish(true, depth, line).unwrap().unwrap() =~= header.node(depth, line));
}

/// A line that is no header stays as it is: where the leading name of a
/// line is not recognized, the line is read as literal text, all of it. The
/// exceptions are the name `doctype`, and a name that an equals sign
/// follows.
pub proof fn lemma_fallback(line: Seq<char>, depth: nat, line_no: nat)
    requires
        name_len(line) < line.len() ==> class_of(line[name_len(line) as int])
            != CharClass::Equals,
        leading_name(line) != doctype_tag(),
    ensures
        parse(line, false, depth, line_no) matches Ok(Some(node)) && node.is_text_only
            && node.text == line && node.id is None && node.classes.len() == 0
            && node.attributes.len() == 0,
{
    lemma_leading_name(line);
    let n = name_len(line) as int;
    let name = line.take(n);
    let start = Scan::start();
    let named = start.extended(name);
    assert(named.name == name) by {
        assert(start.name + name == name);
    }
    lemma_run_token(start, name, false, 0);
    if n == line.len() {
        assert(name == line);
    } else {
        let c = line[n];
        let rest = line.skip(n + 1);
        assert(line == name + (seq![c] + rest));
        lemma_run_concat(start, name, seq![c] + rest, false, 0);
        let fallen = Scan {
            state: ParseState::Text,
            text: name.push(c),
            text_only: true,
            ..named
        };
        lemma_run_concat(named, seq![c], rest, false, name.len());
        lemma_run_one(named, c, false, name.len());
        assert(named.feed(c, false) == Ok::<Scan, ErrorKind>(fallen)) by {
            assert(named.feed(c, false)->Ok_0 =~= fallen);
        }
        lemma_run_token(fallen, rest, false, name.len() + 1);
        let end = fallen.extended(rest);
        assert(end.text == line) by {
            assert(name.push(c) + rest == line);
        }
        assert(start.run(line, false, 0) == Ok::<Scan, Failure>(end));
    }
}

/// The tag that a written header names is its own: nothing but the tag
/// stands before the first delimiter of the line.
pub proof fn lemma_written_tag(header: Header)
    requires
        header.valid(),
    ensures
        header_tag(header.written()) == header.tag,
{
    let line = header.written();
    let tag = header.tag;
    let rest = header.id_part() + (class_part(header.classes) + (attribute_part(header.attributes)
        + (seq![' '] + header.text)));
    assert(line == tag + rest);
    let first = rest[0];
    assert(class_of(first) != CharClass::Ordinary) by {
        match header.id {
            Some(id) => {
                assert(first == '#');
            },
            None => {
                assert(header.id_part().len() == 0);
                if header.classes.len() > 0 {
                    lemma_class_part_begins(header.classes);
                    assert(first == '.');
                } else {
                    assert(class_part(header.classes).len() == 0);
                    if header.attributes.len() > 0 {
                        assert(first == '(');
                    } else {
                        assert(first == ' ');
                    }
                }
            },
        }
    }
    assert forall|j: int| 0 <= j < tag.len() implies class_of(#[trigger] line[j])
        == CharClass::Ordinary by {
        assert(line[j] == tag[j]);
    }
    assert(line[tag.len() as int] == first);
    lemma_name_len(line, tag.len() as int);
    assert(line.take(tag.len() as int) == tag);
}

/// Written classes begin with a dot.
proof fn lemma_class_part_begins(classes: Seq<Seq<char>>)
    requires
        classes.len() > 0,
    ensures
        class_part(classes).len() > 0,
        class_part(classes)[0] == '.',
    decreases classes.len(),
{
    if classes.len() > 1 {
        lemma_class_part_begins(classes.drop_last());
    } else {
        assert(class_part(classes.drop_last()).len() == 0);
    }
}

/// A second id fails the line: after a tag and an id, a hash sign is
/// refused where it stands, whatever follows it.
pub proof fn lemma_second_id_fails(
    tag: Seq<char>,
    id: Seq<char>,
    rest: Seq<char>,
    depth: nat,
    line_no: nat,
)
    requires
        plain(tag),
        plain(id),
    ensures
        parse(tag + seq!['#'] + id + seq!['#'] + rest, true, depth, line_no) == Err::<
            Option<NodeModel>,
            Failure,
        >(
            Failure {
                kind: ErrorKind::DuplicateId,
                position: tag.len() + 1 + id.len(),
                state: ParseState::Id,
                ch: Some('#'),
            },
        ),
{
    let line = tag + seq!['#'] + id + seq!['#'] + rest;
    let start = Scan::start();
    let named = start.extended(tag);
    let hashed = Scan { state: ParseState::Id, ..named };
    let identified = hashed.extended(id);
    assert(line == tag + (seq!['#'] + (id + (seq!['#'] + rest))));
    lemma_run_concat(start, tag, seq!['#'] + (id + (seq!['#'] + rest)), true, 0);
    lemma_run_token(start, tag, true, 0);
    lemma_run_concat(named, seq!['#'], id + (seq!['#'] + rest), true, tag.len());
    lemma_run_one(named, '#', true, tag.len());
    assert(named.feed('#', true) == Ok::<Scan, ErrorKind>(hashed)) by {
        assert(named.feed('#', true)->Ok_0 =~= hashed);
    }
    lemma_run_concat(hashed, id, seq!['#'] + rest, true, tag.len() + 1);
    lemma_run_token(hashed, id, true, tag.len() + 1);
    lemma_run_concat(identified, seq!['#'], rest, true, tag.len() + 1 + id.len());
    lemma_run_one(identified, '#', true, tag.len() + 1 + id.len());
}

/// An attribute value that is not closed fails the line at its end.
pub proof fn lemma_open_value_fails(
    tag: Seq<char>,
    key: Seq<char>,
    value: Seq<char>,
    depth: nat,
    line_no: nat,
)
    requires
        plain(tag),
        token(key),
        quotable(value),
    ensures
        parse(tag + seq!['('] + key + seq!['=', '"'] + value, true, depth, line_no) == Err::<
            Option<NodeModel>,
            Failure,
        >(
            Failure {
                kind: ErrorKind::Unterminated,
                position: tag.len() + key.len() + value.len() + 3,
                state: ParseState::AttrVal,
                ch: None,
            },
        ),
{
    let line = tag + seq!['('] + key + seq!['=', '"'] + value;
    let start = Scan::start();
    let named = start.extended(tag);
    let opened = Scan { state: ParseState::AttrKey, ..named };
    let keyed = opened.extended(key);
    let assigned = Scan { state: ParseState::AttrValOpen, ..keyed };
    let quoted = Scan { state: ParseState::AttrVal, ..keyed };
    let end = quoted.extended(value);
    assert(keyed.key == key) by {
        assert(opened.key + key == key);
    }
    assert(line == tag + (seq!['('] + (key + (seq!['='] + (seq!['"'] + value)))));
    lemma_run_concat(start, tag, seq!['('] + (key + (seq!['='] + (seq!['"'] + value))), true, 0);
    lemma_run_token(start, tag, true, 0);
    lemma_run_concat(named, seq!['('], key + (seq!['='] + (seq!['"'] + value)), true, tag.len());
    lemma_run_one(named, '(', true, tag.len());
    assert(named.feed('(', true) == Ok::<Scan, ErrorKind>(opened)) by {
        assert(named.feed('(', true)->Ok_0 =~= opened);
    }
    lemma_run_concat(opened, key, seq!['='] + (seq!['"'] + value), true, tag.len() + 1);
    lemma_run_token(opened, key, true, tag.len() + 1);
    lemma_run_concat(keyed, seq!['='], seq!['"'] + value, true, tag.len() + 1 + key.len());
    lemma_run_one(keyed, '=', true, tag.len() + 1 + key.len());
    assert(keyed.feed('=', true) == Ok::<Scan, ErrorKind>(assigned)) by {
        assert(keyed.feed('=', true)->Ok_0 =~= assigned);
    }
    lemma_run_concat(assigned, seq!['"'], value, true, tag.len() + 2 + key.len());
    lemma_run_one(assigned, '"', true, tag.len() + 2 + key.len());
    assert(assigned.feed('"', true) == Ok::<Scan, ErrorKind>(quoted)) by {
        assert(assigned.feed('"', true)->Ok_0 =~= quoted);
    }
    lemma_run_token(quoted, value, true, tag.len() + 3 + key.len());
    assert(start.run(line, true, 0) == Ok::<Scan, Failure>(end));
}

} // verus!
