//! The line parser: runs the header machine over one line and hands back
//! the element that the line describes.

use crate::invariants::lemma_parsed_node;
use crate::machine::{
    classify, decide, doctype_tag, effective_tag, Action, ErrorKind, Failure, Guard, ParseState,
    Scan,
};
use crate::model::{attributes_view, strings_view, Attribute, ElementNode, NodeModel};
use crate::tags::{header_tag, html_tag, is_html_tag, read_header_tag};
use crate::trace::{trace_window, window};
use vstd::prelude::*;

verus! {

/// How many trace entries a parse error carries at most.
pub const WINDOW: usize = 5;

/// A line that is no header: where it failed, why, and the last entries of
/// the parse trace, of which the last is the character that failed.
#[derive(Clone, Debug, PartialEq, Eq)]
pub struct ParseError {
    pub kind: ErrorKind,
    /// The number of the line in its source.
    pub line: usize,
    /// How many characters of the header were consumed before the failure.
    pub position: usize,
    /// The state in which the parser failed.
    pub state: ParseState,
    /// The character that failed; `None` where the line ended too early.
    pub ch: Option<char>,
    /// The last entries of the parse trace, [`WINDOW`] at most.
    pub window: Vec<(ParseState, char)>,
}

impl ParseError {
    /// Whether this error reports `failure` on line `line`, after the trace
    /// `trace`.
    pub open spec fn reports(self, failure: Failure, line: nat, trace: Seq<(ParseState, char)>) -> bool {
        &&& self.kind == failure.kind
        &&& self.line == line
        &&& self.position == failure.position
        &&& self.state == failure.state
        &&& self.ch == failure.ch
        &&& self.window@ == window(trace, WINDOW as nat)
    }
}

impl Scan {
    /// Whether the line has ended as a bare name that is not recognized:
    /// such a line is literal text as well.
    pub open spec fn bare_text(self, recognized: bool) -> bool {
        self.state == ParseState::TagName && !recognized
    }

    /// The element that the machine has collected when its line ends;
    /// `None` for a `doctype` line, which emits none.
    pub open spec fn finish(self, recognized: bool, depth: nat, line: nat) -> Result<
        Option<NodeModel>,
        ErrorKind,
    > {
        if !self.may_end() {
            Err(ErrorKind::Unterminated)
        } else if self.name == doctype_tag() {
            Ok(None)
        } else {
            Ok(
                Some(
                    NodeModel {
                        tag: effective_tag(self.name),
                        id: if self.id.len() > 0 {
                            Some(self.id)
                        } else {
                            None
                        },
                        classes: self.final_classes(),
                        attributes: self.attributes,
                        text: if self.bare_text(recognized) {
                            self.name
                        } else {
                            self.text
                        },
                        depth,
                        source_line: line,
                        is_text_only: self.text_only || self.bare_text(recognized),
                    },
                ),
            )
        }
    }
}

/// What the header `line` describes, given whether its tag name is a
/// recognized one: an element, nothing (a `doctype` line), or the failure.
pub open spec fn parse(line: Seq<char>, recognized: bool, depth: nat, line_no: nat) -> Result<
    Option<NodeModel>,
    Failure,
> {
    match Scan::start().run(line, recognized, 0) {
        Err(failure) => Err(failure),
        Ok(end) => match end.finish(recognized, depth, line_no) {
            Ok(node) => Ok(node),
            Err(kind) => Err(Failure { kind, position: line.len(), state: end.state, ch: None }),
        },
    }
}

/// The trace entries that parsing `line` adds.
pub open spec fn parse_trace(line: Seq<char>, recognized: bool) -> Seq<(ParseState, char)> {
    Scan::start().consumed(line, recognized)
}

/// The header machine with the header that it has collected so far.
pub struct Scanner {
    pub state: ParseState,
    pub name: String,
    pub id: String,
    pub class: String,
    pub classes: Vec<String>,
    pub key: String,
    pub value: String,
    pub attributes: Vec<Attribute>,
    pub text: String,
    pub text_only: bool,
}

impl View for Scanner {
    type V = Scan;

    open spec fn view(&self) -> Scan {
        Scan {
            state: self.state,
            name: self.name@,
            id: self.id@,
            class: self.class@,
            classes: strings_view(self.classes@),
            key: self.key@,
            value: self.value@,
            attributes: attributes_view(self.attributes@),
            text: self.text@,
            text_only: self.text_only,
        }
    }
}

impl Scanner {
    /// The machine before the first character of a line.
    pub fn new() -> (s: Scanner)
        ensures
            s@ == Scan::start(),
    {
        Scanner {
            state: ParseState::TagName,
            name: String::new(),
            id: String::new(),
            class: String::new(),
            classes: Vec::new(),
            key: String::new(),
            value: String::new(),
            attributes: Vec::new(),
            text: String::new(),
            text_only: false,
        }
    }

    /// Consumes one character. On an error the machine is left as it was.
    pub fn feed(&mut self, c: char, recognized: bool) -> (r: Result<(), ErrorKind>)
        ensures
            match old(self)@.feed(c, recognized) {
                Ok(next) => r is Ok && final(self)@ == next,
                Err(kind) => r == Err::<(), ErrorKind>(kind) && final(self)@ == old(self)@,
            },
    {
        let guard = Guard {
            recognized,
            id_empty: self.id.as_str().is_empty(),
            class_empty: self.class.as_str().is_empty(),
            key_empty: self.key.as_str().is_empty(),
        };
        match decide(self.state, classify(c), guard) {
            Err(kind) => Err(kind),
            Ok(step) => {
                match step.action {
                    Action::Skip => {},
                    Action::Append => match self.state {
                        ParseState::TagName => self.name.push(c),
                        ParseState::Id => self.id.push(c),
                        ParseState::Class => self.class.push(c),
                        ParseState::AttrKey => self.key.push(c),
                        ParseState::AttrVal => self.value.push(c),
                        ParseState::Text => self.text.push(c),
                        _ => {},
                    },
                    Action::CloseClass => {
                        let mut class = String::new();
                        core::mem::swap(&mut class, &mut self.class);
                        self.classes.push(class);
                    },
                    Action::EmitFlag => {
                        let mut key = String::new();
                        core::mem::swap(&mut key, &mut self.key);
                        let value = key.clone();
                        self.attributes.push(Attribute { key, value });
                    },
                    Action::EmitPair => {
                        let mut key = String::new();
                        let mut value = String::new();
                        core::mem::swap(&mut key, &mut self.key);
                        core::mem::swap(&mut value, &mut self.value);
                        self.attributes.push(Attribute { key, value });
                    },
                    Action::Fallback => {
                        let mut text = self.name.clone();
                        text.push(c);
                        self.text = text;
                        self.text_only = true;
                    },
                }
                self.state = step.next;
                Ok(())
            },
        }
    }

    /// Ends the line: hands back the element that was collected, `None`
    /// for a `doctype` line, or the error that the line's end raises.
    pub fn finish(self, recognized: bool, depth: usize, line_no: usize) -> (r: Result<
        Option<ElementNode>,
        ErrorKind,
    >)
        ensures
            match self@.finish(recognized, depth as nat, line_no as nat) {
                Ok(Some(model)) => r matches Ok(Some(node)) && node@ == model,
                Ok(None) => r matches Ok(None),
                Err(kind) => r matches Err(k) && k == kind,
            },
    {
        let mut this = self;
        match this.state {
            ParseState::Class => {
                if this.class.as_str().is_empty() {
                    return Err(ErrorKind::Unterminated);
                }
                let mut class = String::new();
                core::mem::swap(&mut class, &mut this.class);
                this.classes.push(class);
            },
            ParseState::AttrKey | ParseState::AttrValOpen | ParseState::AttrVal => {
                return Err(ErrorKind::Unterminated);
            },
            _ => {},
        }
        if this.name == String::from_str("doctype") {
            return Ok(None);
        }
        let bare = match this.state {
            ParseState::TagName => !recognized,
            _ => false,
        };
        let text = if bare {
            this.name.clone()
        } else {
            this.text
        };
        let tag = if this.name.as_str().is_empty() {
            String::from_str("div")
        } else {
            this.name
        };
        let id = if this.id.as_str().is_empty() {
            None
        } else {
            Some(this.id)
        };
        Ok(
            Some(
                ElementNode {
                    tag,
                    id,
                    classes: this.classes,
                    attributes: this.attributes,
                    text,
                    depth,
                    source_line: line_no,
                    is_text_only: this.text_only || bare,
                },
            ),
        )
    }
}

/// Parses one header line, of which the leading tabs have been taken off,
/// given whether its tag name is a recognized one.
///
/// `depth` and `line_no` are handed on to the element. Every character that
/// is consumed is recorded in `trace`, with the state in which it was met.
pub fn parse_header(
    line: &str,
    recognized: bool,
    depth: usize,
    line_no: usize,
    trace: &mut Vec<(ParseState, char)>,
) -> (r: Result<Option<ElementNode>, ParseError>)
    ensures
        final(trace)@ == old(trace)@ + parse_trace(line@, recognized),
        match parse(line@, recognized, depth as nat, line_no as nat) {
            Ok(Some(model)) => r matches Ok(Some(node)) && node@ == model,
            Ok(None) => r matches Ok(None),
            Err(failure) => r matches Err(e) && e.reports(failure, line_no as nat, final(trace)@),
        },
        r matches Ok(Some(node)) ==> node@.well_formed(),
{
    broadcast use vstd::string::group_string_axioms;

    let n = line.unicode_len();
    let mut scanner = Scanner::new();
    let mut pos: usize = 0;
    let ghost before = trace@;
    let ghost mut added: Seq<(ParseState, char)> = Seq::empty();
    assert(line@.skip(0) == line@);
    for c in iter: line.chars()
        invariant
            iter.seq() == line@,
            n == line@.len(),
            pos == iter.index(),
            before == old(trace)@,
            trace@ == before + added,
            Scan::start().run(line@, recognized, 0) == scanner@.run(
                line@.skip(pos as int),
                recognized,
                pos as nat,
            ),
            parse_trace(line@, recognized) == added + scanner@.consumed(
                line@.skip(pos as int),
                recognized,
            ),
    {
        let ghost rest = line@.skip(pos as int);
        assert(rest.skip(1) == line@.skip(pos + 1));
        let state = scanner.state;
        trace.push((state, c));
        proof {
            added = added.push((state, c));
        }
        match scanner.feed(c, recognized) {
            Err(kind) => {
                let window = trace_window(trace, WINDOW);
                return Err(ParseError { kind, line: line_no, position: pos, state, ch: Some(c), window });
            },
            Ok(()) => {
            },
        }
        pos = pos + 1;
    }
    let state = scanner.state;
    match scanner.finish(recognized, depth, line_no) {
        Ok(node) => {
            proof {
                if node is Some {
                    lemma_parsed_node(line@, recognized, depth as nat, line_no as nat);
                }
            }
            Ok(node)
        },
        Err(kind) => {
            let window = trace_window(trace, WINDOW);
            Err(ParseError { kind, line: line_no, position: n, state, ch: None, window })
        },
    }
}

/// Parses one header line, of which the leading tabs have been taken off.
/// The tag that the line names is looked up among the names of HTML.
pub fn parse_line(line: &str, depth: usize, line_no: usize, trace: &mut Vec<(ParseState, char)>) -> (r:
    Result<Option<ElementNode>, ParseError>)
    ensures
        final(trace)@ == old(trace)@ + parse_trace(line@, html_tag(header_tag(line@))),
        match parse(line@, html_tag(header_tag(line@)), depth as nat, line_no as nat) {
            Ok(Some(model)) => r matches Ok(Some(node)) && node@ == model,
            Ok(None) => r matches Ok(None),
            Err(failure) => r matches Err(e) && e.reports(failure, line_no as nat, final(trace)@),
        },
        r matches Ok(Some(node)) ==> node@.well_formed(),
{
    let tag = read_header_tag(line);
    let recognized = is_html_tag(tag.as_str());
    parse_header(line, recognized, depth, line_no, trace)
}

} // verus!
