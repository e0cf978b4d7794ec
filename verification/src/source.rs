//! From source lines to a document: the depth of a line, the elements of all
//! lines, and the whole compilation.

use crate::document::{route, Document, DocumentModel};
use crate::invariants::lemma_parsed_node;
use crate::machine::{Failure, ParseState};
use crate::model::{strings_view, ElementNode, NodeModel};
use crate::parser::{parse, parse_line, parse_trace, ParseError};
use crate::tags::{header_tag, html_tag};
use crate::nesting::lemma_nesting_is_unique;
use crate::tree::{flatten, forest_view, nest_elements, nested, nodes_view, Tree};
use vstd::prelude::*;

verus! {

/// The depth of a line: how many tabs it begins with.
pub open spec fn indent(line: Seq<char>) -> nat
    decreases line.len(),
{
    if line.len() > 0 && line[0] == '\t' {
        1 + indent(line.skip(1))
    } else {
        0
    }
}

/// The header of a line: what follows its leading tabs.
pub open spec fn header_of(line: Seq<char>) -> Seq<char> {
    line.skip(indent(line) as int)
}

/// `indent` is the index of the first character that is no tab.
pub proof fn lemma_indent(line: Seq<char>, at: int)
    requires
        0 <= at <= line.len(),
        forall|j: int| 0 <= j < at ==> #[trigger] line[j] == '\t',
        at < line.len() ==> line[at] != '\t',
    ensures
        indent(line) == at,
    decreases at,
{
    if at > 0 {
        let rest = line.skip(1);
        lemma_indent(rest, at - 1);
    }
}

/// Splits a line into its depth and its header.
pub fn split_indent(line: &str) -> (r: (usize, String))
    ensures
        r.0 == indent(line@),
        r.1@ == header_of(line@),
{
    broadcast use vstd::string::group_string_axioms;

    let n = line.unicode_len();
    let mut depth: usize = 0;
    let mut header = String::new();
    let mut leading = true;
    for c in iter: line.chars()
        invariant
            iter.seq() == line@,
            n == line@.len(),
            depth <= iter.index(),
            forall|j: int| 0 <= j < depth ==> #[trigger] line@[j] == '\t',
            leading ==> depth == iter.index(),
            !leading ==> line@[depth as int] != '\t',
            header@ == line@.skip(depth as int).take(iter.index() - depth),
    {
        if leading && c == '\t' {
            depth = depth + 1;
        } else {
            leading = false;
            header.push(c);
        }
    }
    proof {
        lemma_indent(line@, depth as int);
    }
    (depth, header)
}

/// A failure with the number of the line on which it lies.
pub struct SourceFailure {
    pub failure: Failure,
    pub line: nat,
}

/// `nodes` before what the rest of the source gives.
pub open spec fn after(nodes: Seq<NodeModel>, rest: Result<Seq<NodeModel>, SourceFailure>) -> Result<
    Seq<NodeModel>,
    SourceFailure,
> {
    match rest {
        Ok(more) => Ok(nodes + more),
        Err(failure) => Err(failure),
    }
}

/// The elements of the lines `lines`, of which the first has the number
/// `first`: one for each line that is not blank and no `doctype` line, in
/// the order of the lines; or the failure of the first line that is no
/// header. A line is blank where nothing follows its leading tabs.
pub open spec fn elements(lines: Seq<Seq<char>>, first: nat) -> Result<
    Seq<NodeModel>,
    SourceFailure,
>
    decreases lines.len(),
{
    if lines.len() == 0 {
        Ok(Seq::empty())
    } else {
        let header = header_of(lines[0]);
        let rest = elements(lines.skip(1), first + 1);
        if header.len() == 0 {
            rest
        } else {
            match parse(header, html_tag(header_tag(header)), indent(lines[0]), first) {
                Ok(Some(node)) => after(seq![node], rest),
                Ok(None) => rest,
                Err(failure) => Err(SourceFailure { failure, line: first }),
            }
        }
    }
}

/// The trace entries that parsing the lines `lines` adds: those of each
/// line that is not blank, up to the first line that fails.
pub open spec fn source_trace(lines: Seq<Seq<char>>) -> Seq<(ParseState, char)>
    decreases lines.len(),
{
    if lines.len() == 0 {
        Seq::empty()
    } else {
        let header = header_of(lines[0]);
        let rest = source_trace(lines.skip(1));
        if header.len() == 0 {
            rest
        } else {
            let recognized = html_tag(header_tag(header));
            if parse(header, recognized, 0, 0) is Err {
                parse_trace(header, recognized)
            } else {
                parse_trace(header, recognized) + rest
            }
        }
    }
}

/// Parses the lines of a source, which are numbered from 1. Blank lines
/// are passed over. Parsing stops at the first line that is no header.
pub fn parse_source(lines: &Vec<String>, trace: &mut Vec<(ParseState, char)>) -> (r: Result<
    Vec<ElementNode>,
    ParseError,
>)
    ensures
        final(trace)@ == old(trace)@ + source_trace(strings_view(lines@)),
        match elements(strings_view(lines@), 1) {
            Ok(models) => r matches Ok(nodes) && nodes_view(nodes@) == models,
            Err(failed) => r matches Err(e) && e.reports(
                failed.failure,
                failed.line,
                final(trace)@,
            ),
        },
{
    let ghost all = strings_view(lines@);
    let ghost before = trace@;
    let mut nodes: Vec<ElementNode> = Vec::new();
    let mut i: usize = 0;
    assert(all.skip(0) == all);
    while i < lines.len()
        invariant
            i <= lines.len(),
            all == strings_view(lines@),
            before == old(trace)@,
            elements(all, 1) == after(
                nodes_view(nodes@),
                elements(all.skip(i as int), (i + 1) as nat),
            ),
            before + source_trace(all) == trace@ + source_trace(all.skip(i as int)),
        decreases lines.len() - i,
    {
        let ghost rest = all.skip(i as int);
        let ghost done = nodes_view(nodes@);
        assert(rest.skip(1) == all.skip(i + 1));
        let (depth, header) = split_indent(lines[i].as_str());
        if !header.as_str().is_empty() {
            match parse_line(header.as_str(), depth, i + 1, trace) {
                Err(e) => {
                    return Err(e);
                },
                Ok(None) => {
                },
                Ok(Some(node)) => {
                    let ghost model = node@;
                    nodes.push(node);
                    proof {
                        assert(nodes_view(nodes@) == done.push(model));
                        match elements(rest.skip(1), (i + 2) as nat) {
                            Ok(more) => {
                                assert(done + (seq![model] + more) == done.push(model) + more);
                            },
                            Err(_) => {},
                        }
                    }
                },
            }
        }
        i = i + 1;
    }
    Ok(nodes)
}

/// Whether `document` is the document of the elements `nodes`: the forest
/// that the depths of `nodes` describe, sorted into head and body.
pub open spec fn is_document_of(document: DocumentModel, nodes: Seq<NodeModel>) -> bool {
    exists|forest: Seq<Tree>|
        #![trigger nested(forest, -1)]
        nested(forest, -1) && flatten(forest) == nodes && document == route(forest)
}

/// Compiles a source, given as its lines, into a document: parses the
/// lines, assembles the forest of their elements and sorts it into head and
/// body. The first line that is no header fails the whole compilation.
pub fn compile(lines: &Vec<String>, trace: &mut Vec<(ParseState, char)>) -> (r: Result<
    Document,
    ParseError,
>)
    ensures
        final(trace)@ == old(trace)@ + source_trace(strings_view(lines@)),
        match elements(strings_view(lines@), 1) {
            Ok(models) => r matches Ok(document) && is_document_of(document@, models),
            Err(failed) => r matches Err(e) && e.reports(
                failed.failure,
                failed.line,
                final(trace)@,
            ),
        },
{
    match parse_source(lines, trace) {
        Err(e) => Err(e),
        Ok(nodes) => {
            let forest = nest_elements(nodes);
            let document = Document::from_forest(forest);
            Ok(document)
        },
    }
}

/// Whether `node` is an element of the line `lines[at]`, where the first of
/// `lines` has the number `first`: it is well formed, bears the number and
/// the depth of that line, and the tag that the line names.
pub open spec fn element_of(node: NodeModel, lines: Seq<Seq<char>>, first: nat, at: int) -> bool {
    &&& 0 <= at < lines.len()
    &&& node.well_formed()
    &&& node.source_line == first + at
    &&& node.depth == indent(lines[at])
    &&& node.tag == header_tag(header_of(lines[at]))
}

/// The elements of a source come one from a line, in the order of the
/// lines: each is an element of the line whose number it bears, and the
/// numbers grow from one element to the next.
pub proof fn lemma_elements_in_order(lines: Seq<Seq<char>>, first: nat)
    requires
        elements(lines, first) is Ok,
    ensures
        ({
            let nodes = elements(lines, first)->Ok_0;
            &&& forall|i: int|
                0 <= i < nodes.len() ==> element_of(
                    #[trigger] nodes[i],
                    lines,
                    first,
                    nodes[i].source_line - first,
                )
            &&& forall|i: int, j: int|
                0 <= i < j < nodes.len() ==> (#[trigger] nodes[i]).source_line < (
                #[trigger] nodes[j]).source_line
        }),
    decreases lines.len(),
{
    if lines.len() > 0 {
        let nodes = elements(lines, first)->Ok_0;
        let header = header_of(lines[0]);
        let rest = lines.skip(1);
        let recognized = html_tag(header_tag(header));
        let parsed = parse(header, recognized, indent(lines[0]), first);
        let here = header.len() > 0 && parsed matches Ok(Some(_));
        let more = elements(rest, first + 1)->Ok_0;
        lemma_elements_in_order(rest, first + 1);
        if here {
            let node = parsed->Ok_0->Some_0;
            lemma_parsed_node(header, recognized, indent(lines[0]), first);
        }
    }
}

/// A source without a header has no element and leaves no trace: lines
/// that are empty or hold only tabs are passed over.
pub proof fn lemma_blank_source(lines: Seq<Seq<char>>, first: nat)
    requires
        forall|i: int| 0 <= i < lines.len() ==> header_of(#[trigger] lines[i]).len() == 0,
    ensures
        elements(lines, first) == Ok::<Seq<NodeModel>, SourceFailure>(Seq::empty()),
        source_trace(lines) == Seq::<(ParseState, char)>::empty(),
    decreases lines.len(),
{
    if lines.len() > 0 {
        let rest = lines.skip(1);
        lemma_blank_source(rest, first + 1);
    }
}

/// The document of no elements is empty: its head and its body hold
/// nothing.
pub proof fn lemma_empty_document(document: DocumentModel)
    requires
        is_document_of(document, Seq::empty()),
    ensures
        document.head.len() == 0,
        document.body.len() == 0,
{
}

/// The elements decide the document: no two documents are documents of the
/// same elements.
pub proof fn lemma_document_is_unique(
    one: DocumentModel,
    other: DocumentModel,
    nodes: Seq<NodeModel>,
)
    requires
        is_document_of(one, nodes),
        is_document_of(other, nodes),
    ensures
        one == other,
{
    let first = choose|forest: Seq<Tree>|
        #![trigger nested(forest, -1)]
        nested(forest, -1) && flatten(forest) == nodes && one == route(forest);
    let second = choose|forest: Seq<Tree>|
        #![trigger nested(forest, -1)]
        nested(forest, -1) && flatten(forest) == nodes && other == route(forest);
    lemma_nesting_is_unique(first, second, -1);
}

} // verus!
