//! The tag names of HTML, and the tag name that a header line begins with.

use crate::machine::{class_of, classify, effective_tag, CharClass};
use crate::text::same_text;
use vstd::prelude::*;

verus! {

/// Whether `name` is the name of an HTML element.
pub open spec fn html_tag(name: Seq<char>) -> bool {
    ||| name == "a"@
    ||| name == "abbr"@
    ||| name == "address"@
    ||| name == "area"@
    ||| name == "article"@
    ||| name == "aside"@
    ||| name == "audio"@
    ||| name == "b"@
    ||| name == "base"@
    ||| name == "bdi"@
    ||| name == "bdo"@
    ||| name == "blockquote"@
    ||| name == "body"@
    ||| name == "br"@
    ||| name == "button"@
    ||| name == "canvas"@
    ||| name == "caption"@
    ||| name == "cite"@
    ||| name == "code"@
    ||| name == "col"@
    ||| name == "colgroup"@
    ||| name == "data"@
    ||| name == "datalist"@
    ||| name == "dd"@
    ||| name == "del"@
    ||| name == "details"@
    ||| name == "dfn"@
    ||| name == "dialog"@
    ||| name == "div"@
    ||| name == "dl"@
    ||| name == "dt"@
    ||| name == "em"@
    ||| name == "embed"@
    ||| name == "fieldset"@
    ||| name == "figcaption"@
    ||| name == "figure"@
    ||| name == "footer"@
    ||| name == "form"@
    ||| name == "h1"@
    ||| name == "h2"@
    ||| name == "h3"@
    ||| name == "h4"@
    ||| name == "h5"@
    ||| name == "h6"@
    ||| name == "head"@
    ||| name == "header"@
    ||| name == "hgroup"@
    ||| name == "hr"@
    ||| name == "html"@
    ||| name == "i"@
    ||| name == "iframe"@
    ||| name == "img"@
    ||| name == "input"@
    ||| name == "ins"@
    ||| name == "kbd"@
    ||| name == "label"@
    ||| name == "legend"@
    ||| name == "li"@
    ||| name == "link"@
    ||| name == "main"@
    ||| name == "map"@
    ||| name == "mark"@
    ||| name == "menu"@
    ||| name == "meta"@
    ||| name == "meter"@
    ||| name == "nav"@
    ||| name == "noscript"@
    ||| name == "object"@
    ||| name == "ol"@
    ||| name == "optgroup"@
    ||| name == "option"@
    ||| name == "output"@
    ||| name == "p"@
    ||| name == "picture"@
    ||| name == "pre"@
    ||| name == "progress"@
    ||| name == "q"@
    ||| name == "rp"@
    ||| name == "rt"@
    ||| name == "ruby"@
    ||| name == "s"@
    ||| name == "samp"@
    ||| name == "script"@
    ||| name == "search"@
    ||| name == "section"@
    ||| name == "select"@
    ||| name == "slot"@
    ||| name == "small"@
    ||| name == "source"@
    ||| name == "span"@
    ||| name == "strong"@
    ||| name == "style"@
    ||| name == "sub"@
    ||| name == "summary"@
    ||| name == "sup"@
    ||| name == "table"@
    ||| name == "tbody"@
    ||| name == "td"@
    ||| name == "template"@
    ||| name == "textarea"@
    ||| name == "tfoot"@
    ||| name == "th"@
    ||| name == "thead"@
    ||| name == "time"@
    ||| name == "title"@
    ||| name == "tr"@
    ||| name == "track"@
    ||| name == "u"@
    ||| name == "ul"@
    ||| name == "var"@
    ||| name == "video"@
    ||| name == "wbr"@
}

/// Whether `name` is the name of an HTML element. Names are compared as
/// they are written, in lower case.
pub fn is_html_tag(name: &str) -> (known: bool)
    ensures
        known == html_tag(name@),
{
    same_text(name, "a") ||
        same_text(name, "abbr") ||
        same_text(name, "address") ||
        same_text(name, "area") ||
        same_text(name, "article") ||
        same_text(name, "aside") ||
        same_text(name, "audio") ||
        same_text(name, "b") ||
        same_text(name, "base") ||
        same_text(name, "bdi") ||
        same_text(name, "bdo") ||
        same_text(name, "blockquote") ||
        same_text(name, "body") ||
        same_text(name, "br") ||
        same_text(name, "button") ||
        same_text(name, "canvas") ||
        same_text(name, "caption") ||
        same_text(name, "cite") ||
        same_text(name, "code") ||
        same_text(name, "col") ||
        same_text(name, "colgroup") ||
        same_text(name, "data") ||
        same_text(name, "datalist") ||
        same_text(name, "dd") ||
        same_text(name, "del") ||
        same_text(name, "details") ||
        same_text(name, "dfn") ||
        same_text(name, "dialog") ||
        same_text(name, "div") ||
        same_text(name, "dl") ||
        same_text(name, "dt") ||
        same_text(name, "em") ||
        same_text(name, "embed") ||
        same_text(name, "fieldset") ||
        same_text(name, "figcaption") ||
        same_text(name, "figure") ||
        same_text(name, "footer") ||
        same_text(name, "form") ||
        same_text(name, "h1") ||
        same_text(name, "h2") ||
        same_text(name, "h3") ||
        same_text(name, "h4") ||
        same_text(name, "h5") ||
        same_text(name, "h6") ||
        same_text(name, "head") ||
        same_text(name, "header") ||
        same_text(name, "hgroup") ||
        same_text(name, "hr") ||
        same_text(name, "html") ||
        same_text(name, "i") ||
        same_text(name, "iframe") ||
        same_text(name, "img") ||
        same_text(name, "input") ||
        same_text(name, "ins") ||
        same_text(name, "kbd") ||
        same_text(name, "label") ||
        same_text(name, "legend") ||
        same_text(name, "li") ||
        same_text(name, "link") ||
        same_text(name, "main") ||
        same_text(name, "map") ||
        same_text(name, "mark") ||
        same_text(name, "menu") ||
        same_text(name, "meta") ||
        same_text(name, "meter") ||
        same_text(name, "nav") ||
        same_text(name, "noscript") ||
        same_text(name, "object") ||
        same_text(name, "ol") ||
        same_text(name, "optgroup") ||
        same_text(name, "option") ||
        same_text(name, "output") ||
        same_text(name, "p") ||
        same_text(name, "picture") ||
        same_text(name, "pre") ||
        same_text(name, "progress") ||
        same_text(name, "q") ||
        same_text(name, "rp") ||
        same_text(name, "rt") ||
        same_text(name, "ruby") ||
        same_text(name, "s") ||
        same_text(name, "samp") ||
        same_text(name, "script") ||
        same_text(name, "search") ||
        same_text(name, "section") ||
        same_text(name, "select") ||
        same_text(name, "slot") ||
        same_text(name, "small") ||
        same_text(name, "source") ||
        same_text(name, "span") ||
        same_text(name, "strong") ||
        same_text(name, "style") ||
        same_text(name, "sub") ||
        same_text(name, "summary") ||
        same_text(name, "sup") ||
        same_text(name, "table") ||
        same_text(name, "tbody") ||
        same_text(name, "td") ||
        same_text(name, "template") ||
        same_text(name, "textarea") ||
        same_text(name, "tfoot") ||
        same_text(name, "th") ||
        same_text(name, "thead") ||
        same_text(name, "time") ||
        same_text(name, "title") ||
        same_text(name, "tr") ||
        same_text(name, "track") ||
        same_text(name, "u") ||
        same_text(name, "ul") ||
        same_text(name, "var") ||
        same_text(name, "video") ||
        same_text(name, "wbr")
}

/// How many characters stand before the first delimiter of `line`.
pub open spec fn name_len(line: Seq<char>) -> nat
    decreases line.len(),
{
    if line.len() == 0 || class_of(line[0]) != CharClass::Ordinary {
        0
    } else {
        1 + name_len(line.skip(1))
    }
}

/// The name that `line` begins with: what stands before its first delimiter.
pub open spec fn leading_name(line: Seq<char>) -> Seq<char> {
    line.take(name_len(line) as int)
}

/// The tag that the header `line` names: its leading name, or `div` where
/// it has none.
pub open spec fn header_tag(line: Seq<char>) -> Seq<char> {
    effective_tag(leading_name(line))
}

/// `name_len` is the index of the first character that is not ordinary.
pub proof fn lemma_name_len(line: Seq<char>, i: int)
    requires
        0 <= i <= line.len(),
        forall|j: int| 0 <= j < i ==> class_of(#[trigger] line[j]) == CharClass::Ordinary,
        i < line.len() ==> class_of(line[i]) != CharClass::Ordinary,
    ensures
        name_len(line) == i,
    decreases i,
{
    if i > 0 {
        let rest = line.skip(1);
        lemma_name_len(rest, i - 1);
    }
}

/// The leading name ends at the first delimiter of the line, or with the
/// line.
pub proof fn lemma_leading_name(line: Seq<char>)
    ensures
        name_len(line) <= line.len(),
        forall|j: int|
            0 <= j < name_len(line) ==> class_of(#[trigger] line[j]) == CharClass::Ordinary,
        name_len(line) < line.len() ==> class_of(line[name_len(line) as int])
            != CharClass::Ordinary,
    decreases line.len(),
{
    if line.len() > 0 && class_of(line[0]) == CharClass::Ordinary {
        let rest = line.skip(1);
        lemma_leading_name(rest);
        assert forall|j: int| 0 <= j < name_len(line) implies class_of(#[trigger] line[j])
            == CharClass::Ordinary by {
            if j > 0 {
                assert(line[j] == rest[j - 1]);
            }
        }
    }
}

/// `name`, or `div` where `name` is empty.
fn or_default(name: String) -> (tag: String)
    ensures
        tag@ == effective_tag(name@),
{
    if name.as_str().is_empty() {
        String::from_str("div")
    } else {
        name
    }
}

/// Reads the tag that the header `line` names.
pub fn read_header_tag(line: &str) -> (tag: String)
    ensures
        tag@ == header_tag(line@),
{
    broadcast use vstd::string::group_string_axioms;

    let mut name = String::new();
    for c in iter: line.chars()
        invariant
            iter.seq() == line@,
            name@ == line@.take(iter.index()),
            forall|j: int|
                0 <= j < iter.index() ==> class_of(#[trigger] line@[j]) == CharClass::Ordinary,
    {
        match classify(c) {
            CharClass::Ordinary => {
                name.push(c);
            },
            _ => {
                proof {
                    lemma_name_len(line@, iter.index());
                }
                return or_default(name);
            },
        }
    }
    proof {
        lemma_name_len(line@, line@.len() as int);
    }
    or_default(name)
}

} // verus!
