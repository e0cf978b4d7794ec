//! The document builder: sorts the assembled forest into the head and the
//! body of a document, and serializes the document.

use crate::render::{markup, push_markup, render};
use crate::text::same_text;
use crate::tree::{forest_view, lemma_children_view, Tree, TreeNode};
use vstd::prelude::*;

verus! {

/// A document as mathematical values: the trees of its head section and
/// those of its body section.
pub struct DocumentModel {
    pub head: Seq<Tree>,
    pub body: Seq<Tree>,
}

/// A document: its top-level content, sorted into two sections.
#[derive(Debug, PartialEq, Eq)]
pub struct Document {
    pub head: Vec<TreeNode>,
    pub body: Vec<TreeNode>,
}

impl View for Document {
    type V = DocumentModel;

    open spec fn view(&self) -> DocumentModel {
        DocumentModel { head: forest_view(self.head@), body: forest_view(self.body@) }
    }
}

/// Whether `tree` is an element, not literal text, with the tag `tag`.
pub open spec fn is_element(tree: Tree, tag: Seq<char>) -> bool {
    !tree.element.is_text_only && tree.element.tag == tag
}

/// The top-level content of a forest. Where the forest is a single `html`
/// element, that element stands for the document itself, and what is nested
/// under it is the top-level content; else the forest is.
pub open spec fn top_level(forest: Seq<Tree>) -> Seq<Tree> {
    if forest.len() == 1 && is_element(forest[0], "html"@) {
        forest[0].children
    } else {
        forest
    }
}

/// The index of the first `head` element of `top`; the length of `top`
/// where it has none.
pub open spec fn head_index(top: Seq<Tree>) -> int
    decreases top.len(),
{
    if top.len() == 0 {
        0
    } else if is_element(top[0], "head"@) {
        0
    } else {
        1 + head_index(top.skip(1))
    }
}

/// The document of a forest: the first `head` element of its top-level
/// content, with all that is nested under it, is the head section; the rest
/// of the top-level content, in its order, is the body section.
pub open spec fn route(forest: Seq<Tree>) -> DocumentModel {
    let top = top_level(forest);
    let at = head_index(top);
    if at < top.len() {
        DocumentModel { head: seq![top[at]], body: top.remove(at) }
    } else {
        DocumentModel { head: Seq::empty(), body: top }
    }
}

/// The markup of a document: the doctype, then the head section and the
/// body section inside an `html` element.
pub open spec fn document_markup(document: DocumentModel) -> Seq<char> {
    "<!DOCTYPE html>"@ + enclosed("html"@, markup(document.head) + markup(document.body))
}

/// `inner` between the opening and the closing tag of `tag`.
pub open spec fn enclosed(tag: Seq<char>, inner: Seq<char>) -> Seq<char> {
    "<"@ + tag + ">"@ + inner + "</"@ + tag + ">"@
}

/// `head_index` is the index of the first `head` element.
pub proof fn lemma_head_index(top: Seq<Tree>, at: int)
    requires
        0 <= at <= top.len(),
        forall|j: int| 0 <= j < at ==> !is_element(#[trigger] top[j], "head"@),
        at < top.len() ==> is_element(top[at], "head"@),
    ensures
        head_index(top) == at,
    decreases at,
{
    if at > 0 {
        let rest = top.skip(1);
        lemma_head_index(rest, at - 1);
    }
}

/// Renders an element without attributes around markup that is already
/// rendered, by `Element::render` of htmlbuilder. The element is made with
/// the name `tag` and empty content, and gets one child: a node without a
/// name, marked as preformatted, whose content `inner` therefore stays
/// unescaped. Rendered with an empty separator, this gives the opening
/// tag, `inner` as it is, and the closing tag. The name must not be empty:
/// htmlbuilder renders an element without a name as its own content alone.
#[verifier::external_body]
fn enclose(tag: &str, inner: &str) -> (out: String)
    requires
        tag@.len() > 0,
    ensures
        out@ == enclosed(tag@, inner@),
{
    let raw = htmlbuilder::Element::new("", "").pre(true);
    raw.configcnt(inner);
    htmlbuilder::Element::new(tag, "").add_with(raw).render("")
}

/// Whether `tree` is an element, not literal text, with the tag `tag`.
fn has_tag(tree: &TreeNode, tag: &str) -> (b: bool)
    ensures
        b == is_element(tree@, tag@),
{
    !tree.element.is_text_only && same_text(tree.element.tag.as_str(), tag)
}

impl Document {
    /// Sorts the forest into the two sections of a document.
    pub fn from_forest(forest: Vec<TreeNode>) -> (document: Document)
        ensures
            document@ == route(forest_view(forest@)),
    {
        let mut forest = forest;
        let top = if forest.len() == 1 && has_tag(&forest[0], "html") {
            let root = forest.pop().unwrap();
            proof {
                lemma_children_view(root);
            }
            root.children
        } else {
            forest
        };
        let ghost all = forest_view(top@);
        let mut head: Vec<TreeNode> = Vec::new();
        let mut body: Vec<TreeNode> = Vec::new();
        let ghost mut found: int = -1;
        for tree in it: top
            invariant
                it.seq() == top@,
                all == forest_view(top@),
                -1 <= found < it.index(),
                found < 0 ==> head.len() == 0 && forest_view(body@) == all.take(it.index()),
                found >= 0 ==> forest_view(head@) == seq![all[found]] && forest_view(body@)
                    == all.take(it.index()).remove(found),
                found >= 0 ==> is_element(all[found], "head"@),
                forall|j: int|
                    0 <= j < it.index() && (found < 0 || j < found) ==> !is_element(
                        #[trigger] all[j],
                        "head"@,
                    ),
        {
            let ghost i = it.index();
            let ghost old_body = forest_view(body@);
            if head.len() == 0 && has_tag(&tree, "head") {
                head.push(tree);
                proof {
                    found = i;
                }
            } else {
                body.push(tree);
                proof {
                    assert(forest_view(body@) == old_body.push(all[i]));
                }
            }
        }
        proof {
            assert(all.take(all.len() as int) == all);
            if found < 0 {
                assert(forest_view(head@) == Seq::<Tree>::empty());
                lemma_head_index(all, all.len() as int);
            } else {
                lemma_head_index(all, found);
            }
        }
        Document { head, body }
    }

    /// The markup of the head section.
    pub fn head_html(&self) -> (out: String)
        ensures
            out@ == markup(self@.head),
    {
        render(&self.head)
    }

    /// The markup of the body section.
    pub fn body_html(&self) -> (out: String)
        ensures
            out@ == markup(self@.body),
    {
        render(&self.body)
    }

    /// The document as one string of markup.
    pub fn to_html(&self) -> (out: String)
        ensures
            out@ == document_markup(self@),
    {
        let mut inner = render(&self.head);
        push_markup(&mut inner, &self.body);
        proof {
            reveal_strlit("html");
        }
        let html = enclose("html", inner.as_str());
        let mut out = String::from_str("<!DOCTYPE html>");
        out.append(html.as_str());
        out
    }
}

} // verus!
