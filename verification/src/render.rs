//! Serialization: the markup that an element stands for, and with it the
//! markup of the elements nested under it.

use crate::model::{attributes_view, strings_view, Attribute, ElementNode, NodeModel};
use crate::tree::{forest_view, lemma_children_view, Tree, TreeNode};
use vstd::prelude::*;

verus! {

/// The class names, with one space between two of them.
pub open spec fn class_list(classes: Seq<Seq<char>>) -> Seq<char>
    decreases classes.len(),
{
    if classes.len() == 0 {
        Seq::empty()
    } else if classes.len() == 1 {
        classes[0]
    } else {
        class_list(classes.drop_last()) + " "@ + classes.last()
    }
}

/// The attribute ` key="value"`, with the space that stands before it.
pub open spec fn attribute_markup(attribute: (Seq<char>, Seq<char>)) -> Seq<char> {
    " "@ + attribute.0 + "=\""@ + attribute.1 + "\""@
}

/// The attributes in their order, each with a space before it.
pub open spec fn attribute_list(attributes: Seq<(Seq<char>, Seq<char>)>) -> Seq<char>
    decreases attributes.len(),
{
    if attributes.len() == 0 {
        Seq::empty()
    } else {
        attribute_list(attributes.drop_last()) + attribute_markup(attributes.last())
    }
}

/// The id of an element as an attribute; nothing where it has none.
pub open spec fn id_markup(id: Option<Seq<char>>) -> Seq<char> {
    match id {
        Some(id) => attribute_markup(("id"@, id)),
        None => Seq::empty(),
    }
}

/// The classes of an element as one attribute; nothing where it has none.
pub open spec fn class_markup(classes: Seq<Seq<char>>) -> Seq<char> {
    if classes.len() == 0 {
        Seq::empty()
    } else {
        attribute_markup(("class"@, class_list(classes)))
    }
}

/// The opening tag of an element: its name, then its id, its classes and
/// its attributes, as far as it has them.
pub open spec fn open_tag(node: NodeModel) -> Seq<char> {
    "<"@ + node.tag + id_markup(node.id) + class_markup(node.classes) + attribute_list(
        node.attributes,
    ) + ">"@
}

/// The closing tag of an element.
pub open spec fn close_tag(node: NodeModel) -> Seq<char> {
    "</"@ + node.tag + ">"@
}

/// The markup of an element around `inner`, the markup of what is nested
/// under it: its tags around its text and `inner`. A text-only element has
/// no tags.
pub open spec fn element_markup(node: NodeModel, inner: Seq<char>) -> Seq<char> {
    if node.is_text_only {
        node.text + inner
    } else {
        open_tag(node) + node.text + inner + close_tag(node)
    }
}

/// The markup of a forest: that of its trees in their order, each with its
/// children between its tags.
pub open spec fn markup(forest: Seq<Tree>) -> Seq<char>
    decreases forest,
{
    if forest.len() == 0 {
        Seq::empty()
    } else {
        markup(forest.drop_last()) + element_markup(
            forest.last().element,
            markup(forest.last().children),
        )
    }
}

/// Appends ` key="value"` to `out`.
fn push_attribute(out: &mut String, key: &str, value: &str)
    ensures
        final(out)@ == old(out)@ + attribute_markup((key@, value@)),
{
    out.append(" ");
    out.append(key);
    out.append("=\"");
    out.append(value);
    out.append("\"");
}

/// Appends the class names to `out`, with one space between two of them.
fn push_class_list(out: &mut String, classes: &Vec<String>)
    ensures
        final(out)@ == old(out)@ + class_list(strings_view(classes@)),
{
    let ghost start = out@;
    let ghost all = strings_view(classes@);
    let mut i: usize = 0;
    while i < classes.len()
        invariant
            i <= classes.len(),
            all == strings_view(classes@),
            out@ == start + class_list(all.take(i as int)),
        decreases classes.len() - i,
    {
        let ghost done = all.take(i as int);
        let ghost more = all.take(i + 1);
        assert(more.drop_last() == done);
        if i > 0 {
            out.append(" ");
        }
        out.append(classes[i].as_str());
        i = i + 1;
    }
    assert(all.take(classes.len() as int) == all);
}

/// Appends the attributes to `out`, each with a space before it.
fn push_attribute_list(out: &mut String, attributes: &Vec<Attribute>)
    ensures
        final(out)@ == old(out)@ + attribute_list(attributes_view(attributes@)),
{
    let ghost start = out@;
    let ghost all = attributes_view(attributes@);
    let mut i: usize = 0;
    while i < attributes.len()
        invariant
            i <= attributes.len(),
            all == attributes_view(attributes@),
            out@ == start + attribute_list(all.take(i as int)),
        decreases attributes.len() - i,
    {
        let ghost done = all.take(i as int);
        let ghost more = all.take(i + 1);
        assert(more.drop_last() == done);
        push_attribute(out, attributes[i].key.as_str(), attributes[i].value.as_str());
        i = i + 1;
    }
    assert(all.take(attributes.len() as int) == all);
}

/// Appends the opening tag of `node` to `out`.
fn push_open_tag(out: &mut String, node: &ElementNode)
    ensures
        final(out)@ == old(out)@ + open_tag(node@),
{
    out.append("<");
    out.append(node.tag.as_str());
    match &node.id {
        Some(id) => {
            push_attribute(out, "id", id.as_str());
        },
        None => {
        },
    }
    if node.classes.len() > 0 {
        out.append(" class=\"");
        push_class_list(out, &node.classes);
        out.append("\"");
        proof {
            reveal_strlit(" class=\"");
            reveal_strlit(" ");
            reveal_strlit("class");
            reveal_strlit("=\"");
        }
    }
    push_attribute_list(out, &node.attributes);
    out.append(">");
}

/// Appends the closing tag of `node` to `out`.
fn push_close_tag(out: &mut String, node: &ElementNode)
    ensures
        final(out)@ == old(out)@ + close_tag(node@),
{
    out.append("</");
    out.append(node.tag.as_str());
    out.append(">");
}

/// Appends the markup of `forest` to `out`.
pub fn push_markup(out: &mut String, forest: &Vec<TreeNode>)
    ensures
        final(out)@ == old(out)@ + markup(forest_view(forest@)),
    decreases forest,
{
    let ghost start = out@;
    let ghost all = forest_view(forest@);
    let mut i: usize = 0;
    while i < forest.len()
        invariant
            i <= forest.len(),
            all == forest_view(forest@),
            out@ == start + markup(all.take(i as int)),
        decreases forest.len() - i,
    {
        let ghost done = all.take(i as int);
        let ghost more = all.take(i + 1);
        let ghost before = out@;
        let tree = &forest[i];
        proof {
            assert(more.drop_last() == done);
            lemma_children_view(*tree);
        }
        if tree.element.is_text_only {
            out.append(tree.element.text.as_str());
            push_markup(out, &tree.children);
        } else {
            push_open_tag(out, &tree.element);
            out.append(tree.element.text.as_str());
            push_markup(out, &tree.children);
            push_close_tag(out, &tree.element);
            assert(out@ == before + (open_tag(tree@.element) + tree@.element.text + markup(
                tree@.children,
            ) + close_tag(tree@.element)));
        }
        i = i + 1;
    }
    assert(all.take(forest.len() as int) == all);
}

/// The markup of `forest`.
pub fn render(forest: &Vec<TreeNode>) -> (out: String)
    ensures
        out@ == markup(forest_view(forest@)),
{
    let mut out = String::new();
    push_markup(&mut out, forest);
    out
}

} // verus!
