//! The data model: attributes and the element that one header line describes.

use vstd::prelude::*;

verus! {

/// What an [`ElementNode`] holds, as mathematical values.
#[verifier::ext_equal]
pub struct NodeModel {
    pub tag: Seq<char>,
    pub id: Option<Seq<char>>,
    pub classes: Seq<Seq<char>>,
    pub attributes: Seq<(Seq<char>, Seq<char>)>,
    pub text: Seq<char>,
    pub depth: nat,
    pub source_line: nat,
    pub is_text_only: bool,
}

impl NodeModel {
    /// An id, where present, is not empty; neither is any class nor any
    /// attribute key.
    pub open spec fn well_formed(self) -> bool {
        &&& self.id matches Some(id) ==> id.len() > 0
        &&& forall|i: int| 0 <= i < self.classes.len() ==> (#[trigger] self.classes[i]).len() > 0
        &&& forall|i: int|
            0 <= i < self.attributes.len() ==> (#[trigger] self.attributes[i]).0.len() > 0
    }
}

/// One attribute of an element: an ordered key/value pair.
#[derive(Clone, Debug, PartialEq, Eq)]
pub struct Attribute {
    pub key: String,
    pub value: String,
}

impl View for Attribute {
    type V = (Seq<char>, Seq<char>);

    open spec fn view(&self) -> (Seq<char>, Seq<char>) {
        (self.key@, self.value@)
    }
}

impl Attribute {
    /// The attribute `key="value"`.
    pub fn pair(key: String, value: String) -> (a: Attribute)
        requires
            key@.len() > 0,
        ensures
            a@ == (key@, value@),
    {
        Attribute { key, value }
    }

    /// The shorthand (boolean) attribute: written as a bare key, it has its
    /// own key for a value.
    pub fn flag(key: String) -> (a: Attribute)
        requires
            key@.len() > 0,
        ensures
            a@ == (key@, key@),
    {
        let value = key.clone();
        Attribute { key, value }
    }

    /// Whether the attribute has the shorthand form, its value being its key.
    pub fn is_flag(&self) -> (b: bool)
        ensures
            b == (self@.0 == self@.1),
    {
        self.key == self.value
    }
}

/// The views of a list of strings, in order.
pub open spec fn strings_view(v: Seq<String>) -> Seq<Seq<char>> {
    Seq::new(v.len(), |i: int| v[i]@)
}

/// The views of a list of attributes, in order.
pub open spec fn attributes_view(v: Seq<Attribute>) -> Seq<(Seq<char>, Seq<char>)> {
    Seq::new(v.len(), |i: int| v[i]@)
}

/// The view of an optional string.
pub open spec fn option_view(o: Option<String>) -> Option<Seq<char>> {
    match o {
        Some(s) => Some(s@),
        None => None,
    }
}

/// One parsed header line.
///
/// `classes` and `attributes` keep the order in which the line names them,
/// duplicates included. A text-only node is a line that is no header: its
/// `text` is the whole line as it was written, its `tag` is the name that
/// was not recognized, and it has no id, no classes and no attributes.
#[derive(Clone, Debug, PartialEq, Eq)]
pub struct ElementNode {
    pub tag: String,
    pub id: Option<String>,
    pub classes: Vec<String>,
    pub attributes: Vec<Attribute>,
    pub text: String,
    pub depth: usize,
    pub source_line: usize,
    pub is_text_only: bool,
}

impl View for ElementNode {
    type V = NodeModel;

    open spec fn view(&self) -> NodeModel {
        NodeModel {
            tag: self.tag@,
            id: option_view(self.id),
            classes: strings_view(self.classes@),
            attributes: attributes_view(self.attributes@),
            text: self.text@,
            depth: self.depth as nat,
            source_line: self.source_line as nat,
            is_text_only: self.is_text_only,
        }
    }
}

} // verus!
