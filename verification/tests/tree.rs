use terse_html::model::ElementNode;
use terse_html::tree::{nest_elements, TreeNode};

fn leaf(tag: &str, depth: usize) -> ElementNode {
    ElementNode {
        tag: tag.to_string(),
        id: None,
        classes: Vec::new(),
        attributes: Vec::new(),
        text: String::new(),
        depth,
        source_line: 1,
        is_text_only: false,
    }
}

fn shape(forest: &Vec<TreeNode>) -> String {
    let mut out = String::new();
    for tree in forest {
        out.push_str(&tree.element.tag);
        if !tree.children.is_empty() {
            out.push('[');
            out.push_str(&shape(&tree.children));
            out.push(']');
        }
        out.push(' ');
    }
    out.trim_end().to_string()
}

fn nest(depths: &[usize]) -> String {
    let names = ["a", "b", "c", "d", "e", "f", "g", "h"];
    let nodes = depths.iter().enumerate().map(|(i, d)| leaf(names[i], *d)).collect();
    shape(&nest_elements(nodes))
}

#[test]
fn empty_list_gives_empty_forest() {
    assert!(nest_elements(Vec::new()).is_empty());
}

#[test]
fn siblings_share_a_depth() {
    assert_eq!(nest(&[0, 0, 0]), "a b c");
}

#[test]
fn deeper_line_is_a_child() {
    assert_eq!(nest(&[0, 1, 2]), "a[b[c]]");
    assert_eq!(nest(&[0, 1, 1, 0]), "a[b c] d");
    assert_eq!(nest(&[0, 1, 2, 1, 2, 0, 1]), "a[b[c] d[e]] f[g]");
}

#[test]
fn depth_jump_attaches_to_nearest_shallower() {
    assert_eq!(nest(&[0, 2]), "a[b]");
    assert_eq!(nest(&[0, 3, 1]), "a[b c]");
    assert_eq!(nest(&[0, 2, 1, 3]), "a[b c[d]]");
    assert_eq!(nest(&[0, 1, 0, 2]), "a[b] c[d]");
}

#[test]
fn first_lines_need_not_start_at_depth_zero() {
    assert_eq!(nest(&[2, 1, 0]), "a b c");
    assert_eq!(nest(&[2, 3, 1, 2]), "a[b] c[d]");
    assert_eq!(nest(&[1, 1]), "a b");
}

#[test]
fn elements_keep_their_content() {
    let mut first = leaf("p", 0);
    first.text = "one".to_string();
    let mut second = leaf("span", 1);
    second.id = Some("x".to_string());
    let forest = nest_elements(vec![first.clone(), second.clone()]);
    assert_eq!(forest.len(), 1);
    assert_eq!(forest[0].element, first);
    assert_eq!(forest[0].children.len(), 1);
    assert_eq!(forest[0].children[0].element, second);
    assert!(forest[0].children[0].children.is_empty());
}
