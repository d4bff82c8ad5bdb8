use std::collections::HashMap;

use desktop_mcp::a11y::{
    add_tree, process_key, A11yChild, A11yNode, NodeFacts, Walk, WalkRequest, MAX_DEPTH, MAX_NODES,
};
use desktop_mcp::comp::Rect;

struct Object {
    name: String,
    /// None if listing fails; a child is None if it cannot be opened.
    children: Option<Vec<Option<Object>>>,
}

fn object(name: &str, children: Vec<Object>) -> Object {
    Object { name: name.to_string(), children: Some(children.into_iter().map(Some).collect()) }
}

fn facts(o: &Object) -> NodeFacts {
    NodeFacts {
        role: "panel".to_string(),
        name: o.name.clone(),
        description: None,
        extents: None,
        states: vec![],
    }
}

/// Answers the requests of a walk from the objects below a window.
fn walk(root: &Object) -> A11yNode {
    let mut walk = Walk::new();
    let mut path: Vec<&Object> = vec![];
    let mut current = root;
    loop {
        match walk.request {
            WalkRequest::Describe => {
                path.truncate(walk.open.len());
                path.push(current);
                walk.described(facts(current));
            }
            WalkRequest::ListChildren => {
                walk.listed(current.children.as_ref().map(|c| c.len()));
            }
            WalkRequest::OpenChild { index } => {
                let parent = path[walk.open.len() - 1];
                match &parent.children.as_ref().unwrap()[index] {
                    Some(child) => {
                        current = child;
                        walk.opened(true);
                    }
                    None => walk.opened(false),
                }
            }
            WalkRequest::Finished => return walk.into_tree(),
        }
    }
}

fn show(node: &A11yNode) -> String {
    let mut out = node.name.clone().unwrap_or_default();
    if !node.children.is_empty() {
        out.push('(');
        for child in &node.children {
            match child {
                A11yChild::Node(n) => out.push_str(&show(n)),
                A11yChild::Truncated => out.push('…'),
            }
        }
        out.push(')');
    }
    out
}

fn count(node: &A11yNode) -> usize {
    1 + node
        .children
        .iter()
        .map(|c| match c {
            A11yChild::Node(n) => count(n),
            A11yChild::Truncated => 0,
        })
        .sum::<usize>()
}

fn height(node: &A11yNode) -> usize {
    node.children
        .iter()
        .map(|c| match c {
            A11yChild::Node(n) => 1 + height(n),
            A11yChild::Truncated => 0,
        })
        .max()
        .unwrap_or(0)
}

#[test]
fn trees_are_reported_depth_first() {
    let root = object(
        "a",
        vec![
            object("b", vec![object("c", vec![]), object("d", vec![])]),
            object("e", vec![]),
            object("f", vec![object("g", vec![])]),
        ],
    );
    assert_eq!(show(&walk(&root)), "a(b(cd)ef(g))");
}

#[test]
fn objects_that_do_not_answer_are_left_out() {
    let mut root = object("a", vec![object("b", vec![]), object("c", vec![])]);
    root.children.as_mut().unwrap().insert(1, None);
    root.children.as_mut().unwrap().push(None);
    assert_eq!(show(&walk(&root)), "a(bc)");
    let silent = Object { name: "a".to_string(), children: None };
    assert_eq!(show(&walk(&silent)), "a");
}

#[test]
fn wide_trees_are_truncated() {
    let root = object("a", (0..400).map(|_| object("x", vec![])).collect());
    let tree = walk(&root);
    assert_eq!(count(&tree), MAX_NODES);
    assert_eq!(tree.children.len(), MAX_NODES);
    assert!(matches!(tree.children.last(), Some(A11yChild::Truncated)));
    let fitting = object("a", (0..249).map(|_| object("x", vec![])).collect());
    let tree = walk(&fitting);
    assert_eq!(count(&tree), MAX_NODES);
    assert!(matches!(tree.children.last(), Some(A11yChild::Node(_))));
}

#[test]
fn deep_trees_are_cut_off() {
    let mut chain = object("z", vec![]);
    for _ in 0..30 {
        chain = object("y", vec![chain]);
    }
    let tree = walk(&chain);
    assert_eq!(height(&tree), MAX_DEPTH);
    assert_eq!(count(&tree), MAX_DEPTH + 1);
}

#[test]
fn only_what_says_something_is_reported() {
    let mut walk = Walk::new();
    walk.described(NodeFacts {
        role: "button".to_string(),
        name: String::new(),
        description: Some(String::new()),
        extents: Some(Rect { x: 1, y: 2, width: 0, height: 5 }),
        states: vec!["Visible".to_string(), "Focused".to_string(), "Showing".to_string()],
    });
    walk.listed(None);
    let node = walk.into_tree();
    assert_eq!(node.role, "button");
    assert_eq!(node.name, None);
    assert_eq!(node.description, None);
    assert_eq!(node.bounds, None);
    assert_eq!(node.states, vec!["Focused", "Showing"]);
    let mut walk = Walk::new();
    let area = Rect { x: -1, y: 2, width: 3, height: 5 };
    walk.described(NodeFacts {
        role: "button".to_string(),
        name: "OK".to_string(),
        description: Some("Confirms".to_string()),
        extents: Some(area),
        states: vec!["Sensitive".to_string(), "Editable".to_string(), "Checked".to_string()],
    });
    walk.listed(Some(0));
    let node = walk.into_tree();
    assert_eq!(node.name.as_deref(), Some("OK"));
    assert_eq!(node.description.as_deref(), Some("Confirms"));
    assert_eq!(node.bounds, Some(area));
    assert_eq!(node.states.len(), 3);
}

#[test]
fn trees_are_collected_per_process() {
    let mut trees = HashMap::new();
    let node = || walk(&object("w", vec![]));
    add_tree(&mut trees, 5, node());
    add_tree(&mut trees, 6, node());
    add_tree(&mut trees, 5, node());
    assert_eq!(trees[&5].len(), 2);
    assert_eq!(trees[&6].len(), 1);
    assert_eq!(process_key(Some(17)), 17);
    assert_eq!(process_key(None), 0);
}
