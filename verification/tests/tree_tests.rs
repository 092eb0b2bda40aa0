use rustruct::node::Node;
use rustruct::tree::{AttributePath, Tree};
use rustruct::value::Value;

#[test]
fn create_tree_and_get_root() {
    let tree = Tree::new();
    assert!(tree.node_path(tree.root_id).unwrap() == "/root");
}

#[test]
fn create_tree_with_node() {
    let mut tree = Tree::new();
    let root_id = tree.root_id;

    let test_node_id_1 = tree.add_child(root_id, Node::new("test1")).unwrap();
    let test_node_id_2 = tree.add_child(root_id, Node::new("test2")).unwrap();
    let test_node_id_3 = tree.add_child(root_id, Node::new("test3")).unwrap();

    let child_node_id_1 = tree.add_child(test_node_id_1, Node::new("child1")).unwrap();
    tree.add_child(test_node_id_2, Node::new("child2")).unwrap();
    tree.add_child(test_node_id_3, Node::new("child3")).unwrap();

    let _sub_child_node_id_1 = tree.add_child(child_node_id_1, Node::new("subchild1")).unwrap();
    let _sub_child_node_id_2 = tree.add_child(child_node_id_1, Node::new("subchild2")).unwrap();
    let _sub_child_node_id_3 = tree.add_child(child_node_id_1, Node::new("subchild3")).unwrap();

    println!("{}", tree.node_path(_sub_child_node_id_1).unwrap());
}

#[test]
fn get_value_from_attribute_path() {
    let mut tree = Tree::new();

    let test_node_id = tree.add_child(tree.root_id, Node::new("test1")).unwrap();

    let mut child_node = Node::new("child1");
    child_node.add_attribute("attribute", Value::U32(0x1000), Some("test attribute"));

    let child_node_id = tree.add_child(test_node_id, child_node).unwrap();

    let attribute_path = AttributePath {
        node_id: child_node_id,
        attribute_name: String::from("attribute"),
    };
    assert!(attribute_path.get_node(&tree).unwrap().name() == "child1");
    assert!(attribute_path.get_value(&tree).unwrap().as_u32() == 0x1000);
}

#[test]
fn path_resolution_cases() {
    let mut tree = Tree::new();
    let a = tree.add_child(tree.root_id, Node::new("a")).unwrap();
    let _b = tree.add_child(tree.root_id, Node::new("b")).unwrap();
    let c = tree.add_child(a, Node::new("c")).unwrap();

    assert!(tree.get_node_id("/root/a/c") == Some(c));
    assert!(tree.get_node_id("/root/a/x").is_none());
    assert!(tree.get_node_id("/root") == Some(tree.root_id));
    assert!(tree.get_node_id("/root/") == Some(tree.root_id));
    assert!(tree.get_node_id("/root/a/c") == tree.get_node_id("/root/a/c/"));
    assert!(tree.get_node_id("/wrong").is_none());
    assert!(tree.get_node_id("").is_none());
    assert!(tree.get_node_id("/").is_none());
}

#[test]
fn add_then_lookup_then_remove() {
    let mut tree = Tree::new();
    let parent = tree.add_child(tree.root_id, Node::new("parent")).unwrap();
    let sibling = tree.add_child(parent, Node::new("sibling")).unwrap();
    let child = tree.add_child(parent, Node::new("leaf")).unwrap();

    let path = tree.node_path(parent).unwrap() + "/leaf";
    assert!(path == "/root/parent/leaf");
    let found = tree.get_node(path.as_str()).unwrap();
    assert!(found.name() == "leaf");
    assert!(tree.get_node_id(path.as_str()) == Some(child));

    tree.remove(child);
    assert!(tree.get_node(path.as_str()).is_none());
    assert!(tree.get_node_from_id(child).is_none());
    assert!(tree.get_node_from_id(sibling).unwrap().name() == "sibling");
    assert!(tree.node_path(child).is_none());
    assert!(tree.count() == 4);
}

#[test]
fn duplicate_child_name_is_rejected() {
    let mut tree = Tree::new();
    tree.add_child(tree.root_id, Node::new("once")).unwrap();
    let second = tree.add_child(tree.root_id, Node::new("once"));
    assert!(second.is_err());
    // after removing the first, the name is free again
    let first = tree.get_node_id("/root/once").unwrap();
    tree.remove(first);
    assert!(tree.add_child(tree.root_id, Node::new("once")).is_ok());
}

#[test]
fn stale_parent_is_rejected() {
    let mut tree = Tree::new();
    let gone = tree.add_child(tree.root_id, Node::new("gone")).unwrap();
    tree.remove(gone);
    assert!(tree.add_child(gone, Node::new("orphan")).is_err());
}

#[test]
fn children_and_descendants() {
    let mut tree = Tree::new();
    let a = tree.add_child(tree.root_id, Node::new("a")).unwrap();
    let b = tree.add_child(tree.root_id, Node::new("b")).unwrap();
    let c = tree.add_child(a, Node::new("c")).unwrap();

    let ids = tree.children_id(tree.root_id);
    assert!(ids == vec![a, b]);
    let names = tree.children_name(tree.root_id);
    assert!(names == vec![String::from("a"), String::from("b")]);
    assert!(tree.has_children(a));
    assert!(!tree.has_children(b));
    assert!(tree.parent_id(c) == Some(a));
    assert!(tree.parent_id(tree.root_id).is_none());

    let all = tree.children_rec(None).unwrap();
    assert!(all == vec![tree.root_id, a, b, c]);
    let under_a = tree.children_rec(Some("/root/a")).unwrap();
    assert!(under_a == vec![a, c]);
    assert!(tree.children_rec(Some("/root/missing")).is_none());
}

#[test]
fn children_listing_is_sorted_case_insensitively() {
    let mut tree = Tree::new();
    let b = tree.add_child(tree.root_id, Node::new("Banana")).unwrap();
    let a = tree.add_child(tree.root_id, Node::new("apple")).unwrap();
    let c = tree.add_child(tree.root_id, Node::new("Cherry")).unwrap();
    tree.add_child(b, Node::new("inner")).unwrap();

    let infos = tree.children_id_name(tree.root_id);
    assert!(infos.len() == 3);
    assert!(infos[0].name == "apple");
    assert!(infos[0].id == a);
    assert!(!infos[0].has_children);
    assert!(infos[1].name == "Banana");
    assert!(infos[1].id == b);
    assert!(infos[1].has_children);
    assert!(infos[2].name == "Cherry");
    assert!(infos[2].id == c);
}

#[test]
fn attach_detached_node() {
    let mut tree = Tree::new();
    let parent = tree.add_child(tree.root_id, Node::new("parent")).unwrap();
    let loose = tree.new_node(Node::new("loose"));
    assert!(tree.get_node_id("/root/parent/loose").is_none());
    tree.add_child_from_id(parent, loose).unwrap();
    assert!(tree.get_node_id("/root/parent/loose") == Some(loose));
}

#[test]
fn find_node_from_inner_id() {
    let mut tree = Tree::new();
    let a = tree.add_child(tree.root_id, Node::new("a")).unwrap();
    let c = tree.add_child(a, Node::new("c")).unwrap();
    assert!(tree.find_node_from_id(a, "c") == Some(c));
    assert!(tree.find_node_from_id(a, "/c/") == Some(c));
    assert!(tree.find_node_from_id(a, "x").is_none());
}

#[test]
fn attribute_path_syntax() {
    let mut tree = Tree::new();
    let mut node = Node::new("holder");
    node.add_attribute("b", Value::U64(0x1000), None);
    tree.add_child(tree.root_id, node).unwrap();

    let path = AttributePath::new(&tree, "/root/holder:b").unwrap();
    assert!(path.attribute_name == "b");
    assert!(path.get_value(&tree).unwrap().as_u64() == 0x1000);
    assert!(AttributePath::new(&tree, "/root/holder").is_none());
    assert!(AttributePath::new(&tree, "/root/missing:b").is_none());
    assert!(AttributePath::new(&tree, "a:b:c").is_none());
}
