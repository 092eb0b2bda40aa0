use rustruct::node::Node;
use rustruct::value::{Value, ValueTypeId};

#[test]
fn create_node() {
    let node = Node::new("test");
    assert!(node.name() == "test");
}

#[test]
fn create_node_with_static_attributes() {
    let mut node = Node::new("test");
    node.add_attribute("attribute", Value::U32(0x1000), Some("test attribute"));
    node.add_attributes(vec![
        (
            "attribute2",
            Value::from(String::from("something")),
            Some("Intersting string"),
        ),
        (
            "attribute3",
            Value::Sequence(vec![Value::U32(0), Value::from(String::from("test"))]),
            None,
        ),
    ]);
    assert!(node.value().count() == 3);
    let attributes = node.value();
    let attribute = attributes.get_attribute("attribute").unwrap();
    assert!(attribute.name() == "attribute");
    assert!(node.value().get_value("attribute").unwrap().as_u32() == 0x1000);
    assert!(attribute.description() == Some("test attribute"));
    assert!(node.value().get_type_id("attribute").unwrap() as u32 == ValueTypeId::U32 as u32);
    assert!(node.value().get_value("attribute2").unwrap().as_string() == "something");
    let vec = node.value().get_value("attribute3").unwrap().as_vec();
    assert!(vec.len() == 2);
    assert!(vec[0].as_u32() == 0);
    assert!(vec[1].as_string() == "test");
}
