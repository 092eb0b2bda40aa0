use rustruct::datetime::WindowsTimestamp;
use rustruct::dummy::{Arguments, Dummy};
use rustruct::tree::Tree;

fn arguments_for(tree: &Tree) -> Arguments {
    Arguments {
        file_name: String::from("/home/user/test.txt"),
        offset: 0,
        parent: Some(tree.root_id),
    }
}

#[test]
fn dummy_plugin_test_run() {
    let mut tree = Tree::new();
    let mut dummy = Dummy::default();

    match dummy.run(arguments_for(&tree), &mut tree) {
        Ok(res) => match res.count {
            1 => assert!(true),
            _ => assert!(false),
        },
        Err(_err) => assert!(false),
    }
}

// launching a second run on the same mount point creates nodes of the same
// name there, which the tree rejects
#[test]
fn dummy_plugin_test_instances() {
    let mut tree = Tree::new();
    let mut dummy = Dummy::default();

    match dummy.run(arguments_for(&tree), &mut tree) {
        Ok(res) => match res.count {
            1 => assert!(true),
            _ => assert!(false),
        },
        Err(_err) => assert!(false),
    }

    match dummy.run(arguments_for(&tree), &mut tree) {
        Ok(res) => match res.count {
            2 => assert!(true),
            _ => assert!(false),
        },
        Err(_err) => assert!(true),
    }

    let mut dummy_new = Dummy::default();
    match dummy_new.run(arguments_for(&tree), &mut tree) {
        Ok(res) => match res.count {
            1 => assert!(true),
            _ => assert!(false),
        },
        Err(_err) => assert!(true),
    }
}

#[test]
fn dummy_plants_static_nodes() {
    let mut tree = Tree::new();
    let mut dummy = Dummy::default();
    dummy.run(arguments_for(&tree), &mut tree).unwrap();

    let dummy_node = tree.get_node("/root/Dummy").unwrap();
    assert!(dummy_node.value().get_value("offset").unwrap().as_u64() == 0x1000);

    let static_node = tree.get_node("/root/Dummy/DummyStatic").unwrap();
    let attributes = static_node.value();
    assert!(attributes.get_value("a").unwrap().as_u8() == 255);
    assert!(attributes.get_value("b").unwrap().as_u64() == 0x1000);
    assert!(attributes.get_value("c").unwrap().as_string() == "dummy");

    let path = rustruct::tree::AttributePath::new(&tree, "/root/Dummy/DummyStatic:b").unwrap();
    assert!(path.get_node(&tree).unwrap().name() == "DummyStatic");
    assert!(path.get_value(&tree).unwrap().as_u64() == 0x1000);
}

#[test]
fn dummy_without_parent_is_rejected() {
    let mut tree = Tree::new();
    let mut dummy = Dummy::default();
    let arguments = Arguments {
        file_name: String::from("/home/user/test.txt"),
        offset: 0,
        parent: None,
    };
    let result = dummy.run(arguments, &mut tree);
    assert!(matches!(
        result,
        Err(rustruct::error::RustructError::ArgumentNotFound("parent"))
    ));
    // the run still counted
    let again = dummy.run(arguments_for(&tree), &mut tree).unwrap();
    assert!(again.count == 2);
}

#[test]
fn windows_timestamp_to_unix_seconds() {
    assert!(WindowsTimestamp(0).to_unix_seconds().is_err());
    assert!(WindowsTimestamp(1).to_unix_seconds().is_err());
    assert!(WindowsTimestamp(116444736000000000).to_unix_seconds().unwrap() == 0);
    // 2020-01-01T00:00:00Z
    let secs = WindowsTimestamp(132223104000000000).to_unix_seconds().unwrap();
    assert!(secs == 1577836800);
    let rendered = chrono::DateTime::from_timestamp(secs, 0).unwrap().to_rfc3339();
    assert!(rendered == "2020-01-01T00:00:00+00:00");
}
