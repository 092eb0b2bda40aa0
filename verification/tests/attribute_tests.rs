use rustruct::attribute::{Attribute, Attributes};
use rustruct::value::{Value, ValueTypeId};

#[test]
fn create_attribute() {
    let attribute = Attribute::new("attribute", Value::U32(0x1000), Some("test attribute"));
    assert!(attribute.name() == "attribute");
    assert!(attribute.value().as_u32() == 0x1000);
    assert!(attribute.description() == Some("test attribute"));
    assert!(attribute.type_id() as u32 == ValueTypeId::U32 as u32);
    assert!(attribute.display_string() == "\"attribute\" : 4096");
}

#[test]
fn create_attributes() {
    let mut attributes = Attributes::new();
    attributes.add_attribute("attribute", Value::U32(0x1000), Some("test attribute"));
    attributes.add_attributes(vec![
        (
            "attribute2",
            Value::String(String::from("something")),
            Some("Intersting string"),
        ),
        (
            "attribute3",
            Value::Sequence(vec![Value::U32(0), Value::from(String::from("test"))]),
            None,
        ),
    ]);
    assert!(attributes.count() == 3);
    let attribute = attributes.get_attribute("attribute").unwrap();
    assert!(attribute.name() == "attribute");
    assert!(attribute.value().as_u32() == 0x1000);
    assert!(attribute.description() == Some("test attribute"));
    assert!(attribute.type_id() as u32 == ValueTypeId::U32 as u32);
    assert!(attribute.display_string() == "\"attribute\" : 4096");
    assert!(attributes.get_value("attribute2").unwrap().as_string() == "something");
    let vec = attributes.get_value("attribute3").unwrap().as_vec();
    assert!(vec.len() == 2);
    assert!(vec[0].as_u32() == 0);
    assert!(vec[1].as_string() == "test");
}

#[test]
fn remove_attribute_by_name() {
    let mut attributes = Attributes::new();
    attributes.add_attribute("first", Value::U8(1), None);
    attributes.add_attribute("second", Value::U8(2), None);
    assert!(attributes.remove_attribute("first"));
    assert!(!attributes.remove_attribute("first"));
    assert!(attributes.count() == 1);
    assert!(attributes.get_value("second").unwrap().as_u8() == 2);
}

#[test]
fn duplicate_names_first_match_wins() {
    let mut attributes = Attributes::new();
    attributes.add_attribute("name", Value::U8(1), None);
    attributes.add_attribute("name", Value::U8(2), None);
    assert!(attributes.count() == 2);
    assert!(attributes.get_value("name").unwrap().as_u8() == 1);
}

#[test]
fn value_tags_and_fallible_accessors() {
    let value = Value::U64(7);
    assert!(value.type_id() == ValueTypeId::U64);
    assert!(value.try_as_u64() == Some(7));
    assert!(value.try_as_u32().is_none());
    assert!(value.try_as_string().is_none());
    let text = Value::from("borrowed");
    assert!(text.type_id() == ValueTypeId::Str);
    assert!(text.as_string() == "borrowed");
    let owned = Value::from(String::from("owned"));
    assert!(owned.type_id() == ValueTypeId::String);
    assert!(owned.as_string() == "owned");
    assert!(Value::from(true).as_bool());
    assert!(Value::from(-5i32).as_i32() == -5);
    assert!(Value::from('x').as_char() == 'x');
}

#[test]
fn value_debug_rendering() {
    assert!(rustruct::attribute::value_debug_string(&Value::Bool(true)) == "true");
    assert!(rustruct::attribute::value_debug_string(&Value::I8(-3)) == "-3");
    assert!(rustruct::attribute::value_debug_string(&Value::Char('a')) == "'a'");
    assert!(
        rustruct::attribute::value_debug_string(&Value::String(String::from("hi"))) == "\"hi\""
    );
    assert!(rustruct::attribute::value_debug_string(&Value::Unit) == "()");
    assert!(rustruct::attribute::value_debug_string(&Value::Option(None)) == "None");
    assert!(
        rustruct::attribute::value_debug_string(&Value::Option(Some(Box::new(Value::U8(9)))))
            == "Some(9)"
    );
    assert!(
        rustruct::attribute::value_debug_string(&Value::Sequence(vec![
            Value::U8(1),
            Value::U8(2),
        ])) == "[1, 2]"
    );
    assert!(rustruct::attribute::value_debug_string(&Value::Bytes(vec![3, 4])) == "[3, 4]");
}
