use wallctl::plist_tree::{from_bytes, to_binary_bytes, to_xml_bytes, PlistDict, PlistValue};
use wallctl::profile::{aerial_configuration_data, extract_aerial_asset_id};

fn sample() -> PlistValue {
    let mut inner = PlistDict::new();
    inner.insert("Hour".to_string(), PlistValue::Integer(6));
    inner.insert("Big".to_string(), PlistValue::UnsignedInteger(u64::MAX));
    inner.insert("On".to_string(), PlistValue::Boolean(true));
    inner.insert("Bytes".to_string(), PlistValue::Data(vec![1, 2, 3]));
    let mut root = PlistDict::new();
    root.insert("Label".to_string(), PlistValue::String("x".to_string()));
    root.insert("Items".to_string(), PlistValue::Array(vec![PlistValue::Dictionary(inner)]));
    PlistValue::Dictionary(root)
}

#[test]
fn binary_and_xml_encodings_read_back() {
    let value = sample();
    let binary = to_binary_bytes(&value).unwrap();
    assert!(binary.starts_with(b"bplist00"));
    assert_eq!(from_bytes(&binary).unwrap(), value);

    let xml = to_xml_bytes(&value).unwrap();
    let text = String::from_utf8(xml.clone()).unwrap();
    assert!(text.contains("<key>Label</key>"));
    assert_eq!(from_bytes(&xml).unwrap(), value);
}

#[test]
fn garbage_is_no_property_list() {
    assert_eq!(from_bytes(b"not a plist"), None);
}

#[test]
fn dictionary_insert_replaces_in_place_and_remove_drops() {
    let mut d = PlistDict::new();
    d.insert("a".to_string(), PlistValue::Integer(1));
    d.insert("b".to_string(), PlistValue::Integer(2));
    d.insert("a".to_string(), PlistValue::Integer(3));
    assert_eq!(d.len(), 2);
    assert_eq!(d.entries[0], ("a".to_string(), PlistValue::Integer(3)));
    assert_eq!(d.get("b"), Some(&PlistValue::Integer(2)));
    d.remove("a");
    assert_eq!(d.len(), 1);
    assert_eq!(d.get("a"), None);
}

#[test]
fn aerial_configuration_names_its_asset() {
    let data = aerial_configuration_data("ASSET-1").unwrap();
    assert!(data.starts_with(b"bplist00"));
    let decoded = from_bytes(&data).unwrap();
    assert_eq!(extract_aerial_asset_id(&decoded).as_deref(), Some("ASSET-1"));
}
