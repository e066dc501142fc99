use sqs_mock::helpers::{extract_from_extra, get_attrbutes_hashmap, parse_i32, ParamValues};

fn attr_prefixes() -> Vec<String> {
    vec!["Attribute".to_string()]
}

fn pair(k: &str, v: &str) -> (String, String) {
    (k.to_string(), v.to_string())
}

#[test]
fn test_populate_attributes() {
    let mut extra: Vec<(String, String)> = Vec::new();
    extra.push(pair("Attribute.1.Name", "DelaySeconds"));
    extra.push(pair("Attribute.1.Value", "10"));
    extra.push(pair("Attribute.2.Name", "MaximumMessageSize"));
    extra.push(pair("Attribute.2.Value", "262144"));

    let attrs = extract_from_extra(&attr_prefixes(), &extra);
    assert!(attrs.is_some());
    let attrs = attrs.unwrap();
    assert_eq!(attrs.len(), 2);
    assert_eq!(attrs[0].name, "DelaySeconds");
    assert_eq!(attrs[0].value, "10");
    assert_eq!(attrs[1].name, "MaximumMessageSize");
    assert_eq!(attrs[1].value, "262144");
}

#[test]
fn extract_orders_by_index_not_input_order() {
    let extra = vec![
        pair("Attribute.7.Name", "Seventh"),
        pair("Attribute.2.Name", "Second"),
        pair("Attribute.7.Value", "b"),
        pair("Attribute.2.Value", "a"),
    ];
    let attrs = extract_from_extra(&attr_prefixes(), &extra).unwrap();
    assert_eq!(attrs.len(), 2);
    assert_eq!(attrs[0].name, "Second");
    assert_eq!(attrs[0].value, "a");
    assert_eq!(attrs[1].name, "Seventh");
    assert_eq!(attrs[1].value, "b");
}

#[test]
fn extract_ignores_malformed_indices() {
    let extra = vec![
        pair("Attribute.0.Name", "Zero"),
        pair("Attribute.-1.Name", "Negative"),
        pair("Attribute.x.Name", "NotANumber"),
        pair("Attribute..Name", "NoDigits"),
        pair("Attribute.99999999999999999999.Name", "TooLarge"),
        pair("Attribute.1.Name", "Kept"),
    ];
    let attrs = extract_from_extra(&attr_prefixes(), &extra).unwrap();
    assert_eq!(attrs.len(), 1);
    assert_eq!(attrs[0].name, "Kept");
    assert_eq!(attrs[0].value, "");
}

#[test]
fn extract_discards_entries_without_a_name() {
    let extra = vec![
        pair("Attribute.1.Value", "orphan value"),
        pair("Attribute.2.Name", "Named"),
    ];
    let attrs = extract_from_extra(&attr_prefixes(), &extra).unwrap();
    assert_eq!(attrs.len(), 1);
    assert_eq!(attrs[0].name, "Named");
    assert_eq!(attrs[0].value, "");
}

#[test]
fn extract_prefix_is_case_insensitive_field_is_not() {
    let extra = vec![
        pair("ATTRIBUTE.1.Name", "UpperPrefix"),
        pair("attribute.1.Value", "v1"),
        pair("Attribute.2.name", "lower field is ignored"),
    ];
    let attrs = extract_from_extra(&attr_prefixes(), &extra).unwrap();
    assert_eq!(attrs.len(), 1);
    assert_eq!(attrs[0].name, "UpperPrefix");
    assert_eq!(attrs[0].value, "v1");
}

#[test]
fn extract_later_pair_wins_for_same_key() {
    let extra = vec![
        pair("Attribute.1.Name", "First"),
        pair("Attribute.1.Name", "Last"),
    ];
    let attrs = extract_from_extra(&attr_prefixes(), &extra).unwrap();
    assert_eq!(attrs.len(), 1);
    assert_eq!(attrs[0].name, "Last");
}

#[test]
fn extract_on_empty_input_is_empty() {
    let extra: Vec<(String, String)> = Vec::new();
    let attrs = extract_from_extra(&attr_prefixes(), &extra).unwrap();
    assert_eq!(attrs.len(), 0);
}

#[test]
fn attributes_hashmap_collapses_with_last_value_winning() {
    let attrs = vec![
        ParamValues { name: "A".to_string(), value: "1".to_string() },
        ParamValues { name: "B".to_string(), value: "2".to_string() },
        ParamValues { name: "A".to_string(), value: "3".to_string() },
    ];
    let map = get_attrbutes_hashmap(Some(attrs));
    assert_eq!(map.len(), 2);
    assert_eq!(map[0].0, "A");
    assert_eq!(map[0].1, "3");
    assert_eq!(map[1].0, "B");
    assert_eq!(map[1].1, "2");

    let empty = get_attrbutes_hashmap(None);
    assert_eq!(empty.len(), 0);
}

#[test]
fn parse_i32_accepts_signed_decimals_in_range() {
    assert_eq!(parse_i32("0"), Some(0));
    assert_eq!(parse_i32("1000"), Some(1000));
    assert_eq!(parse_i32("-5"), Some(-5));
    assert_eq!(parse_i32("+7"), Some(7));
    assert_eq!(parse_i32("2147483647"), Some(i32::MAX));
    assert_eq!(parse_i32("-2147483648"), Some(i32::MIN));
    assert_eq!(parse_i32("2147483648"), None);
    assert_eq!(parse_i32("-2147483649"), None);
    assert_eq!(parse_i32(""), None);
    assert_eq!(parse_i32("-"), None);
    assert_eq!(parse_i32("1x"), None);
    assert_eq!(parse_i32("99999999999999999999"), None);
}
