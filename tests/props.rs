use json_props::config::{Config, EntrySeparator, ListHandling};
use json_props::json::JsonValue;
use json_props::prop_key::PropKey;
use json_props::props::{Properties, PropertyConstructionError};

fn text(s: &str) -> JsonValue {
    JsonValue::String(String::from(s))
}

fn num(s: &str) -> JsonValue {
    JsonValue::Number(String::from(s))
}

fn obj(members: Vec<(&str, JsonValue)>) -> JsonValue {
    JsonValue::Object(members.into_iter().map(|(k, v)| (String::from(k), v)).collect())
}

fn config_with(list_handling: ListHandling, separator: EntrySeparator, discard_wsp: bool) -> Config {
    Config::new(String::new(), None, false, list_handling, separator, discard_wsp)
}

fn assert_key_has_value(prop: &Properties, key: &str, expected: &str) {
    let k = PropKey::new(key);
    let actual = prop.get(&k).unwrap_or_else(|| panic!("key {key} is present"));
    assert_eq!(actual, expected);
}

#[test]
fn foo_1() {
    let config = Config::empty();
    let value = obj(vec![
        ("a", text("a value")),
        ("b", text("b value")),
        ("c", JsonValue::Bool(false)),
    ]);
    let prop = Properties::create(value, &config).expect("JSON is parsed");
    assert_key_has_value(&prop, "a", "a value");
    assert_key_has_value(&prop, "b", "b value");
    assert_key_has_value(&prop, "c", "false");
}

#[test]
fn foo_2() {
    let config = Config::empty();
    let value = obj(vec![
        ("a", text("a value")),
        ("b", obj(vec![("foo", num("123")), ("bar", text("bar val")), ("baz", JsonValue::Bool(false))])),
        ("c", obj(vec![("foo", num("999"))])),
    ]);
    let prop = Properties::create(value, &config).expect("JSON is parsed");
    assert_eq!(prop.len(), 5);
    assert_key_has_value(&prop, "a", "a value");
    assert_key_has_value(&prop, "b.foo", "123");
    assert_key_has_value(&prop, "b.bar", "bar val");
    assert_key_has_value(&prop, "b.baz", "false");
    assert_key_has_value(&prop, "c.foo", "999");
}

#[test]
fn creating_prop_key_with_a_simple_string_leaves_the_string_unchanged() {
    let k = PropKey::new("foo");
    assert_eq!(k.as_str(), "foo");
}

#[test]
fn creating_prop_key_with_colon_has_the_colon_escaped() {
    let k = PropKey::new("fo:o");
    assert_eq!(k.as_str(), "fo\\:o");
}

#[test]
fn creating_prop_key_with_leading_number_sign_escapes_the_first_character() {
    let k = PropKey::new("#foo");
    assert_eq!(k.as_str(), "\\#foo");
}

#[test]
fn creating_prop_key_with_leading_wsp_and_number_sign_escapes_the_wsp_only() {
    let k = PropKey::new("  #foo");
    assert_eq!(k.as_str(), "\\ \\ #foo");
}

#[test]
fn prop_key_escapes_equals_and_space_but_not_dots_or_inner_number_signs() {
    assert_eq!(PropKey::new("a=b c.d#e").as_str(), "a\\=b\\ c.d#e");
    assert_eq!(PropKey::new("").as_str(), "");
    assert_eq!(PropKey::new("#").as_str(), "\\#");
}

#[test]
fn end_to_end_text_is_in_ascending_key_order() {
    let config = config_with(ListHandling::MultiProp, EntrySeparator::Equals, false);
    let value = obj(vec![
        ("a", text("a value")),
        ("b", obj(vec![("foo", num("123")), ("bar", text("bar val")), ("baz", JsonValue::Bool(false))])),
        ("c", obj(vec![("foo", num("999"))])),
    ]);
    let prop = Properties::create(value, &config).expect("JSON is parsed");
    assert_eq!(
        prop.to_text(&config),
        "a=a value\nb.bar=bar val\nb.baz=false\nb.foo=123\nc.foo=999\n"
    );
}

#[test]
fn separators_colon_and_space() {
    let colon = config_with(ListHandling::MultiProp, EntrySeparator::Colon, false);
    let space = config_with(ListHandling::MultiProp, EntrySeparator::Space, false);
    let prop = Properties::create(obj(vec![("k", text("v")), ("j", num("1"))]), &colon).unwrap();
    assert_eq!(prop.to_text(&colon), "j:1\nk:v\n");
    assert_eq!(prop.to_text(&space), "j 1\nk v\n");
}

#[test]
fn single_prop_joins_scalars_with_commas() {
    let config = config_with(ListHandling::SingleProp, EntrySeparator::Equals, false);
    let value = obj(vec![(
        "x",
        JsonValue::Array(vec![num("1"), text("a"), JsonValue::Bool(true)]),
    )]);
    let prop = Properties::create(value, &config).unwrap();
    assert_eq!(prop.len(), 1);
    assert_key_has_value(&prop, "x", "1,a,true");
}

#[test]
fn single_prop_renders_null_elements_as_null() {
    let config = config_with(ListHandling::SingleProp, EntrySeparator::Equals, false);
    let value = obj(vec![("x", JsonValue::Array(vec![JsonValue::Null, num("2")]))]);
    let prop = Properties::create(value, &config).unwrap();
    assert_key_has_value(&prop, "x", "null,2");
}

#[test]
fn single_prop_drops_arrays_holding_objects() {
    let config = config_with(ListHandling::SingleProp, EntrySeparator::Equals, false);
    let value = obj(vec![
        ("x", JsonValue::Array(vec![num("1"), obj(vec![("y", num("2"))])])),
        ("z", num("3")),
    ]);
    let prop = Properties::create(value, &config).unwrap();
    assert_eq!(prop.len(), 1);
    assert!(prop.get(&PropKey::new("x")).is_none());
    assert!(prop.get(&PropKey::new("x.1.y")).is_none());
    assert_key_has_value(&prop, "z", "3");
}

#[test]
fn single_prop_normalises_the_joined_value() {
    let keep = config_with(ListHandling::SingleProp, EntrySeparator::Equals, false);
    let drop = config_with(ListHandling::SingleProp, EntrySeparator::Equals, true);
    let value = || obj(vec![("x", JsonValue::Array(vec![text(" a"), text("b")]))]);
    assert_key_has_value(&Properties::create(value(), &keep).unwrap(), "x", "\\ a,b");
    assert_key_has_value(&Properties::create(value(), &drop).unwrap(), "x", "a,b");
}

#[test]
fn single_prop_empty_array_gives_empty_value() {
    let config = config_with(ListHandling::SingleProp, EntrySeparator::Equals, false);
    let prop = Properties::create(obj(vec![("x", JsonValue::Array(vec![]))]), &config).unwrap();
    assert_key_has_value(&prop, "x", "");
}

#[test]
fn multi_prop_gives_one_entry_per_element() {
    let config = config_with(ListHandling::MultiProp, EntrySeparator::Equals, false);
    let value = obj(vec![("x", JsonValue::Array(vec![num("1"), num("2")]))]);
    let prop = Properties::create(value, &config).unwrap();
    assert_eq!(prop.len(), 2);
    assert_key_has_value(&prop, "x.0", "1");
    assert_key_has_value(&prop, "x.1", "2");
}

#[test]
fn multi_prop_nests_into_objects_and_uses_decimal_indices() {
    let config = config_with(ListHandling::MultiProp, EntrySeparator::Equals, false);
    let elements: Vec<JsonValue> = (0..12).map(|i| num(&i.to_string())).collect();
    let value = obj(vec![
        ("x", JsonValue::Array(vec![obj(vec![("y", num("2"))]), JsonValue::Array(vec![text("z")])])),
        ("w", JsonValue::Array(elements)),
    ]);
    let prop = Properties::create(value, &config).unwrap();
    assert_key_has_value(&prop, "x.0.y", "2");
    assert_key_has_value(&prop, "x.1.0", "z");
    assert_key_has_value(&prop, "w.10", "10");
    assert_key_has_value(&prop, "w.11", "11");
    assert_eq!(prop.len(), 14);
}

#[test]
fn null_leaf_gives_empty_value() {
    let prop = Properties::create(obj(vec![("n", JsonValue::Null)]), &Config::empty()).unwrap();
    assert_key_has_value(&prop, "n", "");
}

#[test]
fn leading_whitespace_of_values_is_escaped_or_dropped() {
    let keep = config_with(ListHandling::MultiProp, EntrySeparator::Equals, false);
    let drop = config_with(ListHandling::MultiProp, EntrySeparator::Equals, true);
    let value = || obj(vec![("k", text("  bar")), ("t", text("bar  ")), ("u", text("bar"))]);
    let kept = Properties::create(value(), &keep).unwrap();
    assert_key_has_value(&kept, "k", "\\  bar");
    assert_key_has_value(&kept, "t", "bar  ");
    assert_key_has_value(&kept, "u", "bar");
    let dropped = Properties::create(value(), &drop).unwrap();
    assert_key_has_value(&dropped, "k", "bar");
    assert_key_has_value(&dropped, "t", "bar  ");
    assert_key_has_value(&dropped, "u", "bar");
}

#[test]
fn numbers_and_booleans_are_not_normalised() {
    let prop = Properties::create(obj(vec![("n", num("-1.5e3")), ("b", JsonValue::Bool(true))]), &Config::empty())
        .unwrap();
    assert_key_has_value(&prop, "n", "-1.5e3");
    assert_key_has_value(&prop, "b", "true");
}

#[test]
fn keys_are_escaped_in_the_store() {
    let prop = Properties::create(
        obj(vec![("fo:o", num("1")), ("#foo", num("2")), ("  #foo", num("3")), ("a b", obj(vec![("c=d", num("4"))]))]),
        &Config::empty(),
    )
    .unwrap();
    assert_eq!(
        prop.to_text(&Config::empty()),
        "\\ \\ #foo=3\n\\#foo=2\na\\ b.c\\=d=4\nfo\\:o=1\n"
    );
}

#[test]
fn colliding_keys_keep_the_later_value() {
    let prop = Properties::create(obj(vec![("#a", num("1")), ("\\#a", num("2"))]), &Config::empty()).unwrap();
    assert_eq!(prop.len(), 1);
    assert_eq!(prop.to_text(&Config::empty()), "\\#a=2\n");
}

#[test]
fn dotted_member_name_collides_with_nesting() {
    let prop = Properties::create(
        obj(vec![("a.b", num("1")), ("a", obj(vec![("b", num("2"))]))]),
        &Config::empty(),
    )
    .unwrap();
    assert_eq!(prop.len(), 1);
    assert_key_has_value(&prop, "a.b", "2");
}

#[test]
fn top_level_scalars_are_refused() {
    for value in [JsonValue::Bool(true), num("1"), text("s")] {
        match Properties::create(value, &Config::empty()) {
            Err(PropertyConstructionError::TopLevelPrimitiveError(_)) => {}
            other => panic!("unexpected result {:?}", other.map(|p| p.len())),
        }
    }
}

#[test]
fn top_level_primitive_error_carries_the_value() {
    match Properties::create(JsonValue::Bool(true), &Config::empty()) {
        Err(PropertyConstructionError::TopLevelPrimitiveError(JsonValue::Bool(b))) => assert!(b),
        _ => panic!("expected the document back"),
    }
}

#[test]
fn top_level_array_is_refused() {
    match Properties::create(JsonValue::Array(vec![obj(vec![])]), &Config::empty()) {
        Err(PropertyConstructionError::TopLevelArrayError(JsonValue::Array(v))) => assert_eq!(v.len(), 1),
        _ => panic!("expected a top-level array error"),
    }
}

#[test]
fn top_level_null_gives_empty_store() {
    let prop = Properties::create(JsonValue::Null, &Config::empty()).unwrap();
    assert_eq!(prop.len(), 0);
    assert_eq!(prop.to_text(&Config::empty()), "");
}

#[test]
fn empty_object_gives_empty_store() {
    let prop = Properties::create(obj(vec![]), &Config::empty()).unwrap();
    assert_eq!(prop.len(), 0);
}

#[test]
fn scalar_members_give_one_entry_each() {
    let value = || obj(vec![("z", num("1")), ("y", text("two")), ("x", JsonValue::Null), ("w", JsonValue::Bool(false))]);
    let prop = Properties::create(value(), &Config::empty()).unwrap();
    assert_eq!(prop.len(), 4);
    assert_eq!(prop.to_text(&Config::empty()), "w=false\nx=\ny=two\nz=1\n");
}

#[test]
fn converting_twice_gives_identical_text() {
    let value = || obj(vec![("k:1", text(" v")), ("a", JsonValue::Array(vec![num("1"), num("2")]))]);
    let first = Properties::create(value(), &Config::empty()).unwrap();
    let second = Properties::create(value(), &Config::empty()).unwrap();
    assert_eq!(first.to_text(&Config::empty()), second.to_text(&Config::empty()));
    assert_eq!(first.to_text(&Config::empty()), "a.0=1\na.1=2\nk\\:1=\\ v\n");
}

#[test]
fn store_insert_replaces_and_orders() {
    let mut prop = Properties::empty();
    prop.insert(PropKey::new("b"), String::from("1"));
    prop.insert(PropKey::new("a"), String::from("2"));
    prop.insert(PropKey::new("ab"), String::from("3"));
    prop.insert(PropKey::new("b"), String::from("4"));
    assert_eq!(prop.len(), 3);
    assert_eq!(prop.to_text(&Config::empty()), "a=2\nab=3\nb=4\n");
}

#[test]
fn keys_order_by_code_point() {
    let prop = Properties::create(
        obj(vec![("é", num("1")), ("z", num("2")), ("Z", num("3")), ("", num("4"))]),
        &Config::empty(),
    )
    .unwrap();
    assert_eq!(prop.to_text(&Config::empty()), "=4\nZ=3\nz=2\né=1\n");
}

#[test]
fn prop_keys_compare_by_escaped_text() {
    assert!(PropKey::new("a b") == PropKey::new("a b"));
    assert!(PropKey::new("#a") == PropKey::new("\\#a"));
    assert!(PropKey::new("a") != PropKey::new("b"));
    assert!(PropKey::new("a") < PropKey::new("a.b"));
    assert!(PropKey::new("b") > PropKey::new("a.b"));
    assert_eq!(PropKey::new("x").compare(&PropKey::new("x")), std::cmp::Ordering::Equal);
}
