use sessionly::json::{Json, JsonMember};

fn member(key: &str, value: Json) -> JsonMember {
    JsonMember { key: key.to_string(), value }
}

fn text(value: &str) -> Json {
    Json::Str(value.to_string())
}

#[test]
fn get_returns_the_first_member_with_the_key() {
    let object = Json::Object(vec![
        member("a", text("1")),
        member("b", Json::Bool(true)),
        member("a", text("2")),
    ]);
    assert_eq!(object.get("a"), Some(&text("1")));
    assert_eq!(object.get("b"), Some(&Json::Bool(true)));
    assert_eq!(object.get("c"), None);
}

#[test]
fn get_on_anything_but_an_object_is_none() {
    assert_eq!(text("a").get("a"), None);
    assert_eq!(Json::Null.get("a"), None);
    assert_eq!(Json::Array(vec![text("a")]).get("a"), None);
    assert_eq!(Json::Number("1".to_string()).get("a"), None);
}

#[test]
fn typed_accessors_tell_the_shapes_apart() {
    assert_eq!(text("x").as_str(), Some(&"x".to_string()));
    assert_eq!(Json::Null.as_str(), None);
    assert_eq!(Json::Bool(false).as_bool(), Some(false));
    assert_eq!(text("true").as_bool(), None);
    assert_eq!(Json::Array(vec![Json::Null]).as_array(), Some(&vec![Json::Null]));
    assert_eq!(Json::Object(vec![]).as_array(), None);
}

#[test]
fn field_accessors_need_the_right_shape() {
    let object = Json::Object(vec![
        member("type", text("text")),
        member("is_error", Json::Bool(true)),
        member("count", Json::Number("3".to_string())),
        member("nothing", Json::Null),
    ]);
    assert_eq!(object.str_field("type"), Some(&"text".to_string()));
    assert_eq!(object.str_field("is_error"), None);
    assert_eq!(object.str_field("missing"), None);
    assert_eq!(object.bool_field("is_error"), Some(true));
    assert_eq!(object.bool_field("type"), None);
    assert_eq!(object.bool_field("nothing"), None);
}

#[test]
fn clone_copies_the_whole_tree() {
    let tree = Json::Object(vec![
        member("list", Json::Array(vec![text("a"), Json::Number("1.5".to_string()), Json::Null])),
        member("inner", Json::Object(vec![member("flag", Json::Bool(true))])),
    ]);
    let copy = tree.clone();
    assert_eq!(copy, tree);
}
