use open_proxy_ai::json::Json;

fn obj(fields: Vec<(&str, Json)>) -> Json {
    Json::Object(fields.into_iter().map(|(k, v)| (k.to_string(), v)).collect())
}

#[test]
fn assign_then_get_reads_back_and_keeps_other_fields() {
    let mut v = obj(vec![("a", Json::UInt(1)), ("b", Json::Text("x".into()))]);
    v.assign("a", Json::Bool(true));
    v.assign("c", Json::Int(-3));
    assert_eq!(v.get("a").unwrap().as_bool(), Some(true));
    assert_eq!(v.get("b").unwrap().as_str(), Some("x"));
    assert!(v.get("c").unwrap().as_u64().is_none());
    if let Json::Object(f) = &v {
        assert_eq!(f.len(), 3);
        assert_eq!(f[0].0, "a");
    } else {
        panic!("object expected");
    }
    let mut n = Json::Null;
    n.assign("k", Json::UInt(7));
    assert_eq!(n.get("k").unwrap().as_u64(), Some(7));
}

#[test]
fn lookups_find_the_first_field_and_array_items() {
    let v = obj(vec![("k", Json::UInt(1)), ("k", Json::UInt(2))]);
    assert_eq!(v.get("k").unwrap().as_u64(), Some(1));
    assert!(v.get("missing").is_none());
    let a = Json::Array(vec![Json::Text("p".into()), Json::Null]);
    assert_eq!(a.at(0).unwrap().as_str(), Some("p"));
    assert!(a.at(1).unwrap().is_null());
    assert!(a.at(2).is_none());
    assert!(a.get("k").is_none());
    assert_eq!(Json::Int(5).as_u64(), Some(5));
}

#[test]
fn deep_clone_is_independent() {
    let v = obj(vec![("list", Json::Array(vec![Json::Float("0.5".into())]))]);
    let mut c = v.deep_clone();
    c.assign("list", Json::Null);
    assert!(v.get("list").unwrap().is_array());
    assert!(c.get("list").unwrap().is_null());
}
