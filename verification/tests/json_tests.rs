use progit::json::{tags_from_field, tags_json};

#[test]
fn tags_json_roundtrip() {
    let tags = vec!["E1".to_string(), "quote\"d".to_string(), "pipe|x".to_string(), "ünï".to_string()];
    let j = tags_json(&tags).unwrap();
    assert_eq!(j, serde_json::to_string(&tags).unwrap());
    assert_eq!(tags_from_field(&Some(j)), tags);
}

#[test]
fn tags_json_empty_is_none() {
    assert_eq!(tags_json(&Vec::new()), None);
}

#[test]
fn tags_json_exact_text() {
    let tags = vec!["a".to_string(), "b".to_string()];
    assert_eq!(tags_json(&tags), Some("[\"a\",\"b\"]".to_string()));
}

#[test]
fn tags_from_bad_field() {
    assert!(tags_from_field(&Some("[1,2]".to_string())).is_empty());
    assert!(tags_from_field(&None).is_empty());
}

#[test]
fn encoded_tags_parse_back() {
    for tags in [vec![], vec!["E1".to_string()], vec!["a\"b".to_string(), "c\\|d".to_string(), "é\n".to_string()]] {
        let field = Some(serde_json::to_string(&tags).unwrap());
        assert_eq!(tags_from_field(&field), tags);
    }
    assert_eq!(tags_from_field(&Some("oops".to_string())), Vec::<String>::new());
    assert_eq!(tags_from_field(&Some("[1]".to_string())), Vec::<String>::new());
    assert_eq!(tags_from_field(&None), Vec::<String>::new());
}
