use std::collections::HashMap;

use pprof::pyroscope::{merge_tags_with_app_name, str_lex_le};

#[test]
fn merge_tags_with_app_name_with_tags() {
    let mut tags = HashMap::new();
    tags.insert("env".to_string(), "staging".to_string());
    tags.insert("region".to_string(), "us-west-1".to_string());
    tags.insert("__name__".to_string(), "reserved".to_string());
    assert_eq!(
        merge_tags_with_app_name("my.awesome.app.cpu".to_string(), tags.into_iter().collect()),
        "my.awesome.app.cpu{env=staging,region=us-west-1}".to_string()
    )
}

#[test]
fn merge_tags_with_app_name_without_tags() {
    let tags: HashMap<String, String> = HashMap::default();
    assert_eq!(
        merge_tags_with_app_name("my.awesome.app.cpu".to_string(), tags.into_iter().collect()),
        "my.awesome.app.cpu".to_string()
    )
}

#[test]
fn merge_tags_sorts_in_any_input_order() {
    let tags = vec![
        ("b".to_string(), "2".to_string()),
        ("a".to_string(), "9".to_string()),
        ("ab".to_string(), "1".to_string()),
        ("__name__".to_string(), "x".to_string()),
    ];
    assert_eq!(merge_tags_with_app_name("app".to_string(), tags), "app{a=9,ab=1,b=2}");
    let only_reserved = vec![("__name__".to_string(), "x".to_string())];
    assert_eq!(merge_tags_with_app_name("app".to_string(), only_reserved), "app");
}

#[test]
fn string_order_matches_std() {
    let words = ["", "a", "ab", "b", "B", "é", "aé", "a b"];
    for x in words.iter() {
        for y in words.iter() {
            assert_eq!(str_lex_le(x, y), x <= y, "{:?} {:?}", x, y);
        }
    }
}
