use bbn::names::{count_names, insert_name, name_lt_x, sorted_names};

fn strings(v: &[&str]) -> Vec<String> {
    v.iter().map(|s| s.to_string()).collect()
}

#[test]
fn insert_keeps_order() {
    let mut set = Vec::new();
    assert!(insert_name(&mut set, "b".to_string()));
    assert!(insert_name(&mut set, "a".to_string()));
    assert!(insert_name(&mut set, "c".to_string()));
    assert!(!insert_name(&mut set, "b".to_string()));
    assert_eq!(set, strings(&["a", "b", "c"]));
}

#[test]
fn sorted_and_counted() {
    let names = strings(&["z", "ab", "a", "z", "é", "Z"]);
    assert_eq!(sorted_names(&names), strings(&["Z", "a", "ab", "z", "é"]));
    assert_eq!(
        count_names(&names),
        vec![
            ("Z".to_string(), 1),
            ("a".to_string(), 1),
            ("ab".to_string(), 1),
            ("z".to_string(), 2),
            ("é".to_string(), 1)
        ]
    );
    assert!(count_names(&vec![]).is_empty());
    assert!(name_lt_x("a", "b"));
    assert!(!name_lt_x("a", "a"));
    assert!(name_lt_x("", "a"));
}
