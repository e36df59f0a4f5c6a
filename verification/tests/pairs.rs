use paystubs::pairs::{clone_number_pairs, clone_text_pairs, find_label, put_pair, sort_by_label};

fn pair(k: &str, v: &str) -> (String, String) {
    (k.to_string(), v.to_string())
}

#[test]
fn sort_by_label_orders_the_pairs() {
    let v = vec![pair("Salarié", "Jean"), pair("Employeur", "ACME"), pair("Période", "Mars"), pair("Emploi", "Dev")];
    let sorted = sort_by_label(&v);
    assert_eq!(
        sorted,
        vec![pair("Emploi", "Dev"), pair("Employeur", "ACME"), pair("Période", "Mars"), pair("Salarié", "Jean")]
    );
}

#[test]
fn sort_by_label_keeps_every_pair() {
    let v = vec![pair("b", "1"), pair("a", "2"), pair("b", "3")];
    let sorted = sort_by_label(&v);
    assert_eq!(sorted.len(), 3);
    assert_eq!(sorted[0], pair("a", "2"));
    assert_eq!(sorted[1].0, "b");
    assert_eq!(sorted[2].0, "b");
    assert!(sorted.contains(&pair("b", "1")) && sorted.contains(&pair("b", "3")));
    assert!(sort_by_label(&Vec::new()).is_empty());
}

#[test]
fn put_pair_replaces_or_appends() {
    let mut v: Vec<(String, u32)> = vec![("a".to_string(), 1), ("b".to_string(), 2)];
    put_pair(&mut v, "a".to_string(), 5);
    assert_eq!(v, vec![("a".to_string(), 5), ("b".to_string(), 2)]);
    put_pair(&mut v, "c".to_string(), 7);
    assert_eq!(v, vec![("a".to_string(), 5), ("b".to_string(), 2), ("c".to_string(), 7)]);
    assert_eq!(find_label(&v, &"b".to_string()), Some(1));
    assert_eq!(find_label(&v, &"z".to_string()), None);
    assert_eq!(clone_number_pairs(&v), v);
    let t = vec![pair("x", "y")];
    assert_eq!(clone_text_pairs(&t), t);
}
