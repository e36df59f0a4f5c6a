use paystubs::keys::{fold_accent, normalize_key, reconcile_keys};
use paystubs::paystub::{Paystub, PaystubState};
use paystubs::store::Store;

#[test]
fn similar_keys_normalize_identically() {
    let a = normalize_key("Remunération rbute.(1)");
    let b = normalize_key("Remunération rbute.(1)  ");
    let c = normalize_key("Remunération rbute(1)");

    assert_eq!(a, b);
    assert_eq!(a, c);
}

#[test]
fn normalize_key_folds_accents_case_and_punctuation() {
    assert_eq!(normalize_key("Salaire de base"), "salairedebase");
    assert_eq!(normalize_key("Salaire dé base."), "salairedebase");
    assert_eq!(normalize_key("CSG/CRDS (non déductible)"), "csgcrdsnondeductible");
    assert_eq!(normalize_key(""), "");
    assert_eq!(normalize_key("€ -- !"), "");
}

#[test]
fn normalize_key_is_idempotent_on_examples() {
    for key in ["Salaire net", "Œuvre à l'Été", "Prime 13e mois", "ÇA VA"] {
        let once = normalize_key(key);
        assert_eq!(normalize_key(&once), once);
    }
}

#[test]
fn fold_accent_maps_french_letters() {
    assert_eq!(fold_accent('é'), 'e');
    assert_eq!(fold_accent('À'), 'a');
    assert_eq!(fold_accent('ç'), 'c');
    assert_eq!(fold_accent('Œ'), 'o');
    assert_eq!(fold_accent('æ'), 'a');
    assert_eq!(fold_accent('ÿ'), 'y');
    assert_eq!(fold_accent('x'), 'x');
    assert_eq!(fold_accent('?'), '?');
}

fn completed(file: &str, infos: Vec<(&str, &str)>, datas: Vec<(&str, u32)>) -> Paystub {
    Paystub {
        file: file.to_string(),
        since: 0,
        state: PaystubState::Completed {
            payment_date: 2_460_000,
            net_salary_bits: 0,
            infos: infos.into_iter().map(|(k, v)| (k.to_string(), v.to_string())).collect(),
            datas: datas.into_iter().map(|(k, v)| (k.to_string(), v)).collect(),
        },
    }
}

#[test]
fn reconcile_keys_aligns_labels_on_known_ones() {
    let mut store = Store::new();
    store.insert_paystub(
        "a".to_string(),
        completed("a.pdf", vec![("Employeur", "ACME")], vec![("Salaire de base", 1)]),
    );
    let infos = vec![("employeur".to_string(), "ACME".to_string()), ("Poste".to_string(), "Dev".to_string())];
    let datas = vec![("Salaire dé base.".to_string(), 7u32), ("Prime".to_string(), 3u32)];
    let (infos, datas) = reconcile_keys(&store, infos, datas);
    assert_eq!(
        infos,
        vec![("Employeur".to_string(), "ACME".to_string()), ("Poste".to_string(), "Dev".to_string())]
    );
    assert_eq!(datas, vec![("Salaire de base".to_string(), 7u32), ("Prime".to_string(), 3u32)]);
}

#[test]
fn reconcile_keys_keeps_infos_and_datas_apart() {
    let mut store = Store::new();
    store.insert_paystub("a".to_string(), completed("a.pdf", vec![("Net", "x")], vec![]));
    let (_, datas) = reconcile_keys(&store, vec![], vec![("net".to_string(), 5u32)]);
    assert_eq!(datas, vec![("net".to_string(), 5u32)]);
}

#[test]
fn reconcile_keys_later_value_wins_on_same_label() {
    let mut store = Store::new();
    store.insert_paystub("a".to_string(), completed("a.pdf", vec![], vec![("Brut", 1)]));
    let (_, datas) = reconcile_keys(&store, vec![], vec![("brut".to_string(), 5u32), ("BRUT!".to_string(), 9u32)]);
    assert_eq!(datas, vec![("Brut".to_string(), 9u32)]);
}

#[test]
fn reconcile_keys_without_known_labels_changes_nothing() {
    let store = Store::new();
    let infos = vec![("A".to_string(), "1".to_string()), ("b".to_string(), "2".to_string())];
    let (out, datas) = reconcile_keys(&store, infos.clone(), vec![]);
    assert_eq!(out, infos);
    assert!(datas.is_empty());
}

#[test]
fn normalisation_distributes_and_ignores_upper_case() {
    let a = "Rémunération brute.";
    let b = " (1) Ç-a";
    assert_eq!(normalize_key(&format!("{a}{b}")), normalize_key(a) + &normalize_key(b));
    let key = "Salaire de Base n°2";
    let n = normalize_key(key);
    assert_eq!(normalize_key(&key.to_ascii_uppercase()), n);
    assert!(n.chars().all(|c| c.is_ascii_lowercase() || c.is_ascii_digit()));
    assert!(n.chars().count() <= key.chars().count());
    assert_eq!(normalize_key(&n), n);
}
