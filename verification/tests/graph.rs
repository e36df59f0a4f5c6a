use paystubs::graph::{
    collect_datas_keys, count_completed, month_bucket, month_bucket_label, month_name, monthly_values, Graph,
    NET_SALARY_KEY,
};
use paystubs::paystub::{Paystub, PaystubState};
use paystubs::store::Store;

#[test]
fn month_bucket_counts_months() {
    assert_eq!(month_bucket(2024, 1), 2024 * 12);
    assert_eq!(month_bucket(2024, 12), 2024 * 12 + 11);
    assert_eq!(month_bucket(2025, 1) - month_bucket(2024, 12), 1);
}

#[test]
fn month_bucket_label_names_month_and_year() {
    assert_eq!(month_bucket_label(month_bucket(2024, 2)), "Févr. 2024");
    assert_eq!(month_bucket_label(month_bucket(2023, 8)), "Août 2023");
    assert_eq!(month_bucket_label(month_bucket(1999, 12)), "Déc. 1999");
    assert_eq!(month_bucket_label(0), "Janv. 0");
    assert_eq!(month_bucket_label(-1), "Déc. -1");
    assert_eq!(month_bucket_label(-12), "Janv. -1");
}

#[test]
fn month_names() {
    let names: Vec<&str> = (0..12).map(month_name).collect();
    assert_eq!(
        names,
        vec!["Janv.", "Févr.", "Mars", "Avr.", "Mai", "Juin", "Juil.", "Août", "Sept.", "Oct.", "Nov.", "Déc."]
    );
}

fn completed(date: i32, net: f32, datas: Vec<(&str, f32)>) -> Paystub {
    Paystub {
        file: "x.pdf".to_string(),
        since: 0,
        state: PaystubState::Completed {
            payment_date: date,
            net_salary_bits: net.to_bits(),
            infos: vec![],
            datas: datas.into_iter().map(|(k, v)| (k.to_string(), v.to_bits())).collect(),
        },
    }
}

fn sample_store() -> Store {
    let mut store = Store::new();
    // 2_451_545 is 2000-01-01, 2_451_576 is 2000-02-01.
    store.insert_paystub("a".to_string(), completed(2_451_545, 1000.0, vec![("Brut", 1500.0)]));
    store.insert_paystub("b".to_string(), completed(2_451_576, 1100.0, vec![("Prime", 50.0)]));
    store.insert_paystub(
        "c".to_string(),
        Paystub { file: "c.pdf".to_string(), since: 0, state: PaystubState::Pending },
    );
    store.insert_paystub("d".to_string(), completed(i32::MAX, 900.0, vec![("Brut", 1.0)]));
    store
}

#[test]
fn monthly_values_of_the_net_salary() {
    let store = sample_store();
    let values = monthly_values(&store, NET_SALARY_KEY);
    assert_eq!(
        values,
        vec![(month_bucket(2000, 1), 1000.0f32.to_bits()), (month_bucket(2000, 2), 1100.0f32.to_bits())]
    );
}

#[test]
fn monthly_values_of_a_data_label() {
    let store = sample_store();
    assert_eq!(monthly_values(&store, "Brut"), vec![(month_bucket(2000, 1), 1500.0f32.to_bits())]);
    assert!(monthly_values(&store, "Absent").is_empty());
}

#[test]
fn counting_completed_paystubs() {
    assert_eq!(count_completed(&sample_store()), 3);
    assert_eq!(count_completed(&Store::new()), 0);
}

#[test]
fn collected_keys_are_sorted_and_unique() {
    let keys = collect_datas_keys(&sample_store());
    assert_eq!(keys, vec!["Brut".to_string(), "Prime".to_string(), "Salaire net".to_string()]);
    assert_eq!(collect_datas_keys(&Store::new()), vec!["Salaire net".to_string()]);
}

#[test]
fn collected_keys_sort_by_code_point() {
    let mut store = Store::new();
    store.insert_paystub(
        "a".to_string(),
        completed(1, 0.0, vec![("été", 1.0), ("Zèbre", 1.0), ("abc", 1.0), ("ab", 1.0)]),
    );
    let keys = collect_datas_keys(&store);
    let mut expected = vec!["été", "Zèbre", "abc", "ab", "Salaire net"];
    expected.sort_unstable();
    assert_eq!(keys, expected);
}

#[test]
fn graph_starts_with_the_net_salary() {
    let g = Graph::default();
    assert_eq!(g.filters, vec![NET_SALARY_KEY.to_string()]);
    assert!(g.datas_keys_cache.is_empty());
    assert_eq!(g.cached_completed_count, 0);
}

#[test]
fn graph_refreshes_its_cache_when_the_count_changes() {
    let mut g = Graph::default();
    let store = sample_store();
    g.refresh_keys(&store);
    assert_eq!(g.cached_completed_count, 3);
    assert_eq!(g.datas_keys_cache.len(), 3);
    g.datas_keys_cache.clear();
    g.refresh_keys(&store);
    assert!(g.datas_keys_cache.is_empty());
}

#[test]
fn graph_filters_toggle() {
    let mut g = Graph::default();
    let brut = "Brut".to_string();
    assert!(!g.is_filter(&brut));
    g.set_filter(&brut, true);
    assert!(g.is_filter(&brut));
    g.set_filter(&brut, true);
    g.set_filter(&brut, false);
    assert_eq!(g.filters, vec![NET_SALARY_KEY.to_string()]);
}

#[test]
fn refreshed_cache_equals_a_fresh_collection() {
    let mut store = sample_store();
    let mut graph = Graph::default();
    graph.refresh_keys(&store);
    assert_eq!(graph.cached_completed_count, count_completed(&store));
    assert_eq!(graph.datas_keys_cache, collect_datas_keys(&store));
    // Unchanged count: the cache is kept.
    let before = graph.datas_keys_cache.clone();
    graph.refresh_keys(&store);
    assert_eq!(graph.datas_keys_cache, before);
    // A new completed paystub: the cache is recomputed.
    store.insert_paystub("e".to_string(), completed(2_451_545, 10.0, vec![("Autre", 2.0)]));
    graph.refresh_keys(&store);
    assert_eq!(graph.datas_keys_cache, collect_datas_keys(&store));
    assert!(graph.datas_keys_cache.contains(&"Autre".to_string()));
}
