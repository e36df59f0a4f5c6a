use paystubs::paystub::{Paystub, PaystubState, ANALYSE_TIMEOUT_MS, TIMEOUT_MESSAGE};
use paystubs::queue::{
    dispatch_next_paystubs, dispatch_next_paystubs_at, get_next_paystub_to_analyse, reap_stuck_paystubs,
    reap_stuck_paystubs_at, receive_result, InFlight, MAX_CONCURRENT_ANALYSES,
};
use paystubs::store::Store;

fn paystub(file: &str, since: i64, state: PaystubState) -> Paystub {
    Paystub { file: file.to_string(), since, state }
}

fn store_of(entries: Vec<(&str, Paystub)>) -> Store {
    let mut store = Store::new();
    for (id, p) in entries {
        store.insert_paystub(id.to_string(), p);
    }
    store
}

fn failed(retry: u8) -> PaystubState {
    PaystubState::ProcessingError { error: "e".to_string(), retry }
}

#[test]
fn in_flight_set_operations() {
    let mut f = InFlight::new();
    assert_eq!(f.len(), 0);
    f.insert("a".to_string());
    f.insert("a".to_string());
    f.insert("b".to_string());
    assert_eq!(f.len(), 2);
    assert!(f.contains(&"a".to_string()));
    f.remove(&"a".to_string());
    f.remove(&"zz".to_string());
    assert!(!f.contains(&"a".to_string()));
    assert_eq!(f.len(), 1);
}

#[test]
fn next_paystub_is_the_first_awaiting_one_not_in_flight() {
    let store = store_of(vec![
        ("done", paystub("d.pdf", 0, PaystubState::Processing)),
        ("p1", paystub("1.pdf", 0, PaystubState::Pending)),
        ("e1", paystub("2.pdf", 0, failed(1))),
    ]);
    let mut f = InFlight::new();
    let (id, p) = get_next_paystub_to_analyse(&store, &f).unwrap();
    assert_eq!((id.as_str(), p.file.as_str()), ("p1", "1.pdf"));
    f.insert("p1".to_string());
    let (id, _) = get_next_paystub_to_analyse(&store, &f).unwrap();
    assert_eq!(id, "e1");
    f.insert("e1".to_string());
    assert!(get_next_paystub_to_analyse(&store, &f).is_none());
}

#[test]
fn dispatch_sends_at_most_the_limit() {
    let mut store = store_of(vec![
        ("a", paystub("a.pdf", 0, PaystubState::Pending)),
        ("b", paystub("b.pdf", 0, failed(1))),
        ("c", paystub("c.pdf", 0, PaystubState::Pending)),
    ]);
    let mut f = InFlight::new();
    let sent = dispatch_next_paystubs_at(&mut store, &mut f, 77);
    assert_eq!(MAX_CONCURRENT_ANALYSES, 2);
    assert_eq!(sent.len(), 2);
    assert_eq!(sent[0], ("a".to_string(), paystub("a.pdf", 0, PaystubState::Pending)));
    assert_eq!(sent[1], ("b".to_string(), paystub("b.pdf", 0, failed(1))));
    assert_eq!(f.len(), 2);
    assert_eq!(store.paystubs[0].1, paystub("a.pdf", 77, PaystubState::Processing));
    assert_eq!(store.paystubs[1].1, paystub("b.pdf", 0, failed(1)));
    assert_eq!(store.paystubs[2].1, paystub("c.pdf", 0, PaystubState::Pending));
    // Nothing more while the limit is reached.
    assert!(dispatch_next_paystubs_at(&mut store, &mut f, 78).is_empty());
    // Once a result is back, the next one goes.
    f.remove(&"a".to_string());
    let sent = dispatch_next_paystubs(&mut store, &mut f);
    assert_eq!(sent.len(), 1);
    assert_eq!(sent[0].0, "c");
    assert_eq!(store.paystubs[2].1.state, PaystubState::Processing);
}

#[test]
fn dispatch_with_nothing_to_send() {
    let mut store = store_of(vec![("a", paystub("a.pdf", 0, PaystubState::Processing))]);
    let mut f = InFlight::new();
    assert!(dispatch_next_paystubs_at(&mut store, &mut f, 1).is_empty());
    assert_eq!(f.len(), 0);
}

#[test]
fn reaping_times_out_stuck_paystubs_only() {
    let mut store = store_of(vec![
        ("old", paystub("o.pdf", 0, PaystubState::Processing)),
        ("new", paystub("n.pdf", 500_000, PaystubState::Processing)),
        ("wait", paystub("w.pdf", 0, PaystubState::Pending)),
    ]);
    let mut f = InFlight::new();
    f.insert("old".to_string());
    f.insert("new".to_string());
    let now = ANALYSE_TIMEOUT_MS + 1;
    assert!(reap_stuck_paystubs_at(&mut store, &mut f, now));
    assert_eq!(
        store.paystubs[0].1,
        paystub("o.pdf", now, PaystubState::ProcessingError { error: TIMEOUT_MESSAGE.to_string(), retry: 1 })
    );
    assert_eq!(store.paystubs[1].1, paystub("n.pdf", 500_000, PaystubState::Processing));
    assert_eq!(store.paystubs[2].1, paystub("w.pdf", 0, PaystubState::Pending));
    assert!(!f.contains(&"old".to_string()));
    assert!(f.contains(&"new".to_string()));
    assert!(!reap_stuck_paystubs_at(&mut store, &mut f, now));
}

#[test]
fn reaping_with_the_clock() {
    let mut store = store_of(vec![("old", paystub("o.pdf", 0, PaystubState::Processing))]);
    let mut f = InFlight::new();
    assert!(reap_stuck_paystubs(&mut store, &mut f));
    assert!(matches!(store.paystubs[0].1.state, PaystubState::ProcessingError { retry: 1, .. }));
}

#[test]
fn receiving_a_result_stores_it_and_frees_the_slot() {
    let mut store = store_of(vec![
        (
            "old",
            paystub(
                "o.pdf",
                0,
                PaystubState::Completed {
                    payment_date: 1,
                    net_salary_bits: 0,
                    infos: vec![],
                    datas: vec![("Salaire de base".to_string(), 1)],
                },
            ),
        ),
        ("a", paystub("a.pdf", 0, PaystubState::Processing)),
    ]);
    let mut f = InFlight::new();
    f.insert("a".to_string());
    let result = paystub(
        "a.pdf",
        5,
        PaystubState::Completed {
            payment_date: 2,
            net_salary_bits: 3,
            infos: vec![],
            datas: vec![("salaire de base".to_string(), 4)],
        },
    );
    receive_result(&mut store, &mut f, "a".to_string(), result);
    assert_eq!(f.len(), 0);
    assert_eq!(
        store.paystubs[1],
        (
            "a".to_string(),
            paystub(
                "a.pdf",
                5,
                PaystubState::Completed {
                    payment_date: 2,
                    net_salary_bits: 3,
                    infos: vec![],
                    datas: vec![("Salaire de base".to_string(), 4)],
                },
            )
        )
    );
}

#[test]
fn receiving_a_failure_keeps_it_as_is() {
    let mut store = store_of(vec![("a", paystub("a.pdf", 0, PaystubState::Processing))]);
    let mut f = InFlight::new();
    f.insert("a".to_string());
    receive_result(&mut store, &mut f, "a".to_string(), paystub("a.pdf", 9, failed(1)));
    assert_eq!(store.paystubs.len(), 1);
    assert_eq!(store.paystubs[0].1, paystub("a.pdf", 9, failed(1)));
    assert!(!f.contains(&"a".to_string()));
}

#[test]
fn dispatch_never_resends_a_paystub_in_flight() {
    let mut store = store_of(vec![
        ("retry", paystub("r.pdf", 5, failed(2))),
        ("new", paystub("n.pdf", 5, PaystubState::Pending)),
    ]);
    let mut f = InFlight::new();
    f.insert("retry".to_string());
    let sent = dispatch_next_paystubs_at(&mut store, &mut f, 9);
    assert_eq!(sent, vec![("new".to_string(), paystub("n.pdf", 5, PaystubState::Pending))]);
    // The failed paystub keeps its state while its retry runs, yet it is not
    // sent again.
    assert!(dispatch_next_paystubs_at(&mut store, &mut f, 10).is_empty());
    assert_eq!(store.paystubs[0].1, paystub("r.pdf", 5, failed(2)));
}
