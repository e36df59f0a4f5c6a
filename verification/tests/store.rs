use paystubs::paystub::{Paystub, PaystubState};
use paystubs::store::{status_label, Event, Menu, Settings, Store, Theme};

#[test]
fn theme_defaults_to_system() {
    assert_eq!(Theme::default(), Theme::System);
    let store = Store::default();
    assert_eq!(store.theme, Theme::System);
    assert!(store.paystubs.is_empty());
    let _menu = Menu::default();
    assert_eq!(Event::ChangeTheme(Theme::Dark), Event::ChangeTheme(Theme::Dark));
}

#[test]
fn insert_then_read_back() {
    let mut store = Store::new();
    let p = Paystub { file: "a.pdf".to_string(), since: 1, state: PaystubState::Pending };
    store.insert_paystub("id1".to_string(), p.clone());
    let q = Paystub { file: "b.pdf".to_string(), since: 2, state: PaystubState::Processing };
    store.insert_paystub("id2".to_string(), q.clone());
    let r = Paystub { file: "a.pdf".to_string(), since: 3, state: PaystubState::Processing };
    store.insert_paystub("id1".to_string(), r.clone());
    assert_eq!(store.paystubs, vec![("id1".to_string(), r), ("id2".to_string(), q)]);
}

#[test]
fn import_adds_a_pending_paystub() {
    let mut store = Store::new();
    store.import_paystub("u1".to_string(), "datas/paystubs/a.pdf".to_string());
    assert_eq!(store.paystubs.len(), 1);
    assert_eq!(store.paystubs[0].0, "u1");
    assert_eq!(store.paystubs[0].1.file, "datas/paystubs/a.pdf");
    assert_eq!(store.paystubs[0].1.state, PaystubState::Pending);
}

#[test]
fn search_matches_file_names() {
    let mut store = Store::new();
    for (id, file) in [("1", "janvier.pdf"), ("2", "fevrier.pdf"), ("3", "janvier-bis.pdf")] {
        store.insert_paystub(
            id.to_string(),
            Paystub { file: file.to_string(), since: 0, state: PaystubState::Pending },
        );
    }
    assert_eq!(store.search("janv"), vec![0, 2]);
    assert_eq!(store.search(""), vec![0, 1, 2]);
    assert!(store.search("mars").is_empty());
}

#[test]
fn status_labels() {
    let mut p = Paystub { file: "a".to_string(), since: 0, state: PaystubState::Pending };
    assert_eq!(status_label(&p), "En attente");
    p.state = PaystubState::Processing;
    assert_eq!(status_label(&p), "En cours");
    p.state = PaystubState::ProcessingError { error: "x".to_string(), retry: 1 };
    assert_eq!(status_label(&p), "Erreur");
    p.state = PaystubState::Completed { payment_date: 0, net_salary_bits: 0, infos: vec![], datas: vec![] };
    assert_eq!(status_label(&p), "Completed");
}

#[test]
fn settings_events() {
    let mut settings = Settings::default();
    let mut store = Store::new();
    assert!(!settings.open);
    assert!(!settings.apply_events(&mut store, Some(true), None));
    assert!(settings.open);
    assert!(settings.apply_events(&mut store, None, Some(Theme::Dark)));
    assert_eq!(store.theme, Theme::Dark);
    assert!(settings.open);
    settings.apply_events(&mut store, Some(false), Some(Theme::Light));
    assert!(!settings.open);
    assert_eq!(store.theme, Theme::Light);
}
