use paystubs::paystub::{Paystub, PaystubError, PaystubState, ANALYSE_TIMEOUT_MS, TIMEOUT_MESSAGE};

fn at(file: &str, since: i64, state: PaystubState) -> Paystub {
    Paystub { file: file.to_string(), since, state }
}

fn error_state(error: &str, retry: u8) -> PaystubState {
    PaystubState::ProcessingError { error: error.to_string(), retry }
}

fn completed_state() -> PaystubState {
    PaystubState::Completed {
        payment_date: 2_460_311,
        net_salary_bits: 1234.5f32.to_bits(),
        infos: vec![("Employeur".to_string(), "ACME".to_string())],
        datas: vec![("Salaire de base".to_string(), 2000.0f32.to_bits())],
    }
}

#[test]
fn pending_at_starts_pending() {
    let p = Paystub::pending_at("a.pdf".to_string(), 42);
    assert_eq!(p, at("a.pdf", 42, PaystubState::Pending));
}

#[test]
fn pending_reads_the_clock() {
    let p = Paystub::pending("a.pdf".to_string());
    assert_eq!(p.file, "a.pdf");
    assert_eq!(p.state, PaystubState::Pending);
    assert!(p.since > 1_600_000_000_000);
}

#[test]
fn to_processing_only_from_pending() {
    let p = at("a.pdf", 1, PaystubState::Pending);
    assert_eq!(p.to_processing_at(5).unwrap(), at("a.pdf", 5, PaystubState::Processing));

    let cases = [
        (PaystubState::Processing, "Processing"),
        (error_state("e", 1), "ProcessingError"),
        (completed_state(), "Completed"),
    ];
    for (state, from) in cases {
        let p = at("a.pdf", 1, state);
        assert_eq!(p.to_processing_at(5), Err(PaystubError::Transition { from, to: "Processing" }));
    }
}

#[test]
fn to_processing_error_counts_retries() {
    let p = at("a.pdf", 1, PaystubState::Processing);
    let e1 = p.to_processing_error_at("boom", 7).unwrap();
    assert_eq!(e1, at("a.pdf", 7, error_state("boom", 1)));
    let e2 = e1.to_processing_error_at("again", 9).unwrap();
    assert_eq!(e2, at("a.pdf", 9, error_state("again", 2)));
}

#[test]
fn to_processing_error_refused_from_pending_and_completed() {
    let p = at("a.pdf", 1, PaystubState::Pending);
    assert_eq!(
        p.to_processing_error_at("x", 2),
        Err(PaystubError::Transition { from: "Pending", to: "ProcessingError" })
    );
    let p = at("a.pdf", 1, completed_state());
    assert_eq!(
        p.to_processing_error_at("x", 2),
        Err(PaystubError::Transition { from: "Completed", to: "ProcessingError" })
    );
}

#[test]
fn to_completed_from_processing_or_error() {
    for state in [PaystubState::Processing, error_state("e", 3)] {
        let p = at("a.pdf", 1, state);
        let infos = vec![("Employeur".to_string(), "ACME".to_string())];
        let datas = vec![("Salaire de base".to_string(), 2000.0f32.to_bits())];
        let done = p.to_completed_at(2_460_311, 1234.5f32.to_bits(), infos, datas, 11).unwrap();
        assert_eq!(done, at("a.pdf", 11, completed_state()));
    }
    for (state, from) in [(PaystubState::Pending, "Pending"), (completed_state(), "Completed")] {
        let p = at("a.pdf", 1, state);
        assert_eq!(
            p.to_completed_at(1, 0, vec![], vec![], 2),
            Err(PaystubError::Transition { from, to: "Completed" })
        );
    }
}

#[test]
fn is_stuck_after_the_timeout_in_processing() {
    let p = at("a.pdf", 1_000, PaystubState::Processing);
    assert!(!p.is_stuck_at(1_000 + ANALYSE_TIMEOUT_MS));
    assert!(p.is_stuck_at(1_001 + ANALYSE_TIMEOUT_MS));
    let q = at("a.pdf", 1_000, PaystubState::Pending);
    assert!(!q.is_stuck_at(1_000_000_000));
    assert_eq!(ANALYSE_TIMEOUT_MS, 600_000);
}

#[test]
fn is_stuck_with_the_clock() {
    let p = at("a.pdf", 0, PaystubState::Processing);
    assert!(p.is_stuck());
    let q = at("a.pdf", 0, PaystubState::Pending);
    assert!(!q.is_stuck());
}

#[test]
fn to_timed_out_records_the_timeout_message() {
    let p = at("a.pdf", 1, PaystubState::Processing);
    let t = p.to_timed_out_at(700_000).unwrap();
    assert_eq!(t, at("a.pdf", 700_000, error_state(TIMEOUT_MESSAGE, 1)));
    assert!(TIMEOUT_MESSAGE.starts_with("Timeout : l'analyse précédente"));
    assert!(TIMEOUT_MESSAGE.ends_with("relance simplement une analyse complète du document."));
}

#[test]
fn clock_transitions_keep_file_and_target_state() {
    let p = at("b.pdf", 1, PaystubState::Pending);
    let q = p.to_processing().unwrap();
    assert_eq!((q.file.as_str(), &q.state), ("b.pdf", &PaystubState::Processing));
    let e = q.to_processing_error("oops").unwrap();
    assert_eq!(e.state, error_state("oops", 1));
    let t = q.to_timed_out().unwrap();
    assert_eq!(t.state, error_state(TIMEOUT_MESSAGE, 1));
    let c = e.to_completed(1, 2, vec![], vec![]).unwrap();
    assert!(matches!(c.state, PaystubState::Completed { payment_date: 1, net_salary_bits: 2, .. }));
}

#[test]
fn clone_is_equal() {
    let p = at("a.pdf", 3, completed_state());
    assert_eq!(p.clone(), p);
    assert_eq!(p.state.name(), "Completed");
}

#[test]
fn is_stuck_accepts_far_off_start_times() {
    let far_future = Paystub { file: "f.pdf".to_string(), since: 5_000_000_000_000_000_000, state: PaystubState::Processing };
    assert!(!far_future.is_stuck());
    let far_past = Paystub { file: "f.pdf".to_string(), since: -5_000_000_000_000_000_000, state: PaystubState::Processing };
    assert!(far_past.is_stuck());
}
