use paystubs::server::{
    analysis_request, claim_next_pending, conclude_analysis, remove_all, stored_file, strip_fences, upload_target,
    Paystub, PaystubState, ANALYSIS_FAILED, NOT_FOUND, ONLY_PDF, UNREADABLE_PAYSTUB,
};

fn data() -> Paystub {
    Paystub { infos: vec![("Employeur".to_string(), "ACME".to_string())], datas: vec![("Brut".to_string(), 7)] }
}

#[test]
fn claiming_the_first_pending_paystub() {
    let entries = vec![
        ("a".to_string(), PaystubState::Analyse("/a.pdf".to_string(), 1)),
        ("b".to_string(), PaystubState::Pending("/b.pdf".to_string())),
        ("c".to_string(), PaystubState::Pending("/c.pdf".to_string())),
    ];
    let (key, path, state) = claim_next_pending(&entries, 42).unwrap();
    assert_eq!((key.as_str(), path.as_str()), ("b", "/b.pdf"));
    assert_eq!(state, PaystubState::Analyse("/b.pdf".to_string(), 42));
    let none = vec![("a".to_string(), PaystubState::Analysed("/a.pdf".to_string(), data()))];
    assert!(claim_next_pending(&none, 1).is_none());
}

#[test]
fn analysis_request_names_the_file() {
    assert_eq!(
        analysis_request("/tmp/x.pdf"),
        "Lis le fichier \"/tmp/x.pdf\" et renvoie uniquement le JSON demandé, rien d'autre."
    );
}

#[test]
fn strip_fences_removes_every_fence() {
    assert_eq!(strip_fences("```json\n{\"a\":1}\n```"), "\n{\"a\":1}\n");
    assert_eq!(strip_fences("a```b```json c"), "ab c");
    assert_eq!(strip_fences("````"), "`");
    assert_eq!(strip_fences("no fence"), "no fence");
}

#[test]
fn remove_all_matches_str_replace() {
    for (s, pat) in [("aaaa", "aa"), ("abcabc", "bc"), ("", "x"), ("xyz", ""), ("ééé", "é")] {
        assert_eq!(remove_all(s, pat), s.replace(pat, ""));
    }
}

#[test]
fn concluding_an_analysis() {
    assert_eq!(
        conclude_analysis("/a.pdf".to_string(), true, Some(data())),
        (PaystubState::Analysed("/a.pdf".to_string(), data()), Ok(()))
    );
    assert_eq!(
        conclude_analysis("/a.pdf".to_string(), true, None),
        (PaystubState::Pending("/a.pdf".to_string()), Err(UNREADABLE_PAYSTUB))
    );
    assert_eq!(
        conclude_analysis("/a.pdf".to_string(), false, Some(data())),
        (PaystubState::Pending("/a.pdf".to_string()), Err(ANALYSIS_FAILED))
    );
}

#[test]
fn stored_file_of_each_state() {
    assert_eq!(stored_file(Some(PaystubState::Pending("/p".to_string()))), Ok("/p".to_string()));
    assert_eq!(stored_file(Some(PaystubState::Analyse("/q".to_string(), 3))), Ok("/q".to_string()));
    assert_eq!(stored_file(Some(PaystubState::Analysed("/r".to_string(), data()))), Ok("/r".to_string()));
    assert_eq!(stored_file(None), Err(NOT_FOUND));
    assert_eq!(PaystubState::Pending("/p".to_string()).path(), "/p");
}

#[test]
fn uploads_must_be_pdf() {
    assert_eq!(upload_target(Some("bulletin.pdf"), "1234"), Ok("paystubs/1234.pdf".to_string()));
    assert_eq!(upload_target(Some("bulletin.png"), "1234"), Err(ONLY_PDF));
    assert_eq!(upload_target(None, "1234"), Err(ONLY_PDF));
    assert_eq!(upload_target(Some(".pdf"), "x"), Ok("paystubs/x.pdf".to_string()));
    assert_eq!(upload_target(Some("pdf"), "x"), Err(ONLY_PDF));
}

#[test]
fn stripped_answer_keeps_no_fence() {
    let cleaned = strip_fences("``````json{}````");
    assert_eq!(cleaned, "{}`");
    assert!(!cleaned.contains("```"));
    assert!(!strip_fences("a``````b`````c").contains("```"));
}
