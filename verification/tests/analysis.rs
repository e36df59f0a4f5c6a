use paystubs::analysis::{
    analysis_outcome, begin_paystub_analysis, cleaned_answer, end_paystub_analysis, parse_payment_date,
    sanitize_json_response, user_prompt, AnalysisOutcome, ClaudeAnalysis,
};
use paystubs::claude::{Claude, ClaudeResponse};
use paystubs::paystub::{Paystub, PaystubState};

#[test]
fn sanitize_keeps_a_bare_object() {
    assert_eq!(sanitize_json_response("{\"a\": 1}"), "{\"a\": 1}");
}

#[test]
fn sanitize_removes_json_fences() {
    assert_eq!(sanitize_json_response("```json\n{\"a\": 1}\n```"), "{\"a\": 1}");
    assert_eq!(sanitize_json_response("  ```\n{\"a\": 1}\n```  "), "{\"a\": 1}");
}

#[test]
fn sanitize_cuts_stray_text() {
    assert_eq!(sanitize_json_response("Voici le JSON : {\"a\": {\"b\": 2}} fin"), "{\"a\": {\"b\": 2}}");
}

#[test]
fn sanitize_without_braces_returns_trimmed_text() {
    assert_eq!(sanitize_json_response("  pas de json  "), "pas de json");
    assert_eq!(sanitize_json_response("} inversé {"), "} inversé {");
    assert_eq!(sanitize_json_response(""), "");
}

#[test]
fn sanitize_is_idempotent_on_examples() {
    for raw in ["```json {\"x\":1} ```", "texte {\"y\": [1, 2]} suite", " {} "] {
        let once = sanitize_json_response(raw);
        assert_eq!(sanitize_json_response(once), once);
    }
}

#[test]
fn parse_payment_date_reads_both_formats() {
    assert_eq!(parse_payment_date("2000-01-01"), Some(2_451_545));
    assert_eq!(parse_payment_date("  2019-12-31 \n"), Some(2_458_849));
    assert_eq!(parse_payment_date("01/01/2000"), Some(2_451_545));
    assert_eq!(parse_payment_date("31/12/2019"), Some(2_458_849));
}

#[test]
fn parse_payment_date_rejects_other_texts() {
    assert_eq!(parse_payment_date("janvier 2024"), None);
    assert_eq!(parse_payment_date("2024-13-01"), None);
    assert_eq!(parse_payment_date(""), None);
}

#[test]
fn user_prompt_with_and_without_previous_error() {
    assert_eq!(user_prompt("/tmp/a.pdf", None), "/tmp/a.pdf");
    assert_eq!(
        user_prompt("/tmp/a.pdf", Some("JSON invalide")),
        "Fichier: /tmp/a.pdf\n\nErreur précédente:\nJSON invalide"
    );
}

fn response(is_error: bool, result: &str) -> ClaudeResponse {
    ClaudeResponse {
        response_type: "result".to_string(),
        subtype: "success".to_string(),
        is_error,
        api_error_status: None,
        duration_ms: 1,
        duration_api_ms: 1,
        ttft_ms: 1,
        ttft_stream_ms: 1,
        time_to_request_ms: 1,
        num_turns: 1,
        result: result.to_string(),
    }
}

#[test]
fn cleaned_answer_reports_errors_and_cleans_results() {
    assert_eq!(cleaned_answer(&response(true, "quota")), Err("quota".to_string()));
    assert_eq!(cleaned_answer(&response(false, "```json\n{\"a\":1}\n```")), Ok("{\"a\":1}"));
}

fn analysis(date: &str) -> ClaudeAnalysis {
    ClaudeAnalysis {
        payment_date: date.to_string(),
        net_salary_bits: 1800.25f32.to_bits(),
        infos: vec![("Employeur".to_string(), "ACME".to_string())],
        datas: vec![("Brut".to_string(), 2300.0f32.to_bits())],
    }
}

#[test]
fn analysis_outcome_reads_the_date() {
    let tool = Claude { command: "analyseur".to_string() };
    let out = analysis_outcome(&tool, analysis("2000-01-01")).unwrap();
    assert_eq!(
        out,
        AnalysisOutcome {
            payment_date: 2_451_545,
            net_salary_bits: 1800.25f32.to_bits(),
            infos: vec![("Employeur".to_string(), "ACME".to_string())],
            datas: vec![("Brut".to_string(), 2300.0f32.to_bits())],
        }
    );
}

#[test]
fn analysis_outcome_names_an_invalid_date() {
    let tool = Claude { command: "analyseur".to_string() };
    assert_eq!(
        analysis_outcome(&tool, analysis("bientôt")),
        Err("Date de paiement invalide reçue de analyseur: \"bientôt\" (format attendu: AAAA-MM-JJ)".to_string())
    );
}

#[test]
fn begin_analysis_moves_pending_to_processing() {
    let p = Paystub { file: "a.pdf".to_string(), since: 0, state: PaystubState::Pending };
    let (q, previous) = begin_paystub_analysis(p);
    assert_eq!(q.state, PaystubState::Processing);
    assert_eq!(q.file, "a.pdf");
    assert_eq!(previous, None);
}

#[test]
fn begin_analysis_of_a_retry_hands_the_previous_error() {
    let state = PaystubState::ProcessingError { error: "JSON invalide".to_string(), retry: 2 };
    let p = Paystub { file: "a.pdf".to_string(), since: 5, state };
    let (q, previous) = begin_paystub_analysis(p.clone());
    assert_eq!(q, p);
    assert_eq!(previous, Some("JSON invalide".to_string()));
}

#[test]
fn end_analysis_completes_or_records_the_error() {
    let p = Paystub { file: "a.pdf".to_string(), since: 0, state: PaystubState::Processing };
    let outcome = AnalysisOutcome { payment_date: 3, net_salary_bits: 4, infos: vec![], datas: vec![] };
    let done = end_paystub_analysis(p.clone(), Ok(outcome));
    assert_eq!(
        done.state,
        PaystubState::Completed { payment_date: 3, net_salary_bits: 4, infos: vec![], datas: vec![] }
    );
    let failed = end_paystub_analysis(p, Err("illisible".to_string()));
    assert_eq!(failed.state, PaystubState::ProcessingError { error: "illisible".to_string(), retry: 1 });
}

#[test]
fn end_analysis_leaves_a_refused_paystub_unchanged() {
    let p = Paystub { file: "a.pdf".to_string(), since: 9, state: PaystubState::Pending };
    assert_eq!(end_paystub_analysis(p.clone(), Err("x".to_string())), p);
}

#[test]
fn sanitize_takes_the_span_from_first_to_last_brace() {
    let raw = "Voici: ```json\n x {\"a\":{\"b\":1}} y\n``` fin";
    let cleaned = sanitize_json_response(raw);
    assert_eq!(cleaned, "{\"a\":{\"b\":1}}");
    assert_eq!(sanitize_json_response(cleaned), cleaned);
    let raw = "  ```json\n{\"x\": [1]}\n```  ";
    assert_eq!(sanitize_json_response(raw), "{\"x\": [1]}");
}
