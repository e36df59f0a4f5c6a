use paystubs::claude::{Claude, ClaudeResponse};

fn tool() -> Claude {
    Claude { command: "analyseur".to_string() }
}

fn output(code: i32, stdout: &str, stderr: &str) -> (i32, String, String) {
    (code, stdout.to_string(), stderr.to_string())
}

fn response() -> ClaudeResponse {
    ClaudeResponse {
        response_type: "result".to_string(),
        subtype: "success".to_string(),
        is_error: false,
        api_error_status: None,
        duration_ms: 10,
        duration_api_ms: 9,
        ttft_ms: 1,
        ttft_stream_ms: 1,
        time_to_request_ms: 1,
        num_turns: 2,
        result: "{}".to_string(),
    }
}

#[test]
fn installed_when_version_succeeds() {
    assert!(tool().installed(&output(0, "1.0.0", "")));
    assert!(!tool().installed(&output(-1, "", "")));
    assert!(!tool().installed(&output(127, "", "not found")));
}

#[test]
fn connected_when_logged_in() {
    assert!(tool().connected(&output(0, "{\n  \"loggedIn\": true,\n  \"x\": 1\n}", "")));
    assert!(!tool().connected(&output(0, "{\"loggedIn\": false}", "")));
    assert!(!tool().connected(&output(1, "\"loggedIn\": true", "")));
}

#[test]
fn prompt_arguments() {
    let args = Claude::prompt_args("système", "fichier");
    assert_eq!(
        args,
        vec!["-p", "--system-prompt", "système", "--allowedTools", "Read", "--output-format", "json", "fichier"]
    );
}

#[test]
fn prompt_outcomes() {
    let t = tool();
    assert_eq!(t.prompt(output(2, "", "boom"), Some(response())), Err("boom".to_string()));
    assert_eq!(t.prompt(output(0, "{}", ""), Some(response())), Ok(response()));
    assert_eq!(
        t.prompt(output(0, "???", ""), None),
        Err("Lecture de la réponse de analyseur code.".to_string())
    );
}
