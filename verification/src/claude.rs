//! The analyser, a command-line tool that reads a paystub and answers in
//! JSON: what is asked of it and how its answers are read.
use vstd::prelude::*;
use vstd::string::StringExecFns;
use crate::text::{contains_text, find_text};

verus! {

/// The analyser's command-line tool, by the name of its executable. Running
/// it is left to the caller, which hands over what the command gave: its exit
/// code, standard output and standard error.
#[derive(Debug, PartialEq, Eq)]
pub struct Claude {
    pub command: String,
}

/// The answer of the analyser in JSON output mode. (`response_type` is the JSON
/// field `type`.)
#[derive(Debug, PartialEq, Eq)]
pub struct ClaudeResponse {
    pub response_type: String,
    pub subtype: String,
    pub is_error: bool,
    pub api_error_status: Option<String>,
    pub duration_ms: i32,
    pub duration_api_ms: i32,
    pub ttft_ms: i32,
    pub ttft_stream_ms: i32,
    pub time_to_request_ms: i32,
    pub num_turns: i32,
    pub result: String,
}

/// The error reported when the answer of the tool `command` cannot be read.
pub open spec fn unreadable_answer(command: Seq<char>) -> Seq<char> {
    "Lecture de la réponse de "@ + command + " code."@
}

/// What the tool prints for `auth status` when a user is logged in.
pub const LOGGED_IN: &'static str = "\"loggedIn\": true";

impl Claude {
    /// The tool is installed: its `--version` command exited with code 0.
    pub fn installed(&self, version_output: &(i32, String, String)) -> (r: bool)
        ensures
            r == (version_output.0 == 0),
    {
        version_output.0 == 0
    }

    /// The tool is logged in: its `auth status` command exited with code 0
    /// and reported a logged-in user.
    pub fn connected(&self, status_output: &(i32, String, String)) -> (r: bool)
        ensures
            r == (status_output.0 == 0 && contains_text(status_output.1@, LOGGED_IN@)),
    {
        status_output.0 == 0 && find_text(status_output.1.as_str(), LOGGED_IN)
    }

    /// The arguments of the tool for a prompt: print mode, the given system
    /// prompt, only the `Read` tool allowed, JSON output, then the user
    /// prompt.
    pub fn prompt_args(system_prompt: &str, user_prompt: &str) -> (r: Vec<String>)
        ensures
            r@.len() == 8,
            r@[0]@ == "-p"@,
            r@[1]@ == "--system-prompt"@,
            r@[2]@ == system_prompt@,
            r@[3]@ == "--allowedTools"@,
            r@[4]@ == "Read"@,
            r@[5]@ == "--output-format"@,
            r@[6]@ == "json"@,
            r@[7]@ == user_prompt@,
    {
        let mut r: Vec<String> = Vec::new();
        r.push(String::from_str("-p"));
        r.push(String::from_str("--system-prompt"));
        r.push(String::from_str(system_prompt));
        r.push(String::from_str("--allowedTools"));
        r.push(String::from_str("Read"));
        r.push(String::from_str("--output-format"));
        r.push(String::from_str("json"));
        r.push(String::from_str(user_prompt));
        r
    }

    /// The answer to a prompt, from what the tool gave (see `prompt_args`)
    /// and from its standard output read as a `ClaudeResponse` (`None` when
    /// it cannot be read): a non-zero exit code gives the standard error, an
    /// unreadable answer `unreadable_answer`.
    pub fn prompt(&self, output: (i32, String, String), parsed: Option<ClaudeResponse>) -> (r: Result<ClaudeResponse, String>)
        ensures
            output.0 != 0 ==> (r matches Err(e) && e@ == output.2@),
            output.0 == 0 ==> match parsed {
                Some(response) => r == Ok::<ClaudeResponse, String>(response),
                None => (r matches Err(e) && e@ == unreadable_answer(self.command@)),
            },
    {
        let (code, _stdout, stderr) = output;
        if code != 0 {
            return Err(stderr);
        }
        match parsed {
            Some(response) => Ok(response),
            None => {
                let mut e = String::from_str("Lecture de la réponse de ");
                e.append(self.command.as_str());
                e.append(" code.");
                Err(e)
            },
        }
    }
}

} // verus!
