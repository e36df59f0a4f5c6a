//! The analysis of a paystub by the analyser: the prompt that is
//! sent, the cleaning of the answer, the reading of its payment date, and the
//! state the paystub ends in.
use vstd::prelude::*;
use vstd::string::StrSliceExecFns;
use vstd::string::StringExecFns;
use crate::text::{chars_of, trim_range, trimmed, occurs_at, trim};
use crate::claude::{Claude, ClaudeResponse};
use crate::paystub::{Paystub, PaystubState, PaystubView, StateView, DateTime, CLOCK_BOUND_MS, now_millis, outcome_view};
use crate::pairs::{text_pairs_view, number_pairs_view};

verus! {

/// The opening fence of a JSON code block: "```json".
pub open spec fn json_fence() -> Seq<char> {
    seq!['`', '`', '`', 'j', 's', 'o', 'n']
}

/// A code block fence: "```".
pub open spec fn fence() -> Seq<char> {
    seq!['`', '`', '`']
}

fn json_fence_chars() -> (r: Vec<char>)
    ensures
        r@ == json_fence(),
{
    let r = vec!['`', '`', '`', 'j', 's', 'o', 'n'];
    assert(r@ =~= json_fence());
    r
}

fn fence_chars() -> (r: Vec<char>)
    ensures
        r@ == fence(),
{
    let r = vec!['`', '`', '`'];
    assert(r@ =~= fence());
    r
}

/// `s` without a leading "```json" (or else "```") and without a trailing
/// "```".
pub open spec fn unfenced(s: Seq<char>) -> Seq<char> {
    let a = if s.len() >= 7 && s.take(7) == json_fence() {
        s.skip(7)
    } else if s.len() >= 3 && s.take(3) == fence() {
        s.skip(3)
    } else {
        s
    };
    if a.len() >= 3 && a.skip(a.len() - 3) == fence() {
        a.take(a.len() - 3)
    } else {
        a
    }
}

/// `s` cut down to the span from its first `{` to its last `}`, when both
/// occur in that order; `s` itself otherwise.
pub open spec fn braced(s: Seq<char>) -> Seq<char> {
    if s.contains('{') && s.contains('}') && s.index_of_first('{').unwrap()
        <= s.index_of_last('}').unwrap() {
        s.subrange(s.index_of_first('{').unwrap(), s.index_of_last('}').unwrap() + 1)
    } else {
        s
    }
}

/// A cleaned answer: trimmed, unfenced, trimmed again, then cut down to the
/// span from its first `{` to its last `}` when there is one.
pub open spec fn sanitized(raw: Seq<char>) -> Seq<char> {
    braced(trimmed(unfenced(trimmed(raw))))
}

/// The bounds, within `a..b`, of `unfenced(c[a..b])`.
fn unfence_range(c: &Vec<char>, a: usize, b: usize) -> (r: (usize, usize))
    requires
        a <= b <= c@.len(),
    ensures
        a <= r.0 <= r.1 <= b,
        c@.subrange(r.0 as int, r.1 as int) == unfenced(c@.subrange(a as int, b as int)),
{
    let ghost s0 = c@.subrange(a as int, b as int);
    let jf = json_fence_chars();
    let f = fence_chars();
    let mut a = a;
    if occurs_at(&c, a, b, &jf) {
        assert(s0.take(7) =~= c@.subrange(a as int, a + 7));
        assert(s0.skip(7) =~= c@.subrange(a + 7, b as int));
        a = a + 7;
    } else if occurs_at(&c, a, b, &f) {
        assert(s0.take(3) =~= c@.subrange(a as int, a + 3));
        assert(s0.skip(3) =~= c@.subrange(a + 3, b as int));
        proof {
            if s0.len() >= 7 && s0.take(7) == json_fence() {
                assert(c@.subrange(a as int, a + 7) =~= s0.take(7));
            }
        }
        a = a + 3;
    } else {
        proof {
            if s0.len() >= 7 && s0.take(7) == json_fence() {
                assert(c@.subrange(a as int, a + 7) =~= s0.take(7));
            }
            if s0.len() >= 3 && s0.take(3) == fence() {
                assert(c@.subrange(a as int, a + 3) =~= s0.take(3));
            }
            assert(s0 =~= c@.subrange(a as int, b as int));
        }
    }
    let ghost s1 = c@.subrange(a as int, b as int);
    if b - a >= 3 && occurs_at(&c, b - 3, b, &f) {
        assert(s1.skip(s1.len() - 3) =~= c@.subrange(b - 3, b as int));
        assert(s1.take(s1.len() - 3) =~= c@.subrange(a as int, b - 3));
        (a, b - 3)
    } else {
        proof {
            if s1.len() >= 3 && s1.skip(s1.len() - 3) == fence() {
                assert(c@.subrange(b - 3, b as int) =~= s1.skip(s1.len() - 3));
            }
        }
        (a, b)
    }
}

/// The bounds, within `a..b`, of `braced(c[a..b])`.
fn brace_range(c: &Vec<char>, a: usize, b: usize) -> (r: (usize, usize))
    requires
        a <= b <= c@.len(),
    ensures
        a <= r.0 <= r.1 <= b,
        c@.subrange(r.0 as int, r.1 as int) == braced(c@.subrange(a as int, b as int)),
{
    let ghost s = c@.subrange(a as int, b as int);
    let mut i = a;
    while i < b && c[i] != '{'
        invariant
            a <= i <= b <= c@.len(),
            forall|m: int| a <= m < i ==> c@[m] != '{',
        decreases b - i,
    {
        i = i + 1;
    }
    let mut j = b;
    while j > a && c[j - 1] != '}'
        invariant
            a <= j <= b <= c@.len(),
            forall|m: int| j <= m < b ==> c@[m] != '}',
        decreases j - a,
    {
        j = j - 1;
    }
    proof {
        s.index_of_first_ensures('{');
        s.index_of_last_ensures('}');
        if i < b {
            assert(s[i - a] == '{');
            let k = s.index_of_first('{').unwrap();
            assert(c@[a + k] == '{');
        } else {
            assert forall|k: int| 0 <= k < s.len() implies s[k] != '{' by {
                assert(c@[a + k] != '{');
            }
        }
        if j > a {
            assert(s[j - 1 - a] == '}');
            let k = s.index_of_last('}').unwrap();
            assert(c@[a + k] == '}');
        } else {
            assert forall|k: int| 0 <= k < s.len() implies s[k] != '}' by {
                assert(c@[a + k] != '}');
            }
        }
    }
    if i < b && j > a && i <= j - 1 {
        assert(s.subrange(i - a, j - a) =~= c@.subrange(i as int, j as int));
        (i, j)
    } else {
        assert(s =~= c@.subrange(a as int, b as int));
        (a, b)
    }
}

/// Cleans an answer of the analyser before it is read as JSON.
///
/// Although the system prompt forbids it, the answer may come wrapped in a
/// markdown fence (` ```json `/` ``` `) or with stray text around the JSON
/// object. The fences are removed, then the answer is cut down to the first
/// complete object found (from the first `{` to the last `}`).
pub fn sanitize_json_response(raw: &str) -> (r: &str)
    ensures
        r@ == sanitized(raw@),
{
    let c = chars_of(raw);
    assert(c@.subrange(0, c@.len() as int) =~= c@);
    let (a, b) = trim_range(&c, 0, c.len());
    let (a, b) = unfence_range(&c, a, b);
    let (a, b) = trim_range(&c, a, b);
    let (a, b) = brace_range(&c, a, b);
    raw.substring_char(a, b)
}

/// The format the system prompt asks for the payment date: "AAAA-MM-JJ".
pub const ISO_DATE_FORMAT: &'static str = "[year]-[month]-[day]";

/// The fallback format tried for the payment date, in case the analyser
/// strays from the prompt.
pub const FRENCH_DATE_FORMAT: &'static str = "[day]/[month]/[year]";

/// The Julian day number of the date that `value` spells in the format
/// description `format`, as `time` reads it; `None` when `time` does not
/// accept `value` in that format.
pub uninterp spec fn parsed_julian_day(value: Seq<char>, format: Seq<char>) -> Option<i32>;

/// Reads `value` as a date in the format description `format` with `time`
/// (`time::format_description::parse`, then `time::Date::parse`, then
/// `Date::to_julian_day`). The result is named: it is the Julian day of the
/// date read, `None` where either parse fails; nothing more is claimed.
#[verifier::external_body]
fn julian_day_in_format(value: &str, format: &str) -> (r: Option<i32>)
    ensures
        r == parsed_julian_day(value@, format@),
{
    match time::format_description::parse(format) {
        Ok(items) => match time::Date::parse(value, &items) {
            Ok(date) => Some(date.to_julian_day()),
            Err(_) => None,
        },
        Err(_) => None,
    }
}

/// The payment date read from `value`: trimmed, then read as "AAAA-MM-JJ",
/// or else as "JJ/MM/AAAA"; a Julian day number.
pub open spec fn payment_date_of(value: Seq<char>) -> Option<i32> {
    match parsed_julian_day(trimmed(value), ISO_DATE_FORMAT@) {
        Some(d) => Some(d),
        None => parsed_julian_day(trimmed(value), FRENCH_DATE_FORMAT@),
    }
}

/// Reads the payment date of an analysis (see `payment_date_of`). The system
/// prompt asks for "AAAA-MM-JJ"; "JJ/MM/AAAA" is kept as a fallback in case
/// the analyser strays from it.
pub fn parse_payment_date(value: &str) -> (r: Option<i32>)
    ensures
        r == payment_date_of(value@),
{
    let value = trim(value);
    match julian_day_in_format(value, ISO_DATE_FORMAT) {
        Some(d) => Some(d),
        None => julian_day_in_format(value, FRENCH_DATE_FORMAT),
    }
}

/// The user prompt for the analysis of `file`: the path alone, or, on a
/// retry, the path followed by the error of the previous attempt.
pub open spec fn user_prompt_of(file: Seq<char>, previous_error: Option<Seq<char>>) -> Seq<char> {
    match previous_error {
        Some(e) => "Fichier: "@ + file + "\n\nErreur précédente:\n"@ + e,
        None => file,
    }
}

/// Builds the user prompt for the analysis of `file` (see `user_prompt_of`).
pub fn user_prompt(file: &str, previous_error: Option<&str>) -> (r: String)
    ensures
        r@ == user_prompt_of(file@, match previous_error {
            Some(e) => Some(e@),
            None => None,
        }),
{
    match previous_error {
        Some(error) => {
            let mut r = String::from_str("Fichier: ");
            r.append(file);
            r.append("\n\nErreur précédente:\n");
            r.append(error);
            r
        },
        None => String::from_str(file),
    }
}

/// The text to read as JSON from an answer of the analyser: its cleaned
/// result (see `sanitize_json_response`), or its result as the error when
/// the analyser reports one.
pub fn cleaned_answer(response: &ClaudeResponse) -> (r: Result<&str, String>)
    ensures
        response.is_error ==> r == Err::<&str, String>(response.result),
        !response.is_error ==> (r matches Ok(text) && text@ == sanitized(response.result@)),
{
    if response.is_error {
        return Err(response.result.clone());
    }
    Ok(sanitize_json_response(response.result.as_str()))
}

/// The JSON object the analyser returns for a paystub. The amounts are
/// `f32` values held by their bit patterns.
#[derive(Debug, PartialEq, Eq)]
pub struct ClaudeAnalysis {
    pub payment_date: String,
    pub net_salary_bits: u32,
    pub infos: Vec<(String, String)>,
    pub datas: Vec<(String, u32)>,
}

/// A successful analysis (see `Paystub::to_completed`): the payment date is a
/// Julian day number.
#[derive(Debug, PartialEq, Eq)]
pub struct AnalysisOutcome {
    pub payment_date: i32,
    pub net_salary_bits: u32,
    pub infos: Vec<(String, String)>,
    pub datas: Vec<(String, u32)>,
}

/// The error reported for an unreadable payment date given by the tool
/// `command`.
pub open spec fn invalid_date_message(command: Seq<char>, value: Seq<char>) -> Seq<char> {
    "Date de paiement invalide reçue de "@ + command + ": \""@ + value + "\" (format attendu: AAAA-MM-JJ)"@
}

/// The outcome of an analysis read from the JSON of `analyser`: its data,
/// with its payment date read (see `parse_payment_date`), or an error naming
/// the payment date when it cannot be read.
pub fn analysis_outcome(analyser: &Claude, analysis: ClaudeAnalysis) -> (r: Result<AnalysisOutcome, String>)
    ensures
        match payment_date_of(analysis.payment_date@) {
            Some(d) => r == Ok::<AnalysisOutcome, String>(
                AnalysisOutcome {
                    payment_date: d,
                    net_salary_bits: analysis.net_salary_bits,
                    infos: analysis.infos,
                    datas: analysis.datas,
                },
            ),
            None => (r matches Err(e) && e@ == invalid_date_message(analyser.command@, analysis.payment_date@)),
        },
{
    match parse_payment_date(analysis.payment_date.as_str()) {
        Some(payment_date) => Ok(
            AnalysisOutcome {
                payment_date,
                net_salary_bits: analysis.net_salary_bits,
                infos: analysis.infos,
                datas: analysis.datas,
            },
        ),
        None => {
            let mut e = String::from_str("Date de paiement invalide reçue de ");
            e.append(analyser.command.as_str());
            e.append(": \"");
            e.append(analysis.payment_date.as_str());
            e.append("\" (format attendu: AAAA-MM-JJ)");
            Err(e)
        },
    }
}

/// The paystub as its analysis starts at `now`: a pending paystub moves to
/// `Processing`; a retry (`ProcessingError`) stays as it is.
pub open spec fn started(p: PaystubView, now: DateTime) -> PaystubView {
    match p.processing(now) {
        Ok(q) => q,
        Err(_) => p,
    }
}

/// The error of the previous attempt, on a retry.
pub open spec fn previous_error_of(p: PaystubView) -> Option<Seq<char>> {
    match p.state {
        StateView::ProcessingError { error, .. } => Some(error),
        _ => None,
    }
}

/// Starts the analysis of a paystub: `Pending` moves to `Processing` (at the
/// current time); a retry stays in `ProcessingError`, an accepted starting
/// state. Returns the paystub and, on a retry, the error of the previous
/// attempt, to be handed to the analyser.
pub fn begin_paystub_analysis(paystub: Paystub) -> (r: (Paystub, Option<String>))
    ensures
        exists|now: DateTime| -CLOCK_BOUND_MS <= now <= CLOCK_BOUND_MS && r.0@ == #[trigger] started(paystub@, now),
        match previous_error_of(r.0@) {
            Some(e) => (r.1 matches Some(x) && x@ == e),
            None => r.1 is None,
        },
{
    let now = now_millis();
    let ghost at_start = paystub@;
    let p = match paystub.to_processing_at(now) {
        Ok(p) => p,
        Err(_) => paystub,
    };
    assert(p@ == started(at_start, now));
    let previous = match &p.state {
        PaystubState::ProcessingError { error, .. } => Some(error.clone()),
        _ => None,
    };
    (p, previous)
}

/// The paystub once its analysis ended at `now`: `Completed` with the data
/// of a successful outcome, `ProcessingError` with the error of a failed one;
/// unchanged where the transition is refused.
pub open spec fn ended(p: PaystubView, outcome: Result<AnalysisOutcome, String>, now: DateTime) -> PaystubView {
    match outcome {
        Ok(o) => match p.completed(o.payment_date, o.net_salary_bits, text_pairs_view(o.infos@), number_pairs_view(o.datas@), now) {
            Ok(q) => q,
            Err(_) => p,
        },
        Err(e) => match p.errored(e@, now) {
            Ok(q) => q,
            Err(_) => p,
        },
    }
}

/// Ends the analysis of a paystub with its outcome (see `ended`), at the
/// current time.
pub fn end_paystub_analysis(paystub: Paystub, outcome: Result<AnalysisOutcome, String>) -> (r: Paystub)
    requires
        paystub@.retry_fits(),
    ensures
        exists|now: DateTime| -CLOCK_BOUND_MS <= now <= CLOCK_BOUND_MS && r@ == #[trigger] ended(paystub@, outcome, now),
{
    let now = now_millis();
    let ghost at_start = paystub@;
    let ghost given = outcome;
    let r = match outcome {
        Ok(o) => match paystub.to_completed_at(o.payment_date, o.net_salary_bits, o.infos, o.datas, now) {
            Ok(q) => q,
            Err(_) => paystub,
        },
        Err(e) => match paystub.to_processing_error_at(e.as_str(), now) {
            Ok(q) => q,
            Err(_) => paystub,
        },
    };
    assert(r@ == ended(at_start, given, now));
    r
}

} // verus!
