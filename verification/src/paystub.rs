//! A paystub and the states its analysis goes through.
//!
//! `Pending` (file found, waiting) → `Processing` (analysis running) →
//! `Completed` (data extracted) or `ProcessingError` (analysis failed, retried
//! from there). Every transition restamps `since` with the time it happened.
use vstd::prelude::*;
use crate::pairs::{clone_text_pairs, clone_number_pairs, text_pairs_view, number_pairs_view};

verus! {

/// Milliseconds since the Unix epoch.
pub type DateTime = i64;

/// Beyond this time in `Processing`, a paystub is considered stuck: no
/// analysis is expected to take that long, so either it hangs or the
/// application that drove it was restarted meanwhile (see `Paystub::is_stuck`).
pub const ANALYSE_TIMEOUT_MS: DateTime = 10 * 60 * 1000;

/// A bound on the magnitude of every time the system clock can give
/// (see `now_millis`).
pub const CLOCK_BOUND_MS: DateTime = 100_000_000_000_000_000;

/// Message recorded on a stuck paystub that is put back in error. It is meant
/// to be handed to the analyser as the previous error: not a format problem
/// to correct, just an interrupted analysis to start again.
pub const TIMEOUT_MESSAGE: &'static str = "Timeout : l'analyse précédente de cette fiche a été interrompue avant de produire un résultat (plus de 10 minutes sans réponse, probablement à cause d'un redémarrage de l'application pendant le traitement). Il ne s'agit pas d'une erreur de format : relance simplement une analyse complète du document.";

/// The current time, in milliseconds since the Unix epoch
/// (`time::Timestamp::now().as_milliseconds()`). It depends on the clock, so
/// only its range is stated: a `Timestamp` holds a number of seconds within
/// the years that `time` supports (±9999, or ±999999 with its `large-dates`
/// feature), which keeps the result within `CLOCK_BOUND_MS` either way.
#[verifier::external_body]
pub(crate) fn now_millis() -> (r: DateTime)
    ensures
        -CLOCK_BOUND_MS <= r <= CLOCK_BOUND_MS,
{
    time::Timestamp::now().as_milliseconds()
}

/// Errors on a paystub or its storage.
#[derive(Debug, PartialEq, Eq)]
pub enum PaystubError {
    /// The requested transition is not allowed from the current state.
    Transition { from: &'static str, to: &'static str },
    /// A read or write of the underlying storage failed; holds its message.
    Database(&'static str),
}

/// The state of a paystub. Each variant holds only the data of its state.
#[derive(Debug, PartialEq, Eq)]
pub enum PaystubState {
    /// File found, waiting for its analysis.
    Pending,
    /// Analysis running.
    Processing,
    /// The analysis failed; `retry` counts the attempts.
    ProcessingError { error: String, retry: u8 },
    /// The analysis succeeded. `payment_date` is a Julian day; the amounts
    /// (`net_salary_bits` and the values of `datas`) are `f32` values held by
    /// their bit patterns (`f32::to_bits`).
    Completed {
        payment_date: i32,
        net_salary_bits: u32,
        infos: Vec<(String, String)>,
        datas: Vec<(String, u32)>,
    },
}

/// A paystub being processed. `since` is not the creation time: it is the
/// time the paystub entered its current state.
#[derive(Debug, PartialEq, Eq)]
pub struct Paystub {
    pub file: String,
    pub since: DateTime,
    pub state: PaystubState,
}

/// The mathematical form of a `PaystubState`: texts as sequences of
/// characters.
pub enum StateView {
    Pending,
    Processing,
    ProcessingError { error: Seq<char>, retry: u8 },
    Completed {
        payment_date: i32,
        net_salary_bits: u32,
        infos: Seq<(Seq<char>, Seq<char>)>,
        datas: Seq<(Seq<char>, u32)>,
    },
}

/// The mathematical form of a `Paystub`.
pub struct PaystubView {
    pub file: Seq<char>,
    pub since: DateTime,
    pub state: StateView,
}

impl View for PaystubState {
    type V = StateView;

    open spec fn view(&self) -> StateView {
        match self {
            PaystubState::Pending => StateView::Pending,
            PaystubState::Processing => StateView::Processing,
            PaystubState::ProcessingError { error, retry } => StateView::ProcessingError {
                error: error@,
                retry: *retry,
            },
            PaystubState::Completed { payment_date, net_salary_bits, infos, datas } => {
                StateView::Completed {
                    payment_date: *payment_date,
                    net_salary_bits: *net_salary_bits,
                    infos: text_pairs_view(infos@),
                    datas: number_pairs_view(datas@),
                }
            },
        }
    }
}

impl View for Paystub {
    type V = PaystubView;

    open spec fn view(&self) -> PaystubView {
        PaystubView { file: self.file@, since: self.since, state: self.state@ }
    }
}

/// The mathematical form of the result of a transition.
pub open spec fn outcome_view(r: Result<Paystub, PaystubError>) -> Result<PaystubView, PaystubError> {
    match r {
        Ok(p) => Ok(p@),
        Err(e) => Err(e),
    }
}

/// The name of a state, as reported in transition errors.
pub open spec fn state_name(s: StateView) -> &'static str {
    match s {
        StateView::Pending => "Pending",
        StateView::Processing => "Processing",
        StateView::ProcessingError { .. } => "ProcessingError",
        StateView::Completed { .. } => "Completed",
    }
}

/// The error for a refused transition from `s` to the state named `to`.
pub open spec fn refused(s: StateView, to: &'static str) -> PaystubError {
    PaystubError::Transition { from: state_name(s), to }
}

impl PaystubView {
    /// The paystub moved to `Processing` at `now`: only from `Pending`.
    pub open spec fn processing(self, now: DateTime) -> Result<PaystubView, PaystubError> {
        if self.state is Pending {
            Ok(PaystubView { file: self.file, since: now, state: StateView::Processing })
        } else {
            Err(refused(self.state, "Processing"))
        }
    }

    /// The failure `error` recorded at `now`: from `Processing` a first
    /// failure (`retry` 1), from `ProcessingError` one more attempt.
    pub open spec fn errored(self, error: Seq<char>, now: DateTime) -> Result<PaystubView, PaystubError> {
        match self.state {
            StateView::Processing => Ok(
                PaystubView {
                    file: self.file,
                    since: now,
                    state: StateView::ProcessingError { error, retry: 1 },
                },
            ),
            StateView::ProcessingError { retry, .. } => Ok(
                PaystubView {
                    file: self.file,
                    since: now,
                    state: StateView::ProcessingError { error, retry: (retry + 1) as u8 },
                },
            ),
            _ => Err(refused(self.state, "ProcessingError")),
        }
    }

    /// The paystub completed at `now` with the given data: from `Processing`
    /// or `ProcessingError`.
    pub open spec fn completed(
        self,
        payment_date: i32,
        net_salary_bits: u32,
        infos: Seq<(Seq<char>, Seq<char>)>,
        datas: Seq<(Seq<char>, u32)>,
        now: DateTime,
    ) -> Result<PaystubView, PaystubError> {
        if self.state is Processing || self.state is ProcessingError {
            Ok(
                PaystubView {
                    file: self.file,
                    since: now,
                    state: StateView::Completed { payment_date, net_salary_bits, infos, datas },
                },
            )
        } else {
            Err(refused(self.state, "Completed"))
        }
    }

    /// At `now`, the paystub has been `Processing` for more than
    /// `ANALYSE_TIMEOUT_MS`.
    pub open spec fn stuck_at(self, now: DateTime) -> bool {
        self.state is Processing && now - self.since > ANALYSE_TIMEOUT_MS
    }

    /// A failure can be recorded without overflowing the retry counter.
    pub open spec fn retry_fits(self) -> bool {
        self.state matches StateView::ProcessingError { retry, .. } ==> retry < 255
    }

    /// The time elapsed in `Processing` fits in a `DateTime` whatever time the
    /// clock gives (see `now_millis`): `since` is within
    /// `i64::MAX - CLOCK_BOUND_MS` of 0.
    pub open spec fn since_fits(self) -> bool {
        self.state is Processing ==> -(i64::MAX - CLOCK_BOUND_MS) <= self.since <= i64::MAX - CLOCK_BOUND_MS
    }

    /// The time elapsed in `Processing` up to `now` fits in a `DateTime`.
    pub open spec fn elapsed_fits(self, now: DateTime) -> bool {
        self.state is Processing ==> i64::MIN <= now - self.since <= i64::MAX
    }
}

impl PaystubState {
    /// The name of the state, as reported in transition errors.
    pub fn name(&self) -> (r: &'static str)
        ensures
            r == state_name(self@),
    {
        match self {
            PaystubState::Pending => "Pending",
            PaystubState::Processing => "Processing",
            PaystubState::ProcessingError { .. } => "ProcessingError",
            PaystubState::Completed { .. } => "Completed",
        }
    }
}

impl Clone for PaystubState {
    fn clone(&self) -> (r: Self)
        ensures
            r@ == self@,
    {
        match self {
            PaystubState::Pending => PaystubState::Pending,
            PaystubState::Processing => PaystubState::Processing,
            PaystubState::ProcessingError { error, retry } => PaystubState::ProcessingError {
                error: error.clone(),
                retry: *retry,
            },
            PaystubState::Completed { payment_date, net_salary_bits, infos, datas } => {
                PaystubState::Completed {
                    payment_date: *payment_date,
                    net_salary_bits: *net_salary_bits,
                    infos: clone_text_pairs(infos),
                    datas: clone_number_pairs(datas),
                }
            },
        }
    }
}

impl Clone for Paystub {
    fn clone(&self) -> (r: Self)
        ensures
            r@ == self@,
    {
        Paystub { file: self.file.clone(), since: self.since, state: self.state.clone() }
    }
}

impl Paystub {
    /// A new paystub, `Pending` since `now`.
    pub fn pending_at(file: String, now: DateTime) -> (r: Paystub)
        ensures
            r@ == (PaystubView { file: file@, since: now, state: StateView::Pending }),
    {
        Paystub { file, since: now, state: PaystubState::Pending }
    }

    /// A new paystub, `Pending` since the current time.
    pub fn pending(file: String) -> (r: Paystub)
        ensures
            r@.file == file@,
            r@.state == StateView::Pending,
            -CLOCK_BOUND_MS <= r.since <= CLOCK_BOUND_MS,
    {
        Self::pending_at(file, now_millis())
    }

    /// Moves the paystub to `Processing` at `now`. Only a `Pending` paystub
    /// can; any other state gives `PaystubError::Transition`.
    pub fn to_processing_at(&self, now: DateTime) -> (r: Result<Paystub, PaystubError>)
        ensures
            outcome_view(r) == self@.processing(now),
    {
        match &self.state {
            PaystubState::Pending => Ok(
                Paystub { file: self.file.clone(), since: now, state: PaystubState::Processing },
            ),
            _ => Err(PaystubError::Transition { from: self.state.name(), to: "Processing" }),
        }
    }

    /// Moves the paystub to `Processing` at the current time (see
    /// `to_processing_at`).
    pub fn to_processing(&self) -> (r: Result<Paystub, PaystubError>)
        ensures
            exists|now: DateTime|
                -CLOCK_BOUND_MS <= now <= CLOCK_BOUND_MS && outcome_view(r) == #[trigger] self@.processing(now),
    {
        let now = now_millis();
        self.to_processing_at(now)
    }

    /// Records the failure `error` at `now`: allowed from `Processing` (first
    /// error, `retry = 1`) and from `ProcessingError` (another attempt, `retry`
    /// incremented); any other state gives `PaystubError::Transition`.
    pub fn to_processing_error_at(&self, error: &str, now: DateTime) -> (r: Result<
        Paystub,
        PaystubError,
    >)
        requires
            self@.retry_fits(),
        ensures
            outcome_view(r) == self@.errored(error@, now),
    {
        match &self.state {
            PaystubState::Processing => Ok(
                Paystub {
                    file: self.file.clone(),
                    since: now,
                    state: PaystubState::ProcessingError { error: String::from_str(error), retry: 1 },
                },
            ),
            PaystubState::ProcessingError { retry, .. } => Ok(
                Paystub {
                    file: self.file.clone(),
                    since: now,
                    state: PaystubState::ProcessingError {
                        error: String::from_str(error),
                        retry: *retry + 1,
                    },
                },
            ),
            _ => Err(PaystubError::Transition { from: self.state.name(), to: "ProcessingError" }),
        }
    }

    /// Records the failure `error` at the current time (see
    /// `to_processing_error_at`).
    pub fn to_processing_error(&self, error: &str) -> (r: Result<Paystub, PaystubError>)
        requires
            self@.retry_fits(),
        ensures
            exists|now: DateTime|
                -CLOCK_BOUND_MS <= now <= CLOCK_BOUND_MS && outcome_view(r) == #[trigger] self@.errored(
                    error@,
                    now,
                ),
    {
        let now = now_millis();
        self.to_processing_error_at(error, now)
    }

    /// Moves the paystub to `Completed` at `now` with the extracted data.
    /// Allowed from `Processing` and from `ProcessingError` (a successful
    /// retry completes directly); any other state gives
    /// `PaystubError::Transition`.
    pub fn to_completed_at(
        &self,
        payment_date: i32,
        net_salary_bits: u32,
        infos: Vec<(String, String)>,
        datas: Vec<(String, u32)>,
        now: DateTime,
    ) -> (r: Result<Paystub, PaystubError>)
        ensures
            outcome_view(r) == self@.completed(
                payment_date,
                net_salary_bits,
                text_pairs_view(infos@),
                number_pairs_view(datas@),
                now,
            ),
    {
        match &self.state {
            PaystubState::Processing | PaystubState::ProcessingError { .. } => Ok(
                Paystub {
                    file: self.file.clone(),
                    since: now,
                    state: PaystubState::Completed { payment_date, net_salary_bits, infos, datas },
                },
            ),
            _ => Err(PaystubError::Transition { from: self.state.name(), to: "Completed" }),
        }
    }

    /// Moves the paystub to `Completed` at the current time (see
    /// `to_completed_at`).
    pub fn to_completed(
        &self,
        payment_date: i32,
        net_salary_bits: u32,
        infos: Vec<(String, String)>,
        datas: Vec<(String, u32)>,
    ) -> (r: Result<Paystub, PaystubError>)
        ensures
            exists|now: DateTime|
                -CLOCK_BOUND_MS <= now <= CLOCK_BOUND_MS && outcome_view(r) == #[trigger] self@.completed(
                    payment_date,
                    net_salary_bits,
                    text_pairs_view(infos@),
                    number_pairs_view(datas@),
                    now,
                ),
    {
        let now = now_millis();
        self.to_completed_at(payment_date, net_salary_bits, infos, datas, now)
    }

    /// The paystub has been `Processing` for more than `ANALYSE_TIMEOUT_MS`
    /// at `now`.
    pub fn is_stuck_at(&self, now: DateTime) -> (r: bool)
        requires
            self@.elapsed_fits(now),
        ensures
            r == self@.stuck_at(now),
    {
        match &self.state {
            PaystubState::Processing => now - self.since > ANALYSE_TIMEOUT_MS,
            _ => false,
        }
    }

    /// The paystub has been `Processing` for more than `ANALYSE_TIMEOUT_MS`
    /// at the current time (see `is_stuck_at`).
    pub fn is_stuck(&self) -> (r: bool)
        requires
            self@.since_fits(),
        ensures
            exists|now: DateTime|
                -CLOCK_BOUND_MS <= now <= CLOCK_BOUND_MS && r == #[trigger] self@.stuck_at(now),
    {
        let now = now_millis();
        self.is_stuck_at(now)
    }

    /// Puts a stuck paystub (see `is_stuck`) back in `ProcessingError` at
    /// `now`, with `TIMEOUT_MESSAGE` as its error.
    pub fn to_timed_out_at(&self, now: DateTime) -> (r: Result<Paystub, PaystubError>)
        requires
            self@.retry_fits(),
        ensures
            outcome_view(r) == self@.errored(TIMEOUT_MESSAGE@, now),
    {
        self.to_processing_error_at(TIMEOUT_MESSAGE, now)
    }

    /// Puts a stuck paystub back in `ProcessingError` at the current time (see
    /// `to_timed_out_at`).
    pub fn to_timed_out(&self) -> (r: Result<Paystub, PaystubError>)
        requires
            self@.retry_fits(),
        ensures
            exists|now: DateTime|
                -CLOCK_BOUND_MS <= now <= CLOCK_BOUND_MS && outcome_view(r) == #[trigger] self@.errored(
                    TIMEOUT_MESSAGE@,
                    now,
                ),
    {
        let now = now_millis();
        self.to_timed_out_at(now)
    }
}

} // verus!
