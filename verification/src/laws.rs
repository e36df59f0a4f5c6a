//! Properties that relate several operations of the library, or hold of
//! every input of one.
use vstd::prelude::*;
use crate::keys::{normalized, folded, ascii_lower, is_ascii_alnum, lemma_normalized_push,
    first_similar, renamed, reconciled};
use crate::text::{is_white, trim_start, trim_end, trimmed};
use crate::analysis::{sanitized, unfenced, braced, json_fence, fence, payment_date_of, started, ended, AnalysisOutcome};
use crate::paystub::{PaystubView, StateView, DateTime, TIMEOUT_MESSAGE};
use crate::queue::{dispatching, dispatch_count, eligible_positions, lemma_eligible_positions, awaits_analysis, reaping, reaped, MAX_CONCURRENT_ANALYSES};
use crate::graph::{bucket_label, month_name_of, strictly_sorted, filter_keys, completed_count};
use crate::queue::texts;
use crate::text::{text_lt, lemma_text_lt_irreflexive, lemma_text_lt_transitive};
use crate::text::{decimal, contains_text};
use crate::server::{removed, unfenced_answer};
use crate::pairs::{put, unique_labels, has_label, first_with_label, lemma_first_with_label};
use crate::paystub::{Paystub, PaystubState};
use crate::store::matching_positions;
use crate::queue::received;
use crate::keys::known_labels;
use crate::pairs::{text_pairs_view, number_pairs_view};
use crate::graph::{monthly_entries, month_entry, plotted_value, calendar_month};

verus! {

/// A character that normalisation keeps as it is: an ASCII digit or
/// lower-case letter.
pub open spec fn is_normal_char(c: char) -> bool {
    ('0' <= c && c <= '9') || ('a' <= c && c <= 'z')
}

proof fn lemma_normalized_chars(s: Seq<char>)
    ensures
        forall|i: int| 0 <= i < normalized(s).len() ==> is_normal_char(#[trigger] normalized(s)[i]),
    decreases s.len(),
{
    if s.len() == 0 {
        reveal(Seq::filter);
        assert(normalized(s) =~= Seq::<char>::empty());
    } else {
        let init = s.drop_last();
        lemma_normalized_chars(init);
        assert(init.push(s.last()) =~= s);
        lemma_normalized_push(init, s.last());
        let c = folded(s.last());
        if is_ascii_alnum(c) {
            if 'A' <= c && c <= 'Z' {
                assert('a' <= ascii_lower(c) && ascii_lower(c) <= 'z');
            }
        }
    }
}

proof fn lemma_normalized_of_normal(t: Seq<char>)
    requires
        forall|i: int| 0 <= i < t.len() ==> is_normal_char(#[trigger] t[i]),
    ensures
        normalized(t) == t,
    decreases t.len(),
{
    if t.len() == 0 {
        reveal(Seq::filter);
        assert(normalized(t) =~= t);
    } else {
        let init = t.drop_last();
        lemma_normalized_of_normal(init);
        assert(init.push(t.last()) =~= t);
        lemma_normalized_push(init, t.last());
        assert(is_normal_char(t[t.len() - 1]));
    }
}

/// Normalising a label twice gives its normalised form: a normalised label
/// is made of ASCII digits and lower-case letters only, which normalisation
/// keeps.
pub proof fn law_normalize_idempotent(s: Seq<char>)
    ensures
        normalized(normalized(s)) == normalized(s),
        forall|i: int| 0 <= i < normalized(s).len() ==> is_normal_char(#[trigger] normalized(s)[i]),
{
    lemma_normalized_chars(s);
    lemma_normalized_of_normal(normalized(s));
}

proof fn lemma_first_similar_matches(known: Seq<String>, n: Seq<char>)
    ensures
        first_similar(known, n) matches Some(c) ==> normalized(c@) == n,
    decreases known.len(),
{
    if known.len() > 0 {
        lemma_first_similar_matches(known.drop_last(), n);
    }
}

/// Reconciling a label never changes its normalised form: a label is only
/// ever replaced by a known label that normalises to the same text.
pub proof fn law_rename_keeps_normal_form(known: Seq<String>, k: String)
    ensures
        normalized(renamed(known, k)@) == normalized(k@),
{
    lemma_first_similar_matches(known, normalized(k@));
}

/// With no known label, reconciling a map (a list of pairs with distinct
/// labels) leaves it as it is.
pub proof fn law_reconcile_without_known_labels<V>(input: Seq<(String, V)>)
    requires
        unique_labels(input),
    ensures
        reconciled(Seq::<String>::empty(), input) == input,
    decreases input.len(),
{
    if input.len() > 0 {
        let init = input.drop_last();
        assert(unique_labels(init)) by {
            assert forall|i: int, j: int| 0 <= i < init.len() && 0 <= j < init.len() && i != j implies #[trigger] init[i].0@ != #[trigger] init[j].0@ by {
                assert(input[i].0@ != input[j].0@);
            }
        }
        law_reconcile_without_known_labels(init);
        let last = input.last();
        assert(renamed(Seq::<String>::empty(), last.0) == last.0);
        assert(!has_label(init, last.0@)) by {
            if has_label(init, last.0@) {
                let j = choose|j: int| 0 <= j < init.len() && #[trigger] init[j].0@ == last.0@;
                assert(input[j].0@ != input[input.len() - 1].0@);
            }
        }
        assert(init.push(last) =~= input);
    }
}

proof fn lemma_trim_start_shape(s: Seq<char>)
    ensures
        trim_start(s).len() > 0 ==> !is_white(trim_start(s)[0]),
        exists|k: int| 0 <= k <= s.len() && trim_start(s) == s.skip(k),
    decreases s.len(),
{
    if s.len() > 0 && is_white(s[0]) {
        lemma_trim_start_shape(s.drop_first());
        let k = choose|k: int| 0 <= k <= s.drop_first().len() && trim_start(s.drop_first()) == s.drop_first().skip(k);
        assert(s.drop_first().skip(k) =~= s.skip(k + 1));
    } else {
        assert(s.skip(0) =~= s);
    }
}

proof fn lemma_trim_end_shape(s: Seq<char>)
    ensures
        trim_end(s).len() > 0 ==> !is_white(trim_end(s).last()),
        exists|k: int| 0 <= k <= s.len() && trim_end(s) == s.take(k),
        s.len() > 0 && !is_white(s[0]) ==> trim_end(s).len() > 0 && trim_end(s)[0] == s[0],
    decreases s.len(),
{
    if s.len() > 0 && is_white(s.last()) {
        lemma_trim_end_shape(s.drop_last());
        let k = choose|k: int| 0 <= k <= s.drop_last().len() && trim_end(s.drop_last()) == s.drop_last().take(k);
        assert(s.drop_last().take(k) =~= s.take(k));
    } else {
        assert(s.take(s.len() as int) =~= s);
    }
}

proof fn lemma_trimmed_shape(s: Seq<char>)
    ensures
        trimmed(s).len() > 0 ==> !is_white(trimmed(s)[0]) && !is_white(trimmed(s).last()),
{
    lemma_trim_start_shape(s);
    lemma_trim_end_shape(trim_start(s));
}

proof fn lemma_trimmed_bare(t: Seq<char>)
    requires
        t.len() > 0 ==> !is_white(t[0]) && !is_white(t.last()),
    ensures
        trimmed(t) == t,
{
}

/// Trimming twice is trimming once.
pub proof fn law_trim_idempotent(s: Seq<char>)
    ensures
        trimmed(trimmed(s)) == trimmed(s),
{
    lemma_trimmed_shape(s);
    lemma_trimmed_bare(trimmed(s));
}

/// The payment date read from a text does not depend on the white space
/// around it.
pub proof fn law_payment_date_ignores_surrounding_space(s: Seq<char>)
    ensures
        payment_date_of(trimmed(s)) == payment_date_of(s),
{
    law_trim_idempotent(s);
}

/// A bare JSON object (from its `{` to its `}`) comes out of the cleaning of
/// answers as it went in.
pub proof fn law_sanitize_keeps_bare_object(x: Seq<char>)
    requires
        x.len() > 0,
        x[0] == '{',
        x.last() == '}',
    ensures
        sanitized(x) == x,
{
    lemma_trimmed_bare(x);
    assert(x.len() >= 7 ==> x.take(7) != json_fence()) by {
        if x.len() >= 7 {
            assert(x.take(7)[0] == '{');
            assert(json_fence()[0] == '`');
        }
    }
    assert(x.len() >= 3 ==> x.take(3) != fence()) by {
        if x.len() >= 3 {
            assert(x.take(3)[0] == '{');
            assert(fence()[0] == '`');
        }
    }
    assert(x.len() >= 3 ==> x.skip(x.len() - 3) != fence()) by {
        if x.len() >= 3 {
            assert(x.skip(x.len() - 3)[2] == '}');
            assert(fence()[2] == '`');
        }
    }
    assert(unfenced(x) == x);
    x.index_of_first_ensures('{');
    x.index_of_last_ensures('}');
    assert(x.contains('{'));
    assert(x.contains('}'));
    assert(x.subrange(0, x.len() as int) =~= x);
}

/// Cleaning an answer a second time changes nothing, once the first cleaning
/// found a JSON object in it.
pub proof fn law_sanitize_idempotent(raw: Seq<char>)
    requires
        sanitized(raw).len() > 0,
        sanitized(raw)[0] == '{',
        sanitized(raw).last() == '}',
    ensures
        sanitized(sanitized(raw)) == sanitized(raw),
{
    law_sanitize_keeps_bare_object(sanitized(raw));
}

/// No transition changes the file of a paystub.
pub proof fn law_transitions_keep_file(
    p: PaystubView,
    error: Seq<char>,
    payment_date: i32,
    net_salary_bits: u32,
    infos: Seq<(Seq<char>, Seq<char>)>,
    datas: Seq<(Seq<char>, u32)>,
    now: DateTime,
)
    ensures
        p.processing(now) matches Ok(q) ==> q.file == p.file,
        p.errored(error, now) matches Ok(q) ==> q.file == p.file,
        p.completed(payment_date, net_salary_bits, infos, datas, now) matches Ok(q) ==> q.file == p.file,
{
}

/// A completed paystub is final: it refuses every transition.
pub proof fn law_completed_is_final(
    p: PaystubView,
    error: Seq<char>,
    payment_date: i32,
    net_salary_bits: u32,
    infos: Seq<(Seq<char>, Seq<char>)>,
    datas: Seq<(Seq<char>, u32)>,
    now: DateTime,
)
    requires
        p.state is Completed,
    ensures
        p.processing(now) is Err,
        p.errored(error, now) is Err,
        p.completed(payment_date, net_salary_bits, infos, datas, now) is Err,
{
}

/// A stuck paystub can always be timed out: it goes to `ProcessingError`
/// with a first attempt counted and the timeout message.
pub proof fn law_stuck_times_out(p: PaystubView, now: DateTime)
    requires
        p.stuck_at(now),
    ensures
        p.errored(TIMEOUT_MESSAGE@, now) == Ok::<PaystubView, crate::paystub::PaystubError>(
            PaystubView {
                file: p.file,
                since: now,
                state: StateView::ProcessingError { error: TIMEOUT_MESSAGE@, retry: 1 },
            },
        ),
{
}

/// An analysis never leaves a paystub where it was: started and then ended,
/// a paystub that was not completed ends `Completed` (on success) or
/// `ProcessingError` (on failure).
pub proof fn law_analysis_always_concludes(
    p: PaystubView,
    outcome: Result<AnalysisOutcome, String>,
    start: DateTime,
    end: DateTime,
)
    requires
        !(p.state is Completed),
    ensures
        outcome is Ok ==> ended(started(p, start), outcome, end).state is Completed,
        outcome is Err ==> ended(started(p, start), outcome, end).state is ProcessingError,
{
}

/// Dispatching never puts more than `MAX_CONCURRENT_ANALYSES` paystubs in
/// flight (when there were no more before).
pub proof fn law_dispatch_respects_limit(
    before: Seq<(String, Paystub)>,
    after: Seq<(String, Paystub)>,
    flight_before: Set<Seq<char>>,
    flight_after: Set<Seq<char>>,
    sent: Seq<(String, Paystub)>,
    now: DateTime,
)
    requires
        dispatching(before, after, flight_before, flight_after, sent, now),
        flight_before.len() <= MAX_CONCURRENT_ANALYSES,
    ensures
        flight_after.len() <= MAX_CONCURRENT_ANALYSES,
        flight_after.len() < MAX_CONCURRENT_ANALYSES ==> sent.len() == eligible_positions(
            before,
            flight_before,
            before.len() as int,
        ).len(),
{
}

/// Dispatching never sends a paystub that is already in flight, nor the same
/// paystub twice, and only sends paystubs that await an analysis (pending or
/// failed).
pub proof fn law_dispatch_never_resends(
    before: Seq<(String, Paystub)>,
    after: Seq<(String, Paystub)>,
    flight_before: Set<Seq<char>>,
    flight_after: Set<Seq<char>>,
    sent: Seq<(String, Paystub)>,
    now: DateTime,
)
    requires
        unique_labels(before),
        dispatching(before, after, flight_before, flight_after, sent, now),
    ensures
        forall|t: int| 0 <= t < sent.len() ==> !flight_before.contains(#[trigger] sent[t].0@),
        forall|t: int| 0 <= t < sent.len() ==> awaits_analysis(#[trigger] sent[t].1@),
        forall|t: int, u: int| 0 <= t < u < sent.len() ==> #[trigger] sent[t].0@ != #[trigger] sent[u].0@,
{
    let e = eligible_positions(before, flight_before, before.len() as int);
    lemma_eligible_positions(before, flight_before, before.len() as int);
    assert forall|t: int| 0 <= t < sent.len() implies !flight_before.contains(#[trigger] sent[t].0@) && awaits_analysis(sent[t].1@) by {
        assert(0 <= e[t] < before.len());
    }
    assert forall|t: int, u: int| 0 <= t < u < sent.len() implies #[trigger] sent[t].0@ != #[trigger] sent[u].0@ by {
        assert(e[t] < e[u]);
        assert(before[e[t]].0@ != before[e[u]].0@);
    }
}

/// Once the stuck paystubs are reaped at `now`, none is stuck at `now`.
pub proof fn law_reaping_leaves_none_stuck(
    before: Seq<(String, Paystub)>,
    after: Seq<(String, Paystub)>,
    flight_before: Set<Seq<char>>,
    flight_after: Set<Seq<char>>,
    changed: bool,
    now: DateTime,
)
    requires
        reaping(before, after, flight_before, flight_after, changed, now),
    ensures
        forall|i: int| 0 <= i < after.len() ==> !(#[trigger] after[i]).1@.stuck_at(now),
{
    assert forall|i: int| 0 <= i < after.len() implies !(#[trigger] after[i]).1@.stuck_at(now) by {
        assert(after[i].1@ == reaped(before[i].1@, now));
    }
}

/// The label of the month index of a date names that date's month and year.
pub proof fn law_month_label_names_the_month(year: int, month: int)
    requires
        1 <= month <= 12,
    ensures
        bucket_label(year * 12 + month - 1) == month_name_of(month - 1)@ + seq![' '] + decimal(year),
{
    assert((year * 12 + month - 1) % 12 == month - 1 && (year * 12 + month - 1) / 12 == year) by (nonlinear_arith)
        requires
            1 <= month <= 12,
    ;
}


/// A text that does not start with a backtick keeps its first character when
/// the fences are removed from it.
proof fn lemma_removed_keeps_head(s: Seq<char>)
    requires
        s.len() > 0,
        s[0] != '`',
    ensures
        removed(s, fence()).len() > 0,
        removed(s, fence())[0] == s[0],
{
    if s.len() >= 3 {
        assert(s.take(3)[0] != fence()[0]);
    }
}

/// Once every fence is removed from a text, none is left in it: removing an
/// occurrence never makes a new one out of what surrounds it.
proof fn lemma_removed_has_no_fence(s: Seq<char>)
    ensures
        !contains_text(removed(s, fence()), fence()),
    decreases s.len(),
{
    let f = fence();
    let r = removed(s, f);
    if s.len() < 3 {
        assert(r == s);
    } else if s.take(3) == f {
        lemma_removed_has_no_fence(s.skip(3));
    } else {
        let t = s.drop_first();
        lemma_removed_has_no_fence(t);
        let rt = removed(t, f);
        assert(r == seq![s[0]] + rt);
        if s[0] == '`' {
            if s[1] != '`' {
                lemma_removed_keeps_head(t);
            } else {
                assert(s[2] != '`') by {
                    if s[2] == '`' {
                        assert(s.take(3) =~= f);
                    }
                }
                if t.len() >= 3 {
                    assert(t.take(3) != f) by {
                        assert(t.take(3)[1] == s[2]);
                    }
                    let u = t.drop_first();
                    lemma_removed_keeps_head(u);
                    assert(rt == seq![t[0]] + removed(u, f));
                } else {
                    assert(rt == t);
                }
                assert(rt.len() >= 2 && rt[1] == s[2]);
            }
        }
        assert forall|i: int| 0 <= i && i + f.len() <= r.len() implies #[trigger] r.subrange(i, i + f.len()) != f by {
            if i == 0 {
                if s[0] == '`' {
                    if s[1] != '`' {
                        assert(r.subrange(0, 3)[1] == rt[0]);
                        assert(rt[0] != f[1]);
                    } else {
                        assert(r.subrange(0, 3)[2] == rt[1]);
                        assert(rt[1] != f[2]);
                    }
                } else {
                    assert(r.subrange(0, 3)[0] == s[0]);
                    assert(s[0] != f[0]);
                }
            } else {
                assert(r.subrange(i, i + f.len()) =~= rt.subrange(i - 1, (i - 1) + f.len()));
                assert(rt.subrange(i - 1, (i - 1) + f.len()) != f);
            }
        }
    }
}

/// The answer of the analyser keeps no markdown fence ("```") once the
/// server has removed them.
pub proof fn law_strip_fences_leaves_no_fence(answer: Seq<char>)
    ensures
        !contains_text(unfenced_answer(answer), "```"@),
{
    reveal_strlit("```");
    assert("```"@ =~= fence());
    lemma_removed_has_no_fence(removed(answer, "```json"@));
}


/// No character of `s` outside `a..b` is a brace.
pub open spec fn braces_within(s: Seq<char>, a: int, b: int) -> bool {
    forall|i: int| (0 <= i < a || b <= i < s.len()) ==> #[trigger] s[i] != '{' && s[i] != '}'
}

proof fn lemma_trim_start_range(s: Seq<char>) -> (k: int)
    ensures
        0 <= k <= s.len(),
        trim_start(s) == s.subrange(k, s.len() as int),
        braces_within(s, k, s.len() as int),
    decreases s.len(),
{
    if s.len() > 0 && is_white(s[0]) {
        let k1 = lemma_trim_start_range(s.drop_first());
        assert(s.drop_first().subrange(k1, s.drop_first().len() as int) =~= s.subrange(k1 + 1, s.len() as int));
        assert forall|i: int| (0 <= i < k1 + 1 || s.len() <= i < s.len()) implies #[trigger] s[i] != '{' && s[i] != '}' by {
            if i > 0 {
                assert(s[i] == s.drop_first()[i - 1]);
            }
        }
        k1 + 1
    } else {
        assert(s.subrange(0, s.len() as int) =~= s);
        0
    }
}

proof fn lemma_trim_end_range(s: Seq<char>) -> (k: int)
    ensures
        0 <= k <= s.len(),
        trim_end(s) == s.subrange(0, k),
        braces_within(s, 0, k),
    decreases s.len(),
{
    if s.len() > 0 && is_white(s.last()) {
        let k1 = lemma_trim_end_range(s.drop_last());
        assert(s.drop_last().subrange(0, k1) =~= s.subrange(0, k1));
        assert forall|i: int| (0 <= i < 0 || k1 <= i < s.len()) implies #[trigger] s[i] != '{' && s[i] != '}' by {
            if i < s.len() - 1 {
                assert(s[i] == s.drop_last()[i]);
            }
        }
        k1
    } else {
        assert(s.subrange(0, s.len() as int) =~= s);
        s.len() as int
    }
}

/// `s[a..b]` as a part of `s`, and `t[c..d]` as a part of that part.
proof fn lemma_braces_within_nested(s: Seq<char>, a: int, b: int, c: int, d: int)
    requires
        0 <= a <= b <= s.len(),
        0 <= c <= d <= b - a,
        braces_within(s, a, b),
        braces_within(s.subrange(a, b), c, d),
    ensures
        braces_within(s, a + c, a + d),
        s.subrange(a, b).subrange(c, d) == s.subrange(a + c, a + d),
{
    let t = s.subrange(a, b);
    assert forall|i: int| (0 <= i < a + c || a + d <= i < s.len()) implies #[trigger] s[i] != '{' && s[i] != '}' by {
        if a <= i < b {
            assert(s[i] == t[i - a]);
        }
    }
    assert(t.subrange(c, d) =~= s.subrange(a + c, a + d));
}

proof fn lemma_trimmed_range(s: Seq<char>) -> (r: (int, int))
    ensures
        0 <= r.0 <= r.1 <= s.len(),
        trimmed(s) == s.subrange(r.0, r.1),
        braces_within(s, r.0, r.1),
{
    let a = lemma_trim_start_range(s);
    let t = s.subrange(a, s.len() as int);
    let d = lemma_trim_end_range(t);
    lemma_braces_within_nested(s, a, s.len() as int, 0, d);
    (a, a + d)
}

proof fn lemma_unfenced_range(s: Seq<char>) -> (r: (int, int))
    ensures
        0 <= r.0 <= r.1 <= s.len(),
        unfenced(s) == s.subrange(r.0, r.1),
        braces_within(s, r.0, r.1),
{
    let jf = json_fence();
    let f = fence();
    assert(jf[0] == '`' && jf[1] == '`' && jf[2] == '`' && jf[3] == 'j' && jf[4] == 's' && jf[5] == 'o' && jf[6] == 'n');
    assert(f[0] == '`' && f[1] == '`' && f[2] == '`');
    let p: int = if s.len() >= 7 && s.take(7) == jf {
        7
    } else if s.len() >= 3 && s.take(3) == f {
        3
    } else {
        0
    };
    let a = s.skip(p);
    let q: int = if a.len() >= 3 && a.skip(a.len() - 3) == f {
        s.len() - 3
    } else {
        s.len() as int
    };
    assert(a =~= s.subrange(p, s.len() as int));
    assert(s.skip(0) =~= s);
    let ua = if s.len() >= 7 && s.take(7) == jf {
        s.skip(7)
    } else if s.len() >= 3 && s.take(3) == f {
        s.skip(3)
    } else {
        s
    };
    assert(ua == a);
    if a.len() >= 3 && a.skip(a.len() - 3) == f {
        assert(a.take(a.len() - 3) =~= s.subrange(p, q));
    } else {
        assert(a =~= s.subrange(p, q));
    }
    assert(unfenced(s) == s.subrange(p, q));
    assert forall|i: int| (0 <= i < p || q <= i < s.len()) implies #[trigger] s[i] != '{' && s[i] != '}' by {
        if i < p {
            if p == 7 {
                assert(s[i] == s.take(7)[i]);
            } else {
                assert(s[i] == s.take(3)[i]);
            }
        } else {
            assert(s[i] == a.skip(a.len() - 3)[i - (s.len() - 3)]);
        }
    }
    (p, q)
}

/// The cleaned answer is the part of the raw answer from its first `{` to its
/// last `}`, whatever fences or text surround it, as soon as a `{` comes
/// before a `}`; and cleaning it again changes nothing.
#[verifier::spinoff_prover]
#[verifier::rlimit(40)]
pub proof fn law_sanitize_takes_the_braced_span(raw: Seq<char>)
    requires
        exists|i: int, j: int| 0 <= i < j < raw.len() && raw[i] == '{' && raw[j] == '}',
    ensures
        raw.index_of_first('{') is Some,
        raw.index_of_last('}') is Some,
        sanitized(raw) == raw.subrange(
            raw.index_of_first('{').unwrap(),
            raw.index_of_last('}').unwrap() + 1,
        ),
        sanitized(sanitized(raw)) == sanitized(raw),
{
    let (i0, j0) = choose|i: int, j: int| 0 <= i < j < raw.len() && raw[i] == '{' && raw[j] == '}';
    let (a1, b1) = lemma_trimmed_range(raw);
    let s1 = raw.subrange(a1, b1);
    let (c2, d2) = lemma_unfenced_range(s1);
    lemma_braces_within_nested(raw, a1, b1, c2, d2);
    let a2 = a1 + c2;
    let b2 = a1 + d2;
    let s2 = raw.subrange(a2, b2);
    let (c3, d3) = lemma_trimmed_range(s2);
    lemma_braces_within_nested(raw, a2, b2, c3, d3);
    let a = a2 + c3;
    let b = a2 + d3;
    let t = raw.subrange(a, b);
    assert(trimmed(unfenced(trimmed(raw))) == t);
    // Every brace of `raw` lies in `t`.
    assert(a <= i0 < b && a <= j0 < b);
    raw.index_of_first_ensures('{');
    raw.index_of_last_ensures('}');
    t.index_of_first_ensures('{');
    t.index_of_last_ensures('}');
    assert(t[i0 - a] == '{');
    assert(t[j0 - a] == '}');
    assert(t.contains('{') && t.contains('}'));
    assert(raw.contains('{') && raw.contains('}'));
    let fi = raw.index_of_first('{').unwrap();
    let li = raw.index_of_last('}').unwrap();
    let ft = t.index_of_first('{').unwrap();
    let lt = t.index_of_last('}').unwrap();
    assert(a <= fi < b && a <= li < b);
    assert(ft == fi - a) by {
        assert(t[fi - a] == '{');
        if ft < fi - a {
            assert(raw[ft + a] == t[ft]);
        }
    }
    assert(lt == li - a) by {
        assert(t[li - a] == '}');
        if lt > li - a {
            assert(raw[lt + a] == t[lt]);
        }
    }
    assert(fi <= i0 && j0 <= li);
    assert(t.subrange(ft, lt + 1) =~= raw.subrange(fi, li + 1));
    assert(sanitized(raw) == raw.subrange(fi, li + 1));
    law_sanitize_idempotent(raw);
}


/// Normalising a concatenation is concatenating the normalised parts.
pub proof fn law_normalize_distributes_over_concat(a: Seq<char>, b: Seq<char>)
    ensures
        normalized(a + b) == normalized(a) + normalized(b),
    decreases b.len(),
{
    if b.len() == 0 {
        assert(a + b =~= a);
        reveal(Seq::filter);
        assert(normalized(b) =~= Seq::<char>::empty());
        assert(normalized(a) + normalized(b) =~= normalized(a));
    } else {
        let init = b.drop_last();
        let c = b.last();
        law_normalize_distributes_over_concat(a, init);
        assert(a + b =~= (a + init).push(c));
        assert(init.push(c) =~= b);
        lemma_normalized_push(a + init, c);
        lemma_normalized_push(init, c);
        if is_ascii_alnum(folded(c)) {
            assert(normalized(a) + normalized(init).push(ascii_lower(folded(c))) =~= (normalized(a)
                + normalized(init)).push(ascii_lower(folded(c))));
        }
    }
}

/// The upper-case form of an ASCII letter (other characters are unchanged),
/// as `char::to_ascii_uppercase` gives it.
pub open spec fn ascii_upper(c: char) -> char {
    if 'a' <= c && c <= 'z' {
        ((c as u32) - 32) as char
    } else {
        c
    }
}

/// A text with its ASCII letters upper-cased (`str::to_ascii_uppercase`).
pub open spec fn ascii_upper_text(s: Seq<char>) -> Seq<char> {
    s.map_values(|c: char| ascii_upper(c))
}

/// Upper-casing the ASCII letters of a label does not change its normalised
/// form.
pub proof fn law_normalize_ignores_upper_case(s: Seq<char>)
    ensures
        normalized(ascii_upper_text(s)) == normalized(s),
    decreases s.len(),
{
    if s.len() == 0 {
        assert(ascii_upper_text(s) =~= s);
    } else {
        let init = s.drop_last();
        let c = s.last();
        law_normalize_ignores_upper_case(init);
        assert(init.push(c) =~= s);
        assert(ascii_upper_text(s) =~= ascii_upper_text(init).push(ascii_upper(c)));
        lemma_normalized_push(init, c);
        lemma_normalized_push(ascii_upper_text(init), ascii_upper(c));
        if 'a' <= c && c <= 'z' {
            let u = ascii_upper(c);
            assert('A' <= u && u <= 'Z');
            assert(folded(u) == u);
            assert(folded(c) == c);
            assert(ascii_lower(u) == c);
        }
    }
}

/// A normalised label is never longer than the label.
pub proof fn law_normalize_never_longer(s: Seq<char>)
    ensures
        normalized(s).len() <= s.len(),
    decreases s.len(),
{
    if s.len() == 0 {
        reveal(Seq::filter);
        assert(normalized(s) =~= Seq::<char>::empty());
    } else {
        let init = s.drop_last();
        law_normalize_never_longer(init);
        assert(init.push(s.last()) =~= s);
        lemma_normalized_push(init, s.last());
    }
}


/// Two strictly sorted lists of texts that hold the same texts are equal.
proof fn lemma_sorted_lists_equal(s1: Seq<Seq<char>>, s2: Seq<Seq<char>>)
    requires
        strictly_sorted(s1),
        strictly_sorted(s2),
        s1.to_set() == s2.to_set(),
    ensures
        s1 == s2,
{
    // Up to the shorter length, the lists agree: at the first index where
    // they differ, each element must occur further on in the other list,
    // which the order forbids.
    assert forall|k: int| 0 <= k < s1.len() && k < s2.len() implies s1[k] == s2[k] by {
        lemma_sorted_prefix_equal(s1, s2, k);
    }
    if s1.len() < s2.len() {
        let n = s1.len() as int;
        assert(s1.to_set().contains(s2[n]));
        let m = choose|m: int| 0 <= m < s1.len() && s1[m] == s2[n];
        lemma_sorted_prefix_equal(s1, s2, m);
        assert(text_lt(s2[m], s2[n]));
        lemma_text_lt_irreflexive(s2[n]);
    } else if s2.len() < s1.len() {
        let n = s2.len() as int;
        assert(s2.to_set().contains(s1[n]));
        let m = choose|m: int| 0 <= m < s2.len() && s2[m] == s1[n];
        lemma_sorted_prefix_equal(s1, s2, m);
        assert(text_lt(s1[m], s1[n]));
        lemma_text_lt_irreflexive(s1[n]);
    }
    assert(s1 =~= s2);
}

proof fn lemma_sorted_prefix_equal(s1: Seq<Seq<char>>, s2: Seq<Seq<char>>, k: int)
    requires
        strictly_sorted(s1),
        strictly_sorted(s2),
        s1.to_set() == s2.to_set(),
        0 <= k < s1.len(),
        k < s2.len(),
    ensures
        forall|i: int| 0 <= i <= k ==> s1[i] == s2[i],
    decreases k,
{
    if k > 0 {
        lemma_sorted_prefix_equal(s1, s2, k - 1);
    }
    if s1[k] != s2[k] {
        assert(s2.to_set().contains(s1[k]));
        let m = choose|m: int| 0 <= m < s2.len() && s2[m] == s1[k];
        assert(s1.to_set().contains(s2[k]));
        let m2 = choose|m: int| 0 <= m < s1.len() && s1[m] == s2[k];
        if m < k {
            assert(s1[m] == s2[m]);
            assert(text_lt(s1[m], s1[k]));
            lemma_text_lt_irreflexive(s1[k]);
        } else if m2 < k {
            assert(s1[m2] == s2[m2]);
            assert(text_lt(s2[m2], s2[k]));
            lemma_text_lt_irreflexive(s2[k]);
        } else {
            assert(m > k && m2 > k);
            assert(text_lt(s2[k], s2[m]));
            assert(text_lt(s1[k], s1[m2]));
            lemma_text_lt_transitive(s1[k], s2[k], s1[k]);
            lemma_text_lt_irreflexive(s1[k]);
        }
    }
}

/// The label cache of the graph, once refreshed, is what a fresh collection
/// of the labels gives (see `Graph::refresh_keys` and `collect_datas_keys`):
/// recomputed when the number of completed paystubs changed, kept
/// otherwise.
pub proof fn law_refreshed_cache_is_fresh(
    ps: Seq<(String, Paystub)>,
    cache_before: Seq<String>,
    count_before: nat,
    cache_after: Seq<String>,
    count_after: nat,
    fresh: Seq<String>,
)
    requires
        count_after == completed_count(ps),
        count_before == completed_count(ps) ==> cache_after == cache_before,
        count_before != completed_count(ps) ==> {
            &&& strictly_sorted(texts(cache_after))
            &&& texts(cache_after).to_set() == filter_keys(ps)
        },
        strictly_sorted(texts(fresh)),
        texts(fresh).to_set() == filter_keys(ps),
    ensures
        count_after == completed_count(ps),
        texts(cache_after) == if count_before != completed_count(ps) {
            texts(fresh)
        } else {
            texts(cache_before)
        },
{
    if count_before != completed_count(ps) {
        lemma_sorted_lists_equal(texts(cache_after), texts(fresh));
    }
}


/// The completed-paystub count is the number of paystubs whose state is
/// `Completed`: a pending, running or failed paystub adds nothing.
pub proof fn law_completed_count_counts_completed(ps: Seq<(String, Paystub)>)
    ensures
        completed_count(ps) == ps.filter(|e: (String, Paystub)| e.1.state is Completed).len(),
        (forall|i: int| 0 <= i < ps.len() ==> !(#[trigger] ps[i].1.state is Completed)) ==> completed_count(ps) == 0,
    decreases ps.len(),
{
    reveal(Seq::filter);
    if ps.len() > 0 {
        law_completed_count_counts_completed(ps.drop_last());
        if forall|i: int| 0 <= i < ps.len() ==> !(#[trigger] ps[i].1.state is Completed) {
            assert forall|i: int| 0 <= i < ps.drop_last().len() implies !(#[trigger] ps.drop_last()[i].1.state is Completed) by {
                assert(ps.drop_last()[i] == ps[i]);
            }
            assert(!(ps[ps.len() - 1].1.state is Completed));
        }
    }
}

/// A search returns, in increasing order, exactly the positions of the
/// paystubs whose file name contains the searched text anywhere (`n` is the
/// number of paystubs searched, at most the length of a `Vec`).
pub proof fn law_search_finds_containing_files(ps: Seq<(String, Paystub)>, search: Seq<char>, n: int)
    requires
        0 <= n <= ps.len(),
        n <= usize::MAX,
    ensures
        forall|i: int| 0 <= i < n ==> ((exists|t: int| 0 <= t < matching_positions(ps, search, n).len()
            && matching_positions(ps, search, n)[t] == i) <==> contains_text(#[trigger] ps[i].1.file@, search)),
        forall|t: int| 0 <= t < matching_positions(ps, search, n).len() ==> #[trigger] matching_positions(ps, search, n)[t] < n,
        forall|t: int, u: int| 0 <= t < u < matching_positions(ps, search, n).len() ==> #[trigger] matching_positions(ps, search, n)[t]
            < #[trigger] matching_positions(ps, search, n)[u],
    decreases n,
{
    if n > 0 {
        law_search_finds_containing_files(ps, search, n - 1);
        let prev = matching_positions(ps, search, n - 1);
        let cur = matching_positions(ps, search, n);
        assert(((n - 1) as usize) as int == n - 1);
        if contains_text(ps[n - 1].1.file@, search) {
            assert(cur == prev.push((n - 1) as usize));
        } else {
            assert(cur == prev);
        }
        assert forall|i: int| 0 <= i < n implies ((exists|t: int| 0 <= t < cur.len() && cur[t] == i)
            <==> contains_text(#[trigger] ps[i].1.file@, search)) by {
            if i < n - 1 {
                if exists|t: int| 0 <= t < cur.len() && cur[t] == i {
                    let t = choose|t: int| 0 <= t < cur.len() && cur[t] == i;
                    if t == prev.len() {
                        assert(cur[t] == n - 1);
                    } else {
                        assert(prev[t] == i);
                    }
                }
                if exists|t: int| 0 <= t < prev.len() && prev[t] == i {
                    let t = choose|t: int| 0 <= t < prev.len() && prev[t] == i;
                    assert(cur[t] == i);
                }
            } else {
                if contains_text(ps[i].1.file@, search) {
                    assert(cur[prev.len() as int] == i);
                } else {
                    if exists|t: int| 0 <= t < cur.len() && cur[t] == i {
                        let t = choose|t: int| 0 <= t < cur.len() && cur[t] == i;
                        assert(prev[t] < n - 1);
                    }
                }
            }
        }
    }
}

/// The base letter of an accented French letter, letter by letter.
pub open spec fn accent_base(c: char) -> Option<char> {
    match c {
        'à' => Some('a'), 'á' => Some('a'), 'â' => Some('a'), 'ä' => Some('a'), 'ã' => Some('a'), 'å' => Some('a'),
        'À' => Some('a'), 'Á' => Some('a'), 'Â' => Some('a'), 'Ä' => Some('a'), 'Ã' => Some('a'), 'Å' => Some('a'),
        'ç' => Some('c'), 'Ç' => Some('c'),
        'é' => Some('e'), 'è' => Some('e'), 'ê' => Some('e'), 'ë' => Some('e'),
        'É' => Some('e'), 'È' => Some('e'), 'Ê' => Some('e'), 'Ë' => Some('e'),
        'î' => Some('i'), 'ï' => Some('i'), 'Î' => Some('i'), 'Ï' => Some('i'),
        'ô' => Some('o'), 'ö' => Some('o'), 'õ' => Some('o'), 'Ô' => Some('o'), 'Ö' => Some('o'), 'Õ' => Some('o'),
        'ù' => Some('u'), 'û' => Some('u'), 'ü' => Some('u'), 'Ù' => Some('u'), 'Û' => Some('u'), 'Ü' => Some('u'),
        'ÿ' => Some('y'), 'Ÿ' => Some('y'),
        'ñ' => Some('n'), 'Ñ' => Some('n'),
        'œ' => Some('o'), 'Œ' => Some('o'),
        'æ' => Some('a'), 'Æ' => Some('a'),
        _ => None,
    }
}

/// Folding takes every accented French letter, lower- or upper-case, to its
/// base letter, and leaves ASCII characters as they are; so normalisation
/// does not see accents: a label normalises as the same label with an
/// accented letter replaced by its base letter.
pub proof fn law_accents_fold_to_base_letters(a: Seq<char>, c: char, b: Seq<char>)
    ensures
        accent_base(c) matches Some(base) ==> folded(c) == base,
        (c as u32) < 128 ==> folded(c) == c,
        accent_base(c) matches Some(base) ==> normalized(a + seq![c] + b) == normalized(a + seq![base] + b),
{
    if accent_base(c) is Some {
        let base = accent_base(c)->Some_0;
        assert(folded(c) == base);
        law_normalize_distributes_over_concat(a + seq![c], b);
        law_normalize_distributes_over_concat(a + seq![base], b);
        law_normalize_distributes_over_concat(a, seq![c]);
        law_normalize_distributes_over_concat(a, seq![base]);
        lemma_normalized_push(Seq::<char>::empty(), c);
        lemma_normalized_push(Seq::<char>::empty(), base);
        assert(Seq::<char>::empty().push(c) =~= seq![c]);
        assert(Seq::<char>::empty().push(base) =~= seq![base]);
        assert(folded(base) == base);
    }
}


/// The paystub adds a bar value to the graph of `key`: it is completed, has
/// a value for `key`, and its payment date is a date that `time` represents.
pub open spec fn contributes(p: Paystub, key: Seq<char>) -> bool {
    &&& p.state is Completed
    &&& plotted_value(p, key) is Some
    &&& calendar_month(p.state->Completed_payment_date) is Some
}

/// The month index of the payment date of a completed paystub.
pub open spec fn paid_month(p: Paystub) -> i32 {
    let (y, m) = calendar_month(p.state->Completed_payment_date)->Some_0;
    (y * 12 + m - 1) as i32
}

/// Every paystub that contributes to the graph of `key` gives exactly one
/// entry, whether or not another was paid in the same month: there are as
/// many entries as contributing paystubs, and the values of each month are
/// the values of the paystubs paid in that month, in store order (so the
/// bar of a month is the sum over all of them).
pub proof fn law_monthly_entries_one_per_paystub(ps: Seq<(String, Paystub)>, key: Seq<char>, b: i32)
    ensures
        monthly_entries(ps, key).len() == ps.filter(|e: (String, Paystub)| contributes(e.1, key)).len(),
        monthly_entries(ps, key).filter(|x: (i32, u32)| x.0 == b).map_values(|x: (i32, u32)| x.1)
            == ps.filter(|e: (String, Paystub)| contributes(e.1, key) && paid_month(e.1) == b).map_values(
            |e: (String, Paystub)| plotted_value(e.1, key)->Some_0,
        ),
    decreases ps.len(),
{
    reveal(Seq::filter);
    let fe = |x: (i32, u32)| x.0 == b;
    let ge = |x: (i32, u32)| x.1;
    let fc = |e: (String, Paystub)| contributes(e.1, key);
    let fm = |e: (String, Paystub)| contributes(e.1, key) && paid_month(e.1) == b;
    let gv = |e: (String, Paystub)| plotted_value(e.1, key)->Some_0;
    if ps.len() == 0 {
        assert(monthly_entries(ps, key) =~= Seq::<(i32, u32)>::empty());
        assert(monthly_entries(ps, key).filter(fe).map_values(ge) =~= Seq::<u32>::empty());
        assert(ps.filter(fm).map_values(gv) =~= Seq::<u32>::empty());
    } else {
        let init = ps.drop_last();
        let last = ps.last();
        law_monthly_entries_one_per_paystub(init, key, b);
        let prev = monthly_entries(init, key);
        if contributes(last.1, key) {
            let x = (paid_month(last.1), plotted_value(last.1, key)->Some_0);
            assert(month_entry(last.1, key) == seq![x]);
            assert(monthly_entries(ps, key) =~= prev.push(x));
            assert(prev.push(x).drop_last() =~= prev);
            if x.0 == b {
                assert(prev.push(x).filter(fe) =~= prev.filter(fe).push(x));
                assert(prev.filter(fe).push(x).map_values(ge) =~= prev.filter(fe).map_values(ge).push(x.1));
                assert(ps.filter(fm) =~= init.filter(fm).push(last));
                assert(init.filter(fm).push(last).map_values(gv) =~= init.filter(fm).map_values(gv).push(gv(last)));
            } else {
                assert(prev.push(x).filter(fe) =~= prev.filter(fe));
                assert(ps.filter(fm) =~= init.filter(fm));
            }
        } else {
            assert(month_entry(last.1, key) =~= Seq::<(i32, u32)>::empty());
            assert(monthly_entries(ps, key) =~= prev);
            assert(ps.filter(fm) =~= init.filter(fm));
        }
    }
}


/// The label found by `first_similar` is a known label.
proof fn lemma_first_similar_member(known: Seq<String>, n: Seq<char>)
    ensures
        first_similar(known, n) matches Some(c) ==> exists|j: int| 0 <= j < known.len() && #[trigger] known[j] == c,
    decreases known.len(),
{
    if known.len() > 0 {
        let init = known.drop_last();
        lemma_first_similar_member(init, n);
        if first_similar(init, n) is Some {
            let c = first_similar(init, n)->Some_0;
            let j = choose|j: int| 0 <= j < init.len() && #[trigger] init[j] == c;
            assert(known[j] == init[j]);
        } else if first_similar(known, n) is Some {
            assert(known[known.len() - 1] == known.last());
        }
    }
}

/// When some known label has the normalised form `n`, one is found.
proof fn lemma_first_similar_some(known: Seq<String>, n: Seq<char>, j: int)
    requires
        0 <= j < known.len(),
        normalized(known[j]@) == n,
    ensures
        first_similar(known, n) is Some,
    decreases known.len(),
{
    let init = known.drop_last();
    if j < known.len() - 1 {
        assert(init[j] == known[j]);
        lemma_first_similar_some(init, n, j);
    }
}

/// A label that normalises like some known label is renamed to a known label.
proof fn lemma_renamed_is_known(known: Seq<String>, k: String, j: int)
    requires
        0 <= j < known.len(),
        normalized(known[j]@) == normalized(k@),
    ensures
        exists|i: int| 0 <= i < known.len() && #[trigger] known[i]@ == renamed(known, k)@,
{
    lemma_first_similar_some(known, normalized(k@), j);
    lemma_first_similar_member(known, normalized(k@));
    let c = first_similar(known, normalized(k@))->Some_0;
    let i = choose|i: int| 0 <= i < known.len() && #[trigger] known[i] == c;
    assert(known[i]@ == renamed(known, k)@);
}

proof fn lemma_first_label_exists<V>(s: Seq<(String, V)>, k: Seq<char>, j: int)
    requires
        0 <= j < s.len(),
        s[j].0@ == k,
    ensures
        exists|i: int| 0 <= i <= j && s[i].0@ == k && forall|l: int| 0 <= l < i ==> #[trigger] s[l].0@ != k,
    decreases j,
{
    if exists|l: int| 0 <= l < j && #[trigger] s[l].0@ == k {
        let l = choose|l: int| 0 <= l < j && #[trigger] s[l].0@ == k;
        lemma_first_label_exists(s, k, l);
    }
}

/// `src` tells, for each pair of `out`, the pair of `input` it comes from:
/// same value, label taken through `rn`.
pub open spec fn sourced<V>(rn: spec_fn(String) -> Seq<char>, input: Seq<(String, V)>, out: Seq<(String, V)>, src: Seq<int>) -> bool {
    &&& src.len() == out.len()
    &&& forall|t: int| 0 <= t < out.len() ==> 0 <= #[trigger] src[t] < input.len() && out[t].0@ == rn(input[src[t]].0)
        && out[t].1 == input[src[t]].1
}

/// `dst` tells, for each pair of `input`, a pair of `out` whose label is its
/// label taken through `rn`.
pub open spec fn placed<V>(rn: spec_fn(String) -> Seq<char>, input: Seq<(String, V)>, out: Seq<(String, V)>, dst: Seq<int>) -> bool {
    &&& dst.len() == input.len()
    &&& forall|q: int| 0 <= q < input.len() ==> 0 <= #[trigger] dst[q] < out.len() && out[dst[q]].0@ == rn(input[q].0)
}

proof fn lemma_put_step<V>(
    rn: spec_fn(String) -> Seq<char>,
    init: Seq<(String, V)>,
    prev: Seq<(String, V)>,
    src: Seq<int>,
    dst: Seq<int>,
    last: (String, V),
    k: String,
) -> (r: (Seq<int>, Seq<int>))
    requires
        sourced(rn, init, prev, src),
        placed(rn, init, prev, dst),
        k@ == rn(last.0),
    ensures
        sourced(rn, init.push(last), put(prev, k, last.1), r.0),
        placed(rn, init.push(last), put(prev, k, last.1), r.1),
{
    let input = init.push(last);
    let out = put(prev, k, last.1);
    let ql = init.len() as int;
    assert(input[ql] == last);
    assert forall|q: int| 0 <= q < init.len() implies #[trigger] input[q] == init[q] by {}
    if has_label(prev, k@) {
        let j = choose|j: int| 0 <= j < prev.len() && #[trigger] prev[j].0@ == k@;
        lemma_first_label_exists(prev, k@, j);
        let i = first_with_label(prev, k@);
        assert(out == prev.update(i, (prev[i].0, last.1)));
        let src2 = src.update(i, ql);
        let dst2 = dst.push(i);
        assert forall|t: int| 0 <= t < out.len() implies 0 <= #[trigger] src2[t] < input.len() && out[t].0@ == rn(input[src2[t]].0)
            && out[t].1 == input[src2[t]].1 by {
            if t != i {
                assert(src2[t] == src[t]);
                assert(out[t] == prev[t]);
            }
        }
        assert forall|q: int| 0 <= q < input.len() implies 0 <= #[trigger] dst2[q] < out.len() && out[dst2[q]].0@ == rn(input[q].0) by {
            if q < ql {
                assert(dst2[q] == dst[q]);
                assert(out[dst[q]].0 == prev[dst[q]].0);
            }
        }
        (src2, dst2)
    } else {
        assert(out == prev.push((k, last.1)));
        let src2 = src.push(ql);
        let dst2 = dst.push(prev.len() as int);
        assert forall|t: int| 0 <= t < out.len() implies 0 <= #[trigger] src2[t] < input.len() && out[t].0@ == rn(input[src2[t]].0)
            && out[t].1 == input[src2[t]].1 by {
            if t < prev.len() {
                assert(src2[t] == src[t]);
                assert(out[t] == prev[t]);
            }
        }
        assert forall|q: int| 0 <= q < input.len() implies 0 <= #[trigger] dst2[q] < out.len() && out[dst2[q]].0@ == rn(input[q].0) by {
            if q < ql {
                assert(dst2[q] == dst[q]);
                assert(out[dst[q]] == prev[dst[q]]);
            }
        }
        (src2, dst2)
    }
}

/// Each pair of a reconciled list comes from a pair of the input, with the
/// input's label renamed and its value; each input label, renamed, is in the
/// reconciled list.
proof fn lemma_reconciled_pairs<V>(known: Seq<String>, input: Seq<(String, V)>) -> (r: (Seq<int>, Seq<int>))
    ensures
        sourced(|k: String| renamed(known, k)@, input, reconciled(known, input), r.0),
        placed(|k: String| renamed(known, k)@, input, reconciled(known, input), r.1),
    decreases input.len(),
{
    let rn = |k: String| renamed(known, k)@;
    if input.len() == 0 {
        (Seq::empty(), Seq::empty())
    } else {
        let init = input.drop_last();
        let last = input.last();
        let (src, dst) = lemma_reconciled_pairs(known, init);
        assert(reconciled(known, input) == put(reconciled(known, init), renamed(known, last.0), last.1));
        assert(init.push(last) =~= input);
        lemma_put_step(rn, init, reconciled(known, init), src, dst, last, renamed(known, last.0))
    }
}

/// `stored` is `given` with its labels aligned on the `known` labels: each
/// stored pair has the value of a given pair whose label normalises the
/// same; each given label is stored under a label that normalises the same;
/// and a stored label that normalises like some known label is a known
/// label.
pub open spec fn aligned_on<V>(known: Seq<String>, given: Seq<(Seq<char>, V)>, stored: Seq<(Seq<char>, V)>) -> bool {
    &&& stored_from_given(given, stored)
    &&& given_stored(given, stored)
    &&& known_kept(known, stored)
}

/// Some pair of `pairs` has the value of `x` and a label that normalises like
/// that of `x`.
pub open spec fn has_similar<V>(pairs: Seq<(Seq<char>, V)>, x: (Seq<char>, V)) -> bool {
    exists|q: int| 0 <= q < pairs.len() && normalized(pairs[q].0) == normalized(x.0) && #[trigger] pairs[q].1 == x.1
}

/// Some pair of `pairs` has a label that normalises like that of `x`.
pub open spec fn has_similar_label<V>(pairs: Seq<(Seq<char>, V)>, x: (Seq<char>, V)) -> bool {
    exists|q: int| 0 <= q < pairs.len() && #[trigger] normalized(pairs[q].0) == normalized(x.0)
}

/// Some known label normalises like `k`.
pub open spec fn similar_known(known: Seq<String>, k: Seq<char>) -> bool {
    exists|j: int| 0 <= j < known.len() && #[trigger] normalized(known[j]@) == normalized(k)
}

/// `k` is a known label.
pub open spec fn is_known(known: Seq<String>, k: Seq<char>) -> bool {
    exists|j: int| 0 <= j < known.len() && #[trigger] known[j]@ == k
}

/// Each stored pair has the value of a given pair whose label normalises the
/// same.
pub open spec fn stored_from_given<V>(given: Seq<(Seq<char>, V)>, stored: Seq<(Seq<char>, V)>) -> bool {
    forall|t: int| 0 <= t < stored.len() ==> has_similar(given, #[trigger] stored[t])
}

/// Each given label is stored under a label that normalises the same.
pub open spec fn given_stored<V>(given: Seq<(Seq<char>, V)>, stored: Seq<(Seq<char>, V)>) -> bool {
    forall|q: int| 0 <= q < given.len() ==> has_similar_label(stored, #[trigger] given[q])
}

/// A stored label that normalises like some known label is a known label.
pub open spec fn known_kept<V>(known: Seq<String>, stored: Seq<(Seq<char>, V)>) -> bool {
    forall|t: int| 0 <= t < stored.len() && similar_known(known, (#[trigger] stored[t]).0) ==> is_known(known, stored[t].0)
}

/// A list of pairs seen through `view`, labels as texts.
pub open spec fn pairs_seen<V, W>(s: Seq<(String, V)>, view: spec_fn(V) -> W) -> Seq<(Seq<char>, W)> {
    s.map_values(|p: (String, V)| (p.0@, view(p.1)))
}

proof fn lemma_reconciled_aligned<V, W>(known: Seq<String>, input: Seq<(String, V)>, view: spec_fn(V) -> W)
    ensures
        aligned_on(known, pairs_seen(input, view), pairs_seen(reconciled(known, input), view)),
{
    let out = reconciled(known, input);
    let f = |p: (String, V)| (p.0@, view(p.1));
    let given = pairs_seen(input, view);
    let stored = pairs_seen(out, view);
    let (src, dst) = lemma_reconciled_pairs(known, input);
    assert forall|t: int| 0 <= t < stored.len() implies has_similar(given, #[trigger] stored[t]) by {
        let q = src[t];
        assert(0 <= q < input.len() && out[t].0@ == renamed(known, input[q].0)@ && out[t].1 == input[q].1);
        law_rename_keeps_normal_form(known, input[q].0);
        assert(given[q] == f(input[q]));
        assert(stored[t] == f(out[t]));
        assert(normalized(given[q].0) == normalized(stored[t].0) && given[q].1 == stored[t].1);
    }
    assert forall|q: int| 0 <= q < given.len() implies has_similar_label(stored, #[trigger] given[q]) by {
        assert(given[q] == f(input[q]));
        let t = dst[q];
        assert(0 <= t < out.len() && out[t].0@ == renamed(known, input[q].0)@);
        law_rename_keeps_normal_form(known, input[q].0);
        assert(stored[t] == f(out[t]));
        assert(normalized(stored[t].0) == normalized(given[q].0));
    }
    assert forall|t: int| 0 <= t < stored.len() && similar_known(known, (#[trigger] stored[t]).0) implies is_known(
        known,
        stored[t].0,
    ) by {
        let q = src[t];
        assert(0 <= q < input.len() && out[t].0@ == renamed(known, input[q].0)@);
        assert(stored[t] == f(out[t]));
        law_rename_keeps_normal_form(known, input[q].0);
        let j = choose|j: int| 0 <= j < known.len() && #[trigger] normalized(known[j]@) == normalized(stored[t].0);
        assert(normalized(known[j]@) == normalized(input[q].0@));
        lemma_renamed_is_known(known, input[q].0, j);
    }
}

/// A completed result, once received, is stored with both its `infos` and
/// its `datas` labels aligned on the labels of the same kind already known
/// in the store (see `aligned_on`); its file, times and amounts are kept.
pub proof fn law_received_labels_aligned(ps: Seq<(String, Paystub)>, result: Paystub)
    requires
        result.state is Completed,
    ensures
        received(ps, result).state is Completed,
        received(ps, result).file == result.file@,
        received(ps, result).since == result.since,
        received(ps, result).state->Completed_payment_date == result.state->Completed_payment_date,
        received(ps, result).state->Completed_net_salary_bits == result.state->Completed_net_salary_bits,
        aligned_on(
            known_labels(ps, false),
            text_pairs_view(result.state->Completed_infos@),
            received(ps, result).state->Completed_infos,
        ),
        aligned_on(
            known_labels(ps, true),
            number_pairs_view(result.state->Completed_datas@),
            received(ps, result).state->Completed_datas,
        ),
{
    let infos = result.state->Completed_infos;
    let datas = result.state->Completed_datas;
    let ti = |v: String| v@;
    let nd = |v: u32| v;
    lemma_reconciled_aligned(known_labels(ps, false), infos@, ti);
    lemma_reconciled_aligned(known_labels(ps, true), datas@, nd);
    assert(pairs_seen(infos@, ti) =~= text_pairs_view(infos@));
    assert(pairs_seen(reconciled(known_labels(ps, false), infos@), ti) =~= text_pairs_view(
        reconciled(known_labels(ps, false), infos@),
    ));
    assert(pairs_seen(datas@, nd) =~= number_pairs_view(datas@));
    assert(pairs_seen(reconciled(known_labels(ps, true), datas@), nd) =~= number_pairs_view(
        reconciled(known_labels(ps, true), datas@),
    ));
}

} // verus!
