//! The queue of analyses: which paystubs are sent to the analyser, how many
//! at once, and what becomes of the stored paystubs when a result comes back
//! or an analysis stays stuck.
use vstd::prelude::*;
use crate::paystub::{Paystub, PaystubState, PaystubView, StateView, DateTime, TIMEOUT_MESSAGE};
use crate::pairs::{put, find_label, unique_labels, value_of, has_label, first_with_label, lemma_first_with_label};
use crate::store::Store;
use crate::keys::{reconcile_keys, reconciled, known_labels};
use crate::pairs::{text_pairs_view, number_pairs_view, lemma_put_keeps_unique};
use crate::paystub::{now_millis, CLOCK_BOUND_MS};

verus! {

/// The most paystubs analysed at the same time.
pub const MAX_CONCURRENT_ANALYSES: usize = 2;

/// The identifiers of the paystubs sent to the analyser whose result has not
/// come back yet. Holds each identifier once.
#[derive(Debug, PartialEq, Eq)]
pub struct InFlight {
    pub ids: Vec<String>,
}

/// The texts of a list of strings.
pub open spec fn texts(s: Seq<String>) -> Seq<Seq<char>> {
    s.map_values(|x: String| x@)
}

impl View for InFlight {
    type V = Set<Seq<char>>;

    open spec fn view(&self) -> Set<Seq<char>> {
        texts(self.ids@).to_set()
    }
}

impl InFlight {
    /// No identifier is held twice.
    pub open spec fn wf(&self) -> bool {
        texts(self.ids@).no_duplicates()
    }

    /// No paystub in flight.
    pub fn new() -> (r: InFlight)
        ensures
            r.wf(),
            r@ == Set::<Seq<char>>::empty(),
    {
        let r = InFlight { ids: Vec::new() };
        assert(texts(r.ids@) =~= Seq::<Seq<char>>::empty());
        assert(r@ =~= Set::<Seq<char>>::empty());
        r
    }

    /// The number of paystubs in flight.
    pub fn len(&self) -> (r: usize)
        requires
            self.wf(),
        ensures
            r == self@.len(),
            self@.finite(),
    {
        proof {
            texts(self.ids@).unique_seq_to_set();
        }
        self.ids.len()
    }

    /// `id` is in flight.
    pub fn contains(&self, id: &String) -> (r: bool)
        ensures
            r == self@.contains(id@),
    {
        let mut i: usize = 0;
        while i < self.ids.len()
            invariant
                i <= self.ids@.len(),
                forall|j: int| 0 <= j < i ==> texts(self.ids@)[j] != id@,
            decreases self.ids.len() - i,
        {
            if self.ids[i] == *id {
                assert(texts(self.ids@)[i as int] == id@);
                return true;
            }
            i = i + 1;
        }
        assert(!texts(self.ids@).contains(id@));
        false
    }

    /// Puts `id` in flight.
    pub fn insert(&mut self, id: String)
        requires
            old(self).wf(),
        ensures
            final(self).wf(),
            final(self)@ == old(self)@.insert(id@),
    {
        let present = self.contains(&id);
        if !present {
            let ghost before = texts(self.ids@);
            self.ids.push(id);
            assert(texts(self.ids@) =~= before.push(id@));
            assert forall|a: Seq<char>| #[trigger] self@.contains(a) == old(self)@.insert(id@).contains(a) by {
                if before.contains(a) {
                    let k = choose|k: int| 0 <= k < before.len() && before[k] == a;
                    assert(texts(self.ids@)[k] == a);
                }
                if a == id@ {
                    assert(texts(self.ids@)[before.len() as int] == a);
                }
            }
            assert(self@ =~= old(self)@.insert(id@));
        } else {
            assert forall|a: Seq<char>| #[trigger] self@.contains(a) == old(self)@.insert(id@).contains(a) by {
            }
            assert(self@ =~= old(self)@.insert(id@));
        }
    }

    /// Takes `id` out of flight.
    pub fn remove(&mut self, id: &String)
        requires
            old(self).wf(),
        ensures
            final(self).wf(),
            final(self)@ == old(self)@.remove(id@),
    {
        let mut i: usize = 0;
        while i < self.ids.len()
            invariant
                i <= self.ids@.len(),
                self.ids@ == old(self).ids@,
                self.wf(),
                forall|j: int| 0 <= j < i ==> texts(self.ids@)[j] != id@,
            decreases self.ids.len() - i,
        {
            if self.ids[i] == *id {
                let ghost before = texts(self.ids@);
                self.ids.remove(i);
                assert(texts(self.ids@) =~= before.remove(i as int));
                proof {
                    let after = texts(self.ids@);
                    assert forall|j: int, k: int| 0 <= j < after.len() && 0 <= k < after.len() && j != k implies after[j] != after[k] by {
                        let j2 = if j < i { j } else { j + 1 };
                        let k2 = if k < i { k } else { k + 1 };
                        assert(after[j] == before[j2]);
                        assert(after[k] == before[k2]);
                    }
                    assert forall|a: Seq<char>| #[trigger] self@.contains(a) == old(self)@.remove(id@).contains(a) by {
                        if a == id@ {
                            assert(before[i as int] == id@);
                            if texts(self.ids@).contains(a) {
                                let k = choose|k: int| 0 <= k < texts(self.ids@).len() && texts(self.ids@)[k] == a;
                                if k < i {
                                    assert(before[k] == a);
                                    assert(before[k] != before[i as int]);
                                } else {
                                    assert(before[k + 1] == a);
                                    assert(before[k + 1] != before[i as int]);
                                }
                            }
                        } else {
                            if before.contains(a) {
                                let k = choose|k: int| 0 <= k < before.len() && before[k] == a;
                                if k < i {
                                    assert(texts(self.ids@)[k] == a);
                                } else {
                                    assert(texts(self.ids@)[k - 1] == a);
                                }
                            }
                            if texts(self.ids@).contains(a) {
                                let k = choose|k: int| 0 <= k < texts(self.ids@).len() && texts(self.ids@)[k] == a;
                                if k < i {
                                    assert(before[k] == a);
                                } else {
                                    assert(before[k + 1] == a);
                                }
                            }
                        }
                    }
                    assert(self@ =~= old(self)@.remove(id@));
                }
                return;
            }
            i = i + 1;
        }
        assert(!texts(self.ids@).contains(id@));
        assert(self@ =~= old(self)@.remove(id@));
    }
}

/// The paystub awaits an analysis: it is `Pending`, or its last analysis
/// failed.
pub open spec fn awaits_analysis(p: PaystubView) -> bool {
    p.state is Pending || p.state is ProcessingError
}

/// The stored paystub `e` should be sent to the analyser: it awaits an
/// analysis and is not in flight.
pub open spec fn eligible(in_flight: Set<Seq<char>>, e: (String, Paystub)) -> bool {
    !in_flight.contains(e.0@) && awaits_analysis(e.1@)
}

/// The next paystub to analyse: the first one of the store that awaits an
/// analysis and is not already in flight, with its identifier.
pub fn get_next_paystub_to_analyse(store: &Store, in_flight: &InFlight) -> (r: Option<(String, Paystub)>)
    ensures
        match r {
            Some((id, p)) => exists|i: int|
                0 <= i < store.paystubs@.len() && eligible(in_flight@, #[trigger] store.paystubs@[i])
                    && id == store.paystubs@[i].0 && p@ == store.paystubs@[i].1@ && forall|j: int|
                    0 <= j < i ==> !eligible(in_flight@, #[trigger] store.paystubs@[j]),
            None => forall|j: int|
                0 <= j < store.paystubs@.len() ==> !eligible(in_flight@, #[trigger] store.paystubs@[j]),
        },
{
    let mut i: usize = 0;
    while i < store.paystubs.len()
        invariant
            i <= store.paystubs@.len(),
            forall|j: int| 0 <= j < i ==> !eligible(in_flight@, #[trigger] store.paystubs@[j]),
        decreases store.paystubs.len() - i,
    {
        let id = &store.paystubs[i].0;
        let awaits = match &store.paystubs[i].1.state {
            PaystubState::Pending | PaystubState::ProcessingError { .. } => true,
            _ => false,
        };
        if !in_flight.contains(id) && awaits {
            let r = (id.clone(), store.paystubs[i].1.clone());
            assert(eligible(in_flight@, store.paystubs@[i as int]));
            return Some(r);
        }
        i = i + 1;
    }
    None
}

/// What reaping does to a paystub at `now`: a stuck one is put back in error
/// with `TIMEOUT_MESSAGE`, any other stays as it is.
pub open spec fn reaped(p: PaystubView, now: DateTime) -> PaystubView {
    if p.stuck_at(now) {
        p.errored(TIMEOUT_MESSAGE@, now)->Ok_0
    } else {
        p
    }
}

/// The identifiers of the paystubs among the first `n` of `ps` that are stuck
/// at `now`.
pub open spec fn stuck_ids(ps: Seq<(String, Paystub)>, now: DateTime, n: int) -> Set<Seq<char>> {
    Set::new(|k: Seq<char>| exists|j: int| 0 <= j < n && ps[j].0@ == k && #[trigger] ps[j].1@.stuck_at(now))
}

/// The outcome of reaping the stuck paystubs at `now`: each stuck paystub
/// put back in error (see `reaped`) and taken out of flight, the other
/// paystubs untouched, `changed` telling whether any paystub was stuck.
pub open spec fn reaping(
    before: Seq<(String, Paystub)>,
    after: Seq<(String, Paystub)>,
    flight_before: Set<Seq<char>>,
    flight_after: Set<Seq<char>>,
    changed: bool,
    now: DateTime,
) -> bool {
    &&& after.len() == before.len()
    &&& forall|i: int| 0 <= i < before.len() ==> (#[trigger] after[i]).0 == before[i].0
    &&& forall|i: int| 0 <= i < before.len() ==> (#[trigger] after[i]).1@ == reaped(before[i].1@, now)
    &&& flight_after == flight_before.difference(stuck_ids(before, now, before.len() as int))
    &&& changed == exists|i: int| 0 <= i < before.len() && #[trigger] before[i].1@.stuck_at(now)
}

/// Puts back in `ProcessingError` the paystubs stuck in `Processing` at `now`
/// (see `Paystub::is_stuck_at`): without this, a paystub whose analysis was
/// interrupted (for instance by a crash) would stay "in progress" forever and
/// never be retried. Returns whether any paystub changed.
pub fn reap_stuck_paystubs_at(store: &mut Store, in_flight: &mut InFlight, now: DateTime) -> (changed: bool)
    requires
        old(store).wf(),
        old(in_flight).wf(),
        forall|i: int| 0 <= i < old(store).paystubs@.len() ==> (#[trigger] old(store).paystubs@[i]).1@.elapsed_fits(now),
    ensures
        final(store).wf(),
        final(in_flight).wf(),
        final(store).theme == old(store).theme,
        reaping(old(store).paystubs@, final(store).paystubs@, old(in_flight)@, final(in_flight)@, changed, now),
{
    let ghost ps = store.paystubs@;
    let ghost fl = in_flight@;
    let mut changed = false;
    let mut i: usize = 0;
    assert(fl.difference(stuck_ids(ps, now, 0)) =~= fl);
    while i < store.paystubs.len()
        invariant
            i <= store.paystubs@.len() == ps.len(),
            ps == old(store).paystubs@,
            fl == old(in_flight)@,
            store.wf(),
            in_flight.wf(),
            store.theme == old(store).theme,
            forall|j: int| 0 <= j < ps.len() ==> (#[trigger] ps[j]).1@.elapsed_fits(now),
            forall|j: int| 0 <= j < i ==> (#[trigger] store.paystubs@[j]).0 == ps[j].0,
            forall|j: int| 0 <= j < i ==> (#[trigger] store.paystubs@[j]).1@ == reaped(ps[j].1@, now),
            forall|j: int| i <= j < ps.len() ==> #[trigger] store.paystubs@[j] == ps[j],
            in_flight@ == fl.difference(stuck_ids(ps, now, i as int)),
            changed == exists|j: int| 0 <= j < i && #[trigger] ps[j].1@.stuck_at(now),
        decreases ps.len() - i,
    {
        let ghost flight = in_flight@;
        if store.paystubs[i].1.is_stuck_at(now) {
            match store.paystubs[i].1.to_timed_out_at(now) {
                Ok(timed_out) => {
                    let id = store.paystubs[i].0.clone();
                    in_flight.remove(&id);
                    let ghost before = store.paystubs@;
                    store.paystubs.set(i, (id, timed_out));
                    proof {
                        assert forall|a: int, b: int| 0 <= a < store.paystubs@.len() && 0 <= b < store.paystubs@.len() && a != b
                            implies #[trigger] store.paystubs@[a].0@ != #[trigger] store.paystubs@[b].0@ by {
                            assert(before[a].0@ != before[b].0@);
                        }
                        assert(in_flight@ =~= fl.difference(stuck_ids(ps, now, i + 1))) by {
                            assert forall|k: Seq<char>| #[trigger] stuck_ids(ps, now, i + 1).contains(k) == (stuck_ids(ps, now, i as int).contains(k) || k == id@) by {
                                if k == id@ {
                                    assert(ps[i as int].1@.stuck_at(now));
                                }
                            }
                        }
                    }
                    assert(store.paystubs@[i as int].0 == ps[i as int].0);
                    assert(store.paystubs@[i as int].1@ == reaped(ps[i as int].1@, now));
                    changed = true;
                },
                Err(_) => {
                    assert(false);
                },
            }
        } else {
            assert(store.paystubs@[i as int] == ps[i as int]);
            assert(store.paystubs@[i as int].1@ == reaped(ps[i as int].1@, now));
            assert(stuck_ids(ps, now, i + 1) =~= stuck_ids(ps, now, i as int)) by {
                assert forall|k: Seq<char>| #[trigger] stuck_ids(ps, now, i + 1).contains(k) implies stuck_ids(ps, now, i as int).contains(k) by {
                    let j = choose|j: int| 0 <= j < i + 1 && ps[j].0@ == k && #[trigger] ps[j].1@.stuck_at(now);
                    assert(j != i);
                }
            }
        }
        assert(store.paystubs@[i as int].1@ == reaped(ps[i as int].1@, now));
        assert(store.paystubs@[i as int].0 == ps[i as int].0);
        i = i + 1;
    }
    changed
}

/// Puts back in `ProcessingError` the paystubs stuck in `Processing` at the
/// current time (see `reap_stuck_paystubs_at`). Returns whether any paystub
/// changed.
pub fn reap_stuck_paystubs(store: &mut Store, in_flight: &mut InFlight) -> (changed: bool)
    requires
        old(store).wf(),
        old(in_flight).wf(),
        forall|i: int| 0 <= i < old(store).paystubs@.len() ==> (#[trigger] old(store).paystubs@[i]).1@.since_fits(),
    ensures
        final(store).wf(),
        final(in_flight).wf(),
        final(store).theme == old(store).theme,
        exists|now: DateTime| -CLOCK_BOUND_MS <= now <= CLOCK_BOUND_MS && #[trigger] reaping(old(store).paystubs@, final(store).paystubs@, old(in_flight)@, final(in_flight)@, changed, now),
{
    let now = now_millis();
    assert forall|i: int| 0 <= i < store.paystubs@.len() implies (#[trigger] store.paystubs@[i]).1@.elapsed_fits(now) by {
        assert(store.paystubs@[i].1@.since_fits());
    }
    reap_stuck_paystubs_at(store, in_flight, now)
}

/// What a returned result becomes once stored: a completed paystub has its
/// labels aligned on those of the store (see `reconcile_keys`), any other
/// result is kept as it is.
pub open spec fn received(ps: Seq<(String, Paystub)>, result: Paystub) -> PaystubView {
    match result.state {
        PaystubState::Completed { payment_date, net_salary_bits, infos, datas } => PaystubView {
            file: result.file@,
            since: result.since,
            state: StateView::Completed {
                payment_date,
                net_salary_bits,
                infos: text_pairs_view(reconciled(known_labels(ps, false), infos@)),
                datas: number_pairs_view(reconciled(known_labels(ps, true), datas@)),
            },
        },
        _ => result@,
    }
}

/// Takes in the result of the analysis of the paystub `id`: the paystub is
/// no longer in flight, and the result (with its labels aligned on those
/// already known, when it completed) replaces it in the store.
pub fn receive_result(store: &mut Store, in_flight: &mut InFlight, id: String, result: Paystub)
    requires
        old(store).wf(),
        old(in_flight).wf(),
    ensures
        final(store).wf(),
        final(in_flight).wf(),
        final(store).theme == old(store).theme,
        final(in_flight)@ == old(in_flight)@.remove(id@),
        exists|p: Paystub|
            p@ == received(old(store).paystubs@, result) && final(store).paystubs@ == #[trigger] put(
                old(store).paystubs@,
                id,
                p,
            ),
{
    let Paystub { file, since, state } = result;
    let stored = match state {
        PaystubState::Completed { payment_date, net_salary_bits, infos, datas } => {
            let (infos, datas) = reconcile_keys(store, infos, datas);
            Paystub {
                file,
                since,
                state: PaystubState::Completed { payment_date, net_salary_bits, infos, datas },
            }
        },
        other => Paystub { file, since, state: other },
    };
    in_flight.remove(&id);
    let ghost p = stored;
    store.insert_paystub(id, stored);
    assert(p@ == received(old(store).paystubs@, result));
}

/// The positions, below `n`, of the paystubs of `ps` that are eligible for an
/// analysis (see `eligible`), in increasing order.
pub open spec fn eligible_positions(ps: Seq<(String, Paystub)>, fl: Set<Seq<char>>, n: int) -> Seq<int>
    decreases n,
{
    if n <= 0 {
        Seq::empty()
    } else {
        let prev = eligible_positions(ps, fl, n - 1);
        if eligible(fl, ps[n - 1]) {
            prev.push(n - 1)
        } else {
            prev
        }
    }
}

/// What dispatching does to a paystub sent at `now`: a pending one starts
/// `Processing`; a failed one keeps its state until its result comes back.
pub open spec fn dispatched(p: PaystubView, now: DateTime) -> PaystubView {
    if p.state is Pending {
        p.processing(now)->Ok_0
    } else {
        p
    }
}

/// How many paystubs are sent: as many as are eligible, within the room left
/// under `MAX_CONCURRENT_ANALYSES`.
pub open spec fn dispatch_count(eligible_count: int, in_flight: int) -> int {
    if in_flight >= MAX_CONCURRENT_ANALYSES {
        0
    } else if eligible_count < MAX_CONCURRENT_ANALYSES - in_flight {
        eligible_count
    } else {
        MAX_CONCURRENT_ANALYSES - in_flight
    }
}

/// The identifiers of the paystubs of `sent`.
pub open spec fn sent_ids(sent: Seq<(String, Paystub)>) -> Set<Seq<char>> {
    Set::new(|x: Seq<char>| exists|t: int| 0 <= t < sent.len() && #[trigger] sent[t].0@ == x)
}

/// The outcome of dispatching at `now`: the first eligible paystubs of the
/// store, in store order and as many as `dispatch_count` allows, are sent (as
/// they were before being dispatched), put in flight and, when pending, moved
/// to `Processing`; nothing else changes.
pub open spec fn dispatching(
    before: Seq<(String, Paystub)>,
    after: Seq<(String, Paystub)>,
    flight_before: Set<Seq<char>>,
    flight_after: Set<Seq<char>>,
    sent: Seq<(String, Paystub)>,
    now: DateTime,
) -> bool {
    let e = eligible_positions(before, flight_before, before.len() as int);
    &&& sent.len() == dispatch_count(e.len() as int, flight_before.len() as int)
    &&& forall|t: int| 0 <= t < sent.len() ==> (#[trigger] sent[t]).0 == before[e[t]].0 && sent[t].1@ == before[e[t]].1@
    &&& after.len() == before.len()
    &&& forall|i: int| 0 <= i < before.len() ==> (#[trigger] after[i]).0 == before[i].0
    &&& forall|i: int| 0 <= i < before.len() ==> (#[trigger] after[i]).1@ == if e.take(sent.len() as int).contains(i) {
        dispatched(before[i].1@, now)
    } else {
        before[i].1@
    }
    &&& flight_after == flight_before.union(sent_ids(sent))
    &&& flight_after.len() == flight_before.len() + sent.len()
}

pub(crate) proof fn lemma_eligible_positions(ps: Seq<(String, Paystub)>, fl: Set<Seq<char>>, n: int)
    requires
        0 <= n <= ps.len(),
    ensures
        forall|s: int| 0 <= s < eligible_positions(ps, fl, n).len() ==> 0 <= #[trigger] eligible_positions(ps, fl, n)[s] < n
            && eligible(fl, ps[eligible_positions(ps, fl, n)[s]]),
        forall|s: int, u: int| 0 <= s < u < eligible_positions(ps, fl, n).len() ==> #[trigger] eligible_positions(ps, fl, n)[s] < #[trigger] eligible_positions(ps, fl, n)[u],
        forall|i: int| 0 <= i < n && #[trigger] eligible(fl, ps[i]) ==> eligible_positions(ps, fl, n).contains(i),
    decreases n,
{
    if n > 0 {
        lemma_eligible_positions(ps, fl, n - 1);
        let prev = eligible_positions(ps, fl, n - 1);
        assert forall|i: int| 0 <= i < n && #[trigger] eligible(fl, ps[i]) implies eligible_positions(ps, fl, n).contains(i) by {
            if i < n - 1 {
                let s = choose|s: int| 0 <= s < prev.len() && prev[s] == i;
                assert(eligible_positions(ps, fl, n)[s] == i);
            } else {
                assert(eligible_positions(ps, fl, n)[prev.len() as int] == i);
            }
        }
    }
}

/// Sends the paystubs that await an analysis to the analyser, while fewer than
/// `MAX_CONCURRENT_ANALYSES` are in flight: each is put in flight and, when
/// pending, moved to `Processing` at `now`. Returns the paystubs to send, with
/// their identifiers, as they were before being dispatched.
pub fn dispatch_next_paystubs_at(store: &mut Store, in_flight: &mut InFlight, now: DateTime) -> (sent: Vec<(String, Paystub)>)
    requires
        old(store).wf(),
        old(in_flight).wf(),
    ensures
        final(store).wf(),
        final(in_flight).wf(),
        final(store).theme == old(store).theme,
        dispatching(old(store).paystubs@, final(store).paystubs@, old(in_flight)@, final(in_flight)@, sent@, now),
{
    let ghost ps = store.paystubs@;
    let ghost fl = in_flight@;
    let ghost e = eligible_positions(ps, fl, ps.len() as int);
    proof {
        lemma_eligible_positions(ps, fl, ps.len() as int);
    }
    let mut sent: Vec<(String, Paystub)> = Vec::new();
    let ghost start = fl.len();
    proof {
        texts(in_flight.ids@).unique_seq_to_set();
    }
    assert(fl.union(sent_ids(sent@)) =~= fl);
    loop
        invariant
            store.wf(),
            in_flight.wf(),
            store.theme == old(store).theme,
            ps == old(store).paystubs@,
            unique_labels(ps),
            fl == old(in_flight)@,
            fl.finite(),
            start == fl.len(),
            e == eligible_positions(ps, fl, ps.len() as int),
            forall|s: int| 0 <= s < e.len() ==> 0 <= #[trigger] e[s] < ps.len() && eligible(fl, ps[e[s]]),
            forall|s: int, u: int| 0 <= s < u < e.len() ==> #[trigger] e[s] < #[trigger] e[u],
            forall|i: int| 0 <= i < ps.len() && #[trigger] eligible(fl, ps[i]) ==> e.contains(i),
            sent@.len() <= e.len(),
            start < MAX_CONCURRENT_ANALYSES ==> sent@.len() <= MAX_CONCURRENT_ANALYSES - start,
            start >= MAX_CONCURRENT_ANALYSES ==> sent@.len() == 0,
            in_flight@.len() == start + sent@.len(),
            forall|t: int| 0 <= t < sent@.len() ==> (#[trigger] sent@[t]).0 == ps[e[t]].0 && sent@[t].1@ == ps[e[t]].1@,
            store.paystubs@.len() == ps.len(),
            forall|i: int| 0 <= i < ps.len() ==> (#[trigger] store.paystubs@[i]).0 == ps[i].0,
            forall|i: int| 0 <= i < ps.len() ==> (#[trigger] store.paystubs@[i]).1@ == if e.take(sent@.len() as int).contains(i) {
                dispatched(ps[i].1@, now)
            } else {
                ps[i].1@
            },
            in_flight@ == fl.union(sent_ids(sent@)),
        ensures
            store.wf(),
            in_flight.wf(),
            store.theme == old(store).theme,
            sent@.len() == dispatch_count(e.len() as int, fl.len() as int),
            forall|t: int| 0 <= t < sent@.len() ==> (#[trigger] sent@[t]).0 == ps[e[t]].0 && sent@[t].1@ == ps[e[t]].1@,
            store.paystubs@.len() == ps.len(),
            forall|i: int| 0 <= i < ps.len() ==> (#[trigger] store.paystubs@[i]).0 == ps[i].0,
            forall|i: int| 0 <= i < ps.len() ==> (#[trigger] store.paystubs@[i]).1@ == if e.take(sent@.len() as int).contains(i) {
                dispatched(ps[i].1@, now)
            } else {
                ps[i].1@
            },
            in_flight@ == fl.union(sent_ids(sent@)),
            in_flight@.len() == start + sent@.len(),
        decreases MAX_CONCURRENT_ANALYSES - sent@.len(),
    {
        let t = sent.len();
        // The paystubs eligible now are those eligible at the start that were not sent yet.
        assert forall|i: int| 0 <= i < ps.len() implies (eligible(in_flight@, #[trigger] store.paystubs@[i]) <==> (eligible(fl, ps[i]) && !e.take(t as int).contains(i))) by {
            if e.take(t as int).contains(i) {
                let s = choose|s: int| 0 <= s < t && e.take(t as int)[s] == i;
                assert(sent@[s].0@ == ps[i].0@);
                assert(sent_ids(sent@).contains(ps[i].0@));
            } else {
                assert(store.paystubs@[i].1@ == ps[i].1@);
                if sent_ids(sent@).contains(ps[i].0@) {
                    let s = choose|s: int| 0 <= s < sent@.len() && #[trigger] sent@[s].0@ == ps[i].0@;
                    assert(ps[e[s]].0@ == ps[i].0@);
                    assert(e[s] == i);
                    assert(e.take(t as int)[s] == i);
                }
            }
        }
        if in_flight.len() >= MAX_CONCURRENT_ANALYSES {
            break;
        }
        match get_next_paystub_to_analyse(store, in_flight) {
            None => {
                proof {
                    if t < e.len() {
                        assert(!e.take(t as int).contains(e[t as int])) by {
                            if e.take(t as int).contains(e[t as int]) {
                                let s = choose|s: int| 0 <= s < t && e.take(t as int)[s] == e[t as int];
                                assert(e[s] < e[t as int]);
                            }
                        }
                        assert(eligible(in_flight@, store.paystubs@[e[t as int]]));
                    }
                }
                break;
            },
            Some((id, next)) => {
                let ghost i0 = choose|i: int|
                    0 <= i < store.paystubs@.len() && eligible(in_flight@, #[trigger] store.paystubs@[i])
                        && id == store.paystubs@[i].0 && next@ == store.paystubs@[i].1@ && forall|j: int|
                        0 <= j < i ==> !eligible(in_flight@, #[trigger] store.paystubs@[j]);
                proof {
                    // i0 is the next eligible position, e[t].
                    assert(eligible(fl, ps[i0]) && !e.take(t as int).contains(i0));
                    assert(e.contains(i0));
                    let s = choose|s: int| 0 <= s < e.len() && e[s] == i0;
                    if s < t {
                        assert(e.take(t as int)[s] == i0);
                    }
                    assert(t < e.len());
                    assert(!e.take(t as int).contains(e[t as int])) by {
                        if e.take(t as int).contains(e[t as int]) {
                            let u = choose|u: int| 0 <= u < t && e.take(t as int)[u] == e[t as int];
                            assert(e[u] < e[t as int]);
                        }
                    }
                    assert(eligible(in_flight@, store.paystubs@[e[t as int]]));
                    if s > t {
                        assert(e[t as int] < e[s]);
                    }
                    assert(i0 == e[t as int]);
                }
                let ghost before = store.paystubs@;
                match find_label(&store.paystubs, &id) {
                    Some(i) => {
                        proof {
                            assert(before[i0].0@ == id@);
                            assert forall|j: int| 0 <= j < i0 implies #[trigger] before[j].0@ != id@ by {
                                assert(before[j].0@ != before[i0].0@);
                            }
                            lemma_first_with_label(before, id@, i0);
                        }
                        match store.paystubs[i].1.to_processing_at(now) {
                            Ok(processing) => {
                                let key = store.paystubs[i].0.clone();
                                store.paystubs.set(i, (key, processing));
                                proof {
                                    assert forall|a: int, b: int| 0 <= a < store.paystubs@.len() && 0 <= b < store.paystubs@.len() && a != b
                                        implies #[trigger] store.paystubs@[a].0@ != #[trigger] store.paystubs@[b].0@ by {
                                        assert(before[a].0@ != before[b].0@);
                                    }
                                }
                            },
                            Err(_) => {},
                        }
                    },
                    None => {
                        assert(before[i0].0@ == id@);
                    },
                }
                let ghost mid = store.paystubs@;
                let ghost flight = in_flight@;
                let ghost old_sent = sent@;
                assert(id@ == ps[i0].0@);
                in_flight.insert(id.clone());
                sent.push((id, next));
                proof {
                    assert(e.take(t + 1) =~= e.take(t as int).push(e[t as int]));
                    assert(!flight.contains(ps[i0].0@));
                    assert(sent_ids(sent@) =~= sent_ids(old_sent).insert(ps[i0].0@)) by {
                                                assert forall|x: Seq<char>| #[trigger] sent_ids(sent@).contains(x) == (sent_ids(old_sent).contains(x) || x == ps[i0].0@) by {
                            if x == ps[i0].0@ {
                                assert(sent@[t as int].0@ == x);
                            }
                            if sent_ids(old_sent).contains(x) {
                                let u = choose|u: int| 0 <= u < old_sent.len() && #[trigger] old_sent[u].0@ == x;
                                assert(sent@[u].0@ == x);
                            }
                            if sent_ids(sent@).contains(x) {
                                let u = choose|u: int| 0 <= u < sent@.len() && #[trigger] sent@[u].0@ == x;
                                if u < t {
                                    assert(old_sent[u].0@ == x);
                                }
                            }
                        }
                    }
                    assert(in_flight@ =~= fl.union(sent_ids(sent@)));
                    let et1 = e.take(t + 1);
                    let et = e.take(t as int);
                    assert forall|j: int| 0 <= j < ps.len() implies (#[trigger] store.paystubs@[j]).1@ == if e.take(sent@.len() as int).contains(j) {
                        dispatched(ps[j].1@, now)
                    } else {
                        ps[j].1@
                    } by {
                        if j == i0 {
                            assert(et1[t as int] == j);
                        } else {
                            assert(store.paystubs@[j] == before[j]);
                            if et1.contains(j) {
                                let u = choose|u: int| 0 <= u < et1.len() && et1[u] == j;
                                assert(u != t);
                                assert(et[u] == j);
                            } else {
                                if et.contains(j) {
                                    let u = choose|u: int| 0 <= u < et.len() && et[u] == j;
                                    assert(et1[u] == j);
                                }
                            }
                        }
                    }
                    assert forall|j: int| 0 <= j < ps.len() implies (#[trigger] store.paystubs@[j]).0 == ps[j].0 by {
                        assert(before[j].0 == ps[j].0);
                    }
                    texts(in_flight.ids@).unique_seq_to_set();
                }
            },
        }
    }
    sent
}

/// Sends the paystubs that await an analysis to the analyser (see
/// `dispatch_next_paystubs_at`), moving the pending ones to `Processing` at
/// the current time.
pub fn dispatch_next_paystubs(store: &mut Store, in_flight: &mut InFlight) -> (sent: Vec<(String, Paystub)>)
    requires
        old(store).wf(),
        old(in_flight).wf(),
    ensures
        final(store).wf(),
        final(in_flight).wf(),
        final(store).theme == old(store).theme,
        exists|now: DateTime| -CLOCK_BOUND_MS <= now <= CLOCK_BOUND_MS && #[trigger] dispatching(old(store).paystubs@, final(store).paystubs@, old(in_flight)@, final(in_flight)@, sent@, now),
{
    let now = now_millis();
    dispatch_next_paystubs_at(store, in_flight, now)
}

} // verus!
