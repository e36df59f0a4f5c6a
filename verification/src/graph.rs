//! The data behind the monthly graph: the month of each payment, the label of
//! a month, the values to plot for a label, and the labels that can be
//! picked as filters.
use vstd::prelude::*;
use vstd::string::StringExecFns;
use crate::text::{push_char, push_decimal, decimal, same_text, chars_of, text_lt, text_less,
    lemma_text_lt_total, lemma_text_lt_transitive, lemma_text_lt_irreflexive};
use crate::pairs::{find_label, value_of, has_label, first_with_label};
use crate::paystub::{Paystub, PaystubState};
use crate::store::Store;
use crate::keys::{known_labels, data_labels_of};
use crate::queue::texts;

verus! {

/// The abbreviated French name of the month `m` (0 for January, 11 for
/// December).
pub open spec fn month_name_of(m: int) -> &'static str {
    if m == 0 {
        "Janv."
    } else if m == 1 {
        "Févr."
    } else if m == 2 {
        "Mars"
    } else if m == 3 {
        "Avr."
    } else if m == 4 {
        "Mai"
    } else if m == 5 {
        "Juin"
    } else if m == 6 {
        "Juil."
    } else if m == 7 {
        "Août"
    } else if m == 8 {
        "Sept."
    } else if m == 9 {
        "Oct."
    } else if m == 10 {
        "Nov."
    } else {
        "Déc."
    }
}

/// The abbreviated French name of the month `m` (0 for January, 11 for
/// December).
pub fn month_name(m: usize) -> (r: &'static str)
    requires
        m < 12,
    ensures
        r == month_name_of(m as int),
{
    match m {
        0 => "Janv.",
        1 => "Févr.",
        2 => "Mars",
        3 => "Avr.",
        4 => "Mai",
        5 => "Juin",
        6 => "Juil.",
        7 => "Août",
        8 => "Sept.",
        9 => "Oct.",
        10 => "Nov.",
        _ => "Déc.",
    }
}

/// The month index of a date: `year * 12 + month - 1`, increasing by one from
/// each month to the next, so that bars are evenly spaced even when payment
/// dates are not. `month` runs from 1 (January) to 12.
pub fn month_bucket(year: i32, month: u8) -> (r: i32)
    requires
        -999_999 <= year <= 999_999,
        1 <= month <= 12,
    ensures
        r == year * 12 + month - 1,
{
    year * 12 + month as i32 - 1
}

/// The label of the month index `b`: the abbreviated name of its month, a
/// space, its year.
pub open spec fn bucket_label(b: int) -> Seq<char> {
    month_name_of(b % 12)@ + seq![' '] + decimal(b / 12)
}

/// The label of a month index (see `month_bucket`): the month's abbreviated
/// name, a space, the year.
pub fn month_bucket_label(bucket: i32) -> (r: String)
    ensures
        r@ == bucket_label(bucket as int),
{
    let b = bucket as i64;
    let year: i64 = if b >= 0 {
        b / 12
    } else {
        -((-b + 11) / 12)
    };
    let month: i64 = b - year * 12;
    assert(year == b as int / 12 && month == b as int % 12) by (nonlinear_arith)
        requires
            year == if b >= 0 {
                b / 12
            } else {
                -((-b + 11) / 12)
            },
            month == b - year * 12,
    ;
    let mut r = String::from_str(month_name(month as usize));
    push_char(&mut r, ' ');
    push_decimal(&mut r, year);
    r
}

/// The filter key of the net salary. It is not an entry of `datas` (every
/// completed paystub has the net salary in a field of its own), but it can be
/// picked and plotted like any other label.
pub const NET_SALARY_KEY: &'static str = "Salaire net";

/// The year and month (1 to 12) of the date with the given Julian day number,
/// as `time::Date` computes it; `None` when `time` does not represent that
/// date.
pub uninterp spec fn calendar_month(julian_day: i32) -> Option<(i32, u8)>;

/// `time::Date::from_julian_day`, then `Date::year` and `Date::month`: the
/// year and month of the date of that Julian day, or `None` where
/// `from_julian_day` reports the day out of range. Besides naming the result,
/// the contract states the ranges that `time`'s types give: a month from 1 to
/// 12, and a year within ±999999 (the widest range `time` supports).
#[verifier::external_body]
fn year_and_month(julian_day: i32) -> (r: Option<(i32, u8)>)
    ensures
        r == calendar_month(julian_day),
        r matches Some((y, m)) ==> -999_999 <= y <= 999_999 && 1 <= m <= 12,
{
    match time::Date::from_julian_day(julian_day) {
        Ok(date) => Some((date.year(), u8::from(date.month()))),
        Err(_) => None,
    }
}

/// The value a completed paystub gives to the label `key` (the net salary for
/// `NET_SALARY_KEY`, the value of `datas` otherwise), as an `f32` bit
/// pattern; `None` for other paystubs or when `datas` lacks the label.
pub open spec fn plotted_value(p: Paystub, key: Seq<char>) -> Option<u32> {
    match p.state {
        PaystubState::Completed { net_salary_bits, datas, .. } => if key == NET_SALARY_KEY@ {
            Some(net_salary_bits)
        } else {
            value_of(datas@, key)
        },
        _ => None,
    }
}

/// The `(month index, value)` that a paystub contributes to the graph of
/// `key`: one when it is completed, has a value for `key` and a payment date
/// that `time` represents; none otherwise.
pub open spec fn month_entry(p: Paystub, key: Seq<char>) -> Seq<(i32, u32)> {
    match p.state {
        PaystubState::Completed { payment_date, .. } => match (
            plotted_value(p, key),
            calendar_month(payment_date),
        ) {
            (Some(v), Some((y, m))) => seq![((y * 12 + m - 1) as i32, v)],
            _ => Seq::empty(),
        },
        _ => Seq::empty(),
    }
}

/// The entries of the graph of `key`, in store order.
pub open spec fn monthly_entries(ps: Seq<(String, Paystub)>, key: Seq<char>) -> Seq<(i32, u32)>
    decreases ps.len(),
{
    if ps.len() == 0 {
        Seq::empty()
    } else {
        monthly_entries(ps.drop_last(), key) + month_entry(ps.last().1, key)
    }
}

/// The `(month index, value)` pairs of the label `key`, one per completed
/// paystub of the store that has a value for it, in store order. The values
/// are `f32` bit patterns; the bars of the graph sum them month by month.
pub fn monthly_values(store: &Store, key: &str) -> (r: Vec<(i32, u32)>)
    ensures
        r@ == monthly_entries(store.paystubs@, key@),
{
    let ghost ps = store.paystubs@;
    let is_net = same_text(key, NET_SALARY_KEY);
    let owned_key = String::from_str(key);
    let mut r: Vec<(i32, u32)> = Vec::new();
    let mut i: usize = 0;
    assert(ps.take(0) =~= Seq::<(String, Paystub)>::empty());
    while i < store.paystubs.len()
        invariant
            i <= ps.len(),
            ps == store.paystubs@,
            is_net == (key@ == NET_SALARY_KEY@),
            owned_key@ == key@,
            r@ == monthly_entries(ps.take(i as int), key@),
        decreases ps.len() - i,
    {
        assert(ps.take(i + 1).drop_last() =~= ps.take(i as int));
        let ghost before = r@;
        match &store.paystubs[i].1.state {
            PaystubState::Completed { payment_date, net_salary_bits, datas, .. } => {
                let value = if is_net {
                    Some(*net_salary_bits)
                } else {
                    match find_label(datas, &owned_key) {
                        Some(k) => Some(datas[k].1),
                        None => None,
                    }
                };
                assert(value == plotted_value(ps[i as int].1, key@));
                match value {
                    Some(v) => match year_and_month(*payment_date) {
                        Some((y, m)) => {
                            r.push((month_bucket(y, m), v));
                            assert(r@ =~= before + month_entry(ps[i as int].1, key@));
                        },
                        None => {
                            assert(r@ =~= before + month_entry(ps[i as int].1, key@));
                        },
                    },
                    None => {
                        assert(r@ =~= before + month_entry(ps[i as int].1, key@));
                    },
                }
            },
            _ => {
                assert(r@ =~= before + month_entry(ps[i as int].1, key@));
            },
        }
        i = i + 1;
    }
    assert(ps.take(ps.len() as int) =~= ps);
    r
}

/// The number of completed paystubs among `ps`.
pub open spec fn completed_count(ps: Seq<(String, Paystub)>) -> nat
    decreases ps.len(),
{
    if ps.len() == 0 {
        0
    } else {
        completed_count(ps.drop_last()) + if ps.last().1.state is Completed {
            1nat
        } else {
            0nat
        }
    }
}

/// Counts the completed paystubs of the store: a cheap signal of whether the
/// cached labels of the graph are still up to date.
pub fn count_completed(store: &Store) -> (r: usize)
    ensures
        r == completed_count(store.paystubs@),
{
    let ghost ps = store.paystubs@;
    let mut n: usize = 0;
    let mut i: usize = 0;
    assert(ps.take(0) =~= Seq::<(String, Paystub)>::empty());
    while i < store.paystubs.len()
        invariant
            i <= ps.len(),
            ps == store.paystubs@,
            n == completed_count(ps.take(i as int)),
            n <= i,
        decreases ps.len() - i,
    {
        assert(ps.take(i + 1).drop_last() =~= ps.take(i as int));
        match &store.paystubs[i].1.state {
            PaystubState::Completed { .. } => {
                n = n + 1;
            },
            _ => {},
        }
        i = i + 1;
    }
    assert(ps.take(ps.len() as int) =~= ps);
    n
}

/// Each text comes strictly before the next ones (so none occurs twice).
pub open spec fn strictly_sorted(s: Seq<Seq<char>>) -> bool {
    forall|i: int, j: int| 0 <= i < j < s.len() ==> text_lt(#[trigger] s[i], #[trigger] s[j])
}

/// Inserts `x` at its place in the sorted list `v`, unless it is there
/// already.
fn insert_sorted(v: &mut Vec<String>, x: String)
    requires
        strictly_sorted(texts(old(v)@)),
    ensures
        strictly_sorted(texts(final(v)@)),
        texts(final(v)@).to_set() == texts(old(v)@).to_set().insert(x@),
{
    let ghost s = texts(v@);
    let xc = chars_of(x.as_str());
    let mut p: usize = 0;
    while p < v.len() && text_less(&chars_of(v[p].as_str()), &xc)
        invariant
            p <= v@.len(),
            s == texts(v@),
            xc@ == x@,
            forall|i: int| 0 <= i < p ==> text_lt(#[trigger] s[i], x@),
        decreases v.len() - p,
    {
        p = p + 1;
    }
    if p < v.len() && v[p] == x {
        assert(texts(v@).to_set() =~= s.to_set().insert(x@)) by {
            assert(s[p as int] == x@);
        }
        return;
    }
    proof {
        if p < s.len() {
            lemma_text_lt_total(s[p as int], x@);
        }
    }
    v.insert(p, x);
    let ghost t = texts(v@);
    assert(t =~= s.insert(p as int, x@));
    proof {
        assert forall|i: int, j: int| 0 <= i < j < t.len() implies text_lt(#[trigger] t[i], #[trigger] t[j]) by {
            if j < p {
            } else if j == p {
            } else if i < p {
                // t[i] < x < t[j]
                if j - 1 > p {
                    lemma_text_lt_transitive(x@, s[p as int], s[j - 1]);
                }
                lemma_text_lt_transitive(s[i], x@, s[j - 1]);
            } else if i == p {
                if j - 1 > p {
                    lemma_text_lt_transitive(x@, s[p as int], s[j - 1]);
                }
            } else {
            }
        }
        assert forall|a: Seq<char>| #[trigger] t.to_set().contains(a) == s.to_set().insert(x@).contains(a) by {
            if s.contains(a) {
                let k = choose|k: int| 0 <= k < s.len() && s[k] == a;
                if k < p {
                    assert(t[k] == a);
                } else {
                    assert(t[k + 1] == a);
                }
            }
            if a == x@ {
                assert(t[p as int] == a);
            }
            if t.contains(a) {
                let k = choose|k: int| 0 <= k < t.len() && t[k] == a;
                if k < p {
                    assert(s[k] == a);
                } else if k > p {
                    assert(s[k - 1] == a);
                }
            }
        }
        assert(t.to_set() =~= s.to_set().insert(x@));
    }
}

/// The labels that can be picked as filters: `NET_SALARY_KEY` and the labels
/// of the `datas` of the completed paystubs of `ps`.
pub open spec fn filter_keys(ps: Seq<(String, Paystub)>) -> Set<Seq<char>> {
    texts(known_labels(ps, true)).to_set().insert(NET_SALARY_KEY@)
}

/// Collects the labels of the `datas` of all completed paystubs of the store,
/// with `NET_SALARY_KEY`, each once and in sorted order.
pub fn collect_datas_keys(store: &Store) -> (r: Vec<String>)
    ensures
        strictly_sorted(texts(r@)),
        texts(r@).to_set() == filter_keys(store.paystubs@),
{
    let ghost ps = store.paystubs@;
    let mut keys: Vec<String> = Vec::new();
    assert(strictly_sorted(texts(keys@)));
    insert_sorted(&mut keys, String::from_str(NET_SALARY_KEY));
    let mut p: usize = 0;
    assert(ps.take(0) =~= Seq::<(String, Paystub)>::empty());
    assert(texts(keys@).to_set() =~= texts(known_labels(ps.take(0), true)).to_set().insert(NET_SALARY_KEY@)) by {
        assert(texts(Seq::<String>::empty()).to_set() =~= Set::<Seq<char>>::empty());
        assert(texts(known_labels(ps.take(0), true)) =~= Seq::<Seq<char>>::empty());
    }
    while p < store.paystubs.len()
        invariant
            p <= ps.len(),
            ps == store.paystubs@,
            strictly_sorted(texts(keys@)),
            texts(keys@).to_set() == texts(known_labels(ps.take(p as int), true)).to_set().insert(NET_SALARY_KEY@),
        decreases ps.len() - p,
    {
        assert(ps.take(p + 1).drop_last() =~= ps.take(p as int));
        let ghost prefix = known_labels(ps.take(p as int), true);
        match &store.paystubs[p].1.state {
            PaystubState::Completed { datas, .. } => {
                let ghost labels = datas@.map_values(|q: (String, u32)| q.0);
                let mut q: usize = 0;
                assert(prefix + labels.take(0) =~= prefix);
                while q < datas.len()
                    invariant
                        q <= datas@.len(),
                        labels == datas@.map_values(|q: (String, u32)| q.0),
                        strictly_sorted(texts(keys@)),
                        texts(keys@).to_set() == texts(prefix + labels.take(q as int)).to_set().insert(NET_SALARY_KEY@),
                    decreases datas.len() - q,
                {
                    let ghost old_set = texts(keys@).to_set();
                    insert_sorted(&mut keys, datas[q].0.clone());
                    assert(texts(prefix + labels.take(q + 1)) =~= texts(prefix + labels.take(q as int)).push(datas@[q as int].0@));
                    assert(texts(prefix + labels.take(q + 1)).to_set() =~= texts(prefix + labels.take(q as int)).to_set().insert(datas@[q as int].0@)) by {
                        let a = texts(prefix + labels.take(q as int));
                        assert forall|y: Seq<char>| #[trigger] a.push(datas@[q as int].0@).to_set().contains(y) == a.to_set().insert(datas@[q as int].0@).contains(y) by {
                            if a.contains(y) {
                                let k = choose|k: int| 0 <= k < a.len() && a[k] == y;
                                assert(a.push(datas@[q as int].0@)[k] == y);
                            }
                            if y == datas@[q as int].0@ {
                                assert(a.push(datas@[q as int].0@)[a.len() as int] == y);
                            }
                            if a.push(datas@[q as int].0@).contains(y) {
                                let k = choose|k: int| 0 <= k < a.len() + 1 && a.push(datas@[q as int].0@)[k] == y;
                                if k < a.len() {
                                    assert(a[k] == y);
                                }
                            }
                        }
                    }
                    assert(texts(keys@).to_set() =~= texts(prefix + labels.take(q + 1)).to_set().insert(NET_SALARY_KEY@));
                    q = q + 1;
                }
                assert(labels.take(datas@.len() as int) =~= labels);
                assert(known_labels(ps.take(p + 1), true) == prefix + labels);
            },
            _ => {
                assert(known_labels(ps.take(p + 1), true) =~= prefix);
            },
        }
        p = p + 1;
    }
    assert(ps.take(ps.len() as int) =~= ps);
    keys
}

/// The graph of the paystubs: the labels picked as filters, and the cached
/// list of the labels that can be picked.
#[derive(Debug, PartialEq, Eq)]
pub struct Graph {
    pub filters: Vec<String>,
    /// The labels of the `datas` of all completed paystubs of the store, with
    /// `NET_SALARY_KEY`, sorted.
    pub datas_keys_cache: Vec<String>,
    /// The number of completed paystubs when `datas_keys_cache` was last
    /// computed: a cheap signal of whether it is still up to date, without
    /// rebuilding the list of labels at each frame.
    pub cached_completed_count: usize,
}

impl Default for Graph {
    /// The net salary is picked at start: it is the most relevant figure of a
    /// paystub, unlike the `datas` labels, which vary from one employer to
    /// the next.
    fn default() -> (r: Graph)
        ensures
            texts(r.filters@) == seq![NET_SALARY_KEY@],
            r.datas_keys_cache@.len() == 0,
            r.cached_completed_count == 0,
    {
        let mut filters: Vec<String> = Vec::new();
        filters.push(String::from_str(NET_SALARY_KEY));
        assert(texts(filters@) =~= seq![NET_SALARY_KEY@]);
        Graph { filters, datas_keys_cache: Vec::new(), cached_completed_count: 0 }
    }
}

/// `s` without the texts equal to `x`.
pub open spec fn without(s: Seq<Seq<char>>, x: Seq<char>) -> Seq<Seq<char>> {
    s.filter(|y: Seq<char>| y != x)
}

impl Graph {
    /// Recomputes the cached labels when the number of completed paystubs
    /// has changed since they were computed.
    pub fn refresh_keys(&mut self, store: &Store)
        ensures
            final(self).filters == old(self).filters,
            final(self).cached_completed_count == completed_count(store.paystubs@),
            old(self).cached_completed_count == completed_count(store.paystubs@) ==> final(self).datas_keys_cache == old(self).datas_keys_cache,
            old(self).cached_completed_count != completed_count(store.paystubs@) ==> {
                &&& strictly_sorted(texts(final(self).datas_keys_cache@))
                &&& texts(final(self).datas_keys_cache@).to_set() == filter_keys(store.paystubs@)
            },
    {
        let completed = count_completed(store);
        if completed != self.cached_completed_count {
            self.datas_keys_cache = collect_datas_keys(store);
            self.cached_completed_count = completed;
        }
    }

    /// `key` is picked as a filter.
    pub fn is_filter(&self, key: &String) -> (r: bool)
        ensures
            r == texts(self.filters@).contains(key@),
    {
        let mut i: usize = 0;
        while i < self.filters.len()
            invariant
                i <= self.filters@.len(),
                forall|j: int| 0 <= j < i ==> texts(self.filters@)[j] != key@,
            decreases self.filters.len() - i,
        {
            if self.filters[i] == *key {
                assert(texts(self.filters@)[i as int] == key@);
                return true;
            }
            i = i + 1;
        }
        false
    }

    /// Picks `key` as a filter when `checked`, or drops every occurrence of it
    /// from the filters otherwise.
    pub fn set_filter(&mut self, key: &String, checked: bool)
        ensures
            final(self).datas_keys_cache == old(self).datas_keys_cache,
            final(self).cached_completed_count == old(self).cached_completed_count,
            checked ==> texts(final(self).filters@) == texts(old(self).filters@).push(key@),
            !checked ==> texts(final(self).filters@) == without(texts(old(self).filters@), key@),
    {
        if checked {
            self.filters.push(key.clone());
            assert(texts(self.filters@) =~= texts(old(self).filters@).push(key@));
        } else {
            let ghost s = texts(self.filters@);
            let mut kept: Vec<String> = Vec::new();
            let mut i: usize = 0;
            proof {
                reveal(Seq::filter);
                assert(s.take(0) =~= Seq::<Seq<char>>::empty());
                assert(without(s.take(0), key@) =~= Seq::<Seq<char>>::empty());
            }
            while i < self.filters.len()
                invariant
                    i <= self.filters@.len(),
                    s == texts(self.filters@),
                    texts(kept@) == without(s.take(i as int), key@),
                decreases self.filters.len() - i,
            {
                proof {
                    reveal(Seq::filter);
                    assert(s.take(i + 1).drop_last() =~= s.take(i as int));
                    assert(s.take(i + 1).last() == s[i as int]);
                }
                if self.filters[i] != *key {
                    let ghost before = texts(kept@);
                    kept.push(self.filters[i].clone());
                    assert(texts(kept@) =~= before.push(s[i as int]));
                }
                i = i + 1;
            }
            assert(s.take(s.len() as int) =~= s);
            self.filters = kept;
        }
    }
}

} // verus!
