//! Normalisation of the labels found in `infos`/`datas`, so that labels that
//! only differ by accents, case or punctuation are recognised as one.
use vstd::prelude::*;
use crate::text::{chars_of, push_char};
use crate::pairs::{put, put_pair, find_label, unique_labels, value_of, has_label, lemma_put_keeps_unique};
use crate::paystub::{Paystub, PaystubState};
use crate::store::Store;

verus! {

/// The accent-free form of `c`, for the accented letters in common French use;
/// every other character is its own form.
pub open spec fn folded(c: char) -> char {
    if c == 'à' || c == 'á' || c == 'â' || c == 'ä' || c == 'ã' || c == 'å' || c == 'À' || c == 'Á'
        || c == 'Â' || c == 'Ä' || c == 'Ã' || c == 'Å' {
        'a'
    } else if c == 'ç' || c == 'Ç' {
        'c'
    } else if c == 'é' || c == 'è' || c == 'ê' || c == 'ë' || c == 'É' || c == 'È' || c == 'Ê'
        || c == 'Ë' {
        'e'
    } else if c == 'î' || c == 'ï' || c == 'Î' || c == 'Ï' {
        'i'
    } else if c == 'ô' || c == 'ö' || c == 'õ' || c == 'Ô' || c == 'Ö' || c == 'Õ' {
        'o'
    } else if c == 'ù' || c == 'û' || c == 'ü' || c == 'Ù' || c == 'Û' || c == 'Ü' {
        'u'
    } else if c == 'ÿ' || c == 'Ÿ' {
        'y'
    } else if c == 'ñ' || c == 'Ñ' {
        'n'
    } else if c == 'œ' || c == 'Œ' {
        'o'
    } else if c == 'æ' || c == 'Æ' {
        'a'
    } else {
        c
    }
}

/// `c` is an ASCII letter or digit.
pub open spec fn is_ascii_alnum(c: char) -> bool {
    ('0' <= c && c <= '9') || ('a' <= c && c <= 'z') || ('A' <= c && c <= 'Z')
}

/// The lower-case form of an ASCII character (other characters are unchanged).
pub open spec fn ascii_lower(c: char) -> char {
    if 'A' <= c && c <= 'Z' {
        ((c as u32) + 32) as char
    } else {
        c
    }
}

/// The normalised form of a label: accents folded, every character that is
/// not an ASCII letter or digit dropped, letters lower-cased.
pub open spec fn normalized(s: Seq<char>) -> Seq<char> {
    s.map_values(|c: char| folded(c)).filter(|c: char| is_ascii_alnum(c)).map_values(
        |c: char| ascii_lower(c),
    )
}

/// Reduces an accented character to its accent-free form (`'é'` gives `'e'`).
pub fn fold_accent(c: char) -> (r: char)
    ensures
        r == folded(c),
{
    match c {
        'à' | 'á' | 'â' | 'ä' | 'ã' | 'å' | 'À' | 'Á' | 'Â' | 'Ä' | 'Ã' | 'Å' => 'a',
        'ç' | 'Ç' => 'c',
        'é' | 'è' | 'ê' | 'ë' | 'É' | 'È' | 'Ê' | 'Ë' => 'e',
        'î' | 'ï' | 'Î' | 'Ï' => 'i',
        'ô' | 'ö' | 'õ' | 'Ô' | 'Ö' | 'Õ' => 'o',
        'ù' | 'û' | 'ü' | 'Ù' | 'Û' | 'Ü' => 'u',
        'ÿ' | 'Ÿ' => 'y',
        'ñ' | 'Ñ' => 'n',
        'œ' | 'Œ' => 'o',
        'æ' | 'Æ' => 'a',
        other => other,
    }
}

fn is_ascii_alnum_char(c: char) -> (r: bool)
    ensures
        r == is_ascii_alnum(c),
{
    ('0' <= c && c <= '9') || ('a' <= c && c <= 'z') || ('A' <= c && c <= 'Z')
}

fn ascii_lower_char(c: char) -> (r: char)
    ensures
        r == ascii_lower(c),
{
    if 'A' <= c && c <= 'Z' {
        ((c as u8) + 32) as char
    } else {
        c
    }
}

pub proof fn lemma_normalized_push(s: Seq<char>, c: char)
    ensures
        normalized(s.push(c)) == if is_ascii_alnum(folded(c)) {
            normalized(s).push(ascii_lower(folded(c)))
        } else {
            normalized(s)
        },
{
    let f = |c: char| folded(c);
    let p = |c: char| is_ascii_alnum(c);
    let l = |c: char| ascii_lower(c);
    let m = s.map_values(f);
    assert(s.push(c).map_values(f) =~= m.push(folded(c)));
    assert(m.push(folded(c)).drop_last() =~= m);
    reveal(Seq::filter);
    let fm = m.filter(p);
    if p(folded(c)) {
        assert(m.push(folded(c)).filter(p) == fm.push(folded(c)));
        assert(fm.push(folded(c)).map_values(l) =~= fm.map_values(l).push(ascii_lower(folded(c))));
    } else {
        assert(m.push(folded(c)).filter(p) == fm);
    }
}

/// Normalises a label for comparison: accents folded, only ASCII letters and
/// digits kept, lower-cased. Two labels that differ only by an accent, a
/// special character or case (`"Salaire de base"`, `"Salaire de base."`,
/// `"Salaire dé base"`) normalise identically.
pub fn normalize_key(key: &str) -> (r: String)
    ensures
        r@ == normalized(key@),
{
    let chars = chars_of(key);
    let mut r = String::new();
    let mut i: usize = 0;
    assert(key@.take(0) =~= Seq::<char>::empty());
    assert(normalized(Seq::<char>::empty()) =~= Seq::<char>::empty()) by {
        reveal(Seq::filter);
    }
    while i < chars.len()
        invariant
            i <= chars.len(),
            chars@ == key@,
            r@ == normalized(key@.take(i as int)),
        decreases chars.len() - i,
    {
        let c = fold_accent(chars[i]);
        proof {
            assert(key@.take(i as int).push(key@[i as int]) =~= key@.take(i + 1));
            lemma_normalized_push(key@.take(i as int), key@[i as int]);
        }
        if is_ascii_alnum_char(c) {
            push_char(&mut r, ascii_lower_char(c));
        }
        i = i + 1;
    }
    assert(key@.take(chars.len() as int) =~= key@);
    r
}


/// The labels of the `infos` of a completed paystub (none for other states).
pub open spec fn info_labels_of(p: Paystub) -> Seq<String> {
    match p.state {
        PaystubState::Completed { infos, .. } => infos@.map_values(|q: (String, String)| q.0),
        _ => Seq::empty(),
    }
}

/// The labels of the `datas` of a completed paystub (none for other states).
pub open spec fn data_labels_of(p: Paystub) -> Seq<String> {
    match p.state {
        PaystubState::Completed { datas, .. } => datas@.map_values(|q: (String, u32)| q.0),
        _ => Seq::empty(),
    }
}

/// The labels already in use among the stored paystubs, in store order: those
/// of `datas` when `datas` holds, those of `infos` otherwise.
pub open spec fn known_labels(ps: Seq<(String, Paystub)>, datas: bool) -> Seq<String>
    decreases ps.len(),
{
    if ps.len() == 0 {
        Seq::empty()
    } else {
        known_labels(ps.drop_last(), datas) + if datas {
            data_labels_of(ps.last().1)
        } else {
            info_labels_of(ps.last().1)
        }
    }
}

/// The first label of `known` whose normalised form is `n`, if any.
pub open spec fn first_similar(known: Seq<String>, n: Seq<char>) -> Option<String>
    decreases known.len(),
{
    if known.len() == 0 {
        None
    } else {
        match first_similar(known.drop_last(), n) {
            Some(x) => Some(x),
            None => if normalized(known.last()@) == n {
                Some(known.last())
            } else {
                None
            },
        }
    }
}

/// The label that `k` takes: the first known label with the same normalised
/// form when it differs from `k`, `k` itself otherwise.
pub open spec fn renamed(known: Seq<String>, k: String) -> String {
    match first_similar(known, normalized(k@)) {
        Some(c) => if c@ != k@ {
            c
        } else {
            k
        },
        None => k,
    }
}

/// The pairs of `input` with their labels renamed (see `renamed`), gathered
/// into a map: when two pairs end up with the same label, the later value
/// wins.
pub open spec fn reconciled<V>(known: Seq<String>, input: Seq<(String, V)>) -> Seq<(String, V)>
    decreases input.len(),
{
    if input.len() == 0 {
        Seq::empty()
    } else {
        put(
            reconciled(known, input.drop_last()),
            renamed(known, input.last().0),
            input.last().1,
        )
    }
}

/// `m` maps each normalised form to the first label of `known` that has it.
pub open spec fn indexes(m: Seq<(String, String)>, known: Seq<String>) -> bool {
    &&& unique_labels(m)
    &&& forall|n: Seq<char>| #[trigger] value_of(m, n) == first_similar(known, n)
}

/// Adds the labels of `pairs` to the index `m` of the labels `known`.
fn index_labels<V>(m: &mut Vec<(String, String)>, pairs: &Vec<(String, V)>, Ghost(known): Ghost<Seq<String>>)
    requires
        indexes(old(m)@, known),
    ensures
        indexes(final(m)@, known + pairs@.map_values(|q: (String, V)| q.0)),
{
    let ghost labels = pairs@.map_values(|q: (String, V)| q.0);
    let mut q: usize = 0;
    assert(known + labels.take(0) =~= known);
    while q < pairs.len()
        invariant
            q <= pairs@.len(),
            labels == pairs@.map_values(|q: (String, V)| q.0),
            indexes(m@, known + labels.take(q as int)),
        decreases pairs.len() - q,
    {
        let ghost before = known + labels.take(q as int);
        let ghost after = known + labels.take(q + 1);
        assert(after =~= before.push(pairs@[q as int].0));
        assert(after.drop_last() =~= before);
        let n = normalize_key(pairs[q].0.as_str());
        match find_label(m, &n) {
            Some(_) => {
                assert(value_of(m@, n@) == first_similar(before, n@));
                assert forall|x: Seq<char>| #[trigger] value_of(m@, x) == first_similar(after, x) by {
                    assert(value_of(m@, x) == first_similar(before, x));
                }
            },
            None => {
                let label = pairs[q].0.clone();
                let ghost m0 = m@;
                proof {
                    lemma_put_keeps_unique(m@, n, label);
                    assert(value_of(m0, n@) == first_similar(before, n@));
                    assert(after.last() == label);
                }
                put_pair(m, n, label);
                assert forall|x: Seq<char>| #[trigger] value_of(m@, x) == first_similar(after, x) by {
                    assert(value_of(m0, x) == first_similar(before, x));
                }
            },
        }
        q = q + 1;
    }
    assert(labels.take(pairs@.len() as int) =~= labels);
}

/// Indexes the labels already in use among the completed paystubs of `store`:
/// `datas` labels when `datas` holds, `infos` labels otherwise.
fn index_known_labels(store: &Store, datas: bool) -> (m: Vec<(String, String)>)
    ensures
        indexes(m@, known_labels(store.paystubs@, datas)),
{
    let mut m: Vec<(String, String)> = Vec::new();
    let mut p: usize = 0;
    let ghost ps = store.paystubs@;
    assert(ps.take(0) =~= Seq::<(String, Paystub)>::empty());
    while p < store.paystubs.len()
        invariant
            p <= ps.len(),
            ps == store.paystubs@,
            indexes(m@, known_labels(ps.take(p as int), datas)),
        decreases ps.len() - p,
    {
        assert(ps.take(p + 1).drop_last() =~= ps.take(p as int));
        match &store.paystubs[p].1.state {
            PaystubState::Completed { infos, datas: values, .. } => {
                if datas {
                    index_labels(&mut m, values, Ghost(known_labels(ps.take(p as int), datas)));
                } else {
                    index_labels(&mut m, infos, Ghost(known_labels(ps.take(p as int), datas)));
                }
            },
            _ => {
                assert(known_labels(ps.take(p + 1), datas) =~= known_labels(ps.take(p as int), datas));
            },
        }
        p = p + 1;
    }
    assert(ps.take(ps.len() as int) =~= ps);
    m
}

/// The label that `key` takes given the index `m` of the known labels.
fn rename(m: &Vec<(String, String)>, key: String, Ghost(known): Ghost<Seq<String>>) -> (r: String)
    requires
        indexes(m@, known),
    ensures
        r == renamed(known, key),
{
    let n = normalize_key(key.as_str());
    match find_label(m, &n) {
        Some(i) => {
            assert(value_of(m@, n@) == first_similar(known, n@));
            if m[i].1 != key {
                m[i].1.clone()
            } else {
                key
            }
        },
        None => {
            assert(value_of(m@, n@) == first_similar(known, n@));
            key
        },
    }
}

/// Renames the labels of `input` (see `reconciled`).
fn rename_all<V>(m: &Vec<(String, String)>, input: Vec<(String, V)>, Ghost(known): Ghost<Seq<String>>) -> (r: Vec<(String, V)>)
    requires
        indexes(m@, known),
    ensures
        r@ == reconciled(known, input@),
{
    let ghost whole = input@;
    let mut out: Vec<(String, V)> = Vec::new();
    let mut src = input;
    let mut rest: Vec<(String, V)> = Vec::new();
    while src.len() > 0
        invariant
            src@.len() + rest@.len() == whole.len(),
            src@ == whole.take(src@.len() as int),
            forall|i: int| 0 <= i < rest@.len() ==> rest@[i] == whole[whole.len() - 1 - i],
        decreases src.len(),
    {
        let x = src.pop().unwrap();
        rest.push(x);
        assert(src@ =~= whole.take(src@.len() as int));
    }
    assert(whole.take(0) =~= Seq::<(String, V)>::empty());
    while rest.len() > 0
        invariant
            rest@.len() <= whole.len(),
            indexes(m@, known),
            forall|i: int| 0 <= i < rest@.len() ==> rest@[i] == whole[whole.len() - 1 - i],
            out@ == reconciled(known, whole.take(whole.len() - rest@.len())),
        decreases rest.len(),
    {
        let ghost done = whole.len() - rest@.len();
        let (k, v) = rest.pop().unwrap();
        assert(whole.take(done + 1).drop_last() =~= whole.take(done));
        let k2 = rename(m, k, Ghost(known));
        put_pair(&mut out, k2, v);
    }
    assert(whole.take(whole.len() as int) =~= whole);
    out
}

/// Aligns the `infos`/`datas` labels of a freshly analysed paystub on those
/// already used by the paystubs of the store, when their normalised forms
/// (see `normalize_key`) agree. `infos` and `datas` are two separate label
/// spaces, handled separately.
pub fn reconcile_keys(store: &Store, infos: Vec<(String, String)>, datas: Vec<(String, u32)>) -> (r: (
    Vec<(String, String)>,
    Vec<(String, u32)>,
))
    ensures
        r.0@ == reconciled(known_labels(store.paystubs@, false), infos@),
        r.1@ == reconciled(known_labels(store.paystubs@, true), datas@),
{
    let known_infos = index_known_labels(store, false);
    let known_datas = index_known_labels(store, true);
    let infos = rename_all(&known_infos, infos, Ghost(known_labels(store.paystubs@, false)));
    let datas = rename_all(&known_datas, datas, Ghost(known_labels(store.paystubs@, true)));
    (infos, datas)
}

} // verus!
