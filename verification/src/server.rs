//! The decisions of the paystub server: which pending paystub its periodic
//! job analyses next, what the analyser's answer makes of it, and how an
//! uploaded file is accepted and stored.
use vstd::prelude::*;
use vstd::string::StringExecFns;
use crate::text::{chars_of, string_from_chars, occurs_at};

verus! {

/// The data extracted from a paystub. The values of `datas` are `f32`
/// amounts held by their bit patterns.
#[derive(Debug, PartialEq, Eq)]
pub struct Paystub {
    pub infos: Vec<(String, String)>,
    pub datas: Vec<(String, u32)>,
}

/// The state of a stored paystub; each holds the path of its PDF file.
#[derive(Debug, PartialEq, Eq)]
pub enum PaystubState {
    /// Uploaded, waiting for its analysis.
    Pending(String),
    /// Being analysed since the given time (milliseconds since the Unix epoch).
    Analyse(String, u128),
    /// Analysed, with the extracted data.
    Analysed(String, Paystub),
}

/// What the status route reports about the analyser.
#[derive(Debug, PartialEq, Eq)]
pub struct StatusResponse {
    pub claude_installed: bool,
    pub claude_connected: bool,
}

/// The path of the PDF file of a paystub, whatever its state.
pub open spec fn path_of(s: PaystubState) -> String {
    match s {
        PaystubState::Pending(path) => path,
        PaystubState::Analyse(path, _) => path,
        PaystubState::Analysed(path, _) => path,
    }
}

impl PaystubState {
    /// The path of the PDF file of the paystub.
    pub fn path(&self) -> (r: &String)
        ensures
            *r == path_of(*self),
    {
        match self {
            PaystubState::Pending(path) => path,
            PaystubState::Analyse(path, _) => path,
            PaystubState::Analysed(path, _) => path,
        }
    }
}

/// The error of a request for a paystub that is not stored.
pub const NOT_FOUND: &'static str = "Fiche introuvable.";

/// The file to serve for a stored paystub: its path, or `NOT_FOUND` when no
/// paystub has the requested identifier.
pub fn stored_file(item: Option<PaystubState>) -> (r: Result<String, &'static str>)
    ensures
        match item {
            Some(s) => r == Ok::<String, &'static str>(path_of(s)),
            None => r == Err::<String, &'static str>(NOT_FOUND),
        },
{
    match item {
        Some(PaystubState::Pending(path)) => Ok(path),
        Some(PaystubState::Analyse(path, _)) => Ok(path),
        Some(PaystubState::Analysed(path, _)) => Ok(path),
        None => Err(NOT_FOUND),
    }
}

/// The error of an upload that is not a PDF file.
pub const ONLY_PDF: &'static str = "Seul les PDFs sont authorisés.";

/// The name given to an uploaded file that comes without one.
pub const UNKNOWN_NAME: &'static str = "inconnu";

/// `s` ends with `suffix`.
pub open spec fn ends_with(s: Seq<char>, suffix: Seq<char>) -> bool {
    suffix.len() <= s.len() && s.skip(s.len() - suffix.len()) == suffix
}

/// Where an uploaded file is stored: `paystubs/{id}.pdf`, accepted only when
/// its name (`UNKNOWN_NAME` when it has none) ends with `.pdf`.
pub open spec fn upload_target_of(file_name: Option<Seq<char>>, id: Seq<char>) -> Result<Seq<char>, &'static str> {
    let name = match file_name {
        Some(n) => n,
        None => UNKNOWN_NAME@,
    };
    if ends_with(name, ".pdf"@) {
        Ok("paystubs/"@ + id + ".pdf"@)
    } else {
        Err(ONLY_PDF)
    }
}

/// Where to store an uploaded file with the new identifier `id` (see
/// `upload_target_of`).
pub fn upload_target(file_name: Option<&str>, id: &str) -> (r: Result<String, &'static str>)
    ensures
        match upload_target_of(match file_name {
            Some(n) => Some(n@),
            None => None,
        }, id@) {
            Ok(p) => (r matches Ok(q) && q@ == p),
            Err(e) => r == Err::<String, &'static str>(e),
        },
{
    let name = match file_name {
        Some(n) => n,
        None => UNKNOWN_NAME,
    };
    let c = chars_of(name);
    let suffix = chars_of(".pdf");
    if c.len() < suffix.len() || !occurs_at(&c, c.len() - suffix.len(), c.len(), &suffix) {
        proof {
            if ends_with(name@, ".pdf"@) {
                assert(c@.subrange(c@.len() - suffix@.len(), c@.len() as int) =~= name@.skip(name@.len() - suffix@.len()));
            }
        }
        return Err(ONLY_PDF);
    }
    assert(c@.subrange(c@.len() - suffix@.len(), c@.len() as int) =~= name@.skip(name@.len() - suffix@.len()));
    let mut location = String::from_str("paystubs/");
    location.append(id);
    location.append(".pdf");
    Ok(location)
}

/// The first pending paystub of `entries`, if any: its identifier and path.
pub open spec fn first_pending(entries: Seq<(String, PaystubState)>) -> Option<(String, String)>
    decreases entries.len(),
{
    if entries.len() == 0 {
        None
    } else {
        match entries[0].1 {
            PaystubState::Pending(path) => Some((entries[0].0, path)),
            _ => first_pending(entries.drop_first()),
        }
    }
}

/// Picks the next paystub for the periodic analysis: the first pending one
/// of `entries`, with its identifier, its path and the state it takes while
/// analysed since `now`.
pub fn claim_next_pending(entries: &Vec<(String, PaystubState)>, now: u128) -> (r: Option<(String, String, PaystubState)>)
    ensures
        match first_pending(entries@) {
            Some((key, path)) => r matches Some((k, p, s)) && k == key && p == path && s == PaystubState::Analyse(path, now),
            None => r is None,
        },
{
    let mut i: usize = 0;
    assert(entries@.skip(0) =~= entries@);
    while i < entries.len()
        invariant
            i <= entries@.len(),
            first_pending(entries@) == first_pending(entries@.skip(i as int)),
        decreases entries.len() - i,
    {
        assert(entries@.skip(i as int).drop_first() =~= entries@.skip(i + 1));
        assert(entries@.skip(i as int)[0] == entries@[i as int]);
        match &entries[i].1 {
            PaystubState::Pending(path) => {
                return Some((entries[i].0.clone(), path.clone(), PaystubState::Analyse(path.clone(), now)));
            },
            _ => {},
        }
        i = i + 1;
    }
    None
}

/// The request sent to the analyser for the paystub stored at `path`.
pub open spec fn analysis_request_of(path: Seq<char>) -> Seq<char> {
    "Lis le fichier \""@ + path + "\" et renvoie uniquement le JSON demandé, rien d'autre."@
}

/// Builds the request sent to the analyser for the paystub at `path`.
pub fn analysis_request(path: &str) -> (r: String)
    ensures
        r@ == analysis_request_of(path@),
{
    let mut r = String::from_str("Lis le fichier \"");
    r.append(path);
    r.append("\" et renvoie uniquement le JSON demandé, rien d'autre.");
    r
}

/// `s` with every occurrence of `pat` removed, scanning from the left
/// without overlap (`str::replace(pat, "")`).
pub open spec fn removed(s: Seq<char>, pat: Seq<char>) -> Seq<char>
    decreases s.len(),
{
    if pat.len() == 0 || s.len() < pat.len() {
        s
    } else if s.take(pat.len() as int) == pat {
        removed(s.skip(pat.len() as int), pat)
    } else {
        seq![s[0]] + removed(s.drop_first(), pat)
    }
}

/// Removes every occurrence of `pat` from `s` (see `removed`).
pub fn remove_all(s: &str, pat: &str) -> (r: String)
    ensures
        r@ == removed(s@, pat@),
{
    let c = chars_of(s);
    let p = chars_of(pat);
    if p.len() == 0 {
        return String::from_str(s);
    }
    let mut out: Vec<char> = Vec::new();
    let mut i: usize = 0;
    assert(c@.skip(0) =~= c@);
    while i < c.len()
        invariant
            c@ == s@,
            p@ == pat@,
            p@.len() > 0,
            i <= c@.len(),
            out@ + removed(c@.skip(i as int), p@) == removed(c@, p@),
        decreases c.len() - i,
    {
        let ghost rest = c@.skip(i as int);
        if occurs_at(&c, i, c.len(), &p) {
            assert(rest.take(p@.len() as int) =~= c@.subrange(i as int, i + p@.len()));
            assert(rest.skip(p@.len() as int) =~= c@.skip(i + p@.len()));
            i = i + p.len();
        } else {
            proof {
                if rest.len() >= p@.len() {
                    assert(rest.take(p@.len() as int) =~= c@.subrange(i as int, i + p@.len()));
                }
                assert(rest.drop_first() =~= c@.skip(i + 1));
                if rest.len() < p@.len() {
                    assert(removed(rest, p@) == rest);
                    assert(removed(c@.skip(i + 1), p@) == c@.skip(i + 1));
                    assert(rest =~= seq![rest[0]] + c@.skip(i + 1));
                }
            }
            let ghost before = out@;
            out.push(c[i]);
            assert(out@ + removed(c@.skip(i + 1), p@) =~= before + (seq![c@[i as int]] + removed(c@.skip(i + 1), p@)));
            i = i + 1;
        }
    }
    assert(c@.skip(i as int) =~= Seq::<char>::empty());
    assert(out@ =~= removed(c@, p@));
    string_from_chars(&out)
}

/// The analyser's answer without its markdown fences: every "```json", then
/// every "```", removed.
pub open spec fn unfenced_answer(s: Seq<char>) -> Seq<char> {
    removed(removed(s, "```json"@), "```"@)
}

/// Removes the markdown fences from an answer of the analyser (see
/// `unfenced_answer`).
pub fn strip_fences(answer: &str) -> (r: String)
    ensures
        r@ == unfenced_answer(answer@),
{
    let without_json = remove_all(answer, "```json");
    remove_all(without_json.as_str(), "```")
}

/// The error reported when the analyser fails.
pub const ANALYSIS_FAILED: &'static str = "Analyse de la fiche de paye.";

/// The error reported when the analyser's answer cannot be read.
pub const UNREADABLE_PAYSTUB: &'static str = "Décodage du JSON de la fiche de paye.";

/// The state a paystub analysed from `path` ends in, and the outcome of the
/// periodic job: analysed with its data when the analyser answered
/// (`analyser_ok`) with readable data (`parsed`); back to pending otherwise,
/// with `ANALYSIS_FAILED` or `UNREADABLE_PAYSTUB`.
pub fn conclude_analysis(path: String, analyser_ok: bool, parsed: Option<Paystub>) -> (r: (PaystubState, Result<(), &'static str>))
    ensures
        !analyser_ok ==> r == (PaystubState::Pending(path), Err::<(), &'static str>(ANALYSIS_FAILED)),
        analyser_ok ==> r == match parsed {
            Some(p) => (PaystubState::Analysed(path, p), Ok::<(), &'static str>(())),
            None => (PaystubState::Pending(path), Err::<(), &'static str>(UNREADABLE_PAYSTUB)),
        },
{
    if !analyser_ok {
        return (PaystubState::Pending(path), Err(ANALYSIS_FAILED));
    }
    match parsed {
        Some(p) => (PaystubState::Analysed(path, p), Ok(())),
        None => (PaystubState::Pending(path), Err(UNREADABLE_PAYSTUB)),
    }
}

} // verus!
