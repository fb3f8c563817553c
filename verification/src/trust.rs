//! The trust record: a persisted whitelist of configuration file paths
//! approved for non-interactive export.
//!
//! The record is held as a list of absolute, canonicalized path strings and
//! persisted as a structured array of strings. Entries are only ever added:
//! asking to trust a path already present changes nothing, so the record
//! built by these operations never holds duplicates. A missing or unreadable
//! store never errors a trust check; it simply trusts nothing.

use vstd::prelude::*;

verus! {

/// The characters of each entry of a record.
pub open spec fn str_views(record: Seq<String>) -> Seq<Seq<char>> {
    record.map_values(|s: String| s@)
}

/// What parsing a persisted trust record yields: `None` when the text is
/// not a structured array of strings, otherwise the listed paths.
pub uninterp spec fn trust_list_of(text: Seq<char>) -> Option<Seq<Seq<char>>>;

/// The canonical persisted text of a trust record.
pub uninterp spec fn trust_json_of(record: Seq<Seq<char>>) -> Seq<char>;

/// Relies on `serde_json::from_str`: parses a persisted trust record, a
/// structured array of path strings.
#[verifier::external_body]
fn parse_trust_list(text: &str) -> (r: Option<Vec<String>>)
    ensures
        match r {
            Some(record) => trust_list_of(text@) == Some(str_views(record@)),
            None => trust_list_of(text@) is None,
        },
{
    serde_json::from_str::<Vec<String>>(text).ok()
}

/// Relies on `serde_json::to_string`: renders a trust record as a
/// structured array of path strings. On a list of strings the call cannot
/// fail, and `serde_json::from_str` reads the rendered text back as the
/// same list.
#[verifier::external_body]
fn encode_trust_list(record: &Vec<String>) -> (r: Option<String>)
    ensures
        r is Some,
        r matches Some(s) ==> s@ == trust_json_of(str_views(record@)) && trust_list_of(s@)
            == Some(str_views(record@)),
{
    serde_json::to_string(record).ok()
}

/// Parses a persisted trust record.
pub fn parse_trust_record(text: &str) -> (r: Option<Vec<String>>)
    ensures
        match r {
            Some(record) => trust_list_of(text@) == Some(str_views(record@)),
            None => trust_list_of(text@) is None,
        },
{
    parse_trust_list(text)
}

/// Renders a trust record for persisting: the canonical store text, which
/// parses back to exactly the paths it was made from, so a store just
/// persisted is always readable by the trust check.
pub fn encode_trust_record(record: &Vec<String>) -> (r: String)
    ensures
        r@ == trust_json_of(str_views(record@)),
        trust_list_of(r@) == Some(str_views(record@)),
{
    match encode_trust_list(record) {
        Some(text) => text,
        None => String::new(),
    }
}

/// Returns true when `record` holds an entry whose characters equal `path`.
pub fn is_trusted_in(record: &Vec<String>, path: &String) -> (r: bool)
    ensures
        r == str_views(record@).contains(path@),
{
    let mut k: usize = 0;
    while k < record.len()
        invariant
            k <= record@.len(),
            forall|i: int| 0 <= i < k ==> record@[i]@ != path@,
        decreases record@.len() - k,
    {
        if record[k] == *path {
            proof {
                assert(str_views(record@)[k as int] == path@);
            }
            return true;
        }
        k = k + 1;
    }
    proof {
        assert forall|i: int| 0 <= i < str_views(record@).len() implies str_views(record@)[i]
            != path@ by {
            assert(record@[i]@ != path@);
        }
    }
    false
}

/// Whether a persisted store with content `store_text` trusts `path`:
/// false when the store file does not exist, when its content does not
/// parse, and when the parsed record does not list `path`.
pub open spec fn is_trusted_spec(store_text: Option<Seq<char>>, path: Seq<char>) -> bool {
    match store_text {
        None => false,
        Some(t) => match trust_list_of(t) {
            None => false,
            Some(record) => record.contains(path),
        },
    }
}

/// Decides whether `path` is trusted, given the content of the store file,
/// or `None` where that file does not exist.
pub fn is_trusted(store_text: &Option<String>, path: &String) -> (r: bool)
    ensures
        r == is_trusted_spec(
            match store_text {
                Some(t) => Some(t@),
                None => None,
            },
            path@,
        ),
{
    match store_text {
        None => false,
        Some(text) => {
            match parse_trust_list(text.as_str()) {
                None => false,
                Some(record) => is_trusted_in(&record, path),
            }
        },
    }
}

/// A path never listed is never trusted, and a store that does not exist,
/// or does not parse, trusts nothing.
pub proof fn lemma_untrusted(store_text: Option<Seq<char>>, path: Seq<char>)
    ensures
        !is_trusted_spec(None, path),
        store_text matches Some(t) && trust_list_of(t) is None ==> !is_trusted_spec(
            store_text,
            path,
        ),
        store_text matches Some(t) && (trust_list_of(t) matches Some(record)
            && !record.contains(path)) ==> !is_trusted_spec(store_text, path),
{
}

/// The outcome of asking to trust a path.
pub enum TrustOutcome {
    /// The record already lists the path; nothing is to be written.
    AlreadyTrusted,
    /// The record did not list the path; the updated record to persist.
    Updated(Vec<String>),
}

/// The record after asking to trust `path`: unchanged when `path` is
/// already listed, otherwise with `path` appended.
pub open spec fn trust_applied(record: Seq<Seq<char>>, path: Seq<char>) -> Seq<Seq<char>> {
    if record.contains(path) {
        record
    } else {
        record.push(path)
    }
}

/// Asks to trust `path`: reports when the record already lists it, and
/// otherwise yields the record with `path` appended, to be persisted.
pub fn trust_update(record: Vec<String>, path: &String) -> (r: TrustOutcome)
    ensures
        match r {
            TrustOutcome::AlreadyTrusted => str_views(record@).contains(path@) && trust_applied(
                str_views(record@),
                path@,
            ) == str_views(record@),
            TrustOutcome::Updated(updated) => !str_views(record@).contains(path@) && str_views(
                updated@,
            ) == trust_applied(str_views(record@), path@),
        },
{
    if is_trusted_in(&record, path) {
        TrustOutcome::AlreadyTrusted
    } else {
        let mut updated = record;
        updated.push(path.clone());
        proof {
            assert(str_views(updated@) =~= str_views(record@).push(path@));
        }
        TrustOutcome::Updated(updated)
    }
}

/// How often `path` stands in `record`.
pub open spec fn count_of(record: Seq<Seq<char>>, path: Seq<char>) -> nat
    decreases record.len(),
{
    if record.len() == 0 {
        0nat
    } else {
        count_of(record.drop_last(), path) + if record.last() == path {
            1nat
        } else {
            0nat
        }
    }
}

/// A record holds a path exactly when it counts it at least once.
pub proof fn lemma_count_contains(record: Seq<Seq<char>>, path: Seq<char>)
    ensures
        record.contains(path) <==> count_of(record, path) >= 1,
    decreases record.len(),
{
    if record.len() > 0 {
        lemma_count_contains(record.drop_last(), path);
        if record.last() != path {
            if record.contains(path) {
                let i = choose|i: int| 0 <= i < record.len() && record[i] == path;
                assert(record.drop_last()[i] == path);
            }
            if record.drop_last().contains(path) {
                let i = choose|i: int|
                    0 <= i < record.drop_last().len() && record.drop_last()[i] == path;
                assert(record[i] == path);
            }
        }
    }
}

/// Asking to trust a path is idempotent: where the record did not hold
/// duplicate entries for `path` beforehand, one ask leaves exactly one
/// entry for it, and a second ask changes nothing.
pub proof fn lemma_trust_idempotent(record: Seq<Seq<char>>, path: Seq<char>)
    requires
        count_of(record, path) <= 1,
    ensures
        count_of(trust_applied(record, path), path) == 1,
        trust_applied(trust_applied(record, path), path) == trust_applied(record, path),
{
    lemma_count_contains(record, path);
    if record.contains(path) {
        assert(trust_applied(record, path) == record);
    } else {
        let pushed = record.push(path);
        assert(pushed.drop_last() =~= record);
        assert(pushed.last() == path);
        assert(count_of(pushed, path) == count_of(record, path) + 1);
        lemma_count_contains(pushed, path);
        assert(trust_applied(pushed, path) == pushed);
    }
}

/// The per-user configuration directory of the tool, under the home
/// directory `home`.
pub fn config_dir_path(home: &str) -> (r: String)
    ensures
        r@ == home@ + "/.config/json_env"@,
{
    let mut out = String::from_str(home);
    out.append("/.config/json_env");
    out
}

/// The trust store file within the per-user configuration directory.
pub fn trust_store_path(home: &str) -> (r: String)
    ensures
        r@ == home@ + "/.config/json_env"@ + "/whitelist.json"@,
{
    let mut out = config_dir_path(home);
    out.append("/whitelist.json");
    out
}

} // verus!
