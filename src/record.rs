//! Reading a looked-up record: the first level of the cascade whose file is
//! present and parses wins; a missing or malformed file counts as absent.
use vstd::prelude::*;

verus! {

#[verifier::external_type_specification]
#[verifier::external_body]
pub struct ExJsonValue(serde_json::Value);

#[verifier::external_type_specification]
#[verifier::external_body]
pub struct ExJsonError(serde_json::Error);

/// The text is a well-formed JSON document.
pub uninterp spec fn json_parses(s: Seq<char>) -> bool;

/// Relies on `serde_json::from_str` into a `serde_json::Value`: whether it
/// succeeds depends on the text alone.
#[verifier::external_body]
fn parse_json(text: &str) -> (r: Result<serde_json::Value, serde_json::Error>)
    ensures
        r.is_ok() == json_parses(text@),
{
    serde_json::from_str::<serde_json::Value>(text)
}

/// The texts of some optional strings.
pub open spec fn optional_texts(v: Seq<Option<String>>) -> Seq<Option<Seq<char>>> {
    v.map_values(
        |o: Option<String>|
            match o {
                Some(s) => Some(s@),
                None => None,
            },
    )
}

/// The file probed at step `k` was present and parses.
pub open spec fn readable(ts: Seq<Option<Seq<char>>>, k: int) -> bool {
    ts[k] is Some && json_parses(ts[k]->Some_0)
}

/// Step `k` is the first whose file was present and parses.
pub open spec fn first_readable(ts: Seq<Option<Seq<char>>>, k: int) -> bool {
    &&& 0 <= k < ts.len()
    &&& readable(ts, k)
    &&& forall|j: int| 0 <= j < k ==> !#[trigger] readable(ts, j)
}

/// Picks the record from the contents read at each step of the cascade
/// (`None` where the file could not be read): the first that parses, with its
/// step, or `None` when none does.
pub fn select_record(contents: &Vec<Option<String>>) -> (r: Option<(usize, serde_json::Value)>)
    ensures
        r is None <==> forall|k: int|
            0 <= k < contents@.len() ==> !#[trigger] readable(optional_texts(contents@), k),
        r matches Some((k, _)) ==> first_readable(optional_texts(contents@), k as int),
{
    let ghost ts = optional_texts(contents@);
    let n = contents.len();
    let mut k: usize = 0;
    while k < n
        invariant
            n == contents@.len(),
            ts == optional_texts(contents@),
            k <= n,
            forall|j: int| 0 <= j < k ==> !#[trigger] readable(ts, j),
        decreases n - k,
    {
        match &contents[k] {
            Some(text) => {
                assert(ts[k as int] == Some(text@));
                match parse_json(text.as_str()) {
                    Ok(v) => {
                        assert(readable(ts, k as int));
                        return Some((k, v));
                    },
                    Err(_) => {},
                }
            },
            None => {
                assert(ts[k as int] is None);
            },
        }
        k = k + 1;
    }
    None
}

/// The cascade stops at the first readable step: what later steps hold does
/// not change the result.
pub proof fn lemma_cascade_short_circuit(
    ts: Seq<Option<Seq<char>>>,
    us: Seq<Option<Seq<char>>>,
    k: int,
)
    requires
        first_readable(ts, k),
        k < us.len(),
        forall|j: int| 0 <= j <= k ==> ts[j] == us[j],
    ensures
        first_readable(us, k),
{
    assert forall|j: int| 0 <= j < k implies !#[trigger] readable(us, j) by {
        assert(ts[j] == us[j]);
        assert(!readable(ts, j));
    }
    assert(ts[k] == us[k]);
}

} // verus!
