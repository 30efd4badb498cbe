//! Counting the votes in a database text that no longer reads as the current
//! schema, so that a save never writes fewer votes than the disk held.
use vstd::prelude::*;

verus! {

/// A JSON value as `serde_json` reads it: numbers are kept as the text
/// `serde_json` writes for them, objects as their (key, value) entries in the
/// order `serde_json`'s map holds them (keys sorted, each once).
pub enum JsonValue {
    Null,
    Bool(bool),
    Number(String),
    Text(String),
    Array(Vec<JsonValue>),
    Object(Vec<(String, JsonValue)>),
}

#[verifier::external_type_specification]
#[verifier::external_body]
pub struct ExSerdeJsonValue(serde_json::Value);

/// The value `serde_json::from_str` reads from a text, converted one for
/// one into a [`JsonValue`], or `None` where the text is not JSON.
pub uninterp spec fn json_parse(content: Seq<char>) -> Option<JsonValue>;

/// `serde_json::Value` converted one for one into a [`JsonValue`]: each
/// variant to the variant of the same name, a number to its text
/// (`Number::to_string`), an array element by element, an object entry by
/// entry in the map's order. Nothing is claimed of the result: only
/// `parse_json` calls it, and what that gives is named by `json_parse`.
#[verifier::external_body]
fn json_value_of(v: &serde_json::Value) -> JsonValue {
    match v {
        serde_json::Value::Null => JsonValue::Null,
        serde_json::Value::Bool(b) => JsonValue::Bool(*b),
        serde_json::Value::Number(n) => JsonValue::Number(n.to_string()),
        serde_json::Value::String(t) => JsonValue::Text(t.clone()),
        serde_json::Value::Array(a) => JsonValue::Array(a.iter().map(json_value_of).collect()),
        serde_json::Value::Object(m) => {
            JsonValue::Object(m.iter().map(|(k, x)| (k.clone(), json_value_of(x))).collect())
        },
    }
}

/// Reads `content` with `serde_json::from_str` into a `serde_json::Value`
/// and converts it (see `json_value_of`). The contract claims only that the
/// result is `json_parse` of the text.
#[verifier::external_body]
fn parse_json(content: &str) -> (r: Option<JsonValue>)
    ensures
        r == json_parse(content@),
{
    serde_json::from_str::<serde_json::Value>(content).ok().map(|v| json_value_of(&v))
}

/// The value of the first entry named `key` of an object.
pub open spec fn entry_of(entries: Seq<(String, JsonValue)>, key: Seq<char>) -> Option<JsonValue>
    decreases entries.len(),
{
    if entries.len() == 0 {
        None
    } else if entries[0].0@ == key {
        Some(entries[0].1)
    } else {
        entry_of(entries.drop_first(), key)
    }
}

/// What `Value::get` gives for `key`: the entry of an object, nothing for
/// any other value.
pub open spec fn field_of(v: JsonValue, key: Seq<char>) -> Option<JsonValue> {
    match v {
        JsonValue::Object(entries) => entry_of(entries@, key),
        _ => None,
    }
}

/// The number of compared pairs a user's value holds: the length of its
/// `compared_pairs` array, or nothing where it has none.
pub open spec fn user_pair_count(u: JsonValue) -> Option<usize> {
    match field_of(u, "compared_pairs"@) {
        Some(JsonValue::Array(a)) => Some(a@.len() as usize),
        _ => None,
    }
}

/// The compared-pair counts of the users of a database value: nothing
/// unless it is an object whose `users` entry is an object; else one count
/// per user, in entry order.
pub open spec fn user_pair_counts(v: JsonValue) -> Option<Seq<Option<usize>>> {
    match field_of(v, "users"@) {
        Some(JsonValue::Object(users)) => Some(
            users@.map_values(|e: (String, JsonValue)| user_pair_count(e.1)),
        ),
        _ => None,
    }
}

/// The value of the first entry named `key`.
fn find_entry<'a>(entries: &'a Vec<(String, JsonValue)>, key: &str) -> (r: Option<&'a JsonValue>)
    ensures
        match r {
            Some(x) => entry_of(entries@, key@) == Some(*x),
            None => entry_of(entries@, key@) is None,
        },
{
    let n = entries.len();
    let mut i: usize = 0;
    assert(entries@.skip(0) =~= entries@);
    while i < n
        invariant
            n == entries@.len(),
            i <= n,
            entry_of(entries@, key@) == entry_of(entries@.skip(i as int), key@),
        decreases n - i,
    {
        if crate::client::state::str_equals(entries[i].0.as_str(), key) {
            assert(entries@.skip(i as int)[0] == entries@[i as int]);
            return Some(&entries[i].1);
        }
        assert(entries@.skip(i as int).drop_first() =~= entries@.skip(i as int + 1));
        i = i + 1;
    }
    None
}

/// What `Value::get` gives for `key`.
pub fn get_field<'a>(v: &'a JsonValue, key: &str) -> (r: Option<&'a JsonValue>)
    ensures
        match r {
            Some(x) => field_of(*v, key@) == Some(*x),
            None => field_of(*v, key@) is None,
        },
{
    match v {
        JsonValue::Object(entries) => find_entry(entries, key),
        _ => None,
    }
}

/// The compared-pair counts of the users of a database value.
pub fn pair_counts(v: &JsonValue) -> (r: Option<Vec<Option<usize>>>)
    ensures
        match r {
            Some(c) => user_pair_counts(*v) == Some(c@),
            None => user_pair_counts(*v) is None,
        },
{
    match get_field(v, "users") {
        Some(JsonValue::Object(users)) => {
            let n = users.len();
            let mut counts: Vec<Option<usize>> = Vec::new();
            for i in 0..n
                invariant
                    n == users@.len(),
                    counts@ == users@.take(i as int).map_values(|e: (String, JsonValue)| user_pair_count(e.1)),
            {
                let c = match get_field(&users[i].1, "compared_pairs") {
                    Some(JsonValue::Array(a)) => Some(a.len()),
                    _ => None,
                };
                counts.push(c);
                assert(counts@ =~= users@.take(i as int + 1).map_values(
                    |e: (String, JsonValue)| user_pair_count(e.1),
                ));
            }
            assert(users@.take(n as int) =~= users@);
            Some(counts)
        },
        _ => None,
    }
}

/// The sum of the array lengths that are present.
pub open spec fn pairs_total(counts: Seq<Option<usize>>) -> nat
    decreases counts.len(),
{
    if counts.len() == 0 {
        0
    } else {
        pairs_total(counts.drop_last()) + match counts.last() {
            Some(n) => n as nat,
            None => 0,
        }
    }
}

/// The sum of the array lengths that are present, or `None` where it does
/// not fit in a `usize`.
pub fn raw_vote_total(counts: &Vec<Option<usize>>) -> (r: Option<usize>)
    ensures
        r == (if pairs_total(counts@) <= usize::MAX {
            Some(pairs_total(counts@) as usize)
        } else {
            None
        }),
{
    let n = counts.len();
    let mut total: usize = 0;
    for i in 0..n
        invariant
            n == counts@.len(),
            total == pairs_total(counts@.take(i as int)),
    {
        assert(counts@.take(i as int + 1).drop_last() =~= counts@.take(i as int));
        let add: usize = match counts[i] {
            Some(k) => k,
            None => 0,
        };
        match total.checked_add(add) {
            Some(t) => {
                total = t;
            },
            None => {
                proof {
                    lemma_total_grows(counts@, i as int + 1);
                }
                return None;
            },
        }
    }
    assert(counts@.take(n as int) =~= counts@);
    Some(total)
}

/// The sum over a prefix is at most the sum over the whole.
pub proof fn lemma_total_grows(counts: Seq<Option<usize>>, k: int)
    requires
        0 <= k <= counts.len(),
    ensures
        pairs_total(counts.take(k)) <= pairs_total(counts),
    decreases counts.len() - k,
{
    if k < counts.len() {
        lemma_total_grows(counts, k + 1);
        assert(counts.take(k + 1).drop_last() =~= counts.take(k));
    } else {
        assert(counts.take(k) =~= counts);
    }
}

/// The number of compared pairs a database text holds, read without its
/// schema: 0 when the text is not JSON or holds no `users` object, else the
/// sum of the lengths of the users' `compared_pairs` arrays, or `None` where
/// that sum does not fit in a `usize`.
pub fn count_votes_in_raw_json(content: &str) -> (r: Option<usize>)
    ensures
        r == (match json_parse(content@) {
            None => Some(0usize),
            Some(v) => match user_pair_counts(v) {
                None => Some(0usize),
                Some(c) => if pairs_total(c) <= usize::MAX {
                    Some(pairs_total(c) as usize)
                } else {
                    None
                },
            },
        }),
{
    match parse_json(content) {
        None => Some(0),
        Some(v) => match pair_counts(&v) {
            None => Some(0),
            Some(counts) => raw_vote_total(&counts),
        },
    }
}

} // verus!
