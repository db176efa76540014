use vstd::prelude::*;

verus! {

/// A JSON document as plain values. Numbers keep only what the statistics
/// need: the value when it is a whole number that fits a `u64`, else `None`.
/// Object members stay in the parser's order.
#[derive(Debug)]
pub enum JsonPlain {
    Null,
    Bool(bool),
    Number(Option<u64>),
    Str(String),
    Array(Vec<JsonPlain>),
    Object(Vec<(String, JsonPlain)>),
}

/// The document that JSON text denotes, `None` when the text is no valid JSON.
pub uninterp spec fn json_of(text: Seq<char>) -> Option<JsonPlain>;

#[verifier::external_type_specification]
#[verifier::external_body]
pub struct ExJsonValue(serde_json::Value);

/// Relies on serde_json's `Value` variants and `Number::as_u64`: rewrites a
/// parsed value as `JsonPlain`, variant for variant.
#[verifier::external_body]
fn plain_of(v: serde_json::Value) -> JsonPlain {
    match v {
        serde_json::Value::Null => JsonPlain::Null,
        serde_json::Value::Bool(b) => JsonPlain::Bool(b),
        serde_json::Value::Number(n) => JsonPlain::Number(n.as_u64()),
        serde_json::Value::String(s) => JsonPlain::Str(s),
        serde_json::Value::Array(a) => JsonPlain::Array(a.into_iter().map(plain_of).collect()),
        serde_json::Value::Object(m) => {
            JsonPlain::Object(m.into_iter().map(|(k, x)| (k, plain_of(x))).collect())
        },
    }
}

/// Relies on serde_json::from_str: parses JSON text; the document depends on
/// the text alone, and invalid text gives `None`.
#[verifier::external_body]
pub fn parse_json(text: &str) -> (r: Option<JsonPlain>)
    ensures
        r == json_of(text@),
{
    match serde_json::from_str::<serde_json::Value>(text) {
        Ok(v) => Some(plain_of(v)),
        Err(_) => None,
    }
}

/// The value of the member `key` of an object's member list; when a key
/// repeats, the last member wins.
pub open spec fn member_of(ms: Seq<(String, JsonPlain)>, key: Seq<char>) -> Option<JsonPlain>
    decreases ms.len(),
{
    if ms.len() == 0 {
        None
    } else if ms.last().0@ == key {
        Some(ms.last().1)
    } else {
        member_of(ms.drop_last(), key)
    }
}

/// Looks up the member `key` of an object's member list (see `member_of`).
pub fn find_member<'a>(ms: &'a Vec<(String, JsonPlain)>, key: &str) -> (r: Option<&'a JsonPlain>)
    ensures
        match r {
            Some(v) => member_of(ms@, key@) == Some(*v),
            None => member_of(ms@, key@) is None,
        },
{
    let k = String::from_str(key);
    let mut i: usize = ms.len();
    assert(ms@.take(i as int) =~= ms@);
    while i > 0
        invariant
            i <= ms@.len(),
            k@ == key@,
            member_of(ms@, key@) == member_of(ms@.take(i as int), key@),
        decreases i,
    {
        let ghost before = ms@.take(i as int);
        proof {
            assert(before.drop_last() =~= ms@.take(i - 1));
            assert(before.last() == ms@[i - 1]);
        }
        i = i - 1;
        if ms[i].0 == k {
            return Some(&ms[i].1);
        }
    }
    None
}

} // verus!
