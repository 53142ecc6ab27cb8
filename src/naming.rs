use vstd::prelude::*;

verus! {

/// The string that `content`, read as JSON, holds under `key` at the top
/// level; `None` where `content` is not JSON, is not an object, or holds no
/// string there.
pub uninterp spec fn json_string_field(content: Seq<char>, key: Seq<char>) -> Option<Seq<char>>;

/// Relies on serde_json: `from_str` into a `serde_json::Value`, then
/// `Value::get` and `Value::as_str` on the result, for the string field `key`
/// of the object that `content` holds.
#[verifier::external_body]
fn string_field(content: &str, key: &str) -> (r: Option<String>)
    ensures
        match r {
            Some(s) => json_string_field(content@, key@) == Some(s@),
            None => json_string_field(content@, key@) is None,
        },
{
    match serde_json::from_str::<serde_json::Value>(content) {
        Ok(v) => v.get(key).and_then(serde_json::Value::as_str).map(str::to_string),
        Err(_) => None,
    }
}

/// The field of a ledger file that holds its display name.
pub open spec fn name_key() -> Seq<char> {
    seq!['n', 'a', 'm', 'e']
}

/// The display name of a ledger whose file is called `filename` and whose
/// `"name"` field holds `field`.
pub open spec fn display_name_of(filename: Seq<char>, field: Option<Seq<char>>) -> Seq<char> {
    match field {
        Some(n) => n,
        None => filename,
    }
}

/// The display name of the ledger file `filename` whose text is `content`
/// (`None` where it could not be read).
pub open spec fn ledger_name_of(filename: Seq<char>, content: Option<Seq<char>>) -> Seq<char> {
    match content {
        Some(c) => display_name_of(filename, json_string_field(c, name_key())),
        None => filename,
    }
}

/// The name to show for a ledger file: the `"name"` field found in it, else
/// the file name.
pub fn display_name(filename: &str, field: Option<String>) -> (r: String)
    ensures
        r@ == display_name_of(filename@, match field {
            Some(s) => Some(s@),
            None => None,
        }),
{
    match field {
        Some(n) => n,
        None => filename.to_owned(),
    }
}

/// The name to show for the ledger file `filename` with text `content`: the
/// top-level `"name"` string where the text is JSON holding one, else the
/// file name. A file that cannot be read or parsed never fails the caller.
pub fn ledger_name(filename: &str, content: Option<&str>) -> (r: String)
    ensures
        r@ == ledger_name_of(filename@, match content {
            Some(c) => Some(c@),
            None => None,
        }),
{
    match content {
        Some(c) => {
            let key = "name";
            proof {
                reveal_strlit("name");
                assert(key@ =~= name_key());
            }
            display_name(filename, string_field(c, key))
        },
        None => filename.to_owned(),
    }
}

} // verus!
