//! Trusted boundary to the JSON parser. The relay never interprets message
//! content beyond two deterministic questions, both answered by serde_json:
//! does a frame body parse as a key-value document, and what is its top-level
//! `id`; and does a handshake record decode to its three fields.

use vstd::prelude::*;

verus! {

/// What a frame body parses to, as far as the relay reads it: `None` when the
/// bytes are not a JSON key-value document; otherwise the rendering of the
/// top-level `id` member, when one is present. Determined by the bytes alone.
pub uninterp spec fn body_id_view(b: Seq<u8>) -> Option<Option<Seq<char>>>;

/// Relies on serde_json::from_slice to parse a JSON object
/// (serde_json::Map<String, Value>), on serde_json::Map::get for the
/// top-level "id" member, and on serde_json::Value's Debug rendering of it:
/// all three depend on the input bytes alone.
#[verifier::external_body]
pub(crate) fn json_object_id(body: &[u8]) -> (r: Option<Option<String>>)
    ensures
        match r {
            None => body_id_view(body@) is None,
            Some(None) => body_id_view(body@) == Some::<Option<Seq<char>>>(None),
            Some(Some(s)) => body_id_view(body@) == Some(Some(s@)),
        },
{
    match serde_json::from_slice::<serde_json::Map<String, serde_json::Value>>(body) {
        Err(_) => None,
        Ok(doc) => Some(doc.get("id").map(|id| format!("{:?}", id))),
    }
}

/// What a handshake record decodes to: `None` when the bytes are not a JSON
/// document with a numeric `version`, a string `cwd` and an array `args` of
/// strings; otherwise those three fields. Determined by the bytes alone.
pub uninterp spec fn handshake_view(b: Seq<u8>) -> Option<(u64, Seq<char>, Seq<Seq<char>>)>;

/// Relies on serde_json::from_slice and serde_json::Value's accessors (get,
/// as_u64, as_str, as_array) to decode `{"version": <u64>, "cwd": <string>,
/// "args": [<string>, ...]}`: the decoded record depends on the bytes alone.
#[verifier::external_body]
pub(crate) fn json_init_record(bytes: &[u8]) -> (r: Option<(u64, String, Vec<String>)>)
    ensures
        match r {
            None => handshake_view(bytes@) is None,
            Some(t) => handshake_view(bytes@) == Some((t.0, t.1@, t.2.deep_view())),
        },
{
    let doc: serde_json::Value = serde_json::from_slice(bytes).ok()?;
    let version = doc.get("version")?.as_u64()?;
    let cwd = doc.get("cwd")?.as_str()?.to_string();
    let list = doc.get("args")?.as_array()?;
    let args = list.iter().map(|a| a.as_str().map(|s| s.to_string())).collect::<
        Option<Vec<String>>,
    >()?;
    Some((version, cwd, args))
}

} // verus!
