use vstd::prelude::*;
use vstd::string::StringExecFns;

verus! {

/// The string `method` field of the JSON document these bytes hold, when
/// they parse as JSON and that field is a string.
pub uninterp spec fn json_method_of(b: Seq<u8>) -> Option<Seq<char>>;

/// The numeric `result` field of the JSON document these bytes hold, when
/// they parse as JSON and that field is a u64.
pub uninterp spec fn json_result_u64(b: Seq<u8>) -> Option<u64>;

/// Relies on serde_json::from_slice and Value::get / Value::as_str: whether
/// the bytes parse and carry a string "method" field is a function of the
/// bytes alone.
#[verifier::external_body]
fn json_method_field(body: &Vec<u8>) -> (r: Option<String>)
    ensures
        match r {
            Some(m) => json_method_of(body@) == Some(m@),
            None => json_method_of(body@) is None,
        },
{
    match serde_json::from_slice::<serde_json::Value>(body.as_slice()) {
        Ok(v) => v.get("method").and_then(|m| m.as_str()).map(|s| s.to_string()),
        Err(_) => None,
    }
}

/// Relies on serde_json::from_slice and Value::get / Value::as_u64: whether
/// the bytes parse and carry a numeric "result" field is a function of the
/// bytes alone.
#[verifier::external_body]
fn json_result_field(body: &Vec<u8>) -> (r: Option<u64>)
    ensures
        r == json_result_u64(body@),
{
    match serde_json::from_slice::<serde_json::Value>(body.as_slice()) {
        Ok(v) => v.get("result").and_then(|x| x.as_u64()),
        Err(_) => None,
    }
}

/// The JSON-RPC method named in a request body, for routing and logging.
/// A body that does not parse, or has no string `method`, degrades to the
/// empty method rather than failing the request.
pub fn method_for_routing(body: &Vec<u8>) -> (m: String)
    ensures
        match json_method_of(body@) {
            Some(s) => m@ == s,
            None => m@.len() == 0,
        },
{
    match json_method_field(body) {
        Some(s) => s,
        None => String::new(),
    }
}

/// The probe methods whose responses carry a chain height in `result`.
pub open spec fn is_height_method(m: Seq<char>) -> bool {
    m == "getSlot"@ || m == "getBlockHeight"@
}

/// The `last_error` recorded when a height probe's response has no usable
/// `result` field.
pub open spec fn missing_result_message(m: Seq<char>) -> Seq<char> {
    "Health check response missing numeric 'result' field for method "@ + m
}

/// Classifies the body of a 2xx probe response: a height for the two
/// height-style methods, success-without-value for any other method, a
/// failure when a height was required but the body carries none.
pub fn classify_success_response(method: &String, body: &Vec<u8>) -> (r: Result<Option<u64>, String>)
    ensures
        !is_height_method(method@) ==> r == Ok::<Option<u64>, String>(None),
        is_height_method(method@) ==> match json_result_u64(body@) {
            Some(v) => r == Ok::<Option<u64>, String>(Some(v)),
            None => r matches Err(m) && m@ == missing_result_message(method@),
        },
{
    let is_height = *method == "getSlot".to_owned() || *method == "getBlockHeight".to_owned();
    if !is_height {
        return Ok(None);
    }
    match json_result_field(body) {
        Some(v) => Ok(Some(v)),
        None => {
            let mut m = String::from_str("Health check response missing numeric 'result' field for method ");
            m.append(method.as_str());
            Err(m)
        }
    }
}

} // verus!
