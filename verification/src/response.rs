use vstd::prelude::*;

use vstd::string::*;
use vstd::utf8::encode_utf8;

verus! {

/// A neutral response: status, headers and the body bytes to stream.
/// Status and headers are fully determined before emission begins; the
/// emitter never lets them change afterwards.
pub struct Response {
    /// Status code and reason phrase.
    pub status: (u32, String),
    /// Header names, each with its values in emission order.
    pub headers: Vec<(String, Vec<String>)>,
    /// The body, as the bytes the body writer produces.
    pub body: Vec<u8>,
}

/// What the synthesized fallback for a failed handler looks like:
/// status 500, no headers, and the error's display text, verbatim, as
/// the body bytes.
pub open spec fn is_error_fallback(r: Response, msg: Seq<char>) -> bool {
    &&& r.status.0 == 500
    &&& r.status.1@ == "Internal Server Error"@
    &&& r.headers@ == Seq::<(String, Vec<String>)>::empty()
    &&& r.body@ == encode_utf8(msg)
}

/// Synthesize the response sent when the handler fails: the connection
/// is not torn down, the client still receives a well-formed reply.
pub fn fallback_response(msg: &str) -> (r: Response)
    ensures
        is_error_fallback(r, msg@),
{
    Response {
        status: (500, String::from_str("Internal Server Error")),
        headers: Vec::new(),
        body: msg.as_bytes_vec(),
    }
}

/// Convert one header's values into the raw byte lines the transport
/// writes, one line per stored value, in order.
pub fn values_to_byte_lines(values: &Vec<String>) -> (r: Vec<Vec<u8>>)
    ensures
        r.deep_view().len() == values@.len(),
        forall|i: int|
            0 <= i < values@.len() ==> #[trigger] r.deep_view()[i] == encode_utf8(values@[i]@),
{
    let mut out: Vec<Vec<u8>> = Vec::new();
    let n = values.len();
    let mut i: usize = 0;
    while i < n
        invariant
            i <= n,
            n == values@.len(),
            out@.len() == i,
            forall|j: int| 0 <= j < i ==> (#[trigger] out@[j])@ == encode_utf8(values@[j]@),
        decreases n - i,
    {
        out.push(values[i].as_str().as_bytes_vec());
        i = i + 1;
    }
    proof {
        assert forall|j: int| 0 <= j < n implies #[trigger] out.deep_view()[j] == encode_utf8(
            values@[j]@,
        ) by {
            assert(out.deep_view()[j] == out@[j]@);
        }
    }
    out
}

/// Select the response to emit: the handler's own on success, the
/// synthesized 500 fallback carrying the error text on failure.
pub fn choose_response(outcome: Result<Response, String>) -> (r: Response)
    ensures
        match outcome {
            Ok(resp) => r == resp,
            Err(msg) => is_error_fallback(r, msg@),
        },
{
    match outcome {
        Ok(resp) => resp,
        Err(msg) => fallback_response(msg.as_str()),
    }
}

} // verus!
