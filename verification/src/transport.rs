//! The fixed-origin request for the static directory, the response it
//! yields, and the checks made on both sides of the network.
use crate::directory_cache::valid_strong_etag;
use crate::directory_model::{bytes_equal, DIRECTORY_BODY_BYTES_LIMIT};
use vstd::prelude::*;
use vstd::string::StringSliceAdditionalSpecFns;
use vstd::utf8::encode_utf8;

verus! {

/// The one object the client reads the directory from.
pub const DIRECTORY_URL: &'static str = "https://meta.atrinik.org/index.json";
/// The only media type a directory body may have.
pub const DIRECTORY_MEDIA_TYPE: &'static str = "application/json; charset=utf-8";
/// The user agent sent with every request.
pub const DIRECTORY_USER_AGENT: &'static str = "atrinik-client/0.1.0";
/// Largest response header block, in bytes.
pub const MAXIMUM_RESPONSE_HEADER_BYTES: usize = 8192;
/// Largest body a transfer may carry before decoding, in bytes.
pub const MAXIMUM_TRANSFER_BODY_BYTES: u64 = 270336;
/// Whole-request time limit, in seconds.
pub const REQUEST_TIMEOUT_SECONDS: u64 = 15;
/// Connection time limit, in seconds.
pub const CONNECT_TIMEOUT_SECONDS: u64 = 5;

/// A directory request: always the fixed object, media type and cache
/// directive, with an optional strong validator.
#[derive(Clone, Debug, PartialEq, Eq)]
pub struct DirectoryRequest {
    pub url: &'static str,
    pub accept: &'static str,
    pub cache_control: &'static str,
    pub if_none_match: Option<String>,
}

/// Abstract value of a [`DirectoryRequest`]; the validator is taken by its
/// UTF-8 bytes.
pub struct DirectoryRequestView {
    pub url: Seq<char>,
    pub accept: Seq<char>,
    pub cache_control: Seq<char>,
    pub if_none_match: Option<Seq<u8>>,
}

impl View for DirectoryRequest {
    type V = DirectoryRequestView;

    open spec fn view(&self) -> DirectoryRequestView {
        DirectoryRequestView {
            url: self.url@,
            accept: self.accept@,
            cache_control: self.cache_control@,
            if_none_match: match self.if_none_match {
                Some(etag) => Some(encode_utf8(etag@)),
                None => None,
            },
        }
    }
}

/// The fixed request, conditional on a validator when one is given.
pub open spec fn fixed_request(if_none_match: Option<Seq<u8>>) -> DirectoryRequestView {
    DirectoryRequestView {
        url: DIRECTORY_URL@,
        accept: DIRECTORY_MEDIA_TYPE@,
        cache_control: "no-cache"@,
        if_none_match,
    }
}

impl DirectoryRequest {
    /// The fixed request, conditional on `if_none_match` when given.
    pub fn new(if_none_match: Option<String>) -> (request: DirectoryRequest)
        ensures
            request.url@ == DIRECTORY_URL@,
            request.accept@ == DIRECTORY_MEDIA_TYPE@,
            request.cache_control@ == "no-cache"@,
            request.if_none_match == if_none_match,
    {
        DirectoryRequest {
            url: DIRECTORY_URL,
            accept: DIRECTORY_MEDIA_TYPE,
            cache_control: "no-cache",
            if_none_match,
        }
    }
}

/// The status, selected headers and bounded body of a response.
#[derive(Clone, Debug, PartialEq, Eq)]
pub struct DirectoryResponse {
    pub status: u16,
    pub headers: Vec<(String, String)>,
    pub body: Vec<u8>,
}

/// A byte with ASCII letters lowered.
pub open spec fn ascii_lower(b: u8) -> u8 {
    if 65 <= b <= 90 {
        (b + 32) as u8
    } else {
        b
    }
}

/// Two byte strings equal up to ASCII case.
pub open spec fn same_ignoring_ascii_case(a: Seq<u8>, b: Seq<u8>) -> bool {
    a.len() == b.len() && forall|i: int| 0 <= i < a.len() ==> ascii_lower(#[trigger] a[i])
        == ascii_lower(b[i])
}

/// The values of the headers named `name` (up to ASCII case), in order.
pub open spec fn matching_values(headers: Seq<(String, String)>, name: Seq<u8>) -> Seq<Seq<char>>
    decreases headers.len(),
{
    if headers.len() == 0 {
        Seq::empty()
    } else {
        let rest = matching_values(headers.drop_last(), name);
        if same_ignoring_ascii_case(encode_utf8(headers.last().0@), name) {
            rest.push(headers.last().1@)
        } else {
            rest
        }
    }
}

/// Whether two byte strings are equal up to ASCII case.
fn eq_ignore_ascii_case_bytes(a: &[u8], b: &[u8]) -> (same: bool)
    ensures
        same == same_ignoring_ascii_case(a@, b@),
{
    if a.len() != b.len() {
        return false;
    }
    let mut i: usize = 0;
    while i < a.len()
        invariant
            a@.len() == b@.len(),
            0 <= i <= a@.len(),
            forall|j: int| 0 <= j < i ==> ascii_lower(#[trigger] a@[j]) == ascii_lower(b@[j]),
        decreases a@.len() - i,
    {
        let x = if 65 <= a[i] && a[i] <= 90 {
            a[i] + 32
        } else {
            a[i]
        };
        let y = if 65 <= b[i] && b[i] <= 90 {
            b[i] + 32
        } else {
            b[i]
        };
        if x != y {
            return false;
        }
        i = i + 1;
    }
    true
}

impl DirectoryResponse {
    /// The values of every header named `name`, ignoring ASCII case, in the
    /// order received.
    pub fn header_values(&self, name: &str) -> (values: Vec<&str>)
        ensures
            values@.map_values(|value: &str| value@) == matching_values(
                self.headers@,
                name.spec_bytes(),
            ),
    {
        let mut values: Vec<&str> = Vec::new();
        let mut i: usize = 0;
        while i < self.headers.len()
            invariant
                0 <= i <= self.headers@.len(),
                values@.map_values(|value: &str| value@) == matching_values(
                    self.headers@.take(i as int),
                    name.spec_bytes(),
                ),
            decreases self.headers@.len() - i,
        {
            let header = &self.headers[i];
            let ghost before = values@;
            assert(self.headers@.take(i + 1).drop_last() =~= self.headers@.take(i as int));
            if eq_ignore_ascii_case_bytes(header.0.as_str().as_bytes(), name.as_bytes()) {
                values.push(header.1.as_str());
                assert(values@.map_values(|value: &str| value@) =~= before.map_values(
                    |value: &str| value@,
                ).push(header.1@));
            }
            i = i + 1;
        }
        assert(self.headers@.take(i as int) =~= self.headers@);
        values
    }
}

/// Why a directory transfer failed.
#[derive(Clone, Copy, Debug, PartialEq, Eq, Structural)]
pub enum DirectoryTransportError {
    Offline,
    Timeout,
    Tls,
    Protocol,
    BodyTooLarge,
}

impl DirectoryTransportError {
    /// Human-readable description of the failure.
    pub fn message(&self) -> (text: &'static str)
        ensures
            text == transport_error_message(*self),
    {
        match self {
            DirectoryTransportError::Offline => "directory transport is offline",
            DirectoryTransportError::Timeout => "directory request timed out",
            DirectoryTransportError::Tls => "directory TLS validation failed",
            DirectoryTransportError::Protocol => "directory HTTP response is invalid",
            DirectoryTransportError::BodyTooLarge => "directory response exceeds its byte limit",
        }
    }
}

/// The fixed human-readable description of each transport failure.
pub open spec fn transport_error_message(error: DirectoryTransportError) -> &'static str {
    match error {
        DirectoryTransportError::Offline => "directory transport is offline",
        DirectoryTransportError::Timeout => "directory request timed out",
        DirectoryTransportError::Tls => "directory TLS validation failed",
        DirectoryTransportError::Protocol => "directory HTTP response is invalid",
        DirectoryTransportError::BodyTooLarge => "directory response exceeds its byte limit",
    }
}

/// Performs directory requests.
pub trait DirectoryTransport {
    /// Whether this transport states its behaviour through
    /// [`DirectoryTransport::answered`]; an implementation that does not
    /// override it states nothing.
    open spec fn obeys_transport_spec() -> bool {
        false
    }

    /// Whether this transport is what `before` became by answering `request`
    /// with `result`.
    open spec fn answered(
        &self,
        before: &Self,
        request: DirectoryRequestView,
        result: Result<DirectoryResponse, DirectoryTransportError>,
    ) -> bool {
        false
    }

    /// Performs one request.
    fn fetch(&mut self, request: &DirectoryRequest) -> (result: Result<
        DirectoryResponse,
        DirectoryTransportError,
    >)
        ensures
            Self::obeys_transport_spec() ==> final(self).answered(old(self), request@, result),
    ;
}

/// Whether a request is the fixed one: the fixed object, media type and
/// cache directive, and at most a strong validator.
pub open spec fn request_is_fixed(request: DirectoryRequest) -> bool {
    &&& request.url@ == DIRECTORY_URL@
    &&& request.accept@ == DIRECTORY_MEDIA_TYPE@
    &&& request.cache_control@ == "no-cache"@
    &&& match request.if_none_match {
        Some(etag) => crate::directory_cache::is_strong_etag(encode_utf8(etag@)),
        None => true,
    }
}

/// Whether two strings are equal.
pub(crate) fn same_text(a: &str, b: &str) -> (same: bool)
    ensures
        same == (a@ == b@),
{
    let equal = bytes_equal(a.as_bytes(), b.as_bytes());
    proof {
        if equal {
            vstd::utf8::encode_utf8_decode_utf8(a@);
            vstd::utf8::encode_utf8_decode_utf8(b@);
        }
    }
    equal
}

/// Checks, before anything reaches the network, that a request is the fixed
/// one; any tampering is a protocol error.
pub fn validate_request(request: &DirectoryRequest) -> (result: Result<(), DirectoryTransportError>)
    ensures
        result == (if request_is_fixed(*request) {
            Ok::<(), DirectoryTransportError>(())
        } else {
            Err(DirectoryTransportError::Protocol)
        }),
{
    if !same_text(request.url, DIRECTORY_URL) || !same_text(request.accept, DIRECTORY_MEDIA_TYPE)
        || !same_text(request.cache_control, "no-cache") {
        return Err(DirectoryTransportError::Protocol);
    }
    match &request.if_none_match {
        Some(etag) => {
            if !valid_strong_etag(etag.as_str()) {
                return Err(DirectoryTransportError::Protocol);
            }
        },
        None => {},
    }
    Ok(())
}

/// The response headers the client keeps.
pub open spec fn selected_name(name: Seq<char>) -> bool {
    name == "content-encoding"@ || name == "content-length"@ || name == "content-type"@ || name
        == "etag"@ || name == "last-modified"@ || name == "retry-after"@
}

/// The selected headers of a response, given each header's name and its
/// value as text, or `None` where the value is not visible ASCII: the
/// allowlisted headers in order, or a protocol error if one of them has no
/// text value.
pub open spec fn spec_selected_headers(headers: Seq<(String, Option<String>)>) -> Result<
    Seq<(Seq<char>, Seq<char>)>,
    DirectoryTransportError,
>
    decreases headers.len(),
{
    if headers.len() == 0 {
        Ok(Seq::empty())
    } else {
        match spec_selected_headers(headers.drop_last()) {
            Err(error) => Err(error),
            Ok(kept) => {
                let (name, value) = headers.last();
                if !selected_name(name@) {
                    Ok(kept)
                } else {
                    match value {
                        Some(text) => Ok(kept.push((name@, text@))),
                        None => Err(DirectoryTransportError::Protocol),
                    }
                }
            },
        }
    }
}

/// The text of a list of header pairs.
pub open spec fn header_views(headers: Seq<(String, String)>) -> Seq<(Seq<char>, Seq<char>)> {
    headers.map_values(|header: (String, String)| (header.0@, header.1@))
}

/// Keeps the allowlisted headers of a response, in order; fails closed if one
/// of them has a value that is not visible ASCII.
pub fn selected_headers(headers: Vec<(String, Option<String>)>) -> (result: Result<
    Vec<(String, String)>,
    DirectoryTransportError,
>)
    ensures
        match spec_selected_headers(headers@) {
            Ok(kept) => result is Ok && header_views(result->Ok_0@) == kept,
            Err(error) => result == Err::<Vec<(String, String)>, DirectoryTransportError>(error),
        },
{
    let ghost all = headers@;
    let mut output: Vec<(String, String)> = Vec::new();
    let mut rest = headers;
    let ghost mut done: int = 0;
    assert(all.take(0) =~= Seq::<(String, Option<String>)>::empty());
    assert(all.skip(0) =~= all);
    while rest.len() > 0
        invariant
            0 <= done <= all.len(),
            all == headers@,
            rest@ == all.skip(done),
            spec_selected_headers(all.take(done)) is Ok,
            header_views(output@) == spec_selected_headers(all.take(done))->Ok_0,
        decreases rest@.len(),
    {
        let ghost rest_before = rest@;
        let (name, value) = rest.remove(0);
        assert(rest@ =~= all.skip(done + 1));
        assert((name, value) == all[done]);
        assert(all.take(done + 1).drop_last() =~= all.take(done));
        assert(all.take(done + 1).last() == all[done]);
        let keep = same_text(name.as_str(), "content-encoding") || same_text(
            name.as_str(),
            "content-length",
        ) || same_text(name.as_str(), "content-type") || same_text(name.as_str(), "etag")
            || same_text(name.as_str(), "last-modified") || same_text(
            name.as_str(),
            "retry-after",
        );
        if keep {
            match value {
                Some(text) => {
                    let ghost before = output@;
                    let ghost pair = (name@, text@);
                    output.push((name, text));
                    assert(header_views(output@) =~= header_views(before).push(pair));
                },
                None => {
                    proof {
                        assert(selected_name(name@));
                        assert(spec_selected_headers(all.take(done + 1)) == Err::<
                            Seq<(Seq<char>, Seq<char>)>,
                            DirectoryTransportError,
                        >(DirectoryTransportError::Protocol));
                        lemma_selected_error_persists(all, done + 1);
                    }
                    return Err(DirectoryTransportError::Protocol);
                },
            }
        }
        proof {
            done = done + 1;
        }
    }
    assert(all.take(done) =~= all);
    Ok(output)
}

/// Once a prefix of the headers fails, all of them fail the same way.
proof fn lemma_selected_error_persists(headers: Seq<(String, Option<String>)>, k: int)
    requires
        0 <= k <= headers.len(),
        spec_selected_headers(headers.take(k)) is Err,
    ensures
        spec_selected_headers(headers) == spec_selected_headers(headers.take(k)),
    decreases headers.len() - k,
{
    if k < headers.len() {
        assert(headers.take(k + 1).drop_last() =~= headers.take(k));
        lemma_selected_error_persists(headers, k + 1);
    } else {
        assert(headers.take(k) =~= headers);
    }
}

/// Appends a decoded chunk to a response body unless the body would exceed
/// the protocol bound, in which case the body is left as it was.
pub fn append_body_chunk(body: &mut Vec<u8>, chunk: &[u8]) -> (result: Result<
    (),
    DirectoryTransportError,
>)
    ensures
        old(body)@.len() + chunk@.len() > DIRECTORY_BODY_BYTES_LIMIT ==> result == Err::<
            (),
            DirectoryTransportError,
        >(DirectoryTransportError::BodyTooLarge) && final(body)@ == old(body)@,
        old(body)@.len() + chunk@.len() <= DIRECTORY_BODY_BYTES_LIMIT ==> result == Ok::<
            (),
            DirectoryTransportError,
        >(()) && final(body)@ == old(body)@ + chunk@,
{
    if chunk.len() > DIRECTORY_BODY_BYTES_LIMIT || body.len() > DIRECTORY_BODY_BYTES_LIMIT
        - chunk.len() {
        return Err(DirectoryTransportError::BodyTooLarge);
    }
    let mut i: usize = 0;
    while i < chunk.len()
        invariant
            0 <= i <= chunk@.len(),
            body@ == old(body)@ + chunk@.take(i as int),
        decreases chunk@.len() - i,
    {
        body.push(chunk[i]);
        assert(chunk@.take(i + 1) =~= chunk@.take(i as int).push(chunk@[i as int]));
        i = i + 1;
    }
    assert(chunk@.take(i as int) =~= chunk@);
    Ok(())
}

} // verus!
