//! JSON-RPC 2.0 messages exchanged with external database drivers, and how a reply is
//! checked against the request it answers. The payload type `V` is the JSON value type
//! of the transport.

use vstd::prelude::*;

use crate::seqs::opt_view;
use crate::text::{chars_start_with, copy_str, is_blank, starts_with, str_chars, str_equal, str_is_blank, string_from_chars};

verus! {

/// The protocol version that requests carry and replies must carry.
pub const JSON_RPC_VERSION: &'static str = "2.0";

/// A JSON-RPC request.
#[derive(Debug)]
pub struct JsonRpcRequest<P> {
    pub jsonrpc: &'static str,
    pub id: u64,
    pub method: String,
    pub params: P,
}

impl<P> JsonRpcRequest<P> {
    /// A version 2.0 request.
    pub fn new(id: u64, method: &str, params: P) -> (r: Self)
        ensures
            r.jsonrpc@ == JSON_RPC_VERSION@,
            r.id == id,
            r.method@ == method@,
            r.params == params,
    {
        JsonRpcRequest { jsonrpc: JSON_RPC_VERSION, id, method: copy_str(method), params }
    }
}

/// The error member of a JSON-RPC reply.
#[derive(Debug)]
pub struct JsonRpcError<V> {
    pub code: i64,
    pub message: String,
    pub data: Option<V>,
}

/// A JSON-RPC reply.
#[derive(Debug)]
pub struct JsonRpcResponse<V> {
    pub jsonrpc: String,
    pub id: u64,
    pub result: Option<V>,
    pub error: Option<JsonRpcError<V>>,
}

/// Why a reply does not yield a result.
#[derive(Clone, Debug, PartialEq, Eq)]
pub enum RpcFailure {
    /// The reply is not JSON-RPC 2.0.
    InvalidVersion,
    /// The reply answers another request.
    IdMismatch { expected: u64, got: u64 },
    /// The driver reported an error.
    DriverError { code: i64, message: String },
    /// The reply holds neither an error nor a result.
    MissingResult,
}

/// Checks that `response` is a JSON-RPC 2.0 reply to the request `expected_id`.
pub fn validate_response_header<V>(response: &JsonRpcResponse<V>, expected_id: u64) -> (r: Result<(), RpcFailure>)
    ensures
        response.jsonrpc@ != JSON_RPC_VERSION@ ==> r == Err::<(), RpcFailure>(RpcFailure::InvalidVersion),
        response.jsonrpc@ == JSON_RPC_VERSION@ && response.id != expected_id ==> r == Err::<(), RpcFailure>(
            RpcFailure::IdMismatch { expected: expected_id, got: response.id },
        ),
        response.jsonrpc@ == JSON_RPC_VERSION@ && response.id == expected_id ==> r is Ok,
{
    if !str_equal(response.jsonrpc.as_str(), JSON_RPC_VERSION) {
        return Err(RpcFailure::InvalidVersion);
    }
    if response.id != expected_id {
        return Err(RpcFailure::IdMismatch { expected: expected_id, got: response.id });
    }
    Ok(())
}

/// The result of `response`, the reply to the request `expected_id`: the header must
/// match, a driver error is passed on, and a reply without result is refused.
pub fn response_result<V>(response: JsonRpcResponse<V>, expected_id: u64) -> (r: Result<V, RpcFailure>)
    ensures
        response.jsonrpc@ != JSON_RPC_VERSION@ ==> r == Err::<V, RpcFailure>(RpcFailure::InvalidVersion),
        response.jsonrpc@ == JSON_RPC_VERSION@ && response.id != expected_id ==> r == Err::<V, RpcFailure>(
            RpcFailure::IdMismatch { expected: expected_id, got: response.id },
        ),
        response.jsonrpc@ == JSON_RPC_VERSION@ && response.id == expected_id ==> match response.error {
            Some(e) => r matches Err(RpcFailure::DriverError { code, message }) && code == e.code && message@ == e.message@,
            None => match response.result {
                Some(v) => r == Ok::<V, RpcFailure>(v),
                None => r == Err::<V, RpcFailure>(RpcFailure::MissingResult),
            },
        },
{
    match validate_response_header(&response, expected_id) {
        Err(e) => Err(e),
        Ok(()) => {
            match response.error {
                Some(error) => Err(RpcFailure::DriverError { code: error.code, message: error.message }),
                None => match response.result {
                    Some(v) => Ok(v),
                    None => Err(RpcFailure::MissingResult),
                },
            }
        },
    }
}

/// The id for the request after the one numbered `id`; it stays at the largest id.
pub fn next_request_id(id: u64) -> (r: u64)
    ensures
        r == (if id < u64::MAX { (id + 1) as u64 } else { u64::MAX }),
{
    id.saturating_add(1)
}

/// Whether a driver needs its own process: when its manifest names a command (one
/// that is not blank); otherwise the driver is already listening.
pub fn spawns_driver_process(command: &str) -> (r: bool)
    ensures
        r == !is_blank(command@),
{
    !str_is_blank(command)
}

/// How long each attempt to connect to the driver's socket may take, in milliseconds.
pub const CONNECT_ATTEMPT_TIMEOUT_MS: u64 = 200;

/// How long to wait between attempts to connect to the driver's socket, in milliseconds.
pub const CONNECT_RETRY_DELAY_MS: u64 = 50;

/// How long a request may wait for its reply, in milliseconds.
pub const REQUEST_TIMEOUT_MS: u64 = 30000;

/// Whether a failed attempt to connect, at `now_ms`, is followed by another one: only
/// before the deadline.
pub fn connect_should_retry(now_ms: u64, deadline_ms: u64) -> (r: bool)
    ensures
        r == (now_ms < deadline_ms),
{
    now_ms < deadline_ms
}

/// The deadline of the attempts to connect that start at `start_ms` and may take
/// `timeout_ms`; it stays at the largest time.
pub fn connect_deadline(start_ms: u64, timeout_ms: u64) -> (r: u64)
    ensures
        r == (if start_ms + timeout_ms <= u64::MAX { (start_ms + timeout_ms) as u64 } else { u64::MAX }),
{
    start_ms.saturating_add(timeout_ms)
}

/// The marker that a query starts with when it asks the driver for metadata.
pub const METADATA_QUERY_PREFIX: &'static str = "/*onetcli-ipc-metadata*/ ";

/// The metadata request that a query carries after the marker, if it starts with it.
pub open spec fn metadata_request_of(query: Seq<char>) -> Option<Seq<char>> {
    if starts_with(query, METADATA_QUERY_PREFIX@) {
        Some(query.skip(METADATA_QUERY_PREFIX@.len() as int))
    } else {
        None
    }
}

/// The metadata request (a JSON object with a `method` and optional `params`) that
/// `query` carries, if it is a metadata query.
pub fn metadata_request(query: &str) -> (r: Option<String>)
    ensures
        opt_view(r) == metadata_request_of(query@),
{
    let v = str_chars(query);
    let p = str_chars(METADATA_QUERY_PREFIX);
    if chars_start_with(&v, &p) {
        Some(string_from_chars(&v, p.len(), v.len()))
    } else {
        None
    }
}

/// Whether a script stops after a statement: when it is set to stop on errors and the
/// statement failed.
pub fn stops_after_statement(stop_on_error: bool, statement_failed: bool) -> (r: bool)
    ensures
        r == (stop_on_error && statement_failed),
{
    stop_on_error && statement_failed
}

} // verus!
