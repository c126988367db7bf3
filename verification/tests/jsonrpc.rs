use onetcli::jsonrpc::{
    connect_deadline, connect_should_retry, metadata_request, next_request_id, response_result,
    spawns_driver_process, stops_after_statement, validate_response_header, JsonRpcError,
    JsonRpcRequest, JsonRpcResponse, RpcFailure,
};
use serde_json::Value;

fn response(json: &str) -> JsonRpcResponse<Value> {
    let value: Value = serde_json::from_str(json).unwrap();
    let error = value.get("error").map(|e| JsonRpcError {
        code: e["code"].as_i64().unwrap(),
        message: e["message"].as_str().unwrap().to_string(),
        data: e.get("data").cloned(),
    });
    JsonRpcResponse {
        jsonrpc: value["jsonrpc"].as_str().unwrap().to_string(),
        id: value["id"].as_u64().unwrap(),
        result: value.get("result").cloned(),
        error,
    }
}

#[test]
fn accepts_matching_response_header() {
    let parsed = response(r#"{"jsonrpc":"2.0","id":7,"result":{}}"#);

    assert!(validate_response_header(&parsed, 7).is_ok());
}

#[test]
fn rejects_mismatched_response_id() {
    let parsed = response(r#"{"jsonrpc":"2.0","id":8,"result":{}}"#);

    assert!(validate_response_header(&parsed, 7).is_err());
}

#[test]
fn rejects_invalid_json_rpc_version() {
    let parsed = response(r#"{"jsonrpc":"1.0","id":7,"result":{}}"#);

    assert!(validate_response_header(&parsed, 7).is_err());
}

#[test]
fn builds_json_rpc_request() {
    let request = JsonRpcRequest::new(7, "ping", Value::Object(Default::default()));
    assert_eq!(request.jsonrpc, "2.0");
    assert_eq!(request.id, 7);
    assert_eq!(request.method, "ping");
}

#[test]
fn response_result_passes_on_results_and_errors() {
    let ok = response(r#"{"jsonrpc":"2.0","id":3,"result":[1]}"#);
    assert_eq!(response_result(ok, 3), Ok(Value::Array(vec![Value::from(1)])));

    let failed = response(r#"{"jsonrpc":"2.0","id":3,"error":{"code":-32000,"message":"boom"}}"#);
    assert_eq!(
        response_result(failed, 3),
        Err(RpcFailure::DriverError { code: -32000, message: "boom".to_string() })
    );

    let empty = response(r#"{"jsonrpc":"2.0","id":3}"#);
    assert_eq!(response_result(empty, 3), Err(RpcFailure::MissingResult));

    let other = response(r#"{"jsonrpc":"2.0","id":4,"result":null}"#);
    assert_eq!(
        response_result(other, 3),
        Err(RpcFailure::IdMismatch { expected: 3, got: 4 })
    );
    let old = response(r#"{"jsonrpc":"1.0","id":3,"result":null}"#);
    assert_eq!(response_result(old, 3), Err(RpcFailure::InvalidVersion));

    assert_eq!(next_request_id(1), 2);
    assert_eq!(next_request_id(u64::MAX), u64::MAX);
}

#[test]
fn driver_process_needs_a_command() {
    assert!(spawns_driver_process("/usr/bin/driver"));
    assert!(!spawns_driver_process(""));
    assert!(!spawns_driver_process("  \t"));
}

#[test]
fn socket_connection_retries_until_the_deadline() {
    let deadline = connect_deadline(1_000, 5_000);
    assert_eq!(6_000, deadline);
    assert!(connect_should_retry(5_999, deadline));
    assert!(!connect_should_retry(6_000, deadline));
    assert_eq!(u64::MAX, connect_deadline(u64::MAX - 1, 5));
}

#[test]
fn metadata_queries_carry_a_request_after_the_marker() {
    assert_eq!(
        Some("{\"method\":\"tables\"}".to_string()),
        metadata_request("/*onetcli-ipc-metadata*/ {\"method\":\"tables\"}")
    );
    assert_eq!(None, metadata_request("select 1"));
    assert_eq!(None, metadata_request("/*onetcli-ipc-metadata*/"));
}

#[test]
fn scripts_stop_only_on_failures_when_asked() {
    assert!(stops_after_statement(true, true));
    assert!(!stops_after_statement(true, false));
    assert!(!stops_after_statement(false, true));
}
