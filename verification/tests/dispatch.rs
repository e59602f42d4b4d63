use rustc_serialize::base64;
use rustc_serialize::base64::ToBase64;

use sota_client::handler::{dispatch, InboundMessage, Params, RpcResponse};
use sota_client::message::{
    BackendServices, ChunkParams, FinishParams, Notification, NotifyParams, StartParams,
};
use sota_client::package::PackageId;
use sota_client::transfers::Transfers;

fn b64(data: &str) -> String {
    data.as_bytes().to_base64(base64::Config {
        char_set: base64::CharacterSet::UrlSafe,
        newline: base64::Newline::LF,
        pad: true,
        line_length: None,
    })
}

fn pkg() -> PackageId {
    PackageId::new("pkg".to_string(), "1.0".to_string())
}

fn call(id: u64, method: &str, service: Option<&str>, params: Option<Params>) -> InboundMessage {
    InboundMessage::Call {
        id,
        method: method.to_string(),
        service: service.map(|s| s.to_string()),
        params,
    }
}

fn backend() -> BackendServices {
    BackendServices::new()
}

const STORAGE: &str = "/tmp/sota-test";

fn run(msg: InboundMessage, transfers: &mut Transfers, now: i64) -> sota_client::handler::DispatchOutcome {
    let mut services = backend();
    let storage = STORAGE.to_string();
    dispatch(msg, &mut services, transfers, &storage, now)
}

#[test]
fn services_available_is_acknowledged() {
    let mut transfers = Transfers::new();
    let out = run(call(4, "services_available", None, None), &mut transfers, 0);
    assert!(matches!(out.response, RpcResponse::Success { id: 4 }));
    assert!(out.response.error_code().is_none());
    assert!(out.notification.is_none());
}

#[test]
fn unknown_methods_get_method_not_found() {
    let mut transfers = Transfers::new();
    let out = run(call(5, "something_else", None, None), &mut transfers, 0);
    assert!(matches!(out.response, RpcResponse::MethodNotFound { id: 5 }));
    assert_eq!(out.response.error_code(), Some(-32601));
}

#[test]
fn unknown_service_paths_get_invalid_request() {
    let mut transfers = Transfers::new();
    let out = run(call(6, "message", Some("/sota/elsewhere"), None), &mut transfers, 0);
    assert!(matches!(out.response, RpcResponse::InvalidRequest { id: Some(6) }));
    assert_eq!(out.response.error_code(), Some(-32600));
}

#[test]
fn malformed_typed_payloads_get_invalid_params() {
    let mut transfers = Transfers::new();
    let out = run(call(7, "message", Some("/sota/chunk"), None), &mut transfers, 0);
    assert!(matches!(out.response, RpcResponse::InvalidParams { id: 7 }));
    assert_eq!(out.response.error_code(), Some(-32602));
}

#[test]
fn unparsable_bodies_get_parse_error() {
    let mut transfers = Transfers::new();
    let out = run(InboundMessage::Malformed, &mut transfers, 0);
    assert!(matches!(out.response, RpcResponse::ParseError));
    assert_eq!(out.response.error_code(), Some(-32700));
}

#[test]
fn envelopes_without_an_id_get_invalid_request() {
    // a well-formed JSON object missing the integer id is an envelope-shape
    // error, not a parse error, and there is no id to echo back
    let mut transfers = Transfers::new();
    let out = run(InboundMessage::ShapeInvalid, &mut transfers, 0);
    assert!(matches!(out.response, RpcResponse::InvalidRequest { id: None }));
    assert_eq!(out.response.error_code(), Some(-32600));
}

#[test]
fn envelopes_without_a_method_get_invalid_request() {
    let mut transfers = Transfers::new();
    let out = run(InboundMessage::MissingMethod { id: 9 }, &mut transfers, 0);
    assert!(matches!(out.response, RpcResponse::InvalidRequest { id: Some(9) }));
    assert_eq!(out.response.error_code(), Some(-32600));
}

#[test]
fn payloads_of_the_wrong_shape_get_invalid_params() {
    // a finish payload sent to the chunk service does not decode as a chunk
    let mut transfers = Transfers::new();
    let params = Params::Finish(FinishParams { package: pkg() });
    let out = run(call(10, "message", Some("/sota/chunk"), Some(params)), &mut transfers, 0);
    assert!(matches!(out.response, RpcResponse::InvalidParams { id: 10 }));
    assert_eq!(out.response.error_code(), Some(-32602));
}

#[test]
fn chunks_for_unknown_packages_fail() {
    let mut transfers = Transfers::new();
    let params = Params::Chunk(ChunkParams { package: pkg(), index: 1, msg: b64("data") });
    let out = run(call(8, "message", Some("/sota/chunk"), Some(params)), &mut transfers, 0);
    assert!(matches!(out.response, RpcResponse::Unspecified { id: 8 }));
    assert_eq!(out.response.error_code(), Some(-32100));
    assert!(out.ack.is_none());
}

#[test]
fn accepted_chunks_are_acknowledged() {
    let mut transfers = Transfers::new();
    let start = Params::Start(StartParams {
        package: pkg(),
        chunkscount: 1,
        checksum: String::new(),
    });
    run(call(1, "message", Some("/sota/start"), Some(start)), &mut transfers, 0);
    let chunk = Params::Chunk(ChunkParams { package: pkg(), index: 1, msg: b64("data") });
    let out = run(call(2, "message", Some("/sota/chunk"), Some(chunk)), &mut transfers, 0);
    assert!(matches!(out.response, RpcResponse::Success { id: 2 }));
    let ack = out.ack.expect("an accepted chunk is acknowledged");
    assert_eq!(ack.package, pkg());
    assert_eq!(ack.chunk, 1);
}

#[test]
fn start_replaces_the_previous_transfer() {
    let mut transfers = Transfers::new();
    let start = Params::Start(StartParams {
        package: pkg(),
        chunkscount: 2,
        checksum: String::new(),
    });
    run(call(1, "message", Some("/sota/start"), Some(start)), &mut transfers, 0);
    let chunk = Params::Chunk(ChunkParams { package: pkg(), index: 1, msg: b64("old bytes") });
    run(call(2, "message", Some("/sota/chunk"), Some(chunk)), &mut transfers, 0);

    let again = Params::Start(StartParams {
        package: pkg(),
        chunkscount: 2,
        checksum: String::new(),
    });
    let out = run(call(3, "message", Some("/sota/start"), Some(again)), &mut transfers, 0);
    assert!(matches!(out.response, RpcResponse::Success { id: 3 }));
    // the first transfer's staging directory is handed back for removal ...
    assert_eq!(out.cleanup, vec![format!("{}/downloads/pkg-1.0", STORAGE)]);
    // ... and only the second transfer remains, holding no chunks
    let entry = transfers.get(&pkg()).expect("the package is still active");
    assert!(entry.chunk_bytes(1).is_none());
    assert!(entry.transferred_chunks.is_empty());
}

#[test]
fn finish_verifies_removes_and_notifies() {
    let mut transfers = Transfers::new();
    let start = Params::Start(StartParams {
        package: pkg(),
        chunkscount: 1,
        // SHA-1 of "test\n"
        checksum: "4e1243bd22c66e76c2ba9eddc1f91394e57f9f83".to_string(),
    });
    run(call(1, "message", Some("/sota/start"), Some(start)), &mut transfers, 0);
    let chunk = Params::Chunk(ChunkParams { package: pkg(), index: 0, msg: b64("test\n") });
    run(call(2, "message", Some("/sota/chunk"), Some(chunk)), &mut transfers, 0);
    let finish = Params::Finish(FinishParams { package: pkg() });
    let out = run(call(3, "message", Some("/sota/finish"), Some(finish)), &mut transfers, 0);
    assert!(matches!(out.response, RpcResponse::Success { id: 3 }));
    match out.notification {
        Some(Notification::Finish(p)) => assert_eq!(p, pkg()),
        _ => panic!("a successful finish notifies the coordinator"),
    }
    let built = out.assembled.expect("the package was assembled");
    assert_eq!(built.path, format!("{}/packages/pkg-1.0.spkg", STORAGE));
    assert_eq!(built.data, b"test\n".to_vec());
    assert_eq!(out.cleanup, vec![format!("{}/downloads/pkg-1.0", STORAGE)]);
    assert!(transfers.get(&pkg()).is_none());
}

#[test]
fn finish_with_a_wrong_checksum_leaves_the_transfer() {
    let mut transfers = Transfers::new();
    let start = Params::Start(StartParams {
        package: pkg(),
        chunkscount: 1,
        checksum: "fa7c4d75bae3a641d1f9ab5df028175bfb8a69ca".to_string(),
    });
    run(call(1, "message", Some("/sota/start"), Some(start)), &mut transfers, 0);
    let chunk = Params::Chunk(ChunkParams { package: pkg(), index: 0, msg: b64("test\n") });
    run(call(2, "message", Some("/sota/chunk"), Some(chunk)), &mut transfers, 0);
    let finish = Params::Finish(FinishParams { package: pkg() });
    let out = run(call(3, "message", Some("/sota/finish"), Some(finish)), &mut transfers, 0);
    assert!(matches!(out.response, RpcResponse::Unspecified { id: 3 }));
    assert!(out.notification.is_none());
    // the package file is still written, so the mismatch can be inspected
    let built = out.assembled.expect("assembly still happens");
    assert_eq!(built.data, b"test\n".to_vec());
    assert!(out.cleanup.is_empty());
    assert!(transfers.get(&pkg()).is_some());
}

#[test]
fn abort_drops_the_transfer_and_succeeds_without_one() {
    let mut transfers = Transfers::new();
    let start = Params::Start(StartParams {
        package: pkg(),
        chunkscount: 1,
        checksum: String::new(),
    });
    run(call(1, "message", Some("/sota/start"), Some(start)), &mut transfers, 0);
    let abort = Params::Abort(sota_client::message::AbortParams { package: pkg() });
    let out = run(call(2, "message", Some("/sota/abort"), Some(abort)), &mut transfers, 0);
    assert!(matches!(out.response, RpcResponse::Success { id: 2 }));
    assert_eq!(out.cleanup, vec![format!("{}/downloads/pkg-1.0", STORAGE)]);
    assert!(transfers.get(&pkg()).is_none());

    let again = Params::Abort(sota_client::message::AbortParams { package: pkg() });
    let out = run(call(3, "message", Some("/sota/abort"), Some(again)), &mut transfers, 0);
    assert!(matches!(out.response, RpcResponse::Success { id: 3 }));
    assert!(out.cleanup.is_empty());
}

#[test]
fn notifications_come_in_send_order() {
    // Notify, Start, Chunk, Finish: only Notify and Finish notify the
    // coordinator, in that order
    let mut services = backend();
    let storage = STORAGE.to_string();
    let mut transfers = Transfers::new();
    let mut channel: Vec<Notification> = Vec::new();

    let urls = BackendServices {
        start: "/backend/start".to_string(),
        ack: "/backend/ack".to_string(),
        report: "/backend/report".to_string(),
        packages: "/backend/packages".to_string(),
    };
    let notify = Params::Notify(NotifyParams { services: urls, packages: vec![pkg()] });
    let start = Params::Start(StartParams {
        package: pkg(),
        chunkscount: 1,
        checksum: "4e1243bd22c66e76c2ba9eddc1f91394e57f9f83".to_string(),
    });
    let chunk = Params::Chunk(ChunkParams { package: pkg(), index: 0, msg: b64("test\n") });
    let finish = Params::Finish(FinishParams { package: pkg() });

    let steps = vec![
        call(1, "message", Some("/sota/notify"), Some(notify)),
        call(2, "message", Some("/sota/start"), Some(start)),
        call(3, "message", Some("/sota/chunk"), Some(chunk)),
        call(4, "message", Some("/sota/finish"), Some(finish)),
    ];
    for msg in steps {
        let out = dispatch(msg, &mut services, &mut transfers, &storage, 0);
        if let Some(n) = out.notification {
            channel.push(n);
        }
    }

    assert_eq!(channel.len(), 2);
    match &channel[0] {
        Notification::Notify(p) => {
            assert_eq!(p.packages, vec![pkg()]);
            assert_eq!(p.services.start, "/backend/start");
        },
        _ => panic!("the first notification is the notify"),
    }
    match &channel[1] {
        Notification::Finish(p) => assert_eq!(*p, pkg()),
        _ => panic!("the second notification is the finish"),
    }
    // the notify replaced the backend endpoint record
    assert_eq!(services.ack, "/backend/ack");
}

#[test]
fn stale_transfers_are_swept() {
    let timeout: i64 = 20;
    let now: i64 = 1_000_000;
    let mut transfers = Transfers::new();

    let mut stale = sota_client::persistence::Transfer::new_test(STORAGE);
    let stale_id = stale.randomize(6);
    stale.last_chunk_received = now - timeout - 1;
    let stale_dir = stale.get_chunk_dir();
    transfers.insert(stale);

    let mut fresh = sota_client::persistence::Transfer::new_test(STORAGE);
    let fresh_id = fresh.randomize(6);
    fresh.last_chunk_received = now - timeout;
    transfers.insert(fresh);

    let evicted = transfers.sweep(now, timeout);
    assert_eq!(evicted.len(), 1);
    assert_eq!(evicted[0].package, stale_id);
    assert_eq!(evicted[0].get_chunk_dir(), stale_dir);
    assert!(!transfers.contains(&stale_id));
    assert!(transfers.contains(&fresh_id));
}
