//! The RPC front end: routing of inbound JSON-RPC calls by method and
//! service path, and the per-service state transitions on the transfer
//! table.
//!
//! The transport hands the dispatcher one decoded inbound message at a time;
//! the dispatcher routes it, runs the service's transition, and returns the
//! reply to send, the notification for the coordinator channel (if any), the
//! chunk acknowledgement owed to the backend (if any), assembled package
//! bytes to persist, and the staging directories that stopped being owned by
//! any transfer.

use vstd::prelude::*;

use crate::message::{
    AbortParams, BackendServices, ChunkAck, ChunkParams, FinishParams, Notification,
    NotifyParams, ReportParams, StartParams,
};
use crate::package::{same_id, PackageId};
use crate::persistence::{base64_decoded, sha1_hex, Transfer};
use crate::transfers::Transfers;

verus! {

/// An inbound message after JSON decoding, as the dispatcher sees it.
pub enum InboundMessage {
    /// The body was not valid JSON at the outer envelope: there is nothing
    /// to answer but a parse error.
    Malformed,
    /// A well-formed JSON object whose envelope shape is invalid: it carries
    /// no integer `id`, so the invalid-request reply echoes none.
    ShapeInvalid,
    /// An envelope with an integer `id` but no usable `method` field.
    MissingMethod { id: u64 },
    /// A call: its `id`, its `method`, the `service_name` of the `params`
    /// object where one was present, and the typed payload where it decoded.
    Call { id: u64, method: String, service: Option<String>, params: Option<Params> },
}

/// The typed payload of a `message` call, one variant per service path.
pub enum Params {
    Notify(NotifyParams),
    Start(StartParams),
    Chunk(ChunkParams),
    Finish(FinishParams),
    Report(ReportParams),
    Abort(AbortParams),
}

/// The JSON-RPC reply the dispatcher asks the transport to send.
pub enum RpcResponse {
    /// `result: null` success reply.
    Success { id: u64 },
    /// Parse error, sent without an id.
    ParseError,
    /// Invalid request: an envelope of invalid shape (with its `id` echoed
    /// where the envelope had one), or an unknown service path.
    InvalidRequest { id: Option<u64> },
    /// The method is neither `message` nor `services_available`.
    MethodNotFound { id: u64 },
    /// The typed payload of a known service did not decode.
    InvalidParams { id: u64 },
    /// The handler itself reported failure.
    Unspecified { id: u64 },
}

impl RpcResponse {
    /// The JSON-RPC error code of this reply: none for success, the
    /// standard codes for the protocol errors, and the implementation's
    /// unspecified-error code for handler failure.
    pub open spec fn error_code_spec(self) -> Option<i64> {
        match self {
            RpcResponse::Success { .. } => None,
            RpcResponse::ParseError => Some(-32700int as i64),
            RpcResponse::InvalidRequest { .. } => Some(-32600int as i64),
            RpcResponse::MethodNotFound { .. } => Some(-32601int as i64),
            RpcResponse::InvalidParams { .. } => Some(-32602int as i64),
            RpcResponse::Unspecified { .. } => Some(-32100int as i64),
        }
    }

    /// The JSON-RPC error code of this reply.
    pub fn error_code(&self) -> (r: Option<i64>)
        ensures
            r == self.error_code_spec(),
    {
        match self {
            RpcResponse::Success { .. } => None,
            RpcResponse::ParseError => Some(-32700),
            RpcResponse::InvalidRequest { .. } => Some(-32600),
            RpcResponse::MethodNotFound { .. } => Some(-32601),
            RpcResponse::InvalidParams { .. } => Some(-32602),
            RpcResponse::Unspecified { .. } => Some(-32100),
        }
    }
}

/// A successfully concatenated package: the file it belongs in and its bytes.
pub struct AssembledPackage {
    pub path: String,
    pub data: Vec<u8>,
}

/// Everything one dispatch produces beside its table effects.
pub struct DispatchOutcome {
    /// The reply to send back on the transport.
    pub response: RpcResponse,
    /// Notification for the coordinator channel, if the service produced one.
    pub notification: Option<Notification>,
    /// Acknowledgement of an accepted chunk, owed to the backend's `ack`
    /// endpoint.
    pub ack: Option<ChunkAck>,
    /// Package bytes that finish concatenated, to be written at the given
    /// path whether or not the checksum verdict let the transfer complete.
    pub assembled: Option<AssembledPackage>,
    /// Staging directories no longer owned by any transfer; the caller
    /// removes them from disk.
    pub cleanup: Vec<String>,
}

/// Service path of notify.
pub open spec fn notify_path() -> Seq<char> {
    "/sota/notify"@
}

/// Service path of start.
pub open spec fn start_path() -> Seq<char> {
    "/sota/start"@
}

/// Service path of chunk.
pub open spec fn chunk_path() -> Seq<char> {
    "/sota/chunk"@
}

/// Service path of finish.
pub open spec fn finish_path() -> Seq<char> {
    "/sota/finish"@
}

/// Service path of the report request.
pub open spec fn getpackages_path() -> Seq<char> {
    "/sota/getpackages"@
}

/// Service path of abort.
pub open spec fn abort_path() -> Seq<char> {
    "/sota/abort"@
}

/// Whether `s` names one of the six services the agent exposes.
pub open spec fn known_service(s: Seq<char>) -> bool {
    ||| s == notify_path()
    ||| s == start_path()
    ||| s == chunk_path()
    ||| s == finish_path()
    ||| s == getpackages_path()
    ||| s == abort_path()
}

/// The notify payload of `msg`, where `msg` is a well-routed notify call.
pub open spec fn notify_payload(msg: InboundMessage) -> Option<NotifyParams> {
    match msg {
        InboundMessage::Call {
            method,
            service: Some(s),
            params: Some(Params::Notify(p)),
            ..
        } => if method@ == "message"@ && s@ == notify_path() {
            Some(p)
        } else {
            None
        },
        _ => None,
    }
}

/// The start payload of `msg`, where `msg` is a well-routed start call.
pub open spec fn start_payload(msg: InboundMessage) -> Option<StartParams> {
    match msg {
        InboundMessage::Call {
            method,
            service: Some(s),
            params: Some(Params::Start(p)),
            ..
        } => if method@ == "message"@ && s@ == start_path() {
            Some(p)
        } else {
            None
        },
        _ => None,
    }
}

/// The chunk payload of `msg`, where `msg` is a well-routed chunk call.
pub open spec fn chunk_payload(msg: InboundMessage) -> Option<ChunkParams> {
    match msg {
        InboundMessage::Call {
            method,
            service: Some(s),
            params: Some(Params::Chunk(p)),
            ..
        } => if method@ == "message"@ && s@ == chunk_path() {
            Some(p)
        } else {
            None
        },
        _ => None,
    }
}

/// The finish payload of `msg`, where `msg` is a well-routed finish call.
pub open spec fn finish_payload(msg: InboundMessage) -> Option<FinishParams> {
    match msg {
        InboundMessage::Call {
            method,
            service: Some(s),
            params: Some(Params::Finish(p)),
            ..
        } => if method@ == "message"@ && s@ == finish_path() {
            Some(p)
        } else {
            None
        },
        _ => None,
    }
}

/// The abort payload of `msg`, where `msg` is a well-routed abort call.
pub open spec fn abort_payload(msg: InboundMessage) -> Option<AbortParams> {
    match msg {
        InboundMessage::Call {
            method,
            service: Some(s),
            params: Some(Params::Abort(p)),
            ..
        } => if method@ == "message"@ && s@ == abort_path() {
            Some(p)
        } else {
            None
        },
        _ => None,
    }
}

/// Whether `msg` is a well-routed report request.
pub open spec fn is_report_call(msg: InboundMessage) -> bool {
    match msg {
        InboundMessage::Call {
            method,
            service: Some(s),
            params: Some(Params::Report(..)),
            ..
        } => method@ == "message"@ && s@ == getpackages_path(),
        _ => false,
    }
}

/// Whether the transfer `t` passes its own checksum check: the expected
/// checksum names the SHA-1 digest of its assembled bytes.
pub open spec fn finish_succeeds(t: Transfer) -> bool {
    t.checksum@ == sha1_hex(t.assembled())
}

/// The reply owed for `msg` against table state `t`: the routing table of
/// the dispatcher.
pub open spec fn response_spec(msg: InboundMessage, t: Transfers) -> RpcResponse {
    match msg {
        InboundMessage::Malformed => RpcResponse::ParseError,
        InboundMessage::ShapeInvalid => RpcResponse::InvalidRequest { id: None },
        InboundMessage::MissingMethod { id } => RpcResponse::InvalidRequest { id: Some(id) },
        InboundMessage::Call { id, method, service, params } => {
            if method@ == "services_available"@ {
                RpcResponse::Success { id }
            } else if method@ != "message"@ {
                RpcResponse::MethodNotFound { id }
            } else {
                match service {
                    None => RpcResponse::InvalidRequest { id: Some(id) },
                    Some(s) => {
                        if !known_service(s@) {
                            RpcResponse::InvalidRequest { id: Some(id) }
                        } else if notify_payload(msg) is Some || start_payload(msg) is Some
                            || is_report_call(msg) || abort_payload(msg) is Some {
                            RpcResponse::Success { id }
                        } else if chunk_payload(msg) is Some {
                            let p = chunk_payload(msg)->0;
                            if t.contains_id(p.package) && base64_decoded(p.msg@) is Some {
                                RpcResponse::Success { id }
                            } else {
                                RpcResponse::Unspecified { id }
                            }
                        } else if finish_payload(msg) is Some {
                            let p = finish_payload(msg)->0;
                            if t.contains_id(p.package) && finish_succeeds(t.entry_for(p.package)) {
                                RpcResponse::Success { id }
                            } else {
                                RpcResponse::Unspecified { id }
                            }
                        } else {
                            RpcResponse::InvalidParams { id }
                        }
                    },
                }
            }
        },
    }
}

/// The notification owed for `msg` against table state `t`: notify and a
/// successful finish notify the coordinator, a report request forwards, and
/// no other message produces one.
pub open spec fn notification_spec(msg: InboundMessage, t: Transfers) -> Option<Notification> {
    if notify_payload(msg) is Some {
        Some(Notification::Notify(notify_payload(msg)->0))
    } else if is_report_call(msg) {
        Some(Notification::Report)
    } else if finish_payload(msg) is Some {
        let p = finish_payload(msg)->0;
        if t.contains_id(p.package) && finish_succeeds(t.entry_for(p.package)) {
            Some(Notification::Finish(p.package))
        } else {
            None
        }
    } else {
        None
    }
}

/// The staging directories a dispatch orphans and hands back for removal:
/// the directory of a transfer that start replaces, of one that finish
/// completes, or of one that abort drops.
pub open spec fn cleanup_spec(msg: InboundMessage, t: Transfers) -> Seq<Seq<char>> {
    if start_payload(msg) is Some {
        let p = start_payload(msg)->0;
        if t.contains_id(p.package) {
            seq![t.entry_for(p.package).chunk_dir_spec()]
        } else {
            Seq::<Seq<char>>::empty()
        }
    } else if finish_payload(msg) is Some {
        let p = finish_payload(msg)->0;
        if t.contains_id(p.package) && finish_succeeds(t.entry_for(p.package)) {
            seq![t.entry_for(p.package).chunk_dir_spec()]
        } else {
            Seq::<Seq<char>>::empty()
        }
    } else if abort_payload(msg) is Some {
        let p = abort_payload(msg)->0;
        if t.contains_id(p.package) {
            seq![t.entry_for(p.package).chunk_dir_spec()]
        } else {
            Seq::<Seq<char>>::empty()
        }
    } else {
        Seq::<Seq<char>>::empty()
    }
}

/// Whether the string equals the literal.
fn str_is(s: &String, lit: &str) -> (r: bool)
    ensures
        r == (s@ == lit@),
{
    let l: String = lit.to_owned();
    *s == l
}

/// Notify: replace the backend endpoints with those of the payload and tell
/// the coordinator what is on offer. Never fails.
pub fn handle_notify(p: NotifyParams, services: &mut BackendServices) -> (n: Notification)
    ensures
        *final(services) == p.services,
        n == Notification::Notify(p),
{
    services.update(&p.services);
    Notification::Notify(p)
}

/// Start: stage a fresh, empty transfer for the package under the given
/// storage directory, replacing any transfer already held for it. The
/// replaced transfer's staging directory comes back for removal. Never
/// fails.
pub fn handle_start(p: StartParams, transfers: &mut Transfers, storage_dir: &String, now: i64) -> (dropped: Option<String>)
    requires
        old(transfers).wf(),
    ensures
        final(transfers).wf(),
        final(transfers).contains_id(p.package),
        ({
            let t = final(transfers).entry_for(p.package);
            &&& t.package == p.package
            &&& t.checksum == p.checksum
            &&& t.prefix_dir@ == storage_dir@
            &&& t.last_chunk_received == now
            &&& t.chunks@ =~= Seq::<crate::persistence::Chunk>::empty()
            &&& t.chunk_map() =~= Map::<u64, Seq<u8>>::empty()
        }),
        dropped is Some <==> old(transfers).contains_id(p.package),
        dropped matches Some(d) ==> d@ == old(transfers).entry_for(p.package).chunk_dir_spec(),
        forall|q: PackageId|
            !same_id(q, p.package) ==> (final(transfers).contains_id(q) <==> old(transfers).contains_id(q)),
        forall|q: PackageId|
            !same_id(q, p.package) && old(transfers).contains_id(q) ==> final(transfers).entry_for(q) == old(transfers).entry_for(q),
{
    let dropped = match transfers.get(&p.package) {
        Some(t) => Some(t.get_chunk_dir()),
        None => None,
    };
    let fresh = Transfer::started_at(storage_dir.clone(), p.package, p.checksum, now);
    transfers.insert(fresh);
    dropped
}

/// Chunk: stage one chunk into the package's transfer. Fails when no
/// transfer exists or the payload is not base64; an accepted chunk is
/// acknowledged towards the backend.
pub fn handle_chunk(p: ChunkParams, transfers: &mut Transfers, now: i64) -> (res: (
    bool,
    Option<ChunkAck>,
))
    requires
        old(transfers).wf(),
    ensures
        final(transfers).wf(),
        res.0 == (old(transfers).contains_id(p.package) && base64_decoded(p.msg@) is Some),
        !old(transfers).contains_id(p.package) ==> *final(transfers) == *old(transfers),
        old(transfers).contains_id(p.package) ==> final(transfers).contains_id(p.package) && ({
            let t0 = old(transfers).entry_for(p.package);
            let t1 = final(transfers).entry_for(p.package);
            &&& t1.package == t0.package
            &&& t1.checksum == t0.checksum
            &&& t1.prefix_dir == t0.prefix_dir
            &&& t1.last_chunk_received == now
            &&& (base64_decoded(p.msg@) matches Some(d) ==> t1.chunk_map() == t0.chunk_map(
            ).insert(p.index, d))
            &&& (base64_decoded(p.msg@) is None ==> t1.chunk_map() == t0.chunk_map())
        }),
        forall|q: PackageId|
            !same_id(q, p.package) ==> (final(transfers).contains_id(q) <==> old(transfers).contains_id(q)),
        forall|q: PackageId|
            !same_id(q, p.package) && old(transfers).contains_id(q) ==> final(transfers).entry_for(q) == old(transfers).entry_for(q),
        res.1 is Some <==> res.0,
        res.0 ==> res.1 == Some((ChunkAck { package: p.package, chunk: p.index })),
{
    let r = transfers.apply_chunk_for(&p.package, p.msg.as_str(), p.index, now);
    if r {
        (true, Some(ChunkAck { package: p.package, chunk: p.index }))
    } else {
        (false, None)
    }
}

/// What finish leaves behind beside its reply.
pub struct FinishOutcome {
    /// Whether the transfer was found and passed its checksum check.
    pub ok: bool,
    /// The completion notification, on success.
    pub notification: Option<Notification>,
    /// The concatenated package and where it belongs, whenever the transfer
    /// was found — the package file is written even when the checksum
    /// verdict fails it.
    pub assembled: Option<AssembledPackage>,
    /// The staging directory of the completed transfer, on success.
    pub cleanup: Option<String>,
}

/// Finish: concatenate the package's staged chunks and verify the checksum.
/// On success the transfer leaves the table and the coordinator is told; on
/// failure the transfer stays put.
pub fn handle_finish(p: FinishParams, transfers: &mut Transfers) -> (res: FinishOutcome)
    requires
        old(transfers).wf(),
    ensures
        final(transfers).wf(),
        res.ok == (old(transfers).contains_id(p.package) && finish_succeeds(
            old(transfers).entry_for(p.package),
        )),
        res.ok ==> res.notification == Some(Notification::Finish(p.package)),
        !res.ok ==> res.notification is None,
        res.assembled is Some <==> old(transfers).contains_id(p.package),
        res.assembled matches Some(a) ==> a.path@ == old(transfers).entry_for(
            p.package,
        ).package_path_spec() && a.data@ == old(transfers).entry_for(p.package).assembled(),
        res.cleanup is Some <==> res.ok,
        res.cleanup matches Some(d) ==> d@ == old(transfers).entry_for(
            p.package,
        ).chunk_dir_spec(),
        res.ok ==> !final(transfers).contains_id(p.package),
        !res.ok ==> (final(transfers).contains_id(p.package) <==> old(transfers).contains_id(
            p.package,
        )) && (old(transfers).contains_id(p.package) ==> final(transfers).entry_for(p.package)
            == old(transfers).entry_for(p.package)),
        forall|q: PackageId|
            !same_id(q, p.package) ==> (final(transfers).contains_id(q) <==> old(transfers).contains_id(q)),
        forall|q: PackageId|
            !same_id(q, p.package) && old(transfers).contains_id(q) ==> final(transfers).entry_for(q) == old(transfers).entry_for(q),
{
    let work = match transfers.get(&p.package) {
        Some(t) => {
            let verdict = t.assemble_package();
            let data = t.assemble_chunks();
            let path = t.get_package_path();
            let dir = t.get_chunk_dir();
            Some((verdict, AssembledPackage { path, data }, dir))
        },
        None => None,
    };
    match work {
        None => FinishOutcome { ok: false, notification: None, assembled: None, cleanup: None },
        Some((verdict, built, dir)) => {
            if verdict {
                let _ = transfers.remove(&p.package);
                FinishOutcome {
                    ok: true,
                    notification: Some(Notification::Finish(p.package)),
                    assembled: Some(built),
                    cleanup: Some(dir),
                }
            } else {
                FinishOutcome { ok: false, notification: None, assembled: Some(built), cleanup: None }
            }
        },
    }
}

/// Abort: drop the package's transfer, if one is held, handing its staging
/// directory back for removal. Succeeds whether or not one was held.
pub fn handle_abort(p: AbortParams, transfers: &mut Transfers) -> (cleanup: Option<String>)
    requires
        old(transfers).wf(),
    ensures
        final(transfers).wf(),
        !final(transfers).contains_id(p.package),
        cleanup is Some <==> old(transfers).contains_id(p.package),
        cleanup matches Some(d) ==> d@ == old(transfers).entry_for(p.package).chunk_dir_spec(),
        forall|q: PackageId|
            !same_id(q, p.package) ==> (final(transfers).contains_id(q) <==> old(transfers).contains_id(q)),
        forall|q: PackageId|
            !same_id(q, p.package) && old(transfers).contains_id(q) ==> final(transfers).entry_for(q) == old(transfers).entry_for(q),
{
    match transfers.remove(&p.package) {
        Some(t) => Some(t.get_chunk_dir()),
        None => None,
    }
}

/// The views of a sequence of path strings.
pub open spec fn views_of(s: Seq<String>) -> Seq<Seq<char>> {
    s.map_values(|x: String| x@)
}

/// Whether `q` is the package identity whose table entry `msg` may touch;
/// every other package's entry survives a dispatch untouched.
pub open spec fn touched_id(msg: InboundMessage, q: PackageId) -> bool {
    ||| (start_payload(msg) is Some && same_id(q, start_payload(msg)->0.package))
    ||| (chunk_payload(msg) is Some && same_id(q, chunk_payload(msg)->0.package))
    ||| (finish_payload(msg) is Some && same_id(q, finish_payload(msg)->0.package))
    ||| (abort_payload(msg) is Some && same_id(q, abort_payload(msg)->0.package))
}

/// The six service paths are pairwise distinct.
proof fn lemma_paths_distinct()
    ensures
        notify_path() != start_path(),
        notify_path() != chunk_path(),
        notify_path() != finish_path(),
        notify_path() != getpackages_path(),
        notify_path() != abort_path(),
        start_path() != chunk_path(),
        start_path() != finish_path(),
        start_path() != getpackages_path(),
        start_path() != abort_path(),
        chunk_path() != finish_path(),
        chunk_path() != getpackages_path(),
        chunk_path() != abort_path(),
        finish_path() != getpackages_path(),
        finish_path() != abort_path(),
        getpackages_path() != abort_path(),
        "message"@ != "services_available"@,
{
    reveal_strlit("message");
    reveal_strlit("services_available");
    reveal_strlit("/sota/notify");
    reveal_strlit("/sota/start");
    reveal_strlit("/sota/chunk");
    reveal_strlit("/sota/finish");
    reveal_strlit("/sota/getpackages");
    reveal_strlit("/sota/abort");
    assert(notify_path().len() == 12);
    assert(start_path().len() == 11);
    assert(chunk_path().len() == 11);
    assert(finish_path().len() == 12);
    assert(getpackages_path().len() == 17);
    assert(abort_path().len() == 11);
    assert(notify_path()[6] == 'n');
    assert(finish_path()[6] == 'f');
    assert(start_path()[6] == 's');
    assert(chunk_path()[6] == 'c');
    assert(abort_path()[6] == 'a');
    assert("message"@.len() == 7);
    assert("services_available"@.len() == 18);
}

/// An outcome that carries a reply and nothing else.
fn reply_only(response: RpcResponse) -> (out: DispatchOutcome)
    ensures
        out.response == response,
        out.notification is None,
        out.ack is None,
        out.assembled is None,
        out.cleanup@ =~= Seq::<String>::empty(),
        views_of(out.cleanup@) =~= Seq::<Seq<char>>::empty(),
{
    DispatchOutcome {
        response,
        notification: None,
        ack: None,
        assembled: None,
        cleanup: Vec::new(),
    }
}

/// Route one inbound message and run its service's transition. The reply,
/// the notification, the chunk acknowledgement, the assembled package bytes
/// and the orphaned staging directories all follow the routing table; the
/// transfer table and the backend endpoint record change exactly as the
/// routed service says.
pub fn dispatch(
    msg: InboundMessage,
    services: &mut BackendServices,
    transfers: &mut Transfers,
    storage_dir: &String,
    now: i64,
) -> (out: DispatchOutcome)
    requires
        old(transfers).wf(),
    ensures
        final(transfers).wf(),
        out.response == response_spec(msg, *old(transfers)),
        out.notification == notification_spec(msg, *old(transfers)),
        views_of(out.cleanup@) == cleanup_spec(msg, *old(transfers)),
        notify_payload(msg) is Some ==> *final(services) == notify_payload(msg)->0.services,
        notify_payload(msg) is None ==> *final(services) == *old(services),
        start_payload(msg) is Some ==> ({
            let p = start_payload(msg)->0;
            &&& final(transfers).contains_id(p.package)
            &&& final(transfers).entry_for(p.package).package == p.package
            &&& final(transfers).entry_for(p.package).checksum == p.checksum
            &&& final(transfers).entry_for(p.package).prefix_dir@ == storage_dir@
            &&& final(transfers).entry_for(p.package).last_chunk_received == now
            &&& final(transfers).entry_for(p.package).chunk_map() =~= Map::<u64, Seq<u8>>::empty()
        }),
        chunk_payload(msg) is Some ==> ({
            let p = chunk_payload(msg)->0;
            &&& (!old(transfers).contains_id(p.package) ==> *final(transfers) == *old(transfers))
            &&& (old(transfers).contains_id(p.package) ==> final(transfers).contains_id(p.package)
                && ({
                let t0 = old(transfers).entry_for(p.package);
                let t1 = final(transfers).entry_for(p.package);
                &&& t1.package == t0.package
                &&& t1.checksum == t0.checksum
                &&& t1.prefix_dir == t0.prefix_dir
                &&& t1.last_chunk_received == now
                &&& (base64_decoded(p.msg@) matches Some(d) ==> t1.chunk_map() == t0.chunk_map(
                ).insert(p.index, d))
                &&& (base64_decoded(p.msg@) is None ==> t1.chunk_map() == t0.chunk_map())
            }))
        }),
        finish_payload(msg) is Some ==> ({
            let p = finish_payload(msg)->0;
            &&& (old(transfers).contains_id(p.package) && finish_succeeds(
                old(transfers).entry_for(p.package),
            ) ==> !final(transfers).contains_id(p.package))
            &&& (!(old(transfers).contains_id(p.package) && finish_succeeds(
                old(transfers).entry_for(p.package),
            )) ==> (final(transfers).contains_id(p.package) <==> old(transfers).contains_id(
                p.package,
            )) && (old(transfers).contains_id(p.package) ==> final(transfers).entry_for(p.package)
                == old(transfers).entry_for(p.package)))
        }),
        abort_payload(msg) is Some ==> !final(transfers).contains_id(
            abort_payload(msg)->0.package,
        ),
        forall|q: PackageId|
            !touched_id(msg, q) ==> (final(transfers).contains_id(q) <==> old(
                transfers,
            ).contains_id(q)),
        forall|q: PackageId|
            !touched_id(msg, q) && old(transfers).contains_id(q) ==> final(transfers).entry_for(q)
                == old(transfers).entry_for(q),
        (start_payload(msg) is None && chunk_payload(msg) is None && finish_payload(msg) is None
            && abort_payload(msg) is None) ==> *final(transfers) == *old(transfers),
        out.ack is Some <==> (chunk_payload(msg) is Some && old(transfers).contains_id(
            chunk_payload(msg)->0.package,
        ) && base64_decoded(chunk_payload(msg)->0.msg@) is Some),
        out.ack matches Some(a) ==> a == (ChunkAck {
            package: chunk_payload(msg)->0.package,
            chunk: chunk_payload(msg)->0.index,
        }),
        out.assembled is Some <==> (finish_payload(msg) is Some && old(transfers).contains_id(
            finish_payload(msg)->0.package,
        )),
        out.assembled matches Some(a) ==> a.path@ == old(transfers).entry_for(
            finish_payload(msg)->0.package,
        ).package_path_spec() && a.data@ == old(transfers).entry_for(
            finish_payload(msg)->0.package,
        ).assembled(),
{
    proof {
        lemma_paths_distinct();
    }
    match msg {
        InboundMessage::Malformed => reply_only(RpcResponse::ParseError),
        InboundMessage::ShapeInvalid => reply_only(RpcResponse::InvalidRequest { id: None }),
        InboundMessage::MissingMethod { id } => reply_only(
            RpcResponse::InvalidRequest { id: Some(id) },
        ),
        InboundMessage::Call { id, method, service, params } => {
            if str_is(&method, "services_available") {
                reply_only(RpcResponse::Success { id })
            } else if !str_is(&method, "message") {
                reply_only(RpcResponse::MethodNotFound { id })
            } else {
                match service {
                    None => reply_only(RpcResponse::InvalidRequest { id: Some(id) }),
                    Some(s) => {
                        if str_is(&s, "/sota/notify") {
                            match params {
                                Some(Params::Notify(p)) => {
                                    let n = handle_notify(p, services);
                                    let out = DispatchOutcome {
                                        response: RpcResponse::Success { id },
                                        notification: Some(n),
                                        ack: None,
                                        assembled: None,
                                        cleanup: Vec::new(),
                                    };
                                    proof {
                                        assert(notify_payload(msg) == Some(p));
                                        assert(views_of(out.cleanup@) =~= cleanup_spec(
                                            msg,
                                            *old(transfers),
                                        ));
                                    }
                                    out
                                },
                                _ => reply_only(RpcResponse::InvalidParams { id }),
                            }
                        } else if str_is(&s, "/sota/start") {
                            match params {
                                Some(Params::Start(p)) => {
                                    let dropped = handle_start(p, transfers, storage_dir, now);
                                    let mut cleanup: Vec<String> = Vec::new();
                                    if let Some(d) = dropped {
                                        cleanup.push(d);
                                    }
                                    proof {
                                        assert(start_payload(msg) == Some(p));
                                        assert(views_of(cleanup@) =~= cleanup_spec(
                                            msg,
                                            *old(transfers),
                                        ));
                                    }
                                    DispatchOutcome {
                                        response: RpcResponse::Success { id },
                                        notification: None,
                                        ack: None,
                                        assembled: None,
                                        cleanup,
                                    }
                                },
                                _ => reply_only(RpcResponse::InvalidParams { id }),
                            }
                        } else if str_is(&s, "/sota/chunk") {
                            match params {
                                Some(Params::Chunk(p)) => {
                                    let (r, ack) = handle_chunk(p, transfers, now);
                                    let response = if r {
                                        RpcResponse::Success { id }
                                    } else {
                                        RpcResponse::Unspecified { id }
                                    };
                                    let out = DispatchOutcome {
                                        response,
                                        notification: None,
                                        ack,
                                        assembled: None,
                                        cleanup: Vec::new(),
                                    };
                                    proof {
                                        assert(chunk_payload(msg) == Some(p));
                                        assert(views_of(out.cleanup@) =~= cleanup_spec(
                                            msg,
                                            *old(transfers),
                                        ));
                                    }
                                    out
                                },
                                _ => reply_only(RpcResponse::InvalidParams { id }),
                            }
                        } else if str_is(&s, "/sota/finish") {
                            match params {
                                Some(Params::Finish(p)) => {
                                    let res = handle_finish(p, transfers);
                                    let response = if res.ok {
                                        RpcResponse::Success { id }
                                    } else {
                                        RpcResponse::Unspecified { id }
                                    };
                                    let mut cleanup: Vec<String> = Vec::new();
                                    if let Some(d) = res.cleanup {
                                        cleanup.push(d);
                                    }
                                    proof {
                                        assert(finish_payload(msg) == Some(p));
                                        assert(views_of(cleanup@) =~= cleanup_spec(
                                            msg,
                                            *old(transfers),
                                        ));
                                    }
                                    DispatchOutcome {
                                        response,
                                        notification: res.notification,
                                        ack: None,
                                        assembled: res.assembled,
                                        cleanup,
                                    }
                                },
                                _ => reply_only(RpcResponse::InvalidParams { id }),
                            }
                        } else if str_is(&s, "/sota/getpackages") {
                            match params {
                                Some(Params::Report(..)) => {
                                    let out = DispatchOutcome {
                                        response: RpcResponse::Success { id },
                                        notification: Some(Notification::Report),
                                        ack: None,
                                        assembled: None,
                                        cleanup: Vec::new(),
                                    };
                                    proof {
                                        assert(is_report_call(msg));
                                        assert(views_of(out.cleanup@) =~= cleanup_spec(
                                            msg,
                                            *old(transfers),
                                        ));
                                    }
                                    out
                                },
                                _ => reply_only(RpcResponse::InvalidParams { id }),
                            }
                        } else if str_is(&s, "/sota/abort") {
                            match params {
                                Some(Params::Abort(p)) => {
                                    let dropped = handle_abort(p, transfers);
                                    let mut cleanup: Vec<String> = Vec::new();
                                    if let Some(d) = dropped {
                                        cleanup.push(d);
                                    }
                                    proof {
                                        assert(abort_payload(msg) == Some(p));
                                        assert(views_of(cleanup@) =~= cleanup_spec(
                                            msg,
                                            *old(transfers),
                                        ));
                                    }
                                    DispatchOutcome {
                                        response: RpcResponse::Success { id },
                                        notification: None,
                                        ack: None,
                                        assembled: None,
                                        cleanup,
                                    }
                                },
                                _ => reply_only(RpcResponse::InvalidParams { id }),
                            }
                        } else {
                            reply_only(RpcResponse::InvalidRequest { id: Some(id) })
                        }
                    },
                }
            }
        },
    }
}

} // verus!
