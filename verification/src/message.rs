//! The message types exchanged with the backend over the bus, and the
//! notifications carried on the agent's internal channel.

use vstd::prelude::*;

use crate::package::PackageId;

verus! {

/// The four endpoint URLs the backend advertises with every notify; outbound
/// messages go to these.
pub struct BackendServices {
    /// Endpoint that download initiations go to.
    pub start: String,
    /// Endpoint that chunk acknowledgements go to.
    pub ack: String,
    /// Endpoint that per-package install reports go to.
    pub report: String,
    /// Endpoint that full installed-package reports go to.
    pub packages: String,
}

impl BackendServices {
    /// Whether all four endpoints are empty.
    pub open spec fn is_empty_spec(self) -> bool {
        &&& self.start@ =~= Seq::<char>::empty()
        &&& self.ack@ =~= Seq::<char>::empty()
        &&& self.report@ =~= Seq::<char>::empty()
        &&& self.packages@ =~= Seq::<char>::empty()
    }

    /// Fresh record with all endpoints empty, the state before the first
    /// notify arrives.
    pub fn new() -> (r: BackendServices)
        ensures
            r.is_empty_spec(),
    {
        BackendServices {
            start: String::new(),
            ack: String::new(),
            report: String::new(),
            packages: String::new(),
        }
    }

    /// Replace all four endpoints with those of `other`, the effect of a
    /// notify.
    pub fn update(&mut self, other: &BackendServices)
        ensures
            *final(self) == *other,
    {
        self.start = other.start.clone();
        self.ack = other.ack.clone();
        self.report = other.report.clone();
        self.packages = other.packages.clone();
    }
}

impl Clone for BackendServices {
    fn clone(&self) -> (r: Self)
        ensures
            r == *self,
    {
        BackendServices {
            start: self.start.clone(),
            ack: self.ack.clone(),
            report: self.report.clone(),
            packages: self.packages.clone(),
        }
    }
}

/// The service URLs this agent registered on the bus, as the registration
/// handshake returned them.
pub struct LocalServices {
    pub services: Vec<String>,
}

impl Clone for LocalServices {
    fn clone(&self) -> (r: Self)
        ensures
            r.services@.len() == self.services@.len(),
            forall|i: int|
                0 <= i < self.services@.len() ==> (#[trigger] r.services@[i])@
                    == self.services@[i]@,
    {
        let mut out: Vec<String> = Vec::new();
        let mut i: usize = 0;
        while i < self.services.len()
            invariant
                0 <= i <= self.services@.len(),
                out@.len() == i,
                forall|j: int|
                    0 <= j < i ==> (#[trigger] out@[j])@ == self.services@[j]@,
            decreases self.services@.len() - i,
        {
            out.push(self.services[i].clone());
            i = i + 1;
        }
        LocalServices { services: out }
    }
}

/// Payload of a notify: the backend's endpoints and the packages on offer.
pub struct NotifyParams {
    pub services: BackendServices,
    pub packages: Vec<PackageId>,
}

/// Payload of a start: which package follows, in how many chunks, and the
/// checksum the assembled package must have.
pub struct StartParams {
    pub package: PackageId,
    pub chunkscount: u64,
    pub checksum: String,
}

/// Payload of a chunk: one base64-encoded fragment of a package.
pub struct ChunkParams {
    pub package: PackageId,
    pub index: u64,
    pub msg: String,
}

/// Payload of a finish: the sender says the named package is complete.
pub struct FinishParams {
    pub package: PackageId,
}

/// Payload of a report request: empty.
pub struct ReportParams {}

/// Payload of an abort: the named package's transfer is to be dropped.
pub struct AbortParams {
    pub package: PackageId,
}

/// Acknowledgement of one accepted chunk, sent back to the backend's `ack`
/// endpoint.
pub struct ChunkAck {
    pub package: PackageId,
    pub chunk: u64,
}

/// One event on the agent's internal channel, consumed by the coordinator.
pub enum Notification {
    /// The backend advertised endpoints and offered packages.
    Notify(NotifyParams),
    /// The local side asked to initiate downloading these packages.
    Initiate(Vec<PackageId>),
    /// A package finished assembling and should be installed.
    Finish(PackageId),
    /// The backend asked for the full installed-package report.
    Report,
}

/// Report on one package install, as the local installer returns it.
pub struct InstallReport {
    pub package: PackageId,
    pub status: bool,
}

/// Per-package install report wrapped for the backend, with the device
/// identifier.
pub struct ServerPackageReport {
    pub report: InstallReport,
    pub vin: String,
}

/// Full installed-package report wrapped for the backend, with the device
/// identifier.
pub struct ServerReport {
    pub packages: Vec<PackageId>,
    pub vin: String,
}

/// Download initiation sent to the backend's `start` endpoint.
pub struct InitiateParams {
    pub packages: Vec<PackageId>,
    pub services: LocalServices,
    pub vin: String,
}

} // verus!
