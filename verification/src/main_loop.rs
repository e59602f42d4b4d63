//! The coordinator: the single consumer of the agent's notification channel.
//!
//! Each notification becomes exactly one outbound action. The surrounding
//! loop — which owns the channel, the IPC connection to the local installer
//! and the RPC client — performs the action and hands whatever answer it got
//! back in through `install_finished` or `report_ready`, which wrap the
//! answer for the backend.

use vstd::prelude::*;

use crate::message::{
    BackendServices, InitiateParams, InstallReport, LocalServices, Notification,
    ServerPackageReport, ServerReport,
};
use crate::package::PackageId;

verus! {

/// The one outbound action a notification asks for.
pub enum CoordinatorAction {
    /// Tell the local installer which packages the backend offers.
    NotifyLocal { packages: Vec<PackageId> },
    /// Send a download initiation to the backend's `start` endpoint.
    SendInitiate { url: String, initiate: InitiateParams },
    /// Ask the local installer to install the package; its report comes back
    /// through `install_finished`.
    AskInstall { package: PackageId },
    /// Ask the local installer for the installed-package list; it comes back
    /// through `report_ready`.
    AskReport,
}

/// Turn one notification into its outbound action. A notify replaces the
/// local record of the backend's endpoints and forwards the offer; an
/// initiate is wrapped with the local services and the device identifier and
/// aimed at the backend's `start` endpoint; a finish asks for the install of
/// exactly the finished package; a report request asks for the package list.
pub fn handle_notification(
    n: Notification,
    backend: &mut BackendServices,
    local: &LocalServices,
    vin: &String,
) -> (a: CoordinatorAction)
    ensures
        n matches Notification::Notify(p) ==> *final(backend) == p.services && a == (
        CoordinatorAction::NotifyLocal { packages: p.packages }),
        !(n matches Notification::Notify(_)) ==> *final(backend) == *old(backend),
        n matches Notification::Initiate(pkgs) ==> a matches CoordinatorAction::SendInitiate {
            url,
            initiate,
        } && url@ == old(backend).start@ && initiate.packages == pkgs && initiate.vin@ == vin@
            && initiate.services.services@.len() == local.services@.len() && (forall|i: int|
            0 <= i < local.services@.len() ==> (#[trigger] initiate.services.services@[i])@
                == local.services@[i]@),
        n matches Notification::Finish(pkg) ==> a == (CoordinatorAction::AskInstall {
            package: pkg,
        }),
        n is Report ==> a == CoordinatorAction::AskReport,
{
    match n {
        Notification::Notify(p) => {
            backend.update(&p.services);
            CoordinatorAction::NotifyLocal { packages: p.packages }
        },
        Notification::Initiate(pkgs) => {
            let initiate = InitiateParams {
                packages: pkgs,
                services: local.clone(),
                vin: vin.clone(),
            };
            CoordinatorAction::SendInitiate { url: backend.start.clone(), initiate }
        },
        Notification::Finish(pkg) => CoordinatorAction::AskInstall { package: pkg },
        Notification::Report => CoordinatorAction::AskReport,
    }
}

/// Wrap the local installer's report on one package for the backend: it goes
/// to the backend's `report` endpoint, carrying the report and the device
/// identifier.
pub fn install_finished(report: InstallReport, vin: &String, backend: &BackendServices) -> (r: (
    String,
    ServerPackageReport,
))
    ensures
        r.0@ == backend.report@,
        r.1.report == report,
        r.1.vin@ == vin@,
{
    (backend.report.clone(), ServerPackageReport { report, vin: vin.clone() })
}

/// Wrap the local installer's full package list for the backend: it goes to
/// the backend's `packages` endpoint, carrying the list and the device
/// identifier.
pub fn report_ready(packages: Vec<PackageId>, vin: &String, backend: &BackendServices) -> (r: (
    String,
    ServerReport,
))
    ensures
        r.0@ == backend.packages@,
        r.1.packages == packages,
        r.1.vin@ == vin@,
{
    (backend.packages.clone(), ServerReport { packages, vin: vin.clone() })
}

} // verus!
