use sota_client::main_loop::{handle_notification, install_finished, report_ready, CoordinatorAction};
use sota_client::message::{
    BackendServices, InstallReport, LocalServices, Notification, NotifyParams,
};
use sota_client::package::PackageId;

fn pkg() -> PackageId {
    PackageId::new("pkg".to_string(), "1.0".to_string())
}

fn local() -> LocalServices {
    LocalServices { services: vec!["genivi.org/device/sota/notify".to_string()] }
}

fn urls() -> BackendServices {
    BackendServices {
        start: "/backend/start".to_string(),
        ack: "/backend/ack".to_string(),
        report: "/backend/report".to_string(),
        packages: "/backend/packages".to_string(),
    }
}

#[test]
fn a_notify_updates_endpoints_and_informs_the_installer() {
    let mut backend = BackendServices::new();
    let vin = "VIN123".to_string();
    let n = Notification::Notify(NotifyParams { services: urls(), packages: vec![pkg()] });
    let action = handle_notification(n, &mut backend, &local(), &vin);
    match action {
        CoordinatorAction::NotifyLocal { packages } => assert_eq!(packages, vec![pkg()]),
        _ => panic!("a notify informs the local installer"),
    }
    assert_eq!(backend.start, "/backend/start");
    assert_eq!(backend.report, "/backend/report");
}

#[test]
fn an_initiate_goes_to_the_start_endpoint() {
    let mut backend = urls();
    let vin = "VIN123".to_string();
    let n = Notification::Initiate(vec![pkg()]);
    let action = handle_notification(n, &mut backend, &local(), &vin);
    match action {
        CoordinatorAction::SendInitiate { url, initiate } => {
            assert_eq!(url, "/backend/start");
            assert_eq!(initiate.packages, vec![pkg()]);
            assert_eq!(initiate.vin, "VIN123");
            assert_eq!(initiate.services.services, local().services);
        },
        _ => panic!("an initiate goes out to the backend"),
    }
}

#[test]
fn a_finish_asks_for_the_install() {
    let mut backend = urls();
    let vin = "VIN123".to_string();
    let action = handle_notification(Notification::Finish(pkg()), &mut backend, &local(), &vin);
    match action {
        CoordinatorAction::AskInstall { package } => assert_eq!(package, pkg()),
        _ => panic!("a finish asks the installer"),
    }
    // endpoints stay as they were
    assert_eq!(backend.ack, "/backend/ack");
}

#[test]
fn a_report_request_asks_for_the_package_list() {
    let mut backend = urls();
    let vin = "VIN123".to_string();
    let action = handle_notification(Notification::Report, &mut backend, &local(), &vin);
    assert!(matches!(action, CoordinatorAction::AskReport));
}

#[test]
fn install_reports_are_wrapped_for_the_report_endpoint() {
    let backend = urls();
    let vin = "VIN123".to_string();
    let report = InstallReport { package: pkg(), status: true };
    let (url, wrapped) = install_finished(report, &vin, &backend);
    assert_eq!(url, "/backend/report");
    assert_eq!(wrapped.report.package, pkg());
    assert!(wrapped.report.status);
    assert_eq!(wrapped.vin, "VIN123");
}

#[test]
fn package_lists_are_wrapped_for_the_packages_endpoint() {
    let backend = urls();
    let vin = "VIN123".to_string();
    let (url, wrapped) = report_ready(vec![pkg()], &vin, &backend);
    assert_eq!(url, "/backend/packages");
    assert_eq!(wrapped.packages, vec![pkg()]);
    assert_eq!(wrapped.vin, "VIN123");
}
