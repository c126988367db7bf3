use onetcli::update::{
    connectivity_outcome, connectivity_request, ConnectivityError, install_action, install_plan, is_cross_device_link_error, replace_retry,
    shown_release_notes, status_line_text, update_command, ApplyRequest, StatusLine, ERROR_PREFIX_KEY, DownloadRequest, InstallPlan,
    InstallPlatform, OkAction, OkLabel, ReplaceRetry, UpdateCommand, UpdateDialogState,
    UpdateError, UpdateInstallAction, UpdateStatus,
};

fn args(items: &[&str]) -> Vec<String> {
    items.iter().map(|s| s.to_string()).collect()
}

#[test]
fn update_command_needs_the_flag_first() {
    assert_eq!(UpdateCommand::NotUpdate, update_command(&args(&[])));
    assert_eq!(UpdateCommand::NotUpdate, update_command(&args(&["--help", "--apply-update"])));
    assert_eq!(UpdateCommand::MissingPackage, update_command(&args(&["--apply-update"])));
    assert_eq!(
        UpdateCommand::Apply {
            download_path: "/tmp/new".to_string(),
            target_path: None
        },
        update_command(&args(&["--apply-update", "/tmp/new"]))
    );
    assert_eq!(
        UpdateCommand::Apply {
            download_path: "/tmp/new".to_string(),
            target_path: Some("/opt/app".to_string())
        },
        update_command(&args(&["--apply-update", "/tmp/new", "/opt/app", "extra"]))
    );
}

#[test]
fn only_exdev_counts_as_cross_device() {
    assert!(is_cross_device_link_error(Some(18)));
    assert!(!is_cross_device_link_error(Some(13)));
    assert!(!is_cross_device_link_error(None));
}

#[test]
fn windows_replacement_retries_locked_files_up_to_the_limit() {
    assert_eq!(ReplaceRetry::Retry, replace_retry(1, true));
    assert_eq!(ReplaceRetry::Retry, replace_retry(119, true));
    assert_eq!(ReplaceRetry::GiveUp, replace_retry(120, true));
    assert_eq!(ReplaceRetry::GiveUp, replace_retry(1, false));
}

#[test]
fn install_plan_depends_on_the_platform() {
    assert_eq!(InstallPlan::SpawnHelper, install_plan(InstallPlatform::Windows));
    assert_eq!(InstallPlan::ReplaceInPlace, install_plan(InstallPlatform::Linux));
    assert_eq!(InstallPlan::ReplaceInPlace, install_plan(InstallPlatform::MacOs));
    assert_eq!(InstallPlan::Unsupported, install_plan(InstallPlatform::Other));
    assert_eq!(UpdateInstallAction::Quit, install_action(InstallPlan::SpawnHelper));
    assert_eq!(UpdateInstallAction::Noop, install_action(InstallPlan::Unsupported));
}

#[test]
fn dialog_downloads_then_installs() {
    let mut dialog = UpdateDialogState::new(Some("https://example/app.tar.gz".to_string()));
    assert_eq!(OkLabel::Download, dialog.ok_label());
    assert_eq!(OkAction::Download, dialog.on_ok());
    assert!(dialog.can_cancel());
    assert!(!dialog.shows_progress());

    assert_eq!(
        DownloadRequest::NeedPath {
            url: "https://example/app.tar.gz".to_string()
        },
        dialog.request_download()
    );
    assert!(dialog.download_path_ready(Ok("/tmp/app".to_string())));
    assert_eq!(UpdateStatus::Downloading, dialog.status);
    assert_eq!(OkLabel::Downloading, dialog.ok_label());
    assert_eq!(OkAction::Blocked, dialog.on_ok());
    assert!(!dialog.can_cancel());
    assert_eq!(DownloadRequest::Ignored, dialog.request_download());
    assert_eq!(ApplyRequest::Ignored, dialog.request_apply());

    dialog.update_progress(10, Some(100));
    assert_eq!((10, Some(100)), (dialog.downloaded_bytes, dialog.total_bytes));
    dialog.download_finished(Ok(()));
    assert!(dialog.completed && dialog.shows_progress());
    assert_eq!(UpdateStatus::DownloadComplete, dialog.status);
    assert_eq!(OkLabel::Install, dialog.ok_label());
    assert_eq!(OkAction::Apply, dialog.on_ok());

    assert_eq!(
        ApplyRequest::Start {
            path: "/tmp/app".to_string()
        },
        dialog.request_apply()
    );
    assert_eq!(OkLabel::Applying, dialog.ok_label());
    assert!(!dialog.can_cancel());
    assert!(!dialog.install_finished(Err("disk full".to_string())));
    assert_eq!(UpdateStatus::ApplyFailed, dialog.status);
    assert_eq!(Some(UpdateError::Message("disk full".to_string())), dialog.error);

    assert!(matches!(dialog.request_apply(), ApplyRequest::Start { .. }));
    assert!(dialog.install_finished(Ok(UpdateInstallAction::Quit)));
}

#[test]
fn dialog_reports_missing_url_and_failed_downloads() {
    let mut dialog = UpdateDialogState::new(None);
    assert_eq!(DownloadRequest::Failed, dialog.request_download());
    assert_eq!(Some(UpdateError::MissingDownloadUrl), dialog.error);
    assert_eq!(UpdateStatus::DownloadFailed, dialog.status);

    let mut dialog = UpdateDialogState::new(Some("u".to_string()));
    assert!(!dialog.download_path_ready(Err("bad path".to_string())));
    assert_eq!(UpdateStatus::DownloadFailed, dialog.status);
    assert!(!dialog.downloading);

    assert!(dialog.download_path_ready(Ok("/tmp/p".to_string())));
    assert_eq!(None, dialog.error);
    dialog.download_finished(Err("timeout".to_string()));
    assert!(!dialog.downloading && !dialog.completed);
    assert_eq!(Some(UpdateError::Message("timeout".to_string())), dialog.error);

    assert_eq!(ApplyRequest::Failed, dialog.request_apply());
    assert_eq!(Some(UpdateError::MissingDownloadFile), dialog.error);
    assert_eq!(UpdateStatus::ApplyFailed, dialog.status);
}

#[test]
fn unsupported_install_keeps_the_dialog_open() {
    let mut dialog = UpdateDialogState::new(Some("u".to_string()));
    let _ = dialog.request_download();
    dialog.download_path_ready(Ok("/tmp/p".to_string()));
    dialog.download_finished(Ok(()));
    let _ = dialog.request_apply();
    assert!(!dialog.install_finished(Ok(UpdateInstallAction::Noop)));
    assert!(!dialog.applying);
    assert_eq!(UpdateStatus::DownloadComplete, dialog.status);
    assert_eq!("Update.download_complete", dialog.status.key());
}

#[test]
fn release_notes_show_only_with_text() {
    assert_eq!(None, shown_release_notes(&None));
    assert_eq!(None, shown_release_notes(&Some(" \n".to_string())));
    assert_eq!(
        Some("Fixes".to_string()),
        shown_release_notes(&Some("Fixes".to_string()))
    );
}

#[test]
fn check_network_connectivity_uses_head_with_user_agent() {
    let request = connectivity_request();
    assert_eq!("HEAD", request.method);
    assert_eq!("https://www.gstatic.com/generate_204", request.url);
    assert_eq!("onetcli-updater", request.user_agent);
    assert_eq!(Ok(()), connectivity_outcome(Some(200)));
}

#[test]
fn check_network_connectivity_maps_server_errors() {
    let err = connectivity_outcome(Some(503)).expect_err("5xx maps to service unavailable");

    assert_eq!("Update.github_service_unavailable", err.key());
    assert_eq!(Ok(()), connectivity_outcome(Some(404)));
    assert_eq!(Err(ConnectivityError::ServiceUnavailable), connectivity_outcome(Some(500)));
    assert_eq!(Ok(()), connectivity_outcome(Some(600)));
}

#[test]
fn check_network_connectivity_maps_transport_errors() {
    let err = connectivity_outcome(None).expect_err("no answer maps to network unreachable");

    assert_eq!("Update.network_unreachable", err.key());
}

#[test]
fn dialog_status_line_shows_the_error_before_the_status() {
    let mut dialog = UpdateDialogState::new(None);
    assert_eq!(StatusLine::Status(UpdateStatus::Ready), dialog.status_line());
    assert_eq!(DownloadRequest::Failed, dialog.request_download());
    assert_eq!(StatusLine::Error(UpdateError::MissingDownloadUrl), dialog.status_line());
    assert_eq!(Some("Update.missing_download_url"), UpdateError::MissingDownloadUrl.key());
    assert_eq!(Some("Update.missing_download_file"), UpdateError::MissingDownloadFile.key());
    assert_eq!(None, UpdateError::Message("x".to_string()).key());

    let mut dialog = UpdateDialogState::new(Some("u".to_string()));
    assert!(dialog.download_path_ready(Ok("/tmp/p".to_string())));
    assert_eq!(StatusLine::Status(UpdateStatus::Downloading), dialog.status_line());
    dialog.download_finished(Err("timeout".to_string()));
    assert_eq!(
        StatusLine::Error(UpdateError::Message("timeout".to_string())),
        dialog.status_line()
    );

    assert_eq!("Update.error_prefix", ERROR_PREFIX_KEY);
    assert_eq!("Error: timeout", status_line_text("Error", Some("timeout"), "Download failed"));
    assert_eq!("Download failed", status_line_text("Error", None, "Download failed"));
}
