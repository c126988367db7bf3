//! Application updates: the `--apply-update` command line, the decisions of the install
//! step, and the state of the update dialog.
//!
//! Files, processes and the network stay with the caller; these functions decide what
//! to do with what they report.

use vstd::prelude::*;

use crate::text::{concat_str, copy_str, is_blank, str_equal, str_is_blank, string_push_str};

verus! {

/// The flag that makes the program install a downloaded update instead of starting.
pub const APPLY_UPDATE_FLAG: &'static str = "--apply-update";

/// What the command line asks for.
#[derive(Clone, Debug, PartialEq, Eq)]
pub enum UpdateCommand {
    /// No update command: start normally.
    NotUpdate,
    /// `--apply-update` without the path of the downloaded package.
    MissingPackage,
    /// Install the package at `download_path` over `target_path`, or over the running
    /// program when no target is given.
    Apply { download_path: String, target_path: Option<String> },
}

/// The model of an [`UpdateCommand`].
pub enum UpdateCommandView {
    NotUpdate,
    MissingPackage,
    Apply { download_path: Seq<char>, target_path: Option<Seq<char>> },
}

impl View for UpdateCommand {
    type V = UpdateCommandView;

    open spec fn view(&self) -> UpdateCommandView {
        match self {
            UpdateCommand::NotUpdate => UpdateCommandView::NotUpdate,
            UpdateCommand::MissingPackage => UpdateCommandView::MissingPackage,
            UpdateCommand::Apply { download_path, target_path } => UpdateCommandView::Apply {
                download_path: download_path@,
                target_path: match target_path {
                    Some(t) => Some(t@),
                    None => None,
                },
            },
        }
    }
}

/// The update command that the arguments after the program name ask for.
pub open spec fn update_command_of(args: Seq<Seq<char>>) -> UpdateCommandView {
    if args.len() == 0 || args[0] != APPLY_UPDATE_FLAG@ {
        UpdateCommandView::NotUpdate
    } else if args.len() == 1 {
        UpdateCommandView::MissingPackage
    } else {
        UpdateCommandView::Apply {
            download_path: args[1],
            target_path: if args.len() > 2 {
                Some(args[2])
            } else {
                None
            },
        }
    }
}

/// The update command that `args`, the arguments after the program name, ask for.
pub fn update_command(args: &Vec<String>) -> (r: UpdateCommand)
    ensures
        r@ == update_command_of(args@.map_values(|a: String| a@)),
{
    let ghost av = args@.map_values(|a: String| a@);
    if args.len() == 0 || !str_equal(args[0].as_str(), APPLY_UPDATE_FLAG) {
        return UpdateCommand::NotUpdate;
    }
    if args.len() == 1 {
        return UpdateCommand::MissingPackage;
    }
    let target_path = if args.len() > 2 {
        Some(copy_str(args[2].as_str()))
    } else {
        None
    };
    assert(av[1] == args@[1]@);
    UpdateCommand::Apply { download_path: copy_str(args[1].as_str()), target_path }
}

/// The OS error number of a rename across file systems (`EXDEV`).
pub const CROSS_DEVICE_LINK_ERROR: i32 = 18;

/// Whether an I/O error with OS error number `raw_os_error` is a rename across file
/// systems, which the install answers by copying instead.
pub fn is_cross_device_link_error(raw_os_error: Option<i32>) -> (r: bool)
    ensures
        r == (raw_os_error == Some(18i32)),
{
    match raw_os_error {
        Some(code) => code == CROSS_DEVICE_LINK_ERROR,
        None => false,
    }
}

/// How many times the Windows install tries to replace the program file.
pub const WINDOWS_REPLACE_ATTEMPTS: u32 = 120;

/// What the Windows install does after a failed attempt to replace the program file.
#[derive(Clone, Copy, Debug, PartialEq, Eq)]
pub enum ReplaceRetry {
    /// Wait and try again: the file is still locked.
    Retry,
    /// Give up: the error is not a locked file, or the attempts are used up.
    GiveUp,
}

/// What to do after attempt number `attempt` (counted from 1) failed, `permission_denied`
/// telling whether the file was locked.
pub fn replace_retry(attempt: u32, permission_denied: bool) -> (r: ReplaceRetry)
    ensures
        r == (if permission_denied && attempt < WINDOWS_REPLACE_ATTEMPTS {
            ReplaceRetry::Retry
        } else {
            ReplaceRetry::GiveUp
        }),
{
    if permission_denied && attempt < WINDOWS_REPLACE_ATTEMPTS {
        ReplaceRetry::Retry
    } else {
        ReplaceRetry::GiveUp
    }
}

/// The system that the program runs on, as far as the install cares.
#[derive(Clone, Copy, Debug, PartialEq, Eq)]
pub enum InstallPlatform {
    Windows,
    MacOs,
    Linux,
    Other,
}

/// How a downloaded update is installed.
#[derive(Clone, Copy, Debug, PartialEq, Eq)]
pub enum InstallPlan {
    /// Start the downloaded program as a helper that replaces this one, then quit.
    SpawnHelper,
    /// Replace the program file in place, restart it, then quit.
    ReplaceInPlace,
    /// Nothing can be done here.
    Unsupported,
}

/// After the plan has been carried out: quit, or keep running.
#[derive(Clone, Copy, Debug, PartialEq, Eq)]
pub enum UpdateInstallAction {
    Quit,
    Noop,
}

/// How an update is installed on `platform`: Windows needs a helper process because a
/// running program file cannot be replaced there.
pub fn install_plan(platform: InstallPlatform) -> (r: InstallPlan)
    ensures
        r == match platform {
            InstallPlatform::Windows => InstallPlan::SpawnHelper,
            InstallPlatform::MacOs | InstallPlatform::Linux => InstallPlan::ReplaceInPlace,
            InstallPlatform::Other => InstallPlan::Unsupported,
        },
{
    match platform {
        InstallPlatform::Windows => InstallPlan::SpawnHelper,
        InstallPlatform::MacOs | InstallPlatform::Linux => InstallPlan::ReplaceInPlace,
        InstallPlatform::Other => InstallPlan::Unsupported,
    }
}

/// What the caller does once `plan` has been carried out without error.
pub fn install_action(plan: InstallPlan) -> (r: UpdateInstallAction)
    ensures
        r == (if plan == InstallPlan::Unsupported {
            UpdateInstallAction::Noop
        } else {
            UpdateInstallAction::Quit
        }),
{
    match plan {
        InstallPlan::Unsupported => UpdateInstallAction::Noop,
        _ => UpdateInstallAction::Quit,
    }
}

// ---------------------------------------------------------------------------
// The network check before looking for updates.

/// The address that the network check asks.
pub const CONNECTIVITY_URL: &'static str = "https://www.gstatic.com/generate_204";

/// The user agent of the update requests.
pub const UPDATER_USER_AGENT: &'static str = "onetcli-updater";

/// The method of the network check: the check needs no body.
pub const CONNECTIVITY_METHOD: &'static str = "HEAD";

/// The request of the network check.
#[derive(Clone, Debug, PartialEq, Eq)]
pub struct ConnectivityRequest {
    pub method: String,
    pub url: String,
    pub user_agent: String,
}

/// The request that checks that the network works.
pub fn connectivity_request() -> (r: ConnectivityRequest)
    ensures
        r.method@ == CONNECTIVITY_METHOD@,
        r.url@ == CONNECTIVITY_URL@,
        r.user_agent@ == UPDATER_USER_AGENT@,
{
    ConnectivityRequest {
        method: copy_str(CONNECTIVITY_METHOD),
        url: copy_str(CONNECTIVITY_URL),
        user_agent: copy_str(UPDATER_USER_AGENT),
    }
}

/// Why the network check failed, by message key.
#[derive(Clone, Copy, Debug, PartialEq, Eq)]
pub enum ConnectivityError {
    /// The request got no answer.
    NetworkUnreachable,
    /// The server answered with a server error.
    ServiceUnavailable,
}

impl ConnectivityError {
    /// The message key of the error.
    pub fn key(&self) -> (r: &'static str)
        ensures
            r@ == (match *self {
                ConnectivityError::NetworkUnreachable => "Update.network_unreachable"@,
                ConnectivityError::ServiceUnavailable => "Update.github_service_unavailable"@,
            }),
    {
        match self {
            ConnectivityError::NetworkUnreachable => "Update.network_unreachable",
            ConnectivityError::ServiceUnavailable => "Update.github_service_unavailable",
        }
    }
}

/// What the network check concludes from the status of the answer, `None` when the
/// request got no answer: any answer but a server error (5xx) means the network works.
pub fn connectivity_outcome(status: Option<u16>) -> (r: Result<(), ConnectivityError>)
    ensures
        r == match status {
            None => Err::<(), ConnectivityError>(ConnectivityError::NetworkUnreachable),
            Some(code) => if 500 <= code < 600 {
                Err::<(), ConnectivityError>(ConnectivityError::ServiceUnavailable)
            } else {
                Ok::<(), ConnectivityError>(())
            },
        },
{
    match status {
        None => Err(ConnectivityError::NetworkUnreachable),
        Some(code) => if 500 <= code && code < 600 {
            Err(ConnectivityError::ServiceUnavailable)
        } else {
            Ok(())
        },
    }
}

// ---------------------------------------------------------------------------
// The update dialog.

/// The status line of the update dialog, by its message key.
#[derive(Clone, Copy, Debug, PartialEq, Eq)]
pub enum UpdateStatus {
    Ready,
    Downloading,
    DownloadComplete,
    DownloadFailed,
    Applying,
    ApplyFailed,
}

impl UpdateStatus {
    /// The message key of the status.
    pub fn key(&self) -> (r: &'static str)
        ensures
            r@ == status_key(*self),
    {
        match self {
            UpdateStatus::Ready => "Update.ready",
            UpdateStatus::Downloading => "Update.downloading",
            UpdateStatus::DownloadComplete => "Update.download_complete",
            UpdateStatus::DownloadFailed => "Update.download_failed",
            UpdateStatus::Applying => "Update.applying",
            UpdateStatus::ApplyFailed => "Update.apply_failed",
        }
    }
}

/// The message key of a status.
pub open spec fn status_key(s: UpdateStatus) -> Seq<char> {
    match s {
        UpdateStatus::Ready => "Update.ready"@,
        UpdateStatus::Downloading => "Update.downloading"@,
        UpdateStatus::DownloadComplete => "Update.download_complete"@,
        UpdateStatus::DownloadFailed => "Update.download_failed"@,
        UpdateStatus::Applying => "Update.applying"@,
        UpdateStatus::ApplyFailed => "Update.apply_failed"@,
    }
}

/// An error that the update dialog shows.
#[derive(Clone, Debug, PartialEq, Eq)]
pub enum UpdateError {
    /// The release names no package to download.
    MissingDownloadUrl,
    /// The downloaded package is gone.
    MissingDownloadFile,
    /// A failure that the download or install reported.
    Message(String),
}

impl UpdateError {
    /// The message key of an error that has one; a reported failure is shown as it is.
    pub fn key(&self) -> (r: Option<&'static str>)
        ensures
            match self {
                UpdateError::MissingDownloadUrl => r matches Some(k) && k@ == "Update.missing_download_url"@,
                UpdateError::MissingDownloadFile => r matches Some(k) && k@ == "Update.missing_download_file"@,
                UpdateError::Message(_) => r is None,
            },
    {
        match self {
            UpdateError::MissingDownloadUrl => Some("Update.missing_download_url"),
            UpdateError::MissingDownloadFile => Some("Update.missing_download_file"),
            UpdateError::Message(_) => None,
        }
    }
}

/// The message key that the status line puts before an error.
pub const ERROR_PREFIX_KEY: &'static str = "Update.error_prefix";

/// What the status line of the update dialog shows.
#[derive(Clone, Debug, PartialEq, Eq)]
pub enum StatusLine {
    /// The error, after the text of [`ERROR_PREFIX_KEY`] and `": "`.
    Error(UpdateError),
    /// The status message.
    Status(UpdateStatus),
}

/// The status line as shown, from the texts that the message keys translate to: the
/// error prefix, `": "` and the error when there is one, else the status message.
pub fn status_line_text(error_prefix: &str, error: Option<&str>, status: &str) -> (r: String)
    ensures
        r@ == (match error {
            Some(e) => error_prefix@ + ": "@ + e@,
            None => status@,
        }),
{
    match error {
        Some(e) => {
            let mut r = concat_str(error_prefix, ": ");
            string_push_str(&mut r, e);
            r
        },
        None => copy_str(status),
    }
}

/// The label of the dialog's OK button, by its message key.
#[derive(Clone, Copy, Debug, PartialEq, Eq)]
pub enum OkLabel {
    Applying,
    Downloading,
    Install,
    Download,
}

/// What the OK button does.
#[derive(Clone, Copy, Debug, PartialEq, Eq)]
pub enum OkAction {
    /// Tell the user that a download is running.
    Blocked,
    /// Install the downloaded package.
    Apply,
    /// Download the package.
    Download,
}

/// What a request to download leads to.
#[derive(Clone, Debug, PartialEq, Eq)]
pub enum DownloadRequest {
    /// A download or install is running, or the package is already there.
    Ignored,
    /// There is nothing to download; the dialog shows the error.
    Failed,
    /// Find where to store the package from `url`, then report it to
    /// `download_path_ready`.
    NeedPath { url: String },
}

/// What a request to install leads to.
#[derive(Clone, Debug, PartialEq, Eq)]
pub enum ApplyRequest {
    /// A download or install is running.
    Ignored,
    /// The package is gone; the dialog shows the error.
    Failed,
    /// Install the package at `path`, then report to `install_finished`.
    Start { path: String },
}

/// The state of the update dialog.
#[derive(Clone, Debug, PartialEq, Eq)]
pub struct UpdateDialogState {
    pub download_url: Option<String>,
    pub downloading: bool,
    pub applying: bool,
    pub completed: bool,
    pub downloaded_bytes: u64,
    pub total_bytes: Option<u64>,
    pub pending_path: Option<String>,
    pub downloaded_path: Option<String>,
    pub status: UpdateStatus,
    pub error: Option<UpdateError>,
}

/// What OK does in the state `s`.
pub open spec fn ok_action_of(s: UpdateDialogState) -> OkAction {
    if s.downloading {
        OkAction::Blocked
    } else if s.completed {
        OkAction::Apply
    } else {
        OkAction::Download
    }
}

/// A request to download is ignored in the state `s`.
pub open spec fn download_ignored(s: UpdateDialogState) -> bool {
    s.downloading || s.completed || s.applying
}

/// A request to install is ignored in the state `s`.
pub open spec fn apply_ignored(s: UpdateDialogState) -> bool {
    s.downloading || s.applying
}

/// The dialog may close in the state `s`.
pub open spec fn may_close(s: UpdateDialogState) -> bool {
    !(s.downloading || s.applying)
}

impl UpdateDialogState {
    /// The dialog is consistent: nothing is downloaded and installed at once, a
    /// finished download is exactly one whose package path is known, an install runs
    /// only on a finished download, and a running download knows where it stores.
    pub open spec fn wf(&self) -> bool {
        &&& !(self.downloading && self.completed)
        &&& !(self.downloading && self.applying)
        &&& (self.completed <==> self.downloaded_path is Some)
        &&& (self.applying ==> self.completed)
        &&& (self.downloading ==> self.pending_path is Some)
    }

    /// A dialog for a release whose package is at `download_url`, if it names one.
    pub fn new(download_url: Option<String>) -> (s: Self)
        ensures
            s.wf(),
            s.download_url == download_url,
            !s.downloading && !s.applying && !s.completed,
            s.status == UpdateStatus::Ready,
            s.error is None,
    {
        UpdateDialogState {
            download_url,
            downloading: false,
            applying: false,
            completed: false,
            downloaded_bytes: 0,
            total_bytes: None,
            pending_path: None,
            downloaded_path: None,
            status: UpdateStatus::Ready,
            error: None,
        }
    }

    /// What the status line shows: the error when there is one, else the status.
    pub fn status_line(&self) -> (r: StatusLine)
        ensures
            match self.error {
                None => r == StatusLine::Status(self.status),
                Some(UpdateError::MissingDownloadUrl) => r == StatusLine::Error(UpdateError::MissingDownloadUrl),
                Some(UpdateError::MissingDownloadFile) => r == StatusLine::Error(UpdateError::MissingDownloadFile),
                Some(UpdateError::Message(m)) => r matches StatusLine::Error(UpdateError::Message(n)) && n@ == m@,
            },
    {
        match &self.error {
            None => StatusLine::Status(self.status),
            Some(UpdateError::MissingDownloadUrl) => StatusLine::Error(UpdateError::MissingDownloadUrl),
            Some(UpdateError::MissingDownloadFile) => StatusLine::Error(UpdateError::MissingDownloadFile),
            Some(UpdateError::Message(m)) => StatusLine::Error(UpdateError::Message(copy_str(m.as_str()))),
        }
    }

    /// The label of the OK button: what runs, else what OK would do.
    pub fn ok_label(&self) -> (r: OkLabel)
        ensures
            r == (if self.applying {
                OkLabel::Applying
            } else if self.downloading {
                OkLabel::Downloading
            } else if self.completed {
                OkLabel::Install
            } else {
                OkLabel::Download
            }),
    {
        if self.applying {
            OkLabel::Applying
        } else if self.downloading {
            OkLabel::Downloading
        } else if self.completed {
            OkLabel::Install
        } else {
            OkLabel::Download
        }
    }

    /// What OK does: nothing but a notice while downloading, install once the package
    /// is there, download otherwise.
    pub fn on_ok(&self) -> (r: OkAction)
        ensures
            r == ok_action_of(*self),
    {
        if self.downloading {
            OkAction::Blocked
        } else if self.completed {
            OkAction::Apply
        } else {
            OkAction::Download
        }
    }

    /// Whether the dialog may close: not while downloading or installing.
    pub fn can_cancel(&self) -> (r: bool)
        ensures
            r == may_close(*self),
    {
        !(self.downloading || self.applying)
    }

    /// Whether the progress bar shows.
    pub fn shows_progress(&self) -> (r: bool)
        ensures
            r == (self.downloading || self.completed),
    {
        self.downloading || self.completed
    }

    /// Starts a download: ignored while one runs, while installing or once the package
    /// is there; fails when the release names no package.
    pub fn request_download(&mut self) -> (r: DownloadRequest)
        requires
            old(self).wf(),
        ensures
            final(self).wf(),
            download_ignored(*old(self)) ==> r == DownloadRequest::Ignored && *final(self) == *old(self),
            !download_ignored(*old(self)) ==> match old(self).download_url {
                None => r == DownloadRequest::Failed && *final(self) == (UpdateDialogState {
                    error: Some(UpdateError::MissingDownloadUrl),
                    status: UpdateStatus::DownloadFailed,
                    ..*old(self)
                }),
                Some(url) => (r matches DownloadRequest::NeedPath { url: u } && u@ == url@)
                    && *final(self) == *old(self),
            },
    {
        if self.downloading || self.completed || self.applying {
            return DownloadRequest::Ignored;
        }
        match &self.download_url {
            None => {
                self.error = Some(UpdateError::MissingDownloadUrl);
                self.status = UpdateStatus::DownloadFailed;
                DownloadRequest::Failed
            },
            Some(url) => DownloadRequest::NeedPath { url: copy_str(url.as_str()) },
        }
    }

    /// Takes in where the package is to be stored: an error fails the download; a path
    /// starts it from zero. Returns whether the download starts.
    pub fn download_path_ready(&mut self, path: Result<String, String>) -> (started: bool)
        requires
            old(self).wf(),
            !old(self).downloading && !old(self).completed && !old(self).applying,
        ensures
            final(self).wf(),
            started == path is Ok,
            match path {
                Err(e) => *final(self) == (UpdateDialogState {
                    error: Some(UpdateError::Message(e)),
                    status: UpdateStatus::DownloadFailed,
                    ..*old(self)
                }),
                Ok(p) => *final(self) == (UpdateDialogState {
                    downloading: true,
                    completed: false,
                    downloaded_bytes: 0,
                    total_bytes: None,
                    pending_path: Some(p),
                    downloaded_path: None,
                    error: None,
                    status: UpdateStatus::Downloading,
                    ..*old(self)
                }),
            },
    {
        match path {
            Err(e) => {
                self.error = Some(UpdateError::Message(e));
                self.status = UpdateStatus::DownloadFailed;
                false
            },
            Ok(p) => {
                self.downloading = true;
                self.completed = false;
                self.downloaded_bytes = 0;
                self.total_bytes = None;
                self.pending_path = Some(p);
                self.downloaded_path = None;
                self.error = None;
                self.status = UpdateStatus::Downloading;
                true
            },
        }
    }

    /// Records the progress of the running download.
    pub fn update_progress(&mut self, downloaded: u64, total: Option<u64>)
        requires
            old(self).wf(),
        ensures
            final(self).wf(),
            *final(self) == (UpdateDialogState {
                downloaded_bytes: downloaded,
                total_bytes: total,
                ..*old(self)
            }),
    {
        self.downloaded_bytes = downloaded;
        self.total_bytes = total;
    }

    /// Takes in the end of the running download: the package is there, or the error
    /// shows.
    pub fn download_finished(&mut self, result: Result<(), String>)
        requires
            old(self).wf(),
            old(self).downloading,
        ensures
            final(self).wf(),
            !final(self).downloading && !final(self).applying,
            match result {
                Ok(()) => *final(self) == (UpdateDialogState {
                    completed: true,
                    downloading: false,
                    applying: false,
                    downloaded_path: old(self).pending_path,
                    status: UpdateStatus::DownloadComplete,
                    ..*old(self)
                }),
                Err(e) => *final(self) == (UpdateDialogState {
                    downloading: false,
                    applying: false,
                    downloaded_path: None,
                    error: Some(UpdateError::Message(e)),
                    status: UpdateStatus::DownloadFailed,
                    ..*old(self)
                }),
            },
    {
        match result {
            Ok(()) => {
                self.completed = true;
                self.downloading = false;
                self.applying = false;
                self.downloaded_path = self.pending_path.clone();
                self.status = UpdateStatus::DownloadComplete;
            },
            Err(e) => {
                self.downloading = false;
                self.applying = false;
                self.downloaded_path = None;
                self.error = Some(UpdateError::Message(e));
                self.status = UpdateStatus::DownloadFailed;
            },
        }
    }

    /// Starts installing the downloaded package: ignored while downloading or
    /// installing; fails when no package is there.
    pub fn request_apply(&mut self) -> (r: ApplyRequest)
        requires
            old(self).wf(),
        ensures
            final(self).wf(),
            apply_ignored(*old(self)) ==> r == ApplyRequest::Ignored && *final(self) == *old(self),
            !apply_ignored(*old(self)) ==> match old(self).downloaded_path {
                None => r == ApplyRequest::Failed && *final(self) == (UpdateDialogState {
                    error: Some(UpdateError::MissingDownloadFile),
                    status: UpdateStatus::ApplyFailed,
                    completed: false,
                    downloaded_path: None,
                    ..*old(self)
                }),
                Some(p) => (r matches ApplyRequest::Start { path } && path@ == p@) && *final(self) == (
                UpdateDialogState {
                    applying: true,
                    error: None,
                    status: UpdateStatus::Applying,
                    ..*old(self)
                }),
            },
    {
        if self.downloading || self.applying {
            return ApplyRequest::Ignored;
        }
        match &self.downloaded_path {
            None => {
                self.error = Some(UpdateError::MissingDownloadFile);
                self.status = UpdateStatus::ApplyFailed;
                self.completed = false;
                self.downloaded_path = None;
                ApplyRequest::Failed
            },
            Some(p) => {
                let path = copy_str(p.as_str());
                self.applying = true;
                self.error = None;
                self.status = UpdateStatus::Applying;
                ApplyRequest::Start { path }
            },
        }
    }

    /// Takes in the end of the running install; returns whether the program quits.
    pub fn install_finished(&mut self, result: Result<UpdateInstallAction, String>) -> (quit: bool)
        requires
            old(self).wf(),
            old(self).applying,
        ensures
            final(self).wf(),
            quit == (result == Ok::<UpdateInstallAction, String>(UpdateInstallAction::Quit)),
            match result {
                Ok(UpdateInstallAction::Quit) => *final(self) == *old(self),
                Ok(UpdateInstallAction::Noop) => *final(self) == (UpdateDialogState {
                    applying: false,
                    status: UpdateStatus::DownloadComplete,
                    ..*old(self)
                }),
                Err(e) => *final(self) == (UpdateDialogState {
                    applying: false,
                    error: Some(UpdateError::Message(e)),
                    status: UpdateStatus::ApplyFailed,
                    ..*old(self)
                }),
            },
    {
        match result {
            Ok(UpdateInstallAction::Quit) => true,
            Ok(UpdateInstallAction::Noop) => {
                self.applying = false;
                self.status = UpdateStatus::DownloadComplete;
                false
            },
            Err(e) => {
                self.applying = false;
                self.error = Some(UpdateError::Message(e));
                self.status = UpdateStatus::ApplyFailed;
                false
            },
        }
    }
}

/// The release notes that the dialog shows: only notes with some text.
pub fn shown_release_notes(notes: &Option<String>) -> (r: Option<String>)
    ensures
        match notes {
            Some(n) => if is_blank(n@) {
                r is None
            } else {
                r matches Some(x) && x@ == n@
            },
            None => r is None,
        },
{
    match notes {
        Some(n) => if str_is_blank(n.as_str()) {
            None
        } else {
            Some(copy_str(n.as_str()))
        },
        None => None,
    }
}

/// While a download or an install runs, the dialog does not close, and OK starts
/// nothing: it only shows a notice during a download, and the install that it asks for
/// during an install is ignored.
pub proof fn lemma_busy_dialog_starts_nothing(s: UpdateDialogState)
    requires
        s.wf(),
        s.downloading || s.applying,
    ensures
        !may_close(s),
        ok_action_of(s) == OkAction::Blocked || (ok_action_of(s) == OkAction::Apply && apply_ignored(s)),
        download_ignored(s),
{
}

} // verus!
