//! What a job tells the daemon.

use vstd::prelude::*;

use crate::cstrings::OurCStringArray;
use crate::text::{debug_form, first_with_nul, is_plain, no_nul};
use crate::text::{earliest_nul_is_refused, no_nul_means_no_nul};
use crate::text::{debug_string, joined, CText, NulError};

verus! {

/// The error codes that the backend reports.
#[derive(Clone, Copy, PartialEq, Eq, Structural, Debug)]
pub enum ErrorCode {
    InternalError,
    NotSupported,
    FailedInitialization,
    PackageIdInvalid,
    PackageNotFound,
    PackageDownloadFailed,
    RepoNotFound,
    RepoConfigurationError,
}

/// What a listed package is to the job.
#[derive(Clone, Copy, PartialEq, Eq, Structural, Debug)]
pub enum Info {
    Installed,
    Available,
    Normal,
    Updating,
    Installing,
    Removing,
}

/// The phases that a job reports.
#[derive(Clone, Copy, PartialEq, Eq, Structural, Debug)]
pub enum Status {
    DepResolve,
    Download,
    Install,
    Remove,
    Update,
    RefreshCache,
}

/// The groups that packages are sorted into. The backend knows of none.
#[derive(Clone, Copy, PartialEq, Eq, Structural, Debug)]
pub enum Group {
    Unknown,
}

/// What has to be restarted after an update.
#[derive(Clone, Copy, PartialEq, Eq, Structural, Debug)]
pub enum Restart {
    Nothing,
}

/// How stable an update is.
#[derive(Clone, Copy, PartialEq, Eq, Structural, Debug)]
pub enum UpdateState {
    Unknown,
}

/// What is known about an update. A field of which nothing is known is `None`.
pub struct UpdateDetail {
    pub updates: Option<OurCStringArray>,
    pub obsoletes: Option<OurCStringArray>,
    pub vendor_urls: Option<OurCStringArray>,
    pub bugzilla_urls: Option<OurCStringArray>,
    pub cve_urls: Option<OurCStringArray>,
    pub restart: Restart,
    pub update_text: Option<CText>,
    pub changelog: Option<CText>,
    pub state: UpdateState,
    pub issued: Option<CText>,
    pub updated: Option<CText>,
}

/// The size of which nothing is known.
pub const UNKNOWN_SIZE: u64 = 0xffff_ffff_ffff_ffff;

/// One package of a package list.
pub struct PackageEntry {
    pub info: Info,
    pub id: CText,
    pub summary: CText,
}

/// A message of a job to the daemon.
pub enum JobSignal {
    /// Something failed.
    ErrorCode { code: ErrorCode, message: CText },
    /// The daemon refuses the id of a package that was to be listed. The message is `lead` and
    /// then where in memory the id stands.
    InvalidId { code: ErrorCode, lead: CText, id: CText },
    /// What is known about a package.
    Details {
        id: CText,
        summary: CText,
        license: CText,
        description: CText,
        url: CText,
        group: Group,
        size: u64,
        download_size: u64,
    },
    /// A single package.
    Package { entry: PackageEntry },
    /// A list of packages.
    Packages { entries: Vec<PackageEntry> },
    /// The files of a package.
    Files { id: CText, files: OurCStringArray },
    /// What is known about an update of a package.
    UpdateDetail { id: CText, detail: UpdateDetail },
    /// A configured repository.
    RepoDetail { id: CText, description: CText, enabled: bool },
    /// The job enters a phase.
    SetStatus { status: Status },
    /// How far the job has come.
    SetPercentage { percentage: u32 },
    /// The job is over.
    Finished,
}

/// One package of a package list.
pub struct EntryView {
    pub info: Info,
    pub id: Seq<char>,
    pub summary: Seq<char>,
}

/// What is known about an update.
pub struct UpdateView {
    pub updates: Option<Seq<Seq<u8>>>,
    pub obsoletes: Option<Seq<Seq<u8>>>,
    pub vendor_urls: Option<Seq<Seq<u8>>>,
    pub bugzilla_urls: Option<Seq<Seq<u8>>>,
    pub cve_urls: Option<Seq<Seq<u8>>>,
    pub restart: Restart,
    pub update_text: Option<Seq<char>>,
    pub changelog: Option<Seq<char>>,
    pub state: UpdateState,
    pub issued: Option<Seq<char>>,
    pub updated: Option<Seq<char>>,
}

/// The strings behind an optional array.
pub open spec fn optional_strings(array: Option<OurCStringArray>) -> Option<Seq<Seq<u8>>> {
    match array {
        Some(array) => Some(array@),
        None => None,
    }
}

/// The text behind an optional text.
pub open spec fn optional_c_text(text: Option<CText>) -> Option<Seq<char>> {
    match text {
        Some(text) => Some(text@),
        None => None,
    }
}

impl View for UpdateDetail {
    type V = UpdateView;

    open spec fn view(&self) -> UpdateView {
        UpdateView {
            updates: optional_strings(self.updates),
            obsoletes: optional_strings(self.obsoletes),
            vendor_urls: optional_strings(self.vendor_urls),
            bugzilla_urls: optional_strings(self.bugzilla_urls),
            cve_urls: optional_strings(self.cve_urls),
            restart: self.restart,
            update_text: optional_c_text(self.update_text),
            changelog: optional_c_text(self.changelog),
            state: self.state,
            issued: optional_c_text(self.issued),
            updated: optional_c_text(self.updated),
        }
    }
}

/// A message of a job to the daemon.
pub enum SignalView {
    ErrorCode { code: ErrorCode, message: Seq<char> },
    InvalidId { code: ErrorCode, lead: Seq<char>, id: Seq<char> },
    Details {
        id: Seq<char>,
        summary: Seq<char>,
        license: Seq<char>,
        description: Seq<char>,
        url: Seq<char>,
        group: Group,
        size: u64,
        download_size: u64,
    },
    Package { entry: EntryView },
    Packages { entries: Seq<EntryView> },
    Files { id: Seq<char>, files: Seq<Seq<u8>> },
    UpdateDetail { id: Seq<char>, detail: UpdateView },
    RepoDetail { id: Seq<char>, description: Seq<char>, enabled: bool },
    SetStatus { status: Status },
    SetPercentage { percentage: u32 },
    Finished,
}

impl View for PackageEntry {
    type V = EntryView;

    open spec fn view(&self) -> EntryView {
        EntryView { info: self.info, id: self.id@, summary: self.summary@ }
    }
}

/// The packages of a package list.
pub open spec fn entries_of(list: Seq<PackageEntry>) -> Seq<EntryView> {
    list.map_values(|entry: PackageEntry| entry@)
}

impl View for JobSignal {
    type V = SignalView;

    open spec fn view(&self) -> SignalView {
        match *self {
            JobSignal::ErrorCode { code, message } => SignalView::ErrorCode {
                code,
                message: message@,
            },
            JobSignal::InvalidId { code, lead, id } => SignalView::InvalidId {
                code,
                lead: lead@,
                id: id@,
            },
            JobSignal::Details {
                id,
                summary,
                license,
                description,
                url,
                group,
                size,
                download_size,
            } => SignalView::Details {
                id: id@,
                summary: summary@,
                license: license@,
                description: description@,
                url: url@,
                group,
                size,
                download_size,
            },
            JobSignal::Package { entry } => SignalView::Package { entry: entry@ },
            JobSignal::Packages { entries } => SignalView::Packages {
                entries: entries_of(entries@),
            },
            JobSignal::Files { id, files } => SignalView::Files { id: id@, files: files@ },
            JobSignal::UpdateDetail { id, detail } => SignalView::UpdateDetail {
                id: id@,
                detail: detail@,
            },
            JobSignal::RepoDetail { id, description, enabled } => SignalView::RepoDetail {
                id: id@,
                description: description@,
                enabled,
            },
            JobSignal::SetStatus { status } => SignalView::SetStatus { status },
            JobSignal::SetPercentage { percentage } => SignalView::SetPercentage { percentage },
            JobSignal::Finished => SignalView::Finished,
        }
    }
}

/// The messages of a list, in their order.
pub open spec fn signals_of(list: Seq<JobSignal>) -> Seq<SignalView> {
    list.map_values(|signal: JobSignal| signal@)
}

/// A message, or the text with a NUL that stood in its way.
pub open spec fn outcome_of(result: Result<JobSignal, NulError>) -> Result<SignalView, Seq<char>> {
    match result {
        Ok(signal) => Ok(signal@),
        Err(e) => Err(e.text@),
    }
}

/// The message `signal`, unless one of the texts that go into it holds a NUL: the first such text
/// is then reported.
pub open spec fn unless_nul(texts: Seq<Seq<char>>, signal: SignalView) -> Result<
    SignalView,
    Seq<char>,
> {
    match first_with_nul(texts) {
        Some(text) => Err(text),
        None => Ok(signal),
    }
}

/// What a job says until it ends, and the text with a NUL that broke it off, if one did.
pub struct JobRun {
    pub signals: Vec<JobSignal>,
    pub fault: Option<NulError>,
}

/// What a job says until it ends, and the text with a NUL that broke it off, if one did.
#[verifier::ext_equal]
pub struct RunView {
    pub signals: Seq<SignalView>,
    pub fault: Option<Seq<char>>,
}

impl RunView {
    /// A job that has said nothing yet.
    pub open spec fn start() -> RunView {
        RunView { signals: Seq::empty(), fault: None }
    }

    /// The job after a further message, or after what stood in its way. A job that is broken off
    /// says nothing more.
    pub open spec fn followed_by(self, outcome: Result<SignalView, Seq<char>>) -> RunView {
        if self.fault is Some {
            self
        } else {
            match outcome {
                Ok(signal) => RunView { signals: self.signals.push(signal), fault: None },
                Err(text) => RunView { signals: self.signals, fault: Some(text) },
            }
        }
    }
}

/// The text of a refusal.
pub open spec fn fault_of(fault: Option<NulError>) -> Option<Seq<char>> {
    match fault {
        Some(e) => Some(e.text@),
        None => None,
    }
}

impl View for JobRun {
    type V = RunView;

    open spec fn view(&self) -> RunView {
        RunView { signals: signals_of(self.signals@), fault: fault_of(self.fault) }
    }
}

/// The message with which a job reports an internal error before it is broken off: the error's
/// own text, or a stock text where that holds a NUL.
pub open spec fn internal_error_text(message: Seq<char>) -> Seq<char> {
    if no_nul(message) {
        message
    } else {
        "unknown error"@
    }
}

/// Reports an internal error.
pub fn pk_err(message: &str) -> (signal: JobSignal)
    ensures
        signal@ == (SignalView::ErrorCode {
            code: ErrorCode::InternalError,
            message: internal_error_text(message@),
        }),
{
    let text: CText = match CText::copy_of(message) {
        Ok(text) => text,
        Err(_) => {
            proof {
                reveal_strlit("unknown error");
            }
            CText::known("unknown error")
        },
    };
    JobSignal::ErrorCode { code: ErrorCode::InternalError, message: text }
}

/// Reports the error `code` with `message`, which must not hold a NUL.
pub fn error_signal(code: ErrorCode, message: &str) -> (signal: JobSignal)
    requires
        no_nul(message@),
    ensures
        signal@ == (SignalView::ErrorCode { code, message: message@ }),
{
    JobSignal::ErrorCode { code, message: CText::known(message) }
}

/// The report of the error `code` with `message`, unless that holds a NUL.
pub open spec fn error_outcome(code: ErrorCode, message: Seq<char>) -> Result<
    SignalView,
    Seq<char>,
> {
    if no_nul(message) {
        Ok(SignalView::ErrorCode { code, message })
    } else {
        Err(message)
    }
}

/// Reports the error `code` with `message`, unless that holds a NUL.
pub fn checked_error_signal(code: ErrorCode, message: &str) -> (result: Result<
    JobSignal,
    NulError,
>)
    ensures
        outcome_of(result) == error_outcome(code, message@),
{
    match CText::copy_of(message) {
        Ok(message) => Ok(JobSignal::ErrorCode { code, message }),
        Err(e) => Err(e),
    }
}

/// The message that no package has the id `id`.
pub open spec fn not_found_message(id: Seq<char>) -> Seq<char> {
    "Failed to find package "@ + debug_form(id)
}

/// What is reported of an id that no package has.
pub open spec fn not_found_report(id: Seq<char>) -> SignalView {
    SignalView::ErrorCode { code: ErrorCode::PackageNotFound, message: not_found_message(id) }
}

/// Reports that no package has the id that is printed as `quoted`, which must not hold a NUL.
pub fn quoted_not_found(quoted: &str) -> (signal: JobSignal)
    requires
        no_nul(quoted@),
    ensures
        signal@ == (SignalView::ErrorCode {
            code: ErrorCode::PackageNotFound,
            message: "Failed to find package "@ + quoted@,
        }),
{
    let message: String = joined("Failed to find package ", quoted);
    proof {
        reveal_strlit("Failed to find package ");
    }
    error_signal(ErrorCode::PackageNotFound, message.as_str())
}

/// Reports that no package has the id `id`.
pub fn package_not_found(id: &CText) -> (signal: JobSignal)
    ensures
        signal@ == not_found_report(id@),
        is_plain(id@) ==> signal@ == (SignalView::ErrorCode {
            code: ErrorCode::PackageNotFound,
            message: "Failed to find package \""@ + id@ + "\""@,
        }),
{
    let quoted: String = debug_string(id.as_str());
    proof {
        reveal_strlit("Failed to find package ");
        reveal_strlit("Failed to find package \"");
        reveal_strlit("\"");
        if is_plain(id@) {
            assert("Failed to find package "@ + quoted@ =~= "Failed to find package \""@ + id@
                + "\""@);
        }
    }
    quoted_not_found(quoted.as_str())
}

/// A message shows just what it carries.
pub proof fn messages_show_what_they_carry(signal: JobSignal)
    ensures
        match signal {
            JobSignal::ErrorCode { code, message } => signal@ == (SignalView::ErrorCode {
                code,
                message: message@,
            }),
            JobSignal::InvalidId { code, lead, id } => signal@ == (SignalView::InvalidId {
                code,
                lead: lead@,
                id: id@,
            }),
            JobSignal::Details {
                id,
                summary,
                license,
                description,
                url,
                group,
                size,
                download_size,
            } => signal@ == (SignalView::Details {
                id: id@,
                summary: summary@,
                license: license@,
                description: description@,
                url: url@,
                group,
                size,
                download_size,
            }),
            JobSignal::Package { entry } => signal@ == (SignalView::Package {
                entry: EntryView { info: entry.info, id: entry.id@, summary: entry.summary@ },
            }),
            JobSignal::Packages { entries } => {
                &&& signal@ matches SignalView::Packages { entries: shown }
                &&& shown.len() == entries@.len()
                &&& forall|i: int|
                    0 <= i < shown.len() ==> #[trigger] shown[i] == (EntryView {
                        info: entries@[i].info,
                        id: entries@[i].id@,
                        summary: entries@[i].summary@,
                    })
            },
            JobSignal::Files { id, files } => signal@ == (SignalView::Files {
                id: id@,
                files: files@,
            }),
            JobSignal::UpdateDetail { id, detail } => {
                &&& signal@ matches SignalView::UpdateDetail { id: shown_id, detail: shown }
                &&& shown_id == id@
                &&& shown.restart == detail.restart
                &&& shown.state == detail.state
                &&& shown.updates is None <==> detail.updates is None
                &&& shown.obsoletes is None <==> detail.obsoletes is None
                &&& shown.vendor_urls is None <==> detail.vendor_urls is None
                &&& shown.bugzilla_urls is None <==> detail.bugzilla_urls is None
                &&& shown.cve_urls is None <==> detail.cve_urls is None
                &&& shown.update_text is None <==> detail.update_text is None
                &&& shown.changelog is None <==> detail.changelog is None
                &&& shown.issued is None <==> detail.issued is None
                &&& shown.updated is None <==> detail.updated is None
            },
            JobSignal::RepoDetail { id, description, enabled } => signal@ == (
            SignalView::RepoDetail { id: id@, description: description@, enabled }),
            JobSignal::SetStatus { status } => signal@ == (SignalView::SetStatus { status }),
            JobSignal::SetPercentage { percentage } => signal@ == (SignalView::SetPercentage {
                percentage,
            }),
            JobSignal::Finished => signal@ == SignalView::Finished,
        },
{
}

/// A run shows its messages one by one, and the text that broke it off.
pub proof fn runs_show_every_message(run: JobRun)
    ensures
        run@.signals.len() == run.signals@.len(),
        forall|i: int|
            0 <= i < run.signals@.len() ==> #[trigger] run@.signals[i] == run.signals@[i]@,
        run@.fault is Some <==> run.fault is Some,
        run.fault matches Some(e) ==> run@.fault == Some(e.text@),
{
}

/// A message that may be refused is sent exactly if none of its texts holds a NUL.
pub proof fn refused_exactly_for_a_nul(texts: Seq<Seq<char>>, signal: SignalView, at: int)
    requires
        0 <= at <= texts.len(),
        forall|i: int| 0 <= i < at ==> !(#[trigger] texts[i]).contains('\0'),
        at < texts.len() ==> texts[at].contains('\0'),
    ensures
        unless_nul(texts, signal) == if at < texts.len() {
            Err::<SignalView, Seq<char>>(texts[at])
        } else {
            Ok::<SignalView, Seq<char>>(signal)
        },
{
    earliest_nul_is_refused(texts, at);
}

/// An error is reported with its own code and text, unless the text holds a NUL.
pub proof fn errors_keep_their_text(code: ErrorCode, message: Seq<char>)
    ensures
        error_outcome(code, message) == if message.contains('\0') {
            Err::<SignalView, Seq<char>>(message)
        } else {
            Ok::<SignalView, Seq<char>>(SignalView::ErrorCode { code, message })
        },
        internal_error_text(message) == if message.contains('\0') {
            "unknown error"@
        } else {
            message
        },
        not_found_report(message) == (SignalView::ErrorCode {
            code: ErrorCode::PackageNotFound,
            message: "Failed to find package "@ + debug_form(message),
        }),
{
    no_nul_means_no_nul(message);
}

/// An outcome shows the message that is sent, or the text that stood in its way.
pub proof fn outcomes_show_their_result(result: Result<JobSignal, NulError>)
    ensures
        result matches Ok(signal) ==> outcome_of(result) == Ok::<SignalView, Seq<char>>(signal@),
        result matches Err(e) ==> outcome_of(result) == Err::<SignalView, Seq<char>>(e.text@),
{
}

} // verus!
