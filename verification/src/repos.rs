//! Repositories: listing, switching, adding, removing and refreshing them.

use std::cmp::Ordering;

use vstd::prelude::*;

use crate::cstrings::{c_char_ptr_to_str, c_text};
use crate::signals::{checked_error_signal, error_signal, ErrorCode, JobSignal, SignalView, Status};
use crate::signals::{error_outcome, outcome_of, signals_of};
use crate::text::{has_nul, joined, no_nul, no_nul_means_no_nul, same_text, CText, NulError};

verus! {

/// The percentage that a refresh has reached when it is done with the repository at `index` of
/// `count`.
pub open spec fn refreshed_share(index: int, count: int) -> int {
    if index > count {
        100
    } else {
        100 * index / count
    }
}

/// The percentage that a refresh has reached when it is done with the repository at `index` of
/// `count`.
pub fn refresh_percentage(index: usize, count: usize) -> (percentage: u32)
    requires
        index <= count ==> count > 0 && 100 * index <= usize::MAX,
    ensures
        percentage == refreshed_share(index as int, count as int),
        percentage <= 100,
{
    if index > count {
        100
    } else {
        proof {
            assert(0 <= 100 * (index as int) / (count as int) <= 100) by (nonlinear_arith)
                requires
                    0 <= index <= count,
                    count > 0,
            ;
        }
        let share: usize = (100 * index) / count;
        share as u32
    }
}

/// Announces the refresh of the repositories.
pub fn refresh_start_signal() -> (signal: JobSignal)
    ensures
        signal@ == (SignalView::SetStatus { status: Status::RefreshCache }),
{
    JobSignal::SetStatus { status: Status::RefreshCache }
}

/// Reports the refresh of the repository at `index` of `count`: how far the job has come, or the
/// text of the error.
pub fn refresh_signal(index: usize, count: usize, refreshed: Result<(), &str>) -> (result: Result<
    JobSignal,
    NulError,
>)
    requires
        refreshed is Ok && index <= count ==> count > 0 && 100 * index <= usize::MAX,
    ensures
        outcome_of(result) == match refreshed {
            Ok(_) => Ok(
                SignalView::SetPercentage {
                    percentage: refreshed_share(index as int, count as int) as u32,
                },
            ),
            Err(message) => error_outcome(ErrorCode::RepoConfigurationError, message@),
        },
{
    match refreshed {
        Ok(_) => Ok(JobSignal::SetPercentage { percentage: refresh_percentage(index, count) }),
        Err(message) => checked_error_signal(ErrorCode::RepoConfigurationError, message),
    }
}

/// Reports that the repositories cannot be read, and the end of the job. The message must not
/// hold a NUL.
pub fn failed_initialization_signals(message: &str) -> (signals: Vec<JobSignal>)
    requires
        no_nul(message@),
    ensures
        signals_of(signals@) == seq![
            SignalView::ErrorCode { code: ErrorCode::FailedInitialization, message: message@ },
            SignalView::Finished,
        ],
{
    let mut signals: Vec<JobSignal> = Vec::new();
    signals.push(error_signal(ErrorCode::FailedInitialization, message));
    signals.push(JobSignal::Finished);
    assert(signals_of(signals@) =~= seq![
        SignalView::ErrorCode { code: ErrorCode::FailedInitialization, message: message@ },
        SignalView::Finished,
    ]);
    signals
}

/// How a repository is switched.
#[derive(Clone, Copy, PartialEq, Eq, Structural, Debug)]
pub enum RepoSwitch {
    Enable,
    Disable,
}

/// How a repository is to be switched: on for any value but zero.
pub fn repo_switch(enabled: i32) -> (switch: RepoSwitch)
    ensures
        switch == if enabled != 0 {
            RepoSwitch::Enable
        } else {
            RepoSwitch::Disable
        },
{
    if enabled != 0 {
        RepoSwitch::Enable
    } else {
        RepoSwitch::Disable
    }
}

/// The positions at which `ids` hold `id`, in rising order.
pub open spec fn positions_of(ids: Seq<Seq<char>>, id: Seq<char>) -> Seq<usize>
    decreases ids.len(),
{
    if ids.len() == 0 {
        Seq::empty()
    } else if ids.last() == id {
        positions_of(ids.drop_last(), id).push((ids.len() - 1) as usize)
    } else {
        positions_of(ids.drop_last(), id)
    }
}

/// The positions at which the configured repositories `ids` hold the repository `id`: those are
/// to be switched.
pub fn repo_enable_targets(ids: &Vec<String>, id: &str) -> (targets: Vec<usize>)
    ensures
        targets@ == positions_of(ids.deep_view(), id@),
        forall|at: usize|
            #![trigger targets@.contains(at)]
            targets@.contains(at) <==> at < ids@.len() && ids@[at as int]@ == id@,
        forall|i: int, j: int|
            0 <= i < j < targets@.len() ==> #[trigger] targets@[i] < #[trigger] targets@[j],
{
    let ghost all = ids.deep_view();
    let mut targets: Vec<usize> = Vec::new();
    let mut i: usize = 0;
    while i < ids.len()
        invariant
            i <= ids@.len(),
            all == ids.deep_view(),
            targets@ == positions_of(all.take(i as int), id@),
        decreases ids@.len() - i,
    {
        proof {
            assert(all.take(i + 1).drop_last() =~= all.take(i as int));
            assert(all.take(i + 1).last() == ids@[i as int]@);
        }
        if same_text(ids[i].as_str(), id) {
            targets.push(i);
        }
        i += 1;
    }
    proof {
        assert(all.take(all.len() as int) =~= all);
        targets_hold_the_id(all, id@);
    }
    targets
}

/// The error messages among the outcomes of switching repositories.
pub open spec fn switch_errors(outcomes: Seq<Option<String>>) -> Seq<SignalView>
    decreases outcomes.len(),
{
    if outcomes.len() == 0 {
        Seq::empty()
    } else {
        let before = switch_errors(outcomes.drop_last());
        match outcomes.last() {
            Some(message) => before.push(
                SignalView::ErrorCode {
                    code: ErrorCode::RepoConfigurationError,
                    message: message@,
                },
            ),
            None => before,
        }
    }
}

/// Whether the error messages among `outcomes` fit C strings.
pub open spec fn messages_fit(outcomes: Seq<Option<String>>) -> bool {
    forall|i: int|
        0 <= i < outcomes.len() ==> (#[trigger] outcomes[i] matches Some(message) ==> no_nul(
            message@,
        ))
}

/// What is reported after the repository `id` was switched, with an outcome, which may be an
/// error message, for each place where it is configured.
pub open spec fn repo_enable_report(id: Seq<char>, outcomes: Seq<Option<String>>) -> Seq<
    SignalView,
> {
    (if outcomes.len() == 0 {
        seq![
            SignalView::ErrorCode {
                code: ErrorCode::RepoNotFound,
                message: "Failed to find repo: "@ + id,
            },
        ]
    } else {
        switch_errors(outcomes)
    }).push(SignalView::Finished)
}

/// Reports the outcomes of switching the repository `id`: the errors, or that there is no such
/// repository, and the end of the job. The texts must not hold a NUL.
pub fn repo_enable_signals(id: &str, outcomes: &Vec<Option<String>>) -> (signals: Vec<JobSignal>)
    requires
        messages_fit(outcomes@),
        outcomes@.len() == 0 ==> no_nul(id@),
    ensures
        signals_of(signals@) == repo_enable_report(id@, outcomes@),
{
    let mut signals: Vec<JobSignal> = Vec::new();
    let mut i: usize = 0;
    assert(signals_of(signals@) =~= Seq::<SignalView>::empty());
    while i < outcomes.len()
        invariant
            i <= outcomes@.len(),
            messages_fit(outcomes@),
            signals_of(signals@) == switch_errors(outcomes@.take(i as int)),
        decreases outcomes@.len() - i,
    {
        assert(outcomes@.take(i + 1).drop_last() =~= outcomes@.take(i as int));
        if let Some(message) = &outcomes[i] {
            let ghost before = signals_of(signals@);
            assert(outcomes@[i as int] == Some(*message));
            let signal: JobSignal = error_signal(
                ErrorCode::RepoConfigurationError,
                message.as_str(),
            );
            signals.push(signal);
            assert(signals_of(signals@) =~= before.push(signal@));
        }
        i += 1;
    }
    assert(outcomes@.take(outcomes@.len() as int) =~= outcomes@);
    if outcomes.len() == 0 {
        let message: String = joined("Failed to find repo: ", id);
        proof {
            reveal_strlit("Failed to find repo: ");
        }
        let signal: JobSignal = error_signal(ErrorCode::RepoNotFound, message.as_str());
        signals.push(signal);
        assert(signals_of(signals@) =~= seq![signal@]);
    }
    let ghost before = signals_of(signals@);
    signals.push(JobSignal::Finished);
    assert(signals_of(signals@) =~= before.push(SignalView::Finished));
    signals
}

/// Whether the error messages among `outcomes` fit C strings.
pub fn messages_fit_c_strings(outcomes: &Vec<Option<String>>) -> (fit: bool)
    ensures
        fit == messages_fit(outcomes@),
{
    let mut i: usize = 0;
    while i < outcomes.len()
        invariant
            i <= outcomes@.len(),
            forall|j: int|
                0 <= j < i ==> (#[trigger] outcomes@[j] matches Some(message) ==> no_nul(message@)),
        decreases outcomes@.len() - i,
    {
        if let Some(message) = &outcomes[i] {
            if has_nul(message.as_str()) {
                assert(outcomes@[i as int] == Some(*message));
                return false;
            }
        }
        i += 1;
    }
    true
}

/// The normal form of the URL that a text spells, if it spells one.
pub uninterp spec fn url_form(text: Seq<char>) -> Option<Seq<char>>;

/// The errors of the URL parser.
#[verifier::external_type_specification]
#[verifier::external_body]
pub struct ExUrlParseError(url::ParseError);

/// Parses `text` with `url::Url::parse` and gives back the serialization of the URL. Whether
/// there is one, and which, depends on the text alone. What a URL has to look like, and which
/// error a bad one gives, is left unsaid.
#[verifier::external_body]
fn parse_url(text: &str) -> (parsed: Result<String, url::ParseError>)
    ensures
        match parsed {
            Ok(uri) => url_form(text@) == Some(uri@),
            Err(_) => url_form(text@) is None,
        },
{
    url::Url::parse(text).map(String::from)
}

/// A repository to be added.
pub struct NewRepository {
    pub description: String,
    pub uri: String,
    pub priority: u64,
    pub active: bool,
}

/// What a request to set the data of a repository asks for.
pub enum RepoDataRequest {
    /// Add the repository, then refresh it.
    Add { repository: NewRepository },
    /// Add a repository, but at a place that is no URL.
    AddWithoutUri,
    /// Remove the repository.
    Remove,
    /// Something that the backend does not do.
    Unsupported,
}

/// Whether `request` asks to add a repository at `uri`, or cannot for want of one. A new
/// repository is described by three dots, has the lowest priority, and is active.
pub open spec fn asks_to_add(request: RepoDataRequest, uri: Option<Seq<char>>) -> bool {
    match uri {
        Some(uri) => {
            &&& request matches RepoDataRequest::Add { repository }
            &&& repository.description@ == "..."@
            &&& repository.uri@ == uri
            &&& repository.priority == 0
            &&& repository.active
        },
        None => request is AddWithoutUri,
    }
}

/// The request to add a repository at `uri`.
pub fn add_request(uri: Option<String>) -> (request: RepoDataRequest)
    ensures
        asks_to_add(
            request,
            match uri {
                Some(uri) => Some(uri@),
                None => None,
            },
        ),
{
    match uri {
        Some(uri) => RepoDataRequest::Add {
            repository: NewRepository {
                description: "...".to_owned(),
                uri,
                priority: 0,
                active: true,
            },
        },
        None => RepoDataRequest::AddWithoutUri,
    }
}

/// What the parameter `parameter` with the value `value` asks for.
pub fn repo_data_request(parameter: &str, value: &str) -> (request: RepoDataRequest)
    ensures
        if parameter@ == "add"@ {
            asks_to_add(request, url_form(value@))
        } else if parameter@ == "remove"@ {
            request is Remove
        } else {
            request is Unsupported
        },
{
    if same_text(parameter, "add") {
        let uri: Option<String> = match parse_url(value) {
            Ok(uri) => Some(uri),
            Err(_) => None,
        };
        add_request(uri)
    } else if same_text(parameter, "remove") {
        proof {
            reveal_strlit("add");
            reveal_strlit("remove");
        }
        RepoDataRequest::Remove
    } else {
        RepoDataRequest::Unsupported
    }
}

/// A request to set the data of the repository `id`.
pub struct RepoData {
    pub id: CText,
    pub request: RepoDataRequest,
}

/// Reads a request to set the data of a repository from its three C strings. There is none where
/// one of them is not UTF-8.
pub fn read_repo_data(repo_id: &Vec<u8>, parameter: &Vec<u8>, value: &Vec<u8>) -> (data: Option<
    RepoData,
>)
    ensures
        match (c_text(repo_id@), c_text(parameter@), c_text(value@)) {
            (Some(id), Some(parameter), Some(value)) => {
                &&& data matches Some(data)
                &&& data.id@ == id
                &&& if parameter == "add"@ {
                    asks_to_add(data.request, url_form(value))
                } else if parameter == "remove"@ {
                    data.request is Remove
                } else {
                    data.request is Unsupported
                }
            },
            _ => data is None,
        },
{
    let id: CText = match c_char_ptr_to_str(Some(repo_id)) {
        Some(id) => id,
        None => return None,
    };
    let parameter: CText = match c_char_ptr_to_str(Some(parameter)) {
        Some(parameter) => parameter,
        None => return None,
    };
    let value: CText = match c_char_ptr_to_str(Some(value)) {
        Some(value) => value,
        None => return None,
    };
    let request: RepoDataRequest = repo_data_request(parameter.as_str(), value.as_str());
    Some(RepoData { id, request })
}

/// The end of a job that may have failed with an error.
fn finished_after(error: Option<JobSignal>) -> (signals: Vec<JobSignal>)
    ensures
        signals_of(signals@) == match error {
            Some(error) => seq![error@, SignalView::Finished],
            None => seq![SignalView::Finished],
        },
{
    let mut signals: Vec<JobSignal> = Vec::new();
    let ghost given = error;
    if let Some(error) = error {
        signals.push(error);
    }
    signals.push(JobSignal::Finished);
    proof {
        if given is Some {
            assert(signals_of(signals@) =~= seq![given->0@, SignalView::Finished]);
        } else {
            assert(signals_of(signals@) =~= seq![SignalView::Finished]);
        }
    }
    signals
}

/// Reports the refresh of an added repository: its error, if it failed, and the end of the job.
/// The message must not hold a NUL.
pub fn repo_added_signals(error: Option<&str>) -> (signals: Vec<JobSignal>)
    requires
        error matches Some(message) ==> no_nul(message@),
    ensures
        signals_of(signals@) == match error {
            Some(message) => seq![
                SignalView::ErrorCode { code: ErrorCode::RepoNotFound, message: message@ },
                SignalView::Finished,
            ],
            None => seq![SignalView::Finished],
        },
{
    match error {
        Some(message) => finished_after(Some(error_signal(ErrorCode::RepoNotFound, message))),
        None => finished_after(None),
    }
}

/// Reports the removal of the repository `id`: whether it was found, and the end of the job. The
/// id of a repository that was not found must not hold a NUL.
pub fn repo_removed_signals(id: &str, found: bool) -> (signals: Vec<JobSignal>)
    requires
        !found ==> no_nul(id@),
    ensures
        signals_of(signals@) == if found {
            seq![SignalView::Finished]
        } else {
            seq![
                SignalView::ErrorCode {
                    code: ErrorCode::RepoNotFound,
                    message: "Repository id: "@ + id@ + " was not found"@,
                },
                SignalView::Finished,
            ]
        },
{
    if found {
        finished_after(None)
    } else {
        let message: String = joined("Repository id: ", id).concat(" was not found");
        proof {
            reveal_strlit("Repository id: ");
            reveal_strlit(" was not found");
        }
        finished_after(Some(error_signal(ErrorCode::RepoNotFound, message.as_str())))
    }
}

/// Reports a request that the backend does not support, and the end of the job.
pub fn unsupported_request_signals() -> (signals: Vec<JobSignal>)
    ensures
        signals_of(signals@) == seq![
            SignalView::ErrorCode {
                code: ErrorCode::NotSupported,
                message: "Valid parameters for set_repo_data are: add and, remove"@,
            },
            SignalView::Finished,
        ],
{
    proof {
        reveal_strlit("Valid parameters for set_repo_data are: add and, remove");
    }
    finished_after(
        Some(
            error_signal(
                ErrorCode::NotSupported,
                "Valid parameters for set_repo_data are: add and, remove",
            ),
        ),
    )
}

/// A configured repository.
pub struct RepoEntry {
    pub id: String,
    pub description: String,
    pub priority: u64,
    pub active: bool,
}

/// The repositories of priority `priority`, in their order.
pub open spec fn of_priority(repos: Seq<RepoEntry>, priority: u64) -> Seq<RepoEntry> {
    repos.filter(|repo: RepoEntry| repo.priority == priority)
}

/// Whether `sorted` holds `repos` from the highest priority to the lowest, with those of equal
/// priority in their old order.
pub open spec fn is_by_priority(repos: Seq<RepoEntry>, sorted: Seq<RepoEntry>) -> bool {
    &&& forall|i: int, j: int|
        0 <= i < j < sorted.len() ==> (#[trigger] sorted[i]).priority >= (
        #[trigger] sorted[j]).priority
    &&& forall|priority: u64| #[trigger]
        of_priority(sorted, priority) == of_priority(repos, priority)
}

/// The order of two repositories: the higher priority comes first.
pub fn priority_order(a: &RepoEntry, b: &RepoEntry) -> (order: Ordering)
    ensures
        order == if a.priority > b.priority {
            Ordering::Less
        } else if a.priority == b.priority {
            Ordering::Equal
        } else {
            Ordering::Greater
        },
{
    if a.priority > b.priority {
        Ordering::Less
    } else if a.priority == b.priority {
        Ordering::Equal
    } else {
        Ordering::Greater
    }
}

/// Sorts with `sorted_by` of `itertools::Itertools` in the order of `priority_order`. The sort is
/// stable: repositories that the order holds equal keep their places relative to each other.
#[verifier::external_body]
fn sort_by_priority(repos: Vec<RepoEntry>) -> (sorted: Vec<RepoEntry>)
    ensures
        is_by_priority(repos@, sorted@),
{
    itertools::Itertools::sorted_by(repos.into_iter(), |a, b| priority_order(a, b)).collect()
}

/// The message about a repository.
pub open spec fn repo_detail(repo: RepoEntry) -> SignalView {
    SignalView::RepoDetail {
        id: repo.id@,
        description: repo.description@,
        enabled: repo.active,
    }
}

/// Whether the ids and descriptions of all `repos` fit C strings.
pub open spec fn repos_fit(repos: Seq<RepoEntry>) -> bool {
    forall|i: int|
        0 <= i < repos.len() ==> no_nul((#[trigger] repos[i]).id@) && no_nul(repos[i].description@)
}

/// Whether the ids and descriptions of all `repos` fit C strings.
pub fn repos_fit_c_strings(repos: &Vec<RepoEntry>) -> (fit: bool)
    ensures
        fit == repos_fit(repos@),
{
    let mut i: usize = 0;
    while i < repos.len()
        invariant
            i <= repos@.len(),
            forall|j: int|
                0 <= j < i ==> no_nul((#[trigger] repos@[j]).id@) && no_nul(repos@[j].description@),
        decreases repos@.len() - i,
    {
        if has_nul(repos[i].id.as_str()) || has_nul(repos[i].description.as_str()) {
            return false;
        }
        i += 1;
    }
    true
}

/// The listing of `sorted`, and the end of the job.
pub open spec fn repo_listing(sorted: Seq<RepoEntry>) -> Seq<SignalView> {
    sorted.map_values(|repo: RepoEntry| repo_detail(repo)).push(SignalView::Finished)
}

proof fn sorted_fits(repos: Seq<RepoEntry>, sorted: Seq<RepoEntry>)
    requires
        is_by_priority(repos, sorted),
        repos_fit(repos),
    ensures
        repos_fit(sorted),
{
    assert forall|i: int| 0 <= i < sorted.len() implies no_nul((#[trigger] sorted[i]).id@)
        && no_nul(sorted[i].description@) by {
        let priority = sorted[i].priority;
        let same = |repo: RepoEntry| repo.priority == priority;
        assert(of_priority(sorted, priority) == of_priority(repos, priority));
        sorted.lemma_filter_contains(same, i);
        assert(of_priority(repos, priority).contains(sorted[i]));
        repos.lemma_filter_contains_rev(same, sorted[i]);
        let j = choose|j: int| 0 <= j < repos.len() && repos[j] == sorted[i];
        assert(no_nul(repos[j].id@));
    }
}

/// Lists the configured repositories from the highest priority to the lowest, and reports the end
/// of the job. Where none is configured nothing is reported at all. The texts must not hold a
/// NUL.
pub fn backend_get_repo_list(repos: Vec<RepoEntry>) -> (signals: Option<Vec<JobSignal>>)
    requires
        repos_fit(repos@),
    ensures
        match signals {
            Some(signals) => repos@.len() > 0 && exists|sorted: Seq<RepoEntry>|
                is_by_priority(repos@, sorted) && signals_of(signals@) == #[trigger] repo_listing(
                    sorted,
                ),
            None => repos@.len() == 0,
        },
{
    if repos.len() == 0 {
        return None;
    }
    let ghost given = repos@;
    let sorted: Vec<RepoEntry> = sort_by_priority(repos);
    proof {
        sorted_fits(given, sorted@);
    }
    let mut signals: Vec<JobSignal> = Vec::new();
    let mut i: usize = 0;
    while i < sorted.len()
        invariant
            i <= sorted@.len(),
            repos_fit(sorted@),
            signals@.len() == i,
            forall|j: int| 0 <= j < i ==> (#[trigger] signals@[j])@ == repo_detail(sorted@[j]),
        decreases sorted@.len() - i,
    {
        let repo: &RepoEntry = &sorted[i];
        assert(no_nul(sorted@[i as int].id@));
        signals.push(
            JobSignal::RepoDetail {
                id: CText::known(repo.id.as_str()),
                description: CText::known(repo.description.as_str()),
                enabled: repo.active,
            },
        );
        i += 1;
    }
    signals.push(JobSignal::Finished);
    assert(signals_of(signals@) =~= repo_listing(sorted@));
    Some(signals)
}

proof fn filter_of_front(repos: Seq<RepoEntry>, priority: u64)
    requires
        repos.len() > 0,
    ensures
        of_priority(repos, priority) == if repos[0].priority == priority {
            seq![repos[0]] + of_priority(repos.drop_first(), priority)
        } else {
            of_priority(repos.drop_first(), priority)
        },
{
    let same = |repo: RepoEntry| repo.priority == priority;
    let head = seq![repos[0]];
    assert(repos =~= head + repos.drop_first());
    Seq::filter_distributes_over_add(head, repos.drop_first(), same);
    assert(head.filter(same) =~= if repos[0].priority == priority {
        head
    } else {
        Seq::<RepoEntry>::empty()
    }) by {
        reveal(Seq::filter);
        assert(head.drop_last() =~= Seq::<RepoEntry>::empty());
        assert(head.drop_last().filter(same) =~= Seq::<RepoEntry>::empty());
    }
    if repos[0].priority != priority {
        assert(Seq::<RepoEntry>::empty() + repos.drop_first().filter(same)
            =~= repos.drop_first().filter(same));
    }
}

proof fn front_is_highest(a: Seq<RepoEntry>, b: Seq<RepoEntry>)
    requires
        is_by_priority(b, a),
        is_by_priority(a, b),
        a.len() > 0,
    ensures
        b.len() > 0,
        b[0].priority >= a[0].priority,
{
    let priority = a[0].priority;
    let same = |repo: RepoEntry| repo.priority == priority;
    a.lemma_filter_contains(same, 0);
    assert(of_priority(a, priority) == of_priority(b, priority));
    assert(of_priority(b, priority).contains(a[0]));
    b.lemma_filter_contains_rev(same, a[0]);
    let j = choose|j: int| 0 <= j < b.len() && b[j] == a[0];
    if j > 0 {
        assert(b[0].priority >= b[j].priority);
    }
}

/// Only one sequence holds given repositories by priority.
pub proof fn by_priority_unique(
    repos: Seq<RepoEntry>,
    a: Seq<RepoEntry>,
    b: Seq<RepoEntry>,
)
    requires
        is_by_priority(repos, a),
        is_by_priority(repos, b),
    ensures
        a == b,
    decreases a.len(),
{
    assert forall|priority: u64| #[trigger]
        of_priority(a, priority) == of_priority(b, priority) by {
        assert(of_priority(a, priority) == of_priority(repos, priority));
        assert(of_priority(b, priority) == of_priority(repos, priority));
    }
    assert(is_by_priority(a, b));
    assert(is_by_priority(b, a));
    if a.len() == 0 {
        if b.len() > 0 {
            front_is_highest(b, a);
        }
        assert(a =~= b);
    } else {
        front_is_highest(a, b);
        front_is_highest(b, a);
        let priority = a[0].priority;
        let rest_a = a.drop_first();
        let rest_b = b.drop_first();
        filter_of_front(a, priority);
        filter_of_front(b, priority);
        assert(of_priority(a, priority) == of_priority(b, priority));
        assert(of_priority(a, priority)[0] == a[0]);
        assert(of_priority(b, priority)[0] == b[0]);
        assert forall|p: u64| #[trigger] of_priority(rest_b, p) == of_priority(rest_a, p) by {
            filter_of_front(a, p);
            filter_of_front(b, p);
            assert(of_priority(a, p) == of_priority(b, p));
            if p == priority {
                assert((seq![a[0]] + of_priority(rest_a, p)).drop_first() =~= of_priority(
                    rest_a,
                    p,
                ));
                assert((seq![b[0]] + of_priority(rest_b, p)).drop_first() =~= of_priority(
                    rest_b,
                    p,
                ));
            }
        }
        by_priority_unique(rest_a, rest_a, rest_b);
        assert(a =~= seq![a[0]] + rest_a);
        assert(b =~= seq![b[0]] + rest_b);
    }
}

/// A refresh only moves forward, and no repository of it is reported as the whole.
pub proof fn refresh_moves_forward(earlier: int, later: int, count: int)
    requires
        0 <= earlier <= later < count,
    ensures
        0 <= refreshed_share(earlier, count) <= refreshed_share(later, count) < 100,
{
    assert(0 <= 100 * earlier / count <= 100 * later / count < 100) by (nonlinear_arith)
        requires
            0 <= earlier <= later < count,
    ;
}

/// Exactly the positions that hold the id are to be switched, each once and in rising order.
pub proof fn targets_hold_the_id(ids: Seq<Seq<char>>, id: Seq<char>)
    requires
        ids.len() <= usize::MAX,
    ensures
        forall|at: usize|
            #![trigger positions_of(ids, id).contains(at)]
            positions_of(ids, id).contains(at) <==> at < ids.len() && ids[at as int] == id,
        forall|i: int, j: int|
            0 <= i < j < positions_of(ids, id).len() ==> #[trigger] positions_of(ids, id)[i]
                < #[trigger] positions_of(ids, id)[j],
    decreases ids.len(),
{
    let found = positions_of(ids, id);
    if ids.len() > 0 {
        let front = ids.drop_last();
        let before = positions_of(front, id);
        let last = (ids.len() - 1) as usize;
        targets_hold_the_id(front, id);
        assert forall|i: int| 0 <= i < before.len() implies #[trigger] before[i] < last by {
            assert(before.contains(before[i]));
        }
        if ids.last() == id {
            assert(found[before.len() as int] == last);
            assert forall|i: int, j: int| 0 <= i < j < found.len() implies #[trigger] found[i]
                < #[trigger] found[j] by {
                assert(found[i] == before[i]);
                if j < before.len() {
                    assert(found[j] == before[j]);
                }
            }
        }
        assert forall|at: usize| #[trigger] found.contains(at) <==> at < ids.len() && ids[at as int]
            == id by {
            if before.contains(at) {
                let i = choose|i: int| 0 <= i < before.len() && before[i] == at;
                assert(found[i] == at);
                assert(front[at as int] == ids[at as int]);
            }
            if found.contains(at) {
                let i = choose|i: int| 0 <= i < found.len() && found[i] == at;
                if i < before.len() {
                    assert(before[i] == at);
                    assert(before.contains(at));
                }
            }
            if at < ids.len() && ids[at as int] == id {
                if at < front.len() {
                    assert(front[at as int] == id);
                    assert(before.contains(at));
                } else {
                    assert(found[before.len() as int] == at);
                }
            }
        }
    }
}

/// A further outcome adds its error message and nothing else; a success adds nothing.
pub proof fn switch_errors_grow_one_by_one(outcomes: Seq<Option<String>>, outcome: Option<String>)
    ensures
        switch_errors(outcomes.push(outcome)) == match outcome {
            Some(message) => switch_errors(outcomes).push(
                SignalView::ErrorCode {
                    code: ErrorCode::RepoConfigurationError,
                    message: message@,
                },
            ),
            None => switch_errors(outcomes),
        },
        switch_errors(Seq::empty()).len() == 0,
{
    assert(outcomes.push(outcome).drop_last() =~= outcomes);
}

/// A switched repository reports its errors and then the end of the job; one that is not there
/// reports that, and then the end of the job.
pub proof fn switching_ends_the_job(id: Seq<char>, outcomes: Seq<Option<String>>)
    ensures
        repo_enable_report(id, outcomes).last() == SignalView::Finished,
        outcomes.len() > 0 ==> repo_enable_report(id, outcomes).drop_last() == switch_errors(
            outcomes,
        ),
        outcomes.len() == 0 ==> repo_enable_report(id, outcomes).drop_last() == seq![
            SignalView::ErrorCode {
                code: ErrorCode::RepoNotFound,
                message: "Failed to find repo: "@ + id,
            },
        ],
{
    let report = repo_enable_report(id, outcomes);
    if outcomes.len() > 0 {
        assert(report.drop_last() =~= switch_errors(outcomes));
    } else {
        assert(report.drop_last() =~= seq![
            SignalView::ErrorCode {
                code: ErrorCode::RepoNotFound,
                message: "Failed to find repo: "@ + id,
            },
        ]);
    }
}

/// The percentage of a refresh is its share of the hundred, rounded down.
pub proof fn refresh_share_is_rounded_down(index: int, count: int)
    requires
        0 <= index,
        0 < count,
    ensures
        index <= count ==> refreshed_share(index, count) * count <= 100 * index && 100 * index < (
        refreshed_share(index, count) + 1) * count,
        index > count ==> refreshed_share(index, count) == 100,
{
    if index <= count {
        let share = 100 * index / count;
        assert(share * count <= 100 * index && 100 * index < (share + 1) * count)
            by (nonlinear_arith)
            requires
                share == 100 * index / count,
                count > 0,
                index >= 0,
        ;
    }
}

/// A repository is added at the place that was asked for, with three dots for a description, the
/// priority zero, and active; without a place none is added.
pub proof fn new_repositories_start_plain(request: RepoDataRequest, place: Seq<char>)
    ensures
        asks_to_add(request, Some(place)) <==> {
            &&& request matches RepoDataRequest::Add { repository }
            &&& repository.uri@ == place
            &&& repository.description@ == "..."@
            &&& repository.priority == 0
            &&& repository.active
        },
        asks_to_add(request, None) <==> request is AddWithoutUri,
{
}

proof fn counted_within_a_priority(repos: Seq<RepoEntry>, repo: RepoEntry)
    ensures
        repos.to_multiset().count(repo) == of_priority(repos, repo.priority).to_multiset().count(
            repo,
        ),
    decreases repos.len(),
{
    let same = |other: RepoEntry| other.priority == repo.priority;
    let kept = of_priority(repos, repo.priority);
    reveal(Seq::filter);
    if repos.len() > 0 {
        let front = repos.drop_last();
        let front_kept = of_priority(front, repo.priority);
        counted_within_a_priority(front, repo);
        assert(repos =~= front.push(repos.last()));
        front.to_multiset_ensures();
        front_kept.to_multiset_ensures();
        assert(repos.to_multiset() =~= front.to_multiset().insert(repos.last()));
        if same(repos.last()) {
            assert(kept =~= front_kept.push(repos.last()));
            assert(kept.to_multiset() =~= front_kept.to_multiset().insert(repos.last()));
        } else {
            assert(kept =~= front_kept);
        }
    } else {
        assert(kept =~= repos);
    }
}

/// Sorting by priority loses, adds and doubles no repository, puts higher priorities first, and
/// leaves those of equal priority in their order.
pub proof fn sorting_keeps_every_repository(
    repos: Seq<RepoEntry>,
    sorted: Seq<RepoEntry>,
    priority: u64,
)
    requires
        is_by_priority(repos, sorted),
    ensures
        sorted.to_multiset() == repos.to_multiset(),
        sorted.len() == repos.len(),
        forall|i: int, j: int|
            0 <= i < j < sorted.len() ==> (#[trigger] sorted[i]).priority >= (
            #[trigger] sorted[j]).priority,
        sorted.filter(|repo: RepoEntry| repo.priority == priority) == repos.filter(
            |repo: RepoEntry| repo.priority == priority,
        ),
{
    assert forall|repo: RepoEntry| sorted.to_multiset().count(repo) == repos.to_multiset().count(
        repo,
    ) by {
        counted_within_a_priority(sorted, repo);
        counted_within_a_priority(repos, repo);
        assert(of_priority(sorted, repo.priority) == of_priority(repos, repo.priority));
    }
    assert(sorted.to_multiset() =~= repos.to_multiset());
    sorted.to_multiset_ensures();
    repos.to_multiset_ensures();
    assert(of_priority(sorted, priority) == of_priority(repos, priority));
}

/// A listing shows each repository once, with its id, its description and whether it is active,
/// and then the end of the job.
pub proof fn listings_show_every_repository(sorted: Seq<RepoEntry>, at: int)
    requires
        0 <= at < sorted.len(),
    ensures
        repo_listing(sorted).len() == sorted.len() + 1,
        repo_listing(sorted)[at] == (SignalView::RepoDetail {
            id: sorted[at].id@,
            description: sorted[at].description@,
            enabled: sorted[at].active,
        }),
        repo_listing(sorted).last() == SignalView::Finished,
{
}

/// Error messages and repositories fit C strings exactly if no text of theirs holds a NUL.
pub proof fn fitting_means_no_nul(outcomes: Seq<Option<String>>, repos: Seq<RepoEntry>)
    ensures
        messages_fit(outcomes) <==> forall|i: int|
            0 <= i < outcomes.len() ==> (#[trigger] outcomes[i] matches Some(message)
                ==> !message@.contains('\0')),
        repos_fit(repos) <==> forall|i: int|
            0 <= i < repos.len() ==> !(#[trigger] repos[i]).id@.contains('\0')
                && !repos[i].description@.contains('\0'),
{
    assert forall|i: int| 0 <= i < outcomes.len() && (#[trigger] outcomes[i]) is Some implies no_nul(
        outcomes[i]->0@,
    ) == !outcomes[i]->0@.contains('\0') by {
        no_nul_means_no_nul(outcomes[i]->0@);
    }
    assert forall|i: int| 0 <= i < repos.len() implies no_nul((#[trigger] repos[i]).id@)
        == !repos[i].id@.contains('\0') && no_nul(repos[i].description@)
        == !repos[i].description@.contains('\0') by {
        no_nul_means_no_nul(repos[i].id@);
        no_nul_means_no_nul(repos[i].description@);
    }
}

} // verus!
