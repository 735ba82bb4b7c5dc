use std::cmp::Ordering;

use pk_backend_moss::repos::{
    add_request, backend_get_repo_list, failed_initialization_signals, messages_fit_c_strings,
    priority_order, read_repo_data, refresh_percentage, refresh_signal, refresh_start_signal,
    repo_added_signals, repo_data_request, repo_enable_signals, repo_enable_targets,
    repo_removed_signals, repo_switch, repos_fit_c_strings, unsupported_request_signals,
    RepoDataRequest, RepoEntry, RepoSwitch,
};
use pk_backend_moss::signals::{ErrorCode, JobSignal, Status};

fn repo(id: &str, priority: u64, active: bool) -> RepoEntry {
    RepoEntry {
        id: id.to_string(),
        description: format!("about {}", id),
        priority,
        active,
    }
}

fn error(signal: &JobSignal) -> (ErrorCode, &str) {
    match signal {
        JobSignal::ErrorCode { code, message } => (*code, message.as_str()),
        _ => panic!("not an error message"),
    }
}

fn ends(signals: &Vec<JobSignal>) -> bool {
    matches!(signals.last(), Some(JobSignal::Finished))
}

#[test]
fn refresh_counts_from_nothing() {
    assert_eq!(refresh_percentage(0, 3), 0);
    assert_eq!(refresh_percentage(1, 3), 33);
    assert_eq!(refresh_percentage(2, 3), 66);
    assert_eq!(refresh_percentage(3, 3), 100);
    assert_eq!(refresh_percentage(4, 3), 100);
    assert_eq!(refresh_percentage(1, 0), 100);
}

#[test]
fn refresh_never_moves_back() {
    let mut reached = 0;
    for index in 0..7 {
        let percentage = refresh_percentage(index, 7);
        assert!(reached <= percentage && percentage < 100);
        reached = percentage;
    }
}

#[test]
fn refresh_reports_progress_or_an_error() {
    assert!(matches!(
        refresh_start_signal(),
        JobSignal::SetStatus { status: Status::RefreshCache }
    ));
    match refresh_signal(1, 2, Ok(())) {
        Ok(JobSignal::SetPercentage { percentage }) => assert_eq!(percentage, 50),
        _ => panic!("not a percentage"),
    }
    match refresh_signal(1, 2, Err("offline")) {
        Ok(signal) => assert_eq!(error(&signal), (ErrorCode::RepoConfigurationError, "offline")),
        Err(_) => panic!("refused"),
    }
    match refresh_signal(1, 2, Err("off\0line")) {
        Ok(_) => panic!("a NUL in the message"),
        Err(e) => assert_eq!(e.text, "off\0line"),
    }
}

#[test]
fn unreadable_repositories_end_the_job() {
    let signals = failed_initialization_signals("no config");
    assert_eq!(signals.len(), 2);
    assert_eq!(error(&signals[0]), (ErrorCode::FailedInitialization, "no config"));
    assert!(ends(&signals));
}

#[test]
fn any_value_but_zero_enables() {
    assert_eq!(repo_switch(1), RepoSwitch::Enable);
    assert_eq!(repo_switch(-1), RepoSwitch::Enable);
    assert_eq!(repo_switch(0), RepoSwitch::Disable);
}

#[test]
fn every_place_of_a_repository_is_switched() {
    let ids = vec!["a".to_string(), "b".to_string(), "a".to_string()];
    assert_eq!(repo_enable_targets(&ids, "a"), vec![0, 2]);
    assert_eq!(repo_enable_targets(&ids, "b"), vec![1]);
    assert!(repo_enable_targets(&ids, "c").is_empty());
}

#[test]
fn switching_reports_errors() {
    let outcomes = vec![None, Some("locked".to_string()), None, Some("again".to_string())];
    let signals = repo_enable_signals("a", &outcomes);
    assert_eq!(signals.len(), 3);
    assert_eq!(error(&signals[0]), (ErrorCode::RepoConfigurationError, "locked"));
    assert_eq!(error(&signals[1]), (ErrorCode::RepoConfigurationError, "again"));
    assert!(ends(&signals));
    let signals = repo_enable_signals("a", &vec![None]);
    assert_eq!(signals.len(), 1);
    assert!(ends(&signals));
}

#[test]
fn switching_an_unknown_repository() {
    let signals = repo_enable_signals("a", &Vec::new());
    assert_eq!(signals.len(), 2);
    assert_eq!(error(&signals[0]), (ErrorCode::RepoNotFound, "Failed to find repo: a"));
    assert!(ends(&signals));
}

#[test]
fn messages_must_fit() {
    assert!(messages_fit_c_strings(&vec![None, Some("a".to_string())]));
    assert!(!messages_fit_c_strings(&vec![None, Some("\0".to_string())]));
}

#[test]
fn adding_normalizes_the_url() {
    match repo_data_request("add", "HTTPS://Example.COM/a/../stone.index") {
        RepoDataRequest::Add { repository } => {
            assert_eq!(repository.description, "...");
            assert_eq!(repository.uri, "https://example.com/stone.index");
            assert_eq!(repository.priority, 0);
            assert!(repository.active);
        }
        _ => panic!("not a request to add"),
    }
    match repo_data_request("add", "https://example.com") {
        RepoDataRequest::Add { repository } => assert_eq!(repository.uri, "https://example.com/"),
        _ => panic!("not a request to add"),
    }
}

#[test]
fn adding_needs_a_url() {
    assert!(matches!(repo_data_request("add", "not a url"), RepoDataRequest::AddWithoutUri));
    assert!(matches!(add_request(None), RepoDataRequest::AddWithoutUri));
    match add_request(Some("file:///x".to_string())) {
        RepoDataRequest::Add { repository } => assert_eq!(repository.uri, "file:///x"),
        _ => panic!("not a request to add"),
    }
}

#[test]
fn other_parameters() {
    assert!(matches!(repo_data_request("remove", ""), RepoDataRequest::Remove));
    assert!(matches!(repo_data_request("rename", "x"), RepoDataRequest::Unsupported));
    assert!(matches!(repo_data_request("", ""), RepoDataRequest::Unsupported));
    assert!(matches!(repo_data_request("Add", "https://a"), RepoDataRequest::Unsupported));
}

#[test]
fn repo_data_is_read_from_c_strings() {
    let id = b"volatile\0".to_vec();
    let remove = b"remove\0".to_vec();
    let empty = b"\0".to_vec();
    let broken = vec![0xff, 0];
    let data = read_repo_data(&id, &remove, &empty).unwrap();
    assert_eq!(data.id.as_str(), "volatile");
    assert!(matches!(data.request, RepoDataRequest::Remove));
    assert!(read_repo_data(&broken, &remove, &empty).is_none());
    assert!(read_repo_data(&id, &broken, &empty).is_none());
    assert!(read_repo_data(&id, &remove, &broken).is_none());
    let data = read_repo_data(&id, &b"add\0".to_vec(), &b"http://h\0".to_vec()).unwrap();
    match data.request {
        RepoDataRequest::Add { repository } => assert_eq!(repository.uri, "http://h/"),
        _ => panic!("not a request to add"),
    }
}

#[test]
fn added_repositories_end_the_job() {
    let signals = repo_added_signals(Some("offline"));
    assert_eq!(signals.len(), 2);
    assert_eq!(error(&signals[0]), (ErrorCode::RepoNotFound, "offline"));
    assert!(ends(&signals));
    let signals = repo_added_signals(None);
    assert_eq!(signals.len(), 1);
    assert!(ends(&signals));
}

#[test]
fn removed_repositories_end_the_job() {
    let signals = repo_removed_signals("volatile", false);
    assert_eq!(signals.len(), 2);
    assert_eq!(
        error(&signals[0]),
        (ErrorCode::RepoNotFound, "Repository id: volatile was not found"),
    );
    assert!(ends(&signals));
    let signals = repo_removed_signals("volatile", true);
    assert_eq!(signals.len(), 1);
    assert!(ends(&signals));
}

#[test]
fn unsupported_requests_name_the_parameters() {
    let signals = unsupported_request_signals();
    assert_eq!(signals.len(), 2);
    assert_eq!(
        error(&signals[0]),
        (
            ErrorCode::NotSupported,
            "Valid parameters for set_repo_data are: add and, remove",
        ),
    );
    assert!(ends(&signals));
}

#[test]
fn higher_priorities_come_first() {
    assert_eq!(priority_order(&repo("a", 2, true), &repo("b", 1, true)), Ordering::Less);
    assert_eq!(priority_order(&repo("a", 1, true), &repo("b", 1, true)), Ordering::Equal);
    assert_eq!(priority_order(&repo("a", 0, true), &repo("b", 1, true)), Ordering::Greater);
}

#[test]
fn repositories_are_listed_by_priority() {
    let repos = vec![
        repo("low", 0, true),
        repo("first", 10, false),
        repo("second", 10, true),
        repo("top", 20, true),
    ];
    let signals = backend_get_repo_list(repos).unwrap();
    assert_eq!(signals.len(), 5);
    let mut listed = Vec::new();
    for signal in &signals[..4] {
        match signal {
            JobSignal::RepoDetail { id, description, enabled } => {
                assert_eq!(description.as_str(), format!("about {}", id.as_str()));
                listed.push((id.as_str(), *enabled));
            }
            _ => panic!("not a repository"),
        }
    }
    assert_eq!(
        listed,
        vec![("top", true), ("first", false), ("second", true), ("low", true)],
    );
    assert!(ends(&signals));
}

#[test]
fn no_repositories_no_report() {
    assert!(backend_get_repo_list(Vec::new()).is_none());
}

#[test]
fn repository_texts_must_fit() {
    assert!(repos_fit_c_strings(&vec![repo("a", 0, true)]));
    assert!(!repos_fit_c_strings(&vec![repo("a", 0, true), repo("b\0", 0, true)]));
}
