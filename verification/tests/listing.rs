use pk_backend_moss::emit::{moss_emit_package_list, package_signal, package_signals};
use pk_backend_moss::local::LayoutFile;
use pk_backend_moss::package::{Flags, Package};
use pk_backend_moss::search::{
    backend_get_packages, backend_resolve, backend_search_details, backend_search_names,
    present_packages, search_files, OwnedFile,
};
use pk_backend_moss::signals::{ErrorCode, Info, JobSignal, PackageEntry};
use pk_backend_moss::text::CText;
use pk_backend_moss::updates::backend_get_updates;

fn package(id: &str, name: &str, installed: bool) -> Package {
    Package {
        id: id.to_string(),
        name: name.to_string(),
        version_identifier: "1".to_string(),
        source_release: 1,
        architecture: "x86_64".to_string(),
        summary: format!("summary of {}", name),
        description: String::new(),
        homepage: String::new(),
        licenses: Vec::new(),
        download_size: None,
        origin: None,
        flags: Flags { installed, available: !installed },
    }
}

fn release(id: &str, name: &str, source_release: u64) -> Package {
    let mut package = package(id, name, false);
    package.source_release = source_release;
    package
}

fn ids(packages: &Vec<&Package>) -> Vec<String> {
    packages.iter().map(|p| p.id.clone()).collect()
}

fn terms(list: &[&str]) -> Vec<CText> {
    list.iter().map(|term| CText::known(term)).collect()
}

fn shown(entry: &PackageEntry) -> (Info, &str, &str) {
    (entry.info, entry.id.as_str(), entry.summary.as_str())
}

const NEWEST: u64 = 1 << 16;

#[test]
fn packages_are_listed_together() {
    let a = package("1", "a", true);
    let b = package("2", "b", false);
    let mut remote = package("3", "a", false);
    remote.origin = Some("volatile".to_string());
    let run = moss_emit_package_list(&vec![&a, &b], &vec![Some(&remote), None], &vec![true, true]);
    assert!(run.fault.is_none());
    assert_eq!(run.signals.len(), 1);
    match &run.signals[0] {
        JobSignal::Packages { entries } => {
            assert_eq!(entries.len(), 2);
            assert_eq!(
                shown(&entries[0]),
                (Info::Installed, "a;1;x86_64;installed:volatile", "summary of a"),
            );
            assert_eq!(
                shown(&entries[1]),
                (Info::Available, "b;1;x86_64;unknown", "summary of b"),
            );
        }
        _ => panic!("not a list of packages"),
    }
}

#[test]
fn invalid_ids_are_reported_before_the_list() {
    let a = package("1", "a", true);
    let bad = package("2", "b;c", true);
    let nameless = package("3", "", true);
    let run = moss_emit_package_list(
        &vec![&bad, &a, &nameless],
        &vec![None, None, None],
        &vec![false, true, false],
    );
    assert!(run.fault.is_none());
    assert_eq!(run.signals.len(), 3);
    match (&run.signals[0], &run.signals[1], &run.signals[2]) {
        (
            JobSignal::InvalidId { code, lead, id: first },
            JobSignal::InvalidId { id: second, .. },
            JobSignal::Packages { entries },
        ) => {
            assert_eq!(*code, ErrorCode::PackageIdInvalid);
            assert_eq!(lead.as_str(), "Failed to set package ID: ");
            assert_eq!(first.as_str(), "b;c;1;x86_64;installed");
            assert_eq!(second.as_str(), ";1;x86_64;installed");
            // Two reported and one listed: all three are accounted for.
            assert_eq!(entries.len(), 1);
        }
        _ => panic!("not two invalid ids and a list"),
    }
}

#[test]
fn empty_lists_are_not_sent() {
    let run = moss_emit_package_list(&Vec::new(), &Vec::new(), &Vec::new());
    assert!(run.signals.is_empty() && run.fault.is_none());
    let bad = package("2", "b;c", true);
    let run = moss_emit_package_list(&vec![&bad], &vec![None], &vec![false]);
    assert_eq!(run.signals.len(), 1);
    assert!(matches!(run.signals[0], JobSignal::InvalidId { .. }));
}

#[test]
fn a_nul_breaks_a_list_off() {
    let a = package("1", "a", true);
    let mut broken = package("2", "b", true);
    broken.summary = "s\0".to_string();
    let bad = package("3", "b;c", true);
    let run = moss_emit_package_list(
        &vec![&bad, &a, &broken, &bad],
        &vec![None, None, None, None],
        &vec![false, true, true, false],
    );
    assert_eq!(run.fault.unwrap().text, "s\0");
    assert_eq!(run.signals.len(), 1);
    broken.name = "b\0".to_string();
    let run = moss_emit_package_list(&vec![&broken], &vec![None], &vec![true]);
    assert_eq!(run.fault.unwrap().text, "b\0");
    // The summary of a package that cannot be listed is never looked at.
    broken.name = "b;c".to_string();
    let run = moss_emit_package_list(&vec![&broken], &vec![None], &vec![false]);
    assert!(run.fault.is_none());
}

#[test]
fn the_daemon_decides_which_ids_are_listed() {
    let odd = package("1", "b;c", true);
    let plain = package("2", "b", true);
    let run = moss_emit_package_list(&vec![&odd, &plain], &vec![None, None], &vec![true, false]);
    assert_eq!(run.signals.len(), 2);
    match (&run.signals[0], &run.signals[1]) {
        (JobSignal::InvalidId { id, .. }, JobSignal::Packages { entries }) => {
            assert_eq!(id.as_str(), "b;1;x86_64;installed");
            assert_eq!(entries.len(), 1);
            assert_eq!(entries[0].id.as_str(), "b;c;1;x86_64;installed");
        }
        _ => panic!("not an invalid id and a list"),
    }
}

#[test]
fn single_packages_follow_each_other() {
    let a = package("1", "a", true);
    let b = package("2", "b", false);
    let run = package_signals(Info::Normal, &vec![&a, &b], &vec![None, None]);
    assert!(run.fault.is_none());
    assert_eq!(run.signals.len(), 2);
    match &run.signals[1] {
        JobSignal::Package { entry } => {
            assert_eq!(shown(entry), (Info::Normal, "b;1;x86_64;unknown", "summary of b"));
        }
        _ => panic!("not a package"),
    }
}

#[test]
fn single_packages_stop_at_a_nul() {
    let a = package("1", "a", true);
    let mut broken = package("2", "b", false);
    broken.summary = "s\0".to_string();
    let run = package_signals(Info::Normal, &vec![&a, &broken, &a], &vec![None, None, None]);
    assert_eq!(run.signals.len(), 1);
    assert_eq!(run.fault.unwrap().text, "s\0");
    broken.architecture = "x\0".to_string();
    match package_signal(Info::Normal, &broken, None) {
        Ok(_) => panic!("a NUL in the architecture"),
        Err(e) => assert_eq!(e.text, "x\0"),
    }
}

#[test]
fn each_name_is_listed_once() {
    let list =
        vec![package("1", "a", true), package("2", "b", false), package("3", "a", false)];
    let listed = backend_get_packages(0, list.iter().collect());
    assert_eq!(ids(&listed), vec!["1", "2"]);
    let listed = backend_get_packages(NEWEST, list.iter().collect());
    assert_eq!(ids(&listed), vec!["1", "2", "3"]);
    let listed = backend_get_packages(1 << 17, list.iter().collect());
    assert_eq!(ids(&listed), vec!["1", "2", "3"]);
}

#[test]
fn resolving_needs_the_exact_name() {
    let list = vec![package("1", "fox", true), package("2", "firefox", true)];
    let answers = vec![list.iter().collect()];
    let found = backend_resolve(0, &terms(&["fox"]), &answers);
    assert_eq!(ids(&found), vec!["1"]);
    assert!(backend_resolve(0, &terms(&["fo"]), &answers).is_empty());
}

#[test]
fn installed_packages_hide_offered_ones() {
    let list = vec![
        package("0", "fox", false),
        package("1", "fox", true),
        package("1", "fox", false),
        package("2", "fox", false),
    ];
    let answers: Vec<Vec<&Package>> = vec![list.iter().collect()];
    let found = backend_resolve(0, &terms(&["fox"]), &answers);
    assert_eq!(ids(&found), vec!["0", "1", "2"]);
    assert!(found[1].flags.installed);
    let found = backend_resolve(NEWEST, &terms(&["fox"]), &answers);
    assert_eq!(ids(&found), vec!["0", "1", "1", "2"]);
}

#[test]
fn a_package_without_marks_is_never_hidden() {
    let mut bare = package("1", "fox", false);
    bare.flags.available = false;
    let list = vec![package("1", "fox", true), bare];
    let answers = vec![list.iter().collect()];
    assert_eq!(backend_resolve(0, &terms(&["fox"]), &answers).len(), 2);
}

#[test]
fn hiding_reaches_over_terms() {
    let installed = package("1", "fox", true);
    let offered = package("1", "fox", false);
    let answers = vec![vec![&installed], vec![&offered]];
    assert_eq!(backend_resolve(0, &terms(&["fox", "fox"]), &answers).len(), 1);
}

#[test]
fn name_search_finds_parts() {
    let list =
        vec![package("1", "firefox", true), package("2", "foxtrot", false), package("3", "nano", true)];
    let answers: Vec<Vec<&Package>> = vec![list.iter().collect(), list.iter().collect()];
    let found = backend_search_names(0, &terms(&["fox", "fire"]), &answers);
    assert_eq!(ids(&found), vec!["1", "2"]);
    let found = backend_search_names(NEWEST, &terms(&["fox", "fire"]), &answers);
    assert_eq!(ids(&found), vec!["1", "2", "1"]);
}

#[test]
fn details_search_reads_summary_and_description() {
    let mut described = package("2", "b", true);
    described.description = "edits text".to_string();
    let list = vec![package("1", "text", true), described, package("3", "c", true)];
    let answers: Vec<Vec<&Package>> = vec![list.iter().collect()];
    let found = backend_search_details(0, &terms(&["text"]), &answers);
    assert_eq!(ids(&found), vec!["1", "2"]);
    assert!(backend_search_details(0, &terms(&["nothing"]), &answers).is_empty());
}

#[test]
fn file_search_counts_every_term() {
    let files = vec![
        OwnedFile {
            package_id: "1".to_string(),
            file: LayoutFile::Regular("bin/moss".to_string()),
        },
        OwnedFile { package_id: "2".to_string(), file: LayoutFile::Other },
        OwnedFile {
            package_id: "3".to_string(),
            file: LayoutFile::Directory("share/moss".to_string()),
        },
        OwnedFile {
            package_id: "4".to_string(),
            file: LayoutFile::Symlink("lib/x".to_string()),
        },
    ];
    assert_eq!(search_files(&files, &terms(&["moss", "bin/"])), vec!["1", "1", "3"]);
    assert_eq!(search_files(&files, &terms(&["lib"])), vec!["4"]);
    assert!(search_files(&files, &terms(&["none"])).is_empty());
}

#[test]
fn missing_answers_are_left_out() {
    let a = package("1", "a", true);
    let b = package("2", "b", true);
    assert_eq!(ids(&present_packages(&vec![Some(&a), None, Some(&b)])), vec!["1", "2"]);
}

#[test]
fn updates_are_sorted_and_newer() {
    let installed = vec![
        release("i1", "zlib", 3),
        release("i2", "bash", 1),
        release("i3", "nano", 5),
        release("i4", "gone", 1),
        release("i5", "bash", 1),
    ];
    let available = vec![
        release("a1", "nano", 5),
        release("a2", "bash", 2),
        release("a3", "zlib", 4),
        release("a4", "bash", 9),
        release("a5", "nano", 6),
    ];
    let updates =
        backend_get_updates(&installed.iter().collect(), &available.iter().collect());
    assert_eq!(ids(&updates), vec!["a2", "a3"]);
    for update in &updates {
        assert!(installed
            .iter()
            .any(|p| p.name == update.name && p.source_release < update.source_release));
    }
}

#[test]
fn only_the_first_offer_counts() {
    let installed = vec![release("i1", "nano", 5)];
    let available = vec![release("a1", "nano", 4), release("a2", "nano", 6)];
    assert!(backend_get_updates(&installed.iter().collect(), &available.iter().collect())
        .is_empty());
}
