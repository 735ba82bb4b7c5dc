use pk_backend_moss::details::{details_signal, update_detail_signal};
use pk_backend_moss::files::{
    download_signal, file_paths, files_signal, fit_c_strings, package_files_signal, FileEntry,
};
use pk_backend_moss::local::{
    layout_target, local_details_signal, local_package_id, local_paths, read_local_package,
    LayoutFile, MetaRecord, MetaTag, Payload, Primitive,
};
use pk_backend_moss::package::{Flags, Package};
use pk_backend_moss::package_id::pk_package_id_build;
use pk_backend_moss::signals::{
    checked_error_signal, error_signal, package_not_found, pk_err, quoted_not_found, ErrorCode,
    Group, JobSignal, Restart, UpdateState, UNKNOWN_SIZE,
};
use pk_backend_moss::text::{CText, NulError};

fn firefox() -> Package {
    Package {
        id: "1".to_string(),
        name: "firefox".to_string(),
        version_identifier: "140".to_string(),
        source_release: 1,
        architecture: "x86_64".to_string(),
        summary: "A browser".to_string(),
        description: "Browses the web".to_string(),
        homepage: "https://firefox.com".to_string(),
        licenses: vec!["MPL-2.0".to_string(), "GPL-2.0-only".to_string()],
        download_size: Some(77),
        origin: None,
        flags: Flags { installed: true, available: false },
    }
}

const ID: &str = "firefox;140;x86_64;installed";

fn error_of(result: Result<JobSignal, NulError>) -> (ErrorCode, String) {
    match result {
        Ok(JobSignal::ErrorCode { code, message }) => (code, message.as_str().to_string()),
        _ => panic!("not an error message"),
    }
}

fn refused(result: Result<JobSignal, NulError>) -> String {
    match result {
        Ok(_) => panic!("not refused"),
        Err(e) => e.text,
    }
}

fn files_of(signal: &JobSignal) -> (String, Vec<Vec<u8>>) {
    match signal {
        JobSignal::Files { id, files } => (
            id.as_str().to_string(),
            files.as_ptr().iter().flatten().map(|at| files.cstring(*at).clone()).collect(),
        ),
        _ => panic!("not a list of files"),
    }
}

#[test]
fn details_name_the_first_license() {
    let package = firefox();
    match details_signal(&CText::known(ID), Some(&package)) {
        Ok(JobSignal::Details {
            id,
            summary,
            license,
            description,
            url,
            group,
            size,
            download_size,
        }) => {
            assert_eq!(group, Group::Unknown);
            assert_eq!(id.as_str(), ID);
            assert_eq!(summary.as_str(), "A browser");
            assert_eq!(license.as_str(), "MPL-2.0");
            assert_eq!(description.as_str(), "Browses the web");
            assert_eq!(url.as_str(), "https://firefox.com");
            assert_eq!(size, u64::MAX);
            assert_eq!(download_size, 77);
        }
        _ => panic!("not details"),
    }
}

#[test]
fn details_without_a_size() {
    let mut package = firefox();
    package.download_size = None;
    match details_signal(&CText::known(ID), Some(&package)) {
        Ok(JobSignal::Details { download_size, .. }) => assert_eq!(download_size, UNKNOWN_SIZE),
        _ => panic!("not details"),
    }
}

#[test]
fn details_refuse_the_first_text_with_a_nul() {
    let mut package = firefox();
    package.homepage = "h\0".to_string();
    assert_eq!(refused(details_signal(&CText::known(ID), Some(&package))), "h\0");
    package.description = "d\0".to_string();
    assert_eq!(refused(details_signal(&CText::known(ID), Some(&package))), "d\0");
    package.licenses = vec!["l\0".to_string()];
    assert_eq!(refused(details_signal(&CText::known(ID), Some(&package))), "l\0");
    package.summary = "s\0".to_string();
    assert_eq!(refused(details_signal(&CText::known(ID), Some(&package))), "s\0");
}

#[test]
fn packages_that_are_not_found_are_reported() {
    let other = "firefox;141;x86_64;installed";
    let message = "Failed to find package \"firefox;141;x86_64;installed\"".to_string();
    let package = firefox();
    let expected = (ErrorCode::PackageNotFound, message);
    assert_eq!(error_of(details_signal(&CText::known(other), Some(&package))), expected);
    assert_eq!(error_of(details_signal(&CText::known(other), None)), expected);
    assert_eq!(error_of(Ok(update_detail_signal(&CText::known(other), Some(&package)))), expected);
    let entries = Vec::new();
    assert_eq!(error_of(Ok(package_files_signal(&CText::known(other), None, &entries))), expected);
}

#[test]
fn ids_are_quoted_with_escapes() {
    assert_eq!(
        error_of(Ok(package_not_found(&CText::known("say \"hi\"\\\n")))),
        (ErrorCode::PackageNotFound, "Failed to find package \"say \\\"hi\\\"\\\\\\n\"".to_string()),
    );
    assert_eq!(
        error_of(Ok(quoted_not_found("x"))),
        (ErrorCode::PackageNotFound, "Failed to find package x".to_string()),
    );
}

#[test]
fn every_missing_id_is_reported() {
    for id in ["", "ä;\u{7f};€;𝄞", "\u{1}\t'", "\u{200b}\u{301}"] {
        let (code, message) = error_of(details_signal(&CText::known(id), None));
        assert_eq!(code, ErrorCode::PackageNotFound);
        assert_eq!(message, format!("Failed to find package {:?}", id));
    }
}

#[test]
fn update_detail_names_the_package() {
    let package = firefox();
    match update_detail_signal(&CText::known(ID), Some(&package)) {
        JobSignal::UpdateDetail { id, detail } => {
            assert_eq!(id.as_str(), ID);
            assert_eq!(detail.restart, Restart::Nothing);
            assert_eq!(detail.state, UpdateState::Unknown);
            assert!(detail.updates.is_none() && detail.obsoletes.is_none());
            assert!(detail.vendor_urls.is_none() && detail.bugzilla_urls.is_none());
            assert!(detail.cve_urls.is_none() && detail.update_text.is_none());
            assert!(detail.changelog.is_none());
            assert!(detail.issued.is_none() && detail.updated.is_none());
        }
        _ => panic!("not an update detail"),
    }
}

#[test]
fn internal_errors_have_a_message() {
    match pk_err("disk full") {
        JobSignal::ErrorCode { code, message } => {
            assert_eq!(code, ErrorCode::InternalError);
            assert_eq!(message.as_str(), "disk full");
        }
        _ => panic!("not an error message"),
    }
    match pk_err("disk\0full") {
        JobSignal::ErrorCode { message, .. } => assert_eq!(message.as_str(), "unknown error"),
        _ => panic!("not an error message"),
    }
}

#[test]
fn error_messages_carry_their_code() {
    let signal = error_signal(ErrorCode::NotSupported, "no");
    assert_eq!(error_of(Ok(signal)), (ErrorCode::NotSupported, "no".to_string()));
    let signal = checked_error_signal(ErrorCode::FailedInitialization, "no");
    assert_eq!(error_of(signal), (ErrorCode::FailedInitialization, "no".to_string()));
    assert_eq!(refused(checked_error_signal(ErrorCode::FailedInitialization, "n\0")), "n\0");
}

#[test]
fn files_leave_directories_out() {
    let entries = vec![
        FileEntry { path: "/usr/bin".to_string(), directory: true },
        FileEntry { path: "/usr/bin/moss".to_string(), directory: false },
        FileEntry { path: "/usr/share/doc".to_string(), directory: false },
    ];
    assert_eq!(file_paths(&entries), vec!["/usr/bin/moss", "/usr/share/doc"]);
    let package = firefox();
    assert_eq!(
        files_of(&package_files_signal(&CText::known(ID), Some(&package), &entries)),
        (ID.to_string(), vec![b"/usr/bin/moss\0".to_vec(), b"/usr/share/doc\0".to_vec()]),
    );
}

#[test]
fn files_are_encoded() {
    let paths = vec!["/usr/ä".to_string()];
    assert!(fit_c_strings(&paths));
    assert!(!fit_c_strings(&vec!["a".to_string(), "b\0".to_string()]));
    let signal = files_signal(&CText::known("i"), &paths);
    assert_eq!(
        files_of(&signal),
        ("i".to_string(), vec![vec![b'/', b'u', b's', b'r', b'/', 0xc3, 0xa4, 0]]),
    );
}

#[test]
fn downloads_end_in_files_or_an_error() {
    let paths = vec!["./firefox.stone".to_string()];
    match download_signal(&CText::known(ID), Ok(&paths)) {
        Ok(signal) => assert_eq!(files_of(&signal).1, vec![b"./firefox.stone\0".to_vec()]),
        Err(_) => panic!("refused"),
    }
    assert_eq!(
        error_of(download_signal(&CText::known(ID), Err("timeout"))),
        (ErrorCode::PackageDownloadFailed, "timeout".to_string()),
    );
    assert_eq!(refused(download_signal(&CText::known(ID), Err("time\0"))), "time\0");
}

fn text(tag: MetaTag, value: &str) -> MetaRecord {
    MetaRecord { tag, primitive: Primitive::Text(value.to_string()) }
}

fn stone() -> Vec<Option<Payload>> {
    vec![
        Some(Payload::Meta(vec![
            text(MetaTag::Name, "old"),
            text(MetaTag::Name, "nano"),
            MetaRecord { tag: MetaTag::Name, primitive: Primitive::Uint64(1) },
            text(MetaTag::Version, "8.1"),
            text(MetaTag::Architecture, "x86_64"),
            text(MetaTag::Other, "ignored"),
            text(MetaTag::PackageSize, "ignored"),
        ])),
        None,
        Some(Payload::Layout(vec![LayoutFile::Regular("bin/old".to_string())])),
        Some(Payload::Meta(vec![
            text(MetaTag::Summary, "An editor"),
            text(MetaTag::License, "GPL-3.0-or-later"),
            text(MetaTag::Description, "Edits"),
            text(MetaTag::Homepage, "https://nano"),
            MetaRecord { tag: MetaTag::PackageSize, primitive: Primitive::Uint64(9) },
            MetaRecord { tag: MetaTag::Summary, primitive: Primitive::Other },
        ])),
        Some(Payload::Layout(vec![
            LayoutFile::Regular("bin/nano".to_string()),
            LayoutFile::Directory("share/nano".to_string()),
            LayoutFile::Other,
            LayoutFile::Symlink("bin/pico".to_string()),
        ])),
        Some(Payload::Other),
    ]
}

#[test]
fn last_fitting_record_counts() {
    let package = read_local_package(&stone());
    assert_eq!(package.name.as_deref(), Some("nano"));
    assert_eq!(package.version.as_deref(), Some("8.1"));
    assert_eq!(package.architecture.as_deref(), Some("x86_64"));
    assert_eq!(package.summary.as_deref(), Some("An editor"));
    assert_eq!(package.license.as_deref(), Some("GPL-3.0-or-later"));
    assert_eq!(package.description.as_deref(), Some("Edits"));
    assert_eq!(package.homepage.as_deref(), Some("https://nano"));
    assert_eq!(package.download_size, Some(9));
    assert!(package.is_complete());
    assert!(package.is_identified());
}

#[test]
fn unreadable_packages_are_incomplete() {
    let package = read_local_package(&vec![None, Some(Payload::Other)]);
    assert!(package.name.is_none());
    assert!(package.download_size.is_none());
    assert!(!package.is_complete());
    assert!(!package.is_identified());
}

#[test]
fn local_details_follow_the_records() {
    match local_details_signal(&read_local_package(&stone())) {
        Ok(JobSignal::Details {
            id,
            summary,
            license,
            description,
            url,
            group,
            size,
            download_size,
        }) => {
            assert_eq!(group, Group::Unknown);
            assert_eq!(id.as_str(), "nano;8.1;x86_64;local");
            assert_eq!(summary.as_str(), "An editor");
            assert_eq!(license.as_str(), "GPL-3.0-or-later");
            assert_eq!(description.as_str(), "Edits");
            assert_eq!(url.as_str(), "https://nano");
            assert_eq!(size, UNKNOWN_SIZE);
            assert_eq!(download_size, 9);
        }
        _ => panic!("not details"),
    }
}

#[test]
fn local_ids_have_the_order_of_every_id() {
    let payloads = vec![Some(Payload::Meta(vec![
        text(MetaTag::Name, "firefox"),
        text(MetaTag::Version, "140.0.4-367"),
        text(MetaTag::Architecture, "x86_64"),
        text(MetaTag::Summary, "s"),
        text(MetaTag::License, "l"),
        text(MetaTag::Description, "d"),
        text(MetaTag::Homepage, "h"),
    ]))];
    let expected = pk_package_id_build("firefox", "140.0.4-367", "x86_64", "local");
    let package = read_local_package(&payloads);
    match local_details_signal(&package) {
        Ok(JobSignal::Details { id, download_size, .. }) => {
            assert_eq!(id.as_str(), expected);
            assert_eq!(download_size, UNKNOWN_SIZE);
        }
        _ => panic!("not details"),
    }
    let signal = files_signal(&local_package_id(&package), &local_paths(&payloads));
    assert_eq!(files_of(&signal), (expected, Vec::new()));
}

#[test]
fn local_details_refuse_a_nul() {
    let mut package = read_local_package(&stone());
    package.license = Some("l\0".to_string());
    assert_eq!(refused(local_details_signal(&package)), "l\0");
    package.architecture = Some("a\0".to_string());
    assert_eq!(refused(local_details_signal(&package)), "a\0");
    package.version = Some("v\0".to_string());
    assert_eq!(refused(local_details_signal(&package)), "v\0");
    assert!(!package.is_identified());
    package.architecture = None;
    assert!(!package.is_complete());
}

#[test]
fn local_files_come_from_the_last_layout() {
    let payloads = stone();
    let id = local_package_id(&read_local_package(&payloads));
    assert_eq!(id.as_str(), "nano;8.1;x86_64;local");
    let paths = local_paths(&payloads);
    assert_eq!(paths, vec!["/usr/bin/nano", "/usr/share/nano", "/usr/bin/pico"]);
    assert!(local_paths(&Vec::new()).is_empty());
    for path in &paths {
        assert!(path.starts_with("/usr/"));
    }
}

#[test]
fn layout_entries_have_targets() {
    assert_eq!(layout_target(&LayoutFile::Symlink("x".to_string())).unwrap(), "x");
    assert!(layout_target(&LayoutFile::Other).is_none());
}
