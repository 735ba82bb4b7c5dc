//! Reports about single packages, asked for by their ids.

use vstd::prelude::*;

use crate::package::Package;
use crate::package_id::{moss_get_pkg_from_package_id, package_of};
use crate::signals::{not_found_report, outcome_of, unless_nul};
use crate::signals::{package_not_found, Group, JobSignal, SignalView, UNKNOWN_SIZE};
use crate::signals::{Restart, UpdateDetail, UpdateState, UpdateView};
use crate::text::{all_c_texts, views_of, CText, NulError};

verus! {

/// The texts of the details of `package`, in the order in which they are read.
pub open spec fn details_texts(package: Package) -> Seq<Seq<char>> {
    seq![
        package.summary@,
        package.licenses@[0]@,
        package.description@,
        package.homepage@,
    ]
}

/// The details of the package with the id `id`: its first license, no installed size, and its
/// download size where the registry knows it.
pub open spec fn details_of(id: Seq<char>, package: Package) -> SignalView {
    SignalView::Details {
        id,
        summary: package.summary@,
        license: package.licenses@[0]@,
        description: package.description@,
        url: package.homepage@,
        group: Group::Unknown,
        size: UNKNOWN_SIZE,
        download_size: match package.download_size {
            Some(size) => size,
            None => UNKNOWN_SIZE,
        },
    }
}

/// Reports the details of the package with the id `id`, where the registry's first answer to the
/// query for it is `hit`. The package must have a license.
pub fn details_signal(id: &CText, hit: Option<&Package>) -> (result: Result<JobSignal, NulError>)
    requires
        package_of(id@, hit) matches Some(package) ==> package.licenses@.len() > 0,
    ensures
        outcome_of(result) == match package_of(id@, hit) {
            Some(package) => unless_nul(details_texts(*package), details_of(id@, *package)),
            None => Ok(not_found_report(id@)),
        },
{
    let package: &Package = match moss_get_pkg_from_package_id(id.as_str(), hit) {
        Some(package) => package,
        None => return Ok(package_not_found(id)),
    };
    let texts: Vec<&str> = vec![
        package.summary.as_str(),
        package.licenses[0].as_str(),
        package.description.as_str(),
        package.homepage.as_str(),
    ];
    assert(views_of(texts@) =~= details_texts(*package));
    let list: Vec<CText> = match all_c_texts(&texts) {
        Ok(list) => list,
        Err(e) => return Err(e),
    };
    let download_size: u64 = match package.download_size {
        Some(size) => size,
        None => UNKNOWN_SIZE,
    };
    Ok(
        JobSignal::Details {
            id: id.copy(),
            summary: list[0].copy(),
            license: list[1].copy(),
            description: list[2].copy(),
            url: list[3].copy(),
            group: Group::Unknown,
            size: UNKNOWN_SIZE,
            download_size,
        },
    )
}

/// The report of an update of which nothing is known: it does not ask for a restart, its state is
/// unknown, and it has no texts and no links.
pub open spec fn bare_update(id: Seq<char>) -> SignalView {
    SignalView::UpdateDetail {
        id,
        detail: UpdateView {
            updates: None,
            obsoletes: None,
            vendor_urls: None,
            bugzilla_urls: None,
            cve_urls: None,
            restart: Restart::Nothing,
            update_text: None,
            changelog: None,
            state: UpdateState::Unknown,
            issued: None,
            updated: None,
        },
    }
}

/// Reports the update of the package with the id `id`, where the registry's first answer to the
/// query for it is `hit`.
pub fn update_detail_signal(id: &CText, hit: Option<&Package>) -> (signal: JobSignal)
    ensures
        signal@ == match package_of(id@, hit) {
            Some(_) => bare_update(id@),
            None => not_found_report(id@),
        },
{
    match moss_get_pkg_from_package_id(id.as_str(), hit) {
        Some(_) => JobSignal::UpdateDetail {
            id: id.copy(),
            detail: UpdateDetail {
                updates: None,
                obsoletes: None,
                vendor_urls: None,
                bugzilla_urls: None,
                cve_urls: None,
                restart: Restart::Nothing,
                update_text: None,
                changelog: None,
                state: UpdateState::Unknown,
                issued: None,
                updated: None,
            },
        },
        None => package_not_found(id),
    }
}

/// The details of a package are its own texts, its first license, and its download size where that
/// is known; its group and its installed size never are.
pub proof fn details_are_the_packages_own(id: Seq<char>, package: Package)
    ensures
        ({
            let details = details_of(id, package);
            &&& details->Details_id == id
            &&& details->Details_summary == package.summary@
            &&& details->Details_license == package.licenses@[0]@
            &&& details->Details_description == package.description@
            &&& details->Details_url == package.homepage@
            &&& details->Details_size == u64::MAX
            &&& package.download_size matches Some(size) ==> details->Details_download_size == size
            &&& package.download_size is None ==> details->Details_download_size == u64::MAX
            &&& details is Details
        }),
        details_texts(package) == seq![
            package.summary@,
            package.licenses@[0]@,
            package.description@,
            package.homepage@,
        ],
{
}

/// An update tells nothing but its package.
pub proof fn updates_tell_nothing_more(id: Seq<char>)
    ensures
        bare_update(id) matches SignalView::UpdateDetail { id: shown, detail } && {
            &&& shown == id
            &&& detail.updates is None
            &&& detail.obsoletes is None
            &&& detail.vendor_urls is None
            &&& detail.bugzilla_urls is None
            &&& detail.cve_urls is None
            &&& detail.update_text is None
            &&& detail.changelog is None
            &&& detail.issued is None
            &&& detail.updated is None
        },
{
}

} // verus!
