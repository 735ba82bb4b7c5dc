//! Reports of the files of a package.

use vstd::prelude::*;

use crate::cstrings::{c_string_array, utf8_of};
use crate::package::Package;
use crate::package_id::{moss_get_pkg_from_package_id, package_of};
use crate::signals::{checked_error_signal, package_not_found, ErrorCode, JobSignal, SignalView};
use crate::signals::{error_outcome, not_found_report, outcome_of};
use crate::text::{has_nul, no_nul, no_nul_means_no_nul, CText, NulError};

verus! {

/// Whether each of `texts` fits a C string.
pub open spec fn all_fit(texts: Seq<Seq<char>>) -> bool {
    forall|i: int| 0 <= i < texts.len() ==> no_nul(#[trigger] texts[i])
}

/// Whether each of `texts` fits a C string.
pub fn fit_c_strings(texts: &Vec<String>) -> (fit: bool)
    ensures
        fit == all_fit(texts.deep_view()),
{
    let ghost views = texts.deep_view();
    let mut i: usize = 0;
    while i < texts.len()
        invariant
            i <= texts@.len(),
            views == texts.deep_view(),
            forall|j: int| 0 <= j < i ==> no_nul(#[trigger] views[j]),
        decreases texts@.len() - i,
    {
        if has_nul(texts[i].as_str()) {
            assert(!no_nul(views[i as int]));
            return false;
        }
        i += 1;
    }
    true
}

/// Reports `paths`, which must fit C strings, as the files of the package with the id `id`.
pub fn files_signal(id: &CText, paths: &Vec<String>) -> (signal: JobSignal)
    requires
        all_fit(paths.deep_view()),
    ensures
        signal@ == (SignalView::Files { id: id@, files: utf8_of(paths.deep_view()) }),
{
    proof {
        assert forall|i: int| 0 <= i < paths@.len() implies no_nul(#[trigger] paths@[i]@) by {
            assert(no_nul(paths.deep_view()[i]));
        }
    }
    JobSignal::Files { id: id.copy(), files: c_string_array(paths) }
}

/// An entry of the file system of a package.
pub struct FileEntry {
    pub path: String,
    pub directory: bool,
}

/// The paths of the entries that are no directories, in their order.
pub open spec fn file_paths_of(entries: Seq<FileEntry>) -> Seq<Seq<char>>
    decreases entries.len(),
{
    if entries.len() == 0 {
        Seq::empty()
    } else if entries.last().directory {
        file_paths_of(entries.drop_last())
    } else {
        file_paths_of(entries.drop_last()).push(entries.last().path@)
    }
}

/// The paths of the entries that are no directories, in their order.
pub fn file_paths(entries: &Vec<FileEntry>) -> (paths: Vec<String>)
    ensures
        paths.deep_view() == file_paths_of(entries@),
{
    let mut paths: Vec<String> = Vec::new();
    let mut i: usize = 0;
    assert(paths.deep_view() =~= file_paths_of(entries@.take(0)));
    while i < entries.len()
        invariant
            i <= entries@.len(),
            paths.deep_view() == file_paths_of(entries@.take(i as int)),
        decreases entries@.len() - i,
    {
        assert(entries@.take(i + 1).drop_last() =~= entries@.take(i as int));
        if !entries[i].directory {
            let ghost before = paths.deep_view();
            paths.push(entries[i].path.clone());
            assert(paths.deep_view() =~= before.push(entries@[i as int].path@));
        }
        i += 1;
    }
    assert(entries@.take(entries@.len() as int) =~= entries@);
    paths
}

/// Reports the files of the package with the id `id`, where the registry's first answer to the
/// query for it is `hit` and `entries` are what the package's file system holds. The paths of a
/// package that was found must fit C strings.
pub fn package_files_signal(
    id: &CText,
    hit: Option<&Package>,
    entries: &Vec<FileEntry>,
) -> (signal: JobSignal)
    requires
        package_of(id@, hit) is Some ==> all_fit(file_paths_of(entries@)),
    ensures
        signal@ == match package_of(id@, hit) {
            Some(_) => SignalView::Files { id: id@, files: utf8_of(file_paths_of(entries@)) },
            None => not_found_report(id@),
        },
{
    match moss_get_pkg_from_package_id(id.as_str(), hit) {
        Some(_) => files_signal(id, &file_paths(entries)),
        None => package_not_found(id),
    }
}

/// Reports the outcome of the download of the package with the id `id`: the paths of what was
/// fetched, which must fit C strings, or the text of the error.
pub fn download_signal(id: &CText, fetched: Result<&Vec<String>, &str>) -> (result: Result<
    JobSignal,
    NulError,
>)
    requires
        fetched matches Ok(paths) ==> all_fit(paths.deep_view()),
    ensures
        outcome_of(result) == match fetched {
            Ok(paths) => Ok(SignalView::Files { id: id@, files: utf8_of(paths.deep_view()) }),
            Err(message) => error_outcome(ErrorCode::PackageDownloadFailed, message@),
        },
{
    match fetched {
        Ok(paths) => Ok(files_signal(id, paths)),
        Err(message) => checked_error_signal(ErrorCode::PackageDownloadFailed, message),
    }
}

/// The files of a package are the paths of all its entries but the directories.
pub proof fn files_are_all_but_directories(entries: Seq<FileEntry>)
    ensures
        file_paths_of(entries) == entries.filter(|entry: FileEntry| !entry.directory).map_values(
            |entry: FileEntry| entry.path@,
        ),
    decreases entries.len(),
{
    let keep = |entry: FileEntry| !entry.directory;
    let path = |entry: FileEntry| entry.path@;
    reveal(Seq::filter);
    if entries.len() > 0 {
        files_are_all_but_directories(entries.drop_last());
        assert(file_paths_of(entries) =~= entries.filter(keep).map_values(path));
    } else {
        assert(file_paths_of(entries) =~= entries.filter(keep).map_values(path));
    }
}

/// Texts fit C strings exactly if none of them holds a NUL.
pub proof fn fitting_texts_hold_no_nul(texts: Seq<Seq<char>>)
    ensures
        all_fit(texts) <==> forall|i: int|
            0 <= i < texts.len() ==> !(#[trigger] texts[i]).contains('\0'),
{
    assert forall|i: int| 0 <= i < texts.len() implies no_nul(#[trigger] texts[i])
        == !texts[i].contains('\0') by {
        no_nul_means_no_nul(texts[i]);
    }
}

} // verus!
