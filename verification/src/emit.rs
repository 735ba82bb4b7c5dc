//! Lists of packages for the daemon.

use vstd::prelude::*;

use crate::package::Package;
use crate::package_id::{four_texts_make_an_id, id_tells_the_package, IdSections};
use crate::package_id::{moss_build_package_id_from_registry, package_sections, sections_of};
use crate::signals::{entries_of, outcome_of, signals_of, unless_nul};
use crate::signals::{
    EntryView, ErrorCode, Info, JobRun, JobSignal, PackageEntry, RunView, SignalView,
};
use crate::text::{earliest_nul_is_refused, no_nul_means_no_nul};
use crate::text::{first_with_nul, first_with_nul_push, no_nul, CText, NulError};

verus! {

/// The texts that go into the id of `package`, in the order in which they are read.
pub open spec fn id_texts(package: Package, remote: Option<&Package>) -> Seq<Seq<char>> {
    let sections = package_sections(package, remote);
    seq![sections.name, sections.version, sections.arch, sections.data]
}

/// The id of `package`.
pub open spec fn id_text(package: Package, remote: Option<&Package>) -> Seq<char> {
    package_sections(package, remote).text()
}

/// How a list shows a package that is installed or not.
pub open spec fn listed_info(installed: bool) -> Info {
    if installed {
        Info::Installed
    } else {
        Info::Available
    }
}

/// The report of the id `id`, which the daemon does not take.
pub open spec fn invalid_id(id: Seq<char>) -> SignalView {
    SignalView::InvalidId {
        code: ErrorCode::PackageIdInvalid,
        lead: "Failed to set package ID: "@,
        id,
    }
}

/// A package list in the making: what was reported of packages that cannot be listed, the
/// packages listed so far, and the text with a NUL that broke the list off.
#[verifier::ext_equal]
pub struct ListView {
    pub refused: Seq<SignalView>,
    pub entries: Seq<EntryView>,
    pub fault: Option<Seq<char>>,
}

impl ListView {
    /// The list with `package` added, where `accepted` says whether the daemon takes its id. A
    /// package whose id is not taken is reported in place of being listed. A NUL in the id, or in
    /// the summary of a package that can be listed, breaks off.
    pub open spec fn with(
        self,
        package: Package,
        remote: Option<&Package>,
        accepted: bool,
    ) -> ListView {
        if self.fault is Some {
            self
        } else if first_with_nul(id_texts(package, remote)) is Some {
            ListView { fault: first_with_nul(id_texts(package, remote)), ..self }
        } else if !accepted {
            ListView {
                refused: self.refused.push(invalid_id(id_text(package, remote))),
                ..self
            }
        } else if !no_nul(package.summary@) {
            ListView { fault: Some(package.summary@), ..self }
        } else {
            ListView {
                entries: self.entries.push(
                    EntryView {
                        info: listed_info(package.flags.installed),
                        id: id_text(package, remote),
                        summary: package.summary@,
                    },
                ),
                ..self
            }
        }
    }

    /// What the daemon is told: the refused ids, then the list, unless it is empty or was broken
    /// off.
    pub open spec fn run(self) -> RunView {
        RunView {
            signals: if self.fault is None && self.entries.len() > 0 {
                self.refused.push(SignalView::Packages { entries: self.entries })
            } else {
                self.refused
            },
            fault: self.fault,
        }
    }
}

/// The list of `packages`, of which repositories offer `remotes`, where `accepted` says whether the
/// daemon takes their ids.
pub open spec fn package_list(
    packages: Seq<&Package>,
    remotes: Seq<Option<&Package>>,
    accepted: Seq<bool>,
) -> ListView
    decreases packages.len(),
{
    if packages.len() == 0 {
        ListView { refused: Seq::empty(), entries: Seq::empty(), fault: None }
    } else {
        package_list(packages.drop_last(), remotes.drop_last(), accepted.drop_last()).with(
            *packages.last(),
            remotes.last(),
            accepted.last(),
        )
    }
}

/// Lists `packages`, of which repositories offer `remotes`, where `accepted` says of each package
/// whether the daemon takes its id. Of a package whose id cannot be built nothing is asked, so
/// that the value there does not matter.
pub fn moss_emit_package_list(
    packages: &Vec<&Package>,
    remotes: &Vec<Option<&Package>>,
    accepted: &Vec<bool>,
) -> (run: JobRun)
    requires
        packages@.len() == remotes@.len(),
        packages@.len() == accepted@.len(),
    ensures
        run@ == package_list(packages@, remotes@, accepted@).run(),
{
    let mut signals: Vec<JobSignal> = Vec::new();
    let mut entries: Vec<PackageEntry> = Vec::new();
    let mut i: usize = 0;
    assert(signals_of(signals@) =~= Seq::<SignalView>::empty());
    assert(entries_of(entries@) =~= Seq::<EntryView>::empty());
    while i < packages.len()
        invariant
            i <= packages@.len(),
            packages@.len() == remotes@.len(),
            packages@.len() == accepted@.len(),
            package_list(
                packages@.take(i as int),
                remotes@.take(i as int),
                accepted@.take(i as int),
            ) == (ListView {
                refused: signals_of(signals@),
                entries: entries_of(entries@),
                fault: None,
            }),
        decreases packages@.len() - i,
    {
        let package: &Package = packages[i];
        let ghost next = package_list(
            packages@.take(i + 1),
            remotes@.take(i + 1),
            accepted@.take(i + 1),
        );
        proof {
            assert(packages@.take(i + 1).drop_last() =~= packages@.take(i as int));
            assert(remotes@.take(i + 1).drop_last() =~= remotes@.take(i as int));
            assert(accepted@.take(i + 1).drop_last() =~= accepted@.take(i as int));
        }
        let id: CText = match moss_build_package_id_from_registry(package, remotes[i]) {
            Ok(id) => id,
            Err(e) => {
                proof {
                    list_stays_broken(packages@, remotes@, accepted@, i + 1);
                }
                return JobRun { signals, fault: Some(e) };
            },
        };
        if !accepted[i] {
            proof {
                reveal_strlit("Failed to set package ID: ");
            }
            signals.push(
                JobSignal::InvalidId {
                    code: ErrorCode::PackageIdInvalid,
                    lead: CText::known("Failed to set package ID: "),
                    id,
                },
            );
            assert(signals_of(signals@) =~= next.refused);
        } else {
            let summary: CText = match CText::copy_of(package.summary.as_str()) {
                Ok(summary) => summary,
                Err(e) => {
                    proof {
                        list_stays_broken(packages@, remotes@, accepted@, i + 1);
                    }
                    return JobRun { signals, fault: Some(e) };
                },
            };
            let info: Info = if package.flags.installed { Info::Installed } else { Info::Available };
            entries.push(PackageEntry { info, id, summary });
            assert(entries_of(entries@) =~= next.entries);
        }
        i += 1;
    }
    proof {
        assert(packages@.take(packages@.len() as int) =~= packages@);
        assert(remotes@.take(remotes@.len() as int) =~= remotes@);
        assert(accepted@.take(accepted@.len() as int) =~= accepted@);
    }
    if entries.len() > 0 {
        let ghost refused = signals_of(signals@);
        let list = JobSignal::Packages { entries };
        signals.push(list);
        assert(signals_of(signals@) =~= refused.push(list@));
    }
    JobRun { signals, fault: None }
}

/// Once a list is broken off, further packages change nothing.
proof fn list_stays_broken(
    packages: Seq<&Package>,
    remotes: Seq<Option<&Package>>,
    accepted: Seq<bool>,
    upto: int,
)
    requires
        0 <= upto <= packages.len(),
        packages.len() == remotes.len(),
        packages.len() == accepted.len(),
        package_list(packages.take(upto), remotes.take(upto), accepted.take(upto)).fault is Some,
    ensures
        package_list(packages, remotes, accepted) == package_list(
            packages.take(upto),
            remotes.take(upto),
            accepted.take(upto),
        ),
    decreases packages.len(),
{
    if upto == packages.len() {
        assert(packages.take(upto) =~= packages);
        assert(remotes.take(upto) =~= remotes);
        assert(accepted.take(upto) =~= accepted);
    } else {
        assert(packages.drop_last().take(upto) =~= packages.take(upto));
        assert(remotes.drop_last().take(upto) =~= remotes.take(upto));
        assert(accepted.drop_last().take(upto) =~= accepted.take(upto));
        list_stays_broken(packages.drop_last(), remotes.drop_last(), accepted.drop_last(), upto);
    }
}

/// The message about `package` as a single package, unless a text that goes into it holds a NUL.
pub open spec fn package_outcome(info: Info, package: Package, remote: Option<&Package>) -> Result<
    SignalView,
    Seq<char>,
> {
    unless_nul(
        id_texts(package, remote).push(package.summary@),
        SignalView::Package {
            entry: EntryView { info, id: id_text(package, remote), summary: package.summary@ },
        },
    )
}

/// Reports `package`, of which a repository offers `remote`, as a single package.
pub fn package_signal(info: Info, package: &Package, remote: Option<&Package>) -> (result: Result<
    JobSignal,
    NulError,
>)
    ensures
        outcome_of(result) == package_outcome(info, *package, remote),
{
    let ghost texts = id_texts(*package, remote);
    proof {
        first_with_nul_push(texts, package.summary@);
    }
    let id: CText = match moss_build_package_id_from_registry(package, remote) {
        Ok(id) => id,
        Err(e) => return Err(e),
    };
    match CText::copy_of(package.summary.as_str()) {
        Ok(summary) => Ok(JobSignal::Package { entry: PackageEntry { info, id, summary } }),
        Err(e) => Err(e),
    }
}

/// The messages about `packages`, one after the other, up to the first that a NUL stands in the
/// way of.
pub open spec fn packages_run(
    info: Info,
    packages: Seq<&Package>,
    remotes: Seq<Option<&Package>>,
) -> RunView
    decreases packages.len(),
{
    if packages.len() == 0 {
        RunView::start()
    } else {
        packages_run(info, packages.drop_last(), remotes.drop_last()).followed_by(
            package_outcome(info, *packages.last(), remotes.last()),
        )
    }
}

proof fn packages_run_stays_broken(
    info: Info,
    packages: Seq<&Package>,
    remotes: Seq<Option<&Package>>,
    upto: int,
)
    requires
        0 <= upto <= packages.len(),
        packages.len() == remotes.len(),
        packages_run(info, packages.take(upto), remotes.take(upto)).fault is Some,
    ensures
        packages_run(info, packages, remotes) == packages_run(
            info,
            packages.take(upto),
            remotes.take(upto),
        ),
    decreases packages.len(),
{
    if upto == packages.len() {
        assert(packages.take(upto) =~= packages);
        assert(remotes.take(upto) =~= remotes);
    } else {
        assert(packages.drop_last().take(upto) =~= packages.take(upto));
        assert(remotes.drop_last().take(upto) =~= remotes.take(upto));
        packages_run_stays_broken(info, packages.drop_last(), remotes.drop_last(), upto);
    }
}

/// Reports `packages`, of which repositories offer `remotes`, one after the other.
pub fn package_signals(
    info: Info,
    packages: &Vec<&Package>,
    remotes: &Vec<Option<&Package>>,
) -> (run: JobRun)
    requires
        packages@.len() == remotes@.len(),
    ensures
        run@ == packages_run(info, packages@, remotes@),
{
    let mut signals: Vec<JobSignal> = Vec::new();
    let mut i: usize = 0;
    assert(signals_of(signals@) =~= Seq::<SignalView>::empty());
    while i < packages.len()
        invariant
            i <= packages@.len(),
            packages@.len() == remotes@.len(),
            packages_run(info, packages@.take(i as int), remotes@.take(i as int)) == (RunView {
                signals: signals_of(signals@),
                fault: None,
            }),
        decreases packages@.len() - i,
    {
        let ghost before = signals_of(signals@);
        proof {
            assert(packages@.take(i + 1).drop_last() =~= packages@.take(i as int));
            assert(remotes@.take(i + 1).drop_last() =~= remotes@.take(i as int));
        }
        match package_signal(info, packages[i], remotes[i]) {
            Ok(signal) => {
                signals.push(signal);
                assert(signals_of(signals@) =~= before.push(signal@));
            },
            Err(e) => {
                proof {
                    packages_run_stays_broken(info, packages@, remotes@, i + 1);
                }
                return JobRun { signals, fault: Some(e) };
            },
        }
        i += 1;
    }
    proof {
        assert(packages@.take(packages@.len() as int) =~= packages@);
        assert(remotes@.take(remotes@.len() as int) =~= remotes@);
    }
    JobRun { signals, fault: None }
}

/// Unless the list is broken off, each package is either listed or its id is reported.
pub proof fn each_package_listed_or_reported(
    packages: Seq<&Package>,
    remotes: Seq<Option<&Package>>,
    accepted: Seq<bool>,
)
    requires
        packages.len() == remotes.len(),
        packages.len() == accepted.len(),
        package_list(packages, remotes, accepted).fault is None,
    ensures
        ({
            let list = package_list(packages, remotes, accepted);
            list.entries.len() + list.refused.len() == packages.len()
        }),
    decreases packages.len(),
{
    if packages.len() > 0 {
        each_package_listed_or_reported(
            packages.drop_last(),
            remotes.drop_last(),
            accepted.drop_last(),
        );
    }
}

/// Whether `entry` lists the package at `at`: the daemon takes its id, and its texts fit C strings.
pub open spec fn lists(
    entry: EntryView,
    packages: Seq<&Package>,
    remotes: Seq<Option<&Package>>,
    accepted: Seq<bool>,
    at: int,
) -> bool {
    &&& 0 <= at < packages.len()
    &&& accepted[at]
    &&& first_with_nul(id_texts(*packages[at], remotes[at])) is None
    &&& no_nul(packages[at].summary@)
    &&& entry == (EntryView {
        info: listed_info(packages[at].flags.installed),
        id: id_text(*packages[at], remotes[at]),
        summary: packages[at].summary@,
    })
}

/// Every entry of a list shows one of the packages, whose id the daemon takes.
pub proof fn listed_packages_are_accepted(
    packages: Seq<&Package>,
    remotes: Seq<Option<&Package>>,
    accepted: Seq<bool>,
    k: int,
)
    requires
        packages.len() == remotes.len(),
        packages.len() == accepted.len(),
        0 <= k < package_list(packages, remotes, accepted).entries.len(),
    ensures
        exists|at: int|
            lists(
                package_list(packages, remotes, accepted).entries[k],
                packages,
                remotes,
                accepted,
                at,
            ),
    decreases packages.len(),
{
    if packages.len() > 0 {
        let front = packages.drop_last();
        let front_remotes = remotes.drop_last();
        let front_accepted = accepted.drop_last();
        let before = package_list(front, front_remotes, front_accepted);
        let entry = package_list(packages, remotes, accepted).entries[k];
        if k < before.entries.len() {
            listed_packages_are_accepted(front, front_remotes, front_accepted, k);
            assert(entry == before.entries[k]);
            let at = choose|at: int| lists(entry, front, front_remotes, front_accepted, at);
            assert(lists(entry, packages, remotes, accepted, at));
        } else {
            assert(lists(entry, packages, remotes, accepted, packages.len() - 1));
        }
    }
}

/// Single packages are shown in their order, none left out unless the job breaks off, each with
/// its summary and with an id that tells its name, version and architecture and the repository
/// that offers it.
pub proof fn single_messages_tell_the_package(
    info: Info,
    packages: Seq<&Package>,
    remotes: Seq<Option<&Package>>,
    at: int,
)
    requires
        packages.len() == remotes.len(),
        0 <= at < packages_run(info, packages, remotes).signals.len(),
    ensures
        packages_run(info, packages, remotes).signals.len() <= packages.len(),
        packages_run(info, packages, remotes).fault is None ==> packages_run(
            info,
            packages,
            remotes,
        ).signals.len() == packages.len(),
        ({
            let package = packages[at];
            let data = match remotes[at] {
                Some(remote) => match remote.origin {
                    Some(origin) => if package.flags.installed {
                        "installed:"@ + origin@
                    } else {
                        origin@
                    },
                    None => if package.flags.installed {
                        "installed"@
                    } else {
                        "unknown"@
                    },
                },
                None => if package.flags.installed {
                    "installed"@
                } else {
                    "unknown"@
                },
            };
            let id = package.name@ + seq![';'] + package.version_identifier@ + seq![';']
                + package.architecture@ + seq![';'] + data;
            packages_run(info, packages, remotes).signals[at] == (SignalView::Package {
                entry: EntryView { info, id, summary: package.summary@ },
            })
        }),
    decreases packages.len(),
{
    run_counts_packages(info, packages, remotes);
    if packages.len() > 0 {
        let front = packages.drop_last();
        let front_remotes = remotes.drop_last();
        let before = packages_run(info, front, front_remotes);
        run_counts_packages(info, front, front_remotes);
        if at < before.signals.len() {
            single_messages_tell_the_package(info, front, front_remotes, at);
        }
    }
}

proof fn run_counts_packages(
    info: Info,
    packages: Seq<&Package>,
    remotes: Seq<Option<&Package>>,
)
    requires
        packages.len() == remotes.len(),
    ensures
        packages_run(info, packages, remotes).signals.len() <= packages.len(),
        packages_run(info, packages, remotes).fault is None ==> packages_run(
            info,
            packages,
            remotes,
        ).signals.len() == packages.len(),
    decreases packages.len(),
{
    if packages.len() > 0 {
        run_counts_packages(info, packages.drop_last(), remotes.drop_last());
    }
}

/// Splitting the id of a single message gives back what the package is, wherever none of its texts
/// holds a separator.
pub proof fn single_ids_split_back(
    info: Info,
    packages: Seq<&Package>,
    remotes: Seq<Option<&Package>>,
    at: int,
)
    requires
        packages.len() == remotes.len(),
        0 <= at < packages_run(info, packages, remotes).signals.len(),
        packages[at].name@.len() > 0,
        !packages[at].name@.contains(';'),
        !packages[at].version_identifier@.contains(';'),
        !packages[at].architecture@.contains(';'),
        remotes[at] matches Some(remote) ==> (remote.origin matches Some(origin)
            ==> !origin@.contains(';')),
    ensures
        ({
            let package = packages[at];
            let data = match remotes[at] {
                Some(remote) => match remote.origin {
                    Some(origin) => if package.flags.installed {
                        "installed:"@ + origin@
                    } else {
                        origin@
                    },
                    None => if package.flags.installed {
                        "installed"@
                    } else {
                        "unknown"@
                    },
                },
                None => if package.flags.installed {
                    "installed"@
                } else {
                    "unknown"@
                },
            };
            &&& packages_run(info, packages, remotes).signals[at] matches SignalView::Package { entry }
            &&& sections_of(entry.id) == Some(
                IdSections {
                    name: package.name@,
                    version: package.version_identifier@,
                    arch: package.architecture@,
                    data,
                },
            )
        }),
{
    let package = packages[at];
    let data = package_sections(*package, remotes[at]).data;
    single_messages_tell_the_package(info, packages, remotes, at);
    id_tells_the_package(*package, remotes[at]);
    reveal_strlit("installed:");
    reveal_strlit("installed");
    reveal_strlit("unknown");
    if data.contains(';') {
        let i = choose|i: int| 0 <= i < data.len() && data[i] == ';';
        assert(data[i] == ';');
        if remotes[at] is Some && remotes[at]->0.origin is Some {
            let origin = remotes[at]->0.origin->0@;
            if package.flags.installed {
                assert(i >= 10);
                assert(origin[i - 10] == ';');
            } else {
                assert(origin[i] == ';');
            }
        }
    }
    four_texts_make_an_id(package.name@, package.version_identifier@, package.architecture@, data);
}

/// A further single package adds one message, unless one of its texts holds a NUL: the earliest of
/// name, version, architecture, data and summary that does breaks the job off. What is broken off
/// stays as it is.
pub proof fn single_messages_grow_one_by_one(
    info: Info,
    packages: Seq<&Package>,
    remotes: Seq<Option<&Package>>,
    package: &Package,
    remote: Option<&Package>,
    data: Seq<char>,
    texts: Seq<Seq<char>>,
    nul: int,
)
    requires
        packages.len() == remotes.len(),
        0 <= nul <= 5,
        data == match remote {
            Some(remote) => match remote.origin {
                Some(origin) => if package.flags.installed {
                    "installed:"@ + origin@
                } else {
                    origin@
                },
                None => if package.flags.installed {
                    "installed"@
                } else {
                    "unknown"@
                },
            },
            None => if package.flags.installed {
                "installed"@
            } else {
                "unknown"@
            },
        },
        texts == seq![
            package.name@,
            package.version_identifier@,
            package.architecture@,
            data,
            package.summary@,
        ],
        forall|i: int| 0 <= i < nul ==> !(#[trigger] texts[i]).contains('\0'),
        nul < 5 ==> texts[nul].contains('\0'),
    ensures
        ({
            let id = package.name@ + seq![';'] + package.version_identifier@ + seq![';']
                + package.architecture@ + seq![';'] + data;
            let before = packages_run(info, packages, remotes);
            let after = packages_run(info, packages.push(package), remotes.push(remote));
            if before.fault is Some {
                after == before
            } else if nul < 5 {
                after.signals == before.signals && after.fault == Some(texts[nul])
            } else {
                after.fault is None && after.signals == before.signals.push(
                    SignalView::Package {
                        entry: EntryView { info, id, summary: package.summary@ },
                    },
                )
            }
        }),
        packages_run(info, Seq::empty(), Seq::empty()).signals.len() == 0,
        packages_run(info, Seq::empty(), Seq::empty()).fault is None,
{
    id_tells_the_package(*package, remote);
    assert(id_texts(*package, remote).push(package.summary@) =~= texts);
    earliest_nul_is_refused(texts, nul);
    assert(packages.push(package).drop_last() =~= packages);
    assert(remotes.push(remote).drop_last() =~= remotes);
}

/// A further package either joins the list, with its id, its summary and whether it is installed,
/// or is reported where the daemon does not take its id. The earliest of name, version,
/// architecture and data that holds a NUL breaks the list off, and so does a NUL in the summary
/// of a package whose id is taken. What is broken off stays as it is.
pub proof fn lists_grow_one_by_one(
    packages: Seq<&Package>,
    remotes: Seq<Option<&Package>>,
    accepted: Seq<bool>,
    package: &Package,
    remote: Option<&Package>,
    taken: bool,
    data: Seq<char>,
    texts: Seq<Seq<char>>,
    nul: int,
)
    requires
        packages.len() == remotes.len(),
        packages.len() == accepted.len(),
        0 <= nul <= 4,
        data == match remote {
            Some(remote) => match remote.origin {
                Some(origin) => if package.flags.installed {
                    "installed:"@ + origin@
                } else {
                    origin@
                },
                None => if package.flags.installed {
                    "installed"@
                } else {
                    "unknown"@
                },
            },
            None => if package.flags.installed {
                "installed"@
            } else {
                "unknown"@
            },
        },
        texts == seq![
            package.name@,
            package.version_identifier@,
            package.architecture@,
            data,
        ],
        forall|i: int| 0 <= i < nul ==> !(#[trigger] texts[i]).contains('\0'),
        nul < 4 ==> texts[nul].contains('\0'),
    ensures
        ({
            let id = package.name@ + seq![';'] + package.version_identifier@ + seq![';']
                + package.architecture@ + seq![';'] + data;
            let before = package_list(packages, remotes, accepted);
            let after = package_list(
                packages.push(package),
                remotes.push(remote),
                accepted.push(taken),
            );
            if before.fault is Some {
                after == before
            } else if nul < 4 {
                &&& after.fault == Some(texts[nul])
                &&& after.entries == before.entries
                &&& after.refused == before.refused
            } else if !taken {
                &&& after.fault is None
                &&& after.entries == before.entries
                &&& after.refused == before.refused.push(
                    SignalView::InvalidId {
                        code: ErrorCode::PackageIdInvalid,
                        lead: "Failed to set package ID: "@,
                        id,
                    },
                )
            } else if package.summary@.contains('\0') {
                &&& after.fault == Some(package.summary@)
                &&& after.entries == before.entries
                &&& after.refused == before.refused
            } else {
                &&& after.fault is None
                &&& after.entries == before.entries.push(
                    EntryView {
                        info: if package.flags.installed {
                            Info::Installed
                        } else {
                            Info::Available
                        },
                        id,
                        summary: package.summary@,
                    },
                )
                &&& after.refused == before.refused
            }
        }),
        package_list(Seq::empty(), Seq::empty(), Seq::empty()).entries.len() == 0,
        package_list(Seq::empty(), Seq::empty(), Seq::empty()).refused.len() == 0,
        package_list(Seq::empty(), Seq::empty(), Seq::empty()).fault is None,
{
    id_tells_the_package(*package, remote);
    assert(id_texts(*package, remote) =~= texts);
    earliest_nul_is_refused(texts, nul);
    no_nul_means_no_nul(package.summary@);
    assert(packages.push(package).drop_last() =~= packages);
    assert(remotes.push(remote).drop_last() =~= remotes);
    assert(accepted.push(taken).drop_last() =~= accepted);
}

/// The daemon is told the refused ids and then the list; an empty list and one that was broken off
/// are not sent.
pub proof fn lists_follow_their_refusals(list: ListView)
    ensures
        list.run().fault == list.fault,
        list.fault is Some ==> list.run().signals == list.refused,
        list.fault is None && list.entries.len() == 0 ==> list.run().signals == list.refused,
        list.fault is None && list.entries.len() > 0 ==> {
            &&& list.run().signals.len() == list.refused.len() + 1
            &&& list.run().signals.drop_last() == list.refused
            &&& list.run().signals.last() == (SignalView::Packages { entries: list.entries })
        },
{
    assert(list.refused.push(SignalView::Packages { entries: list.entries }).drop_last()
        =~= list.refused);
}

/// A package shown on its own has the same id as in a list.
pub proof fn lists_and_messages_share_ids(info: Info, package: &Package, remote: Option<&Package>)
    requires
        packages_run(info, seq![package], seq![remote]).fault is None,
    ensures
        packages_run(info, seq![package], seq![remote]).signals.len() == 1,
        package_list(seq![package], seq![remote], seq![true]).entries.len() == 1,
        packages_run(info, seq![package], seq![remote]).signals[0] matches SignalView::Package {
            entry,
        } && entry.id == package_list(seq![package], seq![remote], seq![true]).entries[0].id
            && entry.summary == package_list(
            seq![package],
            seq![remote],
            seq![true],
        ).entries[0].summary,
{
    assert(seq![package].drop_last() =~= Seq::<&Package>::empty());
    assert(seq![remote].drop_last() =~= Seq::<Option<&Package>>::empty());
    assert(seq![true].drop_last() =~= Seq::<bool>::empty());
    let none: Seq<&Package> = Seq::empty();
    let no_remotes: Seq<Option<&Package>> = Seq::empty();
    assert(packages_run(info, none, no_remotes) == RunView::start());
    assert(package_list(none, no_remotes, Seq::empty()).fault is None);
    first_with_nul_push(id_texts(*package, remote), package.summary@);
}

} // verus!
