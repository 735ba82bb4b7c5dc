//! Installing, removing and updating packages.

use vstd::prelude::*;

use crate::bitfield::{has_bit, pk_bitfield_contain, PkBitfield};
use crate::cstrings::texts_of;
use crate::emit::{package_signals, packages_run};
use crate::package::Package;
use crate::package_id::{moss_get_pkg_from_package_id, package_of};
use crate::signals::{not_found_report, signals_of, ErrorCode};
use crate::signals::{package_not_found, Info, JobRun, JobSignal, RunView, SignalView, Status};
use crate::text::{debug_form, has_nul, no_nul, no_nul_means_no_nul, CText};

verus! {

/// Transaction flag: only tell what would be done.
pub const PK_TRANSACTION_FLAG_ENUM_SIMULATE: u32 = 2;

/// Transaction flag: fetch the packages and do nothing more.
pub const PK_TRANSACTION_FLAG_ENUM_ONLY_DOWNLOAD: u32 = 3;

/// What a transaction does to its packages.
#[derive(Clone, Copy, PartialEq, Eq, Structural, Debug)]
pub enum Operation {
    Install,
    Remove,
    Update,
}

/// The stages of a transaction, in their order. Removing packages downloads nothing.
#[derive(Clone, Copy, PartialEq, Eq, Structural, Debug)]
pub enum Stage {
    Resolve,
    Downloading,
    Blit,
    Transaction,
    System,
    Boot,
}

/// What is reported while a stage runs: the phase that the job enters, if it enters one, and the
/// part of the job's hundred percent that the stage takes up.
#[derive(Clone, Copy, PartialEq, Eq, Structural, Debug)]
pub struct ProgressStep {
    pub status: Option<Status>,
    pub start: u32,
    pub end: u32,
}

/// Whether a transaction passes through `stage`.
pub open spec fn has_stage(operation: Operation, stage: Stage) -> bool {
    !(operation is Remove && stage is Downloading)
}

/// The phase that the job enters with `stage`.
pub open spec fn stage_status(operation: Operation, stage: Stage) -> Option<Status> {
    match (operation, stage) {
        (Operation::Update, _) => None,
        (_, Stage::Resolve) => Some(Status::DepResolve),
        (Operation::Install, Stage::Downloading) => Some(Status::Download),
        (Operation::Install, Stage::Blit) => Some(Status::Install),
        (Operation::Remove, Stage::Blit) => Some(Status::Remove),
        _ => None,
    }
}

/// The percentage at which `stage` begins.
pub open spec fn stage_start(operation: Operation, stage: Stage) -> u32 {
    match stage {
        Stage::Resolve => 0,
        Stage::Downloading => if operation is Install {
            10
        } else {
            20
        },
        Stage::Blit => if operation is Remove {
            20
        } else {
            40
        },
        Stage::Transaction => if operation is Remove {
            50
        } else {
            70
        },
        Stage::System => if operation is Remove {
            70
        } else {
            80
        },
        Stage::Boot => 90,
    }
}

/// The stage that follows `stage`.
pub open spec fn next_stage(operation: Operation, stage: Stage) -> Option<Stage> {
    match stage {
        Stage::Resolve => if operation is Remove {
            Some(Stage::Blit)
        } else {
            Some(Stage::Downloading)
        },
        Stage::Downloading => Some(Stage::Blit),
        Stage::Blit => Some(Stage::Transaction),
        Stage::Transaction => Some(Stage::System),
        Stage::System => Some(Stage::Boot),
        Stage::Boot => None,
    }
}

/// The percentage at which `stage` ends: where the next one begins, and the whole for the last.
pub open spec fn stage_end(operation: Operation, stage: Stage) -> u32 {
    match next_stage(operation, stage) {
        Some(next) => stage_start(operation, next),
        None => 100,
    }
}

/// What is reported while `stage` runs.
pub open spec fn step_of(operation: Operation, stage: Stage) -> ProgressStep {
    ProgressStep {
        status: stage_status(operation, stage),
        start: stage_start(operation, stage),
        end: stage_end(operation, stage),
    }
}

/// What is reported while `stage` runs.
pub fn progress_step(operation: Operation, stage: Stage) -> (step: ProgressStep)
    requires
        has_stage(operation, stage),
    ensures
        step == step_of(operation, stage),
{
    match operation {
        Operation::Install => match stage {
            Stage::Resolve => ProgressStep { status: Some(Status::DepResolve), start: 0, end: 10 },
            Stage::Downloading => ProgressStep {
                status: Some(Status::Download),
                start: 10,
                end: 40,
            },
            Stage::Blit => ProgressStep { status: Some(Status::Install), start: 40, end: 70 },
            Stage::Transaction => ProgressStep { status: None, start: 70, end: 80 },
            Stage::System => ProgressStep { status: None, start: 80, end: 90 },
            Stage::Boot => ProgressStep { status: None, start: 90, end: 100 },
        },
        Operation::Remove => match stage {
            Stage::Resolve => ProgressStep { status: Some(Status::DepResolve), start: 0, end: 20 },
            Stage::Downloading => ProgressStep { status: None, start: 20, end: 20 },
            Stage::Blit => ProgressStep { status: Some(Status::Remove), start: 20, end: 50 },
            Stage::Transaction => ProgressStep { status: None, start: 50, end: 70 },
            Stage::System => ProgressStep { status: None, start: 70, end: 90 },
            Stage::Boot => ProgressStep { status: None, start: 90, end: 100 },
        },
        Operation::Update => match stage {
            Stage::Resolve => ProgressStep { status: None, start: 0, end: 20 },
            Stage::Downloading => ProgressStep { status: None, start: 20, end: 40 },
            Stage::Blit => ProgressStep { status: None, start: 40, end: 70 },
            Stage::Transaction => ProgressStep { status: None, start: 70, end: 80 },
            Stage::System => ProgressStep { status: None, start: 80, end: 90 },
            Stage::Boot => ProgressStep { status: None, start: 90, end: 100 },
        },
    }
}

/// The stages share out the hundred percent: the first begins at nothing, each takes up some of
/// it and ends where the next one begins, and the last ends at the whole.
pub proof fn stages_share_hundred_percent(operation: Operation, stage: Stage)
    requires
        has_stage(operation, stage),
    ensures
        stage is Resolve ==> step_of(operation, stage).start == 0,
        step_of(operation, stage).start < step_of(operation, stage).end <= 100,
        match next_stage(operation, stage) {
            Some(next) => has_stage(operation, next) && step_of(operation, next).start == step_of(
                operation,
                stage,
            ).end,
            None => stage is Boot && step_of(operation, stage).end == 100,
        },
{
}

/// Whether the flags of a transaction only ask what would be done.
pub fn is_simulation(transaction_flags: PkBitfield) -> (simulate: bool)
    ensures
        simulate == has_bit(transaction_flags, PK_TRANSACTION_FLAG_ENUM_SIMULATE),
{
    pk_bitfield_contain(transaction_flags, PK_TRANSACTION_FLAG_ENUM_SIMULATE)
}

/// How an update begins.
pub struct UpdatePlan {
    pub only_download: bool,
    pub simulate: bool,
    pub signals: Vec<JobSignal>,
}

/// Begins an update under the flags of its transaction: the job is said to download where it does
/// nothing more, and to update in any case.
pub fn update_plan(transaction_flags: PkBitfield) -> (plan: UpdatePlan)
    ensures
        plan.only_download == has_bit(transaction_flags, PK_TRANSACTION_FLAG_ENUM_ONLY_DOWNLOAD),
        plan.simulate == has_bit(transaction_flags, PK_TRANSACTION_FLAG_ENUM_SIMULATE),
        signals_of(plan.signals@) == if plan.only_download {
            seq![
                SignalView::SetStatus { status: Status::Download },
                SignalView::SetStatus { status: Status::Update },
            ]
        } else {
            seq![SignalView::SetStatus { status: Status::Update }]
        },
{
    let only_download: bool = pk_bitfield_contain(
        transaction_flags,
        PK_TRANSACTION_FLAG_ENUM_ONLY_DOWNLOAD,
    );
    let mut signals: Vec<JobSignal> = Vec::new();
    if only_download {
        signals.push(JobSignal::SetStatus { status: Status::Download });
    }
    let simulate: bool = is_simulation(transaction_flags);
    signals.push(JobSignal::SetStatus { status: Status::Update });
    proof {
        if only_download {
            assert(signals_of(signals@) =~= seq![
                SignalView::SetStatus { status: Status::Download },
                SignalView::SetStatus { status: Status::Update },
            ]);
        } else {
            assert(signals_of(signals@) =~= seq![SignalView::SetStatus { status: Status::Update }]);
        }
    }
    UpdatePlan { only_download, simulate, signals }
}

/// The packages that a transaction is about, and the reports of the ids that have none.
pub struct Resolved<'a> {
    pub packages: Vec<&'a Package>,
    pub signals: Vec<JobSignal>,
}

/// The packages that a transaction is about, and the reports of the ids that have none.
#[verifier::ext_equal]
pub struct ResolvedView<'a> {
    pub packages: Seq<&'a Package>,
    pub signals: Seq<SignalView>,
}

impl<'a> View for Resolved<'a> {
    type V = ResolvedView<'a>;

    open spec fn view(&self) -> ResolvedView<'a> {
        ResolvedView { packages: self.packages@, signals: signals_of(self.signals@) }
    }
}

/// The packages with the ids `ids`, where the registry's first answers to the queries for them
/// are `hits`. Each id without a package is reported.
pub open spec fn resolved<'a>(
    ids: Seq<Seq<char>>,
    hits: Seq<Option<&'a Package>>,
) -> ResolvedView<'a>
    decreases ids.len(),
{
    if ids.len() == 0 {
        ResolvedView { packages: Seq::empty(), signals: Seq::empty() }
    } else {
        let before = resolved(ids.drop_last(), hits.drop_last());
        match package_of(ids.last(), hits.last()) {
            Some(package) => ResolvedView { packages: before.packages.push(package), ..before },
            None => ResolvedView {
                signals: before.signals.push(not_found_report(ids.last())),
                ..before
            },
        }
    }
}

/// Finds the packages with the ids `ids`, where the registry's first answers to the queries for
/// them are `hits`.
pub fn resolve_packages<'a>(ids: &Vec<CText>, hits: &Vec<Option<&'a Package>>) -> (found: Resolved<
    'a,
>)
    requires
        ids@.len() == hits@.len(),
    ensures
        found@ == resolved(texts_of(ids@), hits@),
{
    let ghost texts = texts_of(ids@);
    let mut packages: Vec<&'a Package> = Vec::new();
    let mut signals: Vec<JobSignal> = Vec::new();
    let mut i: usize = 0;
    assert(signals_of(signals@) =~= Seq::<SignalView>::empty());
    while i < ids.len()
        invariant
            i <= ids@.len(),
            ids@.len() == hits@.len(),
            texts == texts_of(ids@),
            resolved(texts.take(i as int), hits@.take(i as int)) == (ResolvedView {
                packages: packages@,
                signals: signals_of(signals@),
            }),
        decreases ids@.len() - i,
    {
        let id: &CText = &ids[i];
        let ghost before = signals_of(signals@);
        proof {
            assert(texts.take(i + 1).drop_last() =~= texts.take(i as int));
            assert(hits@.take(i + 1).drop_last() =~= hits@.take(i as int));
            assert(texts.take(i + 1).last() == id@);
        }
        match moss_get_pkg_from_package_id(id.as_str(), hits[i]) {
            Some(package) => packages.push(package),
            None => {
                let signal: JobSignal = package_not_found(id);
                signals.push(signal);
                assert(signals_of(signals@) =~= before.push(signal@));
            },
        }
        i += 1;
    }
    proof {
        assert(texts.take(texts.len() as int) =~= texts);
        assert(hits@.take(hits@.len() as int) =~= hits@);
    }
    Resolved { packages, signals }
}

/// The names of `packages`, by which a transaction asks for them.
pub fn package_names<'a>(packages: &Vec<&'a Package>) -> (names: Vec<&'a str>)
    ensures
        names@.len() == packages@.len(),
        forall|i: int| 0 <= i < names@.len() ==> (#[trigger] names@[i])@ == packages@[i].name@,
{
    let mut names: Vec<&'a str> = Vec::new();
    let mut i: usize = 0;
    while i < packages.len()
        invariant
            i <= packages@.len(),
            names@.len() == i,
            forall|j: int| 0 <= j < i ==> (#[trigger] names@[j])@ == packages@[j].name@,
        decreases packages@.len() - i,
    {
        names.push(packages[i].name.as_str());
        i += 1;
    }
    names
}

/// How a simulated transaction shows its packages.
pub open spec fn operation_info(operation: Operation) -> Info {
    match operation {
        Operation::Install => Info::Installing,
        Operation::Remove => Info::Removing,
        Operation::Update => Info::Updating,
    }
}

/// Whether the summaries of all `packages` fit C strings.
pub open spec fn summaries_fit(packages: Seq<&Package>) -> bool {
    forall|i: int| 0 <= i < packages.len() ==> no_nul((#[trigger] packages[i]).summary@)
}

/// Whether the summaries of all `packages` fit C strings.
pub fn summaries_fit_c_strings(packages: &Vec<&Package>) -> (fit: bool)
    ensures
        fit == summaries_fit(packages@),
{
    let mut i: usize = 0;
    while i < packages.len()
        invariant
            i <= packages@.len(),
            forall|j: int| 0 <= j < i ==> no_nul((#[trigger] packages@[j]).summary@),
        decreases packages@.len() - i,
    {
        if has_nul(packages[i].summary.as_str()) {
            return false;
        }
        i += 1;
    }
    true
}

/// Shows what a transaction did to `packages`, of which repositories offer `remotes`: each of
/// them where it was simulated, and nothing where it was carried out.
pub fn transaction_signals(
    operation: Operation,
    simulate: bool,
    packages: &Vec<&Package>,
    remotes: &Vec<Option<&Package>>,
) -> (run: JobRun)
    requires
        packages@.len() == remotes@.len(),
        simulate ==> summaries_fit(packages@),
    ensures
        run@ == if simulate {
            packages_run(operation_info(operation), packages@, remotes@)
        } else {
            RunView::start()
        },
{
    if simulate {
        let info: Info = match operation {
            Operation::Install => Info::Installing,
            Operation::Remove => Info::Removing,
            Operation::Update => Info::Updating,
        };
        package_signals(info, packages, remotes)
    } else {
        let run = JobRun { signals: Vec::new(), fault: None };
        assert(run@ =~= RunView::start());
        run
    }
}

/// Each id either leads to a package or is reported.
pub proof fn each_id_answered(ids: Seq<Seq<char>>, hits: Seq<Option<&Package>>)
    requires
        ids.len() == hits.len(),
    ensures
        resolved(ids, hits).packages.len() + resolved(ids, hits).signals.len() == ids.len(),
    decreases ids.len(),
{
    if ids.len() > 0 {
        each_id_answered(ids.drop_last(), hits.drop_last());
    }
}

/// A further id adds either its package or one report, never both and never neither, in the order
/// of the ids.
pub proof fn ids_are_answered_one_by_one(
    ids: Seq<Seq<char>>,
    hits: Seq<Option<&Package>>,
    id: Seq<char>,
    hit: Option<&Package>,
)
    requires
        ids.len() == hits.len(),
    ensures
        ({
            let before = resolved(ids, hits);
            let after = resolved(ids.push(id), hits.push(hit));
            match package_of(id, hit) {
                Some(package) => {
                    &&& after.packages == before.packages.push(package)
                    &&& after.signals == before.signals
                },
                None => {
                    &&& after.packages == before.packages
                    &&& after.signals == before.signals.push(
                        SignalView::ErrorCode {
                            code: ErrorCode::PackageNotFound,
                            message: "Failed to find package "@ + debug_form(id),
                        },
                    )
                },
            }
        }),
        resolved(Seq::empty(), Seq::empty()).packages.len() == 0,
        resolved(Seq::empty(), Seq::empty()).signals.len() == 0,
{
    assert(ids.push(id).drop_last() =~= ids);
    assert(hits.push(hit).drop_last() =~= hits);
}

/// Summaries fit exactly if none of them holds a NUL.
pub proof fn fitting_summaries_hold_no_nul(packages: Seq<&Package>)
    ensures
        summaries_fit(packages) <==> forall|i: int|
            0 <= i < packages.len() ==> !(#[trigger] packages[i]).summary@.contains('\0'),
{
    assert forall|i: int| 0 <= i < packages.len() implies no_nul(
        (#[trigger] packages[i]).summary@,
    ) == !packages[i].summary@.contains('\0') by {
        no_nul_means_no_nul(packages[i].summary@);
    }
}

/// A simulated install shows packages as installing, a removal as removing and an update as
/// updating; a removal never downloads, and every other stage is passed through.
pub proof fn operations_show_themselves(operation: Operation, stage: Stage)
    ensures
        operation_info(operation) is Installing <==> operation is Install,
        operation_info(operation) is Removing <==> operation is Remove,
        operation_info(operation) is Updating <==> operation is Update,
        has_stage(operation, stage) <==> (stage is Downloading ==> !(operation is Remove)),
        operation is Update ==> step_of(operation, stage).status is None,
        stage is Transaction || stage is System || stage is Boot ==> step_of(
            operation,
            stage,
        ).status is None,
{
}

/// What was resolved shows its packages and its reports, one by one.
pub proof fn resolved_shows_everything<'a>(found: Resolved<'a>)
    ensures
        found@.packages == found.packages@,
        found@.signals.len() == found.signals@.len(),
        forall|i: int|
            0 <= i < found.signals@.len() ==> #[trigger] found@.signals[i] == found.signals@[i]@,
{
}

} // verus!
