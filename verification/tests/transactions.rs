use pk_backend_moss::package::{Flags, Package};
use pk_backend_moss::signals::{ErrorCode, Info, JobSignal, Status};
use pk_backend_moss::text::CText;
use pk_backend_moss::transaction::{
    is_simulation, package_names, progress_step, resolve_packages, summaries_fit_c_strings,
    transaction_signals, update_plan, Operation, ProgressStep, Stage,
};

fn package(name: &str) -> Package {
    Package {
        id: name.to_string(),
        name: name.to_string(),
        version_identifier: "1".to_string(),
        source_release: 1,
        architecture: "x86_64".to_string(),
        summary: "s".to_string(),
        description: String::new(),
        homepage: String::new(),
        licenses: Vec::new(),
        download_size: None,
        origin: None,
        flags: Flags { installed: true, available: false },
    }
}

fn step(status: Option<Status>, start: u32, end: u32) -> ProgressStep {
    ProgressStep { status, start, end }
}

#[test]
fn install_steps() {
    let op = Operation::Install;
    assert_eq!(progress_step(op, Stage::Resolve), step(Some(Status::DepResolve), 0, 10));
    assert_eq!(progress_step(op, Stage::Downloading), step(Some(Status::Download), 10, 40));
    assert_eq!(progress_step(op, Stage::Blit), step(Some(Status::Install), 40, 70));
    assert_eq!(progress_step(op, Stage::Transaction), step(None, 70, 80));
    assert_eq!(progress_step(op, Stage::System), step(None, 80, 90));
    assert_eq!(progress_step(op, Stage::Boot), step(None, 90, 100));
}

#[test]
fn remove_steps() {
    let op = Operation::Remove;
    assert_eq!(progress_step(op, Stage::Resolve), step(Some(Status::DepResolve), 0, 20));
    assert_eq!(progress_step(op, Stage::Blit), step(Some(Status::Remove), 20, 50));
    assert_eq!(progress_step(op, Stage::Transaction), step(None, 50, 70));
    assert_eq!(progress_step(op, Stage::System), step(None, 70, 90));
    assert_eq!(progress_step(op, Stage::Boot), step(None, 90, 100));
}

#[test]
fn update_steps() {
    let op = Operation::Update;
    assert_eq!(progress_step(op, Stage::Resolve), step(None, 0, 20));
    assert_eq!(progress_step(op, Stage::Downloading), step(None, 20, 40));
    assert_eq!(progress_step(op, Stage::Blit), step(None, 40, 70));
    assert_eq!(progress_step(op, Stage::Transaction), step(None, 70, 80));
    assert_eq!(progress_step(op, Stage::System), step(None, 80, 90));
    assert_eq!(progress_step(op, Stage::Boot), step(None, 90, 100));
}

#[test]
fn stages_share_the_whole() {
    let stages = [
        Stage::Resolve,
        Stage::Downloading,
        Stage::Blit,
        Stage::Transaction,
        Stage::System,
        Stage::Boot,
    ];
    for op in [Operation::Install, Operation::Update] {
        let mut reached = 0;
        for stage in stages {
            let step = progress_step(op, stage);
            assert_eq!(step.start, reached);
            assert!(step.start < step.end);
            reached = step.end;
        }
        assert_eq!(reached, 100);
    }
}

#[test]
fn simulation_flag() {
    assert!(is_simulation(1 << 2));
    assert!(!is_simulation(1 << 3));
}

#[test]
fn update_announces_its_phases() {
    let plan = update_plan(1 << 3);
    assert!(plan.only_download && !plan.simulate);
    assert_eq!(plan.signals.len(), 2);
    assert!(matches!(plan.signals[0], JobSignal::SetStatus { status: Status::Download }));
    assert!(matches!(plan.signals[1], JobSignal::SetStatus { status: Status::Update }));
    let plan = update_plan(1 << 2);
    assert!(!plan.only_download && plan.simulate);
    assert_eq!(plan.signals.len(), 1);
    assert!(matches!(plan.signals[0], JobSignal::SetStatus { status: Status::Update }));
}

#[test]
fn every_id_is_answered() {
    let a = package("a");
    let c = package("c");
    let ids = vec![
        CText::known("a;1;x86_64;installed"),
        CText::known("b;1;x86_64;installed"),
        CText::known("nonsense"),
        CText::known("c;1;x86_64;installed"),
    ];
    let found = resolve_packages(&ids, &vec![Some(&a), None, Some(&a), Some(&c)]);
    assert_eq!(package_names(&found.packages), vec!["a", "c"]);
    assert_eq!(found.packages.len() + found.signals.len(), ids.len());
    match &found.signals[0] {
        JobSignal::ErrorCode { code, message } => {
            assert_eq!(*code, ErrorCode::PackageNotFound);
            assert_eq!(message.as_str(), "Failed to find package \"b;1;x86_64;installed\"");
        }
        _ => panic!("not an error message"),
    }
}

#[test]
fn simulated_transactions_show_their_packages() {
    let a = package("a");
    let kinds = [
        (Operation::Install, Info::Installing),
        (Operation::Remove, Info::Removing),
        (Operation::Update, Info::Updating),
    ];
    for (operation, info) in kinds {
        let run = transaction_signals(operation, true, &vec![&a], &vec![None]);
        assert!(run.fault.is_none());
        assert_eq!(run.signals.len(), 1);
        match &run.signals[0] {
            JobSignal::Package { entry } => {
                assert_eq!(entry.info, info);
                assert_eq!(entry.id.as_str(), "a;1;x86_64;installed");
                assert_eq!(entry.summary.as_str(), "s");
            }
            _ => panic!("not a package"),
        }
        assert!(transaction_signals(operation, false, &vec![&a], &vec![None]).signals.is_empty());
    }
}

#[test]
fn simulations_stop_at_an_id_with_a_nul() {
    let a = package("a");
    let broken = package("b\0");
    let run =
        transaction_signals(Operation::Install, true, &vec![&a, &broken], &vec![None, None]);
    assert_eq!(run.signals.len(), 1);
    assert_eq!(run.fault.unwrap().text, "b\0");
}

#[test]
fn summaries_must_fit() {
    let mut a = package("a");
    assert!(summaries_fit_c_strings(&vec![&a]));
    a.summary = "\0".to_string();
    assert!(!summaries_fit_c_strings(&vec![&a]));
}
