use bfme2_manager::common::{Game, Installation, InstallationProgress};
use bfme2_manager::installer::{
    Installer, InstallerAction, InstallerEvent, InstallerStep, ProcessingState, WorkPlan,
};
use bfme2_manager::manifest::fingerprint_of_content;

fn test_installation() -> Installation {
    let mut inst = Installation::defaults(Game::BFME2, Some("C:/source".to_string()));
    inst.path = "C:/games/bfme2".to_string();
    inst.ergc = "AAAABBBBCCCCDDDDEEEE".to_string();
    inst
}

#[test]
fn step_lists_have_the_documented_order() {
    assert_eq!(
        InstallerStep::installation_steps(),
        vec![
            InstallerStep::Inactive,
            InstallerStep::Install,
            InstallerStep::Validate,
            InstallerStep::UserData,
            InstallerStep::Register,
            InstallerStep::Done,
        ]
    );
    assert_eq!(
        InstallerStep::validation_steps(),
        vec![
            InstallerStep::Inactive,
            InstallerStep::Validate,
            InstallerStep::Register,
            InstallerStep::Done,
        ]
    );
}

#[test]
fn new_installer_is_idle_at_the_first_step() {
    let installer = Installer::new(InstallerStep::installation_steps());
    assert_eq!(installer.current_step, InstallerStep::Inactive);
    assert_eq!(installer.progress, 0);
    assert_eq!(installer.progress_message, "NONE");
    assert!(matches!(installer.processing_state, ProcessingState::Idle));
}

#[test]
fn proceed_walks_the_installation_path() {
    let inst = test_installation();
    let mut installer = Installer::new(InstallerStep::installation_steps());

    let action = installer.proceed(&inst);
    assert_eq!(installer.current_step, InstallerStep::Install);
    assert!(matches!(action, InstallerAction::Nothing));
    match &installer.processing_state {
        ProcessingState::Installation(game, source, path, percent, message) => {
            assert_eq!(*game, Game::BFME2);
            assert_eq!(source, "C:/source");
            assert_eq!(path, "C:/games/bfme2");
            assert_eq!(*percent, 0);
            assert_eq!(message, "");
        }
        _ => panic!("expected the installation state"),
    }

    let action = installer.proceed(&inst);
    assert_eq!(installer.current_step, InstallerStep::Validate);
    match action {
        InstallerAction::EnumerateFiles { install_path } => {
            assert_eq!(install_path, "C:/games/bfme2");
        }
        other => panic!("expected a file enumeration request, got {:?}", other),
    }

    let action = installer.proceed(&inst);
    assert_eq!(installer.current_step, InstallerStep::UserData);
    assert!(matches!(action, InstallerAction::Nothing));

    let action = installer.proceed(&inst);
    assert_eq!(installer.current_step, InstallerStep::Register);
    match action {
        InstallerAction::Register { install_path, ergc, checksum, game } => {
            assert_eq!(install_path, "C:/games/bfme2");
            assert_eq!(ergc, "AAAABBBBCCCCDDDDEEEE");
            assert_eq!(checksum, "");
            assert_eq!(game, Game::BFME2);
        }
        other => panic!("expected a registration request, got {:?}", other),
    }

    let action = installer.update(&inst, InstallerEvent::RegistrationDone);
    assert_eq!(installer.current_step, InstallerStep::Done);
    match action {
        InstallerAction::NotifyComplete(game) => assert_eq!(game, Game::BFME2),
        other => panic!("expected a completion notice, got {:?}", other),
    }
}

fn run_validation(inst: &Installation, files: Vec<String>, events: Vec<InstallationProgress>) -> (Installer, Vec<InstallerAction>) {
    let mut installer = Installer::new(InstallerStep::validation_steps());
    installer.proceed(inst);
    assert_eq!(installer.current_step, InstallerStep::Validate);
    installer.begin_validation(inst.path.clone(), files);
    let mut last = Vec::new();
    for event in events {
        last = installer.on_progress(inst, event);
    }
    (installer, last)
}

#[test]
fn validation_writes_a_sorted_manifest_when_every_file_answered() {
    // Three files of known bytes, results arriving out of order: once the
    // running count equals the file count, the manifest content is the three
    // lines sorted by path, each `path|<32-hex digest>`.
    let inst = test_installation();
    let files = vec!["b.txt".to_string(), "a.txt".to_string(), "c/d.txt".to_string()];
    let events = vec![
        InstallationProgress::ChecksumResult(
            "c/d.txt".to_string(),
            "ee4c01a8d795a2666442302bf0848d1d".to_string(),
        ),
        InstallationProgress::ChecksumResult(
            "a.txt".to_string(),
            "9f9f90dbe3e5ee1218c86b8839db1995".to_string(),
        ),
        InstallationProgress::ChecksumResult(
            "b.txt".to_string(),
            "fd9ab41e47a9ef4f6477a8a000bf404f".to_string(),
        ),
    ];
    let (installer, actions) = run_validation(&inst, files.clone(), events.clone());
    assert_eq!(installer.current_step, InstallerStep::Register);
    assert_eq!(actions.len(), 2);
    let expected_content = "a.txt|9f9f90dbe3e5ee1218c86b8839db1995\nb.txt|fd9ab41e47a9ef4f6477a8a000bf404f\nc/d.txt|ee4c01a8d795a2666442302bf0848d1d";
    match &actions[0] {
        InstallerAction::WriteManifest { install_path, content, game } => {
            assert_eq!(install_path, "C:/games/bfme2");
            assert_eq!(content, expected_content);
            assert_eq!(*game, Game::BFME2);
        }
        other => panic!("expected the manifest write, got {:?}", other),
    }
    assert!(matches!(actions[1], InstallerAction::Register { .. }));

    // Running the same validation again yields a byte-identical manifest and
    // the identical fingerprint.
    let (_, actions_again) = run_validation(&inst, files, events);
    match &actions_again[0] {
        InstallerAction::WriteManifest { content, .. } => {
            assert_eq!(content, expected_content);
            assert_eq!(
                fingerprint_of_content(content),
                fingerprint_of_content(expected_content)
            );
            assert_eq!(
                fingerprint_of_content(content),
                "33ff32cd2596155b917b1b303355b314"
            );
        }
        other => panic!("expected the manifest write, got {:?}", other),
    }
}

#[test]
fn skipped_outcomes_count_toward_completion_but_not_the_manifest() {
    let inst = test_installation();
    let files = vec!["a.txt".to_string(), "checksums.txt".to_string()];
    let events = vec![
        InstallationProgress::Skipped,
        InstallationProgress::ChecksumResult(
            "a.txt".to_string(),
            "9f9f90dbe3e5ee1218c86b8839db1995".to_string(),
        ),
    ];
    let (_, actions) = run_validation(&inst, files, events);
    match &actions[0] {
        InstallerAction::WriteManifest { content, .. } => {
            assert_eq!(content, "a.txt|9f9f90dbe3e5ee1218c86b8839db1995");
        }
        other => panic!("expected the manifest write, got {:?}", other),
    }
}

#[test]
fn checksum_error_fails_the_pipeline_and_writes_no_manifest() {
    // A file deleted between enumeration and hashing: the unit reports
    // Errored, the orchestrator lands in Error with a message naming the
    // path, and no manifest write is requested.
    let inst = test_installation();
    let files = vec!["a.txt".to_string(), "gone.txt".to_string()];
    let mut installer = Installer::new(InstallerStep::validation_steps());
    installer.proceed(&inst);
    installer.begin_validation(inst.path.clone(), files);
    let actions = installer.on_progress(
        &inst,
        InstallationProgress::Errored("gone.txt: No such file or directory".to_string()),
    );
    assert!(actions.is_empty());
    assert_eq!(installer.current_step, InstallerStep::Error);
    match &installer.processing_state {
        ProcessingState::Failure(message) => {
            assert!(message.contains("gone.txt"));
        }
        _ => panic!("expected the failure state"),
    }
    // Whatever still arrives afterwards is swallowed.
    let actions = installer.on_progress(
        &inst,
        InstallationProgress::ChecksumResult("a.txt".to_string(), "00".to_string()),
    );
    assert!(actions.is_empty());
    assert_eq!(installer.current_step, InstallerStep::Error);
}

#[test]
fn extraction_progress_updates_the_live_state() {
    let inst = test_installation();
    let mut installer = Installer::new(InstallerStep::installation_steps());
    installer.proceed(&inst);
    let actions = installer.on_progress(
        &inst,
        InstallationProgress::Extracting(40, "vol_2.tar.gz".to_string()),
    );
    assert!(actions.is_empty());
    match &installer.processing_state {
        ProcessingState::Installation(_, _, _, percent, message) => {
            assert_eq!(*percent, 40);
            assert_eq!(message, "vol_2.tar.gz");
        }
        _ => panic!("expected the installation state"),
    }
    let actions = installer.on_progress(&inst, InstallationProgress::Finished);
    assert_eq!(installer.current_step, InstallerStep::Validate);
    assert_eq!(actions.len(), 1);
    assert!(matches!(actions[0], InstallerAction::EnumerateFiles { .. }));
}

#[test]
fn userdata_completion_requests_options_templating() {
    let inst = test_installation();
    let mut installer = Installer::new(InstallerStep::installation_steps());
    installer.proceed(&inst);
    installer.on_progress(&inst, InstallationProgress::Finished);
    assert_eq!(installer.current_step, InstallerStep::Validate);
    installer.begin_validation(inst.path.clone(), vec!["a.txt".to_string()]);
    installer.on_progress(
        &inst,
        InstallationProgress::ChecksumResult("a.txt".to_string(), "00".to_string()),
    );
    assert_eq!(installer.current_step, InstallerStep::UserData);
    let actions = installer.on_progress(&inst, InstallationProgress::Finished);
    assert_eq!(installer.current_step, InstallerStep::Register);
    assert_eq!(actions.len(), 2);
    match actions[0] {
        InstallerAction::TemplateUserOptions { resolution } => {
            assert_eq!(resolution, (1024, 768));
        }
        ref other => panic!("expected the options templating request, got {:?}", other),
    }
    assert!(matches!(actions[1], InstallerAction::Register { .. }));
}

#[test]
fn subscriptions_follow_the_live_state() {
    let mut inst = test_installation();
    let mut installer = Installer::new(InstallerStep::installation_steps());
    assert!(matches!(installer.subscriptions(&inst), WorkPlan::Nothing));

    installer.proceed(&inst);
    match installer.subscriptions(&inst) {
        WorkPlan::MainExtraction { game, install_source, install_path } => {
            assert_eq!(game, Game::BFME2);
            assert_eq!(install_source, "C:/source");
            assert_eq!(install_path, "C:/games/bfme2");
        }
        other => panic!("expected the main extraction plan, got {:?}", other),
    }

    installer.on_progress(&inst, InstallationProgress::Finished);
    installer.begin_validation(inst.path.clone(), vec!["a.txt".to_string(), "b.txt".to_string()]);
    match installer.subscriptions(&inst) {
        WorkPlan::Checksums(units) => {
            assert_eq!(units.len(), 2);
            assert_eq!(units[0].id, 0);
            assert_eq!(units[0].install_path, "C:/games/bfme2");
            assert_eq!(units[0].path, "a.txt");
            assert_eq!(units[1].id, 1);
            assert_eq!(units[1].path, "b.txt");
        }
        other => panic!("expected checksum units, got {:?}", other),
    }

    // Userdata work exists only for an identified installation.
    installer.on_progress(
        &inst,
        InstallationProgress::ChecksumResult("a.txt".to_string(), "00".to_string()),
    );
    installer.on_progress(
        &inst,
        InstallationProgress::ChecksumResult("b.txt".to_string(), "11".to_string()),
    );
    assert_eq!(installer.current_step, InstallerStep::UserData);
    assert!(matches!(installer.subscriptions(&inst), WorkPlan::Nothing));
    inst.checksum = "593616de15330c0fb2d55e55410bf994".to_string();
    match installer.subscriptions(&inst) {
        WorkPlan::UserdataExtraction { queue } => {
            assert_eq!(queue, vec!["C:/source/userdata.bfme2.tar.gz".to_string()]);
        }
        other => panic!("expected the userdata extraction plan, got {:?}", other),
    }
}
