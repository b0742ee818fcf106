//! The installation orchestrator: a step state machine that walks a chosen
//! path of steps, routes progress events from the extractor and the
//! checksum pool, aggregates checksum results into the manifest, and turns
//! every decision into an explicit action for the caller to perform.

use vstd::prelude::*;

verus! {

use crate::checksums::ChecksumGenerator;
use crate::common::{Game, Installation, InstallationProgress};
use crate::manifest::{serialize_entries, sort_by_path_spec, views_of, FileEntry};

/// Events the caller feeds back into the orchestrator.
#[derive(Debug, Clone)]
pub enum InstallerEvent {
    Next,
    RegistrationDone,
}

/// The steps of the installation pipeline, in the order a path list names
/// them; `Error` is the absorbing failure step.
#[derive(Debug, Clone, Copy, PartialEq, Eq, Structural)]
pub enum InstallerStep {
    Inactive,
    Register,
    Download,
    Install,
    Validate,
    UserData,
    Done,
    Error,
}

impl InstallerStep {
    /// The full installation path: extract, verify, provision user data,
    /// register, done.
    pub fn installation_steps() -> (r: Vec<InstallerStep>)
        ensures
            r@ == seq![
                InstallerStep::Inactive,
                InstallerStep::Install,
                InstallerStep::Validate,
                InstallerStep::UserData,
                InstallerStep::Register,
                InstallerStep::Done,
            ],
    {
        let mut r: Vec<InstallerStep> = Vec::new();
        r.push(InstallerStep::Inactive);
        r.push(InstallerStep::Install);
        r.push(InstallerStep::Validate);
        r.push(InstallerStep::UserData);
        r.push(InstallerStep::Register);
        r.push(InstallerStep::Done);
        proof {
            assert(r@ =~= seq![
                InstallerStep::Inactive,
                InstallerStep::Install,
                InstallerStep::Validate,
                InstallerStep::UserData,
                InstallerStep::Register,
                InstallerStep::Done,
            ]);
        }
        r
    }

    /// The verify-only path: validate an existing installation and
    /// re-register it, without reinstalling.
    pub fn validation_steps() -> (r: Vec<InstallerStep>)
        ensures
            r@ == seq![
                InstallerStep::Inactive,
                InstallerStep::Validate,
                InstallerStep::Register,
                InstallerStep::Done,
            ],
    {
        let mut r: Vec<InstallerStep> = Vec::new();
        r.push(InstallerStep::Inactive);
        r.push(InstallerStep::Validate);
        r.push(InstallerStep::Register);
        r.push(InstallerStep::Done);
        proof {
            assert(r@ =~= seq![
                InstallerStep::Inactive,
                InstallerStep::Validate,
                InstallerStep::Register,
                InstallerStep::Done,
            ]);
        }
        r
    }
}

/// What the orchestrator is busy with: exactly one variant is live at a
/// time, carrying the data needed to resume or report that stage.
#[derive(Debug)]
pub enum ProcessingState {
    Validation(String, Vec<String>, Vec<InstallationProgress>, String),
    Installation(Game, String, String, u32, String),
    UserDataInstallation(Game, String, u32, String),
    Failure(String),
    Idle,
}

/// One side effect the caller must perform for the orchestrator: the
/// orchestrator itself never touches the disk, the registry or the clock.
#[derive(Debug)]
pub enum InstallerAction {
    Nothing,
    Register { install_path: String, ergc: String, checksum: String, game: Game },
    EnumerateFiles { install_path: String },
    WriteManifest { install_path: String, content: String, game: Game },
    TemplateUserOptions { resolution: (u32, u32) },
    NotifyComplete(Game),
}

/// The work the caller should be running for the live processing state.
#[derive(Debug)]
pub enum WorkPlan {
    Nothing,
    Checksums(Vec<ChecksumGenerator<usize>>),
    MainExtraction { game: Game, install_source: String, install_path: String },
    UserdataExtraction { queue: Vec<String> },
}

/// The orchestrator: the current step, the chosen path of steps, displayed
/// progress, and the live processing state.
#[derive(Debug)]
pub struct Installer {
    pub current_step: InstallerStep,
    pub progress: u32,
    pub progress_message: String,
    pub steps: Vec<InstallerStep>,
    pub processing_state: ProcessingState,
}

/// The first position of a step in a path list, or -1.
pub open spec fn index_of_step(steps: Seq<InstallerStep>, s: InstallerStep) -> int
    decreases steps.len(),
{
    if steps.len() == 0 {
        -1
    } else if steps[0] == s {
        0
    } else if index_of_step(steps.drop_first(), s) == -1 {
        -1
    } else {
        1 + index_of_step(steps.drop_first(), s)
    }
}

pub proof fn lemma_index_of_step(steps: Seq<InstallerStep>, s: InstallerStep)
    ensures
        index_of_step(steps, s) == -1 ==> forall|i: int| 0 <= i < steps.len() ==> steps[i] != s,
        index_of_step(steps, s) != -1 ==> {
            &&& 0 <= index_of_step(steps, s) < steps.len()
            &&& steps[index_of_step(steps, s)] == s
            &&& forall|i: int| 0 <= i < index_of_step(steps, s) ==> steps[i] != s
        },
    decreases steps.len(),
{
    if steps.len() > 0 {
        lemma_index_of_step(steps.drop_first(), s);
        assert(forall|i: int| 1 <= i < steps.len() ==> steps[i] == steps.drop_first()[i - 1]);
    }
}

/// A step a path list may advance into.
pub open spec fn allowed_next(s: InstallerStep) -> bool {
    ||| s is Install
    ||| s is Validate
    ||| s is UserData
    ||| s is Register
    ||| s is Done
}

/// The recorded installation source, where there is one.
pub open spec fn source_of(inst: Installation) -> Seq<char> {
    match inst.install_source {
        Some(s) => s@,
        None => Seq::<char>::empty(),
    }
}

/// The orchestrator may advance one step: the current step is on the path,
/// a successor follows it, the successor is a step the pipeline can enter,
/// and the data the successor needs is present.
pub open spec fn can_proceed(ins: Installer, inst: Installation) -> bool {
    let i = index_of_step(ins.steps@, ins.current_step);
    &&& i >= 0
    &&& i + 1 < ins.steps@.len()
    &&& allowed_next(ins.steps@[i + 1])
    &&& ((ins.steps@[i + 1] is Install || ins.steps@[i + 1] is UserData)
        ==> inst.install_source is Some)
}

/// The step after the current one on the path.
pub open spec fn next_of(ins: Installer) -> InstallerStep {
    ins.steps@[index_of_step(ins.steps@, ins.current_step) + 1]
}

/// Everything `proceed` promises: the orchestrator moves to the successor
/// step, the processing state and the returned action are exactly what
/// that step calls for, and nothing else changes.
pub open spec fn proceed_post(
    pre: Installer,
    post: Installer,
    inst: Installation,
    action: InstallerAction,
) -> bool {
    &&& post.steps@ == pre.steps@
    &&& post.progress == pre.progress
    &&& post.progress_message == pre.progress_message
    &&& post.current_step == next_of(pre)
    &&& match next_of(pre) {
        InstallerStep::Register => post.processing_state is Idle && (action matches
            InstallerAction::Register { install_path, ergc, checksum, game } && install_path@
            == inst.path@ && ergc@ == inst.ergc@ && checksum@ == inst.checksum@ && game
            == inst.game),
        InstallerStep::Install => (post.processing_state matches ProcessingState::Installation(
            g,
            src,
            ip,
            pr,
            m,
        ) && g == inst.game && src@ == source_of(inst) && ip@ == inst.path@ && pr == 0 && m@
            == Seq::<char>::empty()) && action is Nothing,
        InstallerStep::Validate => post.processing_state is Idle && (action matches
            InstallerAction::EnumerateFiles { install_path } && install_path@ == inst.path@),
        InstallerStep::UserData => (post.processing_state matches
            ProcessingState::UserDataInstallation(g, src, pr, m) && g == inst.game && src@
            == source_of(inst) && pr == 0 && m@ == Seq::<char>::empty()) && action is Nothing,
        InstallerStep::Done => post.processing_state is Idle && (action matches
            InstallerAction::NotifyComplete(g) && g == inst.game),
        _ => false,
    }
}

/// The position of a step on the path, where it is known to be on it.
fn find_step_index(steps: &Vec<InstallerStep>, s: InstallerStep) -> (r: usize)
    requires
        index_of_step(steps@, s) >= 0,
    ensures
        r as int == index_of_step(steps@, s),
        r < steps@.len(),
        steps@[r as int] == s,
{
    proof {
        lemma_index_of_step(steps@, s);
    }
    let n = steps.len();
    let mut i: usize = 0;
    while i < n
        invariant
            i <= n,
            n == steps@.len(),
            forall|m: int| 0 <= m < i ==> steps@[m] != s,
            index_of_step(steps@, s) >= 0,
            0 <= index_of_step(steps@, s) < steps@.len(),
            steps@[index_of_step(steps@, s)] == s,
            forall|m: int| 0 <= m < index_of_step(steps@, s) ==> steps@[m] != s,
        decreases n - i,
    {
        if steps[i] == s {
            proof {
                let f = index_of_step(steps@, s);
                if f < i {
                    assert(steps@[f] != s);
                    assert(false);
                }
                if f > i {
                    assert(steps@[i as int] != s);
                    assert(false);
                }
            }
            return i;
        }
        i = i + 1;
    }
    proof {
        let f = index_of_step(steps@, s);
        assert(steps@[f] != s);
        assert(false);
    }
    vstd::pervasive::unreached()
}

impl Installer {
    /// A fresh orchestrator standing at the first step of the chosen path,
    /// idle, with no progress yet.
    pub fn new(steps: Vec<InstallerStep>) -> (r: Installer)
        requires
            steps@.len() > 0,
        ensures
            r.current_step == steps@[0],
            r.progress == 0,
            r.progress_message@ == "NONE"@,
            r.steps@ == steps@,
            r.processing_state is Idle,
    {
        let current_step = steps[0];
        Installer {
            current_step,
            progress: 0,
            progress_message: "NONE".to_owned(),
            steps,
            processing_state: ProcessingState::Idle,
        }
    }

    /// Advance exactly one step along the path and set up the new step's
    /// processing state; the returned action is the side effect the caller
    /// must now perform.
    pub fn proceed(&mut self, installation: &Installation) -> (r: InstallerAction)
        requires
            can_proceed(*old(self), *installation),
        ensures
            proceed_post(*old(self), *final (self), *installation, r),
    {
        let i = find_step_index(&self.steps, self.current_step);
        let n = self.steps.len();
        proof {
            assert(i < n);
            assert(i as int + 1 < self.steps@.len());
        }
        self.current_step = self.steps[i + 1];
        self.processing_state = ProcessingState::Idle;
        match self.current_step {
            InstallerStep::Register => InstallerAction::Register {
                install_path: installation.path.clone(),
                ergc: installation.ergc.clone(),
                checksum: installation.checksum.clone(),
                game: installation.game,
            },
            InstallerStep::Install => {
                let source = match &installation.install_source {
                    Some(s) => s.clone(),
                    None => {
                        proof {
                            assert(false);
                        }
                        vstd::pervasive::unreached()
                    },
                };
                self.processing_state = ProcessingState::Installation(
                    installation.game,
                    source,
                    installation.path.clone(),
                    0,
                    String::new(),
                );
                InstallerAction::Nothing
            },
            InstallerStep::Validate => InstallerAction::EnumerateFiles {
                install_path: installation.path.clone(),
            },
            InstallerStep::UserData => {
                let source = match &installation.install_source {
                    Some(s) => s.clone(),
                    None => {
                        proof {
                            assert(false);
                        }
                        vstd::pervasive::unreached()
                    },
                };
                self.processing_state = ProcessingState::UserDataInstallation(
                    installation.game,
                    source,
                    0,
                    String::new(),
                );
                InstallerAction::Nothing
            },
            InstallerStep::Done => InstallerAction::NotifyComplete(installation.game),
            _ => {
                proof {
                    assert(false);
                }
                vstd::pervasive::unreached()
            },
        }
    }

    /// Route a caller event: both kinds advance the pipeline one step.
    pub fn update(&mut self, installation: &Installation, event: InstallerEvent) -> (r:
        InstallerAction)
        requires
            can_proceed(*old(self), *installation),
        ensures
            proceed_post(*old(self), *final (self), *installation, r),
    {
        match event {
            InstallerEvent::Next => self.proceed(installation),
            InstallerEvent::RegistrationDone => self.proceed(installation),
        }
    }

    /// Enter the verification stage with the enumerated file list: results
    /// will be accumulated against it until every file has answered.
    pub fn begin_validation(&mut self, install_path: String, files: Vec<String>)
        ensures
            final (self).processing_state matches ProcessingState::Validation(ip, fs, rs, ip2)
                && ip == install_path && fs == files && rs@ == Seq::<
                InstallationProgress,
            >::empty() && ip2 == install_path,
            final (self).current_step == old(self).current_step,
            final (self).steps@ == old(self).steps@,
            final (self).progress == old(self).progress,
            final (self).progress_message == old(self).progress_message,
    {
        let path2 = install_path.clone();
        proof {
            assert(path2 == install_path);
        }
        self.processing_state = ProcessingState::Validation(install_path, files, Vec::new(), path2);
    }
}

/// The entries among accumulated outcome events: each checksum result's
/// path and digest, in arrival order; skips carry no entry.
pub open spec fn checksum_entries(events: Seq<InstallationProgress>) -> Seq<(Seq<char>, Seq<char>)>
    decreases events.len(),
{
    if events.len() == 0 {
        Seq::empty()
    } else {
        checksum_entries(events.drop_last()) + match events.last() {
            InstallationProgress::ChecksumResult(p, c) => seq![(p@, c@)],
            _ => Seq::<(Seq<char>, Seq<char>)>::empty(),
        }
    }
}

/// The actions one advance yields: none for `Nothing`, else the action
/// itself.
pub open spec fn actions_of(a: InstallerAction) -> Seq<InstallerAction> {
    if a is Nothing {
        Seq::empty()
    } else {
        seq![a]
    }
}

fn push_action(acts: &mut Vec<InstallerAction>, a: InstallerAction)
    ensures
        final (acts)@ == old(acts)@ + actions_of(a),
{
    let ghost a0 = a;
    match a {
        InstallerAction::Nothing => {
            proof {
                assert(acts@ + Seq::<InstallerAction>::empty() =~= acts@);
            }
        },
        other => {
            acts.push(other);
            proof {
                assert(old(acts)@.push(a0) =~= old(acts)@ + seq![a0]);
            }
        },
    }
}

/// Whether an event can make the orchestrator advance a step out of this
/// state: a finish of the live stage, or the checksum outcome that
/// completes the enumerated count.
pub open spec fn may_advance(st: ProcessingState, p: InstallationProgress) -> bool {
    match st {
        ProcessingState::Validation(_, files, results, _) => (p is ChecksumResult
            || p is Skipped) && results@.len() + 1 >= files@.len(),
        ProcessingState::Installation(_, _, _, _, _) => p is Finished,
        ProcessingState::UserDataInstallation(_, _, _, _) => p is Finished,
        ProcessingState::Idle => p is Finished,
        ProcessingState::Failure(_) => false,
    }
}

/// The frame of `on_progress` on the orchestrator's other fields.
pub open spec fn frame_unchanged(pre: Installer, post: Installer) -> bool {
    &&& post.current_step == pre.current_step
    &&& post.steps@ == pre.steps@
    &&& post.progress == pre.progress
    &&& post.progress_message == pre.progress_message
}

/// Everything `on_progress` promises, case by case over the live state and
/// the event.
pub open spec fn on_progress_post(
    pre: Installer,
    post: Installer,
    inst: Installation,
    progress: InstallationProgress,
    acts: Seq<InstallerAction>,
) -> bool {
    match progress {
        InstallationProgress::Errored(m) => {
            &&& post.current_step is Error
            &&& post.steps@ == pre.steps@
            &&& post.progress == pre.progress
            &&& post.progress_message == pre.progress_message
            &&& (post.processing_state matches ProcessingState::Failure(fm) && fm == m)
            &&& acts == Seq::<InstallerAction>::empty()
        },
        _ => match pre.processing_state {
            ProcessingState::Failure(fm) => {
                &&& frame_unchanged(pre, post)
                &&& (post.processing_state matches ProcessingState::Failure(fm2) && fm2 == fm)
                &&& acts == Seq::<InstallerAction>::empty()
            },
            ProcessingState::Validation(ip, files, results, ip2) => {
                if progress is ChecksumResult || progress is Skipped {
                    if results@.len() + 1 < files@.len() {
                        &&& frame_unchanged(pre, post)
                        &&& (post.processing_state matches ProcessingState::Validation(a, b, c, d)
                            && a == ip && b == files && c@ == results@.push(progress) && d == ip2)
                        &&& acts == Seq::<InstallerAction>::empty()
                    } else {
                        exists|a2: InstallerAction|
                            {
                                &&& #[trigger] proceed_post(pre, post, inst, a2)
                                &&& acts.len() >= 1
                                &&& (acts[0] matches InstallerAction::WriteManifest {
                                    install_path,
                                    content,
                                    game,
                                } && install_path@ == ip@ && game == inst.game && content@
                                    == serialize_entries(
                                    sort_by_path_spec(checksum_entries(results@.push(progress))),
                                ))
                                &&& acts.skip(1) == actions_of(a2)
                            }
                    }
                } else {
                    &&& frame_unchanged(pre, post)
                    &&& (post.processing_state matches ProcessingState::Validation(a, b, c, d) && a
                        == ip && b == files && c == results && d == ip2)
                    &&& acts == Seq::<InstallerAction>::empty()
                }
            },
            ProcessingState::Installation(g, src, ip, pr, m) => {
                match progress {
                    InstallationProgress::Extracting(p, pm) => {
                        &&& frame_unchanged(pre, post)
                        &&& (post.processing_state matches ProcessingState::Installation(
                            g2,
                            src2,
                            ip2,
                            pr2,
                            m2,
                        ) && g2 == g && src2 == src && ip2 == ip && pr2 == p && m2 == pm)
                        &&& acts == Seq::<InstallerAction>::empty()
                    },
                    InstallationProgress::Finished => exists|a2: InstallerAction|
                        #[trigger] proceed_post(pre, post, inst, a2) && acts == actions_of(a2),
                    _ => {
                        &&& frame_unchanged(pre, post)
                        &&& (post.processing_state matches ProcessingState::Installation(
                            g2,
                            src2,
                            ip2,
                            pr2,
                            m2,
                        ) && g2 == g && src2 == src && ip2 == ip && pr2 == pr && m2 == m)
                        &&& acts == Seq::<InstallerAction>::empty()
                    },
                }
            },
            ProcessingState::UserDataInstallation(g, src, pr, m) => {
                match progress {
                    InstallationProgress::Finished => exists|a2: InstallerAction|
                        {
                            &&& #[trigger] proceed_post(pre, post, inst, a2)
                            &&& acts.len() >= 1
                            &&& (acts[0] matches InstallerAction::TemplateUserOptions { resolution }
                                && resolution == inst.resolution)
                            &&& acts.skip(1) == actions_of(a2)
                        },
                    InstallationProgress::Extracting(p, pm) => {
                        &&& frame_unchanged(pre, post)
                        &&& (post.processing_state matches
                            ProcessingState::UserDataInstallation(g2, src2, pr2, m2) && g2 == g
                            && src2 == src && pr2 == p && m2 == pm)
                        &&& acts == Seq::<InstallerAction>::empty()
                    },
                    _ => {
                        &&& frame_unchanged(pre, post)
                        &&& (post.processing_state matches
                            ProcessingState::UserDataInstallation(g2, src2, pr2, m2) && g2 == g
                            && src2 == src && pr2 == pr && m2 == m)
                        &&& acts == Seq::<InstallerAction>::empty()
                    },
                }
            },
            ProcessingState::Idle => {
                match progress {
                    InstallationProgress::Finished => exists|a2: InstallerAction|
                        #[trigger] proceed_post(pre, post, inst, a2) && acts == actions_of(a2),
                    _ => {
                        &&& frame_unchanged(pre, post)
                        &&& post.processing_state is Idle
                        &&& acts == Seq::<InstallerAction>::empty()
                    },
                }
            },
        }
    }
}

impl Installer {
    /// Route one progress event. An error event is checked first and
    /// unconditionally moves the pipeline to its absorbing `Error` step,
    /// recording the message; the failure state then swallows everything
    /// that still arrives. A checksum outcome accumulates until every
    /// enumerated file has answered, at which point the entries are sorted,
    /// serialized, and handed out to be persisted, and the pipeline
    /// advances. Extraction progress updates the live state; a finish
    /// advances the pipeline; anything unexpected for the live state is
    /// ignored.
    pub fn on_progress(&mut self, installation: &Installation, progress: InstallationProgress)
        -> (r: Vec<InstallerAction>)
        requires
            !(progress is Errored) && may_advance(old(self).processing_state, progress)
                ==> can_proceed(*old(self), *installation),
        ensures
            on_progress_post(*old(self), *final (self), *installation, progress, r@),
    {
        let ghost pre = *self;
        let progress = match progress {
            InstallationProgress::Errored(m) => {
                self.processing_state = ProcessingState::Failure(m);
                self.current_step = InstallerStep::Error;
                return Vec::new();
            },
            p => p,
        };
        let mut state = ProcessingState::Idle;
        core::mem::swap(&mut state, &mut self.processing_state);
        match state {
            ProcessingState::Failure(fm) => {
                self.processing_state = ProcessingState::Failure(fm);
                Vec::new()
            },
            ProcessingState::Validation(ip, files, mut results, ip2) => {
                let is_outcome = match &progress {
                    InstallationProgress::ChecksumResult(_, _) => true,
                    InstallationProgress::Skipped => true,
                    _ => false,
                };
                if !is_outcome {
                    self.processing_state = ProcessingState::Validation(ip, files, results, ip2);
                    return Vec::new();
                }
                let ghost results0 = results@;
                results.push(progress);
                if results.len() < files.len() {
                    self.processing_state = ProcessingState::Validation(ip, files, results, ip2);
                    return Vec::new();
                }
                let mut entries: Vec<FileEntry> = Vec::new();
                let rn = results.len();
                let mut k: usize = 0;
                proof {
                    assert(results@.subrange(0, 0) =~= Seq::<InstallationProgress>::empty());
                    assert(views_of(entries@) =~= checksum_entries(results@.subrange(0, 0)));
                }
                while k < rn
                    invariant
                        k <= rn,
                        rn == results@.len(),
                        views_of(entries@) == checksum_entries(results@.subrange(0, k as int)),
                    decreases rn - k,
                {
                    proof {
                        assert(results@.subrange(0, k + 1).drop_last() =~= results@.subrange(
                            0,
                            k as int,
                        ));
                        assert(results@.subrange(0, k + 1).last() == results@[k as int]);
                    }
                    match &results[k] {
                        InstallationProgress::ChecksumResult(p, c) => {
                            let entry = FileEntry { relative_path: p.clone(), digest: c.clone() };
                            proof {
                                crate::manifest::lemma_views_push(entries@, entry);
                                assert(views_of(entries@).push(entry@) =~= views_of(entries@)
                                    + seq![(p@, c@)]);
                            }
                            entries.push(entry);
                        },
                        _ => {
                            proof {
                                assert(views_of(entries@) + Seq::<
                                    (Seq<char>, Seq<char>),
                                >::empty() =~= views_of(entries@));
                            }
                        },
                    }
                    k = k + 1;
                }
                proof {
                    assert(results@.subrange(0, rn as int) =~= results@);
                }
                let sorted = crate::manifest::sort_entries(entries);
                let content = crate::manifest::serialize_manifest(&sorted);
                let wm = InstallerAction::WriteManifest {
                    install_path: ip,
                    content,
                    game: installation.game,
                };
                let a2 = self.proceed(installation);
                proof {
                    assert(proceed_post(pre, *self, *installation, a2));
                }
                let mut acts: Vec<InstallerAction> = Vec::new();
                acts.push(wm);
                push_action(&mut acts, a2);
                proof {
                    assert(acts@.skip(1) =~= actions_of(a2));
                }
                acts
            },
            ProcessingState::Installation(g, src, ip, pr, m) => {
                match progress {
                    InstallationProgress::Extracting(p, pm) => {
                        self.processing_state = ProcessingState::Installation(g, src, ip, p, pm);
                        Vec::new()
                    },
                    InstallationProgress::Finished => {
                        let a2 = self.proceed(installation);
                        proof {
                            assert(proceed_post(pre, *self, *installation, a2));
                        }
                        let mut acts: Vec<InstallerAction> = Vec::new();
                        push_action(&mut acts, a2);
                        proof {
                            assert(Seq::<InstallerAction>::empty() + actions_of(a2) =~= actions_of(
                                a2,
                            ));
                        }
                        acts
                    },
                    _ => {
                        self.processing_state = ProcessingState::Installation(g, src, ip, pr, m);
                        Vec::new()
                    },
                }
            },
            ProcessingState::UserDataInstallation(g, src, pr, m) => {
                match progress {
                    InstallationProgress::Finished => {
                        let template = InstallerAction::TemplateUserOptions {
                            resolution: installation.get_resolution(),
                        };
                        let a2 = self.proceed(installation);
                        proof {
                            assert(proceed_post(pre, *self, *installation, a2));
                        }
                        let mut acts: Vec<InstallerAction> = Vec::new();
                        acts.push(template);
                        push_action(&mut acts, a2);
                        proof {
                            assert(acts@.skip(1) =~= actions_of(a2));
                        }
                        acts
                    },
                    InstallationProgress::Extracting(p, pm) => {
                        self.processing_state = ProcessingState::UserDataInstallation(g, src, p, pm);
                        Vec::new()
                    },
                    _ => {
                        self.processing_state = ProcessingState::UserDataInstallation(
                            g,
                            src,
                            pr,
                            m,
                        );
                        Vec::new()
                    },
                }
            },
            ProcessingState::Idle => {
                match progress {
                    InstallationProgress::Finished => {
                        let a2 = self.proceed(installation);
                        proof {
                            assert(proceed_post(pre, *self, *installation, a2));
                        }
                        let mut acts: Vec<InstallerAction> = Vec::new();
                        push_action(&mut acts, a2);
                        proof {
                            assert(Seq::<InstallerAction>::empty() + actions_of(a2) =~= actions_of(
                                a2,
                            ));
                        }
                        acts
                    },
                    _ => Vec::new(),
                }
            },
        }
    }

    /// One checksum unit per enumerated file, each keyed by its index in
    /// the enumeration.
    pub fn validation_task(&self, install_path: &String, files: &Vec<String>) -> (r: Vec<
        ChecksumGenerator<usize>,
    >)
        ensures
            r@.len() == files@.len(),
            forall|i: int|
                0 <= i < r@.len() ==> (#[trigger] r@[i]).id == i && r@[i].install_path@
                    == install_path@ && r@[i].path@ == files@[i]@,
    {
        let n = files.len();
        let mut r: Vec<ChecksumGenerator<usize>> = Vec::new();
        let mut i: usize = 0;
        while i < n
            invariant
                i <= n,
                n == files@.len(),
                r@.len() == i,
                forall|m: int|
                    0 <= m < i ==> (#[trigger] r@[m]).id == m && r@[m].install_path@
                        == install_path@ && r@[m].path@ == files@[m]@,
            decreases n - i,
        {
            r.push(
                ChecksumGenerator {
                    id: i,
                    install_path: install_path.clone(),
                    path: files[i].clone(),
                },
            );
            i = i + 1;
        }
        r
    }

    /// The work the caller should run for the live state: one checksum
    /// unit per file during verification, the main volume extraction
    /// during installation, the single user-data volume during user-data
    /// provisioning — and none at all for an unidentified installation,
    /// at rest, or after a failure.
    pub fn subscriptions(&self, installation: &Installation) -> (r: WorkPlan)
        ensures
            match self.processing_state {
                ProcessingState::Validation(ref ip, ref files, _, _) => r matches
                    WorkPlan::Checksums(units) && units@.len() == files@.len() && forall|i: int|
                    0 <= i < units@.len() ==> (#[trigger] units@[i]).id == i
                        && units@[i].install_path@ == ip@ && units@[i].path@ == files@[i]@,
                ProcessingState::Installation(g, ref src, ref ip, _, _) => r matches
                    WorkPlan::MainExtraction { game, install_source, install_path } && game == g
                    && install_source@ == src@ && install_path@ == ip@,
                ProcessingState::UserDataInstallation(g, ref src, _, _) => if installation.checksum@.len()
                    == 0 {
                    r is Nothing
                } else {
                    r matches WorkPlan::UserdataExtraction { queue } && queue@.len() == 1
                        && queue@[0]@ == src@ + seq!['/'] + "userdata."@ + g.spec_name_lower()
                        + ".tar.gz"@
                },
                ProcessingState::Failure(_) => r is Nothing,
                ProcessingState::Idle => r is Nothing,
            },
    {
        match &self.processing_state {
            ProcessingState::Validation(ip, files, _, _) => WorkPlan::Checksums(
                self.validation_task(ip, files),
            ),
            ProcessingState::Installation(g, src, ip, _, _) => WorkPlan::MainExtraction {
                game: *g,
                install_source: src.clone(),
                install_path: ip.clone(),
            },
            ProcessingState::UserDataInstallation(g, src, _, _) => {
                if installation.checksum.as_str().is_empty() {
                    return WorkPlan::Nothing;
                }
                let mut name = src.clone();
                name.push('/');
                name.append("userdata.");
                let lower = g.name_lower();
                name.append(lower.as_str());
                name.append(".tar.gz");
                proof {
                    assert(name@ =~= src@ + seq!['/'] + "userdata."@ + g.spec_name_lower()
                        + ".tar.gz"@);
                }
                let mut queue: Vec<String> = Vec::new();
                queue.push(name);
                WorkPlan::UserdataExtraction { queue }
            },
            ProcessingState::Failure(_) => WorkPlan::Nothing,
            ProcessingState::Idle => WorkPlan::Nothing,
        }
    }
}

} // verus!

