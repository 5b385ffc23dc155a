//! What a whole run does, from a probed profile to a finished file.
//!
//! Each kind of run is prepared by a pure function, which gives a report for
//! the user and either a [`Job`] or a refusal. A job is then carried out step
//! by step: [`FlowState::action`] says what is to be done next, and
//! [`FlowState::next`] takes what came of it.

use vstd::prelude::*;

use crate::assess;
use crate::cli::FlowFlags;
use crate::error::{Error, ErrorView};
use crate::execute;
use crate::execute::{RunEvent, RunJob, RunState};
use crate::model::{Container, MediaProfile, Seconds};
use crate::path;
use crate::plan;
use crate::plan::{EncodeRecipe, Intent, Overrides, RecipeView};
use crate::text;

verus! {

// ---------------------------------------------------------------------------
// Jobs
// ---------------------------------------------------------------------------

/// What kind of run a job is.
#[derive(Debug, Clone, Copy, PartialEq, Eq, Structural)]
pub enum FlowKind {
    /// One input to an output of the user's.
    Single,
    /// Several inputs to one output.
    Concat,
    /// One input, upgraded in place.
    Upgrade,
}

/// What is to be written, and from what.
#[derive(Debug)]
pub struct Job {
    pub kind: FlowKind,
    pub inputs: Vec<String>,
    pub source_containers: Vec<Container>,
    pub output: String,
    /// Where the original is moved to before encoding, if it has to be.
    pub backup: Option<String>,
    pub recipe: EncodeRecipe,
    pub flags: FlowFlags,
}

impl Job {
    /// Every input has its container; only an upgrade has a backup, and then
    /// its paths are those of an upgrade of its one input.
    pub open spec fn wf(self) -> bool {
        &&& self.inputs@.len() == self.source_containers@.len()
        &&& self.inputs@.len() > 0
        &&& self.kind != FlowKind::Upgrade ==> self.backup is None
        &&& self.kind == FlowKind::Upgrade ==> {
            let input = self.inputs@[0]@;
            let container = self.recipe.output_container;
            &&& self.inputs@.len() == 1
            &&& self.recipe.concat is None
            &&& self.output@ == plan::upgrade_output(input, container)
            &&& text::opt_text(self.backup) == backup_of(input, container)
        }
    }

    /// Where the input is while ffmpeg runs.
    pub open spec fn encode_inputs(self) -> Seq<Seq<char>> {
        match self.backup {
            Some(backup) => seq![backup@],
            None => text::texts(self.inputs@),
        }
    }

    /// Whether `run` is the run of ffmpeg that the job asks for.
    pub open spec fn asks_for(self, run: RunJob) -> bool {
        &&& run.wf()
        &&& text::texts(run.inputs@) == self.encode_inputs()
        &&& run.source_containers@ == self.source_containers@
        &&& run.output == self.output
        &&& run.recipe@ == self.recipe@
        &&& run.overwrite == self.flags.overwrite
    }

    /// The run of ffmpeg that the job asks for.
    pub fn run_job(&self) -> (r: RunJob)
        requires
            self.wf(),
        ensures
            self.asks_for(r),
    {
        let inputs = match &self.backup {
            Some(backup) => {
                let mut inputs: Vec<String> = Vec::new();
                inputs.push(backup.clone());
                assert(text::texts(inputs@) =~= seq![backup@]);
                inputs
            },
            None => {
                let inputs = text::first_copies(&self.inputs, self.inputs.len());
                assert(inputs@ =~= self.inputs@);
                inputs
            },
        };
        let mut source_containers: Vec<Container> = Vec::new();
        for i in 0..self.source_containers.len()
            invariant
                source_containers@ == self.source_containers@.take(i as int),
        {
            source_containers.push(self.source_containers[i].clone());
            assert(source_containers@ =~= self.source_containers@.take(i + 1));
        }
        assert(source_containers@ =~= self.source_containers@);
        RunJob::new(
            inputs,
            source_containers,
            self.output.clone(),
            self.recipe.clone(),
            self.flags.overwrite,
        )
    }
}

/// Where the original is to be moved aside to, if it has to be.
pub open spec fn backup_of(input: Seq<char>, container: Container) -> Option<Seq<char>> {
    if path::same_path(plan::upgrade_output(input, container), input) {
        Some(plan::upgrade_backup(input, container))
    } else {
        None
    }
}

/// What came of preparing a run.
#[derive(Debug)]
pub enum Verdict {
    /// The run can go on.
    Proceed(Job),
    /// The run is refused, and this is why.
    Refused(String),
    /// No plan could be made.
    PlanFailed(Error),
}

/// What preparing a run shows the user, and what came of it.
#[derive(Debug)]
pub struct Preview {
    pub report: String,
    pub verdict: Verdict,
}

// ---------------------------------------------------------------------------
// Preparing
// ---------------------------------------------------------------------------

/// Whether a file is left alone: it has no issues, no action was asked for,
/// and processing was not forced.
pub open spec fn left_alone(profile: MediaProfile, intent: Intent, flags: FlowFlags) -> bool {
    intent is Auto && assess::issues_of(profile, intent).len() == 0 && !flags.force
}

/// Why a file is left alone.
pub open spec fn left_alone_text(input: Seq<char>) -> Seq<char> {
    input
        + " is already fine — pass --force to process anyway, or use --reencode / --intent for an explicit action."@
}

/// The profile of the input and its issues, if any.
pub open spec fn findings_text(input: Seq<char>, profile: MediaProfile, intent: Intent) -> Seq<
    char,
> {
    let issues = assess::issues_of(profile, intent);
    crate::format::profile_text(input, profile) + "\n"@ + (if issues.len() == 0 {
        Seq::empty()
    } else {
        "\n"@ + crate::format::issue_lines(issues) + "\n"@
    })
}

/// The plan for the profile, by its own issues.
pub open spec fn own_plan(profile: MediaProfile, intent: Intent, overrides: Overrides) -> Result<
    RecipeView,
    ErrorView,
> {
    plan::planned(profile, assess::issues_of(profile, intent), intent, overrides)
}

/// What the front half of a run for one input comes to: the findings, and a
/// refusal, an error or a recipe.
enum Front {
    Refused(String),
    Failed(Error),
    Recipe(EncodeRecipe),
}

/// Whether `front` is what a run for one input comes to before its output is
/// known.
spec fn is_front(
    input: Seq<char>,
    profile: MediaProfile,
    intent: Intent,
    overrides: Overrides,
    flags: FlowFlags,
    front: Front,
) -> bool {
    if left_alone(profile, intent, flags) {
        front matches Front::Refused(why) && why@ == left_alone_text(input)
    } else {
        match own_plan(profile, intent, overrides) {
            Ok(view) => front matches Front::Recipe(recipe) && recipe@ == view,
            Err(view) => front matches Front::Failed(error) && error@ == view,
        }
    }
}

/// Assess a profile and plan by the assessment.
fn examine(
    input: &str,
    profile: &MediaProfile,
    intent: &Intent,
    overrides: &Overrides,
    flags: FlowFlags,
) -> (r: (String, Front))
    requires
        intent.target_in_range(),
    ensures
        r.0@ == findings_text(input@, *profile, *intent),
        is_front(input@, *profile, *intent, *overrides, flags, r.1),
{
    let mut report = crate::format::render_profile(input, profile);
    report.append("\n");
    let assessment = assess::assess(profile, intent);
    let ghost seen = report@;
    if let Some(block) = crate::format::render_assessment(&assessment) {
        report.append("\n");
        report.append(block.as_str());
        report.append("\n");
    }
    assert(report@ =~= findings_text(input@, *profile, *intent));
    if matches!(intent, Intent::Auto) && assessment.is_fine() && !flags.force {
        let mut why = input.to_owned();
        why.append(
            " is already fine — pass --force to process anyway, or use --reencode / --intent for an explicit action.",
        );
        return (report, Front::Refused(why));
    }
    match plan::plan(profile, &assessment, intent, overrides) {
        Ok(recipe) => (report, Front::Recipe(recipe)),
        Err(error) => (report, Front::Failed(error)),
    }
}

/// Whether `job` turns `input` into `output` by a recipe.
pub open spec fn is_job(
    job: Job,
    kind: FlowKind,
    input: Seq<char>,
    container: Container,
    output: Seq<char>,
    recipe: RecipeView,
    flags: FlowFlags,
) -> bool {
    &&& job.wf()
    &&& job.kind == kind
    &&& text::texts(job.inputs@) == seq![input]
    &&& job.source_containers@ == seq![container]
    &&& job.output@ == output
    &&& job.recipe@ == recipe
    &&& job.flags == flags
}

/// Prepare a run from `input` to the user's output.
///
/// A file without issues is left alone unless an action was asked for or
/// forced. The report shows the profile, the issues and the plan.
pub fn prepare_single(
    input: &str,
    user_output: &str,
    intent: &Intent,
    overrides: &Overrides,
    flags: FlowFlags,
    profile: &MediaProfile,
) -> (r: Preview)
    requires
        intent.target_in_range(),
    ensures
        ({
            let findings = findings_text(input@, *profile, *intent);
            if left_alone(*profile, *intent, flags) {
                &&& r.report@ == findings + "\n"@
                &&& r.verdict matches Verdict::Refused(why) && why@ == left_alone_text(input@)
            } else {
                match own_plan(*profile, *intent, *overrides) {
                    Ok(recipe) => {
                        let output = plan::output_path(user_output@, recipe.output_container);
                        &&& r.report@ == findings + "\n"@ + crate::format::recipe_text(
                            recipe,
                            output,
                        ) + "\n"@
                        &&& r.verdict matches Verdict::Proceed(job) && is_job(
                            job,
                            FlowKind::Single,
                            input@,
                            profile.container,
                            output,
                            recipe,
                            flags,
                        )
                    },
                    Err(view) => {
                        &&& r.report@ == findings
                        &&& r.verdict matches Verdict::PlanFailed(error) && error@ == view
                    },
                }
            }
        }),
{
    let (mut report, front) = examine(input, profile, intent, overrides, flags);
    match front {
        Front::Refused(why) => {
            report.append("\n");
            Preview { report, verdict: Verdict::Refused(why) }
        },
        Front::Failed(error) => Preview { report, verdict: Verdict::PlanFailed(error) },
        Front::Recipe(recipe) => {
            let output = plan::resolve_output_path(user_output, &recipe);
            report.append("\n");
            report.append(crate::format::render_recipe(&recipe, output.as_str()).as_str());
            report.append("\n");
            let job = Job {
                kind: FlowKind::Single,
                inputs: vec![input.to_owned()],
                source_containers: vec![profile.container.clone()],
                output,
                backup: None,
                recipe,
                flags,
            };
            assert(text::texts(job.inputs@) =~= seq![input@]);
            assert(job.source_containers@ =~= seq![profile.container]);
            Preview { report, verdict: Verdict::Proceed(job) }
        },
    }
}

/// Prepare an upgrade of `input` in place.
///
/// As [`prepare_single`], but the output is computed from the input, and the
/// original is moved aside where the two would be the same file.
pub fn prepare_upgrade(
    input: &str,
    intent: &Intent,
    overrides: &Overrides,
    flags: FlowFlags,
    profile: &MediaProfile,
) -> (r: Preview)
    requires
        intent.target_in_range(),
    ensures
        ({
            let findings = findings_text(input@, *profile, *intent);
            if left_alone(*profile, *intent, flags) {
                &&& r.report@ == findings + "\n"@
                &&& r.verdict matches Verdict::Refused(why) && why@ == left_alone_text(input@)
            } else {
                match own_plan(*profile, *intent, *overrides) {
                    Ok(recipe) => {
                        let output = plan::upgrade_output(input@, recipe.output_container);
                        &&& r.report@ == findings + "\n"@ + crate::format::upgrade_recipe_text(
                            recipe,
                            input@,
                            output,
                            backup_of(input@, recipe.output_container),
                        ) + "\n"@
                        &&& r.verdict matches Verdict::Proceed(job) && is_job(
                            job,
                            FlowKind::Upgrade,
                            input@,
                            profile.container,
                            output,
                            recipe,
                            flags,
                        )
                    },
                    Err(view) => {
                        &&& r.report@ == findings
                        &&& r.verdict matches Verdict::PlanFailed(error) && error@ == view
                    },
                }
            }
        }),
{
    let (mut report, front) = examine(input, profile, intent, overrides, flags);
    match front {
        Front::Refused(why) => {
            report.append("\n");
            Preview { report, verdict: Verdict::Refused(why) }
        },
        Front::Failed(error) => Preview { report, verdict: Verdict::PlanFailed(error) },
        Front::Recipe(recipe) => {
            let paths = plan::resolve_upgrade_paths(input, &recipe);
            report.append("\n");
            report.append(
                crate::format::render_upgrade_recipe(
                    &recipe,
                    input,
                    paths.output.as_str(),
                    &paths.backup,
                ).as_str(),
            );
            report.append("\n");
            let job = Job {
                kind: FlowKind::Upgrade,
                inputs: vec![input.to_owned()],
                source_containers: vec![profile.container.clone()],
                output: paths.output,
                backup: paths.backup,
                recipe,
                flags,
            };
            assert(job.recipe@.concat == job.recipe.concat);
            assert(text::texts(job.inputs@) =~= seq![input@]);
            assert(text::texts(job.inputs@)[0] == job.inputs@[0]@);
            assert(job.source_containers@ =~= seq![profile.container]);
            Preview { report, verdict: Verdict::Proceed(job) }
        },
    }
}

/// The containers of profiles.
pub open spec fn containers_of(profiles: Seq<MediaProfile>) -> Seq<Container> {
    profiles.map_values(|p: MediaProfile| p.container)
}

/// Prepare to join `inputs` into the user's output.
///
/// The profiles correspond to the inputs one to one. The report shows the
/// plan; each profile is shown as soon as its input is probed.
pub fn prepare_concat(
    inputs: Vec<String>,
    user_output: &str,
    overrides: &Overrides,
    flags: FlowFlags,
    profiles: &[MediaProfile],
) -> (r: Preview)
    requires
        inputs@.len() == profiles@.len(),
    ensures
        match plan::concat_planned(inputs@, profiles@, *overrides) {
            Ok(recipe) => {
                let output = plan::output_path(user_output@, recipe.output_container);
                &&& r.report@ == "\n"@ + crate::format::concat_recipe_text(
                    recipe,
                    inputs@.len(),
                    output,
                ) + "\n"@
                &&& r.verdict matches Verdict::Proceed(job)
                &&& job.wf()
                &&& job.kind == FlowKind::Concat
                &&& job.inputs == inputs
                &&& job.source_containers@ == containers_of(profiles@)
                &&& job.output@ == output
                &&& job.recipe@ == recipe
                &&& job.flags == flags
            },
            Err(view) => {
                &&& r.report@ == Seq::<char>::empty()
                &&& r.verdict matches Verdict::PlanFailed(error) && error@ == view
            },
        },
{
    match plan::plan_concat(inputs.as_slice(), profiles, overrides) {
        Err(error) => Preview { report: String::new(), verdict: Verdict::PlanFailed(error) },
        Ok(recipe) => {
            let output = plan::resolve_output_path(user_output, &recipe);
            let mut report = "\n".to_owned();
            report.append(
                crate::format::render_concat_recipe(
                    &recipe,
                    inputs.as_slice(),
                    output.as_str(),
                ).as_str(),
            );
            report.append("\n");
            let mut source_containers: Vec<Container> = Vec::new();
            for i in 0..profiles.len()
                invariant
                    source_containers@ == containers_of(profiles@).take(i as int),
            {
                source_containers.push(profiles[i].container.clone());
                assert(source_containers@ =~= containers_of(profiles@).take(i + 1));
            }
            assert(source_containers@ =~= containers_of(profiles@));
            let job = Job {
                kind: FlowKind::Concat,
                inputs,
                source_containers,
                output,
                backup: None,
                recipe,
                flags,
            };
            Preview { report, verdict: Verdict::Proceed(job) }
        },
    }
}

// ---------------------------------------------------------------------------
// Carrying a job out
// ---------------------------------------------------------------------------

/// What became of the original when encoding failed.
#[derive(Debug)]
pub enum Restored {
    /// It was never moved.
    NotMoved,
    /// It is back at its path.
    Back,
    /// It could not be moved back, and this is why.
    Stranded(String),
}

/// Why the user gave no answer.
#[derive(Debug)]
pub enum NoAnswer {
    /// There is no terminal, and so nobody to ask.
    NoTerminal,
    /// The answer could not be read, and this is why.
    Unreadable(String),
}

/// Why a job failed.
#[derive(Debug)]
pub enum FlowFailure {
    /// The output of an upgrade exists.
    OutputExists,
    /// The backup of an earlier upgrade exists.
    BackupExists,
    /// There is no ffmpeg to show a command for.
    FfmpegNotFound(String),
    /// The user could not be asked.
    NotAsked(NoAnswer),
    /// The original could not be moved aside.
    NotMovedAside(String),
    /// Encoding failed.
    NotEncoded { error: Error, original: Restored },
}

/// How far a job has come.
#[derive(Debug)]
pub enum FlowState {
    /// Whether the output of an upgrade exists is to be found out.
    CheckOutput,
    /// Whether the backup of an earlier upgrade exists is to be found out.
    CheckBackup,
    /// ffmpeg is to be found, to show its command.
    Preview,
    /// The user is to be asked.
    Confirm,
    /// The backup of an earlier upgrade is to be removed.
    ClearBackup,
    /// The original is to be moved aside.
    MoveAside,
    /// The output is to be encoded.
    Encode,
    /// The original is to be moved back, since encoding failed.
    MoveBack { error: Error },
    /// The command that would be run is known; nothing is done.
    Previewed { ffmpeg: String },
    /// The user declined.
    Declined,
    /// The output stands.
    Done,
    /// The job was given up.
    Failed(FlowFailure),
}

/// What is to be done next for a job.
#[derive(Debug)]
pub enum FlowAction {
    /// Find out whether a path exists.
    QueryExists(String),
    /// Find the ffmpeg binary.
    LocateFfmpeg,
    /// Ask the user whether to proceed.
    Confirm,
    /// Remove a file; that it may not exist does not matter.
    RemoveFile(String),
    /// Rename a file, replacing what stands there.
    Rename { from: String, to: String },
    /// Carry out the run of ffmpeg that the job asks for.
    Encode,
    /// Nothing is left to do.
    Stop,
}

/// What came of an action.
#[derive(Debug)]
pub enum FlowEvent {
    Exists(bool),
    /// The path of the binary, or why it was not found.
    Located(Result<String, String>),
    /// The user's answer, or why there is none.
    Answered(Result<bool, NoAnswer>),
    Removed,
    /// The file was renamed, or what went wrong.
    Renamed(Result<(), String>),
    /// The output was written, or what went wrong.
    Encoded(Result<(), Error>),
}

/// The first state that touches files.
pub open spec fn flow_begin(job: Job) -> FlowState {
    if job.backup is None {
        FlowState::Encode
    } else if job.flags.overwrite {
        FlowState::ClearBackup
    } else {
        FlowState::MoveAside
    }
}

/// The first state behind the checks on existing files.
pub open spec fn flow_checked(job: Job) -> FlowState {
    if job.flags.dry_run {
        FlowState::Preview
    } else if job.flags.yes {
        flow_begin(job)
    } else {
        FlowState::Confirm
    }
}

/// The state in which a job begins. An upgrade without permission to
/// overwrite first checks the file that it would replace: the backup where
/// the original is moved aside, else the output.
pub open spec fn flow_start(job: Job) -> FlowState {
    if job.kind != FlowKind::Upgrade || job.flags.overwrite {
        flow_checked(job)
    } else if job.backup is Some {
        FlowState::CheckBackup
    } else {
        FlowState::CheckOutput
    }
}

/// The state that follows `state` when `event` came of its action. An event
/// that does not answer the action changes nothing.
pub open spec fn flow_next(job: Job, state: FlowState, event: FlowEvent) -> FlowState {
    match (state, event) {
        (FlowState::CheckOutput, FlowEvent::Exists(there)) => if there {
            FlowState::Failed(FlowFailure::OutputExists)
        } else {
            flow_checked(job)
        },
        (FlowState::CheckBackup, FlowEvent::Exists(there)) => if there {
            FlowState::Failed(FlowFailure::BackupExists)
        } else {
            flow_checked(job)
        },
        (FlowState::Preview, FlowEvent::Located(Ok(ffmpeg))) => FlowState::Previewed { ffmpeg },
        (FlowState::Preview, FlowEvent::Located(Err(why))) => {
            FlowState::Failed(FlowFailure::FfmpegNotFound(why))
        },
        (FlowState::Confirm, FlowEvent::Answered(Ok(yes))) => if yes {
            flow_begin(job)
        } else {
            FlowState::Declined
        },
        (FlowState::Confirm, FlowEvent::Answered(Err(why))) => {
            FlowState::Failed(FlowFailure::NotAsked(why))
        },
        (FlowState::ClearBackup, FlowEvent::Removed) => FlowState::MoveAside,
        (FlowState::MoveAside, FlowEvent::Renamed(Ok(_))) => FlowState::Encode,
        (FlowState::MoveAside, FlowEvent::Renamed(Err(why))) => {
            FlowState::Failed(FlowFailure::NotMovedAside(why))
        },
        (FlowState::Encode, FlowEvent::Encoded(Ok(_))) => FlowState::Done,
        (FlowState::Encode, FlowEvent::Encoded(Err(error))) => if job.backup is Some {
            FlowState::MoveBack { error }
        } else {
            FlowState::Failed(FlowFailure::NotEncoded { error, original: Restored::NotMoved })
        },
        (FlowState::MoveBack { error }, FlowEvent::Renamed(Ok(_))) => FlowState::Failed(
            FlowFailure::NotEncoded { error, original: Restored::Back },
        ),
        (FlowState::MoveBack { error }, FlowEvent::Renamed(Err(why))) => FlowState::Failed(
            FlowFailure::NotEncoded { error, original: Restored::Stranded(why) },
        ),
        (state, _) => state,
    }
}

/// Whether `action` is what a job in `state` asks for.
pub open spec fn is_flow_action(job: Job, state: FlowState, action: FlowAction) -> bool {
    match state {
        FlowState::CheckOutput => action == FlowAction::QueryExists(job.output),
        FlowState::Encode => action is Encode,
        FlowState::Preview => action is LocateFfmpeg,
        FlowState::Confirm => action is Confirm,
        FlowState::CheckBackup => action == (match job.backup {
            Some(backup) => FlowAction::QueryExists(backup),
            None => FlowAction::Stop,
        }),
        FlowState::ClearBackup => action == (match job.backup {
            Some(backup) => FlowAction::RemoveFile(backup),
            None => FlowAction::Stop,
        }),
        FlowState::MoveAside => action == (match job.backup {
            Some(backup) => FlowAction::Rename { from: job.inputs@[0], to: backup },
            None => FlowAction::Stop,
        }),
        FlowState::MoveBack { .. } => action == (match job.backup {
            Some(backup) => FlowAction::Rename { from: backup, to: job.inputs@[0] },
            None => FlowAction::Stop,
        }),
        _ => action is Stop,
    }
}

impl FlowState {
    /// The first state that touches files.
    fn begin(job: &Job) -> (r: Self)
        ensures
            r == flow_begin(*job),
    {
        if job.backup.is_none() {
            FlowState::Encode
        } else if job.flags.overwrite {
            FlowState::ClearBackup
        } else {
            FlowState::MoveAside
        }
    }

    /// The first state behind the checks on existing files.
    fn checked(job: &Job) -> (r: Self)
        ensures
            r == flow_checked(*job),
    {
        if job.flags.dry_run {
            FlowState::Preview
        } else if job.flags.yes {
            FlowState::begin(job)
        } else {
            FlowState::Confirm
        }
    }

    /// Begin a job.
    pub fn start(job: &Job) -> (r: Self)
        ensures
            r == flow_start(*job),
    {
        if job.kind != FlowKind::Upgrade || job.flags.overwrite {
            FlowState::checked(job)
        } else if job.backup.is_some() {
            FlowState::CheckBackup
        } else {
            FlowState::CheckOutput
        }
    }

    /// Go on with what came of the action.
    pub fn next(self, job: &Job, event: FlowEvent) -> (r: Self)
        ensures
            r == flow_next(*job, self, event),
    {
        match (self, event) {
            (FlowState::CheckOutput, FlowEvent::Exists(there)) => {
                if there {
                    FlowState::Failed(FlowFailure::OutputExists)
                } else {
                    FlowState::checked(job)
                }
            },
            (FlowState::CheckBackup, FlowEvent::Exists(there)) => {
                if there {
                    FlowState::Failed(FlowFailure::BackupExists)
                } else {
                    FlowState::checked(job)
                }
            },
            (FlowState::Preview, FlowEvent::Located(found)) => match found {
                Ok(ffmpeg) => FlowState::Previewed { ffmpeg },
                Err(why) => FlowState::Failed(FlowFailure::FfmpegNotFound(why)),
            },
            (FlowState::Confirm, FlowEvent::Answered(answer)) => match answer {
                Ok(yes) => if yes {
                    FlowState::begin(job)
                } else {
                    FlowState::Declined
                },
                Err(why) => FlowState::Failed(FlowFailure::NotAsked(why)),
            },
            (FlowState::ClearBackup, FlowEvent::Removed) => FlowState::MoveAside,
            (FlowState::MoveAside, FlowEvent::Renamed(renamed)) => match renamed {
                Ok(_) => FlowState::Encode,
                Err(why) => FlowState::Failed(FlowFailure::NotMovedAside(why)),
            },
            (FlowState::Encode, FlowEvent::Encoded(encoded)) => match encoded {
                Ok(_) => FlowState::Done,
                Err(error) => if job.backup.is_some() {
                    FlowState::MoveBack { error }
                } else {
                    FlowState::Failed(
                        FlowFailure::NotEncoded { error, original: Restored::NotMoved },
                    )
                },
            },
            (FlowState::MoveBack { error }, FlowEvent::Renamed(renamed)) => match renamed {
                Ok(_) => FlowState::Failed(
                    FlowFailure::NotEncoded { error, original: Restored::Back },
                ),
                Err(why) => FlowState::Failed(
                    FlowFailure::NotEncoded { error, original: Restored::Stranded(why) },
                ),
            },
            (state, _) => state,
        }
    }

    /// What is to be done next.
    pub fn action(&self, job: &Job) -> (r: FlowAction)
        requires
            job.wf(),
        ensures
            is_flow_action(*job, *self, r),
    {
        match self {
            FlowState::CheckOutput => FlowAction::QueryExists(job.output.clone()),
            FlowState::Preview => FlowAction::LocateFfmpeg,
            FlowState::Confirm => FlowAction::Confirm,
            FlowState::Encode => FlowAction::Encode,
            FlowState::CheckBackup => match &job.backup {
                Some(backup) => FlowAction::QueryExists(backup.clone()),
                None => FlowAction::Stop,
            },
            FlowState::ClearBackup => match &job.backup {
                Some(backup) => FlowAction::RemoveFile(backup.clone()),
                None => FlowAction::Stop,
            },
            FlowState::MoveAside => match &job.backup {
                Some(backup) => FlowAction::Rename {
                    from: job.inputs[0].clone(),
                    to: backup.clone(),
                },
                None => FlowAction::Stop,
            },
            FlowState::MoveBack { .. } => match &job.backup {
                Some(backup) => FlowAction::Rename {
                    from: backup.clone(),
                    to: job.inputs[0].clone(),
                },
                None => FlowAction::Stop,
            },
            _ => FlowAction::Stop,
        }
    }
}

/// The command that a job would run, as it is shown in a dry run: with the
/// inputs at their own paths, writing the output itself, and with a
/// placeholder for the list file that is only written at run time.
pub open spec fn preview_command(job: Job, ffmpeg: Seq<char>) -> Seq<char> {
    execute::command_text(
        ffmpeg,
        execute::argv(
            text::texts(job.inputs@),
            job.source_containers@,
            job.output@,
            job.recipe@,
            job.flags.overwrite,
            if job.kind == FlowKind::Concat {
                Some("<concat-list-tempfile>"@)
            } else {
                None
            },
        ),
    )
}

/// What a dry run shows in the end.
pub open spec fn preview_text(job: Job, ffmpeg: Seq<char>) -> Seq<char> {
    "\nCommand:   "@ + preview_command(job, ffmpeg) + (if job.kind == FlowKind::Concat {
        "\n\n(dry run — not executing; the list file is created at run time)\n"@
    } else {
        "\n\n(dry run — not executing)\n"@
    })
}

/// Render what a dry run shows in the end.
pub fn render_preview(job: &Job, ffmpeg: &str) -> (r: String)
    requires
        job.wf(),
    ensures
        r@ == preview_text(*job, ffmpeg@),
{
    let concat = job.kind == FlowKind::Concat;
    let list = if concat {
        Some("<concat-list-tempfile>")
    } else {
        None
    };
    let args = execute::build_ffmpeg_args(
        job.inputs.as_slice(),
        job.source_containers.as_slice(),
        job.output.as_str(),
        &job.recipe,
        job.flags.overwrite,
        list,
    );
    let mut out = "\nCommand:   ".to_owned();
    out.append(execute::render_command(ffmpeg, args.as_slice()).as_str());
    if concat {
        out.append("\n\n(dry run — not executing; the list file is created at run time)\n");
    } else {
        out.append("\n\n(dry run — not executing)\n");
    }
    out
}

/// What a failure is called, and what lies beneath it, from the outermost to
/// the innermost.
pub open spec fn failure_chain(job: Job, failure: FlowFailure) -> Seq<Seq<char>> {
    let backup = match job.backup {
        Some(backup) => backup@,
        None => Seq::empty(),
    };
    match failure {
        FlowFailure::OutputExists => seq![
            "output already exists: "@ + job.output@ + " (pass --overwrite to replace)"@,
        ],
        FlowFailure::BackupExists => seq![
            "backup file from a prior upgrade exists: "@ + backup
                + " (pass --overwrite to replace, or remove it manually)"@,
        ],
        FlowFailure::FfmpegNotFound(why) => ErrorView::FfmpegNotFound(why@).chain(),
        FlowFailure::NotAsked(NoAnswer::NoTerminal) => seq![
            "stdin is not a terminal; pass --yes to skip the confirmation prompt in non-interactive runs"@,
        ],
        FlowFailure::NotAsked(NoAnswer::Unreadable(why)) => seq![
            "reading confirmation from stdin"@,
            why@,
        ],
        FlowFailure::NotMovedAside(why) => seq![
            "renaming original to backup ("@ + job.inputs@[0]@ + " → "@ + backup + ")"@,
            why@,
        ],
        FlowFailure::NotEncoded { error, .. } => {
            seq!["encoding to "@ + job.output@] + error@.chain()
        },
    }
}

/// What the user is told of an original that could not be moved back.
pub open spec fn stranded_text(job: Job, failure: FlowFailure) -> Option<Seq<char>> {
    match (failure, job.backup) {
        (
            FlowFailure::NotEncoded { original: Restored::Stranded(why), .. },
            Some(backup),
        ) => Some(
            "warning: upgrade failed and could not restore backup "@ + backup@ + " to "@
                + job.inputs@[0]@ + ": "@ + why@ + "\nthe original file is preserved at: "@
                + backup@,
        ),
        _ => None,
    }
}

/// What a failure is called, and what lies beneath it, from the outermost to
/// the innermost.
pub fn render_failure(job: &Job, failure: &FlowFailure) -> (r: Vec<String>)
    requires
        job.wf(),
    ensures
        text::texts(r@) == failure_chain(*job, *failure),
{
    let backup = match &job.backup {
        Some(backup) => backup.clone(),
        None => String::new(),
    };
    assert(backup@ =~= match job.backup {
        Some(backup) => backup@,
        None => Seq::empty(),
    });
    let mut chain: Vec<String> = Vec::new();
    match failure {
        FlowFailure::OutputExists => {
            let mut out = "output already exists: ".to_owned();
            out.append(job.output.as_str());
            out.append(" (pass --overwrite to replace)");
            chain.push(out);
        },
        FlowFailure::BackupExists => {
            let mut out = "backup file from a prior upgrade exists: ".to_owned();
            out.append(backup.as_str());
            out.append(" (pass --overwrite to replace, or remove it manually)");
            chain.push(out);
        },
        FlowFailure::FfmpegNotFound(why) => {
            chain = Error::FfmpegNotFound(why.clone()).chain();
        },
        FlowFailure::NotAsked(NoAnswer::NoTerminal) => {
            chain.push(
                "stdin is not a terminal; pass --yes to skip the confirmation prompt in non-interactive runs".to_owned(),
            );
        },
        FlowFailure::NotAsked(NoAnswer::Unreadable(why)) => {
            chain.push("reading confirmation from stdin".to_owned());
            chain.push(why.clone());
        },
        FlowFailure::NotMovedAside(why) => {
            let mut out = "renaming original to backup (".to_owned();
            out.append(job.inputs[0].as_str());
            out.append(" → ");
            out.append(backup.as_str());
            out.append(")");
            chain.push(out);
            chain.push(why.clone());
        },
        FlowFailure::NotEncoded { error, .. } => {
            let mut out = "encoding to ".to_owned();
            out.append(job.output.as_str());
            chain.push(out);
            let mut beneath = error.chain();
            chain.append(&mut beneath);
        },
    }
    assert(text::texts(chain@) =~= failure_chain(*job, *failure));
    chain
}

/// What the user is to be told of an original that could not be moved back.
pub fn render_stranded(job: &Job, failure: &FlowFailure) -> (r: Option<String>)
    requires
        job.wf(),
    ensures
        text::opt_text(r) == stranded_text(*job, *failure),
{
    if let FlowFailure::NotEncoded { original, .. } = failure {
        if let Restored::Stranded(why) = original {
            if let Some(backup) = &job.backup {
                let mut out =
                    "warning: upgrade failed and could not restore backup ".to_owned();
                out.append(backup.as_str());
                out.append(" to ");
                out.append(job.inputs[0].as_str());
                out.append(": ");
                out.append(why.as_str());
                out.append("\nthe original file is preserved at: ");
                out.append(backup.as_str());
                return Some(out);
            }
        }
    }
    None
}

/// What a finished job shows.
pub open spec fn done_text(
    job: Job,
    input_size: Option<u64>,
    output_size: u64,
    elapsed: Seconds,
) -> Seq<char> {
    if job.kind == FlowKind::Concat {
        crate::format::concat_completion_text(
            job.output@,
            job.inputs@.len(),
            input_size,
            output_size,
            elapsed,
        )
    } else {
        let done = crate::format::completion_text(job.output@, input_size, output_size, elapsed);
        match job.backup {
            Some(backup) => done + "\nOriginal preserved at: "@ + backup@,
            None => done,
        }
    }
}

/// Render what a finished job shows.
pub fn render_done(
    job: &Job,
    input_size: Option<u64>,
    output_size: u64,
    elapsed: Seconds,
) -> (r: String)
    ensures
        r@ == done_text(*job, input_size, output_size, elapsed),
{
    if job.kind == FlowKind::Concat {
        return crate::format::render_concat_completion_summary(
            job.output.as_str(),
            job.inputs.len(),
            input_size,
            output_size,
            elapsed,
        );
    }
    let mut out = crate::format::render_completion_summary(
        job.output.as_str(),
        input_size,
        output_size,
        elapsed,
    );
    if let Some(backup) = &job.backup {
        out.append("\nOriginal preserved at: ");
        out.append(backup.as_str());
    }
    out
}

// ---------------------------------------------------------------------------
// Laws
// ---------------------------------------------------------------------------

/// Whether carrying out the action of a state may change files.
pub open spec fn changes_files(state: FlowState) -> bool {
    state is ClearBackup || state is MoveAside || state is Encode || state is MoveBack
}

/// A dry run changes no files: it never comes to a state that does.
pub proof fn law_dry_run_changes_nothing(job: Job, state: FlowState, event: FlowEvent)
    requires
        job.flags.dry_run,
    ensures
        !changes_files(flow_start(job)),
        !changes_files(state) && !(state is Confirm) ==> !changes_files(flow_next(job, state, event))
            && !(flow_next(job, state, event) is Confirm),
        !(flow_start(job) is Confirm),
{
}

/// Files are changed only when the user has agreed, in answer to the prompt
/// or beforehand.
pub proof fn law_files_change_only_with_consent(job: Job, state: FlowState, event: FlowEvent)
    requires
        !job.flags.yes,
    ensures
        !changes_files(flow_start(job)),
        !changes_files(state) && changes_files(flow_next(job, state, event)) ==> state is Confirm
            && event == FlowEvent::Answered(Ok(true)),
{
}

/// Without permission to overwrite, an upgrade gets past its checks only when
/// the file that it would replace does not exist, and it removes nothing.
pub proof fn law_upgrade_refuses_existing_files(job: Job, state: FlowState, event: FlowEvent)
    requires
        job.wf(),
        job.kind == FlowKind::Upgrade,
        !job.flags.overwrite,
    ensures
        flow_start(job) is CheckOutput || flow_start(job) is CheckBackup,
        (state is CheckOutput || state is CheckBackup) && flow_next(job, state, event) != state ==> (
        event == FlowEvent::Exists(false) || flow_next(job, state, event) is Failed),
        state is CheckOutput && event == FlowEvent::Exists(true) ==> flow_next(job, state, event)
            == FlowState::Failed(FlowFailure::OutputExists),
        state is CheckBackup && event == FlowEvent::Exists(true) ==> flow_next(job, state, event)
            == FlowState::Failed(FlowFailure::BackupExists),
        !(state is ClearBackup) ==> !(flow_next(job, state, event) is ClearBackup),
{
}

/// A job without a backup never moves its input.
pub proof fn law_without_a_backup_nothing_is_moved(job: Job, state: FlowState, event: FlowEvent)
    requires
        job.backup is None,
    ensures
        !moves_the_original(flow_start(job)),
        !moves_the_original(state) ==> !moves_the_original(flow_next(job, state, event)),
{
}

/// Whether a state is about a backup: to look for it, or to move the original.
pub open spec fn moves_the_original(state: FlowState) -> bool {
    state is CheckBackup || state is ClearBackup || state is MoveAside || state is MoveBack
}

/// The files of an upgrade are all different: what ffmpeg writes while it
/// runs is neither the original nor its backup.
pub proof fn law_upgrade_keeps_files_apart(input: Seq<char>, container: Container)
    requires
        path::file_name(input) is Some,
    ensures
        ({
            let output = plan::upgrade_output(input, container);
            let backup = plan::upgrade_backup(input, container);
            let partial = execute::partial_path(output);
            &&& !path::same_path(partial, output)
            &&& !path::same_path(partial, input)
            &&& !path::same_path(partial, backup)
        }),
{
    reveal_strlit(".");
    reveal_strlit(".partial");
    reveal_strlit(".vimprover-orig.");
    let name = path::file_name(input)->0;
    let output = plan::upgrade_output(input, container);
    let backup = plan::upgrade_backup(input, container);
    let partial = execute::partial_path(output);
    plan::law_upgrade_paths(input, container);
    plan::lemma_container_extension(container);
    execute::law_partial_is_a_sibling(output);
    path::lemma_components_of_parent(input);
    path::lemma_components_of_parent(output);
    path::lemma_components_of_parent(backup);
    path::lemma_components_of_parent(partial);
    text::lemma_last_index(name, '.');
    let stem = plan::media_stem(name);
    let ext = container.extension();
    let output_name = stem + "."@ + ext;
    let backup_name = path::file_name(backup)->0;
    let partial_name = path::file_name(partial)->0;
    assert("."@ =~= seq!['.']);
    path::lemma_named_extension(stem, ext);
    if stem.len() > 0 {
        assert(partial_name =~= stem + ".partial"@ + "."@ + ext);
        assert(partial_name[stem.len() + 1int] == 'p');
        assert(partial_name[stem.len() + 8int] == '.');
        assert(backup_name[stem.len() + 1int] == 'v');
        if plan::stem_end(name) < name.len() {
            if partial_name == name {
                assert(name[stem.len() + 8int] != '.');
            }
        } else {
            assert(name.len() < partial_name.len());
        }
    } else {
        assert(partial_name =~= output_name + ".partial"@);
        assert(partial_name.len() < backup_name.len());
        assert(partial_name[1 + ext.len() as int] == '.');
        assert(plan::stem_end(name) < name.len());
        if partial_name == name {
            assert(name[1 + ext.len() as int] != '.');
        }
    }
    assert(path::components(partial).last() == partial_name);
    assert(path::components(backup).last() == backup_name);
    assert(path::components(input).last() == name);
}

/// Where the original of an upgrade is, in each state.
pub open spec fn original_path(job: Job, state: FlowState) -> Seq<char> {
    let aside = match state {
        FlowState::Encode | FlowState::MoveBack { .. } | FlowState::Done => true,
        FlowState::Failed(FlowFailure::NotEncoded { original, .. }) => original is Stranded,
        _ => false,
    };
    match job.backup {
        Some(backup) => if aside {
            backup@
        } else {
            job.inputs@[0]@
        },
        None => job.inputs@[0]@,
    }
}

/// Whether `states`, `steps` and `disks` are a whole run of ffmpeg that the
/// job asks for, from its beginning to the end that `outcome` tells of, with
/// its list file, if it has one, at a place of its own.
pub open spec fn is_encoding(
    job: Job,
    run: RunJob,
    states: Seq<RunState>,
    steps: Seq<RunEvent>,
    disks: Seq<Map<(bool, Seq<Seq<char>>), int>>,
    spare: (bool, Seq<Seq<char>>),
    outcome: Result<(), Error>,
) -> bool {
    &&& job.asks_for(run)
    &&& execute::is_run(run, states, steps, disks, spare)
    &&& spare != path::place(run.output@)
    &&& spare != path::place(run.partial@)
    &&& match outcome {
        Ok(_) => states.last() is Done,
        Err(error) => states.last() == RunState::Failed(error),
    }
}

/// What carrying out the action of `state`, with `event` coming of it, may do
/// to files, given that encoding is a whole run of ffmpeg, and that a rename
/// happens as a whole or not at all.
pub open spec fn flow_effect(
    job: Job,
    state: FlowState,
    event: FlowEvent,
    before: Map<(bool, Seq<Seq<char>>), int>,
    after: Map<(bool, Seq<Seq<char>>), int>,
) -> bool {
    let input = job.inputs@[0]@;
    let backup = job.backup->0@;
    let done = event matches FlowEvent::Renamed(Ok(_));
    match state {
        FlowState::ClearBackup => execute::differ_only_at(before, after, path::place(backup)),
        FlowState::MoveAside => if done {
            execute::renamed(before, after, input, backup)
        } else {
            after == before
        },
        FlowState::Encode => match event {
            FlowEvent::Encoded(outcome) => exists|
                run: RunJob,
                states: Seq<RunState>,
                steps: Seq<RunEvent>,
                disks: Seq<Map<(bool, Seq<Seq<char>>), int>>,
                spare: (bool, Seq<Seq<char>>),
            | #[trigger]
                is_encoding(job, run, states, steps, disks, spare, outcome) && disks[0] == before
                    && disks.last() == after,
            _ => after == before,
        },
        FlowState::MoveBack { .. } => if done {
            execute::renamed(before, after, backup, input)
        } else {
            after == before
        },
        _ => after == before,
    }
}

/// Encoding changes nothing but the output and its partial output, and the
/// output only if it succeeds.
pub proof fn law_encoding_changes_only_its_output(
    job: Job,
    event: FlowEvent,
    before: Map<(bool, Seq<Seq<char>>), int>,
    after: Map<(bool, Seq<Seq<char>>), int>,
)
    requires
        path::file_name(job.output@) is Some,
        flow_effect(job, FlowState::Encode, event, before, after),
    ensures
        forall|place: (bool, Seq<Seq<char>>)|
            place != path::place(job.output@) && place != path::place(
                execute::partial_path(job.output@),
            ) ==> before.contains_key(place) == #[trigger] after.contains_key(place) && (
            before.contains_key(place) ==> before[place] == after[place]),
        !(event matches FlowEvent::Encoded(Ok(_))) ==> execute::file_at(after, job.output@)
            == execute::file_at(before, job.output@),
        event matches FlowEvent::Encoded(Ok(_)) ==> execute::file_at(after, job.output@) is Some
            && execute::file_at(after, execute::partial_path(job.output@)) is None,
{
    if let FlowEvent::Encoded(outcome) = event {
        let (run, states, steps, disks, spare) = choose|
            run: RunJob,
            states: Seq<RunState>,
            steps: Seq<RunEvent>,
            disks: Seq<Map<(bool, Seq<Seq<char>>), int>>,
            spare: (bool, Seq<Seq<char>>),
        | #[trigger]
            is_encoding(job, run, states, steps, disks, spare, outcome) && disks[0] == before
                && disks.last() == after;
        execute::law_output_is_atomic(run, states, steps, disks, spare);
        execute::law_a_run_touches_its_own_files(run, states, steps, disks, spare);
        assert(execute::list_left(states.last()) is None);
    }
}

/// A step leaves the original where [`original_path`] says.
proof fn lemma_step_preserves_the_original(
    job: Job,
    state: FlowState,
    event: FlowEvent,
    before: Map<(bool, Seq<Seq<char>>), int>,
    after: Map<(bool, Seq<Seq<char>>), int>,
    original: int,
)
    requires
        job.wf(),
        job.kind == FlowKind::Upgrade,
        path::file_name(job.inputs@[0]@) is Some,
        flow_effect(job, state, event, before, after),
        execute::file_at(before, original_path(job, state)) == Some(original),
        job.backup is None ==> !moves_the_original(state),
    ensures
        execute::file_at(after, original_path(job, flow_next(job, state, event))) == Some(
            original,
        ),
{
    let input = job.inputs@[0]@;
    let container = job.recipe.output_container;
    plan::law_upgrade_paths(input, container);
    law_upgrade_keeps_files_apart(input, container);
    let output = path::place(job.output@);
    let partial = path::place(execute::partial_path(job.output@));
    let here = path::place(original_path(job, state));
    if state is Encode {
        assert(here != output && here != partial);
        law_encoding_changes_only_its_output(job, event, before, after);
        assert(after.contains_key(here) && after[here] == before[here]);
    }
    if state is ClearBackup {
        let backup = path::place(job.backup->0@);
        assert(here != backup);
        assert(before.remove(backup).contains_key(here));
        assert(after.remove(backup)[here] == before[here]);
    }
}

/// Whether `states`, `events` and `disks` are the steps of one job.
pub open spec fn is_flow(
    job: Job,
    states: Seq<FlowState>,
    events: Seq<FlowEvent>,
    disks: Seq<Map<(bool, Seq<Seq<char>>), int>>,
) -> bool {
    &&& states.len() == events.len() + 1
    &&& disks.len() == events.len() + 1
    &&& states[0] == flow_start(job)
    &&& forall|i: int|
        0 <= i < events.len() ==> states[i + 1] == flow_next(job, states[i], #[trigger] events[i])
            && flow_effect(job, states[i], events[i], disks[i], disks[i + 1])
}

/// A job without its last step is the beginning of a job.
proof fn lemma_flow_so_far(
    job: Job,
    states: Seq<FlowState>,
    events: Seq<FlowEvent>,
    disks: Seq<Map<(bool, Seq<Seq<char>>), int>>,
)
    requires
        is_flow(job, states, events, disks),
        events.len() > 0,
    ensures
        is_flow(job, states.drop_last(), events.drop_last(), disks.drop_last()),
        ({
            let n = events.len() - 1;
            &&& states[n + 1] == flow_next(job, states[n], events[n])
            &&& flow_effect(job, states[n], events[n], disks[n], disks[n + 1])
        }),
{
    let (s, e, d) = (states.drop_last(), events.drop_last(), disks.drop_last());
    assert forall|i: int| 0 <= i < e.len() implies s[i + 1] == flow_next(
        job,
        s[i],
        #[trigger] e[i],
    ) && flow_effect(job, s[i], e[i], d[i], d[i + 1]) by {
        assert(e[i] == events[i]);
    }
}

/// The original survives an upgrade: at every point of a whole job it is where
/// [`original_path`] says, unchanged. That is its own path before it is moved
/// aside and after a failure is rolled back, and the backup's in between, when
/// the job has succeeded, and when it could not be moved back.
pub proof fn law_upgrade_preserves_the_original(
    job: Job,
    states: Seq<FlowState>,
    events: Seq<FlowEvent>,
    disks: Seq<Map<(bool, Seq<Seq<char>>), int>>,
    original: int,
)
    requires
        job.wf(),
        job.kind == FlowKind::Upgrade,
        path::file_name(job.inputs@[0]@) is Some,
        is_flow(job, states, events, disks),
        execute::file_at(disks[0], job.inputs@[0]@) == Some(original),
    ensures
        execute::file_at(disks.last(), original_path(job, states.last())) == Some(original),
        job.backup is None ==> !moves_the_original(states.last()),
    decreases events.len(),
{
    if events.len() > 0 {
        let n = events.len() - 1;
        lemma_flow_so_far(job, states, events, disks);
        law_upgrade_preserves_the_original(
            job,
            states.drop_last(),
            events.drop_last(),
            disks.drop_last(),
            original,
        );
        lemma_step_preserves_the_original(
            job,
            states[n],
            events[n],
            disks[n],
            disks[n + 1],
            original,
        );
    } else if job.backup is Some {
        assert(!(flow_start(job) is Encode));
    }
}

/// The output of a job that is no upgrade is atomic: at every point of a
/// whole job, nothing has changed until ffmpeg has run, the output only
/// changes if the job succeeds, and of other files only its partial output.
pub proof fn law_a_job_touches_its_own_files(
    job: Job,
    states: Seq<FlowState>,
    events: Seq<FlowEvent>,
    disks: Seq<Map<(bool, Seq<Seq<char>>), int>>,
)
    requires
        job.backup is None,
        path::file_name(job.output@) is Some,
        is_flow(job, states, events, disks),
    ensures
        forall|place: (bool, Seq<Seq<char>>)|
            place != path::place(job.output@) && place != path::place(
                execute::partial_path(job.output@),
            ) ==> disks[0].contains_key(place) == #[trigger] disks.last().contains_key(place) && (
            disks[0].contains_key(place) ==> disks[0][place] == disks.last()[place]),
        !(states.last() is Done) ==> execute::file_at(disks.last(), job.output@)
            == execute::file_at(disks[0], job.output@),
        states.last() is Done ==> execute::file_at(disks.last(), job.output@) is Some
            && execute::file_at(disks.last(), execute::partial_path(job.output@)) is None,
        !moves_the_original(states.last()),
    decreases events.len(),
{
    if events.len() > 0 {
        let n = events.len() - 1;
        lemma_flow_so_far(job, states, events, disks);
        let d = disks.drop_last();
        law_a_job_touches_its_own_files(job, states.drop_last(), events.drop_last(), d);
        let (before, after) = (disks[n], disks[n + 1]);
        if states[n] is Encode {
            law_encoding_changes_only_its_output(job, events[n], before, after);
        } else {
            assert(after == before);
        }
        assert forall|place: (bool, Seq<Seq<char>>)|
            place != path::place(job.output@) && place != path::place(
                execute::partial_path(job.output@),
            ) implies disks[0].contains_key(place) == #[trigger] disks.last().contains_key(place)
            && (disks[0].contains_key(place) ==> disks[0][place] == disks.last()[place]) by {
            assert(d.last() == before && d[0] == disks[0] && disks.last() == after);
            assert(d.last().contains_key(place) == d[0].contains_key(place));
            assert(after.contains_key(place) == before.contains_key(place));
        }
    }
}

/// Nothing is changed by a whole job that is only to be shown, or that nobody
/// agreed to.
pub proof fn law_files_stay_without_consent(
    job: Job,
    states: Seq<FlowState>,
    events: Seq<FlowEvent>,
    disks: Seq<Map<(bool, Seq<Seq<char>>), int>>,
)
    requires
        is_flow(job, states, events, disks),
        job.flags.dry_run || (!job.flags.yes && forall|i: int|
            0 <= i < events.len() ==> #[trigger] events[i] != FlowEvent::Answered(Ok(true))),
    ensures
        disks.last() == disks[0],
        !changes_files(states.last()),
        job.flags.dry_run ==> !(states.last() is Confirm),
    decreases events.len(),
{
    if events.len() > 0 {
        let n = events.len() - 1;
        let e = events.drop_last();
        lemma_flow_so_far(job, states, events, disks);
        assert forall|i: int| 0 <= i < e.len() implies e[i] == events[i] by {}
        law_files_stay_without_consent(job, states.drop_last(), e, disks.drop_last());
        if !job.flags.dry_run {
            assert(events[n] != FlowEvent::Answered(Ok(true)));
        }
    }
}

/// How many steps a job has before it at most.
pub open spec fn flow_steps_left(state: FlowState) -> nat {
    match state {
        FlowState::CheckOutput | FlowState::CheckBackup => 6,
        FlowState::Preview | FlowState::Confirm => 5,
        FlowState::ClearBackup => 4,
        FlowState::MoveAside => 3,
        FlowState::Encode => 2,
        FlowState::MoveBack { .. } => 1,
        _ => 0,
    }
}

/// Every event that answers its action brings a job nearer to its end, and it
/// succeeds only by encoding.
pub proof fn law_a_job_ends(job: Job, state: FlowState, event: FlowEvent)
    ensures
        flow_steps_left(flow_start(job)) <= 6,
        flow_next(job, state, event) != state ==> flow_steps_left(flow_next(job, state, event))
            < flow_steps_left(state),
        flow_next(job, state, event) is Done && !(state is Done) ==> state is Encode && (
        event matches FlowEvent::Encoded(Ok(_))),
{
}

} // verus!
