//! What a run does, step by step, and how it ends.

use vstd::prelude::*;

use crate::error::Error;
use crate::execute;
use crate::execute::{RunAction, RunEvent, RunJob, RunState};
use crate::flow;
use crate::flow::{
    FlowAction, FlowEvent, FlowFailure, FlowKind, FlowState, Job, NoAnswer, Restored,
};
use crate::model::{Container, MediaProfile};
use crate::path;
use crate::plan;
use crate::promises::names;
use crate::text;

verus! {

/// What an action of a job says is what happens to the files: a rename moves
/// the file that it names, a removal touches nothing but the file that it
/// names, and the others touch none.
pub proof fn law_job_actions(
    job: Job,
    state: FlowState,
    action: FlowAction,
    event: FlowEvent,
    before: Map<(bool, Seq<Seq<char>>), int>,
    after: Map<(bool, Seq<Seq<char>>), int>,
)
    requires
        flow::is_flow_action(job, state, action),
        flow::flow_effect(job, state, event, before, after),
        state is ClearBackup || state is MoveAside || state is MoveBack ==> job.backup is Some,
    ensures
        action matches FlowAction::Rename { from, to } ==> if event matches FlowEvent::Renamed(
            Ok(_),
        ) {
            execute::renamed(before, after, from@, to@)
        } else {
            after == before
        },
        action matches FlowAction::RemoveFile(gone) ==> execute::differ_only_at(
            before,
            after,
            path::place(gone@),
        ),
        !(action is Rename || action is RemoveFile || action is Encode) ==> after == before,
{
}

/// The original is moved to the backup and nowhere else, and moving it back
/// undoes exactly that. What is asked about or removed is the backup or the
/// output, never the original.
pub proof fn law_moves(
    job: Job,
    aside: FlowState,
    there: FlowAction,
    back: FlowState,
    again: FlowAction,
)
    requires
        job.backup is Some,
        aside is MoveAside,
        flow::is_flow_action(job, aside, there),
        back is MoveBack,
        flow::is_flow_action(job, back, again),
    ensures
        there matches FlowAction::Rename { from, to } && from == job.inputs@[0] && to
            == job.backup->0 && again == (FlowAction::Rename { from: to, to: from }),
{
}

/// What each question, removal and other action of a job is about.
pub proof fn law_job_questions(job: Job, state: FlowState, action: FlowAction)
    requires
        flow::is_flow_action(job, state, action),
        state is ClearBackup || state is MoveAside || state is MoveBack || state is CheckBackup
            ==> job.backup is Some,
    ensures
        state is CheckOutput ==> action == FlowAction::QueryExists(job.output),
        state is CheckBackup ==> action == FlowAction::QueryExists(job.backup->0),
        state is ClearBackup ==> action == FlowAction::RemoveFile(job.backup->0),
        state is Preview <==> action is LocateFfmpeg,
        state is Confirm <==> action is Confirm,
        state is Encode <==> action is Encode,
        action is Stop <==> state is Previewed || state is Declined || state is Done
            || state is Failed,
{
}

/// Whether `event` answers what a job in `state` asks for.
pub open spec fn answers(state: FlowState, event: FlowEvent) -> bool {
    match state {
        FlowState::CheckOutput | FlowState::CheckBackup => event is Exists,
        FlowState::Preview => event is Located,
        FlowState::Confirm => event is Answered,
        FlowState::ClearBackup => event is Removed,
        FlowState::MoveAside | FlowState::MoveBack { .. } => event is Renamed,
        FlowState::Encode => event is Encoded,
        _ => false,
    }
}

/// Whether `event` is good news.
pub open spec fn is_good_news(event: FlowEvent) -> bool {
    match event {
        FlowEvent::Exists(there) => !there,
        FlowEvent::Located(found) => found is Ok,
        FlowEvent::Answered(answer) => answer == Ok::<bool, NoAnswer>(true),
        FlowEvent::Removed => true,
        FlowEvent::Renamed(done) => done is Ok,
        FlowEvent::Encoded(done) => done is Ok,
    }
}

/// A job moves on with every answer to what it asked, and with nothing else.
/// With good news alone it never fails, and so ends in a preview exactly where
/// it is a dry run, and else in the finished output.
pub proof fn law_good_news(job: Job, state: FlowState, event: FlowEvent)
    ensures
        ({
            let next = flow::flow_next(job, state, event);
            &&& answers(state, event) ==> flow::flow_steps_left(next) < flow::flow_steps_left(state)
            &&& !answers(state, event) ==> next == state
            &&& answers(state, event) && is_good_news(event) && !(state is MoveBack) ==> !(
            next is Failed || next is Declined || next is MoveBack)
            &&& next is Previewed && !(state is Previewed) ==> state is Preview && event
                == FlowEvent::Located(Ok(next->Previewed_ffmpeg))
            &&& next is Preview && !(state is Preview) ==> job.flags.dry_run
            &&& job.flags.dry_run && (state is CheckOutput || state is CheckBackup) && answers(
                state,
                event,
            ) && is_good_news(event) ==> next is Preview
            &&& next is Done && !(state is Done) ==> state is Encode && (
            event matches FlowEvent::Encoded(Ok(_)))
            &&& !job.flags.dry_run ==> !(flow::flow_start(job) is Preview)
        }),
{
}

/// Each way in which a job ends short of its output, and what it comes of.
pub proof fn law_bad_news(job: Job, state: FlowState, event: FlowEvent)
    requires
        !(state is Failed || state is Declined),
    ensures
        ({
            let next = flow::flow_next(job, state, event);
            &&& next is Declined <==> state is Confirm && event == FlowEvent::Answered(Ok(false))
            &&& next matches FlowState::Failed(failure) ==> match failure {
                FlowFailure::OutputExists => state is CheckOutput && event == FlowEvent::Exists(
                    true,
                ),
                FlowFailure::BackupExists => state is CheckBackup && event == FlowEvent::Exists(
                    true,
                ),
                FlowFailure::FfmpegNotFound(why) => state is Preview && event == FlowEvent::Located(
                    Err(why),
                ),
                FlowFailure::NotAsked(why) => state is Confirm && event == FlowEvent::Answered(
                    Err(why),
                ),
                FlowFailure::NotMovedAside(why) => state is MoveAside && event
                    == FlowEvent::Renamed(Err(why)),
                FlowFailure::NotEncoded { error, original } => match original {
                    Restored::NotMoved => state is Encode && job.backup is None && event
                        == FlowEvent::Encoded(Err(error)),
                    Restored::Back => state == (FlowState::MoveBack { error }) && (
                    event matches FlowEvent::Renamed(Ok(_))),
                    Restored::Stranded(why) => state == (FlowState::MoveBack { error }) && event
                        == FlowEvent::Renamed(Err(why)),
                },
            }
            &&& answers(state, event) && !is_good_news(event) && !(state is MoveBack) ==> next is Failed
                || next is Declined || next is MoveBack
            &&& next is MoveBack && !(state is MoveBack) ==> state is Encode && job.backup is Some
                && event == FlowEvent::Encoded(Err(next->MoveBack_error))
        }),
{
}

/// A job that may overwrite asks about no file; an upgrade that may not asks
/// about the one that it would replace. Only a job with a backup moves the
/// original, it encodes only once that is done, and it removes an old backup
/// only where it may overwrite.
pub proof fn law_order_of_a_job(job: Job, state: FlowState, event: FlowEvent)
    ensures
        ({
            let first = flow::flow_start(job);
            let next = flow::flow_next(job, state, event);
            let cautious = job.kind == FlowKind::Upgrade && !job.flags.overwrite;
            &&& first is CheckBackup <==> cautious && job.backup is Some
            &&& first is CheckOutput <==> cautious && job.backup is None
            &&& !cautious ==> (first is Preview <==> job.flags.dry_run)
            &&& !cautious ==> (first is Confirm <==> !job.flags.dry_run && !job.flags.yes)
            &&& !(next is CheckOutput && !(state is CheckOutput))
            &&& !(next is CheckBackup && !(state is CheckBackup))
            &&& first is ClearBackup ==> job.flags.overwrite && job.backup is Some
            &&& next is ClearBackup && !(state is ClearBackup) ==> job.flags.overwrite
                && job.backup is Some
            &&& first is MoveAside ==> !job.flags.overwrite && job.backup is Some
            &&& next is MoveAside && !(state is MoveAside) && !(state is ClearBackup)
                ==> job.backup is Some && !job.flags.overwrite
            &&& state is ClearBackup && event is Removed ==> next is MoveAside
            &&& first is Encode ==> job.backup is None
            &&& next is Encode && !(state is Encode) && job.backup is Some ==> state is MoveAside
                && (event matches FlowEvent::Renamed(Ok(_)))
        }),
{
}

/// What an upgrade encodes is its original, at the place where it then lies,
/// and the run writes the output of the job, as the recipe says.
pub proof fn law_encoded_inputs(job: Job, run: RunJob)
    requires
        job.wf(),
        job.asks_for(run),
    ensures
        job.kind == FlowKind::Upgrade ==> text::texts(run.inputs@) == seq![
            flow::original_path(job, FlowState::Encode),
        ],
        job.backup is None ==> text::texts(run.inputs@) == text::texts(job.inputs@),
        run.output == job.output,
        run.recipe@ == job.recipe@,
        run.overwrite == job.flags.overwrite,
        run.source_containers@ == job.source_containers@,
{
    if job.kind == FlowKind::Upgrade {
        assert(text::texts(run.inputs@) =~= seq![flow::original_path(job, FlowState::Encode)]);
    }
}

/// An upgrade moves its original aside exactly where the input already has
/// the extension of its new container, in the same letters.
pub proof fn law_backups(
    input: Seq<char>,
    stem: Seq<char>,
    ext: Seq<char>,
    word: Seq<char>,
    container: Container,
)
    requires
        path::file_name(input) == Some(stem + "."@ + ext),
        names::cased(ext, word),
        names::is_media_word(word),
    ensures
        flow::backup_of(input, container) is Some <==> ext == names::written_extension(container),
        flow::backup_of(input, container) matches Some(backup) ==> path::file_name(backup) == Some(
            stem + ".vimprover-orig."@ + ext,
        ) && path::parent(backup) == path::parent(input),
{
    names::law_upgraded_name(input, stem, ext, word, container);
    plan::law_upgrade_paths(input, container);
    let a = stem + "."@ + ext;
    let b = stem + "."@ + names::written_extension(container);
    if a == b {
        assert(a.skip((stem + "."@).len() as int) =~= ext);
        assert(b.skip((stem + "."@).len() as int) =~= names::written_extension(container));
    }
}

/// What an action of a run says is what happens to the files.
pub proof fn law_run_actions(
    job: RunJob,
    state: RunState,
    action: RunAction,
    event: RunEvent,
    spare: (bool, Seq<Seq<char>>),
    before: Map<(bool, Seq<Seq<char>>), int>,
    after: Map<(bool, Seq<Seq<char>>), int>,
)
    requires
        execute::is_run_action(job, state, action),
        execute::run_effect(job, state, event, spare, before, after),
    ensures
        action matches RunAction::Rename { from, to } ==> if event matches RunEvent::Renamed(
            Ok(_),
        ) {
            execute::renamed(before, after, from@, to@)
        } else {
            after == before
        },
        action matches RunAction::RemoveFile(gone) ==> execute::differ_only_at(
            before,
            after,
            path::place(gone@),
        ),
        action matches RunAction::WriteFile { path: file, .. } ==> execute::differ_only_at(
            before,
            after,
            path::place(file@),
        ),
        action matches RunAction::Spawn { args, .. } ==> execute::differ_only_at(
            before,
            after,
            path::place(text::texts(args@).last()),
        ),
        !(action is Rename || action is RemoveFile || action is WriteFile || action is Spawn
            || action is CreateList) ==> after == before,
{
    if let RunState::ClearList { file, .. } = state {
        let place = path::place(file@);
        assert(before.remove(place).remove(place) =~= before.remove(place));
    }
}

/// ffmpeg writes to the partial output, and what it wrote is renamed to the
/// output. Before that the run asks about both, or removes a stale partial
/// output. The list file that is removed is the one that was written.
pub proof fn law_run_questions(job: RunJob, state: RunState, action: RunAction)
    requires
        execute::is_run_action(job, state, action),
    ensures
        state is CheckOutput ==> action == RunAction::QueryExists(job.output),
        state is CheckPartial ==> action == RunAction::QueryExists(job.partial),
        state is ClearPartial ==> action == RunAction::RemoveFile(job.partial),
        state is Promote ==> action == (RunAction::Rename { from: job.partial, to: job.output }),
        state matches RunState::Encode { ffmpeg, list } ==> (action matches RunAction::Spawn {
            program,
            args,
        } && program == ffmpeg && text::texts(args@).last() == job.partial@),
        state matches RunState::WriteList { file, text } ==> action == (RunAction::WriteFile {
            path: file,
            text,
        }),
        state matches RunState::ClearList { file, .. } ==> action == RunAction::RemoveFile(file),
        state is CreateList <==> action is CreateList,
        state is FindDirectory <==> action is QueryDirectory,
        state is Locate <==> action is LocateFfmpeg,
        action is Stop <==> state is Done || state is Failed,
{
}

/// Whether `event` answers what a run in `state` asks for.
pub open spec fn run_answers(state: RunState, event: RunEvent) -> bool {
    match state {
        RunState::CheckOutput | RunState::CheckPartial => event is Exists,
        RunState::ClearPartial | RunState::ClearList { .. } => event is Removed,
        RunState::CreateList => event is ListCreated,
        RunState::FindDirectory { .. } => event is Directory,
        RunState::WriteList { .. } => event is Written,
        RunState::Locate { .. } => event is Located,
        RunState::Encode { .. } => event is SpawnFailed || event is Exited,
        RunState::Promote => event is Renamed,
        _ => false,
    }
}

/// Whether `event` is good news.
pub open spec fn is_good_run_news(event: RunEvent) -> bool {
    match event {
        RunEvent::Exists(there) => !there,
        RunEvent::Removed => true,
        RunEvent::ListCreated(done) => done is Ok,
        RunEvent::Directory(found) => found is Ok,
        RunEvent::Written(done) => done is Ok,
        RunEvent::Located(found) => found is Ok,
        RunEvent::SpawnFailed(_) => false,
        RunEvent::Exited { success, .. } => success,
        RunEvent::Renamed(done) => done is Ok,
    }
}

/// A run moves on with every answer to what it asked. With good news alone,
/// and no empty path among inputs that are joined, it never fails, and so
/// ends with the output in place.
pub proof fn law_good_run_news(job: RunJob, state: RunState, event: RunEvent, next: RunState)
    requires
        execute::is_run_next(job, state, event, next),
    ensures
        run_answers(state, event) ==> execute::steps_left(next) < execute::steps_left(state),
        !run_answers(state, event) ==> next == state,
        run_answers(state, event) && is_good_run_news(event) && !(state is ClearList) && (
        forall|i: int| 0 <= i < job.inputs@.len() ==> (#[trigger] job.inputs@[i])@.len() > 0)
            ==> !(next is Failed) && !(next matches RunState::ClearList { failure: Some(_), .. }),
        state matches RunState::ClearList { failure: None, .. } && event is Removed ==> next
            == RunState::Promote,
        job.overwrite <==> execute::run_start(job) is ClearPartial,
        !job.overwrite <==> execute::run_start(job) is CheckOutput,
        (state is CheckPartial || state is ClearPartial) && run_answers(state, event)
            && is_good_run_news(event) ==> (next is CreateList <==> job.recipe.concat is Some) && (
        next is Locate <==> job.recipe.concat is None),
        state is CheckOutput && event == RunEvent::Exists(false) ==> next is CheckPartial,
        event matches RunEvent::ListCreated(Ok(made)) ==> state is CreateList ==> next == (
        RunState::FindDirectory { file: made }),
        state matches RunState::WriteList { file, .. } ==> event matches RunEvent::Written(Ok(_))
            ==> next == (RunState::Locate { list: Some(file) }),
        state matches RunState::Locate { list } ==> event matches RunEvent::Located(Ok(found))
            ==> next == (RunState::Encode { ffmpeg: found, list }),
{
    if state is FindDirectory && event is Directory {
        let directory = event->Directory_0;
        lemma_absolute_inputs(text::texts(job.inputs@), execute::outcome(directory));
        if (forall|i: int| 0 <= i < job.inputs@.len() ==> (#[trigger] job.inputs@[i])@.len() > 0)
            && directory is Ok {
            assert forall|i: int| 0 <= i < text::texts(job.inputs@).len() implies (
            #[trigger] text::texts(job.inputs@)[i]).len() > 0 by {
                assert(job.inputs@[i]@.len() > 0);
            }
        }
    }
}

/// Paths that are not empty can be made absolute in a known directory.
proof fn lemma_absolute_inputs(inputs: Seq<Seq<char>>, directory: Result<Seq<char>, Seq<char>>)
    ensures
        directory is Ok && (forall|i: int| 0 <= i < inputs.len() ==> (#[trigger] inputs[i]).len()
            > 0) ==> execute::absolute_inputs(inputs, directory) is Ok,
        execute::absolute_inputs(inputs, directory) matches Ok(paths) ==> paths.len() == inputs.len()
            && forall|i: int|
            0 <= i < inputs.len() ==> Ok::<Seq<char>, Seq<char>>(#[trigger] paths[i])
                == execute::absolute_input(inputs[i], directory),
    decreases inputs.len(),
{
    if inputs.len() > 0 {
        let front = inputs.drop_last();
        lemma_absolute_inputs(front, directory);
        if directory is Ok && (forall|i: int|
            0 <= i < inputs.len() ==> (#[trigger] inputs[i]).len() > 0) {
            assert forall|i: int| 0 <= i < front.len() implies (#[trigger] front[i]).len() > 0 by {
                assert(front[i] == inputs[i]);
            }
            assert(inputs.last() == inputs[inputs.len() - 1]);
        }
        if let Ok(paths) = execute::absolute_inputs(inputs, directory) {
            let before = execute::absolute_inputs(front, directory)->Ok_0;
            assert forall|i: int| 0 <= i < inputs.len() implies Ok::<Seq<char>, Seq<char>>(
                #[trigger] paths[i],
            ) == execute::absolute_input(inputs[i], directory) by {
                if i < front.len() {
                    assert(paths[i] == before[i]);
                    assert(front[i] == inputs[i]);
                }
            }
        }
    }
}

/// Each way in which a run fails, and what it comes of.
pub proof fn law_bad_run_news(job: RunJob, state: RunState, event: RunEvent, next: RunState)
    requires
        execute::is_run_next(job, state, event, next),
    ensures
        state is CheckOutput && event == RunEvent::Exists(true) ==> next == RunState::Failed(
            Error::OutputExists(job.output),
        ),
        state is CheckPartial && event == RunEvent::Exists(true) ==> next == RunState::Failed(
            Error::PartialOutputExists(job.partial),
        ),
        state matches RunState::Locate { list: None } ==> event matches RunEvent::Located(Err(why))
            ==> next == RunState::Failed(Error::FfmpegNotFound(why)),
        state matches RunState::Locate { list: Some(list) } ==> event matches RunEvent::Located(
            Err(why),
        ) ==> next == (RunState::ClearList {
            file: list,
            failure: Some(Error::FfmpegNotFound(why)),
        }),
        state matches RunState::WriteList { file, .. } ==> event matches RunEvent::Written(Err(why))
            ==> next == (RunState::ClearList { file, failure: Some(Error::Io(why)) }),
        state matches RunState::Encode { list: None, .. } ==> {
            &&& event matches RunEvent::SpawnFailed(why) ==> next == RunState::Failed(
                Error::Io(why),
            )
            &&& event matches RunEvent::Exited { success, code } ==> if success {
                next is Promote
            } else {
                next matches RunState::Failed(Error::FfmpegFailed { status }) && (code is Some
                    ==> status == code->0) && (code is None ==> status == -1)
            }
        },
        state matches RunState::Encode { list: Some(list), .. } ==> {
            &&& event is Exited || event is SpawnFailed ==> (next matches RunState::ClearList {
                file,
                failure,
            } && file == list && (failure is None <==> event matches RunEvent::Exited {
                success: true,
                ..
            }) && (event matches RunEvent::SpawnFailed(why) ==> failure == Some(Error::Io(why))) && (
            event matches RunEvent::Exited { success: false, code } ==> failure == Some(
                Error::FfmpegFailed {
                    status: if code is Some {
                        code->0
                    } else {
                        -1i32
                    },
                },
            )))
        },
        state matches RunState::ClearList { failure: Some(error), .. } ==> event is Removed ==> next
            == RunState::Failed(error),
        state is Promote && (event matches RunEvent::Renamed(Ok(_))) ==> next is Done,
        event matches RunEvent::ListCreated(Err(why)) ==> state is CreateList ==> next
            == RunState::Failed(Error::Io(why)),
        event matches RunEvent::Renamed(Err(why)) ==> state is Promote ==> next == RunState::Failed(
            Error::RenameFailed { from: job.partial, to: job.output, source: why },
        ),
{
}

/// The list file names each joined input once, in order, one line for each.
pub proof fn law_list_text(a: Seq<Seq<char>>, path: Seq<char>, b: Seq<Seq<char>>)
    ensures
        execute::list_text(a + seq![path] + b) == execute::list_text(a) + "file '"@
            + execute::quoted(path) + "'\n"@ + execute::list_text(b),
    decreases b.len(),
{
    let whole = a + seq![path] + b;
    if b.len() == 0 {
        assert(whole.drop_last() =~= a);
        assert(whole.last() == path);
        assert(execute::list_text(whole) =~= execute::list_text(a) + "file '"@ + execute::quoted(
            path,
        ) + "'\n"@ + execute::list_text(b));
    } else {
        assert(whole.drop_last() =~= a + seq![path] + b.drop_last());
        assert(whole.last() == b.last());
        law_list_text(a, path, b.drop_last());
        assert(execute::list_text(whole) =~= execute::list_text(a) + "file '"@ + execute::quoted(
            path,
        ) + "'\n"@ + execute::list_text(b));
    }
}

/// The paths in the list file are the inputs, each made absolute.
pub proof fn law_listed_inputs(job: RunJob, state: RunState, directory: Seq<char>, next: RunState)
    requires
        state is FindDirectory,
        forall|i: int| 0 <= i < job.inputs@.len() ==> (#[trigger] job.inputs@[i])@.len() > 0,
        exists|found: String|
            found@ == directory && #[trigger] execute::is_run_next(
                job,
                state,
                RunEvent::Directory(Ok(found)),
                next,
            ),
    ensures
        next matches RunState::WriteList { file, text } && file == state->FindDirectory_file
            && text@ == execute::list_text(
            Seq::new(
                job.inputs@.len(),
                |i: int|
                    if job.inputs@[i]@[0] == '/' {
                        path::absolute(Seq::empty(), job.inputs@[i]@)
                    } else {
                        path::absolute(directory, job.inputs@[i]@)
                    },
            ),
        ),
{
    let inputs = text::texts(job.inputs@);
    let d = Ok::<Seq<char>, Seq<char>>(directory);
    lemma_absolute_inputs(inputs, d);
    assert forall|i: int| 0 <= i < inputs.len() implies (#[trigger] inputs[i]).len() > 0 by {
        assert(job.inputs@[i]@.len() > 0);
    }
    let paths = execute::absolute_inputs(inputs, d)->Ok_0;
    let all = Seq::new(
        job.inputs@.len(),
        |i: int|
            if job.inputs@[i]@[0] == '/' {
                path::absolute(Seq::empty(), job.inputs@[i]@)
            } else {
                path::absolute(directory, job.inputs@[i]@)
            },
    );
    assert forall|i: int| 0 <= i < all.len() implies #[trigger] all[i] == paths[i] by {
        assert(inputs[i] == job.inputs@[i]@);
    }
    assert(all =~= paths);
}

/// Each input of a join comes with its own container.
pub proof fn law_containers(profiles: Seq<MediaProfile>)
    ensures
        flow::containers_of(profiles).len() == profiles.len(),
        forall|i: int|
            0 <= i < profiles.len() ==> #[trigger] flow::containers_of(profiles)[i]
                == profiles[i].container,
{
}

} // verus!
