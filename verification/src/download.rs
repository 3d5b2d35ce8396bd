//! The plan by which one video is saved: which step comes next, and what is
//! answered in the end.
//!
//! The steps themselves are not taken here. Whoever runs the plan asks it for
//! the next action, performs it, and tells the plan how it went. The plan
//! asks for the video over HTTP, has the file created, has the body of the
//! response read whole, and has it written to the file. It stops at the
//! first step that fails and answers with that step's message; nothing is
//! tried again and nothing is cleaned up.

use vstd::prelude::*;
use vstd::string::*;
use crate::naming::extension;
use crate::paths::{join, joined};

verus! {

/// How far the saving of a video has come.
#[derive(Clone, Copy, Debug, PartialEq, Eq, Structural)]
pub enum Stage {
    /// The video is to be asked for.
    Requesting,
    /// The response is there; the file is to be created.
    Creating,
    /// The file is there; the body of the response is to be read.
    Reading,
    /// The body is there; it is to be written to the file.
    Writing,
    /// The video is stored.
    Saved,
    /// A step failed.
    Failed,
}

/// What is to be done next.
#[derive(Clone, Copy, Debug, PartialEq, Eq, Structural)]
pub enum Action {
    /// Ask for the video with one HTTP GET of the plan's `url`.
    Request,
    /// Create the file at the plan's `target`, or empty it if it is there.
    CreateFile,
    /// Read the body of the response to its end.
    ReadBody,
    /// Write the body to the file at the plan's `target`.
    WriteBody,
    /// Answer with the plan's `result`.
    Finish,
}

/// The saving of one video.
pub struct SaveVideo {
    stage: Stage,
    url: String,
    target: String,
    name: String,
    error: String,
}

/// A `SaveVideo` as the contracts see it.
pub struct SaveVideoView {
    /// How far the saving has come.
    pub stage: Stage,
    /// Where the video is fetched from.
    pub url: Seq<char>,
    /// The path of the file that the video is stored in.
    pub target: Seq<char>,
    /// The name given to the video, without extension.
    pub name: Seq<char>,
    /// The message of the step that failed.
    pub error: Seq<char>,
}

/// How a step went, as the contracts see it.
pub open spec fn outcome_view(outcome: Result<(), String>) -> Result<(), Seq<char>> {
    match outcome {
        Ok(_) => Ok(()),
        Err(message) => Err(message@),
    }
}

/// The plan at its beginning. Where no name could be given, it has failed
/// already, with the message that came in place of the name. Otherwise the
/// video goes to the file `name.mp4` in the folder.
pub open spec fn initial_plan(
    url: Seq<char>,
    folder: Seq<char>,
    name: Result<Seq<char>, Seq<char>>,
) -> SaveVideoView {
    match name {
        Ok(name) => SaveVideoView {
            stage: Stage::Requesting,
            url,
            target: joined(folder, name + extension()),
            name,
            error: Seq::empty(),
        },
        Err(message) => SaveVideoView {
            stage: Stage::Failed,
            url,
            target: Seq::empty(),
            name: Seq::empty(),
            error: message,
        },
    }
}

/// The action that a stage calls for.
pub open spec fn action_at(stage: Stage) -> Action {
    match stage {
        Stage::Requesting => Action::Request,
        Stage::Creating => Action::CreateFile,
        Stage::Reading => Action::ReadBody,
        Stage::Writing => Action::WriteBody,
        Stage::Saved => Action::Finish,
        Stage::Failed => Action::Finish,
    }
}

/// The stage that follows `stage` once its action has succeeded.
pub open spec fn stage_after(stage: Stage) -> Stage {
    match stage {
        Stage::Requesting => Stage::Creating,
        Stage::Creating => Stage::Reading,
        Stage::Reading => Stage::Writing,
        Stage::Writing => Stage::Saved,
        Stage::Saved => Stage::Saved,
        Stage::Failed => Stage::Failed,
    }
}

/// Whether a stage is one of the two in which nothing is left to do.
pub open spec fn finished(stage: Stage) -> bool {
    stage == Stage::Saved || stage == Stage::Failed
}

/// The plan after the action of its stage has gone as `outcome` says. A
/// success leads to the next stage; a failure ends the plan with the
/// failure's message. A finished plan stays as it is.
pub open spec fn step(plan: SaveVideoView, outcome: Result<(), Seq<char>>) -> SaveVideoView {
    if finished(plan.stage) {
        plan
    } else {
        match outcome {
            Ok(_) => SaveVideoView { stage: stage_after(plan.stage), ..plan },
            Err(message) => SaveVideoView { stage: Stage::Failed, error: message, ..plan },
        }
    }
}

/// The plan after a run of steps that went as `outcomes` says, in order.
pub open spec fn run(plan: SaveVideoView, outcomes: Seq<Result<(), Seq<char>>>) -> SaveVideoView
    decreases outcomes.len(),
{
    if outcomes.len() == 0 {
        plan
    } else {
        step(run(plan, outcomes.drop_last()), outcomes.last())
    }
}

/// What a plan answers: the name of the video once it is stored, the message
/// of the failed step once a step has failed, and nothing before that.
pub open spec fn result_of(plan: SaveVideoView) -> Option<Result<Seq<char>, Seq<char>>> {
    match plan.stage {
        Stage::Saved => Some(Ok(plan.name)),
        Stage::Failed => Some(Err(plan.error)),
        _ => None,
    }
}

/// The stage that a plan is in after `done` of its steps have succeeded.
pub open spec fn stage_number(done: int) -> Stage {
    if done <= 0 {
        Stage::Requesting
    } else if done == 1 {
        Stage::Creating
    } else if done == 2 {
        Stage::Reading
    } else if done == 3 {
        Stage::Writing
    } else {
        Stage::Saved
    }
}

/// Whether each of the first `count` outcomes is a success.
pub open spec fn all_succeeded(outcomes: Seq<Result<(), Seq<char>>>, count: int) -> bool {
    forall|i: int| 0 <= i < count ==> i < outcomes.len() && #[trigger] outcomes[i] is Ok
}

/// A run in two parts is the run of the second part on what the first part
/// left.
pub proof fn lemma_run_in_parts(
    plan: SaveVideoView,
    first: Seq<Result<(), Seq<char>>>,
    second: Seq<Result<(), Seq<char>>>,
)
    ensures
        run(plan, first + second) == run(run(plan, first), second),
    decreases second.len(),
{
    if second.len() == 0 {
        assert(first + second == first);
    } else {
        assert((first + second).drop_last() == first + second.drop_last());
        lemma_run_in_parts(plan, first, second.drop_last());
    }
}

/// A finished plan stays as it is, whatever it is told afterwards.
pub proof fn lemma_finished_plan_stays(plan: SaveVideoView, outcomes: Seq<Result<(), Seq<char>>>)
    requires
        finished(plan.stage),
    ensures
        run(plan, outcomes) == plan,
    decreases outcomes.len(),
{
    if outcomes.len() > 0 {
        lemma_finished_plan_stays(plan, outcomes.drop_last());
    }
}

/// While every step succeeds, a new plan moves on by one stage with each
/// step, and changes in nothing else.
pub proof fn lemma_run_of_successes(plan: SaveVideoView, outcomes: Seq<Result<(), Seq<char>>>)
    requires
        plan.stage == Stage::Requesting,
        outcomes.len() <= 4,
        all_succeeded(outcomes, outcomes.len() as int),
    ensures
        run(plan, outcomes) == (SaveVideoView {
            stage: stage_number(outcomes.len() as int),
            ..plan
        }),
    decreases outcomes.len(),
{
    if outcomes.len() > 0 {
        let front = outcomes.drop_last();
        assert forall|i: int| 0 <= i < front.len() implies #[trigger] front[i] is Ok by {
            assert(outcomes[i] is Ok);
        }
        lemma_run_of_successes(plan, front);
        assert(outcomes.last() == outcomes[outcomes.len() - 1]);
    }
}

/// A new plan fails with the message of the first step that fails, whatever
/// it is told after that step.
pub proof fn lemma_first_failure_is_the_answer(
    plan: SaveVideoView,
    outcomes: Seq<Result<(), Seq<char>>>,
    at: int,
)
    requires
        plan.stage == Stage::Requesting,
        0 <= at < 4,
        at < outcomes.len(),
        all_succeeded(outcomes, at),
        outcomes[at] is Err,
    ensures
        result_of(run(plan, outcomes)) == Some(Err::<Seq<char>, Seq<char>>(outcomes[at]->Err_0)),
        run(plan, outcomes).stage == Stage::Failed,
{
    let before = outcomes.take(at);
    let rest = outcomes.skip(at + 1);
    let until = before.push(outcomes[at]);
    assert(outcomes == until + rest);
    assert forall|i: int| 0 <= i < before.len() implies #[trigger] before[i] is Ok by {
        assert(outcomes[i] is Ok);
    }
    lemma_run_of_successes(plan, before);
    assert(until.drop_last() == before);
    assert(run(plan, until) == step(run(plan, before), outcomes[at]));
    lemma_run_in_parts(plan, until, rest);
    lemma_finished_plan_stays(run(plan, until), rest);
}

/// A new plan answers with the name of the video exactly when it has been
/// told of four steps and each of the first four succeeded: the request, the
/// creation of the file, the reading of the body and the writing of it.
pub proof fn lemma_saved_after_four_successes(
    plan: SaveVideoView,
    outcomes: Seq<Result<(), Seq<char>>>,
)
    requires
        plan.stage == Stage::Requesting,
    ensures
        run(plan, outcomes).stage == Stage::Saved <==> all_succeeded(outcomes, 4),
        all_succeeded(outcomes, 4) ==> result_of(run(plan, outcomes)) == Some(
            Ok::<Seq<char>, Seq<char>>(plan.name),
        ),
{
    if all_succeeded(outcomes, 4) {
        assert(outcomes[3] is Ok && outcomes.len() >= 4);
        let four = outcomes.take(4);
        let rest = outcomes.skip(4);
        assert(outcomes == four + rest);
        assert forall|i: int| 0 <= i < four.len() implies #[trigger] four[i] is Ok by {
            assert(outcomes[i] is Ok);
        }
        lemma_run_of_successes(plan, four);
        lemma_run_in_parts(plan, four, rest);
        lemma_finished_plan_stays(run(plan, four), rest);
    } else {
        let bad = choose|i: int| 0 <= i < 4 && !(i < outcomes.len() && #[trigger] outcomes[i] is Ok);
        if all_succeeded(outcomes, outcomes.len() as int) {
            assert(outcomes.len() < 4) by {
                if outcomes.len() >= 4 {
                    assert(outcomes[bad] is Ok);
                }
            }
            lemma_run_of_successes(plan, outcomes);
        } else {
            lemma_first_failure_exists(outcomes, outcomes.len() as int);
            let first = choose|k: int|
                0 <= k < outcomes.len() && all_succeeded(outcomes, k) && outcomes[k] is Err;
            if first < 4 {
                lemma_first_failure_is_the_answer(plan, outcomes, first);
            } else {
                assert(all_succeeded(outcomes, 4)) by {
                    assert forall|i: int| 0 <= i < 4 implies i < outcomes.len()
                        && #[trigger] outcomes[i] is Ok by {
                        assert(0 <= i < first);
                    }
                }
            }
        }
    }
}

/// A new plan has steps left exactly as long as it has been told of fewer
/// than four steps and of no failure, and it then stands at the stage that
/// the count of its steps gives. So each action is asked for once, in order,
/// and only after every action before it has succeeded: no file is created
/// for a request that failed.
pub proof fn lemma_steps_in_order(plan: SaveVideoView, outcomes: Seq<Result<(), Seq<char>>>)
    requires
        plan.stage == Stage::Requesting,
    ensures
        !finished(run(plan, outcomes).stage) <==> outcomes.len() < 4 && all_succeeded(
            outcomes,
            outcomes.len() as int,
        ),
        !finished(run(plan, outcomes).stage) ==> run(plan, outcomes).stage == stage_number(
            outcomes.len() as int,
        ),
{
    lemma_saved_after_four_successes(plan, outcomes);
    if all_succeeded(outcomes, outcomes.len() as int) {
        if outcomes.len() < 4 {
            lemma_run_of_successes(plan, outcomes);
        } else {
            assert(all_succeeded(outcomes, 4));
        }
    } else {
        lemma_first_failure_exists(outcomes, outcomes.len() as int);
        let first = choose|k: int|
            0 <= k < outcomes.len() && all_succeeded(outcomes, k) && outcomes[k] is Err;
        if first < 4 {
            lemma_first_failure_is_the_answer(plan, outcomes, first);
        } else {
            assert(all_succeeded(outcomes, 4)) by {
                assert forall|i: int| 0 <= i < 4 implies i < outcomes.len()
                    && #[trigger] outcomes[i] is Ok by {
                    assert(0 <= i < first);
                }
            }
        }
    }
}

/// Among outcomes that are not all successes, one failure is the first.
proof fn lemma_first_failure_exists(outcomes: Seq<Result<(), Seq<char>>>, upto: int)
    requires
        0 <= upto <= outcomes.len(),
        !all_succeeded(outcomes, upto),
    ensures
        exists|k: int| 0 <= k < upto && all_succeeded(outcomes, k) && outcomes[k] is Err,
    decreases upto,
{
    if upto > 0 {
        if all_succeeded(outcomes, upto - 1) {
            assert(outcomes[upto - 1] is Err);
        } else {
            lemma_first_failure_exists(outcomes, upto - 1);
        }
    }
}

impl View for SaveVideo {
    type V = SaveVideoView;

    closed spec fn view(&self) -> SaveVideoView {
        SaveVideoView {
            stage: self.stage,
            url: self.url@,
            target: self.target@,
            name: self.name@,
            error: self.error@,
        }
    }
}

impl SaveVideo {
    /// Begins a plan for the video at `video_path`, to be stored in the
    /// folder `folder_path` under the name that `name` gives.
    pub fn begin(video_path: &str, folder_path: &str, name: Result<String, String>) -> (plan:
        SaveVideo)
        ensures
            plan@ == initial_plan(
                video_path@,
                folder_path@,
                match name {
                    Ok(name) => Ok(name@),
                    Err(message) => Err(message@),
                },
            ),
    {
        match name {
            Ok(name) => {
                let mut file_name = name.clone();
                proof {
                    reveal_strlit(".mp4");
                }
                file_name.append(".mp4");
                assert(file_name@ == name@ + extension());
                SaveVideo {
                    stage: Stage::Requesting,
                    url: String::from_str(video_path),
                    target: join(folder_path, file_name.as_str()),
                    name,
                    error: String::new(),
                }
            },
            Err(message) => SaveVideo {
                stage: Stage::Failed,
                url: String::from_str(video_path),
                target: String::new(),
                name: String::new(),
                error: message,
            },
        }
    }

    /// How far the plan has come.
    pub fn stage(&self) -> (stage: Stage)
        ensures
            stage == self@.stage,
    {
        self.stage
    }

    /// What is to be done next.
    pub fn action(&self) -> (action: Action)
        ensures
            action == action_at(self@.stage),
    {
        match self.stage {
            Stage::Requesting => Action::Request,
            Stage::Creating => Action::CreateFile,
            Stage::Reading => Action::ReadBody,
            Stage::Writing => Action::WriteBody,
            Stage::Saved => Action::Finish,
            Stage::Failed => Action::Finish,
        }
    }

    /// Where the video is fetched from.
    pub fn url(&self) -> (url: &str)
        ensures
            url@ == self@.url,
    {
        self.url.as_str()
    }

    /// The path of the file that the video is stored in.
    pub fn target(&self) -> (target: &str)
        ensures
            target@ == self@.target,
    {
        self.target.as_str()
    }

    /// Takes note of how the action of the plan's stage went, and says what
    /// is to be done next.
    pub fn advance(&mut self, outcome: Result<(), String>) -> (action: Action)
        ensures
            final(self)@ == step(old(self)@, outcome_view(outcome)),
            action == action_at(final(self)@.stage),
    {
        match self.stage {
            Stage::Saved => {},
            Stage::Failed => {},
            _ => match outcome {
                Ok(_) => {
                    self.stage = match self.stage {
                        Stage::Requesting => Stage::Creating,
                        Stage::Creating => Stage::Reading,
                        Stage::Reading => Stage::Writing,
                        _ => Stage::Saved,
                    };
                },
                Err(message) => {
                    self.stage = Stage::Failed;
                    self.error = message;
                },
            },
        }
        self.action()
    }

    /// What the plan answers: the name of the video once it is stored, the
    /// message of the failed step once a step has failed, and nothing while
    /// steps are left.
    pub fn result(&self) -> (result: Option<Result<String, String>>)
        ensures
            match result {
                Some(Ok(name)) => result_of(self@) == Some(Ok::<Seq<char>, Seq<char>>(name@)),
                Some(Err(message)) => result_of(self@) == Some(
                    Err::<Seq<char>, Seq<char>>(message@),
                ),
                None => result_of(self@) is None,
            },
    {
        match self.stage {
            Stage::Saved => Some(Ok(self.name.clone())),
            Stage::Failed => Some(Err(self.error.clone())),
            _ => None,
        }
    }
}

} // verus!
