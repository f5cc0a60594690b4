//! Recipes: the steps that each task is made of.
//!
//! A step either runs a command and streams what it prints, announced by a
//! marker, or reads a file and publishes what it holds.

use crate::command::{CommandLine, CommandModel};
use crate::model::SseTask;
use crate::text::before_last;
use vstd::prelude::*;

verus! {

/// One step of a task.
#[derive(Debug)]
pub enum Step {
    /// Publish the marker, run the command, and publish each line it prints.
    Run { marker: String, command: CommandLine },
    /// Read the file and publish what it holds as one event.
    ReadFile { path: String },
}

/// A step as plain values.
pub enum StepModel {
    Run { marker: Seq<char>, command: CommandModel },
    ReadFile { path: Seq<char> },
}

impl View for Step {
    type V = StepModel;

    open spec fn view(&self) -> StepModel {
        match self {
            Step::Run { marker, command } => StepModel::Run { marker: marker@, command: command@ },
            Step::ReadFile { path } => StepModel::ReadFile { path: path@ },
        }
    }
}

/// The steps as plain values.
pub open spec fn steps_of(steps: Seq<Step>) -> Seq<StepModel> {
    steps.map_values(|step: Step| step@)
}

/// Whether a task works on a resource, whose compose project must be found
/// before the task can begin.
pub open spec fn needs_resource(task: SseTask) -> bool {
    task != SseTask::PruneImages
}

/// The key under which a task publishes: the name of the resource, or the
/// identifier of the task where it works on no resource.
pub open spec fn event_key(task: SseTask, name: Seq<char>) -> Seq<char> {
    if needs_resource(task) {
        name
    } else {
        task.name()
    }
}

/// A compose command with the given words, run in the directory of the
/// compose file at `path`, and announced by `marker`.
pub open spec fn compose_step(marker: Seq<char>, words: Seq<Seq<char>>, path: Seq<char>) -> StepModel {
    StepModel::Run {
        marker,
        command: CommandModel::docker(seq!["compose"@] + words, Some(before_last(path, '/'))),
    }
}

/// The steps of a task on the resource whose compose file is at `path`.
pub open spec fn recipe(task: SseTask, path: Seq<char>) -> Seq<StepModel> {
    match task {
        SseTask::Pull => seq![compose_step("docker compose pull\n"@, seq!["pull"@], path)],
        SseTask::Update => seq![
            compose_step("docker compose down\n"@, seq!["down"@], path),
            compose_step("\ndocker compose up -d\n"@, seq!["up"@, "-d"@], path),
        ],
        SseTask::GetConfig => seq![StepModel::ReadFile { path }],
        SseTask::PruneImages => seq![
            StepModel::Run {
                marker: "docker image prune --all --force\n"@,
                command: CommandModel::docker(
                    seq!["image"@, "prune"@, "--all"@, "--force"@],
                    None,
                ),
            },
        ],
    }
}

/// Whether a task works on a resource.
pub fn works_on_resource(task: SseTask) -> (needs: bool)
    ensures
        needs == needs_resource(task),
{
    match task {
        SseTask::PruneImages => false,
        _ => true,
    }
}

/// The key under which a task publishes.
pub fn key_for(task: SseTask, name: &str) -> (key: String)
    ensures
        key@ == event_key(task, name@),
{
    if works_on_resource(task) {
        name.to_owned()
    } else {
        task.to_string()
    }
}

/// The directory that holds the file at `path`.
fn dir_of(path: &str) -> (dir: Option<String>)
    ensures
        dir matches Some(d) && d@ == before_last(path@, '/'),
{
    Some(crate::container::parent_dir(path))
}

/// The steps of a task on the resource whose compose file is at `path`.
pub fn recipe_for(task: SseTask, path: &str) -> (steps: Vec<Step>)
    ensures
        steps_of(steps@) == recipe(task, path@),
{
    let mut steps: Vec<Step> = Vec::new();
    match task {
        SseTask::Pull => {
            let command = CommandLine::docker(dir_of(path)).arg("compose").arg("pull");
            assert(command@.args =~= seq!["compose"@] + seq!["pull"@]);
            steps.push(Step::Run { marker: "docker compose pull\n".to_owned(), command });
        },
        SseTask::Update => {
            let down = CommandLine::docker(dir_of(path)).arg("compose").arg("down");
            assert(down@.args =~= seq!["compose"@] + seq!["down"@]);
            steps.push(Step::Run { marker: "docker compose down\n".to_owned(), command: down });
            let up = CommandLine::docker(dir_of(path)).arg("compose").arg("up").arg("-d");
            assert(up@.args =~= seq!["compose"@] + seq!["up"@, "-d"@]);
            steps.push(Step::Run { marker: "\ndocker compose up -d\n".to_owned(), command: up });
        },
        SseTask::GetConfig => {
            steps.push(Step::ReadFile { path: path.to_owned() });
        },
        SseTask::PruneImages => {
            let command = CommandLine::docker(None).arg("image").arg("prune").arg("--all").arg(
                "--force",
            );
            assert(command@.args =~= seq!["image"@, "prune"@, "--all"@, "--force"@]);
            steps.push(
                Step::Run { marker: "docker image prune --all --force\n".to_owned(), command },
            );
        },
    }
    steps
}

} // verus!
