//! The task runner: what a task publishes and what it asks of its caller.
//!
//! The runner does no work outside the program itself. It is told what
//! happened (the resource was inspected, the command has started, this much
//! output has arrived) and answers with the events to publish and with the
//! next thing to do. The caller does that, and reports back.

use crate::bus::AppState;
use crate::command::{CommandLine, CommandModel};
use crate::container::{config_path, inspect_container, Container};
use crate::error::Failure;
use crate::lines::{all_lines, bytes_of, decoded, is_line, lemma_mux_stays_tidy, lemma_readable,
    lemma_readable_bounds, lemma_text_has_no_feed, readable, to_text, Arrival, ArrivalModel,
    LineBuffer, LineMux, MuxState};
use crate::model::{EventModel, SseEvent, SseTask};
use crate::recipe::{event_key, key_for, needs_resource, recipe, recipe_for, steps_of,
    works_on_resource, Step, StepModel};
use crate::text::join;
use vstd::prelude::*;
use vstd::string::*;
use vstd::utf8::{decode_utf8, valid_utf8};

verus! {

/// Where a runner stands.
#[derive(Debug, Clone, Copy, PartialEq, Eq, Structural)]
pub enum Phase {
    /// Nothing has happened yet.
    Created,
    /// The resource is being inspected.
    Resolving,
    /// The command of the current step is being started.
    Spawning,
    /// The command of the current step runs and its output is read.
    Streaming,
    /// The output has ended and the command is awaited.
    Waiting,
    /// The file of the current step is being read.
    Reading,
    /// All steps are done.
    Finished,
    /// The task has failed.
    Failed(Failure),
}

/// What the caller reports to the runner.
#[derive(Debug)]
pub enum Input {
    /// The task shall begin.
    Start,
    /// The inspect command has printed this.
    Inspected(Vec<u8>),
    /// The inspect command could not be run.
    InspectFailed,
    /// The command has started.
    Spawned,
    /// The command could not be started.
    SpawnFailed,
    /// This has arrived from the command.
    Output(Arrival),
    /// The command has ended, with status zero or not.
    Exited(bool),
    /// The file holds this.
    FileRead(Vec<u8>),
    /// The file could not be read.
    FileFailed,
    /// The caller could not publish an event that it was given.
    PublishFailed,
    /// The task shall be given up.
    Cancelled,
}

/// A report as plain values.
pub enum InputModel {
    Start,
    Inspected(Seq<u8>),
    InspectFailed,
    Spawned,
    SpawnFailed,
    Output(ArrivalModel),
    Exited(bool),
    FileRead(Seq<u8>),
    FileFailed,
    PublishFailed,
    Cancelled,
}

impl InputModel {
    /// The failure of a report that ends a task wherever it stands.
    pub open spec fn interrupts(self) -> Option<Failure> {
        match self {
            InputModel::PublishFailed => Some(Failure::PublishFailed),
            InputModel::Cancelled => Some(Failure::Cancelled),
            _ => None,
        }
    }
}

impl View for Input {
    type V = InputModel;

    open spec fn view(&self) -> InputModel {
        match self {
            Input::Start => InputModel::Start,
            Input::Inspected(bytes) => InputModel::Inspected(bytes@),
            Input::InspectFailed => InputModel::InspectFailed,
            Input::Spawned => InputModel::Spawned,
            Input::SpawnFailed => InputModel::SpawnFailed,
            Input::Output(arrival) => InputModel::Output(arrival@),
            Input::Exited(success) => InputModel::Exited(*success),
            Input::FileRead(bytes) => InputModel::FileRead(bytes@),
            Input::FileFailed => InputModel::FileFailed,
            Input::PublishFailed => InputModel::PublishFailed,
            Input::Cancelled => InputModel::Cancelled,
        }
    }
}

/// What the runner asks of the caller.
#[derive(Debug)]
pub enum Request {
    /// Run the inspect command and report what it prints.
    Inspect(CommandLine),
    /// Start the command with its output captured and report whether it
    /// started.
    Spawn(CommandLine),
    /// Report what arrives next from the command.
    Read,
    /// Wait for the command to end and report its status.
    Wait,
    /// Read the file and report what it holds.
    ReadFile(String),
    /// Nothing: the task is done.
    Done,
    /// Nothing: the task has failed.
    Failed(Failure),
}

/// A request as plain values.
pub enum RequestModel {
    Inspect(CommandModel),
    Spawn(CommandModel),
    Read,
    Wait,
    ReadFile(Seq<char>),
    Done,
    Failed(Failure),
}

impl View for Request {
    type V = RequestModel;

    open spec fn view(&self) -> RequestModel {
        match self {
            Request::Inspect(command) => RequestModel::Inspect(command@),
            Request::Spawn(command) => RequestModel::Spawn(command@),
            Request::Read => RequestModel::Read,
            Request::Wait => RequestModel::Wait,
            Request::ReadFile(path) => RequestModel::ReadFile(path@),
            Request::Done => RequestModel::Done,
            Request::Failed(failure) => RequestModel::Failed(*failure),
        }
    }
}

/// The answer of the runner to a report: the events to publish now, in
/// order, and what to do after that.
#[derive(Debug)]
pub struct Reaction {
    pub events: Vec<SseEvent>,
    pub request: Request,
}

/// What an event is within its step.
pub enum EventKind {
    /// The announcement of a command.
    Marker,
    /// A line that the command printed.
    Line,
    /// What a file holds.
    Content,
}

/// An event together with the step that it belongs to.
pub struct Published {
    pub step: int,
    pub kind: EventKind,
    pub event: EventModel,
}

/// An answer as plain values, each event with the step that it belongs to.
pub struct ReactionModel {
    pub events: Seq<Published>,
    pub request: RequestModel,
}

/// The events as plain values.
pub open spec fn events_of(events: Seq<SseEvent>) -> Seq<EventModel> {
    events.map_values(|evt: SseEvent| evt@)
}

/// The events without their steps.
pub open spec fn plain(log: Seq<Published>) -> Seq<EventModel> {
    log.map_values(|p: Published| p.event)
}

/// The event for a line of output: the line with a line feed behind it.
pub open spec fn line_event(key: Seq<char>, line: Seq<char>) -> EventModel {
    EventModel { key, data: line.push('\n') }
}

/// The events for the first `count` of the lines, as events of `step`.
pub open spec fn line_events(step: int, key: Seq<char>, raw: Seq<Seq<u8>>, count: int) -> Seq<
    Published,
> {
    Seq::new(
        count as nat,
        |i: int|
            Published { step, kind: EventKind::Line, event: line_event(key, decode_utf8(raw[i])) },
    )
}

/// The events for what an arrival makes ready: one for each line up to the
/// first that is not text.
pub open spec fn streamed_events(key: Seq<char>, mux: MuxState, arrival: ArrivalModel) -> Seq<
    EventModel,
> {
    plain(
        line_events(
            0,
            key,
            LineMux::lines(mux, arrival),
            readable(LineMux::lines(mux, arrival)),
        ),
    )
}

/// Whether each of the events is one line of text under the key given.
pub open spec fn are_lines(events: Seq<EventModel>, key: Seq<char>) -> bool {
    forall|i: int|
        0 <= i < events.len() ==> (#[trigger] events[i]).key == key && is_line(events[i].data)
}

/// Every event that is made of what arrives from a command is one line of
/// text with the line feed that ends it, under the key given. This holds of
/// the fragment that a source leaves at its end as of every other line.
pub proof fn lemma_streamed_events_are_lines(key: Seq<char>, mux: MuxState, arrival: ArrivalModel)
    requires
        mux.is_tidy(),
    ensures
        are_lines(streamed_events(key, mux, arrival), key),
        LineMux::next(mux, arrival).is_tidy(),
{
    let raw = LineMux::lines(mux, arrival);
    let events = streamed_events(key, mux, arrival);
    lemma_mux_stays_tidy(mux, arrival);
    lemma_readable_bounds(raw);
    assert forall|i: int| 0 <= i < events.len() implies (#[trigger] events[i]).key == key
        && is_line(events[i].data) by {
        let text = decode_utf8(raw[i]);
        lemma_text_has_no_feed(raw[i]);
        assert(events[i] == line_event(key, text));
        assert(text.push('\n').drop_last() =~= text);
    }
}

/// How the output stands after an arrival: it cannot be read further if a
/// read has failed or a line is not text; else it is over or it is not.
pub open spec fn stream_outcome(mux: MuxState, arrival: ArrivalModel) -> Result<bool, Failure> {
    if LineMux::fails(mux, arrival) || readable(LineMux::lines(mux, arrival)) < LineMux::lines(
        mux,
        arrival,
    ).len() {
        Err(Failure::ReadFailed)
    } else {
        Ok(LineMux::finished(LineMux::next(mux, arrival)))
    }
}

/// The compose file that the output of the inspect command names. The output
/// must be text, and must name a file.
pub open spec fn resolve(inspected: Seq<u8>) -> Result<Seq<char>, Failure> {
    if !valid_utf8(inspected) {
        Err(Failure::InspectFailed)
    } else if config_path(decode_utf8(inspected)).len() == 0 {
        Err(Failure::NoComposeFile)
    } else {
        Ok(config_path(decode_utf8(inspected)))
    }
}

/// What is published for a file: its lines, joined by line feeds. Every line
/// must be text.
pub open spec fn file_payload(content: Seq<u8>) -> Option<Seq<char>> {
    if readable(all_lines(content)) == all_lines(content).len() {
        Some(join(decoded(all_lines(content)), '\n'))
    } else {
        None
    }
}

/// The state of a runner as plain values.
pub struct RunnerModel {
    pub task: SseTask,
    pub name: Seq<char>,
    pub steps: Seq<StepModel>,
    pub cursor: int,
    pub phase: Phase,
    pub mux: MuxState,
}

impl RunnerModel {
    /// A runner to which nothing has been reported yet.
    pub open spec fn initial(task: SseTask, name: Seq<char>) -> RunnerModel {
        RunnerModel {
            task,
            name,
            steps: Seq::empty(),
            cursor: 0,
            phase: Phase::Created,
            mux: LineMux::initial(),
        }
    }

    /// The key under which the runner publishes.
    pub open spec fn key(self) -> Seq<char> {
        event_key(self.task, self.name)
    }

    /// Whether the state hangs together: the step that is under way exists
    /// and is of the kind that the phase says, and what is held back of the
    /// output of its command holds no line feed.
    pub open spec fn sound(self) -> bool {
        &&& self.mux.is_tidy()
        &&& 0 <= self.cursor <= self.steps.len()
        &&& (self.phase == Phase::Spawning || self.phase == Phase::Streaming || self.phase
            == Phase::Waiting) ==> self.cursor < self.steps.len()
            && self.steps[self.cursor] is Run
        &&& self.phase == Phase::Reading ==> self.cursor < self.steps.len()
            && self.steps[self.cursor] is ReadFile
    }

    /// Whether nothing more will happen.
    pub open spec fn is_over(self) -> bool {
        self.phase == Phase::Finished || self.phase is Failed
    }

    /// The task fails.
    pub open spec fn fail(self, failure: Failure) -> (RunnerModel, ReactionModel) {
        (
            RunnerModel { phase: Phase::Failed(failure), ..self },
            ReactionModel { events: Seq::empty(), request: RequestModel::Failed(failure) },
        )
    }

    /// The step at the cursor begins, or the task is done if there is none.
    pub open spec fn begin(self) -> (RunnerModel, ReactionModel) {
        if 0 <= self.cursor < self.steps.len() {
            match self.steps[self.cursor] {
                StepModel::Run { marker, command } => (
                    RunnerModel { phase: Phase::Spawning, mux: LineMux::initial(), ..self },
                    ReactionModel {
                        events: seq![
                            Published {
                                step: self.cursor,
                                kind: EventKind::Marker,
                                event: EventModel { key: self.key(), data: marker },
                            },
                        ],
                        request: RequestModel::Spawn(command),
                    },
                ),
                StepModel::ReadFile { path } => (
                    RunnerModel { phase: Phase::Reading, mux: LineMux::initial(), ..self },
                    ReactionModel { events: Seq::empty(), request: RequestModel::ReadFile(path) },
                ),
            }
        } else {
            (
                RunnerModel { phase: Phase::Finished, mux: LineMux::initial(), ..self },
                ReactionModel { events: Seq::empty(), request: RequestModel::Done },
            )
        }
    }

    /// The task begins with the steps for the compose file at `path`.
    pub open spec fn begin_recipe(self, path: Seq<char>) -> (RunnerModel, ReactionModel) {
        (RunnerModel { steps: recipe(self.task, path), cursor: 0, ..self }).begin()
    }

    /// The current step is done and the next one begins.
    pub open spec fn proceed(self) -> (RunnerModel, ReactionModel) {
        (RunnerModel { cursor: self.cursor + 1, ..self }).begin()
    }

    /// Output has arrived from the command of the current step.
    pub open spec fn stream(self, arrival: ArrivalModel) -> (RunnerModel, ReactionModel) {
        let mux = LineMux::next(self.mux, arrival);
        let raw = LineMux::lines(self.mux, arrival);
        let events = line_events(self.cursor, self.key(), raw, readable(raw));
        match stream_outcome(self.mux, arrival) {
            Err(failure) => (
                RunnerModel { phase: Phase::Failed(failure), mux, ..self },
                ReactionModel { events, request: RequestModel::Failed(failure) },
            ),
            Ok(over) => if over {
                (
                    RunnerModel { phase: Phase::Waiting, mux, ..self },
                    ReactionModel { events, request: RequestModel::Wait },
                )
            } else {
                (RunnerModel { mux, ..self }, ReactionModel { events, request: RequestModel::Read })
            },
        }
    }

    /// The file of the current step has been read.
    pub open spec fn publish_file(self, content: Seq<u8>) -> (RunnerModel, ReactionModel) {
        match file_payload(content) {
            Some(payload) => {
                let (next, reaction) = self.proceed();
                (
                    next,
                    ReactionModel {
                        events: seq![
                            Published {
                                step: self.cursor,
                                kind: EventKind::Content,
                                event: EventModel { key: self.key(), data: payload },
                            },
                        ] + reaction.events,
                        request: reaction.request,
                    },
                )
            },
            None => self.fail(Failure::FileFailed),
        }
    }

    /// The answer to a report, and the state after it. A runner that is over
    /// repeats its last word. An event that the caller could not publish and
    /// a cancellation fail the task wherever it stands. Any other report
    /// must answer the last request, or the task fails.
    #[verifier::opaque]
    pub open spec fn react(self, input: InputModel) -> (RunnerModel, ReactionModel) {
        match self.phase {
            Phase::Finished => (
                self,
                ReactionModel { events: Seq::empty(), request: RequestModel::Done },
            ),
            Phase::Failed(failure) => (
                self,
                ReactionModel { events: Seq::empty(), request: RequestModel::Failed(failure) },
            ),
            _ => match input.interrupts() {
                Some(failure) => self.fail(failure),
                None => self.answer(input),
            },
        }
    }

    /// The answer of a runner that is under way to a report that does not
    /// interrupt it.
    pub open spec fn answer(self, input: InputModel) -> (RunnerModel, ReactionModel) {
        match (self.phase, input) {
            (Phase::Created, InputModel::Start) => if needs_resource(self.task) {
                (
                    RunnerModel { phase: Phase::Resolving, ..self },
                    ReactionModel {
                        events: Seq::empty(),
                        request: RequestModel::Inspect(inspect_container(self.name)),
                    },
                )
            } else {
                self.begin_recipe(Seq::empty())
            },
            (Phase::Resolving, InputModel::Inspected(inspected)) => match resolve(inspected) {
                Ok(path) => self.begin_recipe(path),
                Err(failure) => self.fail(failure),
            },
            (Phase::Resolving, InputModel::InspectFailed) => self.fail(Failure::InspectFailed),
            (Phase::Spawning, InputModel::Spawned) => (
                RunnerModel { phase: Phase::Streaming, ..self },
                ReactionModel { events: Seq::empty(), request: RequestModel::Read },
            ),
            (Phase::Spawning, InputModel::SpawnFailed) => self.fail(Failure::SpawnFailed),
            (Phase::Streaming, InputModel::Output(arrival)) => self.stream(arrival),
            (Phase::Waiting, InputModel::Exited(success)) => if success {
                self.proceed()
            } else {
                self.fail(Failure::CommandFailed)
            },
            (Phase::Reading, InputModel::FileRead(content)) => self.publish_file(content),
            (Phase::Reading, InputModel::FileFailed) => self.fail(Failure::FileFailed),
            _ => self.fail(Failure::Unexpected),
        }
    }
}

/// Runs one task for one resource.
#[derive(Debug)]
pub struct TaskRunner {
    task: SseTask,
    name: String,
    key: String,
    steps: Vec<Step>,
    cursor: usize,
    phase: Phase,
    mux: LineMux,
}

impl View for TaskRunner {
    type V = RunnerModel;

    closed spec fn view(&self) -> RunnerModel {
        RunnerModel {
            task: self.task,
            name: self.name@,
            steps: steps_of(self.steps@),
            cursor: self.cursor as int,
            phase: self.phase,
            mux: self.mux@,
        }
    }
}

/// The event for a line of output.
fn event_for_line(key: &str, line: String) -> (evt: SseEvent)
    ensures
        evt@ == line_event(key@, line@),
{
    proof {
        reveal_strlit("\n");
    }
    let data = line.concat("\n");
    assert(data@ =~= line@.push('\n'));
    SseEvent { event: key.to_owned(), data }
}

/// What one arrival from a running command gives.
#[derive(Debug)]
pub struct Streamed {
    /// The events for the lines that the arrival made ready, in order.
    pub events: Vec<SseEvent>,
    /// Whether the output is over, or why it cannot be read further.
    pub outcome: Result<bool, Failure>,
}

/// Takes in what has arrived from a running command and makes an event,
/// under the name given, of each line that this makes ready. A line that is
/// not text ends the output with an error; the lines before it are still made
/// into events.
pub fn execute_command(event_name: &str, mux: &mut LineMux, arrival: Arrival) -> (streamed: Streamed)
    ensures
        final(mux)@ == LineMux::next(old(mux)@, arrival@),
        events_of(streamed.events@) == streamed_events(event_name@, old(mux)@, arrival@),
        streamed.outcome == stream_outcome(old(mux)@, arrival@),
        old(mux)@.is_tidy(),
        final(mux)@.is_tidy(),
        are_lines(events_of(streamed.events@), event_name@),
{
    let mut events: Vec<SseEvent> = Vec::new();
    let ghost key = event_name@;
    let accepted = mux.accept(arrival);
    proof {
        lemma_streamed_events_are_lines(key, old(mux)@, arrival@);
    }
    match accepted {
        Err(failure) => Streamed { events, outcome: Err(failure) },
        Ok(lines) => {
            let ghost raw = bytes_of(lines@);
            let mut failed = false;
            for line in it: lines
                invariant
                    it.seq() == lines@,
                    raw == bytes_of(lines@),
                    key == event_name@,
                    events@.len() <= it.index(),
                    failed ==> events@.len() < it.index() && !valid_utf8(raw[events@.len() as int]),
                    !failed ==> events@.len() == it.index(),
                    forall|j: int| 0 <= j < events@.len() ==> valid_utf8(#[trigger] raw[j]),
                    events_of(events@) == plain(line_events(0, key, raw, events@.len() as int)),
            {
                if !failed {
                    match to_text(line) {
                        Ok(text) => {
                            let ghost before = events@;
                            let ghost n = before.len() as int;
                            let ghost added = line_event(key, decode_utf8(raw[n]));
                            events.push(event_for_line(event_name, text));
                            assert(plain(line_events(0, key, raw, n + 1)) =~= plain(
                                line_events(0, key, raw, n),
                            ).push(added));
                        },
                        Err(_) => {
                            failed = true;
                        },
                    }
                }
            }
            proof {
                lemma_readable(raw, events@.len() as int);
            }
            if failed {
                Streamed { events, outcome: Err(Failure::ReadFailed) }
            } else {
                Streamed { events, outcome: Ok(mux.is_finished()) }
            }
        },
    }
}

/// All the lines of what a file holds.
fn lines_of_file(content: &Vec<u8>) -> (lines: Vec<Vec<u8>>)
    ensures
        bytes_of(lines@) == all_lines(content@),
{
    let mut buffer = LineBuffer::new();
    let mut lines = buffer.feed(content);
    let ghost held = buffer@;
    match buffer.close() {
        Some(last) => {
            lines.push(last);
            assert(LineBuffer::flushed(held)[0] == last@);
        },
        None => {
            assert(LineBuffer::flushed(held).len() == 0);
        },
    }
    lines
}

/// What is published for a file, if all of it is text.
fn payload_of(content: &Vec<u8>) -> (payload: Option<String>)
    ensures
        match payload {
            Some(text) => file_payload(content@) == Some(text@),
            None => file_payload(content@) is None,
        },
{
    proof {
        reveal_strlit("\n");
    }
    let lines = lines_of_file(content);
    let ghost raw = bytes_of(lines@);
    let mut payload = String::new();
    let mut failed = false;
    let mut first = true;
    let ghost mut bad: int = 0;
    for line in it: lines
        invariant
            it.seq() == lines@,
            raw == bytes_of(lines@),
            "\n"@ == seq!['\n'],
            failed ==> 0 <= bad < raw.len() && !valid_utf8(raw[bad]),
            !failed ==> first == (it.index() == 0),
            !failed ==> payload@ == join(decoded(raw.take(it.index() as int)), '\n'),
            !failed ==> forall|j: int| 0 <= j < it.index() ==> valid_utf8(#[trigger] raw[j]),
    {
        let ghost n = it.index() as int;
        if !failed {
            match to_text(line) {
                Ok(text) => {
                    if !first {
                        payload.append("\n");
                    }
                    first = false;
                    payload.append(text.as_str());
                    assert(decoded(raw.take(n + 1)).drop_last() =~= decoded(raw.take(n)));
                },
                Err(_) => {
                    failed = true;
                    proof {
                        bad = n;
                    }
                },
            }
        }
    }
    proof {
        lemma_readable_bounds(raw);
        assert(raw.take(raw.len() as int) =~= raw);
    }
    if failed {
        None
    } else {
        Some(payload)
    }
}

impl TaskRunner {
    /// Whether the state hangs together and the key is the one of the task.
    #[verifier::type_invariant]
    spec fn inv(self) -> bool {
        self@.sound() && self.key@ == event_key(self.task, self.name@)
    }

    /// A runner for `task` on the resource called `name`, to which nothing
    /// has been reported yet.
    pub fn new(task: SseTask, name: String) -> (runner: TaskRunner)
        ensures
            runner@ == RunnerModel::initial(task, name@),
    {
        let key = key_for(task, name.as_str());
        let runner = TaskRunner {
            task,
            name,
            key,
            steps: Vec::new(),
            cursor: 0,
            phase: Phase::Created,
            mux: LineMux::new(),
        };
        assert(steps_of(runner.steps@) =~= Seq::<StepModel>::empty());
        runner
    }

    /// Whether nothing more will happen: the task is done or has failed.
    pub fn is_over(&self) -> (over: bool)
        ensures
            over == self@.is_over(),
    {
        match self.phase {
            Phase::Finished => true,
            Phase::Failed(_) => true,
            _ => false,
        }
    }

    /// The task fails.
    fn fail(self, failure: Failure) -> (out: (TaskRunner, Reaction))
        ensures
            out.0@ == self@.fail(failure).0,
            events_of(out.1.events@) == plain(self@.fail(failure).1.events),
            out.1.request@ == self@.fail(failure).1.request,
    {
        proof {
            use_type_invariant(&self);
        }
        let runner = TaskRunner { phase: Phase::Failed(failure), ..self };
        let reaction = Reaction { events: Vec::new(), request: Request::Failed(failure) };
        (runner, reaction)
    }

    /// The step at the cursor begins.
    fn begin(self) -> (out: (TaskRunner, Reaction))
        ensures
            out.0@ == self@.begin().0,
            events_of(out.1.events@) == plain(self@.begin().1.events),
            out.1.request@ == self@.begin().1.request,
    {
        proof {
            use_type_invariant(&self);
        }
        let mut events: Vec<SseEvent> = Vec::new();
        if self.cursor < self.steps.len() {
            match &self.steps[self.cursor] {
                Step::Run { marker, command } => {
                    let request = Request::Spawn(command.clone());
                    let evt = SseEvent { event: self.key.clone(), data: marker.clone() };
                    events.push(evt);
                    let runner = TaskRunner {
                        phase: Phase::Spawning,
                        mux: LineMux::new(),
                        ..self
                    };
                    (runner, Reaction { events, request })
                },
                Step::ReadFile { path } => {
                    let request = Request::ReadFile(path.clone());
                    let runner = TaskRunner { phase: Phase::Reading, mux: LineMux::new(), ..self };
                    (runner, Reaction { events, request })
                },
            }
        } else {
            let runner = TaskRunner { phase: Phase::Finished, mux: LineMux::new(), ..self };
            (runner, Reaction { events, request: Request::Done })
        }
    }

    /// The task begins with the steps for the compose file at `path`.
    fn begin_recipe(self, path: &str) -> (out: (TaskRunner, Reaction))
        ensures
            out.0@ == self@.begin_recipe(path@).0,
            events_of(out.1.events@) == plain(self@.begin_recipe(path@).1.events),
            out.1.request@ == self@.begin_recipe(path@).1.request,
    {
        proof {
            use_type_invariant(&self);
        }
        let steps = recipe_for(self.task, path);
        let runner = TaskRunner { steps, cursor: 0, phase: Phase::Created, ..self };
        runner.begin()
    }

    /// The current step is done and the next one begins.
    fn proceed(self) -> (out: (TaskRunner, Reaction))
        requires
            self@.phase == Phase::Waiting || self@.phase == Phase::Reading,
        ensures
            out.0@ == self@.proceed().0,
            events_of(out.1.events@) == plain(self@.proceed().1.events),
            out.1.request@ == self@.proceed().1.request,
    {
        proof {
            use_type_invariant(&self);
        }
        let count = self.steps.len();
        assert(self.cursor < count);
        let cursor = self.cursor + 1;
        let runner = TaskRunner { cursor, phase: Phase::Created, ..self };
        runner.begin()
    }

    /// Output has arrived from the command of the current step.
    fn stream(self, arrival: Arrival) -> (out: (TaskRunner, Reaction))
        requires
            self@.phase == Phase::Streaming,
        ensures
            out.0@ == self@.stream(arrival@).0,
            events_of(out.1.events@) == plain(self@.stream(arrival@).1.events),
            out.1.request@ == self@.stream(arrival@).1.request,
    {
        proof {
            use_type_invariant(&self);
        }
        let TaskRunner { task, name, key, steps, cursor, phase, mux } = self;
        let mut mux = mux;
        let Streamed { events, outcome } = execute_command(key.as_str(), &mut mux, arrival);
        match outcome {
            Err(failure) => {
                let runner = TaskRunner {
                    task,
                    name,
                    key,
                    steps,
                    cursor,
                    phase: Phase::Failed(failure),
                    mux,
                };
                (runner, Reaction { events, request: Request::Failed(failure) })
            },
            Ok(over) => {
                if over {
                    let runner = TaskRunner {
                        task,
                        name,
                        key,
                        steps,
                        cursor,
                        phase: Phase::Waiting,
                        mux,
                    };
                    (runner, Reaction { events, request: Request::Wait })
                } else {
                    let runner = TaskRunner { task, name, key, steps, cursor, phase, mux };
                    (runner, Reaction { events, request: Request::Read })
                }
            },
        }
    }

    /// The file of the current step has been read.
    fn publish_file(self, content: Vec<u8>) -> (out: (TaskRunner, Reaction))
        requires
            self@.phase == Phase::Reading,
        ensures
            out.0@ == self@.publish_file(content@).0,
            events_of(out.1.events@) == plain(self@.publish_file(content@).1.events),
            out.1.request@ == self@.publish_file(content@).1.request,
    {
        proof {
            use_type_invariant(&self);
        }
        match payload_of(&content) {
            Some(payload) => {
                let first = SseEvent { event: self.key.clone(), data: payload };
                let (next, reaction) = self.proceed();
                let Reaction { events: rest, request } = reaction;
                let mut events: Vec<SseEvent> = Vec::new();
                events.push(first);
                let mut rest = rest;
                let ghost tail = rest@;
                events.append(&mut rest);
                assert(events_of(events@) =~= seq![first@] + events_of(tail));
                (next, Reaction { events, request })
            },
            None => self.fail(Failure::FileFailed),
        }
    }

    /// Takes a report of what happened and answers with the events to
    /// publish, in order, and with what to do next. The state of a runner
    /// hangs together before and after.
    pub fn react(self, input: Input) -> (out: (TaskRunner, Reaction))
        ensures
            out.0@ == self@.react(input@).0,
            events_of(out.1.events@) == plain(self@.react(input@).1.events),
            out.1.request@ == self@.react(input@).1.request,
            self@.sound(),
            out.0@.sound(),
    {
        proof {
            use_type_invariant(&self);
            reveal(RunnerModel::react);
        }
        let out = match self.phase {
            Phase::Finished => {
                let reaction = Reaction { events: Vec::new(), request: Request::Done };
                (self, reaction)
            },
            Phase::Failed(failure) => {
                let reaction = Reaction { events: Vec::new(), request: Request::Failed(failure) };
                (self, reaction)
            },
            _ => match input {
                Input::PublishFailed => self.fail(Failure::PublishFailed),
                Input::Cancelled => self.fail(Failure::Cancelled),
                _ => self.answer(input),
            },
        };
        proof {
            use_type_invariant(&out.0);
        }
        out
    }

    /// The answer to a report that does not interrupt the task.
    fn answer(self, input: Input) -> (out: (TaskRunner, Reaction))
        requires
            !self@.is_over(),
            input@.interrupts() is None,
        ensures
            out.0@ == self@.answer(input@).0,
            events_of(out.1.events@) == plain(self@.answer(input@).1.events),
            out.1.request@ == self@.answer(input@).1.request,
    {
        proof {
            use_type_invariant(&self);
        }
        match self.phase {
            Phase::Created => match input {
                Input::Start => {
                    if works_on_resource(self.task) {
                        let request = Request::Inspect(
                            Container::inspect_command(self.name.as_str()),
                        );
                        let reaction = Reaction { events: Vec::new(), request };
                        (TaskRunner { phase: Phase::Resolving, ..self }, reaction)
                    } else {
                        self.begin_recipe("")
                    }
                },
                _ => self.fail(Failure::Unexpected),
            },
            Phase::Resolving => match input {
                Input::Inspected(inspected) => match to_text(inspected) {
                    Ok(text) => match Container::get_compose_config_file_path(text.as_str()) {
                        Ok(path) => self.begin_recipe(path.as_str()),
                        Err(failure) => self.fail(failure),
                    },
                    Err(_) => self.fail(Failure::InspectFailed),
                },
                Input::InspectFailed => self.fail(Failure::InspectFailed),
                _ => self.fail(Failure::Unexpected),
            },
            Phase::Spawning => match input {
                Input::Spawned => {
                    let reaction = Reaction { events: Vec::new(), request: Request::Read };
                    (TaskRunner { phase: Phase::Streaming, ..self }, reaction)
                },
                Input::SpawnFailed => self.fail(Failure::SpawnFailed),
                _ => self.fail(Failure::Unexpected),
            },
            Phase::Streaming => match input {
                Input::Output(arrival) => self.stream(arrival),
                _ => self.fail(Failure::Unexpected),
            },
            Phase::Waiting => match input {
                Input::Exited(success) => {
                    if success {
                        self.proceed()
                    } else {
                        self.fail(Failure::CommandFailed)
                    }
                },
                _ => self.fail(Failure::Unexpected),
            },
            Phase::Reading => match input {
                Input::FileRead(content) => self.publish_file(content),
                Input::FileFailed => self.fail(Failure::FileFailed),
                _ => self.fail(Failure::Unexpected),
            },
            _ => self.fail(Failure::Unexpected),
        }
    }

    /// Takes a report of what happened, publishes on the bus what the runner
    /// answers with, in order, and returns what to do next. Publishing
    /// succeeds whether or not anyone listens, so the bus never fails a task:
    /// the state and the request are those of the runner's answer.
    pub fn advance(self, input: Input, state: &AppState) -> (out: (TaskRunner, Request))
        ensures
            out.0@ == self@.react(input@).0 && out.1@ == self@.react(input@).1.request,
            self@.sound(),
            out.0@.sound(),
    {
        let (next, reaction) = self.react(input);
        let Reaction { events, request } = reaction;
        for evt in it: events {
            let _ = state.publish(evt);
        }
        (next, request)
    }
}

} // verus!
