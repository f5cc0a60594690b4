//! Whole runs of a task: what is published over a sequence of reports, and
//! in which order.

use crate::command::CommandModel;
use crate::lines::{mux_after, mux_trace, tag, unbroken, ArrivalModel, LineMux, Tagged};
use crate::model::{EventModel, SseTask};
use crate::recipe::{needs_resource, recipe, StepModel};
use crate::text::before_last;
use crate::runner::{resolve, EventKind, InputModel, Phase, Published, RequestModel, RunnerModel};
use vstd::prelude::*;
use vstd::utf8::{decode_utf8, valid_utf8};

verus! {

/// The state of a runner after a sequence of reports.
pub open spec fn run_state(start: RunnerModel, inputs: Seq<InputModel>) -> RunnerModel
    decreases inputs.len(),
{
    if inputs.len() == 0 {
        start
    } else {
        run_state(start, inputs.drop_last()).react(inputs.last()).0
    }
}

/// All that a runner publishes over a sequence of reports, in the order in
/// which it is published.
pub open spec fn run_log(start: RunnerModel, inputs: Seq<InputModel>) -> Seq<Published>
    decreases inputs.len(),
{
    if inputs.len() == 0 {
        Seq::empty()
    } else {
        run_log(start, inputs.drop_last()) + run_state(start, inputs.drop_last()).react(
            inputs.last(),
        ).1.events
    }
}

/// All that a runner asks for over a sequence of reports, in order.
pub open spec fn run_requests(start: RunnerModel, inputs: Seq<InputModel>) -> Seq<RequestModel>
    decreases inputs.len(),
{
    if inputs.len() == 0 {
        Seq::empty()
    } else {
        run_requests(start, inputs.drop_last()).push(
            run_state(start, inputs.drop_last()).react(inputs.last()).1.request,
        )
    }
}

/// Whether the steps of the events never go down.
pub open spec fn in_step_order(log: Seq<Published>) -> bool {
    forall|i: int, j: int|
        0 <= i <= j < log.len() ==> (#[trigger] log[i]).step <= (#[trigger] log[j]).step
}

/// Whether the event at `i` stands where an event of its kind may stand: a
/// marker is the first event of its step and says what the step announces, a
/// line follows the marker or a line of its own step and is one line of
/// text, and what a file holds is the first event of its step.
pub open spec fn well_placed(log: Seq<Published>, steps: Seq<StepModel>, key: Seq<char>, i: int) -> bool {
    let entry = log[i];
    &&& 0 <= entry.step < steps.len()
    &&& entry.event.key == key
    &&& match entry.kind {
        EventKind::Marker => {
            &&& steps[entry.step] matches StepModel::Run { marker, .. }
            &&& entry.event.data == marker
            &&& i > 0 ==> log[i - 1].step < entry.step
        },
        EventKind::Line => {
            &&& steps[entry.step] is Run
            &&& i > 0
            &&& log[i - 1].step == entry.step
            &&& crate::lines::is_line(entry.event.data)
        },
        EventKind::Content => {
            &&& steps[entry.step] is ReadFile
            &&& i > 0 ==> log[i - 1].step < entry.step
        },
    }
}

/// Whether every event stands where an event of its kind may stand.
pub open spec fn well_formed(log: Seq<Published>, steps: Seq<StepModel>, key: Seq<char>) -> bool {
    forall|i: int| 0 <= i < log.len() ==> #[trigger] well_placed(log, steps, key, i)
}

/// What holds of a runner and of what it has published so far.
pub open spec fn consistent(m: RunnerModel, log: Seq<Published>) -> bool {
    &&& m.sound()
    &&& m.steps.len() == 0 || exists|path: Seq<char>| m.steps == #[trigger] recipe(m.task, path)
    &&& in_step_order(log)
    &&& well_formed(log, m.steps, m.key())
    &&& match m.phase {
        Phase::Created => log.len() == 0,
        Phase::Resolving => log.len() == 0,
        Phase::Spawning => log.len() > 0 && log.last().step == m.cursor,
        Phase::Streaming => log.len() > 0 && log.last().step == m.cursor,
        Phase::Waiting => log.len() > 0 && log.last().step == m.cursor,
        Phase::Reading => forall|i: int| 0 <= i < log.len() ==> (#[trigger] log[i]).step < m.cursor,
        Phase::Finished => true,
        Phase::Failed(_) => true,
    }
}

/// Runs compose: reports that come later add to what was published, and
/// change nothing of it.
pub proof fn lemma_run_append(start: RunnerModel, earlier: Seq<InputModel>, later: Seq<InputModel>)
    ensures
        run_state(start, earlier + later) == run_state(run_state(start, earlier), later),
        run_log(start, earlier + later) == run_log(start, earlier) + run_log(
            run_state(start, earlier),
            later,
        ),
        run_requests(start, earlier + later) == run_requests(start, earlier) + run_requests(
            run_state(start, earlier),
            later,
        ),
    decreases later.len(),
{
    if later.len() == 0 {
        assert(earlier + later =~= earlier);
        assert(run_log(start, earlier) + Seq::<Published>::empty() =~= run_log(start, earlier));
        assert(run_requests(start, earlier) + Seq::<RequestModel>::empty() =~= run_requests(
            start,
            earlier,
        ));
    } else {
        lemma_run_append(start, earlier, later.drop_last());
        assert((earlier + later).drop_last() =~= earlier + later.drop_last());
        assert((earlier + later).last() == later.last());
        let middle = run_state(start, earlier);
        let step = run_state(middle, later.drop_last()).react(later.last()).1.events;
        assert((run_log(start, earlier) + run_log(middle, later.drop_last())) + step
            =~= run_log(start, earlier) + (run_log(middle, later.drop_last()) + step));
        let asked = run_state(middle, later.drop_last()).react(later.last()).1.request;
        assert((run_requests(start, earlier) + run_requests(middle, later.drop_last())).push(asked)
            =~= run_requests(start, earlier) + run_requests(middle, later.drop_last()).push(asked));
    }
}

/// A runner that is over stays as it is: it publishes nothing more and asks
/// for nothing more. No failure is ever retried.
pub proof fn lemma_over_is_final(m: RunnerModel, inputs: Seq<InputModel>)
    requires
        m.is_over(),
    ensures
        run_state(m, inputs) == m,
        run_log(m, inputs) == Seq::<Published>::empty(),
        forall|i: int|
            0 <= i < inputs.len() ==> #[trigger] run_requests(m, inputs)[i] == (match m.phase {
                Phase::Failed(failure) => RequestModel::Failed(failure),
                _ => RequestModel::Done,
            }),
        run_requests(m, inputs).len() == inputs.len(),
    decreases inputs.len(),
{
    reveal(RunnerModel::react);
    if inputs.len() > 0 {
        lemma_over_is_final(m, inputs.drop_last());
        assert(run_log(m, inputs) =~= Seq::<Published>::empty());
    }
}

/// Events that were well placed stay well placed when more is published.
proof fn lemma_well_formed_prefix(
    log: Seq<Published>,
    added: Seq<Published>,
    steps: Seq<StepModel>,
    key: Seq<char>,
)
    requires
        well_formed(log, steps, key),
    ensures
        forall|i: int| 0 <= i < log.len() ==> #[trigger] well_placed(log + added, steps, key, i),
{
    let grown = log + added;
    assert forall|i: int| 0 <= i < log.len() implies #[trigger] well_placed(
        grown,
        steps,
        key,
        i,
    ) by {
        assert(well_placed(log, steps, key, i));
        assert(grown[i] == log[i]);
        if i > 0 {
            assert(grown[i - 1] == log[i - 1]);
        }
    }
}

/// The beginning of a step keeps what was published in order.
proof fn lemma_begin_consistent(m: RunnerModel, log: Seq<Published>)
    requires
        0 <= m.cursor <= m.steps.len(),
        m.steps.len() == 0 || exists|path: Seq<char>| m.steps == #[trigger] recipe(m.task, path),
        in_step_order(log),
        well_formed(log, m.steps, m.key()),
        forall|i: int| 0 <= i < log.len() ==> (#[trigger] log[i]).step < m.cursor,
    ensures
        consistent(m.begin().0, log + m.begin().1.events),
{
    let (next, reaction) = m.begin();
    let grown = log + reaction.events;
    lemma_well_formed_prefix(log, reaction.events, m.steps, m.key());
    if 0 <= m.cursor < m.steps.len() {
        match m.steps[m.cursor] {
            StepModel::Run { marker, command } => {
                assert(grown.len() == log.len() + 1);
                assert(grown.last() == reaction.events[0]);
                assert forall|i: int, j: int| 0 <= i <= j < grown.len() implies (
                #[trigger] grown[i]).step <= (#[trigger] grown[j]).step by {
                    if j < log.len() {
                        assert(grown[i] == log[i] && grown[j] == log[j]);
                    } else if i < log.len() {
                        assert(grown[i] == log[i]);
                    }
                }
                assert forall|i: int| 0 <= i < grown.len() implies #[trigger] well_placed(
                    grown,
                    next.steps,
                    next.key(),
                    i,
                ) by {
                    if i == log.len() && i > 0 {
                        assert(grown[i - 1] == log[i - 1]);
                    }
                }
            },
            StepModel::ReadFile { path } => {
                assert(grown =~= log);
            },
        }
    } else {
        assert(grown =~= log);
    }
}

/// Lines that arrive keep what was published in order.
proof fn lemma_stream_consistent(m: RunnerModel, log: Seq<Published>, input: InputModel)
    requires
        consistent(m, log),
        m.phase == Phase::Streaming,
        input is Output,
    ensures
        consistent(m.react(input).0, log + m.react(input).1.events),
{
    reveal(RunnerModel::react);
    let arrival = input->Output_0;
    let (next, reaction) = m.react(input);
    let grown = log + reaction.events;
    lemma_well_formed_prefix(log, reaction.events, m.steps, m.key());
    crate::runner::lemma_streamed_events_are_lines(m.key(), m.mux, arrival);
    if LineMux::fails(m.mux, arrival) {
        assert(grown =~= log);
    } else {
        let streamed = crate::runner::streamed_events(m.key(), m.mux, arrival);
        assert forall|k: int| 0 <= k < reaction.events.len() implies (
        #[trigger] reaction.events[k]).step == m.cursor && reaction.events[k].kind is Line
            && reaction.events[k].event.key == m.key() && crate::lines::is_line(
            reaction.events[k].event.data,
        ) by {
            assert(reaction.events[k].event == streamed[k]);
        }
        assert forall|i: int, j: int| 0 <= i <= j < grown.len() implies (#[trigger] grown[i]).step
            <= (#[trigger] grown[j]).step by {
            if j < log.len() {
                assert(grown[i] == log[i] && grown[j] == log[j]);
            } else {
                assert(grown[j] == reaction.events[j - log.len()]);
                if i < log.len() {
                    assert(grown[i] == log[i]);
                    assert(log[i].step <= log[log.len() - 1].step);
                } else {
                    assert(grown[i] == reaction.events[i - log.len()]);
                }
            }
        }
        assert forall|i: int| 0 <= i < grown.len() implies #[trigger] well_placed(
            grown,
            next.steps,
            next.key(),
            i,
        ) by {
            if i >= log.len() {
                assert(grown[i] == reaction.events[i - log.len()]);
                if i == log.len() {
                    assert(grown[i - 1] == log[log.len() - 1]);
                } else {
                    assert(grown[i - 1] == reaction.events[i - 1 - log.len()]);
                }
            }
        }
        if grown.len() > log.len() {
            assert(grown.last() == reaction.events[reaction.events.len() - 1]);
        } else {
            assert(grown =~= log);
        }
    }
}

/// What a file holds is published in its place, and the next step begins in
/// order.
proof fn lemma_file_consistent(m: RunnerModel, log: Seq<Published>, input: InputModel)
    requires
        consistent(m, log),
        m.phase == Phase::Reading,
        input is FileRead,
    ensures
        consistent(m.react(input).0, log + m.react(input).1.events),
{
    reveal(RunnerModel::react);
    let content = input->FileRead_0;
    let (next, reaction) = m.react(input);
    match crate::runner::file_payload(content) {
        Some(payload) => {
            let entry = Published {
                step: m.cursor,
                kind: EventKind::Content,
                event: EventModel { key: m.key(), data: payload },
            };
            let middle = log.push(entry);
            let moved = RunnerModel { cursor: m.cursor + 1, ..m };
            lemma_well_formed_prefix(log, seq![entry], m.steps, m.key());
            assert(log + seq![entry] =~= middle);
            assert forall|i: int, j: int| 0 <= i <= j < middle.len() implies (
            #[trigger] middle[i]).step <= (#[trigger] middle[j]).step by {
                if j < log.len() {
                    assert(middle[i] == log[i] && middle[j] == log[j]);
                } else if i < log.len() {
                    assert(middle[i] == log[i]);
                }
            }
            assert forall|i: int| 0 <= i < middle.len() implies #[trigger] well_placed(
                middle,
                moved.steps,
                moved.key(),
                i,
            ) by {
                if i == log.len() && i > 0 {
                    assert(middle[i - 1] == log[i - 1]);
                }
            }
            assert forall|i: int| 0 <= i < middle.len() implies (#[trigger] middle[i]).step
                < moved.cursor by {
                if i < log.len() {
                    assert(middle[i] == log[i]);
                }
            }
            lemma_begin_consistent(moved, middle);
            assert(log + reaction.events =~= middle + moved.begin().1.events);
        },
        None => {
            assert(log + reaction.events =~= log);
        },
    }
}

/// Whatever is reported, what has been published stays in order: the events
/// of a step stand together, the steps follow each other as the recipe has
/// them, each command is announced by its marker before any of its lines,
/// and every event carries the key of the task.
pub proof fn lemma_react_consistent(m: RunnerModel, log: Seq<Published>, input: InputModel)
    requires
        consistent(m, log),
    ensures
        consistent(m.react(input).0, log + m.react(input).1.events),
{
    reveal(RunnerModel::react);
    let (next, reaction) = m.react(input);
    let grown = log + reaction.events;
    match m.phase {
        Phase::Finished => {
            assert(grown =~= log);
        },
        Phase::Failed(_) => {
            assert(grown =~= log);
        },
        Phase::Created => {
            if input is Start && !needs_resource(m.task) {
                let ready = RunnerModel { steps: recipe(m.task, Seq::empty()), cursor: 0, ..m };
                assert(well_formed(log, ready.steps, ready.key()));
                lemma_begin_consistent(ready, log);
            } else {
                assert(grown =~= log);
            }
        },
        Phase::Resolving => {
            if input is Inspected && resolve(input->Inspected_0) is Ok {
                let path = resolve(input->Inspected_0)->Ok_0;
                let ready = RunnerModel { steps: recipe(m.task, path), cursor: 0, ..m };
                assert(well_formed(log, ready.steps, ready.key()));
                lemma_begin_consistent(ready, log);
            } else {
                assert(grown =~= log);
            }
        },
        Phase::Spawning => {
            assert(grown =~= log);
        },
        Phase::Streaming => {
            if input is Output {
                lemma_stream_consistent(m, log, input);
            } else {
                assert(grown =~= log);
            }
        },
        Phase::Waiting => {
            if input is Exited && input->Exited_0 {
                let moved = RunnerModel { cursor: m.cursor + 1, ..m };
                assert forall|i: int| 0 <= i < log.len() implies (#[trigger] log[i]).step
                    < moved.cursor by {
                    assert(log[i].step <= log[log.len() - 1].step);
                }
                lemma_begin_consistent(moved, log);
            } else {
                assert(grown =~= log);
            }
        },
        Phase::Reading => {
            if input is FileRead {
                lemma_file_consistent(m, log, input);
            } else {
                assert(grown =~= log);
            }
        },
    }
}

/// In every run of every task, whatever is reported to the runner, the
/// events come out in the order of the recipe: the events of one step are
/// never mixed with those of another, a command's marker stands before all
/// of its lines and is published once, and every event carries the key of
/// the task.
pub proof fn lemma_run_in_order(task: SseTask, name: Seq<char>, inputs: Seq<InputModel>)
    ensures
        consistent(
            run_state(RunnerModel::initial(task, name), inputs),
            run_log(RunnerModel::initial(task, name), inputs),
        ),
    decreases inputs.len(),
{
    let start = RunnerModel::initial(task, name);
    if inputs.len() > 0 {
        lemma_run_in_order(task, name, inputs.drop_last());
        lemma_react_consistent(
            run_state(start, inputs.drop_last()),
            run_log(start, inputs.drop_last()),
            inputs.last(),
        );
    }
}

/// A run of one report is the answer to that report.
pub proof fn lemma_run_one(m: RunnerModel, input: InputModel)
    ensures
        run_state(m, seq![input]) == m.react(input).0,
        run_log(m, seq![input]) == m.react(input).1.events,
        run_requests(m, seq![input]) == seq![m.react(input).1.request],
{
    let none = seq![input].drop_last();
    assert(none.len() == 0);
    assert(run_state(m, none) == m);
    assert(run_log(m, none) =~= Seq::<Published>::empty());
    assert(seq![input].last() == input);
    assert(run_log(m, seq![input]) =~= m.react(input).1.events);
    assert(run_requests(m, none) =~= Seq::<RequestModel>::empty());
    assert(run_requests(m, seq![input]) =~= seq![m.react(input).1.request]);
}

/// The arrivals as reports to the runner.
pub open spec fn outputs(arrivals: Seq<ArrivalModel>) -> Seq<InputModel> {
    arrivals.map_values(|arrival: ArrivalModel| InputModel::Output(arrival))
}

/// The events for the lines of a command, as events of `step`.
pub open spec fn published_lines(step: int, key: Seq<char>, lines: Seq<Tagged>) -> Seq<Published> {
    lines.map_values(
        |line: Tagged|
            Published {
                step,
                kind: EventKind::Line,
                event: crate::runner::line_event(key, decode_utf8(line.1)),
            },
    )
}

/// Whether the arrivals are the whole output of a command that could be
/// read: no read fails, every line is text, and the output is over with the
/// last arrival and not before.
pub open spec fn whole_output(arrivals: Seq<ArrivalModel>) -> bool {
    &&& unbroken(arrivals)
    &&& forall|i: int|
        0 <= i < mux_trace(LineMux::initial(), arrivals).len() ==> valid_utf8(
            (#[trigger] mux_trace(LineMux::initial(), arrivals)[i]).1,
        )
    &&& forall|k: int|
        0 <= k < arrivals.len() ==> !LineMux::finished(
            #[trigger] mux_after(LineMux::initial(), arrivals.take(k)),
        )
    &&& LineMux::finished(mux_after(LineMux::initial(), arrivals))
}

/// While the output of a command arrives and can be read, every line that
/// the multiplexer gives out is published, in the same order, and nothing
/// else is.
pub proof fn lemma_streaming(m: RunnerModel, arrivals: Seq<ArrivalModel>)
    requires
        m.phase == Phase::Streaming,
        m.mux == LineMux::initial(),
        unbroken(arrivals),
        forall|i: int|
            0 <= i < mux_trace(LineMux::initial(), arrivals).len() ==> valid_utf8(
                (#[trigger] mux_trace(LineMux::initial(), arrivals)[i]).1,
            ),
        forall|k: int|
            0 <= k < arrivals.len() ==> !LineMux::finished(
                #[trigger] mux_after(LineMux::initial(), arrivals.take(k)),
            ),
    ensures
        run_state(m, outputs(arrivals)) == (RunnerModel {
            mux: mux_after(LineMux::initial(), arrivals),
            phase: if arrivals.len() > 0 && LineMux::finished(
                mux_after(LineMux::initial(), arrivals),
            ) {
                Phase::Waiting
            } else {
                Phase::Streaming
            },
            ..m
        }),
        run_log(m, outputs(arrivals)) == published_lines(
            m.cursor,
            m.key(),
            mux_trace(LineMux::initial(), arrivals),
        ),
    decreases arrivals.len(),
{
    reveal(RunnerModel::react);
    let start = LineMux::initial();
    if arrivals.len() == 0 {
        assert(run_log(m, outputs(arrivals)) =~= published_lines(
            m.cursor,
            m.key(),
            mux_trace(start, arrivals),
        ));
    } else {
        let before = arrivals.drop_last();
        let last = arrivals.last();
        let seen = mux_trace(start, before);
        let held = mux_after(start, before);
        let raw = LineMux::lines(held, last);
        let added = tag(last.source(), raw);
        assert(mux_trace(start, arrivals) == seen + added);
        assert(before =~= arrivals.take(arrivals.len() - 1));
        assert forall|i: int| 0 <= i < before.len() implies !((#[trigger] before[i]) is Failed) by {
            assert(before[i] == arrivals[i]);
        }
        assert forall|i: int| 0 <= i < seen.len() implies valid_utf8((#[trigger] seen[i]).1) by {
            assert(mux_trace(start, arrivals)[i] == seen[i]);
        }
        assert forall|k: int| 0 <= k < before.len() implies !LineMux::finished(
            #[trigger] mux_after(start, before.take(k)),
        ) by {
            assert(before.take(k) =~= arrivals.take(k));
        }
        lemma_streaming(m, before);
        assert(outputs(arrivals).drop_last() =~= outputs(before));
        assert(outputs(arrivals).last() == InputModel::Output(last));
        let state = run_state(m, outputs(before));
        assert(state.phase == Phase::Streaming);
        assert(!(last is Failed));
        crate::lines::lemma_mux_source_lines(before, last.source());
        assert(!held.failed);
        assert forall|j: int| 0 <= j < raw.len() implies valid_utf8(#[trigger] raw[j]) by {
            assert(mux_trace(start, arrivals)[seen.len() + j] == added[j]);
        }
        crate::lines::lemma_readable(raw, raw.len() as int);
        assert(run_log(m, outputs(arrivals)) =~= published_lines(
            m.cursor,
            m.key(),
            mux_trace(start, arrivals),
        ));
    }
}

/// A command that runs to its end and succeeds: all its lines are published
/// in order, and then the next step begins.
pub proof fn lemma_run_step(m: RunnerModel, arrivals: Seq<ArrivalModel>)
    requires
        m.phase == Phase::Spawning,
        m.mux == LineMux::initial(),
        whole_output(arrivals),
    ensures
        run_state(m, command_reports(arrivals)) == (RunnerModel {
            cursor: m.cursor + 1,
            ..m
        }).begin().0,
        run_log(m, command_reports(arrivals)) == published_lines(
            m.cursor,
            m.key(),
            mux_trace(LineMux::initial(), arrivals),
        ) + (RunnerModel { cursor: m.cursor + 1, ..m }).begin().1.events,
{
    reveal(RunnerModel::react);
    let first = seq![InputModel::Spawned];
    let last = seq![InputModel::Exited(true)];
    let streaming = RunnerModel { phase: Phase::Streaming, ..m };
    lemma_run_one(m, InputModel::Spawned);
    assert(run_state(m, first) == streaming);
    assert(run_log(m, first) =~= Seq::<Published>::empty());
    lemma_streaming(streaming, arrivals);
    lemma_run_append(m, first, outputs(arrivals));
    lemma_run_append(m, first + outputs(arrivals), last);
    let waiting = run_state(m, first + outputs(arrivals));
    assert(arrivals.len() > 0) by {
        if arrivals.len() == 0 {
            assert(mux_after(LineMux::initial(), arrivals) == LineMux::initial());
        }
    }
    assert(waiting.phase == Phase::Waiting);
    lemma_run_one(waiting, InputModel::Exited(true));
    assert(run_log(m, first + outputs(arrivals)) =~= published_lines(
        m.cursor,
        m.key(),
        mux_trace(LineMux::initial(), arrivals),
    ));
}

/// The first reports of a task on a resource: it begins, and the resource is
/// inspected.
pub open spec fn opening(inspected: Seq<u8>) -> Seq<InputModel> {
    seq![InputModel::Start, InputModel::Inspected(inspected)]
}

/// The state in which the steps of a task are about to begin.
pub open spec fn ready(task: SseTask, name: Seq<char>, path: Seq<char>) -> RunnerModel {
    RunnerModel {
        steps: recipe(task, path),
        cursor: 0,
        phase: Phase::Resolving,
        ..RunnerModel::initial(task, name)
    }
}

/// A task on a resource with a compose project asks for the resource to be
/// inspected, and begins its first step when it is told the compose file.
pub proof fn lemma_opening(task: SseTask, name: Seq<char>, inspected: Seq<u8>)
    requires
        needs_resource(task),
        resolve(inspected) is Ok,
    ensures
        run_state(RunnerModel::initial(task, name), opening(inspected)) == ready(
            task,
            name,
            resolve(inspected)->Ok_0,
        ).begin().0,
        run_log(RunnerModel::initial(task, name), opening(inspected)) == ready(
            task,
            name,
            resolve(inspected)->Ok_0,
        ).begin().1.events,
        run_requests(RunnerModel::initial(task, name), opening(inspected)) == seq![
            RequestModel::Inspect(crate::container::inspect_container(name)),
            ready(task, name, resolve(inspected)->Ok_0).begin().1.request,
        ],
{
    reveal(RunnerModel::react);
    let start = RunnerModel::initial(task, name);
    let resolving = RunnerModel { phase: Phase::Resolving, ..start };
    let one = seq![InputModel::Start];
    let two = seq![InputModel::Inspected(inspected)];
    lemma_run_one(start, InputModel::Start);
    lemma_run_one(resolving, InputModel::Inspected(inspected));
    lemma_run_append(start, one, two);
    assert(opening(inspected) =~= one + two);
    assert(run_log(start, one + two) =~= ready(
        task,
        name,
        resolve(inspected)->Ok_0,
    ).begin().1.events);
    assert(run_requests(start, one + two) =~= seq![
        RequestModel::Inspect(crate::container::inspect_container(name)),
        ready(task, name, resolve(inspected)->Ok_0).begin().1.request,
    ]);
}

/// The reports of a command that runs to its end and succeeds: it starts,
/// its output arrives, and it ends with status zero.
pub open spec fn command_reports(arrivals: Seq<ArrivalModel>) -> Seq<InputModel> {
    seq![InputModel::Spawned] + outputs(arrivals) + seq![InputModel::Exited(true)]
}

/// The reports of an update that goes well: the resource is inspected, then
/// the first command starts, prints `down` and succeeds, then the second
/// command starts, prints `up` and succeeds.
pub open spec fn update_reports(
    inspected: Seq<u8>,
    down: Seq<ArrivalModel>,
    up: Seq<ArrivalModel>,
) -> Seq<InputModel> {
    opening(inspected) + command_reports(down) + command_reports(up)
}

/// An update that goes well publishes, under the name of the resource, the
/// marker of the first command, then the lines of the first command, then
/// the marker of the second command, then the lines of the second command,
/// and nothing else.
pub proof fn lemma_update_sequence(
    name: Seq<char>,
    inspected: Seq<u8>,
    down: Seq<ArrivalModel>,
    up: Seq<ArrivalModel>,
)
    requires
        resolve(inspected) is Ok,
        whole_output(down),
        whole_output(up),
    ensures
        run_state(
            RunnerModel::initial(SseTask::Update, name),
            update_reports(inspected, down, up),
        ).phase == Phase::Finished,
        crate::runner::plain(
            run_log(
                RunnerModel::initial(SseTask::Update, name),
                update_reports(inspected, down, up),
            ),
        ) == seq![EventModel { key: name, data: "docker compose down\n"@ }] + crate::runner::plain(
            published_lines(0, name, mux_trace(LineMux::initial(), down)),
        ) + seq![EventModel { key: name, data: "\ndocker compose up -d\n"@ }]
            + crate::runner::plain(published_lines(1, name, mux_trace(LineMux::initial(), up))),
{
    let start = RunnerModel::initial(SseTask::Update, name);
    let first = opening(inspected);
    lemma_opening(SseTask::Update, name, inspected);
    let at_down = run_state(start, first);
    lemma_run_step(at_down, down);
    lemma_run_append(start, first, command_reports(down));
    let at_up = run_state(start, first + command_reports(down));
    lemma_run_step(at_up, up);
    lemma_run_append(start, first + command_reports(down), command_reports(up));
    let log = run_log(start, update_reports(inspected, down, up));
    let lines_down = published_lines(0, name, mux_trace(LineMux::initial(), down));
    let lines_up = published_lines(1, name, mux_trace(LineMux::initial(), up));
    let mark_down = Published {
        step: 0,
        kind: EventKind::Marker,
        event: EventModel { key: name, data: "docker compose down\n"@ },
    };
    let mark_up = Published {
        step: 1,
        kind: EventKind::Marker,
        event: EventModel { key: name, data: "\ndocker compose up -d\n"@ },
    };
    assert(log =~= seq![mark_down] + lines_down + seq![mark_up] + lines_up);
    assert(crate::runner::plain(log) =~= seq![mark_down.event] + crate::runner::plain(lines_down)
        + seq![mark_up.event] + crate::runner::plain(lines_up));
}

/// A task whose resource has no compose project ends before it begins: the
/// task fails with the reason, nothing is published, and no command is ever
/// started, whatever is reported afterwards.
pub proof fn lemma_unresolved_spawns_nothing(
    task: SseTask,
    name: Seq<char>,
    inspected: Seq<u8>,
    later: Seq<InputModel>,
)
    requires
        needs_resource(task),
        resolve(inspected) is Err,
    ensures
        run_state(RunnerModel::initial(task, name), opening(inspected) + later).phase
            == Phase::Failed(resolve(inspected)->Err_0),
        run_log(RunnerModel::initial(task, name), opening(inspected) + later) == Seq::<
            Published,
        >::empty(),
        forall|i: int|
            0 <= i < 2 + later.len() ==> !((#[trigger] run_requests(
                RunnerModel::initial(task, name),
                opening(inspected) + later,
            )[i]) is Spawn),
{
    reveal(RunnerModel::react);
    let start = RunnerModel::initial(task, name);
    let resolving = RunnerModel { phase: Phase::Resolving, ..start };
    let opening = opening(inspected);
    lemma_run_one(start, InputModel::Start);
    lemma_run_one(resolving, InputModel::Inspected(inspected));
    lemma_run_append(start, seq![InputModel::Start], seq![InputModel::Inspected(inspected)]);
    assert(opening =~= seq![InputModel::Start] + seq![InputModel::Inspected(inspected)]);
    let failed = run_state(start, opening);
    lemma_over_is_final(failed, later);
    lemma_run_append(start, opening, later);
    assert(run_log(start, opening + later) =~= Seq::<Published>::empty());
    let asked = run_requests(start, opening + later);
    assert forall|i: int| 0 <= i < 2 + later.len() implies !((#[trigger] asked[i]) is Spawn) by {
        if i >= 2 {
            assert(asked[i] == run_requests(failed, later)[i - 2]);
        }
    }
}

/// Reading the configuration publishes at most one event, whatever is
/// reported to the runner.
pub proof fn lemma_config_published_once(name: Seq<char>, inputs: Seq<InputModel>)
    ensures
        run_log(RunnerModel::initial(SseTask::GetConfig, name), inputs).len() <= 1,
{
    let start = RunnerModel::initial(SseTask::GetConfig, name);
    let m = run_state(start, inputs);
    let log = run_log(start, inputs);
    lemma_run_in_order(SseTask::GetConfig, name, inputs);
    lemma_task_is_kept(start, inputs);
    if log.len() >= 2 {
        assert(well_placed(log, m.steps, m.key(), 0));
        assert(well_placed(log, m.steps, m.key(), 1));
    }
}

/// A run does not change the task or the name of the resource.
pub proof fn lemma_task_is_kept(start: RunnerModel, inputs: Seq<InputModel>)
    ensures
        run_state(start, inputs).task == start.task,
        run_state(start, inputs).name == start.name,
    decreases inputs.len(),
{
    reveal(RunnerModel::react);
    if inputs.len() > 0 {
        lemma_task_is_kept(start, inputs.drop_last());
    }
}

/// The reports of a pull that goes well: the resource is inspected, then the
/// command starts, prints `arrivals` and succeeds.
pub open spec fn pull_reports(inspected: Seq<u8>, arrivals: Seq<ArrivalModel>) -> Seq<InputModel> {
    opening(inspected) + command_reports(arrivals)
}

/// A pull that goes well publishes, under the name of the resource, the
/// marker of the command and then the lines of the command, and nothing
/// else. The command is `docker compose pull`, started in the directory of
/// the compose file.
pub proof fn lemma_pull_sequence(name: Seq<char>, inspected: Seq<u8>, arrivals: Seq<ArrivalModel>)
    requires
        resolve(inspected) is Ok,
        whole_output(arrivals),
    ensures
        run_state(
            RunnerModel::initial(SseTask::Pull, name),
            pull_reports(inspected, arrivals),
        ).phase == Phase::Finished,
        crate::runner::plain(
            run_log(RunnerModel::initial(SseTask::Pull, name), pull_reports(inspected, arrivals)),
        ) == seq![EventModel { key: name, data: "docker compose pull\n"@ }] + crate::runner::plain(
            published_lines(0, name, mux_trace(LineMux::initial(), arrivals)),
        ),
        run_requests(
            RunnerModel::initial(SseTask::Pull, name),
            pull_reports(inspected, arrivals),
        )[1] == RequestModel::Spawn(
            CommandModel::docker(
                seq!["compose"@] + seq!["pull"@],
                Some(before_last(resolve(inspected)->Ok_0, '/')),
            ),
        ),
{
    let start = RunnerModel::initial(SseTask::Pull, name);
    let first = opening(inspected);
    lemma_opening(SseTask::Pull, name, inspected);
    lemma_run_step(run_state(start, first), arrivals);
    lemma_run_append(start, first, command_reports(arrivals));
    let log = run_log(start, pull_reports(inspected, arrivals));
    let lines = published_lines(0, name, mux_trace(LineMux::initial(), arrivals));
    let mark = Published {
        step: 0,
        kind: EventKind::Marker,
        event: EventModel { key: name, data: "docker compose pull\n"@ },
    };
    assert(log =~= seq![mark] + lines);
    assert(crate::runner::plain(log) =~= seq![mark.event] + crate::runner::plain(lines));
}

/// The reports of a pruning that goes well: the command starts, prints
/// `arrivals` and succeeds.
pub open spec fn prune_reports(arrivals: Seq<ArrivalModel>) -> Seq<InputModel> {
    seq![InputModel::Start] + command_reports(arrivals)
}

/// A pruning that goes well publishes, under the identifier of the task
/// and whatever name it was given, the marker of the command and then the
/// lines of the command, and nothing else. The command is `docker image
/// prune --all --force`; no resource is inspected for it.
pub proof fn lemma_prune_sequence(name: Seq<char>, arrivals: Seq<ArrivalModel>)
    requires
        whole_output(arrivals),
    ensures
        run_state(
            RunnerModel::initial(SseTask::PruneImages, name),
            prune_reports(arrivals),
        ).phase == Phase::Finished,
        crate::runner::plain(
            run_log(RunnerModel::initial(SseTask::PruneImages, name), prune_reports(arrivals)),
        ) == seq![
            EventModel {
                key: SseTask::PruneImages.name(),
                data: "docker image prune --all --force\n"@,
            },
        ] + crate::runner::plain(
            published_lines(
                0,
                SseTask::PruneImages.name(),
                mux_trace(LineMux::initial(), arrivals),
            ),
        ),
        run_requests(RunnerModel::initial(SseTask::PruneImages, name), prune_reports(arrivals))[0]
            == RequestModel::Spawn(
            CommandModel::docker(seq!["image"@, "prune"@, "--all"@, "--force"@], None),
        ),
{
    reveal(RunnerModel::react);
    let start = RunnerModel::initial(SseTask::PruneImages, name);
    let key = SseTask::PruneImages.name();
    let first = seq![InputModel::Start];
    lemma_run_one(start, InputModel::Start);
    lemma_run_step(run_state(start, first), arrivals);
    lemma_run_append(start, first, command_reports(arrivals));
    let log = run_log(start, prune_reports(arrivals));
    let lines = published_lines(0, key, mux_trace(LineMux::initial(), arrivals));
    let mark = Published {
        step: 0,
        kind: EventKind::Marker,
        event: EventModel { key, data: "docker image prune --all --force\n"@ },
    };
    assert(log =~= seq![mark] + lines);
    assert(crate::runner::plain(log) =~= seq![mark.event] + crate::runner::plain(lines));
}

/// The reports of reading a configuration that goes well: the resource is
/// inspected and the file is read.
pub open spec fn config_reports(inspected: Seq<u8>, content: Seq<u8>) -> Seq<InputModel> {
    opening(inspected) + seq![InputModel::FileRead(content)]
}

/// Reading the configuration of a resource whose compose file can be read
/// publishes exactly one event, under the name of the resource: the lines
/// of the file, joined by line feeds. The file that is read is the compose
/// file of the resource, and no command is started.
pub proof fn lemma_config_sequence(name: Seq<char>, inspected: Seq<u8>, content: Seq<u8>)
    requires
        resolve(inspected) is Ok,
        crate::runner::file_payload(content) is Some,
    ensures
        run_state(
            RunnerModel::initial(SseTask::GetConfig, name),
            config_reports(inspected, content),
        ).phase == Phase::Finished,
        crate::runner::plain(
            run_log(RunnerModel::initial(SseTask::GetConfig, name), config_reports(inspected, content)),
        ) == seq![EventModel { key: name, data: crate::runner::file_payload(content)->Some_0 }],
        run_requests(
            RunnerModel::initial(SseTask::GetConfig, name),
            config_reports(inspected, content),
        ) == seq![
            RequestModel::Inspect(crate::container::inspect_container(name)),
            RequestModel::ReadFile(resolve(inspected)->Ok_0),
            RequestModel::Done,
        ],
{
    reveal(RunnerModel::react);
    let start = RunnerModel::initial(SseTask::GetConfig, name);
    let first = opening(inspected);
    let last = seq![InputModel::FileRead(content)];
    lemma_opening(SseTask::GetConfig, name, inspected);
    let reading = run_state(start, first);
    lemma_run_one(reading, InputModel::FileRead(content));
    lemma_run_append(start, first, last);
    assert(crate::runner::plain(run_log(start, first + last)) =~= seq![
        EventModel { key: name, data: crate::runner::file_payload(content)->Some_0 },
    ]);
    assert(run_requests(start, first + last) =~= seq![
        RequestModel::Inspect(crate::container::inspect_container(name)),
        RequestModel::ReadFile(resolve(inspected)->Ok_0),
        RequestModel::Done,
    ]);
}

} // verus!
