//! The stream session: which of the events on the bus an observer is sent.
//!
//! A session is opened for one task on one resource. It subscribes to the
//! bus before the task can publish anything, forwards the events that carry
//! the key of the task, and ends when an event with the key `Done` arrives or
//! when the bus fails it.
//!
//! The end of a stream is told by events alone. No task publishes `Done` of
//! its own accord, whichever task it is: a session does not learn that its
//! runner is over, and stays open until a `Done` event is published or the
//! bus is gone. A session that ends because the bus failed it sends the
//! observer one last event, the close event; a session that ends on `Done`
//! sends nothing more. The key `Done` is the bus's own: an event under it
//! ends every session, so the events of a resource of that name are never
//! forwarded.

use crate::bus::AppState;
use crate::container::Container;
use crate::error::{AppError, Failure};
use crate::image::Image;
use crate::model::{EventModel, SseEvent, SseTask};
use crate::recipe::{event_key, key_for};
use crate::runner::{RunnerModel, TaskRunner};
use tokio::sync::broadcast::Receiver;
use vstd::prelude::*;

verus! {

/// What a subscription hands over when it is asked for the next event.
#[derive(Debug)]
pub enum Received {
    /// The next event.
    Event(SseEvent),
    /// The bus is gone.
    Closed,
    /// The subscription fell behind and this many events were dropped.
    Lagged(u64),
}

/// What was received, as plain values.
pub enum ReceivedModel {
    Event(EventModel),
    Closed,
    Lagged(u64),
}

impl View for Received {
    type V = ReceivedModel;

    open spec fn view(&self) -> ReceivedModel {
        match self {
            Received::Event(evt) => ReceivedModel::Event(evt@),
            Received::Closed => ReceivedModel::Closed,
            Received::Lagged(missed) => ReceivedModel::Lagged(*missed),
        }
    }
}

/// What the session does with what it received.
#[derive(Debug)]
pub enum Delivery {
    /// Send the event to the observer and go on.
    Forward(SseEvent),
    /// Send nothing and go on.
    Skip,
    /// Send nothing and end the stream.
    End,
    /// Send the event to the observer and end the stream.
    Close(SseEvent),
}

/// A delivery as plain values.
pub enum DeliveryModel {
    Forward(EventModel),
    Skip,
    End,
    Close(EventModel),
}

impl View for Delivery {
    type V = DeliveryModel;

    open spec fn view(&self) -> DeliveryModel {
        match self {
            Delivery::Forward(evt) => DeliveryModel::Forward(evt@),
            Delivery::Skip => DeliveryModel::Skip,
            Delivery::End => DeliveryModel::End,
            Delivery::Close(evt) => DeliveryModel::Close(evt@),
        }
    }
}

impl DeliveryModel {
    /// What the observer is sent.
    pub open spec fn sent(self) -> Seq<EventModel> {
        match self {
            DeliveryModel::Forward(evt) => seq![evt],
            DeliveryModel::Close(evt) => seq![evt],
            _ => Seq::empty(),
        }
    }
}

/// The key of the event that ends every stream.
pub open spec fn done_key() -> Seq<char> {
    "Done"@
}

/// The last event of a stream that the bus has failed.
pub open spec fn close_event() -> EventModel {
    EventModel { key: "CloseEvent"@, data: "close"@ }
}

/// The state of a session: the key it forwards, and whether it still runs.
pub struct SessionModel {
    pub key: Seq<char>,
    pub live: bool,
}

impl SessionModel {
    /// A session for the given key that has received nothing yet.
    pub open spec fn opened(key: Seq<char>) -> SessionModel {
        SessionModel { key, live: true }
    }

    /// What the session does with what it received, and its state after it.
    pub open spec fn deliver(self, item: ReceivedModel) -> (SessionModel, DeliveryModel) {
        if !self.live {
            (self, DeliveryModel::End)
        } else {
            match item {
                ReceivedModel::Event(evt) => if evt.key == done_key() {
                    (SessionModel { live: false, ..self }, DeliveryModel::End)
                } else if evt.key == self.key {
                    (self, DeliveryModel::Forward(evt))
                } else {
                    (self, DeliveryModel::Skip)
                },
                _ => (SessionModel { live: false, ..self }, DeliveryModel::Close(close_event())),
            }
        }
    }
}

/// The state of a session after it has received the items.
pub open spec fn session_after(start: SessionModel, items: Seq<ReceivedModel>) -> SessionModel
    decreases items.len(),
{
    if items.len() == 0 {
        start
    } else {
        session_after(start, items.drop_last()).deliver(items.last()).0
    }
}

/// All that the observer is sent while the session receives the items.
pub open spec fn session_sent(start: SessionModel, items: Seq<ReceivedModel>) -> Seq<EventModel>
    decreases items.len(),
{
    if items.len() == 0 {
        Seq::empty()
    } else {
        session_sent(start, items.drop_last()) + session_after(start, items.drop_last()).deliver(
            items.last(),
        ).1.sent()
    }
}

/// The events as they come from a subscription that works.
pub open spec fn received(events: Seq<EventModel>) -> Seq<ReceivedModel> {
    events.map_values(|evt: EventModel| ReceivedModel::Event(evt))
}

/// The test for an event with the given key.
pub open spec fn under(key: Seq<char>) -> spec_fn(EventModel) -> bool {
    |evt: EventModel| evt.key == key
}

/// Whether none of the events ends the stream.
pub open spec fn none_done(events: Seq<EventModel>) -> bool {
    forall|i: int| 0 <= i < events.len() ==> (#[trigger] events[i]).key != done_key()
}

/// As long as the subscription hands over what is published and nothing
/// ends the stream, the observer is sent every event that is published
/// under the key of the session, once and in the order of publishing, and no
/// other event.
pub proof fn lemma_session_forwards(key: Seq<char>, events: Seq<EventModel>)
    requires
        none_done(events),
    ensures
        session_after(SessionModel::opened(key), received(events)) == SessionModel::opened(key),
        session_sent(SessionModel::opened(key), received(events)) == events.filter(under(key)),
    decreases events.len(),
{
    if events.len() > 0 {
        let before = events.drop_last();
        lemma_session_forwards(key, before);
        assert(received(events).drop_last() =~= received(before));
        assert(events =~= before.push(events.last()));
        Seq::lemma_filter_push(before, events.last(), under(key));
    }
}

/// A session that has ended sends nothing more, whatever it receives.
pub proof fn lemma_session_ended(start: SessionModel, items: Seq<ReceivedModel>)
    requires
        !start.live,
    ensures
        session_after(start, items) == start,
        session_sent(start, items) == Seq::<EventModel>::empty(),
    decreases items.len(),
{
    if items.len() > 0 {
        lemma_session_ended(start, items.drop_last());
    }
}

/// What is received later adds to what the observer was sent and changes
/// nothing of it.
pub proof fn lemma_session_append(
    start: SessionModel,
    earlier: Seq<ReceivedModel>,
    later: Seq<ReceivedModel>,
)
    ensures
        session_after(start, earlier + later) == session_after(
            session_after(start, earlier),
            later,
        ),
        session_sent(start, earlier + later) == session_sent(start, earlier) + session_sent(
            session_after(start, earlier),
            later,
        ),
    decreases later.len(),
{
    if later.len() > 0 {
        lemma_session_append(start, earlier, later.drop_last());
        assert((earlier + later).drop_last() =~= earlier + later.drop_last());
    }
}

/// When the bus fails a session that runs, the observer is sent the close
/// event as the last event of the stream: nothing follows it.
pub proof fn lemma_session_closes(
    key: Seq<char>,
    events: Seq<EventModel>,
    failure: ReceivedModel,
    later: Seq<ReceivedModel>,
)
    requires
        none_done(events),
        !(failure is Event),
    ensures
        session_sent(SessionModel::opened(key), received(events) + seq![failure] + later)
            == events.filter(under(key)).push(close_event()),
{
    let start = SessionModel::opened(key);
    lemma_session_forwards(key, events);
    lemma_session_append(start, received(events), seq![failure]);
    lemma_session_append(start, received(events) + seq![failure], later);
    assert(session_sent(start, seq![failure].drop_last()) =~= Seq::<EventModel>::empty());
    lemma_session_ended(session_after(start, received(events) + seq![failure]), later);
}

/// Forwards to one observer what the bus carries for it.
#[derive(Debug)]
pub struct StreamSession {
    key: String,
    live: bool,
}

impl View for StreamSession {
    type V = SessionModel;

    closed spec fn view(&self) -> SessionModel {
        SessionModel { key: self.key@, live: self.live }
    }
}

impl StreamSession {
    /// A session for `task` on the resource called `name` that has received
    /// nothing yet.
    pub fn new(task: SseTask, name: &str) -> (session: StreamSession)
        ensures
            session@ == SessionModel::opened(event_key(task, name@)),
    {
        StreamSession { key: key_for(task, name), live: true }
    }

    /// Whether the stream still runs.
    pub fn is_live(&self) -> (live: bool)
        ensures
            live == self@.live,
    {
        self.live
    }

    /// Decides what to do with what the subscription handed over.
    pub fn on_receive(&mut self, item: Received) -> (delivery: Delivery)
        ensures
            final(self)@ == old(self)@.deliver(item@).0,
            delivery@ == old(self)@.deliver(item@).1,
    {
        if !self.live {
            return Delivery::End;
        }
        match item {
            Received::Event(evt) => {
                if evt.event == "Done".to_owned() {
                    self.live = false;
                    Delivery::End
                } else if evt.event == self.key {
                    Delivery::Forward(evt)
                } else {
                    Delivery::Skip
                }
            },
            _ => {
                self.live = false;
                Delivery::Close(
                    SseEvent { event: "CloseEvent".to_owned(), data: "close".to_owned() },
                )
            },
        }
    }
}

/// What opening a stream gives: the session that filters the bus, the
/// subscription it reads from, and the runner of the task, not yet started.
pub struct Opened {
    pub session: StreamSession,
    pub rx: Receiver<SseEvent>,
    pub runner: TaskRunner,
}

/// Finds the task that an identifier names. An identifier that names no task
/// is refused.
pub fn resolve(task_name: &str) -> (task: Result<SseTask, Failure>)
    ensures
        match task {
            Ok(task) => SseTask::parse(task_name@) == Some(task),
            Err(failure) => failure == Failure::UnknownTask && SseTask::parse(task_name@) is None,
        },
{
    match SseTask::from_str(task_name) {
        Some(task) => Ok(task),
        None => Err(Failure::UnknownTask),
    }
}

/// Opens a stream for the task called `task_name` on the resource called
/// `name`. The subscription is made before the runner exists, so nothing
/// that the runner publishes is missed. An identifier that names no task is
/// refused, and then nothing is subscribed.
pub fn open(state: &AppState, task_name: &str, name: String) -> (opened: Result<Opened, AppError>)
    ensures
        match opened {
            Ok(opened) => SseTask::parse(task_name@) matches Some(task) && opened.session@
                == SessionModel::opened(event_key(task, name@)) && opened.runner@
                == RunnerModel::initial(task, name@),
            Err(err) => err == AppError(Failure::UnknownTask) && SseTask::parse(task_name@) is None,
        },
{
    match resolve(task_name) {
        Ok(task) => {
            let rx = state.subscribe();
            let session = StreamSession::new(task, name.as_str());
            let runner = match task {
                SseTask::Update => Container::update(name),
                SseTask::Pull => Container::pull(name),
                SseTask::GetConfig => Container::get_config(name),
                SseTask::PruneImages => Image::prune(name.as_str()),
            };
            Ok(Opened { session, rx, runner })
        },
        Err(failure) => Err(AppError::from(failure)),
    }
}

} // verus!
