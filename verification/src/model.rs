//! The values that travel through the dashboard: events, tasks and pages.

use vstd::prelude::*;

verus! {

/// One message on the event bus: a line of output, or a marker that announces
/// a step, published under the key of the stream it belongs to.
#[derive(Debug)]
pub struct SseEvent {
    pub event: String,
    pub data: String,
}

/// What an event says, as plain sequences of characters.
pub struct EventModel {
    pub key: Seq<char>,
    pub data: Seq<char>,
}

impl View for SseEvent {
    type V = EventModel;

    open spec fn view(&self) -> EventModel {
        EventModel { key: self.event@, data: self.data@ }
    }
}

impl Clone for SseEvent {
    fn clone(&self) -> (copy: Self)
        ensures
            copy == *self,
    {
        SseEvent { event: self.event.clone(), data: self.data.clone() }
    }
}

impl SseEvent {
    /// An event with the given key and payload.
    pub fn new(event: String, data: String) -> (evt: SseEvent)
        ensures
            evt.event == event,
            evt.data == data,
    {
        SseEvent { event, data }
    }
}

/// The pages of the dashboard.
#[derive(Debug, Clone, Copy, PartialEq, Eq, Structural)]
pub enum AppPage {
    Index,
    Images,
}

/// The closed set of tasks an observer can start.
#[derive(Debug, Clone, Copy, PartialEq, Eq, Structural)]
pub enum SseTask {
    Update,
    Pull,
    GetConfig,
    PruneImages,
}

impl SseTask {
    /// The identifier of a task on the wire.
    pub open spec fn name(self) -> Seq<char> {
        match self {
            SseTask::Update => "update"@,
            SseTask::Pull => "pull"@,
            SseTask::GetConfig => "get_config"@,
            SseTask::PruneImages => "prune_images"@,
        }
    }

    /// The task that an identifier names, if it names one.
    pub open spec fn parse(s: Seq<char>) -> Option<SseTask> {
        if s == "update"@ {
            Some(SseTask::Update)
        } else if s == "pull"@ {
            Some(SseTask::Pull)
        } else if s == "get_config"@ {
            Some(SseTask::GetConfig)
        } else if s == "prune_images"@ {
            Some(SseTask::PruneImages)
        } else {
            None
        }
    }

    pub fn to_str(&self) -> (s: &'static str)
        ensures
            s@ == self.name(),
    {
        match self {
            SseTask::Update => "update",
            SseTask::Pull => "pull",
            SseTask::GetConfig => "get_config",
            SseTask::PruneImages => "prune_images",
        }
    }

    pub fn from_str(s: &str) -> (task: Option<SseTask>)
        ensures
            task == SseTask::parse(s@),
    {
        let given = s.to_owned();
        if given == "update".to_owned() {
            Some(SseTask::Update)
        } else if given == "pull".to_owned() {
            Some(SseTask::Pull)
        } else if given == "get_config".to_owned() {
            Some(SseTask::GetConfig)
        } else if given == "prune_images".to_owned() {
            Some(SseTask::PruneImages)
        } else {
            None
        }
    }

    /// The identifier as an owned string.
    pub fn to_string(&self) -> (s: String)
        ensures
            s@ == self.name(),
    {
        self.to_str().to_owned()
    }
}

/// The identifiers of the four tasks differ from one another, so the codec
/// loses nothing: parsing the identifier of a task gives that task back, and a
/// string is parsed to a task only if it is that task's identifier.
pub proof fn lemma_task_codec(task: SseTask, s: Seq<char>)
    ensures
        SseTask::parse(task.name()) == Some(task),
        SseTask::parse(s) == Some(task) <==> s == task.name(),
{
    reveal_strlit("update");
    reveal_strlit("pull");
    reveal_strlit("get_config");
    reveal_strlit("prune_images");
    assert("pull"@.len() == 4);
    assert("get_config"@.len() == 10);
    assert("prune_images"@.len() == 12);
}

} // verus!
