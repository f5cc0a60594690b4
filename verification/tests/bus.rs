use mgdocker::bus::{publish_outcome, AppState, BUS_CAPACITY};
use mgdocker::lines::{Arrival, Source};
use mgdocker::model::{SseEvent, SseTask};
use mgdocker::runner::{Input, Request, TaskRunner};
use mgdocker::session::{open, Delivery, Received, StreamSession};
use tokio::sync::broadcast::error::TryRecvError;
use tokio::sync::broadcast::Receiver;

fn told(key: &str, data: &str) -> SseEvent {
    SseEvent::new(key.to_string(), data.to_string())
}

fn next_item(rx: &mut Receiver<SseEvent>) -> Option<Received> {
    match rx.try_recv() {
        Ok(evt) => Some(Received::Event(evt)),
        Err(TryRecvError::Empty) => None,
        Err(TryRecvError::Closed) => Some(Received::Closed),
        Err(TryRecvError::Lagged(missed)) => Some(Received::Lagged(missed)),
    }
}

fn drain(session: &mut StreamSession, rx: &mut Receiver<SseEvent>) -> Vec<(String, String)> {
    let mut sent = Vec::new();
    while let Some(item) = next_item(rx) {
        match session.on_receive(item) {
            Delivery::Forward(evt) => sent.push((evt.event, evt.data)),
            Delivery::Close(evt) => {
                sent.push((evt.event, evt.data));
                break;
            }
            Delivery::Skip => {}
            Delivery::End => break,
        }
    }
    sent
}

fn pair_of(key: &str, data: &str) -> (String, String) {
    (key.to_string(), data.to_string())
}

#[test]
fn capacity_is_a_thousand_events() {
    assert_eq!(BUS_CAPACITY, 1000);
}

#[test]
fn publish_succeeds_without_subscribers() {
    let state = AppState::new();
    assert_eq!(state.publish(told("web-1", "lost\n")), Ok(0));
    assert_eq!(state.publish(told("web-1", "lost too\n")), Ok(0));
}

#[test]
fn publish_reports_the_number_of_subscribers() {
    let state = AppState::new();
    let _first = state.subscribe();
    assert_eq!(state.publish(told("web-1", "a\n")), Ok(1));
    let _second = state.subscribe();
    assert_eq!(state.publish(told("web-1", "b\n")), Ok(2));
}

#[test]
fn dropping_a_subscription_does_not_fail_the_publisher() {
    let state = AppState::new();
    assert_eq!(state.publish(told("k", "1")), Ok(0));
    let rx = state.subscribe();
    assert_eq!(state.publish(told("k", "2")), Ok(1));
    drop(rx);
    assert_eq!(state.publish(told("k", "3")), Ok(0));
}

#[test]
fn subscriber_receives_every_later_publish_in_order() {
    let state = AppState::new();
    let mut rx = state.subscribe();
    let mut session = StreamSession::new(SseTask::Pull, "web-1");
    for n in 0..20 {
        assert!(state.publish(told("web-1", &format!("line {}\n", n))).is_ok());
        assert!(state.publish(told("db", &format!("noise {}\n", n))).is_ok());
    }
    let expected: Vec<(String, String)> =
        (0..20).map(|n| pair_of("web-1", &format!("line {}\n", n))).collect();
    assert_eq!(drain(&mut session, &mut rx), expected);
}

#[test]
fn subscriber_never_receives_an_earlier_publish() {
    let state = AppState::new();
    let mut early = state.subscribe();
    assert!(state.publish(told("web-1", "before\n")).is_ok());
    let mut late = state.subscribe();
    assert!(state.publish(told("web-1", "after\n")).is_ok());
    let mut early_session = StreamSession::new(SseTask::Pull, "web-1");
    let mut late_session = StreamSession::new(SseTask::Pull, "web-1");
    assert_eq!(drain(&mut early_session, &mut early), vec![
        pair_of("web-1", "before\n"),
        pair_of("web-1", "after\n"),
    ]);
    assert_eq!(drain(&mut late_session, &mut late), vec![pair_of("web-1", "after\n")]);
}

#[test]
fn published_event_arrives_unchanged() {
    let state = AppState::new();
    let mut rx = state.subscribe();
    assert_eq!(state.publish(told("a key", "some data \u{4e2d}\n")), Ok(1));
    let got = rx.try_recv().unwrap();
    assert_eq!(got.event, "a key");
    assert_eq!(got.data, "some data \u{4e2d}\n");
    assert!(matches!(rx.try_recv(), Err(TryRecvError::Empty)));
}

#[test]
fn every_subscriber_receives_every_event() {
    let state = AppState::new();
    let mut one = state.subscribe();
    let mut two = state.subscribe();
    assert_eq!(state.publish(told("k", "x")), Ok(2));
    assert_eq!(one.try_recv().unwrap().data, "x");
    assert_eq!(two.try_recv().unwrap().data, "x");
}

#[test]
fn slow_subscriber_falls_behind_and_is_closed() {
    let state = AppState::new();
    let mut rx = state.subscribe();
    let mut session = StreamSession::new(SseTask::Pull, "web-1");
    for n in 0..1100 {
        assert!(state.publish(told("web-1", &format!("{}\n", n))).is_ok());
    }
    assert_eq!(drain(&mut session, &mut rx), vec![pair_of("CloseEvent", "close")]);
    assert!(!session.is_live());
}

#[test]
fn subscriber_is_closed_when_the_bus_is_dropped() {
    let state = AppState::new();
    let mut rx = state.subscribe();
    let mut session = StreamSession::new(SseTask::Pull, "web-1");
    assert!(state.publish(told("web-1", "last\n")).is_ok());
    drop(state);
    assert_eq!(drain(&mut session, &mut rx), vec![
        pair_of("web-1", "last\n"),
        pair_of("CloseEvent", "close"),
    ]);
}

#[test]
fn advance_publishes_what_the_runner_answers() {
    let state = AppState::new();
    let opened = match open(&state, "prune_images", "prune_images".to_string()) {
        Ok(opened) => opened,
        Err(err) => panic!("a known task was refused: {:?}", err),
    };
    let mut session = opened.session;
    let mut rx = opened.rx;
    let (runner, request) = opened.runner.advance(Input::Start, &state);
    assert!(matches!(request, Request::Spawn(_)));
    let (runner, _) = runner.advance(Input::Spawned, &state);
    let chunk = b"deleted: a\ndeleted: b\n".to_vec();
    let (runner, _) = runner.advance(Input::Output(Arrival::Data(Source::Stdout, chunk)), &state);
    let (runner, _) = runner.advance(Input::Output(Arrival::End(Source::Stdout)), &state);
    let (runner, request) = runner.advance(Input::Output(Arrival::End(Source::Stderr)), &state);
    assert!(matches!(request, Request::Wait));
    let (runner, request) = runner.advance(Input::Exited(true), &state);
    assert!(matches!(request, Request::Done));
    assert!(runner.is_over());
    assert_eq!(drain(&mut session, &mut rx), vec![
        pair_of("prune_images", "docker image prune --all --force\n"),
        pair_of("prune_images", "deleted: a\n"),
        pair_of("prune_images", "deleted: b\n"),
    ]);
}

#[test]
fn advance_runs_the_task_to_its_end_when_nobody_listens() {
    let state = AppState::new();
    let runner = TaskRunner::new(SseTask::PruneImages, "x".to_string());
    let (runner, request) = runner.advance(Input::Start, &state);
    assert!(matches!(request, Request::Spawn(_)));
    let (runner, request) = runner.advance(Input::Spawned, &state);
    assert!(matches!(request, Request::Read));
    let chunk = b"a\n".to_vec();
    let (runner, request) =
        runner.advance(Input::Output(Arrival::Data(Source::Stdout, chunk)), &state);
    assert!(matches!(request, Request::Read));
    let (runner, _) = runner.advance(Input::Output(Arrival::End(Source::Stdout)), &state);
    let (runner, request) = runner.advance(Input::Output(Arrival::End(Source::Stderr)), &state);
    assert!(matches!(request, Request::Wait));
    assert!(!runner.is_over());
    let (runner, request) = runner.advance(Input::Exited(true), &state);
    assert!(matches!(request, Request::Done));
    assert!(runner.is_over());
}

#[test]
fn advance_goes_on_when_the_observer_leaves() {
    let state = AppState::new();
    let opened = match open(&state, "prune_images", "prune_images".to_string()) {
        Ok(opened) => opened,
        Err(err) => panic!("a known task was refused: {:?}", err),
    };
    let mut session = opened.session;
    let mut rx = opened.rx;
    let (runner, _) = opened.runner.advance(Input::Start, &state);
    let (runner, _) = runner.advance(Input::Spawned, &state);
    assert_eq!(drain(&mut session, &mut rx), vec![pair_of(
        "prune_images",
        "docker image prune --all --force\n"
    )]);
    drop(rx);
    let chunk = b"unseen\n".to_vec();
    let (runner, request) =
        runner.advance(Input::Output(Arrival::Data(Source::Stdout, chunk)), &state);
    assert!(matches!(request, Request::Read));
    assert!(!runner.is_over());
}

#[test]
fn advance_does_not_ask_the_bus_when_nothing_is_published() {
    let state = AppState::new();
    let runner = TaskRunner::new(SseTask::Pull, "web-1".to_string());
    let (runner, request) = runner.advance(Input::Start, &state);
    assert!(matches!(request, Request::Inspect(_)));
    assert!(!runner.is_over());
}

#[test]
fn two_tasks_for_one_resource_share_the_key() {
    let state = AppState::new();
    let mut rx = state.subscribe();
    let mut session = StreamSession::new(SseTask::PruneImages, "x");
    let first = TaskRunner::new(SseTask::PruneImages, "x".to_string());
    let second = TaskRunner::new(SseTask::PruneImages, "x".to_string());
    let (_, _) = first.advance(Input::Start, &state);
    let (_, _) = second.advance(Input::Start, &state);
    assert_eq!(drain(&mut session, &mut rx), vec![
        pair_of("prune_images", "docker image prune --all --force\n"),
        pair_of("prune_images", "docker image prune --all --force\n"),
    ]);
}

#[test]
fn subscriber_may_fall_a_full_capacity_behind() {
    let state = AppState::new();
    let mut rx = state.subscribe();
    for n in 0..BUS_CAPACITY {
        assert_eq!(state.publish(told("web-1", &format!("{}\n", n))), Ok(1));
    }
    for n in 0..BUS_CAPACITY {
        let got = rx.try_recv().unwrap();
        assert_eq!(got.event, "web-1");
        assert_eq!(got.data, format!("{}\n", n));
    }
    assert!(matches!(rx.try_recv(), Err(TryRecvError::Empty)));
}

#[test]
fn every_subscription_has_the_capacity_of_the_bus() {
    let state = AppState::new();
    let mut first = state.subscribe();
    for n in 0..BUS_CAPACITY {
        assert!(state.publish(told("k", &format!("{}", n))).is_ok());
    }
    let mut second = state.subscribe();
    for n in 0..BUS_CAPACITY {
        assert!(state.publish(told("k", &format!("{}", BUS_CAPACITY + n))).is_ok());
    }
    assert!(matches!(first.try_recv(), Err(TryRecvError::Lagged(_))));
    for n in 0..BUS_CAPACITY {
        assert_eq!(second.try_recv().unwrap().data, format!("{}", BUS_CAPACITY + n));
    }
}

#[test]
fn publish_outcome_keeps_the_number_of_subscribers() {
    assert_eq!(publish_outcome(Ok(1)), Ok(1));
    assert_eq!(publish_outcome(Ok(7)), Ok(7));
}

#[test]
fn publish_outcome_of_a_returned_event_is_a_success_for_no_one() {
    assert_eq!(publish_outcome(Err(told("web-1", "lost\n"))), Ok(0));
}
