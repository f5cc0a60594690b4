use mgdocker::args::{to_decimal, Args};
use mgdocker::error::{AppError, Failure};
use mgdocker::model::{AppPage, SseEvent, SseTask};
use mgdocker::routes::{connect_path, results_path};

#[test]
fn default_settings_are_port_8080_on_localhost() {
    let args = Args::new();
    assert_eq!(args.port, 8080);
    assert_eq!(args.host, "localhost");
    assert_eq!(args.bind_address(), "localhost:8080");
}

#[test]
fn bind_address_is_host_colon_port() {
    let args = Args { port: 80, host: "0.0.0.0".to_string() };
    assert_eq!(args.bind_address(), "0.0.0.0:80");
    let args = Args { port: 0, host: "".to_string() };
    assert_eq!(args.bind_address(), ":0");
}

#[test]
fn decimal_agrees_with_std() {
    for n in [0u32, 1, 9, 10, 11, 99, 100, 101, 1000, 8080, 65535, 65536, 4294967295] {
        assert_eq!(to_decimal(n), n.to_string());
    }
}

#[test]
fn paths_of_the_task_fragments() {
    assert_eq!(results_path("web-1", SseTask::Pull), "/components/shared/sse/web-1/pull");
    assert_eq!(results_path("web-1", SseTask::Update), "/components/shared/sse/web-1/update");
    assert_eq!(results_path("db", SseTask::GetConfig), "/components/shared/sse/db/get_config");
    assert_eq!(
        results_path("prune_images", SseTask::PruneImages),
        "/components/shared/sse/prune_images/prune_images"
    );
}

#[test]
fn paths_of_the_task_streams() {
    assert_eq!(connect_path("web-1", SseTask::Pull), "/components/shared/sse/connect/web-1/pull");
    assert_eq!(
        connect_path("prune_images", SseTask::PruneImages),
        "/components/shared/sse/connect/prune_images/prune_images"
    );
}

#[test]
fn pages_have_their_paths() {
    assert_eq!(AppPage::Index.path(), "/");
    assert_eq!(AppPage::Images.path(), "/images");
    assert_eq!(AppPage::Index.content_path(), "/components/containers");
    assert_eq!(AppPage::Images.content_path(), "/components/images");
}

#[test]
fn the_link_to_the_page_itself_is_current() {
    assert_eq!(AppPage::Index.link_class(AppPage::Index), "current");
    assert_eq!(AppPage::Index.link_class(AppPage::Images), "");
    assert_eq!(AppPage::Images.link_class(AppPage::Images), "current");
    assert_eq!(AppPage::Images.link_class(AppPage::Index), "");
}

#[test]
fn failures_are_described() {
    assert_eq!(Failure::UnknownTask.describe(), "invalid task");
    assert_eq!(Failure::NoComposeFile.describe(), "no compose file found");
    assert_eq!(Failure::InspectFailed.describe(), "could not inspect the container");
    assert_eq!(Failure::SpawnFailed.describe(), "could not start the command");
    assert_eq!(Failure::ReadFailed.describe(), "could not read the output of the command");
    assert_eq!(Failure::CommandFailed.describe(), "the command failed");
    assert_eq!(Failure::FileFailed.describe(), "could not read the compose file");
    assert_eq!(Failure::PublishFailed.describe(), "could not publish an event");
    assert_eq!(Failure::Cancelled.describe(), "cancelled");
    assert_eq!(Failure::Unexpected.describe(), "unexpected report");
}

#[test]
fn errors_tell_the_client_what_went_wrong() {
    assert_eq!(
        AppError::from(Failure::NoComposeFile).message(),
        "Something went wrong: no compose file found"
    );
    assert_eq!(AppError(Failure::UnknownTask).message(), "Something went wrong: invalid task");
    assert_eq!(AppError::from(Failure::SpawnFailed), AppError(Failure::SpawnFailed));
}

#[test]
fn events_are_built_and_copied() {
    let evt = SseEvent::new("key".to_string(), "data\n".to_string());
    assert_eq!(evt.event, "key");
    assert_eq!(evt.data, "data\n");
    let copy = evt.clone();
    assert_eq!(copy.event, "key");
    assert_eq!(copy.data, "data\n");
}
