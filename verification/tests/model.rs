use mgdocker::model::SseTask;

#[test]
fn task_identifiers_round_trip() {
    let tasks = [SseTask::Update, SseTask::Pull, SseTask::GetConfig, SseTask::PruneImages];
    for task in tasks {
        assert_eq!(SseTask::from_str(task.to_str()), Some(task));
    }
}

#[test]
fn task_identifiers_are_exact() {
    assert_eq!(SseTask::Update.to_str(), "update");
    assert_eq!(SseTask::Pull.to_str(), "pull");
    assert_eq!(SseTask::GetConfig.to_str(), "get_config");
    assert_eq!(SseTask::PruneImages.to_str(), "prune_images");
    assert_eq!(SseTask::PruneImages.to_string(), "prune_images");
}

#[test]
fn unknown_identifiers_name_no_task() {
    assert_eq!(SseTask::from_str(""), None);
    assert_eq!(SseTask::from_str("Update"), None);
    assert_eq!(SseTask::from_str("update "), None);
    assert_eq!(SseTask::from_str("prune"), None);
    assert_eq!(SseTask::from_str("get-config"), None);
}
