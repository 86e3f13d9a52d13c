use tagflow_core::catalog::{Catalog, CatalogError, TaskStatus};
use tagflow_core::thumbnail::{plan_thumbnail, ThumbnailGenerator, ThumbnailPlan};
use tagflow_core::worker::{handler_for, unknown_type_message, TaskHandler};

#[test]
fn task_lifecycle_and_pending_flag() {
    let mut cat = Catalog::new();
    let id = cat.enqueue_task(5, "thumb", 1).unwrap();
    assert_eq!(cat.tasks[id as usize - 1].status.code(), 0);
    assert!(cat.has_pending(5, "thumb"));
    let claimed = cat.claim_next_task(100).unwrap();
    assert_eq!((claimed.id, claimed.file_id, claimed.task_type.as_str()), (id, 5, "thumb"));
    assert_eq!(cat.tasks[0].status.code(), 1);
    assert_eq!(cat.tasks[0].started_at, Some(100));
    assert!(cat.has_pending(5, "thumb"));
    cat.finish_task(id, Ok(()), 200).unwrap();
    assert_eq!(cat.tasks[0].status.code(), 2);
    assert_eq!(cat.tasks[0].completed_at, Some(200));
    assert!(!cat.has_pending(5, "thumb"));
    assert!(!cat.has_pending_thumbnail_task(5));
}

#[test]
fn failed_task_keeps_message_and_is_final() {
    let mut cat = Catalog::new();
    let id = cat.create_thumbnail_task(5, Some(1)).unwrap();
    assert!(cat.has_pending_thumbnail_task(5));
    cat.claim_next_task(1).unwrap();
    cat.finish_task(id, Err("ffmpeg failed".to_string()), 2).unwrap();
    assert_eq!(cat.tasks[0].status, TaskStatus::Failed);
    assert_eq!(cat.tasks[0].status.code(), 3);
    assert_eq!(cat.tasks[0].error_msg.as_deref(), Some("ffmpeg failed"));
    assert!(!cat.has_pending_thumbnail_task(5));
    assert_eq!(cat.finish_task(id, Ok(()), 3), Err(CatalogError::InvalidTransition));
    assert!(cat.claim_next_task(4).is_none());
}

#[test]
fn claims_follow_priority_then_age() {
    let mut cat = Catalog::new();
    cat.enqueue_task(1, "thumb", 0).unwrap();
    cat.enqueue_task(2, "thumb", 5).unwrap();
    cat.enqueue_task(3, "thumb", 5).unwrap();
    cat.create_thumbnail_task(4, None).unwrap();
    assert_eq!(cat.tasks[3].priority, 0);
    let order: Vec<i64> = (0..4).map(|t| cat.claim_next_task(t).unwrap().id).collect();
    assert_eq!(order, vec![2, 3, 1, 4]);
    assert!(cat.claim_next_task(9).is_none());
}

#[test]
fn finishing_needs_a_running_task() {
    let mut cat = Catalog::new();
    assert_eq!(cat.finish_task(1, Ok(()), 0), Err(CatalogError::TaskNotFound));
    let id = cat.enqueue_task(1, "thumb", 0).unwrap();
    assert_eq!(cat.finish_task(id, Ok(()), 0), Err(CatalogError::InvalidTransition));
    assert_eq!(cat.finish_task(0, Ok(()), 0), Err(CatalogError::TaskNotFound));
    assert_eq!(cat.tasks[0].status, TaskStatus::Pending);
}

#[test]
fn handlers_by_type() {
    assert_eq!(handler_for(&"thumb".to_string()), Some(TaskHandler::Thumbnail));
    assert_eq!(handler_for(&"video".to_string()), None);
    assert_eq!(unknown_type_message(&"video".to_string()), "unknown task type: video");
}

#[test]
fn thumbnail_plan_decisions() {
    assert_eq!(plan_thumbnail(false, true), ThumbnailPlan::SourceMissing);
    assert_eq!(plan_thumbnail(true, true), ThumbnailPlan::AlreadyPresent);
    assert_eq!(plan_thumbnail(true, false), ThumbnailPlan::Generate);
}

#[test]
fn test_thumbnail_path() {
    let generator = ThumbnailGenerator::new("./cache".to_string());
    assert_eq!(generator.get_thumbnail_path(123), "./cache/123.webp");
}

#[test]
fn thumbnail_path_of_other_ids() {
    let generator = ThumbnailGenerator::new("/var/thumbs".to_string());
    assert_eq!(generator.get_thumbnail_path(0), "/var/thumbs/0.webp");
    assert_eq!(generator.get_thumbnail_path(-7), "/var/thumbs/-7.webp");
    assert_eq!(generator.get_thumbnail_path(i32::MIN), "/var/thumbs/-2147483648.webp");
    assert!(!generator.thumbnail_exists(1));
}

#[test]
fn source_path_joins_base_and_record() {
    let mut cat = Catalog::new();
    let lib = tagflow_core::catalog::Library {
        id: 1,
        name: "n".to_string(),
        protocol: "local".to_string(),
        base_path: "/mnt/photos/".to_string(),
        config_json: None,
        last_scanned_at: None,
    };
    let listing = vec![tagflow_core::scanner::ListedEntry { path: "trip/a.jpg".to_string(), is_dir: false, size: 1, mtime: 1 }];
    tagflow_core::scanner::Scanner::new().scan_library(&mut cat, &lib, &listing, 0).unwrap();
    assert_eq!(cat.source_path(1, &lib.base_path), Some("/mnt/photos/trip/a.jpg".to_string()));
    assert_eq!(cat.source_path(2, &lib.base_path), None);
}
