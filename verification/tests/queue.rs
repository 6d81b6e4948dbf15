use loki_dm_core::config::DownloadConfig;
use loki_dm_core::queue::{
    classify_url, default_category_rules, is_terminal_status, merge_external_queue_state,
    parse_category, should_preserve_local_state, urls_from_text, CategoryRule, DownloadCategory,
    QueueAddOutcome, QueueItem, QueueItemStatus, QueuePriority, QueueState,
};

fn queue_item(id: u64, status: QueueItemStatus, url: &str, error: Option<&str>, priority: QueuePriority) -> QueueItem {
    QueueItem {
        id,
        config: DownloadConfig {
            url: url.to_owned(),
            output_path: format!("/tmp/{id}.bin"),
            ..DownloadConfig::default()
        },
        category: DownloadCategory::Other,
        priority,
        status,
        added_at_unix_ms: 1,
        last_error: error.map(ToOwned::to_owned),
    }
}

fn plain_item(id: u64, priority: QueuePriority, status: QueueItemStatus, added: u128) -> QueueItem {
    QueueItem {
        id,
        config: DownloadConfig::default(),
        category: DownloadCategory::Other,
        priority,
        status,
        added_at_unix_ms: added,
        last_error: None,
    }
}

#[test]
fn classifies_video_and_docs() {
    let rules = default_category_rules();
    assert_eq!(classify_url("https://example.com/demo.mp4", &rules), DownloadCategory::Video);
    assert_eq!(classify_url("https://example.com/file.pdf", &rules), DownloadCategory::Documents);
}

#[test]
fn parses_urls_from_text() {
    let input = "\n# comment\nhttps://a\n\nhttps://b\n";
    let urls = urls_from_text(input);
    assert_eq!(urls, vec!["https://a", "https://b"]);
}

#[test]
fn merge_adds_missing_items_and_updates_next_id() {
    let mut local = QueueState {
        next_id: 2,
        items: vec![queue_item(1, QueueItemStatus::Queued, "https://local/1", None, QueuePriority::Normal)],
        rules: default_category_rules(),
    };
    let on_disk = QueueState {
        next_id: 10,
        items: vec![
            queue_item(1, QueueItemStatus::Scheduled, "https://disk/1", None, QueuePriority::Normal),
            queue_item(2, QueueItemStatus::Queued, "https://disk/2", None, QueuePriority::Normal),
        ],
        rules: Vec::new(),
    };
    let report = merge_external_queue_state(&mut local, on_disk);
    assert_eq!(report.new_items_added, 1);
    assert_eq!(report.existing_items_merged, 1);
    assert_eq!(local.next_id, 10);
    assert_eq!(local.items.len(), 2);
    assert_eq!(local.items[0].config.url, "https://disk/1");
}

#[test]
fn merge_preserves_running_and_terminal_states() {
    let statuses = [
        QueueItemStatus::Running,
        QueueItemStatus::Completed,
        QueueItemStatus::Failed,
        QueueItemStatus::Cancelled,
    ];
    for status in statuses {
        let mut local = QueueState {
            next_id: 2,
            items: vec![queue_item(1, status, "https://local/1", Some("local-error"), QueuePriority::Normal)],
            rules: default_category_rules(),
        };
        let on_disk = QueueState {
            next_id: 2,
            items: vec![queue_item(1, QueueItemStatus::Queued, "https://disk/1", None, QueuePriority::Normal)],
            rules: Vec::new(),
        };
        let _ = merge_external_queue_state(&mut local, on_disk);
        assert_eq!(local.items[0].status, status);
        assert_eq!(local.items[0].last_error.as_deref(), Some("local-error"));
        assert_eq!(local.items[0].config.url, "https://disk/1");
    }
}

#[test]
fn merge_overwrites_non_terminal_state_from_disk() {
    let mut local = QueueState {
        next_id: 2,
        items: vec![queue_item(1, QueueItemStatus::Queued, "https://local/1", None, QueuePriority::Normal)],
        rules: default_category_rules(),
    };
    let on_disk = QueueState {
        next_id: 2,
        items: vec![queue_item(1, QueueItemStatus::Scheduled, "https://disk/1", Some("disk-message"), QueuePriority::Normal)],
        rules: Vec::new(),
    };
    let _ = merge_external_queue_state(&mut local, on_disk);
    assert_eq!(local.items[0].status, QueueItemStatus::Scheduled);
    assert_eq!(local.items[0].last_error.as_deref(), Some("disk-message"));
    assert_eq!(local.items[0].config.url, "https://disk/1");
}

#[test]
fn merge_replaces_rules_only_when_non_empty() {
    let mut local = QueueState { next_id: 1, items: Vec::new(), rules: default_category_rules() };
    let keep_rules = local.rules.clone();
    let report = merge_external_queue_state(&mut local, QueueState { next_id: 1, items: Vec::new(), rules: Vec::new() });
    assert!(!report.rules_replaced);
    assert_eq!(local.rules, keep_rules);
    let replacement = vec![CategoryRule {
        name: "host-video".to_owned(),
        category: DownloadCategory::Video,
        extensions: Vec::new(),
        host_contains: Some("example.com".to_owned()),
    }];
    let report = merge_external_queue_state(
        &mut local,
        QueueState { next_id: 1, items: Vec::new(), rules: replacement.clone() },
    );
    assert!(report.rules_replaced);
    assert_eq!(local.rules, replacement);
}

#[test]
fn pending_items_are_sorted_by_priority_then_age() {
    let queue = QueueState {
        next_id: 5,
        items: vec![
            plain_item(1, QueuePriority::Normal, QueueItemStatus::Queued, 10),
            plain_item(2, QueuePriority::Critical, QueueItemStatus::Queued, 50),
            plain_item(3, QueuePriority::Critical, QueueItemStatus::Scheduled, 5),
            plain_item(4, QueuePriority::Low, QueueItemStatus::Completed, 1),
        ],
        rules: default_category_rules(),
    };
    let ordered = queue.pending_items();
    let ids = ordered.iter().map(|item| item.id).collect::<Vec<_>>();
    assert_eq!(ids, vec![3, 2, 1]);
}

#[test]
fn dedup_skips_non_terminal_duplicate_urls() {
    let mut queue = QueueState {
        next_id: 2,
        items: vec![QueueItem {
            id: 1,
            config: DownloadConfig { url: "https://example.org/path/file.iso".to_owned(), ..DownloadConfig::default() },
            category: DownloadCategory::Other,
            priority: QueuePriority::Normal,
            status: QueueItemStatus::Queued,
            added_at_unix_ms: 1,
            last_error: None,
        }],
        rules: default_category_rules(),
    };
    let outcome = queue.add_download_dedup(
        DownloadConfig { url: "https://example.org/path/file.iso#fragment".to_owned(), ..DownloadConfig::default() },
        QueuePriority::High,
        true,
    );
    assert_eq!(outcome, QueueAddOutcome::Duplicate { existing_id: 1 });
    queue.items[0].status = QueueItemStatus::Completed;
    let outcome = queue.add_download_dedup(
        DownloadConfig { url: "https://example.org/path/file.iso".to_owned(), ..DownloadConfig::default() },
        QueuePriority::High,
        true,
    );
    assert!(matches!(outcome, QueueAddOutcome::Added { .. }));
}

#[test]
fn second_add_of_a_queued_url_is_refused() {
    let mut queue = QueueState { next_id: 7, items: Vec::new(), rules: default_category_rules() };
    let first = queue.add_download_dedup(
        DownloadConfig { url: "https://example.org/a.zip".to_owned(), ..DownloadConfig::default() },
        QueuePriority::Normal,
        true,
    );
    assert_eq!(first, QueueAddOutcome::Added { id: 7 });
    let second = queue.add_download_dedup(
        DownloadConfig { url: "HTTPS://EXAMPLE.ORG/a.zip/".to_owned(), ..DownloadConfig::default() },
        QueuePriority::Normal,
        true,
    );
    assert_eq!(second, QueueAddOutcome::Duplicate { existing_id: 7 });
    assert_eq!(queue.items.len(), 1);
    assert_eq!(queue.next_id, 8);
}

#[test]
fn adds_fill_category_and_output() {
    let mut queue = QueueState { next_id: 1, items: Vec::new(), rules: default_category_rules() };
    let id = queue.add_download(DownloadConfig {
        url: "https://example.com/song.mp3".to_owned(),
        output_path: String::new(),
        ..DownloadConfig::default()
    });
    assert_eq!(id, 1);
    let item = &queue.items[0];
    assert_eq!(item.category, DownloadCategory::Music);
    assert_eq!(item.config.category.as_deref(), Some("Music"));
    assert!(item.config.output_path.ends_with("song.mp3"));
    assert_eq!(item.status, QueueItemStatus::Queued);
}

#[test]
fn set_status_priority_and_remove() {
    let mut queue = QueueState {
        next_id: 3,
        items: vec![
            plain_item(1, QueuePriority::Normal, QueueItemStatus::Queued, 1),
            plain_item(2, QueuePriority::Normal, QueueItemStatus::Queued, 2),
        ],
        rules: Vec::new(),
    };
    queue.set_status(2, QueueItemStatus::Failed, Some("boom".to_owned()));
    assert_eq!(queue.items[1].status, QueueItemStatus::Failed);
    assert_eq!(queue.items[1].last_error.as_deref(), Some("boom"));
    assert!(queue.set_priority(1, QueuePriority::High));
    assert!(!queue.set_priority(9, QueuePriority::High));
    assert!(queue.remove(1));
    assert!(!queue.remove(1));
    assert_eq!(queue.items.len(), 1);
}

#[test]
fn priorities_parse_and_rank() {
    assert_eq!(QueuePriority::parse(" URGENT "), Some(QueuePriority::Critical));
    assert_eq!(QueuePriority::parse("default"), Some(QueuePriority::Normal));
    assert_eq!(QueuePriority::parse("soon"), None);
    assert!(QueuePriority::Critical.rank() > QueuePriority::Low.rank());
    assert_eq!(QueuePriority::default(), QueuePriority::Normal);
}

#[test]
fn statuses_and_categories() {
    assert!(is_terminal_status(&QueueItemStatus::Failed));
    assert!(!is_terminal_status(&QueueItemStatus::Running));
    assert!(should_preserve_local_state(&QueueItemStatus::Running));
    assert!(!should_preserve_local_state(&QueueItemStatus::Scheduled));
    assert_eq!(parse_category("VIDEO"), DownloadCategory::Video);
    assert_eq!(parse_category(" video "), DownloadCategory::Other);
    assert_eq!(parse_category("whatever"), DownloadCategory::Other);
    assert_eq!(DownloadCategory::Compressed.as_str(), "Compressed");
}

#[test]
fn removing_a_fresh_download_restores_the_items() {
    let mut queue = QueueState::default();
    queue.items.push(queue_item(1, QueueItemStatus::Queued, "https://a.example/x.zip", None, QueuePriority::Normal));
    queue.next_id = 2;
    let id = queue.add_download(DownloadConfig {
        url: "https://b.example/y.zip".to_owned(),
        output_path: "/tmp/y.zip".to_owned(),
        ..DownloadConfig::default()
    });
    assert_eq!(id, 2);
    assert_eq!(queue.items.len(), 2);
    assert!(queue.remove(id));
    assert_eq!(queue.items.len(), 1);
    assert_eq!(queue.items[0].id, 1);
    assert_eq!(queue.items[0].config.url, "https://a.example/x.zip");
    assert_eq!(queue.next_id, 3);
}

#[test]
fn file_backed_merge_preserves_terminal_local_state_and_imports_new_items() {
    let mut local = QueueState {
        next_id: 2,
        items: vec![queue_item(1, QueueItemStatus::Running, "https://local/1", Some("local-error"), QueuePriority::Normal)],
        rules: default_category_rules(),
    };
    let disk = QueueState {
        next_id: 9,
        items: vec![
            queue_item(1, QueueItemStatus::Queued, "https://disk/1", None, QueuePriority::Normal),
            queue_item(2, QueueItemStatus::Queued, "https://disk/2", None, QueuePriority::Normal),
        ],
        rules: Vec::new(),
    };
    let report = merge_external_queue_state(&mut local, disk);
    assert_eq!(report.new_items_added, 1);
    assert_eq!(report.existing_items_merged, 1);
    assert_eq!(local.next_id, 9);

    let item1 = local.items.iter().find(|item| item.id == 1).expect("item1");
    assert_eq!(item1.config.url, "https://disk/1");
    assert_eq!(item1.status, QueueItemStatus::Running);
    assert_eq!(item1.last_error.as_deref(), Some("local-error"));

    let item2 = local.items.iter().find(|item| item.id == 2).expect("item2");
    assert_eq!(item2.config.url, "https://disk/2");
    assert_eq!(item2.status, QueueItemStatus::Queued);
}

#[test]
fn file_backed_merge_replaces_rules_only_when_disk_rules_non_empty() {
    let mut local = QueueState::default();
    let initial_rules = local.rules.clone();

    let disk_empty_rules = QueueState { next_id: 1, items: Vec::new(), rules: Vec::new() };
    let report_empty = merge_external_queue_state(&mut local, disk_empty_rules);
    assert!(!report_empty.rules_replaced);
    assert_eq!(local.rules, initial_rules);

    let replacement_rules = vec![CategoryRule {
        name: "host-video".to_owned(),
        category: DownloadCategory::Video,
        extensions: Vec::new(),
        host_contains: Some("example.org".to_owned()),
    }];
    let disk_replacement = QueueState { next_id: 1, items: Vec::new(), rules: replacement_rules.clone() };
    let report_replacement = merge_external_queue_state(&mut local, disk_replacement);
    assert!(report_replacement.rules_replaced);
    assert_eq!(local.rules, replacement_rules);
}
