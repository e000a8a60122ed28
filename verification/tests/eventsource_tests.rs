use rusmes_jmap::eventsource::{
    change_of, filter_change, next_action, parse_types_filter, ping_interval_secs, should_close, EventSourceManager,
    StateChange, StreamAction, StreamEvent, DEFAULT_PING_SECS, LAGGED_MESSAGE,
};
use tokio::sync::broadcast;

#[test]
fn test_event_source_manager_new() {
    let manager = EventSourceManager::new();
    assert!(manager.get_state("Email").is_none());
}

#[test]
fn test_notify_change() {
    let mut manager = EventSourceManager::new();
    manager.notify_change("Email".to_string(), "state1".to_string());
    assert_eq!(manager.get_state("Email"), Some("state1".to_string()));
}

#[test]
fn test_notify_multiple_changes() {
    let mut manager = EventSourceManager::new();
    manager.notify_change("Email".to_string(), "state1".to_string());
    manager.notify_change("Mailbox".to_string(), "state2".to_string());
    manager.notify_change("Thread".to_string(), "state3".to_string());
    assert_eq!(manager.get_state("Email"), Some("state1".to_string()));
    assert_eq!(manager.get_state("Mailbox"), Some("state2".to_string()));
    assert_eq!(manager.get_state("Thread"), Some("state3".to_string()));
}

#[test]
fn test_state_update() {
    let mut manager = EventSourceManager::new();
    manager.notify_change("Email".to_string(), "state1".to_string());
    assert_eq!(manager.get_state("Email"), Some("state1".to_string()));
    manager.notify_change("Email".to_string(), "state2".to_string());
    assert_eq!(manager.get_state("Email"), Some("state2".to_string()));
}

#[test]
fn test_subscribe() {
    let mut manager = EventSourceManager::new();
    let mut rx = manager.subscribe();
    manager.notify_change("Email".to_string(), "state1".to_string());
    let change = rx.try_recv().unwrap();
    assert_eq!(change.get("Email"), Some(&"state1".to_string()));
}

#[test]
fn test_multiple_subscribers() {
    let mut manager = EventSourceManager::new();
    let mut rx1 = manager.subscribe();
    let mut rx2 = manager.subscribe();
    manager.notify_change("Email".to_string(), "state1".to_string());
    let change1 = rx1.try_recv().unwrap();
    let change2 = rx2.try_recv().unwrap();
    assert_eq!(change1.get("Email"), Some(&"state1".to_string()));
    assert_eq!(change2.get("Email"), Some(&"state1".to_string()));
}

#[test]
fn test_event_source_manager_default() {
    let manager = EventSourceManager::default();
    assert!(manager.get_state("any").is_none());
}

#[test]
fn test_event_source_manager_clone() {
    let mut manager1 = EventSourceManager::new();
    manager1.notify_change("Email".to_string(), "state1".to_string());
    let manager2 = manager1.clone();
    assert_eq!(manager2.get_state("Email"), Some("state1".to_string()));
}

#[test]
fn test_get_nonexistent_state() {
    let manager = EventSourceManager::new();
    assert_eq!(manager.get_state("NonExistent"), None);
}

#[test]
fn test_notify_empty_state() {
    let mut manager = EventSourceManager::new();
    manager.notify_change("Email".to_string(), "".to_string());
    assert_eq!(manager.get_state("Email"), Some("".to_string()));
}

#[test]
fn test_subscribe_before_notify() {
    let mut manager = EventSourceManager::new();
    let mut rx = manager.subscribe();
    assert!(rx.try_recv().is_err());
    manager.notify_change("Email".to_string(), "state1".to_string());
    assert!(rx.try_recv().is_ok());
}

#[test]
fn test_subscribe_after_notify() {
    let mut manager = EventSourceManager::new();
    manager.notify_change("Email".to_string(), "state1".to_string());
    let mut rx = manager.subscribe();
    assert!(rx.try_recv().is_err());
    assert_eq!(manager.get_state("Email"), Some("state1".to_string()));
}

#[test]
fn test_multiple_data_types() {
    let mut manager = EventSourceManager::new();
    manager.notify_change("Email".to_string(), "email_state".to_string());
    manager.notify_change("Mailbox".to_string(), "mailbox_state".to_string());
    manager.notify_change("Thread".to_string(), "thread_state".to_string());
    manager.notify_change("Identity".to_string(), "identity_state".to_string());
    assert_eq!(manager.get_state("Email"), Some("email_state".to_string()));
    assert_eq!(manager.get_state("Mailbox"), Some("mailbox_state".to_string()));
    assert_eq!(manager.get_state("Thread"), Some("thread_state".to_string()));
    assert_eq!(manager.get_state("Identity"), Some("identity_state".to_string()));
}

#[test]
fn test_concurrent_notifications() {
    let mut manager = EventSourceManager::new();
    let mut rx = manager.subscribe();
    for i in 0..10 {
        manager.notify_change(format!("Type{}", i), format!("state{}", i));
    }
    let mut received = 0;
    while rx.try_recv().is_ok() {
        received += 1;
    }
    assert!(received > 0);
}

#[test]
fn test_state_persistence_across_notifications() {
    let mut manager = EventSourceManager::new();
    manager.notify_change("Email".to_string(), "state1".to_string());
    manager.notify_change("Mailbox".to_string(), "state2".to_string());
    manager.notify_change("Email".to_string(), "state3".to_string());
    assert_eq!(manager.get_state("Email"), Some("state3".to_string()));
    assert_eq!(manager.get_state("Mailbox"), Some("state2".to_string()));
}

#[test]
fn test_subscriber_receives_only_new_changes() {
    let mut manager = EventSourceManager::new();
    manager.notify_change("Email".to_string(), "old_state".to_string());
    let mut rx = manager.subscribe();
    manager.notify_change("Email".to_string(), "new_state".to_string());
    let change = rx.try_recv().unwrap();
    assert_eq!(change.get("Email"), Some(&"new_state".to_string()));
}

#[test]
fn test_broadcast_channel_capacity() {
    let mut manager = EventSourceManager::new();
    let mut rx = manager.subscribe();
    for i in 0..200 {
        manager.notify_change(format!("Type{}", i), format!("state{}", i));
    }
    let mut received = 0;
    let mut lagged = false;
    loop {
        match rx.try_recv() {
            Ok(_) => received += 1,
            Err(broadcast::error::TryRecvError::Lagged(_)) => {
                lagged = true;
                break;
            }
            Err(_) => break,
        }
    }
    assert!(received > 0 || lagged);
}

#[test]
fn change_of_holds_one_entry() {
    let c = change_of("Email".to_string(), "s9".to_string());
    assert_eq!(c.changed, vec![("Email".to_string(), "s9".to_string())]);
    assert!(!c.is_empty());
    assert_eq!(c.get("Mailbox"), None);
}

#[test]
fn types_filter_is_split_and_trimmed() {
    assert_eq!(
        parse_types_filter(&Some(" Email , Mailbox,Thread ".to_string())),
        Some(vec!["Email".to_string(), "Mailbox".to_string(), "Thread".to_string()])
    );
    assert_eq!(parse_types_filter(&Some("".to_string())), Some(vec!["".to_string()]));
    assert_eq!(parse_types_filter(&None), None);
}

#[test]
fn filter_keeps_listed_types_in_order() {
    let change = StateChange {
        changed: vec![
            ("Email".to_string(), "1".to_string()),
            ("Mailbox".to_string(), "2".to_string()),
            ("Thread".to_string(), "3".to_string()),
        ],
    };
    let kept = filter_change(&change, &Some(vec!["Thread".to_string(), "Email".to_string()]));
    assert_eq!(
        kept.changed,
        vec![("Email".to_string(), "1".to_string()), ("Thread".to_string(), "3".to_string())]
    );
    let all = filter_change(&change, &None);
    assert_eq!(all.changed.len(), 3);
}

#[test]
fn stream_actions() {
    let filter = Some(vec!["Email".to_string()]);
    let change = StateChange { changed: vec![("Mailbox".to_string(), "2".to_string())] };
    assert!(matches!(next_action(&filter, StreamEvent::Change(change)), StreamAction::Wait));
    let change = StateChange { changed: vec![("Email".to_string(), "5".to_string())] };
    match next_action(&filter, StreamEvent::Change(change)) {
        StreamAction::SendState(s) => assert_eq!(s.get("Email"), Some(&"5".to_string())),
        other => panic!("unexpected {other:?}"),
    }
    match next_action(&None, StreamEvent::Lagged) {
        StreamAction::SendError(m) => assert_eq!(m, LAGGED_MESSAGE),
        other => panic!("unexpected {other:?}"),
    }
    assert!(matches!(next_action(&None, StreamEvent::Closed), StreamAction::Close));
    assert!(matches!(next_action(&None, StreamEvent::PingDue), StreamAction::SendPing));
}

#[test]
fn close_and_ping_timing() {
    assert!(!should_close(None, 1_000_000));
    assert!(!should_close(Some(10), 9));
    assert!(should_close(Some(10), 10));
    assert_eq!(ping_interval_secs(None), DEFAULT_PING_SECS);
    assert_eq!(DEFAULT_PING_SECS, 30);
    assert_eq!(ping_interval_secs(Some(5)), 5);
}
