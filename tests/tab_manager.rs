use tabterm::{AppError, TabManager};

#[test]
fn test_tab_manager_create_tab() {
    let mut manager = TabManager::new();

    let tab1 = manager.create_tab();
    assert_eq!(tab1, "tab-0");
    assert_eq!(manager.tab_count(), 1);
    assert!(manager.has_tab("tab-0"));

    let tab2 = manager.create_tab();
    assert_eq!(tab2, "tab-1");
    assert_eq!(manager.tab_count(), 2);
}

#[test]
fn test_tab_manager_first_tab_is_active() {
    let mut manager = TabManager::new();

    let tab1 = manager.create_tab();
    assert_eq!(manager.active_tab(), Some(tab1.as_str()));

    // Creating a second tab leaves the focus where it was.
    manager.create_tab();
    assert_eq!(manager.active_tab(), Some("tab-0"));
}

#[test]
fn test_tab_manager_close_tab() {
    let mut manager = TabManager::new();

    manager.create_tab(); // tab-0
    manager.create_tab(); // tab-1

    let result = manager.close_tab("tab-0");
    assert!(result.is_ok());
    assert_eq!(manager.tab_count(), 1);
    assert!(!manager.has_tab("tab-0"));
    assert!(manager.has_tab("tab-1"));
}

#[test]
fn test_tab_manager_cannot_close_last_tab() {
    let mut manager = TabManager::new();

    manager.create_tab(); // tab-0

    let result = manager.close_tab("tab-0");
    assert!(matches!(result, Err(AppError::CannotCloseLastTab)));
    assert_eq!(manager.tab_count(), 1);
}

#[test]
fn test_tab_manager_close_nonexistent_tab() {
    let mut manager = TabManager::new();

    manager.create_tab();

    let result = manager.close_tab("tab-999");
    assert!(matches!(result, Err(AppError::TabNotFound(_))));
}

#[test]
fn test_tab_manager_switch_tab() {
    let mut manager = TabManager::new();

    manager.create_tab(); // tab-0
    manager.create_tab(); // tab-1

    assert_eq!(manager.active_tab(), Some("tab-0"));

    let result = manager.switch_to_tab("tab-1");
    assert!(result.is_ok());
    assert_eq!(manager.active_tab(), Some("tab-1"));
}

#[test]
fn test_tab_manager_switch_to_nonexistent_tab() {
    let mut manager = TabManager::new();

    manager.create_tab();

    let result = manager.switch_to_tab("tab-999");
    assert!(result.is_err());
}

#[test]
fn test_tab_manager_close_active_tab_switches() {
    let mut manager = TabManager::new();

    manager.create_tab(); // tab-0
    manager.create_tab(); // tab-1
    manager.create_tab(); // tab-2

    // Focus tab-1, then close it.
    manager.switch_to_tab("tab-1").unwrap();
    assert_eq!(manager.active_tab(), Some("tab-1"));

    manager.close_tab("tab-1").unwrap();

    // The focus has moved to another tab.
    assert!(manager.active_tab().is_some());
    assert_ne!(manager.active_tab(), Some("tab-1"));
}

#[test]
fn test_tab_manager_get_tab_ids() {
    let mut manager = TabManager::new();

    manager.create_tab();
    manager.create_tab();
    manager.create_tab();

    let ids = manager.get_tab_ids();
    assert_eq!(ids.len(), 3);
    assert!(ids.contains(&"tab-0".to_string()));
    assert!(ids.contains(&"tab-1".to_string()));
    assert!(ids.contains(&"tab-2".to_string()));
}

#[test]
fn test_tab_manager_tab_numbers_increment() {
    let mut manager = TabManager::new();

    manager.create_tab(); // tab-0
    manager.create_tab(); // tab-1
    manager.close_tab("tab-0").unwrap();

    // The counter never goes back: the next tab is tab-2, not tab-0.
    let new_tab = manager.create_tab();
    assert_eq!(new_tab, "tab-2");
}

#[test]
fn closing_the_focused_tab_moves_focus_to_the_oldest_left() {
    let mut manager = TabManager::new();
    manager.create_tab();
    manager.create_tab();
    manager.create_tab();
    manager.close_tab("tab-0").unwrap();
    assert_eq!(manager.active_tab(), Some("tab-1"));
    assert_eq!(manager.get_tab_ids(), vec!["tab-1".to_string(), "tab-2".to_string()]);
}

#[test]
fn closing_an_unfocused_tab_keeps_the_focus() {
    let mut manager = TabManager::new();
    manager.create_tab();
    manager.create_tab();
    manager.create_tab();
    manager.close_tab("tab-2").unwrap();
    assert_eq!(manager.active_tab(), Some("tab-0"));
    assert_eq!(manager.tab_count(), 2);
}

#[test]
fn new_and_default_trackers_are_empty() {
    let manager = TabManager::new();
    assert_eq!(manager.tab_count(), 0);
    assert_eq!(manager.active_tab(), None);
    assert_eq!(manager.next_tab_number(), 0);
    assert!(manager.get_tab_ids().is_empty());
    let other = TabManager::default();
    assert_eq!(other.tab_count(), 0);
}

#[test]
fn tab_not_found_names_the_tab() {
    let mut manager = TabManager::new();
    manager.create_tab();
    match manager.switch_to_tab("tab-7") {
        Err(AppError::TabNotFound(s)) => assert_eq!(s, "tab-7"),
        _ => panic!("expected TabNotFound"),
    }
    assert_eq!(manager.active_tab(), Some("tab-0"));
}

#[test]
fn labels_past_nine_use_all_digits() {
    let mut manager = TabManager::new();
    let mut last = String::new();
    for _ in 0..12 {
        last = manager.create_tab();
    }
    assert_eq!(last, "tab-11");
    assert_eq!(manager.next_tab_number(), 12);
    assert!(manager.has_tab("tab-10"));
    assert!(!manager.has_tab("tab-010"));
}

#[test]
fn tab_ids_come_in_numeric_order() {
    let mut manager = TabManager::new();
    for _ in 0..12 {
        manager.create_tab();
    }
    manager.close_tab("tab-3").unwrap();
    let ids = manager.get_tab_ids();
    let expected: Vec<String> =
        (0..12).filter(|n| *n != 3).map(|n| format!("tab-{}", n)).collect();
    assert_eq!(ids, expected);
}
