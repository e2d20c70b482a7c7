use tors::errors::TrackerError;
use tors::registry::Registry;

fn sample_registry() -> Registry {
    let mut reg = Registry::new();
    reg.create_task(
        "Write report".to_string(),
        "Quarterly summary".to_string(),
        "2d".to_string(),
    );
    reg.create_task("Fix bug".to_string(), "Login crash".to_string(), "4h".to_string());
    reg.create_category("Work".to_string());
    reg
}

#[test]
fn new_registry_is_empty_with_default_theme() {
    let reg = Registry::new();
    assert_eq!(reg.tasks.len(), 0);
    assert_eq!(reg.categories.len(), 0);
    assert_eq!(reg.theme, "Desert");
}

#[test]
fn creating_tasks_yields_sequential_ids() {
    let mut reg = Registry::new();
    let ids: Vec<u64> = (0..5)
        .map(|i| {
            reg.create_task(format!("task {}", i), String::new(), String::new()).id
        })
        .collect();
    assert_eq!(ids, vec![1, 2, 3, 4, 5]);
    for (i, t) in reg.tasks.iter().enumerate() {
        assert_eq!(t.id, (i + 1) as u64);
    }
}

#[test]
fn creating_categories_yields_sequential_ids() {
    let mut reg = Registry::new();
    assert_eq!(reg.create_category("Home".to_string()).id, 1);
    assert_eq!(reg.create_category("Work".to_string()).id, 2);
    assert_eq!(reg.create_category("Play".to_string()).id, 3);
}

#[test]
fn id_after_delete_collides_with_survivor() {
    let mut reg = Registry::new();
    reg.create_task("a".to_string(), String::new(), String::new());
    reg.create_task("b".to_string(), String::new(), String::new());
    reg.create_task("c".to_string(), String::new(), String::new());
    assert!(reg.delete_task(2).is_ok());
    assert_eq!(reg.tasks.len(), 2);
    let fresh = reg.create_task("d".to_string(), String::new(), String::new());
    assert_eq!(fresh.id, 3);
    let with_id_3: Vec<&str> = reg
        .tasks
        .iter()
        .filter(|t| t.id == 3)
        .map(|t| t.name.as_str())
        .collect();
    assert_eq!(with_id_3, vec!["c", "d"]);
}

#[test]
fn assign_category_stamps_name_snapshot() {
    let mut reg = sample_registry();
    assert!(reg.assign_category(1, 1).is_ok());
    assert_eq!(reg.tasks[0].category.as_deref(), Some("Work"));
    assert!(reg.edit_category(1, "Office".to_string()).is_ok());
    assert_eq!(reg.categories[0].name, "Office");
    assert_eq!(reg.tasks[0].category.as_deref(), Some("Work"));
}

#[test]
fn assign_category_unknown_category_reports_not_found() {
    let mut reg = sample_registry();
    let before_name = reg.tasks[0].name.clone();
    let r = reg.assign_category(1, 99);
    assert_eq!(r, Err(TrackerError::NotFound));
    assert_eq!(reg.tasks[0].name, before_name);
    assert_eq!(reg.tasks[0].category, None);
}

#[test]
fn assign_category_unknown_task_reports_not_found() {
    let mut reg = sample_registry();
    let r = reg.assign_category(42, 1);
    assert_eq!(r, Err(TrackerError::NotFound));
    assert!(reg.tasks.iter().all(|t| t.category.is_none()));
}

#[test]
fn edit_task_bogus_field_reports_invalid_input() {
    let mut reg = sample_registry();
    let r = reg.edit_task(1, "bogus", "nope".to_string());
    assert_eq!(r, Err(TrackerError::InvalidInput));
    assert_eq!(reg.tasks[0].name, "Write report");
    assert_eq!(reg.tasks[0].description, "Quarterly summary");
    assert_eq!(reg.tasks[0].eta, "2d");
}

#[test]
fn edit_task_replaces_named_field() {
    let mut reg = sample_registry();
    assert!(reg.edit_task(2, "name", "Fix crash".to_string()).is_ok());
    assert!(reg.edit_task(2, "description", "Crash at login".to_string()).is_ok());
    assert!(reg.edit_task(2, "eta", "1d".to_string()).is_ok());
    assert_eq!(reg.tasks[1].name, "Fix crash");
    assert_eq!(reg.tasks[1].description, "Crash at login");
    assert_eq!(reg.tasks[1].eta, "1d");
    assert_eq!(reg.tasks[0].name, "Write report");
}

#[test]
fn edit_task_unknown_id_reports_not_found() {
    let mut reg = sample_registry();
    assert_eq!(reg.edit_task(7, "name", "x".to_string()), Err(TrackerError::NotFound));
}

#[test]
fn edit_category_unknown_id_reports_not_found() {
    let mut reg = sample_registry();
    assert_eq!(reg.edit_category(9, "x".to_string()), Err(TrackerError::NotFound));
}

#[test]
fn delete_task_removes_only_first_match() {
    let mut reg = sample_registry();
    assert!(reg.delete_task(1).is_ok());
    assert_eq!(reg.tasks.len(), 1);
    assert_eq!(reg.tasks[0].name, "Fix bug");
    assert_eq!(reg.delete_task(1), Err(TrackerError::NotFound));
}

#[test]
fn delete_category_leaves_stale_references() {
    let mut reg = sample_registry();
    assert!(reg.assign_category(1, 1).is_ok());
    assert!(reg.delete_category(1).is_ok());
    assert_eq!(reg.categories.len(), 0);
    assert_eq!(reg.tasks[0].category.as_deref(), Some("Work"));
    assert_eq!(reg.delete_category(1), Err(TrackerError::NotFound));
}

#[test]
fn theme_change_unrecognized_name_is_rejected() {
    let mut reg = Registry::new();
    assert!(reg.set_theme("Oasis").is_ok());
    let r = reg.set_theme("Midnight");
    assert_eq!(r, Err(TrackerError::InvalidInput));
    assert_eq!(reg.theme, "Oasis");
}

#[test]
fn theme_change_accepts_each_recognized_name() {
    let mut reg = Registry::new();
    for name in ["Desert", "Oasis", "Forest", "Snow"] {
        assert!(reg.set_theme(name).is_ok());
        assert_eq!(reg.theme, name);
    }
}

#[test]
fn error_messages_describe_each_variant() {
    assert_eq!(TrackerError::NotFound.message(), "not found");
    assert_eq!(TrackerError::InvalidInput.message(), "invalid input");
    assert_eq!(TrackerError::TransportError("no route".to_string()).message(), "no route");
    assert_eq!(TrackerError::RemoteFailure("bad gateway".to_string()).message(), "bad gateway");
    assert_eq!(TrackerError::PersistenceFailure.message(), "persistence failure");
}
