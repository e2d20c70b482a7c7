use tors::grouping::group_tasks;
use tors::model::Task;

fn task(id: u64, name: &str, category: Option<&str>) -> Task {
    Task {
        id,
        name: name.to_string(),
        description: String::new(),
        eta: String::new(),
        category: category.map(|c| c.to_string()),
    }
}

#[test]
fn groups_split_by_category_with_uncategorized_label() {
    let tasks = vec![
        task(1, "alpha", Some("Work")),
        task(2, "beta", None),
        task(3, "gamma", Some("Work")),
    ];
    let groups = group_tasks(&tasks, "Uncategorized");
    assert_eq!(groups.len(), 2);
    assert_eq!(groups[0].label, "Work");
    let work_names: Vec<&str> = groups[0].tasks.iter().map(|t| t.name.as_str()).collect();
    assert_eq!(work_names, vec!["alpha", "gamma"]);
    assert_eq!(groups[1].label, "Uncategorized");
    assert_eq!(groups[1].tasks.len(), 1);
    assert_eq!(groups[1].tasks[0].name, "beta");
}

#[test]
fn groups_use_the_remote_mode_label_when_asked() {
    let tasks = vec![task(1, "alpha", Some("Work")), task(2, "beta", None)];
    let groups = group_tasks(&tasks, "No Category");
    assert_eq!(groups.len(), 2);
    assert_eq!(groups[1].label, "No Category");
    assert_eq!(groups[1].tasks[0].name, "beta");
}

#[test]
fn group_order_follows_first_appearance() {
    let tasks = vec![
        task(1, "a", None),
        task(2, "b", Some("Home")),
        task(3, "c", Some("Work")),
        task(4, "d", Some("Home")),
    ];
    let groups = group_tasks(&tasks, "Uncategorized");
    let labels: Vec<&str> = groups.iter().map(|g| g.label.as_str()).collect();
    assert_eq!(labels, vec!["Uncategorized", "Home", "Work"]);
    let home_ids: Vec<u64> = groups[1].tasks.iter().map(|t| t.id).collect();
    assert_eq!(home_ids, vec![2, 4]);
}

#[test]
fn a_registry_lists_its_tasks_grouped() {
    let mut reg = tors::registry::Registry::new();
    reg.create_task("alpha".to_string(), String::new(), String::new());
    reg.create_task("beta".to_string(), String::new(), String::new());
    reg.create_task("gamma".to_string(), String::new(), String::new());
    reg.create_category("Work".to_string());
    reg.assign_category(1, 1).unwrap();
    reg.assign_category(3, 1).unwrap();
    let groups = reg.list_tasks_grouped();
    assert_eq!(groups.len(), 2);
    assert_eq!(groups[0].label, "Work");
    let work: Vec<&str> = groups[0].tasks.iter().map(|t| t.name.as_str()).collect();
    assert_eq!(work, vec!["alpha", "gamma"]);
    assert_eq!(groups[1].label, "Uncategorized");
    assert_eq!(groups[1].tasks[0].name, "beta");
}

#[test]
fn grouping_no_tasks_yields_no_groups() {
    let tasks: Vec<Task> = Vec::new();
    let groups = group_tasks(&tasks, "Uncategorized");
    assert!(groups.is_empty());
}

#[test]
fn a_category_named_like_the_absent_label_shares_its_group() {
    let tasks = vec![task(1, "a", Some("Uncategorized")), task(2, "b", None)];
    let groups = group_tasks(&tasks, "Uncategorized");
    assert_eq!(groups.len(), 1);
    assert_eq!(groups[0].tasks.len(), 2);
}
