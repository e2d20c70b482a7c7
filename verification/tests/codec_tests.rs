use tors::codec::{decode_registry, encode_registry, load_registry};
use tors::errors::TrackerError;
use tors::registry::Registry;

fn populated_registry() -> Registry {
    let mut reg = Registry::new();
    reg.create_task(
        "Write report".to_string(),
        "with: colons, +plus, -minus".to_string(),
        "2d".to_string(),
    );
    reg.create_task("Unicode \u{e9}\u{1f600}".to_string(), String::new(), "eta\nnewline".to_string());
    reg.create_category("Work".to_string());
    reg.create_category("Home".to_string());
    reg.assign_category(2, 1).unwrap();
    reg.set_theme("Snow").unwrap();
    reg
}

fn assert_same_registry(a: &Registry, b: &Registry) {
    assert_eq!(a.theme, b.theme);
    assert_eq!(a.tasks, b.tasks);
    assert_eq!(a.categories, b.categories);
}

#[test]
fn round_trip_reproduces_the_registry() {
    let reg = populated_registry();
    let doc = encode_registry(&reg);
    let back = decode_registry(&doc).expect("the encoded document decodes");
    assert_same_registry(&reg, &back);
}

#[test]
fn round_trip_of_the_empty_registry() {
    let reg = Registry::new();
    let doc = encode_registry(&reg);
    let back = decode_registry(&doc).expect("the encoded document decodes");
    assert_same_registry(&reg, &back);
}

#[test]
fn encoding_of_the_empty_registry_is_exact() {
    let reg = Registry::new();
    assert_eq!(encode_registry(&reg), "6:Desert0:0:");
}

#[test]
fn encoding_of_one_task_and_category_is_exact() {
    let mut reg = Registry::new();
    reg.create_task("ab".to_string(), "c".to_string(), String::new());
    reg.create_category("d".to_string());
    assert_eq!(encode_registry(&reg), "6:Desert1:1:2:ab1:c0:-1:1:1:d");
}

#[test]
fn decoding_an_explicit_document_is_exact() {
    let reg = decode_registry("4:Snow1:7:2:ab1:c0:+1:x0:").expect("well formed");
    assert_eq!(reg.theme, "Snow");
    assert_eq!(reg.tasks.len(), 1);
    assert_eq!(reg.tasks[0].id, 7);
    assert_eq!(reg.tasks[0].name, "ab");
    assert_eq!(reg.tasks[0].description, "c");
    assert_eq!(reg.tasks[0].eta, "");
    assert_eq!(reg.tasks[0].category.as_deref(), Some("x"));
    assert_eq!(reg.categories.len(), 0);
}

#[test]
fn malformed_documents_are_rejected() {
    assert!(decode_registry("").is_none());
    assert!(decode_registry("6:Desert").is_none());
    assert!(decode_registry("6:Desert0:0:junk").is_none());
    assert!(decode_registry("x:Desert0:0:").is_none());
    assert!(decode_registry("7:Desert0:0:").is_none());
    assert!(decode_registry("6:Desert2:0:").is_none());
    assert!(decode_registry("6:Desert0:99999999999999999999999:").is_none());
}

#[test]
fn loading_nothing_yields_the_defaults() {
    let reg = load_registry(None).expect("an absent document is not an error");
    assert_eq!(reg.theme, "Desert");
    assert!(reg.tasks.is_empty());
    assert!(reg.categories.is_empty());
}

#[test]
fn loading_a_saved_document_restores_the_state() {
    let reg = populated_registry();
    let doc = encode_registry(&reg);
    let back = load_registry(Some(&doc)).expect("a saved document loads");
    assert_same_registry(&reg, &back);
}

#[test]
fn loading_a_corrupt_document_is_a_persistence_failure() {
    let r = load_registry(Some("not a document"));
    assert_eq!(r.unwrap_err(), TrackerError::PersistenceFailure);
}
