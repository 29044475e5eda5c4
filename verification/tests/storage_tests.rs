use wallctl::config::CollectionConfig;
use wallctl::storage::{creation_check, removal_check, sorted_by_name, StorageError};

#[test]
fn collections_are_listed_by_name() {
    let configs = vec![
        CollectionConfig::new_static("zeta".to_string(), "Z".to_string()),
        CollectionConfig::new_static("alpha".to_string(), "A".to_string()),
        CollectionConfig::new_dynamic("mid".to_string(), "M".to_string()),
    ];
    let names: Vec<String> = sorted_by_name(configs).into_iter().map(|c| c.name).collect();
    assert_eq!(names, vec!["alpha", "mid", "zeta"]);
}

#[test]
fn active_or_missing_collections_cannot_be_removed() {
    assert!(matches!(
        removal_check("focus", Some("focus"), true),
        Err(StorageError::ActiveCollection { .. })
    ));
    assert!(matches!(
        removal_check("focus", Some("other"), false),
        Err(StorageError::NotFound { .. })
    ));
    assert!(removal_check("focus", None, true).is_ok());
    assert!(matches!(
        creation_check("focus", true),
        Err(StorageError::AlreadyExists { name }) if name == "focus"
    ));
    assert!(creation_check("focus", false).is_ok());
}
