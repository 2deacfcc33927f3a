//! Tests for the skill properties record and its key-value form.

use skills_ref::{DictValue, SkillProperties};

fn dict_get(dict: &[(String, DictValue)], key: &str) -> Option<DictValue> {
    for (k, v) in dict {
        if k == key {
            return Some(v.clone());
        }
    }
    None
}

fn dict_get_str(dict: &[(String, DictValue)], key: &str) -> Option<String> {
    match dict_get(dict, key) {
        Some(DictValue::Str(s)) => Some(s),
        _ => None,
    }
}

#[test]
fn test_new_skill_properties() {
    let props = SkillProperties::new("my-skill", "A test skill");
    assert_eq!(props.name, "my-skill");
    assert_eq!(props.description, "A test skill");
    assert!(props.license.is_none());
    assert!(props.metadata.is_none());
}

#[test]
fn test_to_dict_minimal() {
    let props = SkillProperties::new("my-skill", "A test skill");
    let dict = props.to_dict();

    assert_eq!(dict.len(), 2);
    assert_eq!(dict_get_str(&dict, "name").unwrap(), "my-skill");
    assert_eq!(dict_get_str(&dict, "description").unwrap(), "A test skill");
}

#[test]
fn test_to_dict_with_optional_fields() {
    let mut props = SkillProperties::new("my-skill", "A test skill");
    props.license = Some("MIT".to_string());
    props.compatibility = Some("Python 3.11+".to_string());
    props.allowed_tools = Some("Bash(git:*)".to_string());

    let metadata = vec![("author".to_string(), "Test".to_string())];
    props.metadata = Some(metadata);

    let dict = props.to_dict();

    assert_eq!(dict.len(), 6);
    assert_eq!(dict_get_str(&dict, "license").unwrap(), "MIT");
    assert_eq!(dict_get_str(&dict, "compatibility").unwrap(), "Python 3.11+");
    assert_eq!(dict_get_str(&dict, "allowed-tools").unwrap(), "Bash(git:*)");
}

#[test]
fn test_to_dict_metadata_entry() {
    let mut props = SkillProperties::new("my-skill", "A test skill");
    props.metadata = Some(vec![("author".to_string(), "Test".to_string())]);
    let dict = props.to_dict();
    match dict_get(&dict, "metadata") {
        Some(DictValue::Mapping(pairs)) => {
            assert_eq!(pairs, vec![("author".to_string(), "Test".to_string())]);
        }
        _ => panic!("metadata entry missing or not a mapping"),
    }
}

#[test]
fn test_to_dict_omits_absent_fields() {
    let props = SkillProperties::new("my-skill", "A test skill");
    let dict = props.to_dict();
    assert!(dict_get(&dict, "license").is_none());
    assert!(dict_get(&dict, "compatibility").is_none());
    assert!(dict_get(&dict, "allowed-tools").is_none());
    assert!(dict_get(&dict, "metadata").is_none());
}
