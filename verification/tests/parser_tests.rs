//! Tests for frontmatter extraction and the property reader.

use skills_ref::{parse_frontmatter, read_properties, FmValue, SkillError};

fn get_str(m: &skills_ref::FrontmatterMap, key: &str) -> Option<String> {
    match m.get(&key.to_string()) {
        Some(FmValue::Str(s)) => Some(s.clone()),
        _ => None,
    }
}

#[test]
fn test_parse_frontmatter_valid() {
    let content = "---\nname: my-skill\ndescription: A test skill\n---\n# Body\n";
    let (metadata, body) = parse_frontmatter(content).unwrap();
    assert_eq!(get_str(&metadata, "name").unwrap(), "my-skill");
    assert_eq!(get_str(&metadata, "description").unwrap(), "A test skill");
    assert_eq!(body, "# Body");
}

#[test]
fn test_parse_frontmatter_missing_start() {
    let content = "name: my-skill\n---\n# Body";
    let result = parse_frontmatter(content);
    assert!(result.is_err());
    assert!(result
        .unwrap_err()
        .message()
        .contains("must start with YAML frontmatter"));
}

#[test]
fn test_parse_frontmatter_unclosed() {
    let content = "---\nname: my-skill\n# Body";
    let result = parse_frontmatter(content);
    assert!(result.is_err());
    assert!(result.unwrap_err().message().contains("not properly closed"));
}

#[test]
fn test_parse_frontmatter_invalid_yaml() {
    let content = "---\nname: [unclosed\n---\nBody";
    let result = parse_frontmatter(content);
    assert!(result.is_err());
    assert!(result
        .unwrap_err()
        .message()
        .contains("Invalid YAML in frontmatter"));
}

#[test]
fn test_read_properties_valid() {
    let content = "---\nname: my-skill\ndescription: A test skill\nlicense: MIT\n---\n# Body\n";
    let props = read_properties(content).unwrap();
    assert_eq!(props.name, "my-skill");
    assert_eq!(props.description, "A test skill");
    assert_eq!(props.license, Some("MIT".to_string()));
}

#[test]
fn test_read_properties_with_metadata() {
    let content =
        "---\nname: my-skill\ndescription: A test skill\nmetadata:\n  author: Test\n  version: \"1.0\"\n---\n# Body\n";
    let props = read_properties(content).unwrap();
    let metadata = props.metadata.unwrap();
    let get = |key: &str| -> Option<String> {
        metadata
            .iter()
            .find(|(k, _)| k == key)
            .map(|(_, v)| v.clone())
    };
    assert_eq!(get("author").unwrap(), "Test");
    assert_eq!(get("version").unwrap(), "1.0");
}

#[test]
fn test_read_properties_missing_name() {
    let content = "---\ndescription: A test skill\n---\n# Body\n";
    let result = read_properties(content);
    assert!(result.is_err());
    assert!(result.unwrap_err().message().contains("name"));
}

#[test]
fn test_read_properties_missing_description() {
    let content = "---\nname: my-skill\n---\n# Body\n";
    let result = read_properties(content);
    assert!(result.is_err());
    assert!(result.unwrap_err().message().contains("description"));
}

#[test]
fn test_read_properties_trims_required_fields() {
    let content = "---\nname: \" my-skill \"\ndescription: \"  padded  \"\n---\nBody\n";
    let props = read_properties(content).unwrap();
    assert_eq!(props.name, "my-skill");
    assert_eq!(props.description, "padded");
}

#[test]
fn test_read_properties_nonstring_optional_ignored() {
    let content = "---\nname: my-skill\ndescription: A test skill\nlicense: 7\n---\nBody\n";
    let props = read_properties(content).unwrap();
    assert!(props.license.is_none());
}

#[test]
fn test_read_properties_metadata_nonstring_value_stringified() {
    let content = "---\nname: my-skill\ndescription: A test skill\nmetadata:\n  version: 2\n---\nBody\n";
    let props = read_properties(content).unwrap();
    let metadata = props.metadata.unwrap();
    assert_eq!(metadata.len(), 1);
    assert_eq!(metadata[0].0, "version");
    assert_eq!(metadata[0].1, "Number(2)");
}

#[test]
fn test_read_properties_empty_metadata_absent() {
    let content = "---\nname: my-skill\ndescription: A test skill\nmetadata: {}\n---\nBody\n";
    let props = read_properties(content).unwrap();
    assert!(props.metadata.is_none());
}

#[test]
fn test_error_constructors() {
    let e = SkillError::parse("bad header".to_string());
    assert_eq!(e.message(), "bad header");
    assert!(e.errors().is_none());

    let e = SkillError::validation("one problem".to_string());
    assert_eq!(e.message(), "one problem");
    assert_eq!(e.errors().unwrap(), &vec!["one problem".to_string()]);

    let e = SkillError::validation_multiple(
        "two problems".to_string(),
        vec!["first".to_string(), "second".to_string()],
    );
    assert_eq!(e.message(), "two problems");
    assert_eq!(e.errors().unwrap().len(), 2);

    let e = SkillError::Io("file vanished".to_string());
    assert_eq!(e.message(), "IO error: file vanished");
}
