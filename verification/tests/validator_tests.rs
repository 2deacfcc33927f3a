//! Tests for the validator: structural short-circuiting over an observed
//! directory state, and the accumulating rule set over a parsed header.

use skills_ref::{read_properties, validate, DirectoryProbe};

fn validate_content(name: &str, content: &str) -> Vec<String> {
    let probe = DirectoryProbe::Readable {
        content: content.to_string(),
    };
    validate(&probe, &Some(name.to_string()))
}

#[test]
fn test_valid_skill() {
    let errors = validate_content(
        "my-skill",
        "---\nname: my-skill\ndescription: A test skill\n---\n# My Skill\n",
    );
    assert!(errors.is_empty(), "Expected no errors, got: {:?}", errors);
}

#[test]
fn test_nonexistent_path() {
    let probe = DirectoryProbe::Missing {
        path: "nonexistent".to_string(),
    };
    let errors = validate(&probe, &None);
    assert_eq!(errors.len(), 1);
    assert!(errors[0].contains("does not exist"));
}

#[test]
fn test_not_a_directory() {
    let probe = DirectoryProbe::NotDirectory {
        path: "file.txt".to_string(),
    };
    let errors = validate(&probe, &None);
    assert_eq!(errors.len(), 1);
    assert!(errors[0].contains("Not a directory"));
}

#[test]
fn test_missing_skill_md() {
    let probe = DirectoryProbe::NoDescriptor;
    let errors = validate(&probe, &Some("my-skill".to_string()));
    assert_eq!(errors.len(), 1);
    assert!(errors[0].contains("Missing required file: SKILL.md"));
}

#[test]
fn test_unreadable_document() {
    let probe = DirectoryProbe::Unreadable {
        path: "my-skill/SKILL.md".to_string(),
        error: "permission denied".to_string(),
    };
    let errors = validate(&probe, &Some("my-skill".to_string()));
    assert_eq!(
        errors,
        vec!["Failed to read my-skill/SKILL.md: permission denied".to_string()]
    );
}

#[test]
fn test_invalid_name_uppercase() {
    let errors = validate_content(
        "MySkill",
        "---\nname: MySkill\ndescription: A test skill\n---\nBody\n",
    );
    assert!(errors.iter().any(|e| e.contains("lowercase")));
}

#[test]
fn test_name_too_long() {
    let long_name = "a".repeat(70);
    let errors = validate_content(
        &long_name,
        &format!("---\nname: {}\ndescription: A test skill\n---\nBody\n", long_name),
    );
    assert!(errors
        .iter()
        .any(|e| e.contains("exceeds") && e.contains("character limit")));
}

#[test]
fn test_name_length_boundary() {
    let name64 = "a".repeat(64);
    let errors = validate_content(
        &name64,
        &format!("---\nname: {}\ndescription: A test skill\n---\nBody\n", name64),
    );
    assert!(errors.is_empty(), "Expected no errors, got: {:?}", errors);

    let name65 = "a".repeat(65);
    let errors = validate_content(
        &name65,
        &format!("---\nname: {}\ndescription: A test skill\n---\nBody\n", name65),
    );
    assert_eq!(errors.len(), 1);
    assert!(errors[0].contains("64"));
    assert!(errors[0].contains("65"));
    assert!(errors[0].contains("(65 chars)"));
}

#[test]
fn test_name_leading_hyphen() {
    let errors = validate_content(
        "-my-skill",
        "---\nname: -my-skill\ndescription: A test skill\n---\nBody\n",
    );
    assert!(errors
        .iter()
        .any(|e| e.contains("cannot start or end with a hyphen")));
}

#[test]
fn test_name_trailing_hyphen() {
    let errors = validate_content(
        "my-skill-",
        "---\nname: my-skill-\ndescription: A test skill\n---\nBody\n",
    );
    assert!(errors
        .iter()
        .any(|e| e.contains("cannot start or end with a hyphen")));
}

#[test]
fn test_name_consecutive_hyphens() {
    let errors = validate_content(
        "my--skill",
        "---\nname: my--skill\ndescription: A test skill\n---\nBody\n",
    );
    assert!(errors.iter().any(|e| e.contains("consecutive hyphens")));
}

#[test]
fn test_name_invalid_characters() {
    let errors = validate_content(
        "my_skill",
        "---\nname: my_skill\ndescription: A test skill\n---\nBody\n",
    );
    assert!(errors.iter().any(|e| e.contains("invalid characters")));
}

#[test]
fn test_name_directory_mismatch() {
    let errors = validate_content(
        "wrong-name",
        "---\nname: correct-name\ndescription: A test skill\n---\nBody\n",
    );
    assert!(errors.iter().any(|e| e.contains("must match skill name")));
}

#[test]
fn test_unexpected_fields() {
    let errors = validate_content(
        "my-skill",
        "---\nname: my-skill\ndescription: A test skill\nunknown_field: should not be here\n---\nBody\n",
    );
    assert!(errors.iter().any(|e| e.contains("Unexpected fields")));
    assert!(errors.iter().any(|e| e.contains("unknown_field")));
}

#[test]
fn test_unexpected_fields_sorted() {
    let errors = validate_content(
        "my-skill",
        "---\nname: my-skill\ndescription: A test skill\nzeta: 1\nalpha: 2\n---\nBody\n",
    );
    assert_eq!(errors.len(), 1);
    assert!(errors[0].contains("alpha, zeta"));
    assert!(errors[0].contains(
        "Only [\"allowed-tools\", \"compatibility\", \"description\", \"license\", \"metadata\", \"name\"] are allowed."
    ));
}

#[test]
fn test_valid_with_all_fields() {
    let errors = validate_content(
        "my-skill",
        "---\nname: my-skill\ndescription: A test skill\nlicense: MIT\nmetadata:\n  author: Test\n---\nBody\n",
    );
    assert!(errors.is_empty(), "Expected no errors, got: {:?}", errors);
}

#[test]
fn test_allowed_tools_accepted() {
    let errors = validate_content(
        "my-skill",
        "---\nname: my-skill\ndescription: A test skill\nallowed-tools: Bash(jq:*) Bash(git:*)\n---\nBody\n",
    );
    assert!(errors.is_empty(), "Expected no errors, got: {:?}", errors);
}

#[test]
fn test_i18n_chinese_name() {
    let errors = validate_content(
        "技能",
        "---\nname: 技能\ndescription: A skill with Chinese name\n---\nBody\n",
    );
    assert!(errors.is_empty(), "Expected no errors, got: {:?}", errors);
}

#[test]
fn test_i18n_russian_name_with_hyphens() {
    let errors = validate_content(
        "мой-навык",
        "---\nname: мой-навык\ndescription: A skill with Russian name\n---\nBody\n",
    );
    assert!(errors.is_empty(), "Expected no errors, got: {:?}", errors);
}

#[test]
fn test_i18n_russian_lowercase_valid() {
    let errors = validate_content(
        "навык",
        "---\nname: навык\ndescription: A skill with Russian lowercase name\n---\nBody\n",
    );
    assert!(errors.is_empty(), "Expected no errors, got: {:?}", errors);
}

#[test]
fn test_i18n_russian_uppercase_rejected() {
    let errors = validate_content(
        "НАВЫК",
        "---\nname: НАВЫК\ndescription: A skill with Russian uppercase name\n---\nBody\n",
    );
    assert!(errors.iter().any(|e| e.contains("lowercase")));
}

#[test]
fn test_description_too_long() {
    let long_desc = "x".repeat(1100);
    let errors = validate_content(
        "my-skill",
        &format!("---\nname: my-skill\ndescription: {}\n---\nBody\n", long_desc),
    );
    assert!(errors
        .iter()
        .any(|e| e.contains("exceeds") && e.contains("1024")));
    assert!(errors.iter().any(|e| e.contains("(1100 chars)")));
}

#[test]
fn test_valid_compatibility() {
    let errors = validate_content(
        "my-skill",
        "---\nname: my-skill\ndescription: A test skill\ncompatibility: Requires Python 3.11+\n---\nBody\n",
    );
    assert!(errors.is_empty(), "Expected no errors, got: {:?}", errors);
}

#[test]
fn test_compatibility_too_long() {
    let long_compat = "x".repeat(550);
    let errors = validate_content(
        "my-skill",
        &format!(
            "---\nname: my-skill\ndescription: A test skill\ncompatibility: {}\n---\nBody\n",
            long_compat
        ),
    );
    assert!(errors
        .iter()
        .any(|e| e.contains("exceeds") && e.contains("500")));
}

#[test]
fn test_nfkc_normalization() {
    let decomposed_name = "cafe\u{0301}";
    let composed_name = "café";
    let probe = DirectoryProbe::Readable {
        content: format!(
            "---\nname: {}\ndescription: A test skill\n---\nBody\n",
            decomposed_name
        ),
    };
    let errors = validate(&probe, &Some(composed_name.to_string()));
    assert!(errors.is_empty(), "Expected no errors, got: {:?}", errors);
}

#[test]
fn test_name_trimmed_before_checks() {
    let errors = validate_content(
        "my-skill",
        "---\nname: \" my-skill \"\ndescription: A test skill\n---\nBody\n",
    );
    assert!(errors.is_empty(), "Expected no errors, got: {:?}", errors);
}

#[test]
fn test_nonstring_name_is_shape_violation() {
    let errors = validate_content(
        "my-skill",
        "---\nname: [1, 2]\ndescription: A test skill\n---\nBody\n",
    );
    assert_eq!(
        errors,
        vec!["Field 'name' must be a non-empty string".to_string()]
    );
}

#[test]
fn test_missing_fields_both_reported() {
    let errors = validate_content("my-skill", "---\nlicense: MIT\n---\nBody\n");
    assert_eq!(
        errors,
        vec![
            "Missing required field in frontmatter: name".to_string(),
            "Missing required field in frontmatter: description".to_string(),
        ]
    );
}

#[test]
fn test_validate_idempotent_scenario() {
    let content = "---\nname: MySkill\ndescription: A test skill\nextra: 1\n---\nBody\n";
    let first = validate_content("other-name", content);
    let second = validate_content("other-name", content);
    assert_eq!(first, second);
    assert!(first.len() >= 2);
}

#[test]
fn test_validate_agrees_with_read_scenario() {
    let valid = "---\nname: my-skill\ndescription: A test skill\n---\nBody\n";
    assert!(validate_content("my-skill", valid).is_empty());
    assert!(read_properties(valid).is_ok());

    let invalid = "---\nname: my-skill\n---\nBody\n";
    assert!(!validate_content("my-skill", invalid).is_empty());
    assert!(read_properties(invalid).is_err());
}
